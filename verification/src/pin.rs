//! What the pin daemon is asked to do.

use vstd::prelude::*;

use crate::error::{Result, VshotError};
use crate::path::FilePath;

verus! {

/// A control message for the daemon.
#[derive(Clone, Copy, Debug, PartialEq, Eq, Structural)]
pub enum PinCommand {
    Toggle,
    Show,
    Hide,
    CloseAll,
    Quit,
    List,
}

/// One run of `vshot pin`: images to pin, or one control message.
#[derive(Clone, Debug, PartialEq, Eq)]
pub struct PinInvocation {
    pub files: Vec<FilePath>,
    /// Whether the clipboard is pinned too.
    pub clipboard: bool,
    pub command: Option<PinCommand>,
    pub density: Option<u32>,
}

pub const ONE_CONTROL_FLAG: &'static str =
    "--toggle, --show, --hide, --close-all, --quit and --list are mutually exclusive";

pub const CONTROL_WITHOUT_IMAGES: &'static str =
    "a control flag takes no images and no --clipboard: it drives the pins that are already there";

pub const NOTHING_TO_PIN: &'static str =
    "name the images to pin, give --clipboard, or give a control flag such as --toggle";

/// The control messages the flags ask for, in the order of the parameters.
pub open spec fn control_flags(
    toggle: bool,
    show: bool,
    hide: bool,
    close_all: bool,
    quit: bool,
    list: bool,
) -> Seq<PinCommand> {
    (if toggle {
        seq![PinCommand::Toggle]
    } else {
        seq![]
    }) + (if show {
        seq![PinCommand::Show]
    } else {
        seq![]
    }) + (if hide {
        seq![PinCommand::Hide]
    } else {
        seq![]
    }) + (if close_all {
        seq![PinCommand::CloseAll]
    } else {
        seq![]
    }) + (if quit {
        seq![PinCommand::Quit]
    } else {
        seq![]
    }) + (if list {
        seq![PinCommand::List]
    } else {
        seq![]
    })
}

/// What a run amounts to: at most one control message, and images or a control
/// message but not both.
pub open spec fn pin_plan(
    files: Vec<FilePath>,
    clipboard: bool,
    flags: Seq<PinCommand>,
    density: Option<u32>,
) -> core::result::Result<PinInvocation, Seq<char>> {
    let images = files@.len() > 0 || clipboard;
    if flags.len() > 1 {
        Err(ONE_CONTROL_FLAG@)
    } else if flags.len() == 1 && images {
        Err(CONTROL_WITHOUT_IMAGES@)
    } else if flags.len() == 0 && !images {
        Err(NOTHING_TO_PIN@)
    } else {
        Ok(
            PinInvocation {
                files,
                clipboard,
                command: if flags.len() == 1 {
                    Some(flags[0])
                } else {
                    None
                },
                density,
            },
        )
    }
}

impl PinInvocation {
    /// Reads the flags of `vshot pin`.
    pub fn build(
        files: Vec<FilePath>,
        clipboard: bool,
        toggle: bool,
        show: bool,
        hide: bool,
        close_all: bool,
        quit: bool,
        list: bool,
        density: Option<u32>,
    ) -> (invocation: Result<PinInvocation>)
        ensures
            match invocation {
                Ok(invocation) => pin_plan(
                    files,
                    clipboard,
                    control_flags(toggle, show, hide, close_all, quit, list),
                    density,
                ) == Ok::<PinInvocation, Seq<char>>(invocation),
                Err(error) => error matches VshotError::InvalidDestination(text) && pin_plan(
                    files,
                    clipboard,
                    control_flags(toggle, show, hide, close_all, quit, list),
                    density,
                ) == Err::<PinInvocation, Seq<char>>(text@),
            },
    {
        let mut flags: Vec<PinCommand> = Vec::new();
        if toggle {
            flags.push(PinCommand::Toggle);
        }
        if show {
            flags.push(PinCommand::Show);
        }
        if hide {
            flags.push(PinCommand::Hide);
        }
        if close_all {
            flags.push(PinCommand::CloseAll);
        }
        if quit {
            flags.push(PinCommand::Quit);
        }
        if list {
            flags.push(PinCommand::List);
        }
        assert(flags@ =~= control_flags(toggle, show, hide, close_all, quit, list));
        let images = files.len() > 0 || clipboard;
        if flags.len() > 1 {
            return Err(VshotError::InvalidDestination(ONE_CONTROL_FLAG.to_owned()));
        }
        if flags.len() == 1 && images {
            return Err(VshotError::InvalidDestination(CONTROL_WITHOUT_IMAGES.to_owned()));
        }
        if flags.len() == 0 && !images {
            return Err(VshotError::InvalidDestination(NOTHING_TO_PIN.to_owned()));
        }
        let command = if flags.len() == 1 {
            Some(flags[0])
        } else {
            None
        };
        Ok(PinInvocation { files, clipboard, command, density })
    }
}

} // verus!
