//! The ways a wheel can be turned for a scrolling capture.

use vstd::prelude::*;

use crate::error::{Result, VshotError};
use crate::text::{concat3, same_text};

verus! {

/// Which wheel backend to use.
#[derive(Clone, Copy, Debug, PartialEq, Eq, Structural)]
pub enum Prefer {
    /// Try them in order.
    Auto,
    /// The compositor's virtual pointer protocol.
    Wlr,
    /// The XDG RemoteDesktop portal.
    Portal,
    /// `/dev/uinput`.
    Uinput,
}

impl Prefer {
    pub open spec fn named(name: Seq<char>) -> Option<Prefer> {
        if name == "auto"@ {
            Some(Prefer::Auto)
        } else if name == "wlr"@ {
            Some(Prefer::Wlr)
        } else if name == "portal"@ {
            Some(Prefer::Portal)
        } else if name == "uinput"@ {
            Some(Prefer::Uinput)
        } else {
            None
        }
    }

    pub open spec fn unknown(name: Seq<char>) -> Seq<char> {
        "unknown wheel backend `"@ + name + "`: pick one of auto, wlr, portal, uinput"@
    }

    /// The backend of this name.
    pub fn parse(name: &str) -> (prefer: Result<Prefer>)
        ensures
            match prefer {
                Ok(prefer) => Self::named(name@) == Some(prefer),
                Err(error) => {
                    &&& Self::named(name@) is None
                    &&& error matches VshotError::InvalidDestination(text)
                    &&& text@ == Self::unknown(name@)
                },
            },
    {
        if same_text(name, "auto") {
            Ok(Prefer::Auto)
        } else if same_text(name, "wlr") {
            Ok(Prefer::Wlr)
        } else if same_text(name, "portal") {
            Ok(Prefer::Portal)
        } else if same_text(name, "uinput") {
            Ok(Prefer::Uinput)
        } else {
            Err(
                VshotError::InvalidDestination(
                    concat3(
                        "unknown wheel backend `",
                        name,
                        "`: pick one of auto, wlr, portal, uinput",
                    ),
                ),
            )
        }
    }
}

/// A word asks for a backend exactly when it is that backend's name.
pub proof fn law_a_word_asks_for_the_backend_it_names(word: Seq<char>)
    ensures
        Prefer::named(word) == Some(Prefer::Auto) <==> word == "auto"@,
        Prefer::named(word) == Some(Prefer::Wlr) <==> word == "wlr"@,
        Prefer::named(word) == Some(Prefer::Portal) <==> word == "portal"@,
        Prefer::named(word) == Some(Prefer::Uinput) <==> word == "uinput"@,
{
    reveal_strlit("auto");
    reveal_strlit("wlr");
    reveal_strlit("portal");
    reveal_strlit("uinput");
    assert("auto"@[0] == 'a' && "wlr"@[0] == 'w' && "portal"@[0] == 'p' && "uinput"@[0] == 'u');
}

} // verus!
