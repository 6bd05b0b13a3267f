//! What can go wrong, as one error type.

use vstd::prelude::*;

use crate::text::concat3;

verus! {

/// Every failure the library reports.  The text a variant carries says what
/// happened; [`VshotError::message`] puts it in a sentence.
#[derive(Clone, Debug, PartialEq, Eq)]
pub enum VshotError {
    InvalidGeometry(String),
    InvalidFrame(String),
    IncompleteTopology(String),
    UnsupportedOutput(String),
    ActiveWindowUnavailable(String),
    WindowPickUnavailable(String),
    WindowClosed(String),
    CommandIo { program: String, source: String },
    MissingCapability(String),
    NoCaptureBackend(String),
    WaylandConnection(String),
    WaylandProtocol(String),
    CaptureTimeout,
    KwinScreenShot(String),
    ScreenshotDenied(String),
    NiriScreenshot(String),
    Recording(String),
    InvalidDestination(String),
    MissingDestination,
    ConflictingRegionSelection,
}

/// What an error says.
pub enum ErrorView {
    InvalidGeometry(Seq<char>),
    InvalidFrame(Seq<char>),
    IncompleteTopology(Seq<char>),
    UnsupportedOutput(Seq<char>),
    ActiveWindowUnavailable(Seq<char>),
    WindowPickUnavailable(Seq<char>),
    WindowClosed(Seq<char>),
    CommandIo { program: Seq<char>, source: Seq<char> },
    MissingCapability(Seq<char>),
    NoCaptureBackend(Seq<char>),
    WaylandConnection(Seq<char>),
    WaylandProtocol(Seq<char>),
    CaptureTimeout,
    KwinScreenShot(Seq<char>),
    ScreenshotDenied(Seq<char>),
    NiriScreenshot(Seq<char>),
    Recording(Seq<char>),
    InvalidDestination(Seq<char>),
    MissingDestination,
    ConflictingRegionSelection,
}

impl View for VshotError {
    type V = ErrorView;

    open spec fn view(&self) -> ErrorView {
        match *self {
            VshotError::InvalidGeometry(text) => ErrorView::InvalidGeometry(text@),
            VshotError::InvalidFrame(text) => ErrorView::InvalidFrame(text@),
            VshotError::IncompleteTopology(text) => ErrorView::IncompleteTopology(text@),
            VshotError::UnsupportedOutput(text) => ErrorView::UnsupportedOutput(text@),
            VshotError::ActiveWindowUnavailable(text) => ErrorView::ActiveWindowUnavailable(text@),
            VshotError::WindowPickUnavailable(text) => ErrorView::WindowPickUnavailable(text@),
            VshotError::WindowClosed(text) => ErrorView::WindowClosed(text@),
            VshotError::CommandIo { program, source } => ErrorView::CommandIo {
                program: program@,
                source: source@,
            },
            VshotError::MissingCapability(text) => ErrorView::MissingCapability(text@),
            VshotError::NoCaptureBackend(text) => ErrorView::NoCaptureBackend(text@),
            VshotError::WaylandConnection(text) => ErrorView::WaylandConnection(text@),
            VshotError::WaylandProtocol(text) => ErrorView::WaylandProtocol(text@),
            VshotError::CaptureTimeout => ErrorView::CaptureTimeout,
            VshotError::KwinScreenShot(text) => ErrorView::KwinScreenShot(text@),
            VshotError::ScreenshotDenied(text) => ErrorView::ScreenshotDenied(text@),
            VshotError::NiriScreenshot(text) => ErrorView::NiriScreenshot(text@),
            VshotError::Recording(text) => ErrorView::Recording(text@),
            VshotError::InvalidDestination(text) => ErrorView::InvalidDestination(text@),
            VshotError::MissingDestination => ErrorView::MissingDestination,
            VshotError::ConflictingRegionSelection => ErrorView::ConflictingRegionSelection,
        }
    }
}

/// Whether a result is what was to come out.
pub open spec fn settles<T>(
    result: core::result::Result<T, VshotError>,
    outcome: core::result::Result<T, ErrorView>,
) -> bool {
    match result {
        Ok(value) => outcome == Ok::<T, ErrorView>(value),
        Err(error) => outcome == Err::<T, ErrorView>(error@),
    }
}

/// The library's result type.
pub type Result<T> = core::result::Result<T, VshotError>;

/// The sentence an error is reported with.
pub open spec fn message_of(error: VshotError) -> Seq<char> {
    match error {
        VshotError::InvalidGeometry(text) => "invalid geometry: "@ + text@,
        VshotError::InvalidFrame(text) => "invalid frame: "@ + text@,
        VshotError::IncompleteTopology(text) => "incomplete output topology: "@ + text@,
        VshotError::UnsupportedOutput(text) => "unsupported output: "@ + text@,
        VshotError::ActiveWindowUnavailable(text) => "the active window is unavailable: "@ + text@,
        VshotError::WindowPickUnavailable(text) => "no window can be picked: "@ + text@,
        VshotError::WindowClosed(text) => "the window closed: "@ + text@,
        VshotError::CommandIo { program, source } => "cannot run `"@ + program@ + "`: "@ + source@,
        VshotError::MissingCapability(text) => "the compositor does not offer "@ + text@,
        VshotError::NoCaptureBackend(text) => "no capture backend: "@ + text@,
        VshotError::WaylandConnection(text) => "Wayland connection failed: "@ + text@,
        VshotError::WaylandProtocol(text) => "Wayland protocol error: "@ + text@,
        VshotError::CaptureTimeout => "the capture timed out"@,
        VshotError::KwinScreenShot(text) => "KWin screenshot failed: "@ + text@,
        VshotError::ScreenshotDenied(text) => "the screenshot was denied: "@ + text@,
        VshotError::NiriScreenshot(text) => "niri screenshot failed: "@ + text@,
        VshotError::Recording(text) => "recording failed: "@ + text@,
        VshotError::InvalidDestination(text) => "invalid destination: "@ + text@,
        VshotError::MissingDestination => "no output destination was given"@,
        VshotError::ConflictingRegionSelection => "the region is selected in more than one way"@,
    }
}

fn sentence(prefix: &str, text: &String) -> (whole: String)
    ensures
        whole@ == prefix@ + text@,
{
    let mut whole = prefix.to_owned();
    whole.append(text.as_str());
    whole
}

impl VshotError {
    /// The sentence the error is reported with.
    pub fn message(&self) -> (text: String)
        ensures
            text@ == message_of(*self),
    {
        match self {
            VshotError::InvalidGeometry(text) => sentence("invalid geometry: ", text),
            VshotError::InvalidFrame(text) => sentence("invalid frame: ", text),
            VshotError::IncompleteTopology(text) => sentence("incomplete output topology: ", text),
            VshotError::UnsupportedOutput(text) => sentence("unsupported output: ", text),
            VshotError::ActiveWindowUnavailable(text) => sentence(
                "the active window is unavailable: ",
                text,
            ),
            VshotError::WindowPickUnavailable(text) => sentence("no window can be picked: ", text),
            VshotError::WindowClosed(text) => sentence("the window closed: ", text),
            VshotError::CommandIo { program, source } => {
                let mut text = concat3("cannot run `", program.as_str(), "`: ");
                text.append(source.as_str());
                text
            },
            VshotError::MissingCapability(text) => sentence("the compositor does not offer ", text),
            VshotError::NoCaptureBackend(text) => sentence("no capture backend: ", text),
            VshotError::WaylandConnection(text) => sentence("Wayland connection failed: ", text),
            VshotError::WaylandProtocol(text) => sentence("Wayland protocol error: ", text),
            VshotError::CaptureTimeout => "the capture timed out".to_owned(),
            VshotError::KwinScreenShot(text) => sentence("KWin screenshot failed: ", text),
            VshotError::ScreenshotDenied(text) => sentence("the screenshot was denied: ", text),
            VshotError::NiriScreenshot(text) => sentence("niri screenshot failed: ", text),
            VshotError::Recording(text) => sentence("recording failed: ", text),
            VshotError::InvalidDestination(text) => sentence("invalid destination: ", text),
            VshotError::MissingDestination => "no output destination was given".to_owned(),
            VshotError::ConflictingRegionSelection => "the region is selected in more than one way".to_owned(),
        }
    }
}

/// What an error was told is the end of the sentence it is reported with, and
/// something stands before it.
pub proof fn law_a_message_ends_with_what_the_error_was_told(text: String, program: String)
    ensures
        forall|error: VshotError|
            (error == VshotError::InvalidGeometry(text) || error == VshotError::InvalidFrame(text)
                || error == VshotError::IncompleteTopology(text) || error
                == VshotError::UnsupportedOutput(text) || error
                == VshotError::ActiveWindowUnavailable(text) || error
                == VshotError::WindowPickUnavailable(text) || error == VshotError::WindowClosed(
                text,
            ) || error == VshotError::MissingCapability(text) || error
                == VshotError::NoCaptureBackend(text) || error == VshotError::WaylandConnection(
                text,
            ) || error == VshotError::WaylandProtocol(text) || error == VshotError::KwinScreenShot(
                text,
            ) || error == VshotError::ScreenshotDenied(text) || error == VshotError::NiriScreenshot(
                text,
            ) || error == VshotError::Recording(text) || error == VshotError::InvalidDestination(
                text,
            ) || error == (VshotError::CommandIo { program, source: text })) ==> ends_with(
                #[trigger] message_of(error),
                text@,
            ),
{
    assert forall|before: Seq<char>| ends_with(#[trigger] (before + text@), text@) by {
        assert((before + text@).subrange(before.len() as int, (before + text@).len() as int)
            =~= text@);
    }
}

/// The text ends with another.
pub open spec fn ends_with(text: Seq<char>, end: Seq<char>) -> bool {
    end.len() <= text.len() && text.subrange(text.len() - end.len(), text.len() as int) == end
}

} // verus!
