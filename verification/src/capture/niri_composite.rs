//! A window on niri as the screen shows it.
//!
//! niri draws a window with its own transparency, without what shows through
//! it.  The screen holds both, so the window's picture is looked for on a fresh
//! capture of its output and the capture is cut out there.  The picture and the
//! capture are two moments: only a place where the two agree is trusted, and a
//! window that changed in between is drawn again.  Where no place can be
//! trusted, niri's own picture is used.
//!
//! Drawing and capturing are left to the caller: [`Stage::wants`] says what is
//! needed next and [`Stage::advance`] takes it.

use vstd::prelude::*;

use crate::error::{ErrorView, Result, VshotError};
use crate::geometry::Rect;
use crate::model::Frame;
use crate::text::{concat3, decimal_text, format_i64, format_u64};

use super::niri::{make_rect, rect_of, NiriWindow, WindowFacts};
use super::raw_pixels::{on_frame, OUTSIDE_THE_FRAME};
use super::window_blend::{locate_window, located, matches_at_position, position_verdict, renders_agree, same_picture};

verus! {

/// How often the picture is looked for before it is given up.
pub const ATTEMPTS: u32 = 3;

/// What the picture of the window is taken from.
#[derive(Debug)]
pub enum Outcome {
    /// niri's own picture.
    Render(Frame),
    /// A part of the capture.
    Crop { screen: Frame, rect: Rect },
}

/// What is worth telling the user about how the picture came to be.
#[derive(Debug)]
pub enum Note {
    /// niri places the window on no output.
    NoOutput,
    /// The window's output was not captured.
    NotCaptured(String),
    /// The window is not where niri says it is.
    Misplaced,
    /// The window is where niri says it is.
    Placed { x: i32, y: i32 },
    /// niri places the window outside its output.
    OffOutput(String),
    /// The picture was found on the output.
    Located(String),
    /// The picture was not found although the window does not change.
    Settled(String),
    /// The window kept changing.
    Restless,
}

/// How far the work on one window has come.
#[derive(Debug)]
pub enum Stage {
    /// The window is drawn; where it is has to be asked.
    Placing { render: Frame },
    /// niri states a place, which a capture has to confirm.
    Verifying { render: Frame, name: String, scale: u32, rect: Rect },
    /// The picture is looked for on a capture.
    Searching { render: Frame, name: String, scale: u32, tries: u32 },
    /// It was not found; the window has to be drawn again.
    Refreshing { render: Frame, name: String, scale: u32, tries: u32 },
    Finished(Outcome),
}

/// What a stage waits for.
#[derive(Clone, Copy, Debug, PartialEq, Eq, Structural)]
pub enum Want {
    /// Where niri places the window, and whether that output can be captured.
    Placement,
    /// A capture of the window's output.
    Capture,
    /// A new picture of the window.
    Render,
    /// The work is done.
    Nothing,
}

/// What a stage is given.
#[derive(Debug)]
pub enum Event {
    Placement { placement: Option<(String, u32)>, captured: bool },
    Capture(Frame),
    Render(Frame),
}

/// The size of a picture as a pair.
pub open spec fn extent(frame: Frame) -> (u32, u32) {
    (frame.dim().width, frame.dim().height)
}

/// The place of a picture, grown to the window's tile; the place itself where
/// there is no such tile.
pub open spec fn grown(window: WindowFacts, rect: Rect, scale: u32) -> Rect {
    match window.margins((rect.size.width, rect.size.height), scale) {
        Some(m) => match rect_of(
            rect.origin.x + m.0 - m.2,
            rect.origin.y + m.1 - m.3,
            rect.size.width - 2 * m.0 + 2 * m.2,
            rect.size.height - 2 * m.1 + 2 * m.3,
        ) {
            Some(tile) => tile,
            None => rect,
        },
        None => rect,
    }
}

/// Whether the capture shows the window somewhere else than where niri says it
/// is: the picture is compared where the window itself starts, and one that says
/// nothing either way does not.
pub open spec fn refuted(window: WindowFacts, render: Frame, screen: Frame, scale: u32) -> bool {
    match window.origin(scale) {
        Some(at) => position_verdict(&render, &screen, at.0 as int, at.1 as int) == Some(false),
        None => false,
    }
}

/// What follows once it is known where niri places the window.
pub open spec fn after_placement(
    window: WindowFacts,
    render: Frame,
    placement: Option<(String, u32)>,
    captured: bool,
) -> (Stage, Option<Note>) {
    match placement {
        None => (Stage::Finished(Outcome::Render(render)), Some(Note::NoOutput)),
        Some((name, scale)) => if !captured {
            (Stage::Finished(Outcome::Render(render)), Some(Note::NotCaptured(name)))
        } else {
            match window.tile(extent(render), scale) {
                Some(rect) => (Stage::Verifying { render, name, scale, rect }, None),
                None => (Stage::Searching { render, name, scale, tries: 0 }, None),
            }
        },
    }
}

/// What follows from a capture while niri's place is to be confirmed.
pub open spec fn after_verification(
    window: WindowFacts,
    render: Frame,
    name: String,
    scale: u32,
    rect: Rect,
    screen: Frame,
) -> (Stage, Option<Note>) {
    match on_frame(rect, screen.dim()) {
        None => (Stage::Finished(Outcome::Render(render)), Some(Note::OffOutput(name))),
        Some(inside) => if refuted(window, render, screen, scale) {
            (Stage::Searching { render, name, scale, tries: 0 }, Some(Note::Misplaced))
        } else {
            (
                Stage::Finished(Outcome::Crop { screen, rect: inside }),
                Some(Note::Placed { x: inside.origin.x, y: inside.origin.y }),
            )
        },
    }
}

/// What follows from a capture while the picture is looked for.
pub open spec fn after_search(
    window: WindowFacts,
    render: Frame,
    name: String,
    scale: u32,
    tries: u32,
    screen: Frame,
) -> (Stage, Option<Note>) {
    match located(&render, &screen) {
        Some(rect) => (
            Stage::Finished(Outcome::Crop { screen, rect: grown(window, rect, scale) }),
            Some(Note::Located(name)),
        ),
        None => if tries + 1 >= ATTEMPTS {
            (Stage::Finished(Outcome::Render(render)), Some(Note::Restless))
        } else {
            (Stage::Refreshing { render, name, scale, tries }, None)
        },
    }
}

/// What follows from a new picture: a window that does not change will not be
/// found by looking again.
pub open spec fn after_refresh(
    render: Frame,
    name: String,
    scale: u32,
    tries: u32,
    fresh: Frame,
) -> (Stage, Option<Note>) {
    if same_picture(&render, &fresh) {
        (Stage::Finished(Outcome::Render(fresh)), Some(Note::Settled(name)))
    } else {
        (
            Stage::Searching {
                render: fresh,
                name,
                scale,
                tries: if tries < ATTEMPTS {
                    (tries + 1) as u32
                } else {
                    ATTEMPTS
                },
            },
            None,
        )
    }
}

impl Stage {
    /// What the stage waits for.
    pub open spec fn needs(self) -> Want {
        match self {
            Stage::Placing { .. } => Want::Placement,
            Stage::Verifying { .. } | Stage::Searching { .. } => Want::Capture,
            Stage::Refreshing { .. } => Want::Render,
            Stage::Finished(_) => Want::Nothing,
        }
    }

    /// What follows from an event; one that the stage does not wait for changes
    /// nothing.
    pub open spec fn after(self, window: WindowFacts, event: Event) -> (Stage, Option<Note>) {
        match (self, event) {
            (
                Stage::Placing { render },
                Event::Placement { placement, captured },
            ) => after_placement(window, render, placement, captured),
            (
                Stage::Verifying { render, name, scale, rect },
                Event::Capture(screen),
            ) => after_verification(window, render, name, scale, rect, screen),
            (
                Stage::Searching { render, name, scale, tries },
                Event::Capture(screen),
            ) => after_search(window, render, name, scale, tries, screen),
            (
                Stage::Refreshing { render, name, scale, tries },
                Event::Render(fresh),
            ) => after_refresh(render, name, scale, tries, fresh),
            (stage, _) => (stage, None),
        }
    }

    pub fn wants(&self) -> (want: Want)
        ensures
            want == self.needs(),
    {
        match self {
            Stage::Placing { .. } => Want::Placement,
            Stage::Verifying { .. } | Stage::Searching { .. } => Want::Capture,
            Stage::Refreshing { .. } => Want::Render,
            Stage::Finished(_) => Want::Nothing,
        }
    }

    /// Takes what the stage waited for; the note is for the user.
    pub fn advance(self, window: &NiriWindow, event: Event) -> (next: (Stage, Option<Note>))
        ensures
            next == self.after(window@, event),
    {
        match (self, event) {
            (
                Stage::Placing { render },
                Event::Placement { placement, captured },
            ) => place(window, render, placement, captured),
            (
                Stage::Verifying { render, name, scale, rect },
                Event::Capture(screen),
            ) => verify(window, render, name, scale, rect, screen),
            (
                Stage::Searching { render, name, scale, tries },
                Event::Capture(screen),
            ) => search(window, render, name, scale, tries, screen),
            (
                Stage::Refreshing { render, name, scale, tries },
                Event::Render(fresh),
            ) => refresh(render, name, scale, tries, fresh),
            (stage, _) => (stage, None),
        }
    }
}

fn place(
    window: &NiriWindow,
    render: Frame,
    placement: Option<(String, u32)>,
    captured: bool,
) -> (next: (Stage, Option<Note>))
    ensures
        next == after_placement(window@, render, placement, captured),
{
    let (name, scale) = match placement {
        Some(placement) => placement,
        None => {
            return (Stage::Finished(Outcome::Render(render)), Some(Note::NoOutput));
        },
    };
    if !captured {
        return (Stage::Finished(Outcome::Render(render)), Some(Note::NotCaptured(name)));
    }
    let size = render.size();
    match window.tile_rect((size.width, size.height), scale) {
        Some(rect) => (Stage::Verifying { render, name, scale, rect }, None),
        None => (Stage::Searching { render, name, scale, tries: 0 }, None),
    }
}

fn verify(
    window: &NiriWindow,
    render: Frame,
    name: String,
    scale: u32,
    rect: Rect,
    screen: Frame,
) -> (next: (Stage, Option<Note>))
    ensures
        next == after_verification(window@, render, name, scale, rect, screen),
{
    let size = screen.size();
    let inside = match rect.intersection(Rect::new(0, 0, size.width, size.height)) {
        Some(inside) => inside,
        None => {
            return (Stage::Finished(Outcome::Render(render)), Some(Note::OffOutput(name)));
        },
    };
    let elsewhere = match window.render_origin(scale) {
        Some(at) => match matches_at_position(&render, &screen, at.0, at.1) {
            Some(there) => !there,
            None => false,
        },
        None => false,
    };
    if elsewhere {
        (Stage::Searching { render, name, scale, tries: 0 }, Some(Note::Misplaced))
    } else {
        (
            Stage::Finished(Outcome::Crop { screen, rect: inside }),
            Some(Note::Placed { x: inside.origin.x, y: inside.origin.y }),
        )
    }
}

fn grow(window: &NiriWindow, rect: Rect, scale: u32) -> (tile: Rect)
    ensures
        tile == grown(window@, rect, scale),
{
    match window.tile_from_render((rect.size.width, rect.size.height), scale) {
        Some(m) => match make_rect(
            rect.origin.x as i64 + m.0 as i64 - m.2 as i64,
            rect.origin.y as i64 + m.1 as i64 - m.3 as i64,
            rect.size.width as i64 - 2 * m.0 as i64 + 2 * m.2 as i64,
            rect.size.height as i64 - 2 * m.1 as i64 + 2 * m.3 as i64,
        ) {
            Some(tile) => tile,
            None => rect,
        },
        None => rect,
    }
}

fn search(
    window: &NiriWindow,
    render: Frame,
    name: String,
    scale: u32,
    tries: u32,
    screen: Frame,
) -> (next: (Stage, Option<Note>))
    ensures
        next == after_search(window@, render, name, scale, tries, screen),
{
    match locate_window(&render, &screen) {
        Some(rect) => {
            let tile = grow(window, rect, scale);
            (Stage::Finished(Outcome::Crop { screen, rect: tile }), Some(Note::Located(name)))
        },
        None => if tries >= ATTEMPTS - 1 {
            (Stage::Finished(Outcome::Render(render)), Some(Note::Restless))
        } else {
            (Stage::Refreshing { render, name, scale, tries }, None)
        },
    }
}

fn refresh(render: Frame, name: String, scale: u32, tries: u32, fresh: Frame) -> (next: (
    Stage,
    Option<Note>,
))
    ensures
        next == after_refresh(render, name, scale, tries, fresh),
{
    if renders_agree(&render, &fresh) {
        (Stage::Finished(Outcome::Render(fresh)), Some(Note::Settled(name)))
    } else {
        let tries: u32 = if tries < ATTEMPTS {
            tries + 1
        } else {
            ATTEMPTS
        };
        (Stage::Searching { render: fresh, name, scale, tries }, None)
    }
}

impl Outcome {
    /// The picture itself.
    pub fn picture(self) -> (picture: Result<Frame>)
        ensures
            match self {
                Outcome::Render(render) => picture == Ok::<Frame, VshotError>(render),
                Outcome::Crop { screen, rect } => match picture {
                    Ok(picture) => {
                        &&& on_frame(rect, screen.dim()) matches Some(inside)
                        &&& picture.dim() == inside.size
                        &&& forall|x: int, y: int|
                            0 <= x < inside.size.width && 0 <= y < inside.size.height
                                ==> #[trigger] picture.rgba(x, y) == screen.rgba(
                                inside.origin.x + x,
                                inside.origin.y + y,
                            )
                    },
                    Err(error) => on_frame(rect, screen.dim()) is None && error@
                        == ErrorView::InvalidGeometry(OUTSIDE_THE_FRAME@),
                },
            },
    {
        match self {
            Outcome::Render(render) => Ok(render),
            Outcome::Crop { screen, rect } => screen.crop(rect),
        }
    }
}

// ---------------------------------------------------------------------------
// Telling the user
// ---------------------------------------------------------------------------
impl Note {
    /// The sentence about the window with this id.
    pub open spec fn sentence(self, id: u64) -> Seq<char> {
        let window = decimal_text(id as int);
        match self {
            Note::NoOutput => "niri places window "@ + window
                + " on no output, so its own (translucent) render is used as it is"@,
            Note::NotCaptured(name) => "output "@ + name@
                + " was not captured, so niri's own (translucent) render of window "@ + window
                + " is used as it is"@,
            Note::Misplaced => "niri placed window "@ + window
                + " where its render is not, so the position is searched for instead"@,
            Note::Placed { x, y } => "niri placed window "@ + window + " at ("@ + decimal_text(
                x as int,
            ) + ", "@ + decimal_text(y as int) + "), so the screen's own pixels are used"@,
            Note::OffOutput(name) => "niri places window "@ + window + " off "@ + name@
                + ", so its own (translucent) render is used as it is"@,
            Note::Located(name) => "niri's render of window "@ + window + " was located on "@
                + name@ + ", so the screen's own pixels are used"@,
            Note::Settled(name) => "niri's render of window "@ + window
                + " could not be located on "@ + name@
                + " and the window is not changing, so its own (translucent) render is used as it is"@,
            Note::Restless => "niri's render of window "@ + window
                + " kept changing under the capture and no frame could be located, so its own (translucent) render is used as it is"@,
        }
    }

    pub fn text(&self, id: u64) -> (text: String)
        ensures
            text@ == self.sentence(id),
    {
        let window = format_u64(id);
        let window = window.as_str();
        match self {
            Note::NoOutput => concat3(
                "niri places window ",
                window,
                " on no output, so its own (translucent) render is used as it is",
            ),
            Note::NotCaptured(name) => {
                let mut text = concat3(
                    "output ",
                    name.as_str(),
                    " was not captured, so niri's own (translucent) render of window ",
                );
                text.append(window);
                text.append(" is used as it is");
                text
            },
            Note::Misplaced => concat3(
                "niri placed window ",
                window,
                " where its render is not, so the position is searched for instead",
            ),
            Note::Placed { x, y } => {
                let mut text = concat3("niri placed window ", window, " at (");
                text.append(format_i64(*x as i64).as_str());
                text.append(", ");
                text.append(format_i64(*y as i64).as_str());
                text.append("), so the screen's own pixels are used");
                text
            },
            Note::OffOutput(name) => {
                let mut text = concat3("niri places window ", window, " off ");
                text.append(name.as_str());
                text.append(", so its own (translucent) render is used as it is");
                text
            },
            Note::Located(name) => {
                let mut text = concat3("niri's render of window ", window, " was located on ");
                text.append(name.as_str());
                text.append(", so the screen's own pixels are used");
                text
            },
            Note::Settled(name) => {
                let mut text = concat3(
                    "niri's render of window ",
                    window,
                    " could not be located on ",
                );
                text.append(name.as_str());
                text.append(
                    " and the window is not changing, so its own (translucent) render is used as it is",
                );
                text
            },
            Note::Restless => concat3(
                "niri's render of window ",
                window,
                " kept changing under the capture and no frame could be located, so its own (translucent) render is used as it is",
            ),
        }
    }
}

// ---------------------------------------------------------------------------
// What holds of the whole
// ---------------------------------------------------------------------------
impl Stage {
    /// How many events the stage can still take.
    pub open spec fn remaining(self) -> int {
        match self {
            Stage::Placing { .. } => 2 * ATTEMPTS + 3,
            Stage::Verifying { .. } => 2 * ATTEMPTS + 2,
            Stage::Searching { tries, .. } => if tries >= ATTEMPTS {
                1
            } else {
                2 * (ATTEMPTS - tries) + 1
            },
            Stage::Refreshing { tries, .. } => if tries >= ATTEMPTS {
                2
            } else {
                2 * (ATTEMPTS - tries)
            },
            Stage::Finished(_) => 0,
        }
    }

    /// The work has not run past its attempts.
    pub open spec fn in_bounds(self) -> bool {
        match self {
            Stage::Searching { tries, .. } => tries < ATTEMPTS,
            Stage::Refreshing { tries, .. } => tries + 1 < ATTEMPTS,
            _ => true,
        }
    }
}

/// Whatever an event brings, it takes the work a step closer to its end: no
/// window is looked for without end.
pub proof fn law_the_work_ends(stage: Stage, window: WindowFacts, event: Event)
    requires
        stage.in_bounds(),
    ensures
        stage.after(window, event).0.in_bounds(),
        stage.needs() == Want::Placement && event is Placement || stage.needs() == Want::Capture
            && event is Capture || stage.needs() == Want::Render && event is Render ==> 0
            <= stage.after(window, event).0.remaining() < stage.remaining(),
{
}

/// A part of the screen is only taken where niri placed the window and the
/// capture does not show otherwise, or where the picture was found.
pub proof fn law_no_place_is_a_guess(stage: Stage, window: WindowFacts, event: Event)
    requires
        !(stage is Finished),
    ensures
        stage.after(window, event).0 matches Stage::Finished(Outcome::Crop { screen, rect }) ==> {
            &&& event == Event::Capture(screen)
            &&& match stage {
                Stage::Verifying { render, scale, rect: stated, .. } => on_frame(
                    stated,
                    screen.dim(),
                ) == Some(rect) && !refuted(window, render, screen, scale),
                Stage::Searching { render, scale, .. } => located(&render, &screen) matches Some(
                    found,
                ) && rect == grown(window, found, scale),
                _ => false,
            }
        },
{
}

/// A picture that says nothing about where it is, as a window of one colour,
/// stays where niri says it is.
pub proof fn law_a_stated_place_stands_without_evidence(
    window: WindowFacts,
    render: Frame,
    name: String,
    scale: u32,
    rect: Rect,
    screen: Frame,
    at: (i32, i32),
)
    requires
        window.origin(scale) == Some(at),
        position_verdict(&render, &screen, at.0 as int, at.1 as int) is None,
        on_frame(rect, screen.dim()) is Some,
    ensures
        after_verification(window, render, name, scale, rect, screen).0 == Stage::Finished(
            Outcome::Crop { screen, rect: on_frame(rect, screen.dim())->Some_0 },
        ),
{
}

/// Once niri said where the window is, the window is taken as niri drew it
/// where it is on no output or on one that was not captured; a place that niri
/// states is confirmed, and without one the picture is looked for, in either
/// case the same picture on the output niri named.
pub proof fn law_a_placed_window_is_confirmed_and_any_other_looked_for(
    window: WindowFacts,
    render: Frame,
    placement: Option<(String, u32)>,
    captured: bool,
)
    ensures
        ({
            let next = (Stage::Placing { render }).after(
                window,
                Event::Placement { placement, captured },
            ).0;
            match placement {
                Some((name, scale)) => if captured {
                    match window.tile((render.dim().width, render.dim().height), scale) {
                        Some(rect) => next == (Stage::Verifying { render, name, scale, rect }),
                        None => next == (Stage::Searching { render, name, scale, tries: 0 }),
                    }
                } else {
                    next == Stage::Finished(Outcome::Render(render))
                },
                None => next == Stage::Finished(Outcome::Render(render)),
            }
        }),
{
}

/// A stated place off the output gives the window as niri drew it; one that the
/// capture refutes is looked for from the first attempt on, with the same
/// picture.
pub proof fn law_a_refuted_place_is_looked_for(
    window: WindowFacts,
    render: Frame,
    name: String,
    scale: u32,
    rect: Rect,
    screen: Frame,
)
    ensures
        ({
            let next = (Stage::Verifying { render, name, scale, rect }).after(
                window,
                Event::Capture(screen),
            ).0;
            &&& on_frame(rect, screen.dim()) is None ==> next == Stage::Finished(
                Outcome::Render(render),
            )
            &&& on_frame(rect, screen.dim()) is Some ==> (next == (Stage::Searching {
                render,
                name,
                scale,
                tries: 0,
            }) <==> (window.origin(scale) matches Some(at) && position_verdict(
                &render,
                &screen,
                at.0 as int,
                at.1 as int,
            ) == Some(false)))
        }),
{
}

/// A picture that is not found is drawn again, twice at most; a new picture that
/// is the same ends the search with that picture, and one that differs is the
/// one that is looked for next, on the same output.
pub proof fn law_a_search_goes_on_with_the_new_picture(
    window: WindowFacts,
    render: Frame,
    name: String,
    scale: u32,
    tries: u32,
    screen: Frame,
    fresh: Frame,
)
    requires
        located(&render, &screen) is None,
        tries < 3,
    ensures
        ({
            let searching = Stage::Searching { render, name, scale, tries };
            let missed = searching.after(window, Event::Capture(screen)).0;
            let again = missed.after(window, Event::Render(fresh)).0;
            &&& tries == 2 ==> missed == Stage::Finished(Outcome::Render(render))
            &&& tries < 2 ==> missed == (Stage::Refreshing { render, name, scale, tries })
            &&& tries < 2 && same_picture(&render, &fresh) ==> again == Stage::Finished(
                Outcome::Render(fresh),
            )
            &&& tries < 2 && !same_picture(&render, &fresh) ==> again == (Stage::Searching {
                render: fresh,
                name,
                scale,
                tries: (tries + 1) as u32,
            })
        }),
{
}

/// A picture that was found is taken off the screen it was found on, grown to
/// the tile: the tile lies around the same middle, and is as much larger on
/// every side as the border is wider than the margin of the picture.
pub proof fn law_a_found_picture_grows_around_its_middle(
    window: WindowFacts,
    rect: Rect,
    scale: u32,
)
    ensures
        ({
            let tile = grown(window, rect, scale);
            &&& 2 * tile.origin.x + tile.size.width == 2 * rect.origin.x + rect.size.width
            &&& 2 * tile.origin.y + tile.size.height == 2 * rect.origin.y + rect.size.height
            &&& window.margins((rect.size.width, rect.size.height), scale) is None ==> tile == rect
            &&& window.margins((rect.size.width, rect.size.height), scale) matches Some(m) ==> tile
                == rect || (tile.origin.x == rect.origin.x + m.0 - m.2 && tile.origin.y
                == rect.origin.y + m.1 - m.3)
        }),
{
}

/// What a stage does not wait for changes nothing, and nothing changes once the
/// work is done.
pub proof fn law_an_unexpected_event_changes_nothing(
    stage: Stage,
    window: WindowFacts,
    event: Event,
)
    requires
        match stage {
            Stage::Placing { .. } => !(event is Placement),
            Stage::Verifying { .. } => !(event is Capture),
            Stage::Searching { .. } => !(event is Capture),
            Stage::Refreshing { .. } => !(event is Render),
            Stage::Finished(_) => true,
        },
    ensures
        stage.after(window, event).0 == stage,
        stage.after(window, event).1 is None,
{
}

} // verus!
