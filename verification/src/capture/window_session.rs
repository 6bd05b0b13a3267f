//! One window's own pixels through `ext_image_copy_capture_v1`, event by event.
//!
//! A session is opened on a window, the compositor describes the buffers it
//! can copy into, a pool of them is built, and frames are then asked for one
//! at a time.  What each event changes and what has to be sent next is decided
//! here; sending it is the caller's.

use vstd::prelude::*;

use crate::error::{settles, ErrorView, Result, VshotError};
use crate::text::{concat3, decimal_text, format_hex, format_u64, hex_text, same_text};

use super::dmabuf::{DmabufFrame, GbmBuffer};
use super::window_copy::{
    as_ints, describe_formats, modifiers_from_bytes, offers, offers_text, pick_format, picked_format, set_positions,
    words_in, Name,
};

verus! {

/// Buffers in the pool: one is copied into while the others are still read.
pub const POOL_SLOTS: usize = 4;

/// How long the compositor gets to describe a session's buffers, in seconds.
pub const CONSTRAINTS_TIMEOUT: u64 = 10;

/// How long one poll waits before a stop signal is looked for, in
/// milliseconds.
pub const POLL_GRANULARITY_MS: u64 = 100;

/// The failure codes a frame can carry.
pub const FAILED_UNKNOWN: u32 = 0;

pub const FAILED_BUFFER_CONSTRAINTS: u32 = 1;

pub const FAILED_STOPPED: u32 = 2;

/// The frame shape a session settled on.
#[derive(Clone, Copy, Debug, PartialEq, Eq, Structural)]
pub struct Shape {
    pub width: u32,
    pub height: u32,
    pub fourcc: u32,
}

/// A window the compositor lists, by the id of its handle.
#[derive(Clone, Debug, PartialEq, Eq)]
pub struct Listed {
    pub handle: u32,
    pub name: Name,
    /// Whether its properties are complete.
    pub done: bool,
    pub closed: bool,
}

/// The frame the compositor is copying right now.
#[derive(Clone, Copy, Debug, PartialEq, Eq, Structural)]
pub struct Pending {
    pub slot: usize,
    pub ready: bool,
    pub failed: Option<u32>,
}

/// A capture session.
#[derive(Clone, Debug, PartialEq, Eq)]
pub struct Live {
    pub buffer_size: Option<(u32, u32)>,
    pub formats: Vec<(u32, Vec<u64>)>,
    pub constraints_done: bool,
    pub stopped: bool,
    /// Whether the compositor could not import a buffer it was handed.
    pub params_failed: bool,
    /// The buffers that the pool has so far.
    pub slots: Vec<GbmBuffer>,
    /// The slot the next frame is copied into.
    pub next: usize,
    /// Set once the pool is complete.
    pub shape: Option<Shape>,
    /// The slot of the last frame that was delivered.
    pub last_slot: Option<usize>,
    pub pending: Option<Pending>,
}

/// What the connection knows.
#[derive(Clone, Debug, PartialEq, Eq)]
pub struct CopyState {
    pub dmabuf: bool,
    pub list: bool,
    pub source_manager: bool,
    pub manager: bool,
    pub listed: Vec<Listed>,
    pub live: Option<Live>,
}

impl Default for CopyState {
    /// A connection that was told nothing yet.
    fn default() -> (state: Self)
        ensures
            state@ == nothing_known(),
            state@.wf(),
    {
        let state = CopyState {
            dmabuf: false,
            list: false,
            source_manager: false,
            manager: false,
            listed: Vec::new(),
            live: None,
        };
        assert(state@.listed =~= Seq::empty());
        state
    }
}

/// What is known of a connection before it says anything.
pub open spec fn nothing_known() -> CopyView {
    CopyView {
        dmabuf: false,
        list: false,
        source_manager: false,
        manager: false,
        listed: Seq::empty(),
        live: None,
    }
}

/// What a [`Live`] says.
pub struct LiveView {
    pub buffer_size: Option<(u32, u32)>,
    pub formats: Seq<(u32, Seq<u64>)>,
    pub constraints_done: bool,
    pub stopped: bool,
    pub params_failed: bool,
    pub slots: Seq<GbmBuffer>,
    pub next: usize,
    pub shape: Option<Shape>,
    pub last_slot: Option<usize>,
    pub pending: Option<Pending>,
}

/// What a [`CopyState`] says.
pub struct CopyView {
    pub dmabuf: bool,
    pub list: bool,
    pub source_manager: bool,
    pub manager: bool,
    pub listed: Seq<Listed>,
    pub live: Option<LiveView>,
}

impl View for Live {
    type V = LiveView;

    open spec fn view(&self) -> LiveView {
        LiveView {
            buffer_size: self.buffer_size,
            formats: offers(self.formats@),
            constraints_done: self.constraints_done,
            stopped: self.stopped,
            params_failed: self.params_failed,
            slots: self.slots@,
            next: self.next,
            shape: self.shape,
            last_slot: self.last_slot,
            pending: self.pending,
        }
    }
}

/// What an optional session says.
pub open spec fn live_view(live: Option<Live>) -> Option<LiveView> {
    match live {
        Some(live) => Some(live@),
        None => None,
    }
}

impl View for CopyState {
    type V = CopyView;

    open spec fn view(&self) -> CopyView {
        CopyView {
            dmabuf: self.dmabuf,
            list: self.list,
            source_manager: self.source_manager,
            manager: self.manager,
            listed: self.listed@,
            live: live_view(self.live),
        }
    }
}

impl LiveView {
    /// What holds between events: the pool is complete once there is a shape,
    /// the frame in flight goes into the next slot, and that slot is never the
    /// one the last delivered frame lies in.
    pub open spec fn wf(self) -> bool {
        &&& self.slots.len() <= POOL_SLOTS
        &&& self.shape is Some <==> self.slots.len() == POOL_SLOTS
        &&& self.next < POOL_SLOTS
        &&& self.shape is None ==> self.next == 0 && self.last_slot is None && self.pending is None
        &&& self.last_slot matches Some(slot) ==> slot < self.slots.len() && slot != self.next
        &&& self.pending matches Some(pending) ==> pending.slot == self.next
    }
}

impl CopyView {
    pub open spec fn wf(self) -> bool {
        self.live matches Some(live) ==> live.wf()
    }
}

/// The state with another session.
pub open spec fn with_live(state: CopyView, live: LiveView) -> CopyView {
    CopyView { live: Some(live), ..state }
}

fn recording(text: &str) -> (error: VshotError)
    ensures
        error@ == ErrorView::Recording(text@),
{
    VshotError::Recording(text.to_owned())
}

fn protocol(text: &str) -> (error: VshotError)
    ensures
        error@ == ErrorView::WaylandProtocol(text@),
{
    VshotError::WaylandProtocol(text.to_owned())
}

// ---------------------------------------------------------------------------
// What the compositor announces
// ---------------------------------------------------------------------------
/// What an announced interface changes, and the version it is bound with when
/// it is wanted.
pub open spec fn bound(state: CopyView, interface: Seq<char>, version: u32) -> (
    CopyView,
    Option<u32>,
) {
    let first = if version < 1 {
        version
    } else {
        1u32
    };
    if interface == "ext_foreign_toplevel_list_v1"@ && !state.list {
        (CopyView { list: true, ..state }, Some(first))
    } else if interface == "ext_foreign_toplevel_image_capture_source_manager_v1"@
        && !state.source_manager {
        (CopyView { source_manager: true, ..state }, Some(first))
    } else if interface == "ext_image_copy_capture_manager_v1"@ && !state.manager {
        (CopyView { manager: true, ..state }, Some(first))
    } else if interface == "zwp_linux_dmabuf_v1"@ && !state.dmabuf {
        (
            CopyView { dmabuf: true, ..state },
            Some(
                if version < 3 {
                    version
                } else {
                    3u32
                },
            ),
        )
    } else {
        (state, None)
    }
}

pub const RECORD_A_SCREEN: &'static str =
    "`); record a screen instead (`vshot record monitor`, or `vshot record all`)";

pub const NOT_OFFERED: &'static str = "this compositor does not offer window capture (`";

/// What the compositor lacks for window capture, if it lacks something.
pub open spec fn lacking(state: CopyView) -> Option<ErrorView> {
    if !state.list {
        Some(
            ErrorView::Recording(
                NOT_OFFERED@ + "ext_foreign_toplevel_list_v1"@ + RECORD_A_SCREEN@,
            ),
        )
    } else if !state.source_manager {
        Some(
            ErrorView::Recording(
                NOT_OFFERED@ + "ext_foreign_toplevel_image_capture_source_manager_v1"@
                    + RECORD_A_SCREEN@,
            ),
        )
    } else if !state.manager {
        Some(
            ErrorView::Recording(
                NOT_OFFERED@ + "ext_image_copy_capture_manager_v1"@ + RECORD_A_SCREEN@,
            ),
        )
    } else if !state.dmabuf {
        Some(ErrorView::MissingCapability("zwp_linux_dmabuf_v1"@))
    } else {
        None
    }
}

fn not_offered(interface: &str) -> (error: VshotError)
    ensures
        error@ == ErrorView::Recording(NOT_OFFERED@ + interface@ + RECORD_A_SCREEN@),
{
    VshotError::Recording(concat3(NOT_OFFERED, interface, RECORD_A_SCREEN))
}

/// An event of a window's handle.
#[derive(Clone, Debug, PartialEq, Eq)]
pub enum HandleEvent {
    AppId(String),
    Title(String),
    Identifier(String),
    Done,
    Closed,
    Other,
}

/// A listed window after an event of its handle.
pub open spec fn relisted(listed: Listed, event: HandleEvent) -> Listed {
    match event {
        HandleEvent::AppId(app_id) => Listed { name: Name { app_id, ..listed.name }, ..listed },
        HandleEvent::Title(title) => Listed { name: Name { title, ..listed.name }, ..listed },
        HandleEvent::Identifier(identifier) => Listed {
            name: Name { identifier, ..listed.name },
            ..listed
        },
        HandleEvent::Done => Listed { done: true, ..listed },
        HandleEvent::Closed => Listed { closed: true, ..listed },
        HandleEvent::Other => listed,
    }
}

/// The position of the first window with a handle from `from` on; past the end
/// when there is none.
pub open spec fn listed_at(listed: Seq<Listed>, handle: u32, from: int) -> int
    decreases listed.len() - from,
{
    if from < 0 || from >= listed.len() || listed[from].handle == handle {
        from
    } else {
        listed_at(listed, handle, from + 1)
    }
}

/// The windows after an event of a handle; one that is not listed changes
/// nothing.
pub open spec fn handle_told(listed: Seq<Listed>, handle: u32, event: HandleEvent) -> Seq<Listed> {
    let at = listed_at(listed, handle, 0);
    if at < listed.len() {
        listed.update(at, relisted(listed[at], event))
    } else {
        listed
    }
}

/// Which windows are shown to choose from: those that are not closed, and of
/// those only the complete ones as soon as any window is complete.
pub open spec fn shown_flags(listed: Seq<Listed>) -> Seq<bool> {
    Seq::new(
        listed.len(),
        |i: int|
            !listed[i].closed && (listed[i].done || forall|j: int|
                0 <= j < listed.len() ==> !(#[trigger] listed[j]).done),
    )
}

impl CopyState {
    /// Takes in an announced interface, and says which version of it to bind.
    pub fn announce(&mut self, interface: &str, version: u32) -> (bind: Option<u32>)
        ensures
            (final(self)@, bind) == bound(old(self)@, interface@, version),
    {
        let first: u32 = if version < 1 {
            version
        } else {
            1
        };
        if same_text(interface, "ext_foreign_toplevel_list_v1") && !self.list {
            self.list = true;
            return Some(first);
        }
        if same_text(interface, "ext_foreign_toplevel_image_capture_source_manager_v1")
            && !self.source_manager {
            self.source_manager = true;
            return Some(first);
        }
        if same_text(interface, "ext_image_copy_capture_manager_v1") && !self.manager {
            self.manager = true;
            return Some(first);
        }
        if same_text(interface, "zwp_linux_dmabuf_v1") && !self.dmabuf {
            self.dmabuf = true;
            return Some(
                if version < 3 {
                    version
                } else {
                    3
                },
            );
        }
        None
    }

    /// Whether the compositor can capture windows at all.
    pub fn ready(&self) -> (ready: Result<()>)
        ensures
            settles(
                ready,
                match lacking(self@) {
                    Some(why) => Err(why),
                    None => Ok(()),
                },
            ),
    {
        if !self.list {
            return Err(not_offered("ext_foreign_toplevel_list_v1"));
        }
        if !self.source_manager {
            return Err(not_offered("ext_foreign_toplevel_image_capture_source_manager_v1"));
        }
        if !self.manager {
            return Err(not_offered("ext_image_copy_capture_manager_v1"));
        }
        if !self.dmabuf {
            return Err(VshotError::MissingCapability("zwp_linux_dmabuf_v1".to_owned()));
        }
        Ok(())
    }

    /// Takes in a new window.
    pub fn toplevel(&mut self, handle: u32, name: Name)
        ensures
            final(self)@ == (CopyView {
                listed: old(self)@.listed.push(
                    Listed { handle, name, done: false, closed: false },
                ),
                ..old(self)@
            }),
    {
        self.listed.push(Listed { handle, name, done: false, closed: false });
    }

    /// Takes in an event of a window's handle.
    pub fn handle_event(&mut self, handle: u32, event: HandleEvent)
        ensures
            final(self)@ == (CopyView {
                listed: handle_told(old(self)@.listed, handle, event),
                ..old(self)@
            }),
    {
        let mut i: usize = 0;
        while i < self.listed.len() && self.listed[i].handle != handle
            invariant
                i <= self.listed@.len(),
                *self == *old(self),
                listed_at(self.listed@, handle, 0) == listed_at(self.listed@, handle, i as int),
            decreases self.listed.len() - i,
        {
            i = i + 1;
        }
        if i >= self.listed.len() {
            return ;
        }
        let ghost before = self.listed@;
        let mut listed = self.listed.remove(i);
        let ghost told = listed;
        match event {
            HandleEvent::AppId(app_id) => {
                listed.name.app_id = app_id;
            },
            HandleEvent::Title(title) => {
                listed.name.title = title;
            },
            HandleEvent::Identifier(identifier) => {
                listed.name.identifier = identifier;
            },
            HandleEvent::Done => {
                listed.done = true;
            },
            HandleEvent::Closed => {
                listed.closed = true;
            },
            HandleEvent::Other => {},
        }
        self.listed.insert(i, listed);
        assert(self.listed@ =~= before.update(i as int, relisted(told, event)));
    }

    /// The positions of the windows to choose from.
    pub fn toplevels(&self) -> (list: Vec<usize>)
        ensures
            as_ints(list@) == set_positions(
                shown_flags(self@.listed),
                self@.listed.len() as int,
            ),
    {
        let mut complete = false;
        let mut i: usize = 0;
        while i < self.listed.len()
            invariant
                i <= self.listed@.len(),
                complete <==> exists|j: int| 0 <= j < i && (#[trigger] self.listed@[j]).done,
            decreases self.listed.len() - i,
        {
            if self.listed[i].done {
                complete = true;
            }
            i = i + 1;
        }
        let mut list: Vec<usize> = Vec::new();
        assert(as_ints(list@) =~= Seq::<int>::empty());
        let mut k: usize = 0;
        while k < self.listed.len()
            invariant
                k <= self.listed@.len(),
                complete <==> exists|j: int|
                    0 <= j < self.listed@.len() && (#[trigger] self.listed@[j]).done,
                as_ints(list@) == set_positions(shown_flags(self.listed@), k as int),
            decreases self.listed.len() - k,
        {
            let listed = &self.listed[k];
            let ghost before = list@;
            if !listed.closed && (listed.done || !complete) {
                list.push(k);
                assert(as_ints(list@) =~= as_ints(before).push(k as int));
            }
            k = k + 1;
        }
        list
    }
}

// ---------------------------------------------------------------------------
// Opening a session
// ---------------------------------------------------------------------------
/// How a wait ended.
#[derive(Clone, Copy, Debug, PartialEq, Eq, Structural)]
pub enum Wait {
    Done,
    Timeout,
    Interrupted,
}

/// Whether a wait is over, and how; what is awaited comes before a stop signal,
/// and that before the deadline.
pub fn wait_step(done: bool, interrupted: bool, out_of_time: bool) -> (wait: Option<Wait>)
    ensures
        wait == if done {
            Some(Wait::Done)
        } else if interrupted {
            Some(Wait::Interrupted)
        } else if out_of_time {
            Some(Wait::Timeout)
        } else {
            None
        },
{
    if done {
        Some(Wait::Done)
    } else if interrupted {
        Some(Wait::Interrupted)
    } else if out_of_time {
        Some(Wait::Timeout)
    } else {
        None
    }
}

/// A session that was just opened.
pub open spec fn opened() -> LiveView {
    LiveView {
        buffer_size: None,
        formats: Seq::empty(),
        constraints_done: false,
        stopped: false,
        params_failed: false,
        slots: Seq::empty(),
        next: 0,
        shape: None,
        last_slot: None,
        pending: None,
    }
}

pub const NO_SOURCE_MANAGER: &'static str =
    "this compositor does not offer window capture (`ext_foreign_toplevel_image_capture_source_manager_v1`)";

pub const NO_COPY_MANAGER: &'static str =
    "this compositor does not offer window capture (`ext_image_copy_capture_manager_v1`)";

/// Why no session can be opened, if none can.
pub open spec fn unopenable(state: CopyView) -> Option<ErrorView> {
    if state.live is Some {
        Some(ErrorView::WaylandProtocol("a window capture session is already running"@))
    } else if !state.source_manager {
        Some(ErrorView::Recording(NO_SOURCE_MANAGER@))
    } else if !state.manager {
        Some(ErrorView::Recording(NO_COPY_MANAGER@))
    } else if !state.dmabuf {
        Some(ErrorView::MissingCapability("zwp_linux_dmabuf_v1"@))
    } else {
        None
    }
}

pub const STOPPED_AT_ONCE: &'static str =
    "the compositor stopped the window capture session as soon as it was created";

pub const UNDESCRIBED: &'static str =
    "the compositor did not describe the window capture buffers in time";

pub const NO_FORMAT_BEFORE: &'static str =
    "the compositor offers no dma-buf format this encoder can take for this window (it offered ";

pub const NO_FORMAT_AFTER: &'static str = "); the GPU path needs ARGB8888 or XRGB8888";

/// The buffers a session's pool is made of: width, height, fourcc and
/// modifiers.
pub open spec fn planned_pool(state: CopyView, waited: Wait) -> core::result::Result<
    (u32, u32, u32, Seq<u64>),
    ErrorView,
> {
    match state.live {
        None => Err(
            ErrorView::WaylandProtocol(
                "the window capture session disappeared while it was being set up"@,
            ),
        ),
        Some(live) => if live.stopped {
            Err(ErrorView::Recording(STOPPED_AT_ONCE@))
        } else if waited != Wait::Done {
            Err(ErrorView::Recording(UNDESCRIBED@))
        } else {
            match live.buffer_size {
                None => Err(
                    ErrorView::Recording("the window capture session reports no buffer size"@),
                ),
                Some((width, height)) => match picked_format(live.formats) {
                    None => Err(
                        ErrorView::Recording(
                            NO_FORMAT_BEFORE@ + offers_text(live.formats) + NO_FORMAT_AFTER@,
                        ),
                    ),
                    Some((fourcc, modifiers)) => Ok((width, height, fourcc, modifiers)),
                },
            }
        },
    }
}

/// The buffers of a pool.
#[derive(Clone, Debug, PartialEq, Eq)]
pub struct PoolPlan {
    pub width: u32,
    pub height: u32,
    pub fourcc: u32,
    pub modifiers: Vec<u64>,
}

impl View for PoolPlan {
    type V = (u32, u32, u32, Seq<u64>);

    open spec fn view(&self) -> (u32, u32, u32, Seq<u64>) {
        (self.width, self.height, self.fourcc, self.modifiers@)
    }
}

/// The size of a buffer as the protocol takes it.
pub open spec fn signed_size(width: u32, height: u32) -> core::result::Result<
    (i32, i32),
    ErrorView,
> {
    if width > i32::MAX {
        Err(ErrorView::Recording("the window is too wide to capture"@))
    } else if height > i32::MAX {
        Err(ErrorView::Recording("the window is too tall to capture"@))
    } else {
        Ok((width as i32, height as i32))
    }
}

/// What a buffer the compositor could not import is reported with.
pub open spec fn import_failure(plan: (u32, u32, u32, Seq<u64>)) -> Seq<char> {
    "the compositor could not import a "@ + decimal_text(plan.0 as int) + "x"@ + decimal_text(
        plan.1 as int,
    ) + " dma-buf (fourcc 0x"@ + hex_text(plan.2 as nat, 8) + ", modifier 0x"@ + hex_text(
        if plan.3.len() > 0 {
            plan.3[0] as nat
        } else {
            0
        },
        0,
    ) + "), which means the modifier it advertised is not one it can actually take"@
}

/// What handing a buffer of the pool to the compositor comes to: the session
/// after it, and the shape once the pool is complete.
pub open spec fn pooled(
    state: CopyView,
    plan: (u32, u32, u32, Seq<u64>),
    buffer: GbmBuffer,
    answered: bool,
) -> core::result::Result<(LiveView, Option<Shape>), ErrorView> {
    match state.live {
        None => Err(
            ErrorView::WaylandProtocol(
                "the window capture session disappeared while its pool was being built"@,
            ),
        ),
        Some(live) => if !answered || live.params_failed {
            Err(ErrorView::Recording(import_failure(plan)))
        } else {
            let slots = live.slots.push(buffer);
            let shape = if slots.len() == POOL_SLOTS {
                Some(Shape { width: plan.0, height: plan.1, fourcc: plan.2 })
            } else {
                None
            };
            Ok((LiveView { slots, shape, ..live }, shape))
        },
    }
}

impl CopyState {
    /// Opens a session, when nothing stands in the way.
    pub fn begin(&mut self) -> (begun: Result<()>)
        requires
            old(self)@.wf(),
        ensures
            settles(
                begun,
                match unopenable(old(self)@) {
                    Some(why) => Err(why),
                    None => Ok(()),
                },
            ),
            final(self)@ == if begun is Ok {
                with_live(old(self)@, opened())
            } else {
                old(self)@
            },
            final(self)@.wf(),
    {
        if self.live.is_some() {
            return Err(protocol("a window capture session is already running"));
        }
        if !self.source_manager {
            return Err(recording(NO_SOURCE_MANAGER));
        }
        if !self.manager {
            return Err(recording(NO_COPY_MANAGER));
        }
        if !self.dmabuf {
            return Err(VshotError::MissingCapability("zwp_linux_dmabuf_v1".to_owned()));
        }
        let live = Live {
            buffer_size: None,
            formats: Vec::new(),
            constraints_done: false,
            stopped: false,
            params_failed: false,
            slots: Vec::new(),
            next: 0,
            shape: None,
            last_slot: None,
            pending: None,
        };
        assert(live@.formats =~= Seq::empty());
        assert(live@.slots =~= Seq::empty());
        self.live = Some(live);
        Ok(())
    }

    /// Whether the compositor has described the session, or ended it.
    pub fn described(&self) -> (described: bool)
        ensures
            described == (self@.live matches Some(live) && (live.constraints_done || live.stopped)),
    {
        match &self.live {
            Some(live) => live.constraints_done || live.stopped,
            None => false,
        }
    }

    /// The buffers the pool is made of.
    pub fn plan_pool(&self, waited: Wait) -> (plan: Result<PoolPlan>)
        ensures
            match plan {
                Ok(plan) => planned_pool(self@, waited) == Ok::<
                    (u32, u32, u32, Seq<u64>),
                    ErrorView,
                >(plan@),
                Err(error) => planned_pool(self@, waited) == Err::<
                    (u32, u32, u32, Seq<u64>),
                    ErrorView,
                >(error@),
            },
    {
        let live = match &self.live {
            Some(live) => live,
            None => {
                return Err(
                    protocol("the window capture session disappeared while it was being set up"),
                );
            },
        };
        if live.stopped {
            return Err(recording(STOPPED_AT_ONCE));
        }
        if waited != Wait::Done {
            return Err(recording(UNDESCRIBED));
        }
        let (width, height): (u32, u32) = match live.buffer_size {
            Some(size) => size,
            None => {
                return Err(recording("the window capture session reports no buffer size"));
            },
        };
        match pick_format(live.formats.as_slice()) {
            Some((fourcc, modifiers)) => Ok(PoolPlan { width, height, fourcc, modifiers }),
            None => {
                let offered = describe_formats(live.formats.as_slice());
                Err(
                    VshotError::Recording(
                        concat3(NO_FORMAT_BEFORE, offered.as_str(), NO_FORMAT_AFTER),
                    ),
                )
            },
        }
    }

    /// Takes in one buffer of the pool that was handed to the compositor.
    /// `answered` says whether the connection still answers.
    pub fn slot_imported(&mut self, plan: &PoolPlan, buffer: GbmBuffer, answered: bool) -> (shape:
        Result<Option<Shape>>)
        requires
            old(self)@.wf(),
            old(self)@.live matches Some(live) ==> live.shape is None,
        ensures
            match shape {
                Ok(shape) => pooled(old(self)@, plan@, buffer, answered) matches Ok((live, complete))
                    && complete == shape && final(self)@ == with_live(old(self)@, live),
                Err(error) => pooled(old(self)@, plan@, buffer, answered) == Err::<
                    (LiveView, Option<Shape>),
                    ErrorView,
                >(error@) && final(self)@ == old(self)@,
            },
            final(self)@.wf(),
    {
        let mut live = match self.live.take() {
            Some(live) => live,
            None => {
                return Err(
                    protocol(
                        "the window capture session disappeared while its pool was being built",
                    ),
                );
            },
        };
        if !answered || live.params_failed {
            self.live = Some(live);
            let modifier: u64 = if plan.modifiers.len() > 0 {
                plan.modifiers[0]
            } else {
                0
            };
            let (width, height) = (format_u64(plan.width as u64), format_u64(plan.height as u64));
            let (fourcc, layout) = (format_hex(plan.fourcc as u64, 8), format_hex(modifier, 0));
            let mut text = "the compositor could not import a ".to_owned();
            text.append(width.as_str());
            text.append("x");
            text.append(height.as_str());
            text.append(" dma-buf (fourcc 0x");
            text.append(fourcc.as_str());
            text.append(", modifier 0x");
            text.append(layout.as_str());
            text.append(
                "), which means the modifier it advertised is not one it can actually take",
            );
            return Err(VshotError::Recording(text));
        }
        live.slots.push(buffer);
        let shape = if live.slots.len() == POOL_SLOTS {
            Some(Shape { width: plan.width, height: plan.height, fourcc: plan.fourcc })
        } else {
            None
        };
        live.shape = shape;
        self.live = Some(live);
        Ok(shape)
    }
}

/// The size of a buffer as the protocol takes it.
pub fn buffer_size(width: u32, height: u32) -> (size: Result<(i32, i32)>)
    ensures
        settles(size, signed_size(width, height)),
{
    if width > i32::MAX as u32 {
        return Err(recording("the window is too wide to capture"));
    }
    if height > i32::MAX as u32 {
        return Err(recording("the window is too tall to capture"));
    }
    Ok((width as i32, height as i32))
}

// ---------------------------------------------------------------------------
// Events of a session
// ---------------------------------------------------------------------------
/// An event of the session.
#[derive(Clone, Debug, PartialEq, Eq)]
pub enum SessionEvent {
    BufferSize { width: u32, height: u32 },
    /// A format with its modifiers, as the bytes the protocol carries them in.
    DmabufFormat { format: u32, modifiers: Vec<u8> },
    /// Every buffer has been described.
    Done,
    Stopped,
    /// Something that changes nothing.
    Other,
}

/// The session after an event, on a machine of the given byte order.
pub open spec fn session_after(live: LiveView, event: SessionEvent, little: bool) -> LiveView {
    match event {
        SessionEvent::BufferSize { width, height } => LiveView {
            buffer_size: Some((width, height)),
            ..live
        },
        SessionEvent::DmabufFormat { format, modifiers } => LiveView {
            formats: live.formats.push((format, words_in(modifiers@, little))),
            ..live
        },
        SessionEvent::Done => LiveView { constraints_done: true, ..live },
        SessionEvent::Stopped => LiveView { stopped: true, pending: None, ..live },
        SessionEvent::Other => live,
    }
}

/// An event of the frame in flight.
#[derive(Clone, Copy, Debug, PartialEq, Eq, Structural)]
pub enum CopyEvent {
    Ready,
    Failed(u32),
    /// Something that changes nothing.
    Other,
}

/// The session after an event of the frame in flight.
pub open spec fn copy_after(live: LiveView, event: CopyEvent) -> LiveView {
    match live.pending {
        Some(pending) => LiveView {
            pending: Some(
                match event {
                    CopyEvent::Ready => Pending { ready: true, ..pending },
                    CopyEvent::Failed(code) => Pending { failed: Some(code), ..pending },
                    CopyEvent::Other => pending,
                },
            ),
            ..live
        },
        None => live,
    }
}

/// Why a frame was not copied, as far as it has a name.
#[derive(Clone, Copy, Debug, PartialEq, Eq, Structural)]
pub enum FailureReason {
    Unknown,
    BufferConstraints,
    Stopped,
    /// A reason that has a name nothing here knows.
    Unnamed,
    /// A number the protocol gives no name.
    Number(u32),
}

/// The number of a failure.
pub fn failure_code(reason: FailureReason) -> (code: u32)
    ensures
        code == match reason {
            FailureReason::Unknown => FAILED_UNKNOWN,
            FailureReason::BufferConstraints => FAILED_BUFFER_CONSTRAINTS,
            FailureReason::Stopped => FAILED_STOPPED,
            FailureReason::Unnamed => FAILED_UNKNOWN,
            FailureReason::Number(number) => number,
        },
{
    match reason {
        FailureReason::Unknown => FAILED_UNKNOWN,
        FailureReason::BufferConstraints => FAILED_BUFFER_CONSTRAINTS,
        FailureReason::Stopped => FAILED_STOPPED,
        FailureReason::Unnamed => FAILED_UNKNOWN,
        FailureReason::Number(number) => number,
    }
}

/// The state after an event of its session.
pub open spec fn session_told(state: CopyView, event: SessionEvent, little: bool) -> CopyView {
    match state.live {
        Some(live) => with_live(state, session_after(live, event, little)),
        None => state,
    }
}

/// The state after an event of the frame in flight.
pub open spec fn frame_told(state: CopyView, event: CopyEvent) -> CopyView {
    match state.live {
        Some(live) => with_live(state, copy_after(live, event)),
        None => state,
    }
}

/// The state after the compositor could not import a buffer.
pub open spec fn import_failed(state: CopyView) -> CopyView {
    match state.live {
        Some(live) => with_live(state, LiveView { params_failed: true, ..live }),
        None => state,
    }
}

impl CopyState {
    /// Takes in an event of the session.
    pub fn session_event(&mut self, event: SessionEvent)
        requires
            old(self)@.wf(),
        ensures
            exists|little: bool| final(self)@ == #[trigger] session_told(old(self)@, event, little),
            final(self)@.wf(),
    {
        let ghost mut order = true;
        let ghost before = self@;
        if let Some(mut live) = self.live.take() {
            match event {
                SessionEvent::BufferSize { width, height } => {
                    live.buffer_size = Some((width, height));
                },
                SessionEvent::DmabufFormat { format, modifiers } => {
                    let words = modifiers_from_bytes(modifiers.as_slice());
                    proof {
                        order = choose|little: bool| words@ == #[trigger] words_in(
                            modifiers@,
                            little,
                        );
                    }
                    let ghost offered = live.formats@;
                    live.formats.push((format, words));
                    assert(offers(live.formats@) =~= offers(offered).push((format, words@)));
                },
                SessionEvent::Done => {
                    live.constraints_done = true;
                },
                SessionEvent::Stopped => {
                    live.stopped = true;
                    live.pending = None;
                },
                SessionEvent::Other => {},
            }
            self.live = Some(live);
        }
        assert(self@ == session_told(before, event, order));
    }

    /// Takes in an event of the frame in flight.
    pub fn frame_event(&mut self, event: CopyEvent)
        requires
            old(self)@.wf(),
        ensures
            final(self)@ == frame_told(old(self)@, event),
            final(self)@.wf(),
    {
        if let Some(mut live) = self.live.take() {
            if let Some(mut pending) = live.pending {
                match event {
                    CopyEvent::Ready => {
                        pending.ready = true;
                    },
                    CopyEvent::Failed(code) => {
                        pending.failed = Some(code);
                    },
                    CopyEvent::Other => {},
                }
                live.pending = Some(pending);
            }
            self.live = Some(live);
        }
    }

    /// Takes in that the compositor could not import a buffer.
    pub fn params_failed(&mut self)
        requires
            old(self)@.wf(),
        ensures
            final(self)@ == import_failed(old(self)@),
            final(self)@.wf(),
    {
        if let Some(mut live) = self.live.take() {
            live.params_failed = true;
            self.live = Some(live);
        }
    }
}

// ---------------------------------------------------------------------------
// Grabbing frames
// ---------------------------------------------------------------------------
/// What a grab produced.
#[derive(Clone, Debug, PartialEq, Eq)]
pub enum Grabbed {
    /// The window was copied into this buffer of the pool.
    Frame(DmabufFrame),
    /// Nothing arrived in time; the request stays in flight.
    Idle,
    /// The session is over, and why.
    Ended(String),
    /// The caller asked to stop.
    Interrupted,
}

/// What a [`Grabbed`] says.
pub enum GrabbedView {
    Frame(DmabufFrame),
    Idle,
    Ended(Seq<char>),
    Interrupted,
}

impl View for Grabbed {
    type V = GrabbedView;

    open spec fn view(&self) -> GrabbedView {
        match *self {
            Grabbed::Frame(frame) => GrabbedView::Frame(frame),
            Grabbed::Idle => GrabbedView::Idle,
            Grabbed::Ended(why) => GrabbedView::Ended(why@),
            Grabbed::Interrupted => GrabbedView::Interrupted,
        }
    }
}

/// What a grab does first.
#[derive(Clone, Debug, PartialEq, Eq)]
pub enum GrabStep {
    /// It is over already.
    Over(Grabbed),
    /// Ask for a frame into this slot, all of it damaged, and wait for it.
    Request { slot: usize, width: i32, height: i32 },
    /// Wait for the frame that is in flight.
    Wait,
}

/// What a [`GrabStep`] says.
pub enum GrabStepView {
    Over(GrabbedView),
    Request { slot: usize, width: i32, height: i32 },
    Wait,
}

impl View for GrabStep {
    type V = GrabStepView;

    open spec fn view(&self) -> GrabStepView {
        match *self {
            GrabStep::Over(grabbed) => GrabStepView::Over(grabbed@),
            GrabStep::Request { slot, width, height } => GrabStepView::Request {
                slot,
                width,
                height,
            },
            GrabStep::Wait => GrabStepView::Wait,
        }
    }
}

pub const CAPTURE_STOPPED: &'static str =
    "the compositor stopped the window capture (the window may have been closed)";

pub const BUFFER_REFUSED: &'static str =
    "the compositor refused the capture buffer: the window's buffers no longer match the shape they were allocated for";

pub const NO_SESSION: &'static str = "no window capture session is running";

/// A size in words.
pub open spec fn size_text(width: u32, height: u32) -> Seq<char> {
    decimal_text(width as int) + "x"@ + decimal_text(height as int)
}

/// What a window that changed its size ends a recording with.
pub open spec fn resized(shape: Shape, size: Option<(u32, u32)>) -> Seq<char> {
    let (width, height) = match size {
        Some(size) => size,
        None => (shape.width, shape.height),
    };
    "the window changed size, from "@ + size_text(shape.width, shape.height) + " to "@ + size_text(
        width,
        height,
    ) + ", which one recording cannot follow"@
}

/// As much of a length as the protocol can carry.
pub open spec fn damage(length: u32) -> i32 {
    if length > i32::MAX {
        i32::MAX
    } else {
        length as i32
    }
}

/// What a grab does first, and what the session is then.
pub open spec fn grab_started(state: CopyView, interrupted: bool) -> core::result::Result<
    (GrabStepView, CopyView),
    ErrorView,
> {
    if interrupted {
        Ok((GrabStepView::Over(GrabbedView::Interrupted), state))
    } else {
        match state.live {
            None => Err(ErrorView::WaylandProtocol(NO_SESSION@)),
            Some(live) => if live.stopped {
                Ok((GrabStepView::Over(GrabbedView::Ended(CAPTURE_STOPPED@)), state))
            } else {
                match live.shape {
                    None => Err(ErrorView::WaylandProtocol(NO_SESSION@)),
                    Some(shape) => if live.buffer_size != Some((shape.width, shape.height)) {
                        Ok(
                            (
                                GrabStepView::Over(
                                    GrabbedView::Ended(resized(shape, live.buffer_size)),
                                ),
                                state,
                            ),
                        )
                    } else if live.pending is Some {
                        Ok((GrabStepView::Wait, state))
                    } else {
                        Ok(
                            (
                                GrabStepView::Request {
                                    slot: live.next,
                                    width: damage(shape.width),
                                    height: damage(shape.height),
                                },
                                with_live(
                                    state,
                                    LiveView {
                                        pending: Some(
                                            Pending {
                                                slot: live.next,
                                                ready: false,
                                                failed: None,
                                            },
                                        ),
                                        ..live
                                    },
                                ),
                            ),
                        )
                    },
                }
            },
        }
    }
}

/// What a grab produced, and what the session is then.
pub open spec fn grab_ended(state: CopyView, waited: Wait) -> (
    core::result::Result<GrabbedView, ErrorView>,
    CopyView,
) {
    match waited {
        Wait::Interrupted => (Ok(GrabbedView::Interrupted), state),
        Wait::Timeout => (Ok(GrabbedView::Idle), state),
        Wait::Done => match state.live {
            None => (
                Err(
                    ErrorView::WaylandProtocol(
                        "the window capture session disappeared mid-frame"@,
                    ),
                ),
                state,
            ),
            Some(live) => match live.pending {
                None => (Ok(GrabbedView::Idle), state),
                Some(pending) => {
                    let landed = LiveView { pending: None, ..live };
                    match pending.failed {
                        Some(code) => (
                            if code == FAILED_STOPPED {
                                Ok(GrabbedView::Ended(CAPTURE_STOPPED@))
                            } else if code == FAILED_BUFFER_CONSTRAINTS {
                                Ok(GrabbedView::Ended(BUFFER_REFUSED@))
                            } else {
                                Err(
                                    ErrorView::Recording(
                                        "the compositor could not copy this window (capture failure "@
                                            + decimal_text(code as int) + ")"@,
                                    ),
                                )
                            },
                            with_live(state, landed),
                        ),
                        None => if !pending.ready {
                            (
                                Err(
                                    ErrorView::WaylandProtocol(
                                        "the window capture frame ended without a result"@,
                                    ),
                                ),
                                with_live(state, landed),
                            )
                        } else {
                            (
                                Ok(
                                    GrabbedView::Frame(live.slots[pending.slot as int].as_frame()),
                                ),
                                with_live(
                                    state,
                                    LiveView {
                                        last_slot: Some(pending.slot),
                                        next: ((pending.slot + 1) % (live.slots.len() as int)) as usize,
                                        ..landed
                                    },
                                ),
                            )
                        },
                    }
                },
            },
        },
    }
}

/// The frame that is kept for sending it once more.
pub open spec fn kept_frame(state: CopyView) -> Option<DmabufFrame> {
    match state.live {
        Some(live) => match live.last_slot {
            Some(slot) => Some(live.slots[slot as int].as_frame()),
            None => None,
        },
        None => None,
    }
}

fn capped(length: u32) -> (signed: i32)
    ensures
        signed == damage(length),
{
    if length > i32::MAX as u32 {
        i32::MAX
    } else {
        length as i32
    }
}

fn resized_text(shape: Shape, size: Option<(u32, u32)>) -> (text: String)
    ensures
        text@ == resized(shape, size),
{
    let (width, height): (u32, u32) = match size {
        Some(size) => size,
        None => (shape.width, shape.height),
    };
    let (a, b) = (format_u64(shape.width as u64), format_u64(shape.height as u64));
    let (c, d) = (format_u64(width as u64), format_u64(height as u64));
    let from = concat3(a.as_str(), "x", b.as_str());
    let to = concat3(c.as_str(), "x", d.as_str());
    let mut text = concat3("the window changed size, from ", from.as_str(), " to ");
    text.append(to.as_str());
    text.append(", which one recording cannot follow");
    text
}

proof fn lemma_next_slot(slot: usize, slots: usize)
    requires
        1 < slots,
        slot < slots,
    ensures
        0 <= (slot + 1) % (slots as int) < slots,
        (slot + 1) % (slots as int) != slot,
{
    if slot + 1 < slots {
        assert((slot + 1) % (slots as int) == slot + 1) by (nonlinear_arith)
            requires
                0 <= slot + 1 < slots,
        ;
    } else {
        assert((slot + 1) % (slots as int) == 0) by (nonlinear_arith)
            requires
                slot + 1 == slots,
        ;
    }
}

impl CopyState {
    /// Starts a grab: asks for a frame unless one is in flight.
    pub fn grab_start(&mut self, interrupted: bool) -> (step: Result<GrabStep>)
        requires
            old(self)@.wf(),
        ensures
            match step {
                Ok(step) => grab_started(old(self)@, interrupted) == Ok::<
                    (GrabStepView, CopyView),
                    ErrorView,
                >((step@, final(self)@)),
                Err(error) => grab_started(old(self)@, interrupted) == Err::<
                    (GrabStepView, CopyView),
                    ErrorView,
                >(error@) && final(self)@ == old(self)@,
            },
            final(self)@.wf(),
    {
        if interrupted {
            return Ok(GrabStep::Over(Grabbed::Interrupted));
        }
        let mut live = match self.live.take() {
            Some(live) => live,
            None => {
                return Err(protocol(NO_SESSION));
            },
        };
        if live.stopped {
            self.live = Some(live);
            return Ok(GrabStep::Over(Grabbed::Ended(CAPTURE_STOPPED.to_owned())));
        }
        let shape = match live.shape {
            Some(shape) => shape,
            None => {
                self.live = Some(live);
                return Err(protocol(NO_SESSION));
            },
        };
        let same = match live.buffer_size {
            Some((width, height)) => width == shape.width && height == shape.height,
            None => false,
        };
        if !same {
            let text = resized_text(shape, live.buffer_size);
            self.live = Some(live);
            return Ok(GrabStep::Over(Grabbed::Ended(text)));
        }
        if live.pending.is_some() {
            self.live = Some(live);
            return Ok(GrabStep::Wait);
        }
        let slot: usize = live.next;
        live.pending = Some(Pending { slot, ready: false, failed: None });
        self.live = Some(live);
        Ok(
            GrabStep::Request {
                slot,
                width: capped(shape.width),
                height: capped(shape.height),
            },
        )
    }

    /// Whether the frame in flight has come to an end.
    pub fn landed(&self) -> (landed: bool)
        ensures
            landed == (self@.live matches Some(live) && (live.pending matches Some(pending) && (
            pending.ready || pending.failed is Some))),
    {
        match &self.live {
            Some(live) => match live.pending {
                Some(pending) => pending.ready || pending.failed.is_some(),
                None => false,
            },
            None => false,
        }
    }

    /// Ends a grab.
    pub fn grab_end(&mut self, waited: Wait) -> (grabbed: Result<Grabbed>)
        requires
            old(self)@.wf(),
        ensures
            match grabbed {
                Ok(grabbed) => grab_ended(old(self)@, waited) == (
                    Ok::<GrabbedView, ErrorView>(grabbed@),
                    final(self)@,
                ),
                Err(error) => grab_ended(old(self)@, waited) == (
                    Err::<GrabbedView, ErrorView>(error@),
                    final(self)@,
                ),
            },
            final(self)@.wf(),
    {
        if waited == Wait::Interrupted {
            return Ok(Grabbed::Interrupted);
        }
        if waited == Wait::Timeout {
            return Ok(Grabbed::Idle);
        }
        let mut live = match self.live.take() {
            Some(live) => live,
            None => {
                return Err(protocol("the window capture session disappeared mid-frame"));
            },
        };
        let pending = match live.pending.take() {
            Some(pending) => pending,
            None => {
                self.live = Some(live);
                return Ok(Grabbed::Idle);
            },
        };
        if let Some(code) = pending.failed {
            self.live = Some(live);
            if code == FAILED_STOPPED {
                return Ok(Grabbed::Ended(CAPTURE_STOPPED.to_owned()));
            }
            if code == FAILED_BUFFER_CONSTRAINTS {
                return Ok(Grabbed::Ended(BUFFER_REFUSED.to_owned()));
            }
            let number = format_u64(code as u64);
            return Err(
                VshotError::Recording(
                    concat3(
                        "the compositor could not copy this window (capture failure ",
                        number.as_str(),
                        ")",
                    ),
                ),
            );
        }
        if !pending.ready {
            self.live = Some(live);
            return Err(protocol("the window capture frame ended without a result"));
        }
        proof {
            lemma_next_slot(pending.slot, live.slots.len());
        }
        live.last_slot = Some(pending.slot);
        live.next = (pending.slot + 1) % live.slots.len();
        let frame = live.slots[pending.slot].frame();
        self.live = Some(live);
        Ok(Grabbed::Frame(frame))
    }

    /// The frame that was delivered last, for a recording to send once more on
    /// its way out.
    pub fn last_frame(&self) -> (frame: Option<DmabufFrame>)
        requires
            self@.wf(),
        ensures
            frame == kept_frame(self@),
    {
        match &self.live {
            Some(live) => match live.last_slot {
                Some(slot) => Some(live.slots[slot].frame()),
                None => None,
            },
            None => None,
        }
    }

    /// Whether any frame has been delivered yet.
    pub fn has_frames(&self) -> (any: bool)
        ensures
            any == (kept_frame(self@) is Some),
    {
        match &self.live {
            Some(live) => live.last_slot.is_some(),
            None => false,
        }
    }
}

// ---------------------------------------------------------------------------
// Laws
// ---------------------------------------------------------------------------
/// The frame that was delivered last is never copied over by the one that is
/// asked for next, so it can be sent once more.
pub proof fn law_the_last_frame_is_not_copied_over(state: CopyView, interrupted: bool)
    requires
        state.wf(),
        grab_started(state, interrupted) matches Ok((GrabStepView::Request { slot, width, height }, _)),
    ensures
        grab_started(state, interrupted) matches Ok((
            GrabStepView::Request { slot, width, height },
            asked,
        )) && (asked.live matches Some(live) && live.last_slot != Some(slot)) && asked.wf(),
{
}

/// A frame that did not arrive in time is not lost: the next grab waits for the
/// same one.
pub proof fn law_a_late_frame_is_waited_for_again(state: CopyView)
    requires
        state.wf(),
        grab_started(state, false) matches Ok((GrabStepView::Request { slot, width, height }, _)),
    ensures
        grab_started(state, false) matches Ok((step, asked)) && grab_ended(asked, Wait::Timeout) == (
            Ok::<GrabbedView, ErrorView>(GrabbedView::Idle),
            asked,
        ) && grab_started(asked, false) == Ok::<(GrabStepView, CopyView), ErrorView>(
            (GrabStepView::Wait, asked),
        ),
{
}

/// A recording keeps one frame size: no frame is asked for once the window has
/// another.
pub proof fn law_every_frame_has_the_size_of_the_session(state: CopyView, interrupted: bool)
    requires
        grab_started(state, interrupted) matches Ok((GrabStepView::Request { slot, width, height }, _)),
    ensures
        state.live matches Some(live) && (live.shape matches Some(shape) && live.buffer_size
            == Some((shape.width, shape.height))),
{
}

/// Everything that can happen to a connection.
pub enum Step {
    Announced(Seq<char>, u32),
    Toplevel(u32, Name),
    Handle(u32, HandleEvent),
    Begin,
    SlotImported((u32, u32, u32, Seq<u64>), GbmBuffer, bool),
    Session(SessionEvent, bool),
    Frame(CopyEvent),
    ImportFailed,
    GrabStart(bool),
    GrabEnd(Wait),
}

/// The state after a step.
pub open spec fn stepped(state: CopyView, step: Step) -> CopyView {
    match step {
        Step::Announced(interface, version) => bound(state, interface, version).0,
        Step::Toplevel(handle, name) => CopyView {
            listed: state.listed.push(Listed { handle, name, done: false, closed: false }),
            ..state
        },
        Step::Handle(handle, event) => CopyView {
            listed: handle_told(state.listed, handle, event),
            ..state
        },
        Step::Begin => if unopenable(state) is None {
            with_live(state, opened())
        } else {
            state
        },
        Step::SlotImported(plan, buffer, answered) => match pooled(state, plan, buffer, answered) {
            Ok((live, _)) => with_live(state, live),
            Err(_) => state,
        },
        Step::Session(event, little) => session_told(state, event, little),
        Step::Frame(event) => frame_told(state, event),
        Step::ImportFailed => import_failed(state),
        Step::GrabStart(interrupted) => match grab_started(state, interrupted) {
            Ok((_, asked)) => asked,
            Err(_) => state,
        },
        Step::GrabEnd(waited) => grab_ended(state, waited).1,
    }
}

/// The frame that a step delivers.
pub open spec fn delivered(state: CopyView, step: Step) -> Option<DmabufFrame> {
    match step {
        Step::GrabEnd(waited) => match grab_ended(state, waited).0 {
            Ok(GrabbedView::Frame(frame)) => Some(frame),
            _ => None,
        },
        _ => None,
    }
}

/// A step that can be taken: the pool takes in buffers only until it is
/// complete.
pub open spec fn in_order(state: CopyView, step: Step) -> bool {
    step is SlotImported ==> (state.live matches Some(live) ==> live.shape is None)
}

/// The state after the first `n` steps.
pub open spec fn state_after(state: CopyView, steps: Seq<Step>, n: int) -> CopyView
    decreases n,
{
    if n <= 0 {
        state
    } else {
        stepped(state_after(state, steps, n - 1), steps[n - 1])
    }
}

/// The last frame that the first `n` steps delivered.
pub open spec fn last_delivered(state: CopyView, steps: Seq<Step>, n: int) -> Option<DmabufFrame>
    decreases n,
{
    if n <= 0 {
        None
    } else {
        match delivered(state_after(state, steps, n - 1), steps[n - 1]) {
            Some(frame) => Some(frame),
            None => last_delivered(state, steps, n - 1),
        }
    }
}

/// Only a delivered frame changes which one is kept: a step that delivers one
/// keeps that one, and every other step leaves the kept one as it is.
pub proof fn law_only_a_delivered_frame_replaces_the_last(state: CopyView, step: Step)
    requires
        state.wf(),
        in_order(state, step),
    ensures
        stepped(state, step).wf(),
        kept_frame(stepped(state, step)) == match delivered(state, step) {
            Some(frame) => Some(frame),
            None => kept_frame(state),
        },
{
    if let Some(live) = state.live {
        if let Some(pending) = live.pending {
            lemma_next_slot(pending.slot, POOL_SLOTS);
        }
    }
}

/// Whatever happens to a connection, the frame that is kept is the one that was
/// delivered last, in every one of its fields; there is none before the first.
pub proof fn law_the_kept_frame_is_the_last_delivered(state: CopyView, steps: Seq<Step>, n: int)
    requires
        state.wf(),
        kept_frame(state) is None,
        0 <= n <= steps.len(),
        forall|i: int|
            0 <= i < n ==> in_order(state_after(state, steps, i), #[trigger] steps[i]),
    ensures
        state_after(state, steps, n).wf(),
        kept_frame(state_after(state, steps, n)) == last_delivered(state, steps, n),
    decreases n,
{
    if n > 0 {
        law_the_kept_frame_is_the_last_delivered(state, steps, n - 1);
        assert(in_order(state_after(state, steps, n - 1), steps[n - 1]));
        law_only_a_delivered_frame_replaces_the_last(
            state_after(state, steps, n - 1),
            steps[n - 1],
        );
    }
}

/// A session starts without a frame to keep.
pub proof fn law_a_session_starts_without_a_frame(state: CopyView)
    requires
        unopenable(state) is None,
    ensures
        kept_frame(stepped(state, Step::Begin)) is None,
{
}

/// A copy that failed leaves the last delivered frame as it is.
pub proof fn law_a_failed_copy_keeps_the_last_frame(state: CopyView)
    requires
        state.wf(),
        state.live matches Some(live) && (live.pending matches Some(pending) && pending.failed is Some),
    ensures
        grab_ended(state, Wait::Done).1.live matches Some(after) && after.last_slot
            == state.live->Some_0.last_slot && after.pending is None,
        !(grab_ended(state, Wait::Done).0 matches Ok(GrabbedView::Frame(frame))),
{
}

/// A frame that lands is the buffer it was asked into: the slot of the request,
/// which is the next one of the pool, with the damage of the whole window; after
/// it comes the slot behind it, and after the last the first again.
pub proof fn law_a_frame_lands_in_the_buffer_it_was_asked_into(state: CopyView)
    requires
        state.wf(),
        grab_started(state, false) matches Ok((GrabStepView::Request { slot, width, height }, _)),
    ensures
        grab_started(state, false) matches Ok((
            GrabStepView::Request { slot, width, height },
            asked,
        )) && (state.live matches Some(live) && (live.shape matches Some(shape) && {
            let ready = frame_told(asked, CopyEvent::Ready);
            let (grabbed, after) = grab_ended(ready, Wait::Done);
            &&& slot == live.next
            &&& slot < live.slots.len()
            &&& shape.width <= i32::MAX ==> width == shape.width
            &&& shape.height <= i32::MAX ==> height == shape.height
            &&& grabbed == Ok::<GrabbedView, ErrorView>(
                GrabbedView::Frame(live.slots[slot as int].as_frame()),
            )
            &&& after.live matches Some(kept)
            &&& kept.last_slot == Some(slot)
            &&& kept.pending is None
            &&& kept.next == if slot + 1 == live.slots.len() {
                0
            } else {
                slot + 1
            }
            &&& kept.slots == live.slots
            &&& kept.shape == live.shape
        })),
{
    let live = state.live->0;
    lemma_next_slot(live.next, POOL_SLOTS);
    if live.next + 1 == live.slots.len() {
        assert((live.next + 1) % (live.slots.len() as int) == 0) by (nonlinear_arith)
            requires
                live.next + 1 == live.slots.len(),
        ;
    } else {
        assert((live.next + 1) % (live.slots.len() as int) == live.next + 1) by (nonlinear_arith)
            requires
                0 <= live.next + 1 < live.slots.len(),
        ;
    }
}

/// What a grab does first: a stop signal comes before everything, then the end
/// of the session, then a change of the window's size; a frame in flight is
/// waited for, and only without one another is asked for.
pub proof fn law_a_grab_asks_only_where_a_frame_can_come(state: CopyView, interrupted: bool)
    requires
        state.live matches Some(live) && live.shape is Some,
    ensures
        ({
            let live = state.live->0;
            let shape = live.shape->0;
            let same_size = live.buffer_size == Some((shape.width, shape.height));
            let started = grab_started(state, interrupted);
            &&& interrupted ==> started == Ok::<(GrabStepView, CopyView), ErrorView>(
                (GrabStepView::Over(GrabbedView::Interrupted), state),
            )
            &&& !interrupted && (live.stopped || !same_size) ==> (started matches Ok((
                GrabStepView::Over(GrabbedView::Ended(_)),
                after,
            )) && after == state)
            &&& !interrupted && !live.stopped && same_size && live.pending is Some ==> started
                == Ok::<(GrabStepView, CopyView), ErrorView>((GrabStepView::Wait, state))
            &&& !interrupted && !live.stopped && same_size && live.pending is None ==> (
            started matches Ok((GrabStepView::Request { slot, width, height }, after)))
        }),
{
}

/// What a grab comes to: nothing new while the time is over, a stop where one
/// was signalled, the end of the session where the copy failed because the
/// session stopped or the buffer no longer fits, an error for any other
/// failure, and a frame only where one is ready.
pub proof fn law_a_grab_ends_as_its_frame_did(state: CopyView, waited: Wait)
    requires
        state.live matches Some(live) && live.pending is Some,
    ensures
        ({
            let pending = state.live->0.pending->0;
            let (grabbed, after) = grab_ended(state, waited);
            &&& waited is Interrupted ==> grabbed == Ok::<GrabbedView, ErrorView>(
                GrabbedView::Interrupted,
            ) && after == state
            &&& waited is Timeout ==> grabbed == Ok::<GrabbedView, ErrorView>(GrabbedView::Idle)
                && after == state
            &&& waited is Done && (pending.failed == Some(1u32) || pending.failed == Some(2u32))
                ==> (grabbed matches Ok(GrabbedView::Ended(_)))
            &&& waited is Done && (pending.failed matches Some(code) && code != 1 && code != 2)
                ==> grabbed is Err
            &&& waited is Done && pending.failed is None ==> (grabbed matches Ok(
                GrabbedView::Frame(_),
            ) <==> pending.ready)
            &&& waited is Done ==> (after.live matches Some(live) && live.pending is None)
        }),
{
}

/// What the compositor says of a session is kept as it is said: the size last
/// told, the formats in the order they come, that all is described, and that
/// the session stopped, which drops the frame in flight.
pub proof fn law_a_session_is_described_by_its_events(
    live: LiveView,
    event: SessionEvent,
    little: bool,
)
    ensures
        ({
            let after = session_after(live, event, little);
            &&& event matches SessionEvent::BufferSize { width, height } ==> after.buffer_size
                == Some((width, height))
            &&& !(event is BufferSize) ==> after.buffer_size == live.buffer_size
            &&& event matches SessionEvent::DmabufFormat { format, modifiers } ==> after.formats
                == live.formats.push((format, words_in(modifiers@, little)))
            &&& !(event is DmabufFormat) ==> after.formats == live.formats
            &&& after.constraints_done == (live.constraints_done || event is Done)
            &&& after.stopped == (live.stopped || event is Stopped)
            &&& event is Stopped ==> after.pending is None
            &&& !(event is Stopped) ==> after.pending == live.pending
            &&& after.slots == live.slots
            &&& after.shape == live.shape
            &&& after.next == live.next
            &&& after.last_slot == live.last_slot
        }),
{
}

/// A frame in flight is ready, or failed with the compositor's own code, only
/// once it is told so; nothing else of the session changes.
pub proof fn law_a_frame_is_ready_when_it_is_told(live: LiveView, event: CopyEvent)
    ensures
        ({
            let after = copy_after(live, event);
            &&& live.pending is None ==> after == live
            &&& live.pending matches Some(before) ==> (after.pending matches Some(pending) && {
                &&& pending.slot == before.slot
                &&& pending.ready == (before.ready || event is Ready)
                &&& event matches CopyEvent::Failed(code) ==> pending.failed == Some(code)
                &&& !(event is Failed) ==> pending.failed == before.failed
            })
            &&& after.slots == live.slots
            &&& after.next == live.next
            &&& after.last_slot == live.last_slot
            &&& after.buffer_size == live.buffer_size
            &&& after.stopped == live.stopped
        }),
{
}

/// A pool is planned exactly for a session that goes on, was described in time,
/// has a size and offers a format that can be used; it is planned for that size
/// and that format.
pub proof fn law_a_pool_is_planned_for_the_session(
    state: CopyView,
    waited: Wait,
    plan: (u32, u32, u32, Seq<u64>),
)
    ensures
        planned_pool(state, waited) == Ok::<(u32, u32, u32, Seq<u64>), ErrorView>(plan) <==> {
            &&& state.live matches Some(live)
            &&& !live.stopped
            &&& waited is Done
            &&& live.buffer_size == Some((plan.0, plan.1))
            &&& picked_format(live.formats) == Some((plan.2, plan.3))
        },
{
}

/// A buffer the compositor took in becomes the last of the pool; the fourth
/// completes it, and the session then has the planned shape.  One it did not
/// take in changes nothing.
pub proof fn law_the_pool_is_complete_with_its_fourth_buffer(
    state: CopyView,
    plan: (u32, u32, u32, Seq<u64>),
    buffer: GbmBuffer,
    answered: bool,
)
    requires
        state.live is Some,
    ensures
        ({
            let live = state.live->0;
            &&& pooled(state, plan, buffer, answered) is Ok <==> answered && !live.params_failed
            &&& pooled(state, plan, buffer, answered) matches Ok((after, shape)) ==> {
                &&& after.slots == live.slots.push(buffer)
                &&& after.shape == shape
                &&& shape is Some <==> live.slots.len() == 3
                &&& shape matches Some(s) ==> s.width == plan.0 && s.height == plan.1 && s.fourcc
                    == plan.2
                &&& after.next == live.next
                &&& after.last_slot == live.last_slot
                &&& after.pending == live.pending
            }
        }),
{
}

/// An event of a window's handle changes that window, and of it only what the
/// event is about; a window is shown to choose from exactly while it is not
/// closed and is complete, or no window is complete yet.
pub proof fn law_a_window_is_known_by_its_own_events(
    listed: Seq<Listed>,
    handle: u32,
    event: HandleEvent,
    at: int,
)
    requires
        0 <= at < listed.len(),
    ensures
        handle_told(listed, handle, event).len() == listed.len(),
        ({
            let (before, after) = (listed[at], handle_told(listed, handle, event)[at]);
            let told = listed[at].handle == handle && forall|i: int|
                0 <= i < at ==> (#[trigger] listed[i]).handle != handle;
            &&& !told ==> after == before
            &&& after.handle == before.handle
            &&& told ==> {
                &&& event matches HandleEvent::AppId(text) ==> after.name.app_id == text
                &&& !(event is AppId) ==> after.name.app_id == before.name.app_id
                &&& event matches HandleEvent::Title(text) ==> after.name.title == text
                &&& !(event is Title) ==> after.name.title == before.name.title
                &&& event matches HandleEvent::Identifier(text) ==> after.name.identifier == text
                &&& !(event is Identifier) ==> after.name.identifier == before.name.identifier
                &&& after.done == (before.done || event is Done)
                &&& after.closed == (before.closed || event is Closed)
            }
        }),
        shown_flags(listed)[at] <==> !listed[at].closed && (listed[at].done || forall|j: int|
            0 <= j < listed.len() ==> !(#[trigger] listed[j]).done),
{
    lemma_listed_at(listed, handle, 0);
}

proof fn lemma_listed_at(listed: Seq<Listed>, handle: u32, from: int)
    requires
        0 <= from <= listed.len(),
    ensures
        from <= listed_at(listed, handle, from) <= listed.len(),
        listed_at(listed, handle, from) < listed.len() ==> listed[listed_at(
            listed,
            handle,
            from,
        )].handle == handle,
        forall|i: int|
            from <= i < listed_at(listed, handle, from) ==> (#[trigger] listed[i]).handle != handle,
    decreases listed.len() - from,
{
    if from < listed.len() && listed[from].handle != handle {
        lemma_listed_at(listed, handle, from + 1);
    }
}

/// A session can be opened exactly where none is running and the compositor has
/// the three things it takes; windows can be captured exactly where it can list
/// them too.  A new session knows nothing yet.
pub proof fn law_a_session_needs_what_it_uses(state: CopyView)
    ensures
        unopenable(state) is None <==> state.live is None && state.source_manager && state.manager
            && state.dmabuf,
        lacking(state) is None <==> state.list && state.source_manager && state.manager
            && state.dmabuf,
        opened().buffer_size is None,
        opened().formats.len() == 0,
        opened().slots.len() == 0,
        opened().pending is None,
        opened().last_slot is None,
        !opened().stopped && !opened().constraints_done && !opened().params_failed,
{
}

/// Each interface is bound once, at the version that is offered or the highest
/// that is spoken, whichever is lower.
pub proof fn law_an_interface_of_windows_is_bound_once(
    state: CopyView,
    interface: Seq<char>,
    version: u32,
)
    ensures
        ({
            let (known, bind) = bound(state, interface, version);
            let most: int = if interface == "zwp_linux_dmabuf_v1"@ {
                3
            } else {
                1
            };
            &&& bind is Some <==> {
                ||| interface == "ext_foreign_toplevel_list_v1"@ && !state.list
                ||| interface == "ext_foreign_toplevel_image_capture_source_manager_v1"@
                    && !state.source_manager
                ||| interface == "ext_image_copy_capture_manager_v1"@ && !state.manager
                ||| interface == "zwp_linux_dmabuf_v1"@ && !state.dmabuf
            }
            &&& bind matches Some(v) ==> v <= version && v <= most && (v == version || v == most)
            &&& known.list == (state.list || interface == "ext_foreign_toplevel_list_v1"@)
            &&& known.source_manager == (state.source_manager || interface
                == "ext_foreign_toplevel_image_capture_source_manager_v1"@)
            &&& known.manager == (state.manager || interface
                == "ext_image_copy_capture_manager_v1"@)
            &&& known.dmabuf == (state.dmabuf || interface == "zwp_linux_dmabuf_v1"@)
            &&& known.listed == state.listed
            &&& known.live == state.live
        }),
{
    reveal_strlit("ext_foreign_toplevel_list_v1");
    reveal_strlit("ext_foreign_toplevel_image_capture_source_manager_v1");
    reveal_strlit("ext_image_copy_capture_manager_v1");
    reveal_strlit("zwp_linux_dmabuf_v1");
    assert("ext_foreign_toplevel_list_v1"@.len() == 28);
    assert("ext_foreign_toplevel_image_capture_source_manager_v1"@.len() == 52);
    assert("ext_image_copy_capture_manager_v1"@.len() == 33);
    assert("zwp_linux_dmabuf_v1"@.len() == 19);
}

/// The size of a buffer goes to the protocol as it is, wherever it can be
/// counted with a sign.
pub proof fn law_a_size_goes_to_the_protocol_as_it_is(width: u32, height: u32)
    ensures
        match signed_size(width, height) {
            Ok((w, h)) => w == width && h == height,
            Err(_) => width > i32::MAX || height > i32::MAX,
        },
{
}

/// Before the compositor says anything no interface is there, no window is
/// listed and no session runs.
pub proof fn law_nothing_is_known_at_the_start()
    ensures
        !nothing_known().dmabuf,
        !nothing_known().list,
        !nothing_known().source_manager,
        !nothing_known().manager,
        nothing_known().listed.len() == 0,
        nothing_known().live is None,
{
}

/// A window that changed its size is told of with the size it had and the one
/// it has; where that is not known, with the one it had.
pub proof fn law_a_changed_size_is_told(shape: Shape, width: u32, height: u32)
    ensures
        resized(shape, Some((width, height))) == "the window changed size, from "@ + (decimal_text(
            shape.width as int,
        ) + "x"@ + decimal_text(shape.height as int)) + " to "@ + (decimal_text(width as int)
            + "x"@ + decimal_text(height as int)) + ", which one recording cannot follow"@,
        resized(shape, None) == resized(shape, Some((shape.width, shape.height))),
{
}

} // verus!
