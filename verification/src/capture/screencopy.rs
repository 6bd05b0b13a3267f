//! One `wlr-screencopy` capture, event by event.
//!
//! The compositor describes the buffer it wants, the buffer is handed over,
//! and it reports the copy done or failed.  What each event changes, and what
//! has to be sent in answer, is decided here; sending it is the caller's.

use vstd::prelude::*;

use crate::error::{settles, ErrorView, Result, VshotError};
use crate::geometry::Rect;
use crate::text::{concat3, decimal_text, format_u64, same_text};

use super::wlr::{region_arguments, region_request, ShmOffer};

verus! {

/// Buffers in the zero-copy pool: the compositor renders into one while the
/// encoder still reads the others.
pub const DMABUF_POOL_SLOTS: usize = 4;

/// How long a capture may take, in seconds.
pub const CAPTURE_TIMEOUT: u64 = 10;

/// An output the compositor announced, and its name once it is known.
#[derive(Clone, Debug, PartialEq, Eq)]
pub struct OutputEntry {
    pub global_id: u32,
    pub name: Option<String>,
}

/// The capture that is under way.
#[derive(Clone, Debug, PartialEq, Eq)]
pub struct PendingCapture {
    /// What the compositor asks a shared-memory buffer to be like.
    pub shm_offer: Option<ShmOffer>,
    /// Whether a buffer of the zero-copy pool is wanted.
    pub want_dmabuf: bool,
    /// The pool slot the compositor's offer matched.
    pub dmabuf_slot: Option<usize>,
    pub y_invert: bool,
    pub copy_sent: bool,
    /// Whether a shared-memory buffer was handed over.
    pub has_buffer: bool,
    pub complete: bool,
    pub error: Option<String>,
}

/// The zero-copy pool, and the shape its buffers were built for.
#[derive(Clone, Copy, Debug, PartialEq, Eq, Structural)]
pub struct DmabufPool {
    pub slots: usize,
    /// The slot the next capture renders into.
    pub next: usize,
    pub width: u32,
    pub height: u32,
    pub fourcc: u32,
}

/// What the connection knows.
#[derive(Clone, Debug, PartialEq, Eq)]
pub struct CaptureState {
    pub shm: bool,
    pub manager: bool,
    pub manager_version: u32,
    pub dmabuf: bool,
    pub dmabuf_version: u32,
    pub outputs: Vec<OutputEntry>,
    pub pending: Option<PendingCapture>,
    pub pool: Option<DmabufPool>,
    /// The last zero-copy offer the compositor made, wanted or not: fourcc,
    /// width and height.
    pub probe_offer: Option<(u32, u32, u32)>,
    /// Whether the last capture came bottom up.
    pub probe_y_invert: bool,
}

impl Default for CaptureState {
    /// A connection that was told nothing yet.
    fn default() -> (state: Self)
        ensures
            state@ == nothing_known(),
            state@.wf(),
    {
        let state = CaptureState {
            shm: false,
            manager: false,
            manager_version: 0,
            dmabuf: false,
            dmabuf_version: 0,
            outputs: Vec::new(),
            pending: None,
            pool: None,
            probe_offer: None,
            probe_y_invert: false,
        };
        assert(state@.outputs =~= Seq::empty());
        state
    }
}

/// What is known of a connection before it says anything.
pub open spec fn nothing_known() -> CaptureView {
    CaptureView {
        shm: false,
        manager: false,
        manager_version: 0,
        dmabuf: false,
        dmabuf_version: 0,
        outputs: Seq::empty(),
        pending: None,
        pool: None,
        probe_offer: None,
        probe_y_invert: false,
    }
}

/// What a [`PendingCapture`] says.
pub struct PendingView {
    pub shm_offer: Option<ShmOffer>,
    pub want_dmabuf: bool,
    pub dmabuf_slot: Option<usize>,
    pub y_invert: bool,
    pub copy_sent: bool,
    pub has_buffer: bool,
    pub complete: bool,
    pub error: Option<Seq<char>>,
}

/// What a [`CaptureState`] says.
pub struct CaptureView {
    pub shm: bool,
    pub manager: bool,
    pub manager_version: u32,
    pub dmabuf: bool,
    pub dmabuf_version: u32,
    pub outputs: Seq<OutputEntry>,
    pub pending: Option<PendingView>,
    pub pool: Option<DmabufPool>,
    pub probe_offer: Option<(u32, u32, u32)>,
    pub probe_y_invert: bool,
}

impl View for PendingCapture {
    type V = PendingView;

    open spec fn view(&self) -> PendingView {
        PendingView {
            shm_offer: self.shm_offer,
            want_dmabuf: self.want_dmabuf,
            dmabuf_slot: self.dmabuf_slot,
            y_invert: self.y_invert,
            copy_sent: self.copy_sent,
            has_buffer: self.has_buffer,
            complete: self.complete,
            error: match self.error {
                Some(text) => Some(text@),
                None => None,
            },
        }
    }
}

/// What an optional capture says.
pub open spec fn pending_view(pending: Option<PendingCapture>) -> Option<PendingView> {
    match pending {
        Some(pending) => Some(pending@),
        None => None,
    }
}

impl View for CaptureState {
    type V = CaptureView;

    open spec fn view(&self) -> CaptureView {
        CaptureView {
            shm: self.shm,
            manager: self.manager,
            manager_version: self.manager_version,
            dmabuf: self.dmabuf,
            dmabuf_version: self.dmabuf_version,
            outputs: self.outputs@,
            pending: pending_view(self.pending),
            pool: self.pool,
            probe_offer: self.probe_offer,
            probe_y_invert: self.probe_y_invert,
        }
    }
}

impl CaptureView {
    /// What holds between events: outputs differ, the pool is not empty and points into
    /// itself, a slot that was picked is one of the pool's, a copy was sent
    /// only for a buffer that was offered, and a failure ends the capture.
    pub open spec fn wf(self) -> bool {
        &&& distinct_outputs(self.outputs)
        &&& self.pool matches Some(pool) ==> pool.next < pool.slots
        &&& self.pending matches Some(pending) ==> {
            &&& pending.dmabuf_slot matches Some(slot) ==> (self.pool matches Some(pool) && slot
                < pool.slots)
            &&& pending.copy_sent || pending.has_buffer ==> pending.shm_offer is Some
                || pending.dmabuf_slot is Some
            &&& pending.error is Some ==> pending.complete
        }
    }
}

/// A capture that was just asked for.
pub open spec fn asked_for(want_dmabuf: bool) -> PendingView {
    PendingView {
        shm_offer: None,
        want_dmabuf,
        dmabuf_slot: None,
        y_invert: false,
        copy_sent: false,
        has_buffer: false,
        complete: false,
        error: None,
    }
}

/// A capture that failed.
pub open spec fn failed(pending: PendingView, said: Seq<char>) -> PendingView {
    PendingView { error: Some(said), complete: true, ..pending }
}

/// An event of the frame that is being captured.
#[derive(Clone, Debug, PartialEq, Eq)]
pub enum FrameEvent {
    /// The shared-memory buffer the compositor wants.
    Buffer(ShmOffer),
    /// The same in a format this build has no name for.
    UnknownBuffer(u32),
    /// The zero-copy buffer it would take.
    LinuxDmabuf { format: u32, width: u32, height: u32 },
    /// Every buffer has been described.
    BufferDone,
    /// Whether the rows come bottom up.
    Flags { y_invert: bool },
    /// The copy is done.
    Ready,
    /// The copy failed.
    Failed,
    /// Something that changes nothing.
    Other,
}

/// What has to be sent in answer to an event.
#[derive(Clone, Copy, Debug, PartialEq, Eq, Structural)]
pub enum FrameAction {
    Nothing,
    /// Make the shared-memory buffer of the offer and have it copied into.
    CopyShm,
    /// Have this slot of the pool copied into.
    CopySlot(usize),
    /// The frame is done with.
    DestroyFrame,
}

/// What an event changes, and what it is answered with.
pub open spec fn after(state: CaptureView, event: FrameEvent) -> (CaptureView, FrameAction) {
    match event {
        FrameEvent::UnknownBuffer(value) => (
            match state.pending {
                Some(pending) => CaptureView {
                    pending: Some(
                        failed(
                            pending,
                            "unknown screencopy wl_shm format "@ + decimal_text(value as int),
                        ),
                    ),
                    ..state
                },
                None => state,
            },
            FrameAction::Nothing,
        ),
        FrameEvent::Buffer(offer) => match state.pending {
            None => (state, FrameAction::Nothing),
            Some(pending) => if pending.shm_offer is Some {
                (
                    CaptureView {
                        pending: Some(
                            failed(pending, "screencopy sent more than one SHM buffer"@),
                        ),
                        ..state
                    },
                    FrameAction::Nothing,
                )
            } else {
                let offered = PendingView { shm_offer: Some(offer), ..pending };
                // Before version 3 nothing says that every buffer has been
                // described, so the copy goes out with the offer.
                if state.manager_version < 3 && !pending.want_dmabuf {
                    if state.shm {
                        (
                            CaptureView { pending: Some(offered), ..state },
                            FrameAction::CopyShm,
                        )
                    } else {
                        (
                            CaptureView {
                                pending: Some(
                                    failed(offered, "wl_shm disappeared during capture"@),
                                ),
                                ..state
                            },
                            FrameAction::Nothing,
                        )
                    }
                } else {
                    (CaptureView { pending: Some(offered), ..state }, FrameAction::Nothing)
                }
            },
        },
        FrameEvent::LinuxDmabuf { format, width, height } => {
            let probed = CaptureView { probe_offer: Some((format, width, height)), ..state };
            match (state.pending, state.pool) {
                (Some(pending), Some(pool)) => if pending.want_dmabuf && pool.fourcc == format
                    && pool.width == width && pool.height == height {
                    (
                        CaptureView {
                            pending: Some(PendingView { dmabuf_slot: Some(pool.next), ..pending }),
                            ..probed
                        },
                        FrameAction::Nothing,
                    )
                } else {
                    (probed, FrameAction::Nothing)
                },
                _ => (probed, FrameAction::Nothing),
            }
        },
        FrameEvent::BufferDone => match state.pending {
            None => (state, FrameAction::Nothing),
            Some(pending) => match (pending.dmabuf_slot, state.pool) {
                (Some(slot), Some(pool)) => (
                    CaptureView {
                        pending: Some(PendingView { copy_sent: true, ..pending }),
                        pool: Some(
                            DmabufPool {
                                next: ((slot + 1) % (pool.slots as int)) as usize,
                                ..pool
                            },
                        ),
                        ..state
                    },
                    FrameAction::CopySlot(slot),
                ),
                _ => if pending.copy_sent {
                    (state, FrameAction::Nothing)
                } else if pending.shm_offer is None {
                    (
                        CaptureView {
                            pending: Some(
                                failed(
                                    pending,
                                    "screencopy sent buffer_done without a usable buffer"@,
                                ),
                            ),
                            ..state
                        },
                        FrameAction::Nothing,
                    )
                } else if !state.shm {
                    (
                        CaptureView {
                            pending: Some(failed(pending, "wl_shm disappeared during capture"@)),
                            ..state
                        },
                        FrameAction::Nothing,
                    )
                } else {
                    (state, FrameAction::CopyShm)
                },
            },
        },
        FrameEvent::Flags { y_invert } => (
            CaptureView {
                probe_y_invert: y_invert,
                pending: match state.pending {
                    Some(pending) => Some(PendingView { y_invert, ..pending }),
                    None => None,
                },
                ..state
            },
            FrameAction::Nothing,
        ),
        FrameEvent::Ready => match state.pending {
            Some(pending) => (
                CaptureView { pending: Some(PendingView { complete: true, ..pending }), ..state },
                FrameAction::DestroyFrame,
            ),
            None => (state, FrameAction::Nothing),
        },
        FrameEvent::Failed => (
            match state.pending {
                Some(pending) => CaptureView {
                    pending: Some(
                        failed(pending, "compositor failed to copy the requested output"@),
                    ),
                    ..state
                },
                None => state,
            },
            FrameAction::DestroyFrame,
        ),
        FrameEvent::Other => (state, FrameAction::Nothing),
    }
}

impl PendingCapture {
    fn fail(&mut self, message: String)
        ensures
            final(self)@ == failed(old(self)@, message@),
    {
        self.error = Some(message);
        self.complete = true;
    }
}

impl CaptureState {
    fn fail_pending(&mut self, message: String)
        ensures
            final(self)@ == (CaptureView {
                pending: match old(self)@.pending {
                    Some(pending) => Some(failed(pending, message@)),
                    None => None,
                },
                ..old(self)@
            }),
    {
        if let Some(mut pending) = self.pending.take() {
            pending.fail(message);
            self.pending = Some(pending);
        }
    }

    fn buffer_offered(&mut self, offer: ShmOffer) -> (action: FrameAction)
        requires
            old(self)@.wf(),
        ensures
            (final(self)@, action) == after(old(self)@, FrameEvent::Buffer(offer)),
    {
        let mut pending = match self.pending.take() {
            Some(pending) => pending,
            None => {
                return FrameAction::Nothing;
            },
        };
        if pending.shm_offer.is_some() {
            pending.fail("screencopy sent more than one SHM buffer".to_owned());
            self.pending = Some(pending);
            return FrameAction::Nothing;
        }
        pending.shm_offer = Some(offer);
        if self.manager_version < 3 && !pending.want_dmabuf {
            if self.shm {
                self.pending = Some(pending);
                return FrameAction::CopyShm;
            }
            pending.fail("wl_shm disappeared during capture".to_owned());
        }
        self.pending = Some(pending);
        FrameAction::Nothing
    }

    fn dmabuf_offered(&mut self, format: u32, width: u32, height: u32)
        ensures
            (final(self)@, FrameAction::Nothing) == after(
                old(self)@,
                FrameEvent::LinuxDmabuf { format, width, height },
            ),
    {
        self.probe_offer = Some((format, width, height));
        if let Some(mut pending) = self.pending.take() {
            if pending.want_dmabuf {
                if let Some(pool) = self.pool {
                    if pool.fourcc == format && pool.width == width && pool.height == height {
                        pending.dmabuf_slot = Some(pool.next);
                    }
                }
            }
            self.pending = Some(pending);
        }
    }

    fn buffers_described(&mut self) -> (action: FrameAction)
        requires
            old(self)@.wf(),
        ensures
            (final(self)@, action) == after(old(self)@, FrameEvent::BufferDone),
    {
        let mut pending = match self.pending.take() {
            Some(pending) => pending,
            None => {
                return FrameAction::Nothing;
            },
        };
        if let Some(slot) = pending.dmabuf_slot {
            if let Some(mut pool) = self.pool {
                pending.copy_sent = true;
                pool.next = (slot + 1) % pool.slots;
                self.pool = Some(pool);
                self.pending = Some(pending);
                return FrameAction::CopySlot(slot);
            }
        }
        if pending.copy_sent {
            self.pending = Some(pending);
            return FrameAction::Nothing;
        }
        if pending.shm_offer.is_none() {
            pending.fail("screencopy sent buffer_done without a usable buffer".to_owned());
            self.pending = Some(pending);
            return FrameAction::Nothing;
        }
        if !self.shm {
            pending.fail("wl_shm disappeared during capture".to_owned());
            self.pending = Some(pending);
            return FrameAction::Nothing;
        }
        self.pending = Some(pending);
        FrameAction::CopyShm
    }

    /// Takes in one event of the frame and says what it is answered with.
    #[verifier::rlimit(60)]
    pub fn event(&mut self, event: FrameEvent) -> (action: FrameAction)
        requires
            old(self)@.wf(),
        ensures
            (final(self)@, action) == after(old(self)@, event),
            final(self)@.wf(),
    {
        match event {
            FrameEvent::UnknownBuffer(value) => {
                let number = format_u64(value as u64);
                let mut text = "unknown screencopy wl_shm format ".to_owned();
                text.append(number.as_str());
                self.fail_pending(text);
                FrameAction::Nothing
            },
            FrameEvent::Buffer(offer) => self.buffer_offered(offer),
            FrameEvent::LinuxDmabuf { format, width, height } => {
                self.dmabuf_offered(format, width, height);
                FrameAction::Nothing
            },
            FrameEvent::BufferDone => self.buffers_described(),
            FrameEvent::Flags { y_invert } => {
                self.probe_y_invert = y_invert;
                if let Some(mut pending) = self.pending.take() {
                    pending.y_invert = y_invert;
                    self.pending = Some(pending);
                }
                FrameAction::Nothing
            },
            FrameEvent::Ready => {
                if let Some(mut pending) = self.pending.take() {
                    pending.complete = true;
                    self.pending = Some(pending);
                    return FrameAction::DestroyFrame;
                }
                FrameAction::Nothing
            },
            FrameEvent::Failed => {
                self.fail_pending("compositor failed to copy the requested output".to_owned());
                FrameAction::DestroyFrame
            },
            FrameEvent::Other => FrameAction::Nothing,
        }
    }

    /// Takes in what became of the shared-memory buffer that was to be made:
    /// it was handed over, or why it could not be.
    pub fn shm_buffer_made(&mut self, outcome: core::result::Result<(), String>)
        requires
            old(self)@.wf(),
            old(self)@.pending matches Some(pending) ==> pending.shm_offer is Some,
        ensures
            final(self)@ == (CaptureView {
                pending: match old(self)@.pending {
                    Some(pending) => Some(
                        match outcome {
                            Ok(_) => PendingView { copy_sent: true, has_buffer: true, ..pending },
                            Err(why) => failed(pending, why@),
                        },
                    ),
                    None => None,
                },
                ..old(self)@
            }),
            final(self)@.wf(),
    {
        if let Some(mut pending) = self.pending.take() {
            match outcome {
                Ok(_) => {
                    pending.copy_sent = true;
                    pending.has_buffer = true;
                },
                Err(why) => {
                    pending.fail(why);
                },
            }
            self.pending = Some(pending);
        }
    }
}

// ---------------------------------------------------------------------------
// What the compositor announces
// ---------------------------------------------------------------------------
/// Whether no two outputs share an id.
pub open spec fn distinct_outputs(outputs: Seq<OutputEntry>) -> bool {
    forall|i: int, j: int|
        0 <= i < j < outputs.len() ==> (#[trigger] outputs[i]).global_id != (
        #[trigger] outputs[j]).global_id
}

/// Whether an output with this id is known.
pub open spec fn knows_output(outputs: Seq<OutputEntry>, global_id: u32) -> bool {
    exists|i: int| 0 <= i < outputs.len() && (#[trigger] outputs[i]).global_id == global_id
}

/// The outputs after one was announced; one that is known stays as it is.
pub open spec fn announced(outputs: Seq<OutputEntry>, global_id: u32) -> Seq<OutputEntry> {
    if knows_output(outputs, global_id) {
        outputs
    } else {
        outputs.push(OutputEntry { global_id, name: None })
    }
}

/// The outputs after one told its name.
pub open spec fn named(outputs: Seq<OutputEntry>, global_id: u32, name: String) -> Seq<OutputEntry> {
    Seq::new(
        outputs.len(),
        |i: int|
            if outputs[i].global_id == global_id {
                OutputEntry { global_id, name: Some(name) }
            } else {
                outputs[i]
            },
    )
}

/// Whether an output goes by this name.
pub open spec fn is_called(output: OutputEntry, name: Seq<char>) -> bool {
    output.name matches Some(own) && own@ == name
}

/// The id of the first output from `from` on that goes by this name.
pub open spec fn output_called(outputs: Seq<OutputEntry>, name: Seq<char>, from: int) -> Option<u32>
    decreases outputs.len() - from,
{
    if from < 0 || from >= outputs.len() {
        None
    } else if is_called(outputs[from], name) {
        Some(outputs[from].global_id)
    } else {
        output_called(outputs, name, from + 1)
    }
}

pub open spec fn at_most(version: u32, most: u32) -> u32 {
    if version < most {
        version
    } else {
        most
    }
}

/// What an announced interface changes, and the version it is bound with when
/// it is wanted.
pub open spec fn bound(state: CaptureView, interface: Seq<char>, name: u32, version: u32) -> (
    CaptureView,
    Option<u32>,
) {
    if interface == "wl_shm"@ && !state.shm {
        (CaptureView { shm: true, ..state }, Some(at_most(version, 1)))
    } else if interface == "zwlr_screencopy_manager_v1"@ && !state.manager {
        (
            CaptureView { manager: true, manager_version: at_most(version, 3), ..state },
            Some(at_most(version, 3)),
        )
    } else if interface == "zwp_linux_dmabuf_v1"@ && !state.dmabuf {
        (
            CaptureView { dmabuf: true, dmabuf_version: at_most(version, 3), ..state },
            Some(at_most(version, 3)),
        )
    } else if interface == "wl_output"@ {
        (
            CaptureView { outputs: announced(state.outputs, name), ..state },
            Some(at_most(version, 4)),
        )
    } else {
        (state, None)
    }
}

fn smaller(version: u32, most: u32) -> (bound: u32)
    ensures
        bound == at_most(version, most),
{
    if version < most {
        version
    } else {
        most
    }
}

impl CaptureState {
    /// Takes in an announced interface, and says which version of it to bind.
    pub fn announce(&mut self, interface: &str, name: u32, version: u32) -> (bind: Option<u32>)
        requires
            old(self)@.wf(),
        ensures
            (final(self)@, bind) == bound(old(self)@, interface@, name, version),
            final(self)@.wf(),
    {
        if same_text(interface, "wl_shm") && !self.shm {
            self.shm = true;
            return Some(smaller(version, 1));
        }
        if same_text(interface, "zwlr_screencopy_manager_v1") && !self.manager {
            self.manager = true;
            self.manager_version = smaller(version, 3);
            return Some(self.manager_version);
        }
        if same_text(interface, "zwp_linux_dmabuf_v1") && !self.dmabuf {
            self.dmabuf = true;
            self.dmabuf_version = smaller(version, 3);
            return Some(self.dmabuf_version);
        }
        if same_text(interface, "wl_output") {
            self.output_announced(name);
            return Some(smaller(version, 4));
        }
        None
    }

    fn output_announced(&mut self, global_id: u32)
        ensures
            final(self)@ == (CaptureView {
                outputs: announced(old(self)@.outputs, global_id),
                ..old(self)@
            }),
    {
        let mut i: usize = 0;
        while i < self.outputs.len()
            invariant
                *self == *old(self),
                i <= self.outputs@.len(),
                forall|j: int|
                    0 <= j < i ==> (#[trigger] self.outputs@[j]).global_id != global_id,
            decreases self.outputs.len() - i,
        {
            if self.outputs[i].global_id == global_id {
                assert(knows_output(self.outputs@, global_id));
                return ;
            }
            i = i + 1;
        }
        assert(!knows_output(self.outputs@, global_id));
        self.outputs.push(OutputEntry { global_id, name: None });
    }

    /// Takes in the name of an output.
    pub fn output_named(&mut self, global_id: u32, name: String)
        requires
            old(self)@.wf(),
        ensures
            final(self)@ == (CaptureView {
                outputs: named(old(self)@.outputs, global_id, name),
                ..old(self)@
            }),
            final(self)@.wf(),
    {
        let mut i: usize = 0;
        while i < self.outputs.len()
            invariant
                *self == *old(self),
                old(self)@.wf(),
                i <= self.outputs@.len(),
                forall|j: int|
                    0 <= j < i ==> (#[trigger] self.outputs@[j]).global_id != global_id,
            decreases self.outputs.len() - i,
        {
            if self.outputs[i].global_id == global_id {
                let ghost before = self.outputs@;
                self.outputs.set(i, OutputEntry { global_id, name: Some(name) });
                proof {
                    assert forall|j: int| 0 <= j < before.len() implies self.outputs@[j] == named(
                        before,
                        global_id,
                        name,
                    )[j] by {
                        if j > i {
                            assert(before[i as int].global_id != before[j].global_id);
                        }
                    }
                    assert(self.outputs@ =~= named(before, global_id, name));
                    assert forall|a: int, b: int| 0 <= a < b < self.outputs@.len() implies (
                    #[trigger] self.outputs@[a]).global_id != (
                    #[trigger] self.outputs@[b]).global_id by {
                        assert(before[a].global_id != before[b].global_id);
                    }
                }
                return ;
            }
            i = i + 1;
        }
        assert(self.outputs@ =~= named(self.outputs@, global_id, name));
    }

    /// The id of the output with this name.
    pub fn find_output(&self, name: &str) -> (id: Option<u32>)
        ensures
            id == output_called(self@.outputs, name@, 0),
    {
        let mut i: usize = 0;
        while i < self.outputs.len()
            invariant
                i <= self.outputs@.len(),
                output_called(self.outputs@, name@, 0) == output_called(
                    self.outputs@,
                    name@,
                    i as int,
                ),
            decreases self.outputs.len() - i,
        {
            let output = &self.outputs[i];
            if let Some(own) = &output.name {
                if same_text(own.as_str(), name) {
                    return Some(output.global_id);
                }
            }
            i = i + 1;
        }
        None
    }

    /// What the session lacks for any capture, if it lacks something.
    pub open spec fn lacking(state: CaptureView) -> Option<Seq<char>> {
        if !state.shm {
            Some("wl_shm"@)
        } else if !state.manager {
            Some("zwlr_screencopy_manager_v1"@)
        } else if state.outputs.len() == 0 {
            Some("at least one wl_output"@)
        } else {
            None
        }
    }

    /// Whether the session can be captured from.
    pub fn ready(&self) -> (ready: Result<()>)
        ensures
            settles(
                ready,
                match Self::lacking(self@) {
                    Some(what) => Err(ErrorView::MissingCapability(what)),
                    None => Ok(()),
                },
            ),
    {
        if !self.shm {
            return Err(VshotError::MissingCapability("wl_shm".to_owned()));
        }
        if !self.manager {
            return Err(VshotError::MissingCapability("zwlr_screencopy_manager_v1".to_owned()));
        }
        if self.outputs.len() == 0 {
            return Err(VshotError::MissingCapability("at least one wl_output".to_owned()));
        }
        Ok(())
    }
}

// ---------------------------------------------------------------------------
// One capture from its request to its result
// ---------------------------------------------------------------------------
/// What a capture is asked for with: the output, and the rectangle of it.
pub type CaptureRequest = (u32, Option<(i32, i32, i32, i32)>);

pub const IN_PROGRESS: &'static str = "a capture is already in progress";

/// The output a capture is aimed at, when the session can be captured from.
pub open spec fn aimed(state: CaptureView, name: Seq<char>) -> core::result::Result<u32, ErrorView> {
    match output_called(state.outputs, name, 0) {
        None => Err(ErrorView::IncompleteTopology("unknown output `"@ + name + "`"@)),
        Some(global_id) => if state.manager {
            Ok(global_id)
        } else {
            Err(ErrorView::MissingCapability("zwlr_screencopy_manager_v1"@))
        },
    }
}

/// What asking for a capture comes to.
pub open spec fn requested(state: CaptureView, name: Seq<char>, region: Option<Rect>) -> core::result::Result<
    CaptureRequest,
    ErrorView,
> {
    if state.pending is Some {
        Err(ErrorView::WaylandProtocol(IN_PROGRESS@))
    } else {
        match aimed(state, name) {
            Err(why) => Err(why),
            Ok(global_id) => match region {
                None => Ok((global_id, None)),
                Some(region) => match region_request(region) {
                    Ok(arguments) => Ok((global_id, Some(arguments))),
                    Err(why) => Err(why),
                },
            },
        }
    }
}

/// What asking for a zero-copy capture comes to, where `gbm` says why no
/// buffer can be allocated for one.
pub open spec fn requested_dmabuf(
    state: CaptureView,
    name: Seq<char>,
    gbm: Option<Seq<char>>,
) -> core::result::Result<u32, ErrorView> {
    if state.pending is Some {
        Err(ErrorView::WaylandProtocol(IN_PROGRESS@))
    } else {
        match gbm {
            Some(why) => Err(
                ErrorView::MissingCapability("zero-copy capture needs libgbm: "@ + why),
            ),
            None => if state.manager_version < 3 {
                Err(ErrorView::MissingCapability(NEEDS_VERSION_3@))
            } else {
                aimed(state, name)
            },
        }
    }
}

pub const NEEDS_VERSION_3: &'static str = "screencopy version 3 (linux-dmabuf buffers)";

pub const ZERO_COPY_CANNOT_FLIP: &'static str =
    "the compositor renders this output y-inverted, which the zero-copy path cannot capture; the software path handles it";

/// What a finished capture comes to: whether its rows come bottom up.
pub open spec fn finished(state: CaptureView) -> core::result::Result<bool, ErrorView> {
    match state.pending {
        None => Err(ErrorView::WaylandProtocol("capture disappeared before completion"@)),
        Some(pending) => match pending.error {
            Some(said) => Err(ErrorView::WaylandProtocol(said)),
            None => if pending.has_buffer {
                Ok(pending.y_invert)
            } else {
                Err(ErrorView::WaylandProtocol("screencopy completed without a buffer"@))
            },
        },
    }
}

/// What a finished zero-copy capture comes to: the slot it was rendered into.
pub open spec fn finished_dmabuf(state: CaptureView) -> core::result::Result<usize, ErrorView> {
    match state.pending {
        None => Err(ErrorView::WaylandProtocol("capture disappeared before completion"@)),
        Some(pending) => match pending.error {
            Some(said) => Err(ErrorView::WaylandProtocol(said)),
            None => if pending.y_invert {
                Err(ErrorView::UnsupportedOutput(ZERO_COPY_CANNOT_FLIP@))
            } else {
                match pending.dmabuf_slot {
                    None => Err(
                        ErrorView::UnsupportedOutput(
                            "the compositor offered no linux-dmabuf buffer for this capture"@,
                        ),
                    ),
                    Some(slot) => Ok(slot),
                }
            },
        },
    }
}

fn missing(what: &str) -> (error: VshotError)
    ensures
        error@ == ErrorView::MissingCapability(what@),
{
    VshotError::MissingCapability(what.to_owned())
}

fn protocol(text: &str) -> (error: VshotError)
    ensures
        error@ == ErrorView::WaylandProtocol(text@),
{
    VshotError::WaylandProtocol(text.to_owned())
}

impl PendingCapture {
    fn new(want_dmabuf: bool) -> (pending: Self)
        ensures
            pending@ == asked_for(want_dmabuf),
    {
        PendingCapture {
            shm_offer: None,
            want_dmabuf,
            dmabuf_slot: None,
            y_invert: false,
            copy_sent: false,
            has_buffer: false,
            complete: false,
            error: None,
        }
    }
}

impl CaptureState {
    fn aim(&self, name: &str) -> (global_id: Result<u32>)
        ensures
            settles(global_id, aimed(self@, name@)),
    {
        match self.find_output(name) {
            None => Err(VshotError::IncompleteTopology(concat3("unknown output `", name, "`"))),
            Some(global_id) => if self.manager {
                Ok(global_id)
            } else {
                Err(missing("zwlr_screencopy_manager_v1"))
            },
        }
    }

    /// Starts a capture of an output or of a rectangle of it.
    pub fn begin(&mut self, name: &str, region: Option<Rect>) -> (request: Result<CaptureRequest>)
        requires
            old(self)@.wf(),
        ensures
            settles(request, requested(old(self)@, name@, region)),
            final(self)@ == if request is Ok {
                CaptureView { pending: Some(asked_for(false)), ..old(self)@ }
            } else {
                old(self)@
            },
            final(self)@.wf(),
    {
        if self.pending.is_some() {
            return Err(protocol(IN_PROGRESS));
        }
        let global_id: u32 = match self.aim(name) {
            Ok(global_id) => global_id,
            Err(error) => {
                return Err(error);
            },
        };
        let arguments = match region {
            None => None,
            Some(region) => match region_arguments(region) {
                Ok(arguments) => Some(arguments),
                Err(error) => {
                    return Err(error);
                },
            },
        };
        self.pending = Some(PendingCapture::new(false));
        Ok((global_id, arguments))
    }

    /// Starts a capture straight into a buffer of the pool.  `gbm` says why no
    /// such buffer can be allocated, when none can.
    pub fn begin_dmabuf(&mut self, name: &str, gbm: Option<String>) -> (global_id: Result<u32>)
        requires
            old(self)@.wf(),
        ensures
            settles(
                global_id,
                requested_dmabuf(
                    old(self)@,
                    name@,
                    match gbm {
                        Some(why) => Some(why@),
                        None => None,
                    },
                ),
            ),
            final(self)@ == if global_id is Ok {
                CaptureView { pending: Some(asked_for(true)), ..old(self)@ }
            } else {
                old(self)@
            },
            final(self)@.wf(),
    {
        if self.pending.is_some() {
            return Err(protocol(IN_PROGRESS));
        }
        if let Some(why) = gbm {
            let mut text = "zero-copy capture needs libgbm: ".to_owned();
            text.append(why.as_str());
            return Err(VshotError::MissingCapability(text));
        }
        if self.manager_version < 3 {
            return Err(missing(NEEDS_VERSION_3));
        }
        match self.aim(name) {
            Ok(global_id) => {
                self.pending = Some(PendingCapture::new(true));
                Ok(global_id)
            },
            Err(error) => Err(error),
        }
    }

    /// Whether the capture is complete; one that takes too long is given up.
    pub fn check(&mut self, out_of_time: bool) -> (complete: Result<bool>)
        requires
            old(self)@.wf(),
        ensures
            ({
                let done = old(self)@.pending matches Some(pending) && pending.complete;
                let given_up = !done && out_of_time;
                &&& settles(
                    complete,
                    if given_up {
                        Err(ErrorView::CaptureTimeout)
                    } else {
                        Ok(done)
                    },
                )
                &&& final(self)@ == if given_up {
                    CaptureView { pending: None, ..old(self)@ }
                } else {
                    old(self)@
                }
            }),
            final(self)@.wf(),
    {
        let done = match &self.pending {
            Some(pending) => pending.complete,
            None => false,
        };
        if done {
            return Ok(true);
        }
        if out_of_time {
            self.pending = None;
            return Err(VshotError::CaptureTimeout);
        }
        Ok(false)
    }

    /// Ends a capture and says whether its rows come bottom up.
    pub fn finish(&mut self) -> (y_invert: Result<bool>)
        requires
            old(self)@.wf(),
        ensures
            settles(y_invert, finished(old(self)@)),
            final(self)@ == (CaptureView { pending: None, ..old(self)@ }),
            final(self)@.wf(),
    {
        match self.pending.take() {
            None => Err(protocol("capture disappeared before completion")),
            Some(pending) => match pending.error {
                Some(error) => Err(VshotError::WaylandProtocol(error)),
                None => if pending.has_buffer {
                    Ok(pending.y_invert)
                } else {
                    Err(protocol("screencopy completed without a buffer"))
                },
            },
        }
    }

    /// Ends a zero-copy capture and says which slot of the pool it is in.
    pub fn finish_dmabuf(&mut self) -> (slot: Result<usize>)
        requires
            old(self)@.wf(),
        ensures
            settles(slot, finished_dmabuf(old(self)@)),
            slot matches Ok(slot) ==> (final(self)@.pool matches Some(pool) && slot < pool.slots),
            final(self)@ == (CaptureView { pending: None, ..old(self)@ }),
            final(self)@.wf(),
    {
        match self.pending.take() {
            None => Err(protocol("capture disappeared before completion")),
            Some(pending) => match pending.error {
                Some(error) => Err(VshotError::WaylandProtocol(error)),
                None => if pending.y_invert {
                    Err(VshotError::UnsupportedOutput(ZERO_COPY_CANNOT_FLIP.to_owned()))
                } else {
                    match pending.dmabuf_slot {
                        Some(slot) => Ok(slot),
                        None => Err(
                            VshotError::UnsupportedOutput(
                                "the compositor offered no linux-dmabuf buffer for this capture".to_owned(),
                            ),
                        ),
                    }
                },
            },
        }
    }

    /// Whether the pool still has to be built.
    pub fn needs_pool(&self) -> (needed: Result<bool>)
        ensures
            settles(
                needed,
                if self@.pool is Some {
                    Ok(false)
                } else if self@.dmabuf {
                    Ok(true)
                } else {
                    Err(ErrorView::MissingCapability("zwp_linux_dmabuf_v1"@))
                },
            ),
    {
        if self.pool.is_some() {
            return Ok(false);
        }
        if !self.dmabuf {
            return Err(missing("zwp_linux_dmabuf_v1"));
        }
        Ok(true)
    }

    /// Takes in the pool that was built.
    pub fn pool_built(&mut self, width: u32, height: u32, fourcc: u32)
        requires
            old(self)@.wf(),
            old(self)@.pool is None,
        ensures
            final(self)@ == (CaptureView {
                pool: Some(
                    DmabufPool { slots: DMABUF_POOL_SLOTS, next: 0, width, height, fourcc },
                ),
                ..old(self)@
            }),
            final(self)@.wf(),
    {
        self.pool = Some(
            DmabufPool { slots: DMABUF_POOL_SLOTS, next: 0, width, height, fourcc },
        );
    }

    /// Gets ready to sample the zero-copy offer of an output, which every
    /// capture carries.
    pub fn begin_probe(&mut self) -> (ready: Result<()>)
        requires
            old(self)@.wf(),
        ensures
            settles(
                ready,
                if old(self)@.manager_version < 3 {
                    Err(ErrorView::MissingCapability(NEEDS_VERSION_3@))
                } else if !old(self)@.dmabuf {
                    Err(ErrorView::MissingCapability("zwp_linux_dmabuf_v1"@))
                } else {
                    Ok(())
                },
            ),
            final(self)@ == if ready is Ok {
                CaptureView { probe_offer: None, ..old(self)@ }
            } else {
                old(self)@
            },
            final(self)@.wf(),
    {
        if self.manager_version < 3 {
            return Err(missing(NEEDS_VERSION_3));
        }
        if !self.dmabuf {
            return Err(missing("zwp_linux_dmabuf_v1"));
        }
        self.probe_offer = None;
        Ok(())
    }

    /// The offer the last capture carried: fourcc, width, height, and whether
    /// its rows came bottom up.
    pub fn probed(&mut self) -> (offer: Result<(u32, u32, u32, bool)>)
        requires
            old(self)@.wf(),
        ensures
            settles(
                offer,
                match old(self)@.probe_offer {
                    Some((fourcc, width, height)) => Ok(
                        (fourcc, width, height, old(self)@.probe_y_invert),
                    ),
                    None => Err(
                        ErrorView::UnsupportedOutput(
                            "the compositor offered no linux-dmabuf buffer for this output"@,
                        ),
                    ),
                },
            ),
            final(self)@ == (CaptureView { probe_offer: None, ..old(self)@ }),
            final(self)@.wf(),
    {
        match self.probe_offer.take() {
            Some((fourcc, width, height)) => Ok((fourcc, width, height, self.probe_y_invert)),
            None => Err(
                VshotError::UnsupportedOutput(
                    "the compositor offered no linux-dmabuf buffer for this output".to_owned(),
                ),
            ),
        }
    }
}

// ---------------------------------------------------------------------------
// Laws
// ---------------------------------------------------------------------------
/// Whether an action has a buffer copied into.
pub open spec fn is_copy(action: FrameAction) -> bool {
    action is CopyShm || action is CopySlot
}

/// A shared-memory buffer that was handed over is the only one: no later event
/// asks for another copy.
pub proof fn law_a_shared_memory_capture_is_copied_once(state: CaptureView, event: FrameEvent)
    requires
        state.wf(),
        state.pending matches Some(pending) && pending.copy_sent && !pending.want_dmabuf
            && pending.dmabuf_slot is None,
    ensures
        !is_copy(after(state, event).1),
        after(state, event).0.pending matches Some(pending) && pending.copy_sent
            && !pending.want_dmabuf && pending.dmabuf_slot is None,
{
}

/// A capture that does not want the pool never gets a slot of it, and one that
/// does gets it only for an offer of exactly the pool's shape.
pub proof fn law_the_pool_is_used_only_where_it_fits(state: CaptureView, event: FrameEvent)
    requires
        state.wf(),
        state.pending matches Some(pending) && pending.dmabuf_slot is None,
    ensures
        after(state, event).0.pending matches Some(after_event) && (after_event.dmabuf_slot matches Some(
            slot,
        ) ==> {
            &&& state.pending->Some_0.want_dmabuf
            &&& state.pool matches Some(pool)
            &&& event matches FrameEvent::LinuxDmabuf { format, width, height }
            &&& pool.fourcc == format && pool.width == width && pool.height == height
            &&& slot == pool.next
        }),
{
}

/// The pool rotates: after a copy into a slot the next capture gets another
/// one, as long as there is another.
pub proof fn law_the_pool_rotates(state: CaptureView)
    requires
        state.wf(),
        after(state, FrameEvent::BufferDone).1 is CopySlot,
    ensures
        after(state, FrameEvent::BufferDone).0.pool matches Some(pool) && (pool.slots > 1
            ==> pool.next != after(state, FrameEvent::BufferDone).1->CopySlot_0),
{
    let pool = state.pool->Some_0;
    let slot = state.pending->Some_0.dmabuf_slot->Some_0;
    if slot + 1 < pool.slots {
        assert((slot + 1) % (pool.slots as int) == slot + 1) by (nonlinear_arith)
            requires
                0 <= slot + 1 < pool.slots,
        ;
    } else {
        assert((slot + 1) % (pool.slots as int) == 0) by (nonlinear_arith)
            requires
                slot + 1 == pool.slots,
        ;
    }
}

/// What failed stays failed: no event takes the error back or makes the
/// capture incomplete again.
pub proof fn law_a_failure_ends_the_capture(state: CaptureView, event: FrameEvent)
    requires
        state.wf(),
        state.pending matches Some(pending) && pending.error is Some,
    ensures
        after(state, event).0.pending matches Some(pending) && pending.error is Some
            && pending.complete,
        finished(after(state, event).0) is Err,
        finished_dmabuf(after(state, event).0) is Err,
{
}

/// Captures do not overlap: while one is under way no other is started.
pub proof fn law_captures_do_not_overlap(
    state: CaptureView,
    name: Seq<char>,
    region: Option<Rect>,
    gbm: Option<Seq<char>>,
)
    requires
        state.pending is Some,
    ensures
        requested(state, name, region) is Err,
        requested_dmabuf(state, name, gbm) is Err,
{
}

/// What a finished capture says of its rows is what the compositor said last:
/// the flags set it, and no other event touches it; it is said only of a buffer
/// that was handed over and did not fail.
pub proof fn law_the_rows_are_as_the_flags_said(state: CaptureView, event: FrameEvent)
    requires
        state.pending is Some,
    ensures
        after(state, event).0.pending matches Some(pending) && {
            &&& event matches FrameEvent::Flags { y_invert } ==> pending.y_invert == y_invert
                && after(state, event).0.probe_y_invert == y_invert
            &&& !(event is Flags) ==> pending.y_invert == state.pending->0.y_invert && after(
                state,
                event,
            ).0.probe_y_invert == state.probe_y_invert
        },
        finished(state) matches Ok(y_invert) ==> {
            &&& y_invert == state.pending->0.y_invert
            &&& state.pending->0.has_buffer
            &&& state.pending->0.error is None
        },
        state.pending->0.has_buffer && state.pending->0.error is None ==> finished(state) is Ok,
        finished_dmabuf(state) is Ok <==> {
            &&& state.pending->0.error is None
            &&& !state.pending->0.y_invert
            &&& state.pending->0.dmabuf_slot is Some
        },
        finished_dmabuf(state) matches Ok(slot) ==> state.pending->0.dmabuf_slot == Some(slot),
{
}

/// The first buffer that is offered is the one that is kept, as it was offered;
/// a second one fails the capture and changes nothing else, and no other event
/// touches the offer.
pub proof fn law_the_first_offer_is_kept(state: CaptureView, event: FrameEvent)
    requires
        state.pending is Some,
    ensures
        after(state, event).0.pending matches Some(pending) && {
            &&& event is Buffer && state.pending->0.shm_offer is None ==> pending.shm_offer == Some(event->Buffer_0)
            &&& event is Buffer && state.pending->0.shm_offer is Some ==> pending.shm_offer
                == state.pending->0.shm_offer && pending.error is Some
            &&& !(event is Buffer) ==> pending.shm_offer == state.pending->0.shm_offer
        },
{
}

/// A shared-memory copy is asked for once all that can be known of the buffer
/// is: with the offer itself before the third version of the protocol, where
/// the pool is not wanted, and after the last offer from then on, as long as no
/// slot of the pool was picked and no copy is under way.
pub proof fn law_a_copy_is_asked_for_when_the_buffer_is_known(state: CaptureView, event: FrameEvent)
    requires
        state.wf(),
        state.pending is Some,
    ensures
        after(state, event).1 is CopyShm <==> {
            let pending = state.pending->0;
            &&& state.shm
            &&& match event {
                FrameEvent::Buffer(_) => pending.shm_offer is None && state.manager_version < 3
                    && !pending.want_dmabuf,
                FrameEvent::BufferDone => pending.shm_offer is Some && pending.dmabuf_slot is None
                    && !pending.copy_sent,
                _ => false,
            }
        },
        after(state, event).1 matches FrameAction::CopySlot(slot) ==> event is BufferDone
            && state.pending->0.dmabuf_slot == Some(slot),
        event is BufferDone && state.pending->0.dmabuf_slot is Some ==> after(state, event).1
            is CopySlot,
        after(state, event).1 is DestroyFrame <==> event is Ready || event is Failed,
{
}

/// A capture is complete exactly once it is ready or something failed it; the
/// events that describe buffers do not complete it.
pub proof fn law_a_capture_completes_when_it_is_ready_or_fails(
    state: CaptureView,
    event: FrameEvent,
)
    requires
        state.pending matches Some(pending) && !pending.complete && pending.error is None,
    ensures
        after(state, event).0.pending matches Some(pending) && {
            &&& event is Ready ==> pending.complete && pending.error is None
            &&& event is Failed || event is UnknownBuffer ==> pending.complete
                && pending.error is Some
            &&& event is LinuxDmabuf || event is Flags || event is Other ==> !pending.complete
                && pending.error is None
            &&& event is Buffer || event is BufferDone ==> (pending.complete <==> pending.error
                is Some)
        },
{
}

/// The last zero-copy offer is remembered as it was made, by whichever capture
/// it comes with, and by nothing else.
pub proof fn law_the_last_zero_copy_offer_is_remembered(state: CaptureView, event: FrameEvent)
    ensures
        event matches FrameEvent::LinuxDmabuf { format, width, height } ==> after(
            state,
            event,
        ).0.probe_offer == Some((format, width, height)),
        !(event is LinuxDmabuf) ==> after(state, event).0.probe_offer == state.probe_offer,
        after(state, event).0.outputs == state.outputs,
        after(state, event).0.manager_version == state.manager_version,
        after(state, event).0.shm == state.shm && after(state, event).0.manager == state.manager
            && after(state, event).0.dmabuf == state.dmabuf,
        state.pending is None ==> after(state, event).0.pending is None,
{
}

/// The slots of the pool are used in turn: after one comes the next, and after
/// the last the first again; the shape of the pool stays.
pub proof fn law_the_slots_are_used_in_turn(state: CaptureView)
    requires
        state.wf(),
        state.pending matches Some(pending) && pending.dmabuf_slot is Some,
    ensures
        state.pool matches Some(before) && (after(state, FrameEvent::BufferDone).0.pool matches Some(
            pool,
        ) && {
            let slot = state.pending->0.dmabuf_slot->0;
            &&& slot + 1 < before.slots ==> pool.next == slot + 1
            &&& slot + 1 == before.slots ==> pool.next == 0
            &&& pool.slots == before.slots
            &&& pool.width == before.width
            &&& pool.height == before.height
            &&& pool.fourcc == before.fourcc
        }),
{
    let pool = state.pool->Some_0;
    let slot = state.pending->Some_0.dmabuf_slot->Some_0;
    if slot + 1 < pool.slots {
        assert((slot + 1) % (pool.slots as int) == slot + 1) by (nonlinear_arith)
            requires
                0 <= slot + 1 < pool.slots,
        ;
    } else {
        assert((slot + 1) % (pool.slots as int) == 0) by (nonlinear_arith)
            requires
                slot + 1 == pool.slots,
        ;
    }
}

/// Each interface is bound once, at the version that is offered or the highest
/// that is spoken, whichever is lower; an output is bound every time and its
/// number known from then on.
pub proof fn law_an_interface_is_bound_at_a_version_that_is_spoken(
    state: CaptureView,
    interface: Seq<char>,
    name: u32,
    version: u32,
)
    ensures
        ({
            let (known, bind) = bound(state, interface, name, version);
            let most = if interface == "wl_shm"@ {
                1
            } else if interface == "zwlr_screencopy_manager_v1"@ || interface
                == "zwp_linux_dmabuf_v1"@ {
                3
            } else {
                4int
            };
            let wanted = {
                ||| interface == "wl_shm"@ && !state.shm
                ||| interface == "zwlr_screencopy_manager_v1"@ && !state.manager
                ||| interface == "zwp_linux_dmabuf_v1"@ && !state.dmabuf
                ||| interface == "wl_output"@
            };
            &&& bind is Some <==> wanted
            &&& bind matches Some(v) ==> v <= version && v <= most && (v == version || v == most)
            &&& interface == "wl_shm"@ ==> known.shm
            &&& interface == "zwlr_screencopy_manager_v1"@ ==> known.manager && (!state.manager
                ==> bind == Some(known.manager_version))
            &&& interface == "zwp_linux_dmabuf_v1"@ ==> known.dmabuf && (!state.dmabuf ==> bind
                == Some(known.dmabuf_version))
            &&& interface == "wl_output"@ ==> knows_output(known.outputs, name)
            &&& interface != "wl_output"@ ==> known.outputs == state.outputs
            &&& !wanted ==> known == state
            &&& known.pending == state.pending
            &&& known.pool == state.pool
        }),
{
    lemma_interfaces_differ();
    if interface == "wl_output"@ && !knows_output(state.outputs, name) {
        let outputs = announced(state.outputs, name);
        assert(outputs[outputs.len() - 1].global_id == name);
    }
}

proof fn lemma_interfaces_differ()
    ensures
        "wl_shm"@ != "zwlr_screencopy_manager_v1"@,
        "wl_shm"@ != "zwp_linux_dmabuf_v1"@,
        "wl_shm"@ != "wl_output"@,
        "zwlr_screencopy_manager_v1"@ != "zwp_linux_dmabuf_v1"@,
        "zwlr_screencopy_manager_v1"@ != "wl_output"@,
        "zwp_linux_dmabuf_v1"@ != "wl_output"@,
{
    reveal_strlit("wl_shm");
    reveal_strlit("zwlr_screencopy_manager_v1");
    reveal_strlit("zwp_linux_dmabuf_v1");
    reveal_strlit("wl_output");
    assert("wl_shm"@.len() == 6 && "wl_output"@.len() == 9 && "zwp_linux_dmabuf_v1"@.len() == 19
        && "zwlr_screencopy_manager_v1"@.len() == 26);
}

/// Announcing an output adds it without a name and keeps every other; one that
/// is known already stays as it is.  A name goes to the output it was told for
/// and to no other.
pub proof fn law_outputs_are_told_apart_by_their_number(
    outputs: Seq<OutputEntry>,
    global_id: u32,
    name: String,
    at: int,
)
    requires
        0 <= at < outputs.len(),
    ensures
        announced(outputs, global_id)[at] == outputs[at],
        knows_output(announced(outputs, global_id), global_id),
        knows_output(outputs, global_id) ==> announced(outputs, global_id) == outputs,
        !knows_output(outputs, global_id) ==> announced(outputs, global_id).len() == outputs.len()
            + 1,
        named(outputs, global_id, name).len() == outputs.len(),
        named(outputs, global_id, name)[at].global_id == outputs[at].global_id,
        outputs[at].global_id == global_id ==> named(outputs, global_id, name)[at].name == Some(
            name,
        ),
        outputs[at].global_id != global_id ==> named(outputs, global_id, name)[at] == outputs[at],
{
    if !knows_output(outputs, global_id) {
        let all = announced(outputs, global_id);
        assert(all[all.len() - 1].global_id == global_id);
    }
}

/// An output is found by its name: the first that goes by it, and none only
/// where none does.
pub proof fn law_an_output_is_found_by_its_name(
    outputs: Seq<OutputEntry>,
    name: Seq<char>,
    at: int,
)
    requires
        forall|i: int|
            0 <= i < at && i < outputs.len() ==> !((#[trigger] outputs[i]).name matches Some(own)
                && own@ == name),
    ensures
        0 <= at < outputs.len() && (outputs[at].name matches Some(own) && own@ == name)
            ==> output_called(outputs, name, 0) == Some(outputs[at].global_id),
        at >= outputs.len() ==> output_called(outputs, name, 0) is None,
{
    lemma_output_called(outputs, name, 0, at);
}

proof fn lemma_output_called(outputs: Seq<OutputEntry>, name: Seq<char>, from: int, at: int)
    requires
        0 <= from,
        forall|i: int|
            from <= i < at && i < outputs.len() ==> !((#[trigger] outputs[i]).name matches Some(own)
                && own@ == name),
    ensures
        from <= at < outputs.len() && (outputs[at].name matches Some(own) && own@ == name)
            ==> output_called(outputs, name, from) == Some(outputs[at].global_id),
        at >= outputs.len() ==> output_called(outputs, name, from) is None,
    decreases outputs.len() - from,
{
    if from < outputs.len() && from < at {
        assert(!is_called(outputs[from], name));
        lemma_output_called(outputs, name, from + 1, at);
    }
}

/// A capture is started on the output that was named, with the rectangle that
/// was asked for, whenever the protocol is there, nothing else is under way and
/// the rectangle can be counted.
pub proof fn law_a_capture_is_aimed_where_it_was_asked(
    state: CaptureView,
    name: Seq<char>,
    region: Option<Rect>,
)
    ensures
        requested(state, name, region) is Ok <==> {
            &&& state.pending is None
            &&& state.manager
            &&& output_called(state.outputs, name, 0) is Some
            &&& region matches Some(rect) ==> rect.size.width <= i32::MAX && rect.size.height
                <= i32::MAX
        },
        requested(state, name, region) matches Ok((global_id, arguments)) ==> {
            &&& output_called(state.outputs, name, 0) == Some(global_id)
            &&& match (region, arguments) {
                (None, None) => true,
                (Some(rect), Some((x, y, width, height))) => {
                    &&& x == rect.origin.x
                    &&& y == rect.origin.y
                    &&& width == rect.size.width
                    &&& height == rect.size.height
                },
                _ => false,
            }
        },
        forall|gbm: Option<Seq<char>>|
            (#[trigger] requested_dmabuf(state, name, gbm)) is Ok <==> {
                &&& state.pending is None
                &&& gbm is None
                &&& state.manager_version >= 3
                &&& state.manager
                &&& output_called(state.outputs, name, 0) is Some
            },
        forall|gbm: Option<Seq<char>>|
            (#[trigger] requested_dmabuf(state, name, gbm)) matches Ok(global_id)
                ==> output_called(state.outputs, name, 0) == Some(global_id),
{
}

/// A session can be captured from exactly when it has shared memory, the
/// protocol and an output.
pub proof fn law_a_session_needs_memory_the_protocol_and_an_output(state: CaptureView)
    ensures
        CaptureState::lacking(state) is None <==> state.shm && state.manager && state.outputs.len()
            > 0,
        state.shm && !state.manager ==> CaptureState::lacking(state) == Some(
            "zwlr_screencopy_manager_v1"@,
        ),
{
}

/// Outputs that are told apart have different numbers wherever they stand in
/// the list.
pub proof fn law_distinct_outputs_have_different_numbers(
    outputs: Seq<OutputEntry>,
    i: int,
    j: int,
)
    requires
        distinct_outputs(outputs),
        0 <= i < outputs.len(),
        0 <= j < outputs.len(),
        outputs[i].global_id == outputs[j].global_id,
    ensures
        i == j,
{
    if i < j {
        assert(outputs[i].global_id != outputs[j].global_id);
    } else if j < i {
        assert(outputs[j].global_id != outputs[i].global_id);
    }
}

/// An output is known exactly if one of those that were announced has its
/// number.
pub proof fn law_an_output_is_known_by_its_number(outputs: Seq<OutputEntry>, global_id: u32)
    ensures
        knows_output(outputs, global_id) <==> outputs.map_values(
            |entry: OutputEntry| entry.global_id,
        ).contains(global_id),
{
    let ids = outputs.map_values(|entry: OutputEntry| entry.global_id);
    if knows_output(outputs, global_id) {
        let i = choose|i: int|
            0 <= i < outputs.len() && (#[trigger] outputs[i]).global_id == global_id;
        assert(ids[i] == global_id);
    }
    if ids.contains(global_id) {
        let i = choose|i: int| 0 <= i < ids.len() && ids[i] == global_id;
        assert(outputs[i].global_id == global_id);
    }
}

} // verus!
