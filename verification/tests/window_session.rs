use vshot::capture::dmabuf::{GbmBuffer, DRM_FORMAT_XRGB8888};
use vshot::capture::window_copy::Name;
use vshot::capture::window_session::{
    failure_code, wait_step, CopyEvent, CopyState, FailureReason, GrabStep, Grabbed, HandleEvent,
    SessionEvent, Shape, Wait, CAPTURE_STOPPED, FAILED_BUFFER_CONSTRAINTS, FAILED_STOPPED,
    FAILED_UNKNOWN, POOL_SLOTS,
};
use vshot::error::VshotError;

fn connected() -> CopyState {
    let mut state = CopyState::default();
    assert_eq!(state.announce("ext_foreign_toplevel_list_v1", 1), Some(1));
    assert_eq!(
        state.announce("ext_foreign_toplevel_image_capture_source_manager_v1", 1),
        Some(1)
    );
    assert_eq!(
        state.announce("ext_image_copy_capture_manager_v1", 1),
        Some(1)
    );
    assert_eq!(state.announce("zwp_linux_dmabuf_v1", 5), Some(3));
    state
}

fn unnamed() -> Name {
    Name {
        app_id: String::new(),
        title: String::new(),
        identifier: String::new(),
    }
}

/// A session on a window of this size, with its pool complete.
fn running(width: u32, height: u32) -> CopyState {
    let mut state = connected();
    state.begin().unwrap();
    state.session_event(SessionEvent::BufferSize { width, height });
    state.session_event(SessionEvent::DmabufFormat {
        format: DRM_FORMAT_XRGB8888,
        modifiers: 0u64.to_ne_bytes().to_vec(),
    });
    assert!(!state.described());
    state.session_event(SessionEvent::Done);
    assert!(state.described());
    let plan = state.plan_pool(Wait::Done).unwrap();
    assert_eq!((plan.width, plan.height), (width, height));
    assert_eq!(plan.modifiers, [0]);
    for (slot, buffer) in pool().into_iter().enumerate() {
        let shape = state.slot_imported(&plan, buffer, true).unwrap();
        let complete = Shape {
            width,
            height,
            fourcc: DRM_FORMAT_XRGB8888,
        };
        assert_eq!(
            shape,
            if slot + 1 == POOL_SLOTS {
                Some(complete)
            } else {
                None
            }
        );
    }
    state
}

#[test]
fn every_interface_is_needed() {
    assert!(connected().ready().is_ok());
    let mut state = CopyState::default();
    match state.ready() {
        Err(VshotError::MissingCapability(why)) | Err(VshotError::Recording(why)) => {
            assert!(why.contains("ext_"), "{why}")
        }
        other => panic!("{other:?}"),
    }
    assert!(state.begin().is_err());
}

#[test]
fn a_window_is_listed_once_it_is_described_and_until_it_closes() {
    let mut state = connected();
    state.toplevel(1, unnamed());
    state.toplevel(2, unnamed());
    state.handle_event(1, HandleEvent::AppId("kitty".to_owned()));
    state.handle_event(1, HandleEvent::Title("shell".to_owned()));
    // As long as no window is described, all of them are taken as they are.
    assert_eq!(state.toplevels(), [0, 1]);
    state.handle_event(1, HandleEvent::Done);
    assert_eq!(state.toplevels(), [0]);
    state.handle_event(2, HandleEvent::Done);
    assert_eq!(state.toplevels(), [0, 1]);
    assert_eq!(state.listed[0].name.app_id, "kitty");
    assert_eq!(state.listed[0].name.title, "shell");
    state.handle_event(1, HandleEvent::Closed);
    assert_eq!(state.toplevels(), [1]);
    // An event about a window that is not known changes nothing.
    let before = state.clone();
    state.handle_event(9, HandleEvent::Done);
    assert_eq!(state, before);
}

#[test]
fn a_wait_ends_with_what_came_first() {
    assert_eq!(wait_step(true, true, true), Some(Wait::Done));
    assert_eq!(wait_step(false, true, true), Some(Wait::Interrupted));
    assert_eq!(wait_step(false, false, true), Some(Wait::Timeout));
    assert_eq!(wait_step(false, false, false), None);
}

#[test]
fn a_session_without_a_usable_format_says_what_was_offered() {
    let mut state = connected();
    state.begin().unwrap();
    state.session_event(SessionEvent::BufferSize {
        width: 10,
        height: 10,
    });
    state.session_event(SessionEvent::DmabufFormat {
        format: 0x3033_4241,
        modifiers: 0u64.to_ne_bytes().to_vec(),
    });
    state.session_event(SessionEvent::Done);
    let error = state.plan_pool(Wait::Done).unwrap_err();
    assert!(error.message().contains("30334241"), "{error:?}");
    // A session that is never described is not one to wait for.
    assert!(state.plan_pool(Wait::Timeout).is_err());
}

#[test]
fn a_buffer_that_cannot_be_imported_stops_the_pool() {
    let mut state = connected();
    state.begin().unwrap();
    state.session_event(SessionEvent::BufferSize {
        width: 10,
        height: 10,
    });
    state.session_event(SessionEvent::DmabufFormat {
        format: DRM_FORMAT_XRGB8888,
        modifiers: 0u64.to_ne_bytes().to_vec(),
    });
    state.session_event(SessionEvent::Done);
    let plan = state.plan_pool(Wait::Done).unwrap();
    assert!(state.slot_imported(&plan, pool()[0], true).unwrap().is_none());
    state.params_failed();
    assert!(matches!(
        state.slot_imported(&plan, pool()[0], true),
        Err(VshotError::Recording(_))
    ));
}

#[test]
fn frames_go_round_the_pool() {
    let mut state = running(20, 10);
    for turn in 0..POOL_SLOTS + 1 {
        let slot = turn % POOL_SLOTS;
        assert_eq!(
            state.grab_start(false).unwrap(),
            GrabStep::Request {
                slot,
                width: 20,
                height: 10
            }
        );
        // The last frame is not the one being copied over.
        assert_ne!(state.last_frame(), Some(pool()[slot].frame()));
        assert!(!state.landed());
        state.frame_event(CopyEvent::Ready);
        assert!(state.landed());
        assert_eq!(state.grab_end(Wait::Done).unwrap(), Grabbed::Frame(pool()[slot].frame()));
        assert_eq!(state.last_frame(), Some(pool()[slot].frame()));
    }
    assert!(state.has_frames());
}

#[test]
fn a_late_frame_is_waited_for_again() {
    let mut state = running(20, 10);
    state.grab_start(false).unwrap();
    assert_eq!(state.grab_end(Wait::Timeout).unwrap(), Grabbed::Idle);
    assert_eq!(state.grab_start(false).unwrap(), GrabStep::Wait);
    state.frame_event(CopyEvent::Ready);
    assert_eq!(state.grab_end(Wait::Done).unwrap(), Grabbed::Frame(pool()[0].frame()));
}

#[test]
fn a_resize_and_a_stop_end_the_recording() {
    let mut state = running(20, 10);
    state.session_event(SessionEvent::BufferSize {
        width: 30,
        height: 10,
    });
    match state.grab_start(false).unwrap() {
        GrabStep::Over(Grabbed::Ended(why)) => {
            assert!(why.contains("20x10"), "{why}");
            assert!(why.contains("30x10"), "{why}");
        }
        other => panic!("{other:?}"),
    }
    let mut state = running(20, 10);
    state.session_event(SessionEvent::Stopped);
    assert_eq!(
        state.grab_start(false).unwrap(),
        GrabStep::Over(Grabbed::Ended(CAPTURE_STOPPED.to_owned()))
    );
    assert_eq!(
        running(20, 10).grab_start(true).unwrap(),
        GrabStep::Over(Grabbed::Interrupted)
    );
}

#[test]
fn a_failed_copy_says_why_and_keeps_the_last_frame() {
    let mut state = running(20, 10);
    state.grab_start(false).unwrap();
    state.frame_event(CopyEvent::Ready);
    state.grab_end(Wait::Done).unwrap();
    for (code, ends) in [
        (FAILED_STOPPED, true),
        (FAILED_BUFFER_CONSTRAINTS, true),
        (FAILED_UNKNOWN, false),
    ] {
        state.grab_start(false).unwrap();
        state.frame_event(CopyEvent::Failed(code));
        let grabbed = state.grab_end(Wait::Done);
        assert_eq!(matches!(grabbed, Ok(Grabbed::Ended(_))), ends, "{grabbed:?}");
        assert_eq!(state.last_frame(), Some(pool()[0].frame()));
    }
}

/// Four buffers that differ in everything.
fn pool() -> Vec<GbmBuffer> {
    (0..POOL_SLOTS as u32)
        .map(|i| GbmBuffer {
            fd: 40 + i as i32,
            fourcc: DRM_FORMAT_XRGB8888 + i,
            modifier: 7 + u64::from(i),
            stride: 80 + i,
            offset: 3 + i,
            width: 20 + i,
            height: 10 + i,
        })
        .collect()
}

#[test]
fn the_kept_frame_is_the_last_delivered() {
    let mut state = connected();
    assert_eq!(state.last_frame(), None);
    let mut state = {
        state.begin().unwrap();
        assert_eq!(state.last_frame(), None);
        running(20, 10)
    };
    assert_eq!(state.last_frame(), None);
    assert!(!state.has_frames());
    for slot in 0..2 {
        state.grab_start(false).unwrap();
        state.frame_event(CopyEvent::Ready);
        assert_eq!(state.grab_end(Wait::Done).unwrap(), Grabbed::Frame(pool()[slot].frame()));
    }
    let kept = state.last_frame().expect("a frame was delivered");
    assert_eq!((kept.fd, kept.fourcc), (41, DRM_FORMAT_XRGB8888 + 1));
    assert_eq!((kept.modifier, kept.offset, kept.stride), (8, 4, 81));
    assert_eq!((kept.width, kept.height), (21, 11));
    // Nothing but another frame replaces it.
    state.grab_start(false).unwrap();
    state.grab_end(Wait::Timeout).unwrap();
    state.frame_event(CopyEvent::Failed(FAILED_UNKNOWN));
    assert!(state.grab_end(Wait::Done).is_err());
    state.grab_start(true).unwrap();
    state.grab_end(Wait::Interrupted).unwrap();
    state.handle_event(3, HandleEvent::Closed);
    state.toplevel(4, unnamed());
    assert!(state.begin().is_err());
    state.params_failed();
    state.session_event(SessionEvent::BufferSize { width: 30, height: 10 });
    state.session_event(SessionEvent::Stopped);
    assert_eq!(state.last_frame(), Some(kept));
    assert!(state.has_frames());
}

#[test]
fn a_failure_has_its_number() {
    assert_eq!(failure_code(FailureReason::Unknown), FAILED_UNKNOWN);
    assert_eq!(
        failure_code(FailureReason::BufferConstraints),
        FAILED_BUFFER_CONSTRAINTS
    );
    assert_eq!(failure_code(FailureReason::Stopped), FAILED_STOPPED);
    assert_eq!(failure_code(FailureReason::Number(9)), 9);
}

#[test]
fn nothing_can_be_grabbed_without_a_session() {
    let mut state = connected();
    assert!(matches!(
        state.grab_start(false),
        Err(VshotError::WaylandProtocol(_))
    ));
    assert!(!state.has_frames());
}
