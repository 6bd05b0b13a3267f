use vshot::capture::screencopy::{
    CaptureState, DmabufPool, FrameAction, FrameEvent, DMABUF_POOL_SLOTS, IN_PROGRESS,
};
use vshot::capture::wlr::{ShmFormat, ShmOffer};
use vshot::error::VshotError;
use vshot::geometry::Rect;

/// A connection to a compositor with one output and screencopy in `version`.
fn connected(version: u32) -> CaptureState {
    let mut state = CaptureState::default();
    assert_eq!(state.announce("wl_shm", 1, 2), Some(1));
    assert_eq!(
        state.announce("zwlr_screencopy_manager_v1", 2, version),
        Some(version.min(3))
    );
    assert_eq!(state.announce("wl_output", 7, 4), Some(4));
    state.output_named(7, "DP-1".to_owned());
    state
}

fn offer(width: u32) -> ShmOffer {
    ShmOffer {
        format: ShmFormat::Xrgb8888,
        width,
        height: 4,
        stride: width * 4,
    }
}

#[test]
fn a_connection_is_ready_once_everything_was_announced() {
    let mut state = CaptureState::default();
    let missing = |state: &CaptureState| match state.ready() {
        Err(VshotError::MissingCapability(what)) => what,
        other => panic!("{other:?}"),
    };
    assert_eq!(missing(&state), "wl_shm");
    state.announce("wl_shm", 1, 1);
    assert_eq!(missing(&state), "zwlr_screencopy_manager_v1");
    state.announce("zwlr_screencopy_manager_v1", 2, 3);
    assert_eq!(missing(&state), "at least one wl_output");
    state.announce("wl_output", 7, 4);
    assert!(state.ready().is_ok());
    // A second manager is not bound.
    assert_eq!(state.announce("zwlr_screencopy_manager_v1", 9, 3), None);
    assert_eq!(state.announce("xdg_wm_base", 9, 3), None);
}

#[test]
fn an_output_is_found_by_its_name() {
    let state = connected(3);
    assert_eq!(state.find_output("DP-1"), Some(7));
    assert_eq!(state.find_output("DP-2"), None);
}

#[test]
fn a_capture_aims_at_an_output_and_a_part_of_it() {
    let mut state = connected(3);
    assert_eq!(state.begin("DP-1", None).unwrap(), (7, None));
    // One at a time.
    match state.begin("DP-1", None) {
        Err(VshotError::WaylandProtocol(why)) => assert_eq!(why, IN_PROGRESS),
        other => panic!("{other:?}"),
    }
    let mut state = connected(3);
    assert_eq!(
        state.begin("DP-1", Some(Rect::new(1, 2, 30, 40))).unwrap(),
        (7, Some((1, 2, 30, 40)))
    );
    let mut state = connected(3);
    assert!(matches!(
        state.begin("DP-9", None),
        Err(VshotError::IncompleteTopology(_))
    ));
    assert_eq!(state.pending, None);
}

#[test]
fn an_old_manager_copies_with_the_first_offer() {
    let mut state = connected(2);
    state.begin("DP-1", None).unwrap();
    assert_eq!(
        state.event(FrameEvent::Buffer(offer(4))),
        FrameAction::CopyShm
    );
}

#[test]
fn a_new_manager_copies_once_all_buffers_are_described() {
    let mut state = connected(3);
    state.begin("DP-1", None).unwrap();
    assert_eq!(
        state.event(FrameEvent::Buffer(offer(4))),
        FrameAction::Nothing
    );
    assert_eq!(state.event(FrameEvent::BufferDone), FrameAction::CopyShm);
    state.shm_buffer_made(Ok(()));
    assert_eq!(
        state.event(FrameEvent::Flags { y_invert: true }),
        FrameAction::Nothing
    );
    assert!(!state.check(false).unwrap());
    assert_eq!(state.event(FrameEvent::Ready), FrameAction::DestroyFrame);
    assert!(state.check(false).unwrap());
    assert!(state.finish().unwrap(), "the frame came bottom up");
    assert_eq!(state.pending, None);
}

#[test]
fn a_second_offer_and_a_missing_one_are_refused() {
    let mut state = connected(3);
    state.begin("DP-1", None).unwrap();
    state.event(FrameEvent::Buffer(offer(4)));
    state.event(FrameEvent::Buffer(offer(8)));
    assert_eq!(
        state.pending.as_ref().unwrap().error.as_deref(),
        Some("screencopy sent more than one SHM buffer")
    );
    let mut state = connected(3);
    state.begin("DP-1", None).unwrap();
    state.event(FrameEvent::BufferDone);
    assert_eq!(
        state.pending.as_ref().unwrap().error.as_deref(),
        Some("screencopy sent buffer_done without a usable buffer")
    );
}

#[test]
fn a_failure_ends_the_capture() {
    let mut state = connected(3);
    state.begin("DP-1", None).unwrap();
    assert_eq!(state.event(FrameEvent::Failed), FrameAction::DestroyFrame);
    match state.check(false) {
        Err(error) => assert!(error.message().contains("failed to copy"), "{error:?}"),
        Ok(complete) => {
            assert!(complete);
            let error = state.finish().unwrap_err();
            assert!(error.message().contains("failed to copy"), "{error:?}");
        }
    }
}

#[test]
fn a_capture_that_takes_too_long_times_out() {
    let mut state = connected(3);
    state.begin("DP-1", None).unwrap();
    assert_eq!(state.check(true), Err(VshotError::CaptureTimeout));
    assert_eq!(state.pending, None, "the next capture can start");
}

#[test]
fn a_zero_copy_capture_uses_the_pool_in_turn() {
    let mut state = connected(3);
    state.pool_built(64, 32, 875713112);
    for turn in 0..DMABUF_POOL_SLOTS + 1 {
        assert_eq!(state.begin_dmabuf("DP-1", None).unwrap(), 7);
        state.event(FrameEvent::LinuxDmabuf {
            format: 875713112,
            width: 64,
            height: 32,
        });
        let slot = turn % DMABUF_POOL_SLOTS;
        assert_eq!(
            state.event(FrameEvent::BufferDone),
            FrameAction::CopySlot(slot)
        );
        state.event(FrameEvent::Ready);
        assert_eq!(state.finish_dmabuf().unwrap(), slot);
    }
}

#[test]
fn an_offer_that_does_not_fit_the_pool_is_not_taken() {
    let mut state = connected(3);
    state.pool_built(64, 32, 875713112);
    state.begin_dmabuf("DP-1", None).unwrap();
    state.event(FrameEvent::LinuxDmabuf {
        format: 875713112,
        width: 65,
        height: 32,
    });
    assert_eq!(state.event(FrameEvent::BufferDone), FrameAction::Nothing);
    assert_eq!(state.probe_offer, Some((875713112, 65, 32)));
    assert_eq!(
        state.pool,
        Some(DmabufPool {
            slots: DMABUF_POOL_SLOTS,
            next: 0,
            width: 64,
            height: 32,
            fourcc: 875713112
        })
    );
}

#[test]
fn zero_copy_needs_a_new_manager_and_an_allocator() {
    let mut state = connected(2);
    assert!(matches!(
        state.begin_dmabuf("DP-1", None),
        Err(VshotError::MissingCapability(_))
    ));
    let mut state = connected(3);
    match state.begin_dmabuf("DP-1", Some("no libgbm.so".to_owned())) {
        Err(VshotError::MissingCapability(why)) => {
            assert_eq!(why, "zero-copy capture needs libgbm: no libgbm.so")
        }
        other => panic!("{other:?}"),
    }
}

#[test]
fn the_offer_of_a_capture_is_sampled_once() {
    let mut state = connected(2);
    assert!(matches!(
        state.begin_probe(),
        Err(VshotError::MissingCapability(_))
    ));
    let mut state = connected(3);
    assert!(matches!(
        state.begin_probe(),
        Err(VshotError::MissingCapability(_))
    ));
    assert!(matches!(
        state.needs_pool(),
        Err(VshotError::MissingCapability(_))
    ));
    state.announce("zwp_linux_dmabuf_v1", 40, 5);
    assert!(state.needs_pool().unwrap());
    state.begin_probe().unwrap();
    state.begin("DP-1", None).unwrap();
    state.event(FrameEvent::LinuxDmabuf {
        format: 875713112,
        width: 64,
        height: 32,
    });
    state.event(FrameEvent::Flags { y_invert: true });
    assert_eq!(state.probed().unwrap(), (875713112, 64, 32, true));
    assert!(matches!(
        state.probed(),
        Err(VshotError::UnsupportedOutput(_))
    ));
    state.pool_built(64, 32, 875713112);
    assert!(!state.needs_pool().unwrap());
}
