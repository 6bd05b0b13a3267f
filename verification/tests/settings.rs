use vshot::config::{RecordDefaults, ReplayDefaults};
use vshot::inject::Prefer;
use vshot::longshot::LongShotOptions;
use vshot::path::FilePath;
use vshot::pin::{PinCommand, PinInvocation};
use vshot::record::{
    default_encoder, default_encoder_backend, default_follow, default_fps, default_mic,
    default_portal, default_replay_fps, default_replay_gop, default_replay_portal,
    default_replay_save_dir, default_replay_window, EncoderBackend, MicChoice, VideoCodec,
};

#[test]
fn a_codec_is_asked_for_by_its_own_word() {
    for codec in [VideoCodec::H264, VideoCodec::Hevc, VideoCodec::Av1] {
        assert_eq!(VideoCodec::parse(codec.word()), Some(codec));
    }
    for backend in [
        EncoderBackend::Auto,
        EncoderBackend::Vaapi,
        EncoderBackend::Vulkan,
        EncoderBackend::Nvenc,
    ] {
        assert_eq!(EncoderBackend::parse(backend.word()), Some(backend));
    }
    assert_eq!(VideoCodec::parse("vp9"), None);
    assert_eq!(EncoderBackend::parse("qsv"), None);
}

#[test]
fn a_setting_out_of_its_range_is_no_setting() {
    let mut record = RecordDefaults::default();
    assert_eq!(default_fps(&record), 60);
    assert_eq!(default_encoder(&record), VideoCodec::H264);
    assert_eq!(default_encoder_backend(&record), EncoderBackend::Auto);
    assert!(!default_portal(&record));
    record.fps = Some(241);
    record.encoder = Some("vp9".to_owned());
    assert_eq!(default_fps(&record), 60);
    assert_eq!(default_encoder(&record), VideoCodec::H264);
    record.fps = Some(240);
    record.encoder = Some("av1".to_owned());
    record.portal = Some(true);
    assert_eq!(default_fps(&record), 240);
    assert_eq!(default_encoder(&record), VideoCodec::Av1);
    assert!(default_portal(&record));

    let mut replay = ReplayDefaults::default();
    assert_eq!(default_replay_window(&replay), 30);
    assert_eq!(default_replay_fps(&replay), 30);
    assert_eq!(default_replay_gop(&replay), 1);
    assert!(!default_replay_portal(&replay));
    assert_eq!(default_replay_save_dir(&replay), None);
    replay.window = Some(3601);
    replay.gop = Some(0);
    replay.save_dir = Some("/tmp/clips".to_owned());
    assert_eq!(default_replay_window(&replay), 30);
    assert_eq!(default_replay_gop(&replay), 1);
    assert_eq!(
        default_replay_save_dir(&replay),
        Some(FilePath::from_text("/tmp/clips"))
    );
}

#[test]
fn an_empty_microphone_name_is_the_default_source() {
    assert_eq!(default_mic(None), None);
    assert_eq!(default_mic(Some(String::new())), Some(MicChoice::Default));
    assert_eq!(
        default_mic(Some("55".to_owned())),
        Some(MicChoice::Device("55".to_owned()))
    );
    assert!(default_follow(None).is_empty());
    assert_eq!(default_follow(Some(vec!["game".to_owned()])), ["game"]);
}

#[test]
fn a_wheel_backend_goes_by_its_name() {
    assert_eq!(Prefer::parse("uinput"), Ok(Prefer::Uinput));
    let error = Prefer::parse("mouse").unwrap_err();
    assert!(error.message().contains("auto, wlr, portal, uinput"), "{error:?}");
    assert_eq!(LongShotOptions::default().notches, 1);
}

#[test]
fn one_control_flag_or_images_and_never_both() {
    let build = |files: Vec<FilePath>, clipboard, toggle, quit| {
        PinInvocation::build(
            files, clipboard, toggle, false, false, false, quit, false, None,
        )
    };
    let invocation = build(Vec::new(), false, false, true).unwrap();
    assert_eq!(invocation.command, Some(PinCommand::Quit));
    assert!(build(Vec::new(), false, true, true).is_err());
    assert!(build(vec![FilePath::from_text("a.png")], false, true, false).is_err());
    assert!(build(Vec::new(), false, false, false).is_err());
    assert!(build(Vec::new(), true, false, false).is_ok());
}
