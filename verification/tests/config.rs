use vshot::config::{compression_default, config_path, load, parse_compression, CliDefaults};
use vshot::sections::{assign, outline, sole_value, Outline};
use vshot::model::PngCompression;
use vshot::path::FilePath;

#[test]
fn every_compression_name_the_cli_accepts_is_parsed() {
    for name in ["none", "fastest", "fast", "balanced", "high"] {
        assert!(parse_compression(name).is_some(), "{name} must parse");
    }
    // An unknown name is a typo in a hand-edited file: ignore it and let the
    // built-in default stand.
    assert!(parse_compression("slowest").is_none());
}

#[test]
fn the_config_path_honours_xdg_config_home() {
    assert_eq!(
        config_path(Some(FilePath::from_text("/tmp/vshot-cfg-probe")), None),
        Some(FilePath::from_text("/tmp/vshot-cfg-probe/vshot/config.json"))
    );
}

#[test]
fn the_config_path_falls_back_to_the_home_directory() {
    assert_eq!(
        config_path(None, Some(FilePath::from_text("/home/me"))),
        Some(FilePath::from_text("/home/me/.config/vshot/config.json"))
    );
    assert_eq!(config_path(None, None), None);
}

#[test]
fn a_remembered_compression_counts_only_by_a_name_that_exists() {
    let mut defaults = CliDefaults::default();
    assert_eq!(compression_default(&defaults), None);
    defaults.png_compression = Some("high".to_owned());
    assert_eq!(compression_default(&defaults), Some(PngCompression::High));
    defaults.png_compression = Some("highest".to_owned());
    assert_eq!(compression_default(&defaults), None);
}

#[test]
fn a_config_without_the_cli_section_reads_as_defaults() {
    let cli = load(Some(r##"{"editor":{"color":"#ff0000"}}"##));
    assert!(cli.png_compression.is_none());
    assert!(cli.long.notches.is_none());
    assert!(cli.pin.density.is_none());
}

#[test]
fn the_ocr_section_carries_the_notification_switch() {
    let cli = load(Some(
        r#"{"cli":{"ocr":{"notify":false,"engine":"external","external":{"command":["x"]}}}}"#,
    ));
    assert_eq!(cli.ocr.notify, Some(false));
    // The switch does not displace the rest of the section.
    assert_eq!(cli.ocr.engine.as_deref(), Some("external"));
    assert_eq!(
        cli.ocr.external.and_then(|external| external.command),
        Some(vec!["x".to_owned()])
    );
    // Absent is not "off": the caller's own default -- on -- is what stands,
    // which is what a file written before this key existed says.
    let silent = load(Some(r#"{"cli":{"ocr":{"engine":"builtin"}}}"#));
    assert_eq!(silent.ocr.notify, None);
    assert!(silent.ocr.external.is_none());
}

#[test]
fn cli_values_are_read_field_by_field() {
    let cli = load(Some(
        r#"{"cli":{"png-compression":"high","long":{"notches":3,"max-height":1000}}}"#,
    ));
    assert_eq!(cli.png_compression.as_deref(), Some("high"));
    assert_eq!(cli.long.notches, Some(3));
    assert_eq!(cli.long.max_height, Some(1000));
    // Absent fields stay absent rather than becoming zero, so the caller's own
    // default is what stands.
    assert!(cli.long.timeout.is_none());
    assert!(cli.monitor.is_none());
    // The microphone is off unless the file says otherwise: `null` and an
    // absent key are the same silence, an empty string is the session's
    // default source, and a name is that input.
    assert!(cli.record.mic.is_none());
    let cli = load(Some(r#"{"cli":{"record":{"mic":""}}}"#));
    assert_eq!(cli.record.mic.as_deref(), Some(""));
    let cli = load(Some(r#"{"cli":{"record":{"mic":"55"}}}"#));
    assert_eq!(cli.record.mic.as_deref(), Some("55"));
    let cli = load(Some(r#"{"cli":{"record":{"mic":null}}}"#));
    assert!(cli.record.mic.is_none());
}

#[test]
fn the_record_section_carries_the_encoder_fps_and_portal() {
    let cli = load(Some(
        r#"{"cli":{"record":{"encoder":"hevc","fps":120,"portal":true,"mic":"alsa_input.x"}}}"#,
    ));
    assert_eq!(cli.record.encoder.as_deref(), Some("hevc"));
    assert_eq!(cli.record.fps, Some(120));
    assert_eq!(cli.record.portal, Some(true));
    assert_eq!(cli.record.mic.as_deref(), Some("alsa_input.x"));

    // Absent is absent: the caller's own default is what stands.
    let bare = load(Some(r#"{"cli":{"record":{}}}"#));
    assert!(bare.record.encoder.is_none());
    assert!(bare.record.fps.is_none());
    assert!(bare.record.portal.is_none());
    assert!(bare.record.mic.is_none());
    assert!(bare.record.follow.is_none());
}

#[test]
fn the_record_section_remembers_the_windows_to_follow() {
    // The follow list is the one value here that is not a scalar: the settings
    // window writes several windows at once, and a session that read only the
    // first would follow the wrong one of them.
    let cli = load(Some(r#"{"cli":{"record":{"follow":["game","chat"]}}}"#));
    assert_eq!(
        cli.record.follow.as_deref(),
        Some(["game".to_owned(), "chat".to_owned()].as_slice())
    );
    // An empty list is a value the file can carry, and it means the same thing
    // as the absent key: nothing to follow.
    let empty = load(Some(r#"{"cli":{"record":{"follow":[]}}}"#));
    assert_eq!(empty.record.follow.as_deref(), Some([].as_slice()));
}

#[test]
fn the_replay_section_carries_its_own_follow_and_save_places() {
    let cli = load(Some(
        r#"{"cli":{"replay":{"follow":["game"],"save-dir":"/tmp/clips","notify":false}}}"#,
    ));
    assert_eq!(
        cli.replay.follow.as_deref(),
        Some(["game".to_owned()].as_slice())
    );
    assert_eq!(cli.replay.save_dir.as_deref(), Some("/tmp/clips"));
    assert_eq!(cli.replay.notify, Some(false));
    // The recording side's follow is its own field: a replay list must not
    // appear as one.
    assert!(cli.record.follow.is_none());
}

#[test]
fn a_bad_value_costs_only_itself() {
    let cli = load(Some(
        r#"{"cli":{"png-compression":7,"monitor":"DP-1","unheard-of":1,
            "long":{"notches":-1,"max-height":4294967296,"timeout":9},
            "ocr":{"external":"x","engine":"external"},
            "record":{"fps":"fast","encoder":"av1","follow":["game",3]},
            "replay":"all","pin":{"density":2}}}"#,
    ));
    assert!(cli.png_compression.is_none());
    assert_eq!(cli.monitor.as_deref(), Some("DP-1"));
    assert!(cli.long.notches.is_none());
    assert!(cli.long.max_height.is_none());
    assert_eq!(cli.long.timeout, Some(9));
    assert!(cli.ocr.external.is_none());
    assert_eq!(cli.ocr.engine.as_deref(), Some("external"));
    assert!(cli.record.fps.is_none());
    assert_eq!(cli.record.encoder.as_deref(), Some("av1"));
    assert!(cli.record.follow.is_none());
    assert!(cli.replay.window.is_none());
    assert_eq!(cli.pin.density, Some(2));
}

#[test]
fn a_malformed_file_remembers_nothing() {
    for text in [None, Some(""), Some("{\"cli\":"), Some("[1]"), Some("null")] {
        let cli = load(text);
        assert!(cli.png_compression.is_none());
        assert!(cli.monitor.is_none());
        assert!(cli.record.encoder.is_none());
        assert!(cli.replay.window.is_none());
    }
}

#[test]
fn the_sections_of_others_change_nothing() {
    // A number that no reader takes, a key that occurs twice and a value of
    // another kind, all in a section that is not read here.
    for editor in ["1e999", "{\"width\":1e999}", "{\"a\":1,\"a\":2}", "[[],{}]"] {
        let text = format!(
            "{{\"editor\":{editor},\"cli\":{{\"monitor\":\"DP-1\",\"pin\":{{\"density\":2}}}}}}"
        );
        let cli = load(Some(&text));
        assert_eq!(cli.monitor.as_deref(), Some("DP-1"));
        assert_eq!(cli.pin.density, Some(2));
    }
    // What is not JSON at all makes the file malformed, wherever it stands.
    let cli = load(Some(r#"{"editor":{"width":},"cli":{"monitor":"DP-1"}}"#));
    assert!(cli.monitor.is_none());
}

#[test]
fn a_number_that_cannot_be_read_costs_only_itself() {
    let cli = load(Some(
        r#"{"cli":{"png-compression":1e999,"monitor":"DP-1",
            "long":{"notches":1e999,"timeout":9},
            "ocr":{"engine":"external","external":{"timeout":1e999,"stdin":true}},
            "record":{"follow":["game",1e999],"encoder":"av1"}}}"#,
    ));
    assert!(cli.png_compression.is_none());
    assert_eq!(cli.monitor.as_deref(), Some("DP-1"));
    assert!(cli.long.notches.is_none());
    assert_eq!(cli.long.timeout, Some(9));
    assert_eq!(cli.ocr.engine.as_deref(), Some("external"));
    let external = cli.ocr.external.expect("the section is there");
    assert!(external.timeout.is_none());
    assert_eq!(external.stdin, Some(true));
    assert!(cli.record.follow.is_none());
    assert_eq!(cli.record.encoder.as_deref(), Some("av1"));
}

#[test]
fn a_repeated_key_remembers_nothing() {
    // Wherever a key that is known stands twice, nothing of the file counts.
    for text in [
        r#"{"cli":{"monitor":"DP-1"},"cli":{"monitor":"DP-2"}}"#,
        r#"{"cli":{"monitor":"DP-1","monitor":"DP-2","pin":{"density":2}}}"#,
        r#"{"cli":{"monitor":"DP-1","mon\u0069tor":"DP-2","pin":{"density":2}}}"#,
        r#"{"cli":{"monitor":"DP-1","long":{"notches":1,"notches":2}}}"#,
        r#"{"cli":{"monitor":"DP-1","ocr":{"external":{"stdin":true,"stdin":true}}}}"#,
        r#"{"cli":{"monitor":"DP-1","pin":{"density":2},"pin":{}}}"#,
    ] {
        let cli = load(Some(text));
        assert!(cli.monitor.is_none(), "{text}");
        assert!(cli.pin.density.is_none(), "{text}");
        assert!(cli.ocr.external.is_none(), "{text}");
        assert!(cli.long.notches.is_none(), "{text}");
    }
    // A key that nobody knows may stand there as often as it likes.
    let cli = load(Some(
        r#"{"x":1,"cli":{"y":1,"monitor":"DP-1","y":2},"x":[],"editor":{"cli":1,"cli":2}}"#,
    ));
    assert_eq!(cli.monitor.as_deref(), Some("DP-1"));
}

#[test]
fn an_array_states_its_fields_by_place() {
    let cli = load(Some(
        r#"{"cli":["high","DP-1",[3,null,7],[2],["external",[["tess"],true],false]]}"#,
    ));
    assert_eq!(cli.png_compression.as_deref(), Some("high"));
    assert_eq!(cli.monitor.as_deref(), Some("DP-1"));
    assert_eq!(cli.long.notches, Some(3));
    assert!(cli.long.max_height.is_none());
    assert_eq!(cli.long.max_frames, Some(7));
    assert_eq!(cli.pin.density, Some(2));
    assert_eq!(cli.ocr.engine.as_deref(), Some("external"));
    let external = cli.ocr.external.expect("the section is there");
    assert_eq!(external.command.as_deref(), Some(["tess".to_owned()].as_slice()));
    assert_eq!(external.stdin, Some(true));
    assert!(external.timeout.is_none());
    assert_eq!(cli.ocr.notify, Some(false));
    assert!(cli.record.mic.is_none());
    // The file itself, and a section without any item.
    let cli = load(Some(r#" [ {"monitor": "DP-2", "ocr": {"external": [ ] } } ] "#));
    assert_eq!(cli.monitor.as_deref(), Some("DP-2"));
    assert!(cli.ocr.external.is_some());
    // More items than fields are not a section.
    for text in [
        r#"[{"monitor":"DP-1"},1]"#,
        r#"{"cli":{"monitor":"DP-1","pin":[2,3]}}"#,
        r#"{"cli":[null,"DP-1",[],[],[],[],[],[]]}"#,
    ] {
        assert!(load(Some(text)).monitor.is_none(), "{text}");
    }
}

#[test]
fn a_value_is_taken_apart_without_reading_it() {
    let text = "{ \"b\" : {\"x\": 1e999, \"y\": [\"}\", \":,\"]} ,\n \"a\\u0062\":[1],\t\"b\":null }";
    match outline(text) {
        Outline::Object(members) => assert_eq!(
            members,
            vec![
                ("b".to_owned(), "{\"x\": 1e999, \"y\": [\"}\", \":,\"]}".to_owned()),
                ("ab".to_owned(), "[1]".to_owned()),
                ("b".to_owned(), "null".to_owned()),
            ]
        ),
        other => panic!("{other:?}"),
    }
    match outline("[1 , \"two\",[3] ,-4e5]") {
        Outline::Array(items) => assert_eq!(items, vec!["1", "\"two\"", "[3]", "-4e5"]),
        other => panic!("{other:?}"),
    }
    assert!(matches!(outline("{}"), Outline::Object(members) if members.is_empty()));
    assert!(matches!(outline("\"{\""), Outline::Plain));
    assert!(matches!(outline(r#"{"\ud800":1}"#), Outline::Unreadable));
    assert_eq!(sole_value(" {\"a\": 1}\n ").as_deref(), Some("{\"a\": 1}"));
    assert_eq!(sole_value("{} {}"), None);
    assert_eq!(sole_value("{\"a\":}"), None);
    assert_eq!(sole_value(""), None);
}

#[test]
fn values_belong_to_fields_by_key_or_by_place() {
    let keys = vec!["a".to_owned(), "b".to_owned()];
    let member = |key: &str, value: &str| (key.to_owned(), value.to_owned());
    let object = Outline::Object(vec![member("c", "1"), member("b", "2"), member("c", "3")]);
    assert_eq!(assign(&object, &keys), Some(vec![None, Some("2".to_owned())]));
    let twice = Outline::Object(vec![member("b", "1"), member("b", "1")]);
    assert_eq!(assign(&twice, &keys), None);
    let short = Outline::Array(vec!["1".to_owned()]);
    assert_eq!(assign(&short, &keys), Some(vec![Some("1".to_owned()), None]));
    let long = Outline::Array(vec!["1".to_owned(), "2".to_owned(), "3".to_owned()]);
    assert_eq!(assign(&long, &keys), None);
    assert_eq!(assign(&Outline::Plain, &keys), Some(vec![None, None]));
    assert_eq!(assign(&Outline::Unreadable, &keys), None);
}
