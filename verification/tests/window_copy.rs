use vshot::capture::dmabuf::{DRM_FORMAT_ARGB8888, DRM_FORMAT_XRGB8888};
use vshot::capture::window_copy::{
    match_description, modifiers_from_bytes, pick_format, select, Name, DRM_FORMAT_MOD_INVALID,
};

fn window(app_id: &str, title: &str) -> Name {
    Name {
        app_id: app_id.to_owned(),
        title: title.to_owned(),
        identifier: format!("id-{app_id}-{title}"),
    }
}

#[test]
fn a_filter_takes_the_exact_name_before_a_substring() {
    let firefox = window("firefox", "Mozilla Firefox");
    let vivaldi = window("vivaldi-stable", "firefox documentation");
    let terminal = window("kitty", "~/dev/vshot");
    let names = [&firefox, &vivaldi, &terminal];
    // The exact app id wins even though the other window's title contains
    // the same word.
    assert_eq!(select(&names, "firefox").unwrap(), 0);
    // A substring of either still finds its window.
    assert_eq!(select(&names, "Mozilla").unwrap(), 0);
    assert_eq!(select(&names, "vivaldi").unwrap(), 1);
    assert_eq!(select(&names, "dev/vshot").unwrap(), 2);
    assert_eq!(select(&names, "KITTY").unwrap(), 2);
}

#[test]
fn an_ambiguous_or_missing_filter_says_what_it_saw() {
    let one = window("kitty", "~/dev/vshot");
    let two = window("kitty", "~/dev/vshot/src");
    let names = [&one, &two];
    let error = select(&names, "kitty").unwrap_err().message();
    assert!(error.contains("matches 2 windows"), "{error}");
    // The listing carries both windows, so the user can tell them apart.
    assert!(error.contains("~/dev/vshot/src"), "{error}");
    let error = select(&names, "emacs").unwrap_err().message();
    assert!(error.contains("no window matches"), "{error}");
    assert!(error.contains("kitty"), "{error}");
    // Nothing to go on at all.
    assert!(select(&[], "kitty")
        .unwrap_err()
        .message()
        .contains("no windows at all"));
    assert!(select(&names, "  ")
        .unwrap_err()
        .message()
        .contains("empty"));
}

#[test]
fn neither_space_nor_case_changes_what_a_filter_selects() {
    let firefox = window("firefox", "Mozilla Firefox");
    let vivaldi = window("vivaldi-stable", "firefox documentation");
    let names = [&firefox, &vivaldi];
    for filter in ["firefox", " firefox", "\tfirefox\n", "FireFox ", "  FIREFOX\u{a0}"] {
        assert_eq!(select(&names, filter).unwrap(), 0);
    }
    for filter in ["documentation", " DOCUMENTATION ", "Docu\u{2003}"] {
        assert_eq!(select(&names, filter).unwrap(), 1);
    }
    // What a filter is told stays the same too.
    assert_eq!(
        select(&names, " emacs ").unwrap_err().message(),
        select(&names, "emacs").unwrap_err().message()
    );
    assert!(select(&names, " fire\t").is_err());
    assert!(select(&names, "FIRE").is_err());
}

#[test]
fn a_window_list_entry_is_matched_on_both_labels_then_either() {
    // Same title, different app ids: the pair decides.
    let first = window("kitty", "~/dev");
    let second = window("alacritty", "~/dev");
    let names = [&first, &second];
    assert_eq!(match_description(&names, "alacritty", "~/dev").unwrap(), 1);
    // A title the compositor reports differently still finds the window
    // through the app id.
    assert_eq!(match_description(&names, "kitty", "").unwrap(), 0);
    // And a title alone finds the only window that has it.
    let only = window("kitty", "~/dev/vshot");
    let names = [&only, &second];
    assert_eq!(match_description(&names, "", "~/dev/vshot").unwrap(), 0);
    // Two windows the same on both labels is not something to guess at.
    let twin = window("kitty", "~/dev");
    let names = [&first, &twin];
    let error = match_description(&names, "kitty", "~/dev")
        .unwrap_err()
        .message();
    assert!(error.contains("matches 2 windows"), "{error}");
    // A window the compositor's list knows and the toplevel list does not:
    // neither label of the entry appears in the list at all.
    let names = [&second];
    let error = match_description(&names, "kitty", "")
        .unwrap_err()
        .message();
    assert!(
        error.contains("describes its windows differently"),
        "{error}"
    );
}

#[test]
fn the_format_is_one_the_encoder_can_take() {
    // The compositor's own order does not matter: XRGB8888 is preferred,
    // then ARGB8888, and anything else is not a candidate at all.
    let offered = vec![
        (0x3432_5241, vec![1 << 56, 0]),                         // ARGB8888
        (0x3033_4241, vec![0]),                                  // ABGR2101010, unusable here
        (0x3432_5258, vec![1 << 56, DRM_FORMAT_MOD_INVALID, 0]), // XRGB8888
    ];
    let (fourcc, modifiers) = pick_format(&offered).unwrap();
    assert_eq!(fourcc, DRM_FORMAT_XRGB8888);
    // Linear is the whole list when it is on offer.
    assert_eq!(modifiers, vec![0]);
    // Only ARGB8888 on offer: taken, because the encoder takes it too.
    assert_eq!(
        pick_format(&[(DRM_FORMAT_ARGB8888, vec![0])]).unwrap().0,
        DRM_FORMAT_ARGB8888
    );
    // A format list that only carries unusable formats is a refusal, not a
    // guess.
    assert!(pick_format(&[(0x3033_4241, vec![0])]).is_none());
    assert!(pick_format(&[]).is_none());
    // A format without a single usable modifier cannot be allocated from.
    assert!(pick_format(&[(DRM_FORMAT_XRGB8888, Vec::new())]).is_none());
    assert!(
        pick_format(&[(DRM_FORMAT_XRGB8888, vec![DRM_FORMAT_MOD_INVALID])]).is_none(),
        "a buffer cannot be built on the invalid modifier"
    );
    // Without linear on offer the compositor's own list is what remains,
    // minus the invalid entry.
    let (_, modifiers) =
        pick_format(&[(DRM_FORMAT_XRGB8888, vec![1 << 56, DRM_FORMAT_MOD_INVALID])]).unwrap();
    assert_eq!(modifiers, vec![1 << 56]);
}

#[test]
fn the_modifier_array_is_read_as_64_bit_values() {
    let mut bytes = Vec::new();
    bytes.extend_from_slice(&0u64.to_ne_bytes());
    bytes.extend_from_slice(&(1u64 << 56).to_ne_bytes());
    assert_eq!(modifiers_from_bytes(&bytes), vec![0, 1 << 56]);
    // A truncated array (a compositor bug) drops the partial value rather
    // than reading past it.
    assert_eq!(modifiers_from_bytes(&bytes[..12]), vec![0]);
    assert!(modifiers_from_bytes(&[]).is_empty());
}
