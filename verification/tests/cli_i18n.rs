use vshot::cli_i18n::{localize, localize_with, ArgumentHelp, CommandHelp, Language, Locale};
use vshot::cli_i18n_table::{argument_ids, arguments, command_paths, commands};

fn leaf(name: &str) -> CommandHelp {
    CommandHelp {
        name: name.to_owned(),
        about: Some(format!("English about {name}")),
        after_help: None,
        arguments: Vec::new(),
        subcommands: Vec::new(),
    }
}

/// A small part of the command line, in English.
fn tree() -> CommandHelp {
    let mut region = leaf("region");
    region.after_help = Some("Drag a rectangle.".to_owned());
    region.arguments.push(ArgumentHelp {
        id: "geometry".to_owned(),
        help: Some("A fixed rectangle.".to_owned()),
        long_help: None,
    });
    region.arguments.push(ArgumentHelp {
        id: "brand_new".to_owned(),
        help: Some("Not translated yet.".to_owned()),
        long_help: Some("Not translated yet either.".to_owned()),
    });
    let mut record = leaf("record");
    record.subcommands.push(leaf("mics"));
    let mut root = leaf("vshot");
    root.about = Some("Strict-freeze Wayland screenshot tool".to_owned());
    root.subcommands.push(region);
    root.subcommands.push(record);
    root
}

#[test]
fn every_command_path_resolves() {
    let paths = command_paths();
    for text in commands() {
        assert!(
            paths.contains(&text.path),
            "command path `{}` does not exist in the tree",
            text.path
        );
    }
}

#[test]
fn every_argument_id_exists_somewhere() {
    let ids = argument_ids();
    for text in arguments() {
        assert!(
            ids.contains(&text.id),
            "argument `{}` has a translation but no such argument exists",
            text.id
        );
    }
}

#[test]
fn translating_replaces_about_and_after_help() {
    let mut cmd = tree();
    let english = cmd.about.clone().unwrap();
    localize_with(&mut cmd, Language::Chinese);
    let chinese = cmd.about.clone().unwrap();
    assert_ne!(english, chinese, "the top-level about was not translated");
    assert!(chinese.starts_with("严格冻结式"));
    let region = &cmd.subcommands[0];
    assert!(region.after_help.as_ref().unwrap().contains("放大镜"));
}

#[test]
fn without_the_override_the_english_stays() {
    let mut cmd = tree();
    localize_with(&mut cmd, Language::English);
    assert!(cmd.about.unwrap().starts_with("Strict-freeze"));
    assert_eq!(
        cmd.subcommands[0].after_help.as_deref(),
        Some("Drag a rectangle.")
    );
}

#[test]
fn an_argument_keeps_the_help_it_has_no_translation_for() {
    let mut cmd = tree();
    localize_with(&mut cmd, Language::Chinese);
    let region = &cmd.subcommands[0];
    assert_eq!(
        region.arguments[0].help.as_deref(),
        Some("固定的全局矩形，格式为 `x,y 宽x高`。")
    );
    // Help it did not have it does not get.
    assert_eq!(region.arguments[0].long_help, None);
    assert_eq!(
        region.arguments[1].help.as_deref(),
        Some("Not translated yet.")
    );
    assert_eq!(
        region.arguments[1].long_help.as_deref(),
        Some("Not translated yet either.")
    );
}

#[test]
fn a_nested_command_is_found_by_its_whole_path() {
    let mut cmd = tree();
    localize_with(&mut cmd, Language::Chinese);
    let mics = &cmd.subcommands[1].subcommands[0];
    assert_eq!(mics.name, "mics");
    assert!(mics.about.as_ref().unwrap().starts_with("列出"));
    // There is nothing to add to it, so nothing is put there.
    assert_eq!(mics.after_help, None);
}

fn locale(vshot_lang: Option<&str>, lc_all: Option<&str>, lang: Option<&str>) -> Locale {
    Locale {
        vshot_lang: vshot_lang.map(str::to_owned),
        lc_all: lc_all.map(str::to_owned),
        lc_messages: None,
        lang: lang.map(str::to_owned),
    }
}

#[test]
fn the_programs_own_variable_decides_before_the_locale() {
    assert!(locale(Some("zh_CN"), None, Some("en_US.UTF-8")).prefers_chinese());
    assert!(!locale(Some("en"), Some("zh_CN.UTF-8"), None).prefers_chinese());
    // Case and blanks around it do not matter.
    assert!(locale(Some("  ZH "), None, None).prefers_chinese());
    // A blank one is none.
    assert!(locale(Some("  "), None, Some("zh_TW")).prefers_chinese());
}

#[test]
fn the_first_locale_variable_that_is_set_decides() {
    assert!(locale(None, Some("ZH_CN.UTF-8"), Some("en_US")).prefers_chinese());
    assert!(!locale(None, Some(""), Some("zh_CN")).prefers_chinese());
    assert!(!locale(None, None, None).prefers_chinese());
    let mut messages = locale(None, None, Some("en_US"));
    messages.lc_messages = Some("zh_CN".to_owned());
    assert!(messages.prefers_chinese());
}

#[test]
fn the_help_follows_the_locale() {
    let mut cmd = tree();
    localize(&mut cmd, &locale(None, None, Some("zh_CN.UTF-8")));
    assert!(cmd.about.unwrap().starts_with("严格冻结式"));
    let mut cmd = tree();
    localize(&mut cmd, &locale(None, None, Some("de_DE.UTF-8")));
    assert!(cmd.about.unwrap().starts_with("Strict-freeze"));
}
