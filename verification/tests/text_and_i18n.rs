use libsurfer::help::{
    about_lines, controls_listing, fill_in, hint_text, key_listing, quickstart_lines, start_hints, Icon, ShortcutLabels,
    Symbol,
};
use libsurfer::help::ctrl_to_cmd;
use libsurfer::i18n::{language, parse_language, set_language, startup_language, translate, Language, LanguageState};

#[test]
fn language_names() {
    assert_eq!(parse_language(" ZH-CN "), Some(Language::Chinese));
    assert_eq!(parse_language("chinese"), Some(Language::Chinese));
    assert_eq!(parse_language("En_Us"), Some(Language::English));
    assert_eq!(parse_language("fr"), None);
    assert_eq!(parse_language(""), None);
}

#[test]
fn language_setting_reads_back() {
    let mut st = LanguageState { code: 1 };
    assert_eq!(language(&st), Language::Chinese);
    set_language(&mut st, Language::English);
    assert_eq!(language(&st), Language::English);
    set_language(&mut st, Language::Chinese);
    assert_eq!(language(&st), Language::Chinese);
    assert_eq!(language(&LanguageState { code: 7 }), Language::English);
}

#[test]
fn translation_lookup() {
    let zh = LanguageState { code: 1 };
    let en = LanguageState { code: 0 };
    assert_eq!(translate(&zh, "Close"), "关闭");
    assert_eq!(translate(&zh, "Zoom in"), "放大");
    assert_eq!(translate(&en, "Close"), "Close");
    assert_eq!(translate(&zh, "No such label"), "No such label");
}

#[test]
fn ctrl_becomes_cmd_on_macos() {
    assert_eq!(ctrl_to_cmd("Ctrl+Alt+k/⬆", true), "Cmd+Alt+k/⬆");
    assert_eq!(ctrl_to_cmd("Ctrl+Ctrl", true), "Cmd+Cmd");
    assert_eq!(ctrl_to_cmd("Ctrl+Scroll", false), "Ctrl+Scroll");
    assert_eq!(ctrl_to_cmd("Ctr", true), "Ctr");
}

fn labels() -> ShortcutLabels {
    let s = |x: &str| x.to_string();
    ShortcutLabels {
        show_command_prompt: s("Space"),
        save_state_file: s("Ctrl+S"),
        toggle_hierarchy: s("Alt+B"),
        toggle_toolbar: s("Alt+T"),
        toggle_menu: s("Alt+M"),
        reload_waveform: s("F5"),
        focus_item: s("F"),
        goto_end: s("End"),
        goto_start: s("Home"),
        zoom_in: s("+"),
        zoom_out: s("-"),
        zoom_to_cursor: s("Ctrl+Z"),
        ui_zoom_in: s("Ctrl+="),
        ui_zoom_out: s("Ctrl+Minus"),
        selected_item_toggle: s("Ctrl+Space"),
        undo: s("U"),
        redo: s("Ctrl+R"),
        add_marker: s("M"),
        scroll_up: s("PageUp"),
        scroll_down: s("PageDown"),
        delete_selected: s("Delete"),
        divider_add: s("D"),
    }
}

#[test]
fn key_table_rows() {
    let en = LanguageState { code: 0 };
    let rows = key_listing(&labels(), &en, false, true);
    assert_eq!(rows.len(), 39);
    assert_eq!(rows[0].symbol, Symbol::Glyph('🚀'));
    assert_eq!(rows[0].control, "Space");
    assert_eq!(rows[0].description, "Show command prompt");
    assert_eq!(rows[3].symbol, Symbol::Icon(Icon::SaveFill));
    assert_eq!(rows[3].control, "Ctrl+S");
    assert_eq!(rows[10].description, "UI Zoom in");
    assert_eq!(rows[38].symbol, Symbol::Icon(Icon::FullscreenLine));
    assert_eq!(rows[38].control, "F11");
    // the web build has no UI zoom and no full screen
    let web = key_listing(&labels(), &en, false, false);
    assert_eq!(web.len(), 36);
    assert_eq!(web[10].description, "Scroll up");
    assert_eq!(web[35].description, "Delete focused item");
}

#[test]
fn key_table_on_macos_in_chinese() {
    let zh = LanguageState { code: 1 };
    let rows = key_listing(&labels(), &zh, true, true);
    assert_eq!(rows[0].description, "打开命令行");
    assert_eq!(rows[2].control, "Cmd+Scroll");
    assert_eq!(rows[3].control, "Cmd+S");
    assert_eq!(rows[9].description, "以光标为中心放大");
    let short = controls_listing(&labels(), &zh, true);
    assert_eq!(short.len(), 9);
    assert_eq!(short[1].control, "Horizontal Scroll");
    assert_eq!(short[2].symbol, Symbol::Glyph('↕'));
    assert_eq!(short[2].description, "向下/向上滚动");
    assert_eq!(short[3].control, "Cmd+j, k, Up, Down");
    let en = LanguageState { code: 0 };
    assert!(hint_text(&en).starts_with("Hint: You can repeat keybinds"));
    assert_ne!(hint_text(&zh), hint_text(&en));
}

#[test]
fn startup_language_precedence() {
    assert_eq!(startup_language(Some("en"), Some("zh")), Language::English);
    assert_eq!(startup_language(Some(" ZH-CN "), Some("en")), Language::Chinese);
    assert_eq!(startup_language(Some("klingon"), Some("English")), Language::English);
    assert_eq!(startup_language(None, Some("en_us")), Language::English);
    assert_eq!(startup_language(None, Some("fr")), Language::Chinese);
    assert_eq!(startup_language(None, None), Language::Chinese);
    assert_eq!(language(&LanguageState::default()), Language::Chinese);
}

#[test]
fn placeholders_are_filled_once() {
    assert_eq!(fill_in("Or press {} and type load_url", "Space"), "Or press Space and type load_url");
    assert_eq!(fill_in("{} and {}", "a"), "a and {}");
    assert_eq!(fill_in("no placeholder", "a"), "no placeholder");
    assert_eq!(fill_in("{", "a"), "{");
    assert_eq!(fill_in("x{}", "yz"), "xyz");
}

#[test]
fn help_windows_text() {
    let en = LanguageState { code: 0 };
    let zh = LanguageState { code: 1 };
    let hints = start_hints(&en, "Space", true);
    assert_eq!(hints.len(), 3);
    assert_eq!(hints[1].text, "Or press Space and type load_file or load_url");
    assert_eq!(start_hints(&en, "Space", false)[1].text, "Or press Space and type load_url");
    assert_eq!(start_hints(&zh, "空格", true)[1].text, "或按 空格 并输入 load_file 或 load_url");
    let quick = quickstart_lines(&en, "Space", true);
    assert_eq!(quick.len(), 13);
    assert!(quick[0].heading && quick[0].text == "Controls");
    assert_eq!(quick[2].text, "🚀 Press Space to open the command palette");
    assert!(!quick[2].heading);
    assert_eq!(quick[10].text, "- typing load_url or load_file in the command palette");
    assert_eq!(quickstart_lines(&en, "Space", false)[10].text, "- typing load_url in the command palette");
    assert_eq!(quickstart_lines(&zh, "Space", true)[0].text, "控制方式");
    let about = about_lines(&zh, "0.1.0", "v1-2-g3", "2024-01-01");
    assert_eq!(about[0].text, "Cargo 版本：0.1.0");
    assert_eq!(about[1].text, "Git 版本：v1-2-g3");
    assert_eq!(about[2].text, "构建日期：2024-01-01");
}
