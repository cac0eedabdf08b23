use som::config::{
    som_action_to_gpui, CursorConfig, FeatureValue, FontConfig, LogConfig, PaddingConfig, ScrollConfig, SomConfig,
    TabProfile, WindowConfig, WindowMode, WindowPositionConfig, WindowSizeConfig,
};
use som::keys::{keys_from, overlay_keys};
use som::launch::tab_keystroke;
use som::settings_json::{
    default_index, initial_settings_text, load_embedded, parse_error_message, parse_with_defaults, settings_changed, show_parse_error,
    SettingsChange,
};
use som::text::lines;

fn window(mode: Option<&str>) -> WindowConfig {
    WindowConfig {
        theme: None,
        mode: mode.map(|s| s.to_string()),
        padding: None,
        selection: None,
        position: None,
        size: None,
    }
}

fn entries(list: &[(&str, &str)]) -> Vec<(String, String)> {
    list.iter().map(|(k, v)| (k.to_string(), v.to_string())).collect()
}

fn config(keys: &[(&str, &str)], tabs: Vec<TabProfile>) -> SomConfig {
    SomConfig {
        window: window(None),
        font: FontConfig { face: None, size: None, weight: None, line_height: None, features: vec![] },
        cursor: CursorConfig { shape: None, color: None, blinking: None },
        scroll: ScrollConfig { scroll_multiplier: None, max_scroll_history: None, alternate_scroll: None },
        log: LogConfig { level: "info".to_string(), days: 7 },
        tabs,
        keys: keys_from(&entries(keys)),
    }
}

fn tab(name: &str, shell: Option<&str>, default: bool) -> TabProfile {
    TabProfile {
        name: name.to_string(),
        icon: None,
        shell: shell.map(|s| s.to_string()),
        home: None,
        tmux: false,
        default,
    }
}

#[test]
fn window_modes_have_names() {
    assert_eq!(window(Some("maximized")).mode(), WindowMode::Maximized);
    assert_eq!(window(Some("minimized")).mode(), WindowMode::Minimized);
    assert_eq!(window(Some("fullscreen")).mode(), WindowMode::Fullscreen);
    assert_eq!(window(Some("Maximized")).mode(), WindowMode::Windowed);
    assert_eq!(window(None).mode(), WindowMode::Windowed);
}

#[test]
fn bounds_count_only_where_none_is_zero() {
    let mut w = window(None);
    assert_eq!(w.explicit_windowed_bounds(), None);
    w.position = Some(WindowPositionConfig { top: 1, left: 2 });
    assert_eq!(w.explicit_windowed_bounds(), None);
    w.size = Some(WindowSizeConfig { width: 3, height: 4 });
    assert_eq!(w.explicit_windowed_bounds(), Some((1, 2, 3, 4)));
    w.size = Some(WindowSizeConfig { width: 3, height: 0 });
    assert_eq!(w.explicit_windowed_bounds(), None);
}

#[test]
fn a_broken_file_changes_nothing() {
    let padded = |top: u32| {
        let mut c = config(&[("ctrl-q", "quit")], vec![]);
        c.window.padding = Some(PaddingConfig { top, bottom: 0, left: 0, right: 0 });
        c
    };
    let first = padded(1);
    let mut watch = first.watch();
    assert_eq!((watch.settings.clone(), watch.keys.clone()), (first.apply_settings(), first.apply_keys()));
    for _ in 0..2 {
        match watch.next(Err("line 3".to_string())) {
            SettingsChange::Tell { message } => assert_eq!(message, "Invalid settings.json\nline 3"),
            other => panic!("{:?}", other),
        }
        assert_eq!((watch.padding.top, watch.settings.clone()), (1, first.apply_settings()));
    }
    let mut next = padded(2);
    next.window.theme = Some("Dark".to_string());
    let expected = (next.apply_settings(), next.apply_keys());
    match watch.next(Ok(next)) {
        SettingsChange::Apply { settings, keys, padding } => {
            assert_eq!((settings, keys), expected);
            assert_eq!(padding.top, 2);
        }
        other => panic!("{:?}", other),
    }
    assert_eq!((watch.settings, watch.keys, watch.padding.top), (expected.0, expected.1, 2));
    match settings_changed(Ok(config(&[], vec![]))) {
        SettingsChange::Apply { padding, .. } => {
            assert_eq!(padding, PaddingConfig { top: 0, bottom: 0, left: 0, right: 0 })
        }
        other => panic!("{:?}", other),
    }
}

#[test]
fn a_new_tab_opens_the_default_profile() {
    let tabs = |marked: &[bool]| -> Vec<TabProfile> { marked.iter().map(|d| tab("t", None, *d)).collect() };
    assert_eq!(default_index(&tabs(&[])), 0);
    assert_eq!(default_index(&tabs(&[false, false])), 0);
    assert_eq!(default_index(&tabs(&[false, false, true, false])), 2);
}

#[test]
fn padding_is_none_where_it_is_not_set() {
    let mut w = window(None);
    assert_eq!(w.padding_or_default(), PaddingConfig { top: 0, bottom: 0, left: 0, right: 0 });
    let padding = PaddingConfig { top: 1, bottom: 2, left: 3, right: 4 };
    w.padding = Some(padding);
    assert_eq!(w.padding_or_default(), padding);
}

#[test]
fn actions_of_the_settings_are_known_by_name() {
    assert_eq!(som_action_to_gpui("Copy"), Some(("terminal::Copy", Some("Terminal"), false)));
    assert_eq!(som_action_to_gpui("Quit"), Some(("zed::Quit", None, false)));
    assert_eq!(som_action_to_gpui("ResetFont"), Some(("zed::ResetBufferFontSize", None, true)));
    assert_eq!(som_action_to_gpui("copy"), None);
}

const BUILT_IN: &str = "{ \"context\": \"menu\", \"bindings\": { \"up\": \"menu::SelectPrevious\" } }, \
{ \"context\": \"menu\", \"bindings\": { \"down\": \"menu::SelectNext\" } }, \
{ \"context\": \"menu\", \"bindings\": { \"tab\": \"menu::SelectNext\" } }, \
{ \"context\": \"menu\", \"bindings\": { \"enter\": \"menu::Confirm\" } }, \
{ \"context\": \"menu\", \"bindings\": { \"escape\": \"menu::Cancel\" } }, \
{ \"bindings\": { \"ctrl-=\": [\"zed::IncreaseBufferFontSize\", { \"persist\": false }] } }, \
{ \"bindings\": { \"ctrl--\": [\"zed::DecreaseBufferFontSize\", { \"persist\": false }] } }";

#[test]
fn keys_become_a_keymap() {
    let tabs = vec![tab("a \"x\"", Some("C:\\sh"), false), tab("b", None, true)];
    let c = config(
        &[
            ("ctrl-\\", "Copy"),
            ("f1", "NewTab"),
            ("f2", "NewTab1"),
            ("f3", "NewTab5"),
            ("f4", "NewTab11"),
            ("f5", "Dance"),
            ("f6", "IncreaseFont"),
        ],
        tabs,
    );
    let expected = [
        BUILT_IN,
        "{ \"context\": \"Terminal\", \"bindings\": { \"ctrl-\\\\\": \"terminal::Copy\" } }",
        "{ \"bindings\": { \"f1\": [\"workspace::NewTerminal\", { \"tab_name\": \"b\" }] } }",
        "{ \"bindings\": { \"f2\": [\"workspace::NewTerminal\", { \"tab_name\": \"a \\\"x\\\"\", \"shell\": \"C:\\\\sh\" }] } }",
        "{ \"bindings\": { \"f3\": [\"workspace::NewTerminal\", { \"missing_profile_index\": 5 }] } }",
        "{ \"bindings\": { \"f4\": \"workspace::NewTerminal\" } }",
        "{ \"bindings\": { \"f6\": [\"zed::IncreaseBufferFontSize\", { \"persist\": false }] } }",
    ]
    .join(", ");
    assert_eq!(c.apply_keys(), format!("[{}]", expected));
}

#[test]
fn a_new_tab_without_profiles_is_an_ordinary_one() {
    let c = config(&[("f1", "NewTab")], vec![]);
    assert!(c.apply_keys().ends_with("{ \"bindings\": { \"f1\": \"workspace::NewTerminal\" } }]"));
}

#[test]
fn the_users_keys_lie_on_top_and_keep_their_place() {
    let base = keys_from(&entries(&[("a", "Copy"), ("b", "Paste")]));
    let user = keys_from(&entries(&[("c", "Quit"), ("a", "CloseTab")]));
    let keys = overlay_keys(base, &user);
    let list: Vec<(&str, &str)> = keys.iter().map(|(k, v)| (k.as_str(), v.as_str())).collect();
    assert_eq!(list, vec![("a", "CloseTab"), ("b", "Paste"), ("c", "Quit")]);
}

#[test]
fn the_first_key_of_a_profile_is_its_key() {
    let keys = keys_from(&entries(&[("f1", "NewTab1"), ("f2", "NewTab2"), ("f3", "NewTab2")]));
    assert_eq!(tab_keystroke(&keys, 1), Some("f2".to_string()));
    assert_eq!(tab_keystroke(&keys, 0), Some("f1".to_string()));
    assert_eq!(tab_keystroke(&keys, 2), None);
}

#[test]
fn settings_are_handed_to_the_parts() {
    assert_eq!(
        config(&[], vec![]).apply_settings(),
        "{ \"terminal\": { \"copy_on_select\": true, \"bell\": \"off\" }, \"tab_bar\": { \"show\": false } }"
    );
    let mut c = config(&[], vec![]);
    c.window.theme = Some("Nord".to_string());
    c.window.selection = Some(String::new());
    c.cursor.color = Some("#fff".to_string());
    c.cursor.shape = Some("bar".to_string());
    c.cursor.blinking = Some("sometimes".to_string());
    c.font.face = Some("Mono".to_string());
    c.font.size = Some("14".to_string());
    c.font.line_height = Some("1.5".to_string());
    c.font.features = vec![
        ("liga".to_string(), FeatureValue::Bool(false)),
        ("ss01".to_string(), FeatureValue::Unsigned(3)),
        ("bad!".to_string(), FeatureValue::Bool(true)),
        ("calt".to_string(), FeatureValue::Other),
    ];
    c.scroll.max_scroll_history = Some(5000);
    assert_eq!(
        c.apply_settings(),
        "{ \"theme\": \"Nord\", \"experimental.theme_overrides\": { \"players\": [{ \"cursor\": \"#fff\" }] }, \
\"buffer_font_family\": \"Mono\", \"terminal\": { \"font_family\": \"Mono\", \"font_size\": 14, \
\"line_height\": { \"custom\": 1.5 }, \"font_features\": { \"liga\": 0, \"ss01\": 3 }, \"cursor_shape\": \"bar\", \
\"blinking\": \"terminal_controlled\", \"max_scroll_history_lines\": 5000, \"copy_on_select\": true, \
\"bell\": \"off\" }, \"tab_bar\": { \"show\": false } }"
    );
}

#[test]
fn unreadable_settings_leave_the_defaults() {
    let defaults = || config(&[("a", "Copy")], vec![tab("d", None, false)]);
    let loaded = load_embedded(defaults(), None);
    assert_eq!(loaded.tabs[0].name, "d");
    let loaded = load_embedded(defaults(), Some(config(&[("b", "Paste")], vec![])));
    assert_eq!(loaded.tabs.len(), 0);
    assert_eq!(loaded.keys.len(), 2);
}

#[test]
fn only_one_profile_may_be_the_default() {
    let user = config(&[], vec![tab("a", None, true), tab("b", None, true), tab("c", None, false)]);
    assert_eq!(
        parse_with_defaults(user, config(&[], vec![])).unwrap_err(),
        "settings.json: only one tab profile may have \"default\": true, found 2"
    );
    let user = config(&[], vec![tab("a", None, true), tab("b", None, false)]);
    assert!(parse_with_defaults(user, config(&[], vec![])).is_ok());
}

#[test]
fn errors_show_the_line() {
    assert_eq!(
        parse_error_message(2, 5, "expected value", "{\n   \"a\": ,\n}"),
        "settings.json line 2, column 5: expected value\n  → \"a\": ,"
    );
    assert_eq!(parse_error_message(9, 1, "eof", "{"), "settings.json line 9, column 1: eof\n  → ");
    assert_eq!(show_parse_error("x"), "Invalid settings.json\nx");
}

#[test]
fn the_template_gets_the_systems_shell() {
    assert_eq!(
        initial_settings_text("{ \"shell\": \"$SHELL\" }", "C:\\bin\\\"x\""),
        "{ \"shell\": \"C:\\\\bin\\\\\\\"x\\\"\" }"
    );
}

#[test]
fn logs_are_kept_for_a_week_where_nothing_is_set() {
    let log = LogConfig::default();
    assert_eq!((log.level.as_str(), log.days), ("all", 7));
}

#[test]
fn a_return_belongs_to_the_line_feed_behind_it() {
    assert_eq!(lines("a\r\nb\n"), vec!["a", "b"]);
    assert_eq!(lines("a\nb\r"), vec!["a", "b\r"]);
    assert_eq!(lines("a\r\r\n\n"), vec!["a\r", ""]);
    assert_eq!(lines("\r"), vec!["\r"]);
    assert!(lines("").is_empty());
    for text in ["a\r\nb\n", "a\nb\r", "a\r\r\n\n", "\r", "", "\n", "x\ry"] {
        assert_eq!(lines(text), text.lines().collect::<Vec<&str>>());
    }
}
