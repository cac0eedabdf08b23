use som::decimal::{parse_i32, parse_u32, parse_unsigned, parse_usize, signed_text, unsigned_text};
use som::layout::GridPoint;
use som::shell::{CursorShape, Shell};
use som::terminal_view::{
    add_paths_to_terminal, clone_on_split, count_utf16, default_working_directory, first_project_directory, handle_drop,
    max_scroll_lines, on_removed, pane_ids_after_split, paste_action, quoted_paths_text, restored_view, right_button_paste, scroll_delta, scrollbar_visibility,
    selected_text_range, show_character_palette, tab_directory, tab_tooltip_content, ClipboardKind, ContentMode, Directories,
    DropResponse, Dropped, Event, EventContext, HoveredWord, KeyEffects, MaybeNavigationTarget, PaletteAction,
    PasteAction, SavedView, ScrollAction, ScrollDelta, ShowScrollbar, TerminalBlink, TerminalView, ViewEffect, WorkingDirectory,
    Worktree,
};
use som::text::{first_word, join, lines, replace_text, split, split_once, strip_prefix, trim};

fn view() -> TerminalView {
    TerminalView::new_with_title_and_icon(Some(3), None, Some("icon".to_string()), CursorShape::Bar, true)
}

fn context(directory: Option<&str>) -> EventContext {
    EventContext {
        working_directory: directory.map(|s| s.to_string()),
        blinking: TerminalBlink::TerminalControlled,
        system_bell: true,
        focused: true,
        last_hovered_word: None,
    }
}

fn word(id: usize) -> HoveredWord {
    HoveredWord {
        word: "w".to_string(),
        start: GridPoint { line: 0, column: 0 },
        end: GridPoint { line: 0, column: 3 },
        id,
    }
}

#[test]
fn a_title_is_saved_once() {
    let mut v = view();
    assert!(!v.should_serialize());
    assert!(v.set_custom_title(Some("t".to_string())));
    assert!(!v.set_custom_title(Some("t".to_string())));
    assert!(v.should_serialize());
    assert_eq!(v.serialize(true, None), None);
    let saved = SavedView {
        workspace_id: 3,
        working_directory: Some("/a".to_string()),
        custom_title: Some("t".to_string()),
    };
    assert_eq!(v.serialize(false, Some("/a".to_string())), Some(saved));
    assert_eq!(v.serialize(false, None), None);
    assert!(v.set_custom_title(Some("  ".to_string())));
    assert_eq!(v.tab_content_text("bash"), "bash");
    assert_eq!(v.tab_icon(), Some("icon".to_string()));
}

#[test]
fn a_new_view_is_called_what_it_is_given() {
    let v = TerminalView::new(None, CursorShape::Bar, false);
    assert_eq!((v.custom_title(), v.should_serialize(), v.has_bell()), (None, false, false));
    let v = TerminalView::new_with_title(None, Some("t".to_string()), CursorShape::Bar, false);
    assert_eq!((v.custom_title(), v.should_serialize(), v.tab_icon()), (Some("t"), true, None));
}

#[test]
fn what_was_saved_comes_back() {
    let some = |s: &str| Some(s.to_string());
    assert_eq!(restored_view(some("/a"), some("/home"), some("t")), (some("/a"), some("t")));
    assert_eq!(restored_view(some(""), some("/home"), some(" ")), (some("/home"), None));
    assert_eq!(restored_view(None, None, None), (None, None));
}

#[test]
fn an_embedded_view_shows_as_much_as_it_may() {
    let mut v = view();
    assert_eq!(v.content_mode(5, true), ContentMode::Scrollable);
    v.set_embedded_mode(Some(3));
    let inline = |displayed_lines: usize, total_lines: usize| ContentMode::Inline { displayed_lines, total_lines };
    assert_eq!(v.content_mode(5, false), inline(3, 5));
    assert_eq!(v.content_mode(5, true), inline(5, 5));
    assert_eq!(v.content_mode(2, false), inline(2, 2));
    assert_eq!(v.content_mode(1001, true), ContentMode::Scrollable);
    assert!(inline(3, 5).is_limited());
    assert!(!inline(5, 5).is_limited());
    assert!(ContentMode::Scrollable.is_scrollable());
}

#[test]
fn text_is_composed_and_sent() {
    let mut v = view();
    assert!(v.set_marked_text("né🎉".to_string()));
    assert_eq!(v.marked_text_range(), Some((0, 4)));
    assert_eq!(v.replace_text_in_range("né"), Some("né".to_string()));
    assert_eq!(v.marked_text_range(), None);
    assert!(!v.set_marked_text(String::new()));
    assert_eq!(v.commit_text(""), None);
    assert_eq!(count_utf16("a🎉"), 3);
}

#[test]
fn the_cursor_blinks_as_it_is_told() {
    let mut v = view();
    assert!(v.should_show_cursor(true, false, TerminalBlink::Off, false));
    assert!(!v.should_show_cursor(true, false, TerminalBlink::On, false));
    assert!(v.should_show_cursor(true, true, TerminalBlink::On, false));
    assert!(v.should_show_cursor(true, false, TerminalBlink::TerminalControlled, false));
    let effects = v.on_terminal_event(Event::BlinkChanged(true), context(None));
    assert!(matches!(effects[..], [ViewEffect::EnableBlinking]));
    assert!(!v.should_show_cursor(true, false, TerminalBlink::TerminalControlled, false));
    let settings = v.settings_changed(true, TerminalBlink::Off, CursorShape::Block);
    assert_eq!((settings.cursor_shape, settings.blink), (Some(CursorShape::Block), false));
    assert_eq!(v.focus_in(TerminalBlink::On).blink, Some(true));
    assert_eq!(v.focus_out().cursor_shape, CursorShape::Hollow);
}

#[test]
fn a_bell_marks_the_tab_until_a_key() {
    let mut v = view();
    let effects = v.on_terminal_event(Event::Bell, context(None));
    assert!(matches!(effects[..], [ViewEffect::PlaySystemBell, ViewEffect::EmitWakeup]));
    assert!(v.is_dirty(None));
    assert!(!v.is_dirty(Some(false)));
    let effects = KeyEffects { handled: true, redraw: true, emit_wakeup: true, pause_blinking: true };
    assert_eq!(v.key_down(true, true), effects);
    assert!(!v.is_dirty(None));
    v.on_terminal_event(Event::Bell, context(None));
    assert!(matches!(v.clear_bell(), ViewEffect::EmitWakeup));
    assert!(!v.has_bell());
}

#[test]
fn a_new_directory_is_to_be_saved() {
    let mut v = view();
    v.on_terminal_event(Event::TitleChanged, context(Some("/a")));
    assert!(v.should_serialize());
    v.serialize(false, None);
    v.on_terminal_event(Event::TitleChanged, context(Some("/a")));
    assert!(!v.should_serialize());
}

#[test]
fn links_are_shown_while_the_mouse_is_over_them() {
    let mut v = view();
    let over = |id: usize| EventContext { last_hovered_word: Some(word(id)), ..context(None) };
    let target = || Event::NewNavigationTarget(Some(MaybeNavigationTarget::Url("https://x".to_string())));
    assert_eq!(v.on_terminal_event(target(), over(1)).len(), 1);
    assert_eq!(v.on_terminal_event(target(), over(1)).len(), 0);
    assert_eq!(v.link_under_mouse(true, true, &Some(word(1))).unwrap().tooltip, "https://x");
    assert!(v.link_under_mouse(true, true, &Some(word(2))).is_none());
    assert!(v.link_under_mouse(false, true, &Some(word(1))).is_none());
    v.on_terminal_event(Event::NewNavigationTarget(None), over(1));
    assert!(v.hover.is_none());
    let effects = v.on_terminal_event(Event::Open(MaybeNavigationTarget::Url("u".to_string())), context(None));
    assert!(matches!(&effects[..], [ViewEffect::OpenUrl(url)] if url == "u"));
    assert_eq!(v.on_terminal_event(Event::Open(MaybeNavigationTarget::PathLike), context(None)).len(), 0);
    assert_eq!(v.on_terminal_event(Event::Wakeup, context(None)).len(), 4);
}

#[test]
fn the_block_below_the_cursor_scrolls_first() {
    let mut v = view();
    assert_eq!(v.scroll_wheel(0, -10, 30), ScrollAction::Wheel);
    assert_eq!(v.set_block_below_cursor(4, true, 30), ScrollAction::Propagate);
    assert_eq!(v.scroll_top, 0);
    assert_eq!(v.set_block_below_cursor(4, false, 25), ScrollAction::Bottom);
    assert_eq!(v.scroll_top, 25);
    v.scroll_wheel(0, 25, 30);
    assert_eq!(v.scroll_top, 0);
    assert_eq!(v.scroll_wheel(0, -10, 30), ScrollAction::Nothing);
    assert_eq!(v.scroll_top, 10);
    v.scroll_wheel(0, -100, 30);
    assert_eq!(v.scroll_top, 30);
    assert_eq!(v.scroll_line_up(false, 0, 20), ScrollAction::Nothing);
    assert_eq!(v.scroll_top, 10);
    v.scroll_line_up(false, 0, 20);
    assert_eq!(v.scroll_top, 0);
    assert_eq!(v.scroll_line_up(false, 0, 20), ScrollAction::LineUp);
    assert_eq!(v.scroll_line_down(false, 0, 20, 30), ScrollAction::Nothing);
    assert_eq!(v.scroll_line_down(true, 0, 20, 30), ScrollAction::Propagate);
    assert_eq!(v.scroll_top, 20);
    assert_eq!(v.scroll_to_bottom(false, 30), ScrollAction::Bottom);
    assert_eq!(v.scroll_top, 30);
    v.clear_block_below_cursor();
    assert_eq!((v.block_below_cursor, v.scroll_top), (None, 0));
}

#[test]
fn a_page_goes_through_the_block() {
    let mut v = view();
    v.set_block_below_cursor(9, false, 180);
    v.scroll_top = 65;
    assert_eq!(v.scroll_page_up(false, 20, 2), ScrollAction::Nothing);
    assert_eq!(v.scroll_top, 20);
    assert_eq!(v.scroll_page_up(false, 20, 2), ScrollAction::UpBy(1));
    assert_eq!(v.scroll_top, 0);
    assert_eq!(v.scroll_page_up(false, 20, 2), ScrollAction::PageUp);
    assert_eq!(v.scroll_page_down(false, 0, 2, 40), ScrollAction::PageDown);
    assert_eq!(v.scroll_top, 40);
    assert_eq!(v.scroll_to_top(false), ScrollAction::Top);
    v.clear();
    assert_eq!(v.scroll_top, 0);
    assert_eq!(max_scroll_lines(5, 10, 7), 3);
    assert_eq!(max_scroll_lines(5, 10, 2), 0);
    assert_eq!(scroll_delta(3, 5), ScrollDelta::Up(2));
    assert_eq!(scroll_delta(5, 3), ScrollDelta::Down(2));
    assert_eq!(scroll_delta(3, 3), ScrollDelta::Stay);
}

#[test]
fn breadcrumbs_need_something_to_show() {
    let mut v = view();
    assert!(v.breadcrumb_location("~/x"));
    assert!(!v.breadcrumb_location("  "));
    assert!(v.settings_changed(false, TerminalBlink::Off, CursorShape::Bar).update_breadcrumbs);
    assert!(!v.breadcrumb_location("~/x"));
}

#[test]
fn the_clipboard_is_pasted_by_kind() {
    assert_eq!(paste_action(ClipboardKind::Image { empty: false }), PasteAction::ForwardCtrlV);
    assert_eq!(paste_action(ClipboardKind::Image { empty: true }), PasteAction::Text);
    assert_eq!(paste_action(ClipboardKind::Paths), PasteAction::Paths);
    assert_eq!(paste_action(ClipboardKind::Nothing), PasteAction::Text);
    let paths = vec!["/a".to_string(), "/b c".to_string()];
    assert_eq!(add_paths_to_terminal(&paths), " \"/a\" \"/b c\" ");
    assert_eq!(quoted_paths_text(&paths), " /a /b c ");
    assert_eq!(add_paths_to_terminal(&vec!["/a\"b".to_string()]), " \"/a\\\"b\" ");
    assert_eq!(add_paths_to_terminal(&vec![]), " ");
    assert_eq!(right_button_paste(false, Some("t".to_string())), Some("t".to_string()));
    assert_eq!(right_button_paste(true, Some("t".to_string())), None);
}

#[test]
fn what_is_dropped_is_pasted() {
    let response = |paste: bool, taken: bool| DropResponse { paste, taken };
    assert_eq!(handle_drop(false, true, Dropped::ExternalPaths), response(false, false));
    assert_eq!(handle_drop(true, false, Dropped::ExternalPaths), response(false, false));
    assert_eq!(handle_drop(true, true, Dropped::ExternalPaths), response(true, true));
    assert_eq!(handle_drop(true, true, Dropped::Selection { paths: 0 }), response(false, true));
    assert_eq!(handle_drop(true, true, Dropped::Entry { has_path: true }), response(true, true));
    assert_eq!(handle_drop(true, true, Dropped::Other), response(false, false));
}

#[test]
fn only_a_relay_is_told_to_end() {
    let relay = Shell::WithArguments {
        program: "/opt/somsrv".to_string(),
        args: vec!["p".to_string(), "id".to_string(), "bash".to_string()],
        title_override: None,
    };
    assert_eq!(on_removed(&relay), vec![vec![0], vec![13]]);
    assert_eq!(on_removed(&Shell::System), Vec::<Vec<u8>>::new());
}

#[test]
fn a_split_runs_the_same_shell() {
    let relay = Shell::WithArguments {
        program: "/opt/somsrv".to_string(),
        args: vec!["p".to_string(), "id".to_string(), "bash".to_string()],
        title_override: None,
    };
    let (shell, directory) = clone_on_split(&relay, None, Some("/h".to_string()));
    let (shell, id) = shell.unwrap();
    assert!(matches!(&shell, Shell::WithArguments { args, .. } if args[1] == id && args[2] == "bash"));
    assert_eq!(directory, Some("/h".to_string()));
    let (shell, directory) = clone_on_split(&Shell::System, Some("/d".to_string()), Some("/h".to_string()));
    assert!(shell.is_none());
    assert_eq!(directory, Some("/d".to_string()));
}

#[test]
fn a_split_pane_is_remembered_last() {
    assert_eq!(pane_ids_after_split(Some(vec!["a".to_string()]), "b"), vec!["a", "b"]);
    assert_eq!(pane_ids_after_split(None, "b"), vec!["b"]);
}

#[test]
fn a_terminal_starts_where_the_settings_say() {
    let directories = |remote: bool| Directories {
        remote,
        current_file: None,
        current_project: Some("/p".to_string()),
        first_worktree: Some(Worktree {
            path: "/f".to_string(),
            parent: Some("/".to_string()),
            root_is_dir: Some(true),
        }),
        configured: Some("/c".to_string()),
        home: Some("/h".to_string()),
    };
    let start = |setting: WorkingDirectory| default_working_directory(setting, directories(false)).unwrap();
    assert_eq!(start(WorkingDirectory::CurrentFileDirectory), "/p");
    assert_eq!(start(WorkingDirectory::CurrentProjectDirectory), "/p");
    assert_eq!(start(WorkingDirectory::FirstProjectDirectory), "/f");
    assert_eq!(start(WorkingDirectory::AlwaysHome), "/h");
    assert_eq!(start(WorkingDirectory::Always), "/c");
    let remote = |setting: WorkingDirectory| default_working_directory(setting, directories(true));
    assert_eq!(remote(WorkingDirectory::CurrentProjectDirectory), Some("/p".to_string()));
    assert_eq!(remote(WorkingDirectory::AlwaysHome), None);
    assert_eq!(remote(WorkingDirectory::Always), None);
    let home = || Some("/h".to_string());
    assert_eq!(tab_directory(Some("/profile".to_string()), home()), Some("/profile".to_string()));
    assert_eq!(tab_directory(None, home()), home());
}

#[test]
fn a_file_stands_for_its_directory() {
    let tree = |root_is_dir: Option<bool>| Some(Worktree {
        path: "/d/file".to_string(),
        parent: Some("/d".to_string()),
        root_is_dir,
    });
    assert_eq!(first_project_directory(tree(Some(true))), Some("/d/file".to_string()));
    assert_eq!(first_project_directory(tree(Some(false))), Some("/d".to_string()));
    assert_eq!(first_project_directory(tree(None)), None);
    assert_eq!(first_project_directory(None), None);
}

#[test]
fn a_view_follows_its_workspace() {
    let mut view = TerminalView::new(None, CursorShape::Block, true);
    assert_eq!(view.added_to_workspace(false, Some(1)), None);
    assert_eq!(view.added_to_workspace(true, Some(2)), None);
    assert_eq!(view.workspace_id, Some(1));
    assert_eq!(view.added_to_workspace(false, Some(2)), Some((2, 1)));
    assert_eq!(view.added_to_workspace(false, None), None);
    assert_eq!(view.workspace_id, None);
}

#[test]
fn small_questions_have_answers() {
    assert_eq!(show_character_palette(true), PaletteAction::SendKeystroke);
    assert_eq!(show_character_palette(false), PaletteAction::ShowPalette);
    assert_eq!(selected_text_range(false), Some((0, 0)));
    assert_eq!(selected_text_range(true), None);
    assert_eq!(tab_tooltip_content(Some(42)), Some("Process ID (PID): 42".to_string()));
    assert_eq!(tab_tooltip_content(None), None);
    assert_eq!(scrollbar_visibility(None), ShowScrollbar::Auto);
    assert_eq!(scrollbar_visibility(Some(ShowScrollbar::Never)), ShowScrollbar::Never);
}

#[test]
fn numbers_are_read_and_written() {
    assert_eq!(parse_usize("12"), Some(12));
    assert_eq!(parse_usize("+12"), Some(12));
    assert_eq!(parse_usize(""), None);
    assert_eq!(parse_usize("-1"), None);
    assert_eq!(parse_usize("18446744073709551616"), None);
    assert_eq!(parse_u32("4294967295"), Some(u32::MAX));
    assert_eq!(parse_u32("4294967296"), None);
    assert_eq!(parse_i32("-2147483648"), Some(i32::MIN));
    assert_eq!(parse_i32("2147483648"), None);
    assert_eq!(parse_unsigned("256", 255), None);
    assert_eq!(unsigned_text(0), "0");
    assert_eq!(unsigned_text(u64::MAX), "18446744073709551615");
    assert_eq!(signed_text(i64::MIN), "-9223372036854775808");
}

#[test]
fn texts_are_taken_apart() {
    assert_eq!(split("a,b,,", ','), vec!["a", "b", "", ""]);
    assert_eq!(split_once("a=b=c", '='), Some(("a".to_string(), "b=c".to_string())));
    assert_eq!(split_once("abc", '='), None);
    assert_eq!(join(&vec!["a".to_string(), "b".to_string()], ", "), "a, b");
    assert_eq!(lines("a\r\nb\n\nc"), vec!["a", "b", "", "c"]);
    assert_eq!(lines("a\n"), vec!["a"]);
    assert_eq!(trim(" \t a b\u{a0}\n"), "a b");
    assert_eq!(first_word("  one two"), Some("one".to_string()));
    assert_eq!(first_word("  "), None);
    assert_eq!(strip_prefix("abc", "ab"), Some("c".to_string()));
    assert_eq!(replace_text("aXbXX", "X", "--"), "a--b----");
}
