use som::app_settings::{
    AutosaveSetting, FocusFollowsMouse, FocusFollowsMouseContent, PaneSplitDirectionHorizontal,
    PaneSplitDirectionVertical, TabBarSettings, TabBarSettingsContent, TitleBarSettings, TitleBarSettingsContent,
    WorkspaceSettings, WorkspaceSettingsContent,
};
use som::config::{WindowConfig, WindowPositionConfig, WindowSizeConfig};
use som::keymap::{
    browser_action, initialize_file_watcher, keymap_content_after, keymap_effect, load_default_keymap, open_browser,
    reload_keymaps, show_software_emulation_warning_if_needed, KeymapChange, KeymapFileLoadResult, ReloadStep,
};
use som::launch::{
    cleanup_old_logs, files_not_created_on_launch, init_paths, log_age_limit, log_filter, worker_threads, PathFailure,
};
use som::menus::{app_menus, MenuAction, MenuItem};
use som::model::WindowState;
use som::open_request::{
    derive_path_with_position, derive_paths_with_position, handle_open_request, handle_single_instance, open_error,
    message_bytes, open_options_for_request, parse_url_arg, restores_at_start, retrieve_message_from_pipe,
    send_args_to_instance,
    CliDefaultOpenBehavior, GivenPath, InstanceRole, OpenAnswer, OpenOptions, OpenRequest, OpenRequestError,
    OpenRequestKind, PathWithPosition, RawOpenRequest,
};
use som::quit::{QuitAction, QuitReply, QuitRun};
use som::som_db::SomWindowBounds;
use som::title_bar::{PlatformStyle, ProfileControl, TitleBar, TitleRow, UpdateVersion};
use som::window_options::{build_window_options, quits_on_window_closed, WindowDecorations, WindowPlace, WindowPlan};

fn raw(urls: &[&str]) -> RawOpenRequest {
    RawOpenRequest { urls: urls.iter().map(|s| s.to_string()).collect(), ..RawOpenRequest::default() }
}

#[test]
fn addresses_are_read() {
    let request = OpenRequest::parse(raw(&["file:///a%20b", "zed://file/c", "gopher://x"])).unwrap();
    assert_eq!(request.open_paths, vec!["/a b", "/c"]);
    assert_eq!(request.kind, None);
    let request = OpenRequest::parse(raw(&["zed://settings/fonts"])).unwrap();
    assert_eq!(request.kind, Some(OpenRequestKind::Setting { setting_path: Some("fonts".to_string()) }));
    for url in ["zed://settings", "zed://settings/"] {
        let request = OpenRequest::parse(raw(&[url])).unwrap();
        assert_eq!(request.kind, Some(OpenRequestKind::Setting { setting_path: None }));
    }
    for url in ["zed://", "zed://open", "zed://open/"] {
        let request = OpenRequest::parse(raw(&[url])).unwrap();
        assert!(request.is_focus_app_only());
        assert!(restores_at_start(&Some(request)));
    }
    assert!(restores_at_start(&None));
}

#[test]
fn a_name_that_is_no_text_is_passed_over() {
    let request = OpenRequest::parse(raw(&["file:///a%ff", "file:///b"])).unwrap();
    assert_eq!(request.open_paths, vec!["/b"]);
}

#[test]
fn a_dock_entry_is_a_number() {
    let request = OpenRequest::parse(raw(&["zed-dock-action://3"])).unwrap();
    assert_eq!(request.kind, Some(OpenRequestKind::DockMenuAction { index: 3 }));
    assert_eq!(
        OpenRequest::parse(raw(&["file:///a", "zed-dock-action://x", "zed-dock-action://y"])),
        Err(OpenRequestError::DockActionIndex("x".to_string()))
    );
}

#[test]
fn what_one_instance_sends_the_other_reads() {
    let sent = send_args_to_instance(Some(7), &vec![], None);
    assert_eq!(sent, "zed-dock-action://7");
    let request = OpenRequest::parse(raw(&[&sent])).unwrap();
    assert_eq!(request.kind, Some(OpenRequestKind::DockMenuAction { index: 7 }));
    assert_eq!(send_args_to_instance(None, &vec![], None), "zed://open");
    let args = vec!["rel".to_string()];
    assert_eq!(send_args_to_instance(None, &args, Some("/full/rel")), "file:///full/rel");
    assert_eq!(send_args_to_instance(None, &args, None), "file://rel");
    let args = vec!["https://x".to_string()];
    assert_eq!(send_args_to_instance(None, &args, None), "https://x");
}

#[test]
fn arguments_are_addresses_or_files() {
    assert_eq!(parse_url_arg("x", Some("/full/x")), "file:///full/x");
    assert_eq!(parse_url_arg("ssh://h/x", None), "ssh://h/x");
    assert_eq!(parse_url_arg("zed-link://x", None), "zed-link://x");
    assert_eq!(parse_url_arg("http://x", None), "file://http://x");
}

#[test]
fn requests_are_answered() {
    let with = |kind: Option<OpenRequestKind>, paths: &[&str]| OpenRequest {
        kind,
        open_paths: paths.iter().map(|s| s.to_string()).collect(),
        ..OpenRequest::default()
    };
    assert_eq!(handle_open_request(&with(Some(OpenRequestKind::FocusApp), &[])), OpenAnswer::FocusOrOpen);
    assert_eq!(
        handle_open_request(&with(Some(OpenRequestKind::DockMenuAction { index: 2 }), &[])),
        OpenAnswer::PerformDockAction(2)
    );
    assert_eq!(
        handle_open_request(&with(Some(OpenRequestKind::Setting { setting_path: None }), &[])),
        OpenAnswer::OpenSettings
    );
    assert_eq!(
        handle_open_request(&with(Some(OpenRequestKind::Setting { setting_path: Some("p".to_string()) }), &[])),
        OpenAnswer::OpenSettingsAt("p".to_string())
    );
    assert_eq!(
        handle_open_request(&with(None, &["/a"])),
        OpenAnswer::OpenPaths { in_dev_container: false }
    );
    assert_eq!(handle_open_request(&with(None, &[])), OpenAnswer::Nothing);
}

#[test]
fn only_the_first_instance_goes_on() {
    assert_eq!(handle_single_instance(true, false), (InstanceRole::Listen, true));
    assert_eq!(handle_single_instance(false, false), (InstanceRole::Send, false));
    assert_eq!(handle_single_instance(false, true), (InstanceRole::Stay, false));
}

#[test]
fn a_message_ends_with_a_zero() {
    assert_eq!(message_bytes(&vec![104, 105, 0, 7]), Some(vec![104, 105]));
    assert_eq!(message_bytes(&vec![0]), Some(vec![]));
    assert_eq!(message_bytes(&vec![104]), None);
    assert_eq!(retrieve_message_from_pipe(&vec![104, 105, 0, 7]), Some("hi".to_string()));
    assert_eq!(retrieve_message_from_pipe(&vec![0]), Some(String::new()));
    assert_eq!(retrieve_message_from_pipe(&vec![104]), None);
    assert_eq!(retrieve_message_from_pipe(&vec![]), None);
}

#[test]
fn a_message_is_read_as_it_was_written() {
    let address = "file:///home/zed/gr\u{fc}n \u{1f600}";
    let mut buffer = address.as_bytes().to_vec();
    buffer.resize(128, 0);
    assert_eq!(retrieve_message_from_pipe(&buffer), Some(address.to_string()));
}

#[test]
fn what_is_no_text_in_a_message_is_replaced() {
    assert_eq!(retrieve_message_from_pipe(&vec![104, 255, 105, 0]), Some("h\u{fffd}i".to_string()));
}

#[test]
fn a_file_may_be_named_like_a_position() {
    let given = GivenPath {
        text: "a:3".to_string(),
        parsed: PathWithPosition { path: "a".to_string(), row: Some(3), column: None },
        text_is_file: true,
        canonical_text: Some("/w/a:3".to_string()),
        canonical_parsed: Some("/w/a".to_string()),
    };
    let plain = derive_path_with_position(&given, false);
    assert_eq!(plain, PathWithPosition { path: "/w/a:3".to_string(), row: None, column: None });
    let on_windows = derive_path_with_position(&given, true);
    assert_eq!(on_windows, PathWithPosition { path: "/w/a".to_string(), row: Some(3), column: None });
    assert_eq!(derive_paths_with_position(&vec![given], false), vec![plain]);
}

#[test]
fn paths_open_in_the_first_window() {
    assert_eq!(
        open_options_for_request(CliDefaultOpenBehavior::ExistingWindow, &vec![4, 5], true),
        OpenOptions {
            match_exact: true,
            add_dirs_to_sidebar: true,
            requesting_window: Some(4),
            open_in_dev_container: true
        }
    );
    let options = open_options_for_request(CliDefaultOpenBehavior::NewWindow, &vec![], false);
    assert_eq!((options.add_dirs_to_sidebar, options.requesting_window), (false, None));
    assert_eq!(open_error("\"/a\"", "denied"), "error opening \"/a\": denied");
}

fn window(mode: &str) -> WindowConfig {
    WindowConfig {
        theme: None,
        mode: Some(mode.to_string()),
        padding: None,
        selection: None,
        position: None,
        size: None,
    }
}

fn plan(config: &WindowConfig, remembered: Option<SomWindowBounds>, uuid: Option<&str>) -> WindowPlan {
    build_window_options(
        config,
        remembered,
        &vec![None, Some("d1".to_string())],
        &uuid.map(|s| s.to_string()),
        &None,
        WindowDecorations::Client,
        false,
        false,
    )
}

#[test]
fn the_settings_place_the_window() {
    let mut config = window("windowed");
    let last = SomWindowBounds { x: -1, y: 2, width: 300, height: 200 };
    assert_eq!(
        plan(&config, Some(last), None).bounds,
        Some((WindowState::Windowed, WindowPlace::At { x: -1, y: 2, width: 300, height: 200 }))
    );
    config.position = Some(WindowPositionConfig { top: 10, left: 20 });
    config.size = Some(WindowSizeConfig { width: 640, height: 480 });
    assert_eq!(
        plan(&config, Some(last), None).bounds,
        Some((WindowState::Windowed, WindowPlace::At { x: 20, y: 10, width: 640, height: 480 }))
    );
}

#[test]
fn a_window_without_a_place_lies_inside_its_display() {
    let config = window("windowed");
    let p = plan(&config, None, Some("d1"));
    assert_eq!(p.display, Some(1));
    assert_eq!(p.bounds, Some((WindowState::Windowed, WindowPlace::InsetIn(1))));
    assert_eq!(
        plan(&config, None, Some("gone")).bounds,
        Some((WindowState::Windowed, WindowPlace::At { x: 50, y: 50, width: 1820, height: 980 }))
    );
}

#[test]
fn a_full_window_remembers_a_place_to_go_back_to() {
    assert_eq!(
        plan(&window("maximized"), None, Some("d1")).bounds,
        Some((WindowState::Maximized, WindowPlace::DefaultOf(1)))
    );
    assert_eq!(
        plan(&window("fullscreen"), None, None).bounds,
        Some((WindowState::Fullscreen, WindowPlace::At { x: 0, y: 0, width: 1024, height: 768 }))
    );
    let p = plan(&window("minimized"), None, None);
    assert_eq!((p.bounds, p.start_minimized), (None, true));
}

#[test]
fn the_environment_overrides_the_decorations() {
    let built = |variable: Option<&str>, tabs: bool| {
        build_window_options(
            &window("windowed"),
            None,
            &vec![],
            &None,
            &variable.map(|s| s.to_string()),
            WindowDecorations::Client,
            tabs,
            true,
        )
    };
    assert_eq!(built(Some("server"), false).decorations, WindowDecorations::Server);
    assert_eq!(built(Some("client"), false).decorations, WindowDecorations::Client);
    assert_eq!(built(Some("other"), false).decorations, WindowDecorations::Client);
    assert_eq!(built(None, true).tabbing_identifier, Some("zed".to_string()));
    assert!(built(None, false).start_minimized);
}

#[test]
fn the_last_window_ends_the_program() {
    assert!(quits_on_window_closed(false, false, 0));
    assert!(!quits_on_window_closed(false, true, 1));
    assert!(quits_on_window_closed(true, true, 0));
    assert!(!quits_on_window_closed(true, false, 0));
}

#[test]
fn every_workspace_is_asked_before_the_program_ends() {
    let (mut run, action) = QuitRun::quit(false, true, &vec![Some(false), Some(true)]);
    assert_eq!(action, QuitAction::Confirm { window: 1 });
    assert!(run.is_asking());
    assert_eq!(run.next(QuitReply::Chosen(Some(0))), QuitAction::ListWorkspaces { window: 1 });
    assert!(!run.is_asking());
    assert_eq!(run.next(QuitReply::Count(2)), QuitAction::PrepareToClose { window: 1, workspace: 0 });
    assert_eq!(run.next(QuitReply::MayClose(true)), QuitAction::PrepareToClose { window: 1, workspace: 1 });
    assert_eq!(run.next(QuitReply::MayClose(true)), QuitAction::ListWorkspaces { window: 0 });
    assert_eq!(run.next(QuitReply::Gone), QuitAction::Quit);
}

#[test]
fn one_refusal_keeps_the_program_running() {
    let (mut run, action) = QuitRun::quit(false, false, &vec![Some(true)]);
    assert_eq!(action, QuitAction::ListWorkspaces { window: 0 });
    run.next(QuitReply::Count(1));
    assert_eq!(run.next(QuitReply::MayClose(false)), QuitAction::Stay);
    let (mut run, _) = QuitRun::quit(false, true, &vec![Some(true)]);
    assert_eq!(run.next(QuitReply::Chosen(Some(1))), QuitAction::Stay);
    let (_, action) = QuitRun::quit(true, true, &vec![Some(true)]);
    assert_eq!(action, QuitAction::Stay);
    let (_, action) = QuitRun::quit(false, true, &vec![]);
    assert_eq!(action, QuitAction::Quit);
}

#[test]
fn keymap_errors_are_reported() {
    let effect = keymap_effect(&KeymapFileLoadResult::Success);
    assert_eq!((effect.reload, effect.notification), (true, None));
    let effect = keymap_effect(&KeymapFileLoadResult::SomeFailedToLoad {
        any_bindings: false,
        error_message: "bad".to_string(),
    });
    assert_eq!((effect.reload, effect.notification), (false, Some("Invalid keymap file\nbad".to_string())));
    let effect = keymap_effect(&KeymapFileLoadResult::JsonParseFailure { error: "e".to_string() });
    assert_eq!(
        (effect.reload, effect.notification),
        (false, Some("JSON parse error in keymap file. Bindings not reloaded.\n\ne".to_string()))
    );
}

#[test]
fn the_last_readable_keymap_counts() {
    let old = || "old".to_string();
    assert_eq!(keymap_content_after(old(), KeymapChange::BaseKeymap), "old");
    assert_eq!(keymap_content_after(old(), KeymapChange::KeyboardLayout), "old");
    assert_eq!(keymap_content_after(old(), KeymapChange::UserFile(None)), "old");
    assert_eq!(keymap_content_after(old(), KeymapChange::UserFile(Some("new".to_string()))), "new");
}

#[test]
fn the_settings_have_the_last_word_on_keys() {
    assert_eq!(
        reload_keymaps(),
        vec![
            ReloadStep::Clear,
            ReloadStep::BindDefaults,
            ReloadStep::BindUser,
            ReloadStep::BindSettings,
            ReloadStep::SetMenus
        ]
    );
    let base = || Some("b.json".to_string());
    assert_eq!(load_default_keymap(false, "d.json", base()), vec!["d.json", "b.json"]);
    assert_eq!(load_default_keymap(false, "d.json", None), vec!["d.json"]);
    assert_eq!(load_default_keymap(true, "d.json", base()), Vec::<String>::new());
    assert_eq!(load_default_keymap(false, "", base()), Vec::<String>::new());
}

#[test]
fn addresses_are_opened_in_full() {
    assert_eq!(open_browser("HTTPS://Example.com"), Ok("https://example.com/".to_string()));
    assert_eq!(
        open_browser("no url"),
        Err("Opening this URL failed: no url\n\nError: relative URL without a base".to_string())
    );
    assert_eq!(browser_action("u", Ok("v".to_string())), Ok("v".to_string()));
}

#[test]
fn an_emulated_gpu_is_warned_of_once_it_is_not_allowed() {
    assert_eq!(show_software_emulation_warning_if_needed(false, false, true, "x"), None);
    assert_eq!(show_software_emulation_warning_if_needed(true, true, true, "x"), None);
    let warning = show_software_emulation_warning_if_needed(true, false, false, "llvmpipe").unwrap();
    assert!(warning.message.starts_with("Som uses Vulkan for rendering"));
    assert!(warning.message.contains("software emulated GPU (llvmpipe)"));
    assert_eq!(warning.open_url, "https://zed.dev/docs/linux#zed-fails-to-open-windows");
}

#[test]
fn a_watcher_that_fails_is_explained() {
    assert_eq!(initialize_file_watcher(true, "e").message, "ReadDirectoryChangesW initialization failed: e\n");
    assert_eq!(initialize_file_watcher(false, "e").title, "Could not start inotify");
}

#[test]
fn menus_differ_on_a_mac() {
    let menus = app_menus(false);
    let names: Vec<&str> = menus.iter().map(|m| m.name).collect();
    assert_eq!(names[1..], ["File", "View", "Go", "Window", "Help"]);
    assert!(!menus[0].items.contains(&MenuItem::Services));
    assert!(app_menus(true)[0].items.contains(&MenuItem::Services));
    assert_eq!(
        menus[3].items,
        vec![
            MenuItem::Action { label: "Back", action: MenuAction::GoBack },
            MenuItem::Action { label: "Forward", action: MenuAction::GoForward }
        ]
    );
}

#[test]
fn profiles_have_a_button_or_a_menu() {
    let names = |list: &[&str]| list.iter().map(|s| s.to_string()).collect::<Vec<String>>();
    let none = TitleBar::render_tab_controls(&names(&[]));
    assert!(matches!(none.profiles, ProfileControl::Absent));
    assert_eq!(none.new_tab.tab_name, None);
    let one = TitleBar::render_tab_controls(&names(&["a"]));
    assert!(matches!(one.profiles, ProfileControl::Button(r) if r.tab_name == Some("a".to_string())));
    match TitleBar::render_tab_controls(&names(&["a", "b"])).profiles {
        ProfileControl::Menu(entries) => {
            assert_eq!(entries.len(), 2);
            assert_eq!(entries[1].0, "b");
            assert_eq!(entries[1].1.tab_name, Some("b".to_string()));
        }
        other => panic!("{:?}", other),
    }
}

#[test]
fn the_title_bar_shows_menus_and_notices() {
    assert!(!TitleBar::new(PlatformStyle::Mac, false).application_menu);
    assert!(TitleBar::new(PlatformStyle::Mac, true).application_menu);
    assert!(TitleBar::new(PlatformStyle::Windows, false).application_menu);
    assert_eq!(TitleBar::render(true), vec![TitleRow::Menus, TitleRow::Controls]);
    assert_eq!(TitleBar::render(false), vec![TitleRow::Controls]);
    assert_eq!(TitleBar::render_restricted_mode(false), None);
    assert_eq!(TitleBar::render_restricted_mode(true).unwrap().label, "Restricted Mode");
    assert!(!UpdateVersion::new().show_update_in_menu_bar());
}

#[test]
fn settings_that_are_not_set_have_defaults() {
    let settings = WorkspaceSettings::from_settings(WorkspaceSettingsContent {
        pane_split_direction_horizontal: None,
        pane_split_direction_vertical: None,
        confirm_quit: Some(true),
        show_call_status_icon: None,
        autosave: None,
        restore_on_file_reopen: None,
        use_system_path_prompts: None,
        use_system_prompts: None,
        max_tabs: Some(4),
        resize_all_panels_in_dock: None,
        close_on_file_delete: None,
        close_panel_on_toggle: None,
        use_system_window_tabs: None,
        zoomed_padding: None,
        focus_follows_mouse: Some(FocusFollowsMouseContent { enabled: Some(true), debounce_ms: None }),
    });
    assert!(settings.confirm_quit);
    assert_eq!(settings.max_tabs, Some(4));
    assert_eq!(settings.autosave, AutosaveSetting::Off);
    assert_eq!(settings.pane_split_direction_horizontal, PaneSplitDirectionHorizontal::Up);
    assert_eq!(settings.pane_split_direction_vertical, PaneSplitDirectionVertical::Right);
    assert_eq!(settings.focus_follows_mouse, FocusFollowsMouse { enabled: true, debounce: 250 });
    assert_eq!(FocusFollowsMouse::from_settings(None), FocusFollowsMouse { enabled: false, debounce: 250 });
}

#[test]
fn bars_follow_their_settings() {
    let bar = TabBarSettings::from_settings(TabBarSettingsContent {
        show: Some(false),
        show_nav_history_buttons: Some(false),
        show_tab_bar_buttons: Some(true),
        show_pinned_tabs_in_separate_row: Some(true),
    });
    assert_eq!(
        (bar.show, bar.show_nav_history_buttons, bar.show_tab_bar_buttons, bar.show_pinned_tabs_in_separate_row),
        (false, false, true, true)
    );
    let title = TitleBarSettings::from_settings(TitleBarSettingsContent {
        show_branch_status_icon: Some(true),
        show_onboarding_banner: Some(false),
        show_user_picture: Some(true),
        show_branch_name: Some(false),
        show_project_items: Some(true),
        show_sign_in: Some(false),
        show_user_menu: Some(true),
        show_menus: Some(false),
    });
    assert!(title.show_branch_status_icon && title.show_user_picture && title.show_project_items);
    assert!(!title.show_onboarding_banner && !title.show_sign_in && !title.show_menus);
}

#[test]
fn directories_that_cannot_be_made_are_told_by_kind() {
    let failure = |kind: &str, denied: bool, path: &str| PathFailure {
        kind: kind.to_string(),
        permission_denied: denied,
        path: path.to_string(),
    };
    let groups = init_paths(&vec![
        failure("permission denied", true, "/a"),
        failure("other error", false, "/b"),
        failure("permission denied", true, "/c"),
    ]);
    assert_eq!(groups.len(), 2);
    assert_eq!(groups[0].paths, vec!["/a", "/c"]);
    assert_eq!(
        files_not_created_on_launch(&groups, false),
        "permission denied when creating directories [/a, /c]\n\nother error when creating directory /b"
    );
    assert!(files_not_created_on_launch(&groups, true).contains("/c]\n\nConsider using chown"));
}

#[test]
fn old_logs_are_removed() {
    assert_eq!(log_age_limit(7), Some(604_800));
    assert_eq!(log_age_limit(u64::MAX), None);
    assert!(cleanup_old_logs(Some("log"), Some(5), 6));
    assert!(!cleanup_old_logs(Some("log"), Some(6), 6));
    assert!(!cleanup_old_logs(Some("txt"), Some(5), 6));
    assert!(!cleanup_old_logs(None, Some(5), 6));
    assert!(!cleanup_old_logs(Some("log"), None, 6));
}

#[test]
fn levels_are_written_small() {
    assert_eq!(log_filter("WARN"), Some("warn".to_string()));
    assert_eq!(log_filter(""), None);
}

#[test]
fn half_of_the_machine_works_in_the_background() {
    assert_eq!(worker_threads(Some(5)), 3);
    assert_eq!(worker_threads(Some(8)), 4);
    assert_eq!(worker_threads(Some(usize::MAX)), usize::MAX / 2 + 1);
    assert_eq!(worker_threads(None), 1);
}
