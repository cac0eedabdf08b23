use som::som_db::{
    format_tab_entry, format_window_bounds, load_session, load_som_db, parse_pair, parse_tab_entry, parse_window_bounds,
    save_som_db, save_window_bounds_to_som_db, SomDbFile, SomDbState, SomDbTab, SomWindowBounds,
};
use uuid::Uuid;

#[test]
fn parses_pair() {
    assert_eq!(parse_pair("3.0"), Some((3, 0)));
    assert_eq!(parse_pair("1.2"), Some((1, 2)));
    assert_eq!(parse_pair("bad"), None);
    assert_eq!(parse_pair("1.x"), None);
}

#[test]
fn default_state_is_single_tab() {
    let s = SomDbState::default();
    assert_eq!(s.tabs, vec![SomDbTab { profile_index: 0, extra_splits: 0, tmux_sessions: None }]);
    assert_eq!(s.active_tab, 0);
    assert_eq!(s.active_pane, 0);
}

#[test]
fn clamps_extra_splits_to_three() {
    let (_, y) = parse_pair("0.9").unwrap();
    assert_eq!(y.min(3), 3);
    assert_eq!(parse_tab_entry("0.9").unwrap().extra_splits, 3);
}

#[test]
fn parses_plain_tab_entry_without_tmux_sessions() {
    let tab = parse_tab_entry("3.2").unwrap();
    assert_eq!(tab.profile_index, 3);
    assert_eq!(tab.extra_splits, 2);
    assert_eq!(tab.tmux_sessions, None);
}

#[test]
fn parses_tab_entry_with_tmux_sessions() {
    let id1 = Uuid::new_v4();
    let id2 = Uuid::new_v4();
    let entry = format!("0.1:{id1},{id2}");
    let tab = parse_tab_entry(&entry).unwrap();
    assert_eq!(tab.profile_index, 0);
    assert_eq!(tab.extra_splits, 1);
    assert_eq!(tab.tmux_sessions, Some(vec![id1.to_string(), id2.to_string()]));
}

#[test]
fn tmux_sessions_length_mismatch_falls_back_to_none() {
    let id1 = Uuid::new_v4();
    let id2 = Uuid::new_v4();
    let entry = format!("0.0:{id1},{id2}");
    let tab = parse_tab_entry(&entry).unwrap();
    assert_eq!(tab.tmux_sessions, None);
}

#[test]
fn tab_entry_formats_and_parses_symmetrically() {
    let id = Uuid::new_v4();
    let tab = SomDbTab { profile_index: 1, extra_splits: 0, tmux_sessions: Some(vec![id.to_string()]) };
    let formatted = format!("{}.{}:{}", tab.profile_index, tab.extra_splits, id);
    let parsed = parse_tab_entry(&formatted).unwrap();
    assert_eq!(parsed, tab);
    assert_eq!(format_tab_entry(&tab), formatted);
}

#[test]
fn a_pane_id_is_read_in_any_case_and_written_in_small_letters() {
    let tab = parse_tab_entry("0.0:67E55044-10B1-426F-9247-BB680E5FE0C8").unwrap();
    assert_eq!(tab.tmux_sessions, Some(vec!["67e55044-10b1-426f-9247-bb680e5fe0c8".to_string()]));
}

#[test]
fn one_bad_pane_id_drops_them_all() {
    let tab = parse_tab_entry("0.1:67e55044-10b1-426f-9247-bb680e5fe0c8,nope").unwrap();
    assert_eq!(tab.tmux_sessions, None);
}

#[test]
fn window_bounds_are_four_numbers() {
    let bounds = SomWindowBounds { x: -5, y: 7, width: 800, height: 600 };
    assert_eq!(format_window_bounds(&bounds), "-5,7,800,600");
    assert_eq!(parse_window_bounds("-5,7,800,600"), Some(bounds));
    assert_eq!(parse_window_bounds("1,2,3"), None);
    assert_eq!(parse_window_bounds("1,2,3,4,5"), None);
    assert_eq!(parse_window_bounds("1,2,-3,4"), None);
}

#[test]
fn malformed_tabs_are_skipped_and_the_active_place_is_clamped() {
    let file = SomDbFile {
        tabs: vec!["0.1".to_string(), "broken".to_string(), "2.0".to_string()],
        active: "9.9".to_string(),
        window_bounds: Some("1,2,3,4".to_string()),
    };
    let state = load_som_db(Some(file));
    assert_eq!(state.tabs.len(), 2);
    assert_eq!(state.active_tab, 1);
    assert_eq!(state.active_pane, 0);
    assert_eq!(state.window_bounds, Some(SomWindowBounds { x: 1, y: 2, width: 3, height: 4 }));
}

#[test]
fn a_missing_or_empty_file_gives_the_first_start() {
    assert_eq!(load_som_db(None), SomDbState::default());
    let file = SomDbFile { tabs: vec!["?".to_string()], active: "0.0".to_string(), window_bounds: None };
    assert_eq!(load_som_db(Some(file)), SomDbState::default());
}

#[test]
fn a_first_start_opens_the_default_profile() {
    let state = load_session(None, 2);
    assert_eq!(state.tabs, vec![SomDbTab { profile_index: 2, extra_splits: 0, tmux_sessions: None }]);
    assert_eq!((state.active_tab, state.active_pane), (0, 0));
    assert_eq!(state.window_bounds, None);
    let broken = SomDbFile { tabs: vec!["?".to_string()], active: "0.0".to_string(), window_bounds: None };
    assert_eq!(load_session(Some(broken), 3), SomDbState::first(3));
    let file = SomDbFile { tabs: vec!["1.0".to_string()], active: "0.0".to_string(), window_bounds: None };
    assert_eq!(load_session(Some(file), 2).tabs[0].profile_index, 1);
}

#[test]
fn what_was_saved_is_loaded() {
    let state = SomDbState {
        tabs: vec![
            SomDbTab { profile_index: 4, extra_splits: 2, tmux_sessions: None },
            SomDbTab {
                profile_index: 0,
                extra_splits: 0,
                tmux_sessions: Some(vec!["67e55044-10b1-426f-9247-bb680e5fe0c8".to_string()]),
            },
        ],
        active_tab: 1,
        active_pane: 0,
        window_bounds: Some(SomWindowBounds { x: 10, y: 20, width: 30, height: 40 }),
    };
    let file = save_som_db(&state);
    assert_eq!(file.tabs, vec!["4.2", "0.0:67e55044-10b1-426f-9247-bb680e5fe0c8"]);
    assert_eq!(file.active, "1.0");
    assert_eq!(file.window_bounds.as_deref(), Some("10,20,30,40"));
    assert_eq!(load_som_db(Some(file)), state);
}

#[test]
fn saving_the_window_leaves_the_tabs_alone() {
    let file = SomDbFile { tabs: vec!["3.1".to_string()], active: "0.1".to_string(), window_bounds: None };
    let bounds = SomWindowBounds { x: 0, y: 0, width: 640, height: 480 };
    let saved = save_window_bounds_to_som_db(Some(file), bounds);
    assert_eq!(saved.tabs, vec!["3.1"]);
    assert_eq!(saved.active, "0.1");
    assert_eq!(saved.window_bounds.as_deref(), Some("0,0,640,480"));
}
