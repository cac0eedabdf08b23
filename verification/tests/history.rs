use som::model::{MultiWorkspaceState, SerializedWorkspaceLocation};
use som::moment::{parse_timestamp, timestamp_or, utc_now, week_old, Moment};
use som::persistence::{
    all_paths_exist_with_a_directory, contains_wsl_path, dedupe_recent_workspaces, delete_unloaded_items,
    RecentWorkspace, WorkspaceDb, WorkspaceRecord, WorkspaceRow,
};
use som::sessions::{read_serialized_multi_workspaces, SessionRow, SessionWorkspace};

fn strings(list: &[&str]) -> Vec<String> {
    list.iter().map(|s| s.to_string()).collect()
}

fn at(seconds: i64) -> Moment {
    Moment { seconds, nanos: 0 }
}

#[test]
fn timestamps_are_read_as_utc() {
    assert_eq!(parse_timestamp("2024-01-02 03:04:05"), at(1_704_164_645));
    assert_eq!(parse_timestamp("1970-01-01 00:00:00"), at(0));
}

#[test]
fn a_timestamp_that_cannot_be_read_is_now() {
    let before = utc_now();
    let read = parse_timestamp("yesterday");
    assert!(!before.after(read));
    assert!(read.after(at(1_700_000_000)));
    assert!(before.seconds >= 0 && before.nanos < 1_000_000_000);
    assert!(read.nanos < 1_000_000_000);
    assert_eq!(timestamp_or(None, at(5)), at(5));
    assert_eq!(timestamp_or(Some((6, 7)), at(5)), Moment { seconds: 6, nanos: 7 });
}

#[test]
fn a_week_is_seven_days_to_the_nanosecond() {
    let now = Moment { seconds: 1_704_164_645, nanos: 5 };
    assert!(week_old(now, Moment { seconds: 1_704_164_645 - 604_800, nanos: 5 }));
    assert!(!week_old(now, Moment { seconds: 1_704_164_645 - 604_800, nanos: 6 }));
    assert!(!week_old(now, Moment { seconds: 1_704_164_645 + 604_800, nanos: 0 }));
    assert!(!week_old(Moment { seconds: i64::MAX, nanos: 0 }, now));
}

#[test]
fn moments_are_ordered() {
    assert!(at(2).after(at(1)));
    assert!(Moment { seconds: 1, nanos: 2 }.after(Moment { seconds: 1, nanos: 1 }));
    assert!(!at(1).after(at(1)));
}

#[test]
fn paths_exist_with_a_directory_among_them() {
    assert!(all_paths_exist_with_a_directory(&vec![Some(false), Some(true)]));
    assert!(!all_paths_exist_with_a_directory(&vec![Some(false)]));
    assert!(!all_paths_exist_with_a_directory(&vec![Some(true), None]));
    assert!(!all_paths_exist_with_a_directory(&vec![]));
}

#[test]
fn subsystem_paths_are_of_windows() {
    assert!(contains_wsl_path(true, &vec![false, true]));
    assert!(!contains_wsl_path(true, &vec![false]));
    assert!(!contains_wsl_path(false, &vec![true]));
}

fn record(id: i64, paths: &[&str], identity: Option<&[&str]>, seconds: i64) -> WorkspaceRecord {
    WorkspaceRecord {
        workspace_id: id,
        paths: strings(paths),
        identity_paths: identity.map(strings),
        session_id: None,
        timestamp: at(seconds),
        has_wsl_path: false,
        on_disk: true,
    }
}

#[test]
fn rows_are_read_into_records() {
    let rows = vec![WorkspaceRow {
        workspace_id: 4,
        paths: strings(&["/a"]),
        identity_paths: None,
        session_id: Some("s".to_string()),
        timestamp: "2024-01-02 03:04:05".to_string(),
        has_wsl_path: true,
        on_disk: false,
    }];
    let records = WorkspaceDb::recent_workspaces(rows);
    assert_eq!(records[0].timestamp, at(1_704_164_645));
    assert_eq!(records[0].session_id, Some("s".to_string()));
    assert!(records[0].has_wsl_path && !records[0].on_disk);
}

#[test]
fn each_project_is_offered_once_with_its_latest_workspace() {
    let records = vec![
        record(1, &["/a"], None, 10),
        record(2, &["/w/a"], Some(&["/a"]), 20),
        record(3, &["/b"], None, 5),
        record(4, &["/a"], None, 15),
    ];
    let all = WorkspaceDb::recent_project_workspaces_ungrouped(&records);
    assert_eq!(all.iter().map(|w| w.workspace_id).collect::<Vec<i64>>(), vec![1, 2, 3, 4]);
    let projects = WorkspaceDb::recent_project_workspaces(&records);
    assert_eq!(projects.iter().map(|w| w.workspace_id).collect::<Vec<i64>>(), vec![2, 3]);
    assert_eq!(projects[0].project_group_key(), strings(&["/a"]));
    assert_eq!(projects[0].paths, strings(&["/w/a"]));
    assert_eq!(WorkspaceDb::last_workspace(&records).unwrap().workspace_id, 2);
    assert_eq!(WorkspaceDb::delete_recent_workspace_group(&records, &projects[0]), vec![1, 2, 4]);
}

#[test]
fn workspaces_that_cannot_be_opened_are_not_offered() {
    let mut gone = record(1, &["/a"], None, 1);
    gone.on_disk = false;
    let mut elsewhere = record(2, &["/b"], None, 1);
    elsewhere.has_wsl_path = true;
    let empty = record(3, &[], None, 1);
    let records = vec![gone, elsewhere, empty];
    assert_eq!(WorkspaceDb::recent_project_workspaces(&records), vec![]);
    assert_eq!(WorkspaceDb::last_workspace(&records), None);
}

#[test]
fn equal_moments_keep_the_first() {
    let recent = |id: i64| RecentWorkspace {
        workspace_id: id,
        location: SerializedWorkspaceLocation::Local,
        paths: strings(&["/a"]),
        identity_paths: strings(&["/a"]),
        timestamp: at(1),
    };
    let kept = dedupe_recent_workspaces(&vec![recent(1), recent(2)]);
    assert_eq!(kept, vec![recent(1)]);
}

#[test]
fn workspaces_are_let_go_a_week_after_they_are_gone() {
    let now = at(1_704_164_645);
    let gone = |id: i64, seconds: i64, session: Option<&str>| {
        let mut r = record(id, &["/a"], None, seconds);
        r.on_disk = false;
        r.session_id = session.map(|s| s.to_string());
        r
    };
    let mut wsl = record(5, &["/w"], None, now.seconds);
    wsl.has_wsl_path = true;
    let records = vec![
        gone(1, now.seconds - 604_800, None),
        gone(2, now.seconds - 604_799, None),
        gone(3, 0, Some("now")),
        gone(4, 0, Some("last")),
        wsl,
        gone(6, 0, Some("older")),
        record(7, &["/a"], None, 0),
    ];
    assert_eq!(WorkspaceDb::garbage_collect_workspaces(&records, "now", Some("last"), now), vec![1, 5, 6]);
    assert_eq!(WorkspaceDb::garbage_collect_workspaces(&records, "now", None, now), vec![1, 4, 5, 6]);
}

#[test]
fn only_the_table_of_connections_may_differ() {
    let old = "CREATE TABLE ssh_connections (id)";
    assert!(WorkspaceDb::should_allow_migration_change(0, old, "CREATE TABLE ssh_connections (id, name)"));
    assert!(!WorkspaceDb::should_allow_migration_change(0, old, "CREATE TABLE others"));
    assert!(!WorkspaceDb::should_allow_migration_change(0, "DROP TABLE x", old));
}

#[test]
fn items_that_are_alive_are_spared() {
    let delete = delete_unloaded_items(vec![4, 5], 9, "terminals");
    assert_eq!(delete.query, "DELETE FROM terminals WHERE workspace_id = ? AND item_id NOT IN (?, ?)");
    assert_eq!((delete.workspace_id, delete.item_ids), (9, vec![4, 5]));
    assert_eq!(
        delete_unloaded_items(vec![], 9, "t").query,
        "DELETE FROM t WHERE workspace_id = ? AND item_id NOT IN ()"
    );
}

fn session_row(id: i64, paths: &[&str], window: Option<u64>, on_disk: bool) -> SessionRow {
    SessionRow { workspace_id: id, paths: strings(paths), window_id: window, on_disk }
}

#[test]
fn the_last_session_comes_back_in_the_order_of_its_windows() {
    let rows = || {
        vec![
            session_row(1, &["/a"], Some(10), true),
            session_row(2, &["/gone"], Some(20), false),
            session_row(3, &[], None, false),
            session_row(4, &["/b"], Some(30), true),
        ]
    };
    let ids = |list: Vec<SessionWorkspace>| list.iter().map(|w| w.workspace_id).collect::<Vec<i64>>();
    assert_eq!(ids(WorkspaceDb::last_session_workspace_locations(rows(), None)), vec![1, 3, 4]);
    assert_eq!(ids(WorkspaceDb::last_session_workspace_locations(rows(), Some(vec![30, 10]))), vec![4, 1, 3]);
    assert_eq!(ids(WorkspaceDb::last_session_workspace_locations(rows(), Some(vec![]))), vec![1, 3, 4]);
}

fn session_workspace(id: i64, window: Option<u64>) -> SessionWorkspace {
    SessionWorkspace { workspace_id: id, location: SerializedWorkspaceLocation::Local, paths: vec![], window_id: window }
}

#[test]
fn workspaces_of_one_window_open_together() {
    let list = vec![
        session_workspace(1, Some(10)),
        session_workspace(2, None),
        session_workspace(3, Some(10)),
        session_workspace(4, None),
        session_workspace(5, Some(20)),
    ];
    let mut state = MultiWorkspaceState::default();
    state.active_workspace_id = Some(3);
    state.sidebar_open = true;
    let mut lost = MultiWorkspaceState::default();
    lost.active_workspace_id = Some(99);
    let windows = read_serialized_multi_workspaces(&list, &vec![(10, state), (20, lost)]);
    let front: Vec<i64> = windows.iter().map(|w| w.active_workspace.workspace_id).collect();
    assert_eq!(front, vec![3, 2, 4, 5]);
    assert!(windows[0].state.sidebar_open);
    assert!(!windows[1].state.sidebar_open);
}
