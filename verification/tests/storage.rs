use som::breakpoints::{Breakpoint, BreakpointState};
use som::model::{
    bind_axis, clone_items, column_axis, default_expanded, Axis, ColumnError, DockData, DockStructure,
    MultiWorkspaceState, SerializedItem, SerializedPane, SerializedPathList, SerializedProjectGroup,
    SerializedWindowBounds, SerializedWorkspaceLocation, WindowBoundsJson, WindowState,
};
use som::moment::Moment;
use som::pane_tree::{
    check_ids, get_center_pane_group, get_pane_group, save_pane_group, PaneTreeEntry, PaneTreeError, PaneTreeInsert,
    PaneTreeRow, SerializedPaneGroup,
};
use som::persistence::WorkspaceDb;
use som::stored_workspace::{DatedWorkspace, SerializedWorkspace, StoredRow};
use som::trusted::{
    load_trusted_worktrees, load_trusted_worktrees_by_host, save_trusted_worktrees, save_trusted_worktrees_by_host,
    DbTrustedEntry, DbTrustedPaths, RemoteHostLocation, SomTrustedHost, TrustedRow, TrustedWorktreesEntry,
    TrustedWorktreesFile, ROWS_PER_QUERY,
};

fn strings(list: &[&str]) -> Vec<String> {
    list.iter().map(|s| s.to_string()).collect()
}

#[test]
fn an_axis_is_written_and_read() {
    assert_eq!(bind_axis(Axis::Horizontal), "Horizontal");
    assert_eq!(bind_axis(Axis::Vertical), "Vertical");
    assert_eq!(column_axis("Horizontal"), Ok(Axis::Horizontal));
    assert_eq!(column_axis("Vertical"), Ok(Axis::Vertical));
    assert_eq!(column_axis("vertical"), Err(ColumnError::Axis));
}

#[test]
fn window_bounds_are_five_columns() {
    for state in [WindowState::Windowed, WindowState::Maximized, WindowState::Fullscreen] {
        let bounds = SerializedWindowBounds { state, x: -5, y: 10, width: 800, height: 600 };
        let (name, x, y, width, height) = bounds.bind();
        assert_eq!(SerializedWindowBounds::column(&name, x, y, width, height), Ok(bounds));
        assert_eq!(WindowBoundsJson::from_bounds(bounds).into_bounds(), bounds);
    }
    assert_eq!(
        SerializedWindowBounds::column("Fixed", 1, 2, 3, 4),
        Ok(SerializedWindowBounds { state: WindowState::Windowed, x: 1, y: 2, width: 3, height: 4 })
    );
    assert_eq!(SerializedWindowBounds::column("Tiled", 1, 2, 3, 4), Err(ColumnError::WindowState));
}

#[test]
fn a_dock_that_was_never_written_is_closed() {
    assert_eq!(DockData::column((None, None, None)), DockData::default());
    let dock = DockData { visible: true, active_panel: Some("p".to_string()), zoom: false };
    assert_eq!(dock.bind(), (Some(true), Some("p".to_string()), Some(false)));
    assert_eq!(DockData::column(dock.bind()), dock);
    let docks = DockStructure { left: dock.clone(), right: DockData::default(), bottom: dock };
    let (left, right, bottom) = docks.bind();
    assert_eq!(DockStructure::column(left, right, bottom), docks);
}

#[test]
fn a_project_group_keeps_its_paths() {
    assert!(default_expanded());
    let paths = || SerializedPathList { paths: "/a\n/b".to_string(), order: "0,1".to_string() };
    let group = SerializedProjectGroup::from_group(paths(), false);
    assert_eq!(group.location, SerializedWorkspaceLocation::Local);
    assert_eq!(group.into_restored_state(), (paths(), false));
    assert_eq!(MultiWorkspaceState::default().project_groups, vec![]);
    assert_eq!(MultiWorkspaceState::default().active_workspace_id, None);
}

#[test]
fn breakpoints_are_read_from_columns() {
    let read = Breakpoint::column(7, None, Some("x > 1".to_string()), None, 1).unwrap();
    assert_eq!(read.position, 7);
    assert_eq!(read.state, BreakpointState::Disabled);
    assert_eq!(read.bind(), (7, None, Some("x > 1".to_string()), None, 1));
    assert_eq!(Breakpoint::column(-1, None, None, None, 0).unwrap().position, u32::MAX);
    assert_eq!(Breakpoint::column(7, None, None, None, 2), Err(ColumnError::BreakpointState(2)));
    assert_eq!(BreakpointState::column(0), Ok(BreakpointState::Enabled));
    assert_eq!(BreakpointState::Disabled.to_int(), 1);
}

#[test]
fn breakpoints_are_listed_by_file() {
    let at = |row: i32| Breakpoint::column(row, None, None, None, 0).unwrap();
    let rows = Some(vec![("/a".to_string(), at(1)), ("/b".to_string(), at(2)), ("/a".to_string(), at(3))]);
    let files = WorkspaceDb::breakpoints(&rows);
    assert_eq!(files.len(), 2);
    assert_eq!((files[0].path.as_str(), files[1].path.as_str()), ("/a", "/b"));
    let a = &files[0];
    assert_eq!(a.breakpoints.iter().map(|b| b.row).collect::<Vec<u32>>(), vec![1, 3]);
    assert_eq!(a.breakpoints[0].path, "/a");
    assert_eq!(WorkspaceDb::breakpoints(&None), vec![]);
}

fn item(id: u64) -> SerializedItem {
    SerializedItem::new("Terminal", id, id == 1, false)
}

fn pane(ids: &[u64]) -> SerializedPaneGroup {
    SerializedPaneGroup::Pane(SerializedPane::new(ids.iter().map(|id| item(*id)).collect(), true, 0))
}

fn tree() -> SerializedPaneGroup {
    SerializedPaneGroup::Group {
        axis: Axis::Horizontal,
        flexes: Some("[1.0,1.0]".to_string()),
        children: vec![
            pane(&[1]),
            SerializedPaneGroup::Group { axis: Axis::Vertical, flexes: None, children: vec![pane(&[2, 3]), pane(&[4])] },
        ],
    }
}

fn stored(inserts: &Vec<PaneTreeInsert>) -> Vec<PaneTreeRow> {
    inserts
        .iter()
        .enumerate()
        .map(|(place, insert)| {
            let parent = insert.parent.map(|(group, _)| group as i64 + 10);
            let own = Some(place as i64 + 10);
            match &insert.entry {
                PaneTreeEntry::Group { axis, flexes } => PaneTreeRow {
                    parent,
                    group_id: own,
                    axis: Some(*axis),
                    flexes: flexes.clone(),
                    flexes_readable: true,
                    pane_id: None,
                    active: None,
                    pinned_count: None,
                    items: vec![],
                },
                PaneTreeEntry::Pane(pane) => PaneTreeRow {
                    parent,
                    group_id: None,
                    axis: None,
                    flexes: None,
                    flexes_readable: true,
                    pane_id: own,
                    active: Some(pane.active),
                    pinned_count: Some(pane.pinned_count),
                    items: clone_items(&pane.children),
                },
            }
        })
        .collect()
}

#[test]
fn a_pane_tree_is_stored_from_its_root() {
    let inserts = save_pane_group(&tree());
    let parents: Vec<Option<(usize, usize)>> = inserts.iter().map(|i| i.parent).collect();
    assert_eq!(parents, vec![None, Some((0, 0)), Some((0, 1)), Some((2, 0)), Some((2, 1))]);
    let mut rows = stored(&inserts);
    assert!(check_ids(&rows));
    assert_eq!(get_center_pane_group(&rows), Ok(tree()));
    rows[2].parent = rows[2].group_id;
    assert!(!check_ids(&rows));
}

#[test]
fn empty_panes_and_groups_are_not_read() {
    let group = SerializedPaneGroup::Group {
        axis: Axis::Vertical,
        flexes: None,
        children: vec![
            pane(&[]),
            SerializedPaneGroup::Group { axis: Axis::Vertical, flexes: None, children: vec![pane(&[])] },
            pane(&[5]),
        ],
    };
    let rows = stored(&save_pane_group(&group));
    match get_center_pane_group(&rows).unwrap() {
        SerializedPaneGroup::Group { children, .. } => assert_eq!(children, vec![pane(&[5])]),
        other => panic!("{:?}", other),
    }
}

#[test]
fn a_workspace_without_panes_has_an_empty_one() {
    assert_eq!(get_center_pane_group(&vec![]), Ok(pane(&[])));
    assert_eq!(get_pane_group(&vec![], None), Ok(vec![]));
}

#[test]
fn a_row_that_is_nothing_is_refused() {
    let rows = vec![PaneTreeRow {
        parent: None,
        group_id: Some(1),
        axis: None,
        flexes: None,
        flexes_readable: true,
        pane_id: None,
        active: None,
        pinned_count: None,
        items: vec![],
    }];
    assert_eq!(get_pane_group(&rows, None), Err(PaneTreeError::NeitherGroupNorPane));
    assert_eq!(get_pane_group(&rows, Some(4)), Ok(vec![]));
    let mut rows = stored(&save_pane_group(&tree()));
    rows[0].flexes_readable = false;
    assert_eq!(get_pane_group(&rows, None), Err(PaneTreeError::UnreadableSizes));
    rows[0].flexes = None;
    assert!(get_pane_group(&rows, None).is_ok());
}

fn workspace() -> SerializedWorkspace {
    SerializedWorkspace {
        id: 3,
        paths: SerializedPathList { paths: "/a".to_string(), order: "0".to_string() },
        identity_paths: Some(SerializedPathList { paths: "/i".to_string(), order: "0".to_string() }),
        center_group: tree(),
        window_bounds: None,
        centered_layout: false,
        display: None,
        docks: DockStructure::default(),
        session_id: Some("s".to_string()),
        window_id: Some(9),
    }
}

#[test]
fn a_workspace_is_found_as_it_was_saved() {
    let save = WorkspaceDb::save_workspace(&workspace());
    assert_eq!(save.displace, Some("/a".to_string()));
    assert_eq!(save.session_id, Some("s".to_string()));
    let rows = stored(&save.pane_rows);
    let row_for = |workspace_id: i64, paths: &str| StoredRow {
        workspace_id,
        paths: paths.to_string(),
        paths_order: "0".to_string(),
        identity_paths: Some("/i".to_string()),
        identity_paths_order: Some("0".to_string()),
        window_bounds: None,
        display: None,
        centered_layout: None,
        docks: workspace().docks.bind(),
        window_id: Some(9),
    };
    let mut expected = workspace();
    expected.session_id = None;
    assert_eq!(WorkspaceDb::workspace_for_id(Some(row_for(3, "/a")), &rows), Some(expected));
    assert_eq!(WorkspaceDb::workspace_for_id(None, &rows), None);
    let dated = |id: i64, paths: &str, seconds: i64| DatedWorkspace {
        row: row_for(id, paths),
        timestamp: Moment { seconds, nanos: 0 },
        pane_rows: stored(&save.pane_rows),
    };
    let all = || vec![dated(1, "/a", 10), dated(2, "/b", 30), dated(3, "/a", 20), dated(4, "/c", 30)];
    let found = |count: usize, paths: &str| WorkspaceDb::workspace_for_roots(count, paths, all()).map(|w| w.id);
    assert_eq!(found(1, "/a"), Some(1));
    assert_eq!(found(1, "/c"), Some(4));
    assert_eq!(found(1, "/d"), None);
    assert_eq!(found(0, ""), Some(2));
    assert_eq!(WorkspaceDb::workspace_for_roots(0, "", vec![]), None);
}

#[test]
fn a_workspace_without_paths_displaces_none() {
    let mut w = workspace();
    w.paths.paths = String::new();
    assert_eq!(WorkspaceDb::save_workspace(&w).displace, None);
}

fn host(user: Option<&str>, name: &str) -> SomTrustedHost {
    SomTrustedHost { user_name: user.map(|s| s.to_string()), host_identifier: name.to_string() }
}

#[test]
fn trusted_paths_are_read_by_host() {
    let file = TrustedWorktreesFile {
        entries: vec![
            TrustedWorktreesEntry { host: None, paths: strings(&["/a", "/b", "/a"]) },
            TrustedWorktreesEntry { host: Some(host(Some("me"), "h")), paths: strings(&["/c"]) },
            TrustedWorktreesEntry { host: None, paths: strings(&["/d"]) },
        ],
    };
    let trusted = load_trusted_worktrees(file);
    assert_eq!(trusted.entries.len(), 2);
    let local = trusted.entries.iter().find(|e| e.host.is_none()).unwrap();
    assert_eq!(local.paths, strings(&["/d"]));
    let saved = save_trusted_worktrees(trusted);
    let again = load_trusted_worktrees(saved);
    assert_eq!(again.entries.len(), 2);
    assert!(again.entries.iter().any(|e| e.host == Some(host(Some("me"), "h")) && e.paths == strings(&["/c"])));
}

#[test]
fn a_trusted_host_is_the_remote_host() {
    let remote = RemoteHostLocation { user_name: None, host_identifier: "h".to_string() };
    let stored = SomTrustedHost::from_remote_host_location(&remote);
    assert_eq!(stored, host(None, "h"));
    assert_eq!(stored.into_remote_host_location(), remote);
}

#[test]
fn trusted_hosts_go_through_the_file() {
    let trusted = DbTrustedPaths {
        entries: vec![DbTrustedEntry {
            host: Some(RemoteHostLocation { user_name: None, host_identifier: "h".to_string() }),
            paths: strings(&["/a"]),
        }],
    };
    let file = save_trusted_worktrees_by_host(&trusted);
    assert_eq!(file.entries[0].host, Some(host(None, "h")));
    assert_eq!(load_trusted_worktrees_by_host(file), trusted);
}

#[test]
fn a_row_without_a_host_is_of_this_machine() {
    let row = |path: Option<&str>, user: Option<&str>, name: Option<&str>| TrustedRow {
        absolute_path: path.map(|s| s.to_string()),
        user_name: user.map(|s| s.to_string()),
        host_name: name.map(|s| s.to_string()),
    };
    let rows = vec![
        row(Some("/a"), Some("ignored"), None),
        row(Some("/b"), None, None),
        row(None, None, Some("h")),
        row(Some("/c"), Some("me"), Some("h")),
    ];
    let trusted = WorkspaceDb::fetch_trusted_worktrees(&rows);
    assert_eq!(trusted.entries.len(), 2);
    let local = trusted.entries.iter().find(|e| e.host.is_none()).unwrap();
    assert_eq!(local.paths, strings(&["/a", "/b"]));
    let batches = WorkspaceDb::save_trusted_worktrees(&trusted);
    assert_eq!(batches.len(), 1);
    assert_eq!(
        batches[0].query,
        "INSERT INTO trusted_worktrees(absolute_path, user_name, host_name)\nVALUES (?, ?, ?), (?, ?, ?), (?, ?, ?);"
    );
    assert_eq!(WorkspaceDb::fetch_trusted_worktrees(&batches[0].rows), trusted);
}

#[test]
fn many_trusted_paths_take_several_queries() {
    let paths: Vec<String> = (0..ROWS_PER_QUERY + 1).map(|n| format!("/{}", n)).collect();
    let trusted = DbTrustedPaths { entries: vec![DbTrustedEntry { host: None, paths }] };
    let batches = WorkspaceDb::save_trusted_worktrees(&trusted);
    assert_eq!(batches.len(), 2);
    assert_eq!(batches[0].rows.len(), ROWS_PER_QUERY);
    assert_eq!(batches[1].rows.len(), 1);
}
