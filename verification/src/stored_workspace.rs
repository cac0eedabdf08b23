//! A whole workspace as it is read from its row, and what is written to store it.

use vstd::prelude::*;
use crate::model::{dock_of, DockColumns, DockStructure, DocksModel, SerializedPathList, SerializedWindowBounds};
use crate::moment::Moment;
use crate::pane_tree::{
    acyclic, get_center_pane_group, group_model, insert_models, kept, lemma_pane_tree_read_back, lone_pane,
    read_group, row_models, save_pane_group, stored_rows, tree_rows, PaneGroupModel, PaneTreeInsert, PaneTreeRow, SerializedPaneGroup,
};
use crate::persistence::WorkspaceDb;
use crate::text::{clone_opt, opt_text, same_text};

verus! {

/// A stored workspace.
#[derive(Debug, PartialEq, Eq)]
pub struct SerializedWorkspace {
    pub id: i64,
    pub paths: SerializedPathList,
    /// The paths by which it is grouped with others: those of its main work trees when it was
    /// stored.
    pub identity_paths: Option<SerializedPathList>,
    pub center_group: SerializedPaneGroup,
    pub window_bounds: Option<SerializedWindowBounds>,
    pub centered_layout: bool,
    pub display: Option<String>,
    pub docks: DockStructure,
    pub session_id: Option<String>,
    pub window_id: Option<u64>,
}

/// The row of a workspace.
#[derive(Debug, PartialEq, Eq)]
pub struct StoredRow {
    pub workspace_id: i64,
    pub paths: String,
    pub paths_order: String,
    pub identity_paths: Option<String>,
    pub identity_paths_order: Option<String>,
    pub window_bounds: Option<SerializedWindowBounds>,
    pub display: Option<String>,
    pub centered_layout: Option<bool>,
    pub docks: (DockColumns, DockColumns, DockColumns),
    pub window_id: Option<u64>,
}

#[verifier::ext_equal]
pub struct PathListModel {
    pub paths: Seq<char>,
    pub order: Seq<char>,
}

impl View for SerializedPathList {
    type V = PathListModel;

    open spec fn view(&self) -> PathListModel {
        PathListModel { paths: self.paths@, order: self.order@ }
    }
}

pub open spec fn opt_paths(list: Option<SerializedPathList>) -> Option<PathListModel> {
    match list {
        Some(list) => Some(list@),
        None => None,
    }
}

#[verifier::ext_equal]
pub struct WorkspaceModel {
    pub id: i64,
    pub paths: PathListModel,
    pub identity_paths: Option<PathListModel>,
    pub center_group: PaneGroupModel,
    pub window_bounds: Option<SerializedWindowBounds>,
    pub centered_layout: bool,
    pub display: Option<Seq<char>>,
    pub docks: DocksModel,
    pub session_id: Option<Seq<char>>,
    pub window_id: Option<u64>,
}

impl View for SerializedWorkspace {
    type V = WorkspaceModel;

    open spec fn view(&self) -> WorkspaceModel {
        WorkspaceModel {
            id: self.id,
            paths: self.paths@,
            identity_paths: opt_paths(self.identity_paths),
            center_group: group_model(self.center_group),
            window_bounds: self.window_bounds,
            centered_layout: self.centered_layout,
            display: opt_text(self.display),
            docks: self.docks@,
            session_id: opt_text(self.session_id),
            window_id: self.window_id,
        }
    }
}

pub open spec fn docks_of(columns: (DockColumns, DockColumns, DockColumns)) -> DocksModel {
    DocksModel { left: dock_of(columns.0), right: dock_of(columns.1), bottom: dock_of(columns.2) }
}

/// The workspace that a row and the tree of its panes give. It belongs to no session yet.
pub open spec fn workspace_of(row: StoredRow, center_group: PaneGroupModel) -> WorkspaceModel {
    WorkspaceModel {
        id: row.workspace_id,
        paths: PathListModel { paths: row.paths@, order: row.paths_order@ },
        identity_paths: match row.identity_paths {
            Some(paths) => Some(
                PathListModel {
                    paths: paths@,
                    order: match row.identity_paths_order {
                        Some(order) => order@,
                        None => Seq::empty(),
                    },
                },
            ),
            None => None,
        },
        center_group,
        window_bounds: row.window_bounds,
        centered_layout: row.centered_layout == Some(true),
        display: opt_text(row.display),
        docks: docks_of(row.docks),
        session_id: None,
        window_id: row.window_id,
    }
}

/// The root of a stored tree, or one empty pane; nothing where a row cannot be read.
pub open spec fn center_of(rows: Seq<PaneTreeRow>) -> Option<PaneGroupModel> {
    match read_group(row_models(rows), None) {
        Ok(groups) => if groups.len() > 0 {
            Some(groups[0])
        } else {
            Some(lone_pane())
        },
        Err(_) => None,
    }
}

/// What is written to store a workspace.
#[derive(Debug, PartialEq, Eq)]
pub struct SaveWorkspace {
    /// Paths that no other workspace may keep. A workspace without paths displaces none.
    pub displace: Option<String>,
    pub workspace_id: i64,
    pub paths: SerializedPathList,
    pub identity_paths: Option<SerializedPathList>,
    pub docks: (DockColumns, DockColumns, DockColumns),
    pub session_id: Option<String>,
    pub window_id: Option<u64>,
    /// The rows that replace those of its panes.
    pub pane_rows: Vec<PaneTreeInsert>,
}

fn clone_paths(list: &SerializedPathList) -> (r: SerializedPathList)
    ensures
        r@ == list@,
{
    SerializedPathList { paths: list.paths.clone(), order: list.order.clone() }
}

/// A workspace that is stored for this machine: when it was last used, and the rows of its panes.
#[derive(Debug)]
pub struct DatedWorkspace {
    pub row: StoredRow,
    pub timestamp: Moment,
    pub pane_rows: Vec<PaneTreeRow>,
}

/// The place of the most recent workspace, the first among equals; -1 where there is none.
pub open spec fn most_recent(stored: Seq<DatedWorkspace>) -> int
    decreases stored.len(),
{
    if stored.len() == 0 {
        -1
    } else {
        let before = most_recent(stored.drop_last());
        if before < 0 || stored.last().timestamp.spec_after(stored[before].timestamp) {
            stored.len() - 1
        } else {
            before
        }
    }
}

/// The place of the first workspace with these paths, or the number of workspaces.
pub open spec fn first_with_paths(stored: Seq<DatedWorkspace>, paths: Seq<char>) -> int
    decreases stored.len(),
{
    if stored.len() == 0 || stored[0].row.paths@ == paths {
        0
    } else {
        1 + first_with_paths(stored.drop_first(), paths)
    }
}

/// Where anything is stored, there is a most recent workspace, and no other is more recent.
pub proof fn lemma_most_recent(stored: Seq<DatedWorkspace>)
    requires
        stored.len() > 0,
    ensures
        0 <= most_recent(stored) < stored.len(),
        forall|i: int|
            0 <= i < stored.len() ==> !(#[trigger] stored[i]).timestamp.spec_after(
                stored[most_recent(stored)].timestamp,
            ),
    decreases stored.len(),
{
    let rest = stored.drop_last();
    if rest.len() > 0 {
        lemma_most_recent(rest);
        let before = most_recent(rest);
        assert(stored[before] == rest[before]);
        assert forall|i: int| 0 <= i < stored.len() implies !(#[trigger] stored[i]).timestamp.spec_after(
            stored[most_recent(stored)].timestamp,
        ) by {
            if i < rest.len() {
                assert(stored[i] == rest[i]);
            }
        }
    } else {
        assert(most_recent(rest) == -1);
    }
}

proof fn lemma_first_with_paths(stored: Seq<DatedWorkspace>, paths: Seq<char>, p: int)
    requires
        0 <= p <= stored.len(),
        p < stored.len() ==> stored[p].row.paths@ == paths,
        forall|j: int| 0 <= j < p ==> (#[trigger] stored[j]).row.paths@ != paths,
    ensures
        first_with_paths(stored, paths) == p,
    decreases stored.len(),
{
    if p > 0 {
        let rest = stored.drop_first();
        assert(stored[0].row.paths@ != paths);
        assert forall|j: int| 0 <= j < p - 1 implies (#[trigger] rest[j]).row.paths@ != paths by {
            assert(rest[j] == stored[j + 1]);
        }
        lemma_first_with_paths(rest, paths, p - 1);
    }
}

fn find_most_recent(stored: &Vec<DatedWorkspace>) -> (r: usize)
    ensures
        stored@.len() == 0 ==> r == 0,
        stored@.len() > 0 ==> r == most_recent(stored@) && r < stored@.len(),
{
    let mut best: usize = 0;
    let mut i: usize = 0;
    while i < stored.len()
        invariant
            i <= stored@.len(),
            i == 0 ==> best == 0 && most_recent(stored@.take(i as int)) == -1,
            i > 0 ==> best < i && most_recent(stored@.take(i as int)) == best,
        decreases stored@.len() - i,
    {
        proof {
            assert(stored@.take(i + 1).drop_last() =~= stored@.take(i as int));
            assert(stored@.take(i + 1).last() == stored@[i as int]);
        }
        if i == 0 || stored[i].timestamp.after(stored[best].timestamp) {
            best = i;
        }
        i += 1;
    }
    assert(stored@.take(i as int) =~= stored@);
    best
}

fn find_with_paths(stored: &Vec<DatedWorkspace>, paths: &str) -> (r: usize)
    ensures
        r == first_with_paths(stored@, paths@),
        r <= stored@.len(),
{
    let mut i: usize = 0;
    while i < stored.len() && !same_text(stored[i].row.paths.as_str(), paths)
        invariant
            i <= stored@.len(),
            forall|j: int| 0 <= j < i ==> (#[trigger] stored@[j]).row.paths@ != paths@,
        decreases stored@.len() - i,
    {
        i += 1;
    }
    proof {
        lemma_first_with_paths(stored@, paths@, i as int);
    }
    i
}

impl WorkspaceDb {
    /// The workspace of a row that was found.
    pub fn workspace_for_id(row: Option<StoredRow>, pane_rows: &Vec<PaneTreeRow>) -> (r: Option<SerializedWorkspace>)
        requires
            acyclic(row_models(pane_rows@), None),
        ensures
            match (row, center_of(pane_rows@)) {
                (Some(row), Some(center)) => r is Some && r->0@ == workspace_of(row, center),
                _ => r is None,
            },
    {
        let row = match row {
            Some(row) => row,
            None => return None,
        };
        let ghost given = row;
        let center_group = match get_center_pane_group(pane_rows) {
            Ok(group) => group,
            Err(_) => return None,
        };
        let (left, right, bottom) = row.docks;
        let identity_paths = match row.identity_paths {
            Some(paths) => Some(
                SerializedPathList {
                    paths,
                    order: match row.identity_paths_order {
                        Some(order) => order,
                        None => String::new(),
                    },
                },
            ),
            None => None,
        };
        let workspace = SerializedWorkspace {
            id: row.workspace_id,
            paths: SerializedPathList { paths: row.paths, order: row.paths_order },
            identity_paths,
            center_group,
            window_bounds: row.window_bounds,
            centered_layout: match row.centered_layout {
                Some(centered) => centered,
                None => false,
            },
            display: row.display,
            docks: DockStructure::column(left, right, bottom),
            session_id: None,
            window_id: row.window_id,
        };
        assert(workspace@ =~= workspace_of(given, center_of(pane_rows@)->0));
        Some(workspace)
    }

    /// The workspace of given roots, of those that are stored for this machine: the first that has
    /// their paths or, for no roots, the most recent one. `root_paths` is the text of the roots as
    /// it is stored.
    pub fn workspace_for_roots(root_count: usize, root_paths: &str, stored: Vec<DatedWorkspace>) -> (r: Option<
        SerializedWorkspace,
    >)
        requires
            forall|i: int|
                0 <= i < stored@.len() ==> acyclic(row_models((#[trigger] stored@[i]).pane_rows@), None),
        ensures
            ({
                let place = if root_count == 0 {
                    most_recent(stored@)
                } else {
                    first_with_paths(stored@, root_paths@)
                };
                if 0 <= place < stored@.len() && center_of(stored@[place].pane_rows@) is Some {
                    r is Some && r->0@ == workspace_of(
                        stored@[place].row,
                        center_of(stored@[place].pane_rows@)->0,
                    )
                } else {
                    r is None
                }
            }),
    {
        let mut stored = stored;
        let ghost given = stored@;
        let place = if root_count == 0 {
            find_most_recent(&stored)
        } else {
            find_with_paths(&stored, root_paths)
        };
        if place >= stored.len() {
            return None;
        }
        let found = stored.swap_remove(place);
        assert(found == given[place as int]);
        Self::workspace_for_id(Some(found.row), &found.pane_rows)
    }

    /// What is written to store a workspace.
    pub fn save_workspace(workspace: &SerializedWorkspace) -> (r: SaveWorkspace)
        ensures
            opt_text(r.displace) == if workspace.paths.paths@.len() == 0 {
                None
            } else {
                Some(workspace.paths.paths@)
            },
            saves(r, *workspace),
            opt_text(r.session_id) == opt_text(workspace.session_id),
    {
        let displace = if workspace.paths.paths.as_str().unicode_len() == 0 {
            None
        } else {
            Some(workspace.paths.paths.clone())
        };
        let identity_paths = match &workspace.identity_paths {
            Some(list) => Some(clone_paths(list)),
            None => None,
        };
        SaveWorkspace {
            displace,
            workspace_id: workspace.id,
            paths: clone_paths(&workspace.paths),
            identity_paths,
            docks: workspace.docks.bind(),
            session_id: clone_opt(&workspace.session_id),
            window_id: workspace.window_id,
            pane_rows: save_pane_group(&workspace.center_group),
        }
    }
}

/// What is written for a workspace.
pub open spec fn saves(save: SaveWorkspace, workspace: SerializedWorkspace) -> bool {
    &&& save.workspace_id == workspace.id
    &&& save.paths@ == workspace.paths@
    &&& opt_paths(save.identity_paths) == opt_paths(workspace.identity_paths)
    &&& docks_of(save.docks) == workspace.docks@
    &&& save.window_id == workspace.window_id
    &&& insert_models(save.pane_rows@) == tree_rows(group_model(workspace.center_group), None, 0)
}

/// The row and the pane rows that are found after a workspace has been written.
pub open spec fn found_after(save: SaveWorkspace, row: StoredRow, pane_rows: Seq<PaneTreeRow>) -> bool {
    &&& row.workspace_id == save.workspace_id
    &&& row.paths@ == save.paths.paths@
    &&& row.paths_order@ == save.paths.order@
    &&& opt_text(row.identity_paths) == match save.identity_paths {
        Some(list) => Some(list.paths@),
        None => None,
    }
    &&& opt_text(row.identity_paths_order) == match save.identity_paths {
        Some(list) => Some(list.order@),
        None => None,
    }
    &&& docks_of(row.docks) == docks_of(save.docks)
    &&& row.window_id == save.window_id
    &&& row_models(pane_rows) == stored_rows(insert_models(save.pane_rows@))
}

/// A workspace that was stored is read back: its paths, docks and window as they were, and its panes
/// without what was empty.
pub proof fn lemma_workspace_read_back(
    workspace: SerializedWorkspace,
    save: SaveWorkspace,
    row: StoredRow,
    pane_rows: Seq<PaneTreeRow>,
)
    requires
        saves(save, workspace),
        found_after(save, row, pane_rows),
    ensures
        acyclic(row_models(pane_rows), None),
        center_of(pane_rows) == Some(
            if kept(group_model(workspace.center_group)).len() > 0 {
                kept(group_model(workspace.center_group))[0]
            } else {
                lone_pane()
            },
        ),
        ({
            let read = workspace_of(row, center_of(pane_rows)->0);
            &&& read.id == workspace@.id
            &&& read.paths == workspace@.paths
            &&& read.identity_paths == workspace@.identity_paths
            &&& read.docks == workspace@.docks
            &&& read.window_id == workspace@.window_id
        }),
{
    lemma_pane_tree_read_back(group_model(workspace.center_group));
    let read = workspace_of(row, center_of(pane_rows)->0);
    assert(read.paths =~= workspace@.paths);
    assert(read.identity_paths == workspace@.identity_paths) by {
        if workspace.identity_paths is Some {
            assert(read.identity_paths->0 =~= workspace@.identity_paths->0);
        }
    }
}

/// Of equally recent workspaces the first is taken: every one before the most recent is older.
pub proof fn lemma_most_recent_first(stored: Seq<DatedWorkspace>)
    requires
        stored.len() > 0,
    ensures
        forall|i: int|
            0 <= i < most_recent(stored) ==> stored[most_recent(stored)].timestamp.spec_after(
                (#[trigger] stored[i]).timestamp,
            ),
    decreases stored.len(),
{
    let rest = stored.drop_last();
    lemma_most_recent(stored);
    if rest.len() > 0 {
        lemma_most_recent_first(rest);
        lemma_most_recent(rest);
        let before = most_recent(rest);
        assert(stored[before] == rest[before]);
        assert forall|i: int| 0 <= i < most_recent(stored) implies stored[most_recent(stored)].timestamp.spec_after(
            (#[trigger] stored[i]).timestamp,
        ) by {
            assert(stored[i] == rest[i]);
        }
    } else {
        assert(most_recent(rest) == -1);
    }
}

/// A workspace is found by its paths where one has them, and it is the first that does.
pub proof fn lemma_found_by_paths(stored: Seq<DatedWorkspace>, paths: Seq<char>)
    ensures
        0 <= first_with_paths(stored, paths) <= stored.len(),
        first_with_paths(stored, paths) < stored.len() ==> stored[first_with_paths(stored, paths)].row.paths@ == paths,
        forall|i: int| 0 <= i < first_with_paths(stored, paths) ==> (#[trigger] stored[i]).row.paths@ != paths,
    decreases stored.len(),
{
    if stored.len() > 0 && stored[0].row.paths@ != paths {
        let rest = stored.drop_first();
        lemma_found_by_paths(rest, paths);
        assert forall|i: int| 0 <= i < first_with_paths(stored, paths) implies (#[trigger] stored[i]).row.paths@
            != paths by {
            if i > 0 {
                assert(stored[i] == rest[i - 1]);
            }
        }
    }
}

/// A workspace is read from its row column by column. It belongs to no session, a layout that was
/// never set is not centered, and paths whose order was never stored have none.
pub proof fn lemma_workspace_columns(row: StoredRow, center: PaneGroupModel)
    ensures
        ({
            let read = workspace_of(row, center);
            &&& read.id == row.workspace_id
            &&& read.paths.paths == row.paths@
            &&& read.paths.order == row.paths_order@
            &&& read.identity_paths is Some <==> row.identity_paths is Some
            &&& row.identity_paths is Some ==> read.identity_paths->0.paths == row.identity_paths->0@
            &&& row.identity_paths is Some && row.identity_paths_order is Some ==> read.identity_paths->0.order
                == row.identity_paths_order->0@
            &&& row.identity_paths is Some && row.identity_paths_order is None ==> read.identity_paths->0.order.len()
                == 0
            &&& read.center_group == center
            &&& read.window_bounds == row.window_bounds
            &&& read.centered_layout <==> row.centered_layout == Some(true)
            &&& read.display is Some <==> row.display is Some
            &&& row.display is Some ==> read.display->0 == row.display->0@
            &&& read.session_id is None
            &&& read.window_id == row.window_id
        }),
{
}

/// The docks are read in the order left, right, bottom, each from its own three columns: whether it
/// shows, the panel in front, and whether it fills the window.
pub proof fn lemma_dock_columns(left: DockColumns, right: DockColumns, bottom: DockColumns)
    ensures
        docks_of((left, right, bottom)).left.visible <==> left.0 == Some(true),
        docks_of((left, right, bottom)).right.visible <==> right.0 == Some(true),
        docks_of((left, right, bottom)).bottom.visible <==> bottom.0 == Some(true),
        docks_of((left, right, bottom)).left.zoom <==> left.2 == Some(true),
        docks_of((left, right, bottom)).right.zoom <==> right.2 == Some(true),
        docks_of((left, right, bottom)).bottom.zoom <==> bottom.2 == Some(true),
        docks_of((left, right, bottom)).left.active_panel == opt_text(left.1),
        docks_of((left, right, bottom)).right.active_panel == opt_text(right.1),
        docks_of((left, right, bottom)).bottom.active_panel == opt_text(bottom.1),
{
}

} // verus!
