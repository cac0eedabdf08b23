//! The pieces of a workspace as they are stored.

use vstd::prelude::*;
use crate::text::{clone_opt, opt_text, same_text};

verus! {

/// Where a stored workspace is opened: on this machine.
#[derive(Debug, Clone, Copy, PartialEq, Eq, Structural)]
pub enum SerializedWorkspaceLocation {
    Local,
}

/// The direction in which a group lays out its panes.
#[derive(Debug, Clone, Copy, PartialEq, Eq, Structural)]
pub enum Axis {
    Horizontal,
    Vertical,
}

/// How an axis is written.
pub open spec fn axis_text(axis: Axis) -> Seq<char> {
    match axis {
        Axis::Horizontal => "Horizontal"@,
        Axis::Vertical => "Vertical"@,
    }
}

/// What an axis reads as.
pub open spec fn axis_of(s: Seq<char>) -> Option<Axis> {
    if s == "Horizontal"@ {
        Some(Axis::Horizontal)
    } else if s == "Vertical"@ {
        Some(Axis::Vertical)
    } else {
        None
    }
}

/// A stored text that is none of the words its column may hold.
#[derive(Debug, Clone, Copy, PartialEq, Eq, Structural)]
pub enum ColumnError {
    /// "Stored serialized item kind is incorrect"
    Axis,
    /// "Window State did not have a valid string"
    WindowState,
    /// "Invalid BreakpointState discriminant {n}"
    BreakpointState(i64),
}

/// Writes an axis.
pub fn bind_axis(axis: Axis) -> (r: String)
    ensures
        r@ == axis_text(axis),
{
    match axis {
        Axis::Horizontal => "Horizontal".to_owned(),
        Axis::Vertical => "Vertical".to_owned(),
    }
}

/// Reads an axis.
pub fn column_axis(text: &str) -> (r: Result<Axis, ColumnError>)
    ensures
        match axis_of(text@) {
            Some(axis) => r == Ok::<Axis, ColumnError>(axis),
            None => r == Err::<Axis, ColumnError>(ColumnError::Axis),
        },
{
    if same_text(text, "Horizontal") {
        Ok(Axis::Horizontal)
    } else if same_text(text, "Vertical") {
        Ok(Axis::Vertical)
    } else {
        Err(ColumnError::Axis)
    }
}

/// An axis that was written reads as itself.
pub proof fn lemma_axis_round_trip(axis: Axis)
    ensures
        axis_of(axis_text(axis)) == Some(axis),
{
    reveal_strlit("Horizontal");
    reveal_strlit("Vertical");
    assert("Horizontal"@[0] != "Vertical"@[0]);
}

/// Whether a window fills a part of the screen, all of it, or covers everything else.
#[derive(Debug, Clone, Copy, PartialEq, Eq, Structural)]
pub enum WindowState {
    Windowed,
    Maximized,
    Fullscreen,
}

/// How the state of a window is written.
pub open spec fn window_state_text(state: WindowState) -> Seq<char> {
    match state {
        WindowState::Windowed => "Windowed"@,
        WindowState::Maximized => "Maximized"@,
        WindowState::Fullscreen => "FullScreen"@,
    }
}

/// What the state of a window reads as. A window of fixed size is read as a windowed one.
pub open spec fn window_state_of(s: Seq<char>) -> Option<WindowState> {
    if s == "Windowed"@ || s == "Fixed"@ {
        Some(WindowState::Windowed)
    } else if s == "Maximized"@ {
        Some(WindowState::Maximized)
    } else if s == "FullScreen"@ {
        Some(WindowState::Fullscreen)
    } else {
        None
    }
}

/// A window's state and its place and size in whole pixels.
#[derive(Debug, Clone, Copy, PartialEq, Eq, Structural)]
pub struct SerializedWindowBounds {
    pub state: WindowState,
    pub x: i32,
    pub y: i32,
    pub width: i32,
    pub height: i32,
}

impl SerializedWindowBounds {
    /// The word and the four numbers that are stored.
    pub fn bind(&self) -> (r: (String, i32, i32, i32, i32))
        ensures
            r.0@ == window_state_text(self.state),
            (r.1, r.2, r.3, r.4) == (self.x, self.y, self.width, self.height),
    {
        let word = match self.state {
            WindowState::Windowed => "Windowed".to_owned(),
            WindowState::Maximized => "Maximized".to_owned(),
            WindowState::Fullscreen => "FullScreen".to_owned(),
        };
        (word, self.x, self.y, self.width, self.height)
    }

    /// Reads the stored word and numbers.
    pub fn column(state: &str, x: i32, y: i32, width: i32, height: i32) -> (r: Result<
        SerializedWindowBounds,
        ColumnError,
    >)
        ensures
            match window_state_of(state@) {
                Some(state) => r == Ok::<SerializedWindowBounds, ColumnError>(
                    SerializedWindowBounds { state, x, y, width, height },
                ),
                None => r == Err::<SerializedWindowBounds, ColumnError>(ColumnError::WindowState),
            },
    {
        let state = if same_text(state, "Windowed") || same_text(state, "Fixed") {
            WindowState::Windowed
        } else if same_text(state, "Maximized") {
            WindowState::Maximized
        } else if same_text(state, "FullScreen") {
            WindowState::Fullscreen
        } else {
            return Err(ColumnError::WindowState);
        };
        Ok(SerializedWindowBounds { state, x, y, width, height })
    }
}

/// The state of a window that was written reads as itself.
pub proof fn lemma_window_state_round_trip(state: WindowState)
    ensures
        window_state_of(window_state_text(state)) == Some(state),
{
    reveal_strlit("Windowed");
    reveal_strlit("Fixed");
    reveal_strlit("Maximized");
    reveal_strlit("FullScreen");
    assert("Windowed"@[0] == 'W' && "Maximized"@[0] == 'M' && "FullScreen"@[1] == 'u');
    assert("Fixed"@[0] == 'F' && "Fixed"@[1] == 'i');
}

/// The place of a window in the form in which it is kept for the next new window.
#[derive(Debug, Clone, Copy, PartialEq, Eq, Structural)]
pub enum WindowBoundsJson {
    Windowed { x: i32, y: i32, width: i32, height: i32 },
    Maximized { x: i32, y: i32, width: i32, height: i32 },
    Fullscreen { x: i32, y: i32, width: i32, height: i32 },
}

/// The bounds that a kept form stands for.
pub open spec fn kept_bounds(kept: WindowBoundsJson) -> SerializedWindowBounds {
    match kept {
        WindowBoundsJson::Windowed { x, y, width, height } => SerializedWindowBounds {
            state: WindowState::Windowed,
            x,
            y,
            width,
            height,
        },
        WindowBoundsJson::Maximized { x, y, width, height } => SerializedWindowBounds {
            state: WindowState::Maximized,
            x,
            y,
            width,
            height,
        },
        WindowBoundsJson::Fullscreen { x, y, width, height } => SerializedWindowBounds {
            state: WindowState::Fullscreen,
            x,
            y,
            width,
            height,
        },
    }
}

impl WindowBoundsJson {
    /// The form in which bounds are kept: it stands for the very same bounds.
    pub fn from_bounds(bounds: SerializedWindowBounds) -> (r: WindowBoundsJson)
        ensures
            kept_bounds(r) == bounds,
    {
        let SerializedWindowBounds { state, x, y, width, height } = bounds;
        match state {
            WindowState::Windowed => WindowBoundsJson::Windowed { x, y, width, height },
            WindowState::Maximized => WindowBoundsJson::Maximized { x, y, width, height },
            WindowState::Fullscreen => WindowBoundsJson::Fullscreen { x, y, width, height },
        }
    }

    /// The bounds that this form stands for.
    pub fn into_bounds(self) -> (r: SerializedWindowBounds)
        ensures
            r == kept_bounds(self),
    {
        match self {
            WindowBoundsJson::Windowed { x, y, width, height } => SerializedWindowBounds {
                state: WindowState::Windowed,
                x,
                y,
                width,
                height,
            },
            WindowBoundsJson::Maximized { x, y, width, height } => SerializedWindowBounds {
                state: WindowState::Maximized,
                x,
                y,
                width,
                height,
            },
            WindowBoundsJson::Fullscreen { x, y, width, height } => SerializedWindowBounds {
                state: WindowState::Fullscreen,
                x,
                y,
                width,
                height,
            },
        }
    }
}

/// One dock: whether it shows, which panel is in front, and whether it fills the window.
#[derive(Debug, PartialEq, Eq)]
pub struct DockData {
    pub visible: bool,
    pub active_panel: Option<String>,
    pub zoom: bool,
}

/// The three docks of a workspace.
#[derive(Debug, PartialEq, Eq)]
pub struct DockStructure {
    pub left: DockData,
    pub right: DockData,
    pub bottom: DockData,
}

#[verifier::ext_equal]
pub struct DockModel {
    pub visible: bool,
    pub active_panel: Option<Seq<char>>,
    pub zoom: bool,
}

#[verifier::ext_equal]
pub struct DocksModel {
    pub left: DockModel,
    pub right: DockModel,
    pub bottom: DockModel,
}

impl View for DockData {
    type V = DockModel;

    open spec fn view(&self) -> DockModel {
        DockModel { visible: self.visible, active_panel: opt_text(self.active_panel), zoom: self.zoom }
    }
}

impl View for DockStructure {
    type V = DocksModel;

    open spec fn view(&self) -> DocksModel {
        DocksModel { left: self.left@, right: self.right@, bottom: self.bottom@ }
    }
}

/// A dock that is closed and empty.
pub open spec fn closed_dock() -> DockModel {
    DockModel { visible: false, active_panel: None, zoom: false }
}

impl Default for DockData {
    fn default() -> (r: Self)
        ensures
            r@ == closed_dock(),
    {
        DockData { visible: false, active_panel: None, zoom: false }
    }
}

impl Default for DockStructure {
    fn default() -> (r: Self)
        ensures
            r@ == (DocksModel { left: closed_dock(), right: closed_dock(), bottom: closed_dock() }),
    {
        DockStructure { left: DockData::default(), right: DockData::default(), bottom: DockData::default() }
    }
}

impl Clone for DockData {
    fn clone(&self) -> (r: Self)
        ensures
            r@ == self@,
    {
        DockData { visible: self.visible, active_panel: clone_opt(&self.active_panel), zoom: self.zoom }
    }
}

/// The three columns of one dock.
pub type DockColumns = (Option<bool>, Option<String>, Option<bool>);

/// What three columns read as: a flag that was never written is false.
pub open spec fn dock_of(columns: DockColumns) -> DockModel {
    DockModel {
        visible: columns.0 == Some(true),
        active_panel: opt_text(columns.1),
        zoom: columns.2 == Some(true),
    }
}

impl DockData {
    /// Reads the columns of one dock.
    pub fn column(columns: DockColumns) -> (r: DockData)
        ensures
            r@ == dock_of(columns),
    {
        let (visible, active_panel, zoom) = columns;
        DockData {
            visible: match visible {
                Some(flag) => flag,
                None => false,
            },
            active_panel,
            zoom: match zoom {
                Some(flag) => flag,
                None => false,
            },
        }
    }

    /// The columns of one dock.
    pub fn bind(&self) -> (r: DockColumns)
        ensures
            dock_of(r) == self@,
    {
        (Some(self.visible), clone_opt(&self.active_panel), Some(self.zoom))
    }
}

impl DockStructure {
    /// Reads the columns of the three docks: left, right and bottom.
    pub fn column(left: DockColumns, right: DockColumns, bottom: DockColumns) -> (r: DockStructure)
        ensures
            r@ == (DocksModel { left: dock_of(left), right: dock_of(right), bottom: dock_of(bottom) }),
    {
        DockStructure {
            left: DockData::column(left),
            right: DockData::column(right),
            bottom: DockData::column(bottom),
        }
    }

    /// The columns of the three docks: they read as the docks they were made from.
    pub fn bind(&self) -> (r: (DockColumns, DockColumns, DockColumns))
        ensures
            self@ == (DocksModel { left: dock_of(r.0), right: dock_of(r.1), bottom: dock_of(r.2) }),
    {
        (self.left.bind(), self.right.bind(), self.bottom.bind())
    }
}

/// A list of paths as it is stored: the paths in one text, their order in another.
#[derive(Debug, PartialEq, Eq)]
pub struct SerializedPathList {
    pub paths: String,
    pub order: String,
}

/// A group of projects that the sidebar lists.
#[derive(Debug, PartialEq, Eq)]
pub struct SerializedProjectGroup {
    pub path_list: SerializedPathList,
    pub location: SerializedWorkspaceLocation,
    pub expanded: bool,
}

/// Whether a group is shown open where nothing says so.
pub fn default_expanded() -> (r: bool)
    ensures
        r,
{
    true
}

#[verifier::ext_equal]
pub struct ProjectGroupModel {
    pub paths: Seq<char>,
    pub order: Seq<char>,
    pub expanded: bool,
}

impl View for SerializedProjectGroup {
    type V = ProjectGroupModel;

    open spec fn view(&self) -> ProjectGroupModel {
        ProjectGroupModel {
            paths: self.path_list.paths@,
            order: self.path_list.order@,
            expanded: self.expanded,
        }
    }
}

impl SerializedProjectGroup {
    /// The stored form of a group with these paths.
    pub fn from_group(path_list: SerializedPathList, expanded: bool) -> (r: SerializedProjectGroup)
        ensures
            r.path_list == path_list,
            r.location == SerializedWorkspaceLocation::Local,
            r.expanded == expanded,
    {
        SerializedProjectGroup { path_list, location: SerializedWorkspaceLocation::Local, expanded }
    }

    /// The paths of the group and whether it is shown open.
    pub fn into_restored_state(self) -> (r: (SerializedPathList, bool))
        ensures
            r == (self.path_list, self.expanded),
    {
        (self.path_list, self.expanded)
    }
}

impl Clone for SerializedProjectGroup {
    fn clone(&self) -> (r: Self)
        ensures
            r@ == self@,
    {
        SerializedProjectGroup {
            path_list: SerializedPathList {
                paths: self.path_list.paths.clone(),
                order: self.path_list.order.clone(),
            },
            location: self.location,
            expanded: self.expanded,
        }
    }
}

/// What one window remembers of the workspaces it holds.
#[derive(Debug, PartialEq, Eq)]
pub struct MultiWorkspaceState {
    pub active_workspace_id: Option<i64>,
    pub sidebar_open: bool,
    pub project_groups: Vec<SerializedProjectGroup>,
    pub sidebar_state: Option<String>,
}

#[verifier::ext_equal]
pub struct MultiWorkspaceModel {
    pub active_workspace_id: Option<i64>,
    pub sidebar_open: bool,
    pub project_groups: Seq<ProjectGroupModel>,
    pub sidebar_state: Option<Seq<char>>,
}

pub open spec fn project_group_models(groups: Seq<SerializedProjectGroup>) -> Seq<ProjectGroupModel> {
    groups.map_values(|g: SerializedProjectGroup| g@)
}

impl View for MultiWorkspaceState {
    type V = MultiWorkspaceModel;

    open spec fn view(&self) -> MultiWorkspaceModel {
        MultiWorkspaceModel {
            active_workspace_id: self.active_workspace_id,
            sidebar_open: self.sidebar_open,
            project_groups: project_group_models(self.project_groups@),
            sidebar_state: opt_text(self.sidebar_state),
        }
    }
}

/// What a window that was never stored remembers.
pub open spec fn new_window_state() -> MultiWorkspaceModel {
    MultiWorkspaceModel {
        active_workspace_id: None,
        sidebar_open: false,
        project_groups: Seq::empty(),
        sidebar_state: None,
    }
}

impl Default for MultiWorkspaceState {
    fn default() -> (r: Self)
        ensures
            r@ == new_window_state(),
    {
        MultiWorkspaceState {
            active_workspace_id: None,
            sidebar_open: false,
            project_groups: Vec::new(),
            sidebar_state: None,
        }
    }
}

impl Clone for MultiWorkspaceState {
    fn clone(&self) -> (r: Self)
        ensures
            r@ == self@,
    {
        let mut groups: Vec<SerializedProjectGroup> = Vec::new();
        let mut i: usize = 0;
        while i < self.project_groups.len()
            invariant
                i <= self.project_groups@.len(),
                project_group_models(groups@) == project_group_models(self.project_groups@).take(i as int),
            decreases self.project_groups@.len() - i,
        {
            let ghost before = groups@;
            groups.push(self.project_groups[i].clone());
            proof {
                assert(project_group_models(groups@) =~= project_group_models(before).push(
                    self.project_groups@[i as int]@,
                ));
                assert(project_group_models(self.project_groups@).take(i + 1) =~= project_group_models(
                    self.project_groups@,
                ).take(i as int).push(self.project_groups@[i as int]@));
            }
            i += 1;
        }
        proof {
            assert(project_group_models(self.project_groups@).take(i as int) =~= project_group_models(
                self.project_groups@,
            ));
        }
        MultiWorkspaceState {
            active_workspace_id: self.active_workspace_id,
            sidebar_open: self.sidebar_open,
            project_groups: groups,
            sidebar_state: clone_opt(&self.sidebar_state),
        }
    }
}

/// An item of a pane: its kind, and the id by which that kind finds it again.
#[derive(Debug, PartialEq, Eq)]
pub struct SerializedItem {
    pub kind: String,
    pub item_id: u64,
    pub active: bool,
    pub preview: bool,
}

/// A pane with its items, the first of which may be pinned.
#[derive(Debug, PartialEq, Eq)]
pub struct SerializedPane {
    pub active: bool,
    pub children: Vec<SerializedItem>,
    pub pinned_count: usize,
}

#[verifier::ext_equal]
pub struct ItemModel {
    pub kind: Seq<char>,
    pub item_id: u64,
    pub active: bool,
    pub preview: bool,
}

#[verifier::ext_equal]
pub struct PaneModel {
    pub active: bool,
    pub items: Seq<ItemModel>,
    pub pinned_count: nat,
}

impl View for SerializedItem {
    type V = ItemModel;

    open spec fn view(&self) -> ItemModel {
        ItemModel { kind: self.kind@, item_id: self.item_id, active: self.active, preview: self.preview }
    }
}

pub open spec fn item_models(items: Seq<SerializedItem>) -> Seq<ItemModel> {
    items.map_values(|i: SerializedItem| i@)
}

impl View for SerializedPane {
    type V = PaneModel;

    open spec fn view(&self) -> PaneModel {
        PaneModel {
            active: self.active,
            items: item_models(self.children@),
            pinned_count: self.pinned_count as nat,
        }
    }
}

impl SerializedItem {
    /// The stored form of an item.
    pub fn new(kind: &str, item_id: u64, active: bool, preview: bool) -> (r: SerializedItem)
        ensures
            r@ == (ItemModel { kind: kind@, item_id, active, preview }),
    {
        SerializedItem { kind: kind.to_owned(), item_id, active, preview }
    }
}

impl Clone for SerializedItem {
    fn clone(&self) -> (r: Self)
        ensures
            r@ == self@,
    {
        SerializedItem {
            kind: self.kind.clone(),
            item_id: self.item_id,
            active: self.active,
            preview: self.preview,
        }
    }
}

impl SerializedPane {
    /// The stored form of a pane.
    pub fn new(children: Vec<SerializedItem>, active: bool, pinned_count: usize) -> (r: SerializedPane)
        ensures
            r.children == children,
            r.active == active,
            r.pinned_count == pinned_count,
    {
        SerializedPane { children, active, pinned_count }
    }
}

/// A copy of a list of items.
pub fn clone_items(items: &Vec<SerializedItem>) -> (r: Vec<SerializedItem>)
    ensures
        item_models(r@) == item_models(items@),
{
    let mut copy: Vec<SerializedItem> = Vec::new();
    let mut i: usize = 0;
    while i < items.len()
        invariant
            i <= items@.len(),
            item_models(copy@) == item_models(items@).take(i as int),
        decreases items@.len() - i,
    {
        let ghost before = copy@;
        copy.push(items[i].clone());
        proof {
            assert(item_models(copy@) =~= item_models(before).push(items@[i as int]@));
            assert(item_models(items@).take(i + 1) =~= item_models(items@).take(i as int).push(
                items@[i as int]@,
            ));
        }
        i += 1;
    }
    proof {
        assert(item_models(items@).take(i as int) =~= item_models(items@));
    }
    copy
}

/// An axis is stored under its name, and only the two names are read.
pub proof fn lemma_axis_names(s: Seq<char>)
    ensures
        axis_text(Axis::Horizontal) == "Horizontal"@,
        axis_text(Axis::Vertical) == "Vertical"@,
        axis_of("Horizontal"@) == Some(Axis::Horizontal),
        axis_of("Vertical"@) == Some(Axis::Vertical),
        axis_of(s) is Some <==> s == "Horizontal"@ || s == "Vertical"@,
{
    reveal_strlit("Horizontal");
    reveal_strlit("Vertical");
    assert("Horizontal"@.len() == 10);
    assert("Vertical"@.len() == 8);
}

/// The state of a window is stored under its name. Only these names are read, and that of a window
/// of fixed size.
pub proof fn lemma_window_state_names(s: Seq<char>)
    ensures
        window_state_text(WindowState::Windowed) == "Windowed"@,
        window_state_text(WindowState::Maximized) == "Maximized"@,
        window_state_text(WindowState::Fullscreen) == "FullScreen"@,
        window_state_of("Windowed"@) == Some(WindowState::Windowed),
        window_state_of("Fixed"@) == Some(WindowState::Windowed),
        window_state_of("Maximized"@) == Some(WindowState::Maximized),
        window_state_of("FullScreen"@) == Some(WindowState::Fullscreen),
        window_state_of(s) is Some <==> s == "Windowed"@ || s == "Fixed"@ || s == "Maximized"@ || s == "FullScreen"@,
{
    reveal_strlit("Windowed");
    reveal_strlit("Fixed");
    reveal_strlit("Maximized");
    reveal_strlit("FullScreen");
    assert("Windowed"@.len() == 8);
    assert("Fixed"@.len() == 5);
    assert("Maximized"@.len() == 9);
    assert("FullScreen"@.len() == 10);
}

/// Bounds are kept under the state of their window.
pub proof fn lemma_bounds_kept(kept: WindowBoundsJson, x: i32, y: i32, width: i32, height: i32)
    ensures
        kept_bounds(kept).state is Windowed <==> kept is Windowed,
        kept_bounds(kept).state is Maximized <==> kept is Maximized,
        kept_bounds(kept).state is Fullscreen <==> kept is Fullscreen,
        kept == (WindowBoundsJson::Windowed { x, y, width, height }) || kept == (WindowBoundsJson::Maximized {
            x,
            y,
            width,
            height,
        }) || kept == (WindowBoundsJson::Fullscreen { x, y, width, height }) <==> kept_bounds(kept).x == x
            && kept_bounds(kept).y == y && kept_bounds(kept).width == width && kept_bounds(kept).height == height,
{
}

/// A dock that was never stored is shut, empty and of its usual size, and so is every dock at first.
pub proof fn lemma_new_dock()
    ensures
        dock_of((None, None, None)) == closed_dock(),
        !closed_dock().visible,
        closed_dock().active_panel is None,
        !closed_dock().zoom,
{
}

/// A new window shows no workspace before others, and no sidebar.
pub proof fn lemma_new_window()
    ensures
        new_window_state().active_workspace_id is None,
        !new_window_state().sidebar_open,
        new_window_state().project_groups.len() == 0,
        new_window_state().sidebar_state is None,
{
}

} // verus!
