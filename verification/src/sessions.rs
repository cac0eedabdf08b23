//! The workspaces of the last session, and the windows they were in.

use vstd::prelude::*;
use crate::model::{new_window_state, MultiWorkspaceModel, MultiWorkspaceState, SerializedWorkspaceLocation};
use crate::order::{sort_positions, stable_order};
use crate::persistence::WorkspaceDb;
use crate::text::{clone_list, texts};

verus! {

/// A workspace that was open when the last session ended.
#[derive(Debug, PartialEq, Eq)]
pub struct SessionWorkspace {
    pub workspace_id: i64,
    pub location: SerializedWorkspaceLocation,
    pub paths: Vec<String>,
    pub window_id: Option<u64>,
}

#[verifier::ext_equal]
pub struct SessionModel {
    pub workspace_id: i64,
    pub paths: Seq<Seq<char>>,
    pub window_id: Option<u64>,
}

impl View for SessionWorkspace {
    type V = SessionModel;

    open spec fn view(&self) -> SessionModel {
        SessionModel {
            workspace_id: self.workspace_id,
            paths: texts(self.paths@),
            window_id: self.window_id,
        }
    }
}

impl Clone for SessionWorkspace {
    fn clone(&self) -> (r: Self)
        ensures
            r@ == self@,
    {
        SessionWorkspace {
            workspace_id: self.workspace_id,
            location: self.location,
            paths: clone_list(&self.paths),
            window_id: self.window_id,
        }
    }
}

pub open spec fn session_models(list: Seq<SessionWorkspace>) -> Seq<SessionModel> {
    list.map_values(|w: SessionWorkspace| w@)
}

proof fn lemma_session_push(list: Seq<SessionWorkspace>, w: SessionWorkspace)
    ensures
        session_models(list.push(w)) == session_models(list).push(w@),
{
    assert(session_models(list.push(w)) =~= session_models(list).push(w@));
}

/// A workspace of the session, and whether all its paths are there with a directory among them.
#[derive(Debug, PartialEq, Eq)]
pub struct SessionRow {
    pub workspace_id: i64,
    pub paths: Vec<String>,
    pub window_id: Option<u64>,
    pub on_disk: bool,
}

/// A workspace is restored where it has no paths or they are still there.
pub open spec fn restored_from(rows: Seq<SessionRow>) -> Seq<SessionModel>
    decreases rows.len(),
{
    if rows.len() == 0 {
        Seq::empty()
    } else {
        let row = rows.last();
        if row.paths@.len() == 0 || row.on_disk {
            restored_from(rows.drop_last()).push(
                SessionModel {
                    workspace_id: row.workspace_id,
                    paths: texts(row.paths@),
                    window_id: row.window_id,
                },
            )
        } else {
            restored_from(rows.drop_last())
        }
    }
}

/// The place of a window in the stack, or the length of the stack.
pub open spec fn window_place(stack: Seq<u64>, id: u64) -> int
    decreases stack.len(),
{
    if stack.len() == 0 {
        0
    } else if stack[0] == id {
        0
    } else {
        1 + window_place(stack.skip(1), id)
    }
}

/// What a workspace is ordered by: the place of its window, or last of all where it has none.
pub open spec fn stack_key(stack: Seq<u64>, w: SessionModel) -> usize {
    match w.window_id {
        Some(id) => if window_place(stack, id) < stack.len() {
            window_place(stack, id) as usize
        } else {
            usize::MAX
        },
        None => usize::MAX,
    }
}

pub open spec fn stack_keys(stack: Seq<u64>, list: Seq<SessionModel>) -> Seq<usize> {
    list.map_values(|w: SessionModel| stack_key(stack, w))
}

/// The workspaces from the front window to the back; those of one window, and those of none, stay
/// in order.
pub open spec fn in_stack_order(stack: Seq<u64>, list: Seq<SessionModel>) -> Seq<SessionModel> {
    stable_order(stack_keys(stack, list)).map_values(|p: int| list[p])
}

proof fn lemma_window_place(stack: Seq<u64>, id: u64, place: int)
    requires
        0 <= place <= stack.len(),
        place < stack.len() ==> stack[place] == id,
        forall|i: int| 0 <= i < place ==> #[trigger] stack[i] != id,
    ensures
        window_place(stack, id) == place,
    decreases stack.len(),
{
    if place > 0 {
        let rest = stack.skip(1);
        assert(stack[0] != id);
        assert forall|i: int| 0 <= i < place - 1 implies #[trigger] rest[i] != id by {
            assert(rest[i] == stack[i + 1]);
        }
        lemma_window_place(rest, id, place - 1);
    }
}

fn key_in_stack(stack: &Vec<u64>, workspace: &SessionWorkspace) -> (r: usize)
    ensures
        r == stack_key(stack@, workspace@),
{
    match workspace.window_id {
        Some(id) => {
            let mut i: usize = 0;
            while i < stack.len() && stack[i] != id
                invariant
                    i <= stack@.len(),
                    forall|j: int| 0 <= j < i ==> #[trigger] stack@[j] != id,
                decreases stack@.len() - i,
            {
                i += 1;
            }
            proof {
                lemma_window_place(stack@, id, i as int);
            }
            if i < stack.len() {
                i
            } else {
                usize::MAX
            }
        },
        None => usize::MAX,
    }
}

impl WorkspaceDb {
    /// The workspaces that were open when the last session ended, in the order of its windows
    /// where that is known.
    pub fn last_session_workspace_locations(
        rows: Vec<SessionRow>,
        last_session_window_stack: Option<Vec<u64>>,
    ) -> (r: Vec<SessionWorkspace>)
        ensures
            session_models(r@) == match last_session_window_stack {
                Some(stack) => in_stack_order(stack@, restored_from(rows@)),
                None => restored_from(rows@),
            },
    {
        let ghost all = rows@;
        let mut rest = rows;
        let mut list: Vec<SessionWorkspace> = Vec::new();
        let ghost mut done: int = 0;
        assert(session_models(list@) =~= restored_from(all.take(0)));
        assert(all.skip(0) =~= all);
        while rest.len() > 0
            invariant
                0 <= done <= all.len(),
                rest@ == all.skip(done),
                session_models(list@) == restored_from(all.take(done)),
            decreases rest@.len(),
        {
            let row = rest.remove(0);
            proof {
                assert(row == all[done]);
                assert(rest@ =~= all.skip(done + 1));
                assert(all.take(done + 1).drop_last() =~= all.take(done));
                assert(all.take(done + 1).last() == row);
                done = done + 1;
            }
            if row.paths.len() == 0 || row.on_disk {
                let workspace = SessionWorkspace {
                    workspace_id: row.workspace_id,
                    location: SerializedWorkspaceLocation::Local,
                    paths: row.paths,
                    window_id: row.window_id,
                };
                proof {
                    lemma_session_push(list@, workspace);
                }
                list.push(workspace);
            }
        }
        assert(all.take(done) =~= all);
        match last_session_window_stack {
            Some(stack) => sorted_by_stack(&stack, &list),
            None => list,
        }
    }
}

fn sorted_by_stack(stack: &Vec<u64>, list: &Vec<SessionWorkspace>) -> (r: Vec<SessionWorkspace>)
    ensures
        session_models(r@) == in_stack_order(stack@, session_models(list@)),
{
    let ghost models = session_models(list@);
    let mut keys: Vec<usize> = Vec::new();
    let mut i: usize = 0;
    while i < list.len()
        invariant
            i <= list@.len(),
            models == session_models(list@),
            keys@ == stack_keys(stack@, models).take(i as int),
        decreases list@.len() - i,
    {
        assert(models[i as int] == list@[i as int]@);
        keys.push(key_in_stack(stack, &list[i]));
        assert(keys@ =~= stack_keys(stack@, models).take(i + 1));
        i += 1;
    }
    assert(keys@ =~= stack_keys(stack@, models));
    let order = sort_positions(&keys);
    let ghost places = stable_order(keys@);
    let mut sorted: Vec<SessionWorkspace> = Vec::new();
    let mut k: usize = 0;
    while k < order.len()
        invariant
            k <= order@.len(),
            models == session_models(list@),
            models.len() == list@.len(),
            keys@.len() == list@.len(),
            places == stable_order(keys@),
            keys@ == stack_keys(stack@, models),
            order@.map_values(|p: usize| p as int) == places,
            forall|j: int| 0 <= j < order@.len() ==> #[trigger] order@[j] < keys@.len(),
            session_models(sorted@) == in_stack_order(stack@, models).take(k as int),
        decreases order@.len() - k,
    {
        let p = order[k];
        proof {
            assert(order@.map_values(|p: usize| p as int)[k as int] == p as int);
            assert(places[k as int] == p as int);
        }
        let workspace = list[p].clone();
        proof {
            lemma_session_push(sorted@, workspace);
            assert(models[p as int] == list@[p as int]@);
            assert(in_stack_order(stack@, models).take(k + 1) =~= in_stack_order(stack@, models).take(
                k as int,
            ).push(models[p as int]));
        }
        sorted.push(workspace);
        k += 1;
    }
    proof {
        assert(order@.map_values(|p: usize| p as int).len() == places.len());
        assert(in_stack_order(stack@, models).take(k as int) =~= in_stack_order(stack@, models));
    }
    sorted
}

/// The place of the group of a window, or the number of groups.
pub open spec fn group_place(groups: Seq<Seq<SessionModel>>, id: u64) -> int
    decreases groups.len(),
{
    if groups.len() == 0 {
        0
    } else if groups[0].len() > 0 && groups[0][0].window_id == Some(id) {
        0
    } else {
        1 + group_place(groups.skip(1), id)
    }
}

/// The workspaces by window, in the order in which the windows are first met. A workspace that was
/// in no window has a group to itself.
pub open spec fn by_window(list: Seq<SessionModel>) -> Seq<Seq<SessionModel>>
    decreases list.len(),
{
    if list.len() == 0 {
        Seq::empty()
    } else {
        let before = by_window(list.drop_last());
        let new = list.last();
        match new.window_id {
            Some(id) => {
                let place = group_place(before, id);
                if place < before.len() {
                    before.update(place, before[place].push(new))
                } else {
                    before.push(seq![new])
                }
            },
            None => before.push(seq![new]),
        }
    }
}

proof fn lemma_group_place(groups: Seq<Seq<SessionModel>>, id: u64)
    ensures
        0 <= group_place(groups, id) <= groups.len(),
        group_place(groups, id) < groups.len() ==> groups[group_place(groups, id)].len() > 0 && groups[group_place(
            groups,
            id,
        )][0].window_id == Some(id),
        forall|i: int| 0 <= i < group_place(groups, id) ==> !((#[trigger] groups[i]).len() > 0
            && groups[i][0].window_id == Some(id)),
    decreases groups.len(),
{
    if groups.len() > 0 && !(groups[0].len() > 0 && groups[0][0].window_id == Some(id)) {
        let rest = groups.skip(1);
        lemma_group_place(rest, id);
        assert forall|i: int| 0 <= i < group_place(groups, id) implies !((#[trigger] groups[i]).len() > 0
            && groups[i][0].window_id == Some(id)) by {
            if i > 0 {
                assert(groups[i] == rest[i - 1]);
            }
        }
    }
}

proof fn lemma_group_place_is(groups: Seq<Seq<SessionModel>>, id: u64, place: int)
    requires
        0 <= place <= groups.len(),
        place < groups.len() ==> groups[place].len() > 0 && groups[place][0].window_id == Some(id),
        forall|i: int| 0 <= i < place ==> !((#[trigger] groups[i]).len() > 0 && groups[i][0].window_id == Some(id)),
    ensures
        group_place(groups, id) == place,
{
    lemma_group_place(groups, id);
    let found = group_place(groups, id);
    if found < place {
        assert(groups[found].len() > 0);
    }
}

/// No group is empty, the workspaces of a group were in one window, and no window has two groups.
pub proof fn lemma_by_window(list: Seq<SessionModel>)
    ensures
        forall|i: int| 0 <= i < by_window(list).len() ==> (#[trigger] by_window(list)[i]).len() > 0,
        forall|i: int, k: int| #![trigger by_window(list)[i][k]]
            0 <= i < by_window(list).len() && 0 <= k < by_window(list)[i].len() ==> by_window(list)[i][k].window_id
                == by_window(list)[i][0].window_id,
        forall|i: int, j: int| #![trigger by_window(list)[i], by_window(list)[j]]
            0 <= i < j < by_window(list).len() && by_window(list)[i][0].window_id is Some ==> by_window(
                list,
            )[i][0].window_id != by_window(list)[j][0].window_id,
    decreases list.len(),
{
    if list.len() > 0 {
        lemma_by_window(list.drop_last());
        let before = by_window(list.drop_last());
        let new = list.last();
        let after = by_window(list);
        if let Some(id) = new.window_id {
            lemma_group_place(before, id);
            let place = group_place(before, id);
            assert forall|i: int, j: int| #![trigger after[i], after[j]]
                0 <= i < j < after.len() && after[i][0].window_id is Some implies after[i][0].window_id
                != after[j][0].window_id by {
                if place < before.len() {
                    assert(before[i].len() > 0 && before[j].len() > 0);
                    assert(before[i][0].window_id is Some);
                    assert(before[i][0].window_id != before[j][0].window_id);
                } else {
                    assert(before[i].len() > 0);
                    if j < before.len() {
                        assert(before[j].len() > 0);
                        assert(before[i][0].window_id != before[j][0].window_id);
                    }
                }
            }
            assert forall|i: int, k: int| #![trigger after[i][k]]
                0 <= i < after.len() && 0 <= k < after[i].len() implies after[i][k].window_id
                == after[i][0].window_id by {
                if i < before.len() {
                    assert(before[i].len() > 0);
                    if k < before[i].len() {
                        assert(before[i][k].window_id == before[i][0].window_id);
                    }
                }
            }
        } else {
            assert forall|i: int, j: int| #![trigger after[i], after[j]]
                0 <= i < j < after.len() && after[i][0].window_id is Some implies after[i][0].window_id
                != after[j][0].window_id by {
                assert(before[i].len() > 0);
                if j < before.len() {
                    assert(before[i][0].window_id != before[j][0].window_id);
                }
            }
            assert forall|i: int, k: int| #![trigger after[i][k]]
                0 <= i < after.len() && 0 <= k < after[i].len() implies after[i][k].window_id
                == after[i][0].window_id by {
                if i < before.len() {
                    assert(before[i][k].window_id == before[i][0].window_id);
                }
            }
        }
    }
}

pub open spec fn group_session_models(groups: Seq<Vec<SessionWorkspace>>) -> Seq<Seq<SessionModel>> {
    groups.map_values(|g: Vec<SessionWorkspace>| session_models(g@))
}

fn window_groups(list: &Vec<SessionWorkspace>) -> (r: Vec<Vec<SessionWorkspace>>)
    ensures
        group_session_models(r@) == by_window(session_models(list@)),
{
    let ghost all = session_models(list@);
    let mut groups: Vec<Vec<SessionWorkspace>> = Vec::new();
    let mut n: usize = 0;
    assert(group_session_models(groups@) =~= by_window(all.take(0)));
    while n < list.len()
        invariant
            n <= list@.len(),
            all == session_models(list@),
            group_session_models(groups@) == by_window(all.take(n as int)),
        decreases list@.len() - n,
    {
        let workspace = list[n].clone();
        let ghost before = group_session_models(groups@);
        let ghost listed = groups@;
        let ghost new = workspace@;
        proof {
            assert(all.take(n + 1).drop_last() =~= all.take(n as int));
            assert(all.take(n + 1).last() == new);
        }
        let mut place: usize = groups.len();
        if let Some(id) = workspace.window_id {
            place = 0;
            while place < groups.len() && !in_window(&groups[place], id)
                invariant
                    place <= groups@.len(),
                    groups@ == listed,
                    before == group_session_models(listed),
                    forall|i: int| 0 <= i < place ==> !((#[trigger] before[i]).len() > 0 && before[i][0].window_id
                        == Some(id)),
                decreases groups@.len() - place,
            {
                assert(before[place as int] == session_models(groups@[place as int]@));
                place += 1;
            }
            proof {
                if place < groups@.len() {
                    assert(before[place as int] == session_models(groups@[place as int]@));
                }
                lemma_group_place_is(before, id, place as int);
            }
        }
        if place < groups.len() {
            let mut group = groups.remove(place);
            proof {
                assert(group == listed[place as int]);
                lemma_session_push(group@, workspace);
            }
            group.push(workspace);
            groups.insert(place, group);
            assert(groups@ =~= listed.update(place as int, group));
            assert(group_session_models(groups@) =~= before.update(
                place as int,
                before[place as int].push(new),
            ));
        } else {
            let mut group: Vec<SessionWorkspace> = Vec::new();
            proof {
                lemma_session_push(group@, workspace);
                assert(session_models(group@) =~= Seq::empty());
            }
            group.push(workspace);
            groups.push(group);
            assert(session_models(group@) =~= seq![new]);
            assert(group_session_models(groups@) =~= before.push(seq![new]));
        }
        n += 1;
    }
    assert(all.take(n as int) =~= all);
    groups
}

fn in_window(group: &Vec<SessionWorkspace>, id: u64) -> (r: bool)
    ensures
        r == (session_models(group@).len() > 0 && session_models(group@)[0].window_id == Some(id)),
{
    assert(session_models(group@).len() == group@.len());
    if group.len() > 0 {
        assert(session_models(group@)[0] == group@[0]@);
        match group[0].window_id {
            Some(window) => window == id,
            None => false,
        }
    } else {
        false
    }
}

/// A window to open: the workspace in front and what the window remembers.
#[derive(Debug, PartialEq, Eq)]
pub struct SerializedMultiWorkspace {
    pub active_workspace: SessionWorkspace,
    pub state: MultiWorkspaceState,
}

#[verifier::ext_equal]
pub struct WindowModel {
    pub active_workspace: SessionModel,
    pub state: MultiWorkspaceModel,
}

impl View for SerializedMultiWorkspace {
    type V = WindowModel;

    open spec fn view(&self) -> WindowModel {
        WindowModel { active_workspace: self.active_workspace@, state: self.state@ }
    }
}

pub open spec fn window_models(windows: Seq<SerializedMultiWorkspace>) -> Seq<WindowModel> {
    windows.map_values(|w: SerializedMultiWorkspace| w@)
}

/// What a window remembers: the first that is stored for it, else what a new window does.
pub open spec fn state_of(stored: Seq<(u64, MultiWorkspaceState)>, window: Option<u64>) -> MultiWorkspaceModel
    decreases stored.len(),
{
    if stored.len() == 0 {
        new_window_state()
    } else if window == Some(stored[0].0) {
        stored[0].1@
    } else {
        state_of(stored.skip(1), window)
    }
}

/// The place of a workspace in its group, or the length of the group.
pub open spec fn workspace_place(group: Seq<SessionModel>, id: i64) -> int
    decreases group.len(),
{
    if group.len() == 0 {
        0
    } else if group[0].workspace_id == id {
        0
    } else {
        1 + workspace_place(group.skip(1), id)
    }
}

/// The workspace in front: the one that the window remembers as active, where it is there; else
/// the first.
pub open spec fn front_workspace(group: Seq<SessionModel>, active: Option<i64>) -> SessionModel {
    match active {
        Some(id) => if workspace_place(group, id) < group.len() {
            group[workspace_place(group, id)]
        } else {
            group[0]
        },
        None => group[0],
    }
}

/// The window to open for a group of workspaces.
pub open spec fn window_for(group: Seq<SessionModel>, stored: Seq<(u64, MultiWorkspaceState)>) -> WindowModel {
    let state = state_of(stored, group[0].window_id);
    WindowModel { active_workspace: front_workspace(group, state.active_workspace_id), state }
}

proof fn lemma_workspace_place(group: Seq<SessionModel>, id: i64, place: int)
    requires
        0 <= place <= group.len(),
        place < group.len() ==> group[place].workspace_id == id,
        forall|i: int| 0 <= i < place ==> (#[trigger] group[i]).workspace_id != id,
    ensures
        workspace_place(group, id) == place,
    decreases group.len(),
{
    if place > 0 {
        let rest = group.skip(1);
        assert(group[0].workspace_id != id);
        assert forall|i: int| 0 <= i < place - 1 implies (#[trigger] rest[i]).workspace_id != id by {
            assert(rest[i] == group[i + 1]);
        }
        lemma_workspace_place(rest, id, place - 1);
    }
}

proof fn lemma_state_of(stored: Seq<(u64, MultiWorkspaceState)>, window: Option<u64>, place: int)
    requires
        0 <= place <= stored.len(),
        place < stored.len() ==> window == Some(stored[place].0),
        forall|i: int| 0 <= i < place ==> window != Some((#[trigger] stored[i]).0),
    ensures
        state_of(stored, window) == if place < stored.len() {
            stored[place].1@
        } else {
            new_window_state()
        },
    decreases stored.len(),
{
    if place > 0 {
        let rest = stored.skip(1);
        assert(window != Some(stored[0].0));
        assert forall|i: int| 0 <= i < place - 1 implies window != Some((#[trigger] rest[i]).0) by {
            assert(rest[i] == stored[i + 1]);
        }
        lemma_state_of(rest, window, place - 1);
    }
}

fn stored_state(stored: &Vec<(u64, MultiWorkspaceState)>, window: Option<u64>) -> (r: MultiWorkspaceState)
    ensures
        r@ == state_of(stored@, window),
{
    let id = match window {
        Some(id) => id,
        None => {
            proof {
                lemma_state_of(stored@, window, stored@.len() as int);
            }
            return MultiWorkspaceState::default();
        },
    };
    let mut i: usize = 0;
    while i < stored.len() && stored[i].0 != id
        invariant
            i <= stored@.len(),
            forall|j: int| 0 <= j < i ==> Some(id) != Some((#[trigger] stored@[j]).0),
        decreases stored@.len() - i,
    {
        i += 1;
    }
    proof {
        lemma_state_of(stored@, window, i as int);
    }
    if i < stored.len() {
        stored[i].1.clone()
    } else {
        MultiWorkspaceState::default()
    }
}

fn front_of(group: &Vec<SessionWorkspace>, active: Option<i64>) -> (r: SessionWorkspace)
    requires
        group@.len() > 0,
    ensures
        r@ == front_workspace(session_models(group@), active),
{
    let ghost models = session_models(group@);
    if let Some(id) = active {
        let mut i: usize = 0;
        while i < group.len() && group[i].workspace_id != id
            invariant
                i <= group@.len(),
                models == session_models(group@),
                forall|j: int| 0 <= j < i ==> (#[trigger] models[j]).workspace_id != id,
            decreases group@.len() - i,
        {
            assert(models[i as int] == group@[i as int]@);
            i += 1;
        }
        proof {
            if i < group@.len() {
                assert(models[i as int] == group@[i as int]@);
            }
            lemma_workspace_place(models, id, i as int);
        }
        if i < group.len() {
            return group[i].clone();
        }
    }
    assert(models[0] == group@[0]@);
    group[0].clone()
}

/// The windows to open: one for each group of workspaces, with what is stored for the windows.
pub fn read_serialized_multi_workspaces(
    session_workspaces: &Vec<SessionWorkspace>,
    stored: &Vec<(u64, MultiWorkspaceState)>,
) -> (r: Vec<SerializedMultiWorkspace>)
    ensures
        window_models(r@) == by_window(session_models(session_workspaces@)).map_values(
            |group: Seq<SessionModel>| window_for(group, stored@),
        ),
{
    let groups = window_groups(session_workspaces);
    let ghost by = by_window(session_models(session_workspaces@));
    let ghost wanted = by.map_values(|group: Seq<SessionModel>| window_for(group, stored@));
    proof {
        lemma_by_window(session_models(session_workspaces@));
    }
    let mut windows: Vec<SerializedMultiWorkspace> = Vec::new();
    let mut n: usize = 0;
    assert(by.len() == groups@.len());
    while n < groups.len()
        invariant
            n <= groups@.len(),
            by == group_session_models(groups@),
            by.len() == groups@.len(),
            wanted == by.map_values(|group: Seq<SessionModel>| window_for(group, stored@)),
            forall|i: int| 0 <= i < by.len() ==> (#[trigger] by[i]).len() > 0,
            window_models(windows@) == wanted.take(n as int),
        decreases groups@.len() - n,
    {
        let group = &groups[n];
        let ghost before = windows@;
        proof {
            assert(by[n as int] == session_models(group@));
            assert(by[n as int].len() > 0);
            assert(by[n as int][0] == group@[0]@);
        }
        let state = stored_state(stored, group[0].window_id);
        let active_workspace = front_of(group, state.active_workspace_id);
        let window = SerializedMultiWorkspace { active_workspace, state };
        assert(window@ == wanted[n as int]);
        windows.push(window);
        proof {
            assert(window_models(windows@) =~= window_models(before).push(wanted[n as int]));
            assert(wanted.take(n + 1) =~= wanted.take(n as int).push(wanted[n as int]));
        }
        n += 1;
    }
    assert(wanted.take(n as int) =~= wanted);
    windows
}

/// The workspaces that are restored are those without paths and those whose paths are still there,
/// as they were and in their order.
pub proof fn lemma_what_is_restored(rows: Seq<SessionRow>)
    ensures
        restored_from(rows) == rows.filter(|r: SessionRow| r.on_disk || r.paths@.len() == 0).map_values(
            |r: SessionRow|
                SessionModel { workspace_id: r.workspace_id, paths: texts(r.paths@), window_id: r.window_id },
        ),
    decreases rows.len(),
{
    let pred = |r: SessionRow| r.on_disk || r.paths@.len() == 0;
    let made = |r: SessionRow|
        SessionModel { workspace_id: r.workspace_id, paths: texts(r.paths@), window_id: r.window_id };
    reveal(Seq::filter);
    if rows.len() == 0 {
        assert(restored_from(rows) =~= rows.filter(pred).map_values(made));
    } else {
        let front = rows.drop_last();
        lemma_what_is_restored(front);
        if pred(rows.last()) {
            assert(rows.filter(pred).map_values(made) =~= front.filter(pred).map_values(made).push(made(rows.last())));
        }
    }
}

/// A window stands in the stack where it is first found.
pub proof fn lemma_window_found(stack: Seq<u64>, id: u64)
    ensures
        0 <= window_place(stack, id) <= stack.len(),
        window_place(stack, id) < stack.len() <==> stack.contains(id),
        stack.contains(id) ==> stack[window_place(stack, id)] == id,
        forall|i: int| 0 <= i < window_place(stack, id) ==> #[trigger] stack[i] != id,
    decreases stack.len(),
{
    if stack.len() > 0 {
        if stack[0] == id {
            assert(stack.contains(stack[0]));
        } else {
            let rest = stack.skip(1);
            lemma_window_found(rest, id);
            if rest.contains(id) {
                let k = choose|k: int| 0 <= k < rest.len() && rest[k] == id;
                assert(stack[k + 1] == id);
            }
            if stack.contains(id) {
                let k = choose|k: int| 0 <= k < stack.len() && stack[k] == id;
                assert(rest[k - 1] == id);
            }
            assert forall|i: int| 0 <= i < window_place(stack, id) implies #[trigger] stack[i] != id by {
                if i > 0 {
                    assert(rest[i - 1] == stack[i]);
                }
            }
        }
    }
}

/// Whether a workspace was in a window of the stack.
pub open spec fn stacked(stack: Seq<u64>, w: SessionModel) -> bool {
    w.window_id is Some && stack.contains(w.window_id->0)
}

/// Every workspace is kept, those in windows of the stack before the others, and those from the
/// windows further in front first.
pub proof fn lemma_front_windows_first(stack: Seq<u64>, list: Seq<SessionModel>)
    requires
        stack.len() <= usize::MAX,
    ensures
        in_stack_order(stack, list).len() == list.len(),
        forall|p: int| 0 <= p < list.len() ==> in_stack_order(stack, list).contains(#[trigger] list[p]),
        forall|i: int, j: int|
            #![trigger in_stack_order(stack, list)[i], in_stack_order(stack, list)[j]]
            0 <= i < j < list.len() && stacked(stack, in_stack_order(stack, list)[j]) ==> stacked(
                stack,
                in_stack_order(stack, list)[i],
            ) && window_place(stack, in_stack_order(stack, list)[i].window_id->0) <= window_place(
                stack,
                in_stack_order(stack, list)[j].window_id->0,
            ),
{
    let keys = stack_keys(stack, list);
    let order = stable_order(keys);
    let sorted = in_stack_order(stack, list);
    crate::order::lemma_stable_order(keys);
    assert forall|p: int| 0 <= p < list.len() implies sorted.contains(#[trigger] list[p]) by {
        assert(order.contains(p));
        let k = choose|k: int| 0 <= k < order.len() && order[k] == p;
        assert(sorted[k] == list[p]);
    }
    assert forall|i: int, j: int|
        #![trigger sorted[i], sorted[j]]
        0 <= i < j < list.len() && stacked(stack, sorted[j]) implies stacked(stack, sorted[i]) && window_place(
        stack,
        sorted[i].window_id->0,
    ) <= window_place(stack, sorted[j].window_id->0) by {
        assert(crate::order::comes_before(keys, order[i], order[j]));
        assert(keys[order[i]] == stack_key(stack, sorted[i]));
        assert(keys[order[j]] == stack_key(stack, sorted[j]));
        lemma_window_found(stack, sorted[j].window_id->0);
        if sorted[i].window_id is Some {
            lemma_window_found(stack, sorted[i].window_id->0);
        }
    }
}

/// Workspaces of one window, and those of none, stay in order among each other: nothing is moved
/// where all were in one place.
pub proof fn lemma_one_window_unmoved(stack: Seq<u64>, list: Seq<SessionModel>)
    requires
        forall|i: int, j: int|
            #![trigger list[i], list[j]]
            0 <= i < list.len() && 0 <= j < list.len() ==> list[i].window_id == list[j].window_id,
    ensures
        in_stack_order(stack, list) == list,
{
    let keys = stack_keys(stack, list);
    let order = stable_order(keys);
    crate::order::lemma_stable_order(keys);
    assert forall|i: int, j: int| 0 <= i < list.len() && 0 <= j < list.len() implies keys[i] == keys[j] by {
        assert(list[i].window_id == list[j].window_id);
    }
    assert forall|i: int, j: int| 0 <= i < j < order.len() implies #[trigger] order[i] < #[trigger] order[j] by {
        assert(crate::order::comes_before(keys, order[i], order[j]));
    }
    lemma_growing_positions(order, list.len());
    assert(in_stack_order(stack, list) =~= list);
}

proof fn lemma_growing_positions(order: Seq<int>, n: nat)
    requires
        order.len() == n,
        forall|i: int| 0 <= i < n ==> 0 <= #[trigger] order[i] < n,
        forall|i: int, j: int| 0 <= i < j < n ==> #[trigger] order[i] < #[trigger] order[j],
    ensures
        forall|i: int| 0 <= i < n ==> #[trigger] order[i] == i,
    decreases n,
{
    if n > 0 {
        lemma_at_least(order, n - 1);
        let front = order.drop_last();
        assert(order[n - 1] == n - 1);
        assert forall|i: int| 0 <= i < n - 1 implies 0 <= #[trigger] front[i] < n - 1 by {
            assert(order[i] < order[n - 1]);
        }
        lemma_growing_positions(front, (n - 1) as nat);
        assert forall|i: int| 0 <= i < n implies #[trigger] order[i] == i by {
            if i < n - 1 {
                assert(front[i] == i);
            }
        }
    }
}

proof fn lemma_at_least(order: Seq<int>, i: int)
    requires
        0 <= i < order.len(),
        forall|k: int| 0 <= k < order.len() ==> 0 <= #[trigger] order[k],
        forall|k: int, j: int| 0 <= k < j < order.len() ==> #[trigger] order[k] < #[trigger] order[j],
    ensures
        order[i] >= i,
    decreases i,
{
    if i > 0 {
        lemma_at_least(order, i - 1);
        assert(order[i - 1] < order[i]);
    }
}

/// The group of a window holds its workspaces, all of them and in their order.
pub proof fn lemma_window_group(list: Seq<SessionModel>, id: u64)
    ensures
        ({
            let members = list.filter(|w: SessionModel| w.window_id == Some(id));
            let place = group_place(by_window(list), id);
            &&& 0 <= place <= by_window(list).len()
            &&& place < by_window(list).len() <==> members.len() > 0
            &&& members.len() > 0 ==> by_window(list)[place] == members
        }),
    decreases list.len(),
{
    let pred = |w: SessionModel| w.window_id == Some(id);
    reveal(Seq::filter);
    lemma_group_place(by_window(list), id);
    if list.len() > 0 {
        let front = list.drop_last();
        let new = list.last();
        let before = by_window(front);
        let after = by_window(list);
        lemma_window_group(front, id);
        lemma_by_window(front);
        lemma_by_window(list);
        lemma_group_place(before, id);
        let place = group_place(before, id);
        if new.window_id == Some(id) {
            assert(pred(new));
            if place < before.len() {
                assert forall|i: int| 0 <= i < place implies !((#[trigger] after[i]).len() > 0
                    && after[i][0].window_id == Some(id)) by {
                    assert(after[i] == before[i]);
                }
                assert(after[place] == before[place].push(new));
                assert(after[place][0] == before[place][0]);
                lemma_group_place_is(after, id, place);
            } else {
                assert(front.filter(pred).len() == 0);
                assert(list.filter(pred) =~= seq![new]);
                assert forall|i: int| 0 <= i < place implies !((#[trigger] after[i]).len() > 0
                    && after[i][0].window_id == Some(id)) by {
                    assert(after[i] == before[i]);
                }
                assert(after[place] == seq![new]);
                lemma_group_place_is(after, id, place);
            }
        } else {
            assert(!pred(new));
            assert(list.filter(pred) == front.filter(pred));
            if let Some(other) = new.window_id {
                lemma_group_place(before, other);
            }
            assert forall|i: int| 0 <= i < before.len() implies (#[trigger] after[i])[0] == before[i][0]
                && after[i].len() > 0 by {
                assert(before[i].len() > 0);
            }
            if place < before.len() {
                assert(after[place] == before[place]) by {
                    if let Some(other) = new.window_id {
                        assert(group_place(before, other) != place);
                    }
                }
                assert forall|i: int| 0 <= i < place implies !((#[trigger] after[i]).len() > 0
                    && after[i][0].window_id == Some(id)) by {
                    assert(before[i].len() > 0);
                    assert(after[i][0] == before[i][0]);
                }
                lemma_group_place_is(after, id, place);
            } else {
                assert forall|i: int| 0 <= i < after.len() implies !((#[trigger] after[i]).len() > 0
                    && after[i][0].window_id == Some(id)) by {
                    if i < before.len() {
                        assert(before[i].len() > 0);
                        assert(after[i][0] == before[i][0]);
                    } else {
                        assert(after[i] == seq![new]);
                    }
                }
                lemma_group_place_is(after, id, after.len() as int);
            }
        }
    }
}

/// A workspace that was in no window has a group to itself.
pub proof fn lemma_lone_workspace(list: Seq<SessionModel>, p: int)
    requires
        0 <= p < list.len(),
        list[p].window_id is None,
    ensures
        by_window(list).contains(seq![list[p]]),
    decreases list.len(),
{
    let front = list.drop_last();
    let new = list.last();
    let before = by_window(front);
    let after = by_window(list);
    if p < front.len() {
        lemma_lone_workspace(front, p);
        assert(front[p] == list[p]);
        let k = choose|k: int| 0 <= k < before.len() && before[k] == seq![list[p]];
        if let Some(id) = new.window_id {
            lemma_group_place(before, id);
            assert(before[k][0].window_id is None);
        }
        assert(after[k] == seq![list[p]]);
    } else {
        assert(after[before.len() as int] == seq![new]);
    }
}

/// In front of a window is the workspace that the window remembers as active; the first where it
/// remembers none, or one that is not in it.
pub proof fn lemma_front_workspace(group: Seq<SessionModel>, active: Option<i64>)
    requires
        group.len() > 0,
    ensures
        group.contains(front_workspace(group, active)),
        active is None ==> front_workspace(group, active) == group[0],
        active matches Some(id) ==> (forall|p: int|
            0 <= p < group.len() && (#[trigger] group[p]).workspace_id == id ==> front_workspace(
                group,
                active,
            ).workspace_id == id),
        active matches Some(id) ==> (forall|p: int| 0 <= p < group.len() ==> (#[trigger] group[p]).workspace_id != id)
            ==> front_workspace(group, active) == group[0],
{
    assert(group.contains(group[0]));
    if let Some(id) = active {
        lemma_workspace_found(group, id);
        let place = workspace_place(group, id);
        if place < group.len() {
            assert(group.contains(group[place]));
        }
    }
}

proof fn lemma_workspace_found(group: Seq<SessionModel>, id: i64)
    ensures
        0 <= workspace_place(group, id) <= group.len(),
        workspace_place(group, id) < group.len() ==> group[workspace_place(group, id)].workspace_id == id,
        forall|i: int| 0 <= i < workspace_place(group, id) ==> (#[trigger] group[i]).workspace_id != id,
    decreases group.len(),
{
    if group.len() > 0 && group[0].workspace_id != id {
        let rest = group.skip(1);
        lemma_workspace_found(rest, id);
        assert forall|i: int| 0 <= i < workspace_place(group, id) implies (#[trigger] group[i]).workspace_id != id by {
            if i > 0 {
                assert(group[i] == rest[i - 1]);
            }
        }
    }
}

/// A window remembers what is stored for it first. One for which nothing is stored, and workspaces
/// that were in none, are as in a new window: no workspace is active, the sidebar is shut and empty.
pub proof fn lemma_window_remembers(stored: Seq<(u64, MultiWorkspaceState)>, window: Option<u64>, p: int)
    ensures
        0 <= p < stored.len() && window == Some(stored[p].0) && (forall|i: int|
            0 <= i < p ==> window != Some((#[trigger] stored[i]).0)) ==> state_of(stored, window) == stored[p].1@,
        (forall|i: int| 0 <= i < stored.len() ==> window != Some((#[trigger] stored[i]).0)) ==> {
            &&& state_of(stored, window).active_workspace_id is None
            &&& !state_of(stored, window).sidebar_open
            &&& state_of(stored, window).project_groups.len() == 0
            &&& state_of(stored, window).sidebar_state is None
        },
{
    if 0 <= p < stored.len() && window == Some(stored[p].0) && (forall|i: int|
        0 <= i < p ==> window != Some((#[trigger] stored[i]).0)) {
        lemma_state_of(stored, window, p);
    }
    if forall|i: int| 0 <= i < stored.len() ==> window != Some((#[trigger] stored[i]).0) {
        lemma_state_of(stored, window, stored.len() as int);
    }
}

/// A window is opened as its workspaces' window is remembered, with the workspace in front that it
/// remembers.
pub proof fn lemma_window_opened(group: Seq<SessionModel>, stored: Seq<(u64, MultiWorkspaceState)>)
    requires
        group.len() > 0,
    ensures
        window_for(group, stored).state == state_of(stored, group[0].window_id),
        group.contains(window_for(group, stored).active_workspace),
        forall|p: int|
            0 <= p < group.len() && window_for(group, stored).state.active_workspace_id == Some(
                (#[trigger] group[p]).workspace_id,
            ) ==> window_for(group, stored).active_workspace.workspace_id == group[p].workspace_id,
        window_for(group, stored).state.active_workspace_id is None ==> window_for(group, stored).active_workspace
            == group[0],
{
    lemma_front_workspace(group, state_of(stored, group[0].window_id).active_workspace_id);
}

} // verus!
