//! The workspaces that are remembered from one start to the next.
//!
//! What the tables hold comes in as plain rows, and what is to be stored goes out as plain values.

use vstd::prelude::*;
use crate::model::SerializedWorkspaceLocation;
use crate::moment::{days_old, moment_in_text, parse_timestamp, timestamp_format, week_old, Moment};
use crate::text::{clone_list, join, joined, opt_text, same_text, starts_with, texts};

verus! {

/// The workspace tables.
#[derive(Debug, Clone, Copy, PartialEq, Eq, Structural)]
pub struct WorkspaceDb;

/// Whether two lists hold the same texts in the same order.
fn same_list(a: &Vec<String>, b: &Vec<String>) -> (r: bool)
    ensures
        r == (texts(a@) == texts(b@)),
{
    if a.len() != b.len() {
        assert(texts(a@).len() != texts(b@).len());
        return false;
    }
    let mut i: usize = 0;
    while i < a.len()
        invariant
            i <= a@.len(),
            a@.len() == b@.len(),
            forall|j: int| 0 <= j < i ==> (#[trigger] texts(a@)[j]) == texts(b@)[j],
        decreases a@.len() - i,
    {
        if !same_text(a[i].as_str(), b[i].as_str()) {
            assert(texts(a@)[i as int] != texts(b@)[i as int]);
            return false;
        }
        assert(texts(a@)[i as int] == texts(b@)[i as int]);
        i += 1;
    }
    assert(texts(a@) =~= texts(b@));
    true
}

fn is_text(value: &Option<String>, text: &str) -> (r: bool)
    ensures
        r == (opt_text(*value) == Some(text@)),
{
    match value {
        Some(value) => same_text(value.as_str(), text),
        None => false,
    }
}

/// A workspace as its table tells of it, with two facts about its paths: whether one of them is
/// inside a subsystem for another system, and whether all are there with a directory among them.
#[derive(Debug, PartialEq, Eq)]
pub struct WorkspaceRow {
    pub workspace_id: i64,
    pub paths: Vec<String>,
    pub identity_paths: Option<Vec<String>>,
    pub session_id: Option<String>,
    pub timestamp: String,
    pub has_wsl_path: bool,
    pub on_disk: bool,
}

/// The same with its timestamp read.
#[derive(Debug, PartialEq, Eq)]
pub struct WorkspaceRecord {
    pub workspace_id: i64,
    pub paths: Vec<String>,
    pub identity_paths: Option<Vec<String>>,
    pub session_id: Option<String>,
    pub timestamp: Moment,
    pub has_wsl_path: bool,
    pub on_disk: bool,
}

#[verifier::ext_equal]
pub struct RecordModel {
    pub workspace_id: i64,
    pub paths: Seq<Seq<char>>,
    pub identity_paths: Option<Seq<Seq<char>>>,
    pub session_id: Option<Seq<char>>,
    pub timestamp: Moment,
    pub has_wsl_path: bool,
    pub on_disk: bool,
}

pub open spec fn opt_list(list: Option<Vec<String>>) -> Option<Seq<Seq<char>>> {
    match list {
        Some(list) => Some(texts(list@)),
        None => None,
    }
}

impl View for WorkspaceRecord {
    type V = RecordModel;

    open spec fn view(&self) -> RecordModel {
        RecordModel {
            workspace_id: self.workspace_id,
            paths: texts(self.paths@),
            identity_paths: opt_list(self.identity_paths),
            session_id: opt_text(self.session_id),
            timestamp: self.timestamp,
            has_wsl_path: self.has_wsl_path,
            on_disk: self.on_disk,
        }
    }
}

pub open spec fn record_models(records: Seq<WorkspaceRecord>) -> Seq<RecordModel> {
    records.map_values(|r: WorkspaceRecord| r@)
}

/// A record that a row gives: the timestamp is what its text says, and the present where it says
/// nothing.
pub open spec fn read_from(record: RecordModel, row: WorkspaceRow) -> bool {
    &&& record.workspace_id == row.workspace_id
    &&& record.paths == texts(row.paths@)
    &&& record.identity_paths == opt_list(row.identity_paths)
    &&& record.session_id == opt_text(row.session_id)
    &&& record.has_wsl_path == row.has_wsl_path
    &&& record.on_disk == row.on_disk
    &&& moment_in_text(row.timestamp@, timestamp_format()) matches Some((seconds, nanos)) ==> record.timestamp == (
    Moment { seconds, nanos })
}

/// Whether everything is there and a directory among it: for each path what was found of it, and
/// whether that is a directory.
pub open spec fn exist_with_directory(found: Seq<Option<bool>>) -> bool {
    &&& forall|i: int| 0 <= i < found.len() ==> #[trigger] found[i] is Some
    &&& exists|i: int| 0 <= i < found.len() && #[trigger] found[i] == Some(true)
}

/// Whether all paths exist and one of them is a directory.
pub fn all_paths_exist_with_a_directory(found: &Vec<Option<bool>>) -> (r: bool)
    ensures
        r == exist_with_directory(found@),
{
    let mut any_dir = false;
    let mut i: usize = 0;
    while i < found.len()
        invariant
            i <= found@.len(),
            forall|j: int| 0 <= j < i ==> #[trigger] found@[j] is Some,
            any_dir == exists|j: int| 0 <= j < i && #[trigger] found@[j] == Some(true),
        decreases found@.len() - i,
    {
        match found[i] {
            None => {
                assert(found@[i as int] is None);
                return false;
            },
            Some(is_dir) => {
                if is_dir {
                    any_dir = true;
                    assert(found@[i as int] == Some(true));
                }
            },
        }
        i += 1;
    }
    any_dir
}

/// Whether a path on Windows leads into a subsystem for another system.
pub fn contains_wsl_path(windows: bool, wsl: &Vec<bool>) -> (r: bool)
    ensures
        r == (windows && exists|i: int| 0 <= i < wsl@.len() && #[trigger] wsl@[i]),
{
    if !windows {
        return false;
    }
    let mut i: usize = 0;
    while i < wsl.len()
        invariant
            i <= wsl@.len(),
            windows,
            forall|j: int| 0 <= j < i ==> !#[trigger] wsl@[j],
        decreases wsl@.len() - i,
    {
        if wsl[i] {
            assert(wsl@[i as int]);
            return true;
        }
        i += 1;
    }
    false
}

/// A workspace to offer for reopening.
#[derive(Debug, PartialEq, Eq)]
pub struct RecentWorkspace {
    pub workspace_id: i64,
    pub location: SerializedWorkspaceLocation,
    pub paths: Vec<String>,
    pub identity_paths: Vec<String>,
    pub timestamp: Moment,
}

#[verifier::ext_equal]
pub struct RecentModel {
    pub workspace_id: i64,
    pub paths: Seq<Seq<char>>,
    pub identity_paths: Seq<Seq<char>>,
    pub timestamp: Moment,
}

impl View for RecentWorkspace {
    type V = RecentModel;

    open spec fn view(&self) -> RecentModel {
        RecentModel {
            workspace_id: self.workspace_id,
            paths: texts(self.paths@),
            identity_paths: texts(self.identity_paths@),
            timestamp: self.timestamp,
        }
    }
}

pub open spec fn recent_models(list: Seq<RecentWorkspace>) -> Seq<RecentModel> {
    list.map_values(|w: RecentWorkspace| w@)
}

impl Clone for RecentWorkspace {
    fn clone(&self) -> (r: Self)
        ensures
            r@ == self@,
    {
        RecentWorkspace {
            workspace_id: self.workspace_id,
            location: self.location,
            paths: clone_list(&self.paths),
            identity_paths: clone_list(&self.identity_paths),
            timestamp: self.timestamp,
        }
    }
}

impl RecentWorkspace {
    /// The paths by which the workspace is grouped with others.
    pub fn project_group_key(&self) -> (r: Vec<String>)
        ensures
            texts(r@) == self@.identity_paths,
    {
        clone_list(&self.identity_paths)
    }
}

/// The paths that tell which project a workspace belongs to: its own where none were kept.
pub open spec fn identity(record: RecordModel) -> Seq<Seq<char>> {
    match record.identity_paths {
        Some(paths) => paths,
        None => record.paths,
    }
}

/// A workspace is offered where it has paths, all of them here and still there.
pub open spec fn offered(record: RecordModel) -> bool {
    record.paths.len() > 0 && !record.has_wsl_path && record.on_disk
}

pub open spec fn offer(record: RecordModel) -> RecentModel {
    RecentModel {
        workspace_id: record.workspace_id,
        paths: record.paths,
        identity_paths: identity(record),
        timestamp: record.timestamp,
    }
}

/// The workspaces to offer, in the order of the table.
pub open spec fn offers(records: Seq<RecordModel>) -> Seq<RecentModel>
    decreases records.len(),
{
    if records.len() == 0 {
        Seq::empty()
    } else if offered(records.last()) {
        offers(records.drop_last()).push(offer(records.last()))
    } else {
        offers(records.drop_last())
    }
}

/// The place of the first workspace of a project, or the length of the list.
pub open spec fn project_place(list: Seq<RecentModel>, key: Seq<Seq<char>>) -> int
    decreases list.len(),
{
    if list.len() == 0 {
        0
    } else if list[0].identity_paths == key {
        0
    } else {
        1 + project_place(list.skip(1), key)
    }
}

/// One workspace of each project: the newest, in the place of the first.
pub open spec fn one_per_project(list: Seq<RecentModel>) -> Seq<RecentModel>
    decreases list.len(),
{
    if list.len() == 0 {
        Seq::empty()
    } else {
        let before = one_per_project(list.drop_last());
        let new = list.last();
        let place = project_place(before, new.identity_paths);
        if place >= before.len() {
            before.push(new)
        } else if new.timestamp.spec_after(before[place].timestamp) {
            before.update(place, new)
        } else {
            before
        }
    }
}

proof fn lemma_project_place(list: Seq<RecentModel>, key: Seq<Seq<char>>)
    ensures
        0 <= project_place(list, key) <= list.len(),
        project_place(list, key) < list.len() ==> list[project_place(list, key)].identity_paths == key,
        forall|i: int| 0 <= i < project_place(list, key) ==> (#[trigger] list[i]).identity_paths != key,
    decreases list.len(),
{
    if list.len() > 0 && list[0].identity_paths != key {
        let rest = list.skip(1);
        lemma_project_place(rest, key);
        assert forall|i: int| 0 <= i < project_place(list, key) implies (#[trigger] list[i]).identity_paths
            != key by {
            if i > 0 {
                assert(list[i] == rest[i - 1]);
            }
        }
    }
}

proof fn lemma_project_place_is(list: Seq<RecentModel>, key: Seq<Seq<char>>, place: int)
    requires
        0 <= place <= list.len(),
        place < list.len() ==> list[place].identity_paths == key,
        forall|i: int| 0 <= i < place ==> (#[trigger] list[i]).identity_paths != key,
    ensures
        project_place(list, key) == place,
{
    lemma_project_place(list, key);
    let found = project_place(list, key);
    if found < place {
        assert(list[found].identity_paths != key);
    }
}

/// No project is listed twice.
pub open spec fn projects_once(list: Seq<RecentModel>) -> bool {
    forall|i: int, j: int| #![trigger list[i], list[j]]
        0 <= i < j < list.len() ==> list[i].identity_paths != list[j].identity_paths
}

/// A workspace of the same project is listed that is not older.
pub open spec fn listed_for(list: Seq<RecentModel>, workspace: RecentModel) -> bool {
    exists|j: int|
        0 <= j < list.len() && (#[trigger] list[j]).identity_paths == workspace.identity_paths
            && !workspace.timestamp.spec_after(list[j].timestamp)
}

proof fn lemma_projects_once(list: Seq<RecentModel>)
    ensures
        projects_once(one_per_project(list)),
    decreases list.len(),
{
    if list.len() > 0 {
        let new = list.last();
        lemma_projects_once(list.drop_last());
        let before = one_per_project(list.drop_last());
        lemma_project_place(before, new.identity_paths);
        let after = one_per_project(list);
        let place = project_place(before, new.identity_paths);
        assert forall|i: int, j: int| #![trigger after[i], after[j]] 0 <= i < j < after.len() implies
            after[i].identity_paths != after[j].identity_paths by {
            if j < before.len() {
                assert(before[i].identity_paths != before[j].identity_paths);
                assert(after[i].identity_paths == before[i].identity_paths);
                assert(after[j].identity_paths == before[j].identity_paths);
            } else {
                assert(before[i].identity_paths != new.identity_paths);
            }
        }
    }
}

proof fn lemma_listed(list: Seq<RecentModel>, i: int)
    requires
        0 <= i < list.len(),
    ensures
        listed_for(one_per_project(list), list[i]),
    decreases list.len(),
{
    let front = list.drop_last();
    let new = list.last();
    let before = one_per_project(front);
    let after = one_per_project(list);
    let place = project_place(before, new.identity_paths);
    lemma_project_place(before, new.identity_paths);
    if i < front.len() {
        lemma_listed(front, i);
        assert(front[i] == list[i]);
        let j = choose|j: int|
            0 <= j < before.len() && (#[trigger] before[j]).identity_paths == front[i].identity_paths
                && !front[i].timestamp.spec_after(before[j].timestamp);
        assert(after[j].identity_paths == before[j].identity_paths);
        assert(!list[i].timestamp.spec_after(after[j].timestamp));
    } else if place >= before.len() {
        assert(after[before.len() as int] == new);
    } else {
        assert(after[place].identity_paths == new.identity_paths);
    }
}

proof fn lemma_given(list: Seq<RecentModel>, j: int)
    requires
        0 <= j < one_per_project(list).len(),
    ensures
        list.contains(one_per_project(list)[j]),
    decreases list.len(),
{
    if list.len() > 0 {
        let front = list.drop_last();
        let before = one_per_project(front);
        let after = one_per_project(list);
        lemma_project_place(before, list.last().identity_paths);
        if j < before.len() && after[j] == before[j] {
            lemma_given(front, j);
            let k = choose|k: int| 0 <= k < front.len() && front[k] == before[j];
            assert(list[k] == after[j]);
        } else {
            assert(list[list.len() - 1] == after[j]);
        }
    }
}

/// No project is listed twice, every workspace's project is listed with a workspace that is not
/// older, and what is listed was given.
pub proof fn lemma_one_per_project(list: Seq<RecentModel>)
    ensures
        projects_once(one_per_project(list)),
        forall|i: int| 0 <= i < list.len() ==> listed_for(one_per_project(list), #[trigger] list[i]),
        forall|j: int| 0 <= j < one_per_project(list).len() ==> list.contains(#[trigger] one_per_project(list)[j]),
{
    lemma_projects_once(list);
    assert forall|i: int| 0 <= i < list.len() implies listed_for(one_per_project(list), #[trigger] list[i]) by {
        lemma_listed(list, i);
    }
    assert forall|j: int| 0 <= j < one_per_project(list).len() implies list.contains(
        #[trigger] one_per_project(list)[j],
    ) by {
        lemma_given(list, j);
    }
}

/// Keeps one workspace of each project.
pub fn dedupe_recent_workspaces(workspaces: &Vec<RecentWorkspace>) -> (r: Vec<RecentWorkspace>)
    ensures
        recent_models(r@) == one_per_project(recent_models(workspaces@)),
{
    let ghost all = recent_models(workspaces@);
    let mut result: Vec<RecentWorkspace> = Vec::new();
    let mut n: usize = 0;
    assert(recent_models(result@) =~= one_per_project(all.take(0)));
    while n < workspaces.len()
        invariant
            n <= workspaces@.len(),
            all == recent_models(workspaces@),
            recent_models(result@) == one_per_project(all.take(n as int)),
        decreases workspaces@.len() - n,
    {
        let workspace = &workspaces[n];
        let ghost before = recent_models(result@);
        let ghost listed = result@;
        let ghost new = workspace@;
        proof {
            assert(all.take(n + 1).drop_last() =~= all.take(n as int));
            assert(all.take(n + 1).last() == new);
        }
        let mut i: usize = 0;
        while i < result.len() && !same_list(&result[i].identity_paths, &workspace.identity_paths)
            invariant
                i <= result@.len(),
                result@ == listed,
                before == recent_models(listed),
                new == workspace@,
                forall|j: int| 0 <= j < i ==> (#[trigger] before[j]).identity_paths != new.identity_paths,
            decreases result@.len() - i,
        {
            assert(before[i as int] == result@[i as int]@);
            i += 1;
        }
        proof {
            if i < result@.len() {
                assert(before[i as int] == result@[i as int]@);
            }
            lemma_project_place_is(before, new.identity_paths, i as int);
        }
        if i < result.len() {
            if workspace.timestamp.after(result[i].timestamp) {
                result.set(i, workspace.clone());
                assert(recent_models(result@) =~= before.update(i as int, new));
            }
        } else {
            result.push(workspace.clone());
            assert(recent_models(result@) =~= before.push(new));
        }
        n += 1;
    }
    assert(all.take(n as int) =~= all);
    result
}

/// The workspaces of a project.
pub open spec fn of_project(records: Seq<RecordModel>, key: Seq<Seq<char>>) -> Seq<i64>
    decreases records.len(),
{
    if records.len() == 0 {
        Seq::empty()
    } else if identity(records.last()) == key {
        of_project(records.drop_last(), key).push(records.last().workspace_id)
    } else {
        of_project(records.drop_last(), key)
    }
}

/// A workspace is let go where no session of now or of last time holds it, and it is in a
/// subsystem for another system, or else is gone and has not been seen for a week.
pub open spec fn let_go(record: RecordModel, current: Seq<char>, last: Option<Seq<char>>, now: Moment) -> bool {
    &&& !(record.session_id is Some && (record.session_id == Some(current) || record.session_id == last))
    &&& record.has_wsl_path || (!record.on_disk && days_old(now, record.timestamp.seconds, record.timestamp.nanos, 7))
}

/// The workspaces to let go.
pub open spec fn all_let_go(
    records: Seq<RecordModel>,
    current: Seq<char>,
    last: Option<Seq<char>>,
    now: Moment,
) -> Seq<i64>
    decreases records.len(),
{
    if records.len() == 0 {
        Seq::empty()
    } else if let_go(records.last(), current, last, now) {
        all_let_go(records.drop_last(), current, last, now).push(records.last().workspace_id)
    } else {
        all_let_go(records.drop_last(), current, last, now)
    }
}

pub open spec fn opt_str(value: Option<&str>) -> Option<Seq<char>> {
    match value {
        Some(value) => Some(value@),
        None => None,
    }
}

impl WorkspaceDb {
    /// Reads the rows of the table.
    pub fn recent_workspaces(rows: Vec<WorkspaceRow>) -> (r: Vec<WorkspaceRecord>)
        ensures
            r@.len() == rows@.len(),
            forall|i: int| 0 <= i < rows@.len() ==> read_from((#[trigger] r@[i])@, rows@[i]),
    {
        let ghost all = rows@;
        let mut rest = rows;
        let mut records: Vec<WorkspaceRecord> = Vec::new();
        while rest.len() > 0
            invariant
                records@.len() + rest@.len() == all.len(),
                rest@ == all.skip(records@.len() as int),
                forall|i: int| 0 <= i < records@.len() ==> read_from((#[trigger] records@[i])@, all[i]),
            decreases rest@.len(),
        {
            let ghost n = records@.len() as int;
            let row = rest.remove(0);
            assert(row == all[n]);
            assert(rest@ =~= all.skip(n + 1));
            let record = WorkspaceRecord {
                workspace_id: row.workspace_id,
                timestamp: parse_timestamp(row.timestamp.as_str()),
                paths: row.paths,
                identity_paths: row.identity_paths,
                session_id: row.session_id,
                has_wsl_path: row.has_wsl_path,
                on_disk: row.on_disk,
            };
            assert(read_from(record@, all[n]));
            records.push(record);
        }
        records
    }

    /// The workspaces to offer, without regard to the projects they belong to.
    pub fn recent_project_workspaces_ungrouped(records: &Vec<WorkspaceRecord>) -> (r: Vec<RecentWorkspace>)
        ensures
            recent_models(r@) == offers(record_models(records@)),
    {
        let ghost all = record_models(records@);
        let mut result: Vec<RecentWorkspace> = Vec::new();
        let mut n: usize = 0;
        assert(recent_models(result@) =~= offers(all.take(0)));
        while n < records.len()
            invariant
                n <= records@.len(),
                all == record_models(records@),
                recent_models(result@) == offers(all.take(n as int)),
            decreases records@.len() - n,
        {
            let record = &records[n];
            let ghost before = recent_models(result@);
            proof {
                assert(all.take(n + 1).drop_last() =~= all.take(n as int));
                assert(all.take(n + 1).last() == record@);
                assert(texts(record.paths@).len() == record.paths@.len());
            }
            if record.paths.len() > 0 && !record.has_wsl_path && record.on_disk {
                let identity_paths = match &record.identity_paths {
                    Some(paths) => clone_list(paths),
                    None => clone_list(&record.paths),
                };
                let workspace = RecentWorkspace {
                    workspace_id: record.workspace_id,
                    location: SerializedWorkspaceLocation::Local,
                    paths: clone_list(&record.paths),
                    identity_paths,
                    timestamp: record.timestamp,
                };
                assert(workspace@ == offer(record@));
                result.push(workspace);
                assert(recent_models(result@) =~= before.push(offer(record@)));
            }
            n += 1;
        }
        assert(all.take(n as int) =~= all);
        result
    }

    /// The workspaces to offer, one for each project.
    pub fn recent_project_workspaces(records: &Vec<WorkspaceRecord>) -> (r: Vec<RecentWorkspace>)
        ensures
            recent_models(r@) == one_per_project(offers(record_models(records@))),
    {
        dedupe_recent_workspaces(&Self::recent_project_workspaces_ungrouped(records))
    }

    /// The workspace to offer first.
    pub fn last_workspace(records: &Vec<WorkspaceRecord>) -> (r: Option<RecentWorkspace>)
        ensures
            ({
                let list = one_per_project(offers(record_models(records@)));
                match r {
                    Some(workspace) => list.len() > 0 && workspace@ == list[0],
                    None => list.len() == 0,
                }
            }),
    {
        let list = Self::recent_project_workspaces(records);
        assert(recent_models(list@).len() == list@.len());
        if list.len() > 0 {
            assert(recent_models(list@)[0] == list@[0]@);
            Some(list[0].clone())
        } else {
            None
        }
    }

    /// The workspaces to delete with one that is offered: all of its project.
    pub fn delete_recent_workspace_group(records: &Vec<WorkspaceRecord>, target: &RecentWorkspace) -> (r: Vec<i64>)
        ensures
            r@ == of_project(record_models(records@), target@.identity_paths),
    {
        let ghost all = record_models(records@);
        let ghost key = target@.identity_paths;
        let mut ids: Vec<i64> = Vec::new();
        let mut n: usize = 0;
        assert(ids@ =~= of_project(all.take(0), key));
        while n < records.len()
            invariant
                n <= records@.len(),
                all == record_models(records@),
                key == target@.identity_paths,
                ids@ == of_project(all.take(n as int), key),
            decreases records@.len() - n,
        {
            let record = &records[n];
            proof {
                assert(all.take(n + 1).drop_last() =~= all.take(n as int));
                assert(all.take(n + 1).last() == record@);
            }
            let same = match &record.identity_paths {
                Some(paths) => same_list(paths, &target.identity_paths),
                None => same_list(&record.paths, &target.identity_paths),
            };
            if same {
                ids.push(record.workspace_id);
            }
            n += 1;
        }
        assert(all.take(n as int) =~= all);
        ids
    }

    /// The workspaces to let go.
    pub fn garbage_collect_workspaces(
        records: &Vec<WorkspaceRecord>,
        current_session_id: &str,
        last_session_id: Option<&str>,
        now: Moment,
    ) -> (r: Vec<i64>)
        ensures
            r@ == all_let_go(record_models(records@), current_session_id@, opt_str(last_session_id), now),
    {
        let ghost all = record_models(records@);
        let ghost current = current_session_id@;
        let ghost last = opt_str(last_session_id);
        let mut ids: Vec<i64> = Vec::new();
        let mut n: usize = 0;
        assert(ids@ =~= all_let_go(all.take(0), current, last, now));
        while n < records.len()
            invariant
                n <= records@.len(),
                all == record_models(records@),
                current == current_session_id@,
                last == opt_str(last_session_id),
                ids@ == all_let_go(all.take(n as int), current, last, now),
            decreases records@.len() - n,
        {
            let record = &records[n];
            proof {
                assert(all.take(n + 1).drop_last() =~= all.take(n as int));
                assert(all.take(n + 1).last() == record@);
            }
            let held_now = is_text(&record.session_id, current_session_id);
            let held_last = match last_session_id {
                Some(last) => is_text(&record.session_id, last),
                None => false,
            };
            if !held_now && !held_last {
                if record.has_wsl_path || (!record.on_disk && week_old(now, record.timestamp)) {
                    ids.push(record.workspace_id);
                }
            }
            n += 1;
        }
        assert(all.take(n as int) =~= all);
        ids
    }
}

/// A workspace that a session holds is never let go, and neither is one whose paths are there and
/// lead into no other system.
pub proof fn lemma_held_is_kept(record: RecordModel, current: Seq<char>, last: Option<Seq<char>>, now: Moment)
    requires
        record.session_id == Some(current) || (record.session_id is Some && record.session_id == last) || (
        record.on_disk && !record.has_wsl_path),
    ensures
        !let_go(record, current, last, now),
{
}

impl WorkspaceDb {
    /// Whether a migration that has been run may differ from the one in the program: where both
    /// make the table of connections, which was once shipped wrong.
    pub fn should_allow_migration_change(_index: usize, old: &str, new: &str) -> (r: bool)
        ensures
            r == ("CREATE TABLE ssh_connections"@.is_prefix_of(old@)
                && "CREATE TABLE ssh_connections"@.is_prefix_of(new@)),
    {
        starts_with(old, "CREATE TABLE ssh_connections") && starts_with(new, "CREATE TABLE ssh_connections")
    }
}

/// The query that deletes the items of a workspace that are not among `count` given ones.
pub open spec fn delete_query(table: Seq<char>, count: nat) -> Seq<char> {
    "DELETE FROM "@ + table + " WHERE workspace_id = ? AND item_id NOT IN ("@ + joined(
        Seq::new(count, |i: int| "?"@),
        ", "@,
    ) + ")"@
}

/// A query with the values that it binds: the workspace, then the items to spare.
#[derive(Debug, PartialEq, Eq)]
pub struct DeleteItems {
    pub query: String,
    pub workspace_id: i64,
    pub item_ids: Vec<u64>,
}

/// The query that deletes a workspace's items but those that are alive.
pub fn delete_unloaded_items(alive_items: Vec<u64>, workspace_id: i64, table: &str) -> (r: DeleteItems)
    ensures
        r.query@ == delete_query(table@, alive_items@.len()),
        r.workspace_id == workspace_id,
        r.item_ids == alive_items,
{
    let mut marks: Vec<String> = Vec::new();
    let mut i: usize = 0;
    while i < alive_items.len()
        invariant
            i <= alive_items@.len(),
            texts(marks@) == Seq::new(i as nat, |k: int| "?"@),
        decreases alive_items@.len() - i,
    {
        let ghost before = marks@;
        marks.push("?".to_owned());
        assert(texts(marks@) =~= texts(before).push("?"@));
        assert(texts(marks@) =~= Seq::new((i + 1) as nat, |k: int| "?"@));
        i += 1;
    }
    assert(texts(marks@) =~= Seq::new(alive_items@.len(), |k: int| "?"@));
    let places = join(&marks, ", ");
    let query = "DELETE FROM ".to_owned().concat(table).concat(
        " WHERE workspace_id = ? AND item_id NOT IN (",
    ).concat(places.as_str()).concat(")");
    DeleteItems { query, workspace_id, item_ids: alive_items }
}

/// The paths are all there with a directory among them: one that is gone spoils it, one more file
/// changes nothing, and with one more directory it is enough that the others are there.
pub proof fn lemma_found_together(found: Seq<Option<bool>>)
    ensures
        !exist_with_directory(Seq::empty()),
        !exist_with_directory(found.push(None)),
        exist_with_directory(found.push(Some(false))) == exist_with_directory(found),
        exist_with_directory(found.push(Some(true))) == !found.contains(None),
{
    let gone = found.push(None);
    assert(gone[found.len() as int] is None);
    let file = found.push(Some(false));
    assert(forall|i: int| 0 <= i < found.len() ==> found[i] == #[trigger] file[i]);
    assert(forall|i: int| 0 <= i < found.len() ==> #[trigger] found[i] == file[i]);
    let directory = found.push(Some(true));
    assert(directory[found.len() as int] == Some(true));
    assert(forall|i: int| 0 <= i < found.len() ==> found[i] == #[trigger] directory[i]);
    assert(forall|i: int| 0 <= i < found.len() ==> #[trigger] found[i] == directory[i]);
    if exist_with_directory(directory) && found.contains(None) {
        let k = choose|k: int| 0 <= k < found.len() && found[k] is None;
        assert(directory[k] is None);
    }
    if !found.contains(None) {
        assert forall|i: int| 0 <= i < directory.len() implies #[trigger] directory[i] is Some by {
            if i < found.len() && found[i] is None {
                assert(found.contains(found[i]));
            }
        }
    }
}

/// The workspaces that are offered are those with paths that are on this system and still there, in
/// their order, each with the paths that tell its project: those that were kept for that, else its
/// own.
pub proof fn lemma_what_is_offered(records: Seq<RecordModel>)
    ensures
        offers(records) == records.filter(
            |r: RecordModel| r.paths.len() > 0 && r.on_disk && !r.has_wsl_path,
        ).map_values(
            |r: RecordModel|
                RecentModel {
                    workspace_id: r.workspace_id,
                    paths: r.paths,
                    identity_paths: if r.identity_paths is Some {
                        r.identity_paths->0
                    } else {
                        r.paths
                    },
                    timestamp: r.timestamp,
                },
        ),
    decreases records.len(),
{
    let pred = |r: RecordModel| r.paths.len() > 0 && r.on_disk && !r.has_wsl_path;
    let made = |r: RecordModel|
        RecentModel {
            workspace_id: r.workspace_id,
            paths: r.paths,
            identity_paths: if r.identity_paths is Some {
                r.identity_paths->0
            } else {
                r.paths
            },
            timestamp: r.timestamp,
        };
    reveal(Seq::filter);
    if records.len() == 0 {
        assert(offers(records) =~= records.filter(pred).map_values(made));
    } else {
        let front = records.drop_last();
        lemma_what_is_offered(front);
        if pred(records.last()) {
            assert(records.filter(pred).map_values(made) =~= front.filter(pred).map_values(made).push(
                made(records.last()),
            ));
        }
    }
}

/// The workspaces of a project are those that have its paths, in their order.
pub proof fn lemma_project_members(records: Seq<RecordModel>, key: Seq<Seq<char>>)
    ensures
        of_project(records, key) == records.filter(
            |r: RecordModel|
                if r.identity_paths is Some {
                    r.identity_paths->0 == key
                } else {
                    r.paths == key
                },
        ).map_values(|r: RecordModel| r.workspace_id),
    decreases records.len(),
{
    let pred = |r: RecordModel|
        if r.identity_paths is Some {
            r.identity_paths->0 == key
        } else {
            r.paths == key
        };
    let id = |r: RecordModel| r.workspace_id;
    reveal(Seq::filter);
    if records.len() == 0 {
        assert(of_project(records, key) =~= records.filter(pred).map_values(id));
    } else {
        let front = records.drop_last();
        lemma_project_members(front, key);
        if pred(records.last()) {
            assert(records.filter(pred).map_values(id) =~= front.filter(pred).map_values(id).push(id(records.last())));
        }
    }
}

/// Of the workspaces that no session of now or of last time holds, those in another system are let
/// go, and those that have been gone for seven days; the others are kept.
pub proof fn lemma_what_is_let_go(
    records: Seq<RecordModel>,
    current: Seq<char>,
    last: Option<Seq<char>>,
    now: Moment,
)
    ensures
        all_let_go(records, current, last, now) == records.filter(
            |r: RecordModel|
                r.session_id != Some(current) && (r.session_id is None || r.session_id != last) && (r.has_wsl_path || (
                !r.on_disk && days_old(now, r.timestamp.seconds, r.timestamp.nanos, 7))),
        ).map_values(|r: RecordModel| r.workspace_id),
    decreases records.len(),
{
    let pred = |r: RecordModel|
        r.session_id != Some(current) && (r.session_id is None || r.session_id != last) && (r.has_wsl_path || (
        !r.on_disk && days_old(now, r.timestamp.seconds, r.timestamp.nanos, 7)));
    let id = |r: RecordModel| r.workspace_id;
    reveal(Seq::filter);
    if records.len() == 0 {
        assert(all_let_go(records, current, last, now) =~= records.filter(pred).map_values(id));
    } else {
        let front = records.drop_last();
        lemma_what_is_let_go(front, current, last, now);
        if pred(records.last()) {
            assert(records.filter(pred).map_values(id) =~= front.filter(pred).map_values(id).push(id(records.last())));
        }
    }
}

/// A workspace behind the others does not move the first place of their projects.
proof fn lemma_first_place_stays(front: Seq<RecentModel>, new: RecentModel, key: Seq<Seq<char>>)
    requires
        project_place(front, key) < front.len(),
    ensures
        project_place(front.push(new), key) == project_place(front, key),
{
    let list = front.push(new);
    let place = project_place(front, key);
    lemma_project_place(front, key);
    assert(list[place] == front[place]);
    assert forall|m: int| 0 <= m < place implies (#[trigger] list[m]).identity_paths != key by {
        assert(list[m] == front[m]);
    }
    lemma_project_place_is(list, key, place);
}

/// A project that is listed is met somewhere.
proof fn lemma_listed_is_met(list: Seq<RecentModel>, j: int)
    requires
        0 <= j < one_per_project(list).len(),
    ensures
        project_place(list, one_per_project(list)[j].identity_paths) < list.len(),
{
    let key = one_per_project(list)[j].identity_paths;
    lemma_given(list, j);
    let k = choose|k: int| 0 <= k < list.len() && list[k] == one_per_project(list)[j];
    lemma_project_place(list, key);
    if project_place(list, key) >= list.len() {
        assert(list[k].identity_paths != key);
    }
}

/// A project that is not listed is first met with a workspace behind the others.
proof fn lemma_new_project_met(front: Seq<RecentModel>, new: RecentModel)
    requires
        project_place(one_per_project(front), new.identity_paths) >= one_per_project(front).len(),
    ensures
        project_place(front.push(new), new.identity_paths) == front.len(),
{
    let list = front.push(new);
    let before = one_per_project(front);
    lemma_project_place(before, new.identity_paths);
    assert forall|m: int| 0 <= m < front.len() implies (#[trigger] list[m]).identity_paths
        != new.identity_paths by {
        lemma_listed(front, m);
        assert(list[m] == front[m]);
        let j = choose|j: int|
            0 <= j < before.len() && (#[trigger] before[j]).identity_paths == front[m].identity_paths
                && !front[m].timestamp.spec_after(before[j].timestamp);
        assert(before[j].identity_paths != new.identity_paths);
    }
    lemma_project_place_is(list, new.identity_paths, front.len() as int);
}

proof fn lemma_two_in_order(list: Seq<RecentModel>, i: int, j: int)
    requires
        0 <= i < j < one_per_project(list).len(),
    ensures
        project_place(list, one_per_project(list)[i].identity_paths) < project_place(
            list,
            one_per_project(list)[j].identity_paths,
        ),
    decreases list.len(),
{
    let front = list.drop_last();
    let new = list.last();
    let before = one_per_project(front);
    assert(list =~= front.push(new));
    lemma_project_place(before, new.identity_paths);
    lemma_listed_is_met(front, i);
    lemma_first_place_stays(front, new, before[i].identity_paths);
    if j < before.len() {
        lemma_two_in_order(front, i, j);
        lemma_listed_is_met(front, j);
        lemma_first_place_stays(front, new, before[j].identity_paths);
    } else {
        lemma_new_project_met(front, new);
    }
}

/// The projects are listed in the order in which they are first met.
pub proof fn lemma_projects_in_order(list: Seq<RecentModel>)
    ensures
        forall|i: int, j: int|
            #![trigger one_per_project(list)[i], one_per_project(list)[j]]
            0 <= i < j < one_per_project(list).len() ==> project_place(list, one_per_project(list)[i].identity_paths)
                < project_place(list, one_per_project(list)[j].identity_paths) < list.len(),
{
    assert forall|i: int, j: int|
        #![trigger one_per_project(list)[i], one_per_project(list)[j]]
        0 <= i < j < one_per_project(list).len() implies project_place(list, one_per_project(list)[i].identity_paths)
        < project_place(list, one_per_project(list)[j].identity_paths) < list.len() by {
        lemma_two_in_order(list, i, j);
        lemma_listed_is_met(list, j);
    }
}

/// The first place of a project is where one of its workspaces stands and none before.
pub proof fn lemma_project_found(list: Seq<RecentModel>, key: Seq<Seq<char>>, place: int)
    requires
        0 <= place < list.len(),
    ensures
        project_place(list, key) == place <==> list[place].identity_paths == key && (forall|i: int|
            0 <= i < place ==> (#[trigger] list[i]).identity_paths != key),
{
    lemma_project_place(list, key);
    if list[place].identity_paths == key && (forall|i: int|
        0 <= i < place ==> (#[trigger] list[i]).identity_paths != key) {
        lemma_project_place_is(list, key, place);
    }
}

/// The query that deletes the other items has one mark for each item to spare, between commas, and
/// one for the workspace.
pub proof fn lemma_delete_marks(table: Seq<char>, count: nat)
    ensures
        delete_query(table, 0) == "DELETE FROM "@ + table + " WHERE workspace_id = ? AND item_id NOT IN ()"@,
        delete_query(table, 1) == "DELETE FROM "@ + table + " WHERE workspace_id = ? AND item_id NOT IN (?)"@,
        count > 0 ==> delete_query(table, count + 1) == delete_query(table, count).drop_last() + ", ?)"@,
{
    let head = "DELETE FROM "@ + table;
    reveal_strlit(" WHERE workspace_id = ? AND item_id NOT IN (");
    reveal_strlit(" WHERE workspace_id = ? AND item_id NOT IN ()");
    reveal_strlit(" WHERE workspace_id = ? AND item_id NOT IN (?)");
    reveal_strlit("?");
    reveal_strlit(")");
    reveal_strlit(", ");
    reveal_strlit(", ?)");
    let middle = " WHERE workspace_id = ? AND item_id NOT IN ("@;
    let none = Seq::new(0nat, |i: int| "?"@);
    assert(joined(none, ", "@) =~= Seq::<char>::empty());
    assert(middle + ")"@ =~= " WHERE workspace_id = ? AND item_id NOT IN ()"@);
    assert(delete_query(table, 0) =~= head + (middle + ")"@));
    let one = Seq::new(1nat, |i: int| "?"@);
    assert(joined(one, ", "@) == "?"@);
    assert(middle + "?"@ + ")"@ =~= " WHERE workspace_id = ? AND item_id NOT IN (?)"@);
    assert(delete_query(table, 1) =~= head + (middle + "?"@ + ")"@));
    if count > 0 {
        let many = Seq::new(count, |i: int| "?"@);
        let more = Seq::new(count + 1, |i: int| "?"@);
        assert(more.drop_last() =~= many);
        assert(more.last() == "?"@);
        assert(joined(more, ", "@) == joined(many, ", "@) + ", "@ + "?"@);
        assert(", "@ + "?"@ + ")"@ =~= ", ?)"@);
        assert(delete_query(table, count).drop_last() =~= head + middle + joined(many, ", "@));
        assert(delete_query(table, count + 1) =~= head + middle + joined(many, ", "@) + (", "@ + "?"@ + ")"@));
    }
}

/// A record is read column by column.
pub proof fn lemma_record_columns(record: RecordModel, row: WorkspaceRow)
    requires
        read_from(record, row),
    ensures
        record.workspace_id == row.workspace_id,
        record.paths.len() == row.paths@.len(),
        forall|i: int| 0 <= i < row.paths@.len() ==> #[trigger] record.paths[i] == row.paths@[i]@,
        record.identity_paths is Some <==> row.identity_paths is Some,
        record.session_id is Some <==> row.session_id is Some,
        row.session_id is Some ==> record.session_id->0 == row.session_id->0@,
        record.has_wsl_path <==> row.has_wsl_path,
        record.on_disk <==> row.on_disk,
{
}

} // verus!
