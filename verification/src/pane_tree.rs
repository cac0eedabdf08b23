//! The tree of panes of a workspace, and the rows that it is stored as.
//!
//! A row is a group or a pane, and names the group it is in. Reading drops the panes without
//! items and the groups that nothing is left in.

use vstd::prelude::*;
use crate::model::{clone_items, item_models, Axis, ItemModel, PaneModel, SerializedItem, SerializedPane};
use crate::text::{clone_opt, opt_text};

verus! {

/// Panes side by side, with the text of their relative sizes, or one pane.
#[derive(Debug, PartialEq, Eq)]
pub enum SerializedPaneGroup {
    Group { axis: Axis, flexes: Option<String>, children: Vec<SerializedPaneGroup> },
    Pane(SerializedPane),
}

#[verifier::ext_equal]
pub enum PaneGroupModel {
    Group { axis: Axis, flexes: Option<Seq<char>>, children: Seq<PaneGroupModel> },
    Pane(PaneModel),
}

pub open spec fn group_model(group: SerializedPaneGroup) -> PaneGroupModel
    decreases group,
{
    match group {
        SerializedPaneGroup::Group { axis, flexes, children } => PaneGroupModel::Group {
            axis,
            flexes: opt_text(flexes),
            children: group_models(children@),
        },
        SerializedPaneGroup::Pane(pane) => PaneGroupModel::Pane(pane@),
    }
}

pub open spec fn group_models(groups: Seq<SerializedPaneGroup>) -> Seq<PaneGroupModel>
    decreases groups,
{
    if groups.len() == 0 {
        Seq::empty()
    } else {
        group_models(groups.drop_last()).push(group_model(groups.last()))
    }
}

proof fn lemma_group_models(groups: Seq<SerializedPaneGroup>)
    ensures
        group_models(groups).len() == groups.len(),
        forall|i: int| 0 <= i < groups.len() ==> #[trigger] group_models(groups)[i] == group_model(groups[i]),
    decreases groups.len(),
{
    if groups.len() > 0 {
        lemma_group_models(groups.drop_last());
    }
}

proof fn lemma_group_models_push(groups: Seq<SerializedPaneGroup>, group: SerializedPaneGroup)
    ensures
        group_models(groups.push(group)) == group_models(groups).push(group_model(group)),
{
    assert(groups.push(group).drop_last() =~= groups);
}

/// A row as it is selected: what is not given is absent.
#[derive(Debug, PartialEq, Eq)]
pub struct PaneTreeRow {
    /// The group that the row is in; the tree's root is in none.
    pub parent: Option<i64>,
    pub group_id: Option<i64>,
    pub axis: Option<Axis>,
    pub flexes: Option<String>,
    /// Whether the text of the sizes, where there is one, is a list of numbers.
    pub flexes_readable: bool,
    pub pane_id: Option<i64>,
    pub active: Option<bool>,
    pub pinned_count: Option<usize>,
    /// The items of the pane, in order.
    pub items: Vec<SerializedItem>,
}

#[verifier::ext_equal]
pub struct RowModel {
    pub parent: Option<int>,
    pub group_id: Option<int>,
    pub axis: Option<Axis>,
    pub flexes: Option<Seq<char>>,
    pub flexes_readable: bool,
    pub pane_id: Option<int>,
    pub active: Option<bool>,
    pub pinned_count: Option<nat>,
    pub items: Seq<ItemModel>,
}

pub open spec fn opt_int(value: Option<i64>) -> Option<int> {
    match value {
        Some(n) => Some(n as int),
        None => None,
    }
}

impl View for PaneTreeRow {
    type V = RowModel;

    open spec fn view(&self) -> RowModel {
        RowModel {
            parent: opt_int(self.parent),
            group_id: opt_int(self.group_id),
            axis: self.axis,
            flexes: opt_text(self.flexes),
            flexes_readable: self.flexes_readable,
            pane_id: opt_int(self.pane_id),
            active: self.active,
            pinned_count: match self.pinned_count {
                Some(n) => Some(n as nat),
                None => None,
            },
            items: item_models(self.items@),
        }
    }
}

pub open spec fn row_models(rows: Seq<PaneTreeRow>) -> Seq<RowModel> {
    rows.map_values(|r: PaneTreeRow| r@)
}

/// Why rows could not be read.
#[derive(Debug, Clone, Copy, PartialEq, Eq, Structural)]
pub enum PaneTreeError {
    /// "Pane Group Child was neither a pane group or a pane"
    NeitherGroupNorPane,
    /// The sizes of a group's children are no list of numbers.
    UnreadableSizes,
}

/// A row that is a group has an id and an axis.
pub open spec fn is_group(row: RowModel) -> bool {
    row.group_id is Some && row.axis is Some
}

/// Whether the groups in the group `parent`, and the groups in those, end after `depth` levels.
pub open spec fn ends_within(table: Seq<RowModel>, parent: Option<int>, depth: nat) -> bool
    decreases depth,
{
    forall|i: int| #![trigger table[i]]
        0 <= i < table.len() && is_group(table[i]) && table[i].parent == parent ==> depth > 0 && ends_within(
            table,
            table[i].group_id,
            (depth - 1) as nat,
        )
}

/// No group that is reached from the group `parent` is inside itself.
pub open spec fn acyclic(table: Seq<RowModel>, parent: Option<int>) -> bool {
    exists|depth: nat| ends_within(table, parent, depth)
}

/// How many levels of groups there are in the group `parent`.
pub open spec fn levels(table: Seq<RowModel>, parent: Option<int>) -> nat {
    choose|depth: nat|
        #[trigger] ends_within(table, parent, depth) && forall|less: nat|
            less < depth ==> !ends_within(table, parent, less)
}

proof fn lemma_least_depth(table: Seq<RowModel>, parent: Option<int>, depth: nat)
    requires
        ends_within(table, parent, depth),
    ensures
        ends_within(table, parent, levels(table, parent)),
        levels(table, parent) <= depth,
    decreases depth,
{
    if exists|less: nat| less < depth && ends_within(table, parent, less) {
        let less = choose|less: nat| less < depth && ends_within(table, parent, less);
        lemma_least_depth(table, parent, less);
    } else {
        assert(forall|less: nat| less < depth ==> !ends_within(table, parent, less));
        let least = levels(table, parent);
        assert(ends_within(table, parent, least));
    }
}

/// What is in a group has fewer levels than the group.
pub proof fn lemma_deeper(table: Seq<RowModel>, i: int)
    requires
        0 <= i < table.len(),
        is_group(table[i]),
        acyclic(table, table[i].parent),
    ensures
        acyclic(table, table[i].group_id),
        levels(table, table[i].group_id) < levels(table, table[i].parent),
{
    let parent = table[i].parent;
    let depth = choose|depth: nat| ends_within(table, parent, depth);
    lemma_least_depth(table, parent, depth);
    let least = levels(table, parent);
    assert(least > 0 && ends_within(table, table[i].group_id, (least - 1) as nat));
    lemma_least_depth(table, table[i].group_id, (least - 1) as nat);
}

/// What the first `n` rows say of the group `parent`: the groups and panes that are directly in
/// it, without the empty ones, or the first error.
pub open spec fn read_first(table: Seq<RowModel>, parent: Option<int>, n: nat) -> Result<
    Seq<PaneGroupModel>,
    PaneTreeError,
>
    decreases levels(table, parent), n,
    when acyclic(table, parent) && n <= table.len()
{
    if n == 0 {
        Ok(Seq::empty())
    } else {
        let row = table[n - 1];
        match read_first(table, parent, (n - 1) as nat) {
            Err(e) => Err(e),
            Ok(before) => if row.parent != parent {
                Ok(before)
            } else if is_group(row) {
                proof {
                    lemma_deeper(table, n - 1);
                }
                if row.flexes is Some && !row.flexes_readable {
                    Err(PaneTreeError::UnreadableSizes)
                } else {
                    match read_first(table, row.group_id, table.len()) {
                        Err(e) => Err(e),
                        Ok(children) => if children.len() == 0 {
                            Ok(before)
                        } else {
                            Ok(before.push(PaneGroupModel::Group { axis: row.axis->0, flexes: row.flexes, children }))
                        },
                    }
                }
            } else if row.pane_id is Some && row.active is Some && row.pinned_count is Some {
                if row.items.len() == 0 {
                    Ok(before)
                } else {
                    Ok(
                        before.push(
                            PaneGroupModel::Pane(
                                PaneModel {
                                    active: row.active->0,
                                    items: row.items,
                                    pinned_count: row.pinned_count->0,
                                },
                            ),
                        ),
                    )
                }
            } else {
                Err(PaneTreeError::NeitherGroupNorPane)
            },
        }
    }
}

/// The groups and panes that are directly in the group `parent`.
pub open spec fn read_group(table: Seq<RowModel>, parent: Option<int>) -> Result<Seq<PaneGroupModel>, PaneTreeError> {
    read_first(table, parent, table.len())
}

/// Every group lies deeper than the group it is in.
spec fn ranks(table: Seq<RowModel>, rank: spec_fn(Option<int>) -> nat) -> bool {
    forall|i: int| #![trigger table[i]]
        0 <= i < table.len() && is_group(table[i]) ==> rank(table[i].group_id) < rank(table[i].parent)
}

/// No group of the whole table is inside itself.
spec fn ordered(table: Seq<RowModel>) -> bool {
    exists|rank: spec_fn(Option<int>) -> nat| ranks(table, rank)
}

proof fn lemma_ranked_ends(table: Seq<RowModel>, rank: spec_fn(Option<int>) -> nat, parent: Option<int>, depth: nat)
    requires
        ranks(table, rank),
        rank(parent) <= depth,
    ensures
        ends_within(table, parent, depth),
    decreases depth,
{
    assert forall|i: int| #![trigger table[i]]
        0 <= i < table.len() && is_group(table[i]) && table[i].parent == parent implies depth > 0 && ends_within(
        table,
        table[i].group_id,
        (depth - 1) as nat,
    ) by {
        lemma_ranked_ends(table, rank, table[i].group_id, (depth - 1) as nat);
    }
}

proof fn lemma_ordered(table: Seq<RowModel>)
    requires
        ordered(table),
    ensures
        forall|parent: Option<int>| acyclic(table, parent),
{
    let rank = choose|rank: spec_fn(Option<int>) -> nat| ranks(table, rank);
    assert forall|parent: Option<int>| acyclic(table, parent) by {
        lemma_ranked_ends(table, rank, parent, rank(parent));
    }
}

/// Every group has a greater id than the group it is in, as groups that are stored one after
/// another have.
pub open spec fn ids_increase(rows: Seq<PaneTreeRow>) -> bool {
    forall|i: int| 0 <= i < rows.len() ==> match ((#[trigger] rows[i]).parent, rows[i].group_id) {
        (Some(parent), Some(id)) => parent < id,
        _ => true,
    }
}

/// Where no row is a group with a smaller or equal id than the group it is in, no group is inside
/// itself.
pub proof fn lemma_increasing_ids_acyclic(rows: Seq<PaneTreeRow>)
    requires
        ids_increase(rows),
    ensures
        forall|parent: Option<int>| acyclic(row_models(rows), parent),
{
    let table = row_models(rows);
    let rank = |id: Option<int>|
        match id {
            None => 0x1_0000_0000_0000_0000nat,
            Some(id) => if i64::MIN <= id <= i64::MAX {
                (i64::MAX - id) as nat
            } else {
                0nat
            },
        };
    assert forall|i: int| #![trigger table[i]] 0 <= i < table.len() && is_group(table[i]) implies rank(
        table[i].group_id,
    ) < rank(table[i].parent) by {
        assert(table[i] == rows[i]@);
    }
    assert(ranks(table, rank));
    lemma_ordered(table);
}

/// Whether every group has a greater id than the group it is in; then no group is inside itself.
pub fn check_ids(rows: &Vec<PaneTreeRow>) -> (r: bool)
    ensures
        r == ids_increase(rows@),
        r ==> forall|parent: Option<int>| acyclic(row_models(rows@), parent),
{
    let mut i: usize = 0;
    while i < rows.len()
        invariant
            i <= rows@.len(),
            forall|k: int| 0 <= k < i ==> match ((#[trigger] rows@[k]).parent, rows@[k].group_id) {
                (Some(parent), Some(id)) => parent < id,
                _ => true,
            },
        decreases rows@.len() - i,
    {
        if let (Some(parent), Some(id)) = (rows[i].parent, rows[i].group_id) {
            if parent >= id {
                assert(!ids_increase(rows@)) by {
                    assert(rows@[i as int].parent == Some(parent));
                }
                return false;
            }
        }
        i += 1;
    }
    proof {
        lemma_increasing_ids_acyclic(rows@);
    }
    true
}

/// Reads the groups and panes that are directly in a group, or at the root.
pub fn get_pane_group(rows: &Vec<PaneTreeRow>, group_id: Option<i64>) -> (r: Result<
    Vec<SerializedPaneGroup>,
    PaneTreeError,
>)
    requires
        acyclic(row_models(rows@), opt_int(group_id)),
    ensures
        match read_group(row_models(rows@), opt_int(group_id)) {
            Ok(groups) => r is Ok && group_models(r->Ok_0@) == groups,
            Err(e) => r is Err && r->Err_0 == e,
        },
    decreases levels(row_models(rows@), opt_int(group_id)),
{
    let ghost table = row_models(rows@);
    let ghost parent = opt_int(group_id);
    let mut groups: Vec<SerializedPaneGroup> = Vec::new();
    let mut n: usize = 0;
    while n < rows.len()
        invariant
            n <= rows@.len(),
            table == row_models(rows@),
            parent == opt_int(group_id),
            acyclic(table, parent),
            read_first(table, parent, n as nat) == Ok::<_, PaneTreeError>(group_models(groups@)),
        decreases rows@.len() - n,
    {
        let row = &rows[n];
        assert(table[n as int] == row@);
        let here = match (row.parent, group_id) {
            (Some(a), Some(b)) => a == b,
            (None, None) => true,
            _ => false,
        };
        assert(here == (table[n as int].parent == parent));
        let ghost before = groups@;
        if here {
            match (row.group_id, row.axis) {
                (Some(id), Some(axis)) => {
                    proof {
                        lemma_deeper(table, n as int);
                        assert(table[n as int].group_id == opt_int(Some(id)));
                    }
                    if row.flexes.is_some() && !row.flexes_readable {
                        proof {
                            lemma_error_stays(table, parent, (n + 1) as nat, table.len());
                        }
                        return Err(PaneTreeError::UnreadableSizes);
                    }
                    match get_pane_group(rows, Some(id)) {
                        Ok(children) => {
                            proof {
                                lemma_group_models(children@);
                            }
                            if children.len() > 0 {
                                let group = SerializedPaneGroup::Group {
                                    axis,
                                    flexes: clone_opt(&row.flexes),
                                    children,
                                };
                                proof {
                                    lemma_group_models_push(before, group);
                                }
                                groups.push(group);
                            }
                        },
                        Err(e) => {
                            proof {
                                lemma_error_stays(table, parent, (n + 1) as nat, table.len());
                            }
                            return Err(e);
                        },
                    }
                },
                _ => match (row.pane_id, row.active, row.pinned_count) {
                    (Some(_), Some(active), Some(pinned_count)) => {
                        let items = clone_items(&row.items);
                        assert(items@.len() == item_models(items@).len());
                        if items.len() > 0 {
                            let pane = SerializedPaneGroup::Pane(
                                SerializedPane::new(items, active, pinned_count),
                            );
                            proof {
                                lemma_group_models_push(before, pane);
                            }
                            groups.push(pane);
                        }
                    },
                    _ => {
                        proof {
                            lemma_error_stays(table, parent, (n + 1) as nat, table.len());
                        }
                        return Err(PaneTreeError::NeitherGroupNorPane);
                    },
                },
            }
        }
        n += 1;
    }
    Ok(groups)
}

proof fn lemma_error_stays(table: Seq<RowModel>, parent: Option<int>, n: nat, m: nat)
    requires
        acyclic(table, parent),
        n <= m <= table.len(),
        read_first(table, parent, n) is Err,
    ensures
        read_first(table, parent, m) == read_first(table, parent, n),
    decreases m,
{
    if n < m {
        lemma_error_stays(table, parent, n, (m - 1) as nat);
    }
}

/// The pane of a workspace that has none stored.
pub open spec fn lone_pane() -> PaneGroupModel {
    PaneGroupModel::Pane(PaneModel { active: true, items: Seq::empty(), pinned_count: 0 })
}

/// Reads the root of the tree; where nothing is stored, an empty active pane.
pub fn get_center_pane_group(rows: &Vec<PaneTreeRow>) -> (r: Result<SerializedPaneGroup, PaneTreeError>)
    requires
        acyclic(row_models(rows@), None),
    ensures
        match read_group(row_models(rows@), None) {
            Ok(groups) => r is Ok && group_model(r->Ok_0) == if groups.len() > 0 {
                groups[0]
            } else {
                lone_pane()
            },
            Err(e) => r is Err && r->Err_0 == e,
        },
{
    match get_pane_group(rows, None) {
        Ok(groups) => {
            proof {
                lemma_group_models(groups@);
            }
            let mut groups = groups;
            if groups.len() > 0 {
                Ok(groups.swap_remove(0))
            } else {
                let children: Vec<SerializedItem> = Vec::new();
                assert(item_models(children@) =~= Seq::empty());
                Ok(SerializedPaneGroup::Pane(SerializedPane { active: true, children, pinned_count: 0 }))
            }
        },
        Err(e) => Err(e),
    }
}

/// What a stored row holds besides the group it is in.
#[derive(Debug, PartialEq, Eq)]
pub enum PaneTreeEntry {
    Group { axis: Axis, flexes: Option<String> },
    Pane(SerializedPane),
}

/// A row to store. Rows are stored in order, and a row names the group that it is in by that
/// group's place among them, together with its own position within that group.
#[derive(Debug, PartialEq, Eq)]
pub struct PaneTreeInsert {
    pub parent: Option<(usize, usize)>,
    pub entry: PaneTreeEntry,
}

#[verifier::ext_equal]
pub enum EntryModel {
    Group { axis: Axis, flexes: Option<Seq<char>> },
    Pane(PaneModel),
}

#[verifier::ext_equal]
pub struct InsertModel {
    pub parent: Option<(int, int)>,
    pub entry: EntryModel,
}

pub open spec fn opt_place(parent: Option<(usize, usize)>) -> Option<(int, int)> {
    match parent {
        Some((group, position)) => Some((group as int, position as int)),
        None => None,
    }
}

impl View for PaneTreeInsert {
    type V = InsertModel;

    open spec fn view(&self) -> InsertModel {
        InsertModel {
            parent: opt_place(self.parent),
            entry: match self.entry {
                PaneTreeEntry::Group { axis, flexes } => EntryModel::Group { axis, flexes: opt_text(flexes) },
                PaneTreeEntry::Pane(pane) => EntryModel::Pane(pane@),
            },
        }
    }
}

pub open spec fn insert_models(inserts: Seq<PaneTreeInsert>) -> Seq<InsertModel> {
    inserts.map_values(|i: PaneTreeInsert| i@)
}

/// The rows of a tree whose first row takes the place `base`: a group comes before all that it
/// holds.
pub open spec fn tree_rows(group: PaneGroupModel, parent: Option<(int, int)>, base: int) -> Seq<InsertModel>
    decreases group,
{
    match group {
        PaneGroupModel::Group { axis, flexes, children } => seq![
            InsertModel { parent, entry: EntryModel::Group { axis, flexes } },
        ] + list_rows(children, base, base + 1),
        PaneGroupModel::Pane(pane) => seq![InsertModel { parent, entry: EntryModel::Pane(pane) }],
    }
}

/// The rows of the children of the group at `owner`, one child after another.
pub open spec fn list_rows(children: Seq<PaneGroupModel>, owner: int, base: int) -> Seq<InsertModel>
    decreases children,
{
    if children.len() == 0 {
        Seq::empty()
    } else {
        let before = list_rows(children.drop_last(), owner, base);
        before + tree_rows(children.last(), Some((owner, children.len() - 1)), base + before.len())
    }
}

/// The rows to store for a tree.
pub fn save_pane_group(group: &SerializedPaneGroup) -> (r: Vec<PaneTreeInsert>)
    ensures
        insert_models(r@) == tree_rows(group_model(*group), None, 0),
{
    let mut inserts: Vec<PaneTreeInsert> = Vec::new();
    assert(insert_models(inserts@) =~= Seq::empty());
    add_rows(group, None, &mut inserts);
    inserts
}

proof fn lemma_insert_models_push(inserts: Seq<PaneTreeInsert>, insert: PaneTreeInsert)
    ensures
        insert_models(inserts.push(insert)) == insert_models(inserts).push(insert@),
{
    assert(insert_models(inserts.push(insert)) =~= insert_models(inserts).push(insert@));
}

fn add_rows(group: &SerializedPaneGroup, parent: Option<(usize, usize)>, inserts: &mut Vec<PaneTreeInsert>)
    ensures
        insert_models(final(inserts)@) == insert_models(old(inserts)@) + tree_rows(
            group_model(*group),
            opt_place(parent),
            old(inserts)@.len() as int,
        ),
    decreases *group,
{
    let ghost start = insert_models(inserts@);
    let base: usize = inserts.len();
    match group {
        SerializedPaneGroup::Group { axis, flexes, children } => {
            let insert = PaneTreeInsert {
                parent,
                entry: PaneTreeEntry::Group { axis: *axis, flexes: clone_opt(flexes) },
            };
            proof {
                lemma_insert_models_push(inserts@, insert);
                lemma_group_models(children@);
            }
            let ghost models = group_models(children@);
            let ghost first = insert@;
            inserts.push(insert);
            let mut i: usize = 0;
            assert(models.take(0) =~= Seq::empty());
            assert(list_rows(models.take(0), base as int, base + 1) =~= Seq::empty());
            while i < children.len()
                invariant
                    i <= children@.len(),
                    start.len() == base,
                    *group == (SerializedPaneGroup::Group { axis: *axis, flexes: *flexes, children: *children }),
                    models == group_models(children@),
                    models.len() == children@.len(),
                    forall|j: int|
                        0 <= j < children@.len() ==> #[trigger] models[j] == group_model(children@[j]),
                    insert_models(inserts@) == start + seq![first] + list_rows(
                        models.take(i as int),
                        base as int,
                        base + 1,
                    ),
                decreases children@.len() - i,
            {
                let ghost before = list_rows(models.take(i as int), base as int, base + 1);
                assert(inserts@.len() == insert_models(inserts@).len());
                proof {
                    assert(models.take(i + 1).drop_last() =~= models.take(i as int));
                    assert(models.take(i + 1).last() == group_model(children@[i as int]));
                    assert(decreases_to!(*group => group->children));
                    assert(decreases_to!(children@ => children@[i as int]));
                }
                add_rows(&children[i], Some((base, i)), inserts);
                assert(insert_models(inserts@) =~= start + seq![first] + list_rows(
                    models.take(i + 1),
                    base as int,
                    base + 1,
                ));
                i += 1;
            }
            proof {
                assert(models.take(i as int) =~= models);
                assert(insert_models(inserts@) =~= start + tree_rows(
                    group_model(*group),
                    opt_place(parent),
                    base as int,
                ));
            }
        },
        SerializedPaneGroup::Pane(pane) => {
            let copy = SerializedPane {
                active: pane.active,
                children: clone_items(&pane.children),
                pinned_count: pane.pinned_count,
            };
            let insert = PaneTreeInsert { parent, entry: PaneTreeEntry::Pane(copy) };
            proof {
                lemma_insert_models_push(inserts@, insert);
            }
            inserts.push(insert);
            assert(insert_models(inserts@) =~= start + tree_rows(
                group_model(*group),
                opt_place(parent),
                base as int,
            ));
        },
    }
}

/// The row that is selected where the `id`-th stored row has taken the id `id`.
pub open spec fn stored_row(insert: InsertModel, id: int) -> RowModel {
    let parent = match insert.parent {
        Some((group, _)) => Some(group),
        None => None,
    };
    match insert.entry {
        EntryModel::Group { axis, flexes } => RowModel {
            parent,
            group_id: Some(id),
            axis: Some(axis),
            flexes,
            flexes_readable: true,
            pane_id: None,
            active: None,
            pinned_count: None,
            items: Seq::empty(),
        },
        EntryModel::Pane(pane) => RowModel {
            parent,
            group_id: None,
            axis: None,
            flexes: None,
            flexes_readable: true,
            pane_id: Some(id),
            active: Some(pane.active),
            pinned_count: Some(pane.pinned_count),
            items: pane.items,
        },
    }
}

/// The rows that are selected after rows have been stored.
pub open spec fn stored_rows(inserts: Seq<InsertModel>) -> Seq<RowModel> {
    Seq::new(inserts.len(), |i: int| stored_row(inserts[i], i))
}

/// What is left of a tree: nothing of a pane without items, nor of a group with nothing left.
pub open spec fn kept(group: PaneGroupModel) -> Seq<PaneGroupModel>
    decreases group,
{
    match group {
        PaneGroupModel::Group { axis, flexes, children } => {
            let left = kept_list(children);
            if left.len() == 0 {
                Seq::empty()
            } else {
                seq![PaneGroupModel::Group { axis, flexes, children: left }]
            }
        },
        PaneGroupModel::Pane(pane) => if pane.items.len() == 0 {
            Seq::empty()
        } else {
            seq![group]
        },
    }
}

pub open spec fn kept_list(children: Seq<PaneGroupModel>) -> Seq<PaneGroupModel>
    decreases children,
{
    if children.len() == 0 {
        Seq::empty()
    } else {
        kept_list(children.drop_last()) + kept(children.last())
    }
}

/// Every row but the first of a tree is in a group of that tree, which comes before it.
proof fn lemma_tree_links(group: PaneGroupModel, parent: Option<(int, int)>, base: int)
    ensures
        tree_rows(group, parent, base).len() > 0,
        tree_rows(group, parent, base)[0].parent == parent,
        forall|i: int| 0 < i < tree_rows(group, parent, base).len() ==> match (#[trigger] tree_rows(
            group,
            parent,
            base,
        )[i]).parent {
            Some((owner, _)) => base <= owner < base + i,
            None => false,
        },
    decreases group,
{
    match group {
        PaneGroupModel::Group { axis, flexes, children } => {
            lemma_list_links(children, base, base + 1);
            let rows = tree_rows(group, parent, base);
            let rest = list_rows(children, base, base + 1);
            assert forall|i: int| 0 < i < rows.len() implies match (#[trigger] rows[i]).parent {
                Some((owner, _)) => base <= owner < base + i,
                None => false,
            } by {
                assert(rows[i] == rest[i - 1]);
            }
        },
        PaneGroupModel::Pane(_) => {},
    }
}

proof fn lemma_list_links(children: Seq<PaneGroupModel>, owner: int, base: int)
    requires
        owner < base,
    ensures
        forall|i: int| 0 <= i < list_rows(children, owner, base).len() ==> match (#[trigger] list_rows(
            children,
            owner,
            base,
        )[i]).parent {
            Some((group, _)) => group == owner || base <= group < base + i,
            None => false,
        },
    decreases children,
{
    if children.len() > 0 {
        let before = list_rows(children.drop_last(), owner, base);
        let place = Some((owner, children.len() - 1));
        lemma_list_links(children.drop_last(), owner, base);
        lemma_tree_links(children.last(), place, base + before.len());
        let last = tree_rows(children.last(), place, base + before.len());
        let rows = list_rows(children, owner, base);
        assert forall|i: int| 0 <= i < rows.len() implies match (#[trigger] rows[i]).parent {
            Some((group, _)) => group == owner || base <= group < base + i,
            None => false,
        } by {
            if i < before.len() {
                assert(rows[i] == before[i]);
            } else {
                assert(rows[i] == last[i - before.len()]);
            }
        }
    }
}

/// Rows that are in other groups change nothing.
proof fn lemma_skip(table: Seq<RowModel>, parent: Option<int>, n: nat, m: nat)
    requires
        acyclic(table, parent),
        n <= m <= table.len(),
        forall|i: int| n <= i < m ==> (#[trigger] table[i]).parent != parent,
    ensures
        read_first(table, parent, m) == read_first(table, parent, n),
    decreases m,
{
    if n < m {
        lemma_skip(table, parent, n, (m - 1) as nat);
        assert(table[m - 1].parent != parent);
    }
}

/// The rows from `base` up to `end` belong together: no other row is in a group among them.
spec fn set_apart(inserts: Seq<InsertModel>, base: int, end: int) -> bool {
    forall|i: int| #![trigger inserts[i]]
        0 <= i < inserts.len() && !(base <= i < end) ==> match inserts[i].parent {
            Some((owner, _)) => !(base <= owner < end),
            None => true,
        }
}

/// A tree that lies among the stored rows is read back as what is left of it.
proof fn lemma_read_tree(inserts: Seq<InsertModel>, group: PaneGroupModel, parent: Option<(int, int)>, base: int)
    requires
        ordered(stored_rows(inserts)),
        0 <= base,
        base + tree_rows(group, parent, base).len() <= inserts.len(),
        inserts.subrange(base, base + tree_rows(group, parent, base).len()) == tree_rows(group, parent, base),
        set_apart(inserts, base, base + tree_rows(group, parent, base).len()),
        parent matches Some((owner, _)) ==> owner < base,
    ensures
        group matches PaneGroupModel::Group { children, .. } ==> read_group(stored_rows(inserts), Some(base))
            == Ok::<_, PaneTreeError>(kept_list(children)),
    decreases group, 0nat,
{
    match group {
        PaneGroupModel::Group { axis, flexes, children } => {
            let table = stored_rows(inserts);
            lemma_ordered(table);
            let rows = tree_rows(group, parent, base);
            let rest = list_rows(children, base, base + 1);
            let end = base + rows.len();
            lemma_tree_links(group, parent, base);
            assert forall|i: int| 0 <= i < base + 1 implies (#[trigger] table[i]).parent != Some(base) by {
                assert(table[i] == stored_row(inserts[i], i));
                if i == base {
                    assert(inserts[i] == rows[0]);
                }
            }
            lemma_skip(table, Some(base), 0, (base + 1) as nat);
            assert(inserts.subrange(base + 1, base + 1 + rest.len()) =~= rest) by {
                assert forall|i: int| 0 <= i < rest.len() implies inserts[base + 1 + i] == rest[i] by {
                    assert(inserts.subrange(base, end)[i + 1] == rows[i + 1]);
                }
            }
            lemma_list_links(children, base, base + 1);
            assert forall|i: int| #![trigger inserts[i]]
                0 <= i < inserts.len() && !(base + 1 <= i < end) implies match inserts[i].parent {
                Some((owner, _)) => !(base + 1 <= owner < end),
                None => true,
            } by {
                if i == base {
                    assert(inserts[i] == rows[0]);
                }
            }
            lemma_read_list(inserts, children, base, base + 1);
            assert forall|i: int| end <= i < table.len() implies (#[trigger] table[i]).parent != Some(base) by {
                assert(table[i] == stored_row(inserts[i], i));
            }
            lemma_skip(table, Some(base), end as nat, table.len());
        },
        PaneGroupModel::Pane(_) => {},
    }
}

proof fn lemma_read_list(inserts: Seq<InsertModel>, children: Seq<PaneGroupModel>, owner: int, base: int)
    requires
        ordered(stored_rows(inserts)),
        0 <= owner < base,
        base + list_rows(children, owner, base).len() <= inserts.len(),
        inserts.subrange(base, base + list_rows(children, owner, base).len()) == list_rows(children, owner, base),
        set_apart(inserts, base, base + list_rows(children, owner, base).len()),
        read_first(stored_rows(inserts), Some(owner), base as nat) == Ok::<_, PaneTreeError>(
            Seq::<PaneGroupModel>::empty(),
        ),
    ensures
        read_first(
            stored_rows(inserts),
            Some(owner),
            (base + list_rows(children, owner, base).len()) as nat,
        ) == Ok::<_, PaneTreeError>(kept_list(children)),
    decreases children, 1nat,
{
    if children.len() > 0 {
        let table = stored_rows(inserts);
        lemma_ordered(table);
        let before = list_rows(children.drop_last(), owner, base);
        let at = base + before.len();
        let place = Some((owner, children.len() - 1));
        let last = tree_rows(children.last(), place, at);
        let end = at + last.len();
        let rows = list_rows(children, owner, base);
        assert(rows == before + last);
        lemma_list_links(children.drop_last(), owner, base);
        lemma_tree_links(children.last(), place, at);
        assert forall|i: int| base <= i < at implies inserts[i] == before[i - base] by {
            assert(inserts.subrange(base, end)[i - base] == rows[i - base]);
        }
        assert forall|i: int| at <= i < end implies inserts[i] == last[i - at] by {
            assert(inserts.subrange(base, end)[i - base] == rows[i - base]);
        }
        assert(inserts.subrange(base, at) =~= before);
        assert(inserts.subrange(at, end) =~= last);
        assert forall|i: int| #![trigger inserts[i]] 0 <= i < inserts.len() && !(base <= i < at) implies match
            inserts[i].parent {
            Some((group, _)) => !(base <= group < at),
            None => true,
        } by {
            if at <= i < end {
                assert(inserts[i] == last[i - at]);
            }
        }
        lemma_read_list(inserts, children.drop_last(), owner, base);
        assert forall|i: int| #![trigger inserts[i]] 0 <= i < inserts.len() && !(at <= i < end) implies match
            inserts[i].parent {
            Some((group, _)) => !(at <= group < end),
            None => true,
        } by {
            if base <= i < at {
                assert(inserts[i] == before[i - base]);
            }
        }
        assert(children.last() == children[children.len() - 1]);
        lemma_read_tree(inserts, children.last(), place, at);
        assert(inserts[at] == last[0]);
        assert(table[at] == stored_row(inserts[at], at));
        let so_far = kept_list(children.drop_last());
        assert(read_first(table, Some(owner), (at + 1) as nat) == Ok::<_, PaneTreeError>(
            so_far + kept(children.last()),
        )) by {
            match children.last() {
                PaneGroupModel::Group { axis, flexes, children: inner } => {
                    assert(table[at].group_id == Some(at));
                    assert(read_first(table, Some(at), table.len()) == Ok::<_, PaneTreeError>(kept_list(inner)));
                    let left = kept_list(inner);
                    if left.len() == 0 {
                        assert(so_far + kept(children.last()) =~= so_far);
                    } else {
                        let group = PaneGroupModel::Group { axis, flexes, children: left };
                        assert(so_far + kept(children.last()) =~= so_far.push(group));
                    }
                },
                PaneGroupModel::Pane(pane) => {
                    if pane.items.len() == 0 {
                        assert(so_far + kept(children.last()) =~= so_far);
                    } else {
                        assert(so_far + kept(children.last()) =~= so_far.push(children.last()));
                    }
                },
            }
        }
        assert forall|i: int| at + 1 <= i < end implies (#[trigger] table[i]).parent != Some(owner) by {
            assert(table[i] == stored_row(inserts[i], i));
            assert(inserts[i] == last[i - at]);
        }
        lemma_skip(table, Some(owner), (at + 1) as nat, end as nat);
    }
}

/// A tree that was stored is read back as it was, without what was empty.
pub proof fn lemma_pane_tree_read_back(group: PaneGroupModel)
    ensures
        acyclic(stored_rows(tree_rows(group, None, 0)), None),
        read_group(stored_rows(tree_rows(group, None, 0)), None) == Ok::<_, PaneTreeError>(kept(group)),
{
    let inserts = tree_rows(group, None, 0);
    let table = stored_rows(inserts);
    lemma_tree_links(group, None, 0);
    let rank = |id: Option<int>|
        match id {
            None => table.len() + 1,
            Some(id) => if 0 <= id <= table.len() {
                (table.len() - id) as nat
            } else {
                0nat
            },
        };
    assert forall|i: int| #![trigger table[i]] 0 <= i < table.len() && is_group(table[i]) implies rank(
        table[i].group_id,
    ) < rank(table[i].parent) by {
        assert(table[i] == stored_row(inserts[i], i));
    }
    assert(ranks(table, rank));
    lemma_ordered(table);
    assert(inserts.subrange(0, inserts.len() as int) =~= inserts);
    lemma_read_tree(inserts, group, None, 0);
    assert(table[0] == stored_row(inserts[0], 0));
    assert(read_first(table, None, 0) == Ok::<_, PaneTreeError>(Seq::<PaneGroupModel>::empty()));
    assert(read_first(table, None, 1) == Ok::<_, PaneTreeError>(kept(group))) by {
        match group {
            PaneGroupModel::Group { axis, flexes, children } => {
                assert(read_first(table, Some(0), table.len()) == Ok::<_, PaneTreeError>(kept_list(children)));
                let left = kept_list(children);
                if left.len() > 0 {
                    let whole = PaneGroupModel::Group { axis, flexes, children: left };
                    assert(Seq::<PaneGroupModel>::empty().push(whole) =~= kept(group));
                }
            },
            PaneGroupModel::Pane(pane) => {
                if pane.items.len() > 0 {
                    assert(Seq::<PaneGroupModel>::empty().push(group) =~= kept(group));
                }
            },
        }
    }
    assert forall|i: int| 1 <= i < table.len() implies (#[trigger] table[i]).parent != None::<int> by {
        assert(table[i] == stored_row(inserts[i], i));
    }
    lemma_skip(table, None, 1, table.len());
}

/// Every pane has an item and every group a child.
pub open spec fn full(group: PaneGroupModel) -> bool
    decreases group,
{
    match group {
        PaneGroupModel::Group { children, .. } => children.len() > 0 && all_full(children),
        PaneGroupModel::Pane(pane) => pane.items.len() > 0,
    }
}

pub open spec fn all_full(children: Seq<PaneGroupModel>) -> bool
    decreases children,
{
    children.len() == 0 || (all_full(children.drop_last()) && full(children.last()))
}

/// Of a tree without anything empty, all is left.
pub proof fn lemma_full_tree_kept(group: PaneGroupModel)
    requires
        full(group),
    ensures
        kept(group) == seq![group],
    decreases group,
{
    match group {
        PaneGroupModel::Group { axis, flexes, children } => {
            lemma_full_list_kept(children);
        },
        PaneGroupModel::Pane(_) => {},
    }
}

proof fn lemma_full_list_kept(children: Seq<PaneGroupModel>)
    requires
        all_full(children),
    ensures
        kept_list(children) == children,
    decreases children,
{
    if children.len() > 0 {
        lemma_full_list_kept(children.drop_last());
        lemma_full_tree_kept(children.last());
        assert(kept_list(children) =~= children);
    }
}

/// A workspace without stored panes has one: it is active and empty.
pub proof fn lemma_lone_pane()
    ensures
        lone_pane() matches PaneGroupModel::Pane(pane) && pane.active && pane.items.len() == 0 && pane.pinned_count
            == 0,
{
}

/// A pane that holds something is read as it was stored.
pub proof fn lemma_pane_read(row: RowModel)
    requires
        row.parent is None,
        !is_group(row),
        row.pane_id is Some,
        row.active is Some,
        row.pinned_count is Some,
        row.items.len() > 0,
        acyclic(seq![row], None),
    ensures
        read_group(seq![row], None) matches Ok(groups) && groups.len() == 1 && (groups[0] matches PaneGroupModel::Pane(
            pane,
        ) && pane.active == row.active->0 && pane.items == row.items && pane.pinned_count == row.pinned_count->0),
{
    let table = seq![row];
    assert(read_first(table, None, 0) == Ok::<Seq<PaneGroupModel>, PaneTreeError>(Seq::empty()));
    assert(table[0] == row);
    assert(table.len() == 1);
}

} // verus!
