//! Bringing the tabs of the last session back.
//!
//! Every tab first gets a placeholder, the terminals are then started together, the active tab's
//! first, and at the end the tabs are split one after the other, the active one last. Splitting
//! works on whatever tab is shown, so a tab is split only once the window has been seen to show it.

use vstd::prelude::*;
use crate::new_tab::{
    connect_next, lemma_profile_place, new_tab, ConnectActionModel, ConnectReply, ConnectStep, NewTabModel,
    NewTerminal, TerminalPanel,
};
use crate::order::{comes_before, lemma_stable_order, sort_positions, stable_order};
use crate::pane_id::{fresh_pane_id, is_pane_id};
use crate::shell::{wants_srp, TabProfile};
use crate::som_db::{SomDbState, SomDbTab, TabModel};
use crate::text::{clone_opt, opt_text, texts};

verus! {

/// How often a condition is looked at before it is given up.
pub const MAX_CHECKS: u32 = 50;

/// The pane ids of one tab.
pub open spec fn tab_sessions(t: TabModel) -> Seq<Seq<char>> {
    match t.sessions {
        Some(ids) => ids,
        None => Seq::empty(),
    }
}

/// The pane ids of all tabs, in order.
pub open spec fn all_sessions(tabs: Seq<TabModel>) -> Seq<Seq<char>>
    decreases tabs.len(),
{
    if tabs.len() == 0 {
        Seq::empty()
    } else {
        all_sessions(tabs.drop_last()) + tab_sessions(tabs.last())
    }
}

/// The positions of the tabs whose profile still exists.
pub open spec fn restorable(tabs: Seq<TabModel>, profile_count: nat) -> Seq<int>
    decreases tabs.len(),
{
    if tabs.len() == 0 {
        Seq::empty()
    } else {
        let before = restorable(tabs.drop_last(), profile_count);
        if tabs.last().profile_index < profile_count {
            before.push(tabs.len() - 1)
        } else {
            before
        }
    }
}

/// `s` without the first occurrence of `x`.
pub open spec fn without_first(s: Seq<int>, x: int) -> Seq<int>
    decreases s.len(),
{
    if s.len() == 0 {
        s
    } else if s[0] == x {
        s.drop_first()
    } else {
        seq![s[0]] + without_first(s.drop_first(), x)
    }
}

/// `s` with `x`, where it occurs, moved to the front.
pub open spec fn with_first(s: Seq<int>, x: int) -> Seq<int> {
    if s.contains(x) {
        seq![x] + without_first(s, x)
    } else {
        s
    }
}

pub open spec fn as_ints(s: Seq<usize>) -> Seq<int> {
    s.map_values(|v: usize| v as int)
}

/// Every pane id that the session remembers.
pub fn live_pane_ids(state: &SomDbState) -> (r: Vec<String>)
    ensures
        texts(r@) == all_sessions(state@.tabs),
{
    let mut out: Vec<String> = Vec::new();
    let mut i: usize = 0;
    assert(texts(out@) =~= Seq::<Seq<char>>::empty());
    while i < state.tabs.len()
        invariant
            i <= state.tabs@.len(),
            texts(out@) == all_sessions(state@.tabs.take(i as int)),
        decreases state.tabs@.len() - i,
    {
        let ghost before = out@;
        let ghost next = state@.tabs.take(i + 1);
        assert(next.drop_last() =~= state@.tabs.take(i as int));
        assert(next.last() == state.tabs@[i as int]@);
        match &state.tabs[i].tmux_sessions {
            Some(ids) => {
                let mut k: usize = 0;
                assert(texts(out@) =~= texts(before) + texts(ids@).take(0));
                while k < ids.len()
                    invariant
                        k <= ids@.len(),
                        texts(out@) == texts(before) + texts(ids@).take(k as int),
                    decreases ids@.len() - k,
                {
                    let ghost inner = out@;
                    out.push(ids[k].clone());
                    assert(texts(out@) =~= texts(inner).push(ids@[k as int]@));
                    assert(texts(ids@).take(k + 1) =~= texts(ids@).take(k as int).push(ids@[k as int]@));
                    assert(texts(out@) =~= texts(before) + texts(ids@).take(k + 1));
                    k += 1;
                }
                assert(texts(ids@).take(k as int) =~= texts(ids@));
            },
            None => {
                assert(texts(before) + Seq::<Seq<char>>::empty() =~= texts(before));
            },
        }
        i += 1;
    }
    assert(state@.tabs.take(i as int) =~= state@.tabs);
    out
}

/// The tabs that get a placeholder: those whose profile still exists.
pub fn placeholder_tabs(state: &SomDbState, profile_count: usize) -> (r: Vec<usize>)
    ensures
        as_ints(r@) == restorable(state@.tabs, profile_count as nat),
{
    let mut out: Vec<usize> = Vec::new();
    let mut i: usize = 0;
    assert(as_ints(out@) =~= Seq::<int>::empty());
    while i < state.tabs.len()
        invariant
            i <= state.tabs@.len(),
            as_ints(out@) == restorable(state@.tabs.take(i as int), profile_count as nat),
        decreases state.tabs@.len() - i,
    {
        let ghost before = out@;
        let ghost next = state@.tabs.take(i + 1);
        assert(next.drop_last() =~= state@.tabs.take(i as int));
        assert(next.last() == state.tabs@[i as int]@);
        if state.tabs[i].profile_index < profile_count {
            out.push(i);
            assert(as_ints(out@) =~= as_ints(before).push(i as int));
        }
        i += 1;
    }
    assert(state@.tabs.take(i as int) =~= state@.tabs);
    out
}

/// The tab that is shown while nothing is restored yet.
pub fn placeholder_to_activate(active_tab: usize, items_len: usize) -> (r: Option<usize>)
    ensures
        r == (if active_tab < items_len {
            Some(active_tab)
        } else {
            None
        }),
{
    if active_tab < items_len {
        Some(active_tab)
    } else {
        None
    }
}

proof fn lemma_without_first(s: Seq<int>, x: int, p: int)
    requires
        0 <= p < s.len(),
        s[p] == x,
        forall|j: int| 0 <= j < p ==> s[j] != x,
    ensures
        without_first(s, x) == s.remove(p),
    decreases s.len(),
{
    if p > 0 {
        assert(s[0] != x);
        assert forall|j: int| 0 <= j < p - 1 implies s.drop_first()[j] != x by {
            assert(s.drop_first()[j] == s[j + 1]);
        }
        lemma_without_first(s.drop_first(), x, p - 1);
        assert(seq![s[0]] + s.drop_first().remove(p - 1) =~= s.remove(p));
    } else {
        assert(s.drop_first() =~= s.remove(0));
    }
}

/// The order in which the terminals are started: the active tab first, the rest as they were.
pub fn start_order(tabs: Vec<usize>, active_tab: usize) -> (r: Vec<usize>)
    ensures
        as_ints(r@) == with_first(as_ints(tabs@), active_tab as int),
{
    let mut tabs = tabs;
    let ghost s = as_ints(tabs@);
    let mut p: usize = 0;
    while p < tabs.len() && tabs[p] != active_tab
        invariant
            p <= tabs@.len(),
            s == as_ints(tabs@),
            forall|j: int| 0 <= j < p ==> s[j] != active_tab,
        decreases tabs@.len() - p,
    {
        p += 1;
    }
    if p < tabs.len() {
        proof {
            lemma_without_first(s, active_tab as int, p as int);
            assert(s[p as int] == active_tab);
        }
        let active = tabs.remove(p);
        tabs.insert(0, active);
        assert(as_ints(tabs@) =~= with_first(s, active_tab as int));
    } else {
        assert(!s.contains(active_tab as int));
    }
    tabs
}

/// The pane id that a restored tab connects with: the one it had or, where it has none, `fresh`.
pub fn pane_id_or(tab: &SomDbTab, fresh: String) -> (r: String)
    ensures
        r@ == first_session_or(tab@, fresh@),
{
    match &tab.tmux_sessions {
        Some(ids) => {
            if ids.len() > 0 {
                assert(texts(ids@)[0] == ids@[0]@);
                ids[0].clone()
            } else {
                fresh
            }
        },
        None => fresh,
    }
}

/// How the terminal of a restored tab is started.
#[derive(Debug)]
pub enum TabStart {
    /// Through the relay, which is asked for the pane.
    Relay { pane_id: String },
    /// With the profile's shell or, where it has none, the default one.
    Plain { shell: Option<String> },
}

#[verifier::ext_equal]
pub enum TabStartModel {
    Relay { pane_id: Seq<char> },
    Plain { shell: Option<Seq<char>> },
}

impl View for TabStart {
    type V = TabStartModel;

    open spec fn view(&self) -> TabStartModel {
        match self {
            TabStart::Relay { pane_id } => TabStartModel::Relay { pane_id: pane_id@ },
            TabStart::Plain { shell } => TabStartModel::Plain { shell: opt_text(*shell) },
        }
    }
}

/// The first pane id of a tab or, where it has none, `fresh`.
pub open spec fn first_session_or(tab: TabModel, fresh: Seq<char>) -> Seq<char> {
    if tab_sessions(tab).len() > 0 {
        tab_sessions(tab)[0]
    } else {
        fresh
    }
}

/// How a tab of a profile is started, where `fresh` is a pane id that nobody has.
pub open spec fn start_of(tab: TabModel, profile: TabProfile, fresh: Seq<char>) -> TabStartModel {
    if profile.tmux || profile.srp || profile.lua {
        TabStartModel::Relay { pane_id: first_session_or(tab, fresh) }
    } else {
        TabStartModel::Plain { shell: opt_text(profile.shell) }
    }
}

/// How the terminal of a tab is started.
pub fn tab_start(tab: &SomDbTab, profile: &TabProfile, fresh: String) -> (r: TabStart)
    ensures
        r@ == start_of(tab@, *profile, fresh@),
        r is Relay <==> profile.tmux || profile.srp || profile.lua,
        r matches TabStart::Relay { pane_id } ==> pane_id@ == (match tab.tmux_sessions {
            Some(ids) => if ids@.len() > 0 {
                ids@[0]@
            } else {
                fresh@
            },
            None => fresh@,
        }),
        r matches TabStart::Plain { shell } ==> opt_text(shell) == opt_text(profile.shell),
{
    if wants_srp(profile) {
        TabStart::Relay { pane_id: pane_id_or(tab, fresh) }
    } else {
        TabStart::Plain { shell: clone_opt(&profile.shell) }
    }
}

/// A tab that comes up on the relay is remembered under the pane id that it had, so that the next
/// session finds the same pane again.
pub proof fn lemma_restored_pane_kept(
    tab: TabModel,
    profile: TabProfile,
    fresh: Seq<char>,
    no_plain: Option<Seq<char>>,
    step: ConnectStep,
    reply: ConnectReply,
)
    requires
        tab_sessions(tab).len() > 0,
        start_of(tab, profile, fresh) is Relay,
    ensures
        connect_next(start_of(tab, profile, fresh)->pane_id, no_plain, step, reply).1 matches ConnectActionModel::Finish(
            Ok(Some(id)),
        ) ==> id == tab_sessions(tab)[0],
{
}

/// What the restoring of a session begins with.
#[derive(Debug)]
pub struct RestoreStart {
    /// The panes that may not be cleaned up.
    pub live_pane_ids: Vec<String>,
    /// The tabs that get a placeholder, in their order.
    pub placeholders: Vec<usize>,
    /// The same tabs in the order in which they are started, each with the way it is.
    pub starts: Vec<(usize, TabStart)>,
}

/// The tabs that are started, in order.
pub open spec fn started(starts: Seq<(usize, TabStart)>) -> Seq<int> {
    starts.map_values(|s: (usize, TabStart)| s.0 as int)
}

proof fn lemma_restorable_valid(tabs: Seq<TabModel>, count: nat)
    ensures
        forall|i: int|
            0 <= i < restorable(tabs, count).len() ==> 0 <= #[trigger] restorable(tabs, count)[i] < tabs.len()
                && tabs[restorable(tabs, count)[i]].profile_index < count,
    decreases tabs.len(),
{
    if tabs.len() > 0 {
        let rest = tabs.drop_last();
        lemma_restorable_valid(rest, count);
        assert forall|i: int| 0 <= i < restorable(tabs, count).len() implies 0 <= #[trigger] restorable(
            tabs,
            count,
        )[i] < tabs.len() && tabs[restorable(tabs, count)[i]].profile_index < count by {
            if i < restorable(rest, count).len() {
                assert(restorable(tabs, count)[i] == restorable(rest, count)[i]);
                assert(tabs[restorable(rest, count)[i]] == rest[restorable(rest, count)[i]]);
            }
        }
    }
}

/// The placeholders stand in the order of the session, and every tab whose profile still exists has
/// one, whatever becomes of its terminal.
pub proof fn lemma_placeholders(tabs: Seq<TabModel>, profile_count: nat)
    ensures
        forall|i: int, j: int|
            0 <= i < j < restorable(tabs, profile_count).len() ==> restorable(tabs, profile_count)[i]
                < restorable(tabs, profile_count)[j],
        forall|t: int|
            #[trigger] restorable(tabs, profile_count).contains(t) <==> 0 <= t < tabs.len() && tabs[t].profile_index
                < profile_count,
    decreases tabs.len(),
{
    let all = restorable(tabs, profile_count);
    lemma_restorable_valid(tabs, profile_count);
    if tabs.len() > 0 {
        let rest = tabs.drop_last();
        let before = restorable(rest, profile_count);
        lemma_placeholders(rest, profile_count);
        lemma_restorable_valid(rest, profile_count);
        assert forall|t: int| #[trigger] all.contains(t) <==> 0 <= t < tabs.len() && tabs[t].profile_index
            < profile_count by {
            if 0 <= t < tabs.len() && tabs[t].profile_index < profile_count {
                if t == tabs.len() - 1 {
                    assert(all[before.len() as int] == t);
                } else {
                    assert(rest[t] == tabs[t]);
                    assert(before.contains(t));
                    let k = choose|k: int| 0 <= k < before.len() && before[k] == t;
                    assert(all[k] == t);
                }
            }
        }
    }
}

/// Every tab with a placeholder is started, as often as it has one, and the active tab first.
pub proof fn lemma_start_order(s: Seq<int>, active: int)
    ensures
        with_first(s, active).to_multiset() == s.to_multiset(),
        s.contains(active) ==> with_first(s, active)[0] == active,
{
    if s.contains(active) {
        lemma_without_first_multiset(s, active);
        let rest = without_first(s, active);
        vstd::seq_lib::lemma_multiset_commutative(seq![active], rest);
        seq![active].to_multiset_ensures();
        assert(seq![active] =~= Seq::<int>::empty().push(active));
        Seq::<int>::empty().to_multiset_ensures();
    }
}

proof fn lemma_without_first_multiset(s: Seq<int>, x: int)
    requires
        s.contains(x),
    ensures
        s.to_multiset() == without_first(s, x).to_multiset().insert(x),
{
    let p = s.index_of_first(x)->0;
    s.index_of_first_ensures(x);
    lemma_without_first(s, x, p);
    s.to_multiset_ensures();
    assert(s.remove(p).to_multiset() =~= s.to_multiset().remove(x));
}

proof fn lemma_without_first_subset(s: Seq<int>, x: int)
    ensures
        forall|i: int| 0 <= i < without_first(s, x).len() ==> s.contains(#[trigger] without_first(s, x)[i]),
    decreases s.len(),
{
    if s.len() > 0 {
        let rest = s.drop_first();
        lemma_without_first_subset(rest, x);
        assert forall|i: int| 0 <= i < without_first(s, x).len() implies s.contains(
            #[trigger] without_first(s, x)[i],
        ) by {
            if s[0] == x {
                assert(without_first(s, x)[i] == s[i + 1]);
            } else if i == 0 {
                assert(without_first(s, x)[0] == s[0]);
            } else {
                let y = without_first(rest, x)[i - 1];
                assert(without_first(s, x)[i] == y);
                let k = choose|k: int| 0 <= k < rest.len() && rest[k] == y;
                assert(s[k + 1] == y);
            }
        }
    }
}

impl TerminalPanel {
    /// Begins to restore the session: which panes are in use, which tabs get a placeholder, and how
    /// and in which order their terminals are started.
    pub fn restore_som_tabs(state: &SomDbState, profiles: &Vec<TabProfile>) -> (r: RestoreStart)
        ensures
            texts(r.live_pane_ids@) == all_sessions(state@.tabs),
            as_ints(r.placeholders@) == restorable(state@.tabs, profiles@.len()),
            started(r.starts@) == with_first(
                restorable(state@.tabs, profiles@.len()),
                state.active_tab as int,
            ),
            forall|i: int|
                0 <= i < r.starts@.len() ==> {
                    let tab = state.tabs@[(#[trigger] r.starts@[i]).0 as int];
                    &&& r.starts@[i].0 < state.tabs@.len()
                    &&& tab.profile_index < profiles@.len()
                    &&& exists|fresh: Seq<char>|
                        is_pane_id(fresh) && r.starts@[i].1@ == #[trigger] start_of(
                            tab@,
                            profiles@[tab.profile_index as int],
                            fresh,
                        )
                },
    {
        let live_pane_ids = live_pane_ids(state);
        let placeholders = placeholder_tabs(state, profiles.len());
        let ghost model = restorable(state@.tabs, profiles@.len());
        let order = start_order(placeholders.clone(), state.active_tab);
        assert(as_ints(order@) == with_first(model, state.active_tab as int));
        proof {
            lemma_restorable_valid(state@.tabs, profiles@.len());
            lemma_without_first_subset(model, state.active_tab as int);
            let turned = as_ints(order@);
            assert forall|i: int| 0 <= i < order@.len() implies (#[trigger] order@[i]) < state.tabs@.len()
                && state.tabs@[order@[i] as int].profile_index < profiles@.len() by {
                assert(turned[i] == order@[i]);
                assert(model.contains(turned[i])) by {
                    if model.contains(state.active_tab as int) {
                        if i > 0 {
                            assert(turned[i] == without_first(model, state.active_tab as int)[i - 1]);
                        }
                    } else {
                        assert(turned[i] == model[i]);
                    }
                }
                let k = choose|k: int| 0 <= k < model.len() && model[k] == turned[i];
                assert(state@.tabs[model[k]] == state.tabs@[order@[i] as int]@);
            }
        }
        let mut starts: Vec<(usize, TabStart)> = Vec::new();
        let mut i: usize = 0;
        while i < order.len()
            invariant
                i <= order@.len(),
                starts@.len() == i,
                forall|k: int|
                    0 <= k < order@.len() ==> (#[trigger] order@[k]) < state.tabs@.len()
                        && state.tabs@[order@[k] as int].profile_index < profiles@.len(),
                forall|k: int| 0 <= k < i ==> (#[trigger] starts@[k]).0 == order@[k],
                forall|k: int|
                    0 <= k < i ==> {
                        let tab = state.tabs@[(#[trigger] starts@[k]).0 as int];
                        exists|fresh: Seq<char>|
                            is_pane_id(fresh) && starts@[k].1@ == #[trigger] start_of(
                                tab@,
                                profiles@[tab.profile_index as int],
                                fresh,
                            )
                    },
            decreases order@.len() - i,
        {
            let db_index = order[i];
            let tab = &state.tabs[db_index];
            let fresh = fresh_pane_id();
            let ghost id = fresh@;
            let start = tab_start(tab, &profiles[tab.profile_index], fresh);
            assert(is_pane_id(id) && start@ == start_of(
                tab@,
                profiles@[tab.profile_index as int],
                id,
            ));
            starts.push((db_index, start));
            i += 1;
        }
        assert(started(starts@) =~= as_ints(order@));
        RestoreStart { live_pane_ids, placeholders, starts }
    }
}

/// A tab whose terminal has started.
#[derive(Debug, Clone, Copy, PartialEq, Eq, Structural)]
pub struct CreatedTab {
    /// Its position in the session.
    pub db_index: usize,
    /// How many panes it is to be split into, besides the main one.
    pub extra_splits: usize,
    /// The item that shows it.
    pub item: u64,
}

pub open spec fn db_indices(tabs: Seq<CreatedTab>) -> Seq<usize> {
    tabs.map_values(|t: CreatedTab| t.db_index)
}

/// The tabs by their position in the session.
pub open spec fn by_db_index(tabs: Seq<CreatedTab>) -> Seq<CreatedTab> {
    stable_order(db_indices(tabs)).map_values(|i: int| tabs[i])
}

/// Where the tab of position `db_index` stands, or the number of tabs.
pub open spec fn place_of(tabs: Seq<CreatedTab>, db_index: usize) -> int
    decreases tabs.len(),
{
    if tabs.len() == 0 || tabs[0].db_index == db_index {
        0
    } else {
        1 + place_of(tabs.drop_first(), db_index)
    }
}

/// The order in which tabs are split: by position, with the active tab moved to the end.
pub open spec fn split_order_of(tabs: Seq<CreatedTab>, active_tab: usize) -> Seq<CreatedTab> {
    let sorted = by_db_index(tabs);
    let p = place_of(sorted, active_tab);
    if 0 <= p < sorted.len() {
        sorted.remove(p).push(sorted[p])
    } else {
        sorted
    }
}

proof fn lemma_place_of(tabs: Seq<CreatedTab>, db_index: usize, p: int)
    requires
        0 <= p <= tabs.len(),
        p < tabs.len() ==> tabs[p].db_index == db_index,
        forall|j: int| 0 <= j < p ==> (#[trigger] tabs[j]).db_index != db_index,
    ensures
        place_of(tabs, db_index) == p,
    decreases tabs.len(),
{
    if p > 0 {
        assert(tabs[0].db_index != db_index);
        assert forall|j: int| 0 <= j < p - 1 implies (#[trigger] tabs.drop_first()[j]).db_index != db_index by {
            assert(tabs.drop_first()[j] == tabs[j + 1]);
        }
        lemma_place_of(tabs.drop_first(), db_index, p - 1);
    }
}

/// Tabs are split in the order of the session, whatever the order in which they came up, but the
/// active tab is split last. None is left out, and none is added.
pub proof fn lemma_split_order(tabs: Seq<CreatedTab>, active_tab: usize)
    ensures
        ({
            let order = split_order_of(tabs, active_tab);
            &&& order.len() == tabs.len()
            &&& forall|t: CreatedTab| #[trigger] order.contains(t) <==> tabs.contains(t)
            &&& forall|i: int, j: int|
                0 <= i < j < order.len() ==> (#[trigger] order[i]).db_index <= (#[trigger] order[j]).db_index || order[j].db_index
                    == active_tab
            &&& forall|t: CreatedTab|
                #[trigger] tabs.contains(t) && t.db_index == active_tab ==> order.last().db_index == active_tab
        }),
{
    let keys = db_indices(tabs);
    let sorted = by_db_index(tabs);
    let positions = stable_order(keys);
    let p = place_of(sorted, active_tab);
    let order = split_order_of(tabs, active_tab);
    lemma_stable_order(keys);
    lemma_place_of_found(sorted, active_tab);
    assert forall|t: CreatedTab| #[trigger] sorted.contains(t) <==> tabs.contains(t) by {
        if sorted.contains(t) {
            let i = choose|i: int| 0 <= i < sorted.len() && sorted[i] == t;
            assert(tabs[positions[i]] == t);
        }
        if tabs.contains(t) {
            let v = choose|v: int| 0 <= v < tabs.len() && tabs[v] == t;
            assert(positions.contains(v));
            let i = choose|i: int| 0 <= i < positions.len() && positions[i] == v;
            assert(sorted[i] == t);
        }
    }
    assert forall|i: int, j: int| 0 <= i < j < sorted.len() implies (#[trigger] sorted[i]).db_index <= (
    #[trigger] sorted[j]).db_index by {
        assert(comes_before(keys, positions[i], positions[j]));
        assert(keys[positions[i]] == sorted[i].db_index);
        assert(keys[positions[j]] == sorted[j].db_index);
    }
    if p < sorted.len() {
        assert forall|t: CreatedTab| #[trigger] order.contains(t) <==> sorted.contains(t) by {
            if order.contains(t) {
                let i = choose|i: int| 0 <= i < order.len() && order[i] == t;
                assert(sorted[if i == order.len() - 1 { p } else if i < p { i } else { i + 1 }] == t);
            }
            if sorted.contains(t) {
                let i = choose|i: int| 0 <= i < sorted.len() && sorted[i] == t;
                assert(order[if i == p { order.len() - 1 } else if i < p { i } else { i - 1 }] == t);
            }
        }
        assert forall|i: int, j: int| 0 <= i < j < order.len() implies (#[trigger] order[i]).db_index <= (
        #[trigger] order[j]).db_index || order[j].db_index == active_tab by {
            if j < order.len() - 1 {
                let from = if i < p { i } else { i + 1 };
                let to = if j < p { j } else { j + 1 };
                assert(order[i] == sorted[from] && order[j] == sorted[to]);
            }
        }
    }
    assert forall|t: CreatedTab| #[trigger] tabs.contains(t) && t.db_index == active_tab implies order.last().db_index
        == active_tab by {
        assert(sorted.contains(t));
        let i = choose|i: int| 0 <= i < sorted.len() && sorted[i] == t;
        assert(sorted[i].db_index == active_tab);
    }
}

proof fn lemma_place_of_found(tabs: Seq<CreatedTab>, db_index: usize)
    ensures
        0 <= place_of(tabs, db_index) <= tabs.len(),
        place_of(tabs, db_index) < tabs.len() ==> tabs[place_of(tabs, db_index)].db_index == db_index,
        forall|j: int| 0 <= j < place_of(tabs, db_index) ==> (#[trigger] tabs[j]).db_index != db_index,
    decreases tabs.len(),
{
    if tabs.len() > 0 && tabs[0].db_index != db_index {
        let rest = tabs.drop_first();
        lemma_place_of_found(rest, db_index);
        assert forall|j: int| 0 <= j < place_of(tabs, db_index) implies (#[trigger] tabs[j]).db_index != db_index by {
            if j > 0 {
                assert(rest[j - 1] == tabs[j]);
            }
        }
    }
}

/// The order in which tabs are split.
pub fn split_order(tabs: &Vec<CreatedTab>, active_tab: usize) -> (r: Vec<CreatedTab>)
    ensures
        r@ == split_order_of(tabs@, active_tab),
        r@.len() == tabs@.len(),
{
    let mut keys: Vec<usize> = Vec::new();
    let mut i: usize = 0;
    while i < tabs.len()
        invariant
            i <= tabs@.len(),
            keys@ == db_indices(tabs@).take(i as int),
        decreases tabs@.len() - i,
    {
        keys.push(tabs[i].db_index);
        assert(keys@ =~= db_indices(tabs@).take(i + 1));
        i += 1;
    }
    assert(keys@ =~= db_indices(tabs@));
    let positions = sort_positions(&keys);
    proof {
        lemma_stable_order(keys@);
    }
    let mut sorted: Vec<CreatedTab> = Vec::new();
    let mut k: usize = 0;
    while k < positions.len()
        invariant
            k <= positions@.len(),
            sorted@.len() == k,
            forall|j: int| 0 <= j < positions@.len() ==> #[trigger] positions@[j] < tabs@.len(),
            forall|j: int| 0 <= j < k ==> #[trigger] sorted@[j] == tabs@[positions@[j] as int],
        decreases positions@.len() - k,
    {
        sorted.push(tabs[positions[k]]);
        k += 1;
    }
    proof {
        let ints = positions@.map_values(|p: usize| p as int);
        assert(sorted@ =~= by_db_index(tabs@)) by {
            assert forall|j: int| 0 <= j < sorted@.len() implies #[trigger] sorted@[j] == by_db_index(tabs@)[j] by {
                assert(ints[j] == positions@[j] as int);
            }
        }
    }
    let mut p: usize = 0;
    while p < sorted.len() && sorted[p].db_index != active_tab
        invariant
            p <= sorted@.len(),
            forall|j: int| 0 <= j < p ==> (#[trigger] sorted@[j]).db_index != active_tab,
        decreases sorted@.len() - p,
    {
        p += 1;
    }
    proof {
        lemma_place_of(sorted@, active_tab, p as int);
    }
    if p < sorted.len() {
        let active = sorted.remove(p);
        sorted.push(active);
    }
    sorted
}

/// What is left to do once the terminals have started.
#[derive(Debug)]
pub struct RestorePlan {
    /// The tabs, in the order in which they are split.
    pub tabs: Vec<CreatedTab>,
    /// The tab that is shown at the end.
    pub active_tab: usize,
    /// The pane of it that has the focus at the end.
    pub active_pane: usize,
}

/// Which reply is waited for.
#[derive(Debug, Clone, Copy, PartialEq, Eq, Structural)]
pub enum RestoreStep {
    /// The window is asked which tab it shows.
    Resyncing,
    /// The position of the tab's item is looked up.
    LookingUp { tab: usize },
    /// The item at `index` is made the one that is shown.
    Activating { tab: usize, index: usize },
    /// The window is asked whether it shows `index`, and may be asked `left` times.
    CheckingActive { tab: usize, index: usize, left: u32 },
    /// It did not, and it can be asked `left` times more.
    Pausing { tab: usize, index: usize, left: u32 },
    /// The tab is split, this time included `splits` times.
    Splitting { tab: usize, splits: usize },
    /// The split panes are put aside.
    Parking,
    /// The active tab is made the one that is shown.
    ActivatingLast,
    CheckingLast { left: u32 },
    PausingLast { left: u32 },
    /// The window is asked whether it receives the keyboard.
    CheckingForeground { left: u32 },
    PausingForeground { left: u32 },
    /// The active pane is focused.
    Focusing,
    Finished,
}

/// What is to be done next.
#[derive(Debug, Clone, Copy, PartialEq, Eq, Structural)]
pub enum RestoreAction {
    /// Take over which tab the window shows.
    Resync,
    /// Find the position of an item; the reply is an index.
    LookUp { item: u64 },
    /// Show the item at a position.
    Activate { index: usize },
    /// Is the item at this position shown? The reply is a flag.
    CheckActive { index: usize },
    /// Wait a moment.
    Pause,
    /// Split the pane that is shown.
    Split,
    /// Put the split panes aside for a tab; the reply is the index of the tab that is shown.
    Park { tab: usize },
    /// Does the window receive the keyboard? The reply is a flag.
    CheckForeground,
    /// Focus a pane of the tab that is shown.
    Focus { pane: usize },
    /// Nothing is left.
    Finish,
}

/// What came back. An action that could not be carried out is answered with `Done`.
#[derive(Debug, Clone, Copy, PartialEq, Eq, Structural)]
pub enum RestoreReply {
    Done,
    Index(Option<usize>),
    Flag(bool),
}

pub open spec fn reply_index(reply: RestoreReply) -> Option<usize> {
    match reply {
        RestoreReply::Index(i) => i,
        _ => None,
    }
}

pub open spec fn reply_flag(reply: RestoreReply) -> bool {
    reply == RestoreReply::Flag(true)
}

/// The first tab from `from` on that has panes to split off, or the number of tabs.
pub open spec fn next_split_tab(tabs: Seq<CreatedTab>, from: int) -> int
    decreases tabs.len() - from,
{
    if from >= tabs.len() || tabs[from].extra_splits > 0 {
        from
    } else {
        next_split_tab(tabs, from + 1)
    }
}

/// Goes on with the tabs from `from` on.
pub open spec fn advance_spec(plan: RestorePlan, from: int) -> (RestoreStep, RestoreAction) {
    let t = next_split_tab(plan.tabs@, from);
    if t < plan.tabs@.len() {
        (
            RestoreStep::LookingUp { tab: t as usize },
            RestoreAction::LookUp { item: plan.tabs@[t].item },
        )
    } else {
        (RestoreStep::Parking, RestoreAction::Park { tab: plan.active_tab })
    }
}

pub open spec fn foreground_spec() -> (RestoreStep, RestoreAction) {
    (RestoreStep::CheckingForeground { left: MAX_CHECKS }, RestoreAction::CheckForeground)
}

pub open spec fn focus_spec(plan: RestorePlan) -> (RestoreStep, RestoreAction) {
    (RestoreStep::Focusing, RestoreAction::Focus { pane: plan.active_pane })
}

/// What follows a reply.
pub open spec fn restore_next(plan: RestorePlan, step: RestoreStep, reply: RestoreReply) -> (
    RestoreStep,
    RestoreAction,
) {
    match step {
        RestoreStep::Resyncing => advance_spec(plan, 0),
        RestoreStep::LookingUp { tab } => match reply_index(reply) {
            Some(index) => (
                RestoreStep::Activating { tab, index },
                RestoreAction::Activate { index },
            ),
            None => advance_spec(plan, tab + 1),
        },
        RestoreStep::Activating { tab, index } => (
            RestoreStep::CheckingActive { tab, index, left: MAX_CHECKS },
            RestoreAction::CheckActive { index },
        ),
        RestoreStep::CheckingActive { tab, index, left } => if reply_flag(reply) {
            (
                RestoreStep::Splitting { tab, splits: plan.tabs@[tab as int].extra_splits },
                RestoreAction::Split,
            )
        } else {
            (RestoreStep::Pausing { tab, index, left: (left - 1) as u32 }, RestoreAction::Pause)
        },
        RestoreStep::Pausing { tab, index, left } => if left == 0 {
            advance_spec(plan, tab + 1)
        } else {
            (
                RestoreStep::CheckingActive { tab, index, left },
                RestoreAction::CheckActive { index },
            )
        },
        RestoreStep::Splitting { tab, splits } => if splits <= 1 {
            advance_spec(plan, tab + 1)
        } else {
            (RestoreStep::Splitting { tab, splits: (splits - 1) as usize }, RestoreAction::Split)
        },
        RestoreStep::Parking => match reply_index(reply) {
            Some(current) => if current != plan.active_tab {
                (RestoreStep::ActivatingLast, RestoreAction::Activate { index: plan.active_tab })
            } else {
                foreground_spec()
            },
            None => foreground_spec(),
        },
        RestoreStep::ActivatingLast => (
            RestoreStep::CheckingLast { left: MAX_CHECKS },
            RestoreAction::CheckActive { index: plan.active_tab },
        ),
        RestoreStep::CheckingLast { left } => if reply_flag(reply) {
            foreground_spec()
        } else {
            (RestoreStep::PausingLast { left: (left - 1) as u32 }, RestoreAction::Pause)
        },
        RestoreStep::PausingLast { left } => if left == 0 {
            foreground_spec()
        } else {
            (
                RestoreStep::CheckingLast { left },
                RestoreAction::CheckActive { index: plan.active_tab },
            )
        },
        RestoreStep::CheckingForeground { left } => if reply_flag(reply) {
            focus_spec(plan)
        } else {
            (RestoreStep::PausingForeground { left: (left - 1) as u32 }, RestoreAction::Pause)
        },
        RestoreStep::PausingForeground { left } => if left == 0 {
            focus_spec(plan)
        } else {
            (RestoreStep::CheckingForeground { left }, RestoreAction::CheckForeground)
        },
        RestoreStep::Focusing => (RestoreStep::Finished, RestoreAction::Finish),
        RestoreStep::Finished => (RestoreStep::Finished, RestoreAction::Finish),
    }
}

/// The restoring in progress.
#[derive(Debug)]
pub struct RestoreRun {
    pub plan: RestorePlan,
    pub step: RestoreStep,
}

/// A step names a tab of the plan that has panes to split off, and counts within its limits.
pub open spec fn step_valid(plan: RestorePlan, step: RestoreStep) -> bool {
    match step {
        RestoreStep::LookingUp { tab } => tab < plan.tabs@.len() && plan.tabs@[tab as int].extra_splits
            > 0,
        RestoreStep::Activating { tab, .. } => tab < plan.tabs@.len()
            && plan.tabs@[tab as int].extra_splits > 0,
        RestoreStep::CheckingActive { tab, left, .. } => tab < plan.tabs@.len()
            && plan.tabs@[tab as int].extra_splits > 0 && 1 <= left <= MAX_CHECKS,
        RestoreStep::Pausing { tab, left, .. } => tab < plan.tabs@.len()
            && plan.tabs@[tab as int].extra_splits > 0 && left < MAX_CHECKS,
        RestoreStep::Splitting { tab, splits } => tab < plan.tabs@.len() && 1 <= splits
            <= plan.tabs@[tab as int].extra_splits,
        RestoreStep::CheckingLast { left } => 1 <= left <= MAX_CHECKS,
        RestoreStep::PausingLast { left } => left < MAX_CHECKS,
        RestoreStep::CheckingForeground { left } => 1 <= left <= MAX_CHECKS,
        RestoreStep::PausingForeground { left } => left < MAX_CHECKS,
        _ => true,
    }
}

proof fn lemma_next_split_tab(tabs: Seq<CreatedTab>, from: int)
    requires
        0 <= from <= tabs.len(),
    ensures
        from <= next_split_tab(tabs, from) <= tabs.len(),
        next_split_tab(tabs, from) < tabs.len() ==> tabs[next_split_tab(tabs, from)].extra_splits > 0,
        work_left(tabs, from) == work_left(tabs, next_split_tab(tabs, from)),
    decreases tabs.len() - from,
{
    if from < tabs.len() && tabs[from].extra_splits == 0 {
        lemma_next_split_tab(tabs, from + 1);
    }
}

/// A bound on the steps that the tabs from `from` on take.
pub open spec fn work_left(tabs: Seq<CreatedTab>, from: int) -> nat
    decreases tabs.len() - from,
{
    if from >= tabs.len() || from < 0 {
        0
    } else {
        (if tabs[from].extra_splits > 0 {
            (tabs[from].extra_splits + 105) as nat
        } else {
            0
        }) + work_left(tabs, from + 1)
    }
}

/// A bound on the steps that are left.
pub open spec fn steps_left(plan: RestorePlan, step: RestoreStep) -> int {
    let tabs = plan.tabs@;
    match step {
        RestoreStep::Resyncing => 207int + work_left(tabs, 0),
        RestoreStep::LookingUp { tab } => 206int + work_left(tabs, tab as int),
        RestoreStep::Activating { tab, .. } => 206int + work_left(tabs, tab as int) - 1,
        RestoreStep::CheckingActive { tab, left, .. } => 206int + work_left(tabs, tab + 1)
            + tabs[tab as int].extra_splits + 2 * left + 2,
        RestoreStep::Pausing { tab, left, .. } => 206int + work_left(tabs, tab + 1)
            + tabs[tab as int].extra_splits + 2 * left + 3,
        RestoreStep::Splitting { tab, splits } => 206int + work_left(tabs, tab + 1) + splits,
        RestoreStep::Parking => 206,
        RestoreStep::ActivatingLast => 205,
        RestoreStep::CheckingLast { left } => 102int + 2 * left + 2,
        RestoreStep::PausingLast { left } => 102int + 2 * left + 3,
        RestoreStep::CheckingForeground { left } => 2int * left + 2,
        RestoreStep::PausingForeground { left } => 2int * left + 3,
        RestoreStep::Focusing => 1,
        RestoreStep::Finished => 0,
    }
}

/// Whatever is replied, every step brings the end nearer, until it is reached: restoring ends.
pub proof fn lemma_restore_ends(plan: RestorePlan, step: RestoreStep, reply: RestoreReply)
    requires
        step_valid(plan, step),
        plan.tabs@.len() <= usize::MAX,
    ensures
        step_valid(plan, restore_next(plan, step, reply).0),
        step !is Finished ==> 0 <= steps_left(plan, restore_next(plan, step, reply).0) < steps_left(
            plan,
            step,
        ),
        steps_left(plan, step) >= 0,
{
    let tabs = plan.tabs@;
    lemma_next_split_tab(tabs, 0);
    match step {
        RestoreStep::LookingUp { tab }
        | RestoreStep::Activating { tab, .. }
        | RestoreStep::CheckingActive { tab, .. }
        | RestoreStep::Pausing { tab, .. }
        | RestoreStep::Splitting { tab, .. } => {
            lemma_next_split_tab(tabs, tab + 1);
        },
        _ => {},
    }
}

/// A tab is split only when the window has just been seen to show it, or while it is being split.
pub proof fn lemma_splits_what_is_shown(plan: RestorePlan, step: RestoreStep, reply: RestoreReply)
    ensures
        restore_next(plan, step, reply).1 is Split <==> {
            ||| step is CheckingActive && reply == RestoreReply::Flag(true)
            ||| step is Splitting && step->splits > 1
        },
        restore_next(plan, step, reply).0 matches RestoreStep::Splitting { tab, splits } ==> {
            ||| step matches RestoreStep::CheckingActive { tab: t, .. } && t == tab && splits
                == plan.tabs@[tab as int].extra_splits
            ||| step matches RestoreStep::Splitting { tab: t, splits: l } && t == tab && splits == l - 1
        },
{
}

/// The step that is reached after a number of replies.
pub open spec fn after_replies(plan: RestorePlan, step: RestoreStep, replies: Seq<RestoreReply>) -> RestoreStep
    decreases replies.len(),
{
    if replies.len() == 0 {
        step
    } else {
        restore_next(plan, after_replies(plan, step, replies.drop_last()), replies.last()).0
    }
}

/// A tab that is being split is split as often as it is to be, whatever is replied, and the next
/// tab follows.
pub proof fn lemma_splits_as_often(plan: RestorePlan, tab: usize, splits: usize, replies: Seq<RestoreReply>)
    requires
        1 <= splits,
        replies.len() <= splits,
    ensures
        replies.len() < splits ==> after_replies(plan, RestoreStep::Splitting { tab, splits }, replies)
            == (RestoreStep::Splitting { tab, splits: (splits - replies.len()) as usize }),
        replies.len() == splits ==> after_replies(plan, RestoreStep::Splitting { tab, splits }, replies)
            == advance_spec(plan, tab + 1).0,
    decreases replies.len(),
{
    if replies.len() > 0 {
        lemma_splits_as_often(plan, tab, splits, replies.drop_last());
    }
}

/// Restoring ends with the active pane focused: no other step leads to the end.
pub proof fn lemma_focus_precedes_end(plan: RestorePlan, step: RestoreStep, reply: RestoreReply)
    ensures
        restore_next(plan, step, reply).0 is Finished ==> step is Focusing || step is Finished,
        restore_next(plan, step, reply).0 is Focusing ==> restore_next(plan, step, reply).1 == (
        RestoreAction::Focus { pane: plan.active_pane }),
{
}

impl RestoreRun {
    pub open spec fn well_formed(self) -> bool {
        step_valid(self.plan, self.step)
    }

    /// Begins with the plan's tabs.
    pub fn start(plan: RestorePlan) -> (r: (RestoreRun, RestoreAction))
        ensures
            r.0.plan == plan,
            r.0.step == RestoreStep::Resyncing,
            r.1 == RestoreAction::Resync,
            r.0.well_formed(),
    {
        (RestoreRun { plan, step: RestoreStep::Resyncing }, RestoreAction::Resync)
    }

    fn advance(&self, from: usize) -> (r: (RestoreStep, RestoreAction))
        requires
            from <= self.plan.tabs@.len(),
        ensures
            r == advance_spec(self.plan, from as int),
    {
        let mut t: usize = from;
        while t < self.plan.tabs.len() && self.plan.tabs[t].extra_splits == 0
            invariant
                t <= self.plan.tabs@.len(),
                next_split_tab(self.plan.tabs@, from as int) == next_split_tab(
                    self.plan.tabs@,
                    t as int,
                ),
            decreases self.plan.tabs@.len() - t,
        {
            t += 1;
        }
        if t < self.plan.tabs.len() {
            (RestoreStep::LookingUp { tab: t }, RestoreAction::LookUp { item: self.plan.tabs[t].item })
        } else {
            (RestoreStep::Parking, RestoreAction::Park { tab: self.plan.active_tab })
        }
    }

    /// Takes a reply and says what to do next.
    pub fn next(&mut self, reply: RestoreReply) -> (r: RestoreAction)
        requires
            old(self).well_formed(),
        ensures
            final(self).plan == old(self).plan,
            (final(self).step, r) == restore_next(old(self).plan, old(self).step, reply),
            final(self).well_formed(),
    {
        let active_tab: usize = self.plan.active_tab;
        let active_pane: usize = self.plan.active_pane;
        let index: Option<usize> = match reply {
            RestoreReply::Index(i) => i,
            _ => None,
        };
        let flag: bool = match reply {
            RestoreReply::Flag(f) => f,
            _ => false,
        };
        let count: usize = self.plan.tabs.len();
        proof {
            lemma_restore_ends(self.plan, self.step, reply);
        }
        let foreground = (
            RestoreStep::CheckingForeground { left: MAX_CHECKS },
            RestoreAction::CheckForeground,
        );
        let focus = (RestoreStep::Focusing, RestoreAction::Focus { pane: active_pane });
        let (step, action) = match self.step {
            RestoreStep::Resyncing => self.advance(0),
            RestoreStep::LookingUp { tab } => match index {
                Some(index) => (
                    RestoreStep::Activating { tab, index },
                    RestoreAction::Activate { index },
                ),
                None => self.advance(tab + 1),
            },
            RestoreStep::Activating { tab, index } => (
                RestoreStep::CheckingActive { tab, index, left: MAX_CHECKS },
                RestoreAction::CheckActive { index },
            ),
            RestoreStep::CheckingActive { tab, index, left } => if flag {
                (
                    RestoreStep::Splitting { tab, splits: self.plan.tabs[tab].extra_splits },
                    RestoreAction::Split,
                )
            } else {
                (RestoreStep::Pausing { tab, index, left: left - 1 }, RestoreAction::Pause)
            },
            RestoreStep::Pausing { tab, index, left } => if left == 0 {
                self.advance(tab + 1)
            } else {
                (
                    RestoreStep::CheckingActive { tab, index, left },
                    RestoreAction::CheckActive { index },
                )
            },
            RestoreStep::Splitting { tab, splits } => if splits <= 1 {
                self.advance(tab + 1)
            } else {
                (RestoreStep::Splitting { tab, splits: splits - 1 }, RestoreAction::Split)
            },
            RestoreStep::Parking => match index {
                Some(current) => if current != active_tab {
                    (RestoreStep::ActivatingLast, RestoreAction::Activate { index: active_tab })
                } else {
                    foreground
                },
                None => foreground,
            },
            RestoreStep::ActivatingLast => (
                RestoreStep::CheckingLast { left: MAX_CHECKS },
                RestoreAction::CheckActive { index: active_tab },
            ),
            RestoreStep::CheckingLast { left } => if flag {
                foreground
            } else {
                (RestoreStep::PausingLast { left: left - 1 }, RestoreAction::Pause)
            },
            RestoreStep::PausingLast { left } => if left == 0 {
                foreground
            } else {
                (
                    RestoreStep::CheckingLast { left },
                    RestoreAction::CheckActive { index: active_tab },
                )
            },
            RestoreStep::CheckingForeground { left } => if flag {
                focus
            } else {
                (RestoreStep::PausingForeground { left: left - 1 }, RestoreAction::Pause)
            },
            RestoreStep::PausingForeground { left } => if left == 0 {
                focus
            } else {
                (RestoreStep::CheckingForeground { left }, RestoreAction::CheckForeground)
            },
            RestoreStep::Focusing => (RestoreStep::Finished, RestoreAction::Finish),
            RestoreStep::Finished => (RestoreStep::Finished, RestoreAction::Finish),
        };
        self.step = step;
        action
    }
}

/// A restored tab is started through the relay exactly where its profile needs the relay for something,
/// and then on the first pane that the session kept for it, so that a tab comes back to its pane. Any
/// other tab is started with the shell of its profile.
pub proof fn lemma_tab_comes_back(tab: TabModel, profile: TabProfile, fresh: Seq<char>)
    ensures
        profile.tmux ==> start_of(tab, profile, fresh) is Relay,
        profile.srp ==> start_of(tab, profile, fresh) is Relay,
        profile.lua ==> start_of(tab, profile, fresh) is Relay,
        !profile.tmux && !profile.srp && !profile.lua ==> start_of(tab, profile, fresh) == (TabStartModel::Plain {
            shell: match profile.shell {
                Some(shell) => Some(shell@),
                None => None,
            },
        }),
        start_of(tab, profile, fresh) matches TabStartModel::Relay { pane_id } ==> match tab.sessions {
            Some(ids) => if ids.len() > 0 {
                pane_id == ids[0]
            } else {
                pane_id == fresh
            },
            None => pane_id == fresh,
        },
{
}

/// A tab of a profile is restored through the relay exactly where a new tab of that profile is opened
/// through it.
pub proof fn lemma_restored_as_opened(
    tab: TabModel,
    profiles: Seq<TabProfile>,
    place: int,
    fresh: Seq<char>,
    action: NewTerminal,
    default_index: int,
)
    requires
        0 <= place < profiles.len(),
        opt_text(action.tab_name) == Some(profiles[place].name@),
        forall|i: int| 0 <= i < place ==> (#[trigger] profiles[i]).name@ != profiles[place].name@,
        action.shell is None,
        action.missing_profile_index is None,
    ensures
        start_of(tab, profiles[place], fresh) is Relay <==> new_tab(action, profiles, default_index) is Relay,
        new_tab(action, profiles, default_index) matches NewTabModel::Relay { profile, .. } ==> profile == place,
{
    lemma_profile_place(profiles, profiles[place].name@, place);
}

/// The panes that may not be cleaned up are those of the session's tabs, all of them and no others.
pub proof fn lemma_live_panes(tabs: Seq<TabModel>, id: Seq<char>)
    ensures
        all_sessions(tabs).contains(id) <==> exists|t: int|
            0 <= t < tabs.len() && ((#[trigger] tabs[t]).sessions matches Some(ids) && ids.contains(id)),
    decreases tabs.len(),
{
    if tabs.len() > 0 {
        let init = tabs.drop_last();
        lemma_live_panes(init, id);
        let before = all_sessions(init);
        let last = tab_sessions(tabs.last());
        let all = all_sessions(tabs);
        if before.contains(id) {
            let k = choose|k: int| 0 <= k < before.len() && before[k] == id;
            assert(all[k] == id);
            let t = choose|t: int|
                0 <= t < init.len() && ((#[trigger] init[t]).sessions matches Some(ids) && ids.contains(id));
            assert(tabs[t].sessions matches Some(ids) && ids.contains(id));
        }
        if last.contains(id) {
            let k = choose|k: int| 0 <= k < last.len() && last[k] == id;
            assert(all[before.len() + k] == id);
            assert(tabs[tabs.len() - 1].sessions matches Some(ids) && ids.contains(id));
        }
        if all.contains(id) {
            let k = choose|k: int| 0 <= k < all.len() && all[k] == id;
            if k < before.len() {
                assert(before[k] == id);
            } else {
                assert(last[k - before.len()] == id);
            }
        }
        if exists|t: int|
            0 <= t < tabs.len() && ((#[trigger] tabs[t]).sessions matches Some(ids) && ids.contains(id)) {
            let t = choose|t: int|
                0 <= t < tabs.len() && ((#[trigger] tabs[t]).sessions matches Some(ids) && ids.contains(id));
            if t < init.len() {
                assert(init[t].sessions matches Some(ids) && ids.contains(id));
            }
        }
    }
}

/// The active tab is started first, and the others keep their order.
pub proof fn lemma_others_keep_order(s: Seq<int>, active: int, p: int)
    requires
        0 <= p < s.len(),
        s[p] == active,
        forall|j: int| 0 <= j < p ==> s[j] != active,
    ensures
        with_first(s, active) == seq![active] + s.subrange(0, p) + s.subrange(p + 1, s.len() as int),
{
    lemma_without_first(s, active, p);
    assert(s.contains(active));
    assert(with_first(s, active) =~= seq![active] + s.subrange(0, p) + s.subrange(p + 1, s.len() as int));
}

/// No tab from `from` on, up to but not at `to`, has panes to split off.
pub open spec fn none_to_split(tabs: Seq<CreatedTab>, from: int, to: int) -> bool {
    forall|i: int| from <= i < to ==> (#[trigger] tabs[i]).extra_splits == 0
}

proof fn lemma_none_skipped(tabs: Seq<CreatedTab>, from: int)
    requires
        0 <= from <= tabs.len(),
    ensures
        none_to_split(tabs, from, next_split_tab(tabs, from)),
    decreases tabs.len() - from,
{
    if from < tabs.len() && tabs[from].extra_splits == 0 {
        lemma_none_skipped(tabs, from + 1);
    }
}

/// The tab after which a step goes on, or -1 at the start.
pub open spec fn tab_of_step(step: RestoreStep) -> int {
    match step {
        RestoreStep::LookingUp { tab } => tab as int,
        RestoreStep::Activating { tab, .. } => tab as int,
        RestoreStep::CheckingActive { tab, .. } => tab as int,
        RestoreStep::Pausing { tab, .. } => tab as int,
        RestoreStep::Splitting { tab, .. } => tab as int,
        _ => -1,
    }
}

/// No tab with panes to split off is passed over: the item that is looked up next is that of the next
/// such tab, and the panes are put aside, for the active tab, only when there is none left.
pub proof fn lemma_no_tab_passed_over(plan: RestorePlan, step: RestoreStep, reply: RestoreReply)
    requires
        step_valid(plan, step),
        plan.tabs@.len() <= usize::MAX,
    ensures
        ({
            let next = restore_next(plan, step, reply);
            let from = tab_of_step(step) + 1;
            &&& next.1 matches RestoreAction::LookUp { item } ==> {
                &&& next.0 matches RestoreStep::LookingUp { tab }
                &&& from <= tab < plan.tabs@.len()
                &&& plan.tabs@[tab as int].extra_splits > 0
                &&& plan.tabs@[tab as int].item == item
                &&& none_to_split(plan.tabs@, from, tab as int)
            }
            &&& next.1 matches RestoreAction::Park { tab } ==> {
                &&& tab == plan.active_tab
                &&& next.0 is Parking
                &&& none_to_split(plan.tabs@, from, plan.tabs@.len() as int)
            }
            &&& next.0 is LookingUp <==> next.1 is LookUp
            &&& next.0 is Parking <==> next.1 is Park
        }),
{
    let tabs = plan.tabs@;
    let from = tab_of_step(step) + 1;
    lemma_next_split_tab(tabs, 0);
    lemma_none_skipped(tabs, 0);
    if from > 0 {
        lemma_next_split_tab(tabs, from);
        lemma_none_skipped(tabs, from);
    }
}

/// Only what was found is shown and looked at: a tab's item where it was found, and at the end the
/// active tab, unless it is shown already. Then the window is waited for and the active pane focused.
pub proof fn lemma_shown_what_was_found(plan: RestorePlan, step: RestoreStep, reply: RestoreReply)
    requires
        step_valid(plan, step),
        plan.tabs@.len() <= usize::MAX,
    ensures
        ({
            let next = restore_next(plan, step, reply);
            let wants = reply == RestoreReply::Flag(true);
            &&& step matches RestoreStep::LookingUp { tab } ==> (reply matches RestoreReply::Index(Some(index)) ==> next == (
                RestoreStep::Activating { tab, index },
                RestoreAction::Activate { index },
            ))
            &&& step is LookingUp && !(reply matches RestoreReply::Index(Some(_))) ==> next.1 is LookUp || next.1 is Park
            &&& step matches RestoreStep::Activating { tab, index } ==> next == (
                RestoreStep::CheckingActive { tab, index, left: 50 },
                RestoreAction::CheckActive { index },
            )
            &&& step matches RestoreStep::CheckingActive { tab, index, left } ==> if wants {
                next.1 is Split && next.0 == (RestoreStep::Splitting {
                    tab,
                    splits: plan.tabs@[tab as int].extra_splits,
                })
            } else {
                next.1 is Pause && next.0 == (RestoreStep::Pausing { tab, index, left: (left - 1) as u32 })
            }
            &&& step matches RestoreStep::Pausing { tab, index, left } ==> left > 0 ==> next == (
                RestoreStep::CheckingActive { tab, index, left },
                RestoreAction::CheckActive { index },
            )
            &&& step matches RestoreStep::Pausing { left, .. } ==> left == 0 ==> next.1 is LookUp || next.1 is Park
            &&& step is Parking ==> if reply matches RestoreReply::Index(Some(shown)) && shown != plan.active_tab {
                next == (RestoreStep::ActivatingLast, RestoreAction::Activate { index: plan.active_tab })
            } else {
                next == (RestoreStep::CheckingForeground { left: 50 }, RestoreAction::CheckForeground)
            }
            &&& step is ActivatingLast ==> next == (
                RestoreStep::CheckingLast { left: 50 },
                RestoreAction::CheckActive { index: plan.active_tab },
            )
            &&& step matches RestoreStep::CheckingLast { left } ==> if wants {
                next == (RestoreStep::CheckingForeground { left: 50 }, RestoreAction::CheckForeground)
            } else {
                next == (RestoreStep::PausingLast { left: (left - 1) as u32 }, RestoreAction::Pause)
            }
            &&& step matches RestoreStep::PausingLast { left } ==> if left > 0 {
                next == (RestoreStep::CheckingLast { left }, RestoreAction::CheckActive { index: plan.active_tab })
            } else {
                next == (RestoreStep::CheckingForeground { left: 50 }, RestoreAction::CheckForeground)
            }
            &&& step matches RestoreStep::CheckingForeground { left } ==> if wants {
                next == (RestoreStep::Focusing, RestoreAction::Focus { pane: plan.active_pane })
            } else {
                next == (RestoreStep::PausingForeground { left: (left - 1) as u32 }, RestoreAction::Pause)
            }
            &&& step matches RestoreStep::PausingForeground { left } ==> if left > 0 {
                next == (RestoreStep::CheckingForeground { left }, RestoreAction::CheckForeground)
            } else {
                next == (RestoreStep::Focusing, RestoreAction::Focus { pane: plan.active_pane })
            }
            &&& step is Focusing || step is Finished ==> next == (RestoreStep::Finished, RestoreAction::Finish)
        }),
{
}

} // verus!
