//! The open tabs as the session file remembers them.
//!
//! A tab is written `x.y`, or `x.y:id,id,..` where its panes are held by long-lived processes:
//! `x` is the index of its profile, `y` the number of its extra split panes (at most three), and
//! there is one id for each pane. The active tab and pane are written `i.j`, and the window's
//! place `x,y,width,height`.

use vstd::prelude::*;
use crate::decimal::{
    integer_text, lemma_integer_text_plain, lemma_signed_round_trip, lemma_unsigned_round_trip,
    parse_i32, parse_u32, parse_usize, signed_of, signed_text, unsigned_of, unsigned_text,
};
use crate::pane_id::{canonical_uuid, is_pane_id, lemma_pane_id_plain, parse_uuid};
use crate::text::{
    halves, join, joined, lemma_pieces_of_joined, lemma_position_is, opt_text, opt_texts, pieces,
    split, split_once, texts,
};

verus! {

/// One open tab.
#[derive(Debug, PartialEq, Eq)]
pub struct SomDbTab {
    /// The index of the tab's profile.
    pub profile_index: usize,
    /// How many split panes it has besides its main one.
    pub extra_splits: usize,
    /// The pane ids, main pane first, of a tab whose panes outlive the window.
    pub tmux_sessions: Option<Vec<String>>,
}

/// The place and size of a window, in physical pixels.
#[derive(Debug, Clone, Copy, PartialEq, Eq, Structural)]
pub struct SomWindowBounds {
    pub x: i32,
    pub y: i32,
    pub width: u32,
    pub height: u32,
}

/// What is restored when the program starts.
#[derive(Debug, PartialEq, Eq)]
pub struct SomDbState {
    pub tabs: Vec<SomDbTab>,
    pub active_tab: usize,
    pub active_pane: usize,
    pub window_bounds: Option<SomWindowBounds>,
}

/// The session file: every value still in its written form.
#[derive(Debug, PartialEq, Eq)]
pub struct SomDbFile {
    pub tabs: Vec<String>,
    pub active: String,
    pub window_bounds: Option<String>,
}

#[verifier::ext_equal]
pub struct TabModel {
    pub profile_index: nat,
    pub extra_splits: nat,
    pub sessions: Option<Seq<Seq<char>>>,
}

#[verifier::ext_equal]
pub struct StateModel {
    pub tabs: Seq<TabModel>,
    pub active_tab: nat,
    pub active_pane: nat,
    pub window_bounds: Option<SomWindowBounds>,
}

#[verifier::ext_equal]
pub struct FileModel {
    pub tabs: Seq<Seq<char>>,
    pub active: Seq<char>,
    pub window_bounds: Option<Seq<char>>,
}

impl View for SomDbTab {
    type V = TabModel;

    open spec fn view(&self) -> TabModel {
        TabModel {
            profile_index: self.profile_index as nat,
            extra_splits: self.extra_splits as nat,
            sessions: match self.tmux_sessions {
                Some(ids) => Some(texts(ids@)),
                None => None,
            },
        }
    }
}

pub open spec fn tab_models(tabs: Seq<SomDbTab>) -> Seq<TabModel> {
    tabs.map_values(|t: SomDbTab| t@)
}

impl View for SomDbState {
    type V = StateModel;

    open spec fn view(&self) -> StateModel {
        StateModel {
            tabs: tab_models(self.tabs@),
            active_tab: self.active_tab as nat,
            active_pane: self.active_pane as nat,
            window_bounds: self.window_bounds,
        }
    }
}

impl View for SomDbFile {
    type V = FileModel;

    open spec fn view(&self) -> FileModel {
        FileModel {
            tabs: texts(self.tabs@),
            active: self.active@,
            window_bounds: opt_text(self.window_bounds),
        }
    }
}

impl TabModel {
    /// At most three splits, and, where there are pane ids, one for each pane.
    pub open spec fn well_formed(self) -> bool {
        &&& self.profile_index <= usize::MAX
        &&& self.extra_splits <= 3
        &&& self.sessions matches Some(ids) ==> {
            &&& ids.len() == 1 + self.extra_splits
            &&& forall|i: int| 0 <= i < ids.len() ==> is_pane_id(#[trigger] ids[i])
        }
    }
}

impl StateModel {
    /// There is a tab, and the active tab and pane exist.
    pub open spec fn well_formed(self) -> bool {
        &&& self.active_tab < self.tabs.len() <= usize::MAX
        &&& self.active_pane <= self.tabs[self.active_tab as int].extra_splits
        &&& forall|i: int| 0 <= i < self.tabs.len() ==> (#[trigger] self.tabs[i]).well_formed()
    }
}

/// The state of a first start: one tab of the first profile.
pub open spec fn initial_state() -> StateModel {
    first_state(0)
}

/// The state of a first start: one tab, of the profile at the place that is given.
pub open spec fn first_state(profile_index: nat) -> StateModel {
    StateModel {
        tabs: seq![TabModel { profile_index, extra_splits: 0, sessions: None }],
        active_tab: 0,
        active_pane: 0,
        window_bounds: None,
    }
}

impl Default for SomDbState {
    fn default() -> (r: Self)
        ensures
            r@ == initial_state(),
    {
        SomDbState::first(0)
    }
}

impl SomDbState {
    /// The state of a first start, with a tab of the profile at a place.
    pub fn first(profile_index: usize) -> (r: Self)
        ensures
            r@ == first_state(profile_index as nat),
    {
        let tab = SomDbTab { profile_index, extra_splits: 0, tmux_sessions: None };
        let r = SomDbState { tabs: vec![tab], active_tab: 0, active_pane: 0, window_bounds: None };
        assert(r@.tabs =~= first_state(profile_index as nat).tabs);
        r
    }
}

/// What a pair `a.b` of numbers reads as.
pub open spec fn pair_of(s: Seq<char>) -> Option<(nat, nat)> {
    match halves(s, '.') {
        Some((a, b)) => match (unsigned_of(a, usize::MAX as nat), unsigned_of(b, usize::MAX as nat)) {
            (Some(x), Some(y)) => Some((x, y)),
            _ => None,
        },
        None => None,
    }
}

/// How a pair of numbers is written.
pub open spec fn pair_text(a: nat, b: nat) -> Seq<char> {
    integer_text(a as int) + seq!['.'] + integer_text(b as int)
}

/// What the window's place reads as: four numbers, no fewer and no more.
pub open spec fn bounds_of(s: Seq<char>) -> Option<SomWindowBounds> {
    let p = pieces(s, ',');
    if p.len() != 4 {
        None
    } else {
        match (
            signed_of(p[0], i32::MAX as nat),
            signed_of(p[1], i32::MAX as nat),
            unsigned_of(p[2], u32::MAX as nat),
            unsigned_of(p[3], u32::MAX as nat),
        ) {
            (Some(x), Some(y), Some(width), Some(height)) => Some(
                SomWindowBounds { x: x as i32, y: y as i32, width: width as u32, height: height as u32 },
            ),
            _ => None,
        }
    }
}

/// How the window's place is written.
pub open spec fn bounds_text(b: SomWindowBounds) -> Seq<char> {
    joined(
        seq![
            integer_text(b.x as int),
            integer_text(b.y as int),
            integer_text(b.width as int),
            integer_text(b.height as int),
        ],
        seq![','],
    )
}

/// The pane ids of a tab: all of them, where every id is one and there is one for each pane.
pub open spec fn complete_sessions(ids: Seq<Option<Seq<char>>>, extra_splits: nat) -> Option<
    Seq<Seq<char>>,
> {
    if ids.len() == 1 + extra_splits && forall|i: int| 0 <= i < ids.len() ==> #[trigger] ids[i] is Some {
        Some(ids.map_values(|id: Option<Seq<char>>| id->0))
    } else {
        None
    }
}

/// What a list of pane ids reads as.
pub open spec fn sessions_of(s: Seq<char>, extra_splits: nat) -> Option<Seq<Seq<char>>> {
    complete_sessions(pieces(s, ',').map_values(|p: Seq<char>| canonical_uuid(p)), extra_splits)
}

pub open spec fn at_most_three(n: nat) -> nat {
    if n < 3 {
        n
    } else {
        3
    }
}

/// What a tab reads as.
pub open spec fn tab_of(s: Seq<char>) -> Option<TabModel> {
    let (pair, rest) = match halves(s, ':') {
        Some((pair, rest)) => (pair, Some(rest)),
        None => (s, None),
    };
    match pair_of(pair) {
        Some((profile_index, splits)) => Some(
            TabModel {
                profile_index,
                extra_splits: at_most_three(splits),
                sessions: match rest {
                    Some(ids) => sessions_of(ids, at_most_three(splits)),
                    None => None,
                },
            },
        ),
        None => None,
    }
}

/// How a tab is written.
pub open spec fn tab_text(t: TabModel) -> Seq<char> {
    let pair = pair_text(t.profile_index, t.extra_splits);
    match t.sessions {
        Some(ids) => pair + seq![':'] + joined(ids, seq![',']),
        None => pair,
    }
}

/// The tabs that can be read, in order; what cannot be read is left out.
pub open spec fn tabs_of(entries: Seq<Seq<char>>) -> Seq<TabModel>
    decreases entries.len(),
{
    if entries.len() == 0 {
        Seq::empty()
    } else {
        let before = tabs_of(entries.drop_last());
        match tab_of(entries.last()) {
            Some(t) => before.push(t),
            None => before,
        }
    }
}

/// The state that a session file stands for.
pub open spec fn state_of(file: Option<FileModel>) -> StateModel {
    session_of(file, 0)
}

/// The state that a session file stands for, where a first start opens a tab of the profile at
/// `default_index`.
pub open spec fn session_of(file: Option<FileModel>, default_index: nat) -> StateModel {
    match file {
        None => first_state(default_index),
        Some(f) => {
            let tabs = tabs_of(f.tabs);
            if tabs.len() == 0 {
                first_state(default_index)
            } else {
                let (tab, pane) = match pair_of(f.active) {
                    Some(pair) => pair,
                    None => (0, 0),
                };
                let active_tab = if tab < tabs.len() {
                    tab
                } else {
                    (tabs.len() - 1) as nat
                };
                let max_pane = tabs[active_tab as int].extra_splits;
                StateModel {
                    tabs,
                    active_tab,
                    active_pane: if pane < max_pane {
                        pane
                    } else {
                        max_pane
                    },
                    window_bounds: match f.window_bounds {
                        Some(s) => bounds_of(s),
                        None => None,
                    },
                }
            }
        },
    }
}

/// The session file that a state is written as.
pub open spec fn file_of(s: StateModel) -> FileModel {
    FileModel {
        tabs: s.tabs.map_values(|t: TabModel| tab_text(t)),
        active: pair_text(s.active_tab, s.active_pane),
        window_bounds: match s.window_bounds {
            Some(b) => Some(bounds_text(b)),
            None => None,
        },
    }
}

proof fn lemma_halves_of(a: Seq<char>, c: char, b: Seq<char>)
    requires
        !a.contains(c),
    ensures
        halves(a + seq![c] + b, c) == Some((a, b)),
{
    let s = a + seq![c] + b;
    assert forall|j: int| 0 <= j < a.len() implies s[j] != c by {
        assert(a.contains(s[j]));
    }
    lemma_position_is(s, c, a.len() as int);
    assert(s.subrange(0, a.len() as int) =~= a);
    assert(s.subrange(a.len() as int + 1, s.len() as int) =~= b);
}

/// A pair that was written reads as itself.
pub proof fn lemma_pair_round_trip(a: nat, b: nat)
    requires
        a <= usize::MAX,
        b <= usize::MAX,
    ensures
        pair_of(pair_text(a, b)) == Some((a, b)),
{
    lemma_integer_text_plain(a as int, '.');
    lemma_halves_of(integer_text(a as int), '.', integer_text(b as int));
    lemma_unsigned_round_trip(a, usize::MAX as nat);
    lemma_unsigned_round_trip(b, usize::MAX as nat);
}

/// A window place that was written reads as itself.
pub proof fn lemma_bounds_round_trip(b: SomWindowBounds)
    ensures
        bounds_of(bounds_text(b)) == Some(b),
{
    let parts = seq![
        integer_text(b.x as int),
        integer_text(b.y as int),
        integer_text(b.width as int),
        integer_text(b.height as int),
    ];
    lemma_integer_text_plain(b.x as int, ',');
    lemma_integer_text_plain(b.y as int, ',');
    lemma_integer_text_plain(b.width as int, ',');
    lemma_integer_text_plain(b.height as int, ',');
    lemma_pieces_of_joined(parts, ',');
    lemma_signed_round_trip(b.x as int, i32::MAX as nat);
    lemma_signed_round_trip(b.y as int, i32::MAX as nat);
    lemma_unsigned_round_trip(b.width as nat, u32::MAX as nat);
    lemma_unsigned_round_trip(b.height as nat, u32::MAX as nat);
}

proof fn lemma_sessions_round_trip(ids: Seq<Seq<char>>, extra_splits: nat)
    requires
        ids.len() == 1 + extra_splits,
        forall|i: int| 0 <= i < ids.len() ==> is_pane_id(#[trigger] ids[i]),
    ensures
        sessions_of(joined(ids, seq![',']), extra_splits) == Some(ids),
{
    assert forall|i: int| 0 <= i < ids.len() implies !#[trigger] ids[i].contains(',') by {
        lemma_pane_id_plain(ids[i], ',');
    }
    lemma_pieces_of_joined(ids, ',');
    let parsed = ids.map_values(|p: Seq<char>| canonical_uuid(p));
    assert forall|i: int| 0 <= i < parsed.len() implies #[trigger] parsed[i] == Some(ids[i]) by {
        assert(is_pane_id(ids[i]));
    }
    assert(parsed.map_values(|id: Option<Seq<char>>| id->0) =~= ids);
}

/// A tab that was written reads as itself.
pub proof fn lemma_tab_round_trip(t: TabModel)
    requires
        t.well_formed(),
    ensures
        tab_of(tab_text(t)) == Some(t),
{
    let pair = pair_text(t.profile_index, t.extra_splits);
    lemma_pair_round_trip(t.profile_index, t.extra_splits);
    lemma_integer_text_plain(t.profile_index as int, ':');
    lemma_integer_text_plain(t.extra_splits as int, ':');
    assert(!pair.contains(':')) by {
        assert forall|i: int| 0 <= i < pair.len() implies pair[i] != ':' by {
            let a = integer_text(t.profile_index as int);
            let b = integer_text(t.extra_splits as int);
            if i < a.len() {
                assert(a.contains(pair[i]));
            } else if i > a.len() {
                assert(b[i - a.len() - 1] == pair[i]);
                assert(b.contains(pair[i]));
            }
        }
    }
    match t.sessions {
        Some(ids) => {
            lemma_halves_of(pair, ':', joined(ids, seq![',']));
            lemma_sessions_round_trip(ids, t.extra_splits);
        },
        None => {
            assert forall|j: int| 0 <= j < pair.len() implies pair[j] != ':' by {
                assert(pair.contains(pair[j]));
            }
            lemma_position_is(pair, ':', pair.len() as int);
        },
    }
}

proof fn lemma_tabs_round_trip(tabs: Seq<TabModel>)
    requires
        forall|i: int| 0 <= i < tabs.len() ==> (#[trigger] tabs[i]).well_formed(),
    ensures
        tabs_of(tabs.map_values(|t: TabModel| tab_text(t))) == tabs,
    decreases tabs.len(),
{
    let entries = tabs.map_values(|t: TabModel| tab_text(t));
    if tabs.len() > 0 {
        let init = tabs.drop_last();
        assert forall|i: int| 0 <= i < init.len() implies (#[trigger] init[i]).well_formed() by {
            assert(tabs[i].well_formed());
        }
        lemma_tabs_round_trip(init);
        assert(entries.drop_last() =~= init.map_values(|t: TabModel| tab_text(t)));
        assert(tabs[tabs.len() - 1].well_formed());
        lemma_tab_round_trip(tabs.last());
        assert(init.push(tabs.last()) =~= tabs);
    }
}

/// A state that was saved is the state that is loaded.
pub proof fn lemma_state_round_trip(s: StateModel)
    requires
        s.well_formed(),
    ensures
        state_of(Some(file_of(s))) == s,
{
    lemma_tabs_round_trip(s.tabs);
    assert(s.tabs[s.active_tab as int].well_formed());
    lemma_pair_round_trip(s.active_tab, s.active_pane);
    match s.window_bounds {
        Some(b) => lemma_bounds_round_trip(b),
        None => {},
    }
}

/// Writes the window's place.
pub fn format_window_bounds(b: &SomWindowBounds) -> (r: String)
    ensures
        r@ == bounds_text(*b),
{
    let mut parts: Vec<String> = Vec::new();
    parts.push(signed_text(b.x as i64));
    parts.push(signed_text(b.y as i64));
    parts.push(unsigned_text(b.width as u64));
    parts.push(unsigned_text(b.height as u64));
    proof {
        reveal_strlit(",");
        assert(","@ =~= seq![',']);
        assert(texts(parts@) =~= seq![
            integer_text(b.x as int),
            integer_text(b.y as int),
            integer_text(b.width as int),
            integer_text(b.height as int),
        ]);
    }
    join(&parts, ",")
}

/// Reads the window's place.
pub fn parse_window_bounds(s: &str) -> (r: Option<SomWindowBounds>)
    ensures
        r == bounds_of(s@),
{
    let parts = split(s, ',');
    if parts.len() != 4 {
        return None;
    }
    assert(texts(parts@)[0] == parts@[0]@);
    assert(texts(parts@)[1] == parts@[1]@);
    assert(texts(parts@)[2] == parts@[2]@);
    assert(texts(parts@)[3] == parts@[3]@);
    let x = parse_i32(parts[0].as_str());
    let y = parse_i32(parts[1].as_str());
    let width = parse_u32(parts[2].as_str());
    let height = parse_u32(parts[3].as_str());
    match (x, y, width, height) {
        (Some(x), Some(y), Some(width), Some(height)) => Some(SomWindowBounds { x, y, width, height }),
        _ => None,
    }
}

/// Reads a pair `a.b` of numbers.
pub fn parse_pair(s: &str) -> (r: Option<(usize, usize)>)
    ensures
        match r {
            Some((a, b)) => pair_of(s@) == Some((a as nat, b as nat)),
            None => pair_of(s@) is None,
        },
{
    match split_once(s, '.') {
        Some((a, b)) => match (parse_usize(a.as_str()), parse_usize(b.as_str())) {
            (Some(x), Some(y)) => Some((x, y)),
            _ => None,
        },
        None => None,
    }
}

/// The pane ids of a tab with `extra_splits` extra panes: none at all unless every id could be
/// read and there is one for each pane.
pub fn checked_sessions(ids: Vec<Option<String>>, extra_splits: usize) -> (r: Option<Vec<String>>)
    requires
        extra_splits < usize::MAX,
    ensures
        (match r {
            Some(v) => Some(texts(v@)),
            None => None,
        }) == complete_sessions(opt_texts(ids@), extra_splits as nat),
{
    let ghost all = opt_texts(ids@);
    if ids.len() != 1 + extra_splits {
        return None;
    }
    let mut out: Vec<String> = Vec::new();
    let mut i: usize = 0;
    while i < ids.len()
        invariant
            i <= ids@.len(),
            out@.len() == i,
            all == opt_texts(ids@),
            forall|j: int| 0 <= j < i ==> #[trigger] all[j] == Some(out@[j]@),
        decreases ids@.len() - i,
    {
        match &ids[i] {
            Some(id) => {
                out.push(id.clone());
            },
            None => {
                assert(all[i as int] is None);
                return None;
            },
        }
        i += 1;
    }
    assert(texts(out@) =~= all.map_values(|id: Option<Seq<char>>| id->0));
    Some(out)
}

/// Reads a tab. Pane ids that do not fit the tab are dropped, and the tab is kept.
pub fn parse_tab_entry(s: &str) -> (r: Option<SomDbTab>)
    ensures
        (match r {
            Some(t) => Some(t@),
            None => None,
        }) == tab_of(s@),
        r matches Some(t) ==> t@.well_formed(),
{
    let (pair, sessions_part) = match split_once(s, ':') {
        Some((pair, rest)) => (pair, Some(rest)),
        None => (String::from_str(s), None),
    };
    match parse_pair(pair.as_str()) {
        None => None,
        Some((profile_index, splits)) => {
            let extra_splits: usize = if splits < 3 {
                splits
            } else {
                3
            };
            let tmux_sessions = match sessions_part {
                None => None,
                Some(rest) => {
                    let parts = split(rest.as_str(), ',');
                    let mut ids: Vec<Option<String>> = Vec::new();
                    let mut i: usize = 0;
                    while i < parts.len()
                        invariant
                            i <= parts@.len(),
                            ids@.len() == i,
                            forall|j: int|
                                0 <= j < i ==> #[trigger] opt_text(ids@[j]) == canonical_uuid(parts@[j]@),
                            forall|j: int|
                                0 <= j < i ==> (#[trigger] ids@[j] matches Some(id) ==> is_pane_id(id@)),
                        decreases parts@.len() - i,
                    {
                        ids.push(parse_uuid(parts[i].as_str()));
                        i += 1;
                    }
                    let ghost before = ids@;
                    proof {
                        assert(opt_texts(ids@) =~= pieces(
                            rest@,
                            ',',
                        ).map_values(|p: Seq<char>| canonical_uuid(p))) by {
                            assert forall|j: int| 0 <= j < ids@.len() implies #[trigger] opt_text(ids@[j])
                                == canonical_uuid(pieces(rest@, ',')[j]) by {
                                assert(pieces(rest@, ',')[j] == parts@[j]@);
                            }
                        }
                    }
                    let checked = checked_sessions(ids, extra_splits);
                    proof {
                        if checked is Some {
                            let v = checked->0;
                            let all = opt_texts(before);
                            assert(complete_sessions(all, extra_splits as nat) == Some(texts(v@)));
                            assert(texts(v@).len() == all.len());
                            assert forall|j: int| 0 <= j < v@.len() implies is_pane_id(#[trigger] texts(v@)[j]) by {
                                assert(texts(v@)[j] == all[j]->0);
                                assert(all[j] is Some);
                                assert(opt_text(before[j]) == all[j]);
                            }
                        }
                    }
                    checked
                },
            };
            Some(SomDbTab { profile_index, extra_splits, tmux_sessions })
        },
    }
}

/// The state that a session file stands for; without a readable file, that of a first start.
pub fn load_som_db(file: Option<SomDbFile>) -> (r: SomDbState)
    ensures
        r@ == state_of(match file {
            Some(f) => Some(f@),
            None => None,
        }),
        r@.well_formed(),
{
    load_session(file, 0)
}

/// The state that a session file stands for; without a readable file, that of a first start, whose
/// tab is of the profile at `default_index`.
pub fn load_session(file: Option<SomDbFile>, default_index: usize) -> (r: SomDbState)
    ensures
        r@ == session_of(
            match file {
                Some(f) => Some(f@),
                None => None,
            },
            default_index as nat,
        ),
        r@.well_formed(),
{
    let file = match file {
        Some(file) => file,
        None => {
            return SomDbState::first(default_index);
        },
    };
    let mut tabs: Vec<SomDbTab> = Vec::new();
    let mut i: usize = 0;
    while i < file.tabs.len()
        invariant
            i <= file.tabs@.len(),
            tab_models(tabs@) == tabs_of(texts(file.tabs@).take(i as int)),
            forall|j: int| 0 <= j < tabs@.len() ==> (#[trigger] tabs@[j])@.well_formed(),
        decreases file.tabs@.len() - i,
    {
        let ghost next = texts(file.tabs@).take(i + 1);
        let ghost before = tabs@;
        assert(next.drop_last() =~= texts(file.tabs@).take(i as int));
        assert(next.last() == file.tabs@[i as int]@);
        match parse_tab_entry(file.tabs[i].as_str()) {
            Some(tab) => {
                tabs.push(tab);
                assert(tab_models(tabs@) =~= tab_models(before).push(tab@));
            },
            None => {},
        }
        i += 1;
    }
    assert(texts(file.tabs@).take(i as int) =~= texts(file.tabs@));
    if tabs.len() == 0 {
        return SomDbState::first(default_index);
    }
    let (tab, pane) = match parse_pair(file.active.as_str()) {
        Some(pair) => pair,
        None => (0, 0),
    };
    let active_tab: usize = if tab < tabs.len() {
        tab
    } else {
        tabs.len() - 1
    };
    assert(tab_models(tabs@)[active_tab as int] == tabs@[active_tab as int]@);
    let max_pane: usize = tabs[active_tab].extra_splits;
    let active_pane: usize = if pane < max_pane {
        pane
    } else {
        max_pane
    };
    let window_bounds = match &file.window_bounds {
        Some(s) => parse_window_bounds(s.as_str()),
        None => None,
    };
    let r = SomDbState { tabs, active_tab, active_pane, window_bounds };
    assert forall|j: int| 0 <= j < r@.tabs.len() implies (#[trigger] r@.tabs[j]).well_formed() by {
        assert(r@.tabs[j] == r.tabs@[j]@);
    }
    r
}

/// Writes a pair of numbers.
fn format_pair(a: usize, b: usize) -> (r: String)
    ensures
        r@ == pair_text(a as nat, b as nat),
{
    let mut out = unsigned_text(a as u64);
    out.push('.');
    let second = unsigned_text(b as u64);
    out.append(second.as_str());
    assert(out@ =~= pair_text(a as nat, b as nat));
    out
}

/// Writes a tab.
pub fn format_tab_entry(tab: &SomDbTab) -> (r: String)
    ensures
        r@ == tab_text(tab@),
{
    let mut out = format_pair(tab.profile_index, tab.extra_splits);
    match &tab.tmux_sessions {
        Some(ids) => {
            proof {
                reveal_strlit(",");
                assert(","@ =~= seq![',']);
            }
            let list = join(ids, ",");
            out.push(':');
            out.append(list.as_str());
            assert(out@ =~= tab_text(tab@));
        },
        None => {},
    }
    out
}

/// The session file that a state is written as.
pub fn save_som_db(state: &SomDbState) -> (r: SomDbFile)
    ensures
        r@ == file_of(state@),
{
    let mut tabs: Vec<String> = Vec::new();
    let mut i: usize = 0;
    while i < state.tabs.len()
        invariant
            i <= state.tabs@.len(),
            tabs@.len() == i,
            forall|j: int| 0 <= j < i ==> (#[trigger] tabs@[j])@ == tab_text(state.tabs@[j]@),
        decreases state.tabs@.len() - i,
    {
        tabs.push(format_tab_entry(&state.tabs[i]));
        i += 1;
    }
    let r = SomDbFile {
        tabs,
        active: format_pair(state.active_tab, state.active_pane),
        window_bounds: match &state.window_bounds {
            Some(b) => Some(format_window_bounds(b)),
            None => None,
        },
    };
    assert(r@.tabs =~= file_of(state@).tabs);
    r
}

/// The session file with a new window place, and the tabs and the active pane as they were.
pub fn save_window_bounds_to_som_db(file: Option<SomDbFile>, bounds: SomWindowBounds) -> (r: SomDbFile)
    ensures
        ({
            let before = state_of(match file {
                Some(f) => Some(f@),
                None => None,
            });
            let after = StateModel { window_bounds: Some(bounds), ..before };
            r@ == file_of(after) && state_of(Some(r@)) == after
        }),
{
    let mut state = load_som_db(file);
    let ghost before = state@;
    state.window_bounds = Some(bounds);
    proof {
        assert(state@.tabs =~= before.tabs);
        assert forall|j: int| 0 <= j < state@.tabs.len() implies (#[trigger] state@.tabs[j]).well_formed() by {
            assert(before.tabs[j].well_formed());
        }
        lemma_state_round_trip(state@);
    }
    save_som_db(&state)
}

/// Tabs are read one by one: what stands before and behind others does not change how they are read.
pub proof fn lemma_tabs_read_one_by_one(a: Seq<Seq<char>>, b: Seq<Seq<char>>)
    ensures
        tabs_of(a + b) == tabs_of(a) + tabs_of(b),
    decreases b.len(),
{
    if b.len() == 0 {
        assert(a + b =~= a);
        assert(tabs_of(a) + tabs_of(b) =~= tabs_of(a));
    } else {
        lemma_tabs_read_one_by_one(a, b.drop_last());
        assert((a + b).drop_last() =~= a + b.drop_last());
        assert(tabs_of(a + b) =~= tabs_of(a) + tabs_of(b));
    }
}

/// A tab without pane ids is a profile and a number of panes besides the first, of which no more than
/// three come back.
pub proof fn lemma_plain_tab_read(profile_index: nat, splits: nat)
    requires
        profile_index <= usize::MAX,
        splits <= usize::MAX,
    ensures
        tab_of(integer_text(profile_index as int) + seq!['.'] + integer_text(splits as int)) == Some(
            TabModel {
                profile_index,
                extra_splits: if splits <= 3 {
                    splits
                } else {
                    3
                },
                sessions: None,
            },
        ),
{
    let s = pair_text(profile_index, splits);
    lemma_pair_round_trip(profile_index, splits);
    lemma_integer_text_plain(profile_index as int, ':');
    lemma_integer_text_plain(splits as int, ':');
    let a = integer_text(profile_index as int);
    let b = integer_text(splits as int);
    assert forall|i: int| 0 <= i < s.len() implies s[i] != ':' by {
        if i < a.len() {
            assert(a.contains(s[i]));
        } else if i > a.len() {
            assert(b.contains(b[i - a.len() - 1]));
            assert(s[i] == b[i - a.len() - 1]);
        }
    }
    lemma_position_is(s, ':', s.len() as int);
}

/// What is loaded shows a tab and a pane of it that exist: those that were active where they do, else
/// the last tab, and the last pane of the tab.
pub proof fn lemma_active_place(file: FileModel, tab: nat, pane: nat, default_index: nat)
    requires
        pair_of(file.active) == Some((tab, pane)),
        tabs_of(file.tabs).len() > 0,
    ensures
        ({
            let tabs = tabs_of(file.tabs);
            let state = session_of(Some(file), default_index);
            let last_pane = tabs[state.active_tab as int].extra_splits;
            &&& state.tabs == tabs
            &&& state.active_tab < tabs.len()
            &&& tab < tabs.len() ==> state.active_tab == tab
            &&& tab >= tabs.len() ==> state.active_tab == tabs.len() - 1
            &&& pane <= last_pane ==> state.active_pane == pane
            &&& pane > last_pane ==> state.active_pane == last_pane
        }),
{
}

/// Without a tab that can be read, one tab of the default profile is opened, whatever else the file
/// says.
pub proof fn lemma_first_start(file: Option<FileModel>, default_index: nat)
    requires
        file matches Some(f) ==> tabs_of(f.tabs).len() == 0,
    ensures
        session_of(file, default_index) == (StateModel {
            tabs: seq![TabModel { profile_index: default_index, extra_splits: 0, sessions: None }],
            active_tab: 0,
            active_pane: 0,
            window_bounds: None,
        }),
{
}

} // verus!
