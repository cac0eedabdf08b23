//! Which directories the user has trusted, on which machine.
//!
//! In memory there is one set of paths for each host; no host stands for this machine. The set
//! is kept as a file with one entry for each host, or as rows with one path each.

use vstd::prelude::*;
use crate::persistence::WorkspaceDb;
use crate::text::{clone_opt, join, joined, opt_text, same_text, texts};

verus! {

/// A machine and, where it is not the usual one, the user on it.
#[derive(Debug, PartialEq, Eq)]
pub struct SomTrustedHost {
    pub user_name: Option<String>,
    pub host_identifier: String,
}

/// The same, as the rest of the program names it.
#[derive(Debug, PartialEq, Eq)]
pub struct RemoteHostLocation {
    pub user_name: Option<String>,
    pub host_identifier: String,
}

#[verifier::ext_equal]
pub struct HostModel {
    pub user_name: Option<Seq<char>>,
    pub host_identifier: Seq<char>,
}

impl View for SomTrustedHost {
    type V = HostModel;

    open spec fn view(&self) -> HostModel {
        HostModel { user_name: opt_text(self.user_name), host_identifier: self.host_identifier@ }
    }
}

impl View for RemoteHostLocation {
    type V = HostModel;

    open spec fn view(&self) -> HostModel {
        HostModel { user_name: opt_text(self.user_name), host_identifier: self.host_identifier@ }
    }
}

impl SomTrustedHost {
    pub fn from_remote_host_location(host: &RemoteHostLocation) -> (r: SomTrustedHost)
        ensures
            r@ == host@,
    {
        SomTrustedHost {
            user_name: clone_opt(&host.user_name),
            host_identifier: host.host_identifier.clone(),
        }
    }

    pub fn into_remote_host_location(self) -> (r: RemoteHostLocation)
        ensures
            r@ == self@,
    {
        RemoteHostLocation { user_name: self.user_name, host_identifier: self.host_identifier }
    }
}

/// The paths trusted on one host.
#[derive(Debug, PartialEq, Eq)]
pub struct TrustedWorktreesEntry {
    pub host: Option<SomTrustedHost>,
    pub paths: Vec<String>,
}

/// The file of trusted paths.
#[derive(Debug, PartialEq, Eq)]
pub struct TrustedWorktreesFile {
    pub entries: Vec<TrustedWorktreesEntry>,
}

/// The trusted paths of every host, each host and path once.
#[derive(Debug, PartialEq, Eq)]
pub struct TrustedWorktrees {
    pub entries: Vec<TrustedWorktreesEntry>,
}

/// The paths trusted on one host, as the rest of the program names it.
#[derive(Debug, PartialEq, Eq)]
pub struct DbTrustedEntry {
    pub host: Option<RemoteHostLocation>,
    pub paths: Vec<String>,
}

/// The trusted paths of every host, each host and path once.
#[derive(Debug, PartialEq, Eq)]
pub struct DbTrustedPaths {
    pub entries: Vec<DbTrustedEntry>,
}

#[verifier::ext_equal]
pub struct TrustModel {
    pub host: Option<HostModel>,
    pub paths: Seq<Seq<char>>,
}

pub open spec fn opt_host(host: Option<SomTrustedHost>) -> Option<HostModel> {
    match host {
        Some(host) => Some(host@),
        None => None,
    }
}

pub open spec fn opt_location(host: Option<RemoteHostLocation>) -> Option<HostModel> {
    match host {
        Some(host) => Some(host@),
        None => None,
    }
}

impl View for TrustedWorktreesEntry {
    type V = TrustModel;

    open spec fn view(&self) -> TrustModel {
        TrustModel { host: opt_host(self.host), paths: texts(self.paths@) }
    }
}

impl View for DbTrustedEntry {
    type V = TrustModel;

    open spec fn view(&self) -> TrustModel {
        TrustModel { host: opt_location(self.host), paths: texts(self.paths@) }
    }
}

pub open spec fn trust_models(entries: Seq<TrustedWorktreesEntry>) -> Seq<TrustModel> {
    entries.map_values(|e: TrustedWorktreesEntry| e@)
}

pub open spec fn db_trust_models(entries: Seq<DbTrustedEntry>) -> Seq<TrustModel> {
    entries.map_values(|e: DbTrustedEntry| e@)
}

/// The paths of every host. Of two entries for one host the later one counts.
pub open spec fn by_host(entries: Seq<TrustModel>) -> Map<Option<HostModel>, Set<Seq<char>>>
    decreases entries.len(),
{
    if entries.len() == 0 {
        Map::empty()
    } else {
        by_host(entries.drop_last()).insert(entries.last().host, entries.last().paths.to_set())
    }
}

/// No host has two entries, and no entry a path twice.
pub open spec fn each_once(entries: Seq<TrustModel>) -> bool {
    &&& forall|i: int, j: int| #![trigger entries[i], entries[j]]
        0 <= i < j < entries.len() ==> entries[i].host != entries[j].host
    &&& forall|i: int| 0 <= i < entries.len() ==> (#[trigger] entries[i]).paths.no_duplicates()
}

impl View for TrustedWorktrees {
    type V = Map<Option<HostModel>, Set<Seq<char>>>;

    open spec fn view(&self) -> Map<Option<HostModel>, Set<Seq<char>>> {
        by_host(trust_models(self.entries@))
    }
}

impl TrustedWorktrees {
    pub open spec fn well_formed(&self) -> bool {
        each_once(trust_models(self.entries@))
    }
}

impl View for DbTrustedPaths {
    type V = Map<Option<HostModel>, Set<Seq<char>>>;

    open spec fn view(&self) -> Map<Option<HostModel>, Set<Seq<char>>> {
        by_host(db_trust_models(self.entries@))
    }
}

impl DbTrustedPaths {
    pub open spec fn well_formed(&self) -> bool {
        each_once(db_trust_models(self.entries@))
    }
}

proof fn lemma_by_host_at(entries: Seq<TrustModel>, i: int)
    requires
        each_once(entries),
        0 <= i < entries.len(),
    ensures
        by_host(entries).contains_key(entries[i].host),
        by_host(entries)[entries[i].host] == entries[i].paths.to_set(),
    decreases entries.len(),
{
    let front = entries.drop_last();
    if i < front.len() {
        assert(each_once(front)) by {
            assert forall|a: int, b: int| #![trigger front[a], front[b]] 0 <= a < b < front.len() implies
                front[a].host != front[b].host by {
                assert(entries[a].host != entries[b].host);
            }
        }
        lemma_by_host_at(front, i);
        assert(front[i] == entries[i]);
        assert(entries[i].host != entries[entries.len() - 1].host);
    }
}

proof fn lemma_by_host_absent(entries: Seq<TrustModel>, host: Option<HostModel>)
    requires
        forall|i: int| 0 <= i < entries.len() ==> (#[trigger] entries[i]).host != host,
    ensures
        !by_host(entries).contains_key(host),
    decreases entries.len(),
{
    if entries.len() > 0 {
        let front = entries.drop_last();
        assert forall|i: int| 0 <= i < front.len() implies (#[trigger] front[i]).host != host by {
            assert(front[i] == entries[i]);
        }
        lemma_by_host_absent(front, host);
        assert(entries[entries.len() - 1].host != host);
    }
}

proof fn lemma_by_host_update(entries: Seq<TrustModel>, i: int, paths: Seq<Seq<char>>)
    requires
        each_once(entries),
        0 <= i < entries.len(),
    ensures
        by_host(entries.update(i, TrustModel { host: entries[i].host, paths })) == by_host(entries).insert(
            entries[i].host,
            paths.to_set(),
        ),
    decreases entries.len(),
{
    let new = TrustModel { host: entries[i].host, paths };
    let front = entries.drop_last();
    let last = entries.last();
    if i < front.len() {
        assert(each_once(front)) by {
            assert forall|a: int, b: int| #![trigger front[a], front[b]] 0 <= a < b < front.len() implies
                front[a].host != front[b].host by {
                assert(entries[a].host != entries[b].host);
            }
        }
        lemma_by_host_update(front, i, paths);
        assert(entries.update(i, new).drop_last() =~= front.update(i, new));
        assert(entries[i].host != entries[entries.len() - 1].host);
        assert(by_host(front).insert(new.host, paths.to_set()).insert(last.host, last.paths.to_set())
            =~= by_host(front).insert(last.host, last.paths.to_set()).insert(new.host, paths.to_set()));
    } else {
        assert(entries.update(i, new).drop_last() =~= front);
        assert(by_host(front).insert(new.host, paths.to_set()) =~= by_host(entries).insert(
            new.host,
            paths.to_set(),
        ));
    }
}

fn same_opt(a: &Option<String>, b: &Option<String>) -> (r: bool)
    ensures
        r == (opt_text(*a) == opt_text(*b)),
{
    match (a, b) {
        (Some(a), Some(b)) => same_text(a.as_str(), b.as_str()),
        (None, None) => true,
        _ => false,
    }
}

fn same_host(a: &Option<SomTrustedHost>, b: &Option<SomTrustedHost>) -> (r: bool)
    ensures
        r == (opt_host(*a) == opt_host(*b)),
{
    match (a, b) {
        (Some(a), Some(b)) => {
            let users = same_opt(&a.user_name, &b.user_name);
            let hosts = same_text(a.host_identifier.as_str(), b.host_identifier.as_str());
            users && hosts
        },
        (None, None) => true,
        _ => false,
    }
}

fn find_host(entries: &Vec<TrustedWorktreesEntry>, host: &Option<SomTrustedHost>) -> (r: Option<usize>)
    ensures
        match r {
            Some(i) => i < entries@.len() && entries@[i as int]@.host == opt_host(*host),
            None => forall|i: int| 0 <= i < entries@.len() ==> (#[trigger] entries@[i])@.host != opt_host(*host),
        },
{
    let mut i: usize = 0;
    while i < entries.len()
        invariant
            i <= entries@.len(),
            forall|j: int| 0 <= j < i ==> (#[trigger] entries@[j])@.host != opt_host(*host),
        decreases entries@.len() - i,
    {
        if same_host(&entries[i].host, host) {
            return Some(i);
        }
        i += 1;
    }
    None
}

/// Whether a path is in a list.
fn has_path(paths: &Vec<String>, path: &String) -> (r: bool)
    ensures
        r == texts(paths@).contains(path@),
{
    let mut i: usize = 0;
    while i < paths.len()
        invariant
            i <= paths@.len(),
            forall|j: int| 0 <= j < i ==> (#[trigger] texts(paths@)[j]) != path@,
        decreases paths@.len() - i,
    {
        if same_text(paths[i].as_str(), path.as_str()) {
            assert(texts(paths@)[i as int] == path@);
            return true;
        }
        i += 1;
    }
    assert(texts(paths@).len() == i);
    false
}

/// Adds a path to a list that has no path twice.
fn add_path(paths: &mut Vec<String>, path: String)
    requires
        texts(old(paths)@).no_duplicates(),
    ensures
        texts(final(paths)@).no_duplicates(),
        texts(final(paths)@).to_set() == texts(old(paths)@).to_set().insert(path@),
{
    let ghost before = texts(paths@);
    if has_path(paths, &path) {
        proof {
            assert(before.to_set().insert(path@) =~= before.to_set()) by {
                assert(before.contains(path@));
            }
        }
    } else {
        let ghost new = path@;
        let ghost list = paths@;
        paths.push(path);
        proof {
            let after = texts(paths@);
            assert(after =~= before.push(new));
            lemma_push(before, new);
        }
    }
}

proof fn lemma_push(s: Seq<Seq<char>>, new: Seq<char>)
    requires
        s.no_duplicates(),
        !s.contains(new),
    ensures
        s.push(new).no_duplicates(),
        s.push(new).to_set() == s.to_set().insert(new),
{
    let after = s.push(new);
    assert forall|i: int, j: int| 0 <= i < after.len() && 0 <= j < after.len() && i != j implies after[i]
        != after[j] by {
        if i < s.len() && j < s.len() {
            assert(s[i] != s[j]);
        } else if i < s.len() {
            assert(s.contains(s[i]));
        } else {
            assert(s.contains(s[j]));
        }
    }
    assert forall|p: Seq<char>| after.to_set().contains(p) == s.to_set().insert(new).contains(p) by {
        if s.contains(p) {
            let i = choose|i: int| 0 <= i < s.len() && s[i] == p;
            assert(after[i] == p);
        }
        if p == new {
            assert(after[s.len() as int] == p);
        }
        if after.contains(p) {
            let i = choose|i: int| 0 <= i < after.len() && after[i] == p;
            if i < s.len() {
                assert(s[i] == p);
            }
        }
    }
    assert(after.to_set() =~= s.to_set().insert(new));
}

/// The paths of a list, each once.
fn distinct_paths(paths: Vec<String>) -> (r: Vec<String>)
    ensures
        texts(r@).no_duplicates(),
        texts(r@).to_set() == texts(paths@).to_set(),
{
    let mut r: Vec<String> = Vec::new();
    let mut i: usize = 0;
    proof {
        assert(texts(r@) =~= Seq::empty());
        assert(texts(paths@).take(0) =~= Seq::empty());
    }
    while i < paths.len()
        invariant
            i <= paths@.len(),
            texts(r@).no_duplicates(),
            texts(r@).to_set() == texts(paths@).take(i as int).to_set(),
        decreases paths@.len() - i,
    {
        add_path(&mut r, paths[i].clone());
        proof {
            let all = texts(paths@);
            let new = all[i as int];
            assert(all.take(i + 1) =~= all.take(i as int).push(new));
            lemma_set_of_push(all.take(i as int), new);
        }
        i += 1;
    }
    assert(texts(paths@).take(i as int) =~= texts(paths@));
    r
}

proof fn lemma_set_of_push(s: Seq<Seq<char>>, new: Seq<char>)
    ensures
        s.push(new).to_set() == s.to_set().insert(new),
{
    let after = s.push(new);
    assert forall|p: Seq<char>| after.to_set().contains(p) == s.to_set().insert(new).contains(p) by {
        if s.contains(p) {
            let i = choose|i: int| 0 <= i < s.len() && s[i] == p;
            assert(after[i] == p);
        }
        if p == new {
            assert(after[s.len() as int] == p);
        }
        if after.contains(p) {
            let i = choose|i: int| 0 <= i < after.len() && after[i] == p;
            if i < s.len() {
                assert(s[i] == p);
            }
        }
    }
    assert(after.to_set() =~= s.to_set().insert(new));
}

proof fn lemma_once_push(entries: Seq<TrustModel>, new: TrustModel)
    requires
        each_once(entries),
        new.paths.no_duplicates(),
        forall|i: int| 0 <= i < entries.len() ==> (#[trigger] entries[i]).host != new.host,
    ensures
        each_once(entries.push(new)),
        by_host(entries.push(new)) == by_host(entries).insert(new.host, new.paths.to_set()),
{
    assert(entries.push(new).drop_last() =~= entries);
}

/// Gives a host its paths in place of those it had.
fn set_paths(entries: &mut Vec<TrustedWorktreesEntry>, host: Option<SomTrustedHost>, paths: Vec<String>)
    requires
        each_once(trust_models(old(entries)@)),
        texts(paths@).no_duplicates(),
    ensures
        each_once(trust_models(final(entries)@)),
        by_host(trust_models(final(entries)@)) == by_host(trust_models(old(entries)@)).insert(
            opt_host(host),
            texts(paths@).to_set(),
        ),
{
    let ghost before = trust_models(entries@);
    let found = find_host(entries, &host);
    let entry = TrustedWorktreesEntry { host, paths };
    let ghost new = entry@;
    match found {
        Some(i) => {
            proof {
                lemma_by_host_update(before, i as int, new.paths);
            }
            entries.set(i, entry);
            assert(trust_models(entries@) =~= before.update(i as int, new));
        },
        None => {
            assert forall|i: int| 0 <= i < before.len() implies (#[trigger] before[i]).host != new.host by {
                assert(before[i] == entries@[i]@);
            }
            proof {
                lemma_once_push(before, new);
            }
            entries.push(entry);
            assert(trust_models(entries@) =~= before.push(new));
        },
    }
}

/// The trusted paths that a file holds.
pub fn load_trusted_worktrees(file: TrustedWorktreesFile) -> (r: TrustedWorktrees)
    ensures
        r.well_formed(),
        r@ == by_host(trust_models(file.entries@)),
{
    let ghost all = trust_models(file.entries@);
    let mut given = file.entries;
    let mut entries: Vec<TrustedWorktreesEntry> = Vec::new();
    proof {
        assert(trust_models(entries@) =~= Seq::empty());
        assert(all.take(0) =~= Seq::empty());
        assert(all.skip(0) =~= all);
    }
    let ghost mut done: int = 0;
    while given.len() > 0
        invariant
            0 <= done <= all.len(),
            trust_models(given@) == all.skip(done),
            each_once(trust_models(entries@)),
            by_host(trust_models(entries@)) == by_host(all.take(done)),
        decreases given@.len(),
    {
        let ghost before = given@;
        assert(before.len() == trust_models(before).len());
        let entry = given.remove(0);
        proof {
            assert(trust_models(before)[0] == all.skip(done)[0]);
            assert(entry@ == all[done]);
            assert(trust_models(given@) =~= all.skip(done + 1)) by {
                assert forall|i: int| 0 <= i < given@.len() implies (#[trigger] trust_models(given@)[i]) == all.skip(
                    done + 1,
                )[i] by {
                    assert(given@[i] == before[i + 1]);
                    assert(trust_models(before)[i + 1] == all.skip(done)[i + 1]);
                }
            }
            assert(all.take(done + 1).drop_last() =~= all.take(done));
        }
        let paths = distinct_paths(entry.paths);
        set_paths(&mut entries, entry.host, paths);
        proof {
            done = done + 1;
        }
    }
    assert(all.take(done) =~= all) by {
        assert(trust_models(given@).len() == 0);
    }
    TrustedWorktrees { entries }
}

/// The file that holds the trusted paths: reading it gives the same paths on the same hosts.
pub fn save_trusted_worktrees(trusted: TrustedWorktrees) -> (r: TrustedWorktreesFile)
    ensures
        by_host(trust_models(r.entries@)) == trusted@,
{
    TrustedWorktreesFile { entries: trusted.entries }
}

/// The file that holds trusted paths under the program's names for hosts.
pub fn save_trusted_worktrees_by_host(trusted: &DbTrustedPaths) -> (r: TrustedWorktreesFile)
    requires
        trusted.well_formed(),
    ensures
        by_host(trust_models(r.entries@)) == trusted@,
{
    let mut entries: Vec<TrustedWorktreesEntry> = Vec::new();
    let ghost all = db_trust_models(trusted.entries@);
    let mut i: usize = 0;
    assert(trust_models(entries@) =~= all.take(0));
    while i < trusted.entries.len()
        invariant
            i <= trusted.entries@.len(),
            all == db_trust_models(trusted.entries@),
            trust_models(entries@) == all.take(i as int),
        decreases trusted.entries@.len() - i,
    {
        let entry = &trusted.entries[i];
        let host = match &entry.host {
            Some(host) => Some(SomTrustedHost::from_remote_host_location(host)),
            None => None,
        };
        let copy = TrustedWorktreesEntry { host, paths: crate::text::clone_list(&entry.paths) };
        let ghost before = entries@;
        assert(copy@ == all[i as int]);
        entries.push(copy);
        assert(trust_models(entries@) =~= trust_models(before).push(all[i as int]));
        assert(all.take(i + 1) =~= all.take(i as int).push(all[i as int]));
        i += 1;
    }
    assert(all.take(i as int) =~= all);
    save_trusted_worktrees(TrustedWorktrees { entries })
}

/// The same paths under the program's names for hosts.
fn with_locations(trusted: TrustedWorktrees) -> (r: DbTrustedPaths)
    requires
        trusted.well_formed(),
    ensures
        r.well_formed(),
        r@ == trusted@,
{
    let ghost all = trust_models(trusted.entries@);
    let mut given = trusted.entries;
    let mut entries: Vec<DbTrustedEntry> = Vec::new();
    let ghost mut done: int = 0;
    assert(db_trust_models(entries@) =~= all.take(0));
    assert(all.skip(0) =~= all);
    while given.len() > 0
        invariant
            0 <= done <= all.len(),
            trust_models(given@) == all.skip(done),
            db_trust_models(entries@) == all.take(done),
        decreases given@.len(),
    {
        let ghost before = given@;
        assert(before.len() == trust_models(before).len());
        let entry = given.remove(0);
        let ghost model = entry@;
        let host = match entry.host {
            Some(host) => Some(host.into_remote_host_location()),
            None => None,
        };
        let ghost listed = entries@;
        let copy = DbTrustedEntry { host, paths: entry.paths };
        assert(copy@ == model);
        entries.push(copy);
        proof {
            assert(trust_models(before)[0] == all.skip(done)[0]);
            assert(model == all[done]);
            assert(trust_models(given@) =~= all.skip(done + 1)) by {
                assert forall|i: int| 0 <= i < given@.len() implies (#[trigger] trust_models(given@)[i]) == all.skip(
                    done + 1,
                )[i] by {
                    assert(given@[i] == before[i + 1]);
                    assert(trust_models(before)[i + 1] == all.skip(done)[i + 1]);
                }
            }
            assert(db_trust_models(entries@) =~= db_trust_models(listed).push(model));
            assert(all.take(done + 1) =~= all.take(done).push(all[done]));
            done = done + 1;
        }
    }
    assert(all.take(done) =~= all) by {
        assert(trust_models(given@).len() == 0);
    }
    DbTrustedPaths { entries }
}

/// The trusted paths that a file holds, under the program's names for hosts.
pub fn load_trusted_worktrees_by_host(file: TrustedWorktreesFile) -> (r: DbTrustedPaths)
    ensures
        r.well_formed(),
        r@ == by_host(trust_models(file.entries@)),
{
    with_locations(load_trusted_worktrees(file))
}

/// A row of the table of trusted paths.
#[derive(Debug, PartialEq, Eq)]
pub struct TrustedRow {
    pub absolute_path: Option<String>,
    pub user_name: Option<String>,
    pub host_name: Option<String>,
}

#[verifier::ext_equal]
pub struct TrustedRowModel {
    pub absolute_path: Option<Seq<char>>,
    pub user_name: Option<Seq<char>>,
    pub host_name: Option<Seq<char>>,
}

impl View for TrustedRow {
    type V = TrustedRowModel;

    open spec fn view(&self) -> TrustedRowModel {
        TrustedRowModel {
            absolute_path: opt_text(self.absolute_path),
            user_name: opt_text(self.user_name),
            host_name: opt_text(self.host_name),
        }
    }
}

pub open spec fn trusted_row_models(rows: Seq<TrustedRow>) -> Seq<TrustedRowModel> {
    rows.map_values(|r: TrustedRow| r@)
}

/// The host that a row names: without a host name it is this machine, whatever the user.
pub open spec fn row_host(row: TrustedRowModel) -> Option<HostModel> {
    match row.host_name {
        Some(host_identifier) => Some(HostModel { user_name: row.user_name, host_identifier }),
        None => None,
    }
}

/// The paths of a host, none where it has no entry.
pub open spec fn paths_on(map: Map<Option<HostModel>, Set<Seq<char>>>, host: Option<HostModel>) -> Set<Seq<char>> {
    if map.contains_key(host) {
        map[host]
    } else {
        Set::empty()
    }
}

/// The paths of every host that rows name. A row without a path says nothing.
pub open spec fn rows_by_host(rows: Seq<TrustedRowModel>) -> Map<Option<HostModel>, Set<Seq<char>>>
    decreases rows.len(),
{
    if rows.len() == 0 {
        Map::empty()
    } else {
        let before = rows_by_host(rows.drop_last());
        let row = rows.last();
        match row.absolute_path {
            Some(path) => before.insert(row_host(row), paths_on(before, row_host(row)).insert(path)),
            None => before,
        }
    }
}

/// The rows of one host: one for each path.
pub open spec fn host_rows(entry: TrustModel) -> Seq<TrustedRowModel> {
    Seq::new(
        entry.paths.len(),
        |i: int|
            TrustedRowModel {
                absolute_path: Some(entry.paths[i]),
                user_name: match entry.host {
                    Some(host) => host.user_name,
                    None => None,
                },
                host_name: match entry.host {
                    Some(host) => Some(host.host_identifier),
                    None => None,
                },
            },
    )
}

/// The rows of all hosts.
pub open spec fn all_rows(entries: Seq<TrustModel>) -> Seq<TrustedRowModel>
    decreases entries.len(),
{
    if entries.len() == 0 {
        Seq::empty()
    } else {
        all_rows(entries.drop_last()) + host_rows(entries.last())
    }
}

/// The rows, `size` at a time.
pub open spec fn in_chunks(rows: Seq<TrustedRowModel>, size: nat) -> Seq<Seq<TrustedRowModel>>
    decreases rows.len(),
{
    if rows.len() == 0 || size == 0 {
        Seq::empty()
    } else if rows.len() <= size {
        seq![rows]
    } else {
        seq![rows.take(size as int)] + in_chunks(rows.skip(size as int), size)
    }
}

/// How many values one query may bind.
pub const MAX_QUERY_PLACEHOLDERS: usize = 32000;

/// How many rows one query stores: each binds three values.
pub const ROWS_PER_QUERY: usize = 10666;

/// The query that stores `count` rows.
pub open spec fn insert_query(count: nat) -> Seq<char> {
    "INSERT INTO trusted_worktrees(absolute_path, user_name, host_name)\nVALUES "@ + joined(
        Seq::new(count, |i: int| "(?, ?, ?)"@),
        ", "@,
    ) + ";"@
}

/// A query and the rows whose values it binds, in order.
#[derive(Debug, PartialEq, Eq)]
pub struct TrustedBatch {
    pub query: String,
    pub rows: Vec<TrustedRow>,
}

pub open spec fn batch_rows(batches: Seq<TrustedBatch>) -> Seq<Seq<TrustedRowModel>> {
    batches.map_values(|b: TrustedBatch| trusted_row_models(b.rows@))
}

/// Adds a path to those of a host.
fn trust_path(entries: &mut Vec<TrustedWorktreesEntry>, host: Option<SomTrustedHost>, path: String)
    requires
        each_once(trust_models(old(entries)@)),
    ensures
        each_once(trust_models(final(entries)@)),
        by_host(trust_models(final(entries)@)) == by_host(trust_models(old(entries)@)).insert(
            opt_host(host),
            paths_on(by_host(trust_models(old(entries)@)), opt_host(host)).insert(path@),
        ),
{
    let ghost before = trust_models(entries@);
    match find_host(entries, &host) {
        Some(i) => {
            let mut paths = crate::text::clone_list(&entries[i].paths);
            proof {
                assert(before[i as int] == entries@[i as int]@);
                lemma_by_host_at(before, i as int);
            }
            add_path(&mut paths, path);
            set_paths(entries, host, paths);
        },
        None => {
            proof {
                assert forall|i: int| 0 <= i < before.len() implies (#[trigger] before[i]).host != opt_host(
                    host,
                ) by {
                    assert(before[i] == entries@[i]@);
                }
                lemma_by_host_absent(before, opt_host(host));
            }
            let mut paths: Vec<String> = Vec::new();
            assert(texts(paths@) =~= Seq::empty());
            assert(texts(paths@).to_set() =~= Set::empty());
            add_path(&mut paths, path);
            set_paths(entries, host, paths);
        },
    }
}

fn rows_of(trusted: &DbTrustedPaths) -> (r: Vec<TrustedRow>)
    ensures
        trusted_row_models(r@) == all_rows(db_trust_models(trusted.entries@)),
{
    let ghost all = db_trust_models(trusted.entries@);
    let mut rows: Vec<TrustedRow> = Vec::new();
    let mut i: usize = 0;
    assert(all.take(0) =~= Seq::empty());
    assert(trusted_row_models(rows@) =~= all_rows(all.take(0)));
    while i < trusted.entries.len()
        invariant
            i <= trusted.entries@.len(),
            all == db_trust_models(trusted.entries@),
            trusted_row_models(rows@) == all_rows(all.take(i as int)),
        decreases trusted.entries@.len() - i,
    {
        let entry = &trusted.entries[i];
        let ghost before = trusted_row_models(rows@);
        let ghost new = host_rows(all[i as int]);
        assert(all[i as int] == entry@);
        let mut j: usize = 0;
        assert(before + new.take(0) =~= before);
        while j < entry.paths.len()
            invariant
                j <= entry.paths@.len(),
                new == host_rows(entry@),
                trusted_row_models(rows@) == before + new.take(j as int),
            decreases entry.paths@.len() - j,
        {
            let (user_name, host_name) = match &entry.host {
                Some(host) => (clone_opt(&host.user_name), Some(host.host_identifier.clone())),
                None => (None, None),
            };
            let row = TrustedRow { absolute_path: Some(entry.paths[j].clone()), user_name, host_name };
            let ghost listed = rows@;
            assert(row@ == new[j as int]);
            rows.push(row);
            proof {
                assert(trusted_row_models(rows@) =~= trusted_row_models(listed).push(new[j as int]));
                assert(new.take(j + 1) =~= new.take(j as int).push(new[j as int]));
                assert(trusted_row_models(rows@) =~= before + new.take(j + 1));
            }
            j += 1;
        }
        proof {
            assert(new.take(j as int) =~= new);
            assert(all.take(i + 1).drop_last() =~= all.take(i as int));
            assert(all.take(i + 1).last() == all[i as int]);
        }
        i += 1;
    }
    assert(all.take(i as int) =~= all);
    rows
}

/// The query that stores `count` rows.
fn query_for(count: usize) -> (r: String)
    ensures
        r@ == insert_query(count as nat),
{
    let mut parts: Vec<String> = Vec::new();
    let mut i: usize = 0;
    while i < count
        invariant
            i <= count,
            texts(parts@) == Seq::new(i as nat, |k: int| "(?, ?, ?)"@),
        decreases count - i,
    {
        let ghost before = parts@;
        parts.push("(?, ?, ?)".to_owned());
        assert(texts(parts@) =~= texts(before).push("(?, ?, ?)"@));
        assert(texts(parts@) =~= Seq::new((i + 1) as nat, |k: int| "(?, ?, ?)"@));
        i += 1;
    }
    assert(texts(parts@) =~= Seq::new(count as nat, |k: int| "(?, ?, ?)"@));
    let places = join(&parts, ", ");
    let head = "INSERT INTO trusted_worktrees(absolute_path, user_name, host_name)\nVALUES ".to_owned();
    head.concat(places.as_str()).concat(";")
}

impl WorkspaceDb {
    /// The trusted paths that rows name.
    pub fn fetch_trusted_worktrees(rows: &Vec<TrustedRow>) -> (r: DbTrustedPaths)
        ensures
            r.well_formed(),
            r@ == rows_by_host(trusted_row_models(rows@)),
    {
        let ghost all = trusted_row_models(rows@);
        let mut entries: Vec<TrustedWorktreesEntry> = Vec::new();
        let mut i: usize = 0;
        assert(trust_models(entries@) =~= Seq::empty());
        assert(all.take(0) =~= Seq::empty());
        while i < rows.len()
            invariant
                i <= rows@.len(),
                all == trusted_row_models(rows@),
                each_once(trust_models(entries@)),
                by_host(trust_models(entries@)) == rows_by_host(all.take(i as int)),
            decreases rows@.len() - i,
        {
            let row = &rows[i];
            proof {
                assert(all.take(i + 1).drop_last() =~= all.take(i as int));
                assert(all.take(i + 1).last() == row@);
            }
            if let Some(path) = &row.absolute_path {
                let host = match &row.host_name {
                    Some(name) => Some(
                        SomTrustedHost { user_name: clone_opt(&row.user_name), host_identifier: name.clone() },
                    ),
                    None => None,
                };
                assert(opt_host(host) == row_host(row@));
                trust_path(&mut entries, host, path.clone());
            }
            i += 1;
        }
        assert(all.take(i as int) =~= all);
        with_locations(TrustedWorktrees { entries })
    }

    /// The queries that store the trusted paths, none of which binds more values than it may.
    pub fn save_trusted_worktrees(trusted: &DbTrustedPaths) -> (r: Vec<TrustedBatch>)
        ensures
            batch_rows(r@) == in_chunks(all_rows(db_trust_models(trusted.entries@)), ROWS_PER_QUERY as nat),
            forall|i: int| 0 <= i < r@.len() ==> {
                &&& (#[trigger] r@[i]).query@ == insert_query(r@[i].rows@.len())
                &&& 0 < 3 * r@[i].rows@.len() <= MAX_QUERY_PLACEHOLDERS
            },
    {
        let ghost size = ROWS_PER_QUERY as nat;
        let mut rest = rows_of(trusted);
        let ghost all = trusted_row_models(rest@);
        let mut batches: Vec<TrustedBatch> = Vec::new();
        assert(batch_rows(batches@) + in_chunks(all, size) =~= in_chunks(all, size));
        while rest.len() > 0
            invariant
                size == ROWS_PER_QUERY as nat,
                batch_rows(batches@) + in_chunks(trusted_row_models(rest@), size) == in_chunks(all, size),
                forall|i: int| 0 <= i < batches@.len() ==> {
                    &&& (#[trigger] batches@[i]).query@ == insert_query(batches@[i].rows@.len())
                    &&& 0 < 3 * batches@[i].rows@.len() <= MAX_QUERY_PLACEHOLDERS
                },
            decreases rest@.len(),
        {
            let ghost before = rest@;
            let ghost models = trusted_row_models(before);
            let ghost listed = batches@;
            let tail = if rest.len() > ROWS_PER_QUERY {
                rest.split_off(ROWS_PER_QUERY)
            } else {
                Vec::new()
            };
            let query = query_for(rest.len());
            let batch = TrustedBatch { query, rows: rest };
            proof {
                if before.len() > size {
                    assert(trusted_row_models(batch.rows@) =~= models.take(size as int));
                    assert(trusted_row_models(tail@) =~= models.skip(size as int));
                } else {
                    assert(trusted_row_models(tail@) =~= Seq::empty());
                    assert(in_chunks(models, size) =~= seq![models] + in_chunks(trusted_row_models(tail@), size));
                }
            }
            batches.push(batch);
            rest = tail;
            proof {
                assert(batch_rows(batches@) =~= batch_rows(listed).push(trusted_row_models(batches@.last().rows@)));
                assert(batch_rows(batches@) + in_chunks(trusted_row_models(rest@), size) =~= batch_rows(listed)
                    + in_chunks(models, size));
            }
        }
        assert(trusted_row_models(rest@) =~= Seq::empty());
        assert(batch_rows(batches@) =~= in_chunks(all, size));
        batches
    }
}

proof fn lemma_rows_of_host(rows: Seq<TrustedRowModel>, entry: TrustModel, n: nat)
    requires
        !rows_by_host(rows).contains_key(entry.host),
        n <= entry.paths.len(),
    ensures
        rows_by_host(rows + host_rows(entry).take(n as int)) == if n == 0 {
            rows_by_host(rows)
        } else {
            rows_by_host(rows).insert(entry.host, entry.paths.take(n as int).to_set())
        },
    decreases n,
{
    let new = host_rows(entry);
    if n == 0 {
        assert(rows + new.take(0) =~= rows);
    } else {
        let m = (n - 1) as nat;
        lemma_rows_of_host(rows, entry, m);
        let with = rows + new.take(n as int);
        assert(with.drop_last() =~= rows + new.take(m as int));
        let row = with.last();
        assert(row == new[n - 1]);
        assert(row_host(row) == entry.host) by {
            if let Some(host) = entry.host {
                assert(row_host(row)->0 =~= host);
            }
        }
        let path = entry.paths[n - 1];
        assert(entry.paths.take(n as int) =~= entry.paths.take(m as int).push(path));
        lemma_set_of_push(entry.paths.take(m as int), path);
        let before = rows_by_host(with.drop_last());
        if m == 0 {
            assert(entry.paths.take(0).to_set() =~= Set::empty());
        }
        assert(paths_on(before, entry.host) == entry.paths.take(m as int).to_set());
        assert(rows_by_host(with) =~= rows_by_host(rows).insert(
            entry.host,
            entry.paths.take(n as int).to_set(),
        ));
    }
}

/// The hosts that have a path, with their paths.
pub open spec fn with_paths(map: Map<Option<HostModel>, Set<Seq<char>>>) -> Map<Option<HostModel>, Set<Seq<char>>> {
    Map::new(
        |host: Option<HostModel>| map.contains_key(host) && map[host] != Set::<Seq<char>>::empty(),
        |host: Option<HostModel>| map[host],
    )
}

/// What is stored as rows is read back: every path on its host. A host without paths has no row.
pub proof fn lemma_trusted_rows_read_back(entries: Seq<TrustModel>)
    requires
        each_once(entries),
    ensures
        rows_by_host(all_rows(entries)) == with_paths(by_host(entries)),
    decreases entries.len(),
{
    if entries.len() == 0 {
        assert(rows_by_host(all_rows(entries)) =~= with_paths(by_host(entries)));
    } else {
        let front = entries.drop_last();
        let last = entries.last();
        assert(each_once(front)) by {
            assert forall|a: int, b: int| #![trigger front[a], front[b]] 0 <= a < b < front.len() implies
                front[a].host != front[b].host by {
                assert(entries[a].host != entries[b].host);
            }
        }
        lemma_trusted_rows_read_back(front);
        assert forall|i: int| 0 <= i < front.len() implies (#[trigger] front[i]).host != last.host by {
            assert(entries[i].host != entries[entries.len() - 1].host);
        }
        lemma_by_host_absent(front, last.host);
        let n = last.paths.len();
        lemma_rows_of_host(all_rows(front), last, n);
        assert(host_rows(last).take(n as int) =~= host_rows(last));
        assert(last.paths.take(n as int) =~= last.paths);
        if n == 0 {
            assert(last.paths.to_set() =~= Set::empty());
        } else {
            assert(last.paths.to_set().contains(last.paths[0]));
            assert(last.paths.to_set() != Set::<Seq<char>>::empty());
        }
        assert(rows_by_host(all_rows(entries)) =~= with_paths(by_host(entries)));
    }
}

/// The chunks one after another.
pub open spec fn unchunked(chunks: Seq<Seq<TrustedRowModel>>) -> Seq<TrustedRowModel>
    decreases chunks.len(),
{
    if chunks.len() == 0 {
        Seq::empty()
    } else {
        chunks[0] + unchunked(chunks.skip(1))
    }
}

/// The queries together store every row, once and in order.
pub proof fn lemma_chunks(rows: Seq<TrustedRowModel>, size: nat)
    requires
        size > 0,
    ensures
        unchunked(in_chunks(rows, size)) == rows,
    decreases rows.len(),
{
    let chunks = in_chunks(rows, size);
    if rows.len() == 0 {
        assert(unchunked(chunks) =~= rows);
    } else if rows.len() <= size {
        assert(chunks.skip(1) =~= Seq::empty());
        assert(unchunked(chunks.skip(1)) =~= Seq::empty());
        assert(unchunked(chunks) =~= rows);
    } else {
        let rest = rows.skip(size as int);
        lemma_chunks(rest, size);
        assert(chunks.skip(1) =~= in_chunks(rest, size));
        assert(rows =~= rows.take(size as int) + rest);
    }
}

/// Of the entries for a host the last one counts.
pub proof fn lemma_last_entry_counts(entries: Seq<TrustModel>, p: int)
    requires
        0 <= p < entries.len(),
        forall|i: int| p < i < entries.len() ==> (#[trigger] entries[i]).host != entries[p].host,
    ensures
        by_host(entries).contains_key(entries[p].host),
        forall|path: Seq<char>|
            #[trigger] by_host(entries)[entries[p].host].contains(path) <==> entries[p].paths.contains(path),
    decreases entries.len(),
{
    let front = entries.drop_last();
    if p < front.len() {
        assert(entries[entries.len() - 1].host != entries[p].host);
        assert forall|i: int| p < i < front.len() implies (#[trigger] front[i]).host != front[p].host by {
            assert(entries[i] == front[i]);
        }
        lemma_last_entry_counts(front, p);
        assert(front[p] == entries[p]);
    }
}

/// A host is trusted with a path exactly where a row says so. A row names this machine where it has
/// no host name.
pub proof fn lemma_trusted_by_row(rows: Seq<TrustedRowModel>, host: Option<HostModel>, path: Seq<char>)
    ensures
        (rows_by_host(rows).contains_key(host) && rows_by_host(rows)[host].contains(path)) <==> exists|i: int|
            0 <= i < rows.len() && (#[trigger] rows[i]).absolute_path == Some(path) && (match host {
                Some(h) => rows[i].host_name == Some(h.host_identifier) && rows[i].user_name == h.user_name,
                None => rows[i].host_name is None,
            }),
        rows_by_host(rows).contains_key(host) ==> exists|p: Seq<char>| #[trigger] rows_by_host(rows)[host].contains(p),
    decreases rows.len(),
{
    if rows.len() > 0 {
        let front = rows.drop_last();
        let row = rows.last();
        lemma_trusted_by_row(front, host, path);
        let before = rows_by_host(front);
        if before.contains_key(host) && before[host].contains(path) {
            let i = choose|i: int|
                0 <= i < front.len() && (#[trigger] front[i]).absolute_path == Some(path) && (match host {
                    Some(h) => front[i].host_name == Some(h.host_identifier) && front[i].user_name == h.user_name,
                    None => front[i].host_name is None,
                });
            assert(rows[i] == front[i]);
        }
        assert forall|i: int|
            0 <= i < rows.len() && (#[trigger] rows[i]).absolute_path == Some(path) && (match host {
                Some(h) => rows[i].host_name == Some(h.host_identifier) && rows[i].user_name == h.user_name,
                None => rows[i].host_name is None,
            }) implies rows_by_host(rows).contains_key(host) && rows_by_host(rows)[host].contains(path) by {
            if i < front.len() {
                assert(front[i] == rows[i]);
            } else {
                if let Some(h) = host {
                    assert(row_host(row)->0 =~= h);
                }
            }
        }
        assert(row == rows[rows.len() - 1]);
        if before.contains_key(host) {
            let p = choose|p: Seq<char>| #[trigger] before[host].contains(p);
            assert(rows_by_host(rows)[host].contains(p));
        } else if let Some(new) = row.absolute_path {
            if row_host(row) == host {
                assert(rows_by_host(rows)[host].contains(new));
            }
        }
    }
}

/// A host has one row for each of its paths, under its user and its name.
pub proof fn lemma_rows_written(entry: TrustModel, i: int)
    requires
        0 <= i < entry.paths.len(),
    ensures
        host_rows(entry).len() == entry.paths.len(),
        host_rows(entry)[i].absolute_path == Some(entry.paths[i]),
        entry.host is None ==> host_rows(entry)[i].user_name is None && host_rows(entry)[i].host_name is None,
        entry.host matches Some(host) ==> host_rows(entry)[i].user_name == host.user_name && host_rows(
            entry,
        )[i].host_name == Some(host.host_identifier),
{
}

/// Every query but the last stores as many rows as a query may, and the last stores the rest.
pub proof fn lemma_full_chunks(rows: Seq<TrustedRowModel>, size: nat)
    requires
        size > 0,
    ensures
        forall|i: int| 0 <= i < in_chunks(rows, size).len() - 1 ==> (#[trigger] in_chunks(rows, size)[i]).len() == size,
        rows.len() > 0 ==> in_chunks(rows, size).len() > 0 && 0 < in_chunks(rows, size).last().len() <= size,
        rows.len() == 0 ==> in_chunks(rows, size).len() == 0,
    decreases rows.len(),
{
    let chunks = in_chunks(rows, size);
    if rows.len() > size {
        let rest = rows.skip(size as int);
        lemma_full_chunks(rest, size);
        let more = in_chunks(rest, size);
        assert forall|i: int| 0 <= i < chunks.len() - 1 implies (#[trigger] chunks[i]).len() == size by {
            if i > 0 {
                assert(chunks[i] == more[i - 1]);
            }
        }
        assert(chunks.last() == more.last());
    }
}

/// The query that stores rows has three marks for each.
pub proof fn lemma_insert_marks(count: nat)
    ensures
        insert_query(1)
            == "INSERT INTO trusted_worktrees(absolute_path, user_name, host_name)\nVALUES (?, ?, ?);"@,
        count > 0 ==> insert_query(count + 1) == insert_query(count).drop_last() + ", (?, ?, ?);"@,
{
    reveal_strlit("INSERT INTO trusted_worktrees(absolute_path, user_name, host_name)\nVALUES ");
    reveal_strlit("INSERT INTO trusted_worktrees(absolute_path, user_name, host_name)\nVALUES (?, ?, ?);");
    reveal_strlit("(?, ?, ?)");
    reveal_strlit(";");
    reveal_strlit(", ");
    reveal_strlit(", (?, ?, ?);");
    let head = "INSERT INTO trusted_worktrees(absolute_path, user_name, host_name)\nVALUES "@;
    let one = Seq::new(1nat, |i: int| "(?, ?, ?)"@);
    assert(joined(one, ", "@) == "(?, ?, ?)"@);
    assert(insert_query(1)
        =~= "INSERT INTO trusted_worktrees(absolute_path, user_name, host_name)\nVALUES (?, ?, ?);"@);
    if count > 0 {
        let many = Seq::new(count, |i: int| "(?, ?, ?)"@);
        let more = Seq::new(count + 1, |i: int| "(?, ?, ?)"@);
        assert(more.drop_last() =~= many);
        assert(more.last() == "(?, ?, ?)"@);
        assert(joined(more, ", "@) == joined(many, ", "@) + ", "@ + "(?, ?, ?)"@);
        assert(", "@ + "(?, ?, ?)"@ + ";"@ =~= ", (?, ?, ?);"@);
        assert(insert_query(count).drop_last() =~= head + joined(many, ", "@));
        assert(insert_query(count + 1) =~= head + joined(many, ", "@) + (", "@ + "(?, ?, ?)"@ + ";"@));
    }
}

} // verus!
