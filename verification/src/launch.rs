//! Decisions of the start of the program.

use vstd::prelude::*;
use crate::decimal::{integer_text, unsigned_text};
use crate::keys::{key_at, key_count, key_entries};
use crate::text::{chars_of, join, joined, opt_text, push_text, same_text, texts};

verus! {

/// A directory that could not be created: the kind of the error in words, whether that kind is a
/// lack of permission, and the path as it is shown.
#[derive(Debug, PartialEq, Eq)]
pub struct PathFailure {
    pub kind: String,
    pub permission_denied: bool,
    pub path: String,
}

/// The directories that could not be created for the same reason.
#[derive(Debug, PartialEq, Eq)]
pub struct FailureGroup {
    pub kind: String,
    pub permission_denied: bool,
    pub paths: Vec<String>,
}

#[verifier::ext_equal]
pub struct GroupModel {
    pub kind: Seq<char>,
    pub permission_denied: bool,
    pub paths: Seq<Seq<char>>,
}

impl View for FailureGroup {
    type V = GroupModel;

    open spec fn view(&self) -> GroupModel {
        GroupModel {
            kind: self.kind@,
            permission_denied: self.permission_denied,
            paths: texts(self.paths@),
        }
    }
}

pub open spec fn failure_models(groups: Seq<FailureGroup>) -> Seq<GroupModel> {
    groups.map_values(|g: FailureGroup| g@)
}

/// The place of the group of a kind, or the number of groups.
pub open spec fn kind_place(groups: Seq<GroupModel>, kind: Seq<char>) -> int
    decreases groups.len(),
{
    if groups.len() == 0 {
        0
    } else if groups[0].kind == kind {
        0
    } else {
        1 + kind_place(groups.skip(1), kind)
    }
}

/// The failures by kind, the kinds and the paths of each in the order in which they are met.
pub open spec fn by_kind(failures: Seq<PathFailure>) -> Seq<GroupModel>
    decreases failures.len(),
{
    if failures.len() == 0 {
        Seq::empty()
    } else {
        let before = by_kind(failures.drop_last());
        let new = failures.last();
        let place = kind_place(before, new.kind@);
        if place < before.len() {
            before.update(place, GroupModel { paths: before[place].paths.push(new.path@), ..before[place] })
        } else {
            before.push(
                GroupModel {
                    kind: new.kind@,
                    permission_denied: new.permission_denied,
                    paths: seq![new.path@],
                },
            )
        }
    }
}

proof fn lemma_kind_place(groups: Seq<GroupModel>, kind: Seq<char>, place: int)
    requires
        0 <= place <= groups.len(),
        place < groups.len() ==> groups[place].kind == kind,
        forall|i: int| 0 <= i < place ==> (#[trigger] groups[i]).kind != kind,
    ensures
        kind_place(groups, kind) == place,
    decreases groups.len(),
{
    if place > 0 {
        let rest = groups.skip(1);
        assert(groups[0].kind != kind);
        assert forall|i: int| 0 <= i < place - 1 implies (#[trigger] rest[i]).kind != kind by {
            assert(rest[i] == groups[i + 1]);
        }
        lemma_kind_place(rest, kind, place - 1);
    }
}

/// Gathers the directories that could not be created, by kind of error.
pub fn init_paths(failures: &Vec<PathFailure>) -> (r: Vec<FailureGroup>)
    ensures
        failure_models(r@) == by_kind(failures@),
{
    let ghost all = failures@;
    let mut groups: Vec<FailureGroup> = Vec::new();
    let mut n: usize = 0;
    assert(failure_models(groups@) =~= by_kind(all.take(0)));
    while n < failures.len()
        invariant
            n <= failures@.len(),
            all == failures@,
            failure_models(groups@) == by_kind(all.take(n as int)),
        decreases failures@.len() - n,
    {
        let failure = &failures[n];
        let ghost before = failure_models(groups@);
        let ghost listed = groups@;
        proof {
            assert(all.take(n + 1).drop_last() =~= all.take(n as int));
            assert(all.take(n + 1).last() == *failure);
        }
        let mut i: usize = 0;
        while i < groups.len() && !same_text(groups[i].kind.as_str(), failure.kind.as_str())
            invariant
                i <= groups@.len(),
                groups@ == listed,
                before == failure_models(listed),
                forall|j: int| 0 <= j < i ==> (#[trigger] before[j]).kind != failure.kind@,
            decreases groups@.len() - i,
        {
            assert(before[i as int] == groups@[i as int]@);
            i += 1;
        }
        proof {
            if i < groups@.len() {
                assert(before[i as int] == groups@[i as int]@);
            }
            lemma_kind_place(before, failure.kind@, i as int);
        }
        if i < groups.len() {
            let mut group = groups.remove(i);
            let ghost paths = group.paths@;
            assert(group == listed[i as int]);
            push_text(&mut group.paths, failure.path.as_str());
            groups.insert(i, group);
            proof {
                assert(groups@ =~= listed.update(i as int, group));
                assert(group@ == (GroupModel {
                    paths: before[i as int].paths.push(failure.path@),
                    ..before[i as int]
                }));
                assert(failure_models(groups@) =~= before.update(i as int, group@));
            }
        } else {
            let mut paths: Vec<String> = Vec::new();
            push_text(&mut paths, failure.path.as_str());
            assert(texts(paths@) =~= seq![failure.path@]);
            let group = FailureGroup {
                kind: failure.kind.clone(),
                permission_denied: failure.permission_denied,
                paths,
            };
            let ghost model = group@;
            groups.push(group);
            assert(failure_models(groups@) =~= before.push(model));
        }
        n += 1;
    }
    assert(all.take(n as int) =~= all);
    groups
}

/// What is advised where permission is lacking.
pub open spec fn permission_advice() -> Seq<char> {
    "\n\nConsider using chown and chmod tools for altering the directories permissions if your user has corresponding rights.\nFor example, `sudo chown $(whoami):staff ~/.config` and `chmod +uwrx ~/.config`"@
}

/// What is said of one kind of failure; nothing where there is no path.
pub open spec fn group_text(group: GroupModel, unix: bool) -> Option<Seq<char>> {
    if group.paths.len() == 0 {
        None
    } else {
        Some(
            group.kind + (if group.paths.len() == 1 {
                " when creating directory "@ + group.paths[0]
            } else {
                " when creating directories ["@ + joined(group.paths, ", "@) + "]"@
            }) + (if unix && group.permission_denied {
                permission_advice()
            } else {
                Seq::empty()
            }),
        )
    }
}

pub open spec fn group_texts(groups: Seq<GroupModel>, unix: bool) -> Seq<Seq<char>>
    decreases groups.len(),
{
    if groups.len() == 0 {
        Seq::empty()
    } else {
        let before = group_texts(groups.drop_last(), unix);
        match group_text(groups.last(), unix) {
            Some(text) => before.push(text),
            None => before,
        }
    }
}

fn describe_group(group: &FailureGroup, unix: bool) -> (r: Option<String>)
    ensures
        opt_text(r) == group_text(group@, unix),
{
    assert(texts(group.paths@).len() == group.paths@.len());
    if group.paths.len() == 0 {
        return None;
    }
    let details = if group.paths.len() == 1 {
        assert(texts(group.paths@)[0] == group.paths@[0]@);
        " when creating directory ".to_owned().concat(group.paths[0].as_str())
    } else {
        let list = join(&group.paths, ", ");
        " when creating directories [".to_owned().concat(list.as_str()).concat("]")
    };
    let mut text = group.kind.clone().concat(details.as_str());
    if unix && group.permission_denied {
        text.append(
            "\n\nConsider using chown and chmod tools for altering the directories permissions if your user has corresponding rights.\nFor example, `sudo chown $(whoami):staff ~/.config` and `chmod +uwrx ~/.config`",
        );
    }
    assert(text@ =~= group_text(group@, unix)->0);
    Some(text)
}

/// What the user is told where the program cannot create its directories.
pub fn files_not_created_on_launch(groups: &Vec<FailureGroup>, unix: bool) -> (r: String)
    ensures
        r@ == joined(group_texts(failure_models(groups@), unix), "\n\n"@),
{
    let ghost all = failure_models(groups@);
    let mut details: Vec<String> = Vec::new();
    let mut n: usize = 0;
    assert(texts(details@) =~= group_texts(all.take(0), unix));
    while n < groups.len()
        invariant
            n <= groups@.len(),
            all == failure_models(groups@),
            texts(details@) == group_texts(all.take(n as int), unix),
        decreases groups@.len() - n,
    {
        proof {
            assert(all.take(n + 1).drop_last() =~= all.take(n as int));
            assert(all.take(n + 1).last() == groups@[n as int]@);
        }
        if let Some(text) = describe_group(&groups[n], unix) {
            push_text(&mut details, text.as_str());
        }
        n += 1;
    }
    assert(all.take(n as int) =~= all);
    join(&details, "\n\n")
}

/// The seconds that a log is kept for, where so many can be counted.
pub fn log_age_limit(days: u64) -> (r: Option<u64>)
    ensures
        r == if days * 86400 <= u64::MAX {
            Some((days * 86400) as u64)
        } else {
            None
        },
{
    if days <= u64::MAX / 86400 {
        Some(days * 86400)
    } else {
        None
    }
}

/// Whether a file in the directory of logs is removed: a log that was last written before a given
/// moment. Times are nanoseconds since the start of 1970.
pub fn cleanup_old_logs(extension: Option<&str>, modified: Option<i128>, cutoff: i128) -> (r: bool)
    ensures
        r == match (extension, modified) {
            (Some(extension), Some(modified)) => extension@ == "log"@ && modified < cutoff,
            _ => false,
        },
{
    match (extension, modified) {
        (Some(extension), Some(modified)) => same_text(extension, "log") && modified < cutoff,
        _ => false,
    }
}

/// A letter without regard to case, where it is one of the 26.
pub open spec fn lower(c: char) -> char {
    if 'A' <= c <= 'Z' {
        ((c as u32) + 32) as char
    } else {
        c
    }
}

fn lower_char(c: char) -> (r: char)
    ensures
        r == lower(c),
{
    if 'A' <= c && c <= 'Z' {
        ((c as u8) + 32) as char
    } else {
        c
    }
}

/// The level that is logged: that of the settings in small letters, or the default one.
pub fn log_filter(level: &str) -> (r: Option<String>)
    ensures
        opt_text(r) == if level@.len() == 0 {
            None
        } else {
            Some(level@.map_values(|c: char| lower(c)))
        },
{
    let chars = chars_of(level);
    if chars.len() == 0 {
        return None;
    }
    let mut text = String::new();
    let mut i: usize = 0;
    while i < chars.len()
        invariant
            i <= chars@.len(),
            chars@ == level@,
            text@ == level@.take(i as int).map_values(|c: char| lower(c)),
        decreases chars@.len() - i,
    {
        text.push(lower_char(chars[i]));
        assert(level@.take(i + 1).map_values(|c: char| lower(c)) =~= level@.take(i as int).map_values(
            |c: char| lower(c),
        ).push(lower(level@[i as int])));
        i += 1;
    }
    assert(level@.take(i as int) =~= level@);
    Some(text)
}

/// How many threads work in the background: half of what the machine can run at once, rounded up.
pub fn worker_threads(available: Option<usize>) -> (r: usize)
    ensures
        r == match available {
            Some(n) => (n as int + 1) / 2,
            None => 1,
        },
{
    match available {
        Some(n) => n / 2 + n % 2,
        None => 1,
    }
}

/// The first key in the order of the settings that stands for an action.
pub open spec fn first_key(entries: Seq<(Seq<char>, Seq<char>)>, action: Seq<char>) -> Option<Seq<char>>
    decreases entries.len(),
{
    if entries.len() == 0 {
        None
    } else if entries[0].1 == action {
        Some(entries[0].0)
    } else {
        first_key(entries.skip(1), action)
    }
}

/// The key that opens the profile at a place, counted from zero.
pub fn tab_keystroke(keys: &indexmap::IndexMap<String, String>, index: usize) -> (r: Option<String>)
    requires
        index < usize::MAX,
    ensures
        opt_text(r) == first_key(key_entries(*keys), "NewTab"@ + integer_text(index + 1)),
{
    let ghost entries = key_entries(*keys);
    let number = unsigned_text((index + 1) as u64);
    let action = "NewTab".to_owned().concat(number.as_str());
    let count = key_count(keys);
    let mut i: usize = 0;
    assert(entries.skip(0) =~= entries);
    while i < count
        invariant
            i <= count,
            count == entries.len(),
            entries == key_entries(*keys),
            action@ == "NewTab"@ + integer_text(index + 1),
            first_key(entries, action@) == first_key(entries.skip(i as int), action@),
        decreases count - i,
    {
        proof {
            assert(entries.skip(i as int)[0] == entries[i as int]);
            assert(entries.skip(i as int).skip(1) =~= entries.skip(i + 1));
        }
        if let Some((key, value)) = key_at(keys, i) {
            if same_text(value.as_str(), action.as_str()) {
                return Some(key.clone());
            }
        }
        i += 1;
    }
    assert(entries.skip(i as int).len() == 0);
    None
}

/// The key of a profile is the first one in the settings that opens it; there is none where none does.
pub proof fn lemma_first_key(entries: Seq<(Seq<char>, Seq<char>)>, action: Seq<char>, place: int)
    requires
        0 <= place <= entries.len(),
        place < entries.len() ==> entries[place].1 == action,
        forall|i: int| 0 <= i < place ==> (#[trigger] entries[i]).1 != action,
    ensures
        first_key(entries, action) == (if place < entries.len() {
            Some(entries[place].0)
        } else {
            None
        }),
    decreases entries.len(),
{
    if place > 0 {
        let rest = entries.skip(1);
        assert(entries[0].1 != action);
        assert forall|i: int| 0 <= i < place - 1 implies (#[trigger] rest[i]).1 != action by {
            assert(rest[i] == entries[i + 1]);
        }
        lemma_first_key(rest, action, place - 1);
        if place < entries.len() {
            assert(rest[place - 1] == entries[place]);
        }
    }
}

/// Only the 26 capital letters have a small form here, and it is the letter that stands as far from
/// the small `a` as the capital from the capital one.
pub proof fn lemma_lower(c: char)
    ensures
        'A' <= c <= 'Z' ==> lower(c) as u32 - 'a' as u32 == c as u32 - 'A' as u32,
        !('A' <= c <= 'Z') ==> lower(c) == c,
{
}

/// The user is told the kind of the failure, every directory it concerns, and what to do where
/// permission is lacking on a Unix system.
pub proof fn lemma_failure_described(group: GroupModel, unix: bool)
    ensures
        group_text(group, unix) is None <==> group.paths.len() == 0,
        group_text(group, unix) matches Some(text) ==> {
            let told = if group.paths.len() == 1 {
                group.kind + " when creating directory "@ + group.paths[0]
            } else {
                group.kind + " when creating directories ["@ + joined(group.paths, ", "@) + "]"@
            };
            &&& unix && group.permission_denied ==> text == told
                + "\n\nConsider using chown and chmod tools for altering the directories permissions if your user has corresponding rights.\nFor example, `sudo chown $(whoami):staff ~/.config` and `chmod +uwrx ~/.config`"@
            &&& !(unix && group.permission_denied) ==> text == told
        },
{
    if group.paths.len() > 0 {
        let text = group_text(group, unix)->0;
        let told = if group.paths.len() == 1 {
            group.kind + " when creating directory "@ + group.paths[0]
        } else {
            group.kind + " when creating directories ["@ + joined(group.paths, ", "@) + "]"@
        };
        if unix && group.permission_denied {
            assert(text =~= told + permission_advice());
        } else {
            assert(text =~= told);
        }
    }
}

/// Every failure is in the group of its kind, behind those that were met before it, and in no other.
pub proof fn lemma_failures_grouped(failures: Seq<PathFailure>, kind: Seq<char>)
    ensures
        forall|g: int, h: int|
            0 <= g < h < by_kind(failures).len() ==> (#[trigger] by_kind(failures)[g]).kind != (
            #[trigger] by_kind(failures)[h]).kind,
        forall|g: int|
            0 <= g < by_kind(failures).len() && (#[trigger] by_kind(failures)[g]).kind == kind ==> by_kind(failures)[g].paths
                == paths_of_kind(failures, kind),
        (forall|g: int| 0 <= g < by_kind(failures).len() ==> (#[trigger] by_kind(failures)[g]).kind != kind) ==> paths_of_kind(
            failures,
            kind,
        ).len() == 0,
    decreases failures.len(),
{
    if failures.len() > 0 {
        let init = failures.drop_last();
        let new = failures.last();
        let before = by_kind(init);
        let all = by_kind(failures);
        lemma_failures_grouped(init, kind);
        lemma_failures_grouped(init, new.kind@);
        lemma_kind_place_found(before, new.kind@);
        let place = kind_place(before, new.kind@);
        assert forall|g: int, h: int| 0 <= g < h < all.len() implies (#[trigger] all[g]).kind != (#[trigger] all[h]).kind by {
            if h < before.len() {
                assert(before[g].kind != before[h].kind);
            }
        }
        assert forall|g: int| 0 <= g < all.len() && (#[trigger] all[g]).kind == kind implies all[g].paths == paths_of_kind(
            failures,
            kind,
        ) by {
            if g < before.len() {
                assert(before[g].kind == kind);
                if g != place && place < before.len() {
                    assert(before[g].kind != before[place].kind);
                }
                if place >= before.len() {
                    assert(before[g].kind != new.kind@);
                }
            } else {
                assert(all[g].paths =~= paths_of_kind(failures, kind));
            }
        }
        if forall|g: int| 0 <= g < all.len() ==> (#[trigger] all[g]).kind != kind {
            assert forall|g: int| 0 <= g < before.len() implies (#[trigger] before[g]).kind != kind by {
                assert(all[g].kind == before[g].kind);
            }
            if place < before.len() {
                assert(all[place].kind == new.kind@);
            } else {
                assert(all[all.len() - 1].kind == new.kind@);
            }
        }
    }
}

/// The paths of the failures of one kind, in order.
pub open spec fn paths_of_kind(failures: Seq<PathFailure>, kind: Seq<char>) -> Seq<Seq<char>>
    decreases failures.len(),
{
    if failures.len() == 0 {
        Seq::empty()
    } else if failures.last().kind@ == kind {
        paths_of_kind(failures.drop_last(), kind).push(failures.last().path@)
    } else {
        paths_of_kind(failures.drop_last(), kind)
    }
}

proof fn lemma_kind_place_found(groups: Seq<GroupModel>, kind: Seq<char>)
    ensures
        0 <= kind_place(groups, kind) <= groups.len(),
        kind_place(groups, kind) < groups.len() ==> groups[kind_place(groups, kind)].kind == kind,
        forall|i: int| 0 <= i < kind_place(groups, kind) ==> (#[trigger] groups[i]).kind != kind,
    decreases groups.len(),
{
    if groups.len() > 0 && groups[0].kind != kind {
        let rest = groups.skip(1);
        lemma_kind_place_found(rest, kind);
        assert forall|i: int| 0 <= i < kind_place(groups, kind) implies (#[trigger] groups[i]).kind != kind by {
            if i > 0 {
                assert(rest[i - 1] == groups[i]);
            }
        }
    }
}

} // verus!
