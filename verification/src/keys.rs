//! Key bindings: which action each keystroke stands for, in the order of the settings.

use vstd::prelude::*;

verus! {

/// `indexmap::IndexMap`: a map that keeps its entries in order.
#[verifier::external_type_specification]
#[verifier::external_body]
#[verifier::reject_recursive_types(K)]
#[verifier::reject_recursive_types(V)]
#[verifier::reject_recursive_types(S)]
pub struct ExIndexMap<K, V, S>(indexmap::IndexMap<K, V, S>);

/// The entries of a map, in its order.
pub uninterp spec fn key_entries(m: indexmap::IndexMap<String, String>) -> Seq<(Seq<char>, Seq<char>)>;

/// Where a key stands, or the number of entries.
pub open spec fn key_position(entries: Seq<(Seq<char>, Seq<char>)>, key: Seq<char>) -> int
    decreases entries.len(),
{
    if entries.len() == 0 || entries[0].0 == key {
        0
    } else {
        1 + key_position(entries.drop_first(), key)
    }
}

/// The entries with one added: a key that is there keeps its place and gets the new value, a new
/// key comes last.
pub open spec fn with_entry(
    entries: Seq<(Seq<char>, Seq<char>)>,
    key: Seq<char>,
    value: Seq<char>,
) -> Seq<(Seq<char>, Seq<char>)> {
    let p = key_position(entries, key);
    if 0 <= p < entries.len() {
        entries.update(p, (key, value))
    } else {
        entries.push((key, value))
    }
}

/// `indexmap::IndexMap::new`: a map without entries.
#[verifier::external_body]
pub(crate) fn empty_keys() -> (r: indexmap::IndexMap<String, String>)
    ensures
        key_entries(r) == Seq::<(Seq<char>, Seq<char>)>::empty(),
{
    indexmap::IndexMap::new()
}

/// `indexmap::IndexMap::len`: the number of entries.
#[verifier::external_body]
pub(crate) fn key_count(m: &indexmap::IndexMap<String, String>) -> (r: usize)
    ensures
        r == key_entries(*m).len(),
{
    m.len()
}

/// `indexmap::IndexMap::get_index`: the entry at a position, in the map's order.
#[verifier::external_body]
pub(crate) fn key_at(m: &indexmap::IndexMap<String, String>, i: usize) -> (r: Option<(&String, &String)>)
    ensures
        match r {
            Some((k, v)) => i < key_entries(*m).len() && key_entries(*m)[i as int] == (k@, v@),
            None => i >= key_entries(*m).len(),
        },
{
    m.get_index(i)
}

/// `indexmap::IndexMap::insert`: the key keeps its place where it is there already, and its value
/// is replaced; else the entry comes last.
#[verifier::external_body]
pub(crate) fn insert_key(m: &mut indexmap::IndexMap<String, String>, key: String, value: String)
    ensures
        key_entries(*final(m)) == with_entry(key_entries(*old(m)), key@, value@),
{
    m.insert(key, value);
}

/// The first `n` of `more` put on top of `base`, one after the other.
pub open spec fn overlaid(
    base: Seq<(Seq<char>, Seq<char>)>,
    more: Seq<(Seq<char>, Seq<char>)>,
    n: nat,
) -> Seq<(Seq<char>, Seq<char>)>
    decreases n,
{
    if n == 0 {
        base
    } else {
        let before = overlaid(base, more, (n - 1) as nat);
        with_entry(before, more[n - 1].0, more[n - 1].1)
    }
}

/// Puts the entries of `more` on top of those of `base`.
pub fn overlay_keys(
    base: indexmap::IndexMap<String, String>,
    more: &indexmap::IndexMap<String, String>,
) -> (r: indexmap::IndexMap<String, String>)
    ensures
        key_entries(r) == overlaid(key_entries(base), key_entries(*more), key_entries(*more).len()),
{
    let mut out = base;
    let count: usize = key_count(more);
    let mut i: usize = 0;
    while i < count
        invariant
            count == key_entries(*more).len(),
            i <= count,
            key_entries(out) == overlaid(key_entries(base), key_entries(*more), i as nat),
        decreases count - i,
    {
        if let Some((k, v)) = key_at(more, i) {
            insert_key(&mut out, k.clone(), v.clone());
        }
        i += 1;
    }
    out
}

/// The map with the given entries, one put on top of the other.
pub fn keys_from(entries: &Vec<(String, String)>) -> (r: indexmap::IndexMap<String, String>)
    ensures
        key_entries(r) == overlaid(
            Seq::empty(),
            entries@.map_values(|e: (String, String)| (e.0@, e.1@)),
            entries@.len(),
        ),
{
    let mut out = empty_keys();
    let ghost all = entries@.map_values(|e: (String, String)| (e.0@, e.1@));
    let mut i: usize = 0;
    while i < entries.len()
        invariant
            i <= entries@.len(),
            all == entries@.map_values(|e: (String, String)| (e.0@, e.1@)),
            key_entries(out) == overlaid(Seq::empty(), all, i as nat),
        decreases entries@.len() - i,
    {
        assert(all[i as int] == (entries@[i as int].0@, entries@[i as int].1@));
        insert_key(&mut out, entries[i].0.clone(), entries[i].1.clone());
        i += 1;
    }
    out
}

/// The action that a keystroke stands for.
pub open spec fn action_for(entries: Seq<(Seq<char>, Seq<char>)>, key: Seq<char>) -> Option<Seq<char>> {
    let p = key_position(entries, key);
    if 0 <= p < entries.len() {
        Some(entries[p].1)
    } else {
        None
    }
}

proof fn lemma_key_position(entries: Seq<(Seq<char>, Seq<char>)>, key: Seq<char>)
    ensures
        0 <= key_position(entries, key) <= entries.len(),
        key_position(entries, key) < entries.len() ==> entries[key_position(entries, key)].0 == key,
        forall|j: int| 0 <= j < key_position(entries, key) ==> (#[trigger] entries[j]).0 != key,
    decreases entries.len(),
{
    if entries.len() > 0 && entries[0].0 != key {
        lemma_key_position(entries.drop_first(), key);
        assert forall|j: int| 0 <= j < key_position(entries, key) implies (#[trigger] entries[j]).0 != key by {
            if j > 0 {
                assert(entries.drop_first()[j - 1] == entries[j]);
            }
        }
    }
}

proof fn lemma_with_entry(
    entries: Seq<(Seq<char>, Seq<char>)>,
    key: Seq<char>,
    value: Seq<char>,
    other: Seq<char>,
)
    ensures
        action_for(with_entry(entries, key, value), key) == Some(value),
        other != key ==> action_for(with_entry(entries, key, value), other) == action_for(entries, other),
        with_entry(entries, key, value).len() >= entries.len(),
        forall|i: int|
            0 <= i < entries.len() ==> (#[trigger] with_entry(entries, key, value)[i]).0 == entries[i].0,
{
    let r = with_entry(entries, key, value);
    lemma_key_position(entries, key);
    lemma_key_position(r, key);
    lemma_key_position(entries, other);
    lemma_key_position(r, other);
    let p = key_position(entries, key);
    let q = key_position(r, key);
    assert(r[p].0 == key);
    if q < p {
        assert(r[q] == entries[q]);
    }
    if p < q {
        assert(r[p].0 != key);
    }
    if other != key {
        let a = key_position(entries, other);
        let b = key_position(r, other);
        if a < entries.len() {
            assert(r[a].0 == other);
            if b < a {
                assert(entries[b].0 == other || b == p);
            }
        } else if b < r.len() {
            assert(b < entries.len());
            assert(entries[b].0 == other);
        }
    }
}

proof fn lemma_overlaid(
    base: Seq<(Seq<char>, Seq<char>)>,
    more: Seq<(Seq<char>, Seq<char>)>,
    n: nat,
    key: Seq<char>,
)
    requires
        n <= more.len(),
    ensures
        overlaid(base, more, n).len() >= base.len(),
        forall|i: int| 0 <= i < base.len() ==> (#[trigger] overlaid(base, more, n)[i]).0 == base[i].0,
        (forall|j: int| 0 <= j < n ==> (#[trigger] more[j]).0 != key) ==> action_for(
            overlaid(base, more, n),
            key,
        ) == action_for(base, key),
        forall|j: int|
            0 <= j < n && (#[trigger] more[j]).0 == key && (forall|k: int|
                j < k < n ==> (#[trigger] more[k]).0 != key) ==> action_for(overlaid(base, more, n), key)
                == Some(more[j].1),
    decreases n,
{
    if n > 0 {
        lemma_overlaid(base, more, (n - 1) as nat, key);
        let before = overlaid(base, more, (n - 1) as nat);
        lemma_with_entry(before, more[n - 1].0, more[n - 1].1, key);
        assert forall|i: int| 0 <= i < base.len() implies (#[trigger] overlaid(base, more, n)[i]).0
            == base[i].0 by {
            assert(before[i].0 == base[i].0);
        }
    }
}

/// Settings put on top of the defaults change no default's place. A keystroke that they bind
/// stands for their action, the last one where they bind it again, and every other keystroke for
/// the default's.
pub proof fn lemma_settings_override(
    base: Seq<(Seq<char>, Seq<char>)>,
    more: Seq<(Seq<char>, Seq<char>)>,
    key: Seq<char>,
)
    ensures
        ({
            let all = overlaid(base, more, more.len());
            &&& all.len() >= base.len()
            &&& forall|i: int| 0 <= i < base.len() ==> (#[trigger] all[i]).0 == base[i].0
            &&& (forall|j: int| 0 <= j < more.len() ==> (#[trigger] more[j]).0 != key) ==> action_for(
                all,
                key,
            ) == action_for(base, key)
            &&& forall|j: int|
                0 <= j < more.len() && (#[trigger] more[j]).0 == key && (forall|k: int|
                    j < k < more.len() ==> (#[trigger] more[k]).0 != key) ==> action_for(all, key) == Some(
                    more[j].1,
                )
        }),
{
    lemma_overlaid(base, more, more.len(), key);
}

} // verus!
