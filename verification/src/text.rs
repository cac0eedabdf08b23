//! Text as sequences of characters: searching, splitting, joining and replacing.

use vstd::prelude::*;

verus! {

/// `String::push`: the text grows by one character at its end.
pub assume_specification[ String::push ](s: &mut String, c: char)
    ensures
        final(s)@ == old(s)@.push(c),
;

/// The contents of a list of strings.
pub open spec fn texts(list: Seq<String>) -> Seq<Seq<char>> {
    list.map_values(|s: String| s@)
}

/// The contents of an optional string.
pub open spec fn opt_text(value: Option<String>) -> Option<Seq<char>> {
    match value {
        Some(s) => Some(s@),
        None => None,
    }
}

/// The contents of a list of optional strings.
pub open spec fn opt_texts(list: Seq<Option<String>>) -> Seq<Option<Seq<char>>> {
    list.map_values(|s: Option<String>| opt_text(s))
}

/// Where `c` first stands in `s`, or the length of `s` where it does not occur.
pub open spec fn position(s: Seq<char>, c: char) -> int
    decreases s.len(),
{
    if s.len() == 0 || s[0] == c {
        0
    } else {
        1 + position(s.drop_first(), c)
    }
}

pub proof fn lemma_position(s: Seq<char>, c: char)
    ensures
        0 <= position(s, c) <= s.len(),
        position(s, c) < s.len() ==> s[position(s, c)] == c,
        forall|j: int| 0 <= j < position(s, c) ==> s[j] != c,
    decreases s.len(),
{
    if s.len() > 0 && s[0] != c {
        lemma_position(s.drop_first(), c);
        assert forall|j: int| 0 <= j < position(s, c) implies s[j] != c by {
            if j > 0 {
                assert(s.drop_first()[j - 1] == s[j]);
            }
        }
    }
}

pub proof fn lemma_position_is(s: Seq<char>, c: char, p: int)
    requires
        0 <= p <= s.len(),
        p < s.len() ==> s[p] == c,
        forall|j: int| 0 <= j < p ==> s[j] != c,
    ensures
        position(s, c) == p,
{
    lemma_position(s, c);
    let q = position(s, c);
    if q < p {
        assert(s[q] != c);
    } else if p < q {
        assert(s[p] != c);
    }
}

/// The pieces of `s` between the occurrences of `c`.
pub open spec fn pieces(s: Seq<char>, c: char) -> Seq<Seq<char>>
    decreases s.len(),
{
    let p = position(s, c);
    if p < 0 || p >= s.len() {
        seq![s]
    } else {
        seq![s.subrange(0, p)] + pieces(s.subrange(p + 1, s.len() as int), c)
    }
}

/// What stands before and after the first occurrence of `c`.
pub open spec fn halves(s: Seq<char>, c: char) -> Option<(Seq<char>, Seq<char>)> {
    let p = position(s, c);
    if p < s.len() {
        Some((s.subrange(0, p), s.subrange(p + 1, s.len() as int)))
    } else {
        None
    }
}

/// The parts with `sep` between each two neighbours.
pub open spec fn joined(parts: Seq<Seq<char>>, sep: Seq<char>) -> Seq<char>
    decreases parts.len(),
{
    if parts.len() == 0 {
        Seq::empty()
    } else if parts.len() == 1 {
        parts[0]
    } else {
        joined(parts.drop_last(), sep) + sep + parts.last()
    }
}

pub proof fn lemma_joined_front(parts: Seq<Seq<char>>, sep: Seq<char>)
    requires
        parts.len() >= 2,
    ensures
        joined(parts, sep) == parts[0] + sep + joined(parts.drop_first(), sep),
    decreases parts.len(),
{
    reveal_with_fuel(joined, 2);
    if parts.len() > 2 {
        lemma_joined_front(parts.drop_last(), sep);
        assert(parts.drop_last().drop_first() =~= parts.drop_first().drop_last());
        assert(parts.drop_last()[0] == parts[0]);
    } else {
        assert(parts.drop_last()[0] == parts[0]);
    }
    assert(joined(parts, sep) =~= parts[0] + sep + joined(parts.drop_first(), sep));
}

/// Joining with a character that no part holds, and splitting there again, gives back the parts.
pub proof fn lemma_pieces_of_joined(parts: Seq<Seq<char>>, c: char)
    requires
        parts.len() >= 1,
        forall|i: int| 0 <= i < parts.len() ==> !#[trigger] parts[i].contains(c),
    ensures
        pieces(joined(parts, seq![c]), c) == parts,
    decreases parts.len(),
{
    let s = joined(parts, seq![c]);
    assert(!parts[0].contains(c));
    if parts.len() == 1 {
        assert forall|j: int| 0 <= j < s.len() implies s[j] != c by {
            assert(parts[0].contains(s[j]));
        }
        lemma_position_is(s, c, s.len() as int);
        assert(seq![s] =~= parts);
    } else {
        lemma_joined_front(parts, seq![c]);
        let rest = parts.drop_first();
        assert forall|i: int| 0 <= i < rest.len() implies !#[trigger] rest[i].contains(c) by {
            assert(rest[i] == parts[i + 1]);
        }
        lemma_pieces_of_joined(rest, c);
        let p = parts[0].len() as int;
        assert forall|j: int| 0 <= j < p implies s[j] != c by {
            assert(parts[0].contains(s[j]));
        }
        lemma_position_is(s, c, p);
        assert(s.subrange(0, p) =~= parts[0]);
        assert(s.subrange(p + 1, s.len() as int) =~= joined(rest, seq![c]));
        assert(seq![parts[0]] + rest =~= parts);
    }
}

/// The characters of `s`.
pub fn chars_of(s: &str) -> (r: Vec<char>)
    ensures
        r@ == s@,
{
    let mut out: Vec<char> = Vec::new();
    for c in it: s.chars()
        invariant
            out@ == it.seq().take(it.index()),
            it.seq() == s@,
    {
        out.push(c);
    }
    out
}

/// A copy of a list of strings.
pub fn clone_list(list: &Vec<String>) -> (r: Vec<String>)
    ensures
        texts(r@) == texts(list@),
{
    let mut out: Vec<String> = Vec::new();
    let mut i: usize = 0;
    while i < list.len()
        invariant
            i <= list@.len(),
            texts(out@) == texts(list@).take(i as int),
        decreases list@.len() - i,
    {
        push_text(&mut out, list[i].as_str());
        assert(texts(list@).take(i + 1) =~= texts(list@).take(i as int).push(list@[i as int]@));
        i += 1;
    }
    assert(texts(list@).take(i as int) =~= texts(list@));
    out
}

/// A copy of an optional string.
pub fn clone_opt(value: &Option<String>) -> (r: Option<String>)
    ensures
        opt_text(r) == opt_text(*value),
{
    match value {
        Some(s) => Some(s.clone()),
        None => None,
    }
}

/// Adds a text to the end of a list.
pub fn push_text(list: &mut Vec<String>, s: &str)
    ensures
        texts(final(list)@) == texts(old(list)@).push(s@),
{
    let item = String::from_str(s);
    list.push(item);
    assert(texts(list@) =~= texts(old(list)@).push(s@));
}

/// Adds the texts of `more` to the end of a list.
pub fn push_all(list: &mut Vec<String>, more: &Vec<String>)
    ensures
        texts(final(list)@) == texts(old(list)@) + texts(more@),
{
    let mut i: usize = 0;
    assert(texts(list@) =~= texts(old(list)@) + texts(more@).take(0));
    while i < more.len()
        invariant
            i <= more@.len(),
            texts(list@) == texts(old(list)@) + texts(more@).take(i as int),
        decreases more@.len() - i,
    {
        push_text(list, more[i].as_str());
        assert(texts(more@).take(i + 1) =~= texts(more@).take(i as int).push(more@[i as int]@));
        assert(texts(list@) =~= texts(old(list)@) + texts(more@).take(i + 1));
        i += 1;
    }
    assert(texts(more@).take(i as int) =~= texts(more@));
}

/// The text of the characters from `from` up to but not at `to`.
pub fn text_between(chars: &Vec<char>, from: usize, to: usize) -> (r: String)
    requires
        from <= to <= chars@.len(),
    ensures
        r@ == chars@.subrange(from as int, to as int),
{
    let mut out = String::new();
    let mut i: usize = from;
    while i < to
        invariant
            from <= i <= to <= chars@.len(),
            out@ == chars@.subrange(from as int, i as int),
        decreases to - i,
    {
        out.push(chars[i]);
        i += 1;
        assert(out@ =~= chars@.subrange(from as int, i as int));
    }
    out
}

/// Whether two texts are the same.
pub fn same_text(a: &str, b: &str) -> (r: bool)
    ensures
        r == (a@ == b@),
{
    let x = String::from_str(a);
    let y = String::from_str(b);
    x == y
}

fn find_from(chars: &Vec<char>, from: usize, c: char) -> (r: usize)
    requires
        from <= chars@.len(),
    ensures
        from <= r <= chars@.len(),
        r - from == position(chars@.subrange(from as int, chars@.len() as int), c),
{
    let mut i: usize = from;
    while i < chars.len() && chars[i] != c
        invariant
            from <= i <= chars@.len(),
            forall|j: int| from <= j < i ==> chars@[j] != c,
        decreases chars@.len() - i,
    {
        i += 1;
    }
    proof {
        lemma_position_is(chars@.subrange(from as int, chars@.len() as int), c, i - from);
    }
    i
}

/// Splits at the first occurrence of `c`.
pub fn split_once(s: &str, c: char) -> (r: Option<(String, String)>)
    ensures
        match r {
            Some((a, b)) => halves(s@, c) == Some((a@, b@)),
            None => halves(s@, c) is None,
        },
{
    let chars = chars_of(s);
    assert(chars@.subrange(0, chars@.len() as int) =~= chars@);
    let p = find_from(&chars, 0, c);
    if p < chars.len() {
        Some((text_between(&chars, 0, p), text_between(&chars, p + 1, chars.len())))
    } else {
        None
    }
}

/// Splits at every occurrence of `c`.
pub fn split(s: &str, c: char) -> (r: Vec<String>)
    ensures
        texts(r@) == pieces(s@, c),
{
    let chars = chars_of(s);
    let mut out: Vec<String> = Vec::new();
    let mut from: usize = 0;
    assert(chars@.subrange(0, chars@.len() as int) =~= chars@);
    loop
        invariant
            from <= chars@.len(),
            chars@ == s@,
            texts(out@) + pieces(chars@.subrange(from as int, chars@.len() as int), c) == pieces(s@, c),
        decreases chars@.len() - from,
    {
        let ghost rest = chars@.subrange(from as int, chars@.len() as int);
        let p = find_from(&chars, from, c);
        let piece = text_between(&chars, from, p);
        let ghost before = out@;
        out.push(piece);
        proof {
            assert(texts(out@) =~= texts(before).push(piece@));
            assert(piece@ =~= rest.subrange(0, p - from));
        }
        if p >= chars.len() {
            proof {
                assert(piece@ =~= rest);
                assert(texts(out@) =~= pieces(s@, c));
            }
            return out;
        }
        proof {
            assert(rest.subrange(p - from + 1, rest.len() as int)
                =~= chars@.subrange(p + 1, chars@.len() as int));
            assert(texts(out@) + pieces(chars@.subrange(p + 1, chars@.len() as int), c)
                =~= texts(before) + pieces(rest, c));
        }
        from = p + 1;
    }
}

/// Joins the parts with `sep` between them.
pub fn join(parts: &Vec<String>, sep: &str) -> (r: String)
    ensures
        r@ == joined(texts(parts@), sep@),
{
    let mut out = String::new();
    let mut i: usize = 0;
    while i < parts.len()
        invariant
            i <= parts@.len(),
            out@ == joined(texts(parts@).take(i as int), sep@),
        decreases parts@.len() - i,
    {
        let ghost next = texts(parts@).take(i + 1);
        proof {
            assert(next.drop_last() =~= texts(parts@).take(i as int));
            assert(next.last() == parts@[i as int]@);
        }
        if i > 0 {
            out.append(sep);
        }
        out.append(parts[i].as_str());
        proof {
            assert(out@ =~= joined(next, sep@));
        }
        i += 1;
    }
    assert(texts(parts@).take(i as int) =~= texts(parts@));
    out
}

/// Whether `needle` stands in `s` at position `i`.
pub open spec fn occurs_at(s: Seq<char>, needle: Seq<char>, i: int) -> bool {
    0 <= i && i + needle.len() <= s.len() && s.subrange(i, i + needle.len()) == needle
}

/// Whether `needle` stands somewhere in `s`.
pub open spec fn has_text(s: Seq<char>, needle: Seq<char>) -> bool {
    exists|i: int| occurs_at(s, needle, i)
}

/// `s` with every `c` replaced by `with`.
pub open spec fn with_char_replaced(s: Seq<char>, c: char, with: Seq<char>) -> Seq<char>
    decreases s.len(),
{
    if s.len() == 0 {
        Seq::empty()
    } else {
        with_char_replaced(s.drop_last(), c, with) + (if s.last() == c {
            with
        } else {
            seq![s.last()]
        })
    }
}

/// Replacing characters works piece by piece.
pub proof fn lemma_replaced_concat(a: Seq<char>, b: Seq<char>, c: char, with: Seq<char>)
    ensures
        with_char_replaced(a + b, c, with) == with_char_replaced(a, c, with) + with_char_replaced(b, c, with),
    decreases b.len(),
{
    if b.len() == 0 {
        assert(a + b =~= a);
        assert(with_char_replaced(a, c, with) + with_char_replaced(b, c, with) =~= with_char_replaced(
            a,
            c,
            with,
        ));
    } else {
        lemma_replaced_concat(a, b.drop_last(), c, with);
        assert((a + b).drop_last() =~= a + b.drop_last());
        assert(with_char_replaced(a + b, c, with) =~= with_char_replaced(a, c, with) + with_char_replaced(
            b,
            c,
            with,
        ));
    }
}

/// `s` with the occurrences of `pattern`, found from left to right and not overlapping,
/// replaced by `with`.
pub open spec fn with_text_replaced(s: Seq<char>, pattern: Seq<char>, with: Seq<char>) -> Seq<char>
    decreases s.len(),
{
    if pattern.len() == 0 || s.len() < pattern.len() {
        s
    } else if s.subrange(0, pattern.len() as int) == pattern {
        with + with_text_replaced(s.skip(pattern.len() as int), pattern, with)
    } else {
        seq![s[0]] + with_text_replaced(s.skip(1), pattern, with)
    }
}

/// The characters that Unicode calls white space.
pub open spec fn white_space(c: char) -> bool {
    ||| '\u{9}' <= c <= '\u{d}'
    ||| c == ' '
    ||| c == '\u{85}'
    ||| c == '\u{a0}'
    ||| c == '\u{1680}'
    ||| '\u{2000}' <= c <= '\u{200a}'
    ||| c == '\u{2028}'
    ||| c == '\u{2029}'
    ||| c == '\u{202f}'
    ||| c == '\u{205f}'
    ||| c == '\u{3000}'
}

/// `s` without the white space at its start.
pub open spec fn trimmed_start(s: Seq<char>) -> Seq<char>
    decreases s.len(),
{
    if s.len() > 0 && white_space(s[0]) {
        trimmed_start(s.drop_first())
    } else {
        s
    }
}

/// `s` without the white space at its end.
pub open spec fn trimmed_end(s: Seq<char>) -> Seq<char>
    decreases s.len(),
{
    if s.len() > 0 && white_space(s.last()) {
        trimmed_end(s.drop_last())
    } else {
        s
    }
}

/// `s` without the white space at both ends.
pub open spec fn trimmed(s: Seq<char>) -> Seq<char> {
    trimmed_end(trimmed_start(s))
}

/// The characters of `s` before its first white space.
pub open spec fn until_white_space(s: Seq<char>) -> Seq<char>
    decreases s.len(),
{
    if s.len() == 0 || white_space(s[0]) {
        Seq::empty()
    } else {
        seq![s[0]] + until_white_space(s.drop_first())
    }
}

/// The first word of `s`, where it has one.
pub open spec fn first_word_of(s: Seq<char>) -> Option<Seq<char>> {
    let rest = trimmed_start(s);
    if rest.len() == 0 {
        None
    } else {
        Some(until_white_space(rest))
    }
}

/// Whether `c` is white space.
pub fn is_white_space(c: char) -> (r: bool)
    ensures
        r == white_space(c),
{
    ('\u{9}' <= c && c <= '\u{d}') || c == ' ' || c == '\u{85}' || c == '\u{a0}' || c == '\u{1680}'
        || ('\u{2000}' <= c && c <= '\u{200a}') || c == '\u{2028}' || c == '\u{2029}'
        || c == '\u{202f}' || c == '\u{205f}' || c == '\u{3000}'
}

fn matches_at(chars: &Vec<char>, needle: &Vec<char>, at: usize) -> (r: bool)
    requires
        at + needle@.len() <= chars@.len(),
    ensures
        r == (chars@.subrange(at as int, at + needle@.len()) == needle@),
{
    let total: usize = chars.len();
    let mut i: usize = 0;
    while i < needle.len()
        invariant
            i <= needle@.len(),
            total == chars@.len(),
            at + needle@.len() <= total,
            forall|j: int| 0 <= j < i ==> chars@[at + j] == needle@[j],
        decreases needle@.len() - i,
    {
        if chars[at + i] != needle[i] {
            proof {
                assert(chars@.subrange(at as int, at + needle@.len())[i as int] != needle@[i as int]);
            }
            return false;
        }
        i += 1;
    }
    assert(chars@.subrange(at as int, at + needle@.len()) =~= needle@);
    true
}

/// Whether `s` begins with `prefix`.
pub fn starts_with(s: &str, prefix: &str) -> (r: bool)
    ensures
        r == prefix@.is_prefix_of(s@),
{
    let chars = chars_of(s);
    let needle = chars_of(prefix);
    needle.len() <= chars.len() && matches_at(&chars, &needle, 0)
}

/// Whether `s` ends with `suffix`.
pub fn ends_with(s: &str, suffix: &str) -> (r: bool)
    ensures
        r == suffix@.is_suffix_of(s@),
{
    let chars = chars_of(s);
    let needle = chars_of(suffix);
    needle.len() <= chars.len() && matches_at(&chars, &needle, chars.len() - needle.len())
}

/// What follows `prefix` in `s`, where `s` begins with it.
pub fn strip_prefix(s: &str, prefix: &str) -> (r: Option<String>)
    ensures
        r is Some <==> prefix@.is_prefix_of(s@),
        r matches Some(rest) ==> rest@ == s@.skip(prefix@.len() as int) && s@ == prefix@ + rest@,
{
    if starts_with(s, prefix) {
        let chars = chars_of(s);
        let needle = chars_of(prefix);
        let rest = text_between(&chars, needle.len(), chars.len());
        proof {
            assert(rest@ =~= s@.skip(prefix@.len() as int));
            assert(s@ =~= prefix@ + rest@);
        }
        Some(rest)
    } else {
        None
    }
}

/// Where `needle` first stands in `s`, counted in characters.
pub fn find_text(s: &str, needle: &str) -> (r: Option<usize>)
    ensures
        r is Some <==> has_text(s@, needle@),
        r matches Some(i) ==> occurs_at(s@, needle@, i as int) && forall|j: int|
            0 <= j < i ==> !occurs_at(s@, needle@, j),
{
    let chars = chars_of(s);
    let wanted = chars_of(needle);
    let mut i: usize = 0;
    while wanted.len() <= chars.len() && i <= chars.len() - wanted.len()
        invariant
            chars@ == s@,
            wanted@ == needle@,
            0 <= i <= chars@.len() + 1,
            forall|j: int| 0 <= j < i ==> !occurs_at(s@, needle@, j),
        decreases chars@.len() + 1 - i,
    {
        if matches_at(&chars, &wanted, i) {
            assert(occurs_at(s@, needle@, i as int));
            return Some(i);
        }
        if i == chars.len() {
            assert forall|j: int| !occurs_at(s@, needle@, j) by {
                if 0 <= j < i {
                }
            }
            return None;
        }
        i += 1;
    }
    assert forall|j: int| !occurs_at(s@, needle@, j) by {
        if 0 <= j < i {
        }
    }
    None
}

/// Whether `needle` stands somewhere in `s`.
pub fn contains(s: &str, needle: &str) -> (r: bool)
    ensures
        r == has_text(s@, needle@),
{
    find_text(s, needle).is_some()
}

/// Replaces every `c` by `with`.
pub fn replace_char(s: &str, c: char, with: &str) -> (r: String)
    ensures
        r@ == with_char_replaced(s@, c, with@),
{
    let chars = chars_of(s);
    let mut out = String::new();
    let mut i: usize = 0;
    while i < chars.len()
        invariant
            chars@ == s@,
            i <= chars@.len(),
            out@ == with_char_replaced(s@.take(i as int), c, with@),
        decreases chars@.len() - i,
    {
        let ghost next = s@.take(i + 1);
        assert(next.drop_last() =~= s@.take(i as int));
        if chars[i] == c {
            out.append(with);
        } else {
            out.push(chars[i]);
        }
        assert(out@ =~= with_char_replaced(next, c, with@));
        i += 1;
    }
    assert(s@.take(i as int) =~= s@);
    out
}

/// Replaces the occurrences of `pattern`, found from left to right, by `with`.
pub fn replace_text(s: &str, pattern: &str, with: &str) -> (r: String)
    requires
        pattern@.len() > 0,
    ensures
        r@ == with_text_replaced(s@, pattern@, with@),
{
    let chars = chars_of(s);
    let wanted = chars_of(pattern);
    let mut out = String::new();
    let mut i: usize = 0;
    assert(s@.skip(0) =~= s@);
    while i < chars.len() && wanted.len() <= chars.len() - i
        invariant
            chars@ == s@,
            wanted@ == pattern@,
            pattern@.len() > 0,
            i <= chars@.len(),
            out@ + with_text_replaced(s@.skip(i as int), pattern@, with@) == with_text_replaced(
                s@,
                pattern@,
                with@,
            ),
        decreases chars@.len() - i,
    {
        let ghost rest = s@.skip(i as int);
        let ghost before = out@;
        proof {
            assert(rest.subrange(0, pattern@.len() as int) =~= chars@.subrange(
                i as int,
                i + pattern@.len(),
            ));
        }
        if matches_at(&chars, &wanted, i) {
            out.append(with);
            i += wanted.len();
            proof {
                assert(rest.skip(pattern@.len() as int) =~= s@.skip(i as int));
                assert(out@ + with_text_replaced(s@.skip(i as int), pattern@, with@) =~= before
                    + with_text_replaced(rest, pattern@, with@));
            }
        } else {
            out.push(chars[i]);
            i += 1;
            proof {
                assert(rest.skip(1) =~= s@.skip(i as int));
                assert(out@ + with_text_replaced(s@.skip(i as int), pattern@, with@) =~= before
                    + with_text_replaced(rest, pattern@, with@));
            }
        }
    }
    let tail = text_between(&chars, i, chars.len());
    assert(tail@ =~= s@.skip(i as int));
    out.append(tail.as_str());
    out
}

fn skip_white_space(chars: &Vec<char>) -> (r: usize)
    ensures
        r <= chars@.len(),
        trimmed_start(chars@) == chars@.skip(r as int),
        r < chars@.len() ==> !white_space(chars@[r as int]),
{
    let mut i: usize = 0;
    assert(chars@.skip(0) =~= chars@);
    while i < chars.len() && is_white_space(chars[i])
        invariant
            i <= chars@.len(),
            trimmed_start(chars@) == trimmed_start(chars@.skip(i as int)),
        decreases chars@.len() - i,
    {
        assert(chars@.skip(i as int).drop_first() =~= chars@.skip(i + 1));
        i += 1;
    }
    i
}

/// Takes the white space off both ends.
pub fn trim(s: &str) -> (r: String)
    ensures
        r@ == trimmed(s@),
{
    let chars = chars_of(s);
    let from = skip_white_space(&chars);
    let mut to: usize = chars.len();
    let ghost rest = chars@.skip(from as int);
    assert(rest.take(to - from) =~= rest);
    while to > from && is_white_space(chars[to - 1])
        invariant
            from <= to <= chars@.len(),
            rest == chars@.skip(from as int),
            trimmed_end(rest) == trimmed_end(rest.take(to - from)),
        decreases to - from,
    {
        assert(rest.take(to - from).drop_last() =~= rest.take(to - from - 1));
        to -= 1;
    }
    let out = text_between(&chars, from, to);
    assert(out@ =~= rest.take(to - from));
    out
}

/// The first word, where there is one.
pub fn first_word(s: &str) -> (r: Option<String>)
    ensures
        opt_text(r) == first_word_of(s@),
{
    let chars = chars_of(s);
    let from = skip_white_space(&chars);
    if from == chars.len() {
        return None;
    }
    let ghost rest = chars@.skip(from as int);
    let mut to: usize = from;
    assert(rest.skip(0) =~= rest);
    assert(rest.take(0) =~= Seq::<char>::empty());
    while to < chars.len() && !is_white_space(chars[to])
        invariant
            from <= to <= chars@.len(),
            rest == chars@.skip(from as int),
            rest.take(to - from) + until_white_space(rest.skip(to - from)) =~= until_white_space(rest),
        decreases chars@.len() - to,
    {
        proof {
            let k = to - from;
            assert(rest.skip(k).drop_first() =~= rest.skip(k + 1));
            assert(rest.take(k + 1) =~= rest.take(k).push(rest[k]));
            assert(rest.take(k + 1) + until_white_space(rest.skip(k + 1)) =~= rest.take(k)
                + until_white_space(rest.skip(k)));
        }
        to += 1;
    }
    let out = text_between(&chars, from, to);
    assert(out@ =~= rest.take(to - from));
    assert(out@ =~= until_white_space(rest));
    Some(out)
}

/// `s` without a carriage return at its end.
pub open spec fn without_return(s: Seq<char>) -> Seq<char> {
    if s.len() > 0 && s.last() == '\r' {
        s.drop_last()
    } else {
        s
    }
}

/// The lines of `s`: each ends at a line feed, and a carriage return before it is no part of it.
/// What follows the last line feed is a line where it is not empty.
pub open spec fn lines_of(s: Seq<char>) -> Seq<Seq<char>> {
    let all = pieces(s, '\n');
    let ended = all.drop_last().map_values(|line: Seq<char>| without_return(line));
    if all.last().len() == 0 {
        ended
    } else {
        ended.push(all.last())
    }
}

proof fn lemma_pieces_nonempty(s: Seq<char>, c: char)
    ensures
        pieces(s, c).len() >= 1,
    decreases s.len(),
{
}

/// Splits into lines.
pub fn lines(s: &str) -> (r: Vec<String>)
    ensures
        texts(r@) == lines_of(s@),
{
    let parts = split(s, '\n');
    proof {
        lemma_pieces_nonempty(s@, '\n');
    }
    let ghost all = pieces(s@, '\n');
    let count: usize = parts.len() - 1;
    let mut out: Vec<String> = Vec::new();
    let mut i: usize = 0;
    while i < count
        invariant
            i <= count < parts@.len(),
            texts(parts@) == all,
            out@.len() == i,
            forall|j: int| 0 <= j < i ==> (#[trigger] out@[j])@ == without_return(all[j]),
        decreases count - i,
    {
        assert(all[i as int] == parts@[i as int]@);
        let chars = chars_of(parts[i].as_str());
        let line = if chars.len() > 0 && chars[chars.len() - 1] == '\r' {
            text_between(&chars, 0, chars.len() - 1)
        } else {
            parts[i].clone()
        };
        assert(line@ =~= without_return(all[i as int]));
        out.push(line);
        i += 1;
    }
    assert(all.last() == parts@[count as int]@);
    if parts[count].as_str().unicode_len() > 0 {
        out.push(parts[count].clone());
    }
    assert(texts(out@) =~= lines_of(s@));
    out
}

/// Every character is white space.
pub open spec fn all_white_space(s: Seq<char>) -> bool {
    forall|i: int| 0 <= i < s.len() ==> white_space(#[trigger] s[i])
}

proof fn lemma_trimmed_front(before: Seq<char>, rest: Seq<char>)
    requires
        all_white_space(before),
        rest.len() > 0 ==> !white_space(rest[0]),
    ensures
        trimmed_start(before + rest) == rest,
    decreases before.len(),
{
    if before.len() == 0 {
        assert(before + rest =~= rest);
    } else {
        let next = before.drop_first();
        assert(white_space(before[0]));
        assert forall|i: int| 0 <= i < next.len() implies white_space(#[trigger] next[i]) by {
            assert(white_space(before[i + 1]));
        }
        lemma_trimmed_front(next, rest);
        assert((before + rest).drop_first() =~= next + rest);
    }
}

proof fn lemma_trimmed_back(rest: Seq<char>, after: Seq<char>)
    requires
        all_white_space(after),
        rest.len() > 0 ==> !white_space(rest.last()),
    ensures
        trimmed_end(rest + after) == rest,
    decreases after.len(),
{
    if after.len() == 0 {
        assert(rest + after =~= rest);
    } else {
        let next = after.drop_last();
        assert(white_space(after[after.len() - 1]));
        assert forall|i: int| 0 <= i < next.len() implies white_space(#[trigger] next[i]) by {
            assert(white_space(after[i]));
        }
        lemma_trimmed_back(rest, next);
        assert((rest + after).drop_last() =~= rest + next);
    }
}

/// Trimming takes the white space off both ends and leaves what is between.
pub proof fn lemma_trimmed(before: Seq<char>, core: Seq<char>, after: Seq<char>)
    requires
        all_white_space(before),
        all_white_space(after),
        core.len() > 0,
        !white_space(core[0]),
        !white_space(core.last()),
    ensures
        trimmed(before + core + after) == core,
{
    assert(before + core + after =~= before + (core + after));
    lemma_trimmed_front(before, core + after);
    lemma_trimmed_back(core, after);
}

proof fn lemma_until_white_space(word: Seq<char>, after: Seq<char>)
    requires
        forall|i: int| 0 <= i < word.len() ==> !white_space(#[trigger] word[i]),
        after.len() > 0 ==> white_space(after[0]),
    ensures
        until_white_space(word + after) == word,
    decreases word.len(),
{
    if word.len() == 0 {
        assert(word + after =~= after);
        assert(word =~= Seq::<char>::empty());
    } else {
        let next = word.drop_first();
        assert(!white_space(word[0]));
        assert forall|i: int| 0 <= i < next.len() implies !white_space(#[trigger] next[i]) by {
            assert(!white_space(word[i + 1]));
        }
        lemma_until_white_space(next, after);
        assert((word + after).drop_first() =~= next + after);
        assert(seq![word[0]] + next =~= word);
    }
}

/// The first word stands behind white space and before white space, or at the end.
pub proof fn lemma_first_word(before: Seq<char>, word: Seq<char>, after: Seq<char>)
    requires
        all_white_space(before),
        word.len() > 0,
        forall|i: int| 0 <= i < word.len() ==> !white_space(#[trigger] word[i]),
        after.len() > 0 ==> white_space(after[0]),
    ensures
        first_word_of(before + word + after) == Some(word),
{
    assert(!white_space(word[0]));
    assert(before + word + after =~= before + (word + after));
    lemma_trimmed_front(before, word + after);
    lemma_until_white_space(word, after);
}

/// Lines that end in line feeds, each with or without a carriage return before it, are read as they
/// are, and so is a last line that does not end.
pub proof fn lemma_lines(parts: Seq<Seq<char>>)
    requires
        parts.len() >= 1,
        forall|i: int| 0 <= i < parts.len() ==> !#[trigger] parts[i].contains('\n'),
    ensures
        ({
            let all = lines_of(joined(parts, seq!['\n']));
            let n = parts.len() - 1;
            &&& all.len() == if parts.last().len() > 0 { n + 1 } else { n }
            &&& parts.last().len() > 0 ==> all[n] == parts.last()
            &&& forall|i: int|
                0 <= i < n ==> {
                    &&& parts[i].len() > 0 && parts[i].last() == '\r' ==> (#[trigger] all[i]).push('\r') == parts[i]
                    &&& !(parts[i].len() > 0 && parts[i].last() == '\r') ==> all[i] == parts[i]
                }
        }),
{
    lemma_pieces_of_joined(parts, '\n');
    let all = lines_of(joined(parts, seq!['\n']));
    assert forall|i: int| 0 <= i < parts.len() - 1 implies {
        &&& parts[i].len() > 0 && parts[i].last() == '\r' ==> (#[trigger] all[i]).push('\r') == parts[i]
        &&& !(parts[i].len() > 0 && parts[i].last() == '\r') ==> all[i] == parts[i]
    } by {
        assert(parts.drop_last()[i] == parts[i]);
        if parts[i].len() > 0 && parts[i].last() == '\r' {
            assert(parts[i].drop_last().push('\r') =~= parts[i]);
        }
    }
}

/// Nothing is left of a text exactly where it is all white space.
pub proof fn lemma_blank_trimmed(s: Seq<char>)
    ensures
        trimmed(s).len() == 0 <==> all_white_space(s),
{
    lemma_blank_start(s);
    let rest = trimmed_start(s);
    lemma_blank_end(rest);
    if !all_white_space(s) {
        assert(!white_space(rest[0]));
    }
}

proof fn lemma_blank_start(s: Seq<char>)
    ensures
        all_white_space(s) ==> trimmed_start(s).len() == 0,
        !all_white_space(s) ==> trimmed_start(s).len() > 0 && !white_space(trimmed_start(s)[0]),
    decreases s.len(),
{
    if s.len() > 0 && white_space(s[0]) {
        let rest = s.drop_first();
        lemma_blank_start(rest);
        if all_white_space(rest) {
            assert forall|i: int| 0 <= i < s.len() implies white_space(#[trigger] s[i]) by {
                if i > 0 {
                    assert(s[i] == rest[i - 1]);
                }
            }
        } else {
            let k = choose|k: int| 0 <= k < rest.len() && !white_space(#[trigger] rest[k]);
            assert(s[k + 1] == rest[k]);
        }
    }
}

proof fn lemma_blank_end(s: Seq<char>)
    ensures
        trimmed_end(s).len() == 0 <==> all_white_space(s),
    decreases s.len(),
{
    if s.len() > 0 && white_space(s.last()) {
        let rest = s.drop_last();
        lemma_blank_end(rest);
        if all_white_space(rest) {
            assert forall|i: int| 0 <= i < s.len() implies white_space(#[trigger] s[i]) by {
                if i < s.len() - 1 {
                    assert(s[i] == rest[i]);
                }
            }
        } else {
            let k = choose|k: int| 0 <= k < rest.len() && !white_space(#[trigger] rest[k]);
            assert(s[k] == rest[k]);
        }
    } else if s.len() > 0 {
        assert(!white_space(s[s.len() - 1]));
    }
}

} // verus!
