//! Searching the terminal's text.

use vstd::prelude::*;
use crate::layout::GridPoint;
use crate::text::{opt_text, same_text};

verus! {

/// The characters that mean something in a regular expression.
pub open spec fn regex_meta(c: char) -> bool {
    ||| c == '\\' || c == '.' || c == '+' || c == '*' || c == '?'
    ||| c == '(' || c == ')' || c == '|' || c == '[' || c == ']'
    ||| c == '{' || c == '}' || c == '^' || c == '$' || c == '#'
    ||| c == '&' || c == '-' || c == '~'
}

/// A text as a regular expression that matches it literally.
pub open spec fn regex_escaped(s: Seq<char>) -> Seq<char>
    decreases s.len(),
{
    if s.len() == 0 {
        Seq::empty()
    } else {
        regex_escaped(s.drop_last()) + (if regex_meta(s.last()) {
            seq!['\\', s.last()]
        } else {
            seq![s.last()]
        })
    }
}

/// `regex::escape`: a backslash is put before every character that means something in a regular
/// expression, and everything else is kept.
#[verifier::external_body]
fn escape_regex(text: &str) -> (r: String)
    ensures
        r@ == regex_escaped(text@),
{
    regex::escape(text)
}

/// The pattern that a query stands for.
pub open spec fn pattern_of(query: Seq<char>, is_regex: bool) -> Option<Seq<char>> {
    if !is_regex {
        Some(regex_escaped(query))
    } else if query == "."@ {
        None
    } else {
        Some(query)
    }
}

/// The pattern to search for. The pattern that matches every character is not searched for.
pub fn regex_search_for_query(query: &str, is_regex: bool) -> (r: Option<String>)
    ensures
        opt_text(r) == pattern_of(query@, is_regex),
{
    if is_regex {
        if same_text(query, ".") {
            None
        } else {
            Some(String::from_str(query))
        }
    } else {
        Some(escape_regex(query))
    }
}

/// Which way a search goes.
#[derive(Debug, Clone, Copy, PartialEq, Eq, Structural)]
pub enum Direction {
    Prev,
    Next,
}

/// A stretch of the grid, both ends included.
#[derive(Debug, Clone, Copy, PartialEq, Eq, Structural)]
pub struct SearchMatch {
    pub start: GridPoint,
    pub end: GridPoint,
}

/// Whether `a` lies before `b`.
pub open spec fn point_before(a: GridPoint, b: GridPoint) -> bool {
    a.line < b.line || (a.line == b.line && a.column < b.column)
}

impl SearchMatch {
    pub open spec fn spec_contains(self, p: GridPoint) -> bool {
        !point_before(p, self.start) && !point_before(self.end, p)
    }

    /// The match is the one to go to, from `head`.
    pub open spec fn reached(self, head: GridPoint, direction: Direction) -> bool {
        self.spec_contains(head) || match direction {
            Direction::Prev => point_before(self.start, head),
            Direction::Next => point_before(head, self.start),
        }
    }

    fn is_reached(&self, head: GridPoint, direction: Direction) -> (r: bool)
        ensures
            r == self.reached(head, direction),
    {
        let contains = !is_before(head, self.start) && !is_before(self.end, head);
        contains || match direction {
            Direction::Prev => is_before(self.start, head),
            Direction::Next => is_before(head, self.start),
        }
    }
}

pub(crate) fn is_before(a: GridPoint, b: GridPoint) -> (r: bool)
    ensures
        r == point_before(a, b),
{
    a.line < b.line || (a.line == b.line && a.column < b.column)
}

/// The match that is the current one. Backwards it is the last match at or before the selection,
/// else the first of all; forwards the first at or behind it, else the last of all. Without a
/// selection it is the last, and without matches there is none.
pub fn active_match_index(
    direction: Direction,
    matches: &[SearchMatch],
    selection_head: Option<GridPoint>,
) -> (r: Option<usize>)
    ensures
        r is None <==> matches@.len() == 0,
        r matches Some(i) ==> i < matches@.len() && match selection_head {
            None => i == matches@.len() - 1,
            Some(head) => match direction {
                Direction::Prev => {
                    ||| matches@[i as int].reached(head, direction) && forall|j: int|
                        i < j < matches@.len() ==> !(#[trigger] matches@[j]).reached(head, direction)
                    ||| i == 0 && forall|j: int|
                        0 <= j < matches@.len() ==> !(#[trigger] matches@[j]).reached(head, direction)
                },
                Direction::Next => {
                    ||| matches@[i as int].reached(head, direction) && forall|j: int|
                        0 <= j < i ==> !(#[trigger] matches@[j]).reached(head, direction)
                    ||| i == matches@.len() - 1 && forall|j: int|
                        0 <= j < matches@.len() ==> !(#[trigger] matches@[j]).reached(head, direction)
                },
            },
        },
{
    if matches.len() == 0 {
        return None;
    }
    match selection_head {
        None => Some(matches.len() - 1),
        Some(head) => match direction {
            Direction::Prev => {
                let mut i: usize = matches.len();
                while i > 0
                    invariant
                        i <= matches@.len(),
                        direction == Direction::Prev,
                        selection_head == Some(head),
                        forall|j: int|
                            i <= j < matches@.len() ==> !(#[trigger] matches@[j]).reached(head, direction),
                    decreases i,
                {
                    if matches[i - 1].is_reached(head, direction) {
                        return Some(i - 1);
                    }
                    i -= 1;
                }
                Some(0)
            },
            Direction::Next => {
                let mut i: usize = 0;
                while i < matches.len()
                    invariant
                        i <= matches@.len(),
                        direction == Direction::Next,
                        selection_head == Some(head),
                        forall|j: int| 0 <= j < i ==> !(#[trigger] matches@[j]).reached(head, direction),
                    decreases matches@.len() - i,
                {
                    if matches[i].is_reached(head, direction) {
                        return Some(i);
                    }
                    i += 1;
                }
                Some(matches.len() - 1)
            },
        },
    }
}

/// What a search of the terminal can be asked for.
#[derive(Debug, Clone, Copy, PartialEq, Eq, Structural)]
pub struct SearchOptions {
    pub case: bool,
    pub word: bool,
    pub regex: bool,
    pub replacement: bool,
    pub selection: bool,
    pub select_all: bool,
    pub find_in_results: bool,
}

pub fn supported_options() -> (r: SearchOptions)
    ensures
        r == (SearchOptions {
            case: false,
            word: false,
            regex: true,
            replacement: false,
            selection: false,
            select_all: false,
            find_in_results: false,
        }),
{
    SearchOptions {
        case: false,
        word: false,
        regex: true,
        replacement: false,
        selection: false,
        select_all: false,
        find_in_results: false,
    }
}

/// What a literal pattern matches: its characters, a backslash before one making it literal. A character
/// that means something else without a backslash makes it no literal pattern.
pub open spec fn literal_match(pattern: Seq<char>) -> Option<Seq<char>>
    decreases pattern.len(),
{
    if pattern.len() == 0 {
        Some(Seq::empty())
    } else if pattern[0] == '\\' {
        if pattern.len() >= 2 && regex_meta(pattern[1]) {
            match literal_match(pattern.skip(2)) {
                Some(rest) => Some(seq![pattern[1]] + rest),
                None => None,
            }
        } else {
            None
        }
    } else if regex_meta(pattern[0]) {
        None
    } else {
        match literal_match(pattern.skip(1)) {
            Some(rest) => Some(seq![pattern[0]] + rest),
            None => None,
        }
    }
}

proof fn lemma_escaped_in_front(s: Seq<char>)
    requires
        s.len() > 0,
    ensures
        regex_escaped(s) == (if regex_meta(s[0]) {
            seq!['\\', s[0]]
        } else {
            seq![s[0]]
        }) + regex_escaped(s.skip(1)),
    decreases s.len(),
{
    let head = if regex_meta(s[0]) {
        seq!['\\', s[0]]
    } else {
        seq![s[0]]
    };
    if s.len() == 1 {
        assert(s.drop_last() =~= Seq::<char>::empty());
        assert(s.skip(1) =~= Seq::<char>::empty());
        assert(regex_escaped(s) =~= head + regex_escaped(s.skip(1)));
    } else {
        lemma_escaped_in_front(s.drop_last());
        assert(s.drop_last().skip(1) =~= s.skip(1).drop_last());
        assert(regex_escaped(s) =~= head + regex_escaped(s.skip(1)));
    }
}

/// A query that is no regular expression is searched for literally, whatever characters it holds.
pub proof fn lemma_query_searched_literally(query: Seq<char>)
    ensures
        pattern_of(query, false) matches Some(pattern) && literal_match(pattern) == Some(query),
    decreases query.len(),
{
    if query.len() == 0 {
        assert(query =~= Seq::<char>::empty());
    } else {
        let rest = query.skip(1);
        lemma_escaped_in_front(query);
        lemma_query_searched_literally(rest);
        let pattern = regex_escaped(query);
        if regex_meta(query[0]) {
            assert(pattern.skip(2) =~= regex_escaped(rest));
        } else {
            assert(pattern.skip(1) =~= regex_escaped(rest));
        }
        assert(seq![query[0]] + rest =~= query);
    }
}

/// A regular expression is searched for as it is, but for the one that matches every character.
pub proof fn lemma_regex_searched_as_is(query: Seq<char>)
    ensures
        pattern_of(query, true) == (if query.len() == 1 && query[0] == '.' {
            None
        } else {
            Some(query)
        }),
{
    reveal_strlit(".");
    assert("."@ =~= seq!['.']);
    if query.len() == 1 && query[0] == '.' {
        assert(query =~= "."@);
    }
}

/// A match is gone to where it holds the head or lies on the way: before it, or behind it.
pub proof fn lemma_match_reached(m: SearchMatch, head: GridPoint)
    requires
        !point_before(m.end, m.start),
    ensures
        m.reached(head, Direction::Next) <==> {
            ||| head.line < m.end.line
            ||| head.line == m.end.line && head.column <= m.end.column
        },
        m.reached(head, Direction::Prev) <==> {
            ||| m.start.line < head.line
            ||| m.start.line == head.line && m.start.column <= head.column
        },
{
}

} // verus!
