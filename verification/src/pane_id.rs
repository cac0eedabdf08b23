//! Pane ids: the UUIDs that name the long-lived process behind a pane.

use vstd::prelude::*;
use crate::text::opt_text;

verus! {

/// The canonical text of the UUID that `s` is some notation of.
pub uninterp spec fn canonical_uuid(s: Seq<char>) -> Option<Seq<char>>;

/// A character of a canonical UUID.
pub open spec fn uuid_char(c: char) -> bool {
    '0' <= c <= '9' || 'a' <= c <= 'f' || c == '-'
}

/// A pane id: a text that is the canonical text of a UUID.
pub open spec fn is_pane_id(s: Seq<char>) -> bool {
    &&& canonical_uuid(s) == Some(s)
    &&& s.len() == 36
    &&& forall|i: int| 0 <= i < s.len() ==> uuid_char(#[trigger] s[i])
}

/// `uuid::Uuid::parse_str`, and the result's `to_string`.
///
/// Claimed: whether the text is accepted, and the canonical text that comes out, depend on the
/// text alone. What comes out is 36 characters long, holds lower-case hexadecimal digits and
/// hyphens only, and is accepted again with itself as the result.
#[verifier::external_body]
pub(crate) fn parse_uuid(s: &str) -> (r: Option<String>)
    ensures
        opt_text(r) == canonical_uuid(s@),
        r matches Some(id) ==> is_pane_id(id@),
{
    uuid::Uuid::parse_str(s).ok().map(|id| id.to_string())
}

/// `uuid::Uuid::new_v4`, and the result's `to_string`.
///
/// Claimed: the text is the canonical text of a UUID. Which one is left to chance. On a machine that
/// gives out no random bytes the call does not return.
#[verifier::external_body]
pub(crate) fn random_uuid() -> (r: String)
    ensures
        is_pane_id(r@),
{
    uuid::Uuid::new_v4().to_string()
}

/// A fresh pane id.
pub fn fresh_pane_id() -> (r: String)
    ensures
        is_pane_id(r@),
{
    random_uuid()
}

/// A pane id holds no punctuation but hyphens.
pub proof fn lemma_pane_id_plain(s: Seq<char>, c: char)
    requires
        is_pane_id(s),
        !uuid_char(c),
    ensures
        !s.contains(c),
{
}

} // verus!
