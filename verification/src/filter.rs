//! Pure admission predicates and parent-id normalization: which parsed
//! records enter the pipeline, and how a comment's parent reference is turned
//! into the bare post id it is matched against.

use vstd::prelude::*;

use crate::records::{RawComment, RawCommentModel, RawPost, RawPostModel};

verus! {

/// The type tag that prefixes a reference to a post.
pub open spec fn link_tag() -> Seq<char> {
    seq!['t', '3', '_']
}

/// The placeholder body of a record removed by a moderator.
pub open spec fn removed_marker() -> Seq<char> {
    "[removed]"@
}

/// The placeholder body of a comment deleted by its author.
pub open spec fn deleted_marker() -> Seq<char> {
    "[deleted]"@
}

/// The automated moderation account whose comments are never admitted.
pub open spec fn automoderator_name() -> Seq<char> {
    "AutoModerator"@
}

/// A parent reference with its leading type tag stripped; a reference that
/// does not carry the tag is already bare.
pub open spec fn strip_tag(s: Seq<char>) -> Seq<char> {
    if s.len() >= 3 && s.subrange(0, 3) == link_tag() {
        s.skip(3)
    } else {
        s
    }
}

/// The cutoff as an unbounded integer, if one is configured.
pub open spec fn cutoff_model(c: Option<i64>) -> Option<int> {
    match c {
        Some(t) => Some(t as int),
        None => None,
    }
}

/// Whether a record created at time `t` passes the cutoff: admitted only if
/// created strictly after it. No cutoff admits every time.
pub open spec fn after_cutoff(t: int, cutoff: Option<int>) -> bool {
    match cutoff {
        Some(c) => t > c,
        None => true,
    }
}

/// Post admission: a positive advisory comment count (a cheap pre-filter
/// before the true count is known), creation strictly after the cutoff, no
/// removal category, and a body that is not the removal placeholder.
pub open spec fn post_admitted(p: RawPostModel, cutoff: Option<int>) -> bool {
    &&& p.num_comments > 0
    &&& after_cutoff(p.created_utc, cutoff)
    &&& p.removed_by_category is None
    &&& p.selftext != removed_marker()
}

/// Comment admission: a body that is neither placeholder, an author other
/// than the automated moderator, and creation strictly after the cutoff.
pub open spec fn comment_admitted(c: RawCommentModel, cutoff: Option<int>) -> bool {
    &&& c.body != deleted_marker()
    &&& c.body != removed_marker()
    &&& c.author != automoderator_name()
    &&& after_cutoff(c.created_utc, cutoff)
}

/// Whether the string equals the literal, character for character.
pub fn string_eq_lit(s: &String, lit: &str) -> (r: bool)
    ensures
        r == (s@ == lit@),
{
    let other: String = lit.to_owned();
    *s == other
}

/// Strip the leading type tag from a parent reference, if it is there.
pub fn normalize_parent_id(s: &str) -> (r: String)
    ensures
        r@ == strip_tag(s@),
{
    let n: usize = s.unicode_len();
    if n >= 3 && s.get_char(0) == 't' && s.get_char(1) == '3' && s.get_char(2) == '_' {
        proof {
            assert(s@.subrange(0, 3) =~= link_tag());
        }
        let t = s.substring_char(3, n);
        proof {
            assert(t@ =~= strip_tag(s@));
        }
        t.to_owned()
    } else {
        proof {
            if s@.len() >= 3 && s@.subrange(0, 3) == link_tag() {
                assert(s@[0] == 't' && s@[1] == '3' && s@[2] == '_');
            }
        }
        s.to_owned()
    }
}

/// Decide post admission for one parsed record.
pub fn admit_post(p: &RawPost, cutoff: Option<i64>) -> (r: bool)
    ensures
        r == post_admitted(p@, cutoff_model(cutoff)),
{
    let time_ok = match cutoff {
        Some(c) => p.created_utc > c,
        None => true,
    };
    p.num_comments > 0 && time_ok && p.removed_by_category.is_none() && !string_eq_lit(
        &p.selftext,
        "[removed]",
    )
}

/// Decide comment admission for one parsed record.
pub fn admit_comment(c: &RawComment, cutoff: Option<i64>) -> (r: bool)
    ensures
        r == comment_admitted(c@, cutoff_model(cutoff)),
{
    let time_ok = match cutoff {
        Some(t) => c.created_utc > t,
        None => true,
    };
    !string_eq_lit(&c.body, "[deleted]") && !string_eq_lit(&c.body, "[removed]") && !string_eq_lit(
        &c.author,
        "AutoModerator",
    ) && time_ok
}

} // verus!
