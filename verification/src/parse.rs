//! Parsing of one line-delimited record into a typed post or comment. An
//! outside crate reads the line as a JSON document and hands over the plain
//! value under a key; what is handed over is given a name, and the schema —
//! which fields a record must carry, and the defaults of the optional ones
//! — is stated and verified over those names.

use vstd::prelude::*;

use crate::records::{RawComment, RawCommentModel, RawPost, RawPostModel};

verus! {

/// The text under `key` of the JSON object on the line; absent when the
/// line is not a JSON object, the key is missing, or the value under it is
/// not a string. What the decoding does in detail is the outside crate's
/// business; the schema only needs that it is a function of the line and
/// the key alone.
pub uninterp spec fn string_field_of(line: Seq<char>, key: Seq<char>) -> Option<Seq<char>>;

/// The integer under `key` of the JSON object on the line, when it fits in
/// a signed 64-bit word; absent otherwise, or when the line is not a JSON
/// object, the key is missing, or the value under it is not such an
/// integer. A function of the line and the key alone.
pub uninterp spec fn int_field_of(line: Seq<char>, key: Seq<char>) -> Option<int>;

/// An optional string, read at the model level.
pub open spec fn opt_text(o: Option<String>) -> Option<Seq<char>> {
    match o {
        Some(s) => Some(s@),
        None => None,
    }
}

/// An optional machine integer, read at the model level.
pub open spec fn opt_num(o: Option<i64>) -> Option<int> {
    match o {
        Some(n) => Some(n as int),
        None => None,
    }
}

/// Relies on serde_json::from_str::<Value>, Value::get and Value::as_str:
/// the string under `key` of the JSON object on the line, owned; nothing
/// when the line does not parse, the key is absent, or the value is not a
/// string. Each of the three calls returns a function of its arguments
/// alone, so the composite bears the name `string_field_of`.
#[verifier::external_body]
fn get_string_field(line: &str, key: &str) -> (r: Option<String>)
    ensures
        opt_text(r) == string_field_of(line@, key@),
{
    serde_json::from_str::<serde_json::Value>(line).ok().and_then(
        |v| v.get(key).and_then(|f| f.as_str()).map(|s| s.to_owned()),
    )
}

/// Relies on serde_json::from_str::<Value>, Value::get and Value::as_i64:
/// the integer under `key` of the JSON object on the line; nothing when the
/// line does not parse, the key is absent, or the value is not an integer
/// representable in 64 signed bits. Each of the three calls returns a
/// function of its arguments alone, so the composite bears the name
/// `int_field_of`.
#[verifier::external_body]
fn get_i64_field(line: &str, key: &str) -> (r: Option<i64>)
    ensures
        opt_num(r) == int_field_of(line@, key@),
{
    serde_json::from_str::<serde_json::Value>(line).ok().and_then(
        |v| v.get(key).and_then(|f| f.as_i64()),
    )
}

/// The post record on the line, per the schema: title, author, identifier,
/// advisory comment count, body text and creation time are required — a
/// line missing any of them, or not a JSON object, is malformed and yields
/// nothing. The rendered body defaults to the empty string when absent or
/// null, the removal category to absent; the attached collection starts
/// empty, and the identifier is kept as it stands — the index build strips
/// its type tag.
pub open spec fn post_rec_of(line: Seq<char>) -> Option<RawPostModel> {
    match (
        string_field_of(line, "title"@),
        string_field_of(line, "author"@),
        string_field_of(line, "id"@),
        int_field_of(line, "num_comments"@),
        string_field_of(line, "selftext"@),
        int_field_of(line, "created_utc"@),
    ) {
        (
            Some(title),
            Some(author),
            Some(id),
            Some(num_comments),
            Some(selftext),
            Some(created_utc),
        ) => Some(
            RawPostModel {
                id,
                title,
                author,
                selftext,
                selftext_html: match string_field_of(line, "selftext_html"@) {
                    Some(s) => s,
                    None => Seq::empty(),
                },
                num_comments,
                created_utc,
                removed_by_category: string_field_of(line, "removed_by_category"@),
                comments: Seq::empty(),
            },
        ),
        _ => None,
    }
}

/// The comment record on the line, per the schema: parent reference, body,
/// author, creation time and score are all required — a line missing any of
/// them, or not a JSON object, is malformed and yields nothing. The parent
/// reference is kept as it stands — the join normalizes it before lookup.
pub open spec fn comment_rec_of(line: Seq<char>) -> Option<RawCommentModel> {
    match (
        string_field_of(line, "parent_id"@),
        string_field_of(line, "body"@),
        string_field_of(line, "author"@),
        int_field_of(line, "created_utc"@),
        int_field_of(line, "score"@),
    ) {
        (Some(parent_id), Some(body), Some(author), Some(created_utc), Some(score)) => Some(
            RawCommentModel { parent_id, body, author, created_utc, score },
        ),
        _ => None,
    }
}

/// Parse one line of the posts file: exactly the record `post_rec_of` gives
/// for it, or nothing exactly when that is absent.
pub fn parse_post(line: &str) -> (r: Option<RawPost>)
    ensures
        match r {
            Some(p) => post_rec_of(line@) == Some(p@),
            None => post_rec_of(line@) is None,
        },
{
    let title = match get_string_field(line, "title") {
        Some(s) => s,
        None => { return None; },
    };
    let author = match get_string_field(line, "author") {
        Some(s) => s,
        None => { return None; },
    };
    let id = match get_string_field(line, "id") {
        Some(s) => s,
        None => { return None; },
    };
    let num_comments = match get_i64_field(line, "num_comments") {
        Some(n) => n,
        None => { return None; },
    };
    let selftext = match get_string_field(line, "selftext") {
        Some(s) => s,
        None => { return None; },
    };
    let created_utc = match get_i64_field(line, "created_utc") {
        Some(n) => n,
        None => { return None; },
    };
    let selftext_html = match get_string_field(line, "selftext_html") {
        Some(s) => s,
        None => String::new(),
    };
    let removed_by_category = get_string_field(line, "removed_by_category");
    let p = RawPost {
        id,
        title,
        author,
        selftext,
        selftext_html,
        num_comments,
        created_utc,
        removed_by_category,
        comments: Vec::new(),
    };
    proof {
        assert(p.comments.deep_view() =~= Seq::<RawCommentModel>::empty());
        assert(post_rec_of(line@) == Some(p@));
    }
    Some(p)
}

/// Parse one line of the comments file: exactly the record `comment_rec_of`
/// gives for it, or nothing exactly when that is absent.
pub fn parse_comment(line: &str) -> (r: Option<RawComment>)
    ensures
        match r {
            Some(c) => comment_rec_of(line@) == Some(c@),
            None => comment_rec_of(line@) is None,
        },
{
    let parent_id = match get_string_field(line, "parent_id") {
        Some(s) => s,
        None => { return None; },
    };
    let body = match get_string_field(line, "body") {
        Some(s) => s,
        None => { return None; },
    };
    let author = match get_string_field(line, "author") {
        Some(s) => s,
        None => { return None; },
    };
    let created_utc = match get_i64_field(line, "created_utc") {
        Some(n) => n,
        None => { return None; },
    };
    let score = match get_i64_field(line, "score") {
        Some(n) => n,
        None => { return None; },
    };
    Some(RawComment { parent_id, body, author, created_utc, score })
}

} // verus!
