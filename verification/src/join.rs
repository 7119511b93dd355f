//! The index of admitted posts and the many-to-one join that attaches each
//! admitted comment to its parent post. The join here is the sequential
//! application pass: each record's parse and admission is independent work,
//! and the attachment below touches one post per comment, in stream order,
//! so its outcome is a function of the streams and the configuration alone.

use vstd::prelude::*;

use crate::filter::{
    admit_comment, admit_post, comment_admitted, cutoff_model, normalize_parent_id, post_admitted,
    strip_tag,
};
use crate::records::{RawComment, RawCommentModel, RawPost, RawPostModel};

verus! {

/// A post record with its source identifier stripped to the bare id.
pub open spec fn norm_post(p: RawPostModel) -> RawPostModel {
    RawPostModel { id: strip_tag(p.id), ..p }
}

/// A comment with its parent reference normalized to the bare post id.
pub open spec fn norm_comment(c: RawCommentModel) -> RawCommentModel {
    RawCommentModel { parent_id: strip_tag(c.parent_id), ..c }
}

/// The index with `p` added: a post carrying the same id is overwritten in
/// place, otherwise `p` goes to the end.
pub open spec fn index_insert(s: Seq<RawPostModel>, p: RawPostModel) -> Seq<RawPostModel>
    decreases s.len(),
{
    if s.len() == 0 {
        seq![p]
    } else if s[0].id == p.id {
        seq![p] + s.skip(1)
    } else {
        seq![s[0]] + index_insert(s.skip(1), p)
    }
}

/// The index built from the post stream: the admitted posts, identifiers
/// stripped, in stream order, a later duplicate id silently overwriting the
/// earlier entry in place.
pub open spec fn index_model(posts: Seq<RawPostModel>, cutoff: Option<int>) -> Seq<RawPostModel>
    decreases posts.len(),
{
    if posts.len() == 0 {
        Seq::empty()
    } else {
        let prev = index_model(posts.drop_last(), cutoff);
        if post_admitted(posts.last(), cutoff) {
            index_insert(prev, norm_post(posts.last()))
        } else {
            prev
        }
    }
}

/// Whether some post of the index carries the bare id `key`.
pub open spec fn parent_in(index: Seq<RawPostModel>, key: Seq<char>) -> bool {
    exists|j: int| 0 <= j < index.len() && index[j].id == key
}

/// No two posts of the index carry the same id.
pub open spec fn unique_ids(s: Seq<RawPostModel>) -> bool {
    forall|j: int, k: int| 0 <= j < k < s.len() ==> s[j].id != s[k].id
}

proof fn lemma_index_insert_found(s: Seq<RawPostModel>, p: RawPostModel, j: int)
    requires
        0 <= j < s.len(),
        s[j].id == p.id,
        forall|k: int| 0 <= k < j ==> s[k].id != p.id,
    ensures
        index_insert(s, p) == s.update(j, p),
    decreases s.len(),
{
    if j == 0 {
        assert(index_insert(s, p) =~= s.update(0, p));
    } else {
        assert(forall|k: int| 0 <= k < j - 1 ==> s.skip(1)[k].id != p.id);
        lemma_index_insert_found(s.skip(1), p, j - 1);
        assert(seq![s[0]] + s.skip(1).update(j - 1, p) =~= s.update(j, p));
    }
}

proof fn lemma_index_insert_missing(s: Seq<RawPostModel>, p: RawPostModel)
    requires
        forall|k: int| 0 <= k < s.len() ==> s[k].id != p.id,
    ensures
        index_insert(s, p) == s.push(p),
    decreases s.len(),
{
    if s.len() == 0 {
        assert(index_insert(s, p) =~= s.push(p));
    } else {
        lemma_index_insert_missing(s.skip(1), p);
        assert(seq![s[0]] + s.skip(1).push(p) =~= s.push(p));
    }
}

proof fn lemma_index_insert_unique(s: Seq<RawPostModel>, p: RawPostModel)
    requires
        unique_ids(s),
    ensures
        unique_ids(index_insert(s, p)),
        forall|k: int|
            0 <= k < index_insert(s, p).len() ==> index_insert(s, p)[k].id == p.id || parent_in(
                s,
                index_insert(s, p)[k].id,
            ),
    decreases s.len(),
{
    let r = index_insert(s, p);
    if s.len() == 0 {
    } else if s[0].id == p.id {
        assert forall|k: int| 0 <= k < r.len() implies r[k].id == p.id || parent_in(
            s,
            r[k].id,
        ) by {
            if k > 0 {
                assert(r[k] == s[k]);
            }
        }
        assert forall|j: int, k: int| 0 <= j < k < r.len() implies r[j].id != r[k].id by {
            if j == 0 {
                assert(r[k] == s[k]);
                assert(s[0].id != s[k].id);
            } else {
                assert(r[j] == s[j] && r[k] == s[k]);
            }
        }
    } else {
        assert(forall|j: int, k: int|
            0 <= j < k < s.skip(1).len() ==> s.skip(1)[j].id != s.skip(1)[k].id);
        lemma_index_insert_unique(s.skip(1), p);
        let r1 = index_insert(s.skip(1), p);
        assert forall|k: int| 0 <= k < r.len() implies r[k].id == p.id || parent_in(
            s,
            r[k].id,
        ) by {
            if k == 0 {
                assert(r[0] == s[0]);
                assert(parent_in(s, s[0].id));
            } else {
                assert(r[k] == r1[k - 1]);
                if r1[k - 1].id == p.id {
                } else {
                    let j = choose|j: int|
                        0 <= j < s.skip(1).len() && s.skip(1)[j].id == r1[k - 1].id;
                    assert(s[j + 1].id == r1[k - 1].id);
                }
            }
        }
        assert forall|j: int, k: int| 0 <= j < k < r.len() implies r[j].id != r[k].id by {
            if j == 0 {
                assert(r[k] == r1[k - 1]);
                if r1[k - 1].id == p.id {
                    assert(s[0].id != p.id);
                } else {
                    let m = choose|m: int|
                        0 <= m < s.skip(1).len() && s.skip(1)[m].id == r1[k - 1].id;
                    assert(s[0].id != s[m + 1].id);
                }
            } else {
                assert(r[j] == r1[j - 1] && r[k] == r1[k - 1]);
            }
        }
    }
}

/// Every entry of the index with `p` added is `p` or one of the old
/// entries.
proof fn lemma_index_insert_elems(s: Seq<RawPostModel>, p: RawPostModel, k: int)
    requires
        0 <= k < index_insert(s, p).len(),
    ensures
        index_insert(s, p)[k] == p || exists|m: int|
            0 <= m < s.len() && s[m] == index_insert(s, p)[k],
    decreases s.len(),
{
    let r = index_insert(s, p);
    if s.len() == 0 {
    } else if s[0].id == p.id {
        if k > 0 {
            assert(r[k] == s[k]);
        }
    } else {
        if k == 0 {
            assert(r[0] == s[0]);
        } else {
            lemma_index_insert_elems(s.skip(1), p, k - 1);
            assert(r[k] == index_insert(s.skip(1), p)[k - 1]);
            if index_insert(s.skip(1), p)[k - 1] == p {
            } else {
                let m = choose|m: int|
                    0 <= m < s.skip(1).len() && s.skip(1)[m] == index_insert(s.skip(1), p)[k - 1];
                assert(s[m + 1] == r[k]);
            }
        }
    }
}

/// An index built from posts whose collections are all empty holds only
/// empty collections.
pub proof fn lemma_index_collections_empty(posts: Seq<RawPostModel>, cutoff: Option<int>)
    requires
        forall|k: int| 0 <= k < posts.len() ==> (#[trigger] posts[k]).comments.len() == 0,
    ensures
        forall|k: int|
            0 <= k < index_model(posts, cutoff).len() ==> (#[trigger] index_model(posts, cutoff)[k]).comments.len()
                == 0,
    decreases posts.len(),
{
    if posts.len() == 0 {
    } else {
        assert(forall|k: int|
            0 <= k < posts.drop_last().len() ==> (#[trigger] posts.drop_last()[k]).comments.len()
                == 0);
        lemma_index_collections_empty(posts.drop_last(), cutoff);
        if post_admitted(posts.last(), cutoff) {
            let prev = index_model(posts.drop_last(), cutoff);
            let q = norm_post(posts.last());
            assert(q.comments.len() == 0);
            assert forall|k: int|
                0 <= k < index_model(posts, cutoff).len() implies (#[trigger] index_model(
                posts,
                cutoff,
            )[k]).comments.len() == 0 by {
                lemma_index_insert_elems(prev, q, k);
                if index_insert(prev, q)[k] == q {
                } else {
                    let m = choose|m: int|
                        0 <= m < prev.len() && prev[m] == index_insert(prev, q)[k];
                }
            }
        }
    }
}

/// With no comment of the stream admitted, the join changes nothing.
pub proof fn lemma_join_nothing_admitted(
    index: Seq<RawPostModel>,
    comments: Seq<RawCommentModel>,
    cutoff: Option<int>,
)
    requires
        forall|i: int| 0 <= i < comments.len() ==> !comment_admitted(#[trigger] comments[i], cutoff),
    ensures
        join_model(index, comments, cutoff) == index,
    decreases comments.len(),
{
    if comments.len() == 0 {
    } else {
        assert(forall|i: int|
            0 <= i < comments.drop_last().len() ==> !comment_admitted(
                #[trigger] comments.drop_last()[i],
                cutoff,
            ));
        lemma_join_nothing_admitted(index, comments.drop_last(), cutoff);
        assert(!comment_admitted(comments[comments.len() - 1], cutoff));
    }
}

/// Law: the index never holds two posts with the same id — keys are unique
/// by construction, later duplicates having overwritten earlier ones.
pub proof fn lemma_index_unique_ids(posts: Seq<RawPostModel>, cutoff: Option<int>)
    ensures
        unique_ids(index_model(posts, cutoff)),
    decreases posts.len(),
{
    if posts.len() == 0 {
    } else {
        lemma_index_unique_ids(posts.drop_last(), cutoff);
        if post_admitted(posts.last(), cutoff) {
            lemma_index_insert_unique(
                index_model(posts.drop_last(), cutoff),
                norm_post(posts.last()),
            );
        }
    }
}

/// The post with one more comment at the end of its collection.
pub open spec fn post_plus_comment(p: RawPostModel, c: RawCommentModel) -> RawPostModel {
    RawPostModel { comments: p.comments.push(c), ..p }
}

/// The index after one comment (already normalized) is attached: the first
/// post carrying its parent id receives it; no such post, no change.
pub open spec fn attach_one(s: Seq<RawPostModel>, c: RawCommentModel) -> Seq<RawPostModel>
    decreases s.len(),
{
    if s.len() == 0 {
        s
    } else if s[0].id == c.parent_id {
        seq![post_plus_comment(s[0], c)] + s.skip(1)
    } else {
        seq![s[0]] + attach_one(s.skip(1), c)
    }
}

/// The index after the join: every admitted comment of the stream, parent
/// reference normalized, appended to the collection of the post carrying its
/// parent id, in stream order; a comment without such a post changes
/// nothing.
pub open spec fn join_model(
    index: Seq<RawPostModel>,
    comments: Seq<RawCommentModel>,
    cutoff: Option<int>,
) -> Seq<RawPostModel>
    decreases comments.len(),
{
    if comments.len() == 0 {
        index
    } else {
        let prev = join_model(index, comments.drop_last(), cutoff);
        if comment_admitted(comments.last(), cutoff) {
            attach_one(prev, norm_comment(comments.last()))
        } else {
            prev
        }
    }
}

/// How many admitted comments of the stream name a parent that the index
/// does not hold.
pub open spec fn orphan_model(
    index: Seq<RawPostModel>,
    comments: Seq<RawCommentModel>,
    cutoff: Option<int>,
) -> int
    decreases comments.len(),
{
    if comments.len() == 0 {
        0
    } else {
        orphan_model(index, comments.drop_last(), cutoff) + if comment_admitted(
            comments.last(),
            cutoff,
        ) && !parent_in(index, strip_tag(comments.last().parent_id)) {
            1int
        } else {
            0int
        }
    }
}

/// The comments of the stream that the post carrying the bare id `id`
/// receives: the admitted ones whose normalized parent reference equals
/// `id`, normalized, in stream order.
pub open spec fn matching_of(
    comments: Seq<RawCommentModel>,
    cutoff: Option<int>,
    id: Seq<char>,
) -> Seq<RawCommentModel>
    decreases comments.len(),
{
    if comments.len() == 0 {
        Seq::empty()
    } else {
        matching_of(comments.drop_last(), cutoff, id) + if comment_admitted(
            comments.last(),
            cutoff,
        ) && strip_tag(comments.last().parent_id) == id {
            seq![norm_comment(comments.last())]
        } else {
            Seq::empty()
        }
    }
}

/// What one attachment does to the post at position `k`: ids and length are
/// untouched everywhere; the first post carrying the comment's parent id
/// gains the comment at the end of its collection; a post not carrying it is
/// left as it stands.
proof fn lemma_attach_one_at(s: Seq<RawPostModel>, c: RawCommentModel, k: int)
    requires
        0 <= k < s.len(),
    ensures
        attach_one(s, c).len() == s.len(),
        forall|l: int| 0 <= l < s.len() ==> #[trigger] attach_one(s, c)[l].id == s[l].id,
        (s[k].id == c.parent_id && forall|l: int| 0 <= l < k ==> s[l].id != c.parent_id)
            ==> attach_one(s, c)[k] == post_plus_comment(s[k], c),
        s[k].id != c.parent_id ==> attach_one(s, c)[k] == s[k],
    decreases s.len(),
{
    let r = attach_one(s, c);
    if s[0].id == c.parent_id {
        assert forall|l: int| 0 <= l < s.len() implies #[trigger] r[l].id == s[l].id by {
            if l > 0 {
                assert(r[l] == s[l]);
            }
        }
        if k > 0 {
            assert(r[k] == s[k]);
        }
    } else {
        if s.len() > 1 {
            lemma_attach_one_at(s.skip(1), c, if k > 0 { k - 1 } else { 0 });
        }
        assert forall|l: int| 0 <= l < s.len() implies #[trigger] r[l].id == s[l].id by {
            if l > 0 {
                assert(r[l] == attach_one(s.skip(1), c)[l - 1]);
                assert(attach_one(s.skip(1), c)[l - 1].id == s.skip(1)[l - 1].id);
            }
        }
        if k > 0 {
            assert(r[k] == attach_one(s.skip(1), c)[k - 1]);
            if s[k].id == c.parent_id && (forall|l: int| 0 <= l < k ==> s[l].id != c.parent_id) {
                assert(forall|l: int|
                    0 <= l < k - 1 ==> s.skip(1)[l].id != c.parent_id);
                assert(s.skip(1)[k - 1].id == c.parent_id);
            }
        }
    }
}

/// The join leaves the index's length and every post's id as they were.
proof fn lemma_join_ids(
    index: Seq<RawPostModel>,
    comments: Seq<RawCommentModel>,
    cutoff: Option<int>,
)
    ensures
        join_model(index, comments, cutoff).len() == index.len(),
        forall|k: int|
            0 <= k < index.len() ==> #[trigger] join_model(index, comments, cutoff)[k].id
                == index[k].id,
    decreases comments.len(),
{
    if comments.len() == 0 {
    } else {
        lemma_join_ids(index, comments.drop_last(), cutoff);
        let prev = join_model(index, comments.drop_last(), cutoff);
        if comment_admitted(comments.last(), cutoff) && prev.len() > 0 {
            lemma_attach_one_at(prev, norm_comment(comments.last()), 0);
        }
    }
}

/// Two indexes of the same ids hold the same parents.
proof fn lemma_parent_in_same_ids(s1: Seq<RawPostModel>, s2: Seq<RawPostModel>, key: Seq<char>)
    requires
        s1.len() == s2.len(),
        forall|k: int| 0 <= k < s1.len() ==> #[trigger] s1[k].id == s2[k].id,
    ensures
        parent_in(s1, key) == parent_in(s2, key),
{
    if parent_in(s1, key) {
        let j = choose|j: int| 0 <= j < s1.len() && s1[j].id == key;
        assert(s2[j].id == key);
    }
    if parent_in(s2, key) {
        let j = choose|j: int| 0 <= j < s2.len() && s2[j].id == key;
        assert(s1[j].id == key);
    }
}

/// Find the position of the post carrying the given bare id, if the index
/// holds one.
fn find_by_id(index: &Vec<RawPost>, id: &String) -> (r: Option<usize>)
    ensures
        match r {
            Some(j) => 0 <= j < index@.len() && index.deep_view()[j as int].id == id@ && forall|
                k: int,
            | 0 <= k < j ==> index.deep_view()[k].id != id@,
            None => forall|k: int| 0 <= k < index@.len() ==> index.deep_view()[k].id != id@,
        },
{
    let mut j: usize = 0;
    while j < index.len()
        invariant
            j <= index@.len(),
            forall|k: int| 0 <= k < j ==> index.deep_view()[k].id != id@,
        decreases index@.len() - j,
    {
        let p = &index[j];
        if p.id == *id {
            return Some(j);
        }
        j += 1;
    }
    None
}

/// Add one admitted post to the index, overwriting the post carrying the
/// same id if there is one.
fn index_insert_exec(index: &mut Vec<RawPost>, p: RawPost)
    ensures
        final(index).deep_view() == index_insert(old(index).deep_view(), p@),
{
    let ghost s0 = index.deep_view();
    let found = find_by_id(index, &p.id);
    match found {
        Some(j) => {
            let ghost pm = p@;
            let _ = index.remove(j);
            index.insert(j, p);
            proof {
                lemma_index_insert_found(s0, pm, j as int);
                assert(index.deep_view() =~= s0.update(j as int, pm));
            }
        },
        None => {
            let ghost pm = p@;
            index.push(p);
            proof {
                lemma_index_insert_missing(s0, pm);
                assert(index.deep_view() =~= s0.push(pm));
            }
        },
    }
}

/// One admitted post, its source identifier stripped to the bare id.
fn normalize_post(p: &RawPost) -> (r: RawPost)
    ensures
        r@ == norm_post(p@),
{
    let mut q = p.duplicate();
    q.id = normalize_parent_id(&p.id);
    q
}

proof fn lemma_attach_one_found(s: Seq<RawPostModel>, c: RawCommentModel, j: int)
    requires
        0 <= j < s.len(),
        s[j].id == c.parent_id,
        forall|l: int| 0 <= l < j ==> s[l].id != c.parent_id,
    ensures
        attach_one(s, c) == s.update(j, post_plus_comment(s[j], c)),
    decreases s.len(),
{
    if j == 0 {
        assert(attach_one(s, c) =~= s.update(0, post_plus_comment(s[0], c)));
    } else {
        assert(forall|l: int| 0 <= l < j - 1 ==> s.skip(1)[l].id != c.parent_id);
        lemma_attach_one_found(s.skip(1), c, j - 1);
        assert(seq![s[0]] + s.skip(1).update(j - 1, post_plus_comment(s[j], c)) =~= s.update(
            j,
            post_plus_comment(s[j], c),
        ));
    }
}

proof fn lemma_attach_one_missing(s: Seq<RawPostModel>, c: RawCommentModel)
    requires
        forall|l: int| 0 <= l < s.len() ==> s[l].id != c.parent_id,
    ensures
        attach_one(s, c) == s,
    decreases s.len(),
{
    if s.len() == 0 {
    } else {
        lemma_attach_one_missing(s.skip(1), c);
        assert(seq![s[0]] + s.skip(1) =~= s);
    }
}

/// Attach one admitted, normalized comment to the post carrying its parent
/// id, if the index holds one; say whether it did.
fn attach_one_exec(index: &mut Vec<RawPost>, c: RawComment) -> (attached: bool)
    ensures
        final(index).deep_view() == attach_one(old(index).deep_view(), c@),
        attached == parent_in(old(index).deep_view(), c@.parent_id),
{
    let ghost s0 = index.deep_view();
    let ghost cm = c@;
    let found = find_by_id(index, &c.parent_id);
    match found {
        Some(j) => {
            let mut p = index.remove(j);
            let ghost pm0 = p@;
            p.comments.push(c);
            proof {
                assert(p@.comments =~= pm0.comments.push(cm));
                assert(p@ == post_plus_comment(s0[j as int], cm));
            }
            let ghost pm = p@;
            index.insert(j, p);
            proof {
                lemma_attach_one_found(s0, cm, j as int);
                assert(index.deep_view() =~= s0.update(j as int, pm));
                assert(parent_in(s0, cm.parent_id));
            }
            true
        },
        None => {
            proof {
                lemma_attach_one_missing(s0, cm);
                assert(index.deep_view() =~= s0);
                if parent_in(s0, cm.parent_id) {
                    let j = choose|j: int| 0 <= j < s0.len() && s0[j].id == cm.parent_id;
                    assert(false);
                }
            }
            false
        },
    }
}

/// Merge the comment stream into the index: every comment admitted by the
/// comment filter is normalized and appended to the collection of the post
/// carrying its parent id, in stream order. A comment whose parent the index
/// does not hold is counted and silently dropped — its parent post may have
/// been excluded upstream, which is no error. Returns that orphan count.
pub fn attach_comments(index: Vec<RawPost>, comments: &Vec<RawComment>, cutoff: Option<i64>) -> (r: (
    Vec<RawPost>,
    usize,
))
    ensures
        r.0.deep_view() == join_model(
            index.deep_view(),
            comments.deep_view(),
            cutoff_model(cutoff),
        ),
        r.1 == orphan_model(index.deep_view(), comments.deep_view(), cutoff_model(cutoff)),
{
    let ghost s0 = index.deep_view();
    let ghost cm = cutoff_model(cutoff);
    let mut joined = index;
    let mut orphans: usize = 0;
    let mut i: usize = 0;
    while i < comments.len()
        invariant
            i <= comments@.len(),
            orphans <= i,
            cm == cutoff_model(cutoff),
            joined.deep_view() == join_model(s0, comments.deep_view().take(i as int), cm),
            orphans == orphan_model(s0, comments.deep_view().take(i as int), cm),
        decreases comments@.len() - i,
    {
        let c = &comments[i];
        let ghost pre = joined.deep_view();
        if admit_comment(c, cutoff) {
            let key = normalize_parent_id(&c.parent_id);
            let nc = RawComment {
                parent_id: key,
                body: c.body.clone(),
                author: c.author.clone(),
                created_utc: c.created_utc,
                score: c.score,
            };
            proof {
                assert(nc@ == norm_comment(c@));
            }
            let attached = attach_one_exec(&mut joined, nc);
            proof {
                lemma_join_ids(s0, comments.deep_view().take(i as int), cm);
                lemma_parent_in_same_ids(pre, s0, norm_comment(c@).parent_id);
                assert(attached == parent_in(s0, strip_tag(c@.parent_id)));
            }
            if !attached {
                orphans += 1;
            }
        }
        proof {
            let dv = comments.deep_view();
            assert(dv.take(i + 1).drop_last() =~= dv.take(i as int));
            assert(dv.take(i + 1).last() == c@);
        }
        i += 1;
    }
    proof {
        assert(comments.deep_view().take(comments@.len() as int) =~= comments.deep_view());
    }
    (joined, orphans)
}

/// Law: after the join, the collection of the post at position `k` of an
/// index with unique ids is exactly its collection before the join followed
/// by the admitted comments of the stream whose normalized parent reference
/// equals that post's id, normalized, in stream order — so every such
/// comment is attached to exactly that post, exactly once, and a post
/// receives nothing else.
pub proof fn lemma_join_attaches_exactly(
    index: Seq<RawPostModel>,
    comments: Seq<RawCommentModel>,
    cutoff: Option<int>,
    k: int,
)
    requires
        unique_ids(index),
        0 <= k < index.len(),
    ensures
        join_model(index, comments, cutoff).len() == index.len(),
        join_model(index, comments, cutoff)[k].id == index[k].id,
        join_model(index, comments, cutoff)[k].comments == index[k].comments + matching_of(
            comments,
            cutoff,
            index[k].id,
        ),
    decreases comments.len(),
{
    lemma_join_ids(index, comments, cutoff);
    if comments.len() == 0 {
        assert(index[k].comments + matching_of(comments, cutoff, index[k].id) =~= index[k].comments);
    } else {
        lemma_join_attaches_exactly(index, comments.drop_last(), cutoff, k);
        lemma_join_ids(index, comments.drop_last(), cutoff);
        let prev = join_model(index, comments.drop_last(), cutoff);
        let c = comments.last();
        let nc = norm_comment(c);
        let matched = matching_of(comments, cutoff, index[k].id);
        let matched_prev = matching_of(comments.drop_last(), cutoff, index[k].id);
        if comment_admitted(c, cutoff) {
            lemma_attach_one_at(prev, nc, k);
            if strip_tag(c.parent_id) == index[k].id {
                assert(prev[k].id == nc.parent_id);
                assert forall|l: int| 0 <= l < k implies prev[l].id != nc.parent_id by {
                    assert(prev[l].id == index[l].id);
                    assert(index[l].id != index[k].id);
                }
                assert(attach_one(prev, nc)[k] == post_plus_comment(prev[k], nc));
                assert(matched =~= matched_prev.push(nc));
                assert((index[k].comments + matched_prev).push(nc) =~= index[k].comments
                    + matched_prev.push(nc));
            } else {
                assert(prev[k].id != nc.parent_id);
                assert(attach_one(prev, nc)[k] == prev[k]);
                assert(matched =~= matched_prev);
            }
        } else {
            assert(matched =~= matched_prev);
        }
    }
}

/// Every comment of `matching_of` carries exactly the id it was selected
/// for.
pub proof fn lemma_matching_only_matching(
    comments: Seq<RawCommentModel>,
    cutoff: Option<int>,
    id: Seq<char>,
)
    ensures
        forall|m: int|
            0 <= m < matching_of(comments, cutoff, id).len() ==> #[trigger] matching_of(
                comments,
                cutoff,
                id,
            )[m].parent_id == id,
    decreases comments.len(),
{
    if comments.len() == 0 {
    } else {
        lemma_matching_only_matching(comments.drop_last(), cutoff, id);
        let all = matching_of(comments, cutoff, id);
        let prev = matching_of(comments.drop_last(), cutoff, id);
        assert forall|m: int| 0 <= m < all.len() implies #[trigger] all[m].parent_id == id by {
            if m < prev.len() {
                assert(all[m] == prev[m]);
            } else {
                assert(all[m] == norm_comment(comments.last()));
            }
        }
    }
}

/// Law: a comment whose normalized parent reference no post of the index
/// carries is attached nowhere — after the join, no post whose collection
/// began empty holds any comment with that parent id; the comment is
/// absorbed, not an error.
pub proof fn lemma_orphan_absent(
    index: Seq<RawPostModel>,
    comments: Seq<RawCommentModel>,
    cutoff: Option<int>,
    k: int,
    i: int,
)
    requires
        unique_ids(index),
        0 <= k < index.len(),
        0 <= i < comments.len(),
        !parent_in(index, strip_tag(comments[i].parent_id)),
        index[k].comments.len() == 0,
    ensures
        forall|m: int|
            0 <= m < join_model(index, comments, cutoff)[k].comments.len()
                ==> #[trigger] join_model(index, comments, cutoff)[k].comments[m].parent_id
                != strip_tag(comments[i].parent_id),
{
    lemma_join_attaches_exactly(index, comments, cutoff, k);
    lemma_matching_only_matching(comments, cutoff, index[k].id);
    let joined = join_model(index, comments, cutoff);
    let matched = matching_of(comments, cutoff, index[k].id);
    assert(index[k].id != strip_tag(comments[i].parent_id));
    assert forall|m: int| 0 <= m < joined[k].comments.len() implies #[trigger] joined[k].comments[m].parent_id
        != strip_tag(comments[i].parent_id) by {
        assert(joined[k].comments[m] == (index[k].comments + matched)[m]);
        assert(joined[k].comments[m] == matched[m - index[k].comments.len()]);
    }
}

/// Build the index from the post stream: every record admitted by the post
/// filter enters it under its bare id, in stream order, a later record with
/// the same id silently overwriting the earlier one. Each record's admission
/// is decided independently; only this collection step brings them together.
pub fn build_index(posts: &Vec<RawPost>, cutoff: Option<i64>) -> (r: Vec<RawPost>)
    ensures
        r.deep_view() == index_model(posts.deep_view(), cutoff_model(cutoff)),
{
    let mut index: Vec<RawPost> = Vec::new();
    let mut i: usize = 0;
    while i < posts.len()
        invariant
            i <= posts@.len(),
            index.deep_view() == index_model(
                posts.deep_view().take(i as int),
                cutoff_model(cutoff),
            ),
        decreases posts@.len() - i,
    {
        let p = &posts[i];
        if admit_post(p, cutoff) {
            let q = normalize_post(p);
            index_insert_exec(&mut index, q);
        }
        proof {
            let dv = posts.deep_view();
            assert(dv.take(i + 1).drop_last() =~= dv.take(i as int));
            assert(dv.take(i + 1).last() == p@);
        }
        i += 1;
    }
    proof {
        assert(posts.deep_view().take(posts@.len() as int) =~= posts.deep_view());
    }
    index
}

} // verus!
