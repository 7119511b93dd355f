//! The pass after the join: recompute each post's authoritative comment
//! count, decode the escaped text, order each post's comments by descending
//! score, drop the posts that kept no comment, and order the survivors by
//! descending creation time. Every order below is imposed by an explicit
//! sort key, never taken from the order records happened to arrive in.

use vstd::prelude::*;

use crate::records::{Comment, CommentModel, Post, PostModel, RawCommentModel, RawPost, RawPostModel};
use crate::unescape::{decode_entities, decoded_of};

verus! {

/// One attached comment made ready for display: body decoded, author and
/// score kept as they stand.
pub open spec fn finalize_comment(c: RawCommentModel) -> CommentModel {
    CommentModel { body: decoded_of(c.body), author: c.author, score: c.score }
}

/// A post's attached comments, each made ready for display, order kept.
pub open spec fn finalize_comments(s: Seq<RawCommentModel>) -> Seq<CommentModel> {
    s.map_values(|c: RawCommentModel| finalize_comment(c))
}

/// The comment ranked into an already ordered sequence: before the first
/// entry of strictly lower score, after every entry of equal or higher
/// score, so that equal scores keep their earlier relative order.
pub open spec fn insert_by_score(s: Seq<CommentModel>, c: CommentModel) -> Seq<CommentModel>
    decreases s.len(),
{
    if s.len() == 0 {
        seq![c]
    } else if c.score > s[0].score {
        seq![c] + s
    } else {
        seq![s[0]] + insert_by_score(s.skip(1), c)
    }
}

/// The comments ordered by descending score, stable: equal scores keep
/// their relative order.
pub open spec fn sort_by_score(s: Seq<CommentModel>) -> Seq<CommentModel>
    decreases s.len(),
{
    if s.len() == 0 {
        s
    } else {
        insert_by_score(sort_by_score(s.drop_last()), s.last())
    }
}

/// Descending score order.
pub open spec fn sorted_by_score_desc(s: Seq<CommentModel>) -> bool {
    forall|a: int, b: int| 0 <= a < b < s.len() ==> s[a].score >= s[b].score
}

proof fn lemma_insert_by_score_len(s: Seq<CommentModel>, c: CommentModel)
    ensures
        insert_by_score(s, c).len() == s.len() + 1,
    decreases s.len(),
{
    if s.len() == 0 {
    } else if c.score > s[0].score {
    } else {
        lemma_insert_by_score_len(s.skip(1), c);
    }
}

/// Ordering a sequence does not change its length.
pub proof fn lemma_sort_by_score_len(s: Seq<CommentModel>)
    ensures
        sort_by_score(s).len() == s.len(),
    decreases s.len(),
{
    if s.len() == 0 {
    } else {
        lemma_sort_by_score_len(s.drop_last());
        lemma_insert_by_score_len(sort_by_score(s.drop_last()), s.last());
    }
}

proof fn lemma_insert_by_score_sorted(s: Seq<CommentModel>, c: CommentModel)
    requires
        sorted_by_score_desc(s),
    ensures
        sorted_by_score_desc(insert_by_score(s, c)),
    decreases s.len(),
{
    lemma_insert_by_score_len(s, c);
    let r = insert_by_score(s, c);
    if s.len() == 0 {
    } else if c.score > s[0].score {
        assert forall|a: int, b: int| 0 <= a < b < r.len() implies r[a].score >= r[b].score by {
            if a > 0 {
                assert(r[a] == s[a - 1] && r[b] == s[b - 1]);
            } else {
                assert(r[b] == s[b - 1]);
                if b > 1 {
                    assert(s[0].score >= s[b - 1].score);
                }
            }
        }
    } else {
        assert(sorted_by_score_desc(s.skip(1)));
        lemma_insert_by_score_sorted(s.skip(1), c);
        lemma_insert_by_score_len(s.skip(1), c);
        let r1 = insert_by_score(s.skip(1), c);
        assert forall|a: int, b: int| 0 <= a < b < r.len() implies r[a].score >= r[b].score by {
            if a > 0 {
                assert(r[a] == r1[a - 1] && r[b] == r1[b - 1]);
            } else {
                assert(r[b] == r1[b - 1]);
                // every entry of r1 is either c (not above s[0]) or an entry of s
                lemma_insert_by_score_elems(s.skip(1), c, b - 1);
            }
        }
    }
}

/// Every entry of the inserted sequence is the new comment or one of the
/// old entries.
proof fn lemma_insert_by_score_elems(s: Seq<CommentModel>, c: CommentModel, k: int)
    requires
        0 <= k < insert_by_score(s, c).len(),
    ensures
        insert_by_score(s, c)[k] == c || exists|m: int|
            0 <= m < s.len() && s[m] == insert_by_score(s, c)[k],
    decreases s.len(),
{
    lemma_insert_by_score_len(s, c);
    let r = insert_by_score(s, c);
    if s.len() == 0 {
    } else if c.score > s[0].score {
        if k > 0 {
            assert(r[k] == s[k - 1]);
        }
    } else {
        if k == 0 {
            assert(r[0] == s[0]);
        } else {
            lemma_insert_by_score_elems(s.skip(1), c, k - 1);
            assert(r[k] == insert_by_score(s.skip(1), c)[k - 1]);
            if insert_by_score(s.skip(1), c)[k - 1] == c {
            } else {
                let m = choose|m: int|
                    0 <= m < s.skip(1).len() && s.skip(1)[m] == insert_by_score(s.skip(1), c)[k
                        - 1];
                assert(s[m + 1] == r[k]);
            }
        }
    }
}

/// Law: the comments of a post, once ordered, stand in descending score
/// order.
pub proof fn lemma_sort_by_score_sorted(s: Seq<CommentModel>)
    ensures
        sorted_by_score_desc(sort_by_score(s)),
    decreases s.len(),
{
    if s.len() == 0 {
    } else {
        lemma_sort_by_score_sorted(s.drop_last());
        lemma_insert_by_score_sorted(sort_by_score(s.drop_last()), s.last());
    }
}

/// Law: ordering the comments neither adds, drops nor changes one — the
/// ordered sequence holds exactly the same comments, as often as before.
pub proof fn lemma_sort_by_score_permutes(s: Seq<CommentModel>)
    ensures
        sort_by_score(s).to_multiset() == s.to_multiset(),
    decreases s.len(),
{
    if s.len() == 0 {
    } else {
        lemma_sort_by_score_permutes(s.drop_last());
        lemma_insert_by_score_multiset(sort_by_score(s.drop_last()), s.last());
        s.drop_last().to_multiset_ensures();
        assert(s.drop_last().push(s.last()) =~= s);
    }
}

proof fn lemma_insert_by_score_multiset(s: Seq<CommentModel>, c: CommentModel)
    ensures
        insert_by_score(s, c).to_multiset() == s.to_multiset().insert(c),
    decreases s.len(),
{
    if s.len() == 0 {
        s.to_multiset_ensures();
        insert_by_score(s, c).to_multiset_ensures();
        assert(insert_by_score(s, c) =~= s.push(c));
    } else if c.score > s[0].score {
        s.to_multiset_ensures();
        vstd::seq_lib::lemma_multiset_commutative(seq![c], s);
        vstd::seq_lib::lemma_multiset_commutative(seq![c].push(s[0]), s.skip(1));
        assert(seq![c] + s =~= (seq![c].push(s[0])) + s.skip(1));
        assert(seq![c].push(s[0]) =~= seq![c, s[0]]);
        vstd::seq_lib::lemma_multiset_commutative(seq![s[0]], s.skip(1));
        assert(seq![s[0]] + s.skip(1) =~= s);
        seq![c].to_multiset_ensures();
        seq![s[0]].to_multiset_ensures();
        seq![c, s[0]].to_multiset_ensures();
        assert(seq![c, s[0]] =~= seq![c].push(s[0]));
        assert(seq![c] =~= Seq::<CommentModel>::empty().push(c));
        assert(seq![s[0]] =~= Seq::<CommentModel>::empty().push(s[0]));
        Seq::<CommentModel>::empty().to_multiset_ensures();
    } else {
        lemma_insert_by_score_multiset(s.skip(1), c);
        vstd::seq_lib::lemma_multiset_commutative(seq![s[0]], insert_by_score(s.skip(1), c));
        vstd::seq_lib::lemma_multiset_commutative(seq![s[0]], s.skip(1));
        assert(seq![s[0]] + s.skip(1) =~= s);
        assert(seq![s[0]] + insert_by_score(s.skip(1), c) == insert_by_score(s, c));
    }
}

/// The comments of the sequence that carry exactly the score `v`, in their
/// order.
pub open spec fn with_score(s: Seq<CommentModel>, v: int) -> Seq<CommentModel>
    decreases s.len(),
{
    if s.len() == 0 {
        Seq::empty()
    } else if s.last().score == v {
        with_score(s.drop_last(), v).push(s.last())
    } else {
        with_score(s.drop_last(), v)
    }
}

proof fn lemma_with_score_add(a: Seq<CommentModel>, b: Seq<CommentModel>, v: int)
    ensures
        with_score(a + b, v) == with_score(a, v) + with_score(b, v),
    decreases b.len(),
{
    if b.len() == 0 {
        assert(a + b =~= a);
        assert(with_score(a, v) + with_score(b, v) =~= with_score(a, v));
    } else {
        assert((a + b).drop_last() =~= a + b.drop_last());
        assert((a + b).last() == b.last());
        lemma_with_score_add(a, b.drop_last(), v);
        if b.last().score == v {
            assert((with_score(a, v) + with_score(b.drop_last(), v)).push(b.last())
                =~= with_score(a, v) + with_score(b.drop_last(), v).push(b.last()));
        }
    }
}

proof fn lemma_with_score_none(s: Seq<CommentModel>, v: int)
    requires
        forall|k: int| 0 <= k < s.len() ==> s[k].score != v,
    ensures
        with_score(s, v) == Seq::<CommentModel>::empty(),
    decreases s.len(),
{
    if s.len() == 0 {
    } else {
        lemma_with_score_none(s.drop_last(), v);
    }
}

proof fn lemma_insert_by_score_stable(s: Seq<CommentModel>, c: CommentModel, v: int)
    requires
        sorted_by_score_desc(s),
    ensures
        with_score(insert_by_score(s, c), v) == if c.score == v {
            with_score(s, v).push(c)
        } else {
            with_score(s, v)
        },
    decreases s.len(),
{
    if s.len() == 0 {
        assert(seq![c].drop_last() =~= Seq::<CommentModel>::empty());
        assert(with_score(s, v) == Seq::<CommentModel>::empty());
        if c.score == v {
            assert(with_score(seq![c], v) == with_score(seq![c].drop_last(), v).push(c));
            assert(with_score(seq![c], v) =~= with_score(s, v).push(c));
        } else {
            assert(with_score(seq![c], v) == with_score(seq![c].drop_last(), v));
        }
    } else if c.score > s[0].score {
        lemma_with_score_add(seq![c], s, v);
        assert(seq![c].drop_last() =~= Seq::<CommentModel>::empty());
        if c.score == v {
            assert(with_score(seq![c], v) == with_score(seq![c].drop_last(), v).push(c));
            assert(forall|k: int| 0 <= k < s.len() ==> s[k].score != v);
            lemma_with_score_none(s, v);
            assert(with_score(seq![c] + s, v) =~= with_score(s, v).push(c));
        } else {
            assert(with_score(seq![c], v) == with_score(seq![c].drop_last(), v));
            assert(with_score(seq![c] + s, v) =~= with_score(s, v));
        }
    } else {
        assert(sorted_by_score_desc(s.skip(1)));
        lemma_insert_by_score_stable(s.skip(1), c, v);
        lemma_with_score_add(seq![s[0]], insert_by_score(s.skip(1), c), v);
        lemma_with_score_add(seq![s[0]], s.skip(1), v);
        assert(seq![s[0]] + s.skip(1) =~= s);
        if c.score == v {
            assert(with_score(seq![s[0]], v) + with_score(s.skip(1), v).push(c)
                =~= (with_score(seq![s[0]], v) + with_score(s.skip(1), v)).push(c));
        }
    }
}

/// Law: the score ordering is stable — for every score, the comments
/// carrying it stand in the ordered sequence exactly as they stood before
/// the sort, in the order the join attached them.
pub proof fn lemma_sort_by_score_stable(s: Seq<CommentModel>, v: int)
    ensures
        with_score(sort_by_score(s), v) == with_score(s, v),
    decreases s.len(),
{
    if s.len() == 0 {
    } else {
        lemma_sort_by_score_stable(s.drop_last(), v);
        lemma_sort_by_score_sorted(s.drop_last());
        lemma_insert_by_score_stable(sort_by_score(s.drop_last()), s.last(), v);
    }
}

proof fn lemma_insert_by_score_at(s: Seq<CommentModel>, c: CommentModel, pos: int)
    requires
        0 <= pos <= s.len(),
        forall|k: int| 0 <= k < pos ==> s[k].score >= c.score,
        pos < s.len() ==> s[pos].score < c.score,
    ensures
        insert_by_score(s, c) == s.take(pos) + seq![c] + s.skip(pos),
    decreases s.len(),
{
    if pos == 0 {
        assert(insert_by_score(s, c) =~= s.take(0) + seq![c] + s.skip(0));
    } else {
        assert(forall|k: int| 0 <= k < pos - 1 ==> s.skip(1)[k].score >= c.score);
        lemma_insert_by_score_at(s.skip(1), c, pos - 1);
        assert(seq![s[0]] + (s.skip(1).take(pos - 1) + seq![c] + s.skip(1).skip(pos - 1)) =~= s.take(
            pos,
        ) + seq![c] + s.skip(pos));
    }
}

/// Order the comments by descending score in place: a stable insertion
/// sort, equal scores keeping their relative order.
pub fn sort_comments(v: Vec<Comment>) -> (r: Vec<Comment>)
    ensures
        r.deep_view() == sort_by_score(v.deep_view()),
{
    let ghost dv0 = v.deep_view();
    let mut r = v;
    let mut i: usize = 0;
    while i < r.len()
        invariant
            i <= r@.len(),
            r@.len() == dv0.len(),
            r.deep_view() == sort_by_score(dv0.take(i as int)) + dv0.skip(i as int),
        decreases r@.len() - i,
    {
        proof {
            lemma_sort_by_score_len(dv0.take(i as int));
        }
        let ghost sorted = sort_by_score(dv0.take(i as int));
        let ghost rpre = r.deep_view();
        let ghost vpre = r@;
        proof {
            crate::records::lemma_deep_view_unfold(&r);
        }
        let x = r.remove(i);
        proof {
            crate::records::lemma_deep_view_unfold(&r);
            assert(rpre[i as int] == dv0[i as int]);
            assert(x@ == rpre[i as int]);
            vpre.remove_ensures(i as int);
            assert forall|k: int| 0 <= k < r@.len() implies r.deep_view()[k] == (sorted
                + dv0.skip(i + 1))[k] by {
                if k < i {
                    assert(r@[k] == vpre[k]);
                    assert(rpre[k] == (sorted + dv0.skip(i as int))[k]);
                } else {
                    assert(r@[k] == vpre[k + 1]);
                    assert(rpre[k + 1] == (sorted + dv0.skip(i as int))[k + 1]);
                }
            }
            assert(r.deep_view() =~= sorted + dv0.skip(i + 1));
        }
        let mut pos: usize = 0;
        while pos < i && r[pos].score >= x.score
            invariant
                0 <= pos <= i,
                i < dv0.len(),
                r@.len() == dv0.len() - 1,
                sorted.len() == i,
                x@ == dv0[i as int],
                r.deep_view() == sorted + dv0.skip(i + 1),
                forall|k: int| 0 <= k < pos ==> sorted[k].score >= x@.score,
            decreases i - pos,
        {
            proof {
                assert(r.deep_view()[pos as int] == sorted[pos as int]);
            }
            pos += 1;
        }
        proof {
            if pos < i {
                assert(r.deep_view()[pos as int] == sorted[pos as int]);
            }
        }
        let ghost vmid = r@;
        let ghost rmid = r.deep_view();
        let ghost xm = x@;
        proof {
            crate::records::lemma_deep_view_unfold(&r);
        }
        r.insert(pos, x);
        proof {
            crate::records::lemma_deep_view_unfold(&r);
            lemma_insert_by_score_at(sorted, xm, pos as int);
            let target = (sorted.take(pos as int) + seq![xm] + sorted.skip(pos as int)) + dv0.skip(
                i + 1,
            );
            assert forall|k: int| 0 <= k < r@.len() implies r.deep_view()[k] == target[k] by {
                if k < pos {
                    assert(r@[k] == vmid[k]);
                    assert(rmid[k] == (sorted + dv0.skip(i + 1))[k]);
                } else if k == pos {
                    assert(r@[k] == vmid.insert(pos as int, x)[k]);
                } else {
                    assert(r@[k] == vmid[k - 1]);
                    assert(rmid[k - 1] == (sorted + dv0.skip(i + 1))[k - 1]);
                }
            }
            assert(r.deep_view() =~= (sorted.take(pos as int) + seq![xm] + sorted.skip(
                pos as int,
            )) + dv0.skip(i + 1));
            assert(r.deep_view() =~= insert_by_score(sorted, xm) + dv0.skip(i + 1));
            assert(dv0.take(i + 1).drop_last() =~= dv0.take(i as int));
            assert(dv0.take(i + 1).last() == dv0[i as int]);
            assert(r.deep_view() =~= sort_by_score(dv0.take(i + 1)) + dv0.skip(i + 1));
        }
        i += 1;
    }
    proof {
        assert(dv0.take(dv0.len() as int) =~= dv0);
        assert(dv0.skip(dv0.len() as int) =~= Seq::<CommentModel>::empty());
        assert(sort_by_score(dv0) + Seq::<CommentModel>::empty() =~= sort_by_score(dv0));
    }
    r
}

/// The post ranked into an already ordered listing: before the first entry
/// created strictly earlier, after every entry created at the same time or
/// later, so that ties keep their earlier relative order.
pub open spec fn insert_by_created(s: Seq<PostModel>, p: PostModel) -> Seq<PostModel>
    decreases s.len(),
{
    if s.len() == 0 {
        seq![p]
    } else if p.created_utc > s[0].created_utc {
        seq![p] + s
    } else {
        seq![s[0]] + insert_by_created(s.skip(1), p)
    }
}

/// The posts ordered by descending creation time, stable: ties keep their
/// prior iteration order.
pub open spec fn sort_by_created(s: Seq<PostModel>) -> Seq<PostModel>
    decreases s.len(),
{
    if s.len() == 0 {
        s
    } else {
        insert_by_created(sort_by_created(s.drop_last()), s.last())
    }
}

/// Descending creation-time order.
pub open spec fn sorted_by_created_desc(s: Seq<PostModel>) -> bool {
    forall|a: int, b: int| 0 <= a < b < s.len() ==> s[a].created_utc >= s[b].created_utc
}

proof fn lemma_insert_by_created_len(s: Seq<PostModel>, p: PostModel)
    ensures
        insert_by_created(s, p).len() == s.len() + 1,
    decreases s.len(),
{
    if s.len() == 0 {
    } else if p.created_utc > s[0].created_utc {
    } else {
        lemma_insert_by_created_len(s.skip(1), p);
    }
}

/// Ordering the listing does not change its length.
pub proof fn lemma_sort_by_created_len(s: Seq<PostModel>)
    ensures
        sort_by_created(s).len() == s.len(),
    decreases s.len(),
{
    if s.len() == 0 {
    } else {
        lemma_sort_by_created_len(s.drop_last());
        lemma_insert_by_created_len(sort_by_created(s.drop_last()), s.last());
    }
}

/// Every entry of the inserted listing is the new post or one of the old
/// entries.
proof fn lemma_insert_by_created_elems(s: Seq<PostModel>, p: PostModel, k: int)
    requires
        0 <= k < insert_by_created(s, p).len(),
    ensures
        insert_by_created(s, p)[k] == p || exists|m: int|
            0 <= m < s.len() && s[m] == insert_by_created(s, p)[k],
    decreases s.len(),
{
    lemma_insert_by_created_len(s, p);
    let r = insert_by_created(s, p);
    if s.len() == 0 {
    } else if p.created_utc > s[0].created_utc {
        if k > 0 {
            assert(r[k] == s[k - 1]);
        }
    } else {
        if k == 0 {
            assert(r[0] == s[0]);
        } else {
            lemma_insert_by_created_elems(s.skip(1), p, k - 1);
            assert(r[k] == insert_by_created(s.skip(1), p)[k - 1]);
            if insert_by_created(s.skip(1), p)[k - 1] == p {
            } else {
                let m = choose|m: int|
                    0 <= m < s.skip(1).len() && s.skip(1)[m] == insert_by_created(s.skip(1), p)[k
                        - 1];
                assert(s[m + 1] == r[k]);
            }
        }
    }
}

proof fn lemma_insert_by_created_sorted(s: Seq<PostModel>, p: PostModel)
    requires
        sorted_by_created_desc(s),
    ensures
        sorted_by_created_desc(insert_by_created(s, p)),
    decreases s.len(),
{
    lemma_insert_by_created_len(s, p);
    let r = insert_by_created(s, p);
    if s.len() == 0 {
    } else if p.created_utc > s[0].created_utc {
        assert forall|a: int, b: int| 0 <= a < b < r.len() implies r[a].created_utc
            >= r[b].created_utc by {
            if a > 0 {
                assert(r[a] == s[a - 1] && r[b] == s[b - 1]);
            } else {
                assert(r[b] == s[b - 1]);
                if b > 1 {
                    assert(s[0].created_utc >= s[b - 1].created_utc);
                }
            }
        }
    } else {
        assert(sorted_by_created_desc(s.skip(1)));
        lemma_insert_by_created_sorted(s.skip(1), p);
        lemma_insert_by_created_len(s.skip(1), p);
        let r1 = insert_by_created(s.skip(1), p);
        assert forall|a: int, b: int| 0 <= a < b < r.len() implies r[a].created_utc
            >= r[b].created_utc by {
            if a > 0 {
                assert(r[a] == r1[a - 1] && r[b] == r1[b - 1]);
            } else {
                assert(r[b] == r1[b - 1]);
                lemma_insert_by_created_elems(s.skip(1), p, b - 1);
            }
        }
    }
}

/// Law: the final listing stands in descending creation-time order.
pub proof fn lemma_sort_by_created_sorted(s: Seq<PostModel>)
    ensures
        sorted_by_created_desc(sort_by_created(s)),
    decreases s.len(),
{
    if s.len() == 0 {
    } else {
        lemma_sort_by_created_sorted(s.drop_last());
        lemma_insert_by_created_sorted(sort_by_created(s.drop_last()), s.last());
    }
}

/// A property of single posts survives the ordering: what holds of every
/// post before the sort holds of every post after it.
pub proof fn lemma_sort_by_created_preserves(s: Seq<PostModel>, pred: spec_fn(PostModel) -> bool)
    requires
        forall|k: int| 0 <= k < s.len() ==> #[trigger] pred(s[k]),
    ensures
        forall|k: int| 0 <= k < sort_by_created(s).len() ==> #[trigger] pred(sort_by_created(s)[k]),
    decreases s.len(),
{
    if s.len() == 0 {
    } else {
        assert(forall|k: int| 0 <= k < s.drop_last().len() ==> #[trigger] pred(s.drop_last()[k]));
        lemma_sort_by_created_preserves(s.drop_last(), pred);
        let inner = sort_by_created(s.drop_last());
        let r = sort_by_created(s);
        assert forall|k: int| 0 <= k < r.len() implies #[trigger] pred(r[k]) by {
            lemma_insert_by_created_elems(inner, s.last(), k);
            if r[k] == s.last() {
                assert(pred(s[s.len() - 1]));
            } else {
                let m = choose|m: int| 0 <= m < inner.len() && inner[m] == r[k];
            }
        }
    }
}

/// The posts of the listing created exactly at time `v`, in their order.
pub open spec fn with_created(s: Seq<PostModel>, v: int) -> Seq<PostModel>
    decreases s.len(),
{
    if s.len() == 0 {
        Seq::empty()
    } else if s.last().created_utc == v {
        with_created(s.drop_last(), v).push(s.last())
    } else {
        with_created(s.drop_last(), v)
    }
}

proof fn lemma_with_created_add(a: Seq<PostModel>, b: Seq<PostModel>, v: int)
    ensures
        with_created(a + b, v) == with_created(a, v) + with_created(b, v),
    decreases b.len(),
{
    if b.len() == 0 {
        assert(a + b =~= a);
        assert(with_created(a, v) + with_created(b, v) =~= with_created(a, v));
    } else {
        assert((a + b).drop_last() =~= a + b.drop_last());
        assert((a + b).last() == b.last());
        lemma_with_created_add(a, b.drop_last(), v);
        if b.last().created_utc == v {
            assert((with_created(a, v) + with_created(b.drop_last(), v)).push(b.last())
                =~= with_created(a, v) + with_created(b.drop_last(), v).push(b.last()));
        }
    }
}

proof fn lemma_with_created_none(s: Seq<PostModel>, v: int)
    requires
        forall|k: int| 0 <= k < s.len() ==> s[k].created_utc != v,
    ensures
        with_created(s, v) == Seq::<PostModel>::empty(),
    decreases s.len(),
{
    if s.len() == 0 {
    } else {
        lemma_with_created_none(s.drop_last(), v);
    }
}

proof fn lemma_insert_by_created_stable(s: Seq<PostModel>, p: PostModel, v: int)
    requires
        sorted_by_created_desc(s),
    ensures
        with_created(insert_by_created(s, p), v) == if p.created_utc == v {
            with_created(s, v).push(p)
        } else {
            with_created(s, v)
        },
    decreases s.len(),
{
    if s.len() == 0 {
        assert(seq![p].drop_last() =~= Seq::<PostModel>::empty());
        assert(with_created(s, v) == Seq::<PostModel>::empty());
        if p.created_utc == v {
            assert(with_created(seq![p], v) == with_created(seq![p].drop_last(), v).push(p));
            assert(with_created(seq![p], v) =~= with_created(s, v).push(p));
        } else {
            assert(with_created(seq![p], v) == with_created(seq![p].drop_last(), v));
        }
    } else if p.created_utc > s[0].created_utc {
        lemma_with_created_add(seq![p], s, v);
        assert(seq![p].drop_last() =~= Seq::<PostModel>::empty());
        if p.created_utc == v {
            assert(with_created(seq![p], v) == with_created(seq![p].drop_last(), v).push(p));
            assert(forall|k: int| 0 <= k < s.len() ==> s[k].created_utc != v);
            lemma_with_created_none(s, v);
            assert(with_created(seq![p] + s, v) =~= with_created(s, v).push(p));
        } else {
            assert(with_created(seq![p], v) == with_created(seq![p].drop_last(), v));
            assert(with_created(seq![p] + s, v) =~= with_created(s, v));
        }
    } else {
        assert(sorted_by_created_desc(s.skip(1)));
        lemma_insert_by_created_stable(s.skip(1), p, v);
        lemma_with_created_add(seq![s[0]], insert_by_created(s.skip(1), p), v);
        lemma_with_created_add(seq![s[0]], s.skip(1), v);
        assert(seq![s[0]] + s.skip(1) =~= s);
        if p.created_utc == v {
            assert(with_created(seq![s[0]], v) + with_created(s.skip(1), v).push(p)
                =~= (with_created(seq![s[0]], v) + with_created(s.skip(1), v)).push(p));
        }
    }
}

/// Law: the listing order is stable — for every creation time, the posts
/// created at it stand in the ordered listing exactly as they stood in the
/// prior iteration order.
pub proof fn lemma_sort_by_created_stable(s: Seq<PostModel>, v: int)
    ensures
        with_created(sort_by_created(s), v) == with_created(s, v),
    decreases s.len(),
{
    if s.len() == 0 {
    } else {
        lemma_sort_by_created_stable(s.drop_last(), v);
        lemma_sort_by_created_sorted(s.drop_last());
        lemma_insert_by_created_stable(sort_by_created(s.drop_last()), s.last(), v);
    }
}

proof fn lemma_insert_by_created_at(s: Seq<PostModel>, p: PostModel, pos: int)
    requires
        0 <= pos <= s.len(),
        forall|k: int| 0 <= k < pos ==> s[k].created_utc >= p.created_utc,
        pos < s.len() ==> s[pos].created_utc < p.created_utc,
    ensures
        insert_by_created(s, p) == s.take(pos) + seq![p] + s.skip(pos),
    decreases s.len(),
{
    if pos == 0 {
        assert(insert_by_created(s, p) =~= s.take(0) + seq![p] + s.skip(0));
    } else {
        assert(forall|k: int| 0 <= k < pos - 1 ==> s.skip(1)[k].created_utc >= p.created_utc);
        lemma_insert_by_created_at(s.skip(1), p, pos - 1);
        assert(seq![s[0]] + (s.skip(1).take(pos - 1) + seq![p] + s.skip(1).skip(pos - 1)) =~= s.take(
            pos,
        ) + seq![p] + s.skip(pos));
    }
}

/// Order the final listing by descending creation time in place: a stable
/// insertion sort, ties keeping their prior order.
pub fn sort_posts(v: Vec<Post>) -> (r: Vec<Post>)
    ensures
        r.deep_view() == sort_by_created(v.deep_view()),
{
    let ghost dv0 = v.deep_view();
    let mut r = v;
    let mut i: usize = 0;
    while i < r.len()
        invariant
            i <= r@.len(),
            r@.len() == dv0.len(),
            r.deep_view() == sort_by_created(dv0.take(i as int)) + dv0.skip(i as int),
        decreases r@.len() - i,
    {
        proof {
            lemma_sort_by_created_len(dv0.take(i as int));
        }
        let ghost sorted = sort_by_created(dv0.take(i as int));
        let ghost rpre = r.deep_view();
        let ghost vpre = r@;
        proof {
            crate::records::lemma_deep_view_unfold(&r);
        }
        let x = r.remove(i);
        proof {
            crate::records::lemma_deep_view_unfold(&r);
            assert(rpre[i as int] == dv0[i as int]);
            assert(x@ == rpre[i as int]);
            vpre.remove_ensures(i as int);
            assert forall|k: int| 0 <= k < r@.len() implies r.deep_view()[k] == (sorted
                + dv0.skip(i + 1))[k] by {
                if k < i {
                    assert(r@[k] == vpre[k]);
                    assert(rpre[k] == (sorted + dv0.skip(i as int))[k]);
                } else {
                    assert(r@[k] == vpre[k + 1]);
                    assert(rpre[k + 1] == (sorted + dv0.skip(i as int))[k + 1]);
                }
            }
            assert(r.deep_view() =~= sorted + dv0.skip(i + 1));
        }
        let mut pos: usize = 0;
        while pos < i && r[pos].created_utc >= x.created_utc
            invariant
                0 <= pos <= i,
                i < dv0.len(),
                r@.len() == dv0.len() - 1,
                sorted.len() == i,
                x@ == dv0[i as int],
                r.deep_view() == sorted + dv0.skip(i + 1),
                forall|k: int| 0 <= k < pos ==> sorted[k].created_utc >= x@.created_utc,
            decreases i - pos,
        {
            proof {
                assert(r.deep_view()[pos as int] == sorted[pos as int]);
            }
            pos += 1;
        }
        proof {
            if pos < i {
                assert(r.deep_view()[pos as int] == sorted[pos as int]);
            }
        }
        let ghost vmid = r@;
        let ghost rmid = r.deep_view();
        let ghost xm = x@;
        proof {
            crate::records::lemma_deep_view_unfold(&r);
        }
        r.insert(pos, x);
        proof {
            crate::records::lemma_deep_view_unfold(&r);
            lemma_insert_by_created_at(sorted, xm, pos as int);
            let target = (sorted.take(pos as int) + seq![xm] + sorted.skip(pos as int))
                + dv0.skip(i + 1);
            assert forall|k: int| 0 <= k < r@.len() implies r.deep_view()[k] == target[k] by {
                if k < pos {
                    assert(r@[k] == vmid[k]);
                    assert(rmid[k] == (sorted + dv0.skip(i + 1))[k]);
                } else if k == pos {
                    assert(r@[k] == vmid.insert(pos as int, x)[k]);
                } else {
                    assert(r@[k] == vmid[k - 1]);
                    assert(rmid[k - 1] == (sorted + dv0.skip(i + 1))[k - 1]);
                }
            }
            assert(r.deep_view() =~= (sorted.take(pos as int) + seq![xm] + sorted.skip(
                pos as int,
            )) + dv0.skip(i + 1));
            assert(r.deep_view() =~= insert_by_created(sorted, xm) + dv0.skip(i + 1));
            assert(dv0.take(i + 1).drop_last() =~= dv0.take(i as int));
            assert(dv0.take(i + 1).last() == dv0[i as int]);
            assert(r.deep_view() =~= sort_by_created(dv0.take(i + 1)) + dv0.skip(i + 1));
        }
        i += 1;
    }
    proof {
        assert(dv0.take(dv0.len() as int) =~= dv0);
        assert(dv0.skip(dv0.len() as int) =~= Seq::<PostModel>::empty());
        assert(sort_by_created(dv0) + Seq::<PostModel>::empty() =~= sort_by_created(dv0));
    }
    r
}

/// A post made ready for display: text decoded, the advisory count replaced
/// by the number of comments actually attached, the comments decoded and
/// ordered by descending score.
pub open spec fn finalize_model(p: RawPostModel) -> PostModel {
    PostModel {
        id: p.id,
        title: decoded_of(p.title),
        author: p.author,
        selftext: decoded_of(p.selftext),
        selftext_html: decoded_of(p.selftext_html),
        comment_count: p.comments.len() as int,
        created_utc: p.created_utc,
        comments: sort_by_score(finalize_comments(p.comments)),
    }
}

/// Make one joined post ready for display.
pub fn finalize_post(p: &RawPost) -> (r: Post)
    ensures
        r@ == finalize_model(p@),
{
    let title = decode_entities(p.title.as_str());
    let selftext = decode_entities(p.selftext.as_str());
    let selftext_html = decode_entities(p.selftext_html.as_str());
    let mut cs: Vec<Comment> = Vec::new();
    let mut i: usize = 0;
    while i < p.comments.len()
        invariant
            i <= p.comments@.len(),
            cs@.len() == i,
            cs.deep_view() == finalize_comments(p.comments.deep_view().take(i as int)),
        decreases p.comments@.len() - i,
    {
        let c = &p.comments[i];
        let ghost cspre = cs.deep_view();
        let ghost vpre = cs@;
        proof {
            crate::records::lemma_deep_view_unfold(&p.comments);
            crate::records::lemma_deep_view_unfold(&cs);
        }
        let q = Comment {
            body: decode_entities(c.body.as_str()),
            author: c.author.clone(),
            score: c.score,
        };
        proof {
            assert(q@ == finalize_comment(p.comments.deep_view()[i as int]));
        }
        cs.push(q);
        proof {
            crate::records::lemma_deep_view_unfold(&cs);
            assert forall|k: int| 0 <= k < cs@.len() implies cs.deep_view()[k]
                == finalize_comments(p.comments.deep_view().take(i + 1))[k] by {
                if k < i {
                    assert(cs@[k] == vpre[k]);
                    assert(cspre[k] == finalize_comments(p.comments.deep_view().take(i as int))[k]);
                }
            }
            assert(cs.deep_view() =~= finalize_comments(p.comments.deep_view().take(i + 1)));
        }
        i += 1;
    }
    proof {
        assert(p.comments.deep_view().take(p.comments@.len() as int) =~= p.comments.deep_view());
    }
    let sorted = sort_comments(cs);
    proof {
        lemma_sort_by_score_len(finalize_comments(p.comments.deep_view()));
    }
    let comment_count = sorted.len();
    Post {
        id: p.id.clone(),
        title,
        author: p.author.clone(),
        selftext,
        selftext_html,
        comment_count,
        created_utc: p.created_utc,
        comments: sorted,
    }
}

/// The listing before ordering: the posts that kept at least one comment
/// after the join, each made ready for display, in index order; a post
/// whose recomputed count is zero is dropped.
pub open spec fn aggregate_model(joined: Seq<RawPostModel>) -> Seq<PostModel>
    decreases joined.len(),
{
    if joined.len() == 0 {
        Seq::empty()
    } else {
        aggregate_model(joined.drop_last()) + if joined.last().comments.len() > 0 {
            seq![finalize_model(joined.last())]
        } else {
            Seq::empty()
        }
    }
}

/// The aggregation pass over the frozen index: recompute each post's
/// comment count from what is actually attached, decode the escaped text,
/// order the comments, and drop the posts left without a comment.
pub fn aggregate_posts(joined: &Vec<RawPost>) -> (r: Vec<Post>)
    ensures
        r.deep_view() == aggregate_model(joined.deep_view()),
{
    let mut out: Vec<Post> = Vec::new();
    let mut i: usize = 0;
    while i < joined.len()
        invariant
            i <= joined@.len(),
            out.deep_view() == aggregate_model(joined.deep_view().take(i as int)),
        decreases joined@.len() - i,
    {
        let p = &joined[i];
        proof {
            crate::records::lemma_deep_view_unfold(joined);
            crate::records::lemma_deep_view_unfold(&out);
        }
        let ghost pre = out.deep_view();
        if p.comments.len() > 0 {
            out.push(finalize_post(p));
            proof {
                crate::records::lemma_deep_view_unfold(&out);
                assert(out.deep_view() =~= pre + seq![finalize_model(p@)]);
            }
        }
        proof {
            let dv = joined.deep_view();
            assert(dv.take(i + 1).drop_last() =~= dv.take(i as int));
            assert(dv.take(i + 1).last() == p@);
            if p.comments@.len() == 0 {
                assert(pre + Seq::<PostModel>::empty() =~= pre);
            }
        }
        i += 1;
    }
    proof {
        assert(joined.deep_view().take(joined@.len() as int) =~= joined.deep_view());
    }
    out
}

/// A joined index whose posts all kept no comment aggregates to nothing.
pub proof fn lemma_aggregate_all_empty(joined: Seq<RawPostModel>)
    requires
        forall|k: int| 0 <= k < joined.len() ==> (#[trigger] joined[k]).comments.len() == 0,
    ensures
        aggregate_model(joined) == Seq::<PostModel>::empty(),
    decreases joined.len(),
{
    if joined.len() == 0 {
    } else {
        assert(forall|k: int|
            0 <= k < joined.drop_last().len() ==> (#[trigger] joined.drop_last()[k]).comments.len()
                == 0);
        lemma_aggregate_all_empty(joined.drop_last());
        assert(joined[joined.len() - 1].comments.len() == 0);
        assert(aggregate_model(joined.drop_last()) + Seq::<PostModel>::empty()
            =~= aggregate_model(joined.drop_last()));
    }
}

/// Law: every post of the aggregated listing counts exactly the comments it
/// carries — the recomputed, authoritative count, never the advisory one —
/// and carries at least one.
pub proof fn lemma_aggregate_counts(joined: Seq<RawPostModel>)
    ensures
        forall|k: int|
            0 <= k < aggregate_model(joined).len() ==> (#[trigger] aggregate_model(joined)[k]).comment_count
                == aggregate_model(joined)[k].comments.len() && aggregate_model(
                joined,
            )[k].comments.len() > 0,
    decreases joined.len(),
{
    if joined.len() == 0 {
    } else {
        lemma_aggregate_counts(joined.drop_last());
        let prev = aggregate_model(joined.drop_last());
        let all = aggregate_model(joined);
        assert forall|k: int| 0 <= k < all.len() implies (#[trigger] all[k]).comment_count
            == all[k].comments.len() && all[k].comments.len() > 0 by {
            if k < prev.len() {
                assert(all[k] == prev[k]);
            } else {
                assert(joined.last().comments.len() > 0);
                assert(all[k] == finalize_model(joined.last()));
                lemma_sort_by_score_len(finalize_comments(joined.last().comments));
            }
        }
    }
}

} // verus!
