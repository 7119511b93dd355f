//! The pipeline run: build the index from the post stream, merge the
//! comment stream into it, aggregate, order, and paginate. The whole
//! outcome is a function of the parsed records and the configuration alone.

use vstd::prelude::*;

use crate::aggregate::{
    aggregate_model, aggregate_posts, lemma_aggregate_counts, lemma_sort_by_created_preserves,
    lemma_sort_by_created_sorted, sort_by_created, sort_posts, sorted_by_created_desc,
};
use crate::filter::cutoff_model;
use crate::join::{attach_comments, build_index, index_model, join_model, orphan_model};
use crate::paginate::{pages_model, paginate};
use crate::parse::{comment_rec_of, parse_comment, parse_post, post_rec_of};
use crate::records::{
    Config, Listing, MalformedPolicy, PostModel, RawComment, RawCommentModel, RawPost,
    RawPostModel, RunError, RunReport,
};

verus! {

/// The final post sequence: the joined index aggregated and ordered by
/// descending creation time.
pub open spec fn final_posts_model(
    posts: Seq<RawPostModel>,
    comments: Seq<RawCommentModel>,
    cutoff: Option<int>,
) -> Seq<PostModel> {
    sort_by_created(aggregate_model(join_model(index_model(posts, cutoff), comments, cutoff)))
}

/// Law: every post of the final sequence carries at least one comment and
/// counts exactly the comments it carries — the advisory count of the
/// source record has no say — and the sequence stands in descending
/// creation-time order.
pub proof fn lemma_final_posts_wf(
    posts: Seq<RawPostModel>,
    comments: Seq<RawCommentModel>,
    cutoff: Option<int>,
)
    ensures
        forall|k: int|
            0 <= k < final_posts_model(posts, comments, cutoff).len() ==> {
                let q = #[trigger] final_posts_model(posts, comments, cutoff)[k];
                q.comment_count == q.comments.len() && q.comments.len() > 0
            },
        sorted_by_created_desc(final_posts_model(posts, comments, cutoff)),
{
    let joined = join_model(index_model(posts, cutoff), comments, cutoff);
    let agg = aggregate_model(joined);
    let fin = final_posts_model(posts, comments, cutoff);
    let pred = |q: PostModel| q.comment_count == q.comments.len() && q.comments.len() > 0;
    lemma_aggregate_counts(joined);
    assert forall|k: int| 0 <= k < agg.len() implies pred(#[trigger] agg[k]) by {
        assert(agg[k].comment_count == agg[k].comments.len() && agg[k].comments.len() > 0);
    }
    lemma_sort_by_created_preserves(agg, pred);
    lemma_sort_by_created_sorted(agg);
    assert forall|k: int| 0 <= k < fin.len() implies (#[trigger] fin[k]).comment_count
        == fin[k].comments.len() && fin[k].comments.len() > 0 by {
        assert(pred(sort_by_created(agg)[k]));
    }
}

/// Law: a cutoff that admits no comment of the stream empties the whole
/// output — every post, though admitted into the index at build time,
/// keeps zero comments through the join, so it is dropped: the final
/// sequence is empty, and so is the page list of any page size. (A
/// collection carried in from parsing starts empty, as `parse_post`
/// guarantees of every record it yields.)
pub proof fn lemma_no_admitted_comments_empties_listing(
    posts: Seq<RawPostModel>,
    comments: Seq<RawCommentModel>,
    cutoff: Option<int>,
    page_size: int,
)
    requires
        page_size >= 1,
        forall|k: int| 0 <= k < posts.len() ==> (#[trigger] posts[k]).comments.len() == 0,
        forall|i: int|
            0 <= i < comments.len() ==> !crate::filter::comment_admitted(
                #[trigger] comments[i],
                cutoff,
            ),
    ensures
        final_posts_model(posts, comments, cutoff) == Seq::<PostModel>::empty(),
        pages_model(0, page_size) == Seq::<crate::records::PageModel>::empty(),
{
    crate::join::lemma_index_collections_empty(posts, cutoff);
    crate::join::lemma_join_nothing_admitted(index_model(posts, cutoff), comments, cutoff);
    crate::aggregate::lemma_aggregate_all_empty(index_model(posts, cutoff));
    assert(final_posts_model(posts, comments, cutoff) == sort_by_created(
        Seq::<PostModel>::empty(),
    ));
    vstd::arithmetic::div_mod::lemma_small_mod(0nat, page_size as nat);
    vstd::arithmetic::div_mod::lemma_div_of0(page_size);
    assert(crate::paginate::page_count(0, page_size) == 0);
    assert(pages_model(0, page_size) =~= Seq::<crate::records::PageModel>::empty());
}

/// Law: the pipeline is a function of the records and the configuration
/// alone — two runs on equal record streams with an equal cutoff produce
/// the same final post sequence, the same orphan count, and so the same
/// page partitioning; no order depends on scheduling or arrival.
pub proof fn lemma_pipeline_deterministic(
    posts_a: Seq<RawPostModel>,
    comments_a: Seq<RawCommentModel>,
    posts_b: Seq<RawPostModel>,
    comments_b: Seq<RawCommentModel>,
    cutoff: Option<int>,
)
    requires
        posts_a == posts_b,
        comments_a == comments_b,
    ensures
        final_posts_model(posts_a, comments_a, cutoff) == final_posts_model(
            posts_b,
            comments_b,
            cutoff,
        ),
        orphan_model(index_model(posts_a, cutoff), comments_a, cutoff) == orphan_model(
            index_model(posts_b, cutoff),
            comments_b,
            cutoff,
        ),
{
}

/// Run the pipeline on parsed records: index the admitted posts, attach the
/// admitted comments, recompute counts, decode text, order posts and
/// comments, and cut the listing into pages.
pub fn run_records(posts: &Vec<RawPost>, comments: &Vec<RawComment>, config: &Config) -> (r:
    Listing)
    requires
        config.page_size >= 1,
    ensures
        r.posts.deep_view() == final_posts_model(
            posts.deep_view(),
            comments.deep_view(),
            cutoff_model(config.cutoff),
        ),
        r.pages.deep_view() == pages_model(r.posts@.len() as int, config.page_size as int),
        r.orphan_comments == orphan_model(
            index_model(posts.deep_view(), cutoff_model(config.cutoff)),
            comments.deep_view(),
            cutoff_model(config.cutoff),
        ),
{
    let index = build_index(posts, config.cutoff);
    let (joined, orphan_comments) = attach_comments(index, comments, config.cutoff);
    let aggregated = aggregate_posts(&joined);
    let finals = sort_posts(aggregated);
    let pages = paginate(finals.len(), config.page_size);
    Listing { posts: finals, pages, orphan_comments }
}

/// The post records of the lines that parse, in line order; a malformed
/// line contributes nothing.
pub open spec fn parsed_posts_of(lines: Seq<Seq<char>>) -> Seq<RawPostModel>
    decreases lines.len(),
{
    if lines.len() == 0 {
        Seq::empty()
    } else {
        parsed_posts_of(lines.drop_last()) + match post_rec_of(lines.last()) {
            Some(p) => seq![p],
            None => Seq::empty(),
        }
    }
}

/// How many lines fail to parse as a post record.
pub open spec fn unparsed_post_count(lines: Seq<Seq<char>>) -> int
    decreases lines.len(),
{
    if lines.len() == 0 {
        0
    } else {
        unparsed_post_count(lines.drop_last()) + if post_rec_of(lines.last()) is None {
            1int
        } else {
            0int
        }
    }
}

/// The comment records of the lines that parse, in line order; a malformed
/// line contributes nothing.
pub open spec fn parsed_comments_of(lines: Seq<Seq<char>>) -> Seq<RawCommentModel>
    decreases lines.len(),
{
    if lines.len() == 0 {
        Seq::empty()
    } else {
        parsed_comments_of(lines.drop_last()) + match comment_rec_of(lines.last()) {
            Some(c) => seq![c],
            None => Seq::empty(),
        }
    }
}

/// How many lines fail to parse as a comment record.
pub open spec fn unparsed_comment_count(lines: Seq<Seq<char>>) -> int
    decreases lines.len(),
{
    if lines.len() == 0 {
        0
    } else {
        unparsed_comment_count(lines.drop_last()) + if comment_rec_of(lines.last()) is None {
            1int
        } else {
            0int
        }
    }
}

/// Run the pipeline on the raw lines of the two input files. Each line is
/// parsed independently; a line that fails to parse is handled per the
/// configured policy — under the skip policy it is counted and the run goes
/// on and always succeeds, under the fail-fast policy the run aborts on the
/// first such line, naming its position. A returned listing is the pipeline
/// applied to exactly the records the lines parse to; each of its posts
/// counts exactly its attached comments and carries at least one, the posts
/// stand in descending creation-time order, and the pages partition them at
/// the configured size.
pub fn run(post_lines: &Vec<String>, comment_lines: &Vec<String>, config: &Config) -> (r: Result<
    RunReport,
    RunError,
>)
    requires
        config.page_size >= 1,
    ensures
        config.malformed is Skip ==> r is Ok,
        r matches Ok(rep) ==> {
            &&& rep.listing.posts.deep_view() == final_posts_model(
                parsed_posts_of(post_lines.deep_view()),
                parsed_comments_of(comment_lines.deep_view()),
                cutoff_model(config.cutoff),
            )
            &&& rep.listing.pages.deep_view() == pages_model(
                rep.listing.posts@.len() as int,
                config.page_size as int,
            )
            &&& rep.listing.orphan_comments == orphan_model(
                index_model(parsed_posts_of(post_lines.deep_view()), cutoff_model(config.cutoff)),
                parsed_comments_of(comment_lines.deep_view()),
                cutoff_model(config.cutoff),
            )
            &&& rep.malformed_posts == unparsed_post_count(post_lines.deep_view())
            &&& rep.malformed_comments == unparsed_comment_count(comment_lines.deep_view())
            &&& sorted_by_created_desc(rep.listing.posts.deep_view())
            &&& forall|k: int|
                0 <= k < rep.listing.posts.deep_view().len() ==> {
                    let q = #[trigger] rep.listing.posts.deep_view()[k];
                    q.comment_count == q.comments.len() && q.comments.len() > 0
                }
        },
        r matches Err(e) ==> config.malformed is FailFast && (match e {
            RunError::MalformedPost(i) => i < post_lines@.len() && post_rec_of(
                post_lines.deep_view()[i as int],
            ) is None && (forall|j: int|
                0 <= j < i ==> post_rec_of(#[trigger] post_lines.deep_view()[j]) is Some),
            RunError::MalformedComment(i) => i < comment_lines@.len() && comment_rec_of(
                comment_lines.deep_view()[i as int],
            ) is None && (forall|j: int|
                0 <= j < post_lines@.len() ==> post_rec_of(
                    #[trigger] post_lines.deep_view()[j],
                ) is Some) && (forall|j: int|
                0 <= j < i ==> comment_rec_of(#[trigger] comment_lines.deep_view()[j]) is Some),
        }),
        config.malformed is FailFast && r is Ok ==> (forall|j: int|
            0 <= j < post_lines@.len() ==> post_rec_of(
                #[trigger] post_lines.deep_view()[j],
            ) is Some) && (forall|j: int|
            0 <= j < comment_lines@.len() ==> comment_rec_of(
                #[trigger] comment_lines.deep_view()[j],
            ) is Some),
{
    let ghost pdv = post_lines.deep_view();
    let ghost cdv = comment_lines.deep_view();
    let mut posts: Vec<RawPost> = Vec::new();
    let mut malformed_posts: usize = 0;
    let mut i: usize = 0;
    while i < post_lines.len()
        invariant
            pdv == post_lines.deep_view(),
            i <= post_lines@.len(),
            malformed_posts <= i,
            posts.deep_view() == parsed_posts_of(pdv.take(i as int)),
            malformed_posts == unparsed_post_count(pdv.take(i as int)),
            config.malformed is FailFast ==> forall|j: int|
                0 <= j < i ==> post_rec_of(#[trigger] pdv[j]) is Some,
        decreases post_lines@.len() - i,
    {
        proof {
            crate::records::lemma_deep_view_unfold(post_lines);
        }
        let ghost pre = posts.deep_view();
        match parse_post(post_lines[i].as_str()) {
            Some(p) => {
                let ghost pm = p@;
                posts.push(p);
                proof {
                    crate::records::lemma_deep_view_unfold(&posts);
                    assert(posts.deep_view() =~= pre.push(pm));
                }
            },
            None => {
                match config.malformed {
                    MalformedPolicy::FailFast => {
                        return Err(RunError::MalformedPost(i));
                    },
                    MalformedPolicy::Skip => {
                        malformed_posts += 1;
                    },
                }
            },
        }
        proof {
            assert(pdv.take(i + 1).drop_last() =~= pdv.take(i as int));
            assert(pdv.take(i + 1).last() == pdv[i as int]);
            if post_rec_of(pdv[i as int]) is None {
                assert(posts.deep_view() =~= pre + Seq::<RawPostModel>::empty());
            }
        }
        i += 1;
    }
    proof {
        assert(pdv.take(post_lines@.len() as int) =~= pdv);
    }
    let mut comments: Vec<RawComment> = Vec::new();
    let mut malformed_comments: usize = 0;
    let mut j: usize = 0;
    while j < comment_lines.len()
        invariant
            pdv == post_lines.deep_view(),
            cdv == comment_lines.deep_view(),
            j <= comment_lines@.len(),
            malformed_comments <= j,
            comments.deep_view() == parsed_comments_of(cdv.take(j as int)),
            malformed_comments == unparsed_comment_count(cdv.take(j as int)),
            config.malformed is FailFast ==> forall|k: int|
                0 <= k < post_lines@.len() ==> post_rec_of(#[trigger] pdv[k]) is Some,
            config.malformed is FailFast ==> forall|k: int|
                0 <= k < j ==> comment_rec_of(#[trigger] cdv[k]) is Some,
        decreases comment_lines@.len() - j,
    {
        proof {
            crate::records::lemma_deep_view_unfold(comment_lines);
        }
        let ghost pre = comments.deep_view();
        match parse_comment(comment_lines[j].as_str()) {
            Some(c) => {
                let ghost cm = c@;
                comments.push(c);
                proof {
                    crate::records::lemma_deep_view_unfold(&comments);
                    assert(comments.deep_view() =~= pre.push(cm));
                }
            },
            None => {
                match config.malformed {
                    MalformedPolicy::FailFast => {
                        return Err(RunError::MalformedComment(j));
                    },
                    MalformedPolicy::Skip => {
                        malformed_comments += 1;
                    },
                }
            },
        }
        proof {
            assert(cdv.take(j + 1).drop_last() =~= cdv.take(j as int));
            assert(cdv.take(j + 1).last() == cdv[j as int]);
            if comment_rec_of(cdv[j as int]) is None {
                assert(comments.deep_view() =~= pre + Seq::<RawCommentModel>::empty());
            }
        }
        j += 1;
    }
    proof {
        assert(cdv.take(comment_lines@.len() as int) =~= cdv);
    }
    let listing = run_records(&posts, &comments, config);
    proof {
        lemma_final_posts_wf(
            posts.deep_view(),
            comments.deep_view(),
            cutoff_model(config.cutoff),
        );
    }
    Ok(RunReport { listing, malformed_posts, malformed_comments })
}

} // verus!
