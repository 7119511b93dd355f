//! The data carried through the pipeline: raw records as parsed from the
//! archive files, the enriched records handed to the renderer, and the
//! mathematical models that the contracts speak of.

use vstd::prelude::*;

verus! {

/// Mathematical model of a comment record: every text field as a sequence of
/// characters, every number as an unbounded integer.
pub struct RawCommentModel {
    /// The raw parent reference, type tag still attached.
    pub parent_id: Seq<char>,
    pub body: Seq<char>,
    pub author: Seq<char>,
    pub created_utc: int,
    pub score: int,
}

/// One comment as read from the comments file. The parent reference is kept
/// as it stands in the record; the join normalizes it before lookup.
pub struct RawComment {
    pub parent_id: String,
    pub body: String,
    pub author: String,
    pub created_utc: i64,
    pub score: i64,
}

impl View for RawComment {
    type V = RawCommentModel;

    open spec fn view(&self) -> RawCommentModel {
        RawCommentModel {
            parent_id: self.parent_id@,
            body: self.body@,
            author: self.author@,
            created_utc: self.created_utc as int,
            score: self.score as int,
        }
    }
}

impl DeepView for RawComment {
    type V = RawCommentModel;

    open spec fn deep_view(&self) -> RawCommentModel {
        self@
    }
}

impl RawComment {
    /// An equal copy of the record.
    pub fn duplicate(&self) -> (r: RawComment)
        ensures
            r@ == self@,
    {
        RawComment {
            parent_id: self.parent_id.clone(),
            body: self.body.clone(),
            author: self.author.clone(),
            created_utc: self.created_utc,
            score: self.score,
        }
    }
}

/// Mathematical model of a post record.
pub struct RawPostModel {
    pub id: Seq<char>,
    pub title: Seq<char>,
    pub author: Seq<char>,
    pub selftext: Seq<char>,
    pub selftext_html: Seq<char>,
    pub num_comments: int,
    pub created_utc: int,
    pub removed_by_category: Option<Seq<char>>,
    pub comments: Seq<RawCommentModel>,
}

/// One post as read from the posts file, together with the comments the join
/// attaches to it. `num_comments` is the advisory count from the source
/// record; it is never trusted after the join.
pub struct RawPost {
    pub id: String,
    pub title: String,
    pub author: String,
    pub selftext: String,
    pub selftext_html: String,
    pub num_comments: i64,
    pub created_utc: i64,
    pub removed_by_category: Option<String>,
    pub comments: Vec<RawComment>,
}

impl View for RawPost {
    type V = RawPostModel;

    open spec fn view(&self) -> RawPostModel {
        RawPostModel {
            id: self.id@,
            title: self.title@,
            author: self.author@,
            selftext: self.selftext@,
            selftext_html: self.selftext_html@,
            num_comments: self.num_comments as int,
            created_utc: self.created_utc as int,
            removed_by_category: self.removed_by_category.deep_view(),
            comments: self.comments.deep_view(),
        }
    }
}

impl DeepView for RawPost {
    type V = RawPostModel;

    open spec fn deep_view(&self) -> RawPostModel {
        self@
    }
}

impl RawPost {
    /// An equal copy of the record, its attached comments included.
    pub fn duplicate(&self) -> (r: RawPost)
        ensures
            r@ == self@,
    {
        let mut cs: Vec<RawComment> = Vec::new();
        let mut i: usize = 0;
        while i < self.comments.len()
            invariant
                i <= self.comments.len(),
                cs@.len() == i,
                cs.deep_view() == self.comments.deep_view().take(i as int),
            decreases self.comments.len() - i,
        {
            let c = self.comments[i].duplicate();
            cs.push(c);
            proof {
                assert(cs.deep_view() =~= self.comments.deep_view().take(i + 1));
            }
            i += 1;
        }
        proof {
            assert(self.comments.deep_view().take(self.comments.len() as int) =~= self.comments.deep_view());
        }
        RawPost {
            id: self.id.clone(),
            title: self.title.clone(),
            author: self.author.clone(),
            selftext: self.selftext.clone(),
            selftext_html: self.selftext_html.clone(),
            num_comments: self.num_comments,
            created_utc: self.created_utc,
            removed_by_category: match &self.removed_by_category {
                Some(s) => Some(s.clone()),
                None => None,
            },
            comments: cs,
        }
    }
}

/// Mathematical model of an enriched comment.
pub struct CommentModel {
    pub body: Seq<char>,
    pub author: Seq<char>,
    pub score: int,
}

/// A comment as handed to the renderer: body decoded, owned by exactly one
/// post. The score is kept so that the display order can be stated.
pub struct Comment {
    pub body: String,
    pub author: String,
    pub score: i64,
}

impl View for Comment {
    type V = CommentModel;

    open spec fn view(&self) -> CommentModel {
        CommentModel { body: self.body@, author: self.author@, score: self.score as int }
    }
}

impl DeepView for Comment {
    type V = CommentModel;

    open spec fn deep_view(&self) -> CommentModel {
        self@
    }
}

/// Mathematical model of an enriched post.
pub struct PostModel {
    pub id: Seq<char>,
    pub title: Seq<char>,
    pub author: Seq<char>,
    pub selftext: Seq<char>,
    pub selftext_html: Seq<char>,
    pub comment_count: int,
    pub created_utc: int,
    pub comments: Seq<CommentModel>,
}

/// A post as handed to the renderer: text decoded, comments sorted by
/// descending score, and `comment_count` equal to the number of comments
/// actually attached.
pub struct Post {
    pub id: String,
    pub title: String,
    pub author: String,
    pub selftext: String,
    pub selftext_html: String,
    pub comment_count: usize,
    pub created_utc: i64,
    pub comments: Vec<Comment>,
}

impl View for Post {
    type V = PostModel;

    open spec fn view(&self) -> PostModel {
        PostModel {
            id: self.id@,
            title: self.title@,
            author: self.author@,
            selftext: self.selftext@,
            selftext_html: self.selftext_html@,
            comment_count: self.comment_count as int,
            created_utc: self.created_utc as int,
            comments: self.comments.deep_view(),
        }
    }
}

impl DeepView for Post {
    type V = PostModel;

    open spec fn deep_view(&self) -> PostModel {
        self@
    }
}

/// Mathematical model of a page.
pub struct PageModel {
    /// Index of the first post of the page in the final post sequence.
    pub start: int,
    /// One past the index of the last post of the page.
    pub end: int,
    /// 1-based page number.
    pub number: int,
    /// Total number of pages of the listing this page belongs to.
    pub total: int,
    /// Number of the previous page; absent on the first page.
    pub prev: Option<int>,
    /// Number of the next page; absent on the last page.
    pub next: Option<int>,
}

/// One page of the listing: a contiguous slice `start..end` of the final post
/// sequence, with 1-based navigation metadata.
#[derive(Clone, Copy, Debug, PartialEq, Eq)]
pub struct Page {
    pub start: usize,
    pub end: usize,
    pub number: usize,
    pub total: usize,
    pub prev: Option<usize>,
    pub next: Option<usize>,
}

impl View for Page {
    type V = PageModel;

    open spec fn view(&self) -> PageModel {
        PageModel {
            start: self.start as int,
            end: self.end as int,
            number: self.number as int,
            total: self.total as int,
            prev: match self.prev {
                Some(n) => Some(n as int),
                None => None,
            },
            next: match self.next {
                Some(n) => Some(n as int),
                None => None,
            },
        }
    }
}

impl DeepView for Page {
    type V = PageModel;

    open spec fn deep_view(&self) -> PageModel {
        self@
    }
}

/// The element-wise reading of a vector's deep view: position by position,
/// it is the deep view of the element there.
pub proof fn lemma_deep_view_unfold<T: DeepView>(v: &Vec<T>)
    ensures
        v.deep_view().len() == v@.len(),
        forall|k: int| 0 <= k < v@.len() ==> #[trigger] v.deep_view()[k] == v@[k].deep_view(),
{
}

/// What to do with a line that does not parse as a record of the expected
/// shape: abort the run, or skip the line and count it.
#[derive(Clone, Copy, Debug, PartialEq, Eq)]
pub enum MalformedPolicy {
    FailFast,
    Skip,
}

/// The plain configuration values the pipeline consumes. Loading them (from
/// the command line or the environment) is the caller's business.
pub struct Config {
    /// Admit only records created strictly after this time, in seconds since
    /// the epoch, if set.
    pub cutoff: Option<i64>,
    /// Number of posts per page of the listing.
    pub page_size: usize,
    /// How to treat a line that fails to parse.
    pub malformed: MalformedPolicy,
}

/// Why a run was aborted.
#[derive(Clone, Copy, Debug, PartialEq, Eq)]
pub enum RunError {
    /// A line of the posts file failed to parse; the payload is the line's
    /// 0-based position.
    MalformedPost(usize),
    /// A line of the comments file failed to parse.
    MalformedComment(usize),
}

/// The outcome of the join and aggregation: the final post sequence, its
/// pages, and the number of admitted comments whose parent was not in the
/// index.
pub struct Listing {
    pub posts: Vec<Post>,
    pub pages: Vec<Page>,
    pub orphan_comments: usize,
}

/// A full run's outcome: the listing plus the number of lines that failed to
/// parse and were skipped (always zero under the fail-fast policy).
pub struct RunReport {
    pub listing: Listing,
    pub malformed_posts: usize,
    pub malformed_comments: usize,
}

} // verus!
