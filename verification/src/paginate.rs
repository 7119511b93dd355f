//! Partition the final post sequence into fixed-size pages with 1-based
//! navigation metadata. A page is a contiguous slice of the sequence; every
//! page but possibly the last is full.

use vstd::prelude::*;

use vstd::arithmetic::div_mod::{
    lemma_div_decreases, lemma_fundamental_div_mod, lemma_fundamental_div_mod_converse,
    lemma_mod_bound,
};

use crate::records::{Page, PageModel, PostModel};

verus! {

/// How many pages `n` posts fill at `p` posts per page: the quotient,
/// rounded up.
pub open spec fn page_count(n: int, p: int) -> int
    recommends
        p >= 1,
{
    if n % p == 0 {
        n / p
    } else {
        n / p + 1
    }
}

/// The page at 0-based position `i`: the slice from `i * p` to the end of
/// the listing or to the next page boundary, whichever comes first; page
/// numbers are 1-based; the first page has no previous link, the last no
/// next link.
pub open spec fn page_model_at(n: int, p: int, i: int) -> PageModel {
    PageModel {
        start: i * p,
        end: if n < (i + 1) * p {
            n
        } else {
            (i + 1) * p
        },
        number: i + 1,
        total: page_count(n, p),
        prev: if i == 0 {
            None
        } else {
            Some(i)
        },
        next: if i + 1 == page_count(n, p) {
            None
        } else {
            Some(i + 2)
        },
    }
}

/// All pages of a listing of `n` posts at `p` posts per page, in order.
pub open spec fn pages_model(n: int, p: int) -> Seq<PageModel>
    recommends
        n >= 0,
        p >= 1,
{
    Seq::new(page_count(n, p) as nat, |i: int| page_model_at(n, p, i))
}

/// A page position strictly before the end of the listing's pages starts
/// strictly inside the listing.
proof fn lemma_page_start_in_range(n: int, p: int, i: int)
    requires
        p >= 1,
        n >= 0,
        0 <= i < page_count(n, p),
    ensures
        i * p < n,
{
    lemma_fundamental_div_mod(n, p);
    lemma_mod_bound(n, p);
    let q = n / p;
    let r = n % p;
    if r == 0 {
        assert(i <= q - 1);
        assert(i * p <= (q - 1) * p) by (nonlinear_arith)
            requires
                i <= q - 1,
                p >= 1,
        ;
        assert((q - 1) * p == p * q - p) by (nonlinear_arith);
        assert(i * p <= n - p);
    } else {
        assert(i <= q);
        assert(i * p <= q * p) by (nonlinear_arith)
            requires
                i <= q,
                p >= 1,
        ;
        assert(q * p == p * q) by (nonlinear_arith);
        assert(i * p <= n - r);
    }
}

/// A page that ends before the next boundary is the last one.
proof fn lemma_page_partial_is_last(n: int, p: int, i: int)
    requires
        p >= 1,
        0 <= i,
        i * p < n,
        n < i * p + p,
    ensures
        page_count(n, p) == i + 1,
{
    let r = n - i * p;
    lemma_fundamental_div_mod_converse(n, p, i, r);
}

/// The page count fits beside the listing it describes: with at least one
/// post and pages of at least two, the quotient shrinks.
proof fn lemma_count_fits(n: int, p: int)
    requires
        p >= 1,
        n >= 0,
        n % p != 0,
    ensures
        n / p < n,
{
    lemma_fundamental_div_mod(n, p);
    lemma_mod_bound(n, p);
    if p == 1 {
        assert(n % 1 == 0);
    }
    assert(n >= 1);
    lemma_div_decreases(n, p);
}

/// The posts of the pages taken in order: the concatenation of the slices
/// the pages stand for.
pub open spec fn pages_flatten(posts: Seq<PostModel>, pages: Seq<PageModel>) -> Seq<PostModel>
    decreases pages.len(),
{
    if pages.len() == 0 {
        Seq::empty()
    } else {
        pages_flatten(posts, pages.drop_last()) + posts.subrange(
            pages.last().start,
            pages.last().end,
        )
    }
}

/// Where the first `m` pages end in the listing.
spec fn end_of(n: int, p: int, m: int) -> int {
    if n < m * p {
        n
    } else {
        m * p
    }
}

proof fn lemma_pages_cover_prefix(posts: Seq<PostModel>, n: int, p: int, m: int)
    requires
        p >= 1,
        n == posts.len(),
        0 <= m <= page_count(n, p),
    ensures
        pages_flatten(posts, pages_model(n, p).take(m)) == posts.take(end_of(n, p, m)),
    decreases m,
{
    let pages = pages_model(n, p);
    if m == 0 {
        assert(pages_flatten(posts, pages.take(0)) =~= posts.take(0));
    } else {
        lemma_pages_cover_prefix(posts, n, p, m - 1);
        lemma_page_start_in_range(n, p, m - 1);
        assert(m * p == (m - 1) * p + p) by (nonlinear_arith);
        assert(pages.take(m).drop_last() =~= pages.take(m - 1));
        assert(pages.take(m).last() == page_model_at(n, p, m - 1));
        assert(end_of(n, p, m - 1) == (m - 1) * p);
        assert(page_model_at(n, p, m - 1).end == end_of(n, p, m));
        assert(posts.take((m - 1) * p) + posts.subrange((m - 1) * p, end_of(n, p, m)) =~= posts.take(
            end_of(n, p, m),
        ));
    }
}

/// Law: concatenating all pages in their order reproduces the full post
/// sequence, each post on exactly one page; a listing of `n` posts at `p`
/// posts per page fills exactly `page_count(n, p)` pages.
pub proof fn lemma_pages_cover(posts: Seq<PostModel>, n: int, p: int)
    requires
        p >= 1,
        n == posts.len(),
    ensures
        pages_flatten(posts, pages_model(n, p)) == posts,
        pages_model(n, p).len() == page_count(n, p),
{
    let count = page_count(n, p);
    lemma_mod_bound(n, p);
    if n % p == 0 {
        lemma_fundamental_div_mod(n, p);
        assert(count * p == p * (n / p)) by (nonlinear_arith)
            requires
                count == n / p,
        ;
        assert(end_of(n, p, count) == n);
    } else {
        lemma_page_start_in_range(n, p, count - 1);
        assert(count * p == (count - 1) * p + p) by (nonlinear_arith);
        lemma_fundamental_div_mod(n, p);
        assert((count - 1) * p == p * (n / p)) by (nonlinear_arith)
            requires
                count - 1 == n / p,
        ;
        assert(n < count * p);
        assert(end_of(n, p, count) == n);
    }
    lemma_pages_cover_prefix(posts, n, p, count);
    assert(pages_model(n, p).take(count) =~= pages_model(n, p));
    assert(posts.take(n) =~= posts);
}

/// Law: the shape of every page of a listing of `n` posts at `p` per page —
/// its slice, its 1-based number, the shared total, and the navigation
/// links: every page except possibly the last holds exactly `p` posts, the
/// last holds the rest; the first page has no previous link, the last no
/// next link, and neighbouring pages point at each other.
pub proof fn lemma_pages_shape(n: int, p: int, i: int)
    requires
        n >= 0,
        p >= 1,
        0 <= i < page_count(n, p),
    ensures
        pages_model(n, p)[i].start == i * p,
        pages_model(n, p)[i].end == if n < (i + 1) * p {
            n
        } else {
            (i + 1) * p
        },
        pages_model(n, p)[i].start < pages_model(n, p)[i].end,
        i + 1 < page_count(n, p) ==> pages_model(n, p)[i].end - pages_model(n, p)[i].start == p,
        i + 1 == page_count(n, p) ==> pages_model(n, p)[i].end == n,
        pages_model(n, p)[i].number == i + 1,
        pages_model(n, p)[i].total == page_count(n, p),
        pages_model(n, p)[i].prev == if i == 0 {
            Option::<int>::None
        } else {
            Option::<int>::Some(i)
        },
        pages_model(n, p)[i].next == if i + 1 == page_count(n, p) {
            Option::<int>::None
        } else {
            Option::<int>::Some(i + 2)
        },
{
    lemma_page_start_in_range(n, p, i);
    assert((i + 1) * p == i * p + p) by (nonlinear_arith);
    if i + 1 < page_count(n, p) {
        lemma_page_start_in_range(n, p, i + 1);
    }
    if i + 1 == page_count(n, p) {
        lemma_mod_bound(n, p);
        lemma_fundamental_div_mod(n, p);
        if n % p == 0 {
            assert((i + 1) * p == p * (n / p)) by (nonlinear_arith)
                requires
                    i + 1 == n / p,
            ;
        } else {
            assert(i * p == p * (n / p)) by (nonlinear_arith)
                requires
                    i == n / p,
            ;
        }
    }
}

/// Cut the listing of `n` posts into pages of `page_size`, in order: every
/// page but possibly the last holds exactly `page_size` posts, the last
/// holds the rest, and the navigation links tie neighbouring pages
/// together.
pub fn paginate(n: usize, page_size: usize) -> (r: Vec<Page>)
    requires
        page_size >= 1,
    ensures
        r.deep_view() == pages_model(n as int, page_size as int),
{
    let ghost ni = n as int;
    let ghost pi = page_size as int;
    let extra: usize = if n % page_size == 0 {
        0
    } else {
        1
    };
    proof {
        if extra == 1 {
            lemma_count_fits(ni, pi);
        }
    }
    let total = n / page_size + extra;
    let mut pages: Vec<Page> = Vec::new();
    let mut i: usize = 0;
    let mut start: usize = 0;
    while i < total
        invariant
            page_size >= 1,
            ni == n as int,
            pi == page_size as int,
            total as int == page_count(ni, pi),
            i <= total,
            start <= n,
            i < total ==> start as int == i as int * pi,
            pages@.len() == i,
            forall|k: int| 0 <= k < i ==> #[trigger] pages.deep_view()[k] == page_model_at(
                ni,
                pi,
                k,
            ),
        decreases total - i,
    {
        proof {
            lemma_page_start_in_range(ni, pi, i as int);
        }
        let remaining = n - start;
        let full = remaining >= page_size;
        let len_i = if full {
            page_size
        } else {
            remaining
        };
        let end = start + len_i;
        proof {
            assert((i as int + 1) * pi == i as int * pi + pi) by (nonlinear_arith);
            if !full {
                lemma_page_partial_is_last(ni, pi, i as int);
            }
        }
        let number = i + 1;
        let prev = if i == 0 {
            None
        } else {
            Some(i)
        };
        let next = if number == total {
            None
        } else {
            Some(number + 1)
        };
        let q = Page { start, end, number, total, prev, next };
        proof {
            assert(q@ == page_model_at(ni, pi, i as int));
            crate::records::lemma_deep_view_unfold(&pages);
        }
        let ghost pre = pages.deep_view();
        pages.push(q);
        proof {
            crate::records::lemma_deep_view_unfold(&pages);
            assert forall|k: int| 0 <= k < i + 1 implies #[trigger] pages.deep_view()[k]
                == page_model_at(ni, pi, k) by {
                if k < i {
                    assert(pages.deep_view()[k] == pre[k]);
                }
            }
        }
        start = end;
        i += 1;
        proof {
            if !full {
                assert(i as int == page_count(ni, pi));
            }
        }
    }
    proof {
        crate::records::lemma_deep_view_unfold(&pages);
        assert(pages.deep_view() =~= pages_model(ni, pi));
    }
    pages
}

} // verus!
