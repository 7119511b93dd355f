use aharc::pipeline::run_records;
use aharc::records::{Config, MalformedPolicy, RawComment, RawPost};

fn mk_post(id: &str, created_utc: i64, num_comments: i64) -> RawPost {
    RawPost {
        id: id.to_string(),
        title: format!("title of {id}"),
        author: "author".to_string(),
        selftext: "body text".to_string(),
        selftext_html: String::new(),
        num_comments,
        created_utc,
        removed_by_category: None,
        comments: Vec::new(),
    }
}

fn mk_comment(parent_id: &str, body: &str, created_utc: i64, score: i64) -> RawComment {
    RawComment {
        parent_id: parent_id.to_string(),
        body: body.to_string(),
        author: "commenter".to_string(),
        created_utc,
        score,
    }
}

fn config() -> Config {
    Config { cutoff: None, page_size: 25, malformed: MalformedPolicy::Skip }
}

#[test]
fn parent_prefix_normalized() {
    let posts = vec![mk_post("abc123", 100, 5)];
    let comments = vec![mk_comment("t3_abc123", "hello", 100, 1)];
    let listing = run_records(&posts, &comments, &config());
    assert_eq!(listing.posts.len(), 1);
    assert_eq!(listing.posts[0].id, "abc123");
    assert_eq!(listing.posts[0].comment_count, 1);
    assert_eq!(listing.posts[0].comments[0].body, "hello");
    assert_eq!(listing.orphan_comments, 0);
}

#[test]
fn post_identifier_tag_stripped() {
    let posts = vec![mk_post("t3_xyz", 100, 5)];
    let comments = vec![mk_comment("t3_xyz", "hi", 100, 1)];
    let listing = run_records(&posts, &comments, &config());
    assert_eq!(listing.posts.len(), 1);
    assert_eq!(listing.posts[0].id, "xyz");
    assert_eq!(listing.posts[0].comment_count, 1);
}

#[test]
fn advisory_count_replaced() {
    let posts = vec![mk_post("p1", 100, 10)];
    let comments = vec![
        mk_comment("t3_p1", "one", 100, 1),
        mk_comment("t3_p1", "[deleted]", 100, 2),
        mk_comment("t3_p1", "two", 100, 3),
        {
            let mut c = mk_comment("t3_p1", "from a bot", 100, 4);
            c.author = "AutoModerator".to_string();
            c
        },
        mk_comment("t3_p1", "three", 100, 5),
    ];
    let listing = run_records(&posts, &comments, &config());
    assert_eq!(listing.posts.len(), 1);
    assert_eq!(listing.posts[0].comment_count, 3);
    assert_eq!(listing.posts[0].comments.len(), 3);
}

#[test]
fn cutoff_drops_commentless_post() {
    let cutoff_time: i64 = 1000;
    let cfg = Config {
        cutoff: Some(cutoff_time),
        page_size: 25,
        malformed: MalformedPolicy::Skip,
    };
    // The post is created after the cutoff and is admitted at first, but
    // every comment predates the cutoff, so the post ends with zero
    // comments and is dropped from the output.
    let posts = vec![mk_post("p1", cutoff_time + 10, 4)];
    let comments = vec![
        mk_comment("t3_p1", "too old", cutoff_time - 5, 1),
        mk_comment("t3_p1", "also too old", cutoff_time - 1, 2),
    ];
    let listing = run_records(&posts, &comments, &cfg);
    assert_eq!(listing.posts.len(), 0);
    assert_eq!(listing.pages.len(), 0);
}

#[test]
fn cutoff_is_strict() {
    let cfg = Config { cutoff: Some(1000), page_size: 25, malformed: MalformedPolicy::Skip };
    let posts = vec![mk_post("at", 1000, 1), mk_post("after", 1001, 1)];
    let comments = vec![
        mk_comment("t3_at", "a", 1001, 1),
        mk_comment("t3_after", "b", 1001, 1),
    ];
    let listing = run_records(&posts, &comments, &cfg);
    // The post created exactly at the cutoff is rejected; only strictly
    // newer records are admitted.
    assert_eq!(listing.posts.len(), 1);
    assert_eq!(listing.posts[0].id, "after");
}

#[test]
fn orphan_comment_dropped_without_failure() {
    let posts = vec![mk_post("p1", 100, 2)];
    let comments = vec![
        mk_comment("t3_p1", "kept", 100, 1),
        mk_comment("t3_nosuch", "orphan", 100, 9),
    ];
    let listing = run_records(&posts, &comments, &config());
    assert_eq!(listing.orphan_comments, 1);
    assert_eq!(listing.posts.len(), 1);
    assert_eq!(listing.posts[0].comment_count, 1);
    assert_eq!(listing.posts[0].comments[0].body, "kept");
}

#[test]
fn comments_attach_to_their_posts_exactly_once() {
    let posts = vec![mk_post("a", 100, 3), mk_post("b", 200, 3)];
    let comments = vec![
        mk_comment("t3_a", "a1", 100, 1),
        mk_comment("t3_b", "b1", 100, 1),
        mk_comment("t3_a", "a2", 100, 2),
        mk_comment("t3_a", "a3", 100, 3),
    ];
    let listing = run_records(&posts, &comments, &config());
    assert_eq!(listing.posts.len(), 2);
    // Posts are sorted by descending creation time: "b" first.
    assert_eq!(listing.posts[0].id, "b");
    assert_eq!(listing.posts[0].comment_count, 1);
    assert_eq!(listing.posts[1].id, "a");
    assert_eq!(listing.posts[1].comment_count, 3);
    let bodies: Vec<&str> =
        listing.posts[1].comments.iter().map(|c| c.body.as_str()).collect();
    // Scores 3, 2, 1 in descending order; each comment exactly once.
    assert_eq!(bodies, vec!["a3", "a2", "a1"]);
}

#[test]
fn comments_sorted_by_descending_score_stable_ties() {
    let posts = vec![mk_post("p", 100, 4)];
    let comments = vec![
        mk_comment("t3_p", "low", 100, 1),
        mk_comment("t3_p", "first-five", 100, 5),
        mk_comment("t3_p", "mid", 100, 3),
        mk_comment("t3_p", "second-five", 100, 5),
    ];
    let listing = run_records(&posts, &comments, &config());
    let got: Vec<(i64, &str)> =
        listing.posts[0].comments.iter().map(|c| (c.score, c.body.as_str())).collect();
    assert_eq!(
        got,
        vec![(5, "first-five"), (5, "second-five"), (3, "mid"), (1, "low")]
    );
}

#[test]
fn posts_sorted_by_descending_creation_time() {
    let posts = vec![
        mk_post("oldest", 10, 1),
        mk_post("newest", 30, 1),
        mk_post("middle", 20, 1),
    ];
    let comments = vec![
        mk_comment("t3_oldest", "c", 10, 1),
        mk_comment("t3_newest", "c", 10, 1),
        mk_comment("t3_middle", "c", 10, 1),
    ];
    let listing = run_records(&posts, &comments, &config());
    let ids: Vec<&str> = listing.posts.iter().map(|p| p.id.as_str()).collect();
    assert_eq!(ids, vec!["newest", "middle", "oldest"]);
}

#[test]
fn duplicate_post_id_overwrites_earlier() {
    let mut first = mk_post("dup", 100, 1);
    first.title = "first".to_string();
    let mut second = mk_post("dup", 200, 1);
    second.title = "second".to_string();
    let posts = vec![first, second];
    let comments = vec![mk_comment("t3_dup", "c", 100, 1)];
    let listing = run_records(&posts, &comments, &config());
    assert_eq!(listing.posts.len(), 1);
    assert_eq!(listing.posts[0].title, "second");
    assert_eq!(listing.posts[0].created_utc, 200);
}

#[test]
fn removed_posts_and_markers_excluded() {
    let mut removed_body = mk_post("r1", 100, 1);
    removed_body.selftext = "[removed]".to_string();
    let mut removed_cat = mk_post("r2", 100, 1);
    removed_cat.removed_by_category = Some("moderator".to_string());
    let zero_advisory = mk_post("r3", 100, 0);
    let kept = mk_post("ok", 100, 1);
    let posts = vec![removed_body, removed_cat, zero_advisory, kept];
    let comments = vec![
        mk_comment("t3_r1", "c", 100, 1),
        mk_comment("t3_r2", "c", 100, 1),
        mk_comment("t3_r3", "c", 100, 1),
        mk_comment("t3_ok", "c", 100, 1),
    ];
    let listing = run_records(&posts, &comments, &config());
    assert_eq!(listing.posts.len(), 1);
    assert_eq!(listing.posts[0].id, "ok");
    // The three comments whose posts were excluded are orphans.
    assert_eq!(listing.orphan_comments, 3);
}

#[test]
fn html_entities_decoded_in_output() {
    let mut post = mk_post("p", 100, 1);
    post.title = "Q &amp; A".to_string();
    post.selftext = "a &lt; b".to_string();
    post.selftext_html = "&lt;p&gt;hi&lt;/p&gt;".to_string();
    let posts = vec![post];
    let comments = vec![mk_comment("t3_p", "fish &amp; chips", 100, 1)];
    let listing = run_records(&posts, &comments, &config());
    assert_eq!(listing.posts[0].title, "Q & A");
    assert_eq!(listing.posts[0].selftext, "a < b");
    assert_eq!(listing.posts[0].selftext_html, "<p>hi</p>");
    assert_eq!(listing.posts[0].comments[0].body, "fish & chips");
}

#[test]
fn rerun_on_equal_inputs_is_identical() {
    let build = || {
        let posts = vec![mk_post("a", 100, 2), mk_post("b", 200, 2)];
        let comments = vec![
            mk_comment("t3_a", "x", 100, 2),
            mk_comment("t3_b", "y", 100, 1),
            mk_comment("t3_a", "z", 100, 2),
        ];
        (posts, comments)
    };
    let (posts1, comments1) = build();
    let (posts2, comments2) = build();
    let first = run_records(&posts1, &comments1, &config());
    let second = run_records(&posts2, &comments2, &config());
    assert_eq!(first.posts.len(), second.posts.len());
    for (p, q) in first.posts.iter().zip(second.posts.iter()) {
        assert_eq!(p.id, q.id);
        assert_eq!(p.title, q.title);
        assert_eq!(p.comment_count, q.comment_count);
        assert_eq!(p.created_utc, q.created_utc);
        let a: Vec<(&str, i64)> =
            p.comments.iter().map(|c| (c.body.as_str(), c.score)).collect();
        let b: Vec<(&str, i64)> =
            q.comments.iter().map(|c| (c.body.as_str(), c.score)).collect();
        assert_eq!(a, b);
    }
    assert_eq!(first.pages, second.pages);
    assert_eq!(first.orphan_comments, second.orphan_comments);
}

#[test]
fn empty_inputs_give_empty_listing() {
    let listing = run_records(&Vec::new(), &Vec::new(), &config());
    assert_eq!(listing.posts.len(), 0);
    assert_eq!(listing.pages.len(), 0);
    assert_eq!(listing.orphan_comments, 0);
}

#[test]
fn negative_scores_sort_below_positive() {
    let posts = vec![mk_post("p", 100, 3)];
    let comments = vec![
        mk_comment("t3_p", "downvoted", 100, -7),
        mk_comment("t3_p", "plain", 100, 0),
        mk_comment("t3_p", "liked", 100, 2),
    ];
    let listing = run_records(&posts, &comments, &config());
    let scores: Vec<i64> = listing.posts[0].comments.iter().map(|c| c.score).collect();
    assert_eq!(scores, vec![2, 0, -7]);
}

#[test]
fn no_cutoff_admits_any_creation_time() {
    // Without a cutoff even records timestamped before the epoch are kept.
    let posts = vec![mk_post("old", -5, 1)];
    let comments = vec![mk_comment("t3_old", "c", -9, 1)];
    let listing = run_records(&posts, &comments, &config());
    assert_eq!(listing.posts.len(), 1);
    assert_eq!(listing.posts[0].comment_count, 1);
}

#[test]
fn listing_pages_partition_posts() {
    let mut posts = Vec::new();
    let mut comments = Vec::new();
    for k in 0..57 {
        let id = format!("p{k:03}");
        posts.push(mk_post(&id, 1000 + k, 1));
        comments.push(mk_comment(&format!("t3_{id}"), "c", 1000, 1));
    }
    let listing = run_records(&posts, &comments, &config());
    assert_eq!(listing.posts.len(), 57);
    assert_eq!(listing.pages.len(), 3);
    let sizes: Vec<usize> = listing.pages.iter().map(|p| p.end - p.start).collect();
    assert_eq!(sizes, vec![25, 25, 7]);
    // Concatenating the pages in order walks the full listing exactly once.
    let mut seen = 0;
    for page in &listing.pages {
        assert_eq!(page.start, seen);
        seen = page.end;
    }
    assert_eq!(seen, listing.posts.len());
}
