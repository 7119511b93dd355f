use aharc::parse::{parse_comment, parse_post};
use aharc::pipeline::run;
use aharc::records::{Config, MalformedPolicy, RunError};

fn post_line(id: &str, num_comments: i64, created_utc: i64) -> String {
    let head = format!("{{\"id\":\"{id}\",\"title\":\"a title\",\"author\":\"alice\",");
    let mid = format!("\"num_comments\":{num_comments},\"selftext\":\"text\",\"created_utc\":{created_utc},");
    let tail = "\"selftext_html\":\"&lt;p&gt;text&lt;/p&gt;\"}";
    format!("{head}{mid}{tail}")
}

fn comment_line(parent: &str, body: &str, created_utc: i64, score: i64) -> String {
    format!(
        "{{\"parent_id\":\"{parent}\",\"body\":\"{body}\",\"author\":\"bob\",\"created_utc\":{created_utc},\"score\":{score}}}"
    )
}

#[test]
fn parse_full_post_line() {
    let p = parse_post(&post_line("abc", 7, 1234)).expect("post line should parse");
    assert_eq!(p.id, "abc");
    assert_eq!(p.title, "a title");
    assert_eq!(p.author, "alice");
    assert_eq!(p.num_comments, 7);
    assert_eq!(p.selftext, "text");
    assert_eq!(p.selftext_html, "&lt;p&gt;text&lt;/p&gt;");
    assert_eq!(p.created_utc, 1234);
    assert_eq!(p.removed_by_category, None);
    assert!(p.comments.is_empty());
}

#[test]
fn parse_post_optional_fields_default() {
    let line = "{\"id\":\"x\",\"title\":\"t\",\"author\":\"a\",\"num_comments\":1,\"selftext\":\"s\",\"created_utc\":5}";
    let p = parse_post(line).expect("line without optional fields should parse");
    assert_eq!(p.selftext_html, "");
    assert_eq!(p.removed_by_category, None);

    let line_null = "{\"id\":\"x\",\"title\":\"t\",\"author\":\"a\",\"num_comments\":1,\"selftext\":\"s\",\"created_utc\":5,\"selftext_html\":null,\"removed_by_category\":null}";
    let p = parse_post(line_null).expect("null optional fields should parse");
    assert_eq!(p.selftext_html, "");
    assert_eq!(p.removed_by_category, None);
}

#[test]
fn parse_post_removal_category_kept() {
    let line = "{\"id\":\"x\",\"title\":\"t\",\"author\":\"a\",\"num_comments\":1,\"selftext\":\"s\",\"created_utc\":5,\"removed_by_category\":\"moderator\"}";
    let p = parse_post(line).expect("line should parse");
    assert_eq!(p.removed_by_category, Some("moderator".to_string()));
}

#[test]
fn parse_post_missing_required_field() {
    // No title.
    let line = "{\"id\":\"x\",\"author\":\"a\",\"num_comments\":1,\"selftext\":\"s\",\"created_utc\":5}";
    assert!(parse_post(line).is_none());
    // Creation time is text, not an integer.
    let line =
        "{\"id\":\"x\",\"title\":\"t\",\"author\":\"a\",\"num_comments\":1,\"selftext\":\"s\",\"created_utc\":\"5\"}";
    assert!(parse_post(line).is_none());
}

#[test]
fn parse_post_rejects_bad_json() {
    assert!(parse_post("not json at all").is_none());
    assert!(parse_post("{\"id\":\"x\"").is_none());
    assert!(parse_post("").is_none());
}

#[test]
fn parse_comment_line_roundtrip() {
    let c = parse_comment(&comment_line("t3_abc", "hello", 99, -3))
        .expect("comment line should parse");
    assert_eq!(c.parent_id, "t3_abc");
    assert_eq!(c.body, "hello");
    assert_eq!(c.author, "bob");
    assert_eq!(c.created_utc, 99);
    assert_eq!(c.score, -3);
}

#[test]
fn parse_comment_missing_field() {
    let line = "{\"parent_id\":\"t3_abc\",\"body\":\"hello\",\"author\":\"bob\",\"created_utc\":99}";
    assert!(parse_comment(line).is_none());
    assert!(parse_comment("[1,2,3]").is_none());
}

#[test]
fn run_skip_policy_counts_malformed() {
    let post_lines = vec![
        post_line("a", 2, 100),
        "garbage".to_string(),
        post_line("b", 2, 200),
    ];
    let comment_lines = vec![
        comment_line("t3_a", "one", 100, 1),
        "{broken".to_string(),
        comment_line("t3_b", "two", 100, 1),
        "also garbage".to_string(),
    ];
    let config = Config { cutoff: None, page_size: 25, malformed: MalformedPolicy::Skip };
    let report = run(&post_lines, &comment_lines, &config).expect("skip policy never aborts");
    assert_eq!(report.malformed_posts, 1);
    assert_eq!(report.malformed_comments, 2);
    assert_eq!(report.listing.posts.len(), 2);
}

#[test]
fn run_failfast_aborts_on_first_bad_line() {
    let post_lines = vec![post_line("a", 2, 100), "garbage".to_string()];
    let comment_lines = vec![comment_line("t3_a", "one", 100, 1)];
    let config = Config { cutoff: None, page_size: 25, malformed: MalformedPolicy::FailFast };
    let r = run(&post_lines, &comment_lines, &config);
    assert!(matches!(r, Err(RunError::MalformedPost(1))));

    let post_lines = vec![post_line("a", 2, 100)];
    let comment_lines = vec!["nope".to_string(), comment_line("t3_a", "one", 100, 1)];
    let r = run(&post_lines, &comment_lines, &config);
    assert!(matches!(r, Err(RunError::MalformedComment(0))));
}

#[test]
fn run_end_to_end() {
    let post_lines = vec![
        post_line("abc123", 10, 300),
        post_line("empty", 5, 400),
    ];
    let comment_lines = vec![
        comment_line("t3_abc123", "fish &amp; chips", 100, 2),
        comment_line("t3_abc123", "[deleted]", 100, 9),
        comment_line("t3_abc123", "plain", 100, 5),
        comment_line("t3_gone", "orphan", 100, 1),
    ];
    let config = Config { cutoff: None, page_size: 25, malformed: MalformedPolicy::Skip };
    let report = run(&post_lines, &comment_lines, &config).expect("run should succeed");
    let listing = &report.listing;
    // The post with no surviving comment is dropped.
    assert_eq!(listing.posts.len(), 1);
    let post = &listing.posts[0];
    assert_eq!(post.id, "abc123");
    // Advisory count 10 is replaced by the two attached comments.
    assert_eq!(post.comment_count, 2);
    // Rendered body decoded from the escaped source field.
    assert_eq!(post.selftext_html, "<p>text</p>");
    // Comments sorted by descending score, bodies decoded.
    assert_eq!(post.comments[0].body, "plain");
    assert_eq!(post.comments[0].score, 5);
    assert_eq!(post.comments[1].body, "fish & chips");
    assert_eq!(post.comments[1].score, 2);
    assert_eq!(listing.orphan_comments, 1);
    assert_eq!(listing.pages.len(), 1);
}
