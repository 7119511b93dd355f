use aharc::paginate::paginate;

#[test]
fn pages_57_by_25() {
    let pages = paginate(57, 25);
    assert_eq!(pages.len(), 3);

    assert_eq!(pages[0].start, 0);
    assert_eq!(pages[0].end, 25);
    assert_eq!(pages[0].end - pages[0].start, 25);
    assert_eq!(pages[0].number, 1);
    assert_eq!(pages[0].total, 3);
    assert_eq!(pages[0].prev, None);
    assert_eq!(pages[0].next, Some(2));

    assert_eq!(pages[1].start, 25);
    assert_eq!(pages[1].end, 50);
    assert_eq!(pages[1].number, 2);
    assert_eq!(pages[1].prev, Some(1));
    assert_eq!(pages[1].next, Some(3));

    assert_eq!(pages[2].start, 50);
    assert_eq!(pages[2].end, 57);
    assert_eq!(pages[2].end - pages[2].start, 7);
    assert_eq!(pages[2].number, 3);
    assert_eq!(pages[2].prev, Some(2));
    assert_eq!(pages[2].next, None);
}

#[test]
fn pages_empty_listing() {
    let pages = paginate(0, 25);
    assert_eq!(pages.len(), 0);
}

#[test]
fn pages_exact_multiple() {
    let pages = paginate(50, 25);
    assert_eq!(pages.len(), 2);
    assert_eq!(pages[0].end - pages[0].start, 25);
    assert_eq!(pages[1].end - pages[1].start, 25);
    assert_eq!(pages[0].prev, None);
    assert_eq!(pages[1].next, None);
    assert_eq!(pages[0].next, Some(2));
    assert_eq!(pages[1].prev, Some(1));
}

#[test]
fn pages_single_post() {
    let pages = paginate(1, 25);
    assert_eq!(pages.len(), 1);
    assert_eq!(pages[0].start, 0);
    assert_eq!(pages[0].end, 1);
    assert_eq!(pages[0].number, 1);
    assert_eq!(pages[0].total, 1);
    assert_eq!(pages[0].prev, None);
    assert_eq!(pages[0].next, None);
}

#[test]
fn pages_one_per_page() {
    let pages = paginate(3, 1);
    assert_eq!(pages.len(), 3);
    for (i, page) in pages.iter().enumerate() {
        assert_eq!(page.start, i);
        assert_eq!(page.end, i + 1);
        assert_eq!(page.number, i + 1);
        assert_eq!(page.total, 3);
    }
}

#[test]
fn pages_concatenation_covers_listing() {
    let n = 57;
    let pages = paginate(n, 25);
    let mut covered: Vec<usize> = Vec::new();
    for page in &pages {
        for k in page.start..page.end {
            covered.push(k);
        }
    }
    let expected: Vec<usize> = (0..n).collect();
    assert_eq!(covered, expected);
}
