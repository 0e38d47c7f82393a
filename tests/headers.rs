use jay_rag_core::headers::strip_headers_footers;

fn page(n: u32, body: &str) -> (u32, String) {
    (n, format!("ACME Manual\nchapter\n{body}\nmore {n}\nend {n}\nConfidential - do not copy"))
}

#[test]
fn repeated_top_and_bottom_lines_are_removed() {
    let mut pages = vec![page(0, "alpha"), page(1, "beta"), page(2, "gamma"), page(3, "delta")];
    let (headers, footers) = strip_headers_footers(&mut pages);
    assert!(headers.contains(&"ACME Manual".to_string()));
    assert!(headers.contains(&"chapter".to_string()));
    assert_eq!(footers, vec!["Confidential - do not copy".to_string()]);
    assert_eq!(pages[0], (0, "alpha\nmore 0\nend 0".to_string()));
    assert_eq!(pages[3].1, "delta\nmore 3\nend 3");
}

#[test]
fn fewer_than_three_pages_are_left_alone() {
    let mut pages = vec![page(0, "a"), page(1, "b")];
    let before = pages.clone();
    let (headers, footers) = strip_headers_footers(&mut pages);
    assert!(headers.is_empty() && footers.is_empty());
    assert_eq!(pages, before);
}

#[test]
fn lines_below_sixty_percent_stay() {
    let mut pages = vec![
        (0, "Top\nx".to_string()),
        (1, "Top\ny".to_string()),
        (2, "z\nw".to_string()),
        (3, "q\nr".to_string()),
        (4, "s\nt".to_string()),
    ];
    let before = pages.clone();
    let (headers, footers) = strip_headers_footers(&mut pages);
    assert!(headers.is_empty() && footers.is_empty());
    assert_eq!(pages, before);
}

#[test]
fn three_of_five_is_enough() {
    let mut pages = vec![
        (0, "Top\nx".to_string()),
        (1, "Top\ny".to_string()),
        (2, "  Top  \nw".to_string()),
        (3, "q\nr".to_string()),
        (4, "s\nt".to_string()),
    ];
    let (headers, _) = strip_headers_footers(&mut pages);
    assert_eq!(headers, vec!["Top".to_string()]);
    assert_eq!(pages[2].1, "w");
    assert_eq!(pages[3].1, "q\nr");
}

#[test]
fn a_line_counts_once_per_page() {
    let mut pages = vec![
        (0, "Dup\nDup\nDup\nbody".to_string()),
        (1, "Dup\nother\nmore\nbody b".to_string()),
        (2, "x\ny\nz\nw".to_string()),
        (3, "p\nq\nr\ns".to_string()),
        (4, "e\nf\ng\nh".to_string()),
    ];
    let before = pages.clone();
    let (headers, footers) = strip_headers_footers(&mut pages);
    assert!(headers.is_empty() && footers.is_empty());
    assert_eq!(pages, before);
}
