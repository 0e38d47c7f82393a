use jay_rag_core::trash::{
    create_header_footer_detections, detect_blank, detect_boilerplate, detect_toc, detect_trash,
    match_trash_filter, truncate_preview, TrashType,
};

#[test]
fn test_detect_blank_empty() {
    let result = detect_blank(1, "   ");
    assert!(result.is_some());
    let d = result.unwrap();
    assert_eq!(d.trash_type, TrashType::BlankPage);
    assert!(d.confidence >= 80);
}

#[test]
fn test_detect_blank_marker() {
    let result = detect_blank(1, "This page intentionally left blank");
    assert!(result.is_some());
    assert_eq!(result.unwrap().confidence, 95);
}

#[test]
fn test_detect_toc_heading() {
    let text = "สารบัญ\nบทที่ 1 ..... 5\nบทที่ 2 ..... 12\nบทที่ 3 ..... 20";
    let result = detect_toc(1, text);
    assert!(result.is_some());
    let d = result.unwrap();
    assert_eq!(d.trash_type, TrashType::TableOfContents);
    assert!(d.confidence >= 90);
}

#[test]
fn test_detect_boilerplate_multiple_keywords() {
    let text = "Copyright 2024 Company. All rights reserved. สงวนลิขสิทธิ์";
    let result = detect_boilerplate(1, text);
    assert!(result.is_some());
    let d = result.unwrap();
    assert_eq!(d.trash_type, TrashType::Boilerplate);
    assert!(d.confidence >= 85);
}

#[test]
fn test_detect_boilerplate_single_keyword_long_page() {
    let text = format!("Copyright 2024. {}", "x".repeat(600));
    let result = detect_boilerplate(1, &text);
    assert!(result.is_none());
}

#[test]
fn test_no_false_positive_on_normal_text() {
    let text = "This is a normal paragraph about the product features. \
                 It describes how to install and configure the system.";
    assert!(detect_toc(1, text).is_none());
    assert!(detect_boilerplate(1, text).is_none());
    assert!(detect_blank(1, text).is_none());
}

#[test]
fn test_detect_trash_combined() {
    let pages = vec![
        (0, "สารบัญ\nบทที่ 1 บทนำเบื้องต้น ..... 5\nบทที่ 2 การติดตั้ง ..... 12\nบทที่ 3 การใช้งาน ..... 20".to_string()),
        (1, "Normal content here with enough text to pass blank detection.".to_string()),
        (2, "  ".to_string()),
    ];
    let results = detect_trash(&pages);
    assert_eq!(results.len(), 2);
}

#[test]
fn test_header_footer_detections() {
    let pages = vec![(0, "content".to_string()), (1, "content".to_string())];
    let headers = vec!["Company Name".to_string()];
    let footers: Vec<String> = vec![];
    let results = create_header_footer_detections(&pages, &headers, &footers);
    assert_eq!(results.len(), 1);
    assert_eq!(results[0].trash_type, TrashType::HeaderFooter);
    assert_eq!(results[0].page, 0);
}

#[test]
fn blank_marker_page_is_blank_at_95() {
    let d = detect_blank(4, "This page intentionally left blank").unwrap();
    assert_eq!(d.trash_type, TrashType::BlankPage);
    assert_eq!(d.confidence, 95);
    assert_eq!(d.page, 4);
    assert_eq!(d.reason, "Explicit blank page marker found");
    assert_eq!(d.preview, "This page intentionally left blank");
}

#[test]
fn blank_marker_in_upper_case_is_found() {
    let d = detect_blank(1, "THIS PAGE INTENTIONALLY LEFT BLANK").unwrap();
    assert_eq!(d.confidence, 95);
}

#[test]
fn thai_blank_marker_is_found() {
    let d = detect_blank(1, "หน้านี้ว่างโดยตั้งใจ").unwrap();
    assert_eq!(d.confidence, 95);
}

#[test]
fn nearly_blank_reason_counts_bytes() {
    let d = detect_blank(2, "  Page 7  ").unwrap();
    assert_eq!(d.confidence, 80);
    assert_eq!(d.reason, "Nearly blank page (6 chars)");
    assert_eq!(d.preview, "Page 7");
}

#[test]
fn english_contents_heading_with_three_leaders() {
    let text = "Contents\nIntro ..... 1\nSetup ..... 4\nUse ..... 9";
    let d = detect_toc(3, text).unwrap();
    assert_eq!(d.trash_type, TrashType::TableOfContents);
    assert_eq!(d.confidence, 95);
    assert_eq!(d.reason, "TOC heading keyword found with 3 dot-leader lines");
}

#[test]
fn upper_case_heading_alone_is_90() {
    let d = detect_toc(1, "TABLE OF CONTENTS").unwrap();
    assert_eq!(d.confidence, 90);
    assert_eq!(d.reason, "TOC heading keyword found");
}

#[test]
fn five_leaders_without_heading_is_70() {
    let text = "A ... 1\nB ... 2\nC … 3\nD ... 4\nE ... 5";
    let d = detect_toc(1, text).unwrap();
    assert_eq!(d.confidence, 70);
    assert_eq!(d.reason, "5 dot-leader lines detected (possible TOC)");
}

#[test]
fn four_leaders_without_heading_is_nothing() {
    let text = "A ... 1\nB ... 2\nC ... 3\nD ... 4";
    assert!(detect_toc(1, text).is_none());
}

#[test]
fn single_keyword_on_short_page_is_65() {
    let d = detect_boilerplate(1, "Confidential").unwrap();
    assert_eq!(d.confidence, 65);
    assert_eq!(d.reason, "Boilerplate keyword \"confidential\" on short page (12 chars)");
}

#[test]
fn multiple_keywords_are_listed_in_order() {
    let d = detect_boilerplate(1, "Disclaimer and Terms of Use").unwrap();
    assert_eq!(d.confidence, 85);
    assert_eq!(d.reason, "Multiple boilerplate keywords: disclaimer, terms of use");
}

#[test]
fn header_footer_summary_text() {
    let pages = vec![(0, "a".to_string()), (1, "b".to_string()), (2, "c".to_string())];
    let headers = vec!["ACME".to_string()];
    let footers = vec!["Page".to_string()];
    let results = create_header_footer_detections(&pages, &headers, &footers);
    assert_eq!(results[0].confidence, 100);
    assert_eq!(
        results[0].reason,
        "Repeated text stripped from 3 pages: Header: \"ACME\", Footer: \"Page\""
    );
    assert_eq!(results[0].preview, "Header: \"ACME\"; Footer: \"Page\"");
}

#[test]
fn no_stripped_lines_no_detection() {
    let pages = vec![(0, "a".to_string())];
    let none: Vec<String> = vec![];
    assert!(create_header_footer_detections(&pages, &none, &none).is_empty());
}

#[test]
fn preview_is_at_most_200_characters() {
    let thai = "ก".repeat(150);
    assert_eq!(truncate_preview(&thai), thai);
    let long = "x".repeat(250);
    let p = truncate_preview(&long);
    assert_eq!(p, format!("{}...", "x".repeat(197)));
    assert_eq!(p.chars().count(), 200);
    let thai_long = "ข".repeat(201);
    assert_eq!(truncate_preview(&thai_long), format!("{}...", "ข".repeat(197)));
    assert_eq!(truncate_preview("  short  "), "short");
}

#[test]
fn short_thai_page_is_nearly_blank() {
    let text = "ก".repeat(20);
    let d = detect_blank(1, &text).unwrap();
    assert_eq!(d.confidence, 80);
    assert_eq!(d.reason, "Nearly blank page (20 chars)");
}

#[test]
fn boilerplate_length_counts_characters() {
    let text = format!("Confidential {}", "ก".repeat(400));
    assert_eq!(detect_boilerplate(1, &text).unwrap().confidence, 65);
}

#[test]
fn trash_type_labels() {
    assert_eq!(TrashType::TableOfContents.label(), "Table of Contents");
    assert_eq!(TrashType::HeaderFooter.label(), "Header/Footer");
}

#[test]
fn trash_filter_by_kind_codes() {
    let blank = detect_blank(1, "").unwrap();
    assert!(match_trash_filter(&blank, None));
    assert!(match_trash_filter(&blank, Some("toc, blank")));
    assert!(!match_trash_filter(&blank, Some("toc,boilerplate")));
    assert!(!match_trash_filter(&blank, Some("")));
}
