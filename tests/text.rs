use jay_rag_core::cleanup::cleanup_extracted_text;
use jay_rag_core::table::looks_like_table;
use jay_rag_core::text::truncate_str;

#[test]
fn aligned_columns_are_a_table() {
    assert!(looks_like_table("Name    Age    City\nBob     30     LA\nAnn     29     NY"));
}

#[test]
fn prose_is_not_a_table() {
    let prose = "The device starts when the button is held. It then shows the menu. Pick a language to go on.";
    assert!(!looks_like_table(prose));
    assert!(!looks_like_table("one line\nsecond line"));
}

#[test]
fn six_agreeing_rows_are_a_table() {
    let rows = "a b c\nd e f g\nh i j\nk l m n o\np q r\ns t u";
    assert!(looks_like_table(rows));
    let five = "a b c\nd e f g\nh i j\nk l m n o\np q r";
    assert!(!looks_like_table(five));
}

#[test]
fn truncation_keeps_whole_characters() {
    let s = "กขค";
    assert_eq!(truncate_str(s, 7), "กข");
    assert_eq!(truncate_str(s, 2), "");
    assert_eq!(truncate_str(s, 9), s);
    assert_eq!(truncate_str("abc", 2), "ab");
    for n in 0..12 {
        let t = truncate_str("aกbข", n);
        assert!(t.len() <= n);
        assert!("aกbข".starts_with(t));
    }
}

#[test]
fn cleanup_joins_and_breaks() {
    let raw = "This is a line\nthat continues here.\nNew sentence\n\n- item one\n- item two\nName  Age  City";
    let clean = cleanup_extracted_text(raw);
    assert_eq!(
        clean,
        "This is a line that continues here.\nNew sentence\n\n- item one\n- item two\nName  Age  City"
    );
}

#[test]
fn cleanup_collapses_whitespace_and_paragraphs() {
    assert_eq!(cleanup_extracted_text("  a   b  \n\n\n  c\t d "), "a b\n\nc d");
    assert_eq!(cleanup_extracted_text(""), "");
    assert_eq!(cleanup_extracted_text("\n \n"), "");
    assert_eq!(cleanup_extracted_text("สวัสดีครับ\nต่อไป"), "สวัสดีครับ\nต่อไป");
    assert_eq!(cleanup_extracted_text("Step\n1. do it"), "Step\n1. do it");
}

#[test]
fn cleanup_twice_is_cleanup_once() {
    let inputs = [
        "a\nb\n\n  c  d  e \nf.\ng",
        "x  y  z\nw\n\n\n- a\n-\nb",
        "ข้อความ ๆ\nต่อ\r\nend:\n1.5 kg",
    ];
    for raw in inputs {
        let once = cleanup_extracted_text(raw);
        assert_eq!(cleanup_extracted_text(&once), once);
    }
}
