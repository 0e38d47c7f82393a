use jay_rag_core::export::{convert_image_tags, extract_image_path};

#[test]
fn test_single_image_conversion() {
    let md = "[IMAGE:page1_img1.png]\nSome text here.";
    let result = convert_image_tags(md, "http://example.com/imgs");
    assert!(result.contains(r#"src="http://example.com/imgs/page1_img1.png""#));
    assert!(result.contains("max-width:100%"));
    assert!(!result.contains("<div"));
    assert!(result.contains("Some text here."));
}

#[test]
fn test_consecutive_images_grouped() {
    let md = "[IMAGE:a.png]\n[IMAGE:b.png]\nText after.";
    let result = convert_image_tags(md, "http://host/imgs/");
    assert!(result.contains("<div style=\"display:flex"));
    assert!(result.contains("calc(50% - 4px)"));
    assert!(result.contains("</div>"));
    assert!(result.contains("Text after."));
}

#[test]
fn test_three_consecutive_images() {
    let md = "[IMAGE:a.png]\n[IMAGE:b.png]\n[IMAGE:c.png]";
    let result = convert_image_tags(md, "http://host");
    assert!(result.contains("calc(33% - 6px)"));
}

#[test]
fn test_no_image_tags_unchanged() {
    let md = "Hello world\nNo images here.";
    let result = convert_image_tags(md, "http://host");
    assert_eq!(result, md);
}

#[test]
fn test_trailing_slash_stripped() {
    let md = "[IMAGE:img.png]";
    let result = convert_image_tags(md, "http://host/path/");
    assert!(result.contains(r#"src="http://host/path/img.png""#));
}

#[test]
fn test_empty_image_tag_ignored() {
    let md = "[IMAGE:]";
    let result = convert_image_tags(md, "http://host");
    assert_eq!(result, "[IMAGE:]");
}

#[test]
fn single_image_exact_output() {
    let result = convert_image_tags("[IMAGE:x.png]\nend\n", "http://h//");
    assert_eq!(
        result,
        "<img src=\"http://h/x.png\" style=\"max-width:100%;border-radius:8px;margin:8px 0;\">\nend\n"
    );
}

#[test]
fn four_images_share_a_quarter() {
    let md = "[IMAGE:a]\n[IMAGE:b]\n[IMAGE:c]\n[IMAGE:d]";
    let result = convert_image_tags(md, "u");
    assert_eq!(result.matches("calc(25% - 6px)").count(), 4);
    assert!(result.ends_with("</div>"));
}

#[test]
fn image_path_extraction() {
    assert_eq!(extract_image_path("  [IMAGE:doc/p.png]  "), Some("doc/p.png".to_string()));
    assert_eq!(extract_image_path("[IMAGE:]"), None);
    assert_eq!(extract_image_path("[IMAGE:x"), None);
    assert_eq!(extract_image_path("text"), None);
}
