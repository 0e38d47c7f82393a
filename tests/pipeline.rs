use jay_rag_core::config::Language;
use jay_rag_core::pipeline::{
    assemble_document, assemble_text_only, choose_strategy, encode_image, full_page_file,
    image_coverage,
    image_file, page_range, table_file,
    next_state, render_page, select_images, table_candidate, unit_errors, ImageResult, ImageType,
    PageResult, PageWork, RunEvent, RunState, Strategy, FULL_COVERAGE,
};

fn image(index: u32, ok: bool) -> ImageResult {
    ImageResult {
        index,
        width: 640,
        height: 480,
        description: if ok {
            Ok(format!("picture {index}"))
        } else {
            Err("timeout".to_string())
        },
    }
}

fn five_pages(fail_page_two: bool) -> Vec<PageResult> {
    let mut pages = Vec::new();
    for n in 0..5u32 {
        let work = if n == 2 {
            PageWork::FullPage {
                hint_text: "hint".to_string(),
                description: Ok("whole page".to_string()),
            }
        } else {
            PageWork::Mixed {
                text: format!("text of page {}", n + 1),
                table: None,
                images: vec![image(1, !(fail_page_two && n == 1))],
            }
        };
        pages.push(PageResult { page_num: n, work });
    }
    pages
}

#[test]
fn coverage_decides_the_strategy() {
    let threshold = 500_000;
    let coverages = [100_000u32, 200_000, 700_000, 0, 499_999];
    let strategies: Vec<Strategy> =
        coverages.iter().map(|c| choose_strategy(*c, threshold, false)).collect();
    assert_eq!(
        strategies,
        vec![Strategy::Mixed, Strategy::Mixed, Strategy::FullPage, Strategy::Mixed, Strategy::Mixed]
    );
    assert_eq!(choose_strategy(500_000, threshold, false), Strategy::FullPage);
    assert_eq!(choose_strategy(0, threshold, true), Strategy::FullPage);
}

#[test]
fn coverage_fraction() {
    assert_eq!(image_coverage(&vec![25, 25], 100), 500_000);
    assert_eq!(image_coverage(&vec![70, 80], 100), FULL_COVERAGE);
    assert_eq!(image_coverage(&vec![10], 0), 0);
    assert_eq!(image_coverage(&vec![], 100), 0);
}

#[test]
fn pages_come_out_in_order_whatever_order_they_finish_in() {
    let mut pages = five_pages(false);
    pages.swap(0, 4);
    pages.swap(1, 3);
    let out = assemble_document("manual", "ollama", "qwen2.5vl", pages);
    let mut last = 0;
    for n in 1..=5 {
        let at = out.markdown.find(&format!("## Page {n}\n")).unwrap();
        assert!(at > last);
        last = at;
    }
    assert!(out.markdown.contains("[IMAGE:manual/manual_page_003_full.png]\n\nwhole page"));
    let pages_in_catalog: Vec<u32> = out.catalog.iter().map(|m| m.page).collect();
    assert_eq!(pages_in_catalog, vec![1, 2, 3, 4, 5]);
    assert_eq!(out.catalog[2].image_type, ImageType::FullPage);
}

#[test]
fn pool_size_cannot_be_seen_in_the_output() {
    let sequential = assemble_document("doc", "p", "m", five_pages(false));
    let mut shuffled_pages = five_pages(false);
    shuffled_pages.reverse();
    shuffled_pages.swap(1, 2);
    let shuffled = assemble_document("doc", "p", "m", shuffled_pages);
    assert_eq!(sequential.markdown, shuffled.markdown);
    let a: Vec<String> = sequential.catalog.iter().map(|m| m.image_file.clone()).collect();
    let b: Vec<String> = shuffled.catalog.iter().map(|m| m.image_file.clone()).collect();
    assert_eq!(a, b);
}

#[test]
fn failed_image_leaves_a_placeholder_and_one_error() {
    let pages = five_pages(true);
    let errors: Vec<Vec<String>> = pages.iter().map(unit_errors).collect();
    assert_eq!(errors[1], vec!["timeout".to_string()]);
    assert_eq!(errors.iter().map(|e| e.len()).sum::<usize>(), 1);
    let out = assemble_document("doc", "p", "m", pages);
    assert_eq!(out.markdown.matches("\n---\n## Page ").count(), 5);
    assert!(out
        .markdown
        .contains("## Page 2\n\ntext of page 2\n\n[IMAGE:doc/doc_page_002_img1.png]\n**[ภาพที่ 1]:** [ไม่สามารถอธิบายภาพได้: timeout]\n"));
    assert_eq!(out.catalog.len(), 4);
    assert!(out.catalog.iter().all(|m| m.page != 2));
}

#[test]
fn catalog_counts_successful_descriptions() {
    let page = PageResult {
        page_num: 0,
        work: PageWork::Mixed {
            text: String::new(),
            table: Some(Ok("| a | b |".to_string())),
            images: vec![image(2, true), image(1, false), image(3, true)],
        },
    };
    let out = render_page("d", "p", "m", page);
    assert_eq!(out.metadata.len(), 3);
    assert_eq!(out.metadata[0].image_type, ImageType::TableRegion);
    assert_eq!(out.metadata[1].index, Some(2));
    assert_eq!(out.metadata[2].index, Some(3));
    assert_eq!(out.metadata[1].width, Some(640));
    let img1 = out.content.find("img1.png").unwrap();
    let img2 = out.content.find("img2.png").unwrap();
    let img3 = out.content.find("img3.png").unwrap();
    assert!(img1 < img2 && img2 < img3);
}

#[test]
fn full_page_section_exact() {
    let page = PageResult {
        page_num: 11,
        work: PageWork::FullPage { hint_text: String::new(), description: Err("down".to_string()) },
    };
    let out = render_page("s", "p", "m", page);
    assert_eq!(
        out.content,
        "\n\n---\n## Page 12\n\n[IMAGE:s/s_page_012_full.png]\n\n[ไม่สามารถอธิบายภาพได้: down]"
    );
    assert!(out.metadata.is_empty());
}

#[test]
fn unreadable_page_section() {
    let page = PageResult { page_num: 0, work: PageWork::Unreadable { message: "bad".to_string() } };
    assert_eq!(unit_errors(&page), vec!["bad".to_string()]);
    let out = render_page("s", "p", "m", page);
    assert_eq!(out.content, "\n\n---\n## Page 1\n[Error: bad]\n");
}

#[test]
fn document_header() {
    let out = assemble_document("d", "ollama", "qwen", vec![]);
    assert_eq!(
        out.markdown,
        "# d\n\n> Provider: `ollama` | Model: `qwen` | Pages: 0\n\n> Images: `images/d/`\n"
    );
}

#[test]
fn text_only_document() {
    let pages = vec![(0, "first".to_string()), (1, String::new())];
    let md = assemble_text_only("d", Language::En, &pages);
    assert_eq!(
        md,
        "# d\n\n> Mode: `text-only` | Language: `en` | Pages: 2\n\n\n\n---\n## Page 1\n\nfirst\n\n\n---\n## Page 2\n"
    );
}

#[test]
fn small_images_are_dropped_and_the_rest_numbered() {
    let candidates = vec![
        (200, 150, vec![1u8, 2, 3]),
        (50, 400, vec![4u8]),
        (120, 120, vec![5u8, 6]),
        (400, 99, vec![7u8]),
    ];
    let kept = select_images(candidates, 100);
    assert_eq!(kept.len(), 2);
    assert_eq!((kept[0].index, kept[0].width, kept[0].height), (1, 200, 150));
    assert_eq!((kept[1].index, kept[1].width), (2, 120));
    assert_eq!(kept[0].base64, "AQID");
    assert_eq!(kept[1].base64, "BQY=");
    assert_eq!(kept[1].bytes, vec![5u8, 6]);
}

#[test]
fn page_range_defaults_and_clamps() {
    assert_eq!(page_range(None, None, 10), (0, 10));
    assert_eq!(page_range(Some(2), Some(50), 10), (2, 10));
    assert_eq!(page_range(Some(1), Some(4), 10), (1, 4));
}

#[test]
fn table_candidacy_needs_extraction_enabled() {
    let table = "Name    Age    City\nBob     30     LA\nAnn     29     NY";
    assert!(table_candidate(true, table));
    assert!(!table_candidate(false, table));
    assert!(!table_candidate(true, "plain words"));
}

#[test]
fn run_phases() {
    let mut s = RunState::Idle;
    for e in [RunEvent::Start, RunEvent::Extracted, RunEvent::Enriched, RunEvent::Written] {
        s = next_state(s, e);
    }
    assert_eq!(s, RunState::Done);
    assert_eq!(next_state(RunState::Done, RunEvent::DocumentError), RunState::Done);
    assert_eq!(next_state(RunState::Enriching, RunEvent::DocumentError), RunState::Failed);
    assert_eq!(next_state(RunState::Idle, RunEvent::Written), RunState::Idle);
    assert_eq!(next_state(RunState::Failed, RunEvent::Start), RunState::Failed);
}

#[test]
fn image_file_names() {
    assert_eq!(full_page_file("doc", 0), "doc_page_001_full.png");
    assert_eq!(table_file("doc", 41), "doc_page_042_table.png");
    assert_eq!(image_file("doc", 999, 3), "doc_page_1000_img3.png");
}

#[test]
fn image_bytes_in_base64() {
    assert_eq!(encode_image(&b"hello world~".to_vec()), "aGVsbG8gd29ybGR+");
    assert_eq!(encode_image(&vec![]), "");
}
