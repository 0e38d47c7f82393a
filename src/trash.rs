//! Heuristic detection of pages with little value for retrieval: tables of
//! contents, boilerplate, blank pages, and repeated headers and footers.
//!
//! Confidences are whole percentages.
use vstd::prelude::*;
use crate::fmt::{decimal, decimal_chars, join, join_chars};
use crate::text::{
    chars_of, contains_chars, copy_chars, extend_chars, has_sub, lines_chars, lines_of, lower_of,
    lowercase, same_chars, slice_chars, split_chars, split_on, string_of, trim, trim_chars, views,
};

verus! {

/// The kind of low-value content found.
#[derive(Clone, Copy, Debug, PartialEq, Eq, Structural)]
pub enum TrashType {
    TableOfContents,
    Boilerplate,
    BlankPage,
    HeaderFooter,
}

impl TrashType {
    /// The kind's name for people.
    pub fn label(&self) -> (r: &'static str)
        ensures
            r@ == trash_label(*self),
    {
        match self {
            TrashType::TableOfContents => "Table of Contents",
            TrashType::Boilerplate => "Boilerplate",
            TrashType::BlankPage => "Blank page",
            TrashType::HeaderFooter => "Header/Footer",
        }
    }
}

pub open spec fn trash_label(t: TrashType) -> Seq<char> {
    match t {
        TrashType::TableOfContents => "Table of Contents"@,
        TrashType::Boilerplate => "Boilerplate"@,
        TrashType::BlankPage => "Blank page"@,
        TrashType::HeaderFooter => "Header/Footer"@,
    }
}

/// A page found to hold low-value content.
pub struct TrashDetection {
    /// 1-indexed page number; 0 for the whole document.
    pub page: u32,
    pub trash_type: TrashType,
    /// Confidence in percent, at most 100.
    pub confidence: u32,
    /// Why the page was flagged.
    pub reason: String,
    /// The beginning of the page's text.
    pub preview: String,
}

/// The mathematical content of a [`TrashDetection`].
pub struct TrashView {
    pub page: u32,
    pub trash_type: TrashType,
    pub confidence: u32,
    pub reason: Seq<char>,
    pub preview: Seq<char>,
}

impl View for TrashDetection {
    type V = TrashView;

    open spec fn view(&self) -> TrashView {
        TrashView {
            page: self.page,
            trash_type: self.trash_type,
            confidence: self.confidence,
            reason: self.reason@,
            preview: self.preview@,
        }
    }
}

pub open spec fn opt_view(d: Option<TrashDetection>) -> Option<TrashView> {
    match d {
        Some(x) => Some(x@),
        None => None,
    }
}

pub open spec fn trash_views(s: Seq<TrashDetection>) -> Seq<TrashView> {
    s.map_values(|d: TrashDetection| d@)
}

/// The longest preview, in characters, the marker included.
pub const PREVIEW_CHARS: usize = 200;

/// The preview of a text: the text trimmed when it has at most 200
/// characters, else its first 197 characters followed by `...`. Being made
/// of whole characters, it never splits one.
pub open spec fn preview_of(text: Seq<char>) -> Seq<char> {
    let t = trim(text);
    if t.len() <= 200 {
        t
    } else {
        t.subrange(0, 197) + "..."@
    }
}

/// Computes `preview_of(text@)`, which holds at most 200 characters.
pub fn truncate_preview(text: &str) -> (r: String)
    ensures
        r@ == preview_of(text@),
        r@.len() <= PREVIEW_CHARS,
{
    proof {
        reveal_strlit("...");
    }
    let t = trim_chars(&chars_of(text));
    if t.len() <= PREVIEW_CHARS {
        string_of(&t)
    } else {
        let mut p = slice_chars(&t, 0, PREVIEW_CHARS - 3);
        extend_chars(&mut p, &chars_of("..."));
        string_of(&p)
    }
}

pub open spec fn is_ascii_digit(c: char) -> bool {
    '0' <= c && c <= '9'
}

/// A table-of-contents entry: a trimmed line with a dot leader (`...` or
/// `…`) that ends in a digit.
pub open spec fn is_dot_leader(line: Seq<char>) -> bool {
    let t = trim(line);
    &&& has_sub(t, "..."@) || has_sub(t, "…"@)
    &&& t.len() > 0
    &&& is_ascii_digit(t.last())
}

/// The number of dot-leader lines among `ls`.
pub open spec fn dot_leaders(ls: Seq<Seq<char>>) -> nat
    decreases ls.len(),
{
    if ls.len() == 0 {
        0
    } else {
        dot_leaders(ls.drop_last()) + if is_dot_leader(ls.last()) {
            1nat
        } else {
            0nat
        }
    }
}

/// A contents heading: the Thai word, or "contents" in any case.
pub open spec fn has_toc_heading(text: Seq<char>) -> bool {
    has_sub(text, "สารบัญ"@) || has_sub(lower_of(text), "table of contents"@) || has_sub(
        lower_of(text),
        "contents"@,
    )
}

pub open spec fn detection(
    page: u32,
    t: TrashType,
    confidence: u32,
    reason: Seq<char>,
    preview: Seq<char>,
) -> Option<TrashView> {
    Some(TrashView { page, trash_type: t, confidence, reason, preview })
}

/// Table-of-contents detection: a heading with three or more dot-leader
/// lines gives 95%, a heading alone 90%, five or more dot-leader lines
/// without a heading 70%.
pub open spec fn toc_of(page: u32, text: Seq<char>) -> Option<TrashView> {
    let heading = has_toc_heading(text);
    let dots = dot_leaders(lines_of(text));
    if heading && dots >= 3 {
        detection(
            page,
            TrashType::TableOfContents,
            95,
            "TOC heading keyword found with "@ + decimal(dots) + " dot-leader lines"@,
            preview_of(text),
        )
    } else if heading {
        detection(
            page,
            TrashType::TableOfContents,
            90,
            "TOC heading keyword found"@,
            preview_of(text),
        )
    } else if dots >= 5 {
        detection(
            page,
            TrashType::TableOfContents,
            70,
            decimal(dots) + " dot-leader lines detected (possible TOC)"@,
            preview_of(text),
        )
    } else {
        None
    }
}

/// A page with a contents heading and at least three dot-leader lines is a
/// table of contents with confidence at least 90%.
pub proof fn lemma_heading_with_leaders_is_toc(page: u32, text: Seq<char>)
    requires
        has_toc_heading(text),
        dot_leaders(lines_of(text)) >= 3,
    ensures
        toc_of(page, text) is Some,
        toc_of(page, text)->0.trash_type == TrashType::TableOfContents,
        toc_of(page, text)->0.confidence >= 90,
{
}

fn is_dot_leader_exec(line: &Vec<char>, dots: &Vec<char>, ellipsis: &Vec<char>) -> (r: bool)
    requires
        dots@ == "..."@,
        ellipsis@ == "…"@,
    ensures
        r == is_dot_leader(line@),
{
    let t = trim_chars(line);
    (contains_chars(&t, dots) || contains_chars(&t, ellipsis)) && t.len() > 0 && '0' <= t[t.len()
        - 1] && t[t.len() - 1] <= '9'
}

/// Detects a table-of-contents page.
pub fn detect_toc(page: u32, text: &str) -> (r: Option<TrashDetection>)
    ensures
        opt_view(r) == toc_of(page, text@),
{
    let chars = chars_of(text);
    let lower = chars_of(lowercase(text).as_str());
    let heading = contains_chars(&chars, &chars_of("สารบัญ")) || contains_chars(
        &lower,
        &chars_of("table of contents"),
    ) || contains_chars(&lower, &chars_of("contents"));
    let lines = lines_chars(&chars);
    let dots = chars_of("...");
    let ellipsis = chars_of("…");
    let ghost ls = views(lines@);
    let mut count: usize = 0;
    let mut i: usize = 0;
    while i < lines.len()
        invariant
            i <= lines.len(),
            ls == views(lines@),
            dots@ == "..."@,
            ellipsis@ == "…"@,
            count == dot_leaders(ls.subrange(0, i as int)),
            count <= i,
        decreases lines.len() - i,
    {
        assert(ls.subrange(0, i as int + 1).drop_last() =~= ls.subrange(0, i as int));
        if is_dot_leader_exec(&lines[i], &dots, &ellipsis) {
            count = count + 1;
        }
        i = i + 1;
    }
    assert(ls.subrange(0, lines.len() as int) =~= ls);
    if heading && count >= 3 {
        let mut reason = chars_of("TOC heading keyword found with ");
        extend_chars(&mut reason, &decimal_chars(count as u64));
        extend_chars(&mut reason, &chars_of(" dot-leader lines"));
        Some(
            TrashDetection {
                page,
                trash_type: TrashType::TableOfContents,
                confidence: 95,
                reason: string_of(&reason),
                preview: truncate_preview(text),
            },
        )
    } else if heading {
        Some(
            TrashDetection {
                page,
                trash_type: TrashType::TableOfContents,
                confidence: 90,
                reason: "TOC heading keyword found".to_owned(),
                preview: truncate_preview(text),
            },
        )
    } else if count >= 5 {
        let mut reason = decimal_chars(count as u64);
        extend_chars(&mut reason, &chars_of(" dot-leader lines detected (possible TOC)"));
        Some(
            TrashDetection {
                page,
                trash_type: TrashType::TableOfContents,
                confidence: 70,
                reason: string_of(&reason),
                preview: truncate_preview(text),
            },
        )
    } else {
        None
    }
}

/// The words that mark legal or boilerplate text, English and Thai.
pub open spec fn boilerplate_keywords() -> Seq<Seq<char>> {
    seq![
        "copyright"@,
        "ลิขสิทธิ์"@,
        "all rights reserved"@,
        "สงวนลิขสิทธิ์"@,
        "disclaimer"@,
        "ข้อจำกัดความรับผิดชอบ"@,
        "terms of use"@,
        "terms and conditions"@,
        "ข้อกำหนดและเงื่อนไข"@,
        "confidential"@,
        "ความลับ"@,
    ]
}

/// The keywords among `kws` found in the text or in its lowercase form,
/// in order.
pub open spec fn matched_keywords(kws: Seq<Seq<char>>, text: Seq<char>) -> Seq<Seq<char>>
    decreases kws.len(),
{
    if kws.len() == 0 {
        Seq::empty()
    } else {
        let r = matched_keywords(kws.drop_last(), text);
        if has_sub(lower_of(text), kws.last()) || has_sub(text, kws.last()) {
            r.push(kws.last())
        } else {
            r
        }
    }
}

/// Boilerplate detection: two or more distinct keywords give 85%; exactly
/// one on a page under 500 characters gives 65%.
pub open spec fn boilerplate_of(page: u32, text: Seq<char>) -> Option<TrashView> {
    let m = matched_keywords(boilerplate_keywords(), text);
    if m.len() >= 2 {
        detection(
            page,
            TrashType::Boilerplate,
            85,
            "Multiple boilerplate keywords: "@ + join(m, ", "@),
            preview_of(text),
        )
    } else if m.len() == 1 && text.len() < 500 {
        detection(
            page,
            TrashType::Boilerplate,
            65,
            "Boilerplate keyword \""@ + m[0] + "\" on short page ("@ + decimal(text.len())
                + " chars)"@,
            preview_of(text),
        )
    } else {
        None
    }
}

/// Detects a boilerplate or legal page.
pub fn detect_boilerplate(page: u32, text: &str) -> (r: Option<TrashDetection>)
    ensures
        opt_view(r) == boilerplate_of(page, text@),
{
    let chars = chars_of(text);
    let lower = chars_of(lowercase(text).as_str());
    let kws: Vec<Vec<char>> = vec![
        chars_of("copyright"),
        chars_of("ลิขสิทธิ์"),
        chars_of("all rights reserved"),
        chars_of("สงวนลิขสิทธิ์"),
        chars_of("disclaimer"),
        chars_of("ข้อจำกัดความรับผิดชอบ"),
        chars_of("terms of use"),
        chars_of("terms and conditions"),
        chars_of("ข้อกำหนดและเงื่อนไข"),
        chars_of("confidential"),
        chars_of("ความลับ"),
    ];
    assert(views(kws@) =~= boilerplate_keywords());
    let ghost k = views(kws@);
    let mut matched: Vec<Vec<char>> = Vec::new();
    let mut i: usize = 0;
    while i < kws.len()
        invariant
            i <= kws.len(),
            k == views(kws@),
            chars@ == text@,
            lower@ == lower_of(text@),
            views(matched@) == matched_keywords(k.subrange(0, i as int), text@),
            matched.len() <= i,
        decreases kws.len() - i,
    {
        assert(k.subrange(0, i as int + 1).drop_last() =~= k.subrange(0, i as int));
        let kw = &kws[i];
        if contains_chars(&lower, kw) || contains_chars(&chars, kw) {
            let ghost old_m = views(matched@);
            matched.push(copy_chars(kw));
            assert(views(matched@) =~= old_m.push(kw@));
        }
        i = i + 1;
    }
    assert(k.subrange(0, kws.len() as int) =~= k);
    if matched.len() >= 2 {
        let mut reason = chars_of("Multiple boilerplate keywords: ");
        extend_chars(&mut reason, &join_chars(&matched, &chars_of(", ")));
        Some(
            TrashDetection {
                page,
                trash_type: TrashType::Boilerplate,
                confidence: 85,
                reason: string_of(&reason),
                preview: truncate_preview(text),
            },
        )
    } else if matched.len() == 1 && chars.len() < 500 {
        let mut reason = chars_of("Boilerplate keyword \"");
        extend_chars(&mut reason, &matched[0]);
        extend_chars(&mut reason, &chars_of("\" on short page ("));
        extend_chars(&mut reason, &decimal_chars(chars.len() as u64));
        extend_chars(&mut reason, &chars_of(" chars)"));
        Some(
            TrashDetection {
                page,
                trash_type: TrashType::Boilerplate,
                confidence: 65,
                reason: string_of(&reason),
                preview: truncate_preview(text),
            },
        )
    } else {
        None
    }
}

/// An explicit marker of a page left blank on purpose, in either language.
pub open spec fn has_blank_marker(trimmed: Seq<char>) -> bool {
    has_sub(lower_of(trimmed), "this page intentionally left blank"@) || has_sub(
        trimmed,
        "หน้านี้ว่างโดยตั้งใจ"@,
    ) || has_sub(lower_of(trimmed), "intentionally blank"@)
}

/// Blank-page detection: an explicit marker gives 95%; otherwise a trimmed
/// text under 50 characters gives 80%.
pub open spec fn blank_of(page: u32, text: Seq<char>) -> Option<TrashView> {
    let t = trim(text);
    if has_blank_marker(t) {
        detection(
            page,
            TrashType::BlankPage,
            95,
            "Explicit blank page marker found"@,
            preview_of(t),
        )
    } else if t.len() < 50 {
        detection(
            page,
            TrashType::BlankPage,
            80,
            "Nearly blank page ("@ + decimal(t.len()) + " chars)"@,
            preview_of(t),
        )
    } else {
        None
    }
}

/// Detects a blank or nearly blank page.
pub fn detect_blank(page: u32, text: &str) -> (r: Option<TrashDetection>)
    ensures
        opt_view(r) == blank_of(page, text@),
{
    let t = trim_chars(&chars_of(text));
    let trimmed = string_of(&t);
    let lower = chars_of(lowercase(trimmed.as_str()).as_str());
    let marker = contains_chars(&lower, &chars_of("this page intentionally left blank"))
        || contains_chars(&t, &chars_of("หน้านี้ว่างโดยตั้งใจ")) || contains_chars(
        &lower,
        &chars_of("intentionally blank"),
    );
    if marker {
        Some(
            TrashDetection {
                page,
                trash_type: TrashType::BlankPage,
                confidence: 95,
                reason: "Explicit blank page marker found".to_owned(),
                preview: truncate_preview(trimmed.as_str()),
            },
        )
    } else if t.len() < 50 {
        let mut reason = chars_of("Nearly blank page (");
        extend_chars(&mut reason, &decimal_chars(t.len() as u64));
        extend_chars(&mut reason, &chars_of(" chars)"));
        Some(
            TrashDetection {
                page,
                trash_type: TrashType::BlankPage,
                confidence: 80,
                reason: string_of(&reason),
                preview: truncate_preview(trimmed.as_str()),
            },
        )
    } else {
        None
    }
}

/// The detections of one page, in the order contents, boilerplate, blank.
pub open spec fn page_detections(page: u32, text: Seq<char>) -> Seq<TrashView> {
    (match toc_of(page, text) {
        Some(d) => seq![d],
        None => Seq::empty(),
    }) + (match boilerplate_of(page, text) {
        Some(d) => seq![d],
        None => Seq::empty(),
    }) + (match blank_of(page, text) {
        Some(d) => seq![d],
        None => Seq::empty(),
    })
}

/// The detections of the pages `ps` (0-indexed numbers, reported
/// 1-indexed), page by page.
pub open spec fn trash_of(ps: Seq<(u32, String)>) -> Seq<TrashView>
    decreases ps.len(),
{
    if ps.len() == 0 {
        Seq::empty()
    } else {
        trash_of(ps.drop_last()) + page_detections((ps.last().0 + 1) as u32, ps.last().1@)
    }
}

fn push_found(out: &mut Vec<TrashDetection>, d: Option<TrashDetection>)
    ensures
        trash_views(final(out)@) == trash_views(old(out)@) + match opt_view(d) {
            Some(x) => seq![x],
            None => Seq::empty(),
        },
{
    let ghost before = trash_views(out@);
    match d {
        Some(x) => {
            out.push(x);
            assert(trash_views(out@) =~= before + seq![x@]);
        },
        None => {
            assert(trash_views(out@) =~= before + Seq::empty());
        },
    }
}

/// Runs every page-level detector over `(0-indexed page, text)` pairs.
pub fn detect_trash(page_texts: &[(u32, String)]) -> (r: Vec<TrashDetection>)
    requires
        forall|i: int| 0 <= i < page_texts@.len() ==> #[trigger] page_texts@[i].0 < u32::MAX,
    ensures
        trash_views(r@) == trash_of(page_texts@),
{
    let mut out: Vec<TrashDetection> = Vec::new();
    let mut i: usize = 0;
    while i < page_texts.len()
        invariant
            i <= page_texts@.len(),
            forall|j: int| 0 <= j < page_texts@.len() ==> #[trigger] page_texts@[j].0 < u32::MAX,
            trash_views(out@) == trash_of(page_texts@.subrange(0, i as int)),
        decreases page_texts@.len() - i,
    {
        assert(page_texts@.subrange(0, i as int + 1).drop_last() =~= page_texts@.subrange(
            0,
            i as int,
        ));
        let page = page_texts[i].0 + 1;
        let text = page_texts[i].1.as_str();
        push_found(&mut out, detect_toc(page, text));
        push_found(&mut out, detect_boilerplate(page, text));
        push_found(&mut out, detect_blank(page, text));
        assert(trash_views(out@) =~= trash_of(page_texts@.subrange(0, i as int + 1)));
        i = i + 1;
    }
    assert(page_texts@.subrange(0, page_texts@.len() as int) =~= page_texts@);
    out
}

/// The quoted stripped lines: `Header: "h"` for each header, then
/// `Footer: "f"` for each footer.
pub open spec fn stripped_parts(headers: Seq<String>, footers: Seq<String>) -> Seq<Seq<char>> {
    headers.map_values(|h: String| "Header: \""@ + h@ + "\""@) + footers.map_values(
        |f: String| "Footer: \""@ + f@ + "\""@,
    )
}

/// One document-level (page 0) detection summarising the stripped headers
/// and footers, at 100%, when there was any.
pub open spec fn header_footer_of(
    pages: nat,
    headers: Seq<String>,
    footers: Seq<String>,
) -> Seq<TrashView> {
    if headers.len() == 0 && footers.len() == 0 {
        Seq::empty()
    } else {
        let parts = stripped_parts(headers, footers);
        seq![
            TrashView {
                page: 0,
                trash_type: TrashType::HeaderFooter,
                confidence: 100,
                reason: "Repeated text stripped from "@ + decimal(pages) + " pages: "@ + join(
                    parts,
                    ", "@,
                ),
                preview: preview_of(join(parts, "; "@)),
            },
        ]
    }
}

fn quoted(label: &str, s: &String) -> (r: Vec<char>)
    ensures
        r@ == label@ + s@ + "\""@,
{
    let mut v = chars_of(label);
    extend_chars(&mut v, &chars_of(s.as_str()));
    extend_chars(&mut v, &chars_of("\""));
    v
}

/// The detection that records the headers and footers stripped from a
/// document.
pub fn create_header_footer_detections(
    page_texts: &[(u32, String)],
    headers: &[String],
    footers: &[String],
) -> (r: Vec<TrashDetection>)
    ensures
        trash_views(r@) == header_footer_of(page_texts@.len(), headers@, footers@),
{
    if headers.len() == 0 && footers.len() == 0 {
        let v: Vec<TrashDetection> = Vec::new();
        assert(trash_views(v@) =~= Seq::<TrashView>::empty());
        return v;
    }
    let mut parts: Vec<Vec<char>> = Vec::new();
    let mut i: usize = 0;
    while i < headers.len()
        invariant
            i <= headers@.len(),
            views(parts@) == headers@.subrange(0, i as int).map_values(
                |h: String| "Header: \""@ + h@ + "\""@,
            ),
        decreases headers@.len() - i,
    {
        let ghost old_p = views(parts@);
        let q = quoted("Header: \"", &headers[i]);
        parts.push(q);
        assert(views(parts@) =~= old_p.push(q@));
        assert(headers@.subrange(0, i as int + 1).map_values(
            |h: String| "Header: \""@ + h@ + "\""@,
        ) =~= headers@.subrange(0, i as int).map_values(|h: String| "Header: \""@ + h@ + "\""@).push(
            q@,
        ));
        i = i + 1;
    }
    assert(headers@.subrange(0, headers@.len() as int) =~= headers@);
    let ghost hs = views(parts@);
    let mut j: usize = 0;
    while j < footers.len()
        invariant
            j <= footers@.len(),
            views(parts@) == hs + footers@.subrange(0, j as int).map_values(
                |f: String| "Footer: \""@ + f@ + "\""@,
            ),
        decreases footers@.len() - j,
    {
        let ghost old_p = views(parts@);
        let q = quoted("Footer: \"", &footers[j]);
        parts.push(q);
        assert(views(parts@) =~= old_p.push(q@));
        assert(footers@.subrange(0, j as int + 1).map_values(
            |f: String| "Footer: \""@ + f@ + "\""@,
        ) =~= footers@.subrange(0, j as int).map_values(|f: String| "Footer: \""@ + f@ + "\""@).push(
            q@,
        ));
        j = j + 1;
    }
    assert(footers@.subrange(0, footers@.len() as int) =~= footers@);
    assert(views(parts@) =~= stripped_parts(headers@, footers@));
    let mut reason = chars_of("Repeated text stripped from ");
    extend_chars(&mut reason, &decimal_chars(page_texts.len() as u64));
    extend_chars(&mut reason, &chars_of(" pages: "));
    extend_chars(&mut reason, &join_chars(&parts, &chars_of(", ")));
    let joined = string_of(&join_chars(&parts, &chars_of("; ")));
    let d = TrashDetection {
        page: 0,
        trash_type: TrashType::HeaderFooter,
        confidence: 100,
        reason: string_of(&reason),
        preview: truncate_preview(joined.as_str()),
    };
    let v = vec![d];
    assert(trash_views(v@) =~= header_footer_of(page_texts@.len(), headers@, footers@));
    v
}

/// The code that names a kind in a filter.
pub open spec fn type_code(t: TrashType) -> Seq<char> {
    match t {
        TrashType::TableOfContents => "toc"@,
        TrashType::Boilerplate => "boilerplate"@,
        TrashType::BlankPage => "blank"@,
        TrashType::HeaderFooter => "header_footer"@,
    }
}

/// A comma-separated filter names the kind `t`.
pub open spec fn filter_names(filter: Seq<char>, t: TrashType) -> bool {
    exists|k: int|
        0 <= k < split_on(filter, ',').len() && trim(#[trigger] split_on(filter, ',')[k])
            == type_code(t)
}

/// Whether a detection passes a filter of comma-separated kind codes
/// (`toc`, `boilerplate`, `blank`, `header_footer`); without a filter every
/// detection passes.
pub fn match_trash_filter(item: &TrashDetection, filter: Option<&str>) -> (r: bool)
    ensures
        filter is None ==> r,
        filter is Some ==> r == filter_names((filter->0)@, item.trash_type),
{
    if filter.is_none() {
        return true;
    }
    let f = filter.unwrap();
    let code = chars_of(
        match item.trash_type {
            TrashType::TableOfContents => "toc",
            TrashType::Boilerplate => "boilerplate",
            TrashType::BlankPage => "blank",
            TrashType::HeaderFooter => "header_footer",
        },
    );
    let parts = split_chars(&chars_of(f), ',');
    let ghost ps = views(parts@);
    let mut i: usize = 0;
    while i < parts.len()
        invariant
            i <= parts.len(),
            ps == views(parts@),
            ps == split_on(f@, ','),
            filter == Some(f),
            code@ == type_code(item.trash_type),
            forall|k: int| 0 <= k < i ==> trim(#[trigger] ps[k]) != type_code(item.trash_type),
        decreases parts.len() - i,
    {
        if same_chars(&trim_chars(&parts[i]), &code) {
            assert(trim(split_on(f@, ',')[i as int]) == type_code(item.trash_type));
            assert((filter->0)@ == f@);
            return true;
        }
        i = i + 1;
    }
    false
}

} // verus!
