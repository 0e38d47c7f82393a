//! Per-page strategy, and the rendering of enrichment results into the
//! Markdown document and its image catalog.
//!
//! Vision work finishes in any order. Everything here takes its outcomes as
//! plain values and puts them back in page order, then image order, so that
//! nothing of the scheduling can be seen in the output.
use vstd::prelude::*;
use base64::Engine;
use crate::fmt::{decimal, decimal_chars, join, join_chars, pad3, pad3_chars};
use crate::ordering::{
    Keyed, keys_distinct, keys_increasing, lemma_sort_strict, lemma_sort_by_key, lemma_sort_order_free, lemma_tally_sort, sort_by_key,
    sort_by_key_exec, tally,
};
use crate::config::{Language, language_code};
use crate::table::{looks_like_table, table_like};
use crate::text::{chars_of, extend_chars, string_of, views};

verus! {

/// How a page is enriched.
#[derive(Clone, Copy, Debug, PartialEq, Eq, Structural)]
pub enum Strategy {
    /// The whole page is rendered and described as one image.
    FullPage,
    /// Text is kept and embedded images are described one by one.
    Mixed,
}

/// The phase of a document's processing run.
#[derive(Clone, Copy, Debug, PartialEq, Eq, Structural)]
pub enum RunState {
    Idle,
    /// The native engine reads every page, alone.
    Extracting,
    /// Pages and their images are described concurrently.
    Enriching,
    /// Results are put in order and the artifacts written.
    Assembling,
    Done,
    Failed,
}

/// What happened during a run.
#[derive(Clone, Copy, Debug, PartialEq, Eq, Structural)]
pub enum RunEvent {
    Start,
    /// Every page's data was extracted.
    Extracted,
    /// Every unit of enrichment finished, well or not.
    Enriched,
    /// The artifacts were written.
    Written,
    /// The document cannot be processed: it cannot be opened, or an
    /// output cannot be created or written.
    DocumentError,
}

/// The run's next phase: each phase moves on by its own event, a
/// document-level error fails any unfinished run, and anything else leaves
/// the phase as it is.
pub open spec fn run_step(s: RunState, e: RunEvent) -> RunState {
    match (s, e) {
        (RunState::Done, _) => RunState::Done,
        (RunState::Failed, _) => RunState::Failed,
        (_, RunEvent::DocumentError) => RunState::Failed,
        (RunState::Idle, RunEvent::Start) => RunState::Extracting,
        (RunState::Extracting, RunEvent::Extracted) => RunState::Enriching,
        (RunState::Enriching, RunEvent::Enriched) => RunState::Assembling,
        (RunState::Assembling, RunEvent::Written) => RunState::Done,
        _ => s,
    }
}

pub fn next_state(s: RunState, e: RunEvent) -> (r: RunState)
    ensures
        r == run_step(s, e),
{
    match (s, e) {
        (RunState::Done, _) => RunState::Done,
        (RunState::Failed, _) => RunState::Failed,
        (_, RunEvent::DocumentError) => RunState::Failed,
        (RunState::Idle, RunEvent::Start) => RunState::Extracting,
        (RunState::Extracting, RunEvent::Extracted) => RunState::Enriching,
        (RunState::Enriching, RunEvent::Enriched) => RunState::Assembling,
        (RunState::Assembling, RunEvent::Written) => RunState::Done,
        _ => s,
    }
}

/// A finished run stays finished: no event leaves `Done` or `Failed`.
pub proof fn lemma_finished_runs_stay(s: RunState, e: RunEvent)
    requires
        s == RunState::Done || s == RunState::Failed,
    ensures
        run_step(s, e) == s,
{
}

/// Coverage and thresholds are fractions in millionths.
pub const FULL_COVERAGE: u32 = 1000000;

/// The strategy for a page: full-page when the high-quality mode asks for
/// it or the page's image coverage reaches the threshold.
pub open spec fn strategy_for(coverage: u32, threshold: u32, high_quality: bool) -> Strategy {
    if high_quality || coverage >= threshold {
        Strategy::FullPage
    } else {
        Strategy::Mixed
    }
}

pub fn choose_strategy(coverage: u32, threshold: u32, high_quality: bool) -> (r: Strategy)
    ensures
        r == strategy_for(coverage, threshold, high_quality),
{
    if high_quality || coverage >= threshold {
        Strategy::FullPage
    } else {
        Strategy::Mixed
    }
}

/// The sum of `s`.
pub open spec fn total(s: Seq<u64>) -> nat
    decreases s.len(),
{
    if s.len() == 0 {
        0
    } else {
        total(s.drop_last()) + s.last() as nat
    }
}

/// The share of a page covered by images whose areas are `areas`, in
/// millionths of the page area `page_area`, at most the whole page; nothing
/// for a page without area.
pub open spec fn coverage_of(areas: Seq<u64>, page_area: u64) -> nat {
    if page_area == 0 {
        0
    } else if total(areas) >= page_area {
        FULL_COVERAGE as nat
    } else {
        total(areas) * (FULL_COVERAGE as nat) / (page_area as nat)
    }
}

/// Computes `coverage_of(areas@, page_area)`.
pub fn image_coverage(areas: &Vec<u64>, page_area: u64) -> (r: u32)
    ensures
        r == coverage_of(areas@, page_area),
        r <= FULL_COVERAGE,
{
    if page_area == 0 {
        return 0;
    }
    let mut sum: u128 = 0;
    let mut i: usize = 0;
    while i < areas.len()
        invariant
            i <= areas.len(),
            sum == total(areas@.subrange(0, i as int)),
            sum <= (i as nat) * 0x1_0000_0000_0000_0000,
        decreases areas.len() - i,
    {
        assert(areas@.subrange(0, i as int + 1).drop_last() =~= areas@.subrange(0, i as int));
        proof {
            assert((i as nat) * 0x1_0000_0000_0000_0000 + 0x1_0000_0000_0000_0000 == (i as nat
                + 1) * 0x1_0000_0000_0000_0000) by (nonlinear_arith);
            assert((i as nat + 1) * 0x1_0000_0000_0000_0000 <= 0x1_0000_0000_0000_0000
                * 0x1_0000_0000_0000_0000) by (nonlinear_arith)
                requires
                    i < 0x1_0000_0000_0000_0000,
            ;
        }
        sum = sum + areas[i] as u128;
        i = i + 1;
    }
    assert(areas@.subrange(0, areas.len() as int) =~= areas@);
    if sum >= page_area as u128 {
        FULL_COVERAGE
    } else {
        proof {
            assert((sum as int) * 1000000 / (page_area as int) <= 1000000) by (nonlinear_arith)
                requires
                    sum < page_area,
                    page_area > 0,
            ;
        }
        (sum * 1000000 / page_area as u128) as u32
    }
}

/// Whether a mixed page gets the table-extraction request: extraction is
/// enabled and the page's text reads like a table.
pub fn table_candidate(enabled: bool, text: &str) -> (r: bool)
    ensures
        r == (enabled && table_like(text@)),
{
    enabled && looks_like_table(text)
}

/// The pages processed, `[first, end)`: from `start` (the first page when
/// absent) up to `end` (the last page when absent), never past `total`.
pub fn page_range(start: Option<u32>, end: Option<u32>, total: u32) -> (r: (u32, u32))
    ensures
        r.0 == match start {
            Some(s) => s,
            None => 0,
        },
        r.1 == match end {
            Some(e) => if e < total {
                e
            } else {
                total
            },
            None => total,
        },
{
    let first = match start {
        Some(s) => s,
        None => 0,
    };
    let last = match end {
        Some(e) => if e < total {
            e
        } else {
            total
        },
        None => total,
    };
    (first, last)
}

/// The standard base64 alphabet.
pub open spec fn base64_alphabet() -> Seq<char> {
    "ABCDEFGHIJKLMNOPQRSTUVWXYZabcdefghijklmnopqrstuvwxyz0123456789+/"@
}

/// The base64 digit of a six-bit value.
pub open spec fn b64(v: int) -> char {
    base64_alphabet()[v]
}

/// The standard base64 encoding of some bytes, with padding: each group of
/// three bytes gives four digits of six bits; a last group of one or two
/// bytes is padded with `=`.
pub open spec fn base64_of(b: Seq<u8>) -> Seq<char>
    decreases b.len(),
{
    let x = if b.len() > 0 { b[0] as int } else { 0 };
    let y = if b.len() > 1 { b[1] as int } else { 0 };
    let z = if b.len() > 2 { b[2] as int } else { 0 };
    if b.len() == 0 {
        Seq::empty()
    } else if b.len() == 1 {
        seq![b64(x / 4), b64((x % 4) * 16), '=', '=']
    } else if b.len() == 2 {
        seq![b64(x / 4), b64((x % 4) * 16 + y / 16), b64((y % 16) * 4), '=']
    } else {
        seq![b64(x / 4), b64((x % 4) * 16 + y / 16), b64((y % 16) * 4 + z / 64), b64(z % 64)]
            + base64_of(b.subrange(3, b.len() as int))
    }
}

/// Relies on `base64::Engine::encode` with the `STANDARD` engine: the
/// padded standard encoding, four characters for each three bytes or part
/// of three; it panics where that length overflows `usize`.
#[verifier::external_body]
fn encode_base64(bytes: &Vec<u8>) -> (r: String)
    requires
        bytes@.len() <= (usize::MAX / 4) * 3,
    ensures
        r@ == base64_of(bytes@),
        r@.len() == 4 * ((bytes@.len() + 2) / 3),
{
    base64::engine::general_purpose::STANDARD.encode(bytes)
}

/// The most bytes whose base64 form still has a length that fits `usize`.
pub const MAX_IMAGE_BYTES: usize = usize::MAX / 4 * 3;

/// The base64 form of an image's bytes, as a vision model receives it.
pub fn encode_image(bytes: &Vec<u8>) -> (r: String)
    requires
        bytes@.len() <= MAX_IMAGE_BYTES,
    ensures
        r@ == base64_of(bytes@),
{
    encode_base64(bytes)
}

/// An embedded image kept for description: its 1-based index on the page,
/// its size in pixels, its PNG bytes and their base64 form.
pub struct RawImage {
    pub index: u32,
    pub width: u32,
    pub height: u32,
    pub bytes: Vec<u8>,
    pub base64: String,
}

/// The candidates at least `min_size` pixels in both directions, in order.
pub open spec fn large_enough(cs: Seq<(u32, u32, Vec<u8>)>, min_size: u32) -> Seq<
    (u32, u32, Vec<u8>),
>
    decreases cs.len(),
{
    if cs.len() == 0 {
        Seq::empty()
    } else {
        let r = large_enough(cs.drop_last(), min_size);
        if cs.last().0 >= min_size && cs.last().1 >= min_size {
            r.push(cs.last())
        } else {
            r
        }
    }
}

proof fn lemma_large_enough_len(cs: Seq<(u32, u32, Vec<u8>)>, min_size: u32)
    ensures
        large_enough(cs, min_size).len() <= cs.len(),
    decreases cs.len(),
{
    if cs.len() > 0 {
        lemma_large_enough_len(cs.drop_last(), min_size);
    }
}

/// `img` is candidate `c` numbered `k + 1`.
pub open spec fn numbered(img: RawImage, k: int, c: (u32, u32, Vec<u8>)) -> bool {
    &&& img.index == k + 1
    &&& img.width == c.0
    &&& img.height == c.1
    &&& img.bytes@ == c.2@
    &&& img.base64@ == base64_of(c.2@)
}

/// Keeps the decoded images (width, height, PNG bytes) of a page that are
/// at least `min_size` pixels wide and high, and numbers them densely from
/// 1 in the order they were found.
pub fn select_images(candidates: Vec<(u32, u32, Vec<u8>)>, min_size: u32) -> (r: Vec<RawImage>)
    requires
        candidates@.len() < u32::MAX,
        forall|i: int| 0 <= i < candidates@.len() ==> #[trigger] candidates@[i].2@.len()
            <= MAX_IMAGE_BYTES,
    ensures
        r@.len() == large_enough(candidates@, min_size).len(),
        forall|k: int|
            0 <= k < r@.len() ==> numbered(#[trigger] r@[k], k, large_enough(candidates@, min_size)[k]),
{
    let ghost cs = candidates@;
    let mut rest = candidates;
    let n = rest.len();
    let mut out: Vec<RawImage> = Vec::new();
    let ghost mut done: int = 0;
    let ghost mut le: Seq<(u32, u32, Vec<u8>)> = Seq::empty();
    while rest.len() > 0
        invariant
            n == cs.len() < u32::MAX,
            rest@.len() <= n,
            done == n - rest@.len(),
            rest@ == cs.subrange(done, n as int),
            forall|i: int| 0 <= i < cs.len() ==> #[trigger] cs[i].2@.len() <= MAX_IMAGE_BYTES,
            le == large_enough(cs.subrange(0, done), min_size),
            out@.len() == le.len(),
            out@.len() <= done,
            forall|k: int| 0 <= k < out@.len() ==> numbered(#[trigger] out@[k], k, le[k]),
        decreases rest.len(),
    {
        let ghost i = done;
        let c = rest.remove(0);
        assert(cs[i] == c);
        assert(rest@ =~= cs.subrange(i + 1, n as int));
        assert(cs.subrange(0, i + 1).drop_last() =~= cs.subrange(0, i));
        let ghost old_out = out@;
        let ghost old_le = le;
        if c.0 >= min_size && c.1 >= min_size {
            let ghost cv = c;
            let base64 = encode_base64(&c.2);
            let index = (out.len() + 1) as u32;
            out.push(RawImage { index, width: c.0, height: c.1, bytes: c.2, base64 });
            proof {
                le = old_le.push(cv);
            }
            assert forall|k: int| 0 <= k < out@.len() implies numbered(#[trigger] out@[k], k, le[k]) by {
                if k < old_out.len() {
                    assert(out@[k] == old_out[k]);
                    assert(le[k] == old_le[k]);
                }
            }
        }
        proof {
            done = i + 1;
        }
        assert(le == large_enough(cs.subrange(0, done), min_size));
    }
    assert(cs.subrange(0, n as int) =~= cs);
    out
}

/// How an image was produced.
#[derive(Clone, Copy, Debug, PartialEq, Eq, Structural)]
pub enum ImageType {
    /// The entire page rendered as one image.
    FullPage,
    /// An image embedded in the page.
    ExtractedImage,
    /// The page rendered for a detected table.
    TableRegion,
}

/// One entry of the image catalog.
pub struct ImageMetadata {
    /// The saved image, as `<document>/<file name>`.
    pub image_file: String,
    /// 1-indexed page number.
    pub page: u32,
    /// Index of the image on its page, for embedded images.
    pub index: Option<u32>,
    pub image_type: ImageType,
    pub width: Option<u32>,
    pub height: Option<u32>,
    /// What the vision model said of the image.
    pub description: String,
    /// The document's name without its extension.
    pub source_doc: String,
    pub provider: String,
    pub model: String,
}

/// The mathematical content of an [`ImageMetadata`].
pub struct MetaView {
    pub image_file: Seq<char>,
    pub page: u32,
    pub index: Option<u32>,
    pub image_type: ImageType,
    pub width: Option<u32>,
    pub height: Option<u32>,
    pub description: Seq<char>,
    pub source_doc: Seq<char>,
    pub provider: Seq<char>,
    pub model: Seq<char>,
}

impl View for ImageMetadata {
    type V = MetaView;

    open spec fn view(&self) -> MetaView {
        MetaView {
            image_file: self.image_file@,
            page: self.page,
            index: self.index,
            image_type: self.image_type,
            width: self.width,
            height: self.height,
            description: self.description@,
            source_doc: self.source_doc@,
            provider: self.provider@,
            model: self.model@,
        }
    }
}

/// The views of a sequence of catalog entries.
pub open spec fn meta_views(s: Seq<ImageMetadata>) -> Seq<MetaView> {
    s.map_values(|m: ImageMetadata| m@)
}

/// The outcome of describing one embedded image.
pub struct ImageResult {
    /// 1-based index of the image on its page.
    pub index: u32,
    pub width: u32,
    pub height: u32,
    /// The description, or the message of the failure.
    pub description: Result<String, String>,
}

/// The outcome of enriching one page.
pub enum PageWork {
    /// The page was described as one image; `hint_text` is its text layer.
    FullPage { hint_text: String, description: Result<String, String> },
    /// The page's text, the outcome of its table extraction when it was a
    /// table candidate, and the outcomes of its embedded images.
    Mixed { text: String, table: Option<Result<String, String>>, images: Vec<ImageResult> },
    /// The page's data could not be extracted.
    Unreadable { message: String },
}

/// A page's enrichment outcome with its 0-indexed page number.
pub struct PageResult {
    pub page_num: u32,
    pub work: PageWork,
}

impl Keyed for ImageResult {
    open spec fn key(&self) -> u32 {
        self.index
    }

    fn key_of(&self) -> (k: u32) {
        self.index
    }
}

impl Keyed for PageResult {
    open spec fn key(&self) -> u32 {
        self.page_num
    }

    fn key_of(&self) -> (k: u32) {
        self.page_num
    }
}

/// The 1-indexed number of a page.
pub open spec fn page_no(p: PageResult) -> nat {
    p.page_num as nat + 1
}

pub open spec fn heading(n: nat) -> Seq<char> {
    "\n\n---\n## Page "@ + decimal(n) + "\n"@
}

/// The file name of an image of page `n`.
pub open spec fn file_name(stem: Seq<char>, n: nat, tail: Seq<char>) -> Seq<char> {
    stem + "_page_"@ + pad3(n) + tail
}

pub open spec fn image_tail(index: nat) -> Seq<char> {
    "_img"@ + decimal(index) + ".png"@
}

/// How the Markdown and the catalog refer to an image file.
pub open spec fn reference(stem: Seq<char>, file: Seq<char>) -> Seq<char> {
    stem + "/"@ + file
}

/// The text that stands for an outcome: the description, or a placeholder
/// that opens with `failed` and carries the failure's message.
pub open spec fn outcome_text(o: Result<String, String>, failed: Seq<char>) -> Seq<char> {
    match o {
        Ok(d) => d@,
        Err(e) => failed + e@ + "]"@,
    }
}

pub open spec fn image_failed() -> Seq<char> {
    "[ไม่สามารถอธิบายภาพได้: "@
}

pub open spec fn table_failed() -> Seq<char> {
    "[ไม่สามารถแปลงตารางได้: "@
}

pub open spec fn image_block(stem: Seq<char>, n: nat, img: ImageResult) -> Seq<char> {
    "\n[IMAGE:"@ + reference(stem, file_name(stem, n, image_tail(img.index as nat)))
        + "]\n**[ภาพที่ "@ + decimal(img.index as nat) + "]:** "@ + outcome_text(
        img.description,
        image_failed(),
    ) + "\n"@
}

pub open spec fn image_blocks(stem: Seq<char>, n: nat, imgs: Seq<ImageResult>) -> Seq<Seq<char>> {
    imgs.map_values(|img: ImageResult| image_block(stem, n, img))
}

/// The lines of a page's Markdown section, before they are joined with
/// newlines.
pub open spec fn page_lines(stem: Seq<char>, p: PageResult) -> Seq<Seq<char>> {
    let n = page_no(p);
    match p.work {
        PageWork::FullPage { hint_text, description } => seq![heading(n)] + (if hint_text@.len()
            > 0 {
            seq![hint_text@, Seq::empty()]
        } else {
            Seq::empty()
        }) + seq![
            "[IMAGE:"@ + reference(stem, file_name(stem, n, "_full.png"@)) + "]\n"@,
            outcome_text(description, image_failed()),
        ],
        PageWork::Mixed { text, table, images } => seq![heading(n)] + (if table is None
            && text@.len() > 0 {
            seq![text@]
        } else {
            Seq::empty()
        }) + (match table {
            Some(o) => seq![
                "\n[IMAGE:"@ + reference(stem, file_name(stem, n, "_table.png"@)) + "]\n\n"@
                    + outcome_text(o, table_failed()) + "\n"@,
            ],
            None => Seq::empty(),
        }) + image_blocks(stem, n, sort_by_key(images@)),
        PageWork::Unreadable { message } => seq![heading(n) + "[Error: "@ + message@ + "]\n"@],
    }
}

/// A page's Markdown section.
pub open spec fn page_content(stem: Seq<char>, p: PageResult) -> Seq<char> {
    join(page_lines(stem, p), "\n"@)
}

pub open spec fn entry(
    stem: Seq<char>,
    provider: Seq<char>,
    model: Seq<char>,
    file: Seq<char>,
    n: nat,
    index: Option<u32>,
    image_type: ImageType,
    width: Option<u32>,
    height: Option<u32>,
    description: Seq<char>,
) -> MetaView {
    MetaView {
        image_file: reference(stem, file),
        page: n as u32,
        index,
        image_type,
        width,
        height,
        description,
        source_doc: stem,
        provider,
        model,
    }
}

/// The catalog entries of the images `imgs` of page `n` that were described.
pub open spec fn images_meta(
    stem: Seq<char>,
    provider: Seq<char>,
    model: Seq<char>,
    n: nat,
    imgs: Seq<ImageResult>,
) -> Seq<MetaView>
    decreases imgs.len(),
{
    if imgs.len() == 0 {
        Seq::empty()
    } else {
        let img = imgs.last();
        images_meta(stem, provider, model, n, imgs.drop_last()) + match img.description {
            Ok(d) => seq![
                entry(
                    stem,
                    provider,
                    model,
                    file_name(stem, n, image_tail(img.index as nat)),
                    n,
                    Some(img.index),
                    ImageType::ExtractedImage,
                    Some(img.width),
                    Some(img.height),
                    d@,
                ),
            ],
            Err(_) => Seq::empty(),
        }
    }
}

/// The catalog entries of a page: one for each description that succeeded,
/// in the order the page's Markdown shows the images.
pub open spec fn page_meta(
    stem: Seq<char>,
    provider: Seq<char>,
    model: Seq<char>,
    p: PageResult,
) -> Seq<MetaView> {
    let n = page_no(p);
    match p.work {
        PageWork::FullPage { description, .. } => match description {
            Ok(d) => seq![
                entry(
                    stem,
                    provider,
                    model,
                    file_name(stem, n, "_full.png"@),
                    n,
                    None,
                    ImageType::FullPage,
                    None,
                    None,
                    d@,
                ),
            ],
            Err(_) => Seq::empty(),
        },
        PageWork::Mixed { table, images, .. } => (match table {
            Some(Ok(d)) => seq![
                entry(
                    stem,
                    provider,
                    model,
                    file_name(stem, n, "_table.png"@),
                    n,
                    None,
                    ImageType::TableRegion,
                    None,
                    None,
                    d@,
                ),
            ],
            _ => Seq::empty(),
        }) + images_meta(stem, provider, model, n, sort_by_key(images@)),
        PageWork::Unreadable { .. } => Seq::empty(),
    }
}

/// The failure messages of the images `imgs`, in order.
pub open spec fn images_errors(imgs: Seq<ImageResult>) -> Seq<Seq<char>>
    decreases imgs.len(),
{
    if imgs.len() == 0 {
        Seq::empty()
    } else {
        images_errors(imgs.drop_last()) + match imgs.last().description {
            Ok(_) => Seq::empty(),
            Err(e) => seq![e@],
        }
    }
}

/// The failures of a page's units of work, each reported once on the error
/// channel; images in the order they were handed over.
pub open spec fn page_errors(p: PageResult) -> Seq<Seq<char>> {
    match p.work {
        PageWork::FullPage { description, .. } => match description {
            Ok(_) => Seq::empty(),
            Err(e) => seq![e@],
        },
        PageWork::Mixed { table, images, .. } => (match table {
            Some(Err(e)) => seq![e@],
            _ => Seq::empty(),
        }) + images_errors(images@),
        PageWork::Unreadable { message } => seq![message@],
    }
}

fn append_lit(v: &mut Vec<char>, s: &str)
    ensures
        final(v)@ == old(v)@ + s@,
{
    let w = chars_of(s);
    extend_chars(v, &w);
}

fn heading_chars(n: u64) -> (r: Vec<char>)
    ensures
        r@ == heading(n as nat),
{
    let mut v = chars_of("\n\n---\n## Page ");
    extend_chars(&mut v, &decimal_chars(n));
    append_lit(&mut v, "\n");
    v
}

fn file_name_chars(stem: &Vec<char>, n: u64, tail: &Vec<char>) -> (r: Vec<char>)
    ensures
        r@ == file_name(stem@, n as nat, tail@),
{
    let mut v: Vec<char> = Vec::new();
    extend_chars(&mut v, stem);
    append_lit(&mut v, "_page_");
    extend_chars(&mut v, &pad3_chars(n));
    extend_chars(&mut v, tail);
    assert(v@ =~= file_name(stem@, n as nat, tail@));
    v
}

fn reference_chars(stem: &Vec<char>, file: &Vec<char>) -> (r: Vec<char>)
    ensures
        r@ == reference(stem@, file@),
{
    let mut v: Vec<char> = Vec::new();
    extend_chars(&mut v, stem);
    append_lit(&mut v, "/");
    extend_chars(&mut v, file);
    assert(v@ =~= reference(stem@, file@));
    v
}

/// The file name of page `page_num`'s full-page render (0-indexed page).
pub fn full_page_file(stem: &str, page_num: u32) -> (r: String)
    requires
        page_num < u32::MAX,
    ensures
        r@ == file_name(stem@, page_num as nat + 1, "_full.png"@),
{
    string_of(&file_name_chars(&chars_of(stem), page_num as u64 + 1, &chars_of("_full.png")))
}

/// The file name of page `page_num`'s table render (0-indexed page).
pub fn table_file(stem: &str, page_num: u32) -> (r: String)
    requires
        page_num < u32::MAX,
    ensures
        r@ == file_name(stem@, page_num as nat + 1, "_table.png"@),
{
    string_of(&file_name_chars(&chars_of(stem), page_num as u64 + 1, &chars_of("_table.png")))
}

/// The file name of embedded image `index` of page `page_num` (0-indexed
/// page).
pub fn image_file(stem: &str, page_num: u32, index: u32) -> (r: String)
    requires
        page_num < u32::MAX,
    ensures
        r@ == file_name(stem@, page_num as nat + 1, image_tail(index as nat)),
{
    let mut tail = chars_of("_img");
    extend_chars(&mut tail, &decimal_chars(index as u64));
    extend_chars(&mut tail, &chars_of(".png"));
    string_of(&file_name_chars(&chars_of(stem), page_num as u64 + 1, &tail))
}

fn outcome_chars(o: &Result<String, String>, failed: &str) -> (r: Vec<char>)
    ensures
        r@ == outcome_text(*o, failed@),
{
    match o {
        Ok(d) => chars_of(d.as_str()),
        Err(e) => {
            let mut v = chars_of(failed);
            extend_chars(&mut v, &chars_of(e.as_str()));
            append_lit(&mut v, "]");
            v
        },
    }
}

fn make_entry(
    stem: &str,
    provider: &str,
    model: &str,
    reference: &Vec<char>,
    n: u32,
    index: Option<u32>,
    image_type: ImageType,
    width: Option<u32>,
    height: Option<u32>,
    description: &String,
) -> (r: ImageMetadata)
    ensures
        r@ == (MetaView {
            image_file: reference@,
            page: n,
            index,
            image_type,
            width,
            height,
            description: description@,
            source_doc: stem@,
            provider: provider@,
            model: model@,
        }),
{
    ImageMetadata {
        image_file: string_of(reference),
        page: n,
        index,
        image_type,
        width,
        height,
        description: description.clone(),
        source_doc: stem.to_owned(),
        provider: provider.to_owned(),
        model: model.to_owned(),
    }
}

/// A page's Markdown section and catalog entries.
pub struct PageOutput {
    pub page_num: u32,
    pub content: String,
    pub metadata: Vec<ImageMetadata>,
}

/// Renders one page's enrichment outcome: its Markdown section (heading,
/// retained text, then each image marker followed by its description or by
/// an inline failure placeholder, images in ascending index order) and the
/// catalog entries of the descriptions that succeeded, in the same order.
pub fn render_page(stem: &str, provider: &str, model: &str, page: PageResult) -> (r: PageOutput)
    requires
        page.page_num < u32::MAX,
    ensures
        r.page_num == page.page_num,
        r.content@ == page_content(stem@, page),
        meta_views(r.metadata@) == page_meta(stem@, provider@, model@, page),
{
    let ghost p = page;
    let n = page.page_num + 1;
    let stem_c = chars_of(stem);
    let mut lines: Vec<Vec<char>> = Vec::new();
    let mut meta: Vec<ImageMetadata> = Vec::new();
    lines.push(heading_chars(n as u64));
    match page.work {
        PageWork::FullPage { hint_text, description } => {
            let hint = chars_of(hint_text.as_str());
            if hint.len() > 0 {
                lines.push(hint);
                lines.push(Vec::new());
            }
            let file = file_name_chars(&stem_c, n as u64, &chars_of("_full.png"));
            let r = reference_chars(&stem_c, &file);
            let mut l = chars_of("[IMAGE:");
            extend_chars(&mut l, &r);
            append_lit(&mut l, "]\n");
            lines.push(l);
            lines.push(outcome_chars(&description, "[ไม่สามารถอธิบายภาพได้: "));
            assert(views(lines@) =~= page_lines(stem@, p));
            match &description {
                Ok(d) => {
                    meta.push(
                        make_entry(
                            stem,
                            provider,
                            model,
                            &r,
                            n,
                            None,
                            ImageType::FullPage,
                            None,
                            None,
                            d,
                        ),
                    );
                    assert(meta_views(meta@) =~= page_meta(stem@, provider@, model@, p));
                },
                Err(_) => {
                    assert(meta_views(meta@) =~= page_meta(stem@, provider@, model@, p));
                },
            }
        },
        PageWork::Mixed { text, table, images } => {
            let text_c = chars_of(text.as_str());
            let is_candidate = table.is_some();
            if !is_candidate && text_c.len() > 0 {
                lines.push(text_c);
            }
            match &table {
                Some(o) => {
                    let file = file_name_chars(&stem_c, n as u64, &chars_of("_table.png"));
                    let r = reference_chars(&stem_c, &file);
                    let mut l = chars_of("\n[IMAGE:");
                    extend_chars(&mut l, &r);
                    append_lit(&mut l, "]\n\n");
                    extend_chars(&mut l, &outcome_chars(o, "[ไม่สามารถแปลงตารางได้: "));
                    append_lit(&mut l, "\n");
                    lines.push(l);
                    match o {
                        Ok(d) => {
                            meta.push(
                                make_entry(
                                    stem,
                                    provider,
                                    model,
                                    &r,
                                    n,
                                    None,
                                    ImageType::TableRegion,
                                    None,
                                    None,
                                    d,
                                ),
                            );
                        },
                        Err(_) => {},
                    }
                },
                None => {},
            }
            let ghost lines_before = views(lines@);
            let ghost meta_before = meta_views(meta@);
            let sorted = sort_by_key_exec(images);
            let ghost imgs = sorted@;
            let mut i: usize = 0;
            while i < sorted.len()
                invariant
                    imgs == sorted@,
                    i <= sorted.len(),
                    n as nat == page_no(p),
                    stem_c@ == stem@,
                    views(lines@) == lines_before + image_blocks(
                        stem@,
                        n as nat,
                        imgs.subrange(0, i as int),
                    ),
                    meta_views(meta@) == meta_before + images_meta(
                        stem@,
                        provider@,
                        model@,
                        n as nat,
                        imgs.subrange(0, i as int),
                    ),
                decreases sorted.len() - i,
            {
                let img = &sorted[i];
                let file = file_name_chars(
                    &stem_c,
                    n as u64,
                    &{
                        let mut t = chars_of("_img");
                        extend_chars(&mut t, &decimal_chars(img.index as u64));
                        append_lit(&mut t, ".png");
                        t
                    },
                );
                let r = reference_chars(&stem_c, &file);
                let mut l = chars_of("\n[IMAGE:");
                extend_chars(&mut l, &r);
                append_lit(&mut l, "]\n**[ภาพที่ ");
                extend_chars(&mut l, &decimal_chars(img.index as u64));
                append_lit(&mut l, "]:** ");
                extend_chars(&mut l, &outcome_chars(&img.description, "[ไม่สามารถอธิบายภาพได้: "));
                append_lit(&mut l, "\n");
                let ghost old_lines = views(lines@);
                let ghost old_meta = meta_views(meta@);
                lines.push(l);
                assert(views(lines@) =~= old_lines.push(l@));
                assert(imgs.subrange(0, i as int + 1).drop_last() =~= imgs.subrange(0, i as int));
                assert(image_blocks(stem@, n as nat, imgs.subrange(0, i as int + 1)) =~= image_blocks(
                    stem@,
                    n as nat,
                    imgs.subrange(0, i as int),
                ).push(l@));
                match &img.description {
                    Ok(d) => {
                        meta.push(
                            make_entry(
                                stem,
                                provider,
                                model,
                                &r,
                                n,
                                Some(img.index),
                                ImageType::ExtractedImage,
                                Some(img.width),
                                Some(img.height),
                                d,
                            ),
                        );
                        assert(meta_views(meta@) =~= old_meta.push(meta@.last()@));
                    },
                    Err(_) => {},
                }
                assert(meta_views(meta@) =~= meta_before + images_meta(
                    stem@,
                    provider@,
                    model@,
                    n as nat,
                    imgs.subrange(0, i as int + 1),
                ));
                i = i + 1;
            }
            assert(imgs.subrange(0, sorted.len() as int) =~= imgs);
            assert(views(lines@) =~= page_lines(stem@, p));
            assert(meta_views(meta@) =~= page_meta(stem@, provider@, model@, p));
        },
        PageWork::Unreadable { message } => {
            let mut l = lines.pop().unwrap();
            append_lit(&mut l, "[Error: ");
            extend_chars(&mut l, &chars_of(message.as_str()));
            append_lit(&mut l, "]\n");
            lines.push(l);
            assert(views(lines@) =~= page_lines(stem@, p));
            assert(meta_views(meta@) =~= page_meta(stem@, provider@, model@, p));
        },
    }
    let content = string_of(&join_chars(&lines, &chars_of("\n")));
    PageOutput { page_num: page.page_num, content, metadata: meta }
}

/// The failure messages of a page's units of work, for the error channel:
/// one for each description that failed and one for a page that could not
/// be read.
pub fn unit_errors(page: &PageResult) -> (r: Vec<String>)
    ensures
        r@.map_values(|e: String| e@) == page_errors(*page),
{
    let mut errs: Vec<String> = Vec::new();
    match &page.work {
        PageWork::FullPage { description, .. } => {
            if let Err(e) = description {
                errs.push(e.clone());
            }
        },
        PageWork::Mixed { table, images, .. } => {
            if let Some(Err(e)) = table {
                errs.push(e.clone());
            }
            let ghost before = errs@.map_values(|e: String| e@);
            let mut i: usize = 0;
            while i < images.len()
                invariant
                    i <= images.len(),
                    errs@.map_values(|e: String| e@) == before + images_errors(
                        images@.subrange(0, i as int),
                    ),
                decreases images.len() - i,
            {
                let img = &images[i];
                let ghost old_errs = errs@.map_values(|e: String| e@);
                assert(images@.subrange(0, i as int + 1).drop_last() =~= images@.subrange(
                    0,
                    i as int,
                ));
                if let Err(e) = &img.description {
                    errs.push(e.clone());
                    assert(errs@.map_values(|e: String| e@) =~= old_errs.push(e@));
                }
                i = i + 1;
            }
            assert(images@.subrange(0, images.len() as int) =~= images@);
        },
        PageWork::Unreadable { message } => {
            errs.push(message.clone());
        },
    }
    assert(errs@.map_values(|e: String| e@) =~= page_errors(*page));
    errs
}

/// The document's header lines: title, provider and model with the page
/// count, and where the images are.
pub open spec fn doc_header(
    stem: Seq<char>,
    provider: Seq<char>,
    model: Seq<char>,
    pages: nat,
) -> Seq<Seq<char>> {
    seq![
        "# "@ + stem + "\n"@,
        "> Provider: `"@ + provider + "` | Model: `"@ + model + "` | Pages: "@ + decimal(pages)
            + "\n"@,
        "> Images: `images/"@ + stem + "/`\n"@,
    ]
}

/// The catalog of the pages `ps`, taken in the order given.
pub open spec fn catalog_of(
    stem: Seq<char>,
    provider: Seq<char>,
    model: Seq<char>,
    ps: Seq<PageResult>,
) -> Seq<MetaView>
    decreases ps.len(),
{
    if ps.len() == 0 {
        Seq::empty()
    } else {
        catalog_of(stem, provider, model, ps.drop_last()) + page_meta(
            stem,
            provider,
            model,
            ps.last(),
        )
    }
}

/// The enriched Markdown of a document: the header, then each page's
/// section in ascending page order, joined with newlines.
pub open spec fn document_markdown(
    stem: Seq<char>,
    provider: Seq<char>,
    model: Seq<char>,
    pages: Seq<PageResult>,
) -> Seq<char> {
    join(
        doc_header(stem, provider, model, pages.len()) + sort_by_key(pages).map_values(
            |p: PageResult| page_content(stem, p),
        ),
        "\n"@,
    )
}

/// The image catalog of a document, in the order its Markdown shows the
/// images.
pub open spec fn document_catalog(
    stem: Seq<char>,
    provider: Seq<char>,
    model: Seq<char>,
    pages: Seq<PageResult>,
) -> Seq<MetaView> {
    catalog_of(stem, provider, model, sort_by_key(pages))
}

/// Every page number can be written 1-indexed in a `u32`.
pub open spec fn numbers_fit(pages: Seq<PageResult>) -> bool {
    forall|i: int| 0 <= i < pages.len() ==> #[trigger] pages[i].page_num < u32::MAX
}

/// Where a processing run left its artifacts, and how many images it
/// described.
pub struct ProcessingResult {
    pub markdown_path: String,
    pub metadata_path: String,
    pub image_count: u32,
}

/// The assembled outputs of a document.
pub struct DocumentOutput {
    pub markdown: String,
    pub catalog: Vec<ImageMetadata>,
}

/// Puts the pages' outcomes, finished in any order, back in page order and
/// builds the document's Markdown and image catalog from them.
#[verifier::rlimit(50)]
pub fn assemble_document(
    stem: &str,
    provider: &str,
    model: &str,
    pages: Vec<PageResult>,
) -> (r: DocumentOutput)
    requires
        numbers_fit(pages@),
    ensures
        r.markdown@ == document_markdown(stem@, provider@, model@, pages@),
        meta_views(r.catalog@) == document_catalog(stem@, provider@, model@, pages@),
{
    broadcast use vstd::seq_lib::group_to_multiset_ensures;

    let total = pages.len() as u64;
    let mut lines: Vec<Vec<char>> = Vec::new();
    let stem_c = chars_of(stem);
    let mut l0 = chars_of("# ");
    extend_chars(&mut l0, &stem_c);
    append_lit(&mut l0, "\n");
    lines.push(l0);
    let mut l1 = chars_of("> Provider: `");
    append_lit(&mut l1, provider);
    append_lit(&mut l1, "` | Model: `");
    append_lit(&mut l1, model);
    append_lit(&mut l1, "` | Pages: ");
    extend_chars(&mut l1, &decimal_chars(total));
    append_lit(&mut l1, "\n");
    lines.push(l1);
    let mut l2 = chars_of("> Images: `images/");
    extend_chars(&mut l2, &stem_c);
    append_lit(&mut l2, "/`\n");
    lines.push(l2);
    let ghost header = views(lines@);
    assert(header =~= doc_header(stem@, provider@, model@, pages@.len()));
    let ghost ps = pages@;
    proof {
        lemma_sort_by_key(ps);
    }
    let mut rest = sort_by_key_exec(pages);
    let ghost sorted = rest@;
    assert forall|k: int| 0 <= k < sorted.len() implies #[trigger] sorted[k].page_num
        < u32::MAX by {
        assert(sorted.to_multiset().contains(sorted[k]));
        assert(ps.contains(sorted[k]));
    }
    let n = rest.len();
    let mut catalog: Vec<ImageMetadata> = Vec::new();
    while rest.len() > 0
        invariant
            n == sorted.len(),
            rest@.len() <= n,
            rest@ == sorted.subrange(n - rest@.len(), n as int),
            forall|k: int| 0 <= k < sorted.len() ==> #[trigger] sorted[k].page_num < u32::MAX,
            views(lines@) == header + sorted.subrange(0, n - rest@.len()).map_values(
                |p: PageResult| page_content(stem@, p),
            ),
            meta_views(catalog@) == catalog_of(
                stem@,
                provider@,
                model@,
                sorted.subrange(0, n - rest@.len()),
            ),
        decreases rest.len(),
    {
        let ghost i = n - rest@.len();
        let page = rest.remove(0);
        assert(sorted[i] == page);
        assert(rest@ =~= sorted.subrange(n - rest@.len(), n as int));
        assert(sorted.subrange(0, i + 1).drop_last() =~= sorted.subrange(0, i));
        let out = render_page(stem, provider, model, page);
        let ghost old_lines = views(lines@);
        lines.push(string_chars(&out.content));
        assert(views(lines@) =~= old_lines.push(out.content@));
        assert(sorted.subrange(0, i + 1).map_values(|p: PageResult| page_content(stem@, p))
            =~= sorted.subrange(0, i).map_values(|p: PageResult| page_content(stem@, p)).push(
            page_content(stem@, sorted[i]),
        ));
        let ghost old_catalog = meta_views(catalog@);
        let mut md = out.metadata;
        let ghost added = meta_views(md@);
        catalog.append(&mut md);
        assert(meta_views(catalog@) =~= old_catalog + added);
    }
    assert(sorted.subrange(0, n as int) =~= sorted);
    let markdown = string_of(&join_chars(&lines, &chars_of("\n")));
    DocumentOutput { markdown, catalog }
}

/// The characters of a `String`.
fn string_chars(s: &String) -> (r: Vec<char>)
    ensures
        r@ == s@,
{
    chars_of(s.as_str())
}

/// Counts one for an image whose description succeeded.
pub open spec fn image_success() -> spec_fn(ImageResult) -> nat {
    |img: ImageResult|
        if img.description is Ok {
            1nat
        } else {
            0nat
        }
}

/// The number of descriptions of a page that succeeded.
pub open spec fn page_successes(p: PageResult) -> nat {
    match p.work {
        PageWork::FullPage { description, .. } => if description is Ok {
            1nat
        } else {
            0nat
        },
        PageWork::Mixed { table, images, .. } => (if table matches Some(Ok(_)) {
            1nat
        } else {
            0nat
        }) + tally(images@, image_success()),
        PageWork::Unreadable { .. } => 0nat,
    }
}

/// Counts a page's successful descriptions.
pub open spec fn page_success() -> spec_fn(PageResult) -> nat {
    |p: PageResult| page_successes(p)
}

proof fn lemma_images_meta_len(
    stem: Seq<char>,
    provider: Seq<char>,
    model: Seq<char>,
    n: nat,
    imgs: Seq<ImageResult>,
)
    ensures
        images_meta(stem, provider, model, n, imgs).len() == tally(imgs, image_success()),
    decreases imgs.len(),
{
    if imgs.len() > 0 {
        lemma_images_meta_len(stem, provider, model, n, imgs.drop_last());
    }
}

proof fn lemma_catalog_len(
    stem: Seq<char>,
    provider: Seq<char>,
    model: Seq<char>,
    ps: Seq<PageResult>,
)
    ensures
        catalog_of(stem, provider, model, ps).len() == tally(ps, page_success()),
    decreases ps.len(),
{
    if ps.len() > 0 {
        lemma_catalog_len(stem, provider, model, ps.drop_last());
        let p = ps.last();
        if let PageWork::Mixed { images, .. } = p.work {
            lemma_images_meta_len(stem, provider, model, page_no(p), sort_by_key(images@));
            lemma_tally_sort(images@, image_success());
        }
    }
}

/// The image catalog holds exactly one entry for each description that
/// succeeded, whatever order the pages finished in.
pub proof fn lemma_catalog_counts_successes(
    stem: Seq<char>,
    provider: Seq<char>,
    model: Seq<char>,
    pages: Seq<PageResult>,
)
    ensures
        document_catalog(stem, provider, model, pages).len() == tally(pages, page_success()),
{
    lemma_catalog_len(stem, provider, model, sort_by_key(pages));
    lemma_tally_sort(pages, page_success());
}

/// The order in which pages finish cannot be seen in the output: any two
/// arrangements of the same page outcomes, with distinct page numbers, give
/// the same Markdown and the same catalog.
pub proof fn lemma_order_invisible(
    stem: Seq<char>,
    provider: Seq<char>,
    model: Seq<char>,
    a: Seq<PageResult>,
    b: Seq<PageResult>,
)
    requires
        keys_distinct(a),
        keys_distinct(b),
        a.to_multiset() == b.to_multiset(),
    ensures
        document_markdown(stem, provider, model, a) == document_markdown(stem, provider, model, b),
        document_catalog(stem, provider, model, a) == document_catalog(stem, provider, model, b),
{
    lemma_sort_order_free(a, b);
    vstd::seq_lib::to_multiset_len(a);
    vstd::seq_lib::to_multiset_len(b);
}

/// A page's section in text-only mode: its heading, then its text if any.
pub open spec fn text_page(page_num: u32, text: Seq<char>) -> Seq<char> {
    join(
        seq![heading(page_num as nat + 1)] + if text.len() > 0 {
            seq![text]
        } else {
            Seq::empty()
        },
        "\n"@,
    )
}

/// The Markdown of a text-only run: a header naming the mode, language and
/// page count, then each page's section in the order given.
pub open spec fn text_only_markdown(
    stem: Seq<char>,
    language: Language,
    pages: Seq<(u32, String)>,
) -> Seq<char> {
    join(
        seq![
            "# "@ + stem + "\n"@,
            "> Mode: `text-only` | Language: `"@ + language_code(language) + "` | Pages: "@
                + decimal(pages.len()) + "\n"@,
        ] + pages.map_values(|p: (u32, String)| text_page(p.0, p.1@)),
        "\n"@,
    )
}

/// Builds the Markdown of a text-only run from the pages' cleaned texts.
pub fn assemble_text_only(stem: &str, language: Language, page_texts: &[(u32, String)]) -> (r:
    String)
    ensures
        r@ == text_only_markdown(stem@, language, page_texts@),
{
    let mut lines: Vec<Vec<char>> = Vec::new();
    let mut l0 = chars_of("# ");
    append_lit(&mut l0, stem);
    append_lit(&mut l0, "\n");
    lines.push(l0);
    let mut l1 = chars_of("> Mode: `text-only` | Language: `");
    append_lit(&mut l1, language.code());
    append_lit(&mut l1, "` | Pages: ");
    extend_chars(&mut l1, &decimal_chars(page_texts.len() as u64));
    append_lit(&mut l1, "\n");
    lines.push(l1);
    let ghost header = views(lines@);
    assert(header =~= seq![
        "# "@ + stem@ + "\n"@,
        "> Mode: `text-only` | Language: `"@ + language_code(language) + "` | Pages: "@ + decimal(
            page_texts@.len(),
        ) + "\n"@,
    ]);
    let ps = page_texts;
    let mut i: usize = 0;
    while i < ps.len()
        invariant
            i <= ps@.len(),
            views(lines@) == header + ps@.subrange(0, i as int).map_values(
                |p: (u32, String)| text_page(p.0, p.1@),
            ),
        decreases ps@.len() - i,
    {
        let mut parts: Vec<Vec<char>> = Vec::new();
        parts.push(heading_chars(ps[i].0 as u64 + 1));
        let t = chars_of(ps[i].1.as_str());
        if t.len() > 0 {
            parts.push(t);
        }
        assert(views(parts@) =~= seq![heading(ps@[i as int].0 as nat + 1)] + if ps@[i as int].1@.len()
            > 0 {
            seq![ps@[i as int].1@]
        } else {
            Seq::empty()
        });
        let section = join_chars(&parts, &chars_of("\n"));
        let ghost old_lines = views(lines@);
        lines.push(section);
        assert(views(lines@) =~= old_lines.push(section@));
        assert(ps@.subrange(0, i as int + 1).map_values(|p: (u32, String)| text_page(p.0, p.1@))
            =~= ps@.subrange(0, i as int).map_values(|p: (u32, String)| text_page(p.0, p.1@)).push(
            text_page(ps@[i as int].0, ps@[i as int].1@),
        ));
        i = i + 1;
    }
    assert(ps@.subrange(0, ps@.len() as int) =~= ps@);
    assert(views(lines@) =~= seq![
        "# "@ + stem@ + "\n"@,
        "> Mode: `text-only` | Language: `"@ + language_code(language) + "` | Pages: "@ + decimal(
            page_texts@.len(),
        ) + "\n"@,
    ] + page_texts@.map_values(|p: (u32, String)| text_page(p.0, p.1@)));
    string_of(&join_chars(&lines, &chars_of("\n")))
}


/// The document's sections come one per page, in strictly increasing page
/// order, whatever order the pages finished in.
pub proof fn lemma_sections_in_page_order(pages: Seq<PageResult>)
    requires
        keys_distinct(pages),
    ensures
        sort_by_key(pages).len() == pages.len(),
        sort_by_key(pages).to_multiset() == pages.to_multiset(),
        keys_increasing(sort_by_key(pages)),
{
    lemma_sort_by_key(pages);
    lemma_sort_strict(pages);
}

/// A mixed page without a table whose one image could not be described
/// reports exactly that failure once, and adds nothing to the catalog.
pub proof fn lemma_single_failed_image(
    stem: Seq<char>,
    provider: Seq<char>,
    model: Seq<char>,
    p: PageResult,
)
    requires
        p.work matches PageWork::Mixed { table, images, .. } && table is None && images@.len() == 1
            && images@[0].description is Err,
    ensures
        page_errors(p).len() == 1,
        page_meta(stem, provider, model, p).len() == 0,
{
    if let PageWork::Mixed { table, images, .. } = p.work {
        let imgs = images@;
        assert(imgs.drop_last() =~= Seq::<ImageResult>::empty());
        assert(sort_by_key(imgs.drop_last()) =~= Seq::<ImageResult>::empty());
        assert(sort_by_key(imgs) =~= imgs);
        let e = Seq::<ImageResult>::empty();
        assert(imgs.last() == imgs[0]);
        assert(images_errors(e) == Seq::<Seq<char>>::empty());
        assert(images_errors(imgs) =~= seq![imgs[0].description->Err_0@]);
        assert(images_meta(stem, provider, model, page_no(p), e) == Seq::<MetaView>::empty());
        assert(images_meta(stem, provider, model, page_no(p), sort_by_key(imgs)) =~= Seq::<
            MetaView,
        >::empty());
    }
}

} // verus!
