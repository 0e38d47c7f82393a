//! Processing configuration.
use vstd::prelude::*;
use crate::text::{chars_of, extend_chars, lower_of, lowercase, same_chars, string_of};

verus! {

/// Language of the prompts and of the output.
#[derive(Clone, Copy, Debug, PartialEq, Eq, Structural)]
pub enum Language {
    /// Thai, the default.
    Th,
    /// English.
    En,
}

impl Language {
    /// The language's code, `th` or `en`.
    pub fn code(&self) -> (r: &'static str)
        ensures
            r@ == language_code(*self),
    {
        match self {
            Language::Th => "th",
            Language::En => "en",
        }
    }

    /// Reads a language code in any case.
    pub fn parse(s: &str) -> (r: Result<Language, String>)
        ensures
            lower_of(s@) == "th"@ ==> r == Ok::<Language, String>(Language::Th),
            lower_of(s@) == "en"@ ==> r == Ok::<Language, String>(Language::En),
            lower_of(s@) != "th"@ && lower_of(s@) != "en"@ ==> r is Err && r->Err_0@
                == "Unknown language: "@ + lower_of(s@) + ". Use: th | en"@,
    {
        let lower = chars_of(lowercase(s).as_str());
        proof {
            reveal_strlit("th");
            reveal_strlit("en");
            assert("th"@[0] != "en"@[0]);
        }
        if same_chars(&lower, &chars_of("th")) {
            Ok(Language::Th)
        } else if same_chars(&lower, &chars_of("en")) {
            Ok(Language::En)
        } else {
            let mut m = chars_of("Unknown language: ");
            extend_chars(&mut m, &lower);
            extend_chars(&mut m, &chars_of(". Use: th | en"));
            Err(string_of(&m))
        }
    }
}

pub open spec fn language_code(l: Language) -> Seq<char> {
    match l {
        Language::Th => "th"@,
        Language::En => "en"@,
    }
}

impl Default for Language {
    fn default() -> (r: Language)
        ensures
            r == Language::Th,
    {
        Language::Th
    }
}

/// How thoroughly pages are read.
#[derive(Clone, Copy, Debug, PartialEq, Eq, Structural)]
pub enum Quality {
    /// Each page's strategy follows its image coverage.
    Standard,
    /// Every page goes through full-page vision transcription.
    High,
}

/// Configuration of a processing run. Fractions are in millionths.
#[derive(Clone, Copy, Debug)]
pub struct ProcessingConfig {
    /// DPI for rendering pages as images.
    pub image_dpi: u32,
    /// Embedded images narrower or lower than this, in pixels, are skipped.
    pub min_image_size: u32,
    /// Pages whose image coverage reaches this share are rendered whole.
    pub page_as_image_threshold: u32,
    pub language: Language,
    /// Attempts per vision request.
    pub max_retries: u32,
    /// Base delay between attempts, in milliseconds; it doubles after each.
    pub retry_delay_ms: u64,
    pub table_extraction: bool,
    /// Extract text only: no images, no vision requests.
    pub text_only: bool,
    pub max_concurrent_pages: usize,
    pub max_concurrent_images: usize,
    pub detect_trash: bool,
    pub quality: Quality,
}

pub fn default_concurrent_pages() -> (r: usize)
    ensures
        r == 4,
{
    4
}

pub fn default_concurrent_images() -> (r: usize)
    ensures
        r == 5,
{
    5
}

pub fn default_true() -> (r: bool)
    ensures
        r,
{
    true
}

impl Default for ProcessingConfig {
    fn default() -> (r: ProcessingConfig)
        ensures
            r.image_dpi == 150,
            r.min_image_size == 100,
            r.page_as_image_threshold == 500000,
            r.language == Language::Th,
            r.max_retries == 3,
            r.retry_delay_ms == 2000,
            r.table_extraction,
            !r.text_only,
            r.max_concurrent_pages == 4,
            r.max_concurrent_images == 5,
            r.detect_trash,
            r.quality == Quality::Standard,
    {
        ProcessingConfig {
            image_dpi: 150,
            min_image_size: 100,
            page_as_image_threshold: 500000,
            language: Language::Th,
            max_retries: 3,
            retry_delay_ms: 2000,
            table_extraction: true,
            text_only: false,
            max_concurrent_pages: default_concurrent_pages(),
            max_concurrent_images: default_concurrent_images(),
            detect_trash: true,
            quality: Quality::Standard,
        }
    }
}

} // verus!
