//! Progress events of a processing run, for a sink that its user supplies.
use vstd::prelude::*;

verus! {

/// Receives progress events. Enrichment units call it concurrently, so an
/// implementation must be safe to share.
pub trait ProgressReporter {
    /// Processing of a document starts.
    fn on_pdf_start(&self, filename: &str, total_pages: u32);

    /// A page's enrichment starts.
    fn on_page_start(&self, page_num: u32, total_pages: u32);

    /// A page's enrichment, including its images, is complete.
    fn on_page_complete(&self, page_num: u32, total_pages: u32);

    /// An image was described; the preview is the description's beginning.
    fn on_image_processed(&self, page_num: u32, image_index: u32, description_preview: &str);

    /// Processing of a document is complete.
    fn on_pdf_complete(&self, filename: &str, total_images: u32);

    /// A unit of work failed; the document goes on.
    fn on_error(&self, page_num: u32, error: &str);
}

/// A reporter that discards every event.
pub struct SilentReporter;

impl ProgressReporter for SilentReporter {
    fn on_pdf_start(&self, _filename: &str, _total_pages: u32) {
    }

    fn on_page_start(&self, _page_num: u32, _total_pages: u32) {
    }

    fn on_page_complete(&self, _page_num: u32, _total_pages: u32) {
    }

    fn on_image_processed(&self, _page_num: u32, _image_index: u32, _description_preview: &str) {
    }

    fn on_pdf_complete(&self, _filename: &str, _total_images: u32) {
    }

    fn on_error(&self, _page_num: u32, _error: &str) {
    }
}

} // verus!
