//! Job records of the processing service, and their stored status.
use vstd::prelude::*;
use crate::text::{chars_of, same_chars};

verus! {

/// Status of a processing job.
#[derive(Clone, Copy, Debug, PartialEq, Eq, Structural)]
pub enum JobStatus {
    Pending,
    Processing,
    Completed,
    Failed,
}

pub open spec fn status_name(s: JobStatus) -> Seq<char> {
    match s {
        JobStatus::Pending => "pending"@,
        JobStatus::Processing => "processing"@,
        JobStatus::Completed => "completed"@,
        JobStatus::Failed => "failed"@,
    }
}

/// The stored name of a status.
pub fn status_to_str(status: &JobStatus) -> (r: &'static str)
    ensures
        r@ == status_name(*status),
{
    match status {
        JobStatus::Pending => "pending",
        JobStatus::Processing => "processing",
        JobStatus::Completed => "completed",
        JobStatus::Failed => "failed",
    }
}

/// Reads a stored status; an unknown name reads as failed.
pub fn parse_status(s: &str) -> (r: JobStatus)
    ensures
        s@ == "pending"@ ==> r == JobStatus::Pending,
        s@ == "processing"@ && s@ != "pending"@ ==> r == JobStatus::Processing,
        s@ == "completed"@ && s@ != "pending"@ && s@ != "processing"@ ==> r
            == JobStatus::Completed,
        s@ != "pending"@ && s@ != "processing"@ && s@ != "completed"@ ==> r == JobStatus::Failed,
{
    let c = chars_of(s);
    if same_chars(&c, &chars_of("pending")) {
        JobStatus::Pending
    } else if same_chars(&c, &chars_of("processing")) {
        JobStatus::Processing
    } else if same_chars(&c, &chars_of("completed")) {
        JobStatus::Completed
    } else {
        JobStatus::Failed
    }
}

/// What a job was asked to do.
#[derive(Clone, Debug)]
pub struct JobConfig {
    pub provider: String,
    pub model: Option<String>,
    pub language: String,
    pub start_page: Option<u32>,
    pub end_page: Option<u32>,
    pub table_extraction: bool,
    pub text_only: bool,
    pub storage: String,
    pub s3_bucket: Option<String>,
    pub s3_prefix: Option<String>,
    pub storage_path: Option<String>,
    pub quality: String,
}

pub fn default_language() -> (r: String)
    ensures
        r@ == "th"@,
{
    "th".to_owned()
}

pub fn default_storage() -> (r: String)
    ensures
        r@ == "local"@,
{
    "local".to_owned()
}

pub fn default_quality() -> (r: String)
    ensures
        r@ == "standard"@,
{
    "standard".to_owned()
}

/// The configuration a job falls back to when its stored one cannot be
/// read.
pub fn default_config() -> (r: JobConfig)
    ensures
        r.provider@ == "ollama"@,
        r.model is None,
        r.language@ == "th"@,
        r.start_page is None,
        r.end_page is None,
        !r.table_extraction,
        !r.text_only,
        r.storage@ == "local"@,
        r.s3_bucket is None,
        r.s3_prefix is None,
        r.storage_path is None,
        r.quality@ == "standard"@,
{
    JobConfig {
        provider: "ollama".to_owned(),
        model: None,
        language: default_language(),
        start_page: None,
        end_page: None,
        table_extraction: false,
        text_only: false,
        storage: default_storage(),
        s3_bucket: None,
        s3_prefix: None,
        storage_path: None,
        quality: default_quality(),
    }
}

/// A progress update of a job.
#[derive(Clone, Debug)]
pub struct JobProgress {
    pub current_page: u32,
    pub total_pages: u32,
    pub images_processed: u32,
    pub phase: String,
    pub message: String,
}

/// What a completed job produced.
#[derive(Clone, Debug)]
pub struct JobResult {
    pub markdown_path: String,
    pub metadata_path: String,
    pub image_count: u32,
    pub images_dir: String,
    pub trash_path: Option<String>,
    pub trash_count: u32,
}

/// Where a deployment sends the images.
#[derive(Clone, Debug)]
pub enum ImageTarget {
    LocalFolder { path: String },
    S3 { bucket: String, prefix: String, region: Option<String> },
    Scp {
        host: String,
        port: Option<u16>,
        username: String,
        private_key_path: Option<String>,
        remote_path: String,
    },
}

/// Where a deployment sends the Markdown.
#[derive(Clone, Debug)]
pub enum MarkdownTarget {
    LocalFolder { path: String },
    Flowise { base_url: String, api_key: String, store_id: String },
}

/// The name of an image target's kind.
pub fn image_target_type(target: &ImageTarget) -> (r: String)
    ensures
        target is LocalFolder ==> r@ == "local_folder"@,
        target is S3 ==> r@ == "s3"@,
        target is Scp ==> r@ == "scp"@,
{
    match target {
        ImageTarget::LocalFolder { .. } => "local_folder".to_owned(),
        ImageTarget::S3 { .. } => "s3".to_owned(),
        ImageTarget::Scp { .. } => "scp".to_owned(),
    }
}

/// The name of a Markdown target's kind.
pub fn md_target_type(target: &MarkdownTarget) -> (r: String)
    ensures
        target is LocalFolder ==> r@ == "local_folder"@,
        target is Flowise ==> r@ == "flowise"@,
{
    match target {
        MarkdownTarget::LocalFolder { .. } => "local_folder".to_owned(),
        MarkdownTarget::Flowise { .. } => "flowise".to_owned(),
    }
}

} // verus!
