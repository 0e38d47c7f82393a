use jay_rag_core::jobs::{
    default_config, image_target_type, md_target_type, parse_status, status_to_str, ImageTarget,
    JobStatus, MarkdownTarget,
};
use jay_rag_core::progress::{ProgressReporter, SilentReporter};
use jay_rag_core::storage::{LocalStorage, NfsStorage, StorageError};

#[test]
fn status_round_trip() {
    for s in [JobStatus::Pending, JobStatus::Processing, JobStatus::Completed, JobStatus::Failed] {
        assert_eq!(parse_status(status_to_str(&s)), s);
    }
    assert_eq!(parse_status("weird"), JobStatus::Failed);
}

#[test]
fn fallback_job_config() {
    let c = default_config();
    assert_eq!(c.provider, "ollama");
    assert_eq!(c.language, "th");
    assert_eq!(c.storage, "local");
    assert_eq!(c.quality, "standard");
    assert!(c.model.is_none());
}

#[test]
fn target_kinds() {
    assert_eq!(image_target_type(&ImageTarget::LocalFolder { path: "/x".to_string() }), "local_folder");
    let s3 = ImageTarget::S3 { bucket: "b".to_string(), prefix: "p".to_string(), region: None };
    assert_eq!(image_target_type(&s3), "s3");
    let flowise = MarkdownTarget::Flowise {
        base_url: "u".to_string(),
        api_key: "k".to_string(),
        store_id: "s".to_string(),
    };
    assert_eq!(md_target_type(&flowise), "flowise");
}

#[test]
fn local_paths() {
    let store = LocalStorage::new("/data".to_string(), "http://h".to_string());
    assert_eq!(store.full_path("a/b.png"), "/data/a/b.png");
    assert_eq!(store.full_path("/abs"), "/abs");
    let slash = LocalStorage::new("/data/".to_string(), "http://h".to_string());
    assert_eq!(slash.full_path("x"), "/data/x");
}

#[test]
fn share_must_be_a_directory() {
    let ok = NfsStorage::new("/mnt/share".to_string(), "http://h".to_string(), true).unwrap();
    assert_eq!(ok.mount_point(), "/mnt/share");
    match NfsStorage::new("/nope".to_string(), "http://h".to_string(), false) {
        Err(StorageError::Config(m)) => {
            assert_eq!(m, "NFS mount point does not exist or is not a directory: /nope")
        }
        _ => panic!("expected a configuration error"),
    }
}

#[test]
fn silent_reporter_accepts_events() {
    let r = SilentReporter;
    r.on_pdf_start("doc", 3);
    r.on_error(1, "x");
    r.on_pdf_complete("doc", 0);
}

#[test]
fn backend_names_and_urls() {
    let local = LocalStorage::new("/data".to_string(), "http://h//".to_string());
    assert_eq!(local.backend_name(), "local");
    assert_eq!(local.public_url("a/b.png"), "http://h/a/b.png");
    let share = NfsStorage::new("/mnt".to_string(), "http://n/".to_string(), true).unwrap();
    assert_eq!(share.backend_name(), "nfs");
    assert_eq!(share.public_url("x.md"), "http://n/x.md");
}
