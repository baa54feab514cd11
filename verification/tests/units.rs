use kuro_roku::fingerprint::fingerprint_bytes;
use kuro_roku::models::{scanned_file_from_path, FileType, TaskStatus, TaskType};
use kuro_roku::queue::{ProcessingQueue, QueueError};
use kuro_roku::tags::{TagKind, TagSource, TagStore};
use kuro_roku::text::{eq_ignore_ascii_case, str_eq};

#[test]
fn test_from_extension_video() {
    assert_eq!(FileType::from_extension("mp4"), FileType::Video);
    assert_eq!(FileType::from_extension("MP4"), FileType::Video);
    assert_eq!(FileType::from_extension("mkv"), FileType::Video);
    assert_eq!(FileType::from_extension("WebM"), FileType::Video);
}

#[test]
fn test_from_extension_image() {
    assert_eq!(FileType::from_extension("jpg"), FileType::Image);
    assert_eq!(FileType::from_extension("JPEG"), FileType::Image);
    assert_eq!(FileType::from_extension("tif"), FileType::Image);
}

#[test]
fn test_from_extension_audio() {
    assert_eq!(FileType::from_extension("mp3"), FileType::Audio);
    assert_eq!(FileType::from_extension("FLAC"), FileType::Audio);
    assert_eq!(FileType::from_extension("opus"), FileType::Audio);
}

#[test]
fn test_from_extension_document() {
    assert_eq!(FileType::from_extension("pdf"), FileType::Document);
    assert_eq!(FileType::from_extension("TXT"), FileType::Document);
    assert_eq!(FileType::from_extension("docx"), FileType::Document);
}

#[test]
fn test_from_extension_other() {
    assert_eq!(FileType::from_extension("xyz"), FileType::Other);
    assert_eq!(FileType::from_extension(""), FileType::Other);
    assert_eq!(FileType::from_extension("mp44"), FileType::Other);
}

#[test]
fn test_string_helpers() {
    assert!(str_eq("abc", "abc"));
    assert!(!str_eq("abc", "abd"));
    assert!(eq_ignore_ascii_case("MP4", "mp4"));
    assert!(!eq_ignore_ascii_case("mp4", "mp3"));
}

#[test]
fn test_scanned_file_from_path() {
    let f = scanned_file_from_path("/b/a.txt", 12, "2024-01-01T00:00:00Z", "2024-01-02T00:00:00Z");
    assert_eq!(f.path, "/b/a.txt");
    assert_eq!(f.file_name, "a.txt");
    assert_eq!(f.file_extension, "txt");
    assert_eq!(f.file_type, FileType::Document);
    assert_eq!(f.file_size, 12);
    assert_eq!(f.created_at, "2024-01-01T00:00:00Z");
    assert_eq!(f.modified_at, "2024-01-02T00:00:00Z");
}

#[test]
fn test_scanned_file_edge_names() {
    let noext = scanned_file_from_path("/x/noext", 1, "c", "m");
    assert_eq!(noext.file_name, "noext");
    assert_eq!(noext.file_extension, "");
    assert_eq!(noext.file_type, FileType::Other);

    let hidden = scanned_file_from_path("/x/.gitignore", 1, "c", "m");
    assert_eq!(hidden.file_name, ".gitignore");
    assert_eq!(hidden.file_extension, "");

    let trailing = scanned_file_from_path("/x/dir/", 1, "c", "m");
    assert_eq!(trailing.file_name, "unknown");
    assert_eq!(trailing.file_extension, "");

    let upper = scanned_file_from_path("/v/Movie.MKV", 9, "c", "m");
    assert_eq!(upper.file_extension, "MKV");
    assert_eq!(upper.file_type, FileType::Video);
}

#[test]
fn test_fingerprint_matches_blake3() {
    let data: Vec<u8> = b"some file content".to_vec();
    let fp = fingerprint_bytes(&data);
    assert_eq!(fp, blake3::hash(&data).to_hex().to_string());
    assert_eq!(fp.len(), 64);
    assert!(fp.chars().all(|c| c.is_ascii_hexdigit() && !c.is_ascii_uppercase()));
}

#[test]
fn test_fingerprint_deterministic_and_content_sensitive() {
    let a: Vec<u8> = b"identical bytes".to_vec();
    let b: Vec<u8> = b"identical bytes".to_vec();
    let c: Vec<u8> = b"different bytes".to_vec();
    assert_eq!(fingerprint_bytes(&a), fingerprint_bytes(&b));
    assert_ne!(fingerprint_bytes(&a), fingerprint_bytes(&c));
}

#[test]
fn test_enqueue_is_idempotent() {
    let mut q = ProcessingQueue::new();
    assert!(q.enqueue(7, TaskType::Hash, 3));
    assert!(!q.enqueue(7, TaskType::Hash, 3));
    assert!(!q.enqueue(7, TaskType::Hash, 0));
    assert_eq!(q.items.len(), 1);
    assert!(q.enqueue(7, TaskType::Embedding, 0));
    assert_eq!(q.items.len(), 2);
}

#[test]
fn test_claim_complete_lifecycle() {
    let mut q = ProcessingQueue::new();
    q.enqueue(1, TaskType::Hash, 3);
    assert_eq!(q.complete(1, TaskType::Hash, "t1"), Err(QueueError::InvalidTransition));
    assert_eq!(q.claim(1, TaskType::Hash, "t1"), Ok(()));
    let item = q.get(1, TaskType::Hash).unwrap();
    assert_eq!(item.status, TaskStatus::Processing);
    assert_eq!(item.started_at.as_deref(), Some("t1"));
    assert_eq!(q.complete(1, TaskType::Hash, "t2"), Ok(()));
    let item = q.get(1, TaskType::Hash).unwrap();
    assert_eq!(item.status, TaskStatus::Completed);
    assert_eq!(item.completed_at.as_deref(), Some("t2"));
    assert!(item.error_message.is_none());
}

#[test]
fn test_fail_and_retry() {
    let mut q = ProcessingQueue::new();
    q.enqueue(1, TaskType::Vlm, 2);
    assert_eq!(q.retry(1, TaskType::Vlm), Err(QueueError::InvalidTransition));
    q.claim(1, TaskType::Vlm, "t1").unwrap();
    assert_eq!(q.fail(1, TaskType::Vlm, "t2", "model crashed"), Ok(()));
    let item = q.get(1, TaskType::Vlm).unwrap();
    assert_eq!(item.status, TaskStatus::Failed);
    assert_eq!(item.error_message.as_deref(), Some("model crashed"));
    assert_eq!(q.retry(1, TaskType::Vlm), Ok(()));
    let item = q.get(1, TaskType::Vlm).unwrap();
    assert_eq!(item.status, TaskStatus::Pending);
    assert!(item.started_at.is_none());
    assert!(item.completed_at.is_none());
    assert!(item.error_message.is_none());
}

#[test]
fn test_cancel_pending() {
    let mut q = ProcessingQueue::new();
    q.enqueue(1, TaskType::Hash, 3);
    assert_eq!(q.cancel_pending(1, TaskType::Hash), Ok(()));
    assert!(q.get(1, TaskType::Hash).is_none());
    assert_eq!(q.cancel_pending(1, TaskType::Hash), Err(QueueError::NotFound));
    q.enqueue(2, TaskType::Hash, 3);
    q.claim(2, TaskType::Hash, "t").unwrap();
    assert_eq!(q.cancel_pending(2, TaskType::Hash), Err(QueueError::InvalidTransition));
}

#[test]
fn test_next_pending_prefers_priority() {
    let mut q = ProcessingQueue::new();
    q.enqueue(1, TaskType::Embedding, TaskType::Embedding.priority());
    q.enqueue(1, TaskType::Hash, TaskType::Hash.priority());
    q.enqueue(2, TaskType::Vlm, TaskType::Vlm.priority());
    let i = q.next_pending().unwrap();
    assert_eq!(q.items[i].task_type, TaskType::Hash);
    q.claim(1, TaskType::Hash, "t").unwrap();
    let i = q.next_pending().unwrap();
    assert_eq!(q.items[i].task_type, TaskType::Vlm);
}

#[test]
fn test_tag_overwrite_rules() {
    let mut s = TagStore::new();
    s.apply(1, "sunset", TagKind::Auto, 90, TagSource::Task(TaskType::Vlm));
    let ft = s.file_tag_of(1, "sunset").unwrap();
    assert_eq!(ft.confidence, 90);

    // lower confidence from a non-user source does not overwrite
    s.apply(1, "sunset", TagKind::Auto, 50, TagSource::Task(TaskType::Vlm));
    let ft = s.file_tag_of(1, "sunset").unwrap();
    assert_eq!(ft.confidence, 90);

    // equal or higher confidence overwrites
    s.apply(1, "sunset", TagKind::Auto, 95, TagSource::Task(TaskType::Embedding));
    let ft = s.file_tag_of(1, "sunset").unwrap();
    assert_eq!(ft.confidence, 95);
    assert_eq!(ft.source, TagSource::Task(TaskType::Embedding));

    // the user always wins, whatever the confidence
    s.apply(1, "sunset", TagKind::Auto, 40, TagSource::User);
    let ft = s.file_tag_of(1, "sunset").unwrap();
    assert_eq!(ft.confidence, 40);
    assert_eq!(ft.source, TagSource::User);
}

#[test]
fn test_tag_rows_unique_and_removal_idempotent() {
    let mut s = TagStore::new();
    s.apply(1, "beach", TagKind::User, 100, TagSource::User);
    s.apply(2, "beach", TagKind::User, 100, TagSource::User);
    assert_eq!(s.tags.len(), 1);
    assert_eq!(s.file_tags.len(), 2);
    assert!(s.remove(1, "beach"));
    assert!(!s.remove(1, "beach"));
    assert!(s.file_tag_of(1, "beach").is_none());
    assert!(s.file_tag_of(2, "beach").is_some());
    assert_eq!(s.tags.len(), 1);
}
