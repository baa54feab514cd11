use kuro_roku::fingerprint::fingerprint_bytes;
use kuro_roku::index::DedupOutcome;
use kuro_roku::models::{scanned_file_from_path, FileType, TaskStatus, TaskType};
use kuro_roku::queue::QueueError;
use kuro_roku::scan::{Catalog, CatalogError};
use kuro_roku::tags::{TagKind, TagSource};

fn ingest_path(c: &mut Catalog, path: &str, size: u64) -> u64 {
    let f = scanned_file_from_path(path, size, "2024-01-01T00:00:00Z", "2024-01-02T00:00:00Z");
    c.ingest(&f)
}

#[test]
fn test_duplicate_scan_links_second_to_first() {
    // two files with identical bytes at /a.txt and /b/a.txt
    let mut c = Catalog::new();
    let bytes: Vec<u8> = b"same content in both files".to_vec();
    let id_a = ingest_path(&mut c, "/a.txt", bytes.len() as u64);
    let id_b = ingest_path(&mut c, "/b/a.txt", bytes.len() as u64);
    assert_ne!(id_a, id_b);
    assert_eq!(c.index.entries.len(), 2);

    // both get a hashing item
    assert!(c.queue.get(id_a, TaskType::Hash).is_some());
    assert!(c.queue.get(id_b, TaskType::Hash).is_some());

    // hash both, in scan order
    let fp = fingerprint_bytes(&bytes);
    c.queue.claim(id_a, TaskType::Hash, "t1").unwrap();
    let out_a = c.on_hash_completed(id_a, &fp, "t2").unwrap();
    assert_eq!(out_a, DedupOutcome::Original);
    c.queue.claim(id_b, TaskType::Hash, "t3").unwrap();
    let out_b = c.on_hash_completed(id_b, &fp, "t4").unwrap();
    assert_eq!(out_b, DedupOutcome::Duplicate(id_a));

    // the second points at the first; the first stays canonical
    let ea = c.index.get(id_a).unwrap();
    assert_eq!(ea.content_hash.as_deref(), Some(fp.as_str()));
    assert!(ea.duplicate_of.is_none());
    let eb = c.index.get(id_b).unwrap();
    assert_eq!(eb.content_hash.as_deref(), Some(fp.as_str()));
    assert_eq!(eb.duplicate_of, Some(id_a));

    // only the canonical entry receives downstream work
    assert!(c.queue.get(id_a, TaskType::Embedding).is_some());
    assert!(c.queue.get(id_b, TaskType::Embedding).is_none());
    assert!(c.queue.get(id_b, TaskType::Vlm).is_none());
    assert!(c.queue.get(id_b, TaskType::Transcription).is_none());
}

#[test]
fn test_claim_race_yields_one_winner() {
    let mut c = Catalog::new();
    let id = ingest_path(&mut c, "/a.txt", 4);
    // two workers race for the same Pending item: exactly one succeeds
    assert_eq!(c.queue.claim(id, TaskType::Hash, "t1"), Ok(()));
    assert_eq!(c.queue.claim(id, TaskType::Hash, "t2"), Err(QueueError::ClaimConflict));
    let item = c.queue.get(id, TaskType::Hash).unwrap();
    assert_eq!(item.status, TaskStatus::Processing);
    assert_eq!(item.started_at.as_deref(), Some("t1"));
}

#[test]
fn test_reingest_unchanged_is_idempotent() {
    let mut c = Catalog::new();
    let f = scanned_file_from_path("/a.txt", 4, "c0", "m0");
    let id1 = c.ingest(&f);
    let entries = c.index.entries.len();
    let items = c.queue.items.len();
    let id2 = c.ingest(&f);
    assert_eq!(id1, id2);
    assert_eq!(c.index.entries.len(), entries);
    assert_eq!(c.queue.items.len(), items);
    assert_eq!(c.queue.items[0].status, TaskStatus::Pending);
}

#[test]
fn test_changed_metadata_requeues_hash() {
    let mut c = Catalog::new();
    let id = ingest_path(&mut c, "/a.txt", 4);
    c.queue.claim(id, TaskType::Hash, "t1").unwrap();
    let fp = fingerprint_bytes(&b"abcd".to_vec());
    c.on_hash_completed(id, &fp, "t2").unwrap();
    // unchanged metadata: the completed hash item stays as it is
    let f_same = scanned_file_from_path("/a.txt", 4, "2024-01-01T00:00:00Z", "2024-01-02T00:00:00Z");
    c.ingest(&f_same);
    assert_eq!(
        c.queue.get(id, TaskType::Hash).unwrap().status,
        TaskStatus::Completed
    );
    // a change in size asks for a new hash, but the old item still exists,
    // so the enqueue collapses into it (one row per pair)
    let f_changed = scanned_file_from_path("/a.txt", 9, "2024-01-01T00:00:00Z", "2024-01-02T00:00:00Z");
    let id3 = c.ingest(&f_changed);
    assert_eq!(id3, id);
    assert_eq!(c.index.get(id).unwrap().file_size, 9);
}

#[test]
fn test_missing_file_flagged_removed_tags_stay() {
    let mut c = Catalog::new();
    let id = ingest_path(&mut c, "/gone.txt", 4);
    c.tags.apply(id, "keepsake", TagKind::User, 100, TagSource::User);

    let known = vec!["/gone.txt".to_string()];
    let observed: Vec<String> = vec![];
    c.reconcile_missing(&known, &observed);

    let e = c.index.get(id).unwrap();
    assert!(e.removed);
    assert_eq!(c.index.entries.len(), 1);
    let ft = c.tags.file_tag_of(id, "keepsake").unwrap();
    assert_eq!(ft.confidence, 100);

    // a later scan that sees the path again revives the entry
    let id2 = ingest_path(&mut c, "/gone.txt", 4);
    assert_eq!(id2, id);
    assert!(!c.index.get(id).unwrap().removed);
}

#[test]
fn test_hash_completion_needs_processing_item() {
    let mut c = Catalog::new();
    let id = ingest_path(&mut c, "/a.txt", 4);
    let fp = fingerprint_bytes(&b"abcd".to_vec());
    // not claimed yet: the transition is refused and nothing is recorded
    let r = c.on_hash_completed(id, &fp, "t");
    assert_eq!(r, Err(CatalogError::Queue(QueueError::InvalidTransition)));
    assert!(c.index.get(id).unwrap().content_hash.is_none());
    // unknown file id
    let r = c.on_hash_completed(999, &fp, "t");
    assert!(r.is_err());
}

#[test]
fn test_complete_task_records_duration() {
    let mut c = Catalog::new();
    let f = scanned_file_from_path("/m/song.mp3", 10, "c", "m");
    let id = c.ingest(&f);
    c.queue.claim(id, TaskType::Hash, "t1").unwrap();
    let fp = fingerprint_bytes(&b"audio bytes".to_vec());
    c.on_hash_completed(id, &fp, "t2").unwrap();
    c.queue.claim(id, TaskType::Transcription, "t3").unwrap();
    assert_eq!(c.complete_task(id, TaskType::Transcription, "t4", Some(95_000)), Ok(()));
    assert_eq!(c.index.get(id).unwrap().duration_ms, Some(95_000));
    assert_eq!(
        c.queue.get(id, TaskType::Transcription).unwrap().status,
        TaskStatus::Completed
    );
    // completing an unclaimed item is refused
    assert_eq!(
        c.complete_task(id, TaskType::Embedding, "t5", None),
        Err(QueueError::InvalidTransition)
    );
}

#[test]
fn test_downstream_tasks_follow_file_type() {
    let mut c = Catalog::new();
    let f = scanned_file_from_path("/m/clip.mp4", 10, "c", "m");
    assert_eq!(f.file_type, FileType::Video);
    let id = c.ingest(&f);
    c.queue.claim(id, TaskType::Hash, "t1").unwrap();
    let fp = fingerprint_bytes(&b"video bytes".to_vec());
    c.on_hash_completed(id, &fp, "t2").unwrap();
    assert!(c.queue.get(id, TaskType::Vlm).is_some());
    assert!(c.queue.get(id, TaskType::Transcription).is_some());
    assert!(c.queue.get(id, TaskType::Embedding).is_some());
    // hashing outranks the downstream tasks, classification comes next
    assert!(c.queue.get(id, TaskType::Vlm).unwrap().priority
        > c.queue.get(id, TaskType::Embedding).unwrap().priority);
}
