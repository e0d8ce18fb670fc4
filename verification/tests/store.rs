//! The ephemeral file store: deduplication, logical expiry, eviction.

use klee_chat::files::{FileManager, UploadError, FILE_TTL_MS, MAX_FILE_SIZE};

#[test]
fn upload_records_metadata() {
    let mut store = FileManager::new();
    let meta = store
        .upload_file(
            "fid-1".to_string(),
            "f.txt".to_string(),
            "text/plain".to_string(),
            vec![0x61, 0x62, 0x63],
            1_000,
        )
        .expect("upload");
    assert_eq!(meta.id, "fid-1");
    assert_eq!(meta.name, "f.txt");
    assert_eq!(meta.mime_type, "text/plain");
    assert_eq!(meta.size, 3);
    // The well-known digest of the bytes "abc".
    assert_eq!(
        meta.sha256,
        "ba7816bf8f01cfea414140de5dae2223b00361a396177a9cb410ff61f20015ad"
    );
    assert_eq!(meta.uploaded_at, 1_000);
    assert_eq!(meta.expires_at, 1_000 + FILE_TTL_MS);
}

#[test]
fn upload_refuses_oversize_content() {
    let mut store = FileManager::new();
    let r = store.upload_file(
        "fid-1".to_string(),
        "big".to_string(),
        "application/octet-stream".to_string(),
        vec![0u8; MAX_FILE_SIZE + 1],
        0,
    );
    assert_eq!(r, Err(UploadError::FileTooLarge));
    assert_eq!(UploadError::FileTooLarge.message(), "File size exceeds maximum allowed size");
}

#[test]
fn duplicate_upload_returns_first_entry_while_live() {
    let mut store = FileManager::new();
    let first = store
        .upload_file(
            "fid-1".to_string(),
            "a.bin".to_string(),
            "application/octet-stream".to_string(),
            vec![1, 2, 3],
            1_000,
        )
        .expect("first upload");
    let second = store
        .upload_file(
            "fid-2".to_string(),
            "other-name.bin".to_string(),
            "text/plain".to_string(),
            vec![1, 2, 3],
            1_000 + FILE_TTL_MS,
        )
        .expect("second upload");
    // Deduplicated: same id, same digest, the second caller's name discarded.
    assert_eq!(second.id, first.id);
    assert_eq!(second.sha256, first.sha256);
    assert_eq!(second.name, "a.bin");
}

#[test]
fn duplicate_upload_after_expiry_gets_fresh_id() {
    let mut store = FileManager::new();
    let first = store
        .upload_file(
            "fid-1".to_string(),
            "a.bin".to_string(),
            "application/octet-stream".to_string(),
            vec![1, 2, 3],
            1_000,
        )
        .expect("first upload");
    let second = store
        .upload_file(
            "fid-2".to_string(),
            "a.bin".to_string(),
            "application/octet-stream".to_string(),
            vec![1, 2, 3],
            first.expires_at + 1,
        )
        .expect("second upload");
    assert_ne!(second.id, first.id);
    assert_eq!(second.id, "fid-2");
    assert_eq!(second.sha256, first.sha256);
}

#[test]
fn retrieval_honors_logical_expiry() {
    let mut store = FileManager::new();
    let meta = store
        .upload_file(
            "fid-1".to_string(),
            "f.txt".to_string(),
            "text/plain".to_string(),
            vec![9, 9, 9],
            1_000,
        )
        .expect("upload");
    let (got_meta, got_bytes) = store.get_file("fid-1", 2_000).expect("still live");
    assert_eq!(got_meta, meta);
    assert_eq!(got_bytes, vec![9, 9, 9]);
    assert_eq!(store.get_file("fid-1", meta.expires_at), Some((got_meta, got_bytes)));
    // One past the expiry: still in the map, never served again.
    assert_eq!(store.get_file("fid-1", meta.expires_at + 1), None);
    assert_eq!(store.get_file("fid-9", 2_000), None);
}

#[test]
fn eviction_is_idempotent() {
    let mut store = FileManager::new();
    store
        .upload_file(
            "fid-1".to_string(),
            "f".to_string(),
            "t".to_string(),
            vec![1],
            0,
        )
        .expect("upload");
    assert!(store.contains_id("fid-1"));
    store.evict_file("fid-1");
    assert!(!store.contains_id("fid-1"));
    store.evict_file("fid-1");
    assert!(!store.contains_id("fid-1"));
}

#[test]
fn sweeper_drops_only_expired_entries() {
    let mut store = FileManager::new();
    store
        .upload_file("f1".to_string(), "a".to_string(), "t".to_string(), vec![1], 0)
        .expect("upload");
    store
        .upload_file("f2".to_string(), "b".to_string(), "t".to_string(), vec![2], FILE_TTL_MS)
        .expect("upload");
    store.cleanup_expired_files(FILE_TTL_MS + 1);
    assert!(!store.contains_id("f1"));
    assert!(store.contains_id("f2"));
}
