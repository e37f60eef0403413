//! Tests of the chunk store and the sharded file store: storage round
//! trips, path derivation, name parsing, and empty-directory cleanup.

use kusatsu::chunk_store::{chunk_file_name, indices_from_names, parse_chunk_name, ChunkStorage};
use kusatsu::file_store::FileStorage;
use kusatsu::ids::Uid;

fn uid_from_byte(b: u8) -> Uid {
    Uid::from_bytes(vec![b; 16])
}

#[test]
fn test_chunk_storage() {
    let mut chunk_storage = ChunkStorage::new("storage");

    let upload_id = Uid::new_v4();
    let chunk_data1 = b"Hello, ".to_vec();
    let chunk_data2 = b"World!".to_vec();

    chunk_storage.store_chunk(&upload_id, 0, &chunk_data1, 1000);
    chunk_storage.store_chunk(&upload_id, 1, &chunk_data2, 1000);

    assert!(chunk_storage.chunk_exists(&upload_id, 0));
    assert!(chunk_storage.chunk_exists(&upload_id, 1));
    assert!(!chunk_storage.chunk_exists(&upload_id, 2));

    let uploaded_chunks = chunk_storage.get_uploaded_chunks(&upload_id);
    assert_eq!(uploaded_chunks, vec![0, 1]);

    let assembled = chunk_storage.assemble_chunks(&upload_id, 2).unwrap();
    assert_eq!(assembled, b"Hello, World!");

    chunk_storage.cleanup_upload(&upload_id);
    assert!(!chunk_storage.chunk_exists(&upload_id, 0));
}

#[test]
fn test_file_storage() {
    let mut storage = FileStorage::new("storage");

    let file_id = Uid::new_v4();
    let test_data = b"Hello, World!".to_vec();

    let path = storage.store_file(&file_id, &test_data).unwrap();
    assert!(!path.is_empty());

    let retrieved_data = storage.retrieve_file(&path).unwrap();
    assert_eq!(test_data, retrieved_data);

    storage.delete_file(&path).unwrap();

    assert!(storage.retrieve_file(&path).is_err());
}

#[test]
fn test_path_generation() {
    let storage = FileStorage::new("storage");

    let file_id = Uid::parse_canonical("550e8400-e29b-41d4-a716-446655440000").unwrap();
    let path = storage.generate_file_path(&file_id);

    // Should create structure: 55/0e/550e8400-e29b-41d4-a716-446655440000.enc
    assert!(path.ends_with("55/0e/550e8400-e29b-41d4-a716-446655440000.enc"));
}

#[test]
fn test_canonical_id_round_trip() {
    let text = "550e8400-e29b-41d4-a716-446655440000";
    let id = Uid::parse_canonical(text).unwrap();
    assert_eq!(id.canonical_string(), text);
    assert_eq!(id.simple_string(), "550e8400e29b41d4a716446655440000");
    assert!(Uid::parse_canonical("not-a-uuid").is_none());
    assert!(Uid::parse_canonical("550E8400-E29B-41D4-A716-446655440000").is_none());
}

#[test]
fn test_delete_removes_empty_parent_dirs_but_not_root() {
    let mut storage = FileStorage::new("root");
    let id_a = uid_from_byte(0x5a);
    let id_b = Uid::from_bytes({
        // Same first-level shard as id_a, different second level.
        let mut bytes = vec![0x5a; 16];
        bytes[1] = 0x77;
        bytes
    });

    let path_a = storage.store_file(&id_a, &b"aaa".to_vec()).unwrap();
    let path_b = storage.store_file(&id_b, &b"bbb".to_vec()).unwrap();
    // Two levels for each file; "5a" is shared.
    assert!(storage.dirs.iter().any(|d| d == "5a"));
    assert!(storage.dirs.iter().any(|d| d == "5a/5a"));
    assert!(storage.dirs.iter().any(|d| d == "5a/77"));

    storage.delete_file(&path_a).unwrap();
    // The sibling keeps "5a" alive; only "5a/5a" became empty and is gone.
    assert!(storage.dirs.iter().any(|d| d == "5a"));
    assert!(!storage.dirs.iter().any(|d| d == "5a/5a"));

    storage.delete_file(&path_b).unwrap();
    // Every parent directory is gone now, but the storage root remains.
    assert!(storage.dirs.is_empty());
    assert_eq!(storage.storage_root, "root");
}

#[test]
fn test_chunk_file_names_round_trip() {
    assert_eq!(chunk_file_name(0), "chunk_000000");
    assert_eq!(chunk_file_name(42), "chunk_000042");
    assert_eq!(chunk_file_name(123456), "chunk_123456");
    assert_eq!(chunk_file_name(1234567), "chunk_1234567");

    assert_eq!(parse_chunk_name("chunk_000042"), Some(42));
    assert_eq!(parse_chunk_name("chunk_0"), Some(0));
    assert_eq!(parse_chunk_name("chunk_"), None);
    assert_eq!(parse_chunk_name("stray.tmp"), None);
    assert_eq!(parse_chunk_name("chunk_12x4"), None);
}

#[test]
fn test_indices_from_names_sorted_and_filtered() {
    let names = vec![
        "chunk_000002".to_string(),
        "stray.tmp".to_string(),
        "chunk_000000".to_string(),
        "chunk_000001".to_string(),
    ];
    assert_eq!(indices_from_names(&names), vec![0, 1, 2]);
}

#[test]
fn test_chunk_store_sweep_discards_old_trees() {
    let mut chunks = ChunkStorage::new("storage");
    let old_upload = uid_from_byte(1);
    let fresh_upload = uid_from_byte(2);
    chunks.store_chunk(&old_upload, 0, &b"old".to_vec(), 1_000);
    chunks.store_chunk(&fresh_upload, 0, &b"new".to_vec(), 9_000);

    // More than two hours after the first tree appeared.
    let count = chunks.cleanup_expired_sessions(1_000 + 7201);
    assert_eq!(count, 1);
    assert!(!chunks.chunk_exists(&old_upload, 0));
    assert!(chunks.chunk_exists(&fresh_upload, 0));
}

#[test]
fn test_assemble_reports_smallest_missing_index() {
    let mut chunks = ChunkStorage::new("storage");
    let upload_id = uid_from_byte(3);
    chunks.store_chunk(&upload_id, 0, &b"aa".to_vec(), 0);
    chunks.store_chunk(&upload_id, 2, &b"cc".to_vec(), 0);
    match chunks.assemble_chunks(&upload_id, 3) {
        Err(kusatsu::error::AppError::MissingChunk { index }) => assert_eq!(index, 1),
        other => panic!("expected a missing chunk, got {:?}", other.is_ok()),
    }
}

#[test]
fn test_storage_stats() {
    let mut storage = FileStorage::new("storage");
    let stats = storage.get_stats();
    assert_eq!(stats.total_files, 0);
    assert_eq!(stats.total_size, 0);

    storage.store_file(&uid_from_byte(1), &vec![0u8; 100]).unwrap();
    storage.store_file(&uid_from_byte(2), &vec![0u8; 50]).unwrap();
    let stats = storage.get_stats();
    assert_eq!(stats.total_files, 2);
    assert_eq!(stats.total_size, 150);
}
