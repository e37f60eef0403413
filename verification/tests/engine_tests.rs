//! End-to-end tests of the engine: the chunked-upload state machine, the
//! direct-upload and download flows, the access policy, and the sweepers.

use kusatsu::chunk_store::ChunkStorage;
use kusatsu::engine;
use kusatsu::engine::{DownloadRequest, StartUploadRequest, UploadOptions};
use kusatsu::error::AppError;
use kusatsu::file_store::FileStorage;
use kusatsu::ids::Uid;
use kusatsu::store::{RecordStore, SessionStore};

const MB: u64 = 1024 * 1024;
const NOW: u64 = 1_700_000_000;

fn uid(b: u8) -> Uid {
    Uid::from_bytes(vec![b; 16])
}

fn start_request(file_size: u64, chunk_size: Option<u64>) -> StartUploadRequest {
    StartUploadRequest {
        filename: "movie.bin".to_string(),
        file_size,
        mime_type: None,
        chunk_size,
        expires_in_hours: None,
        max_downloads: None,
    }
}

#[test]
fn test_chunked_upload_scenario_12mb() {
    let mut sessions = SessionStore::new();
    let mut chunks = ChunkStorage::new("storage");
    let mut records = RecordStore::new();
    let mut storage = FileStorage::new("storage");

    let upload_id = uid(1);
    let request = start_request(12 * MB, Some(5 * MB));
    let resp = engine::start_chunked_upload(&mut sessions, &request, upload_id, NOW, 5000 * MB)
        .unwrap();
    assert_eq!(resp.total_chunks, 3);
    assert_eq!(resp.chunk_size, 5 * MB);

    let upload_id = uid(1);
    let chunk0 = vec![7u8; (5 * MB) as usize];
    let chunk1 = vec![8u8; (5 * MB) as usize];
    let chunk2 = vec![9u8; (2 * MB) as usize];

    // Accept chunks 0 and 2 only, out of order.
    engine::upload_chunk(&mut sessions, &mut chunks, &upload_id, 0, &chunk0, NOW).unwrap();
    engine::upload_chunk(&mut sessions, &mut chunks, &upload_id, 2, &chunk2, NOW).unwrap();

    let status = engine::get_upload_status(&sessions, &chunks, &upload_id, NOW).unwrap();
    assert_eq!(status.uploaded_chunks, 2);
    assert!(!status.is_complete);
    assert_eq!(status.uploaded_chunk_numbers, vec![0, 2]);

    // Completing now fails: two of three chunks.
    let file_id = uid(2);
    match engine::complete_chunked_upload(
        &mut sessions,
        &mut chunks,
        &mut records,
        &mut storage,
        &upload_id,
        file_id,
        NOW,
        "http://localhost:8080",
        "http://localhost:3000",
    ) {
        Err(AppError::UploadIncomplete {
            uploaded_chunks,
            total_chunks,
        }) => {
            assert_eq!(uploaded_chunks, 2);
            assert_eq!(total_chunks, 3);
        }
        other => panic!("expected incomplete, got ok={}", other.is_ok()),
    }

    // Accepting chunk 1 completes the plan.
    let r = engine::upload_chunk(&mut sessions, &mut chunks, &upload_id, 1, &chunk1, NOW).unwrap();
    assert_eq!(r.uploaded_chunks, 3);
    assert_eq!(r.progress_percent, 100);
    let status = engine::get_upload_status(&sessions, &chunks, &upload_id, NOW).unwrap();
    assert!(status.is_complete);

    let file_id = uid(2);
    let resp = engine::complete_chunked_upload(
        &mut sessions,
        &mut chunks,
        &mut records,
        &mut storage,
        &upload_id,
        file_id,
        NOW,
        "http://localhost:8080",
        "http://localhost:3000",
    )
    .unwrap();
    assert!(resp.encryption_key.is_none());
    assert!(resp.download_url.starts_with("http://localhost:8080/download/"));

    // The assembled blob is exactly 12 MB: the chunks back in order.
    let file_id = uid(2);
    let result = engine::download_file(&mut records, &storage, &file_id, "", NOW).unwrap();
    assert_eq!(result.data.len(), (12 * MB) as usize);
    assert_eq!(result.filename, "movie.bin");
    assert_eq!(&result.data[..(5 * MB) as usize], &chunk0[..]);
    assert_eq!(
        &result.data[(5 * MB) as usize..(10 * MB) as usize],
        &chunk1[..]
    );
    assert_eq!(&result.data[(10 * MB) as usize..], &chunk2[..]);

    // The session and its chunks are gone.
    assert!(engine::get_upload_status(&sessions, &chunks, &upload_id, NOW).is_err());
    assert!(!chunks.chunk_exists(&upload_id, 0));
}

#[test]
fn test_resubmitting_stored_chunk_is_idempotent() {
    let mut sessions = SessionStore::new();
    let mut chunks = ChunkStorage::new("storage");

    let request = start_request(10, Some(4));
    engine::start_chunked_upload(&mut sessions, &request, uid(1), NOW, 1000 * MB).unwrap();

    let upload_id = uid(1);
    let chunk0 = vec![1u8; 4];
    let first = engine::upload_chunk(&mut sessions, &mut chunks, &upload_id, 0, &chunk0, NOW)
        .unwrap();
    assert_eq!(first.uploaded_chunks, 1);

    // Re-delivery of the same index: same progress, counter unchanged,
    // even with different (ignored) bytes.
    let replay = vec![9u8; 4];
    let second = engine::upload_chunk(&mut sessions, &mut chunks, &upload_id, 0, &replay, NOW)
        .unwrap();
    assert_eq!(second.uploaded_chunks, 1);
    assert_eq!(second.progress_percent, first.progress_percent);

    let status = engine::get_upload_status(&sessions, &chunks, &upload_id, NOW).unwrap();
    assert_eq!(status.uploaded_chunks, 1);
    assert_eq!(status.uploaded_chunk_numbers, vec![0]);
}

#[test]
fn test_start_validation_errors() {
    let mut sessions = SessionStore::new();

    let r = engine::start_chunked_upload(&mut sessions, &start_request(0, None), uid(1), NOW, MB);
    assert_eq!(r.unwrap_err(), AppError::InvalidFileSize);

    let r = engine::start_chunked_upload(
        &mut sessions,
        &start_request(2 * MB, None),
        uid(1),
        NOW,
        MB,
    );
    assert_eq!(r.unwrap_err(), AppError::FileTooLarge);

    let r = engine::start_chunked_upload(
        &mut sessions,
        &start_request(MB, Some(0)),
        uid(1),
        NOW,
        1000 * MB,
    );
    assert_eq!(r.unwrap_err(), AppError::InvalidChunkSize);

    let r = engine::start_chunked_upload(
        &mut sessions,
        &start_request(MB, Some(51 * MB)),
        uid(1),
        NOW,
        1000 * MB,
    );
    assert_eq!(r.unwrap_err(), AppError::InvalidChunkSize);
}

#[test]
fn test_chunk_validation_errors() {
    let mut sessions = SessionStore::new();
    let mut chunks = ChunkStorage::new("storage");
    engine::start_chunked_upload(&mut sessions, &start_request(10, Some(4)), uid(1), NOW, MB)
        .unwrap();
    let upload_id = uid(1);

    let missing = uid(9);
    let r = engine::upload_chunk(&mut sessions, &mut chunks, &missing, 0, &vec![0u8; 4], NOW);
    assert_eq!(r.unwrap_err(), AppError::SessionNotFound);

    let r = engine::upload_chunk(&mut sessions, &mut chunks, &upload_id, 3, &vec![0u8; 4], NOW);
    assert_eq!(
        r.unwrap_err(),
        AppError::InvalidChunkIndex {
            index: 3,
            total_chunks: 3
        }
    );

    // The last chunk must carry the remainder: 10 - 2*4 = 2 bytes.
    let r = engine::upload_chunk(&mut sessions, &mut chunks, &upload_id, 2, &vec![0u8; 4], NOW);
    assert_eq!(
        r.unwrap_err(),
        AppError::InvalidChunkLength {
            expected: 2,
            actual: 4
        }
    );

    // An expired session accepts nothing.
    let r = engine::upload_chunk(
        &mut sessions,
        &mut chunks,
        &upload_id,
        0,
        &vec![0u8; 4],
        NOW + 3601,
    );
    assert_eq!(r.unwrap_err(), AppError::SessionExpired);
}

#[test]
fn test_direct_upload_and_keyed_download() {
    let mut records = RecordStore::new();
    let mut storage = FileStorage::new("storage");
    let data = b"top secret contents".to_vec();
    let options = UploadOptions {
        expires_in_hours: None,
        max_downloads: None,
    };

    let resp = engine::upload_file(
        &mut records,
        &mut storage,
        &data,
        "secret.txt",
        Some("text/plain".to_string()),
        &options,
        uid(4),
        NOW,
        1000 * MB,
        "http://localhost:8080",
        "http://localhost:3000",
    )
    .unwrap();
    let key = resp.encryption_key.clone().unwrap();
    assert!(resp.download_url.contains('#'));

    // The right key round-trips content and filename.
    let file_id = uid(4);
    let result = engine::download_file(&mut records, &storage, &file_id, &key, NOW).unwrap();
    assert_eq!(result.data, data);
    assert_eq!(result.filename, "secret.txt");
    assert_eq!(result.mime_type.as_deref(), Some("text/plain"));

    // A wrong (but well-formed) key is one generic failure.
    let other = kusatsu::crypto::EncryptionKey::generate().to_base64();
    let r = engine::download_file(&mut records, &storage, &file_id, &other, NOW);
    assert_eq!(r.unwrap_err(), AppError::CryptoFailed);

    // A malformed key is a distinct failure.
    let r = engine::download_file(&mut records, &storage, &file_id, "???", NOW);
    assert_eq!(r.unwrap_err(), AppError::InvalidKey);

    // Metadata needs the key too, and reports the encrypted flag.
    let info = engine::get_file_info(
        &records,
        &file_id,
        &DownloadRequest {
            encryption_key: Some(key),
        },
    )
    .unwrap();
    assert!(info.is_encrypted);
    assert_eq!(info.filename, "secret.txt");
    assert_eq!(info.original_size, data.len() as u64);
    assert_eq!(info.encrypted_size, data.len() as u64 + 16);
}

#[test]
fn test_plain_file_rejects_key() {
    let mut sessions = SessionStore::new();
    let mut chunks = ChunkStorage::new("storage");
    let mut records = RecordStore::new();
    let mut storage = FileStorage::new("storage");

    engine::start_chunked_upload(&mut sessions, &start_request(3, Some(3)), uid(1), NOW, MB)
        .unwrap();
    let upload_id = uid(1);
    engine::upload_chunk(&mut sessions, &mut chunks, &upload_id, 0, &vec![5u8; 3], NOW).unwrap();
    engine::complete_chunked_upload(
        &mut sessions,
        &mut chunks,
        &mut records,
        &mut storage,
        &upload_id,
        uid(2),
        NOW,
        "http://localhost:8080",
        "http://localhost:3000",
    )
    .unwrap();

    let file_id = uid(2);
    let some_key = kusatsu::crypto::EncryptionKey::generate().to_base64();
    let r = engine::download_file(&mut records, &storage, &file_id, &some_key, NOW);
    assert_eq!(r.unwrap_err(), AppError::KeyNotRequired);

    let r = engine::get_file_info(
        &records,
        &file_id,
        &DownloadRequest {
            encryption_key: Some(some_key),
        },
    );
    assert_eq!(r.unwrap_err(), AppError::KeyNotRequired);

    let info = engine::get_file_info(
        &records,
        &file_id,
        &DownloadRequest {
            encryption_key: None,
        },
    )
    .unwrap();
    assert!(!info.is_encrypted);
}

#[test]
fn test_download_limit_and_expiry_policy() {
    let mut records = RecordStore::new();
    let mut storage = FileStorage::new("storage");
    let data = b"three times only".to_vec();
    let options = UploadOptions {
        expires_in_hours: Some(1),
        max_downloads: Some(2),
    };
    let resp = engine::upload_file(
        &mut records,
        &mut storage,
        &data,
        "limited.bin",
        None,
        &options,
        uid(5),
        NOW,
        1000 * MB,
        "http://localhost:8080",
        "http://localhost:3000",
    )
    .unwrap();
    let key = resp.encryption_key.unwrap();
    let file_id = uid(5);

    // Accessible for attempts 1..=2, inaccessible from attempt 3 on.
    assert!(engine::download_file(&mut records, &storage, &file_id, &key, NOW).is_ok());
    assert!(engine::download_file(&mut records, &storage, &file_id, &key, NOW).is_ok());
    let r = engine::download_file(&mut records, &storage, &file_id, &key, NOW);
    assert_eq!(r.unwrap_err(), AppError::DownloadLimitExceeded);

    // A record past its expiry time is inaccessible whatever its count.
    let mut records2 = RecordStore::new();
    let mut storage2 = FileStorage::new("storage");
    let resp = engine::upload_file(
        &mut records2,
        &mut storage2,
        &data,
        "expired.bin",
        None,
        &options,
        uid(6),
        NOW,
        1000 * MB,
        "http://localhost:8080",
        "http://localhost:3000",
    )
    .unwrap();
    let key2 = resp.encryption_key.unwrap();
    let file_id2 = uid(6);
    let r = engine::download_file(&mut records2, &storage2, &file_id2, &key2, NOW + 3601);
    assert_eq!(r.unwrap_err(), AppError::FileExpired);

    // An unknown file is the distinct not-found outcome.
    let r = engine::download_file(&mut records2, &storage2, &uid(7), "", NOW);
    assert_eq!(r.unwrap_err(), AppError::FileNotFound);
}

#[test]
fn test_sweepers_reclaim_expired_state() {
    let mut sessions = SessionStore::new();
    let mut chunks = ChunkStorage::new("storage");
    engine::start_chunked_upload(&mut sessions, &start_request(4, Some(4)), uid(1), NOW, MB)
        .unwrap();
    engine::start_chunked_upload(
        &mut sessions,
        &start_request(4, Some(4)),
        uid(2),
        NOW + 3000,
        MB,
    )
    .unwrap();
    engine::upload_chunk(&mut sessions, &mut chunks, &uid(1), 0, &vec![1u8; 4], NOW).unwrap();

    // Only the first session is past its hour at NOW + 3601.
    let count = engine::cleanup_expired_upload_sessions(&mut sessions, &mut chunks, NOW + 3601);
    assert_eq!(count, 1);
    assert!(sessions.get(&uid(1)).is_none());
    assert!(sessions.get(&uid(2)).is_some());
    assert!(!chunks.chunk_exists(&uid(1), 0));

    // Expired file records lose both their row and their blob.
    let mut records = RecordStore::new();
    let mut storage = FileStorage::new("storage");
    let options = UploadOptions {
        expires_in_hours: Some(1),
        max_downloads: None,
    };
    let resp = engine::upload_file(
        &mut records,
        &mut storage,
        &b"soon gone".to_vec(),
        "a.bin",
        None,
        &options,
        uid(3),
        NOW,
        1000 * MB,
        "http://localhost:8080",
        "http://localhost:3000",
    )
    .unwrap();
    let key = resp.encryption_key.unwrap();
    let count = engine::cleanup_expired_files(&mut records, &mut storage, NOW + 3601);
    assert_eq!(count, 1);
    let r = engine::download_file(&mut records, &storage, &uid(3), &key, NOW + 3601);
    assert_eq!(r.unwrap_err(), AppError::FileNotFound);
}

#[test]
fn test_delete_file_by_id() {
    let mut records = RecordStore::new();
    let mut storage = FileStorage::new("storage");
    let options = UploadOptions {
        expires_in_hours: None,
        max_downloads: None,
    };
    engine::upload_file(
        &mut records,
        &mut storage,
        &b"delete me".to_vec(),
        "d.bin",
        None,
        &options,
        uid(8),
        NOW,
        1000 * MB,
        "http://localhost:8080",
        "http://localhost:3000",
    )
    .unwrap();

    assert_eq!(
        engine::delete_file_by_id(&mut records, &mut storage, &uid(8)).unwrap(),
        true
    );
    assert_eq!(
        engine::delete_file_by_id(&mut records, &mut storage, &uid(8)).unwrap(),
        false
    );
    assert!(storage.dirs.is_empty());
}

#[test]
fn test_error_status_codes() {
    assert_eq!(AppError::FileNotFound.status_code(), 404);
    assert_eq!(AppError::FileExpired.status_code(), 410);
    assert_eq!(AppError::DownloadLimitExceeded.status_code(), 410);
    assert_eq!(AppError::FileTooLarge.status_code(), 413);
    assert_eq!(AppError::StorageFailure.status_code(), 500);
    assert_eq!(AppError::InvalidChunkSize.status_code(), 400);
}

#[test]
fn test_format_file_size() {
    assert_eq!(kusatsu::util::format_file_size(0), "0 B");
    assert_eq!(kusatsu::util::format_file_size(512), "512 B");
    assert_eq!(kusatsu::util::format_file_size(1536), "1.5 KB");
    assert_eq!(kusatsu::util::format_file_size(1048576), "1.0 MB");
    assert_eq!(kusatsu::util::format_file_size(5 * 1024 * 1024), "5.0 MB");
    assert_eq!(kusatsu::util::format_file_size(1099511627776), "1.0 TB");
}

#[test]
fn test_get_file_icon() {
    assert_eq!(kusatsu::util::get_file_icon("report.PDF", None), "\u{1F4C4}");
    assert_eq!(
        kusatsu::util::get_file_icon("anything", Some("image/png")),
        "\u{1F5BC}\u{FE0F}"
    );
    assert_eq!(
        kusatsu::util::get_file_icon("song.FLAC", None),
        "\u{1F3B5}"
    );
    assert_eq!(kusatsu::util::get_file_icon("mystery", None), "\u{1F4C1}");
    assert_eq!(
        kusatsu::util::get_file_icon("notes.txt", Some("TEXT/plain")),
        "\u{1F4DD}"
    );
}

#[test]
fn test_api_client_default() {
    let client = kusatsu::util::ApiClient::new();
    assert_eq!(client.base_url, "http://localhost:3000");
}
