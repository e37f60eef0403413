//! The engine: the upload, download and reclamation flows, stated and
//! verified over the session, chunk, record and file stores.

use vstd::prelude::*;
use vstd::string::StringSliceAdditionalSpecFns;
use crate::chunk_store::ChunkStorage;
use crate::chunk_store::find_upload;
use crate::crypto::AEAD_P_MAX;
use crate::crypto::EncryptedData;
use crate::crypto::EncryptionKey;
use crate::crypto::Encryption;
use crate::crypto::aead_open;
use crate::crypto::b64url_decode_of;
use crate::crypto::b64url_of;
use crate::error::AppError;
use crate::file_store::FileStorage;
use crate::file_store::find_file;
use crate::file_store::shard_rel_path_chars;
use crate::ids::Uid;
use crate::ids::canonical_chars;
use crate::record::FileRecord;
use crate::record::StoredForm;
use crate::session::SESSION_TTL_SECONDS;
use crate::session::UploadSession;
use crate::session::spec_progress_percent;
use crate::session::spec_expected_chunk_len;
use crate::session::spec_total_chunks;
use crate::store::RecordStore;
use crate::store::SessionStore;
use crate::store::find_session;
use crate::text::clone_opt_string;

verus! {

/// The chunk size used when a client does not pick one: 5 MiB.
pub const DEFAULT_CHUNK_SIZE: u64 = 5 * 1024 * 1024;

/// The largest chunk size a client may pick: 50 MiB.
pub const MAX_CHUNK_SIZE: u64 = 50 * 1024 * 1024;

/// A bound on clock values the engine accepts, so expiry arithmetic cannot
/// overflow (comfortably past the year 100000).
pub const MAX_NOW: u64 = 0x7fffffffffffffff;

/// Server configuration, handed in by the surrounding process.
pub struct Config {
    /// Where the metadata store lives.
    pub database_url: String,
    /// The address the server listens on.
    pub server_address: String,
    /// The storage root for blobs and chunks.
    pub storage_dir: String,
    /// The public base URL used in download links.
    pub base_url: String,
    /// The API base URL used in generated commands.
    pub api_url: String,
    /// The largest file accepted, in bytes.
    pub max_file_size: u64,
    /// How often the sweeper runs, in hours.
    pub cleanup_interval_hours: u64,
}

/// The form body of a download request.
pub struct DownloadFormData {
    /// The client's transport-encoded key; empty for plaintext files.
    pub encryption_key: String,
}

/// A request to start a chunked upload.
pub struct StartUploadRequest {
    /// The filename to record.
    pub filename: String,
    /// The declared total size in bytes.
    pub file_size: u64,
    /// Declared MIME type, if any.
    pub mime_type: Option<String>,
    /// The chunk size to use, if the client picks one.
    pub chunk_size: Option<u64>,
    /// Expiry hint for the final file, in hours.
    pub expires_in_hours: Option<u32>,
    /// Download cap for the final file.
    pub max_downloads: Option<u32>,
}

/// A request to complete a chunked upload.
pub struct CompleteUploadRequest {
    /// The session to complete.
    pub upload_id: Uid,
}

/// A request for file metadata.
pub struct DownloadRequest {
    /// The client's transport-encoded key, if it has one.
    pub encryption_key: Option<String>,
}

/// Options on a direct upload.
pub struct UploadOptions {
    /// Expiry hint, in hours.
    pub expires_in_hours: Option<u32>,
    /// Download cap.
    pub max_downloads: Option<u32>,
}

/// What an upload hands back to the client.
#[derive(Debug)]
pub struct UploadResponse {
    /// The new file's identifier.
    pub file_id: Uid,
    /// A link a browser can follow.
    pub download_url: String,
    /// The transport-encoded key, for encrypted uploads only.
    pub encryption_key: Option<String>,
    /// A ready-made command-line download invocation.
    pub curl_command: String,
}

/// What starting a chunked upload hands back.
#[derive(Debug)]
pub struct StartUploadResponse {
    /// The new session's identifier.
    pub upload_id: Uid,
    /// The chunk size the session settled on.
    pub chunk_size: u64,
    /// How many chunks the session expects.
    pub total_chunks: u64,
}

/// What accepting one chunk hands back.
#[derive(Debug)]
pub struct ChunkUploadResponse {
    /// The accepted chunk's index.
    pub chunk_number: u64,
    /// How many distinct chunks the session now holds.
    pub uploaded_chunks: u64,
    /// How many chunks the session expects.
    pub total_chunks: u64,
    /// Whole-number percentage of progress.
    pub progress_percent: u64,
}

/// A session's progress report.
#[derive(Debug)]
pub struct UploadStatus {
    /// The session's identifier.
    pub upload_id: Uid,
    /// The filename declared at start.
    pub filename: String,
    /// The declared total size.
    pub total_size: u64,
    /// How many chunks the session expects.
    pub total_chunks: u64,
    /// How many distinct chunks have been accepted.
    pub uploaded_chunks: u64,
    /// The chunk indices actually present, sorted ascending.
    pub uploaded_chunk_numbers: Vec<u64>,
    /// Whole-number percentage of progress.
    pub progress_percent: u64,
    /// Whether every chunk has been accepted.
    pub is_complete: bool,
    /// Whether the session is past its time-to-live.
    pub is_expired: bool,
    /// Unix time of creation.
    pub created_at: u64,
    /// Unix time past which the session is expired.
    pub expires_at: u64,
}

/// What a served download hands back.
#[derive(Debug)]
pub struct DownloadResult {
    /// The plaintext file bytes.
    pub data: Vec<u8>,
    /// The plaintext filename.
    pub filename: String,
    /// Declared MIME type, if any.
    pub mime_type: Option<String>,
    /// The plaintext size recorded at upload.
    pub original_size: u64,
}

/// File metadata as served to a client.
#[derive(Debug)]
pub struct FileInfo {
    /// The file's identifier.
    pub file_id: Uid,
    /// The plaintext size.
    pub original_size: u64,
    /// The stored size.
    pub encrypted_size: u64,
    /// Declared MIME type, if any.
    pub mime_type: Option<String>,
    /// Unix time of creation.
    pub created_at: u64,
    /// Unix time past which the file is gone, if any.
    pub expires_at: Option<u64>,
    /// How many times the file has been served.
    pub download_count: u64,
    /// The download cap, if any.
    pub max_downloads: Option<u32>,
    /// The plaintext filename.
    pub filename: String,
    /// Whether the stored bytes are encrypted.
    pub is_encrypted: bool,
}

/// The chunk size a start request settles on: the client's choice, or the
/// default.
pub open spec fn spec_chosen_chunk_size(request: StartUploadRequest) -> u64 {
    match request.chunk_size {
        None => DEFAULT_CHUNK_SIZE,
        Some(c) => c,
    }
}

/// Validates a start request and persists a new session: the declared size
/// must be positive and within the configured maximum, and the chunk size
/// positive and within its cap.  On success the session starts empty with
/// the derived chunking plan.
pub fn start_chunked_upload(
    sessions: &mut SessionStore,
    request: &StartUploadRequest,
    upload_id: Uid,
    now: u64,
    max_file_size: u64,
) -> (r: Result<StartUploadResponse, AppError>)
    requires
        old(sessions).wf(),
        upload_id.wf(),
        old(sessions).spec_get(upload_id@) is None,
        now <= MAX_NOW,
    ensures
        final(sessions).wf(),
        request.file_size > max_file_size ==> r == Err::<StartUploadResponse, AppError>(
            AppError::FileTooLarge,
        ) && *final(sessions) == *old(sessions),
        request.file_size <= max_file_size && request.file_size == 0 ==> r == Err::<
            StartUploadResponse,
            AppError,
        >(AppError::InvalidFileSize) && *final(sessions) == *old(sessions),
        request.file_size <= max_file_size && request.file_size > 0 && (spec_chosen_chunk_size(
            *request,
        ) == 0 || spec_chosen_chunk_size(*request) > MAX_CHUNK_SIZE) ==> r == Err::<
            StartUploadResponse,
            AppError,
        >(AppError::InvalidChunkSize) && *final(sessions) == *old(sessions),
        request.file_size <= max_file_size && request.file_size > 0 && 0 < spec_chosen_chunk_size(
            *request,
        ) <= MAX_CHUNK_SIZE ==> {
            &&& r matches Ok(resp)
            &&& r->Ok_0.upload_id@ == upload_id@
            &&& r->Ok_0.chunk_size == spec_chosen_chunk_size(*request)
            &&& r->Ok_0.total_chunks == spec_total_chunks(
                request.file_size as int,
                spec_chosen_chunk_size(*request) as int,
            )
            &&& final(sessions).spec_get(upload_id@) matches Some(s) && s.filename
                == request.filename && s.mime_type == request.mime_type && s.total_size
                == request.file_size && s.chunk_size == spec_chosen_chunk_size(*request)
                && s.uploaded_chunks == 0 && s.total_chunks == r->Ok_0.total_chunks
                && s.expires_in_hours == request.expires_in_hours && s.max_downloads
                == request.max_downloads && s.created_at == now && s.expires_at == now
                + SESSION_TTL_SECONDS
            &&& forall|id2: Seq<u8>|
                id2 != upload_id@ ==> #[trigger] final(sessions).spec_get(id2) == old(
                    sessions,
                ).spec_get(id2)
        },
{
    if request.file_size > max_file_size {
        return Err(AppError::FileTooLarge);
    }
    if request.file_size == 0 {
        return Err(AppError::InvalidFileSize);
    }
    let chunk_size: u64 = match request.chunk_size {
        None => DEFAULT_CHUNK_SIZE,
        Some(c) => c,
    };
    if chunk_size == 0 || chunk_size > MAX_CHUNK_SIZE {
        return Err(AppError::InvalidChunkSize);
    }
    let session = UploadSession::new(
        upload_id,
        request.filename.clone(),
        clone_opt_string(&request.mime_type),
        request.file_size,
        chunk_size,
        request.expires_in_hours,
        request.max_downloads,
        now,
    );
    let resp = StartUploadResponse {
        upload_id: session.upload_id.dup(),
        chunk_size: session.chunk_size,
        total_chunks: session.total_chunks,
    };
    sessions.insert(session);
    Ok(resp)
}

/// Accepts one chunk: rejects a missing, expired or complete session and an
/// out-of-plan index; re-delivery of an already-stored index is a no-op that
/// reports the current progress without touching either store; a fresh chunk
/// must have exactly its expected length, and is then stored and counted in
/// one atomic update.
pub fn upload_chunk(
    sessions: &mut SessionStore,
    chunks: &mut ChunkStorage,
    upload_id: &Uid,
    chunk_number: u64,
    data: &Vec<u8>,
    now: u64,
) -> (r: Result<ChunkUploadResponse, AppError>)
    requires
        old(sessions).wf(),
        old(chunks).wf(),
    ensures
        final(sessions).wf(),
        final(chunks).wf(),
        old(sessions).spec_get(upload_id@) is None ==> r == Err::<ChunkUploadResponse, AppError>(
            AppError::SessionNotFound,
        ) && *final(sessions) == *old(sessions) && *final(chunks) == *old(chunks),
        old(sessions).spec_get(upload_id@) matches Some(s) ==> (if now > s.expires_at {
            r == Err::<ChunkUploadResponse, AppError>(AppError::SessionExpired) && *final(sessions)
                == *old(sessions) && *final(chunks) == *old(chunks)
        } else if s.uploaded_chunks >= s.total_chunks {
            r == Err::<ChunkUploadResponse, AppError>(AppError::UploadAlreadyComplete) && *final(sessions) == *old(sessions) && *final(chunks) == *old(chunks)
        } else if chunk_number >= s.total_chunks {
            r == Err::<ChunkUploadResponse, AppError>(
                AppError::InvalidChunkIndex { index: chunk_number, total_chunks: s.total_chunks },
            ) && *final(sessions) == *old(sessions) && *final(chunks) == *old(chunks)
        } else if old(chunks).chunk_at(upload_id@, chunk_number as int) is Some {
            r == Ok::<ChunkUploadResponse, AppError>(
                (ChunkUploadResponse {
                    chunk_number,
                    uploaded_chunks: s.uploaded_chunks,
                    total_chunks: s.total_chunks,
                    progress_percent: spec_progress_percent(
                        s.uploaded_chunks as int,
                        s.total_chunks as int,
                    ) as u64,
                }),
            ) && *final(sessions) == *old(sessions) && *final(chunks) == *old(chunks)
        } else if data@.len() != spec_expected_chunk_len(
            s.total_size as int,
            s.chunk_size as int,
            chunk_number as int,
        ) {
            r matches Err(e) && e matches AppError::InvalidChunkLength {
                expected,
                actual,
            } && expected == spec_expected_chunk_len(
                s.total_size as int,
                s.chunk_size as int,
                chunk_number as int,
            ) && actual == data@.len() && *final(sessions) == *old(sessions) && *final(chunks)
                == *old(chunks)
        } else {
            &&& r == Ok::<ChunkUploadResponse, AppError>(
                (ChunkUploadResponse {
                    chunk_number,
                    uploaded_chunks: (s.uploaded_chunks + 1) as u64,
                    total_chunks: s.total_chunks,
                    progress_percent: spec_progress_percent(
                        s.uploaded_chunks + 1,
                        s.total_chunks as int,
                    ) as u64,
                }),
            )
            &&& final(chunks).chunk_at(upload_id@, chunk_number as int) == Some(data@)
            &&& forall|n2: int|
                n2 != chunk_number ==> #[trigger] final(chunks).chunk_at(upload_id@, n2) == old(
                    chunks,
                ).chunk_at(upload_id@, n2)
            &&& forall|id2: Seq<u8>|
                id2 != upload_id@ ==> #[trigger] find_upload(final(chunks).uploads@, id2)
                    == find_upload(old(chunks).uploads@, id2)
            &&& final(sessions).spec_get(upload_id@) == Some(
                (UploadSession { uploaded_chunks: (s.uploaded_chunks + 1) as u64, ..s }),
            )
            &&& forall|id2: Seq<u8>|
                id2 != upload_id@ ==> #[trigger] final(sessions).spec_get(id2) == old(
                    sessions,
                ).spec_get(id2)
        }),
{
    proof {
        if find_session(old(sessions).sessions@, upload_id@) is Some {
            crate::store::lemma_find_session_some(old(sessions).sessions@, upload_id@);
        }
    }
    let (uploaded, total, total_size, chunk_size, expires_at): (u64, u64, u64, u64, u64) = match sessions
        .get(upload_id) {
        None => {
            return Err(AppError::SessionNotFound);
        },
        Some(s) => (s.uploaded_chunks, s.total_chunks, s.total_size, s.chunk_size, s.expires_at),
    };
    if now > expires_at {
        return Err(AppError::SessionExpired);
    }
    if uploaded >= total {
        return Err(AppError::UploadAlreadyComplete);
    }
    if chunk_number >= total {
        return Err(AppError::InvalidChunkIndex { index: chunk_number, total_chunks: total });
    }
    if chunks.chunk_exists(upload_id, chunk_number) {
        let pct = crate::session::progress_percent_of(uploaded, total);
        return Ok(
            ChunkUploadResponse {
                chunk_number,
                uploaded_chunks: uploaded,
                total_chunks: total,
                progress_percent: pct,
            },
        );
    }
    let expected = crate::session::expected_chunk_len_of(total_size, chunk_size, chunk_number);
    if data.len() as u64 != expected {
        return Err(AppError::InvalidChunkLength { expected, actual: data.len() as u64 });
    }
    chunks.store_chunk(upload_id, chunk_number, data, now);
    match sessions.increment_uploaded_chunks(upload_id) {
        Err(e) => {
            proof {
                assert(false);
            }
            Err(e)
        },
        Ok((newcount, newtotal)) => {
            let pct = crate::session::progress_percent_of(newcount, newtotal);
            Ok(
                ChunkUploadResponse {
                    chunk_number,
                    uploaded_chunks: newcount,
                    total_chunks: newtotal,
                    progress_percent: pct,
                },
            )
        },
    }
}

/// Reports a session's progress: its declared plan, its counter, the sorted
/// list of chunk indices actually on disk, and its completion and expiry
/// flags.
pub fn get_upload_status(
    sessions: &SessionStore,
    chunks: &ChunkStorage,
    upload_id: &Uid,
    now: u64,
) -> (r: Result<UploadStatus, AppError>)
    requires
        sessions.wf(),
        chunks.wf(),
    ensures
        sessions.spec_get(upload_id@) is None ==> r == Err::<UploadStatus, AppError>(
            AppError::SessionNotFound,
        ),
        sessions.spec_get(upload_id@) matches Some(s) ==> (r matches Ok(st) && {
            &&& st.upload_id@ == upload_id@
            &&& st.filename == s.filename
            &&& st.total_size == s.total_size
            &&& st.total_chunks == s.total_chunks
            &&& st.uploaded_chunks == s.uploaded_chunks
            &&& st.progress_percent == spec_progress_percent(
                s.uploaded_chunks as int,
                s.total_chunks as int,
            )
            &&& st.is_complete == (s.uploaded_chunks >= s.total_chunks)
            &&& st.is_expired == (now > s.expires_at)
            &&& st.created_at == s.created_at
            &&& st.expires_at == s.expires_at
            &&& (forall|a: int, b: int|
                0 <= a < b < st.uploaded_chunk_numbers@.len()
                    ==> st.uploaded_chunk_numbers@[a] < st.uploaded_chunk_numbers@[b])
            &&& (forall|n: u64|
                #[trigger] st.uploaded_chunk_numbers@.contains(n) <==> chunks.chunk_at(
                    upload_id@,
                    n as int,
                ) is Some)
        }),
{
    proof {
        if find_session(sessions.sessions@, upload_id@) is Some {
            crate::store::lemma_find_session_some(sessions.sessions@, upload_id@);
        }
    }
    match sessions.get(upload_id) {
        None => Err(AppError::SessionNotFound),
        Some(s) => {
            let numbers = chunks.get_uploaded_chunks(upload_id);
            let pct = crate::session::progress_percent_of(s.uploaded_chunks, s.total_chunks);
            Ok(
                UploadStatus {
                    upload_id: s.upload_id.dup(),
                    filename: s.filename.clone(),
                    total_size: s.total_size,
                    total_chunks: s.total_chunks,
                    uploaded_chunks: s.uploaded_chunks,
                    uploaded_chunk_numbers: numbers,
                    progress_percent: pct,
                    is_complete: s.uploaded_chunks >= s.total_chunks,
                    is_expired: now > s.expires_at,
                    created_at: s.created_at,
                    expires_at: s.expires_at,
                },
            )
        },
    }
}


/// The expiry instant derived from an hours hint at time `now`.
pub open spec fn spec_expiry_time(now: u64, hours: Option<u32>) -> Option<u64> {
    match hours {
        None => None,
        Some(h) => Some((now + h * 3600) as u64),
    }
}

/// Computes the expiry instant without overflow.
fn expiry_time(now: u64, hours: Option<u32>) -> (r: Option<u64>)
    requires
        now <= MAX_NOW,
    ensures
        r == spec_expiry_time(now, hours),
{
    match hours {
        None => None,
        Some(h) => {
            let add: u64 = (h as u64) * 3600;
            proof {
                assert(h * 3600 <= 0xffffffffu64 * 3600) by (nonlinear_arith)
                    requires
                        h <= 0xffffffffu64,
                ;
            }
            Some(now + add)
        },
    }
}

/// The browser download link for a plaintext file.
fn download_url_plain(base_url: &str, file_id: &Uid) -> (r: String)
    requires
        file_id.wf(),
    ensures
        r@ == base_url@ + "/download/"@ + canonical_chars(file_id@),
{
    let mut out = String::new();
    out.append(base_url);
    out.append("/download/");
    let canonical = file_id.canonical_string();
    out.append(canonical.as_str());
    proof {
        assert(out@ =~= base_url@ + "/download/"@ + canonical_chars(file_id@));
    }
    out
}

/// The browser download link for an encrypted file, with the key in the URL
/// fragment (never sent to the server).
fn download_url_keyed(base_url: &str, file_id: &Uid, key: &str) -> (r: String)
    requires
        file_id.wf(),
    ensures
        r@ == base_url@ + "/download/"@ + canonical_chars(file_id@) + "#"@ + key@,
{
    let mut out = download_url_plain(base_url, file_id);
    out.append("#");
    out.append(key);
    proof {
        assert(out@ =~= base_url@ + "/download/"@ + canonical_chars(file_id@) + "#"@ + key@);
    }
    out
}

/// A ready-made command-line download invocation.
fn curl_command_for(api_url: &str, file_id: &Uid, key: &str) -> (r: String)
    requires
        file_id.wf(),
    ensures
        r@ == "curl -X POST -JLO --fail -d 'encryption_key="@ + key@ + "' "@ + api_url@
            + "/api/files/"@ + canonical_chars(file_id@) + "/form"@,
{
    let mut out = String::new();
    out.append("curl -X POST -JLO --fail -d 'encryption_key=");
    out.append(key);
    out.append("' ");
    out.append(api_url);
    out.append("/api/files/");
    let canonical = file_id.canonical_string();
    out.append(canonical.as_str());
    out.append("/form");
    proof {
        assert(out@ =~= "curl -X POST -JLO --fail -d 'encryption_key="@ + key@ + "' "@ + api_url@
            + "/api/files/"@ + canonical_chars(file_id@) + "/form"@);
    }
    out
}

/// Completes a chunked upload: with every chunk present, reassembles them in
/// index order, verifies the assembled length against the declared size,
/// stores the result in plaintext (chunked uploads are never server-side
/// encrypted, by design), creates the file record, and discards the session
/// and its chunks.
pub fn complete_chunked_upload(
    sessions: &mut SessionStore,
    chunks: &mut ChunkStorage,
    records: &mut RecordStore,
    storage: &mut FileStorage,
    upload_id: &Uid,
    file_id: Uid,
    now: u64,
    base_url: &str,
    api_url: &str,
) -> (r: Result<UploadResponse, AppError>)
    requires
        old(sessions).wf(),
        old(chunks).wf(),
        old(records).wf(),
        old(storage).wf(),
        file_id.wf(),
        old(records).spec_get(file_id@) is None,
        now <= MAX_NOW,
    ensures
        final(sessions).wf(),
        final(chunks).wf(),
        final(records).wf(),
        final(storage).wf(),
        old(sessions).spec_get(upload_id@) is None ==> r == Err::<UploadResponse, AppError>(
            AppError::SessionNotFound,
        ) && *final(sessions) == *old(sessions) && *final(chunks) == *old(chunks) && *final(records)
            == *old(records) && *final(storage) == *old(storage),
        old(sessions).spec_get(upload_id@) matches Some(s) ==> (if now > s.expires_at {
            r == Err::<UploadResponse, AppError>(AppError::SessionExpired) && *final(sessions)
                == *old(sessions) && *final(chunks) == *old(chunks) && *final(records) == *old(records) && *final(storage) == *old(storage)
        } else if s.uploaded_chunks < s.total_chunks {
            r == Err::<UploadResponse, AppError>(
                AppError::UploadIncomplete {
                    uploaded_chunks: s.uploaded_chunks,
                    total_chunks: s.total_chunks,
                },
            ) && *final(sessions) == *old(sessions) && *final(chunks) == *old(chunks) && *final(records) == *old(records) && *final(storage) == *old(storage)
        } else if !(forall|i: int|
            0 <= i < s.total_chunks ==> (#[trigger] old(chunks).chunk_at(upload_id@, i)) is Some) {
            (r matches Err(e) && e matches AppError::MissingChunk { .. }) && *final(sessions)
                == *old(sessions) && *final(chunks) == *old(chunks) && *final(records) == *old(records) && *final(storage) == *old(storage)
        } else if old(chunks).assembled_bytes(upload_id@, s.total_chunks as int).len()
            != s.total_size {
            (r matches Err(e) && e matches AppError::SizeMismatch { expected, actual } && expected
                == s.total_size && actual == old(chunks).assembled_bytes(
                upload_id@,
                s.total_chunks as int,
            ).len()) && *final(sessions) == *old(sessions) && *final(chunks) == *old(chunks)
                && *final(records) == *old(records) && *final(storage) == *old(storage)
        } else {
            &&& r matches Ok(resp)
            &&& r->Ok_0.file_id@ == file_id@
            &&& r->Ok_0.encryption_key is None
            &&& r->Ok_0.download_url@ == base_url@ + "/download/"@ + canonical_chars(file_id@)
            &&& find_file(final(storage).files@, shard_rel_path_chars(file_id@)) == Some(
                old(chunks).assembled_bytes(upload_id@, s.total_chunks as int),
            )
            &&& forall|q: Seq<char>|
                q != shard_rel_path_chars(file_id@) ==> #[trigger] find_file(
                    final(storage).files@,
                    q,
                ) == find_file(old(storage).files@, q)
            &&& final(records).spec_get(file_id@) matches Some(rec) && {
                &&& rec.original_size == s.total_size
                &&& rec.encrypted_size == s.total_size
                &&& !rec.spec_is_encrypted()
                &&& rec.encrypted_filename@ == vstd::utf8::encode_utf8(s.filename@)
                &&& rec.mime_type == s.mime_type
                &&& rec.file_path@ == shard_rel_path_chars(file_id@)
                &&& rec.download_count == 0
                &&& rec.max_downloads == s.max_downloads
                &&& rec.created_at == now
                &&& rec.expires_at == spec_expiry_time(now, s.expires_in_hours)
            }
            &&& forall|id2: Seq<u8>|
                id2 != file_id@ ==> #[trigger] final(records).spec_get(id2) == old(
                    records,
                ).spec_get(id2)
            &&& final(sessions).spec_get(upload_id@) is None
            &&& forall|id2: Seq<u8>|
                id2 != upload_id@ ==> #[trigger] final(sessions).spec_get(id2) == old(
                    sessions,
                ).spec_get(id2)
            &&& !final(chunks).has_upload(upload_id@)
            &&& forall|id2: Seq<u8>|
                id2 != upload_id@ ==> #[trigger] find_upload(final(chunks).uploads@, id2)
                    == find_upload(old(chunks).uploads@, id2)
        }),
{
    proof {
        if find_session(old(sessions).sessions@, upload_id@) is Some {
            crate::store::lemma_find_session_some(old(sessions).sessions@, upload_id@);
        }
    }
    let (uploaded, total_chunks, total_size, expires_in_hours, max_downloads): (
        u64,
        u64,
        u64,
        Option<u32>,
        Option<u32>,
    ) = match sessions.get(upload_id) {
        None => {
            return Err(AppError::SessionNotFound);
        },
        Some(s) => (
            s.uploaded_chunks,
            s.total_chunks,
            s.total_size,
            s.expires_in_hours,
            s.max_downloads,
        ),
    };
    let (filename, mime_type, expires_at_s): (String, Option<String>, u64) = match sessions.get(
        upload_id,
    ) {
        None => {
            return Err(AppError::SessionNotFound);
        },
        Some(s) => (s.filename.clone(), clone_opt_string(&s.mime_type), s.expires_at),
    };
    if now > expires_at_s {
        return Err(AppError::SessionExpired);
    }
    if uploaded < total_chunks {
        return Err(
            AppError::UploadIncomplete { uploaded_chunks: uploaded, total_chunks: total_chunks },
        );
    }
    let assembled = match chunks.assemble_chunks(upload_id, total_chunks) {
        Err(e) => {
            return Err(e);
        },
        Ok(data) => data,
    };
    if assembled.len() as u64 != total_size {
        return Err(
            AppError::SizeMismatch { expected: total_size, actual: assembled.len() as u64 },
        );
    }
    let expires_at = expiry_time(now, expires_in_hours);
    let resp_id = file_id.dup();
    let path = match storage.store_file(&file_id, &assembled) {
        Err(e) => {
            proof {
                assert(false);
            }
            return Err(e);
        },
        Ok(p) => p,
    };
    let rec = FileRecord::new_plain(
        file_id,
        total_size,
        mime_type,
        path,
        filename.as_str(),
        expires_at,
        max_downloads,
        now,
    );
    records.insert(rec);
    chunks.cleanup_upload(upload_id);
    sessions.delete(upload_id);
    let download_url = download_url_plain(base_url, &resp_id);
    let curl_command = curl_command_for(api_url, &resp_id, "");
    Ok(
        UploadResponse {
            file_id: resp_id,
            download_url,
            encryption_key: None,
            curl_command,
        },
    )
}

/// Encrypts a direct upload under the given key: the file bytes and the
/// filename are sealed independently under fresh nonces, the ciphertext is
/// stored, and the record keeps both envelopes.  What is stored opens back
/// to the original bytes under the returned key.
pub fn upload_file_with_key(
    records: &mut RecordStore,
    storage: &mut FileStorage,
    file_data: &Vec<u8>,
    filename: &str,
    mime_type: Option<String>,
    options: &UploadOptions,
    file_id: Uid,
    key: &EncryptionKey,
    now: u64,
    max_file_size: u64,
    base_url: &str,
    api_url: &str,
) -> (r: Result<UploadResponse, AppError>)
    requires
        old(records).wf(),
        old(storage).wf(),
        key.wf(),
        file_id.wf(),
        old(records).spec_get(file_id@) is None,
        file_data@.len() <= AEAD_P_MAX,
        filename.spec_bytes().len() <= AEAD_P_MAX,
        now <= MAX_NOW,
    ensures
        final(records).wf(),
        final(storage).wf(),
        file_data@.len() > max_file_size ==> r == Err::<UploadResponse, AppError>(
            AppError::FileTooLarge,
        ) && *final(records) == *old(records) && *final(storage) == *old(storage),
        file_data@.len() <= max_file_size ==> {
            &&& r matches Ok(resp)
            &&& r->Ok_0.file_id@ == file_id@
            &&& r->Ok_0.encryption_key matches Some(ks) && ks@ == b64url_of(key.key@)
                && b64url_decode_of(ks@) == Some(key.key@)
            &&& r->Ok_0.download_url@ == base_url@ + "/download/"@ + canonical_chars(file_id@)
                + "#"@ + b64url_of(key.key@)
            &&& final(records).spec_get(file_id@) matches Some(rec) && {
                &&& rec.original_size == file_data@.len()
                &&& rec.encrypted_size == file_data@.len() + 16
                &&& rec.spec_is_encrypted()
                &&& rec.nonce@.len() == 12
                &&& rec.filename_nonce@.len() == 12
                &&& rec.mime_type == mime_type
                &&& rec.file_path@ == shard_rel_path_chars(file_id@)
                &&& rec.download_count == 0
                &&& rec.max_downloads == options.max_downloads
                &&& rec.created_at == now
                &&& rec.expires_at == spec_expiry_time(now, options.expires_in_hours)
                &&& find_file(final(storage).files@, shard_rel_path_chars(file_id@)) matches Some(
                    blob,
                ) && aead_open(key.key@, rec.nonce@, blob) == Some(file_data@)
                &&& aead_open(key.key@, rec.filename_nonce@, rec.encrypted_filename@) == Some(
                    filename.spec_bytes(),
                )
            }
            &&& forall|id2: Seq<u8>|
                id2 != file_id@ ==> #[trigger] final(records).spec_get(id2) == old(
                    records,
                ).spec_get(id2)
            &&& forall|q: Seq<char>|
                q != shard_rel_path_chars(file_id@) ==> #[trigger] find_file(
                    final(storage).files@,
                    q,
                ) == find_file(old(storage).files@, q)
        },
{
    if file_data.len() as u64 > max_file_size {
        return Err(AppError::FileTooLarge);
    }
    let encrypted_file = match Encryption::encrypt(file_data.as_slice(), key) {
        Err(_) => {
            proof {
                assert(false);
            }
            return Err(AppError::CryptoFailed);
        },
        Ok(ed) => ed,
    };
    let encrypted_filename = match Encryption::encrypt(filename.as_bytes(), key) {
        Err(_) => {
            proof {
                assert(false);
            }
            return Err(AppError::CryptoFailed);
        },
        Ok(ed) => ed,
    };
    let original_size: u64 = file_data.len() as u64;
    let encrypted_size: u64 = encrypted_file.ciphertext.len() as u64;
    let expires_at = expiry_time(now, options.expires_in_hours);
    let resp_id = file_id.dup();
    let path = match storage.store_file(&file_id, &encrypted_file.ciphertext) {
        Err(e) => {
            proof {
                assert(false);
            }
            return Err(e);
        },
        Ok(p) => p,
    };
    let rec = FileRecord::new_encrypted(
        file_id,
        original_size,
        encrypted_size,
        mime_type,
        path,
        encrypted_file.nonce,
        encrypted_filename.ciphertext,
        encrypted_filename.nonce,
        expires_at,
        options.max_downloads,
        now,
    );
    records.insert(rec);
    let encoded_key = key.to_base64();
    let download_url = download_url_keyed(base_url, &resp_id, encoded_key.as_str());
    let curl_command = curl_command_for(api_url, &resp_id, encoded_key.as_str());
    Ok(
        UploadResponse {
            file_id: resp_id,
            download_url,
            encryption_key: Some(encoded_key),
            curl_command,
        },
    )
}

/// A direct upload: generates a fresh key, encrypts server-side, stores the
/// ciphertext and creates the record.  The key exists only in the response.
pub fn upload_file(
    records: &mut RecordStore,
    storage: &mut FileStorage,
    file_data: &Vec<u8>,
    filename: &str,
    mime_type: Option<String>,
    options: &UploadOptions,
    file_id: Uid,
    now: u64,
    max_file_size: u64,
    base_url: &str,
    api_url: &str,
) -> (r: Result<UploadResponse, AppError>)
    requires
        old(records).wf(),
        old(storage).wf(),
        file_id.wf(),
        old(records).spec_get(file_id@) is None,
        file_data@.len() <= AEAD_P_MAX,
        filename.spec_bytes().len() <= AEAD_P_MAX,
        now <= MAX_NOW,
    ensures
        final(records).wf(),
        final(storage).wf(),
        file_data@.len() > max_file_size ==> r == Err::<UploadResponse, AppError>(
            AppError::FileTooLarge,
        ) && *final(records) == *old(records) && *final(storage) == *old(storage),
        file_data@.len() <= max_file_size ==> {
            &&& r matches Ok(resp)
            &&& r->Ok_0.file_id@ == file_id@
            &&& final(records).spec_get(file_id@) matches Some(rec) && {
                &&& rec.original_size == file_data@.len()
                &&& rec.encrypted_size == file_data@.len() + 16
                &&& rec.spec_is_encrypted()
                &&& rec.file_path@ == shard_rel_path_chars(file_id@)
                &&& rec.expires_at == spec_expiry_time(now, options.expires_in_hours)
                &&& rec.max_downloads == options.max_downloads
                &&& rec.download_count == 0
            }
            &&& exists|kb: Seq<u8>|
                #![trigger aead_open(kb, final(records).spec_get(file_id@)->Some_0.nonce@, find_file(final(storage).files@, shard_rel_path_chars(file_id@))->Some_0)]
                {
                    &&& kb.len() == 32
                    &&& (r->Ok_0.encryption_key matches Some(ks) && b64url_decode_of(ks@)
                        == Some(kb))
                    &&& aead_open(
                        kb,
                        final(records).spec_get(file_id@)->Some_0.nonce@,
                        find_file(final(storage).files@, shard_rel_path_chars(file_id@))->Some_0,
                    ) == Some(file_data@)
                    &&& aead_open(
                        kb,
                        final(records).spec_get(file_id@)->Some_0.filename_nonce@,
                        final(records).spec_get(file_id@)->Some_0.encrypted_filename@,
                    ) == Some(filename.spec_bytes())
                }
            &&& find_file(final(storage).files@, shard_rel_path_chars(file_id@)) is Some
            &&& forall|id2: Seq<u8>|
                id2 != file_id@ ==> #[trigger] final(records).spec_get(id2) == old(
                    records,
                ).spec_get(id2)
            &&& forall|q: Seq<char>|
                q != shard_rel_path_chars(file_id@) ==> #[trigger] find_file(
                    final(storage).files@,
                    q,
                ) == find_file(old(storage).files@, q)
        },
{
    let key = EncryptionKey::generate();
    let r = upload_file_with_key(
        records,
        storage,
        file_data,
        filename,
        mime_type,
        options,
        file_id,
        &key,
        now,
        max_file_size,
        base_url,
        api_url,
    );
    proof {
        if file_data@.len() <= max_file_size {
            assert(key.key@.len() == 32);
        }
    }
    r
}


/// Whether the supplied transport key decodes to a 32-byte key.
pub open spec fn spec_key_ok(s: Seq<char>) -> bool {
    b64url_decode_of(s) matches Some(kb) && kb.len() == 32
}

/// The decoded key bytes, when `spec_key_ok` holds.
pub open spec fn spec_key_bytes(s: Seq<char>) -> Seq<u8> {
    b64url_decode_of(s)->Some_0
}

/// Serves a download: resolves the record, enforces its access policy with
/// distinct outcomes for missing, expired and capped files, branches
/// exhaustively on the plaintext-versus-encrypted envelope, and counts the
/// download exactly once on success.  For an encrypted file both content and
/// filename need the caller's key, and a wrong key and corrupted data are
/// deliberately one outcome; for a plaintext file a supplied key is itself
/// an error.
pub fn download_file(
    records: &mut RecordStore,
    storage: &FileStorage,
    file_id: &Uid,
    encryption_key: &str,
    now: u64,
) -> (r: Result<DownloadResult, AppError>)
    requires
        old(records).wf(),
        storage.wf(),
    ensures
        final(records).wf(),
        old(records).spec_get(file_id@) is None ==> r == Err::<DownloadResult, AppError>(
            AppError::FileNotFound,
        ) && *final(records) == *old(records),
        old(records).spec_get(file_id@) matches Some(rec) ==> (if rec.spec_is_expired(now) {
            r == Err::<DownloadResult, AppError>(AppError::FileExpired) && *final(records) == *old(records)
        } else if rec.spec_is_download_limit_reached() {
            r == Err::<DownloadResult, AppError>(AppError::DownloadLimitExceeded) && *final(records)
                == *old(records)
        } else if rec.spec_is_encrypted() {
            if !spec_key_ok(encryption_key@) {
                r == Err::<DownloadResult, AppError>(AppError::InvalidKey) && *final(records) == *old(records)
            } else {
                match find_file(storage.files@, rec.file_path@) {
                    None => r == Err::<DownloadResult, AppError>(AppError::FileNotFound) && *final(records)
                        == *old(records),
                    Some(blob) => {
                        if aead_open(spec_key_bytes(encryption_key@), rec.nonce@, blob) is None
                            || aead_open(
                            spec_key_bytes(encryption_key@),
                            rec.filename_nonce@,
                            rec.encrypted_filename@,
                        ) is None {
                            r == Err::<DownloadResult, AppError>(AppError::CryptoFailed) && *final(records)
                                == *old(records)
                        } else if !vstd::utf8::valid_utf8(
                            aead_open(
                                spec_key_bytes(encryption_key@),
                                rec.filename_nonce@,
                                rec.encrypted_filename@,
                            )->Some_0,
                        ) {
                            r == Err::<DownloadResult, AppError>(AppError::InvalidFilenameEncoding) && *final(records)
                                == *old(records)
                        } else {
                            &&& r matches Ok(res)
                            &&& r->Ok_0.data@ == aead_open(
                                spec_key_bytes(encryption_key@),
                                rec.nonce@,
                                blob,
                            )->Some_0
                            &&& vstd::utf8::encode_utf8(r->Ok_0.filename@) == aead_open(
                                spec_key_bytes(encryption_key@),
                                rec.filename_nonce@,
                                rec.encrypted_filename@,
                            )->Some_0
                            &&& r->Ok_0.mime_type == rec.mime_type
                            &&& r->Ok_0.original_size == rec.original_size
                            &&& final(records).spec_get(file_id@) == Some(
                                (FileRecord {
                                    download_count: (if rec.download_count < u64::MAX {
                                        (rec.download_count + 1) as u64
                                    } else {
                                        rec.download_count
                                    }),
                                    ..rec
                                }),
                            )
                            &&& forall|id2: Seq<u8>|
                                id2 != file_id@ ==> #[trigger] final(records).spec_get(id2) == old(records).spec_get(id2)
                        }
                    },
                }
            }
        } else {
            if encryption_key@.len() != 0 {
                r == Err::<DownloadResult, AppError>(AppError::KeyNotRequired) && *final(records) == *old(records)
            } else {
                match find_file(storage.files@, rec.file_path@) {
                    None => r == Err::<DownloadResult, AppError>(AppError::FileNotFound) && *final(records)
                        == *old(records),
                    Some(blob) => {
                        if !vstd::utf8::valid_utf8(rec.encrypted_filename@) {
                            r == Err::<DownloadResult, AppError>(AppError::InvalidFilenameEncoding) && *final(records)
                                == *old(records)
                        } else {
                            &&& r matches Ok(res)
                            &&& r->Ok_0.data@ == blob
                            &&& vstd::utf8::encode_utf8(r->Ok_0.filename@)
                                == rec.encrypted_filename@
                            &&& r->Ok_0.mime_type == rec.mime_type
                            &&& r->Ok_0.original_size == rec.original_size
                            &&& final(records).spec_get(file_id@) == Some(
                                (FileRecord {
                                    download_count: (if rec.download_count < u64::MAX {
                                        (rec.download_count + 1) as u64
                                    } else {
                                        rec.download_count
                                    }),
                                    ..rec
                                }),
                            )
                            &&& forall|id2: Seq<u8>|
                                id2 != file_id@ ==> #[trigger] final(records).spec_get(id2) == old(records).spec_get(id2)
                        }
                    },
                }
            }
        }),
{
    proof {
        if crate::store::find_record(old(records).records@, file_id@) is Some {
            crate::store::lemma_find_record_some(old(records).records@, file_id@);
        }
    }
    let (form, path, mime_type, original_size, download_count): (
        StoredForm,
        String,
        Option<String>,
        u64,
        u64,
    ) = match records.get(file_id) {
        None => {
            return Err(AppError::FileNotFound);
        },
        Some(rec) => {
            if rec.is_expired(now) {
                return Err(AppError::FileExpired);
            }
            if rec.is_download_limit_reached() {
                return Err(AppError::DownloadLimitExceeded);
            }
            (
                rec.stored_form(),
                rec.file_path.clone(),
                clone_opt_string(&rec.mime_type),
                rec.original_size,
                rec.download_count,
            )
        },
    };
    let result = match form {
        StoredForm::Encrypted { nonce, encrypted_filename, filename_nonce } => {
            let key = match EncryptionKey::from_base64(encryption_key) {
                Err(_) => {
                    return Err(AppError::InvalidKey);
                },
                Ok(k) => k,
            };
            let blob = match storage.retrieve_file(path.as_str()) {
                Err(_) => {
                    return Err(AppError::FileNotFound);
                },
                Ok(b) => b,
            };
            let content = EncryptedData { ciphertext: blob, nonce };
            let data = match Encryption::decrypt(&content, &key) {
                Err(_) => {
                    return Err(AppError::CryptoFailed);
                },
                Ok(p) => p,
            };
            let fname_env = EncryptedData {
                ciphertext: encrypted_filename,
                nonce: filename_nonce,
            };
            let fname_bytes = match Encryption::decrypt(&fname_env, &key) {
                Err(_) => {
                    return Err(AppError::CryptoFailed);
                },
                Ok(p) => p,
            };
            let filename = match crate::text::string_from_utf8(fname_bytes) {
                Err(_) => {
                    return Err(AppError::InvalidFilenameEncoding);
                },
                Ok(s) => s,
            };
            DownloadResult { data, filename, mime_type, original_size }
        },
        StoredForm::Plain { filename: fname_bytes } => {
            if !encryption_key.is_empty() {
                return Err(AppError::KeyNotRequired);
            }
            let blob = match storage.retrieve_file(path.as_str()) {
                Err(_) => {
                    return Err(AppError::FileNotFound);
                },
                Ok(b) => b,
            };
            let filename = match crate::text::string_from_utf8(fname_bytes) {
                Err(_) => {
                    return Err(AppError::InvalidFilenameEncoding);
                },
                Ok(s) => s,
            };
            DownloadResult { data: blob, filename, mime_type, original_size }
        },
    };
    if download_count < u64::MAX {
        records.increment_download_count(file_id);
    }
    Ok(result)
}

/// Serves file metadata: resolves the record and decrypts (or reads) the
/// filename; a plaintext file rejects a supplied key and an encrypted file
/// requires one.  The access policy is not consulted and nothing is counted.
pub fn get_file_info(
    records: &RecordStore,
    file_id: &Uid,
    request: &DownloadRequest,
) -> (r: Result<FileInfo, AppError>)
    requires
        records.wf(),
    ensures
        records.spec_get(file_id@) is None ==> r == Err::<FileInfo, AppError>(
            AppError::FileNotFound,
        ),
        records.spec_get(file_id@) matches Some(rec) ==> (if rec.spec_is_encrypted() {
            match request.encryption_key {
                None => r == Err::<FileInfo, AppError>(AppError::InvalidKey),
                Some(ks) => {
                    if !spec_key_ok(ks@) {
                        r == Err::<FileInfo, AppError>(AppError::InvalidKey)
                    } else if aead_open(
                        spec_key_bytes(ks@),
                        rec.filename_nonce@,
                        rec.encrypted_filename@,
                    ) is None {
                        r == Err::<FileInfo, AppError>(AppError::CryptoFailed)
                    } else if !vstd::utf8::valid_utf8(
                        aead_open(
                            spec_key_bytes(ks@),
                            rec.filename_nonce@,
                            rec.encrypted_filename@,
                        )->Some_0,
                    ) {
                        r == Err::<FileInfo, AppError>(AppError::InvalidFilenameEncoding)
                    } else {
                        &&& r matches Ok(info)
                        &&& vstd::utf8::encode_utf8(r->Ok_0.filename@) == aead_open(
                            spec_key_bytes(ks@),
                            rec.filename_nonce@,
                            rec.encrypted_filename@,
                        )->Some_0
                        &&& r->Ok_0.file_id@ == file_id@
                        &&& r->Ok_0.original_size == rec.original_size
                        &&& r->Ok_0.encrypted_size == rec.encrypted_size
                        &&& r->Ok_0.mime_type == rec.mime_type
                        &&& r->Ok_0.created_at == rec.created_at
                        &&& r->Ok_0.expires_at == rec.expires_at
                        &&& r->Ok_0.download_count == rec.download_count
                        &&& r->Ok_0.max_downloads == rec.max_downloads
                        &&& r->Ok_0.is_encrypted
                    }
                },
            }
        } else {
            if request.encryption_key is Some {
                r == Err::<FileInfo, AppError>(AppError::KeyNotRequired)
            } else if !vstd::utf8::valid_utf8(rec.encrypted_filename@) {
                r == Err::<FileInfo, AppError>(AppError::InvalidFilenameEncoding)
            } else {
                &&& r matches Ok(info)
                &&& vstd::utf8::encode_utf8(r->Ok_0.filename@) == rec.encrypted_filename@
                &&& r->Ok_0.file_id@ == file_id@
                &&& r->Ok_0.original_size == rec.original_size
                &&& r->Ok_0.encrypted_size == rec.encrypted_size
                &&& r->Ok_0.mime_type == rec.mime_type
                &&& r->Ok_0.download_count == rec.download_count
                &&& r->Ok_0.max_downloads == rec.max_downloads
                &&& !r->Ok_0.is_encrypted
            }
        }),
{
    proof {
        if crate::store::find_record(records.records@, file_id@) is Some {
            crate::store::lemma_find_record_some(records.records@, file_id@);
        }
    }
    let rec = match records.get(file_id) {
        None => {
            return Err(AppError::FileNotFound);
        },
        Some(rec) => rec,
    };
    let form = rec.stored_form();
    let filename = match form {
        StoredForm::Encrypted { nonce: _, encrypted_filename, filename_nonce } => {
            let ks = match &request.encryption_key {
                None => {
                    return Err(AppError::InvalidKey);
                },
                Some(ks) => ks,
            };
            let key = match EncryptionKey::from_url_encoded(ks.as_str()) {
                Err(_) => {
                    return Err(AppError::InvalidKey);
                },
                Ok(k) => k,
            };
            let fname_env = EncryptedData {
                ciphertext: encrypted_filename,
                nonce: filename_nonce,
            };
            let fname_bytes = match Encryption::decrypt(&fname_env, &key) {
                Err(_) => {
                    return Err(AppError::CryptoFailed);
                },
                Ok(p) => p,
            };
            match crate::text::string_from_utf8(fname_bytes) {
                Err(_) => {
                    return Err(AppError::InvalidFilenameEncoding);
                },
                Ok(s) => s,
            }
        },
        StoredForm::Plain { filename: fname_bytes } => {
            if request.encryption_key.is_some() {
                return Err(AppError::KeyNotRequired);
            }
            match crate::text::string_from_utf8(fname_bytes) {
                Err(_) => {
                    return Err(AppError::InvalidFilenameEncoding);
                },
                Ok(s) => s,
            }
        },
    };
    Ok(
        FileInfo {
            file_id: rec.file_id.dup(),
            original_size: rec.original_size,
            encrypted_size: rec.encrypted_size,
            mime_type: clone_opt_string(&rec.mime_type),
            created_at: rec.created_at,
            expires_at: rec.expires_at,
            download_count: rec.download_count,
            max_downloads: rec.max_downloads,
            filename,
            is_encrypted: rec.nonce.len() != 0,
        },
    )
}

/// Deletes a file outright: the record and its blob both go, a missing blob
/// is tolerated, and the return value says whether a record was there.
pub fn delete_file_by_id(
    records: &mut RecordStore,
    storage: &mut FileStorage,
    file_id: &Uid,
) -> (r: Result<bool, AppError>)
    requires
        old(records).wf(),
        old(storage).wf(),
    ensures
        final(records).wf(),
        final(storage).wf(),
        r == Ok::<bool, AppError>(old(records).spec_get(file_id@) is Some),
        final(records).spec_get(file_id@) is None,
        forall|id2: Seq<u8>|
            id2 != file_id@ ==> #[trigger] final(records).spec_get(id2) == old(records).spec_get(
                id2,
            ),
        old(records).spec_get(file_id@) is None ==> *final(storage) == *old(storage),
        old(records).spec_get(file_id@) matches Some(rec) ==> find_file(
            final(storage).files@,
            rec.file_path@,
        ) is None && (forall|q: Seq<char>|
            q != rec.file_path@ ==> #[trigger] find_file(final(storage).files@, q) == find_file(
                old(storage).files@,
                q,
            )),
{
    match records.delete(file_id) {
        None => Ok(false),
        Some(rec) => {
            match storage.delete_file(rec.file_path.as_str()) {
                Ok(_) => (),
                Err(_) => (),
            }
            Ok(true)
        },
    }
}

/// The file sweeper: removes every record past its expiry time, deletes its
/// blob (tolerating one already missing), and reports how many records went.
pub fn cleanup_expired_files(
    records: &mut RecordStore,
    storage: &mut FileStorage,
    now: u64,
) -> (count: u64)
    requires
        old(records).wf(),
        old(storage).wf(),
    ensures
        final(records).wf(),
        final(storage).wf(),
        final(records).records@.len() + count == old(records).records@.len(),
        forall|k: int|
            0 <= k < old(records).records@.len() && (#[trigger] old(
                records,
            ).records@[k]).spec_is_expired(now) ==> final(records).spec_get(
                old(records).records@[k].file_id@,
            ) is None,
        forall|k: int|
            0 <= k < old(records).records@.len() && !(#[trigger] old(
                records,
            ).records@[k]).spec_is_expired(now) ==> final(records).spec_get(
                old(records).records@[k].file_id@,
            ) == Some(old(records).records@[k]),
        forall|k: int|
            0 <= k < old(records).records@.len() && (#[trigger] old(
                records,
            ).records@[k]).spec_is_expired(now) ==> find_file(
                final(storage).files@,
                old(records).records@[k].file_path@,
            ) is None,
{
    let removed = records.take_expired(now);
    let mut i: usize = 0;
    while i < removed.len()
        invariant
            storage.wf(),
            i <= removed@.len(),
            forall|m: int|
                0 <= m < i ==> find_file(
                    storage.files@,
                    (#[trigger] removed@[m]).file_path@,
                ) is None,
        decreases removed@.len() - i,
    {
        match storage.delete_file(removed[i].file_path.as_str()) {
            Ok(_) => (),
            Err(_) => (),
        }
        proof {
            assert forall|m: int| 0 <= m < i + 1 implies find_file(
                storage.files@,
                (#[trigger] removed@[m]).file_path@,
            ) is None by {}
        }
        i += 1;
    }
    proof {
        assert forall|k: int|
            0 <= k < old(records).records@.len() && (#[trigger] old(
                records,
            ).records@[k]).spec_is_expired(now) implies find_file(
            storage.files@,
            old(records).records@[k].file_path@,
        ) is None by {
            assert(crate::store::in_records(old(records).records@[k], removed@));
            let m = choose|m: int|
                0 <= m < removed@.len() && old(records).records@[k] == #[trigger] removed@[m];
            assert(find_file(storage.files@, removed@[m].file_path@) is None);
        }
    }
    removed.len() as u64
}

/// The session sweeper: removes every session past its time-to-live,
/// discards its chunk tree, and reports how many sessions went.
pub fn cleanup_expired_upload_sessions(
    sessions: &mut SessionStore,
    chunks: &mut ChunkStorage,
    now: u64,
) -> (count: u64)
    requires
        old(sessions).wf(),
        old(chunks).wf(),
    ensures
        final(sessions).wf(),
        final(chunks).wf(),
        final(sessions).sessions@.len() + count == old(sessions).sessions@.len(),
        forall|k: int|
            0 <= k < old(sessions).sessions@.len() && now > (#[trigger] old(
                sessions,
            ).sessions@[k]).expires_at ==> final(sessions).spec_get(
                old(sessions).sessions@[k].upload_id@,
            ) is None,
        forall|k: int|
            0 <= k < old(sessions).sessions@.len() && now <= (#[trigger] old(
                sessions,
            ).sessions@[k]).expires_at ==> final(sessions).spec_get(
                old(sessions).sessions@[k].upload_id@,
            ) == Some(old(sessions).sessions@[k]),
        forall|k: int|
            0 <= k < old(sessions).sessions@.len() && now > (#[trigger] old(
                sessions,
            ).sessions@[k]).expires_at ==> !final(chunks).has_upload(
                old(sessions).sessions@[k].upload_id@,
            ),
{
    let removed = sessions.take_expired(now);
    let mut i: usize = 0;
    while i < removed.len()
        invariant
            chunks.wf(),
            i <= removed@.len(),
            forall|m: int|
                0 <= m < i ==> !chunks.has_upload((#[trigger] removed@[m]).upload_id@),
        decreases removed@.len() - i,
    {
        chunks.cleanup_upload(&removed[i].upload_id);
        proof {
            assert forall|m: int| 0 <= m < i + 1 implies !chunks.has_upload(
                (#[trigger] removed@[m]).upload_id@,
            ) by {
                if m < i {
                    if removed@[m].upload_id@ == removed@[i as int].upload_id@ {
                    } else {
                    }
                }
            }
        }
        i += 1;
    }
    proof {
        assert forall|k: int|
            0 <= k < old(sessions).sessions@.len() && now > (#[trigger] old(
                sessions,
            ).sessions@[k]).expires_at implies !chunks.has_upload(
            old(sessions).sessions@[k].upload_id@,
        ) by {
            assert(crate::store::in_sessions(old(sessions).sessions@[k], removed@));
            let m = choose|m: int|
                0 <= m < removed@.len() && old(sessions).sessions@[k] == #[trigger] removed@[m];
            assert(!chunks.has_upload(removed@[m].upload_id@));
        }
    }
    removed.len() as u64
}

} // verus!
