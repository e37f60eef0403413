//! Durable metadata for a completed, downloadable file: its sizes, storage
//! path, encryption envelope, and access policy.

use vstd::prelude::*;
use vstd::string::StringSliceAdditionalSpecFns;
use crate::ids::Uid;

verus! {

/// Metadata for one stored file.  An empty `nonce` is the plaintext
/// sentinel: the bytes on disk are unencrypted and `encrypted_filename`
/// actually holds a plaintext UTF-8 filename.
pub struct FileRecord {
    /// Globally unique identifier of this file.
    pub file_id: Uid,
    /// The plaintext size in bytes.
    pub original_size: u64,
    /// The stored (possibly encrypted) size in bytes.
    pub encrypted_size: u64,
    /// Declared MIME type, if any.
    pub mime_type: Option<String>,
    /// Where the blob lives, relative to the storage root.
    pub file_path: String,
    /// The content nonce; empty exactly when the file is stored in plaintext.
    pub nonce: Vec<u8>,
    /// The encrypted filename, or the plaintext filename bytes when the
    /// record is unencrypted.
    pub encrypted_filename: Vec<u8>,
    /// The filename nonce; empty exactly when the record is unencrypted.
    pub filename_nonce: Vec<u8>,
    /// Unix time (seconds) of creation.
    pub created_at: u64,
    /// Unix time (seconds) past which the file is gone, if any.
    pub expires_at: Option<u64>,
    /// How many times the file has been served.
    pub download_count: u64,
    /// The download cap, if any.
    pub max_downloads: Option<u32>,
}

/// The interpretation of a record's storage envelope, made exhaustive so no
/// caller can silently skip the plaintext-versus-encrypted branch.
pub enum StoredForm {
    /// The blob is plaintext and `filename` holds the plaintext filename
    /// bytes.
    Plain {
        /// The plaintext filename bytes.
        filename: Vec<u8>,
    },
    /// The blob and filename are sealed; both need the caller's key.
    Encrypted {
        /// The content nonce.
        nonce: Vec<u8>,
        /// The sealed filename.
        encrypted_filename: Vec<u8>,
        /// The filename nonce.
        filename_nonce: Vec<u8>,
    },
}

impl FileRecord {
    /// The record's invariant: a well-formed identifier, and the two nonces
    /// empty together (the plaintext sentinel) or both 96 bits.
    pub open spec fn wf(self) -> bool {
        &&& self.file_id.wf()
        &&& (self.nonce@.len() == 0 <==> self.filename_nonce@.len() == 0)
        &&& (self.nonce@.len() == 0 || self.nonce@.len() == 12)
        &&& (self.filename_nonce@.len() == 0 || self.filename_nonce@.len() == 12)
    }

    /// Whether the stored bytes are encrypted.
    pub open spec fn spec_is_encrypted(self) -> bool {
        self.nonce@.len() != 0
    }

    /// Whether the record is past its expiry time at `now`; a record with no
    /// expiry time never expires.
    pub open spec fn spec_is_expired(self, now: u64) -> bool {
        match self.expires_at {
            None => false,
            Some(e) => now > e,
        }
    }

    /// Whether the download cap has been reached; a record with no cap never
    /// reaches one.
    pub open spec fn spec_is_download_limit_reached(self) -> bool {
        match self.max_downloads {
            None => false,
            Some(m) => self.download_count >= m,
        }
    }

    /// Whether a download may be served: not expired and not over the cap.
    pub open spec fn spec_is_accessible(self, now: u64) -> bool {
        !self.spec_is_expired(now) && !self.spec_is_download_limit_reached()
    }

    /// Creates the record for a server-side-encrypted direct upload.
    pub fn new_encrypted(
        file_id: Uid,
        original_size: u64,
        encrypted_size: u64,
        mime_type: Option<String>,
        file_path: String,
        nonce: Vec<u8>,
        encrypted_filename: Vec<u8>,
        filename_nonce: Vec<u8>,
        expires_at: Option<u64>,
        max_downloads: Option<u32>,
        now: u64,
    ) -> (r: FileRecord)
        requires
            file_id.wf(),
            nonce@.len() == 12,
            filename_nonce@.len() == 12,
        ensures
            r.wf(),
            r.spec_is_encrypted(),
            r == (FileRecord {
                file_id,
                original_size,
                encrypted_size,
                mime_type,
                file_path,
                nonce,
                encrypted_filename,
                filename_nonce,
                created_at: now,
                expires_at,
                max_downloads,
                download_count: 0u64,
            }),
    {
        FileRecord {
            file_id,
            original_size,
            encrypted_size,
            mime_type,
            file_path,
            nonce,
            encrypted_filename,
            filename_nonce,
            created_at: now,
            expires_at,
            download_count: 0,
            max_downloads,
        }
    }

    /// Creates the record for an unencrypted (chunked) upload: the stored
    /// size equals the original size, both nonces are the empty sentinel,
    /// and the filename field holds the plaintext filename bytes.
    pub fn new_plain(
        file_id: Uid,
        original_size: u64,
        mime_type: Option<String>,
        file_path: String,
        filename: &str,
        expires_at: Option<u64>,
        max_downloads: Option<u32>,
        now: u64,
    ) -> (r: FileRecord)
        requires
            file_id.wf(),
        ensures
            r.wf(),
            !r.spec_is_encrypted(),
            r.file_id == file_id,
            r.original_size == original_size,
            r.encrypted_size == original_size,
            r.mime_type == mime_type,
            r.file_path == file_path,
            r.nonce@.len() == 0,
            r.filename_nonce@.len() == 0,
            r.encrypted_filename@ == filename.spec_bytes(),
            r.created_at == now,
            r.expires_at == expires_at,
            r.download_count == 0,
            r.max_downloads == max_downloads,
    {
        FileRecord {
            file_id,
            original_size,
            encrypted_size: original_size,
            mime_type,
            file_path,
            nonce: Vec::new(),
            encrypted_filename: filename.as_bytes_vec(),
            filename_nonce: Vec::new(),
            created_at: now,
            expires_at,
            download_count: 0,
            max_downloads,
        }
    }

    /// Whether the record is past its expiry time at `now`.
    pub fn is_expired(&self, now: u64) -> (r: bool)
        ensures
            r == self.spec_is_expired(now),
    {
        match self.expires_at {
            None => false,
            Some(e) => now > e,
        }
    }

    /// Whether the download cap has been reached.
    pub fn is_download_limit_reached(&self) -> (r: bool)
        ensures
            r == self.spec_is_download_limit_reached(),
    {
        match self.max_downloads {
            None => false,
            Some(m) => self.download_count >= m as u64,
        }
    }

    /// Whether a download may be served at `now`.
    pub fn is_accessible(&self, now: u64) -> (r: bool)
        ensures
            r == self.spec_is_accessible(now),
    {
        !self.is_expired(now) && !self.is_download_limit_reached()
    }

    /// The record's storage envelope as an exhaustive tagged value.
    pub fn stored_form(&self) -> (r: StoredForm)
        requires
            self.wf(),
        ensures
            self.spec_is_encrypted() ==> (r matches StoredForm::Encrypted {
                nonce,
                encrypted_filename,
                filename_nonce,
            } && nonce@ == self.nonce@ && encrypted_filename@ == self.encrypted_filename@
                && filename_nonce@ == self.filename_nonce@),
            !self.spec_is_encrypted() ==> (r matches StoredForm::Plain { filename } && filename@
                == self.encrypted_filename@),
    {
        if self.nonce.len() == 0 {
            StoredForm::Plain { filename: crate::chunk_store::clone_bytes(&self.encrypted_filename) }
        } else {
            StoredForm::Encrypted {
                nonce: crate::chunk_store::clone_bytes(&self.nonce),
                encrypted_filename: crate::chunk_store::clone_bytes(&self.encrypted_filename),
                filename_nonce: crate::chunk_store::clone_bytes(&self.filename_nonce),
            }
        }
    }
}

/// The download access policy is exact: a record capped at `n` downloads is
/// accessible while fewer than `n` have been served and inaccessible from
/// then on, and a record past its expiry time is inaccessible whatever its
/// download count.
pub proof fn lemma_download_policy(r: FileRecord, now: u64, n: u32)
    requires
        r.max_downloads == Some(n),
    ensures
        r.spec_is_accessible(now) <==> (!r.spec_is_expired(now) && r.download_count < n),
        r.spec_is_expired(now) ==> !r.spec_is_accessible(now),
{
}

/// A record with no expiry time never expires, and one with no download cap
/// never reaches it.
pub proof fn lemma_unbounded_policy(r: FileRecord, now: u64)
    ensures
        r.expires_at is None ==> !r.spec_is_expired(now),
        r.max_downloads is None ==> !r.spec_is_download_limit_reached(),
{
}

} // verus!
