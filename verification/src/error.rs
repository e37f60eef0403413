//! The error taxonomy of the storage engine: every failure is a distinct,
//! inspectable variant, so callers can branch on the outcome exactly.

use vstd::prelude::*;

verus! {

/// A failure of an engine operation.
///
/// Variants carry the inputs that explain them (the offending index, the
/// expected and actual lengths), never free-form text.
#[derive(Clone, Copy, Debug, PartialEq, Eq, Structural)]
pub enum AppError {
    /// No file record or stored blob under the given identifier.
    FileNotFound,
    /// The file record is past its expiry time.
    FileExpired,
    /// The file record's download cap has been reached.
    DownloadLimitExceeded,
    /// The declared or received size exceeds the configured maximum.
    FileTooLarge,
    /// No upload session under the given identifier.
    SessionNotFound,
    /// The upload session is past its time-to-live.
    SessionExpired,
    /// A chunk arrived for a session that already holds every chunk.
    UploadAlreadyComplete,
    /// Completion was requested before every chunk arrived.
    UploadIncomplete { uploaded_chunks: u64, total_chunks: u64 },
    /// A declared file size of zero.
    InvalidFileSize,
    /// A chunk size of zero or above the configured cap.
    InvalidChunkSize,
    /// A chunk index outside the session's chunking plan.
    InvalidChunkIndex { index: u64, total_chunks: u64 },
    /// A chunk whose byte length is not the expected one for its index.
    InvalidChunkLength { expected: u64, actual: u64 },
    /// Assembly found no chunk stored at this index.
    MissingChunk { index: u64 },
    /// The assembled data does not have the declared total size.
    SizeMismatch { expected: u64, actual: u64 },
    /// A malformed or undecodable encryption key was supplied.
    InvalidKey,
    /// A key was supplied for a file that is stored in plaintext.
    KeyNotRequired,
    /// Decryption failed: wrong key or corrupted data, deliberately not
    /// distinguished.
    CryptoFailed,
    /// A stored filename is not valid UTF-8.
    InvalidFilenameEncoding,
    /// An storage-side failure outside this engine's control.
    StorageFailure,
}

impl AppError {
    /// The HTTP status code a transport layer would map this failure to.
    pub fn status_code(&self) -> (r: u16)
        ensures
            r == self.spec_status_code(),
    {
        match self {
            AppError::FileNotFound => 404,
            AppError::FileExpired => 410,
            AppError::DownloadLimitExceeded => 410,
            AppError::FileTooLarge => 413,
            AppError::StorageFailure => 500,
            _ => 400,
        }
    }


    /// A short human-readable description, as a transport layer would show.
    pub fn message(&self) -> (r: &'static str)
        ensures
            r@ == self.spec_message(),
    {
        match self {
            AppError::FileNotFound => "File not found",
            AppError::FileExpired => "File has expired",
            AppError::DownloadLimitExceeded => "Download limit exceeded",
            AppError::FileTooLarge => "File too large",
            AppError::SessionNotFound => "Upload session not found",
            AppError::SessionExpired => "Upload session has expired",
            AppError::UploadAlreadyComplete => "Upload is already complete",
            AppError::UploadIncomplete { .. } => "Upload incomplete",
            AppError::InvalidFileSize => "Invalid file size",
            AppError::InvalidChunkSize => "Invalid chunk size",
            AppError::InvalidChunkIndex { .. } => "Invalid chunk number",
            AppError::InvalidChunkLength { .. } => "Invalid chunk size: unexpected length",
            AppError::MissingChunk { .. } => "Missing chunk",
            AppError::SizeMismatch { .. } => "Assembled file size mismatch",
            AppError::InvalidKey => "Invalid encryption key",
            AppError::KeyNotRequired => "This file is unencrypted and does not require an encryption key",
            AppError::CryptoFailed => "Failed to decrypt - invalid encryption key",
            AppError::InvalidFilenameEncoding => "Invalid filename encoding",
            AppError::StorageFailure => "Server error",
        }
    }

    /// The description, at the specification level.
    pub open spec fn spec_message(self) -> Seq<char> {
        match self {
            AppError::FileNotFound => "File not found"@,
            AppError::FileExpired => "File has expired"@,
            AppError::DownloadLimitExceeded => "Download limit exceeded"@,
            AppError::FileTooLarge => "File too large"@,
            AppError::SessionNotFound => "Upload session not found"@,
            AppError::SessionExpired => "Upload session has expired"@,
            AppError::UploadAlreadyComplete => "Upload is already complete"@,
            AppError::UploadIncomplete { .. } => "Upload incomplete"@,
            AppError::InvalidFileSize => "Invalid file size"@,
            AppError::InvalidChunkSize => "Invalid chunk size"@,
            AppError::InvalidChunkIndex { .. } => "Invalid chunk number"@,
            AppError::InvalidChunkLength { .. } => "Invalid chunk size: unexpected length"@,
            AppError::MissingChunk { .. } => "Missing chunk"@,
            AppError::SizeMismatch { .. } => "Assembled file size mismatch"@,
            AppError::InvalidKey => "Invalid encryption key"@,
            AppError::KeyNotRequired => "This file is unencrypted and does not require an encryption key"@,
            AppError::CryptoFailed => "Failed to decrypt - invalid encryption key"@,
            AppError::InvalidFilenameEncoding => "Invalid filename encoding"@,
            AppError::StorageFailure => "Server error"@,
        }
    }

    /// The status code mapping, at the specification level.
    pub open spec fn spec_status_code(self) -> u16 {
        match self {
            AppError::FileNotFound => 404,
            AppError::FileExpired => 410,
            AppError::DownloadLimitExceeded => 410,
            AppError::FileTooLarge => 413,
            AppError::StorageFailure => 500,
            _ => 400,
        }
    }
}

/// A failure of the encryption service.
#[derive(Clone, Copy, Debug, PartialEq, Eq, Structural)]
pub enum EncryptionError {
    /// The cipher refused to encrypt (payload beyond the AEAD limit).
    EncryptionFailed,
    /// Authentication failed: wrong key or tampered ciphertext.
    DecryptionFailed,
    /// A decoded key did not have exactly 32 bytes.
    InvalidKeyFormat,
    /// A nonce did not have exactly 12 bytes.
    InvalidNonceLength,
    /// The input was not valid base64.
    Base64Error,
}

} // verus!
