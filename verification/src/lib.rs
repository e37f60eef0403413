//! An ephemeral upload/storage engine: chunked-upload sessions, a transient
//! chunk store with verified reassembly, a sharded at-rest file store, an
//! AES-256-GCM envelope-encryption service, file-record access policy, and
//! the expiry sweepers — with the behaviour of every operation stated in its
//! contract and machine-checked.
//!
//! The surrounding process supplies what the engine deliberately leaves
//! outside: a clock (operations take `now` as an argument), transport
//! decoding, and the durable backing of the in-memory store models.

pub mod chunk_store;
pub mod crypto;
pub mod engine;
pub mod error;
pub mod file_store;
pub mod ids;
pub mod record;
pub mod session;
pub mod store;
pub mod text;
pub mod util;
