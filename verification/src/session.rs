//! The upload-session state machine: the chunking plan for a declared file
//! size, progress tracking, and the session's own time-to-live.

use vstd::prelude::*;
use crate::ids::Uid;

verus! {

/// A session lives this long (in seconds) from its creation.
pub const SESSION_TTL_SECONDS: u64 = 3600;

/// How many chunks a file of `total_size` bytes needs when cut into pieces of
/// `chunk_size` bytes: the ceiling of `total_size / chunk_size`.
pub open spec fn spec_total_chunks(total_size: int, chunk_size: int) -> int {
    if total_size % chunk_size == 0 {
        total_size / chunk_size
    } else {
        total_size / chunk_size + 1
    }
}

/// The expected byte length of the chunk at `index`: the full `chunk_size`
/// for every chunk but the last, and the remainder for the last.
pub open spec fn spec_expected_chunk_len(total_size: int, chunk_size: int, index: int) -> int {
    if index == spec_total_chunks(total_size, chunk_size) - 1 {
        total_size - index * chunk_size
    } else {
        chunk_size
    }
}

/// The chunking plan is exact: for any positive `total_size` and `chunk_size`,
/// the total chunk count is the ceiling of their quotient, the full chunks
/// cover `(count - 1) * chunk_size` bytes, which is less than `total_size`,
/// and the last chunk's expected length is the positive remainder, at most
/// `chunk_size`.
pub proof fn lemma_chunk_plan(total_size: int, chunk_size: int)
    requires
        total_size > 0,
        chunk_size > 0,
    ensures
        spec_total_chunks(total_size, chunk_size) >= 1,
        (spec_total_chunks(total_size, chunk_size) - 1) * chunk_size < total_size,
        total_size <= spec_total_chunks(total_size, chunk_size) * chunk_size,
        spec_expected_chunk_len(total_size, chunk_size, spec_total_chunks(total_size, chunk_size) - 1)
            == total_size - (spec_total_chunks(total_size, chunk_size) - 1) * chunk_size,
        0 < spec_expected_chunk_len(total_size, chunk_size, spec_total_chunks(total_size, chunk_size) - 1)
            <= chunk_size,
{
    let q = total_size / chunk_size;
    let r = total_size % chunk_size;
    vstd::arithmetic::div_mod::lemma_fundamental_div_mod(total_size, chunk_size);
    vstd::arithmetic::div_mod::lemma_mod_bound(total_size, chunk_size);
    vstd::arithmetic::div_mod::lemma_div_pos_is_pos(total_size, chunk_size);
    let tc = spec_total_chunks(total_size, chunk_size);
    if r == 0 {
        assert(total_size == chunk_size * q);
        assert(q >= 1) by (nonlinear_arith)
            requires
                total_size == chunk_size * q,
                total_size > 0,
                chunk_size > 0,
                q >= 0,
        ;
        assert((q - 1) * chunk_size == chunk_size * q - chunk_size) by (nonlinear_arith);
        assert(q * chunk_size == chunk_size * q) by (nonlinear_arith);
    } else {
        assert(total_size == chunk_size * q + r);
        assert(q * chunk_size == chunk_size * q) by (nonlinear_arith);
        assert((q + 1) * chunk_size == chunk_size * q + chunk_size) by (nonlinear_arith);
    }
    assert(tc * chunk_size - (tc - 1) * chunk_size == chunk_size) by (nonlinear_arith);
}

/// Every chunk's expected length is positive and at most `chunk_size`.
pub proof fn lemma_expected_chunk_len_bounds(total_size: int, chunk_size: int, index: int)
    requires
        total_size > 0,
        chunk_size > 0,
        0 <= index < spec_total_chunks(total_size, chunk_size),
    ensures
        0 < spec_expected_chunk_len(total_size, chunk_size, index) <= chunk_size,
        index * chunk_size + spec_expected_chunk_len(total_size, chunk_size, index) <= total_size,
{
    lemma_chunk_plan(total_size, chunk_size);
    let tc = spec_total_chunks(total_size, chunk_size);
    if index == tc - 1 {
    } else {
        assert(index + 1 <= tc - 1);
        assert((index + 1) * chunk_size <= (tc - 1) * chunk_size) by (nonlinear_arith)
            requires
                index + 1 <= tc - 1,
                chunk_size > 0,
        ;
        assert((index + 1) * chunk_size == index * chunk_size + chunk_size) by (nonlinear_arith);
    }
}

/// Computes the ceiling of `total_size / chunk_size` without overflow.
pub fn total_chunks_for(total_size: u64, chunk_size: u64) -> (r: u64)
    requires
        chunk_size > 0,
    ensures
        r == spec_total_chunks(total_size as int, chunk_size as int),
{
    let q = total_size / chunk_size;
    let r = total_size % chunk_size;
    if r == 0 {
        q
    } else {
        proof {
            vstd::arithmetic::div_mod::lemma_fundamental_div_mod(
                total_size as int,
                chunk_size as int,
            );
            vstd::arithmetic::div_mod::lemma_mod_bound(total_size as int, chunk_size as int);
            vstd::arithmetic::div_mod::lemma_div_pos_is_pos(total_size as int, chunk_size as int);
            assert(chunk_size * q >= q) by (nonlinear_arith)
                requires
                    chunk_size >= 1,
                    q >= 0,
            ;
            assert(q + 1 <= total_size);
        }
        q + 1
    }
}

/// A transient record of a chunked upload in flight: the declared size, the
/// chunking plan derived from it, and a monotonically increasing count of
/// accepted chunks.
pub struct UploadSession {
    /// Globally unique identifier of this session.
    pub upload_id: Uid,
    /// The filename declared by the uploader.
    pub filename: String,
    /// Declared MIME type, if any.
    pub mime_type: Option<String>,
    /// Declared total byte size of the file.
    pub total_size: u64,
    /// Derived chunk count: the ceiling of `total_size / chunk_size`.
    pub total_chunks: u64,
    /// How many distinct chunks have been accepted so far.
    pub uploaded_chunks: u64,
    /// Byte size of every chunk but the last.
    pub chunk_size: u64,
    /// Expiry hint, in hours, for the final file record.
    pub expires_in_hours: Option<u32>,
    /// Download-count hint for the final file record.
    pub max_downloads: Option<u32>,
    /// Unix time (seconds) of creation.
    pub created_at: u64,
    /// Unix time (seconds) past which the session is expired.
    pub expires_at: u64,
}

impl UploadSession {
    /// The session's structural invariant.
    pub open spec fn wf(self) -> bool {
        &&& self.upload_id.wf()
        &&& self.total_size > 0
        &&& self.chunk_size > 0
        &&& self.total_chunks == spec_total_chunks(self.total_size as int, self.chunk_size as int)
        &&& self.uploaded_chunks <= self.total_chunks
        &&& self.created_at <= u64::MAX - SESSION_TTL_SECONDS
        &&& self.expires_at == self.created_at + SESSION_TTL_SECONDS
    }

    /// Creates a new, empty session with the derived chunking plan and the
    /// fixed one-hour time-to-live.
    pub fn new(
        upload_id: Uid,
        filename: String,
        mime_type: Option<String>,
        total_size: u64,
        chunk_size: u64,
        expires_in_hours: Option<u32>,
        max_downloads: Option<u32>,
        now: u64,
    ) -> (s: UploadSession)
        requires
            upload_id.wf(),
            total_size > 0,
            chunk_size > 0,
            now <= u64::MAX - SESSION_TTL_SECONDS,
        ensures
            s.wf(),
            s.upload_id == upload_id,
            s.filename == filename,
            s.mime_type == mime_type,
            s.total_size == total_size,
            s.chunk_size == chunk_size,
            s.total_chunks == spec_total_chunks(total_size as int, chunk_size as int),
            s.uploaded_chunks == 0,
            s.expires_in_hours == expires_in_hours,
            s.max_downloads == max_downloads,
            s.created_at == now,
            s.expires_at == now + SESSION_TTL_SECONDS,
    {
        let total_chunks = total_chunks_for(total_size, chunk_size);
        UploadSession {
            upload_id,
            filename,
            mime_type,
            total_size,
            total_chunks,
            uploaded_chunks: 0,
            chunk_size,
            expires_in_hours,
            max_downloads,
            created_at: now,
            expires_at: now + SESSION_TTL_SECONDS,
        }
    }

    /// Whether the session is past its time-to-live at time `now`.
    pub fn is_expired(&self, now: u64) -> (r: bool)
        ensures
            r == (now > self.expires_at),
    {
        now > self.expires_at
    }

    /// Whether every chunk has been accepted.
    pub fn is_complete(&self) -> (r: bool)
        ensures
            r == (self.uploaded_chunks >= self.total_chunks),
    {
        self.uploaded_chunks >= self.total_chunks
    }

    /// Upload progress as a whole percentage, `0` when there are no chunks.
    pub fn progress_percent(&self) -> (r: u64)
        requires
            self.uploaded_chunks <= self.total_chunks,
        ensures
            r == spec_progress_percent(self.uploaded_chunks as int, self.total_chunks as int),
            r <= 100,
    {
        progress_percent_of(self.uploaded_chunks, self.total_chunks)
    }

    /// The index the next sequential chunk would have.
    pub fn next_chunk_number(&self) -> (r: u64)
        ensures
            r == self.uploaded_chunks,
    {
        self.uploaded_chunks
    }

    /// The byte length the chunk at `index` must have.
    pub fn expected_chunk_len(&self, index: u64) -> (r: u64)
        requires
            self.wf(),
            index < self.total_chunks,
        ensures
            r == spec_expected_chunk_len(self.total_size as int, self.chunk_size as int, index as int),
            0 < r <= self.chunk_size,
    {
        proof {
            lemma_expected_chunk_len_bounds(
                self.total_size as int,
                self.chunk_size as int,
                index as int,
            );
            lemma_chunk_plan(self.total_size as int, self.chunk_size as int);
        }
        if index == self.total_chunks - 1 {
            proof {
                assert(index * self.chunk_size < self.total_size);
            }
            self.total_size - index * self.chunk_size
        } else {
            self.chunk_size
        }
    }
}


/// Upload progress as a whole percentage, `0` when there are no chunks.
pub open spec fn spec_progress_percent(uploaded: int, total: int) -> int {
    if total == 0 {
        0
    } else {
        uploaded * 100 / total
    }
}

/// Computes the progress percentage without overflow.
pub fn progress_percent_of(uploaded: u64, total: u64) -> (r: u64)
    requires
        uploaded <= total,
    ensures
        r == spec_progress_percent(uploaded as int, total as int),
        r <= 100,
{
    if total == 0 {
        0
    } else {
        let num: u128 = (uploaded as u128) * 100;
        let pct: u128 = num / (total as u128);
        proof {
            let u = uploaded as int;
            let t = total as int;
            assert(u * 100 <= t * 100) by (nonlinear_arith)
                requires
                    u <= t,
            ;
            vstd::arithmetic::div_mod::lemma_div_is_ordered(u * 100, t * 100, t);
            vstd::arithmetic::div_mod::lemma_div_multiples_vanish(100, t);
            assert(t * 100 == 100 * t) by (nonlinear_arith);
            assert(pct <= 100);
        }
        pct as u64
    }
}


/// The expected byte length of the chunk at `index`, from the raw plan
/// values.
pub fn expected_chunk_len_of(total_size: u64, chunk_size: u64, index: u64) -> (r: u64)
    requires
        total_size > 0,
        chunk_size > 0,
        index < spec_total_chunks(total_size as int, chunk_size as int),
    ensures
        r == spec_expected_chunk_len(total_size as int, chunk_size as int, index as int),
        0 < r <= chunk_size,
{
    proof {
        lemma_expected_chunk_len_bounds(total_size as int, chunk_size as int, index as int);
        lemma_chunk_plan(total_size as int, chunk_size as int);
    }
    let total_chunks = total_chunks_for(total_size, chunk_size);
    if index == total_chunks - 1 {
        proof {
            assert(index * chunk_size < total_size);
        }
        total_size - index * chunk_size
    } else {
        chunk_size
    }
}

} // verus!
