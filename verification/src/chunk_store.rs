//! The chunk store: transient storage of in-flight upload chunks, keyed by
//! session identifier and chunk index, with verified reassembly.

use vstd::prelude::*;
use vstd::string::StringSliceAdditionalSpecFns;
use crate::error::AppError;
use crate::ids::Uid;

verus! {

/// One stored chunk: its index within the upload and its raw bytes.
pub struct ChunkEntry {
    /// The chunk's zero-based index.
    pub index: u64,
    /// The chunk's bytes.
    pub data: Vec<u8>,
}

/// All chunks held for one upload session, with the time the upload's
/// directory was created (the basis of the coarse expiry sweep).
pub struct UploadChunks {
    /// The owning session's identifier.
    pub upload_id: Uid,
    /// Unix time (seconds) at which this upload's chunk directory appeared.
    pub created_at: u64,
    /// The chunks stored so far, each index held at most once.
    pub entries: Vec<ChunkEntry>,
}

/// Whether a sequence of chunk entries holds each index at most once.
pub open spec fn entries_unique(entries: Seq<ChunkEntry>) -> bool {
    forall|i: int, j: int|
        0 <= i < j < entries.len() ==> (#[trigger] entries[i].index) != (#[trigger] entries[j].index)
}

/// The bytes stored at index `n`, if any (first match).
pub open spec fn find_entry(entries: Seq<ChunkEntry>, n: int) -> Option<Seq<u8>>
    decreases entries.len(),
{
    if entries.len() == 0 {
        None
    } else if entries[0].index == n {
        Some(entries[0].data@)
    } else {
        find_entry(entries.drop_first(), n)
    }
}

/// Under uniqueness, the entry at position `i` is what lookup of its index finds.
pub proof fn lemma_find_entry_at(entries: Seq<ChunkEntry>, i: int)
    requires
        entries_unique(entries),
        0 <= i < entries.len(),
    ensures
        find_entry(entries, entries[i].index as int) == Some(entries[i].data@),
    decreases entries.len(),
{
    if i == 0 {
    } else {
        assert(entries[0].index != entries[i].index);
        assert(entries_unique(entries.drop_first())) by {
            assert forall|a: int, b: int|
                0 <= a < b < entries.drop_first().len() implies (
                #[trigger] entries.drop_first()[a].index)
                != (#[trigger] entries.drop_first()[b].index) by {
                assert(entries.drop_first()[a] == entries[a + 1]);
                assert(entries.drop_first()[b] == entries[b + 1]);
            }
        }
        lemma_find_entry_at(entries.drop_first(), i - 1);
        assert(entries.drop_first()[i - 1] == entries[i]);
    }
}

/// If no entry has index `n`, lookup of `n` finds nothing.
pub proof fn lemma_find_entry_none(entries: Seq<ChunkEntry>, n: int)
    requires
        forall|i: int| 0 <= i < entries.len() ==> (#[trigger] entries[i].index) != n,
    ensures
        find_entry(entries, n) is None,
    decreases entries.len(),
{
    if entries.len() > 0 {
        assert forall|i: int|
            0 <= i < entries.drop_first().len() implies (#[trigger] entries.drop_first()[i].index)
            != n by {
            assert(entries.drop_first()[i] == entries[i + 1]);
        }
        lemma_find_entry_none(entries.drop_first(), n);
    }
}

/// A successful lookup comes from some position.
pub proof fn lemma_find_entry_some(entries: Seq<ChunkEntry>, n: int)
    requires
        find_entry(entries, n) is Some,
    ensures
        exists|i: int|
            0 <= i < entries.len() && (#[trigger] entries[i].index) == n && entries[i].data@
                == find_entry(entries, n)->Some_0,
    decreases entries.len(),
{
    if entries[0].index == n {
        assert(entries[0].index == n && entries[0].data@ == find_entry(entries, n)->Some_0);
    } else {
        lemma_find_entry_some(entries.drop_first(), n);
        let i = choose|i: int|
            0 <= i < entries.drop_first().len() && (#[trigger] entries.drop_first()[i].index) == n
                && entries.drop_first()[i].data@ == find_entry(entries.drop_first(), n)->Some_0;
        assert(entries[i + 1] == entries.drop_first()[i]);
        assert(entries[i + 1].index == n && entries[i + 1].data@ == find_entry(entries, n)->Some_0);
    }
}

impl UploadChunks {
    /// The per-upload invariant: a well-formed identifier and unique indices.
    pub open spec fn wf(self) -> bool {
        &&& self.upload_id.wf()
        &&& entries_unique(self.entries@)
    }
}

/// Locates the entry with index `n`, if one exists.
fn entry_position(entries: &Vec<ChunkEntry>, n: u64) -> (r: Option<usize>)
    ensures
        match r {
            Some(i) => i < entries@.len() && entries@[i as int].index == n,
            None => find_entry(entries@, n as int) is None,
        },
{
    let mut i: usize = 0;
    while i < entries.len()
        invariant
            i <= entries@.len(),
            forall|j: int| 0 <= j < i ==> (#[trigger] entries@[j].index) != n,
        decreases entries@.len() - i,
    {
        if entries[i].index == n {
            return Some(i);
        }
        i += 1;
    }
    proof {
        lemma_find_entry_none(entries@, n as int);
    }
    None
}

/// Whether a sequence of uploads holds each session identifier at most once.
pub open spec fn uploads_unique(uploads: Seq<UploadChunks>) -> bool {
    forall|i: int, j: int|
        0 <= i < j < uploads.len() ==> (#[trigger] uploads[i].upload_id@) != (#[trigger] uploads[j].upload_id@)
}

/// The upload holding chunks for session `id`, if any (first match).
pub open spec fn find_upload(uploads: Seq<UploadChunks>, id: Seq<u8>) -> Option<UploadChunks>
    decreases uploads.len(),
{
    if uploads.len() == 0 {
        None
    } else if uploads[0].upload_id@ == id {
        Some(uploads[0])
    } else {
        find_upload(uploads.drop_first(), id)
    }
}

/// Under uniqueness, the upload at position `i` is what lookup of its id finds.
pub proof fn lemma_find_upload_at(uploads: Seq<UploadChunks>, i: int)
    requires
        uploads_unique(uploads),
        0 <= i < uploads.len(),
    ensures
        find_upload(uploads, uploads[i].upload_id@) == Some(uploads[i]),
    decreases uploads.len(),
{
    if i == 0 {
    } else {
        assert(uploads[0].upload_id@ != uploads[i].upload_id@);
        assert(uploads_unique(uploads.drop_first())) by {
            assert forall|a: int, b: int|
                0 <= a < b < uploads.drop_first().len() implies (
                #[trigger] uploads.drop_first()[a].upload_id@)
                != (#[trigger] uploads.drop_first()[b].upload_id@) by {
                assert(uploads.drop_first()[a] == uploads[a + 1]);
                assert(uploads.drop_first()[b] == uploads[b + 1]);
            }
        }
        lemma_find_upload_at(uploads.drop_first(), i - 1);
        assert(uploads.drop_first()[i - 1] == uploads[i]);
    }
}

/// If no upload has identifier `id`, lookup of `id` finds nothing.
pub proof fn lemma_find_upload_none(uploads: Seq<UploadChunks>, id: Seq<u8>)
    requires
        forall|i: int| 0 <= i < uploads.len() ==> (#[trigger] uploads[i].upload_id@) != id,
    ensures
        find_upload(uploads, id) is None,
    decreases uploads.len(),
{
    if uploads.len() > 0 {
        assert forall|i: int|
            0 <= i < uploads.drop_first().len() implies (
            #[trigger] uploads.drop_first()[i].upload_id@) != id by {
            assert(uploads.drop_first()[i] == uploads[i + 1]);
        }
        lemma_find_upload_none(uploads.drop_first(), id);
    }
}

/// A successful lookup comes from some position.
pub proof fn lemma_find_upload_some(uploads: Seq<UploadChunks>, id: Seq<u8>)
    requires
        find_upload(uploads, id) is Some,
    ensures
        exists|i: int|
            0 <= i < uploads.len() && (#[trigger] uploads[i].upload_id@) == id && uploads[i]
                == find_upload(uploads, id)->Some_0,
    decreases uploads.len(),
{
    if uploads[0].upload_id@ == id {
        assert(uploads[0].upload_id@ == id && uploads[0] == find_upload(uploads, id)->Some_0);
    } else {
        lemma_find_upload_some(uploads.drop_first(), id);
        let i = choose|i: int|
            0 <= i < uploads.drop_first().len() && (#[trigger] uploads.drop_first()[i].upload_id@)
                == id && uploads.drop_first()[i] == find_upload(uploads.drop_first(), id)->Some_0;
        assert(uploads[i + 1] == uploads.drop_first()[i]);
        assert(uploads[i + 1].upload_id@ == id && uploads[i + 1] == find_upload(
            uploads,
            id,
        )->Some_0);
    }
}

/// Manages transient storage of file chunks during upload, one tree of
/// chunks per in-flight session.
pub struct ChunkStorage {
    /// The directory (as a path string) under which all chunk trees live.
    pub chunks_root: String,
    /// The chunk trees, one per session, each identifier held at most once.
    pub uploads: Vec<UploadChunks>,
}

impl ChunkStorage {
    /// The store's invariant: unique session identifiers, each tree well-formed.
    pub open spec fn wf(self) -> bool {
        &&& uploads_unique(self.uploads@)
        &&& forall|i: int| 0 <= i < self.uploads@.len() ==> (#[trigger] self.uploads@[i]).wf()
    }

    /// The bytes stored for session `id` at chunk index `n`, if any.
    pub open spec fn chunk_at(self, id: Seq<u8>, n: int) -> Option<Seq<u8>> {
        match find_upload(self.uploads@, id) {
            None => None,
            Some(u) => find_entry(u.entries@, n),
        }
    }

    /// Whether any chunks are held for session `id`.
    pub open spec fn has_upload(self, id: Seq<u8>) -> bool {
        find_upload(self.uploads@, id) is Some
    }

    /// When the chunk tree for session `id` was created, if it exists.
    pub open spec fn upload_created_at(self, id: Seq<u8>) -> Option<u64> {
        match find_upload(self.uploads@, id) {
            None => None,
            Some(u) => Some(u.created_at),
        }
    }

    /// Creates a new chunk storage rooted under `storage_root`, holding no
    /// chunks; the chunk trees live under a `chunks` subdirectory.
    pub fn new(storage_root: &str) -> (r: ChunkStorage)
        ensures
            r.wf(),
            r.uploads@.len() == 0,
            r.chunks_root@ == storage_root@ + "/chunks"@,
            forall|id: Seq<u8>| !r.has_upload(id),
    {
        let mut root = String::new();
        root.append(storage_root);
        root.append("/chunks");
        proof {
            assert(root@ =~= storage_root@ + "/chunks"@);
            assert(forall|id: Seq<u8>| find_upload(Seq::<UploadChunks>::empty(), id) is None);
        }
        ChunkStorage { chunks_root: root, uploads: Vec::new() }
    }

    /// Locates the position of session `id`'s chunk tree, if present.
    fn upload_position(&self, id: &Uid) -> (r: Option<usize>)
        requires
            self.wf(),
        ensures
            match r {
                Some(i) => i < self.uploads@.len() && self.uploads@[i as int].upload_id@ == id@
                    && find_upload(self.uploads@, id@) == Some(self.uploads@[i as int]),
                None => find_upload(self.uploads@, id@) is None,
            },
    {
        let mut i: usize = 0;
        while i < self.uploads.len()
            invariant
                self.wf(),
                i <= self.uploads@.len(),
                forall|j: int| 0 <= j < i ==> (#[trigger] self.uploads@[j].upload_id@) != id@,
            decreases self.uploads@.len() - i,
        {
            if self.uploads[i].upload_id.eq_uid(id) {
                proof {
                    lemma_find_upload_at(self.uploads@, i as int);
                }
                return Some(i);
            }
            i += 1;
        }
        proof {
            lemma_find_upload_none(self.uploads@, id@);
        }
        None
    }

    /// Stores a chunk for `upload_id` at `chunk_number`, creating the
    /// session's tree (stamped with `now`) if this is its first chunk.  Every
    /// other session's chunks, and every other index of this session, are
    /// untouched.
    pub fn store_chunk(&mut self, upload_id: &Uid, chunk_number: u64, data: &Vec<u8>, now: u64)
        requires
            old(self).wf(),
            upload_id.wf(),
        ensures
            final(self).wf(),
            final(self).chunks_root == old(self).chunks_root,
            final(self).chunk_at(upload_id@, chunk_number as int) == Some(data@),
            forall|id2: Seq<u8>|
                id2 != upload_id@ ==> #[trigger] find_upload(final(self).uploads@, id2)
                    == find_upload(old(self).uploads@, id2),
            forall|n2: int|
                n2 != chunk_number ==> #[trigger] final(self).chunk_at(upload_id@, n2) == old(
                    self,
                ).chunk_at(upload_id@, n2),
            final(self).upload_created_at(upload_id@) == (if old(self).has_upload(upload_id@) {
                old(self).upload_created_at(upload_id@)
            } else {
                Some(now)
            }),
    {
        let ghost old_uploads = self.uploads@;
        match self.upload_position(upload_id) {
            None => {
                let mut entries: Vec<ChunkEntry> = Vec::new();
                entries.push(ChunkEntry { index: chunk_number, data: clone_bytes(data) });
                let u = UploadChunks { upload_id: upload_id.dup(), created_at: now, entries };
                self.uploads.push(u);
                proof {
                    let new_uploads = self.uploads@;
                    assert(new_uploads == old_uploads.push(u));
                    lemma_find_upload_push_frame(old_uploads, u);
                    assert(uploads_unique(new_uploads)) by {
                        assert forall|i: int, j: int|
                            0 <= i < j < new_uploads.len() implies (
                            #[trigger] new_uploads[i].upload_id@)
                            != (#[trigger] new_uploads[j].upload_id@) by {
                            if j == new_uploads.len() - 1 {
                                lemma_find_upload_at(old_uploads, i);
                            }
                        }
                    }
                    lemma_find_upload_at(new_uploads, new_uploads.len() - 1);
                    assert(find_entry(u.entries@, chunk_number as int) == Some(data@));
                    assert forall|n2: int| n2 != chunk_number implies #[trigger] find_entry(
                        u.entries@,
                        n2,
                    ) is None by {
                        lemma_find_entry_none(u.entries@, n2);
                    }
                }
            },
            Some(i) => {
                let ghost old_u = self.uploads@[i as int];
                match entry_position(&self.uploads[i].entries, chunk_number) {
                    None => {
                        let entry = ChunkEntry { index: chunk_number, data: clone_bytes(data) };
                        self.uploads[i].entries.push(entry);
                        proof {
                            let new_u = self.uploads@[i as int];
                            assert(new_u.entries@ == old_u.entries@.push(entry));
                            assert(entries_unique(new_u.entries@)) by {
                                assert forall|a: int, b: int|
                                    0 <= a < b < new_u.entries@.len() implies (
                                    #[trigger] new_u.entries@[a].index)
                                    != (#[trigger] new_u.entries@[b].index) by {
                                    if b == new_u.entries@.len() - 1 {
                                        if new_u.entries@[a].index == chunk_number {
                                            lemma_find_entry_at(old_u.entries@, a);
                                        }
                                    }
                                }
                            }
                            lemma_find_entry_at(new_u.entries@, new_u.entries@.len() - 1);
                            lemma_find_entry_push_frame(old_u.entries@, entry);
                        }
                    },
                    Some(e) => {
                        let entry = ChunkEntry { index: chunk_number, data: clone_bytes(data) };
                        self.uploads[i].entries[e] = entry;
                        proof {
                            let new_u = self.uploads@[i as int];
                            assert(new_u.entries@ == old_u.entries@.update(e as int, entry));
                            assert(entries_unique(new_u.entries@)) by {
                                assert forall|a: int, b: int|
                                    0 <= a < b < new_u.entries@.len() implies (
                                    #[trigger] new_u.entries@[a].index)
                                    != (#[trigger] new_u.entries@[b].index) by {
                                    assert(new_u.entries@[a].index == old_u.entries@[a].index);
                                    assert(new_u.entries@[b].index == old_u.entries@[b].index);
                                }
                            }
                            lemma_find_entry_at(new_u.entries@, e as int);
                            lemma_find_entry_update_frame(old_u.entries@, e as int, entry);
                        }
                    },
                }
                proof {
                    let new_u = self.uploads@[i as int];
                    assert(self.uploads@ == old_uploads.update(i as int, new_u));
                    assert(new_u.upload_id@ == old_u.upload_id@);
                    lemma_find_upload_update_frame(old_uploads, i as int, new_u);
                    assert(uploads_unique(self.uploads@)) by {
                        assert forall|a: int, b: int|
                            0 <= a < b < self.uploads@.len() implies (
                            #[trigger] self.uploads@[a].upload_id@)
                            != (#[trigger] self.uploads@[b].upload_id@) by {
                            assert(self.uploads@[a].upload_id@ == old_uploads[a].upload_id@);
                            assert(self.uploads@[b].upload_id@ == old_uploads[b].upload_id@);
                        }
                    }
                    lemma_find_upload_at(self.uploads@, i as int);
                    lemma_find_upload_at(old_uploads, i as int);
                }
            },
        }
    }
}

impl ChunkStorage {
    /// Whether a chunk is stored for `upload_id` at `chunk_number`.
    pub fn chunk_exists(&self, upload_id: &Uid, chunk_number: u64) -> (r: bool)
        requires
            self.wf(),
        ensures
            r == (self.chunk_at(upload_id@, chunk_number as int) is Some),
    {
        match self.upload_position(upload_id) {
            None => false,
            Some(i) => {
                match entry_position(&self.uploads[i].entries, chunk_number) {
                    None => false,
                    Some(e) => {
                        proof {
                            lemma_find_entry_at(self.uploads@[i as int].entries@, e as int);
                        }
                        true
                    },
                }
            },
        }
    }

    /// The byte size of the chunk stored for `upload_id` at `chunk_number`;
    /// a missing chunk is a distinct not-found outcome.
    pub fn get_chunk_size(&self, upload_id: &Uid, chunk_number: u64) -> (r: Result<u64, AppError>)
        requires
            self.wf(),
        ensures
            match r {
                Ok(sz) => self.chunk_at(upload_id@, chunk_number as int) matches Some(d) && sz
                    == d.len(),
                Err(e) => self.chunk_at(upload_id@, chunk_number as int) is None && e
                    == AppError::FileNotFound,
            },
    {
        match self.upload_position(upload_id) {
            None => Err(AppError::FileNotFound),
            Some(i) => {
                match entry_position(&self.uploads[i].entries, chunk_number) {
                    None => Err(AppError::FileNotFound),
                    Some(e) => {
                        proof {
                            lemma_find_entry_at(self.uploads@[i as int].entries@, e as int);
                        }
                        Ok(self.uploads[i].entries[e].data.len() as u64)
                    },
                }
            },
        }
    }

    /// The sorted list of chunk indices currently stored for `upload_id`:
    /// strictly ascending, containing exactly the stored indices.
    pub fn get_uploaded_chunks(&self, upload_id: &Uid) -> (r: Vec<u64>)
        requires
            self.wf(),
        ensures
            forall|a: int, b: int| 0 <= a < b < r@.len() ==> r@[a] < r@[b],
            forall|n: u64|
                #[trigger] r@.contains(n) <==> self.chunk_at(upload_id@, n as int) is Some,
    {
        match self.upload_position(upload_id) {
            None => {
                let r: Vec<u64> = Vec::new();
                proof {
                    assert(forall|n: u64| !r@.contains(n));
                }
                r
            },
            Some(i) => {
                let entries = &self.uploads[i].entries;
                let ghost u = self.uploads@[i as int];
                let mut r: Vec<u64> = Vec::new();
                let mut k: usize = 0;
                while k < entries.len()
                    invariant
                        self.wf(),
                        entries@ == u.entries@,
                        entries_unique(u.entries@),
                        k <= entries@.len(),
                        forall|a: int, b: int| 0 <= a < b < r@.len() ==> r@[a] < r@[b],
                        forall|n: u64|
                            #[trigger] r@.contains(n) <==> exists|j: int|
                                0 <= j < k && (#[trigger] entries@[j].index) == n,
                    decreases entries@.len() - k,
                {
                    let x = entries[k].index;
                    proof {
                        if r@.contains(x) {
                            let j = choose|j: int|
                                0 <= j < k && (#[trigger] entries@[j].index) == x;
                            assert(entries@[j].index == entries@[k as int].index);
                            assert(false);
                        }
                    }
                    crate::text::insert_sorted(&mut r, x);
                    proof {
                        assert forall|n: u64| #[trigger] r@.contains(n) implies exists|j: int|
                            0 <= j < k + 1 && (#[trigger] entries@[j].index) == n by {
                            if n == x {
                                assert(entries@[k as int].index == n);
                            } else {
                                let j = choose|j: int|
                                    0 <= j < k && (#[trigger] entries@[j].index) == n;
                                assert(0 <= j < k + 1 && entries@[j].index == n);
                            }
                        }
                    }
                    k += 1;
                }
                proof {
                    assert forall|n: u64| #[trigger] r@.contains(n) implies self.chunk_at(
                        upload_id@,
                        n as int,
                    ) is Some by {
                        let j = choose|j: int|
                            0 <= j < entries@.len() && (#[trigger] entries@[j].index) == n;
                        lemma_find_entry_at(u.entries@, j);
                    }
                    assert forall|n: u64|
                        self.chunk_at(upload_id@, n as int) is Some implies #[trigger] r@.contains(
                        n,
                    ) by {
                        lemma_find_entry_some(u.entries@, n as int);
                    }
                }
                r
            },
        }
    }

    /// The concatenation, in index order, of the first `k` chunks held for
    /// session `id` (meaningful when they are all present).
    pub open spec fn assembled_bytes(self, id: Seq<u8>, k: int) -> Seq<u8>
        decreases k,
    {
        if k <= 0 {
            Seq::empty()
        } else {
            self.assembled_bytes(id, k - 1) + self.chunk_at(id, k - 1)->Some_0
        }
    }

    /// Concatenates the chunks `0..total_chunks` of `upload_id` strictly in
    /// index order.  Succeeds exactly when every one of those chunks is
    /// present; otherwise reports the smallest missing index.
    pub fn assemble_chunks(&self, upload_id: &Uid, total_chunks: u64) -> (r: Result<
        Vec<u8>,
        AppError,
    >)
        requires
            self.wf(),
        ensures
            r is Ok <==> (forall|i: int|
                0 <= i < total_chunks ==> (#[trigger] self.chunk_at(upload_id@, i)) is Some),
            r matches Ok(data) ==> data@ == self.assembled_bytes(upload_id@, total_chunks as int),
            r matches Err(e) ==> (e matches AppError::MissingChunk { index } && index < total_chunks
                && self.chunk_at(upload_id@, index as int) is None && (forall|j: int|
                0 <= j < index ==> (#[trigger] self.chunk_at(upload_id@, j)) is Some)),
    {
        match self.upload_position(upload_id) {
            None => {
                if total_chunks == 0 {
                    let data: Vec<u8> = Vec::new();
                    proof {
                        assert(data@ =~= self.assembled_bytes(upload_id@, 0));
                    }
                    Ok(data)
                } else {
                    Err(AppError::MissingChunk { index: 0 })
                }
            },
            Some(p) => {
                let entries = &self.uploads[p].entries;
                let ghost u = self.uploads@[p as int];
                let mut data: Vec<u8> = Vec::new();
                let mut i: u64 = 0;
                proof {
                    assert(u.wf());
                }
                while i < total_chunks
                    invariant
                        self.wf(),
                        entries@ == u.entries@,
                        entries_unique(u.entries@),
                        find_upload(self.uploads@, upload_id@) == Some(u),
                        i <= total_chunks,
                        forall|j: int|
                            0 <= j < i ==> (#[trigger] self.chunk_at(upload_id@, j)) is Some,
                        data@ == self.assembled_bytes(upload_id@, i as int),
                    decreases total_chunks - i,
                {
                    match entry_position(entries, i) {
                        None => {
                            return Err(AppError::MissingChunk { index: i });
                        },
                        Some(e) => {
                            proof {
                                lemma_find_entry_at(u.entries@, e as int);
                            }
                            data.extend_from_slice(entries[e].data.as_slice());
                            proof {
                                assert(self.assembled_bytes(upload_id@, i + 1)
                                    == self.assembled_bytes(upload_id@, i as int) + self.chunk_at(
                                    upload_id@,
                                    i as int,
                                )->Some_0);
                                assert(self.chunk_at(upload_id@, i as int)->Some_0
                                    == u.entries@[e as int].data@);
                            }
                        },
                    }
                    i += 1;
                }
                Ok(data)
            },
        }
    }

    /// Discards every chunk held for `upload_id`; a session with no chunks is
    /// already clean.  Every other session's chunks are untouched.
    pub fn cleanup_upload(&mut self, upload_id: &Uid)
        requires
            old(self).wf(),
        ensures
            final(self).wf(),
            final(self).chunks_root == old(self).chunks_root,
            !final(self).has_upload(upload_id@),
            forall|id2: Seq<u8>|
                id2 != upload_id@ ==> #[trigger] find_upload(final(self).uploads@, id2)
                    == find_upload(old(self).uploads@, id2),
    {
        let ghost old_uploads = self.uploads@;
        match self.upload_position(upload_id) {
            None => {},
            Some(i) => {
                self.uploads.remove(i);
                proof {
                    lemma_find_upload_remove_frame(old_uploads, i as int);
                    assert(uploads_unique(self.uploads@)) by {
                        lemma_remove_preserves_unique(old_uploads, i as int);
                    }
                    assert forall|j: int| 0 <= j < self.uploads@.len() implies (
                    #[trigger] self.uploads@[j]).wf() by {
                        if j < i {
                            assert(self.uploads@[j] == old_uploads[j]);
                        } else {
                            assert(self.uploads@[j] == old_uploads[j + 1]);
                        }
                    }
                }
            },
        }
    }

    /// Whether an upload's chunk tree is past the coarse sweep threshold of
    /// two hours at time `now`.
    pub open spec fn tree_expired(u: UploadChunks, now: u64) -> bool {
        u.created_at + 7200 < now
    }

    /// The coarse expiry sweep: unconditionally discards every chunk tree
    /// created more than two hours before `now`, whatever any session record
    /// says, and reports how many trees were discarded.
    pub fn cleanup_expired_sessions(&mut self, now: u64) -> (count: u64)
        requires
            old(self).wf(),
        ensures
            final(self).wf(),
            final(self).chunks_root == old(self).chunks_root,
            final(self).uploads@.len() + count == old(self).uploads@.len(),
            forall|k: int|
                0 <= k < old(self).uploads@.len() && Self::tree_expired(
                    #[trigger] old(self).uploads@[k],
                    now,
                ) ==> find_upload(final(self).uploads@, old(self).uploads@[k].upload_id@) is None,
            forall|k: int|
                0 <= k < old(self).uploads@.len() && !Self::tree_expired(
                    #[trigger] old(self).uploads@[k],
                    now,
                ) ==> find_upload(final(self).uploads@, old(self).uploads@[k].upload_id@) == Some(
                    old(self).uploads@[k],
                ),
            forall|j: int|
                0 <= j < final(self).uploads@.len() ==> in_uploads(
                    #[trigger] final(self).uploads@[j],
                    old(self).uploads@,
                ),
    {
        let ghost orig = self.uploads@;
        let n0: usize = self.uploads.len();
        let mut count: u64 = 0;
        let mut i: usize = 0;
        proof {
            assert forall|j: int| 0 <= j < self.uploads@.len() implies in_uploads(
                #[trigger] self.uploads@[j],
                orig,
            ) by {
                assert(self.uploads@[j] == orig[j]);
            }
            assert forall|k: int|
                0 <= k < orig.len() && !Self::tree_expired(#[trigger] orig[k], now) implies in_uploads(
                orig[k],
                self.uploads@,
            ) by {
                assert(orig[k] == self.uploads@[k]);
            }
        }
        while i < self.uploads.len()
            invariant
                self.wf(),
                old(self).chunks_root == self.chunks_root,
                i <= self.uploads@.len(),
                orig.len() == n0,
                count <= n0,
                self.uploads@.len() + count == orig.len(),
                forall|j: int| 0 <= j < i ==> !Self::tree_expired(#[trigger] self.uploads@[j], now),
                forall|j: int|
                    0 <= j < self.uploads@.len() ==> in_uploads(#[trigger] self.uploads@[j], orig),
                forall|k: int|
                    0 <= k < orig.len() && !Self::tree_expired(#[trigger] orig[k], now)
                        ==> in_uploads(orig[k], self.uploads@),
            decreases self.uploads@.len() - i,
        {
            let expired = self.uploads[i].created_at < u64::MAX - 7200 && self.uploads[i].created_at
                + 7200 < now;
            if expired {
                let ghost cur = self.uploads@;
                self.uploads.remove(i);
                count += 1;
                proof {
                    lemma_sweep_remove_step(cur, orig, i as int, now);
                }
            } else {
                proof {
                    if self.uploads@[i as int].created_at >= u64::MAX - 7200 {
                        assert(!Self::tree_expired(self.uploads@[i as int], now));
                    }
                }
                i += 1;
            }
        }
        proof {
            lemma_sweep_post(self.uploads@, orig, now);
        }
        count
    }
}

/// Whether `u` occurs in `s`.
pub open spec fn in_uploads(u: UploadChunks, s: Seq<UploadChunks>) -> bool {
    exists|k: int| 0 <= k < s.len() && u == #[trigger] s[k]
}

/// Removing an expired tree keeps the sweep's loop invariant.
proof fn lemma_sweep_remove_step(cur: Seq<UploadChunks>, orig: Seq<UploadChunks>, i: int, now: u64)
    requires
        0 <= i < cur.len(),
        uploads_unique(cur),
        forall|j: int| 0 <= j < cur.len() ==> (#[trigger] cur[j]).wf(),
        ChunkStorage::tree_expired(cur[i], now),
        forall|j: int| 0 <= j < cur.len() ==> in_uploads(#[trigger] cur[j], orig),
        forall|k: int|
            0 <= k < orig.len() && !ChunkStorage::tree_expired(#[trigger] orig[k], now)
                ==> in_uploads(orig[k], cur),
        forall|j: int| 0 <= j < i ==> !ChunkStorage::tree_expired(#[trigger] cur[j], now),
    ensures
        uploads_unique(cur.remove(i)),
        forall|j: int| 0 <= j < cur.remove(i).len() ==> (#[trigger] cur.remove(i)[j]).wf(),
        forall|j: int| 0 <= j < i ==> !ChunkStorage::tree_expired(#[trigger] cur.remove(i)[j], now),
        forall|j: int|
            0 <= j < cur.remove(i).len() ==> in_uploads(#[trigger] cur.remove(i)[j], orig),
        forall|k: int|
            0 <= k < orig.len() && !ChunkStorage::tree_expired(#[trigger] orig[k], now)
                ==> in_uploads(orig[k], cur.remove(i)),
{
    let rem = cur.remove(i);
    lemma_remove_preserves_unique(cur, i);
    assert forall|j: int| 0 <= j < rem.len() implies (#[trigger] rem[j]).wf() && in_uploads(
        rem[j],
        orig,
    ) by {
        if j < i {
            assert(rem[j] == cur[j]);
        } else {
            assert(rem[j] == cur[j + 1]);
        }
    }
    assert forall|j: int| 0 <= j < i implies !ChunkStorage::tree_expired(
        #[trigger] rem[j],
        now,
    ) by {
        assert(rem[j] == cur[j]);
    }
    assert forall|k: int|
        0 <= k < orig.len() && !ChunkStorage::tree_expired(#[trigger] orig[k], now) implies in_uploads(
        orig[k],
        rem,
    ) by {
        let j0 = choose|j0: int| 0 <= j0 < cur.len() && orig[k] == #[trigger] cur[j0];
        assert(cur[i] != orig[k]);
        if j0 < i {
            assert(rem[j0] == orig[k]);
        } else {
            assert(rem[j0 - 1] == orig[k]);
        }
    }
}

/// At the end of the sweep, lookups behave as the sweep promises.
proof fn lemma_sweep_post(fin: Seq<UploadChunks>, orig: Seq<UploadChunks>, now: u64)
    requires
        uploads_unique(fin),
        uploads_unique(orig),
        forall|j: int| 0 <= j < fin.len() ==> !ChunkStorage::tree_expired(#[trigger] fin[j], now),
        forall|j: int| 0 <= j < fin.len() ==> in_uploads(#[trigger] fin[j], orig),
        forall|k: int|
            0 <= k < orig.len() && !ChunkStorage::tree_expired(#[trigger] orig[k], now)
                ==> in_uploads(orig[k], fin),
    ensures
        forall|k: int|
            0 <= k < orig.len() && ChunkStorage::tree_expired(#[trigger] orig[k], now)
                ==> find_upload(fin, orig[k].upload_id@) is None,
        forall|k: int|
            0 <= k < orig.len() && !ChunkStorage::tree_expired(#[trigger] orig[k], now)
                ==> find_upload(fin, orig[k].upload_id@) == Some(orig[k]),
{
    assert forall|k: int|
        0 <= k < orig.len() && ChunkStorage::tree_expired(#[trigger] orig[k], now) implies find_upload(
        fin,
        orig[k].upload_id@,
    ) is None by {
        assert forall|j: int| 0 <= j < fin.len() implies (#[trigger] fin[j].upload_id@)
            != orig[k].upload_id@ by {
            if fin[j].upload_id@ == orig[k].upload_id@ {
                let k2 = choose|k2: int| 0 <= k2 < orig.len() && fin[j] == #[trigger] orig[k2];
                assert(orig[k2].upload_id@ == orig[k].upload_id@);
                if k2 != k {
                    assert(uploads_unique(orig));
                    assert(false);
                }
                assert(!ChunkStorage::tree_expired(fin[j], now));
                assert(false);
            }
        }
        lemma_find_upload_none(fin, orig[k].upload_id@);
    }
    assert forall|k: int|
        0 <= k < orig.len() && !ChunkStorage::tree_expired(#[trigger] orig[k], now) implies find_upload(
        fin,
        orig[k].upload_id@,
    ) == Some(orig[k]) by {
        let j = choose|j: int| 0 <= j < fin.len() && orig[k] == #[trigger] fin[j];
        lemma_find_upload_at(fin, j);
    }
}

/// Removing one element of a unique sequence keeps it unique.
proof fn lemma_remove_preserves_unique(uploads: Seq<UploadChunks>, i: int)
    requires
        uploads_unique(uploads),
        0 <= i < uploads.len(),
    ensures
        uploads_unique(uploads.remove(i)),
{
    let rem = uploads.remove(i);
    assert forall|a: int, b: int|
        0 <= a < b < rem.len() implies (#[trigger] rem[a].upload_id@) != (
    #[trigger] rem[b].upload_id@) by {
        let a2 = if a < i {
            a
        } else {
            a + 1
        };
        let b2 = if b < i {
            b
        } else {
            b + 1
        };
        assert(rem[a] == uploads[a2]);
        assert(rem[b] == uploads[b2]);
    }
}

/// Removing the upload at position `i` of a unique sequence makes its
/// identifier unfindable and leaves every other lookup unchanged.
pub proof fn lemma_find_upload_remove_frame(uploads: Seq<UploadChunks>, i: int)
    requires
        uploads_unique(uploads),
        0 <= i < uploads.len(),
    ensures
        find_upload(uploads.remove(i), uploads[i].upload_id@) is None,
        forall|id: Seq<u8>|
            id != uploads[i].upload_id@ ==> #[trigger] find_upload(uploads.remove(i), id)
                == find_upload(uploads, id),
{
    let rem = uploads.remove(i);
    lemma_remove_preserves_unique(uploads, i);
    assert forall|j: int| 0 <= j < rem.len() implies (#[trigger] rem[j].upload_id@)
        != uploads[i].upload_id@ by {
        if j < i {
            assert(rem[j] == uploads[j]);
        } else {
            assert(rem[j] == uploads[j + 1]);
        }
    }
    lemma_find_upload_none(rem, uploads[i].upload_id@);
    assert forall|id: Seq<u8>| id != uploads[i].upload_id@ implies #[trigger] find_upload(
        rem,
        id,
    ) == find_upload(uploads, id) by {
        if find_upload(uploads, id) is Some {
            lemma_find_upload_some(uploads, id);
            let k = choose|k: int|
                0 <= k < uploads.len() && (#[trigger] uploads[k].upload_id@) == id && uploads[k]
                    == find_upload(uploads, id)->Some_0;
            assert(k != i);
            let k2 = if k < i {
                k
            } else {
                k - 1
            };
            assert(rem[k2] == uploads[k]);
            lemma_find_upload_at(rem, k2);
            lemma_find_upload_at(uploads, k);
        } else {
            assert forall|j: int| 0 <= j < rem.len() implies (#[trigger] rem[j].upload_id@)
                != id by {
                let j2 = if j < i {
                    j
                } else {
                    j + 1
                };
                assert(rem[j] == uploads[j2]);
                if uploads[j2].upload_id@ == id {
                    lemma_find_upload_at(uploads, j2);
                }
            }
            lemma_find_upload_none(rem, id);
        }
    }
}

/// The byte range of `data` that chunk `i` covers when cut into pieces of
/// `chunk_size` bytes.
pub open spec fn chunk_slice(data: Seq<u8>, chunk_size: int, i: int) -> Seq<u8> {
    data.subrange(
        i * chunk_size,
        if (i + 1) * chunk_size <= data.len() {
            (i + 1) * chunk_size
        } else {
            data.len() as int
        },
    )
}

/// When the chunks held for a session are exactly the slices of `data`,
/// assembling them gives the split-concatenation of `data`.
pub proof fn lemma_assembled_of_slices(
    cs: ChunkStorage,
    id: Seq<u8>,
    data: Seq<u8>,
    chunk_size: int,
    k: int,
)
    requires
        k >= 0,
        forall|i: int|
            0 <= i < k ==> (#[trigger] cs.chunk_at(id, i)) == Some(
                chunk_slice(data, chunk_size, i),
            ),
    ensures
        cs.assembled_bytes(id, k) == split_concat(data, chunk_size, k),
    decreases k,
{
    if k > 0 {
        lemma_assembled_of_slices(cs, id, data, chunk_size, k - 1);
    }
}

/// The concatenation of the first `k` chunk slices of `data`.
pub open spec fn split_concat(data: Seq<u8>, chunk_size: int, k: int) -> Seq<u8>
    decreases k,
{
    if k <= 0 {
        Seq::empty()
    } else {
        split_concat(data, chunk_size, k - 1) + chunk_slice(data, chunk_size, k - 1)
    }
}

/// Splitting a byte sequence into chunks and concatenating them back in
/// index order reproduces the original sequence exactly: chunk-split and
/// assemble are inverses.
pub proof fn lemma_split_assemble_roundtrip(data: Seq<u8>, chunk_size: int)
    requires
        chunk_size > 0,
        data.len() > 0,
    ensures
        split_concat(
            data,
            chunk_size,
            crate::session::spec_total_chunks(data.len() as int, chunk_size),
        ) == data,
{
    let tc = crate::session::spec_total_chunks(data.len() as int, chunk_size);
    crate::session::lemma_chunk_plan(data.len() as int, chunk_size);
    lemma_split_prefix(data, chunk_size, tc);
    assert(tc * chunk_size >= data.len());
    assert(data.take(data.len() as int) =~= data);
}

/// The first `k` chunk slices concatenate to the prefix they cover.
proof fn lemma_split_prefix(data: Seq<u8>, chunk_size: int, k: int)
    requires
        chunk_size > 0,
        data.len() > 0,
        0 <= k <= crate::session::spec_total_chunks(data.len() as int, chunk_size),
    ensures
        split_concat(data, chunk_size, k) == data.take(
            if k * chunk_size <= data.len() {
                k * chunk_size
            } else {
                data.len() as int
            },
        ),
    decreases k,
{
    let tc = crate::session::spec_total_chunks(data.len() as int, chunk_size);
    crate::session::lemma_chunk_plan(data.len() as int, chunk_size);
    if k == 0 {
        assert(k * chunk_size == 0) by (nonlinear_arith)
            requires
                k == 0,
        ;
        assert(split_concat(data, chunk_size, 0) =~= data.take(0));
    } else {
        lemma_split_prefix(data, chunk_size, k - 1);
        assert((k - 1) * chunk_size < data.len()) by {
            assert((k - 1) * chunk_size <= (tc - 1) * chunk_size) by (nonlinear_arith)
                requires
                    k - 1 <= tc - 1,
                    chunk_size > 0,
            ;
        }
        assert(k * chunk_size == (k - 1) * chunk_size + chunk_size) by (nonlinear_arith);
        let hi = if k * chunk_size <= data.len() {
            k * chunk_size
        } else {
            data.len() as int
        };
        assert(split_concat(data, chunk_size, k) == split_concat(data, chunk_size, k - 1)
            + chunk_slice(data, chunk_size, k - 1));
        assert(split_concat(data, chunk_size, k - 1) == data.take((k - 1) * chunk_size));
        assert(chunk_slice(data, chunk_size, k - 1) == data.subrange((k - 1) * chunk_size, hi));
        assert(data.take((k - 1) * chunk_size) + data.subrange((k - 1) * chunk_size, hi)
            =~= data.take(hi));
        assert(split_concat(data, chunk_size, k) == data.take(hi));
    }
}

/// Copies a byte vector.
pub fn clone_bytes(v: &Vec<u8>) -> (r: Vec<u8>)
    ensures
        r@ == v@,
{
    let mut out: Vec<u8> = Vec::new();
    let mut i: usize = 0;
    while i < v.len()
        invariant
            i <= v@.len(),
            out@ =~= v@.take(i as int),
        decreases v@.len() - i,
    {
        out.push(v[i]);
        proof {
            assert(out@ =~= v@.take(i + 1));
        }
        i += 1;
    }
    proof {
        assert(v@.take(v@.len() as int) =~= v@);
    }
    out
}

/// Appending a chunk entry leaves every other index's lookup unchanged.
pub proof fn lemma_find_entry_push_frame(entries: Seq<ChunkEntry>, en: ChunkEntry)
    ensures
        forall|n: int|
            n != en.index ==> #[trigger] find_entry(entries.push(en), n) == find_entry(entries, n),
{
    assert forall|n: int| n != en.index implies #[trigger] find_entry(entries.push(en), n)
        == find_entry(entries, n) by {
        lemma_find_entry_push_frame_one(entries, en, n);
    }
}

/// Helper for one index.
proof fn lemma_find_entry_push_frame_one(entries: Seq<ChunkEntry>, en: ChunkEntry, n: int)
    requires
        n != en.index,
    ensures
        find_entry(entries.push(en), n) == find_entry(entries, n),
    decreases entries.len(),
{
    if entries.len() == 0 {
        assert(entries.push(en)[0] == en);
        assert(entries.push(en).drop_first() =~= Seq::<ChunkEntry>::empty());
        assert(find_entry(Seq::<ChunkEntry>::empty(), n) is None);
    } else {
        assert(entries.push(en)[0] == entries[0]);
        if entries[0].index == n {
        } else {
            assert(entries.push(en).drop_first() =~= entries.drop_first().push(en));
            lemma_find_entry_push_frame_one(entries.drop_first(), en, n);
        }
    }
}

/// Replacing the entry at position `e` by one with the same index leaves
/// every other index's lookup unchanged.
pub proof fn lemma_find_entry_update_frame(entries: Seq<ChunkEntry>, e: int, en: ChunkEntry)
    requires
        0 <= e < entries.len(),
        en.index == entries[e].index,
    ensures
        forall|n: int|
            n != en.index ==> #[trigger] find_entry(entries.update(e, en), n) == find_entry(
                entries,
                n,
            ),
{
    assert forall|n: int| n != en.index implies #[trigger] find_entry(entries.update(e, en), n)
        == find_entry(entries, n) by {
        lemma_find_entry_update_frame_one(entries, e, en, n);
    }
}

/// Helper for one index.
proof fn lemma_find_entry_update_frame_one(entries: Seq<ChunkEntry>, e: int, en: ChunkEntry, n: int)
    requires
        0 <= e < entries.len(),
        en.index == entries[e].index,
        n != en.index,
    ensures
        find_entry(entries.update(e, en), n) == find_entry(entries, n),
    decreases entries.len(),
{
    let updated = entries.update(e, en);
    if e == 0 {
        assert(updated[0] == en);
        assert(updated.drop_first() =~= entries.drop_first());
    } else {
        assert(updated[0] == entries[0]);
        if entries[0].index == n {
        } else {
            assert(updated.drop_first() =~= entries.drop_first().update(e - 1, en));
            lemma_find_entry_update_frame_one(entries.drop_first(), e - 1, en, n);
        }
    }
}

/// Appending a fresh upload leaves every other identifier's lookup unchanged.
pub proof fn lemma_find_upload_push_frame(uploads: Seq<UploadChunks>, u: UploadChunks)
    ensures
        forall|id: Seq<u8>|
            id != u.upload_id@ ==> #[trigger] find_upload(uploads.push(u), id) == find_upload(
                uploads,
                id,
            ),
    decreases uploads.len(),
{
    assert forall|id: Seq<u8>| id != u.upload_id@ implies #[trigger] find_upload(
        uploads.push(u),
        id,
    ) == find_upload(uploads, id) by {
        lemma_find_upload_push_frame_one(uploads, u, id);
    }
}

/// Helper for one identifier.
proof fn lemma_find_upload_push_frame_one(uploads: Seq<UploadChunks>, u: UploadChunks, id: Seq<u8>)
    requires
        id != u.upload_id@,
    ensures
        find_upload(uploads.push(u), id) == find_upload(uploads, id),
    decreases uploads.len(),
{
    if uploads.len() == 0 {
        assert(uploads.push(u)[0] == u);
        assert(uploads.push(u).drop_first() =~= Seq::<UploadChunks>::empty());
        assert(find_upload(Seq::<UploadChunks>::empty(), id) is None);
    } else {
        assert(uploads.push(u)[0] == uploads[0]);
        if uploads[0].upload_id@ == id {
        } else {
            assert(uploads.push(u).drop_first() =~= uploads.drop_first().push(u));
            lemma_find_upload_push_frame_one(uploads.drop_first(), u, id);
        }
    }
}

/// Replacing the upload at position `i` by one with the same identifier
/// leaves every other identifier's lookup unchanged.
pub proof fn lemma_find_upload_update_frame(uploads: Seq<UploadChunks>, i: int, u: UploadChunks)
    requires
        0 <= i < uploads.len(),
        u.upload_id@ == uploads[i].upload_id@,
    ensures
        forall|id: Seq<u8>|
            id != u.upload_id@ ==> #[trigger] find_upload(uploads.update(i, u), id) == find_upload(
                uploads,
                id,
            ),
    decreases uploads.len(),
{
    assert forall|id: Seq<u8>| id != u.upload_id@ implies #[trigger] find_upload(
        uploads.update(i, u),
        id,
    ) == find_upload(uploads, id) by {
        lemma_find_upload_update_frame_one(uploads, i, u, id);
    }
}

/// Helper for one identifier.
proof fn lemma_find_upload_update_frame_one(
    uploads: Seq<UploadChunks>,
    i: int,
    u: UploadChunks,
    id: Seq<u8>,
)
    requires
        0 <= i < uploads.len(),
        u.upload_id@ == uploads[i].upload_id@,
        id != u.upload_id@,
    ensures
        find_upload(uploads.update(i, u), id) == find_upload(uploads, id),
    decreases uploads.len(),
{
    let updated = uploads.update(i, u);
    if i == 0 {
        assert(updated[0] == u);
        assert(updated.drop_first() =~= uploads.drop_first());
    } else {
        assert(updated[0] == uploads[0]);
        if uploads[0].upload_id@ == id {
        } else {
            assert(updated.drop_first() =~= uploads.drop_first().update(i - 1, u));
            lemma_find_upload_update_frame_one(uploads.drop_first(), i - 1, u, id);
        }
    }
}


/// Whether `s` has the shape of a chunk file name: the `chunk_` prefix
/// followed by at least one decimal digit.
pub open spec fn is_chunk_name(s: Seq<char>) -> bool {
    &&& s.len() > 6
    &&& s.take(6) == "chunk_"@
    &&& forall|p: int| 6 <= p < s.len() ==> crate::text::is_dec_digit_char(#[trigger] s[p])
}

/// The zeros that pad a chunk index to at least six digits.
pub open spec fn pad_zeros_chars(n: int) -> Seq<char> {
    if n < 10 {
        Seq::new(5, |i: int| '0')
    } else if n < 100 {
        Seq::new(4, |i: int| '0')
    } else if n < 1000 {
        Seq::new(3, |i: int| '0')
    } else if n < 10000 {
        Seq::new(2, |i: int| '0')
    } else if n < 100000 {
        Seq::new(1, |i: int| '0')
    } else {
        Seq::empty()
    }
}

/// The on-disk name of the chunk at index `n`: `chunk_` and the index
/// zero-padded to six digits, so a plain sort by name gives assembly order.
pub open spec fn chunk_name_chars(n: int) -> Seq<char> {
    "chunk_"@ + pad_zeros_chars(n) + crate::text::dec_string(n)
}

/// Renders the on-disk name of the chunk at index `n`.
pub fn chunk_file_name(n: u64) -> (r: String)
    ensures
        r@ == chunk_name_chars(n as int),
{
    proof {
        reveal_strlit("chunk_");
        reveal_strlit("00000");
        reveal_strlit("0000");
        reveal_strlit("000");
        reveal_strlit("00");
        reveal_strlit("0");
    }
    let mut out = String::new();
    out.append("chunk_");
    if n < 10 {
        out.append("00000");
        proof {
            assert("00000"@ =~= pad_zeros_chars(n as int));
        }
    } else if n < 100 {
        out.append("0000");
        proof {
            assert("0000"@ =~= pad_zeros_chars(n as int));
        }
    } else if n < 1000 {
        out.append("000");
        proof {
            assert("000"@ =~= pad_zeros_chars(n as int));
        }
    } else if n < 10000 {
        out.append("00");
        proof {
            assert("00"@ =~= pad_zeros_chars(n as int));
        }
    } else if n < 100000 {
        out.append("0");
        proof {
            assert("0"@ =~= pad_zeros_chars(n as int));
        }
    } else {
        proof {
            assert(Seq::<char>::empty() =~= pad_zeros_chars(n as int));
        }
    }
    crate::text::append_dec(&mut out, n);
    proof {
        assert(out@ =~= chunk_name_chars(n as int));
    }
    out
}

/// A chunk name renders to something its own parser accepts, with the same
/// index: naming and parsing are inverses.
pub proof fn lemma_chunk_name_roundtrip(n: u64)
    ensures
        is_chunk_name(chunk_name_chars(n as int)),
        crate::text::dec_value(chunk_name_chars(n as int).skip(6)) == n,
{
    reveal_strlit("chunk_");
    let s = chunk_name_chars(n as int);
    let pad = pad_zeros_chars(n as int);
    let digits = crate::text::dec_string(n as int);
    crate::text::lemma_dec_string_value(n as int);
    assert(s.take(6) =~= "chunk_"@);
    assert(s.skip(6) =~= pad + digits);
    assert forall|p: int| 6 <= p < s.len() implies crate::text::is_dec_digit_char(
        #[trigger] s[p],
    ) by {
        if p - 6 < pad.len() {
            assert(s[p] == pad[p - 6]);
            assert(pad[p - 6] == '0');
        } else {
            assert(s[p] == digits[p - 6 - pad.len()]);
        }
    }
    assert forall|p: int| 0 <= p < pad.len() implies #[trigger] pad[p] == '0' by {}
    crate::text::lemma_dec_value_leading_zeros(pad, digits);
}

/// Whether the sorted vector holds `x`.
fn vec_contains_u64(v: &Vec<u64>, x: u64) -> (r: bool)
    ensures
        r == v@.contains(x),
{
    let mut i: usize = 0;
    while i < v.len()
        invariant
            i <= v@.len(),
            forall|j: int| 0 <= j < i ==> v@[j] != x,
        decreases v@.len() - i,
    {
        if v[i] == x {
            return true;
        }
        i += 1;
    }
    proof {
        if v@.contains(x) {
            let j = choose|j: int| 0 <= j < v@.len() && v@[j] == x;
        }
    }
    false
}

/// Parses a directory entry back into a chunk index: accepts exactly the
/// `chunk_`-prefixed digit strings whose value fits, and returns that value.
pub fn parse_chunk_name(name: &str) -> (r: Option<u64>)
    ensures
        r is Some <==> (is_chunk_name(name@) && crate::text::dec_value(name@.skip(6))
            <= u64::MAX),
        r matches Some(v) ==> v == crate::text::dec_value(name@.skip(6)),
{
    proof {
        reveal_strlit("chunk_");
        if is_chunk_name(name@) {
            assert forall|i: int| 0 <= i < name@.len() implies '\0' <= #[trigger] name@[i]
                <= '\u{7f}' by {
                if i < 6 {
                    assert(name@[i] == name@.take(6)[i]);
                } else {
                    assert(crate::text::is_dec_digit_char(name@[i]));
                }
            }
            assert(vstd::string::is_ascii(name));
        }
    }
    if !name.is_ascii() {
        return None;
    }
    proof {
        vstd::string::is_ascii_spec_bytes(name);
        assert(name.spec_bytes().len() == name@.len());
    }
    let nb: &[u8] = name.as_bytes();
    proof {
        vstd::slice::axiom_spec_len(nb);
    }
    let len: usize = nb.len();
    if len <= 6 {
        return None;
    }
    let c0 = name.get_char(0);
    let c1 = name.get_char(1);
    let c2 = name.get_char(2);
    let c3 = name.get_char(3);
    let c4 = name.get_char(4);
    let c5 = name.get_char(5);
    if !(c0 == 'c' && c1 == 'h' && c2 == 'u' && c3 == 'n' && c4 == 'k' && c5 == '_') {
        proof {
            if is_chunk_name(name@) {
                assert(name@[0] == name@.take(6)[0]);
                assert(name@[1] == name@.take(6)[1]);
                assert(name@[2] == name@.take(6)[2]);
                assert(name@[3] == name@.take(6)[3]);
                assert(name@[4] == name@.take(6)[4]);
                assert(name@[5] == name@.take(6)[5]);
            }
        }
        return None;
    }
    proof {
        assert(name@.take(6) =~= "chunk_"@);
    }
    let mut acc: u64 = 0;
    let mut p: usize = 6;
    while p < len
        invariant
            name@.len() == len,
            6 <= p <= len,
            forall|q: int| 6 <= q < p ==> crate::text::is_dec_digit_char(#[trigger] name@[q]),
            acc == crate::text::dec_value(name@.subrange(6, p as int)),
        decreases len - p,
    {
        let c = name.get_char(p);
        let code = c as u32;
        if !(48 <= code && code <= 57) {
            proof {
                assert(!crate::text::is_dec_digit_char(name@[p as int]));
            }
            return None;
        }
        let d: u64 = (code - 48) as u64;
        if acc > (u64::MAX - d) / 10 {
            proof {
                let t = name@.skip(6);
                let pref = name@.subrange(6, p + 1);
                assert(pref.drop_last() =~= name@.subrange(6, p as int));
                assert(pref.last() == name@[p as int]);
                vstd::arithmetic::div_mod::lemma_fundamental_div_mod(
                    (u64::MAX - d) as int,
                    10,
                );
                vstd::arithmetic::div_mod::lemma_mod_bound((u64::MAX - d) as int, 10);
                assert(acc * 10 + d > u64::MAX) by (nonlinear_arith)
                    requires
                        acc >= ((u64::MAX - d) as int) / 10 + 1,
                        (u64::MAX - d) as int == 10 * (((u64::MAX - d) as int) / 10) + ((
                        u64::MAX - d) as int) % 10,
                        ((u64::MAX - d) as int) % 10 < 10,
                        d <= 9,
                ;
                assert(crate::text::dec_value(pref) > u64::MAX);
                if forall|q: int|
                    0 <= q < t.len() ==> crate::text::is_dec_digit_char(#[trigger] t[q]) {
                    assert forall|q: int|
                        0 <= q < pref.len() implies pref[q] == t[q] by {
                        assert(pref[q] == name@[6 + q]);
                        assert(t[q] == name@[6 + q]);
                    }
                    assert(pref =~= t.take(p + 1 - 6));
                    crate::text::lemma_dec_value_prefix_monotone(t, p + 1 - 6);
                    assert(crate::text::dec_value(t) > u64::MAX);
                } else {
                    let q = choose|q: int|
                        0 <= q < t.len() && !crate::text::is_dec_digit_char(#[trigger] t[q]);
                    assert(name@[6 + q] == t[q]);
                    assert(!is_chunk_name(name@));
                }
            }
            return None;
        }
        proof {
            vstd::arithmetic::div_mod::lemma_fundamental_div_mod((u64::MAX - d) as int, 10);
            vstd::arithmetic::div_mod::lemma_mod_bound((u64::MAX - d) as int, 10);
            assert(acc * 10 + d <= u64::MAX) by (nonlinear_arith)
                requires
                    acc <= ((u64::MAX - d) as int) / 10,
                    (u64::MAX - d) as int == 10 * (((u64::MAX - d) as int) / 10) + ((u64::MAX
                        - d) as int) % 10,
                    ((u64::MAX - d) as int) % 10 >= 0,
                    d >= 0,
            ;
            let pref = name@.subrange(6, p + 1);
            assert(pref.drop_last() =~= name@.subrange(6, p as int));
            assert(pref.last() == name@[p as int]);
            assert(crate::text::dec_value(pref) == acc * 10 + (name@[p as int] as int - 48));
        }
        acc = acc * 10 + d;
        p += 1;
    }
    proof {
        assert(name@.subrange(6, len as int) =~= name@.skip(6));
        assert(is_chunk_name(name@));
    }
    Some(acc)
}

/// Parses a directory listing back into the sorted list of chunk indices:
/// unrecognized names are ignored, recognized indices come back strictly
/// ascending.
pub fn indices_from_names(names: &Vec<String>) -> (r: Vec<u64>)
    ensures
        forall|a: int, b: int| 0 <= a < b < r@.len() ==> r@[a] < r@[b],
        forall|v: u64|
            #[trigger] r@.contains(v) <==> exists|k: int|
                0 <= k < names@.len() && is_chunk_name((#[trigger] names@[k])@)
                    && crate::text::dec_value(names@[k]@.skip(6)) == v,
    {
    let mut r: Vec<u64> = Vec::new();
    let mut k: usize = 0;
    while k < names.len()
        invariant
            k <= names@.len(),
            forall|a: int, b: int| 0 <= a < b < r@.len() ==> r@[a] < r@[b],
            forall|v: u64|
                #[trigger] r@.contains(v) <==> exists|j: int|
                    0 <= j < k && is_chunk_name((#[trigger] names@[j])@)
                        && crate::text::dec_value(names@[j]@.skip(6)) == v,
        decreases names@.len() - k,
    {
        match parse_chunk_name(names[k].as_str()) {
            None => {},
            Some(v) => {
                if !vec_contains_u64(&r, v) {
                    crate::text::insert_sorted(&mut r, v);
                }
            },
        }
        proof {
            assert forall|v: u64| #[trigger] r@.contains(v) implies exists|j: int|
                0 <= j < k + 1 && is_chunk_name((#[trigger] names@[j])@)
                    && crate::text::dec_value(names@[j]@.skip(6)) == v by {
                if !(exists|j: int|
                    0 <= j < k && is_chunk_name((#[trigger] names@[j])@)
                        && crate::text::dec_value(names@[j]@.skip(6)) == v) {
                    assert(is_chunk_name(names@[k as int]@) && crate::text::dec_value(
                        names@[k as int]@.skip(6),
                    ) == v);
                }
            }
            assert forall|v: u64|
                (exists|j: int|
                    0 <= j < k + 1 && is_chunk_name((#[trigger] names@[j])@)
                        && crate::text::dec_value(names@[j]@.skip(6))
                        == v) implies #[trigger] r@.contains(v) by {
                let j = choose|j: int|
                    0 <= j < k + 1 && is_chunk_name((#[trigger] names@[j])@)
                        && crate::text::dec_value(names@[j]@.skip(6)) == v;
            }
        }
        k += 1;
    }
    r
}

} // verus!
