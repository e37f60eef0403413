//! The sharded file store: durable blobs under a two-level directory tree
//! derived from each file's identifier, with verified path derivation and
//! empty-parent cleanup.

use vstd::prelude::*;
use vstd::string::StringSliceAdditionalSpecFns;
use crate::error::AppError;
use crate::ids::Uid;
use crate::ids::canonical_chars;
use crate::ids::hex_digit_char;
use crate::ids::nibble_of;
use crate::ids::append_hex_byte;

verus! {

/// One stored blob: its path relative to the storage root, and its bytes.
pub struct StoredFile {
    /// The blob's path relative to the storage root.
    pub rel_path: String,
    /// The blob's bytes.
    pub data: Vec<u8>,
}

/// Whether a sequence of stored files holds each path at most once.
pub open spec fn files_unique(files: Seq<StoredFile>) -> bool {
    forall|i: int, j: int|
        0 <= i < j < files.len() ==> (#[trigger] files[i].rel_path@) != (
        #[trigger] files[j].rel_path@)
}

/// The bytes stored at `path`, if any (first match).
pub open spec fn find_file(files: Seq<StoredFile>, path: Seq<char>) -> Option<Seq<u8>>
    decreases files.len(),
{
    if files.len() == 0 {
        None
    } else if files[0].rel_path@ == path {
        Some(files[0].data@)
    } else {
        find_file(files.drop_first(), path)
    }
}

/// Under uniqueness, the file at position `i` is what lookup of its path finds.
pub proof fn lemma_find_file_at(files: Seq<StoredFile>, i: int)
    requires
        files_unique(files),
        0 <= i < files.len(),
    ensures
        find_file(files, files[i].rel_path@) == Some(files[i].data@),
    decreases files.len(),
{
    if i == 0 {
    } else {
        assert(files[0].rel_path@ != files[i].rel_path@);
        assert(files_unique(files.drop_first())) by {
            assert forall|a: int, b: int|
                0 <= a < b < files.drop_first().len() implies (
                #[trigger] files.drop_first()[a].rel_path@) != (
                #[trigger] files.drop_first()[b].rel_path@) by {
                assert(files.drop_first()[a] == files[a + 1]);
                assert(files.drop_first()[b] == files[b + 1]);
            }
        }
        lemma_find_file_at(files.drop_first(), i - 1);
        assert(files.drop_first()[i - 1] == files[i]);
    }
}

/// If no file has path `path`, lookup finds nothing.
pub proof fn lemma_find_file_none(files: Seq<StoredFile>, path: Seq<char>)
    requires
        forall|i: int| 0 <= i < files.len() ==> (#[trigger] files[i].rel_path@) != path,
    ensures
        find_file(files, path) is None,
    decreases files.len(),
{
    if files.len() > 0 {
        assert forall|i: int|
            0 <= i < files.drop_first().len() implies (
            #[trigger] files.drop_first()[i].rel_path@) != path by {
            assert(files.drop_first()[i] == files[i + 1]);
        }
        lemma_find_file_none(files.drop_first(), path);
    }
}

/// Whether directory path `d` lies strictly above `p` in the tree: `d` is a
/// proper prefix of `p` at a `/` boundary.
pub open spec fn dir_covers(d: Seq<char>, p: Seq<char>) -> bool {
    &&& d.len() < p.len()
    &&& p.take(d.len() as int) == d
    &&& p[d.len() as int] == '/'
}

/// Whether some stored file lies under directory `d`.
pub open spec fn dir_nonempty(files: Seq<StoredFile>, d: Seq<char>) -> bool {
    exists|i: int| 0 <= i < files.len() && dir_covers(d, #[trigger] files[i].rel_path@)
}

/// Whether the directory list holds `d`.
pub open spec fn dirs_has(dirs: Seq<String>, d: Seq<char>) -> bool {
    exists|i: int| 0 <= i < dirs.len() && (#[trigger] dirs[i]@) == d
}

/// The shard path of a file identifier, relative to the storage root: the
/// first two hexadecimal digits, a slash, the next two, a slash, and the
/// canonical identifier with an `.enc` extension.
pub open spec fn shard_rel_path_chars(id: Seq<u8>) -> Seq<char> {
    seq![
        hex_digit_char(nibble_of(id, 0)),
        hex_digit_char(nibble_of(id, 1)),
        '/',
        hex_digit_char(nibble_of(id, 2)),
        hex_digit_char(nibble_of(id, 3)),
        '/',
    ] + canonical_chars(id) + seq!['.', 'e', 'n', 'c']
}

/// The first-level shard directory of a file identifier.
pub open spec fn shard_dir1_chars(id: Seq<u8>) -> Seq<char> {
    seq![hex_digit_char(nibble_of(id, 0)), hex_digit_char(nibble_of(id, 1))]
}

/// The second-level shard directory of a file identifier.
pub open spec fn shard_dir2_chars(id: Seq<u8>) -> Seq<char> {
    shard_dir1_chars(id) + seq!['/', hex_digit_char(nibble_of(id, 2)), hex_digit_char(nibble_of(id, 3))]
}

/// File storage rooted at a directory, spreading blobs across two levels of
/// shard directories so no directory grows large.
pub struct FileStorage {
    /// The storage root (as a path string); never itself removed.
    pub storage_root: String,
    /// The stored blobs, each relative path held at most once.
    pub files: Vec<StoredFile>,
    /// The shard directories currently present, each held at most once; every
    /// one has at least one file under it.
    pub dirs: Vec<String>,
}

impl FileStorage {
    /// The store's invariant: unique ASCII paths, unique directories, and no
    /// empty directory.
    pub open spec fn wf(self) -> bool {
        &&& files_unique(self.files@)
        &&& forall|i: int|
            0 <= i < self.files@.len() ==> vstd::string::string_is_ascii(
                &(#[trigger] self.files@[i]).rel_path,
            )
        &&& forall|i: int, j: int|
            0 <= i < j < self.dirs@.len() ==> (#[trigger] self.dirs@[i]@) != (
            #[trigger] self.dirs@[j]@)
        &&& forall|i: int|
            0 <= i < self.dirs@.len() ==> vstd::string::string_is_ascii(
                &(#[trigger] self.dirs@[i]),
            )
        &&& forall|i: int|
            0 <= i < self.dirs@.len() ==> dir_nonempty(self.files@, (#[trigger] self.dirs@[i])@)
    }

    /// Creates a new, empty file storage rooted at `storage_root`.
    pub fn new(storage_root: &str) -> (r: FileStorage)
        ensures
            r.wf(),
            r.storage_root@ == storage_root@,
            r.files@.len() == 0,
            r.dirs@.len() == 0,
            forall|p: Seq<char>| find_file(r.files@, p) is None,
    {
        let mut root = String::new();
        root.append(storage_root);
        proof {
            assert(root@ =~= storage_root@);
            assert(forall|p: Seq<char>| find_file(Seq::<StoredFile>::empty(), p) is None);
        }
        FileStorage { storage_root: root, files: Vec::new(), dirs: Vec::new() }
    }

    /// The path, relative to the storage root, at which `file_id`'s blob
    /// lives: two shard levels and the canonical name with `.enc`.
    pub fn rel_file_path(file_id: &Uid) -> (r: String)
        requires
            file_id.wf(),
        ensures
            r@ == shard_rel_path_chars(file_id@),
            vstd::string::string_is_ascii(&r),
    {
        let mut out = String::new();
        append_hex_byte(&mut out, file_id.bytes[0]);
        proof {
            reveal_strlit("/");
        }
        out.append("/");
        append_hex_byte(&mut out, file_id.bytes[1]);
        out.append("/");
        let canonical = file_id.canonical_string();
        out.append(canonical.as_str());
        proof {
            reveal_strlit(".enc");
        }
        out.append(".enc");
        proof {
            assert(out@ =~= shard_rel_path_chars(file_id@));
            assert forall|i: int| 0 <= i < out@.len() implies '\0' <= #[trigger] out@[i]
                <= '\u{7f}' by {
                if i == 2 || i == 5 {
                    assert(out@[i] == '/');
                } else if i < 6 {
                    crate::ids::lemma_hex_digit_ascii(nibble_of(file_id@, i - (if i > 2 { 1int } else { 0int })));
                } else if i < 42 {
                    assert(out@[i] == canonical_chars(file_id@)[i - 6]);
                    crate::ids::lemma_canonical_ascii(file_id@, i - 6);
                } else {
                    assert(out@[i] == seq!['.', 'e', 'n', 'c'][i - 42]);
                }
            }
        }
        out
    }

    /// The full path of `file_id`'s blob: the storage root, a slash, and the
    /// shard path.
    pub fn generate_file_path(&self, file_id: &Uid) -> (r: String)
        requires
            file_id.wf(),
        ensures
            r@ == self.storage_root@ + seq!['/'] + shard_rel_path_chars(file_id@),
    {
        let mut out = String::new();
        out.append(self.storage_root.as_str());
        proof {
            reveal_strlit("/");
        }
        out.append("/");
        let rel = Self::rel_file_path(file_id);
        out.append(rel.as_str());
        proof {
            assert(out@ =~= self.storage_root@ + seq!['/'] + shard_rel_path_chars(file_id@));
        }
        out
    }

    /// Locates the position of the file stored at `path`, if any.
    fn file_position(&self, path: &str) -> (r: Option<usize>)
        requires
            self.wf(),
        ensures
            match r {
                Some(i) => i < self.files@.len() && self.files@[i as int].rel_path@ == path@,
                None => find_file(self.files@, path@) is None,
            },
    {
        let mut i: usize = 0;
        while i < self.files.len()
            invariant
                self.wf(),
                i <= self.files@.len(),
                forall|j: int| 0 <= j < i ==> (#[trigger] self.files@[j].rel_path@) != path@,
            decreases self.files@.len() - i,
        {
            if crate::text::str_eq(self.files[i].rel_path.as_str(), path) {
                return Some(i);
            }
            i += 1;
        }
        proof {
            lemma_find_file_none(self.files@, path@);
        }
        None
    }

    /// Locates the position of directory `d` in the directory list, if any.
    fn dir_position(&self, d: &str) -> (r: Option<usize>)
        ensures
            match r {
                Some(i) => i < self.dirs@.len() && self.dirs@[i as int]@ == d@,
                None => !dirs_has(self.dirs@, d@),
            },
    {
        let mut i: usize = 0;
        while i < self.dirs.len()
            invariant
                i <= self.dirs@.len(),
                forall|j: int| 0 <= j < i ==> (#[trigger] self.dirs@[j]@) != d@,
            decreases self.dirs@.len() - i,
        {
            if crate::text::str_eq(self.dirs[i].as_str(), d) {
                return Some(i);
            }
            i += 1;
        }
        None
    }

    /// Stores `data` under `file_id`'s shard path, creating the two shard
    /// directories, and returns the path relative to the storage root (never
    /// an absolute path, so the root can be relocated).  Every other path's
    /// blob is untouched.
    pub fn store_file(&mut self, file_id: &Uid, data: &Vec<u8>) -> (r: Result<String, AppError>)
        requires
            old(self).wf(),
            file_id.wf(),
        ensures
            final(self).wf(),
            final(self).storage_root == old(self).storage_root,
            r matches Ok(p) && p@ == shard_rel_path_chars(file_id@),
            find_file(final(self).files@, shard_rel_path_chars(file_id@)) == Some(data@),
            forall|q: Seq<char>|
                q != shard_rel_path_chars(file_id@) ==> #[trigger] find_file(
                    final(self).files@,
                    q,
                ) == find_file(old(self).files@, q),
            forall|d: Seq<char>|
                #[trigger] dirs_has(final(self).dirs@, d) <==> (dirs_has(old(self).dirs@, d) || d
                    == shard_dir1_chars(file_id@) || d == shard_dir2_chars(file_id@)),
    {
        let path = Self::rel_file_path(file_id);
        let ghost pchars = path@;
        let ghost old_files = self.files@;
        let entry = StoredFile { rel_path: path, data: crate::chunk_store::clone_bytes(data) };
        match self.file_position(entry.rel_path.as_str()) {
            None => {
                self.files.push(entry);
                proof {
                    assert(self.files@ == old_files.push(self.files@.last()));
                    lemma_store_push_ok(old_files, self.files@.last());
                }
            },
            Some(i) => {
                let ghost old_entry = self.files@[i as int];
                self.files[i] = entry;
                proof {
                    assert(self.files@ == old_files.update(i as int, self.files@[i as int]));
                    lemma_store_update_ok(old_files, i as int, self.files@[i as int]);
                }
            },
        }
        proof {
            assert forall|d: Seq<char>| dir_nonempty(old_files, d) implies dir_nonempty(
                self.files@,
                d,
            ) by {
                let m = choose|m: int|
                    0 <= m < old_files.len() && dir_covers(d, #[trigger] old_files[m].rel_path@);
                assert(self.files@[m].rel_path@ == old_files[m].rel_path@);
                assert(dir_covers(d, self.files@[m].rel_path@));
            }
        }
        let dir1 = Self::shard_dir1(file_id);
        let dir2 = Self::shard_dir2(file_id);
        self.ensure_dir(dir1);
        self.ensure_dir(dir2);
        proof {
            lemma_dirs_nonempty_after_store(self.files@, self.dirs@, file_id@, pchars);
            assert forall|j: int| 0 <= j < self.dirs@.len() implies dir_nonempty(
                self.files@,
                (#[trigger] self.dirs@[j])@,
            ) by {
                let d = self.dirs@[j]@;
                assert(dirs_has(self.dirs@, d)) by {
                    assert(self.dirs@[j]@ == d);
                }
                if d == shard_dir1_chars(file_id@) || d == shard_dir2_chars(file_id@) {
                } else {
                    assert(dirs_has(old(self).dirs@, d));
                    let k = choose|k: int|
                        0 <= k < old(self).dirs@.len() && (#[trigger] old(self).dirs@[k]@) == d;
                    assert(dir_nonempty(old_files, d));
                }
            }
        }
        let out = Self::rel_file_path(file_id);
        Ok(out)
    }

    /// The first-level shard directory name of `file_id`.
    fn shard_dir1(file_id: &Uid) -> (r: String)
        requires
            file_id.wf(),
        ensures
            r@ == shard_dir1_chars(file_id@),
            vstd::string::string_is_ascii(&r),
    {
        let mut out = String::new();
        append_hex_byte(&mut out, file_id.bytes[0]);
        proof {
            assert(out@ =~= shard_dir1_chars(file_id@));
            assert forall|i: int| 0 <= i < out@.len() implies '\0' <= #[trigger] out@[i]
                <= '\u{7f}' by {
                crate::ids::lemma_hex_digit_ascii(nibble_of(file_id@, i));
            }
        }
        out
    }

    /// The second-level shard directory name of `file_id`.
    fn shard_dir2(file_id: &Uid) -> (r: String)
        requires
            file_id.wf(),
        ensures
            r@ == shard_dir2_chars(file_id@),
            vstd::string::string_is_ascii(&r),
    {
        let mut out = Self::shard_dir1(file_id);
        proof {
            reveal_strlit("/");
        }
        out.append("/");
        append_hex_byte(&mut out, file_id.bytes[1]);
        proof {
            assert(out@ =~= shard_dir2_chars(file_id@));
            assert forall|i: int| 0 <= i < out@.len() implies '\0' <= #[trigger] out@[i]
                <= '\u{7f}' by {
                if 3 <= i {
                    crate::ids::lemma_hex_digit_ascii(nibble_of(file_id@, i - 1));
                } else if i < 2 {
                    crate::ids::lemma_hex_digit_ascii(nibble_of(file_id@, i));
                }
            }
        }
        out
    }

    /// Adds directory `d` to the list if it is not already there.
    fn ensure_dir(&mut self, d: String)
        requires
            old(self).wf_dirs_only(),
            vstd::string::string_is_ascii(&d),
        ensures
            final(self).wf_dirs_only(),
            final(self).storage_root == old(self).storage_root,
            final(self).files == old(self).files,
            forall|q: Seq<char>|
                #[trigger] dirs_has(final(self).dirs@, q) <==> (dirs_has(old(self).dirs@, q) || q
                    == d@),
    {
        let ghost old_dirs = self.dirs@;
        match self.dir_position(d.as_str()) {
            Some(i) => {
                proof {
                    assert(dirs_has(old_dirs, d@)) by {
                        assert(old_dirs[i as int]@ == d@);
                    }
                }
            },
            None => {
                self.dirs.push(d);
                proof {
                    let new_dirs = self.dirs@;
                    assert(new_dirs == old_dirs.push(new_dirs.last()));
                    assert forall|q: Seq<char>| #[trigger] dirs_has(new_dirs, q) implies (dirs_has(
                        old_dirs,
                        q,
                    ) || q == new_dirs.last()@) by {
                        let k = choose|k: int|
                            0 <= k < new_dirs.len() && (#[trigger] new_dirs[k]@) == q;
                        if k < old_dirs.len() {
                            assert(old_dirs[k]@ == q);
                        }
                    }
                    assert forall|q: Seq<char>| dirs_has(old_dirs, q) implies #[trigger] dirs_has(
                        new_dirs,
                        q,
                    ) by {
                        let k = choose|k: int|
                            0 <= k < old_dirs.len() && (#[trigger] old_dirs[k]@) == q;
                        assert(new_dirs[k]@ == q);
                    }
                    assert(dirs_has(new_dirs, new_dirs.last()@)) by {
                        assert(new_dirs[new_dirs.len() - 1]@ == new_dirs.last()@);
                    }
                    assert forall|a: int, b: int|
                        0 <= a < b < new_dirs.len() implies (#[trigger] new_dirs[a]@) != (
                    #[trigger] new_dirs[b]@) by {
                        if b == new_dirs.len() - 1 {
                            assert(old_dirs[a]@ != new_dirs.last()@);
                        }
                    }
                }
            },
        }
    }

    /// The parts of the invariant that do not mention directory emptiness.
    pub open spec fn wf_dirs_only(self) -> bool {
        &&& forall|i: int, j: int|
            0 <= i < j < self.dirs@.len() ==> (#[trigger] self.dirs@[i]@) != (
            #[trigger] self.dirs@[j]@)
        &&& forall|i: int|
            0 <= i < self.dirs@.len() ==> vstd::string::string_is_ascii(
                &(#[trigger] self.dirs@[i]),
            )
    }

    /// Reads back the blob stored at `relative_path`; a missing blob is the
    /// distinct not-found outcome.
    pub fn retrieve_file(&self, relative_path: &str) -> (r: Result<Vec<u8>, AppError>)
        requires
            self.wf(),
        ensures
            match r {
                Ok(data) => find_file(self.files@, relative_path@) == Some(data@),
                Err(e) => find_file(self.files@, relative_path@) is None && e
                    == AppError::FileNotFound,
            },
    {
        match self.file_position(relative_path) {
            None => Err(AppError::FileNotFound),
            Some(i) => {
                proof {
                    lemma_find_file_at(self.files@, i as int);
                }
                Ok(crate::chunk_store::clone_bytes(&self.files[i].data))
            },
        }
    }

    /// Deletes the blob at `relative_path`, tolerating one already absent,
    /// then removes every directory left with nothing under it.  The storage
    /// root itself is never removed, and afterwards a directory remains
    /// exactly if it was there before and still has a file under it.
    pub fn delete_file(&mut self, relative_path: &str) -> (r: Result<(), AppError>)
        requires
            old(self).wf(),
        ensures
            final(self).wf(),
            final(self).storage_root == old(self).storage_root,
            r is Ok,
            find_file(final(self).files@, relative_path@) is None,
            forall|q: Seq<char>|
                q != relative_path@ ==> #[trigger] find_file(final(self).files@, q) == find_file(
                    old(self).files@,
                    q,
                ),
            forall|d: Seq<char>|
                #[trigger] dirs_has(final(self).dirs@, d) <==> (dirs_has(old(self).dirs@, d)
                    && dir_nonempty(final(self).files@, d)),
    {
        let ghost old_files = self.files@;
        let ghost old_dirs = self.dirs@;
        match self.file_position(relative_path) {
            None => {
                proof {
                    assert forall|d: Seq<char>| dirs_has(old_dirs, d) implies dir_nonempty(
                        old_files,
                        d,
                    ) by {
                        let k = choose|k: int|
                            0 <= k < old_dirs.len() && (#[trigger] old_dirs[k]@) == d;
                    }
                }
                Ok(())
            },
            Some(i) => {
                self.files.remove(i);
                proof {
                    lemma_delete_remove_ok(old_files, i as int, relative_path@);
                }
                self.prune_empty_dirs();
                Ok(())
            },
        }
    }

    /// Removes every directory with no file under it.
    fn prune_empty_dirs(&mut self)
        requires
            old(self).wf_dirs_only(),
            files_unique(old(self).files@),
            forall|i: int|
                0 <= i < old(self).files@.len() ==> vstd::string::string_is_ascii(
                    &(#[trigger] old(self).files@[i]).rel_path,
                ),
        ensures
            final(self).wf(),
            final(self).storage_root == old(self).storage_root,
            final(self).files == old(self).files,
            forall|d: Seq<char>|
                #[trigger] dirs_has(final(self).dirs@, d) <==> (dirs_has(old(self).dirs@, d)
                    && dir_nonempty(old(self).files@, d)),
    {
        let ghost old_dirs = self.dirs@;
        let mut kept: Vec<String> = Vec::new();
        let mut i: usize = 0;
        while i < self.dirs.len()
            invariant
                self.wf_dirs_only(),
                files_unique(self.files@),
                forall|k: int|
                    0 <= k < self.files@.len() ==> vstd::string::string_is_ascii(
                        &(#[trigger] self.files@[k]).rel_path,
                    ),
                self.dirs@ == old_dirs,
                self.files == old(self).files,
                self.storage_root == old(self).storage_root,
                i <= old_dirs.len(),
                forall|a: int, b: int|
                    0 <= a < b < kept@.len() ==> (#[trigger] kept@[a]@) != (#[trigger] kept@[b]@),
                forall|k: int|
                    0 <= k < kept@.len() ==> vstd::string::string_is_ascii((#[trigger] &kept@[k])),
                forall|d: Seq<char>|
                    #[trigger] dirs_has(kept@, d) <==> exists|k: int|
                        0 <= k < i && (#[trigger] old_dirs[k]@) == d && dir_nonempty(
                            self.files@,
                            d,
                        ),
            decreases old_dirs.len() - i,
        {
            let keep = self.dir_has_file(i);
            let ghost pre = kept@;
            if keep {
                kept.push(self.dirs[i].clone());
                proof {
                    assert(!dirs_has(pre, old_dirs[i as int]@)) by {
                        if dirs_has(pre, old_dirs[i as int]@) {
                            let k = choose|k: int|
                                0 <= k < i && (#[trigger] old_dirs[k]@) == old_dirs[i as int]@
                                    && dir_nonempty(self.files@, old_dirs[i as int]@);
                            assert(false);
                        }
                    }
                    assert forall|a: int, b: int|
                        0 <= a < b < kept@.len() implies (#[trigger] kept@[a]@) != (
                    #[trigger] kept@[b]@) by {
                        if b == kept@.len() - 1 {
                            assert(kept@[a] == pre[a]);
                            if pre[a]@ == kept@[b]@ {
                                assert(dirs_has(pre, old_dirs[i as int]@)) by {
                                    assert(pre[a]@ == old_dirs[i as int]@);
                                }
                            }
                        }
                    }
                }
            }
            proof {
                lemma_prune_step(pre, kept@, old_dirs, self.files@, i as int, keep);
            }
            i += 1;
        }
        self.dirs = kept;
        proof {
            assert forall|j: int| 0 <= j < self.dirs@.len() implies dir_nonempty(
                self.files@,
                (#[trigger] self.dirs@[j])@,
            ) by {
                assert(dirs_has(self.dirs@, self.dirs@[j]@)) by {
                    assert(self.dirs@[j]@ == self.dirs@[j]@);
                }
                let k = choose|k: int|
                    0 <= k < old_dirs.len() && (#[trigger] old_dirs[k]@) == self.dirs@[j]@
                        && dir_nonempty(self.files@, self.dirs@[j]@);
            }
            assert forall|d: Seq<char>| #[trigger] dirs_has(self.dirs@, d) implies (dirs_has(
                old_dirs,
                d,
            ) && dir_nonempty(self.files@, d)) by {
                let k = choose|k: int|
                    0 <= k < old_dirs.len() && (#[trigger] old_dirs[k]@) == d && dir_nonempty(
                        self.files@,
                        d,
                    );
            }
            assert forall|d: Seq<char>|
                dirs_has(old_dirs, d) && dir_nonempty(self.files@, d) implies #[trigger] dirs_has(
                self.dirs@,
                d,
            ) by {
                let k = choose|k: int| 0 <= k < old_dirs.len() && (#[trigger] old_dirs[k]@) == d;
            }
        }
    }

    /// Whether some stored file lies under the directory at position `i`.
    fn dir_has_file(&self, i: usize) -> (r: bool)
        requires
            self.wf_dirs_only(),
            i < self.dirs@.len(),
            forall|k: int|
                0 <= k < self.files@.len() ==> vstd::string::string_is_ascii(
                    &(#[trigger] self.files@[k]).rel_path,
                ),
        ensures
            r == dir_nonempty(self.files@, self.dirs@[i as int]@),
    {
        let mut k: usize = 0;
        while k < self.files.len()
            invariant
                self.wf_dirs_only(),
                i < self.dirs@.len(),
                k <= self.files@.len(),
                forall|m: int|
                    0 <= m < self.files@.len() ==> vstd::string::string_is_ascii(
                        &(#[trigger] self.files@[m]).rel_path,
                    ),
                forall|m: int|
                    0 <= m < k ==> !dir_covers(
                        self.dirs@[i as int]@,
                        (#[trigger] self.files@[m]).rel_path@,
                    ),
            decreases self.files@.len() - k,
        {
            if crate::text::str_dir_covers(self.dirs[i].as_str(), self.files[k].rel_path.as_str()) {
                proof {
                    assert(dir_covers(self.dirs@[i as int]@, self.files@[k as int].rel_path@));
                }
                return true;
            }
            k += 1;
        }
        false
    }
}

/// After pushing a fresh file, its path finds the new bytes and every other
/// path is unchanged.
proof fn lemma_store_push_ok(files: Seq<StoredFile>, f: StoredFile)
    requires
        files_unique(files),
        find_file(files, f.rel_path@) is None,
    ensures
        files_unique(files.push(f)),
        find_file(files.push(f), f.rel_path@) == Some(f.data@),
        forall|q: Seq<char>|
            q != f.rel_path@ ==> #[trigger] find_file(files.push(f), q) == find_file(files, q),
    decreases files.len(),
{
    let pushed = files.push(f);
    assert(files_unique(pushed)) by {
        assert forall|a: int, b: int|
            0 <= a < b < pushed.len() implies (#[trigger] pushed[a].rel_path@) != (
        #[trigger] pushed[b].rel_path@) by {
            if b == pushed.len() - 1 {
                if pushed[a].rel_path@ == f.rel_path@ {
                    lemma_find_file_at(files, a);
                }
            }
        }
    }
    lemma_find_file_at(pushed, pushed.len() - 1);
    assert forall|q: Seq<char>| q != f.rel_path@ implies #[trigger] find_file(pushed, q)
        == find_file(files, q) by {
        lemma_find_file_push_frame_one(files, f, q);
    }
}

/// Helper for one path.
proof fn lemma_find_file_push_frame_one(files: Seq<StoredFile>, f: StoredFile, q: Seq<char>)
    requires
        q != f.rel_path@,
    ensures
        find_file(files.push(f), q) == find_file(files, q),
    decreases files.len(),
{
    if files.len() == 0 {
        assert(files.push(f)[0] == f);
        assert(files.push(f).drop_first() =~= Seq::<StoredFile>::empty());
        assert(find_file(Seq::<StoredFile>::empty(), q) is None);
    } else {
        assert(files.push(f)[0] == files[0]);
        if files[0].rel_path@ == q {
        } else {
            assert(files.push(f).drop_first() =~= files.drop_first().push(f));
            lemma_find_file_push_frame_one(files.drop_first(), f, q);
        }
    }
}

/// After replacing the file at `i` by one with the same path, that path
/// finds the new bytes and every other path is unchanged.
proof fn lemma_store_update_ok(files: Seq<StoredFile>, i: int, f: StoredFile)
    requires
        files_unique(files),
        0 <= i < files.len(),
        f.rel_path@ == files[i].rel_path@,
    ensures
        files_unique(files.update(i, f)),
        find_file(files.update(i, f), f.rel_path@) == Some(f.data@),
        forall|q: Seq<char>|
            q != f.rel_path@ ==> #[trigger] find_file(files.update(i, f), q) == find_file(files, q),
{
    let updated = files.update(i, f);
    assert(files_unique(updated)) by {
        assert forall|a: int, b: int|
            0 <= a < b < updated.len() implies (#[trigger] updated[a].rel_path@) != (
        #[trigger] updated[b].rel_path@) by {
            assert(updated[a].rel_path@ == files[a].rel_path@);
            assert(updated[b].rel_path@ == files[b].rel_path@);
        }
    }
    lemma_find_file_at(updated, i);
    assert forall|q: Seq<char>| q != f.rel_path@ implies #[trigger] find_file(updated, q)
        == find_file(files, q) by {
        lemma_find_file_update_frame_one(files, i, f, q);
    }
}

/// Helper for one path.
proof fn lemma_find_file_update_frame_one(files: Seq<StoredFile>, i: int, f: StoredFile, q: Seq<char>)
    requires
        0 <= i < files.len(),
        f.rel_path@ == files[i].rel_path@,
        q != f.rel_path@,
    ensures
        find_file(files.update(i, f), q) == find_file(files, q),
    decreases files.len(),
{
    let updated = files.update(i, f);
    if i == 0 {
        assert(updated[0] == f);
        assert(updated.drop_first() =~= files.drop_first());
    } else {
        assert(updated[0] == files[0]);
        if files[0].rel_path@ == q {
        } else {
            assert(updated.drop_first() =~= files.drop_first().update(i - 1, f));
            lemma_find_file_update_frame_one(files.drop_first(), i - 1, f, q);
        }
    }
}

/// After removing the file at `i`, its path finds nothing and every other
/// path is unchanged.
proof fn lemma_delete_remove_ok(files: Seq<StoredFile>, i: int, path: Seq<char>)
    requires
        files_unique(files),
        0 <= i < files.len(),
        files[i].rel_path@ == path,
    ensures
        files_unique(files.remove(i)),
        forall|k: int|
            0 <= k < files.remove(i).len() ==> (#[trigger] files.remove(i)[k]) == (if k < i {
                files[k]
            } else {
                files[k + 1]
            }),
        find_file(files.remove(i), path) is None,
        forall|q: Seq<char>|
            q != path ==> #[trigger] find_file(files.remove(i), q) == find_file(files, q),
{
    let rem = files.remove(i);
    assert forall|a: int, b: int|
        0 <= a < b < rem.len() implies (#[trigger] rem[a].rel_path@) != (
    #[trigger] rem[b].rel_path@) by {
        let a2 = if a < i {
            a
        } else {
            a + 1
        };
        let b2 = if b < i {
            b
        } else {
            b + 1
        };
        assert(rem[a] == files[a2]);
        assert(rem[b] == files[b2]);
    }
    assert forall|k: int| 0 <= k < rem.len() implies (#[trigger] rem[k]) == (if k < i {
        files[k]
    } else {
        files[k + 1]
    }) by {}
    assert forall|k: int| 0 <= k < rem.len() implies (#[trigger] rem[k].rel_path@) != path by {
        let k2 = if k < i {
            k
        } else {
            k + 1
        };
        assert(rem[k] == files[k2]);
    }
    lemma_find_file_none(rem, path);
    assert forall|q: Seq<char>| q != path implies #[trigger] find_file(rem, q) == find_file(
        files,
        q,
    ) by {
        if find_file(files, q) is Some {
            lemma_find_file_some(files, q);
            let k = choose|k: int|
                0 <= k < files.len() && (#[trigger] files[k].rel_path@) == q && files[k].data@
                    == find_file(files, q)->Some_0;
            assert(k != i);
            let k2 = if k < i {
                k
            } else {
                k - 1
            };
            assert(rem[k2] == files[k]);
            lemma_find_file_at(rem, k2);
            lemma_find_file_at(files, k);
        } else {
            assert forall|k: int| 0 <= k < rem.len() implies (#[trigger] rem[k].rel_path@)
                != q by {
                let k2 = if k < i {
                    k
                } else {
                    k + 1
                };
                assert(rem[k] == files[k2]);
                if files[k2].rel_path@ == q {
                    lemma_find_file_at(files, k2);
                }
            }
            lemma_find_file_none(rem, q);
        }
    }
}

/// A successful lookup comes from some position.
pub proof fn lemma_find_file_some(files: Seq<StoredFile>, path: Seq<char>)
    requires
        find_file(files, path) is Some,
    ensures
        exists|i: int|
            0 <= i < files.len() && (#[trigger] files[i].rel_path@) == path && files[i].data@
                == find_file(files, path)->Some_0,
    decreases files.len(),
{
    if files[0].rel_path@ == path {
        assert(files[0].rel_path@ == path && files[0].data@ == find_file(files, path)->Some_0);
    } else {
        lemma_find_file_some(files.drop_first(), path);
        let i = choose|i: int|
            0 <= i < files.drop_first().len() && (#[trigger] files.drop_first()[i].rel_path@)
                == path && files.drop_first()[i].data@ == find_file(files.drop_first(), path)->Some_0;
        assert(files[i + 1] == files.drop_first()[i]);
        assert(files[i + 1].rel_path@ == path && files[i + 1].data@ == find_file(
            files,
            path,
        )->Some_0);
    }
}

/// One pruning step extends the kept list correctly.
proof fn lemma_prune_step(
    pre: Seq<String>,
    post: Seq<String>,
    old_dirs: Seq<String>,
    files: Seq<StoredFile>,
    i: int,
    keep: bool,
)
    requires
        0 <= i < old_dirs.len(),
        keep == dir_nonempty(files, old_dirs[i]@),
        keep ==> post == pre.push(post.last()) && post.last()@ == old_dirs[i]@,
        !keep ==> post == pre,
        forall|d: Seq<char>|
            #[trigger] dirs_has(pre, d) <==> exists|k: int|
                0 <= k < i && (#[trigger] old_dirs[k]@) == d && dir_nonempty(files, d),
    ensures
        forall|d: Seq<char>|
            #[trigger] dirs_has(post, d) <==> exists|k: int|
                0 <= k < i + 1 && (#[trigger] old_dirs[k]@) == d && dir_nonempty(files, d),
{
    assert forall|d: Seq<char>| #[trigger] dirs_has(post, d) implies exists|k: int|
        0 <= k < i + 1 && (#[trigger] old_dirs[k]@) == d && dir_nonempty(files, d) by {
        let m = choose|m: int| 0 <= m < post.len() && (#[trigger] post[m]@) == d;
        if keep && m == post.len() - 1 {
            assert(old_dirs[i]@ == d && dir_nonempty(files, d));
        } else {
            assert(pre[m]@ == d);
            assert(dirs_has(pre, d));
            let k = choose|k: int|
                0 <= k < i && (#[trigger] old_dirs[k]@) == d && dir_nonempty(files, d);
            assert(0 <= k < i + 1 && old_dirs[k]@ == d && dir_nonempty(files, d));
        }
    }
    assert forall|d: Seq<char>|
        (exists|k: int|
            0 <= k < i + 1 && (#[trigger] old_dirs[k]@) == d && dir_nonempty(
                files,
                d,
            )) implies #[trigger] dirs_has(post, d) by {
        let k = choose|k: int|
            0 <= k < i + 1 && (#[trigger] old_dirs[k]@) == d && dir_nonempty(files, d);
        if k == i {
            assert(keep);
            assert(post[post.len() - 1]@ == d);
        } else {
            assert(dirs_has(pre, d));
            let m = choose|m: int| 0 <= m < pre.len() && (#[trigger] pre[m]@) == d;
            assert(post[m]@ == d);
        }
    }
}

/// After a store, the two shard directories of the stored file have a file
/// under them, so the no-empty-directory invariant holds.
proof fn lemma_dirs_nonempty_after_store(
    files: Seq<StoredFile>,
    dirs: Seq<String>,
    id: Seq<u8>,
    path: Seq<char>,
)
    requires
        id.len() == 16,
        path == shard_rel_path_chars(id),
        find_file(files, path) is Some,
    ensures
        dir_covers(shard_dir1_chars(id), path),
        dir_covers(shard_dir2_chars(id), path),
        dir_nonempty(files, shard_dir1_chars(id)),
        dir_nonempty(files, shard_dir2_chars(id)),
{
    assert(dir_covers(shard_dir1_chars(id), path)) by {
        assert(path.take(2) =~= shard_dir1_chars(id));
        assert(path[2] == '/');
    }
    assert(dir_covers(shard_dir2_chars(id), path)) by {
        assert(path.take(5) =~= shard_dir2_chars(id));
        assert(path[5] == '/');
    }
    lemma_find_file_some(files, path);
    let i = choose|i: int|
        0 <= i < files.len() && (#[trigger] files[i].rel_path@) == path && files[i].data@
            == find_file(files, path)->Some_0;
    assert(dir_covers(shard_dir1_chars(id), files[i].rel_path@));
    assert(dir_covers(shard_dir2_chars(id), files[i].rel_path@));
}

/// Storage statistics: how many blobs the store holds and their total size.
#[derive(Debug)]
pub struct StorageStats {
    /// The number of stored blobs with the store's extension.
    pub total_files: u64,
    /// Their sizes summed, in bytes.
    pub total_size: u64,
}


/// Whether a path carries the store's `.enc` extension.
pub open spec fn spec_is_enc_path(p: Seq<char>) -> bool {
    crate::util::seq_ends_with(p, ".enc"@)
}

/// How many of the first `k` stored files carry the store's extension.
pub open spec fn spec_enc_count(files: Seq<StoredFile>, k: int) -> int
    decreases k,
{
    if k <= 0 {
        0
    } else {
        spec_enc_count(files, k - 1) + (if spec_is_enc_path(files[k - 1].rel_path@) {
            1int
        } else {
            0int
        })
    }
}

/// The sizes of those files, summed.
pub open spec fn spec_enc_size(files: Seq<StoredFile>, k: int) -> int
    decreases k,
{
    if k <= 0 {
        0
    } else {
        spec_enc_size(files, k - 1) + (if spec_is_enc_path(files[k - 1].rel_path@) {
            files[k - 1].data@.len() as int
        } else {
            0int
        })
    }
}

/// The counted prefix never exceeds its length, and the summed sizes stay
/// under `k` times the largest possible blob.
proof fn lemma_stats_bounds(files: Seq<StoredFile>, k: int)
    requires
        0 <= k <= files.len(),
    ensures
        0 <= spec_enc_count(files, k) <= k,
        0 <= spec_enc_size(files, k) <= k * 0xffffffffffffffff,
    decreases k,
{
    if k > 0 {
        lemma_stats_bounds(files, k - 1);
        assert(files[k - 1].data@.len() <= 0xffffffffffffffff) by {
            vstd::std_specs::vec::axiom_spec_len(&files[k - 1].data);
        }
        assert(k * 0xffffffffffffffff == (k - 1) * 0xffffffffffffffff + 0xffffffffffffffff)
            by (nonlinear_arith);
    }
}

impl FileStorage {
    /// Storage statistics for operational visibility: a walk over the store
    /// counting blobs with the store's extension and summing their sizes
    /// (saturating at the counter's capacity).
    pub fn get_stats(&self) -> (r: StorageStats)
        requires
            self.wf(),
        ensures
            r.total_files == spec_enc_count(self.files@, self.files@.len() as int),
            r.total_size == (if spec_enc_size(self.files@, self.files@.len() as int)
                <= u64::MAX {
                spec_enc_size(self.files@, self.files@.len() as int)
            } else {
                u64::MAX as int
            }),
    {
        let pat = crate::util::chars_of(".enc");
        let mut total_files: u64 = 0;
        let mut total_size: u128 = 0;
        let mut i: usize = 0;
        while i < self.files.len()
            invariant
                self.wf(),
                i <= self.files@.len(),
                pat@ == ".enc"@,
                total_files == spec_enc_count(self.files@, i as int),
                total_size == spec_enc_size(self.files@, i as int),
            decreases self.files@.len() - i,
        {
            proof {
                lemma_stats_bounds(self.files@, i as int);
                lemma_stats_bounds(self.files@, i + 1);
                assert((i + 1) * 0xffffffffffffffff <= self.files@.len() * 0xffffffffffffffff)
                    by (nonlinear_arith)
                    requires
                        i + 1 <= self.files@.len(),
                ;
                assert(self.files@.len() * 0xffffffffffffffff < 0xffffffffffffffffffffffffffffffff)
                    by (nonlinear_arith)
                    requires
                        self.files@.len() <= 0xffffffffffffffff,
                ;
                vstd::std_specs::vec::axiom_spec_len(&self.files);
            }
            let v = crate::util::chars_of(self.files[i].rel_path.as_str());
            if crate::util::chars_end_with(&v, &pat) {
                total_files = total_files + 1;
                total_size = total_size + (self.files[i].data.len() as u128);
            }
            i += 1;
        }
        let size64: u64 = if total_size > u64::MAX as u128 {
            u64::MAX
        } else {
            total_size as u64
        };
        StorageStats { total_files, total_size: size64 }
    }
}

} // verus!
