//! The metadata store model: sessions and file records looked up by their
//! identifiers, with the atomic conditional updates the engine relies on.

use vstd::prelude::*;
use crate::error::AppError;
use crate::ids::Uid;
use crate::record::FileRecord;
use crate::session::UploadSession;

verus! {

/// Whether a sequence of sessions holds each identifier at most once.
pub open spec fn sessions_unique(s: Seq<UploadSession>) -> bool {
    forall|i: int, j: int|
        0 <= i < j < s.len() ==> (#[trigger] s[i].upload_id@) != (#[trigger] s[j].upload_id@)
}

/// The session with identifier `id`, if any (first match).
pub open spec fn find_session(s: Seq<UploadSession>, id: Seq<u8>) -> Option<UploadSession>
    decreases s.len(),
{
    if s.len() == 0 {
        None
    } else if s[0].upload_id@ == id {
        Some(s[0])
    } else {
        find_session(s.drop_first(), id)
    }
}

/// Under uniqueness, the session at position `i` is what lookup finds.
pub proof fn lemma_find_session_at(s: Seq<UploadSession>, i: int)
    requires
        sessions_unique(s),
        0 <= i < s.len(),
    ensures
        find_session(s, s[i].upload_id@) == Some(s[i]),
    decreases s.len(),
{
    if i == 0 {
    } else {
        assert(s[0].upload_id@ != s[i].upload_id@);
        assert(sessions_unique(s.drop_first())) by {
            assert forall|a: int, b: int|
                0 <= a < b < s.drop_first().len() implies (
                #[trigger] s.drop_first()[a].upload_id@) != (
                #[trigger] s.drop_first()[b].upload_id@) by {
                assert(s.drop_first()[a] == s[a + 1]);
                assert(s.drop_first()[b] == s[b + 1]);
            }
        }
        lemma_find_session_at(s.drop_first(), i - 1);
        assert(s.drop_first()[i - 1] == s[i]);
    }
}

/// If no session has identifier `id`, lookup finds nothing.
pub proof fn lemma_find_session_none(s: Seq<UploadSession>, id: Seq<u8>)
    requires
        forall|i: int| 0 <= i < s.len() ==> (#[trigger] s[i].upload_id@) != id,
    ensures
        find_session(s, id) is None,
    decreases s.len(),
{
    if s.len() > 0 {
        assert forall|i: int|
            0 <= i < s.drop_first().len() implies (#[trigger] s.drop_first()[i].upload_id@)
            != id by {
            assert(s.drop_first()[i] == s[i + 1]);
        }
        lemma_find_session_none(s.drop_first(), id);
    }
}

/// The in-memory session store: one session per in-flight chunked upload.
pub struct SessionStore {
    /// The sessions, each identifier held at most once.
    pub sessions: Vec<UploadSession>,
}

impl SessionStore {
    /// The store's invariant.
    pub open spec fn wf(self) -> bool {
        &&& sessions_unique(self.sessions@)
        &&& forall|i: int| 0 <= i < self.sessions@.len() ==> (#[trigger] self.sessions@[i]).wf()
    }

    /// A session lookup at the specification level.
    pub open spec fn spec_get(self, id: Seq<u8>) -> Option<UploadSession> {
        find_session(self.sessions@, id)
    }

    /// Creates an empty session store.
    pub fn new() -> (r: SessionStore)
        ensures
            r.wf(),
            r.sessions@.len() == 0,
            forall|id: Seq<u8>| r.spec_get(id) is None,
    {
        proof {
            assert(forall|id: Seq<u8>| find_session(Seq::<UploadSession>::empty(), id) is None);
        }
        SessionStore { sessions: Vec::new() }
    }

    /// Locates the position of the session with identifier `id`, if any.
    fn position(&self, id: &Uid) -> (r: Option<usize>)
        requires
            self.wf(),
        ensures
            match r {
                Some(i) => i < self.sessions@.len() && self.sessions@[i as int].upload_id@ == id@
                    && self.spec_get(id@) == Some(self.sessions@[i as int]),
                None => self.spec_get(id@) is None,
            },
    {
        let mut i: usize = 0;
        while i < self.sessions.len()
            invariant
                self.wf(),
                i <= self.sessions@.len(),
                forall|j: int| 0 <= j < i ==> (#[trigger] self.sessions@[j].upload_id@) != id@,
            decreases self.sessions@.len() - i,
        {
            if self.sessions[i].upload_id.eq_uid(id) {
                proof {
                    lemma_find_session_at(self.sessions@, i as int);
                }
                return Some(i);
            }
            i += 1;
        }
        proof {
            lemma_find_session_none(self.sessions@, id@);
        }
        None
    }

    /// Persists a new session.  The identifier must be fresh; every other
    /// identifier's lookup is unchanged.
    pub fn insert(&mut self, s: UploadSession)
        requires
            old(self).wf(),
            s.wf(),
            old(self).spec_get(s.upload_id@) is None,
        ensures
            final(self).wf(),
            final(self).spec_get(s.upload_id@) == Some(s),
            forall|id2: Seq<u8>|
                id2 != s.upload_id@ ==> #[trigger] final(self).spec_get(id2) == old(self).spec_get(
                    id2,
                ),
    {
        let ghost old_s = self.sessions@;
        let ghost snew = s;
        self.sessions.push(s);
        proof {
            assert(self.sessions@ == old_s.push(snew));
            assert(sessions_unique(self.sessions@)) by {
                assert forall|a: int, b: int|
                    0 <= a < b < self.sessions@.len() implies (
                    #[trigger] self.sessions@[a].upload_id@) != (
                    #[trigger] self.sessions@[b].upload_id@) by {
                    if b == self.sessions@.len() - 1 {
                        if self.sessions@[a].upload_id@ == snew.upload_id@ {
                            lemma_find_session_at(old_s, a);
                        }
                    }
                }
            }
            lemma_find_session_at(self.sessions@, self.sessions@.len() - 1);
            assert forall|id2: Seq<u8>| id2 != snew.upload_id@ implies #[trigger] find_session(
                self.sessions@,
                id2,
            ) == find_session(old_s, id2) by {
                lemma_find_session_push_frame_one(old_s, snew, id2);
            }
        }
    }

    /// Reads the session with identifier `id`, if any.
    pub fn get(&self, id: &Uid) -> (r: Option<&UploadSession>)
        requires
            self.wf(),
        ensures
            match r {
                Some(s) => self.spec_get(id@) == Some(*s),
                None => self.spec_get(id@) is None,
            },
    {
        match self.position(id) {
            None => None,
            Some(i) => Some(&self.sessions[i]),
        }
    }

    /// The atomic conditional counter update: increments `uploaded_chunks`
    /// by one exactly if the session exists and is not yet complete, in one
    /// store operation (no read-then-write race), and returns the updated
    /// counter values.
    pub fn increment_uploaded_chunks(&mut self, id: &Uid) -> (r: Result<(u64, u64), AppError>)
        requires
            old(self).wf(),
        ensures
            final(self).wf(),
            old(self).spec_get(id@) is None ==> r == Err::<(u64, u64), AppError>(
                AppError::SessionNotFound,
            ) && *final(self) == *old(self),
            old(self).spec_get(id@) matches Some(s) ==> (if s.uploaded_chunks < s.total_chunks {
                &&& r == Ok::<(u64, u64), AppError>(
                    ((s.uploaded_chunks + 1) as u64, s.total_chunks),
                )
                &&& final(self).spec_get(id@) == Some(
                    UploadSession { uploaded_chunks: (s.uploaded_chunks + 1) as u64, ..s },
                )
                &&& forall|id2: Seq<u8>|
                    id2 != id@ ==> #[trigger] final(self).spec_get(id2) == old(self).spec_get(id2)
            } else {
                r == Err::<(u64, u64), AppError>(AppError::UploadAlreadyComplete) && *final(self)
                    == *old(self)
            }),
    {
        let ghost old_s = self.sessions@;
        match self.position(id) {
            None => Err(AppError::SessionNotFound),
            Some(i) => {
                if self.sessions[i].uploaded_chunks < self.sessions[i].total_chunks {
                    let ghost pre = self.sessions@[i as int];
                    let newcount = self.sessions[i].uploaded_chunks + 1;
                    self.sessions[i].uploaded_chunks = newcount;
                    let total = self.sessions[i].total_chunks;
                    proof {
                        let post = self.sessions@[i as int];
                        assert(post == UploadSession {
                            uploaded_chunks: (pre.uploaded_chunks + 1) as u64,
                            ..pre
                        });
                        assert(self.sessions@ == old_s.update(i as int, post));
                        assert(sessions_unique(self.sessions@)) by {
                            assert forall|a: int, b: int|
                                0 <= a < b < self.sessions@.len() implies (
                                #[trigger] self.sessions@[a].upload_id@) != (
                                #[trigger] self.sessions@[b].upload_id@) by {
                                assert(self.sessions@[a].upload_id@ == old_s[a].upload_id@);
                                assert(self.sessions@[b].upload_id@ == old_s[b].upload_id@);
                            }
                        }
                        lemma_find_session_at(self.sessions@, i as int);
                        assert forall|id2: Seq<u8>| id2 != id@ implies #[trigger] find_session(
                            self.sessions@,
                            id2,
                        ) == find_session(old_s, id2) by {
                            lemma_find_session_update_frame_one(old_s, i as int, post, id2);
                        }
                    }
                    Ok((newcount, total))
                } else {
                    Err(AppError::UploadAlreadyComplete)
                }
            },
        }
    }

    /// Removes the session with identifier `id`, reporting whether one was
    /// there.  Every other identifier's lookup is unchanged.
    pub fn delete(&mut self, id: &Uid) -> (r: bool)
        requires
            old(self).wf(),
        ensures
            final(self).wf(),
            r == (old(self).spec_get(id@) is Some),
            final(self).spec_get(id@) is None,
            forall|id2: Seq<u8>|
                id2 != id@ ==> #[trigger] final(self).spec_get(id2) == old(self).spec_get(id2),
    {
        let ghost old_s = self.sessions@;
        match self.position(id) {
            None => false,
            Some(i) => {
                self.sessions.remove(i);
                proof {
                    lemma_session_remove_frame(old_s, i as int);
                    assert forall|j: int| 0 <= j < self.sessions@.len() implies (
                    #[trigger] self.sessions@[j]).wf() by {
                        if j < i {
                            assert(self.sessions@[j] == old_s[j]);
                        } else {
                            assert(self.sessions@[j] == old_s[j + 1]);
                        }
                    }
                }
                true
            },
        }
    }

    /// Removes and returns every session whose time-to-live has passed at
    /// `now`.  Afterwards an expired identifier finds nothing, an unexpired
    /// session is untouched, and the returned list holds exactly what was
    /// removed.
    pub fn take_expired(&mut self, now: u64) -> (removed: Vec<UploadSession>)
        requires
            old(self).wf(),
        ensures
            final(self).wf(),
            final(self).sessions@.len() + removed@.len() == old(self).sessions@.len(),
            forall|k: int|
                0 <= k < removed@.len() ==> (#[trigger] removed@[k]).wf() && now
                    > removed@[k].expires_at,
            forall|k: int|
                0 <= k < old(self).sessions@.len() && now > (#[trigger] old(
                    self,
                ).sessions@[k]).expires_at ==> final(self).spec_get(old(self).sessions@[k].upload_id@)
                    is None,
            forall|k: int|
                0 <= k < old(self).sessions@.len() && now <= (#[trigger] old(
                    self,
                ).sessions@[k]).expires_at ==> final(self).spec_get(old(self).sessions@[k].upload_id@)
                    == Some(old(self).sessions@[k]),
            forall|k: int|
                0 <= k < old(self).sessions@.len() && now > (#[trigger] old(
                    self,
                ).sessions@[k]).expires_at ==> in_sessions(old(self).sessions@[k], removed@),
            forall|k: int|
                0 <= k < removed@.len() ==> in_sessions(#[trigger] removed@[k], old(self).sessions@),
    {
        let ghost orig = self.sessions@;
        let mut removed: Vec<UploadSession> = Vec::new();
        let mut i: usize = 0;
        proof {
            assert forall|j: int| 0 <= j < self.sessions@.len() implies in_sessions(
                #[trigger] self.sessions@[j],
                orig,
            ) by {
                assert(self.sessions@[j] == orig[j]);
            }
            assert forall|k: int|
                0 <= k < orig.len() && now <= (#[trigger] orig[k]).expires_at implies in_sessions(
                orig[k],
                self.sessions@,
            ) by {
                assert(orig[k] == self.sessions@[k]);
            }
        }
        while i < self.sessions.len()
            invariant
                self.wf(),
                i <= self.sessions@.len(),
                self.sessions@.len() + removed@.len() == orig.len(),
                forall|j: int| 0 <= j < i ==> now <= (#[trigger] self.sessions@[j]).expires_at,
                forall|j: int|
                    0 <= j < self.sessions@.len() ==> in_sessions(
                        #[trigger] self.sessions@[j],
                        orig,
                    ),
                forall|k: int|
                    0 <= k < orig.len() && now <= (#[trigger] orig[k]).expires_at ==> in_sessions(
                        orig[k],
                        self.sessions@,
                    ),
                forall|k: int|
                    0 <= k < removed@.len() ==> (#[trigger] removed@[k]).wf() && now
                        > removed@[k].expires_at && in_sessions(removed@[k], orig),
                forall|k: int|
                    0 <= k < orig.len() && now > (#[trigger] orig[k]).expires_at ==> (in_sessions(
                        orig[k],
                        self.sessions@,
                    ) || in_sessions(orig[k], removed@)),
            decreases self.sessions@.len() - i,
        {
            if now > self.sessions[i].expires_at {
                let ghost cur = self.sessions@;
                let ghost pre_removed = removed@;
                let s = self.sessions.remove(i);
                removed.push(s);
                proof {
                    lemma_session_sweep_step(cur, orig, pre_removed, removed@, i as int, now);
                }
            } else {
                i += 1;
            }
        }
        proof {
            lemma_session_sweep_post(self.sessions@, orig, now);
        }
        removed
    }
}

/// Whether `s` occurs in `seq`.
pub open spec fn in_sessions(s: UploadSession, seq: Seq<UploadSession>) -> bool {
    exists|k: int| 0 <= k < seq.len() && s == #[trigger] seq[k]
}

/// One sweep removal keeps the loop invariant.
proof fn lemma_session_sweep_step(
    cur: Seq<UploadSession>,
    orig: Seq<UploadSession>,
    pre_removed: Seq<UploadSession>,
    post_removed: Seq<UploadSession>,
    i: int,
    now: u64,
)
    requires
        0 <= i < cur.len(),
        sessions_unique(cur),
        forall|j: int| 0 <= j < cur.len() ==> (#[trigger] cur[j]).wf(),
        now > cur[i].expires_at,
        post_removed == pre_removed.push(cur[i]),
        forall|j: int| 0 <= j < i ==> now <= (#[trigger] cur[j]).expires_at,
        forall|j: int| 0 <= j < cur.len() ==> in_sessions(#[trigger] cur[j], orig),
        forall|k: int|
            0 <= k < pre_removed.len() ==> (#[trigger] pre_removed[k]).wf() && now
                > pre_removed[k].expires_at && in_sessions(pre_removed[k], orig),
        forall|k: int|
            0 <= k < orig.len() && now > (#[trigger] orig[k]).expires_at ==> (in_sessions(
                orig[k],
                cur,
            ) || in_sessions(orig[k], pre_removed)),
        forall|k: int|
            0 <= k < orig.len() && now <= (#[trigger] orig[k]).expires_at ==> in_sessions(
                orig[k],
                cur,
            ),
    ensures
        sessions_unique(cur.remove(i)),
        forall|j: int| 0 <= j < cur.remove(i).len() ==> (#[trigger] cur.remove(i)[j]).wf(),
        forall|j: int| 0 <= j < i ==> now <= (#[trigger] cur.remove(i)[j]).expires_at,
        forall|j: int| 0 <= j < cur.remove(i).len() ==> in_sessions(#[trigger] cur.remove(i)[j], orig),
        forall|k: int|
            0 <= k < post_removed.len() ==> (#[trigger] post_removed[k]).wf() && now
                > post_removed[k].expires_at && in_sessions(post_removed[k], orig),
        forall|k: int|
            0 <= k < orig.len() && now > (#[trigger] orig[k]).expires_at ==> (in_sessions(
                orig[k],
                cur.remove(i),
            ) || in_sessions(orig[k], post_removed)),
        forall|k: int|
            0 <= k < orig.len() && now <= (#[trigger] orig[k]).expires_at ==> in_sessions(
                orig[k],
                cur.remove(i),
            ),
{
    let rem = cur.remove(i);
    assert forall|a: int, b: int|
        0 <= a < b < rem.len() implies (#[trigger] rem[a].upload_id@) != (
    #[trigger] rem[b].upload_id@) by {
        let a2 = if a < i {
            a
        } else {
            a + 1
        };
        let b2 = if b < i {
            b
        } else {
            b + 1
        };
        assert(rem[a] == cur[a2]);
        assert(rem[b] == cur[b2]);
    }
    assert forall|j: int| 0 <= j < rem.len() implies (#[trigger] rem[j]).wf() && in_sessions(
        rem[j],
        orig,
    ) by {
        if j < i {
            assert(rem[j] == cur[j]);
        } else {
            assert(rem[j] == cur[j + 1]);
        }
    }
    assert forall|j: int| 0 <= j < i implies now <= (#[trigger] rem[j]).expires_at by {
        assert(rem[j] == cur[j]);
    }
    assert forall|k: int| 0 <= k < post_removed.len() implies (#[trigger] post_removed[k]).wf()
        && now > post_removed[k].expires_at && in_sessions(post_removed[k], orig) by {
        if k < pre_removed.len() {
            assert(post_removed[k] == pre_removed[k]);
        } else {
            assert(post_removed[k] == cur[i]);
            let j0 = choose|j0: int| 0 <= j0 < orig.len() && cur[i] == #[trigger] orig[j0];
        }
    }
    assert forall|k: int|
        0 <= k < orig.len() && now > (#[trigger] orig[k]).expires_at implies (in_sessions(
        orig[k],
        rem,
    ) || in_sessions(orig[k], post_removed)) by {
        if in_sessions(orig[k], cur) {
            let j0 = choose|j0: int| 0 <= j0 < cur.len() && orig[k] == #[trigger] cur[j0];
            if j0 == i {
                assert(post_removed[post_removed.len() - 1] == orig[k]);
            } else if j0 < i {
                assert(rem[j0] == orig[k]);
            } else {
                assert(rem[j0 - 1] == orig[k]);
            }
        } else {
            let m = choose|m: int|
                0 <= m < pre_removed.len() && orig[k] == #[trigger] pre_removed[m];
            assert(post_removed[m] == orig[k]);
        }
    }
    assert forall|k: int|
        0 <= k < orig.len() && now <= (#[trigger] orig[k]).expires_at implies in_sessions(
        orig[k],
        rem,
    ) by {
        let j0 = choose|j0: int| 0 <= j0 < cur.len() && orig[k] == #[trigger] cur[j0];
        assert(j0 != i);
        if j0 < i {
            assert(rem[j0] == orig[k]);
        } else {
            assert(rem[j0 - 1] == orig[k]);
        }
    }
}

/// After the sweep, lookups behave as the sweep promises.
proof fn lemma_session_sweep_post(fin: Seq<UploadSession>, orig: Seq<UploadSession>, now: u64)
    requires
        sessions_unique(fin),
        sessions_unique(orig),
        forall|j: int| 0 <= j < fin.len() ==> now <= (#[trigger] fin[j]).expires_at,
        forall|j: int| 0 <= j < fin.len() ==> in_sessions(#[trigger] fin[j], orig),
        forall|k: int|
            0 <= k < orig.len() && now <= (#[trigger] orig[k]).expires_at ==> in_sessions(
                orig[k],
                fin,
            ),
    ensures
        forall|k: int|
            0 <= k < orig.len() && now > (#[trigger] orig[k]).expires_at ==> find_session(
                fin,
                orig[k].upload_id@,
            ) is None,
        forall|k: int|
            0 <= k < orig.len() && now <= (#[trigger] orig[k]).expires_at ==> find_session(
                fin,
                orig[k].upload_id@,
            ) == Some(orig[k]),
{
    assert forall|k: int|
        0 <= k < orig.len() && now > (#[trigger] orig[k]).expires_at implies find_session(
        fin,
        orig[k].upload_id@,
    ) is None by {
        assert forall|j: int| 0 <= j < fin.len() implies (#[trigger] fin[j].upload_id@)
            != orig[k].upload_id@ by {
            if fin[j].upload_id@ == orig[k].upload_id@ {
                let k2 = choose|k2: int| 0 <= k2 < orig.len() && fin[j] == #[trigger] orig[k2];
                if k2 != k {
                    assert(sessions_unique(orig));
                    assert(false);
                }
                assert(now <= fin[j].expires_at);
                assert(false);
            }
        }
        lemma_find_session_none(fin, orig[k].upload_id@);
    }
    assert forall|k: int|
        0 <= k < orig.len() && now <= (#[trigger] orig[k]).expires_at implies find_session(
        fin,
        orig[k].upload_id@,
    ) == Some(orig[k]) by {
        let j = choose|j: int| 0 <= j < fin.len() && orig[k] == #[trigger] fin[j];
        lemma_find_session_at(fin, j);
    }
}

/// Appending a fresh session leaves every other identifier's lookup
/// unchanged.
proof fn lemma_find_session_push_frame_one(s: Seq<UploadSession>, x: UploadSession, id: Seq<u8>)
    requires
        id != x.upload_id@,
    ensures
        find_session(s.push(x), id) == find_session(s, id),
    decreases s.len(),
{
    if s.len() == 0 {
        assert(s.push(x)[0] == x);
        assert(s.push(x).drop_first() =~= Seq::<UploadSession>::empty());
        assert(find_session(Seq::<UploadSession>::empty(), id) is None);
    } else {
        assert(s.push(x)[0] == s[0]);
        if s[0].upload_id@ == id {
        } else {
            assert(s.push(x).drop_first() =~= s.drop_first().push(x));
            lemma_find_session_push_frame_one(s.drop_first(), x, id);
        }
    }
}

/// Replacing the session at `i` by one with the same identifier leaves every
/// other identifier's lookup unchanged.
proof fn lemma_find_session_update_frame_one(
    s: Seq<UploadSession>,
    i: int,
    x: UploadSession,
    id: Seq<u8>,
)
    requires
        0 <= i < s.len(),
        x.upload_id@ == s[i].upload_id@,
        id != x.upload_id@,
    ensures
        find_session(s.update(i, x), id) == find_session(s, id),
    decreases s.len(),
{
    let updated = s.update(i, x);
    if i == 0 {
        assert(updated[0] == x);
        assert(updated.drop_first() =~= s.drop_first());
    } else {
        assert(updated[0] == s[0]);
        if s[0].upload_id@ == id {
        } else {
            assert(updated.drop_first() =~= s.drop_first().update(i - 1, x));
            lemma_find_session_update_frame_one(s.drop_first(), i - 1, x, id);
        }
    }
}

/// Removing the session at `i` makes its identifier unfindable and leaves
/// every other lookup unchanged.
proof fn lemma_session_remove_frame(s: Seq<UploadSession>, i: int)
    requires
        sessions_unique(s),
        0 <= i < s.len(),
    ensures
        sessions_unique(s.remove(i)),
        find_session(s.remove(i), s[i].upload_id@) is None,
        forall|id: Seq<u8>|
            id != s[i].upload_id@ ==> #[trigger] find_session(s.remove(i), id) == find_session(
                s,
                id,
            ),
{
    let rem = s.remove(i);
    assert forall|a: int, b: int|
        0 <= a < b < rem.len() implies (#[trigger] rem[a].upload_id@) != (
    #[trigger] rem[b].upload_id@) by {
        let a2 = if a < i {
            a
        } else {
            a + 1
        };
        let b2 = if b < i {
            b
        } else {
            b + 1
        };
        assert(rem[a] == s[a2]);
        assert(rem[b] == s[b2]);
    }
    assert forall|j: int| 0 <= j < rem.len() implies (#[trigger] rem[j].upload_id@)
        != s[i].upload_id@ by {
        if j < i {
            assert(rem[j] == s[j]);
        } else {
            assert(rem[j] == s[j + 1]);
        }
    }
    lemma_find_session_none(rem, s[i].upload_id@);
    assert forall|id: Seq<u8>| id != s[i].upload_id@ implies #[trigger] find_session(rem, id)
        == find_session(s, id) by {
        if find_session(s, id) is Some {
            lemma_find_session_some(s, id);
            let k = choose|k: int|
                0 <= k < s.len() && (#[trigger] s[k].upload_id@) == id && s[k] == find_session(
                    s,
                    id,
                )->Some_0;
            assert(k != i);
            let k2 = if k < i {
                k
            } else {
                k - 1
            };
            assert(rem[k2] == s[k]);
            lemma_find_session_at(rem, k2);
            lemma_find_session_at(s, k);
        } else {
            assert forall|j: int| 0 <= j < rem.len() implies (#[trigger] rem[j].upload_id@)
                != id by {
                let j2 = if j < i {
                    j
                } else {
                    j + 1
                };
                assert(rem[j] == s[j2]);
                if s[j2].upload_id@ == id {
                    lemma_find_session_at(s, j2);
                }
            }
            lemma_find_session_none(rem, id);
        }
    }
}

/// A successful lookup comes from some position.
pub proof fn lemma_find_session_some(s: Seq<UploadSession>, id: Seq<u8>)
    requires
        find_session(s, id) is Some,
    ensures
        exists|i: int|
            0 <= i < s.len() && (#[trigger] s[i].upload_id@) == id && s[i] == find_session(
                s,
                id,
            )->Some_0,
    decreases s.len(),
{
    if s[0].upload_id@ == id {
        assert(s[0].upload_id@ == id && s[0] == find_session(s, id)->Some_0);
    } else {
        lemma_find_session_some(s.drop_first(), id);
        let i = choose|i: int|
            0 <= i < s.drop_first().len() && (#[trigger] s.drop_first()[i].upload_id@) == id
                && s.drop_first()[i] == find_session(s.drop_first(), id)->Some_0;
        assert(s[i + 1] == s.drop_first()[i]);
        assert(s[i + 1].upload_id@ == id && s[i + 1] == find_session(s, id)->Some_0);
    }
}


/// Whether a sequence of records holds each file identifier at most once.
pub open spec fn records_unique(s: Seq<FileRecord>) -> bool {
    forall|i: int, j: int|
        0 <= i < j < s.len() ==> (#[trigger] s[i].file_id@) != (#[trigger] s[j].file_id@)
}

/// The record with identifier `id`, if any (first match).
pub open spec fn find_record(s: Seq<FileRecord>, id: Seq<u8>) -> Option<FileRecord>
    decreases s.len(),
{
    if s.len() == 0 {
        None
    } else if s[0].file_id@ == id {
        Some(s[0])
    } else {
        find_record(s.drop_first(), id)
    }
}

/// Under uniqueness, the record at position `i` is what lookup finds.
pub proof fn lemma_find_record_at(s: Seq<FileRecord>, i: int)
    requires
        records_unique(s),
        0 <= i < s.len(),
    ensures
        find_record(s, s[i].file_id@) == Some(s[i]),
    decreases s.len(),
{
    if i == 0 {
    } else {
        assert(s[0].file_id@ != s[i].file_id@);
        assert(records_unique(s.drop_first())) by {
            assert forall|a: int, b: int|
                0 <= a < b < s.drop_first().len() implies (#[trigger] s.drop_first()[a].file_id@)
                != (#[trigger] s.drop_first()[b].file_id@) by {
                assert(s.drop_first()[a] == s[a + 1]);
                assert(s.drop_first()[b] == s[b + 1]);
            }
        }
        lemma_find_record_at(s.drop_first(), i - 1);
        assert(s.drop_first()[i - 1] == s[i]);
    }
}

/// If no record has identifier `id`, lookup finds nothing.
pub proof fn lemma_find_record_none(s: Seq<FileRecord>, id: Seq<u8>)
    requires
        forall|i: int| 0 <= i < s.len() ==> (#[trigger] s[i].file_id@) != id,
    ensures
        find_record(s, id) is None,
    decreases s.len(),
{
    if s.len() > 0 {
        assert forall|i: int|
            0 <= i < s.drop_first().len() implies (#[trigger] s.drop_first()[i].file_id@)
            != id by {
            assert(s.drop_first()[i] == s[i + 1]);
        }
        lemma_find_record_none(s.drop_first(), id);
    }
}

/// A successful lookup comes from some position.
pub proof fn lemma_find_record_some(s: Seq<FileRecord>, id: Seq<u8>)
    requires
        find_record(s, id) is Some,
    ensures
        exists|i: int|
            0 <= i < s.len() && (#[trigger] s[i].file_id@) == id && s[i] == find_record(
                s,
                id,
            )->Some_0,
    decreases s.len(),
{
    if s[0].file_id@ == id {
        assert(s[0].file_id@ == id && s[0] == find_record(s, id)->Some_0);
    } else {
        lemma_find_record_some(s.drop_first(), id);
        let i = choose|i: int|
            0 <= i < s.drop_first().len() && (#[trigger] s.drop_first()[i].file_id@) == id
                && s.drop_first()[i] == find_record(s.drop_first(), id)->Some_0;
        assert(s[i + 1] == s.drop_first()[i]);
        assert(s[i + 1].file_id@ == id && s[i + 1] == find_record(s, id)->Some_0);
    }
}

/// The in-memory record store: one record per completed file.
pub struct RecordStore {
    /// The records, each identifier held at most once.
    pub records: Vec<FileRecord>,
}

impl RecordStore {
    /// The store's invariant.
    pub open spec fn wf(self) -> bool {
        &&& records_unique(self.records@)
        &&& forall|i: int| 0 <= i < self.records@.len() ==> (#[trigger] self.records@[i]).wf()
    }

    /// A record lookup at the specification level.
    pub open spec fn spec_get(self, id: Seq<u8>) -> Option<FileRecord> {
        find_record(self.records@, id)
    }

    /// Creates an empty record store.
    pub fn new() -> (r: RecordStore)
        ensures
            r.wf(),
            r.records@.len() == 0,
            forall|id: Seq<u8>| r.spec_get(id) is None,
    {
        proof {
            assert(forall|id: Seq<u8>| find_record(Seq::<FileRecord>::empty(), id) is None);
        }
        RecordStore { records: Vec::new() }
    }

    /// Locates the position of the record with identifier `id`, if any.
    fn position(&self, id: &Uid) -> (r: Option<usize>)
        requires
            self.wf(),
        ensures
            match r {
                Some(i) => i < self.records@.len() && self.records@[i as int].file_id@ == id@
                    && self.spec_get(id@) == Some(self.records@[i as int]),
                None => self.spec_get(id@) is None,
            },
    {
        let mut i: usize = 0;
        while i < self.records.len()
            invariant
                self.wf(),
                i <= self.records@.len(),
                forall|j: int| 0 <= j < i ==> (#[trigger] self.records@[j].file_id@) != id@,
            decreases self.records@.len() - i,
        {
            if self.records[i].file_id.eq_uid(id) {
                proof {
                    lemma_find_record_at(self.records@, i as int);
                }
                return Some(i);
            }
            i += 1;
        }
        proof {
            lemma_find_record_none(self.records@, id@);
        }
        None
    }

    /// Persists a new record.  The identifier must be fresh; every other
    /// identifier's lookup is unchanged.
    pub fn insert(&mut self, r: FileRecord)
        requires
            old(self).wf(),
            r.wf(),
            old(self).spec_get(r.file_id@) is None,
        ensures
            final(self).wf(),
            final(self).spec_get(r.file_id@) == Some(r),
            forall|id2: Seq<u8>|
                id2 != r.file_id@ ==> #[trigger] final(self).spec_get(id2) == old(self).spec_get(
                    id2,
                ),
    {
        let ghost old_s = self.records@;
        let ghost rnew = r;
        self.records.push(r);
        proof {
            assert(self.records@ == old_s.push(rnew));
            assert(records_unique(self.records@)) by {
                assert forall|a: int, b: int|
                    0 <= a < b < self.records@.len() implies (
                    #[trigger] self.records@[a].file_id@) != (
                    #[trigger] self.records@[b].file_id@) by {
                    if b == self.records@.len() - 1 {
                        if self.records@[a].file_id@ == rnew.file_id@ {
                            lemma_find_record_at(old_s, a);
                        }
                    }
                }
            }
            lemma_find_record_at(self.records@, self.records@.len() - 1);
            assert forall|id2: Seq<u8>| id2 != rnew.file_id@ implies #[trigger] find_record(
                self.records@,
                id2,
            ) == find_record(old_s, id2) by {
                lemma_find_record_push_frame_one(old_s, rnew, id2);
            }
        }
    }

    /// Reads the record with identifier `id`, if any.
    pub fn get(&self, id: &Uid) -> (r: Option<&FileRecord>)
        requires
            self.wf(),
        ensures
            match r {
                Some(rec) => self.spec_get(id@) == Some(*rec),
                None => self.spec_get(id@) is None,
            },
    {
        match self.position(id) {
            None => None,
            Some(i) => Some(&self.records[i]),
        }
    }

    /// The atomic download-counter update: adds one to the record's counter
    /// in one store operation.  A missing record is left to the caller to
    /// have ruled out; here it is a no-op, as in the underlying store.
    pub fn increment_download_count(&mut self, id: &Uid)
        requires
            old(self).wf(),
            old(self).spec_get(id@) matches Some(r) && r.download_count < u64::MAX,
        ensures
            final(self).wf(),
            final(self).spec_get(id@) == Some(
                FileRecord {
                    download_count: (old(self).spec_get(id@)->Some_0.download_count + 1) as u64,
                    ..old(self).spec_get(id@)->Some_0
                },
            ),
            forall|id2: Seq<u8>|
                id2 != id@ ==> #[trigger] final(self).spec_get(id2) == old(self).spec_get(id2),
    {
        let ghost old_s = self.records@;
        match self.position(id) {
            None => {},
            Some(i) => {
                let ghost pre = self.records@[i as int];
                let newcount = self.records[i].download_count + 1;
                self.records[i].download_count = newcount;
                proof {
                    let post = self.records@[i as int];
                    assert(post == FileRecord {
                        download_count: (pre.download_count + 1) as u64,
                        ..pre
                    });
                    assert(self.records@ == old_s.update(i as int, post));
                    assert(records_unique(self.records@)) by {
                        assert forall|a: int, b: int|
                            0 <= a < b < self.records@.len() implies (
                            #[trigger] self.records@[a].file_id@) != (
                            #[trigger] self.records@[b].file_id@) by {
                            assert(self.records@[a].file_id@ == old_s[a].file_id@);
                            assert(self.records@[b].file_id@ == old_s[b].file_id@);
                        }
                    }
                    lemma_find_record_at(self.records@, i as int);
                    assert forall|id2: Seq<u8>| id2 != id@ implies #[trigger] find_record(
                        self.records@,
                        id2,
                    ) == find_record(old_s, id2) by {
                        lemma_find_record_update_frame_one(old_s, i as int, post, id2);
                    }
                }
            },
        }
    }

    /// Removes the record with identifier `id`, reporting whether one was
    /// there.  Every other identifier's lookup is unchanged.
    pub fn delete(&mut self, id: &Uid) -> (r: Option<FileRecord>)
        requires
            old(self).wf(),
        ensures
            final(self).wf(),
            r == old(self).spec_get(id@),
            final(self).spec_get(id@) is None,
            forall|id2: Seq<u8>|
                id2 != id@ ==> #[trigger] final(self).spec_get(id2) == old(self).spec_get(id2),
    {
        let ghost old_s = self.records@;
        match self.position(id) {
            None => None,
            Some(i) => {
                let rec = self.records.remove(i);
                proof {
                    lemma_record_remove_frame(old_s, i as int);
                    assert forall|j: int| 0 <= j < self.records@.len() implies (
                    #[trigger] self.records@[j]).wf() by {
                        if j < i {
                            assert(self.records@[j] == old_s[j]);
                        } else {
                            assert(self.records@[j] == old_s[j + 1]);
                        }
                    }
                }
                Some(rec)
            },
        }
    }

    /// Removes and returns every record whose expiry time has passed at
    /// `now` (records with no expiry time are never swept).
    pub fn take_expired(&mut self, now: u64) -> (removed: Vec<FileRecord>)
        requires
            old(self).wf(),
        ensures
            final(self).wf(),
            final(self).records@.len() + removed@.len() == old(self).records@.len(),
            forall|k: int|
                0 <= k < removed@.len() ==> (#[trigger] removed@[k]).wf()
                    && removed@[k].spec_is_expired(now) && removed@[k].expires_at is Some,
            forall|k: int|
                0 <= k < old(self).records@.len() && (#[trigger] old(
                    self,
                ).records@[k]).spec_is_expired(now) ==> final(self).spec_get(
                    old(self).records@[k].file_id@,
                ) is None,
            forall|k: int|
                0 <= k < old(self).records@.len() && !(#[trigger] old(
                    self,
                ).records@[k]).spec_is_expired(now) ==> final(self).spec_get(
                    old(self).records@[k].file_id@,
                ) == Some(old(self).records@[k]),
            forall|k: int|
                0 <= k < old(self).records@.len() && (#[trigger] old(
                    self,
                ).records@[k]).spec_is_expired(now) ==> in_records(
                    old(self).records@[k],
                    removed@,
                ),
            forall|k: int|
                0 <= k < removed@.len() ==> in_records(#[trigger] removed@[k], old(self).records@),
    {
        let ghost orig = self.records@;
        let mut removed: Vec<FileRecord> = Vec::new();
        let mut i: usize = 0;
        proof {
            assert forall|j: int| 0 <= j < self.records@.len() implies in_records(
                #[trigger] self.records@[j],
                orig,
            ) by {
                assert(self.records@[j] == orig[j]);
            }
            assert forall|k: int|
                0 <= k < orig.len() && !(#[trigger] orig[k]).spec_is_expired(now) implies in_records(
                orig[k],
                self.records@,
            ) by {
                assert(orig[k] == self.records@[k]);
            }
        }
        while i < self.records.len()
            invariant
                self.wf(),
                i <= self.records@.len(),
                self.records@.len() + removed@.len() == orig.len(),
                forall|j: int| 0 <= j < i ==> !(#[trigger] self.records@[j]).spec_is_expired(now),
                forall|j: int|
                    0 <= j < self.records@.len() ==> in_records(#[trigger] self.records@[j], orig),
                forall|k: int|
                    0 <= k < orig.len() && !(#[trigger] orig[k]).spec_is_expired(now)
                        ==> in_records(orig[k], self.records@),
                forall|k: int|
                    0 <= k < removed@.len() ==> (#[trigger] removed@[k]).wf()
                        && removed@[k].spec_is_expired(now) && removed@[k].expires_at is Some
                        && in_records(removed@[k], orig),
                forall|k: int|
                    0 <= k < orig.len() && (#[trigger] orig[k]).spec_is_expired(now) ==> (
                    in_records(orig[k], self.records@) || in_records(orig[k], removed@)),
            decreases self.records@.len() - i,
        {
            let expired = self.records[i].is_expired(now);
            if expired {
                let ghost cur = self.records@;
                let ghost pre_removed = removed@;
                let rec = self.records.remove(i);
                removed.push(rec);
                proof {
                    lemma_record_sweep_step(cur, orig, pre_removed, removed@, i as int, now);
                }
            } else {
                i += 1;
            }
        }
        proof {
            lemma_record_sweep_post(self.records@, orig, now);
        }
        removed
    }
}

/// Whether `r` occurs in `seq`.
pub open spec fn in_records(r: FileRecord, seq: Seq<FileRecord>) -> bool {
    exists|k: int| 0 <= k < seq.len() && r == #[trigger] seq[k]
}

/// One sweep removal keeps the loop invariant.
proof fn lemma_record_sweep_step(
    cur: Seq<FileRecord>,
    orig: Seq<FileRecord>,
    pre_removed: Seq<FileRecord>,
    post_removed: Seq<FileRecord>,
    i: int,
    now: u64,
)
    requires
        0 <= i < cur.len(),
        records_unique(cur),
        forall|j: int| 0 <= j < cur.len() ==> (#[trigger] cur[j]).wf(),
        cur[i].spec_is_expired(now),
        post_removed == pre_removed.push(cur[i]),
        forall|j: int| 0 <= j < i ==> !(#[trigger] cur[j]).spec_is_expired(now),
        forall|j: int| 0 <= j < cur.len() ==> in_records(#[trigger] cur[j], orig),
        forall|k: int|
            0 <= k < pre_removed.len() ==> (#[trigger] pre_removed[k]).wf()
                && pre_removed[k].spec_is_expired(now) && pre_removed[k].expires_at is Some
                && in_records(pre_removed[k], orig),
        forall|k: int|
            0 <= k < orig.len() && (#[trigger] orig[k]).spec_is_expired(now) ==> (in_records(
                orig[k],
                cur,
            ) || in_records(orig[k], pre_removed)),
        forall|k: int|
            0 <= k < orig.len() && !(#[trigger] orig[k]).spec_is_expired(now) ==> in_records(
                orig[k],
                cur,
            ),
    ensures
        records_unique(cur.remove(i)),
        forall|j: int| 0 <= j < cur.remove(i).len() ==> (#[trigger] cur.remove(i)[j]).wf(),
        forall|j: int| 0 <= j < i ==> !(#[trigger] cur.remove(i)[j]).spec_is_expired(now),
        forall|j: int| 0 <= j < cur.remove(i).len() ==> in_records(#[trigger] cur.remove(i)[j], orig),
        forall|k: int|
            0 <= k < post_removed.len() ==> (#[trigger] post_removed[k]).wf()
                && post_removed[k].spec_is_expired(now) && post_removed[k].expires_at is Some
                && in_records(post_removed[k], orig),
        forall|k: int|
            0 <= k < orig.len() && (#[trigger] orig[k]).spec_is_expired(now) ==> (in_records(
                orig[k],
                cur.remove(i),
            ) || in_records(orig[k], post_removed)),
        forall|k: int|
            0 <= k < orig.len() && !(#[trigger] orig[k]).spec_is_expired(now) ==> in_records(
                orig[k],
                cur.remove(i),
            ),
{
    let rem = cur.remove(i);
    assert forall|a: int, b: int|
        0 <= a < b < rem.len() implies (#[trigger] rem[a].file_id@) != (
    #[trigger] rem[b].file_id@) by {
        let a2 = if a < i {
            a
        } else {
            a + 1
        };
        let b2 = if b < i {
            b
        } else {
            b + 1
        };
        assert(rem[a] == cur[a2]);
        assert(rem[b] == cur[b2]);
    }
    assert forall|j: int| 0 <= j < rem.len() implies (#[trigger] rem[j]).wf() && in_records(
        rem[j],
        orig,
    ) by {
        if j < i {
            assert(rem[j] == cur[j]);
        } else {
            assert(rem[j] == cur[j + 1]);
        }
    }
    assert forall|j: int| 0 <= j < i implies !(#[trigger] rem[j]).spec_is_expired(now) by {
        assert(rem[j] == cur[j]);
    }
    assert forall|k: int| 0 <= k < post_removed.len() implies (#[trigger] post_removed[k]).wf()
        && post_removed[k].spec_is_expired(now) && post_removed[k].expires_at is Some && in_records(
        post_removed[k],
        orig,
    ) by {
        if k < pre_removed.len() {
            assert(post_removed[k] == pre_removed[k]);
        } else {
            assert(post_removed[k] == cur[i]);
            let j0 = choose|j0: int| 0 <= j0 < orig.len() && cur[i] == #[trigger] orig[j0];
        }
    }
    assert forall|k: int|
        0 <= k < orig.len() && (#[trigger] orig[k]).spec_is_expired(now) implies (in_records(
        orig[k],
        rem,
    ) || in_records(orig[k], post_removed)) by {
        if in_records(orig[k], cur) {
            let j0 = choose|j0: int| 0 <= j0 < cur.len() && orig[k] == #[trigger] cur[j0];
            if j0 == i {
                assert(post_removed[post_removed.len() - 1] == orig[k]);
            } else if j0 < i {
                assert(rem[j0] == orig[k]);
            } else {
                assert(rem[j0 - 1] == orig[k]);
            }
        } else {
            let m = choose|m: int|
                0 <= m < pre_removed.len() && orig[k] == #[trigger] pre_removed[m];
            assert(post_removed[m] == orig[k]);
        }
    }
    assert forall|k: int|
        0 <= k < orig.len() && !(#[trigger] orig[k]).spec_is_expired(now) implies in_records(
        orig[k],
        rem,
    ) by {
        let j0 = choose|j0: int| 0 <= j0 < cur.len() && orig[k] == #[trigger] cur[j0];
        assert(j0 != i);
        if j0 < i {
            assert(rem[j0] == orig[k]);
        } else {
            assert(rem[j0 - 1] == orig[k]);
        }
    }
}

/// After the sweep, lookups behave as the sweep promises.
proof fn lemma_record_sweep_post(fin: Seq<FileRecord>, orig: Seq<FileRecord>, now: u64)
    requires
        records_unique(fin),
        records_unique(orig),
        forall|j: int| 0 <= j < fin.len() ==> !(#[trigger] fin[j]).spec_is_expired(now),
        forall|j: int| 0 <= j < fin.len() ==> in_records(#[trigger] fin[j], orig),
        forall|k: int|
            0 <= k < orig.len() && !(#[trigger] orig[k]).spec_is_expired(now) ==> in_records(
                orig[k],
                fin,
            ),
    ensures
        forall|k: int|
            0 <= k < orig.len() && (#[trigger] orig[k]).spec_is_expired(now) ==> find_record(
                fin,
                orig[k].file_id@,
            ) is None,
        forall|k: int|
            0 <= k < orig.len() && !(#[trigger] orig[k]).spec_is_expired(now) ==> find_record(
                fin,
                orig[k].file_id@,
            ) == Some(orig[k]),
{
    assert forall|k: int|
        0 <= k < orig.len() && (#[trigger] orig[k]).spec_is_expired(now) implies find_record(
        fin,
        orig[k].file_id@,
    ) is None by {
        assert forall|j: int| 0 <= j < fin.len() implies (#[trigger] fin[j].file_id@)
            != orig[k].file_id@ by {
            if fin[j].file_id@ == orig[k].file_id@ {
                let k2 = choose|k2: int| 0 <= k2 < orig.len() && fin[j] == #[trigger] orig[k2];
                if k2 != k {
                    assert(records_unique(orig));
                    assert(false);
                }
                assert(!fin[j].spec_is_expired(now));
                assert(false);
            }
        }
        lemma_find_record_none(fin, orig[k].file_id@);
    }
    assert forall|k: int|
        0 <= k < orig.len() && !(#[trigger] orig[k]).spec_is_expired(now) implies find_record(
        fin,
        orig[k].file_id@,
    ) == Some(orig[k]) by {
        let j = choose|j: int| 0 <= j < fin.len() && orig[k] == #[trigger] fin[j];
        lemma_find_record_at(fin, j);
    }
}

/// Appending a fresh record leaves every other identifier's lookup
/// unchanged.
proof fn lemma_find_record_push_frame_one(s: Seq<FileRecord>, x: FileRecord, id: Seq<u8>)
    requires
        id != x.file_id@,
    ensures
        find_record(s.push(x), id) == find_record(s, id),
    decreases s.len(),
{
    if s.len() == 0 {
        assert(s.push(x)[0] == x);
        assert(s.push(x).drop_first() =~= Seq::<FileRecord>::empty());
        assert(find_record(Seq::<FileRecord>::empty(), id) is None);
    } else {
        assert(s.push(x)[0] == s[0]);
        if s[0].file_id@ == id {
        } else {
            assert(s.push(x).drop_first() =~= s.drop_first().push(x));
            lemma_find_record_push_frame_one(s.drop_first(), x, id);
        }
    }
}

/// Replacing the record at `i` by one with the same identifier leaves every
/// other identifier's lookup unchanged.
proof fn lemma_find_record_update_frame_one(s: Seq<FileRecord>, i: int, x: FileRecord, id: Seq<u8>)
    requires
        0 <= i < s.len(),
        x.file_id@ == s[i].file_id@,
        id != x.file_id@,
    ensures
        find_record(s.update(i, x), id) == find_record(s, id),
    decreases s.len(),
{
    let updated = s.update(i, x);
    if i == 0 {
        assert(updated[0] == x);
        assert(updated.drop_first() =~= s.drop_first());
    } else {
        assert(updated[0] == s[0]);
        if s[0].file_id@ == id {
        } else {
            assert(updated.drop_first() =~= s.drop_first().update(i - 1, x));
            lemma_find_record_update_frame_one(s.drop_first(), i - 1, x, id);
        }
    }
}

/// Removing the record at `i` makes its identifier unfindable and leaves
/// every other lookup unchanged.
proof fn lemma_record_remove_frame(s: Seq<FileRecord>, i: int)
    requires
        records_unique(s),
        0 <= i < s.len(),
    ensures
        records_unique(s.remove(i)),
        find_record(s.remove(i), s[i].file_id@) is None,
        forall|id: Seq<u8>|
            id != s[i].file_id@ ==> #[trigger] find_record(s.remove(i), id) == find_record(s, id),
{
    let rem = s.remove(i);
    assert forall|a: int, b: int|
        0 <= a < b < rem.len() implies (#[trigger] rem[a].file_id@) != (
    #[trigger] rem[b].file_id@) by {
        let a2 = if a < i {
            a
        } else {
            a + 1
        };
        let b2 = if b < i {
            b
        } else {
            b + 1
        };
        assert(rem[a] == s[a2]);
        assert(rem[b] == s[b2]);
    }
    assert forall|j: int| 0 <= j < rem.len() implies (#[trigger] rem[j].file_id@)
        != s[i].file_id@ by {
        if j < i {
            assert(rem[j] == s[j]);
        } else {
            assert(rem[j] == s[j + 1]);
        }
    }
    lemma_find_record_none(rem, s[i].file_id@);
    assert forall|id: Seq<u8>| id != s[i].file_id@ implies #[trigger] find_record(rem, id)
        == find_record(s, id) by {
        if find_record(s, id) is Some {
            lemma_find_record_some(s, id);
            let k = choose|k: int|
                0 <= k < s.len() && (#[trigger] s[k].file_id@) == id && s[k] == find_record(
                    s,
                    id,
                )->Some_0;
            assert(k != i);
            let k2 = if k < i {
                k
            } else {
                k - 1
            };
            assert(rem[k2] == s[k]);
            lemma_find_record_at(rem, k2);
            lemma_find_record_at(s, k);
        } else {
            assert forall|j: int| 0 <= j < rem.len() implies (#[trigger] rem[j].file_id@)
                != id by {
                let j2 = if j < i {
                    j
                } else {
                    j + 1
                };
                assert(rem[j] == s[j2]);
                if s[j2].file_id@ == id {
                    lemma_find_record_at(s, j2);
                }
            }
            lemma_find_record_none(rem, id);
        }
    }
}

} // verus!
