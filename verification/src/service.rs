use vstd::prelude::*;

use crate::decode::{classify_content_type, declares_json, ContentType};
use crate::doc::docs_model;
use crate::error::{ApiError, TaskError};
use crate::identity::{pk_opt_model, resolution_ok, resolve_primary_key};
use crate::store::{key_idx, UpdateMethod};
use crate::tasks::{kind_of, IndexHandle, Mutation, Task, TaskStatus};
use crate::value::{bytes_eq, clone_bytes, Document, Value};

verus! {

/// One named index and its pipeline state.
pub struct IndexEntry {
    pub uid: Vec<u8>,
    pub handle: IndexHandle,
}

/// The service front: the named, independently mutable indexes.
pub struct Core {
    pub indexes: Vec<IndexEntry>,
}

/// An index with this identifier exists.
pub open spec fn has_index(s: Seq<IndexEntry>, uid: Seq<u8>) -> bool {
    exists|i: int| 0 <= i < s.len() && (#[trigger] s[i]).uid@ == uid
}

/// The position of the index with this identifier; with distinct
/// identifiers there is at most one.
pub open spec fn the_index_of(s: Seq<IndexEntry>, uid: Seq<u8>) -> int {
    choose|i: int| 0 <= i < s.len() && (#[trigger] s[i]).uid@ == uid
}

/// The primary key the index named `uid` has established on its committed
/// state, if the index exists and has one.
pub open spec fn established_pk(s: Seq<IndexEntry>, uid: Seq<u8>) -> Option<Seq<u8>> {
    if has_index(s, uid) {
        s[the_index_of(s, uid)].handle.store.pk_model()
    } else {
        None
    }
}

/// The handle `after` is `before` with one mutation enqueued at `now` under
/// task id `id`: a new Enqueued task record, the mutation at the back of the
/// queue, and nothing else touched.
pub open spec fn enqueued(
    before: IndexHandle,
    after: IndexHandle,
    m: Mutation,
    now: u64,
    id: u64,
) -> bool {
    &&& id as int == before.tasks@.len()
    &&& after.tasks@ == before.tasks@.push(
        Task {
            id,
            kind: kind_of(m),
            status: TaskStatus::Enqueued,
            enqueued_at: now,
            completed_at: None,
        },
    )
    &&& after.pending@.len() == before.pending@.len() + 1
    &&& after.pending@[after.pending@.len() - 1].id == id
    &&& after.pending@[after.pending@.len() - 1].mutation == m
    &&& forall|i: int| 0 <= i < before.pending@.len() ==> after.pending@[i] == before.pending@[i]
    &&& after.store == before.store
    &&& after.active == before.active
}

/// The entries `after` are `before` with the mutation enqueued on the index
/// named `uid`, which is appended as a fresh index when absent.
pub open spec fn enqueued_on(
    before: Seq<IndexEntry>,
    after: Seq<IndexEntry>,
    uid: Seq<u8>,
    m: Mutation,
    now: u64,
    id: u64,
) -> bool {
    if has_index(before, uid) {
        exists|w: int|
            {
                &&& 0 <= w < before.len()
                &&& (#[trigger] before[w]).uid@ == uid
                &&& after.len() == before.len()
                &&& forall|i: int| 0 <= i < before.len() && i != w ==> after[i] == before[i]
                &&& after[w].uid == before[w].uid
                &&& enqueued(before[w].handle, after[w].handle, m, now, id)
            }
    } else {
        &&& after.len() == before.len() + 1
        &&& forall|i: int| 0 <= i < before.len() ==> after[i] == before[i]
        &&& after[after.len() - 1].uid@ == uid
        &&& id == 0
        &&& enqueued_fresh(after[after.len() - 1].handle, m, now)
    }
}

/// The handle of a lazily created index right after its first mutation was
/// enqueued: one Enqueued task under id 0, the mutation alone in the queue,
/// and an empty committed state without a primary key.
pub open spec fn enqueued_fresh(after: IndexHandle, m: Mutation, now: u64) -> bool {
    &&& after.tasks@ == seq![
        Task {
            id: 0,
            kind: kind_of(m),
            status: TaskStatus::Enqueued,
            enqueued_at: now,
            completed_at: None,
        },
    ]
    &&& after.pending@.len() == 1
    &&& after.pending@[0].id == 0
    &&& after.pending@[0].mutation == m
    &&& after.active is None
    &&& after.store.pk_model() is None
    &&& after.store.doc_seq().len() == 0
}

impl Core {
    /// Invariant: index identifiers are distinct and every index is
    /// well-formed.
    pub open spec fn wf(self) -> bool {
        &&& forall|i: int, j: int|
            0 <= i < j < self.indexes@.len() ==> (#[trigger] self.indexes@[i]).uid@ != (
            #[trigger] self.indexes@[j]).uid@
        &&& forall|i: int| 0 <= i < self.indexes@.len() ==> (#[trigger] self.indexes@[i]).handle.wf()
    }

    /// A service with no indexes yet.
    pub fn new() -> (r: Core)
        ensures
            r.wf(),
            r.indexes@.len() == 0,
    {
        Core { indexes: Vec::new() }
    }

    /// The position of the index with this identifier.
    fn find(&self, uid: &Vec<u8>) -> (r: Option<usize>)
        ensures
            match r {
                Some(w) => (w as int) < self.indexes@.len() && self.indexes@[w as int].uid@
                    == uid@,
                None => !has_index(self.indexes@, uid@),
            },
    {
        let mut i: usize = 0;
        while i < self.indexes.len()
            invariant
                i <= self.indexes.len(),
                forall|j: int| 0 <= j < i as int ==> (#[trigger] self.indexes@[j]).uid@ != uid@,
            decreases self.indexes.len() - i,
        {
            if bytes_eq(&self.indexes[i].uid, uid) {
                return Some(i);
            }
            i = i + 1;
        }
        None
    }
}

impl Core {
    /// Enqueues a mutation on the index named `uid`, creating the index
    /// lazily on first use.
    fn enqueue_on(&mut self, uid: &Vec<u8>, m: Mutation, now: u64) -> (r: u64)
        requires
            old(self).wf(),
            crate::tasks::wf_mutation(m),
            forall|i: int|
                0 <= i < old(self).indexes@.len() && (#[trigger] old(self).indexes@[i]).uid@
                    == uid@ ==> old(self).indexes@[i].handle.tasks@.len() < u64::MAX,
        ensures
            final(self).wf(),
            enqueued_on(old(self).indexes@, final(self).indexes@, uid@, m, now, r),
    {
        match self.find(uid) {
            Some(w) => {
                let ghost pre = self.indexes@;
                let mut e = self.indexes.remove(w);
                let id = e.handle.enqueue(m, now);
                self.indexes.insert(w, e);
                proof {
                    assert forall|i: int| 0 <= i < pre.len() && i != w as int implies self.indexes@[i]
                        == pre[i] by {
                        if i < w as int {
                            assert(self.indexes@[i] == pre.remove(w as int)[i]);
                        } else {
                            assert(self.indexes@[i] == pre.remove(w as int)[i - 1]);
                        }
                    }
                    assert(self.indexes@.len() == pre.len());
                    assert(has_index(pre, uid@));
                }
                id
            },
            None => {
                let mut h = IndexHandle::new();
                let ghost h0 = h;
                let id = h.enqueue(m, now);
                proof {
                    assert(h.tasks@ =~= seq![
                        Task {
                            id: 0,
                            kind: kind_of(m),
                            status: TaskStatus::Enqueued,
                            enqueued_at: now,
                            completed_at: None,
                        },
                    ]);
                    assert(enqueued_fresh(h, m, now));
                }
                let entry = IndexEntry { uid: crate::value::clone_bytes(uid), handle: h };
                self.indexes.push(entry);
                id
            },
        }
    }

    /// Accepts a write request for the index. The declared content type is
    /// checked first: anything but JSON is rejected with no task created. A
    /// malformed payload is rejected next, with no task created and no index
    /// touched. Then identity resolution runs, synchronously, against the
    /// index's established key, the supplied key and the batch: an identity
    /// error is returned at once and no task id is ever handed out for a
    /// batch that cannot succeed. Only a resolvable batch is enqueued, under
    /// its resolved key, and its task id returned.
    pub fn submit_documents(
        &mut self,
        uid: &Vec<u8>,
        content_type: Option<&Vec<u8>>,
        payload: Result<Vec<Document>, usize>,
        method: UpdateMethod,
        explicit_pk: Option<Vec<u8>>,
        now: u64,
    ) -> (r: Result<u64, ApiError>)
        requires
            old(self).wf(),
            payload matches Ok(docs) ==> forall|i: int|
                0 <= i < docs@.len() ==> crate::value::wf_fields(
                    #[trigger] docs_model(docs@)[i],
                ),
            (content_type matches Some(h) && declares_json(h@) && payload is Ok) ==> forall|i: int|
                0 <= i < old(self).indexes@.len() && (#[trigger] old(self).indexes@[i]).uid@
                    == uid@ ==> old(self).indexes@[i].handle.tasks@.len() < u64::MAX,
        ensures
            final(self).wf(),
            match r {
                Err(e) => {
                    &&& *final(self) == *old(self)
                    &&& match e {
                        ApiError::UnsupportedMediaType => !(content_type matches Some(h)
                            && declares_json(h@)),
                        ApiError::MalformedPayload { position } => (content_type matches Some(h)
                            && declares_json(h@)) && payload == Err::<Vec<Document>, usize>(
                            position,
                        ),
                        ApiError::MissingPrimaryKey { doc_index } => {
                            &&& content_type matches Some(h) && declares_json(h@)
                            &&& payload is Ok
                            &&& payload->Ok_0@.len() > 0
                            &&& resolution_ok(
                                established_pk(old(self).indexes@, uid@),
                                pk_opt_model(explicit_pk),
                                docs_model(payload->Ok_0@),
                                Err(TaskError::MissingPrimaryKey { doc_index }),
                            )
                        },
                        ApiError::PrimaryKeyInferenceFailed => {
                            &&& content_type matches Some(h) && declares_json(h@)
                            &&& payload is Ok
                            &&& payload->Ok_0@.len() > 0
                            &&& resolution_ok(
                                established_pk(old(self).indexes@, uid@),
                                pk_opt_model(explicit_pk),
                                docs_model(payload->Ok_0@),
                                Err(TaskError::PrimaryKeyInferenceFailed),
                            )
                        },
                        _ => false,
                    }
                },
                Ok(id) => {
                    &&& content_type matches Some(h) && declares_json(h@)
                    &&& payload is Ok
                    &&& if payload->Ok_0@.len() == 0 {
                        enqueued_on(
                            old(self).indexes@,
                            final(self).indexes@,
                            uid@,
                            Mutation::Add { docs: payload->Ok_0, method, explicit_pk },
                            now,
                            id,
                        )
                    } else {
                        exists|rk: Vec<u8>|
                            {
                                &&& #[trigger] resolution_ok(
                                    established_pk(old(self).indexes@, uid@),
                                    pk_opt_model(explicit_pk),
                                    docs_model(payload->Ok_0@),
                                    Ok(rk@),
                                )
                                &&& enqueued_on(
                                    old(self).indexes@,
                                    final(self).indexes@,
                                    uid@,
                                    Mutation::Add {
                                        docs: payload->Ok_0,
                                        method,
                                        explicit_pk: Some(rk),
                                    },
                                    now,
                                    id,
                                )
                            }
                    }
                },
            },
    {
        match classify_content_type(content_type) {
            ContentType::Json => {},
            ContentType::Unsupported => {
                return Err(ApiError::UnsupportedMediaType);
            },
        }
        let docs = match payload {
            Ok(d) => d,
            Err(position) => {
                return Err(ApiError::MalformedPayload { position });
            },
        };
        if docs.len() == 0 {
            let m = Mutation::Add { docs, method, explicit_pk };
            return Ok(self.enqueue_on(uid, m, now));
        }
        let established: Option<Vec<u8>> = match self.find(uid) {
            Some(w) => {
                proof {
                    let ci = the_index_of(self.indexes@, uid@);
                    assert(0 <= ci < self.indexes@.len() && self.indexes@[ci].uid@ == uid@);
                    if ci != w as int {
                        assert(false);
                    }
                }
                match &self.indexes[w].handle.store.primary_key {
                    Some(k) => Some(clone_bytes(k)),
                    None => None,
                }
            },
            None => None,
        };
        proof {
            assert(pk_opt_model(established) == established_pk(self.indexes@, uid@));
        }
        let est_ref: Option<&Vec<u8>> = match &established {
            Some(k) => Some(k),
            None => None,
        };
        let exp_ref: Option<&Vec<u8>> = match &explicit_pk {
            Some(k) => Some(k),
            None => None,
        };
        match resolve_primary_key(est_ref, exp_ref, &docs) {
            Ok(pk) => {
                let ghost rk = pk;
                let m = Mutation::Add { docs, method, explicit_pk: Some(pk) };
                Ok(self.enqueue_on(uid, m, now))
            },
            Err(TaskError::MissingPrimaryKey { doc_index }) => {
                Err(ApiError::MissingPrimaryKey { doc_index })
            },
            Err(TaskError::PrimaryKeyInferenceFailed) => Err(ApiError::PrimaryKeyInferenceFailed),
            Err(_) => {
                proof {
                    assert(false);
                }
                Err(ApiError::PrimaryKeyInferenceFailed)
            },
        }
    }

    /// Accepts a delete-batch request: a malformed id list is rejected with
    /// no task created; unknown ids are accepted (removing them is a no-op).
    pub fn submit_delete_batch(
        &mut self,
        uid: &Vec<u8>,
        payload: Result<Vec<Value>, usize>,
        now: u64,
    ) -> (r: Result<u64, ApiError>)
        requires
            old(self).wf(),
            payload is Ok ==> forall|i: int|
                0 <= i < old(self).indexes@.len() && (#[trigger] old(self).indexes@[i]).uid@
                    == uid@ ==> old(self).indexes@[i].handle.tasks@.len() < u64::MAX,
        ensures
            final(self).wf(),
            match r {
                Err(e) => {
                    &&& *final(self) == *old(self)
                    &&& e matches ApiError::MalformedPayload { position } && payload == Err::<
                        Vec<Value>,
                        usize,
                    >(position)
                },
                Ok(id) => payload is Ok && enqueued_on(
                    old(self).indexes@,
                    final(self).indexes@,
                    uid@,
                    Mutation::Delete { ids: payload->Ok_0 },
                    now,
                    id,
                ),
            },
    {
        let ids = match payload {
            Ok(d) => d,
            Err(position) => {
                return Err(ApiError::MalformedPayload { position });
            },
        };
        Ok(self.enqueue_on(uid, Mutation::Delete { ids }, now))
    }

    /// Accepts a clear request for the index.
    pub fn clear_documents(&mut self, uid: &Vec<u8>, now: u64) -> (r: u64)
        requires
            old(self).wf(),
            forall|i: int|
                0 <= i < old(self).indexes@.len() && (#[trigger] old(self).indexes@[i]).uid@
                    == uid@ ==> old(self).indexes@[i].handle.tasks@.len() < u64::MAX,
        ensures
            final(self).wf(),
            enqueued_on(old(self).indexes@, final(self).indexes@, uid@, Mutation::Clear, now, r),
    {
        self.enqueue_on(uid, Mutation::Clear, now)
    }

    /// Single-document fetch: the document under this key in the index's
    /// last committed state.
    pub fn get_document(&self, uid: &Vec<u8>, id: &Value) -> (r: Result<&Document, ApiError>)
        requires
            self.wf(),
        ensures
            match r {
                Err(ApiError::IndexNotFound) => !has_index(self.indexes@, uid@),
                Err(ApiError::DocumentNotFound) => exists|w: int|
                    0 <= w < self.indexes@.len() && (#[trigger] self.indexes@[w]).uid@ == uid@
                        && match self.indexes@[w].handle.store.pk_model() {
                        Some(k) => key_idx(self.indexes@[w].handle.store.doc_seq(), k, id@) == -1,
                        None => true,
                    },
                Err(_) => false,
                Ok(d) => exists|w: int|
                    0 <= w < self.indexes@.len() && (#[trigger] self.indexes@[w]).uid@ == uid@
                        && (self.indexes@[w].handle.store.pk_model() matches Some(k) && key_idx(
                        self.indexes@[w].handle.store.doc_seq(),
                        k,
                        id@,
                    ) >= 0 && d@ == self.indexes@[w].handle.store.doc_seq()[key_idx(
                        self.indexes@[w].handle.store.doc_seq(),
                        k,
                        id@,
                    )]),
            },
    {
        let w = match self.find(uid) {
            Some(w) => w,
            None => {
                return Err(ApiError::IndexNotFound);
            },
        };
        match self.indexes[w].handle.store.get(id) {
            Some(d) => Ok(d),
            None => Err(ApiError::DocumentNotFound),
        }
    }

    /// Paginated, projection-aware read over the index's last committed
    /// state.
    pub fn list_documents(
        &self,
        uid: &Vec<u8>,
        offset: usize,
        limit: usize,
        attrs: Option<&Vec<Vec<u8>>>,
    ) -> (r: Result<Vec<Document>, ApiError>)
        requires
            self.wf(),
        ensures
            match r {
                Err(ApiError::IndexNotFound) => !has_index(self.indexes@, uid@),
                Err(_) => false,
                Ok(ds) => exists|w: int|
                    0 <= w < self.indexes@.len() && (#[trigger] self.indexes@[w]).uid@ == uid@
                        && crate::doc::docs_model(ds@) == match attrs {
                        None => crate::store::page(
                            self.indexes@[w].handle.store.doc_seq(),
                            offset as int,
                            limit as int,
                        ),
                        Some(a) => crate::store::project_all(
                            crate::store::page(
                                self.indexes@[w].handle.store.doc_seq(),
                                offset as int,
                                limit as int,
                            ),
                            crate::doc::names_model(a@),
                        ),
                    },
            },
    {
        let w = match self.find(uid) {
            Some(w) => w,
            None => {
                return Err(ApiError::IndexNotFound);
            },
        };
        Ok(self.indexes[w].handle.store.list(offset, limit, attrs))
    }

    /// Single-document delete. An unknown index is rejected with
    /// IndexNotFound, a known index without a committed document under this
    /// key with DocumentNotFound; in both cases nothing changes and no task
    /// is created. Exactly when the index holds a document under this key,
    /// a one-id deletion is enqueued and its task handle returned.
    pub fn delete_document(&mut self, uid: &Vec<u8>, id: &Value, now: u64) -> (r: Result<
        u64,
        ApiError,
    >)
        requires
            old(self).wf(),
            forall|i: int|
                0 <= i < old(self).indexes@.len() && (#[trigger] old(self).indexes@[i]).uid@
                    == uid@ && old(self).indexes@[i].handle.store.pk_model() is Some && key_idx(
                    old(self).indexes@[i].handle.store.doc_seq(),
                    old(self).indexes@[i].handle.store.pk_model()->Some_0,
                    id@,
                ) >= 0 ==> old(self).indexes@[i].handle.tasks@.len() < u64::MAX,
        ensures
            final(self).wf(),
            match r {
                Err(ApiError::IndexNotFound) => *final(self) == *old(self) && !has_index(
                    old(self).indexes@,
                    uid@,
                ),
                Err(ApiError::DocumentNotFound) => *final(self) == *old(self) && exists|w: int|
                    0 <= w < old(self).indexes@.len() && (#[trigger] old(self).indexes@[w]).uid@
                        == uid@ && match old(self).indexes@[w].handle.store.pk_model() {
                        Some(k) => key_idx(
                            old(self).indexes@[w].handle.store.doc_seq(),
                            k,
                            id@,
                        ) == -1,
                        None => true,
                    },
                Err(_) => false,
                Ok(tid) => {
                    &&& exists|w: int|
                        0 <= w < old(self).indexes@.len() && (#[trigger] old(
                            self,
                        ).indexes@[w]).uid@ == uid@ && (old(
                            self,
                        ).indexes@[w].handle.store.pk_model() matches Some(k) && key_idx(
                            old(self).indexes@[w].handle.store.doc_seq(),
                            k,
                            id@,
                        ) >= 0)
                    &&& exists|ids: Vec<Value>|
                        crate::store::ids_model(ids@) =~= seq![id@] && enqueued_on(
                            old(self).indexes@,
                            final(self).indexes@,
                            uid@,
                            Mutation::Delete { ids },
                            now,
                            tid,
                        )
                },
            },
    {
        let w = match self.find(uid) {
            Some(w) => w,
            None => {
                return Err(ApiError::IndexNotFound);
            },
        };
        match self.indexes[w].handle.store.get(id) {
            Some(_) => {},
            None => {
                return Err(ApiError::DocumentNotFound);
            },
        }
        proof {
            assert forall|i: int|
                0 <= i < self.indexes@.len() && (#[trigger] self.indexes@[i]).uid@
                    == uid@ implies self.indexes@[i].handle.tasks@.len() < u64::MAX by {
                if i != w as int {
                    assert(false);
                }
            }
        }
        let mut ids: Vec<Value> = Vec::new();
        ids.push(id.clone());
        proof {
            assert(crate::store::ids_model(ids@) =~= seq![id@]);
        }
        Ok(self.enqueue_on(uid, Mutation::Delete { ids }, now))
    }
}

} // verus!
