use vstd::prelude::*;

use crate::doc::docs_model;
use crate::error::TaskError;
use crate::identity::{pk_opt_model, resolution_ok, resolve_primary_key};
use crate::store::{apply_add_model, ids_model, kept, IndexState, UpdateMethod};
use crate::value::{wf_fields, Document, Value};

verus! {

/// One queued mutation of an index.
pub enum Mutation {
    Add { docs: Vec<Document>, method: UpdateMethod, explicit_pk: Option<Vec<u8>> },
    Delete { ids: Vec<Value> },
    Clear,
}

/// The kind recorded on the task of a mutation.
#[derive(Clone, Copy, Debug, PartialEq, Eq, Structural)]
pub enum MutationKind {
    DocumentAddition,
    DocumentDeletion,
    ClearAll,
}

/// Lifecycle state of a task. The only transitions are
/// Enqueued -> Processing -> Succeeded or Failed; none leaves a terminal
/// state.
#[derive(Clone, Copy, Debug, PartialEq, Eq, Structural)]
pub enum TaskStatus {
    Enqueued,
    Processing,
    Succeeded,
    Failed(TaskError),
}

/// The asynchronous handle and status record for one accepted mutation.
#[derive(Clone, Copy, Debug, PartialEq, Eq, Structural)]
pub struct Task {
    pub id: u64,
    pub kind: MutationKind,
    pub status: TaskStatus,
    pub enqueued_at: u64,
    pub completed_at: Option<u64>,
}

/// A mutation waiting in an index's queue, under its task id.
pub struct PendingMutation {
    pub id: u64,
    pub mutation: Mutation,
}

/// The kind a mutation is recorded under.
pub open spec fn kind_of(m: Mutation) -> MutationKind {
    match m {
        Mutation::Add { .. } => MutationKind::DocumentAddition,
        Mutation::Delete { .. } => MutationKind::DocumentDeletion,
        Mutation::Clear => MutationKind::ClearAll,
    }
}

/// Documents of an addition batch are well-formed.
pub open spec fn wf_mutation(m: Mutation) -> bool {
    match m {
        Mutation::Add { docs, .. } => forall|i: int|
            0 <= i < docs@.len() ==> wf_fields(#[trigger] docs_model(docs@)[i]),
        _ => true,
    }
}

/// One index together with its strictly ordered mutation queue and its task
/// records. Task ids are the positions in `tasks`: they increase
/// monotonically, are never reused, and survive a Clear.
pub struct IndexHandle {
    pub store: IndexState,
    pub pending: Vec<PendingMutation>,
    pub active: Option<PendingMutation>,
    pub tasks: Vec<Task>,
}

impl IndexHandle {
    /// Invariant. Beyond the store's own invariant: task ids equal their
    /// position; queued ids are strictly increasing, so mutations apply in
    /// submission order; a task is Enqueued exactly while its mutation
    /// waits in the queue and Processing exactly while the single worker
    /// holds it; every other task is terminal.
    pub open spec fn wf(self) -> bool {
        &&& self.store.wf()
        &&& forall|i: int|
            0 <= i < self.tasks@.len() ==> (#[trigger] self.tasks@[i]).id == i as u64
        &&& forall|i: int|
            0 <= i < self.pending@.len() ==> (#[trigger] self.pending@[i]).id
                < self.tasks@.len()
        &&& forall|i: int, j: int|
            0 <= i < j < self.pending@.len() ==> (#[trigger] self.pending@[i]).id < (
            #[trigger] self.pending@[j]).id
        &&& forall|i: int|
            0 <= i < self.pending@.len() ==> self.tasks@[(#[trigger] self.pending@[i]).id as int].status
                is Enqueued
        &&& forall|i: int|
            0 <= i < self.pending@.len() ==> wf_mutation((#[trigger] self.pending@[i]).mutation)
        &&& match self.active {
            Some(a) => {
                &&& a.id < self.tasks@.len()
                &&& self.tasks@[a.id as int].status is Processing
                &&& wf_mutation(a.mutation)
                &&& forall|i: int|
                    0 <= i < self.pending@.len() ==> (#[trigger] self.pending@[i]).id > a.id
            },
            None => true,
        }
    }

    /// A fresh index: empty store, empty queue, no tasks yet.
    pub fn new() -> (r: IndexHandle)
        ensures
            r.wf(),
            r.store.pk_model() is None,
            r.store.doc_seq().len() == 0,
            r.pending@.len() == 0,
            r.active is None,
            r.tasks@.len() == 0,
    {
        IndexHandle {
            store: IndexState::new(),
            pending: Vec::new(),
            active: None,
            tasks: Vec::new(),
        }
    }

    /// Accepts a mutation: records a task in state Enqueued under the next
    /// task id and appends the mutation to the queue. Returns the task id at
    /// once; the mutation is applied later by the worker.
    #[verifier::rlimit(30)]
    pub fn enqueue(&mut self, m: Mutation, now: u64) -> (r: u64)
        requires
            old(self).wf(),
            wf_mutation(m),
            old(self).tasks@.len() < u64::MAX,
        ensures
            final(self).wf(),
            r as int == old(self).tasks@.len(),
            final(self).tasks@ == old(self).tasks@.push(
                Task {
                    id: r,
                    kind: kind_of(m),
                    status: TaskStatus::Enqueued,
                    enqueued_at: now,
                    completed_at: None,
                },
            ),
            final(self).pending@.len() == old(self).pending@.len() + 1,
            final(self).pending@[final(self).pending@.len() - 1].id == r,
            final(self).pending@[final(self).pending@.len() - 1].mutation == m,
            forall|i: int|
                0 <= i < old(self).pending@.len() ==> final(self).pending@[i] == old(self).pending@[i],
            final(self).store == old(self).store,
            final(self).active == old(self).active,
    {
        let id = self.tasks.len() as u64;
        let task = Task {
            id,
            kind: match &m {
                Mutation::Add { .. } => MutationKind::DocumentAddition,
                Mutation::Delete { .. } => MutationKind::DocumentDeletion,
                Mutation::Clear => MutationKind::ClearAll,
            },
            status: TaskStatus::Enqueued,
            enqueued_at: now,
            completed_at: None,
        };
        self.tasks.push(task);
        self.pending.push(PendingMutation { id, mutation: m });
        id
    }

    /// The worker takes the front of the queue: the waiting task with the
    /// smallest id moves to Processing and becomes the active mutation.
    /// Nothing happens while another mutation is active or the queue is
    /// empty.
    #[verifier::rlimit(30)]
    pub fn start_next(&mut self) -> (r: Option<u64>)
        requires
            old(self).wf(),
        ensures
            final(self).wf(),
            final(self).store == old(self).store,
            match r {
                Some(id) => {
                    &&& old(self).active is None
                    &&& old(self).pending@.len() > 0
                    &&& id == old(self).pending@[0].id
                    &&& final(self).pending@ == old(self).pending@.drop_first()
                    &&& final(self).active matches Some(a) && a.id == id && a.mutation == old(self).pending@[0].mutation
                    &&& final(self).tasks@.len() == old(self).tasks@.len()
                    &&& final(self).tasks@[id as int].status is Processing
                    &&& forall|i: int|
                        0 <= i < old(self).tasks@.len() && i != id as int ==> final(self).tasks@[i] == old(self).tasks@[i]
                    &&& final(self).tasks@[id as int].id == id
                    &&& final(self).tasks@[id as int].kind == old(self).tasks@[id as int].kind
                    &&& final(self).tasks@[id as int].enqueued_at == old(self).tasks@[id as
                        int].enqueued_at
                    &&& final(self).tasks@[id as int].completed_at == old(self).tasks@[id as
                        int].completed_at
                },
                None => {
                    &&& *final(self) == *old(self)
                    &&& (old(self).active is Some || old(self).pending@.len() == 0)
                },
            },
    {
        match &self.active {
            Some(_) => {
                return None;
            },
            None => {},
        }
        if self.pending.len() == 0 {
            return None;
        }
        let front = self.pending.remove(0);
        let id = front.id;
        let n = self.tasks.len();
        proof {
            assert(id < n as u64);
        }
        let w = id as usize;
        let ghost pre = self.tasks@;
        proof {
            assert(w as int == id as int);
        }
        let mut t = self.tasks.remove(w);
        t.status = TaskStatus::Processing;
        self.tasks.insert(w, t);
        self.active = Some(front);
        proof {
            assert(pre == old(self).tasks@);
            assert(self.tasks@.len() == pre.len());
            assert forall|i: int| 0 <= i < pre.len() && i != w as int implies self.tasks@[i]
                == pre[i] by {
                if i < w as int {
                    assert(self.tasks@[i] == pre.remove(w as int)[i]);
                } else {
                    assert(self.tasks@[i] == pre.remove(w as int)[i - 1]);
                }
            }
            assert(self.tasks@[w as int] == t);
            assert(self.pending@ =~= old(self).pending@.drop_first());
        }
        Some(id)
    }

    /// The worker applies the active mutation against the committed state
    /// as one atomic operation and records the outcome on the task: a batch
    /// either commits whole or not at all, a failure is local to the task,
    /// and the queue goes on. An empty or key-less addition fails without
    /// touching the store; deletes of unknown ids and Clear always succeed.
    #[verifier::rlimit(30)]
    pub fn finish_active(&mut self, now: u64)
        requires
            old(self).wf(),
            old(self).active is Some,
        ensures
            final(self).wf(),
            final(self).active is None,
            final(self).pending@ == old(self).pending@,
            final(self).tasks@.len() == old(self).tasks@.len(),
            ({
                let a = old(self).active->Some_0;
                let aid = a.id as int;
                &&& forall|i: int|
                    0 <= i < old(self).tasks@.len() && i != aid ==> final(self).tasks@[i] == old(self).tasks@[i]
                &&& final(self).tasks@[aid].id == a.id
                &&& final(self).tasks@[aid].kind == old(self).tasks@[aid].kind
                &&& final(self).tasks@[aid].enqueued_at == old(self).tasks@[aid].enqueued_at
                &&& final(self).tasks@[aid].completed_at == Some(now)
                &&& match a.mutation {
                    Mutation::Clear => {
                        &&& final(self).tasks@[aid].status == TaskStatus::Succeeded
                        &&& final(self).store.pk_model() is None
                        &&& final(self).store.doc_seq().len() == 0
                    },
                    Mutation::Delete { ids } => {
                        &&& final(self).tasks@[aid].status == TaskStatus::Succeeded
                        &&& final(self).store.pk_model() == old(self).store.pk_model()
                        &&& match old(self).store.pk_model() {
                            Some(k) => final(self).store.doc_seq() == old(self).store.doc_seq().filter(kept(k, ids_model(ids@))),
                            None => final(self).store.doc_seq() == old(self).store.doc_seq(),
                        }
                    },
                    Mutation::Add { docs, method, explicit_pk } => {
                        if docs@.len() == 0 {
                            &&& final(self).tasks@[aid].status == TaskStatus::Succeeded
                            &&& final(self).store.pk_model() == old(self).store.pk_model()
                            &&& final(self).store.doc_seq() == old(self).store.doc_seq()
                        } else {
                            exists|res: Result<Seq<u8>, TaskError>|
                                {
                                    &&& #[trigger] resolution_ok(
                                        old(self).store.pk_model(),
                                        pk_opt_model(explicit_pk),
                                        docs_model(docs@),
                                        res,
                                    )
                                    &&& match res {
                                        Ok(k) => {
                                            &&& final(self).tasks@[aid].status
                                                == TaskStatus::Succeeded
                                            &&& final(self).store.pk_model() == Some(k)
                                            &&& final(self).store.doc_seq() == apply_add_model(
                                                old(self).store.doc_seq(),
                                                k,
                                                docs_model(docs@),
                                                method is ReplaceDocuments,
                                            )
                                        },
                                        Err(e) => {
                                            &&& final(self).tasks@[aid].status
                                                == TaskStatus::Failed(e)
                                            &&& final(self).store.pk_model() == old(self).store.pk_model()
                                            &&& final(self).store.doc_seq() == old(self).store.doc_seq()
                                        },
                                    }
                                }
                        }
                    },
                }
            }),
    {
        let a = match self.active.take() {
            Some(a) => a,
            None => {
                proof {
                    assert(false);
                }
                return ;
            },
        };
        let id = a.id;
        proof {
            assert(a == old(self).active->Some_0);
            assert(id < old(self).tasks@.len());
        }
        let status: TaskStatus = match a.mutation {
            Mutation::Clear => {
                self.store.apply_clear();
                TaskStatus::Succeeded
            },
            Mutation::Delete { ids } => {
                self.store.apply_delete(&ids);
                TaskStatus::Succeeded
            },
            Mutation::Add { docs, method, explicit_pk } => {
                if docs.len() == 0 {
                    TaskStatus::Succeeded
                } else {
                    let est: Option<&Vec<u8>> = match &self.store.primary_key {
                        Some(k) => Some(k),
                        None => None,
                    };
                    let exp: Option<&Vec<u8>> = match &explicit_pk {
                        Some(k) => Some(k),
                        None => None,
                    };
                    match resolve_primary_key(est, exp, &docs) {
                        Ok(pk) => {
                            self.store.apply_add(&docs, method, &pk);
                            proof {
                                let res: Result<Seq<u8>, TaskError> = Ok(pk@);
                                assert(resolution_ok(
                                    old(self).store.pk_model(),
                                    pk_opt_model(explicit_pk),
                                    docs_model(docs@),
                                    res,
                                ));
                            }
                            TaskStatus::Succeeded
                        },
                        Err(e) => {
                            proof {
                                let res: Result<Seq<u8>, TaskError> = Err(e);
                                assert(resolution_ok(
                                    old(self).store.pk_model(),
                                    pk_opt_model(explicit_pk),
                                    docs_model(docs@),
                                    res,
                                ));
                            }
                            TaskStatus::Failed(e)
                        },
                    }
                }
            },
        };
        proof {
            assert(self.tasks@ == old(self).tasks@);
            assert(id < self.tasks@.len());
        }
        let n = self.tasks.len();
        let w = id as usize;
        let ghost pre = self.tasks@;
        proof {
            assert(id < n as u64);
            assert(w as int == id as int);
        }
        let mut t = self.tasks.remove(w);
        t.status = status;
        t.completed_at = Some(now);
        self.tasks.insert(w, t);
        proof {
            assert(pre == old(self).tasks@);
            assert(self.tasks@.len() == pre.len());
            assert forall|i: int| 0 <= i < pre.len() && i != w as int implies self.tasks@[i]
                == pre[i] by {
                if i < w as int {
                    assert(self.tasks@[i] == pre.remove(w as int)[i]);
                } else {
                    assert(self.tasks@[i] == pre.remove(w as int)[i - 1]);
                }
            }
            assert(self.tasks@[w as int] == t);
            assert forall|i: int| 0 <= i < self.pending@.len() implies self.tasks@[(
            #[trigger] self.pending@[i]).id as int].status is Enqueued by {
                assert(old(self).pending@[i].id > id);
                assert(self.tasks@[old(self).pending@[i].id as int] == pre[old(
                    self,
                ).pending@[i].id as int]);
            }
        }
    }

    /// Polls one task record.
    pub fn task(&self, id: u64) -> (r: Option<&Task>)
        ensures
            r is Some <==> (id as int) < self.tasks@.len(),
            r matches Some(t) ==> *t == self.tasks@[id as int],
    {
        if id < self.tasks.len() as u64 {
            let w = id as usize;
            Some(&self.tasks[w])
        } else {
            None
        }
    }
}

/// What the worker does after one failed attempt to reach an external
/// indexing engine: wait and retry, or give the task up as
/// `EngineUnavailable`.
#[derive(Clone, Copy, Debug, PartialEq, Eq, Structural)]
pub enum RetryDecision {
    RetryAfter { backoff: u64 },
    GiveUp,
}

/// The backoff before retry number `attempt`: the base delay doubled each
/// attempt, saturating.
pub open spec fn backoff_model(base: u64, attempt: u32) -> u64
    decreases attempt,
{
    if attempt == 0 {
        base
    } else {
        let p = backoff_model(base, (attempt - 1) as u32);
        if p > u64::MAX / 2 {
            u64::MAX
        } else {
            (p * 2) as u64
        }
    }
}

/// The worker's retry policy against an unreachable engine: retry with
/// doubling backoff exactly while fewer than `max_retries` attempts failed,
/// then give up (the task is then recorded `Failed(EngineUnavailable)`).
/// Retrieval never retries; this decides for mutations only. The caller
/// performs the waiting and the engine call; this function only decides.
pub fn next_engine_attempt(attempt: u32, max_retries: u32, base_backoff: u64) -> (r:
    RetryDecision)
    ensures
        r is RetryAfter <==> attempt < max_retries,
        r matches RetryDecision::RetryAfter { backoff } ==> backoff == backoff_model(
            base_backoff,
            attempt,
        ),
{
    if attempt >= max_retries {
        return RetryDecision::GiveUp;
    }
    let mut b: u64 = base_backoff;
    let mut i: u32 = 0;
    while i < attempt
        invariant
            i <= attempt,
            b == backoff_model(base_backoff, i),
        decreases attempt - i,
    {
        b = if b > u64::MAX / 2 {
            u64::MAX
        } else {
            b * 2
        };
        i = i + 1;
    }
    RetryDecision::RetryAfter { backoff: b }
}

} // verus!
