//! The processing queue: one durable work item per (file, task type) with
//! explicit lifecycle states and retry/error bookkeeping. The queue alone
//! performs status transitions.

use vstd::prelude::*;
use vstd::pervasive::VecAdditionalExecFns;
use crate::models::{TaskStatus, TaskType};

verus! {

/// Errors of the processing queue.
#[derive(Clone, Copy, PartialEq, Eq, Structural, Debug)]
pub enum QueueError {
    /// No work item exists for the given (file, task type).
    NotFound,
    /// The item is no longer Pending: another worker already claimed it.
    ClaimConflict,
    /// The item is not in the state the transition starts from.
    InvalidTransition,
}

/// Spec-level image of one work item.
#[verifier::ext_equal]
pub struct ItemModel {
    pub file_id: u64,
    pub task_type: TaskType,
    pub status: TaskStatus,
    pub priority: u32,
    pub started_at: Option<Seq<char>>,
    pub completed_at: Option<Seq<char>>,
    pub error_message: Option<Seq<char>>,
}

/// One unit of scheduled background work for one (file, task type) pair.
pub struct WorkItem {
    pub file_id: u64,
    pub task_type: TaskType,
    pub status: TaskStatus,
    pub priority: u32,
    pub started_at: Option<String>,
    pub completed_at: Option<String>,
    pub error_message: Option<String>,
}

impl View for WorkItem {
    type V = ItemModel;

    open spec fn view(&self) -> ItemModel {
        ItemModel {
            file_id: self.file_id,
            task_type: self.task_type,
            status: self.status,
            priority: self.priority,
            started_at: match self.started_at {
                Option::Some(s) => Option::Some(s@),
                Option::None => Option::None,
            },
            completed_at: match self.completed_at {
                Option::Some(s) => Option::Some(s@),
                Option::None => Option::None,
            },
            error_message: match self.error_message {
                Option::Some(s) => Option::Some(s@),
                Option::None => Option::None,
            },
        }
    }
}

/// Whether item `i` of `q` is the one for (`fid`, `t`).
pub open spec fn is_item(q: Seq<ItemModel>, fid: u64, t: TaskType, i: int) -> bool {
    0 <= i < q.len() && q[i].file_id == fid && q[i].task_type == t
}

/// Whether `q` holds an item for (`fid`, `t`).
pub open spec fn has_item(q: Seq<ItemModel>, fid: u64, t: TaskType) -> bool {
    exists|i: int| is_item(q, fid, t, i)
}

/// The index of the item for (`fid`, `t`) (unique under `queue_wf`).
pub open spec fn item_index(q: Seq<ItemModel>, fid: u64, t: TaskType) -> int {
    choose|i: int| is_item(q, fid, t, i)
}

/// The timestamps and the error message of an item agree with its status:
/// started-at is set once work started, completed-at once it ended, and an
/// error message exists exactly on a failed item.
pub open spec fn status_fields_ok(q: Seq<ItemModel>, i: int) -> bool {
    match q[i].status {
        TaskStatus::Pending => q[i].started_at is None && q[i].completed_at is None
            && q[i].error_message is None,
        TaskStatus::Processing => q[i].started_at is Some && q[i].completed_at is None
            && q[i].error_message is None,
        TaskStatus::Completed => q[i].started_at is Some && q[i].completed_at is Some
            && q[i].error_message is None,
        TaskStatus::Failed => q[i].started_at is Some && q[i].completed_at is Some
            && q[i].error_message is Some,
    }
}

/// Well-formedness: at most one item per (file, task type), and every
/// item's fields agree with its status.
pub open spec fn queue_wf(q: Seq<ItemModel>) -> bool {
    &&& forall|i: int, j: int|
        0 <= i < j < q.len() ==> !(q[i].file_id == q[j].file_id && q[i].task_type
            == q[j].task_type)
    &&& forall|i: int| 0 <= i < q.len() ==> #[trigger] status_fields_ok(q, i)
}

/// A fresh Pending item.
pub open spec fn pending_item(fid: u64, t: TaskType, priority: u32) -> ItemModel {
    ItemModel {
        file_id: fid,
        task_type: t,
        status: TaskStatus::Pending,
        priority: priority,
        started_at: Option::None,
        completed_at: Option::None,
        error_message: Option::None,
    }
}

/// The queue after `enqueue`: unchanged when an item for the pair already
/// exists (idempotent enqueue), else the new Pending item appended.
pub open spec fn enqueue_model(q: Seq<ItemModel>, fid: u64, t: TaskType, priority: u32) -> Seq<
    ItemModel,
> {
    if has_item(q, fid, t) {
        q
    } else {
        q.push(pending_item(fid, t, priority))
    }
}

/// The queue after `claim`: the Pending item for the pair becomes
/// Processing with its started-at set; anything else leaves the queue
/// unchanged.
pub open spec fn claim_model(q: Seq<ItemModel>, fid: u64, t: TaskType, now: Seq<char>) -> Seq<
    ItemModel,
> {
    if has_item(q, fid, t) && q[item_index(q, fid, t)].status == TaskStatus::Pending {
        let i = item_index(q, fid, t);
        q.update(
            i,
            ItemModel {
                status: TaskStatus::Processing,
                started_at: Option::Some(now),
                ..q[i]
            },
        )
    } else {
        q
    }
}

pub open spec fn claim_result(q: Seq<ItemModel>, fid: u64, t: TaskType) -> Result<
    (),
    QueueError,
> {
    if !has_item(q, fid, t) {
        Result::Err(QueueError::NotFound)
    } else if q[item_index(q, fid, t)].status != TaskStatus::Pending {
        Result::Err(QueueError::ClaimConflict)
    } else {
        Result::Ok(())
    }
}

/// The queue after `complete`: the Processing item for the pair becomes
/// Completed with its completed-at set.
pub open spec fn complete_model(q: Seq<ItemModel>, fid: u64, t: TaskType, now: Seq<char>) -> Seq<
    ItemModel,
> {
    if has_item(q, fid, t) && q[item_index(q, fid, t)].status == TaskStatus::Processing {
        let i = item_index(q, fid, t);
        q.update(
            i,
            ItemModel {
                status: TaskStatus::Completed,
                completed_at: Option::Some(now),
                ..q[i]
            },
        )
    } else {
        q
    }
}

pub open spec fn complete_result(q: Seq<ItemModel>, fid: u64, t: TaskType) -> Result<
    (),
    QueueError,
> {
    if !has_item(q, fid, t) {
        Result::Err(QueueError::NotFound)
    } else if q[item_index(q, fid, t)].status != TaskStatus::Processing {
        Result::Err(QueueError::InvalidTransition)
    } else {
        Result::Ok(())
    }
}

/// The queue after `fail`: the Processing item for the pair becomes
/// Failed, with its completed-at and error message set.
pub open spec fn fail_model(
    q: Seq<ItemModel>,
    fid: u64,
    t: TaskType,
    now: Seq<char>,
    error: Seq<char>,
) -> Seq<ItemModel> {
    if has_item(q, fid, t) && q[item_index(q, fid, t)].status == TaskStatus::Processing {
        let i = item_index(q, fid, t);
        q.update(
            i,
            ItemModel {
                status: TaskStatus::Failed,
                completed_at: Option::Some(now),
                error_message: Option::Some(error),
                ..q[i]
            },
        )
    } else {
        q
    }
}

/// `fail` starts from the same state as `complete`: the item must exist
/// and be Processing.
pub open spec fn fail_result(q: Seq<ItemModel>, fid: u64, t: TaskType) -> Result<
    (),
    QueueError,
> {
    complete_result(q, fid, t)
}

/// The queue after `retry`: the Failed item for the pair becomes Pending
/// again, with its timestamps and error message cleared.
pub open spec fn retry_model(q: Seq<ItemModel>, fid: u64, t: TaskType) -> Seq<ItemModel> {
    if has_item(q, fid, t) && q[item_index(q, fid, t)].status == TaskStatus::Failed {
        let i = item_index(q, fid, t);
        q.update(i, pending_item(fid, t, q[i].priority))
    } else {
        q
    }
}

pub open spec fn retry_result(q: Seq<ItemModel>, fid: u64, t: TaskType) -> Result<
    (),
    QueueError,
> {
    if !has_item(q, fid, t) {
        Result::Err(QueueError::NotFound)
    } else if q[item_index(q, fid, t)].status != TaskStatus::Failed {
        Result::Err(QueueError::InvalidTransition)
    } else {
        Result::Ok(())
    }
}

/// The queue after `cancel_pending`: the Pending item for the pair is
/// removed.
pub open spec fn cancel_model(q: Seq<ItemModel>, fid: u64, t: TaskType) -> Seq<ItemModel> {
    if has_item(q, fid, t) && q[item_index(q, fid, t)].status == TaskStatus::Pending {
        q.remove(item_index(q, fid, t))
    } else {
        q
    }
}

pub open spec fn cancel_result(q: Seq<ItemModel>, fid: u64, t: TaskType) -> Result<
    (),
    QueueError,
> {
    if !has_item(q, fid, t) {
        Result::Err(QueueError::NotFound)
    } else if q[item_index(q, fid, t)].status != TaskStatus::Pending {
        Result::Err(QueueError::InvalidTransition)
    } else {
        Result::Ok(())
    }
}

/// The durable processing queue.
pub struct ProcessingQueue {
    pub items: Vec<WorkItem>,
}

impl View for ProcessingQueue {
    type V = Seq<ItemModel>;

    open spec fn view(&self) -> Seq<ItemModel> {
        self.items@.map_values(|w: WorkItem| w@)
    }
}

impl ProcessingQueue {
    pub open spec fn wf(&self) -> bool {
        queue_wf(self@)
    }

    /// An empty queue.
    pub fn new() -> (r: ProcessingQueue)
        ensures
            r@.len() == 0,
            r.wf(),
    {
        let r = ProcessingQueue { items: Vec::new() };
        assert(r@ =~= Seq::<ItemModel>::empty());
        r
    }

    /// Index of the item for (`fid`, `t`), if any.
    fn find_idx(&self, fid: u64, t: TaskType) -> (r: Option<usize>)
        ensures
            match r {
                Option::Some(i) => is_item(self@, fid, t, i as int),
                Option::None => !has_item(self@, fid, t),
            },
    {
        let mut i: usize = 0;
        while i < self.items.len()
            invariant
                0 <= i <= self.items@.len(),
                self@.len() == self.items@.len(),
                forall|k: int| 0 <= k < i ==> !is_item(self@, fid, t, k),
            decreases self.items@.len() - i,
        {
            let w = &self.items[i];
            if w.file_id == fid && w.task_type == t {
                return Option::Some(i);
            }
            proof {
                assert(!is_item(self@, fid, t, i as int));
            }
            i += 1;
        }
        Option::None
    }

    /// The item for (`fid`, `t`), if any.
    pub fn get(&self, fid: u64, t: TaskType) -> (r: Option<&WorkItem>)
        requires
            self.wf(),
        ensures
            match r {
                Option::Some(w) => has_item(self@, fid, t) && w@ == self@[item_index(
                    self@,
                    fid,
                    t,
                )],
                Option::None => !has_item(self@, fid, t),
            },
    {
        match self.find_idx(fid, t) {
            Option::Some(i) => {
                proof {
                    let j = item_index(self@, fid, t);
                    assert(is_item(self@, fid, t, j));
                    assert(j == i);
                }
                Option::Some(&self.items[i])
            },
            Option::None => Option::None,
        }
    }

    /// Create a Pending item for (`fid`, `t`) unless one already exists
    /// for the pair; re-enqueue is a no-op. Returns whether an item was
    /// created.
    pub fn enqueue(&mut self, fid: u64, t: TaskType, priority: u32) -> (created: bool)
        requires
            old(self).wf(),
        ensures
            final(self)@ == enqueue_model(old(self)@, fid, t, priority),
            created == !has_item(old(self)@, fid, t),
            final(self).wf(),
    {
        let ghost q0 = self@;
        match self.find_idx(fid, t) {
            Option::Some(_) => false,
            Option::None => {
                self.items.push(
                    WorkItem {
                        file_id: fid,
                        task_type: t,
                        status: TaskStatus::Pending,
                        priority,
                        started_at: Option::None,
                        completed_at: Option::None,
                        error_message: Option::None,
                    },
                );
                proof {
                    assert(self@ =~= enqueue_model(q0, fid, t, priority));
                    let q1 = self@;
                    let n = q0.len() as int;
                    assert forall|a: int, b: int|
                        0 <= a < b < q1.len() implies !(q1[a].file_id == q1[b].file_id
                        && q1[a].task_type == q1[b].task_type) by {
                        if b == n {
                            assert(!is_item(q0, fid, t, a));
                        }
                    }
                    assert forall|a: int|
                        0 <= a < q1.len() implies #[trigger] status_fields_ok(q1, a) by {
                        if a < n {
                            assert(status_fields_ok(q0, a));
                        }
                    }
                }
                true
            },
        }
    }

    /// Atomically claim the Pending item for (`fid`, `t`): it becomes
    /// Processing and records `now` as its started-at. Exactly the callers
    /// that find it Pending succeed; a lost race yields `ClaimConflict`.
    pub fn claim(&mut self, fid: u64, t: TaskType, now: &str) -> (r: Result<(), QueueError>)
        requires
            old(self).wf(),
        ensures
            final(self)@ == claim_model(old(self)@, fid, t, now@),
            r == claim_result(old(self)@, fid, t),
            final(self).wf(),
    {
        let ghost q0 = self@;
        match self.find_idx(fid, t) {
            Option::Some(i) => {
                proof {
                    let j = item_index(q0, fid, t);
                    assert(is_item(q0, fid, t, j));
                    assert(j == i);
                }
                let w = &self.items[i];
                if w.status == TaskStatus::Pending {
                    let updated = WorkItem {
                        file_id: w.file_id,
                        task_type: w.task_type,
                        status: TaskStatus::Processing,
                        priority: w.priority,
                        started_at: Option::Some(now.to_owned()),
                        completed_at: Option::None,
                        error_message: Option::None,
                    };
                    proof {
                        assert(status_fields_ok(q0, i as int));
                    }
                    self.items.set(i, updated);
                    proof {
                        assert(self@ =~= q0.update(i as int, updated@));
                        assert(status_fields_ok(q0.update(i as int, updated@), i as int));
                        lemma_wf_update(q0, i as int, updated@);
                        assert(self@ =~= claim_model(q0, fid, t, now@));
                    }
                    Result::Ok(())
                } else {
                    Result::Err(QueueError::ClaimConflict)
                }
            },
            Option::None => Result::Err(QueueError::NotFound),
        }
    }

    /// Move the Processing item for (`fid`, `t`) to Completed and record
    /// `now` as its completed-at.
    pub fn complete(&mut self, fid: u64, t: TaskType, now: &str) -> (r: Result<(), QueueError>)
        requires
            old(self).wf(),
        ensures
            final(self)@ == complete_model(old(self)@, fid, t, now@),
            r == complete_result(old(self)@, fid, t),
            final(self).wf(),
    {
        let ghost q0 = self@;
        match self.find_idx(fid, t) {
            Option::Some(i) => {
                proof {
                    let j = item_index(q0, fid, t);
                    assert(is_item(q0, fid, t, j));
                    assert(j == i);
                }
                let w = &self.items[i];
                if w.status == TaskStatus::Processing {
                    let updated = WorkItem {
                        file_id: w.file_id,
                        task_type: w.task_type,
                        status: TaskStatus::Completed,
                        priority: w.priority,
                        started_at: match &w.started_at {
                            Option::Some(s) => Option::Some(s.clone()),
                            Option::None => Option::None,
                        },
                        completed_at: Option::Some(now.to_owned()),
                        error_message: Option::None,
                    };
                    proof {
                        assert(status_fields_ok(q0, i as int));
                    }
                    self.items.set(i, updated);
                    proof {
                        assert(self@ =~= q0.update(i as int, updated@));
                        assert(status_fields_ok(q0.update(i as int, updated@), i as int));
                        lemma_wf_update(q0, i as int, updated@);
                        assert(self@ =~= complete_model(q0, fid, t, now@));
                    }
                    Result::Ok(())
                } else {
                    Result::Err(QueueError::InvalidTransition)
                }
            },
            Option::None => Result::Err(QueueError::NotFound),
        }
    }

    /// Move the Processing item for (`fid`, `t`) to Failed, recording
    /// `now` and the error message. No automatic retry follows.
    pub fn fail(&mut self, fid: u64, t: TaskType, now: &str, error: &str) -> (r: Result<
        (),
        QueueError,
    >)
        requires
            old(self).wf(),
        ensures
            final(self)@ == fail_model(old(self)@, fid, t, now@, error@),
            r == fail_result(old(self)@, fid, t),
            final(self).wf(),
    {
        let ghost q0 = self@;
        match self.find_idx(fid, t) {
            Option::Some(i) => {
                proof {
                    let j = item_index(q0, fid, t);
                    assert(is_item(q0, fid, t, j));
                    assert(j == i);
                }
                let w = &self.items[i];
                if w.status == TaskStatus::Processing {
                    let updated = WorkItem {
                        file_id: w.file_id,
                        task_type: w.task_type,
                        status: TaskStatus::Failed,
                        priority: w.priority,
                        started_at: match &w.started_at {
                            Option::Some(s) => Option::Some(s.clone()),
                            Option::None => Option::None,
                        },
                        completed_at: Option::Some(now.to_owned()),
                        error_message: Option::Some(error.to_owned()),
                    };
                    proof {
                        assert(status_fields_ok(q0, i as int));
                    }
                    self.items.set(i, updated);
                    proof {
                        assert(self@ =~= q0.update(i as int, updated@));
                        assert(status_fields_ok(q0.update(i as int, updated@), i as int));
                        lemma_wf_update(q0, i as int, updated@);
                        assert(self@ =~= fail_model(q0, fid, t, now@, error@));
                    }
                    Result::Ok(())
                } else {
                    Result::Err(QueueError::InvalidTransition)
                }
            },
            Option::None => Result::Err(QueueError::NotFound),
        }
    }

    /// Re-create the Failed item for (`fid`, `t`) as Pending: the explicit
    /// retry action. Clears the error message and both timestamps.
    pub fn retry(&mut self, fid: u64, t: TaskType) -> (r: Result<(), QueueError>)
        requires
            old(self).wf(),
        ensures
            final(self)@ == retry_model(old(self)@, fid, t),
            r == retry_result(old(self)@, fid, t),
            final(self).wf(),
    {
        let ghost q0 = self@;
        match self.find_idx(fid, t) {
            Option::Some(i) => {
                proof {
                    let j = item_index(q0, fid, t);
                    assert(is_item(q0, fid, t, j));
                    assert(j == i);
                }
                let w = &self.items[i];
                if w.status == TaskStatus::Failed {
                    let updated = WorkItem {
                        file_id: w.file_id,
                        task_type: w.task_type,
                        status: TaskStatus::Pending,
                        priority: w.priority,
                        started_at: Option::None,
                        completed_at: Option::None,
                        error_message: Option::None,
                    };
                    self.items.set(i, updated);
                    proof {
                        assert(self@ =~= q0.update(i as int, updated@));
                        assert(status_fields_ok(q0.update(i as int, updated@), i as int));
                        lemma_wf_update(q0, i as int, updated@);
                        assert(self@ =~= retry_model(q0, fid, t));
                    }
                    Result::Ok(())
                } else {
                    Result::Err(QueueError::InvalidTransition)
                }
            },
            Option::None => Result::Err(QueueError::NotFound),
        }
    }

    /// Remove the Pending item for (`fid`, `t`) before it is claimed. An
    /// item that is no longer Pending cannot be cancelled.
    pub fn cancel_pending(&mut self, fid: u64, t: TaskType) -> (r: Result<(), QueueError>)
        requires
            old(self).wf(),
        ensures
            final(self)@ == cancel_model(old(self)@, fid, t),
            r == cancel_result(old(self)@, fid, t),
            final(self).wf(),
    {
        let ghost q0 = self@;
        match self.find_idx(fid, t) {
            Option::Some(i) => {
                proof {
                    let j = item_index(q0, fid, t);
                    assert(is_item(q0, fid, t, j));
                    assert(j == i);
                }
                let w = &self.items[i];
                if w.status == TaskStatus::Pending {
                    let _ = self.items.remove(i);
                    proof {
                        assert(self@ =~= cancel_model(q0, fid, t));
                        let q1 = self@;
                        assert forall|a: int, b: int|
                            0 <= a < b < q1.len() implies !(q1[a].file_id == q1[b].file_id
                            && q1[a].task_type == q1[b].task_type) by {
                            let a0: int = if a < i as int {
                                a
                            } else {
                                a + 1
                            };
                            let b0: int = if b < i as int {
                                b
                            } else {
                                b + 1
                            };
                            assert(q1[a] == q0[a0] && q1[b] == q0[b0]);
                        }
                        assert forall|a: int|
                            0 <= a < q1.len() implies #[trigger] status_fields_ok(q1, a) by {
                            let a0: int = if a < i as int {
                                a
                            } else {
                                a + 1
                            };
                            assert(q1[a] == q0[a0]);
                            assert(status_fields_ok(q0, a0));
                        }
                    }
                    Result::Ok(())
                } else {
                    Result::Err(QueueError::InvalidTransition)
                }
            },
            Option::None => Result::Err(QueueError::NotFound),
        }
    }

    /// The first Pending item of highest priority, if any: what a worker
    /// pool should prefer to claim next.
    pub fn next_pending(&self) -> (r: Option<usize>)
        ensures
            match r {
                Option::Some(i) => {
                    &&& i < self@.len()
                    &&& self@[i as int].status == TaskStatus::Pending
                    &&& forall|j: int|
                        0 <= j < self@.len() && (#[trigger] self@[j]).status == TaskStatus::Pending
                            ==> self@[j].priority <= self@[i as int].priority
                    &&& forall|j: int|
                        0 <= j < i && (#[trigger] self@[j]).status == TaskStatus::Pending
                            ==> self@[j].priority < self@[i as int].priority
                },
                Option::None => forall|j: int|
                    0 <= j < self@.len() ==> (#[trigger] self@[j]).status != TaskStatus::Pending,
            },
    {
        let mut r: Option<usize> = Option::None;
        let mut k: usize = 0;
        while k < self.items.len()
            invariant
                0 <= k <= self.items@.len(),
                self@.len() == self.items@.len(),
                match r {
                    Option::Some(i) => {
                        &&& i < k
                        &&& self@[i as int].status == TaskStatus::Pending
                        &&& forall|j: int|
                            0 <= j < k && (#[trigger] self@[j]).status == TaskStatus::Pending
                                ==> self@[j].priority <= self@[i as int].priority
                        &&& forall|j: int|
                            0 <= j < i && (#[trigger] self@[j]).status == TaskStatus::Pending
                                ==> self@[j].priority < self@[i as int].priority
                    },
                    Option::None => forall|j: int|
                        0 <= j < k ==> (#[trigger] self@[j]).status != TaskStatus::Pending,
                },
            decreases self.items@.len() - k,
        {
            if self.items[k].status == TaskStatus::Pending {
                match r {
                    Option::Some(i) => {
                        if self.items[k].priority > self.items[i].priority {
                            r = Option::Some(k);
                        }
                    },
                    Option::None => {
                        r = Option::Some(k);
                    },
                }
            }
            k += 1;
        }
        r
    }
}

/// Replacing one item by another with the same key, whose fields agree
/// with its status, keeps the queue well-formed.
proof fn lemma_wf_update(q0: Seq<ItemModel>, idx: int, x: ItemModel)
    requires
        queue_wf(q0),
        0 <= idx < q0.len(),
        x.file_id == q0[idx].file_id,
        x.task_type == q0[idx].task_type,
        status_fields_ok(q0.update(idx, x), idx),
    ensures
        queue_wf(q0.update(idx, x)),
{
    let q1 = q0.update(idx, x);
    assert forall|a: int| 0 <= a < q1.len() implies #[trigger] status_fields_ok(q1, a) by {
        if a != idx {
            assert(status_fields_ok(q0, a));
            assert(q1[a] == q0[a]);
        }
    }
    assert forall|a: int, b: int|
        0 <= a < b < q1.len() implies !(q1[a].file_id == q1[b].file_id && q1[a].task_type
        == q1[b].task_type) by {
        assert(q1[a].file_id == q0[a].file_id && q1[a].task_type == q0[a].task_type);
        assert(q1[b].file_id == q0[b].file_id && q1[b].task_type == q0[b].task_type);
    }
}

/// Enqueueing a pair that is already queued changes nothing: repeated or
/// racing enqueue calls for one (file, task type) collapse to one item.
pub proof fn lemma_enqueue_collapses(
    q: Seq<ItemModel>,
    fid: u64,
    t: TaskType,
    p1: u32,
    p2: u32,
)
    ensures
        enqueue_model(enqueue_model(q, fid, t, p1), fid, t, p2) == enqueue_model(q, fid, t, p1),
{
    let q1 = enqueue_model(q, fid, t, p1);
    if has_item(q, fid, t) {
        let i = choose|i: int| is_item(q, fid, t, i);
        assert(is_item(q1, fid, t, i));
        assert(has_item(q1, fid, t));
    } else {
        let n = q.len() as int;
        assert(is_item(q1, fid, t, n));
        assert(has_item(q1, fid, t));
    }
}

} // verus!
