//! Durability requests in flight, reported strictly in submission order.
use vstd::prelude::*;

use crate::barrier::TableId;
use crate::scorer::StreamError;

verus! {

/// What the storage engine hands back for a durability request.
pub struct SyncResult {
    /// Object ids of the SSTables written.
    pub synced_sstables: Vec<u64>,
    /// Per table, the watermark reached.
    pub table_watermarks: Vec<(TableId, u64)>,
    /// Object ids of the SSTables holding old values.
    pub old_value_sstables: Vec<u64>,
}

impl SyncResult {
    /// A result that wrote nothing.
    pub fn empty() -> (r: SyncResult)
        ensures
            r.synced_sstables@.len() == 0,
            r.table_watermarks@.len() == 0,
            r.old_value_sstables@.len() == 0,
    {
        SyncResult {
            synced_sstables: Vec::new(),
            table_watermarks: Vec::new(),
            old_value_sstables: Vec::new(),
        }
    }
}

/// How a durability request ended.
pub enum SyncOutcome {
    Synced(SyncResult),
    Failed(StreamError),
}

/// The result of a durability request, tied to the control-plane task that
/// asked for it.
pub struct BarrierCompleteResult {
    pub task_id: u64,
    pub sync_result: SyncResult,
}

/// What an answered request of `task_id` hands on.
pub open spec fn completion_of(task_id: u64, outcome: SyncOutcome) -> Result<
    BarrierCompleteResult,
    StreamError,
> {
    match outcome {
        SyncOutcome::Synced(sync_result) => Ok(BarrierCompleteResult { task_id, sync_result }),
        SyncOutcome::Failed(err) => Err(err),
    }
}

/// One durability request: its ticket (order of submission), the task it
/// serves, and its outcome once the storage engine answered.
pub struct PendingSync {
    pub ticket: u64,
    pub task_id: u64,
    pub outcome: Option<SyncOutcome>,
}

/// Durability requests in submission order.
pub struct CompletionQueue {
    pub pending: Vec<PendingSync>,
    pub next_ticket: u64,
}

impl CompletionQueue {
    /// Tickets ascend in submission order and stay below the next one.
    pub open spec fn wf(&self) -> bool {
        &&& forall|i: int, j: int|
            0 <= i < j < self.pending@.len() ==> self.pending@[i].ticket < self.pending@[j].ticket
        &&& forall|i: int|
            0 <= i < self.pending@.len() ==> #[trigger] self.pending@[i].ticket < self.next_ticket
    }

    /// The ticket of the report that can leave now, if any: only the oldest
    /// request, and only once it has an outcome.
    pub open spec fn deliverable(&self) -> Option<u64> {
        if self.pending@.len() > 0 && self.pending@[0].outcome.is_some() {
            Some(self.pending@[0].ticket)
        } else {
            None
        }
    }

    pub fn new() -> (r: CompletionQueue)
        ensures
            r.wf(),
            r.pending@.len() == 0,
            r.next_ticket == 0,
    {
        CompletionQueue { pending: Vec::new(), next_ticket: 0 }
    }

    pub fn len(&self) -> (r: usize)
        ensures
            r == self.pending@.len(),
    {
        self.pending.len()
    }

    /// Records a new durability request for `task_id` and returns its ticket.
    pub fn push(&mut self, task_id: u64) -> (r: u64)
        requires
            old(self).wf(),
            old(self).next_ticket < u64::MAX,
        ensures
            final(self).wf(),
            r == old(self).next_ticket,
            final(self).next_ticket == old(self).next_ticket + 1,
            final(self).pending@ == old(self).pending@.push(
                PendingSync { ticket: r, task_id, outcome: None },
            ),
    {
        let ticket = self.next_ticket;
        self.pending.push(PendingSync { ticket, task_id, outcome: None });
        self.next_ticket = ticket + 1;
        ticket
    }

    /// Hands the outcome of the request with `ticket` in. Returns false,
    /// changing nothing, if no request with that ticket waits for one.
    #[verifier::loop_isolation(false)]
    pub fn resolve(&mut self, ticket: u64, outcome: SyncOutcome) -> (r: bool)
        requires
            old(self).wf(),
        ensures
            final(self).wf(),
            final(self).next_ticket == old(self).next_ticket,
            r <==> exists|i: int|
                0 <= i < old(self).pending@.len() && #[trigger] old(self).pending@[i].ticket
                    == ticket && old(self).pending@[i].outcome.is_none(),
            !r ==> final(self).pending@ == old(self).pending@,
            r ==> exists|i: int|
                0 <= i < old(self).pending@.len() && #[trigger] old(self).pending@[i].ticket
                    == ticket && final(self).pending@ == old(self).pending@.update(
                    i,
                    PendingSync {
                        ticket,
                        task_id: old(self).pending@[i].task_id,
                        outcome: Some(outcome),
                    },
                ),
    {
        let mut i: usize = 0;
        while i < self.pending.len()
            invariant
                0 <= i <= self.pending@.len(),
                self.pending@ == old(self).pending@,
                self.next_ticket == old(self).next_ticket,
                forall|j: int| 0 <= j < i ==> #[trigger] self.pending@[j].ticket != ticket,
            decreases self.pending@.len() - i,
        {
            if self.pending[i].ticket == ticket {
                if self.pending[i].outcome.is_some() {
                    proof {
                        assert forall|j: int|
                            0 <= j < self.pending@.len() && #[trigger] self.pending@[j].ticket
                                == ticket implies self.pending@[j].outcome.is_some() by {
                            if j < i {
                                assert(self.pending@[j].ticket != ticket);
                            } else if j > i {
                                assert(self.pending@[i as int].ticket < self.pending@[j].ticket);
                            }
                        }
                    }
                    return false;
                }
                let ghost pre = self.pending@;
                let task_id = self.pending[i].task_id;
                self.pending.remove(i);
                self.pending.insert(i, PendingSync { ticket, task_id, outcome: Some(outcome) });
                assert(self.pending@ == pre.update(
                    i as int,
                    PendingSync { ticket, task_id, outcome: Some(outcome) },
                ));
                return true;
            }
            i += 1;
        }
        false
    }

    /// Takes the oldest request if the storage engine has answered it; a
    /// newer answer waits until every older request has been taken.
    pub fn pop_ready(&mut self) -> (r: Option<Result<BarrierCompleteResult, StreamError>>)
        requires
            old(self).wf(),
        ensures
            final(self).wf(),
            final(self).next_ticket == old(self).next_ticket,
            old(self).deliverable().is_none() ==> r.is_none() && final(self).pending@ == old(
                self,
            ).pending@,
            old(self).deliverable().is_some() ==> {
                let head = old(self).pending@[0];
                &&& r == Some(completion_of(head.task_id, head.outcome.unwrap()))
                &&& final(self).pending@ == old(self).pending@.drop_first()
            },
    {
        if self.pending.len() == 0 || self.pending[0].outcome.is_none() {
            return None;
        }
        let head = self.pending.remove(0);
        match head.outcome {
            Some(SyncOutcome::Synced(sync_result)) => Some(
                Ok(BarrierCompleteResult { task_id: head.task_id, sync_result }),
            ),
            Some(SyncOutcome::Failed(err)) => Some(Err(err)),
            None => None,
        }
    }
}

/// Reports follow submission order: while a request is still waiting for
/// the storage engine, no request submitted after it can be reported.
pub proof fn lemma_completion_order(q: CompletionQueue, i: int, j: int)
    requires
        q.wf(),
        0 <= i < j < q.pending@.len(),
        q.pending@[i].outcome.is_none(),
    ensures
        q.deliverable() != Some(q.pending@[j].ticket),
        q.deliverable().is_some() ==> q.deliverable().unwrap() < q.pending@[i].ticket,
{
    if q.deliverable().is_some() {
        assert(i != 0);
        assert(q.pending@[0].ticket < q.pending@[i].ticket);
    }
}

} // verus!
