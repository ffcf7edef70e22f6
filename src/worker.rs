//! The coordinator: one state machine that takes each event to completion
//! and tells the runtime around it what to do next.
use vstd::prelude::*;

use crate::barrier::{ActorId, EpochPair, InjectBarrierRequest, PartialGraphId, TableId};
use crate::completion::{BarrierCompleteResult, CompletionQueue, PendingSync, SyncOutcome};
use crate::control::{
    ControlStreamHandle, CoordinatorAction, CoordinatorError, FailureContext, ResetReason,
    StreamingControlRequest, StreamingControlResponse,
};
use crate::barrier::CreateMviewProgress;
use crate::managed_state::{
    collect_post, first_index, inject_post, lemma_first_index, prev_of, progress_recorded,
    CollectedEpoch, IssuedBarrier, ManagedBarrierState,
};
use crate::scorer::{find_root_failure, is_root_index, score_of, StreamError};

verus! {

/// The report of a non-checkpoint barrier collected by all its actors.
pub open spec fn collect_report(e: CollectedEpoch) -> CoordinatorAction {
    CoordinatorAction::Send(
        StreamingControlResponse::CollectBarrier {
            partial_graph_id: e.partial_graph_id,
            epoch: e.barrier.epoch.prev,
            create_mview_progress: e.create_mview_progress,
        },
    )
}

/// The reports of `s`, in order; nothing while no transport is attached.
pub open spec fn collect_reports(s: Seq<CollectedEpoch>, attached: bool) -> Seq<CoordinatorAction> {
    if attached {
        s.map_values(|e: CollectedEpoch| collect_report(e))
    } else {
        Seq::empty()
    }
}

/// `post` is `mid` with its collected epochs handed out.
pub open spec fn drained(mid: ManagedBarrierState, post: ManagedBarrierState) -> bool {
    &&& post.actors() == mid.actors()
    &&& post.graphs() == mid.graphs()
    &&& post.collected_epochs@.len() == 0
}

/// The collected checkpoints waiting in each partial graph.
pub open spec fn cc_views(s: ManagedBarrierState) -> Map<PartialGraphId, Seq<IssuedBarrier>> {
    Map::new(
        |g: PartialGraphId| s.graphs().contains_key(g),
        |g: PartialGraphId| s.graphs()[g].collected_checkpoints@,
    )
}

/// Taking, pair by pair, the collected checkpoint that each pair names out
/// of the waiting queues `m`: the queues left, and per pair its epoch and
/// changed tables; `None` if some pair names no waiting checkpoint.
pub open spec fn pops_from(
    m: Map<PartialGraphId, Seq<IssuedBarrier>>,
    pairs: Seq<(PartialGraphId, u64)>,
) -> Option<(Map<PartialGraphId, Seq<IssuedBarrier>>, Seq<(u64, Seq<TableId>)>)>
    decreases pairs.len(),
{
    if pairs.len() == 0 {
        Some((m, Seq::empty()))
    } else {
        match pops_from(m, pairs.drop_last()) {
            None => None,
            Some((m1, eps)) => {
                let g = pairs.last().0;
                let e = pairs.last().1;
                if m1.contains_key(g) && first_index(m1[g], e) >= 0 {
                    let i = first_index(m1[g], e);
                    Some((m1.insert(g, m1[g].remove(i)), eps.push((e, m1[g][i].table_ids@))))
                } else {
                    None
                }
            },
        }
    }
}

/// Each pair names a collected checkpoint waiting for durability, and no
/// pair comes twice.
pub open spec fn complete_ok(s: ManagedBarrierState, pairs: Seq<(PartialGraphId, u64)>) -> bool {
    &&& forall|j: int|
        0 <= j < pairs.len() ==> s.has_collected_checkpoint(#[trigger] pairs[j].0, pairs[j].1)
    &&& forall|j: int, k: int| 0 <= j < k < pairs.len() ==> pairs[j] != pairs[k]
}

pub open spec fn epochs_view(epochs: Seq<(u64, Vec<TableId>)>) -> Seq<(u64, Seq<TableId>)> {
    epochs.map_values(|p: (u64, Vec<TableId>)| (p.0, p.1@))
}

proof fn lemma_remove_keeps(s: Seq<IssuedBarrier>, i: int, e: u64)
    requires
        0 <= i < s.len(),
        first_index(s, e) >= 0,
        prev_of(s[i]) != e,
    ensures
        first_index(s.remove(i), e) >= 0,
{
    lemma_first_index(s, e);
    lemma_first_index(s.remove(i), e);
    let j = first_index(s, e);
    if j < i {
        assert(s.remove(i)[j] == s[j]);
    } else {
        assert(s.remove(i)[j - 1] == s[j]);
    }
}

/// A request fits the ledger: an inject fits (`accepts_inject`), a
/// complete-barrier names waiting checkpoints (`complete_ok`), a new graph
/// id is free, and removed graphs are empty.
pub open spec fn request_ok(s: ManagedBarrierState, request: StreamingControlRequest) -> bool {
    match request {
        StreamingControlRequest::Init { .. } => true,
        StreamingControlRequest::InjectBarrier(req) => s.accepts_inject(req),
        StreamingControlRequest::CompleteBarrier { partial_graph_sync_epochs, .. } => complete_ok(
            s,
            partial_graph_sync_epochs@,
        ),
        StreamingControlRequest::CreatePartialGraph { partial_graph_id } => !s.graphs().contains_key(
            partial_graph_id,
        ),
        StreamingControlRequest::RemovePartialGraph { partial_graph_ids } => !s.removes_non_empty(
            partial_graph_ids@,
        ),
    }
}

/// The actions for one answered durability request.
pub open spec fn completion_action(p: PendingSync, worker_id: u32, attached: bool) -> Seq<
    CoordinatorAction,
> {
    match p.outcome {
        Some(SyncOutcome::Synced(r)) => if attached {
            seq![
                CoordinatorAction::Send(
                    StreamingControlResponse::CompleteBarrier {
                        task_id: p.task_id,
                        worker_id,
                        sync_result: r,
                    },
                ),
            ]
        } else {
            Seq::empty()
        },
        Some(SyncOutcome::Failed(e)) => seq![
            CoordinatorAction::FindRootCause { first: e, context: FailureContext::CompleteEpoch },
        ],
        None => Seq::empty(),
    }
}

/// The actions for answered requests `s`, in order.
pub open spec fn completion_actions(s: Seq<PendingSync>, worker_id: u32, attached: bool) -> Seq<
    CoordinatorAction,
>
    decreases s.len(),
{
    if s.len() == 0 {
        Seq::empty()
    } else {
        completion_actions(s.drop_last(), worker_id, attached) + completion_action(
            s.last(),
            worker_id,
            attached,
        )
    }
}

/// The requests after the answer for `ticket` came in: the waiting request
/// with that ticket, if any, holds the outcome.
pub open spec fn after_resolve(s: Seq<PendingSync>, ticket: u64, outcome: SyncOutcome) -> Seq<
    PendingSync,
> {
    if exists|i: int| 0 <= i < s.len() && #[trigger] s[i].ticket == ticket && s[i].outcome.is_none() {
        let i = choose|i: int|
            0 <= i < s.len() && #[trigger] s[i].ticket == ticket && s[i].outcome.is_none();
        s.update(i, PendingSync { ticket, task_id: s[i].task_id, outcome: Some(outcome) })
    } else {
        s
    }
}

/// How many requests at the head of `s` have an outcome.
pub open spec fn answered_len(s: Seq<PendingSync>) -> nat
    decreases s.len(),
{
    if s.len() > 0 && s[0].outcome.is_some() {
        1 + answered_len(s.subrange(1, s.len() as int))
    } else {
        0
    }
}

proof fn lemma_answered_len(s: Seq<PendingSync>, n: int)
    requires
        0 <= n <= s.len(),
        forall|j: int| 0 <= j < n ==> (#[trigger] s[j]).outcome.is_some(),
        n == s.len() || s[n].outcome.is_none(),
    ensures
        answered_len(s) == n,
    decreases n,
{
    if n > 0 {
        let rest = s.subrange(1, s.len() as int);
        assert forall|j: int| 0 <= j < n - 1 implies (#[trigger] rest[j]).outcome.is_some() by {
            assert(rest[j] == s[j + 1]);
        }
        lemma_answered_len(rest, n - 1);
    }
}

/// The per-node barrier coordinator.
pub struct LocalBarrierWorker {
    /// The barrier ledger.
    pub state: ManagedBarrierState,
    /// Durability requests in flight, in submission order.
    pub completions: CompletionQueue,
    pub control_stream: ControlStreamHandle,
    /// This node's id, put in completion reports.
    pub worker_id: u32,
}

impl LocalBarrierWorker {
    /// Between events, collected epochs have all been handed out.
    pub open spec fn wf(&self) -> bool {
        &&& self.state.wf()
        &&& self.completions.wf()
        &&& self.state.collected_epochs@.len() == 0
        &&& (self.completions.pending@.len() == 0 || self.completions.pending@[0].outcome.is_none())
    }

    /// A coordinator with no transport, no partial graph and no request.
    pub fn new(worker_id: u32) -> (r: LocalBarrierWorker)
        ensures
            r.wf(),
            r.worker_id == worker_id,
            !r.control_stream.attached,
            r.state.actors().is_empty(),
            r.state.graphs().is_empty(),
            r.completions.pending@.len() == 0,
    {
        let no_graphs: Vec<PartialGraphId> = Vec::new();
        let state = ManagedBarrierState::new(&no_graphs);
        assert(state.graphs().dom() =~= Set::<PartialGraphId>::empty());
        LocalBarrierWorker {
            state,
            completions: CompletionQueue::new(),
            control_stream: ControlStreamHandle::empty(),
            worker_id,
        }
    }

    /// Hands out every collected epoch as a report, oldest first.
    fn emit_collected(&mut self, actions: &mut Vec<CoordinatorAction>)
        requires
            old(self).state.wf(),
            old(self).completions.wf(),
            old(self).completions.pending@.len() == 0
                || old(self).completions.pending@[0].outcome.is_none(),
        ensures
            final(self).wf(),
            drained(old(self).state, final(self).state),
            final(self).completions == old(self).completions,
            final(self).control_stream == old(self).control_stream,
            final(self).worker_id == old(self).worker_id,
            final(actions)@ == old(actions)@ + collect_reports(
                old(self).state.collected_epochs@,
                old(self).control_stream.attached,
            ),
    {
        let ghost events = self.state.collected_epochs@;
        let ghost start = actions@;
        let ghost attached = self.control_stream.attached;
        let ghost pre = self.state;
        let total = self.state.collected_epochs.len();
        let mut k: usize = 0;
        loop
            invariant
                0 <= k <= events.len(),
                events.len() == total,
                self.state.wf(),
                self.completions == old(self).completions,
                self.control_stream == old(self).control_stream,
                self.worker_id == old(self).worker_id,
                attached == self.control_stream.attached,
                self.state.actors() == pre.actors(),
                self.state.graphs() == pre.graphs(),
                self.state.collected_epochs@ == events.skip(k as int),
                actions@ == start + collect_reports(events.take(k as int), attached),
            ensures
                self.state.wf(),
                self.completions == old(self).completions,
                self.control_stream == old(self).control_stream,
                self.worker_id == old(self).worker_id,
                self.state.actors() == pre.actors(),
                self.state.graphs() == pre.graphs(),
                self.state.collected_epochs@.len() == 0,
                actions@ == start + collect_reports(events, attached),
            decreases events.len() - k,
        {
            match self.state.next_collected_epoch() {
                None => {
                    assert(events.take(k as int) == events);
                    break;
                },
                Some(e) => {
                    if self.control_stream.connected() {
                        actions.push(
                            CoordinatorAction::Send(
                                StreamingControlResponse::CollectBarrier {
                                    partial_graph_id: e.partial_graph_id,
                                    epoch: e.barrier.epoch.prev,
                                    create_mview_progress: e.create_mview_progress,
                                },
                            ),
                        );
                    }
                    proof {
                        assert(e == events[k as int]);
                        assert(events.take(k + 1) == events.take(k as int).push(e));
                        assert(events.skip(k as int).drop_first() == events.skip(k + 1));
                        if attached {
                            assert(collect_reports(events.take(k + 1), attached) =~= collect_reports(
                                events.take(k as int),
                                attached,
                            ).push(collect_report(e)));
                        }
                    }
                    k += 1;
                },
            }
        }
    }

    /// An actor collected a barrier, which must be its oldest in flight;
    /// every barrier that thereby has been collected by all its actors moves
    /// on, and the non-checkpoint ones among them are reported at once.
    pub fn handle_actor_collected(&mut self, actor_id: ActorId, epoch: EpochPair) -> (actions: Vec<
        CoordinatorAction,
    >)
        requires
            old(self).wf(),
            old(self).state.inflight(actor_id).len() > 0,
            old(self).state.inflight(actor_id)[0] == epoch.prev,
        ensures
            final(self).wf(),
            final(self).completions == old(self).completions,
            final(self).control_stream == old(self).control_stream,
            final(self).worker_id == old(self).worker_id,
            collect_step(
                old(self).state,
                final(self).state,
                actor_id,
                actions@,
                old(self).control_stream.attached,
            ),
    {
        let mut actions: Vec<CoordinatorAction> = Vec::new();
        self.state.collect(actor_id, epoch);
        let ghost mid = self.state;
        self.emit_collected(&mut actions);
        assert(collect_post(old(self).state, mid, actor_id) && drained(mid, self.state) && actions@
            == collect_reports(mid.collected_epochs@, self.control_stream.attached));
        actions
    }
}

/// What handling a collection does: the ledger moves as `collect_post`
/// says, and the non-checkpoint barriers that thereby became collected by
/// all their actors are reported at once.
pub open spec fn collect_step(
    pre: ManagedBarrierState,
    post: ManagedBarrierState,
    a: ActorId,
    actions: Seq<CoordinatorAction>,
    attached: bool,
) -> bool {
    exists|mid: ManagedBarrierState|
        collect_post(pre, mid, a) && drained(mid, post) && actions == collect_reports(
            mid.collected_epochs@,
            attached,
        )
}

impl LocalBarrierWorker {
    /// Injects a barrier into the ledger; barriers that no actor owes are
    /// reported at once. The request must fit the ledger.
    pub fn send_barrier(&mut self, req: InjectBarrierRequest) -> (actions: Vec<CoordinatorAction>)
        requires
            old(self).wf(),
            old(self).state.accepts_inject(req),
        ensures
            final(self).wf(),
            final(self).completions == old(self).completions,
            final(self).control_stream == old(self).control_stream,
            final(self).worker_id == old(self).worker_id,
            inject_step(old(self).state, final(self).state, req, actions@, old(self).control_stream.attached),
    {
        let mut actions: Vec<CoordinatorAction> = Vec::new();
        let ghost r = req;
        self.state.transform_to_issued(req);
        let ghost mid = self.state;
        self.emit_collected(&mut actions);
        assert(inject_post(old(self).state, mid, r) && drained(mid, self.state) && actions@
            == collect_reports(mid.collected_epochs@, self.control_stream.attached));
        actions
    }

    /// Creates an empty partial graph under an unused id.
    pub fn add_partial_graph(&mut self, partial_graph_id: PartialGraphId) -> (actions: Vec<
        CoordinatorAction,
    >)
        requires
            old(self).wf(),
            !old(self).state.graphs().contains_key(partial_graph_id),
        ensures
            final(self).wf(),
            final(self).completions == old(self).completions,
            final(self).control_stream == old(self).control_stream,
            final(self).worker_id == old(self).worker_id,
            add_graph_step(old(self).state, final(self).state, partial_graph_id, actions@),
    {
        self.state.add_partial_graph(partial_graph_id);
        Vec::new()
    }

    /// Removes partial graphs, each of which must be empty if it exists.
    pub fn remove_partial_graphs(&mut self, ids: Vec<PartialGraphId>) -> (actions: Vec<
        CoordinatorAction,
    >)
        requires
            old(self).wf(),
            !old(self).state.removes_non_empty(ids@),
        ensures
            final(self).wf(),
            final(self).completions == old(self).completions,
            final(self).control_stream == old(self).control_stream,
            final(self).worker_id == old(self).worker_id,
            remove_graphs_step(old(self).state, final(self).state, ids@, actions@),
    {
        self.state.remove_partial_graphs(&ids);
        Vec::new()
    }

    /// Whether a complete-barrier request fits the ledger (see `complete_ok`).
    pub fn check_complete(&self, pairs: &Vec<(PartialGraphId, u64)>) -> (r: bool)
        ensures
            r == complete_ok(self.state, pairs@),
    {
        let mut j: usize = 0;
        while j < pairs.len()
            invariant
                0 <= j <= pairs@.len(),
                forall|k: int|
                    0 <= k < j ==> self.state.has_collected_checkpoint(
                        #[trigger] pairs@[k].0,
                        pairs@[k].1,
                    ),
                forall|k: int, l: int| 0 <= k < l < j ==> pairs@[k] != pairs@[l],
            decreases pairs@.len() - j,
        {
            let (g, e) = pairs[j];
            if self.state.find_collected_checkpoint(g, e).is_none() {
                return false;
            }
            let mut k: usize = 0;
            while k < j
                invariant
                    0 <= k <= j < pairs@.len(),
                    pairs@[j as int] == (g, e),
                    forall|l: int| 0 <= l < k ==> pairs@[l] != pairs@[j as int],
                decreases j - k,
            {
                let (h, f) = pairs[k];
                if h == g && f == e {
                    return false;
                }
                k += 1;
            }
            j += 1;
        }
        true
    }

    /// Takes the named collected checkpoints out of the ledger, in order,
    /// with their epochs and changed tables.
    #[verifier::rlimit(40)]
    fn pop_checkpoints(&mut self, pairs: &Vec<(PartialGraphId, u64)>) -> (r: Vec<
        (u64, Vec<TableId>),
    >)
        requires
            old(self).wf(),
            complete_ok(old(self).state, pairs@),
        ensures
            final(self).wf(),
            final(self).completions == old(self).completions,
            final(self).control_stream == old(self).control_stream,
            final(self).worker_id == old(self).worker_id,
            popped(old(self).state, final(self).state, pairs@, r@),
    {
        let ghost pre = self.state;
        let mut epochs: Vec<(u64, Vec<TableId>)> = Vec::new();
        let mut i: usize = 0;
        while i < pairs.len()
            invariant
                0 <= i <= pairs@.len(),
                self.wf(),
                pre == old(self).state,
                complete_ok(pre, pairs@),
                self.completions == old(self).completions,
                self.control_stream == old(self).control_stream,
                self.worker_id == old(self).worker_id,
                self.state.actors() == pre.actors(),
                self.state.collected_epochs@ == pre.collected_epochs@,
                self.state.graphs().dom() == pre.graphs().dom(),
                forall|g: PartialGraphId|
                    #![trigger self.state.graphs()[g]]
                    pre.graphs().contains_key(g) ==> {
                        &&& self.state.graphs()[g].issued == pre.graphs()[g].issued
                        &&& self.state.graphs()[g].actor_ids == pre.graphs()[g].actor_ids
                        &&& self.state.graphs()[g].last_issued_epoch
                            == pre.graphs()[g].last_issued_epoch
                    },
                forall|k: int|
                    i <= k < pairs@.len() ==> self.state.has_collected_checkpoint(
                        #[trigger] pairs@[k].0,
                        pairs@[k].1,
                    ),
                pops_from(cc_views(pre), pairs@.take(i as int)) == Some(
                    (cc_views(self.state), epochs_view(epochs@)),
                ),
            decreases pairs@.len() - i,
        {
            let (g, prev_epoch) = pairs[i];
            let ghost before = self.state;
            let ghost old_epochs = epochs@;
            let ghost cc = before.graphs()[g].collected_checkpoints@;
            let ghost fi = first_index(cc, prev_epoch);
            proof {
                lemma_first_index(cc, prev_epoch);
            }
            let (barrier, table_ids) = self.state.pop_barrier_to_complete(g, prev_epoch);
            epochs.push((barrier.epoch.prev, table_ids));
            proof {
                let t1 = pairs@.take(i + 1);
                assert(t1.drop_last() == pairs@.take(i as int));
                assert(t1.last() == (g, prev_epoch));
                assert(cc_views(before)[g] == cc);
                assert(cc_views(self.state) =~= cc_views(before).insert(g, cc.remove(fi)));
                assert(epochs_view(epochs@) =~= epochs_view(old_epochs).push(
                    (prev_epoch, cc[fi].table_ids@),
                ));
                assert forall|k: int| i + 1 <= k < pairs@.len() implies self.state.has_collected_checkpoint(
                    #[trigger] pairs@[k].0,
                    pairs@[k].1,
                ) by {
                    assert(before.has_collected_checkpoint(pairs@[k].0, pairs@[k].1));
                    if pairs@[k].0 == g {
                        assert(pairs@[i as int] != pairs@[k]);
                        lemma_remove_keeps(cc, fi, pairs@[k].1);
                    }
                }
            }
            i += 1;
        }
        assert(pairs@.take(i as int) == pairs@);
        epochs
    }

    /// Takes the named collected checkpoints out of the ledger and asks for
    /// one durability request covering their epochs and changed tables,
    /// queued behind the requests already in flight. Each pair must name a
    /// collected checkpoint waiting for durability, none twice.
    pub fn complete_barrier(&mut self, task_id: u64, pairs: &Vec<(PartialGraphId, u64)>) -> (actions:
        Vec<CoordinatorAction>)
        requires
            old(self).wf(),
            complete_ok(old(self).state, pairs@),
        ensures
            final(self).wf(),
            final(self).control_stream == old(self).control_stream,
            final(self).worker_id == old(self).worker_id,
            complete_step(
                old(self).state,
                old(self).completions,
                final(self).state,
                final(self).completions,
                task_id,
                pairs@,
                actions@,
            ),
    {
        let mut actions: Vec<CoordinatorAction> = Vec::new();
        if self.completions.next_ticket == u64::MAX {
            actions.push(CoordinatorAction::Fatal(CoordinatorError::TooManySyncRequests));
            return actions;
        }
        let epochs = self.pop_checkpoints(pairs);
        let ticket = self.completions.push(task_id);
        actions.push(CoordinatorAction::SyncEpochs { ticket, epochs });
        actions
    }
}

/// `post` is `pre` with the checkpoints named by `pairs` taken out, as
/// `pops_from` says; `epochs` holds, for each pair, its epoch and the
/// tables that changed in it.
pub open spec fn popped(
    pre: ManagedBarrierState,
    post: ManagedBarrierState,
    pairs: Seq<(PartialGraphId, u64)>,
    epochs: Seq<(u64, Vec<TableId>)>,
) -> bool {
    &&& pops_from(cc_views(pre), pairs) == Some((cc_views(post), epochs_view(epochs)))
    &&& post.actors() == pre.actors()
    &&& post.collected_epochs@ == pre.collected_epochs@
    &&& post.graphs().dom() == pre.graphs().dom()
    &&& forall|g: PartialGraphId|
        #![trigger post.graphs()[g]]
        pre.graphs().contains_key(g) ==> {
            &&& post.graphs()[g].issued == pre.graphs()[g].issued
            &&& post.graphs()[g].actor_ids == pre.graphs()[g].actor_ids
            &&& post.graphs()[g].last_issued_epoch == pre.graphs()[g].last_issued_epoch
        }
}

/// What handling an inject request does: the ledger moves as `inject_post`
/// says, and barriers that no actor owes are reported at once.
pub open spec fn inject_step(
    pre: ManagedBarrierState,
    post: ManagedBarrierState,
    req: InjectBarrierRequest,
    actions: Seq<CoordinatorAction>,
    attached: bool,
) -> bool {
    exists|mid: ManagedBarrierState|
        inject_post(pre, mid, req) && drained(mid, post) && actions == collect_reports(
            mid.collected_epochs@,
            attached,
        )
}

/// What creating a partial graph does: it joins the ledger, empty and with
/// no epoch issued yet.
pub open spec fn add_graph_step(
    pre: ManagedBarrierState,
    post: ManagedBarrierState,
    g: PartialGraphId,
    actions: Seq<CoordinatorAction>,
) -> bool {
    &&& actions.len() == 0
    &&& post.actors() == pre.actors()
    &&& post.collected_epochs@ == pre.collected_epochs@
    &&& post.graphs().dom() == pre.graphs().dom().insert(g)
    &&& forall|h: PartialGraphId|
        #![trigger post.graphs()[h]]
        pre.graphs().contains_key(h) ==> post.graphs()[h] == pre.graphs()[h]
    &&& post.graphs()[g].is_empty_spec()
    &&& post.graphs()[g].last_issued_epoch.is_none()
}

/// What removing partial graphs does: the named ones go, absent ones are
/// skipped.
pub open spec fn remove_graphs_step(
    pre: ManagedBarrierState,
    post: ManagedBarrierState,
    ids: Seq<PartialGraphId>,
    actions: Seq<CoordinatorAction>,
) -> bool {
    &&& actions.len() == 0
    &&& post.actors() == pre.actors()
    &&& post.collected_epochs@ == pre.collected_epochs@
    &&& forall|g: PartialGraphId| #[trigger]
        post.graphs().contains_key(g) <==> (pre.graphs().contains_key(g) && !ids.contains(g))
    &&& forall|g: PartialGraphId| #[trigger]
        post.graphs().contains_key(g) ==> post.graphs()[g] == pre.graphs()[g]
}

/// What a complete-barrier request does: the named checkpoints leave the
/// ledger and one durability request for their epochs and tables joins the
/// queue; only when the tickets run out does the coordinator abort.
pub open spec fn complete_step(
    pre: ManagedBarrierState,
    pre_q: CompletionQueue,
    post: ManagedBarrierState,
    post_q: CompletionQueue,
    task_id: u64,
    pairs: Seq<(PartialGraphId, u64)>,
    actions: Seq<CoordinatorAction>,
) -> bool {
    if pre_q.next_ticket == u64::MAX {
        &&& post.unchanged(&pre)
        &&& post_q == pre_q
        &&& actions == seq![CoordinatorAction::Fatal(CoordinatorError::TooManySyncRequests)]
    } else {
        &&& post_q.pending@ == pre_q.pending@.push(
            PendingSync { ticket: pre_q.next_ticket, task_id, outcome: None },
        )
        &&& post_q.next_ticket == pre_q.next_ticket + 1
        &&& actions.len() == 1
        &&& match actions[0] {
            CoordinatorAction::SyncEpochs { ticket, epochs } => {
                &&& ticket == pre_q.next_ticket
                &&& popped(pre, post, pairs, epochs@)
            },
            _ => false,
        }
    }
}

impl LocalBarrierWorker {
    /// The storage engine answered the durability request with `ticket`.
    /// Answers are reported in submission order: this one, and any answered
    /// after it, wait until every older request has been answered. A failed
    /// request starts a root-cause search.
    pub fn on_sync_outcome(&mut self, ticket: u64, outcome: SyncOutcome) -> (actions: Vec<
        CoordinatorAction,
    >)
        requires
            old(self).wf(),
        ensures
            final(self).wf(),
            final(self).state == old(self).state,
            final(self).control_stream == old(self).control_stream,
            final(self).worker_id == old(self).worker_id,
            final(self).completions.next_ticket == old(self).completions.next_ticket,
            !(exists|i: int|
                0 <= i < old(self).completions.pending@.len()
                    && #[trigger] old(self).completions.pending@[i].ticket == ticket
                    && old(self).completions.pending@[i].outcome.is_none())
                ==> final(self).completions.pending@ == old(self).completions.pending@
                && actions@.len() == 0,
            ({
                let q = after_resolve(old(self).completions.pending@, ticket, outcome);
                let n = answered_len(q) as int;
                &&& final(self).completions.pending@ == q.skip(n)
                &&& actions@ == completion_actions(
                    q.take(n),
                    old(self).worker_id,
                    old(self).control_stream.attached,
                )
            }),
    {
        let mut actions: Vec<CoordinatorAction> = Vec::new();
        let ghost pre_q = self.completions.pending@;
        let ghost out = outcome;
        let resolved = self.completions.resolve(ticket, outcome);
        let ghost q = self.completions.pending@;
        proof {
            if resolved {
                let i = choose|i: int|
                    0 <= i < pre_q.len() && #[trigger] pre_q[i].ticket == ticket && q
                        == pre_q.update(
                        i,
                        PendingSync { ticket, task_id: pre_q[i].task_id, outcome: Some(out) },
                    );
                let k = choose|k: int|
                    0 <= k < pre_q.len() && #[trigger] pre_q[k].ticket == ticket
                        && pre_q[k].outcome.is_none();
                if i < k {
                    assert(pre_q[i].ticket < pre_q[k].ticket);
                } else if k < i {
                    assert(pre_q[k].ticket < pre_q[i].ticket);
                }
            }
            assert(q == after_resolve(pre_q, ticket, out));
        }
        if !resolved {
            proof {
                let pre = old(self).completions.pending@;
                if pre.len() > 0 && pre[0].outcome.is_some() {
                    assert(false);
                }
                lemma_answered_len(pre, 0);
                assert(q.skip(0) == q);
                assert(q.take(0) =~= Seq::<PendingSync>::empty());
            }
            return actions;
        }
        let attached = self.control_stream.connected();
        let worker_id = self.worker_id;
        let total = self.completions.len();
        let mut k: usize = 0;
        loop
            invariant
                q.len() == total,
                self.completions.wf(),
                self.state == old(self).state,
                self.control_stream == old(self).control_stream,
                self.worker_id == worker_id,
                worker_id == old(self).worker_id,
                attached == old(self).control_stream.attached,
                self.completions.next_ticket == old(self).completions.next_ticket,
                0 <= k <= q.len(),
                self.completions.pending@ == q.skip(k as int),
                forall|j: int| 0 <= j < k ==> (#[trigger] q[j]).outcome.is_some(),
                actions@ == completion_actions(q.take(k as int), worker_id, attached),
            ensures
                self.completions.wf(),
                self.state == old(self).state,
                self.control_stream == old(self).control_stream,
                self.completions.next_ticket == old(self).completions.next_ticket,
                0 <= k <= q.len(),
                self.completions.pending@ == q.skip(k as int),
                forall|j: int| 0 <= j < k ==> (#[trigger] q[j]).outcome.is_some(),
                k == q.len() || q[k as int].outcome.is_none(),
                actions@ == completion_actions(q.take(k as int), worker_id, attached),
            decreases q.len() - k,
        {
            let ghost head = self.completions.pending@;
            match self.completions.pop_ready() {
                None => {
                    break;
                },
                Some(result) => {
                    proof {
                        assert(head[0] == q[k as int]);
                        assert(q.take(k + 1).drop_last() == q.take(k as int));
                        assert(q.take(k + 1).last() == q[k as int]);
                        assert(head.drop_first() == q.skip(k + 1));
                    }
                    match result {
                        Ok(BarrierCompleteResult { task_id, sync_result }) => {
                            if attached {
                                actions.push(
                                    CoordinatorAction::Send(
                                        StreamingControlResponse::CompleteBarrier {
                                            task_id,
                                            worker_id,
                                            sync_result,
                                        },
                                    ),
                                );
                            }
                        },
                        Err(err) => {
                            actions.push(
                                CoordinatorAction::FindRootCause {
                                    first: err,
                                    context: FailureContext::CompleteEpoch,
                                },
                            );
                        },
                    }
                    assert(actions@ == completion_actions(q.take(k + 1), worker_id, attached));
                    k += 1;
                },
            }
        }
        proof {
            lemma_answered_len(q, k as int);
        }
        actions
    }

    /// Picks the root cause among the gathered failures and resets the
    /// transport with it, so that the control plane starts recovery; for an
    /// actor's failure, only while that actor still owes a barrier or runs.
    pub fn notify_failure(
        &mut self,
        actor_id: Option<ActorId>,
        errors: Vec<StreamError>,
        context: FailureContext,
    ) -> (actions: Vec<CoordinatorAction>)
        requires
            old(self).wf(),
        ensures
            final(self).wf(),
            final(self).state == old(self).state,
            final(self).completions == old(self).completions,
            final(self).worker_id == old(self).worker_id,
            ({
                let relevant = match actor_id {
                    Some(a) => old(self).state.actors().contains_key(a) && (
                    old(self).state.inflight(a).len() > 0 || old(self).state.actors()[a].is_running),
                    None => true,
                };
                if errors@.len() > 0 && relevant && old(self).control_stream.attached {
                    &&& !final(self).control_stream.attached
                    &&& actions@.len() == 1
                    &&& exists|i: int|
                        is_root_index(errors@, i) && match actions@[0] {
                            CoordinatorAction::ResetStream(
                                ResetReason::Failure { context: c, root },
                            ) => c == context && root.error == errors@[i] && root.score
                                == score_of(errors@[i].kind),
                            _ => false,
                        }
                } else {
                    &&& final(self).control_stream == old(self).control_stream
                    &&& actions@.len() == 0
                }
            }),
    {
        let mut actions: Vec<CoordinatorAction> = Vec::new();
        let relevant = match actor_id {
            Some(a) => self.state.actor_is_active(a),
            None => true,
        };
        match find_root_failure(errors) {
            None => {},
            Some(root) => {
                if relevant && self.control_stream.connected() {
                    self.control_stream.reset_stream();
                    actions.push(
                        CoordinatorAction::ResetStream(ResetReason::Failure { context, root }),
                    );
                }
            },
        }
        actions
    }

    /// A new transport is attached: the old one is reset, the ledger and
    /// the durability queue start afresh with the given partial graphs, and
    /// the new transport is acknowledged.
    pub fn handle_new_control_stream(&mut self, graphs: &Vec<PartialGraphId>) -> (actions: Vec<
        CoordinatorAction,
    >)
        requires
            old(self).wf(),
        ensures
            final(self).wf(),
            final(self).worker_id == old(self).worker_id,
            final(self).control_stream.attached,
            final(self).state.actors().is_empty(),
            forall|g: PartialGraphId| #[trigger]
                final(self).state.graphs().contains_key(g) <==> graphs@.contains(g),
            forall|g: PartialGraphId| #[trigger]
                final(self).state.graphs().contains_key(g) ==> final(self).state.graphs()[g].is_empty_spec()
                    && final(self).state.graphs()[g].last_issued_epoch.is_none(),
            final(self).completions.pending@.len() == 0,
            old(self).control_stream.attached ==> actions@.len() == 2 && match actions@[0] {
                CoordinatorAction::ResetStream(ResetReason::Replaced) => true,
                _ => false,
            } && match actions@[1] {
                CoordinatorAction::Send(StreamingControlResponse::Init) => true,
                _ => false,
            },
            !old(self).control_stream.attached ==> actions@.len() == 1 && match actions@[0] {
                CoordinatorAction::Send(StreamingControlResponse::Init) => true,
                _ => false,
            },
    {
        let mut actions: Vec<CoordinatorAction> = Vec::new();
        if self.control_stream.reset_stream() {
            actions.push(CoordinatorAction::ResetStream(ResetReason::Replaced));
        }
        self.state = ManagedBarrierState::new(graphs);
        self.completions = CompletionQueue::new();
        self.control_stream = ControlStreamHandle::new();
        actions.push(CoordinatorAction::Send(StreamingControlResponse::Init));
        actions
    }

    /// Whether a request of the control plane fits the ledger; one that does
    /// not breaks the protocol's contract and is fatal.
    pub fn check_request(&self, request: &StreamingControlRequest) -> (r: bool)
        ensures
            r == request_ok(self.state, *request),
    {
        match request {
            StreamingControlRequest::Init { .. } => true,
            StreamingControlRequest::InjectBarrier(req) => self.state.check_inject(req).is_ok(),
            StreamingControlRequest::CompleteBarrier { partial_graph_sync_epochs, .. } => {
                self.check_complete(partial_graph_sync_epochs)
            },
            StreamingControlRequest::CreatePartialGraph { partial_graph_id } => {
                !self.state.contains_partial_graph(*partial_graph_id)
            },
            StreamingControlRequest::RemovePartialGraph { partial_graph_ids } => {
                self.state.check_remove_partial_graphs(partial_graph_ids).is_ok()
            },
        }
    }

    /// Handles one request of the control plane, which must fit the ledger
    /// (see `request_ok`). An `Init` request on an attached transport is out
    /// of order: the transport is reset.
    pub fn handle_streaming_control_request(&mut self, request: StreamingControlRequest) -> (actions:
        Vec<CoordinatorAction>)
        requires
            old(self).wf(),
            request_ok(old(self).state, request),
        ensures
            final(self).wf(),
            final(self).worker_id == old(self).worker_id,
            match request {
                StreamingControlRequest::Init { .. } => {
                    &&& final(self).state == old(self).state
                    &&& final(self).completions == old(self).completions
                    &&& !final(self).control_stream.attached
                    &&& old(self).control_stream.attached ==> actions@.len() == 1 && match actions@[0] {
                        CoordinatorAction::ResetStream(ResetReason::ProtocolError) => true,
                        _ => false,
                    }
                    &&& !old(self).control_stream.attached ==> actions@.len() == 0
                },
                StreamingControlRequest::InjectBarrier(req) => {
                    &&& final(self).completions == old(self).completions
                    &&& final(self).control_stream == old(self).control_stream
                    &&& inject_step(
                        old(self).state,
                        final(self).state,
                        req,
                        actions@,
                        old(self).control_stream.attached,
                    )
                },
                StreamingControlRequest::CompleteBarrier { task_id, partial_graph_sync_epochs } => {
                    &&& final(self).control_stream == old(self).control_stream
                    &&& complete_step(
                        old(self).state,
                        old(self).completions,
                        final(self).state,
                        final(self).completions,
                        task_id,
                        partial_graph_sync_epochs@,
                        actions@,
                    )
                },
                StreamingControlRequest::CreatePartialGraph { partial_graph_id } => {
                    &&& final(self).completions == old(self).completions
                    &&& final(self).control_stream == old(self).control_stream
                    &&& add_graph_step(old(self).state, final(self).state, partial_graph_id, actions@)
                },
                StreamingControlRequest::RemovePartialGraph { partial_graph_ids } => {
                    &&& final(self).completions == old(self).completions
                    &&& final(self).control_stream == old(self).control_stream
                    &&& remove_graphs_step(
                        old(self).state,
                        final(self).state,
                        partial_graph_ids@,
                        actions@,
                    )
                },
            },
    {
        match request {
            StreamingControlRequest::Init { .. } => {
                let mut actions: Vec<CoordinatorAction> = Vec::new();
                if self.control_stream.reset_stream() {
                    actions.push(CoordinatorAction::ResetStream(ResetReason::ProtocolError));
                }
                actions
            },
            StreamingControlRequest::InjectBarrier(req) => self.send_barrier(req),
            StreamingControlRequest::CompleteBarrier { task_id, partial_graph_sync_epochs } => {
                self.complete_barrier(task_id, &partial_graph_sync_epochs)
            },
            StreamingControlRequest::CreatePartialGraph { partial_graph_id } => {
                self.add_partial_graph(partial_graph_id)
            },
            StreamingControlRequest::RemovePartialGraph { partial_graph_ids } => {
                self.remove_partial_graphs(partial_graph_ids)
            },
        }
    }

    /// The request side of the transport ended or failed: the transport is
    /// reset, and nothing more is read until a new one is attached.
    pub fn on_request_stream_closed(&mut self, transport_error: bool) -> (actions: Vec<
        CoordinatorAction,
    >)
        requires
            old(self).wf(),
        ensures
            final(self).wf(),
            final(self).state == old(self).state,
            final(self).completions == old(self).completions,
            final(self).worker_id == old(self).worker_id,
            !final(self).control_stream.attached,
            old(self).control_stream.attached ==> actions@.len() == 1 && match actions@[0] {
                CoordinatorAction::ResetStream(ResetReason::TransportError) => transport_error,
                CoordinatorAction::ResetStream(ResetReason::EndOfStream) => !transport_error,
                _ => false,
            },
            !old(self).control_stream.attached ==> actions@.len() == 0,
    {
        let mut actions: Vec<CoordinatorAction> = Vec::new();
        if self.control_stream.reset_stream() {
            if transport_error {
                actions.push(CoordinatorAction::ResetStream(ResetReason::TransportError));
            } else {
                actions.push(CoordinatorAction::ResetStream(ResetReason::EndOfStream));
            }
        }
        actions
    }

    /// Sending on the transport failed; later responses are dropped.
    pub fn on_send_failed(&mut self)
        requires
            old(self).wf(),
        ensures
            final(self).wf(),
            final(self).state == old(self).state,
            final(self).completions == old(self).completions,
            final(self).worker_id == old(self).worker_id,
            !final(self).control_stream.attached,
    {
        self.control_stream.on_send_failed();
    }

    /// The node shuts down: the shutdown notice goes out on the attached
    /// transport, which is then detached. Running actors, if any, will be
    /// rescheduled elsewhere by the control plane.
    pub fn handle_shutdown(&mut self) -> (actions: Vec<CoordinatorAction>)
        requires
            old(self).wf(),
        ensures
            final(self).wf(),
            final(self).state == old(self).state,
            final(self).completions == old(self).completions,
            final(self).worker_id == old(self).worker_id,
            !final(self).control_stream.attached,
            old(self).control_stream.attached ==> actions@.len() == 1 && match actions@[0] {
                CoordinatorAction::ShutdownStream => true,
                _ => false,
            },
            !old(self).control_stream.attached ==> actions@.len() == 0,
    {
        let mut actions: Vec<CoordinatorAction> = Vec::new();
        if self.control_stream.reset_stream() {
            actions.push(CoordinatorAction::ShutdownStream);
        }
        actions
    }
}

impl LocalBarrierWorker {
    /// A backfilling actor reported progress at the barrier of `epoch`; it
    /// goes out with that barrier's report. A report that matches no barrier
    /// in flight is dropped.
    pub fn update_create_mview_progress(
        &mut self,
        actor_id: ActorId,
        epoch: EpochPair,
        progress: CreateMviewProgress,
    ) -> (recorded: bool)
        requires
            old(self).wf(),
        ensures
            final(self).wf(),
            final(self).completions == old(self).completions,
            final(self).control_stream == old(self).control_stream,
            final(self).worker_id == old(self).worker_id,
            recorded <==> old(self).state.has_barrier_for_progress(actor_id, epoch),
            recorded ==> progress_recorded(old(self).state, final(self).state, actor_id, epoch, progress),
            !recorded ==> final(self).state.unchanged(&old(self).state),
    {
        self.state.update_create_mview_progress(actor_id, epoch, progress)
    }
}

} // verus!
