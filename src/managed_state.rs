//! The barrier ledger: which actors still owe which barriers, per partial graph.
use std::collections::HashMap;

use vstd::prelude::*;

use crate::barrier::{
    ActorId, Barrier, BarrierKind, CreateMviewProgress, EpochPair, InjectBarrierRequest,
    PartialGraphId, TableId,
};

verus! {

broadcast use vstd::std_specs::hash::group_hash_axioms;

/// Per-actor record: the epochs dispatched to it and not yet collected.
pub struct ActorState {
    pub partial_graph_id: PartialGraphId,
    /// `prev` epochs of the barriers in flight, strictly ascending.
    pub inflight_barriers: Vec<u64>,
    pub is_running: bool,
}

/// A barrier that has been dispatched and waits for its actors.
pub struct IssuedBarrier {
    pub barrier: Barrier,
    pub actors_to_collect: Vec<ActorId>,
    /// Tables whose state changed in this epoch, synced on completion.
    pub table_ids: Vec<TableId>,
    /// Backfill progress reported at this barrier, in order of arrival.
    pub create_mview_progress: Vec<CreateMviewProgress>,
}

/// A non-checkpoint barrier collected by all its actors, ready to be
/// reported with the backfill progress reported at it.
#[derive(Debug)]
pub struct CollectedEpoch {
    pub partial_graph_id: PartialGraphId,
    pub barrier: Barrier,
    pub create_mview_progress: Vec<CreateMviewProgress>,
}

/// Per-partial-graph record.
pub struct PartialGraphState {
    pub actor_ids: Vec<ActorId>,
    /// Barriers dispatched and not yet collected by all, ascending by epoch.
    pub issued: Vec<IssuedBarrier>,
    /// Checkpoint barriers collected by all, waiting for a durability request.
    pub collected_checkpoints: Vec<IssuedBarrier>,
    /// The `prev` epoch of the last barrier issued on this graph.
    pub last_issued_epoch: Option<u64>,
}

/// Why a request does not fit the ledger, as the check functions report it.
/// Each is a broken protocol contract, on which the caller aborts.
#[derive(Clone, Copy, Debug, PartialEq, Eq, Structural)]
pub enum BarrierStateError {
    UnknownPartialGraph(PartialGraphId),
    PartialGraphNotEmpty(PartialGraphId),
    EpochNotAscending(u64),
    ActorInOtherGraph(ActorId),
    DuplicateActor(ActorId),
    UnknownActor(ActorId),
    NoInflightBarrier(ActorId),
    OutOfOrderCollect { actor_id: ActorId, expected: u64, got: u64 },
}

/// The authoritative barrier ledger of the node.
pub struct ManagedBarrierState {
    pub actor_states: HashMap<ActorId, ActorState>,
    pub graph_states: HashMap<PartialGraphId, PartialGraphState>,
    /// Non-checkpoint barriers collected by all their actors, in the order
    /// they were collected.
    pub collected_epochs: Vec<CollectedEpoch>,
}

pub open spec fn strictly_ascending(s: Seq<u64>) -> bool {
    forall|i: int, j: int| 0 <= i < j < s.len() ==> s[i] < s[j]
}

/// No epoch of `s` is newer than `last`, the last one issued.
pub open spec fn inflight_bounded(s: Seq<u64>, last: Option<u64>) -> bool {
    forall|i: int| 0 <= i < s.len() ==> last.is_some() && #[trigger] s[i] <= last.unwrap()
}

pub open spec fn prev_of(b: IssuedBarrier) -> u64 {
    b.barrier.epoch.prev
}

/// The issued queue is ordered by epoch and bounded by the last issued epoch.
pub open spec fn issued_wf(q: Seq<IssuedBarrier>, last: Option<u64>) -> bool {
    &&& forall|i: int, j: int| 0 <= i < j < q.len() ==> prev_of(q[i]) < prev_of(q[j])
    &&& forall|i: int|
        0 <= i < q.len() ==> last.is_some() && prev_of(#[trigger] q[i]) <= last.unwrap()
}

/// Actor `a` still holds the barrier of epoch `e`.
pub open spec fn holds_epoch(actors: Map<ActorId, ActorState>, a: ActorId, e: u64) -> bool {
    actors.contains_key(a) && actors[a].inflight_barriers@.contains(e)
}

/// Every actor that the barrier targets has collected it.
pub open spec fn collected_by_all(b: IssuedBarrier, actors: Map<ActorId, ActorState>) -> bool {
    forall|i: int|
        0 <= i < b.actors_to_collect@.len() ==> !holds_epoch(
            actors,
            #[trigger] b.actors_to_collect@[i],
            prev_of(b),
        )
}

/// The barriers of `q` that some target still owes, in order.
pub open spec fn still_issued(q: Seq<IssuedBarrier>, actors: Map<ActorId, ActorState>) -> Seq<
    IssuedBarrier,
>
    decreases q.len(),
{
    if q.len() == 0 {
        Seq::empty()
    } else if collected_by_all(q.last(), actors) {
        still_issued(q.drop_last(), actors)
    } else {
        still_issued(q.drop_last(), actors).push(q.last())
    }
}

/// The barriers of `q` that all their targets have collected, in order.
pub open spec fn fully_collected(q: Seq<IssuedBarrier>, actors: Map<ActorId, ActorState>) -> Seq<
    IssuedBarrier,
>
    decreases q.len(),
{
    if q.len() == 0 {
        Seq::empty()
    } else if collected_by_all(q.last(), actors) {
        fully_collected(q.drop_last(), actors).push(q.last())
    } else {
        fully_collected(q.drop_last(), actors)
    }
}

/// The checkpoint barriers of `s`, in order.
pub open spec fn checkpoints_of(s: Seq<IssuedBarrier>) -> Seq<IssuedBarrier>
    decreases s.len(),
{
    if s.len() == 0 {
        Seq::empty()
    } else if s.last().barrier.kind == BarrierKind::Checkpoint {
        checkpoints_of(s.drop_last()).push(s.last())
    } else {
        checkpoints_of(s.drop_last())
    }
}

/// The non-checkpoint barriers of `s`, in order, as reports for graph `g`.
pub open spec fn collected_events_of(g: PartialGraphId, s: Seq<IssuedBarrier>) -> Seq<
    CollectedEpoch,
>
    decreases s.len(),
{
    if s.len() == 0 {
        Seq::empty()
    } else if s.last().barrier.kind == BarrierKind::Checkpoint {
        collected_events_of(g, s.drop_last())
    } else {
        collected_events_of(g, s.drop_last()).push(
            CollectedEpoch {
                partial_graph_id: g,
                barrier: s.last().barrier,
                create_mview_progress: s.last().create_mview_progress,
            },
        )
    }
}

/// `post` is `pre` with its issued queue `q` replaced and every barrier of
/// `q` that all its targets collected moved on: checkpoints to the graph's
/// collected queue, the others to the reports in `post_events`. The others
/// stay issued, in order.
pub open spec fn graduated(
    pre: PartialGraphState,
    q: Seq<IssuedBarrier>,
    pre_events: Seq<CollectedEpoch>,
    actors: Map<ActorId, ActorState>,
    g: PartialGraphId,
    post: PartialGraphState,
    post_events: Seq<CollectedEpoch>,
) -> bool {
    let done = fully_collected(q, actors);
    &&& post.issued@ == still_issued(q, actors)
    &&& post.collected_checkpoints@ == pre.collected_checkpoints@ + checkpoints_of(done)
    &&& post_events == pre_events + collected_events_of(g, done)
}

proof fn lemma_checkpoints_of(s: Seq<IssuedBarrier>)
    ensures
        forall|i: int|
            0 <= i < checkpoints_of(s).len() ==> #[trigger] checkpoints_of(s)[i].barrier.kind
                == BarrierKind::Checkpoint,
    decreases s.len(),
{
    if s.len() > 0 {
        lemma_checkpoints_of(s.drop_last());
    }
}

/// Each barrier of `q` is in exactly one of the two parts, and each part
/// holds barriers of `q` only.
proof fn lemma_partition(q: Seq<IssuedBarrier>, actors: Map<ActorId, ActorState>)
    ensures
        forall|i: int|
            0 <= i < still_issued(q, actors).len() ==> exists|j: int|
                0 <= j < q.len() && #[trigger] still_issued(q, actors)[i] == q[j]
                    && !collected_by_all(q[j], actors),
        forall|i: int|
            0 <= i < fully_collected(q, actors).len() ==> exists|j: int|
                0 <= j < q.len() && #[trigger] fully_collected(q, actors)[i] == q[j]
                    && collected_by_all(q[j], actors),
        forall|j: int|
            0 <= j < q.len() && collected_by_all(q[j], actors) ==> fully_collected(
                q,
                actors,
            ).contains(#[trigger] q[j]),
        forall|j: int|
            0 <= j < q.len() && !collected_by_all(q[j], actors) ==> still_issued(
                q,
                actors,
            ).contains(#[trigger] q[j]),
    decreases q.len(),
{
    if q.len() > 0 {
        let p = q.drop_last();
        lemma_partition(p, actors);
        let st = still_issued(q, actors);
        let fc = fully_collected(q, actors);
        let sp = still_issued(p, actors);
        let fp = fully_collected(p, actors);
        let last = q.len() - 1;
        assert forall|i: int| 0 <= i < st.len() implies exists|j: int|
            0 <= j < q.len() && #[trigger] st[i] == q[j] && !collected_by_all(q[j], actors) by {
            if i < sp.len() {
                let j = choose|j: int|
                    0 <= j < p.len() && #[trigger] sp[i] == p[j] && !collected_by_all(p[j], actors);
                assert(st[i] == q[j]);
            } else {
                assert(st[i] == q[last]);
            }
        }
        assert forall|i: int| 0 <= i < fc.len() implies exists|j: int|
            0 <= j < q.len() && #[trigger] fc[i] == q[j] && collected_by_all(q[j], actors) by {
            if i < fp.len() {
                let j = choose|j: int|
                    0 <= j < p.len() && #[trigger] fp[i] == p[j] && collected_by_all(p[j], actors);
                assert(fc[i] == q[j]);
            } else {
                assert(fc[i] == q[last]);
            }
        }
        assert forall|j: int| 0 <= j < q.len() && collected_by_all(q[j], actors) implies fc.contains(
            #[trigger] q[j],
        ) by {
            if j < last {
                assert(p[j] == q[j]);
                assert(fp.contains(p[j]));
                let k = choose|k: int| 0 <= k < fp.len() && fp[k] == p[j];
                assert(fc[k] == fp[k]);
            } else {
                assert(fc[fc.len() - 1] == q[j]);
            }
        }
        assert forall|j: int| 0 <= j < q.len() && !collected_by_all(q[j], actors) implies st.contains(
            #[trigger] q[j],
        ) by {
            if j < last {
                assert(p[j] == q[j]);
                assert(sp.contains(p[j]));
                let k = choose|k: int| 0 <= k < sp.len() && sp[k] == p[j];
                assert(st[k] == sp[k]);
            } else {
                assert(st[st.len() - 1] == q[j]);
            }
        }
    }
}

proof fn lemma_push_contains<T>(s: Seq<T>, x: T, y: T)
    ensures
        s.push(x).contains(y) <==> (s.contains(y) || y == x),
{
    if s.push(x).contains(y) {
        let k = choose|k: int| 0 <= k < s.len() + 1 && s.push(x)[k] == y;
        if k < s.len() {
            assert(s[k] == y);
        }
    }
    if s.contains(y) {
        let k = choose|k: int| 0 <= k < s.len() && s[k] == y;
        assert(s.push(x)[k] == y);
    }
    if y == x {
        assert(s.push(x)[s.len() as int] == y);
    }
}

/// `b` is the issued record that an inject request becomes: no progress
/// has been reported at it yet.
pub open spec fn issued_from(req: InjectBarrierRequest, b: IssuedBarrier) -> bool {
    &&& b.barrier == req.barrier
    &&& b.actors_to_collect == req.actor_ids_to_collect
    &&& b.table_ids == req.table_ids_to_sync
    &&& b.create_mview_progress@.len() == 0
}

/// `post` is `pre` with actor `a` registered on graph `g` if it was not
/// there, marked running if `run`, and with `push` appended to its epochs.
pub open spec fn actor_upserted(
    pre: Map<ActorId, ActorState>,
    post: Map<ActorId, ActorState>,
    a: ActorId,
    g: PartialGraphId,
    run: bool,
    push: Option<u64>,
) -> bool {
    let old_inflight = if pre.contains_key(a) {
        pre[a].inflight_barriers@
    } else {
        Seq::empty()
    };
    &&& post.dom() == pre.dom().insert(a)
    &&& forall|b: ActorId| #![trigger post[b]] pre.contains_key(b) && b != a ==> post[b] == pre[b]
    &&& post[a].partial_graph_id == if pre.contains_key(a) {
        pre[a].partial_graph_id
    } else {
        g
    }
    &&& post[a].inflight_barriers@ == match push {
        Some(e) => old_inflight.push(e),
        None => old_inflight,
    }
    &&& post[a].is_running == ((pre.contains_key(a) && pre[a].is_running) || run)
}

proof fn lemma_take_contains<T>(s: Seq<T>, i: int, y: T)
    requires
        0 <= i < s.len(),
    ensures
        s.take(i + 1).contains(y) <==> (s.take(i).contains(y) || y == s[i]),
{
    assert(s.take(i + 1) == s.take(i).push(s[i]));
    lemma_push_contains(s.take(i), s[i], y);
}

/// `q1` is `q0` with progress `p` reported at its barrier at index `i`.
pub open spec fn progress_added(
    q0: Seq<IssuedBarrier>,
    q1: Seq<IssuedBarrier>,
    i: int,
    p: CreateMviewProgress,
) -> bool {
    &&& q1.len() == q0.len()
    &&& forall|j: int| 0 <= j < q0.len() && j != i ==> #[trigger] q1[j] == q0[j]
    &&& q1[i].barrier == q0[i].barrier
    &&& q1[i].actors_to_collect == q0[i].actors_to_collect
    &&& q1[i].table_ids == q0[i].table_ids
    &&& q1[i].create_mview_progress@ == q0[i].create_mview_progress@.push(p)
}

impl ManagedBarrierState {
    /// The actor exists and its graph has the barrier of `epoch` in flight.
    pub open spec fn has_barrier_for_progress(&self, a: ActorId, epoch: EpochPair) -> bool {
        self.actors().contains_key(a) && exists|i: int|
            0 <= i < self.graphs()[self.actors()[a].partial_graph_id].issued@.len() && prev_of(
                #[trigger] self.graphs()[self.actors()[a].partial_graph_id].issued@[i],
            ) == epoch.prev
    }
}

/// The ledger after backfill progress `p` of actor `a` was recorded at the
/// barrier of `epoch` in flight on the actor's graph.
pub open spec fn progress_recorded(
    pre: ManagedBarrierState,
    post: ManagedBarrierState,
    a: ActorId,
    epoch: EpochPair,
    p: CreateMviewProgress,
) -> bool {
    let g = pre.actors()[a].partial_graph_id;
    &&& post.actors() == pre.actors()
    &&& post.collected_epochs@ == pre.collected_epochs@
    &&& post.graphs().dom() == pre.graphs().dom()
    &&& forall|h: PartialGraphId|
        #![trigger post.graphs()[h]]
        pre.graphs().contains_key(h) && h != g ==> post.graphs()[h] == pre.graphs()[h]
    &&& post.graphs()[g].actor_ids == pre.graphs()[g].actor_ids
    &&& post.graphs()[g].collected_checkpoints == pre.graphs()[g].collected_checkpoints
    &&& post.graphs()[g].last_issued_epoch == pre.graphs()[g].last_issued_epoch
    &&& exists|i: int|
        0 <= i < pre.graphs()[g].issued@.len() && prev_of(#[trigger] pre.graphs()[g].issued@[i])
            == epoch.prev && progress_added(pre.graphs()[g].issued@, post.graphs()[g].issued@, i, p)
}

/// The position of the first barrier of `s` with epoch `e`, or -1 if none.
pub open spec fn first_index(s: Seq<IssuedBarrier>, e: u64) -> int
    decreases s.len(),
{
    if s.len() == 0 {
        -1
    } else if prev_of(s[0]) == e {
        0
    } else {
        let r = first_index(s.drop_first(), e);
        if r < 0 {
            -1
        } else {
            r + 1
        }
    }
}

pub proof fn lemma_first_index(s: Seq<IssuedBarrier>, e: u64)
    ensures
        -1 <= first_index(s, e) < s.len(),
        first_index(s, e) >= 0 ==> prev_of(s[first_index(s, e)]) == e,
        forall|j: int| 0 <= j < first_index(s, e) ==> prev_of(#[trigger] s[j]) != e,
        first_index(s, e) < 0 ==> forall|j: int| 0 <= j < s.len() ==> prev_of(#[trigger] s[j]) != e,
    decreases s.len(),
{
    if s.len() > 0 && prev_of(s[0]) != e {
        let t = s.drop_first();
        lemma_first_index(t, e);
        assert forall|j: int| 0 <= j < first_index(s, e) implies prev_of(#[trigger] s[j]) != e by {
            if j > 0 {
                assert(s[j] == t[j - 1]);
            }
        }
        if first_index(s, e) < 0 {
            assert forall|j: int| 0 <= j < s.len() implies prev_of(#[trigger] s[j]) != e by {
                if j > 0 {
                    assert(s[j] == t[j - 1]);
                }
            }
        } else {
            assert(s[first_index(s, e)] == t[first_index(t, e)]);
        }
    }
}

/// The error that `check_collect` reports when `a` may not collect `epoch`.
pub open spec fn collect_error(s: ManagedBarrierState, a: ActorId, epoch: EpochPair) -> BarrierStateError {
    if !s.actors().contains_key(a) {
        BarrierStateError::UnknownActor(a)
    } else if s.inflight(a).len() == 0 {
        BarrierStateError::NoInflightBarrier(a)
    } else {
        BarrierStateError::OutOfOrderCollect { actor_id: a, expected: s.inflight(a)[0], got: epoch.prev }
    }
}

/// The ledger after `a` collected its oldest barrier in flight: that epoch
/// leaves the actor, and every barrier of its graph that all its actors
/// have collected moves on.
pub open spec fn collect_post(pre: ManagedBarrierState, post: ManagedBarrierState, a: ActorId) -> bool {
    let g = pre.actors()[a].partial_graph_id;
    &&& post.actors().dom() == pre.actors().dom()
    &&& forall|b: ActorId|
        #![trigger post.actors()[b]]
        pre.actors().contains_key(b) && b != a ==> post.actors()[b] == pre.actors()[b]
    &&& post.actors()[a].partial_graph_id == g
    &&& post.actors()[a].is_running == pre.actors()[a].is_running
    &&& post.actors()[a].inflight_barriers@ == pre.inflight(a).drop_first()
    &&& post.graphs().dom() == pre.graphs().dom()
    &&& forall|h: PartialGraphId|
        #![trigger post.graphs()[h]]
        pre.graphs().contains_key(h) && h != g ==> post.graphs()[h] == pre.graphs()[h]
    &&& post.graphs()[g].actor_ids == pre.graphs()[g].actor_ids
    &&& post.graphs()[g].last_issued_epoch == pre.graphs()[g].last_issued_epoch
    &&& graduated(
        pre.graphs()[g],
        pre.graphs()[g].issued@,
        pre.collected_epochs@,
        post.actors(),
        g,
        post.graphs()[g],
        post.collected_epochs@,
    )
}

impl ManagedBarrierState {
    /// Whether an inject request fits the ledger: its graph exists, its epoch
    /// is newer than any issued on that graph, its target actors are distinct,
    /// every named actor that exists belongs to that graph, and every target
    /// holds only older epochs.
    pub open spec fn accepts_inject(&self, req: InjectBarrierRequest) -> bool {
        let g = req.partial_graph_id;
        let e = req.barrier.epoch.prev;
        let targets = req.actor_ids_to_collect@;
        let builds = req.actors_to_build@;
        &&& self.graphs().contains_key(g)
        &&& (self.graphs()[g].last_issued_epoch.is_none()
            || self.graphs()[g].last_issued_epoch.unwrap() < e)
        &&& forall|i: int, j: int| 0 <= i < j < targets.len() ==> targets[i] != targets[j]
        &&& forall|a: ActorId|
            #![trigger self.actors()[a]]
            (targets.contains(a) || builds.contains(a)) && self.actors().contains_key(a)
                ==> self.actors()[a].partial_graph_id == g
        &&& forall|a: ActorId|
            #![trigger self.inflight(a)]
            targets.contains(a) && self.inflight(a).len() > 0 ==> self.inflight(a).last() < e
    }
}

/// The ledger after an accepted inject request: every target holds the new
/// epoch, built actors run, new actors join the graph, and the barrier joins
/// the graph's issued queue (moving on at once if no actor owes it).
pub open spec fn inject_post(
    pre: ManagedBarrierState,
    post: ManagedBarrierState,
    req: InjectBarrierRequest,
) -> bool {
    let g = req.partial_graph_id;
    let e = req.barrier.epoch.prev;
    let targets = req.actor_ids_to_collect@;
    let builds = req.actors_to_build@;
    &&& forall|a: ActorId| #[trigger]
        post.actors().contains_key(a) <==> (pre.actors().contains_key(a) || targets.contains(a)
            || builds.contains(a))
    &&& forall|a: ActorId|
        #![trigger post.actors()[a]]
        post.actors().contains_key(a) ==> {
            &&& post.actors()[a].partial_graph_id == if pre.actors().contains_key(a) {
                pre.actors()[a].partial_graph_id
            } else {
                g
            }
            &&& post.inflight(a) == if targets.contains(a) {
                pre.inflight(a).push(e)
            } else {
                pre.inflight(a)
            }
            &&& post.actors()[a].is_running == ((pre.actors().contains_key(a)
                && pre.actors()[a].is_running) || builds.contains(a))
        }
    &&& post.graphs().dom() == pre.graphs().dom()
    &&& forall|h: PartialGraphId|
        #![trigger post.graphs()[h]]
        pre.graphs().contains_key(h) && h != g ==> post.graphs()[h] == pre.graphs()[h]
    &&& forall|a: ActorId| #[trigger]
        post.graphs()[g].actor_ids@.contains(a) <==> (pre.graphs()[g].actor_ids@.contains(a) || (
        !pre.actors().contains_key(a) && (targets.contains(a) || builds.contains(a))))
    &&& post.graphs()[g].last_issued_epoch == Some(e)
    &&& exists|b: IssuedBarrier|
        #[trigger] issued_from(req, b) && graduated(
            pre.graphs()[g],
            pre.graphs()[g].issued@.push(b),
            pre.collected_epochs@,
            post.actors(),
            g,
            post.graphs()[g],
            post.collected_epochs@,
        )
}

proof fn lemma_collected_events_kind(g: PartialGraphId, s: Seq<IssuedBarrier>)
    ensures
        forall|i: int|
            0 <= i < collected_events_of(g, s).len() ==> (#[trigger] collected_events_of(g, s)[i]).barrier.kind
                == BarrierKind::NonCheckpoint && collected_events_of(g, s)[i].partial_graph_id == g,
    decreases s.len(),
{
    if s.len() > 0 {
        lemma_collected_events_kind(g, s.drop_last());
    }
}

/// Every actor's epochs in flight are strictly ascending, so an actor
/// collects its barriers in strictly increasing epoch order: after it
/// collected `e1`, the next epoch it may collect is greater.
pub proof fn lemma_collect_order(pre: ManagedBarrierState, post: ManagedBarrierState, a: ActorId)
    requires
        pre.wf(),
        pre.inflight(a).len() > 0,
        collect_post(pre, post, a),
    ensures
        strictly_ascending(pre.inflight(a)),
        strictly_ascending(post.inflight(a)),
        post.inflight(a) == pre.inflight(a).drop_first(),
        forall|i: int| 0 <= i < post.inflight(a).len() ==> pre.inflight(a)[0] < #[trigger] post.inflight(a)[i],
{
    assert(pre.actors().contains_key(a));
    assert(post.actors().contains_key(a));
    assert forall|i: int| 0 <= i < post.inflight(a).len() implies pre.inflight(a)[0]
        < #[trigger] post.inflight(a)[i] by {
        assert(post.inflight(a)[i] == pre.inflight(a)[i + 1]);
    }
}

/// Actor `a` exists, every epoch it holds is newer than `e`, and its graph
/// has issued `e` or a newer epoch, so every epoch it issues from now on is
/// newer than `e` too.
pub open spec fn newer_than(s: ManagedBarrierState, a: ActorId, e: u64) -> bool {
    &&& s.actors().contains_key(a)
    &&& forall|i: int| 0 <= i < s.inflight(a).len() ==> #[trigger] s.inflight(a)[i] > e
    &&& s.graphs()[s.actors()[a].partial_graph_id].last_issued_epoch.is_some()
    &&& s.graphs()[s.actors()[a].partial_graph_id].last_issued_epoch.unwrap() >= e
}

/// Once an actor collected epoch `e`, everything it holds and will be
/// given is newer than `e`.
pub proof fn lemma_collected_epoch_is_passed(pre: ManagedBarrierState, post: ManagedBarrierState, a: ActorId)
    requires
        pre.wf(),
        pre.inflight(a).len() > 0,
        collect_post(pre, post, a),
    ensures
        newer_than(post, a, pre.inflight(a)[0]),
{
    lemma_collect_order(pre, post, a);
    let g = pre.actors()[a].partial_graph_id;
    assert(pre.inflight(a)[0] <= pre.graphs()[g].last_issued_epoch.unwrap());
}

/// A later collection, by any actor, keeps `newer_than`.
pub proof fn lemma_passed_after_collect(
    pre: ManagedBarrierState,
    post: ManagedBarrierState,
    b: ActorId,
    a: ActorId,
    e: u64,
)
    requires
        pre.wf(),
        pre.inflight(b).len() > 0,
        collect_post(pre, post, b),
        newer_than(pre, a, e),
    ensures
        newer_than(post, a, e),
{
    let g = pre.actors()[b].partial_graph_id;
    let h = pre.actors()[a].partial_graph_id;
    assert(post.actors().contains_key(a));
    if a == b {
        assert forall|i: int| 0 <= i < post.inflight(a).len() implies #[trigger] post.inflight(a)[i]
            > e by {
            assert(post.inflight(a)[i] == pre.inflight(a)[i + 1]);
        }
    } else {
        assert(post.actors()[a] == pre.actors()[a]);
        assert(post.inflight(a) == pre.inflight(a));
        if h != g {
            assert(post.graphs()[h] == pre.graphs()[h]);
        }
    }
}

/// A later inject keeps `newer_than`: the epoch it issues is newer than
/// any its graph issued before.
pub proof fn lemma_passed_after_inject(
    pre: ManagedBarrierState,
    post: ManagedBarrierState,
    req: InjectBarrierRequest,
    a: ActorId,
    e: u64,
)
    requires
        pre.wf(),
        pre.accepts_inject(req),
        inject_post(pre, post, req),
        newer_than(pre, a, e),
    ensures
        newer_than(post, a, e),
{
    let g = pre.actors()[a].partial_graph_id;
    assert(post.actors().contains_key(a));
    assert(post.actors()[a].partial_graph_id == g);
    if req.actor_ids_to_collect@.contains(a) {
        assert(g == req.partial_graph_id);
        assert forall|i: int| 0 <= i < post.inflight(a).len() implies #[trigger] post.inflight(a)[i]
            > e by {
            if i < pre.inflight(a).len() {
                assert(post.inflight(a)[i] == pre.inflight(a)[i]);
            }
        }
    } else {
        assert(post.inflight(a) == pre.inflight(a));
    }
}

/// A change that keeps every actor, and the last issued epoch of actor
/// `a`'s graph, keeps `newer_than`: creating, removing or completing
/// partial graphs' barriers and recording progress are such changes.
pub proof fn lemma_passed_kept(pre: ManagedBarrierState, post: ManagedBarrierState, a: ActorId, e: u64)
    requires
        newer_than(pre, a, e),
        post.actors() == pre.actors(),
        post.graphs().contains_key(pre.actors()[a].partial_graph_id),
        post.graphs()[pre.actors()[a].partial_graph_id].last_issued_epoch == pre.graphs()[pre.actors()[a].partial_graph_id].last_issued_epoch,
    ensures
        newer_than(post, a, e),
{
    assert(post.inflight(a) == pre.inflight(a));
}

/// Removing partial graphs never removes actor `a`'s graph, which holds
/// `a`; so it keeps `newer_than`.
pub proof fn lemma_passed_after_remove(
    pre: ManagedBarrierState,
    post: ManagedBarrierState,
    ids: Seq<PartialGraphId>,
    a: ActorId,
    e: u64,
)
    requires
        pre.wf(),
        !pre.removes_non_empty(ids),
        post.actors() == pre.actors(),
        forall|g: PartialGraphId| #[trigger]
            post.graphs().contains_key(g) <==> (pre.graphs().contains_key(g) && !ids.contains(g)),
        forall|g: PartialGraphId| #[trigger]
            post.graphs().contains_key(g) ==> post.graphs()[g] == pre.graphs()[g],
        newer_than(pre, a, e),
    ensures
        newer_than(post, a, e),
{
    let g = pre.actors()[a].partial_graph_id;
    assert(pre.graphs()[g].actor_ids@.contains(a));
    if ids.contains(g) {
        let k = choose|k: int| 0 <= k < ids.len() && #[trigger] ids[k] == g;
        assert(!pre.graphs()[ids[k]].is_empty_spec());
    }
    assert(post.graphs().contains_key(g));
    assert(post.inflight(a) == pre.inflight(a));
}

/// An actor's collections come in strictly increasing epoch order, across
/// any calls in between: the next epoch it may collect is newer than every
/// epoch it collected before.
pub proof fn lemma_next_collect_is_newer(s: ManagedBarrierState, a: ActorId, e: u64)
    requires
        newer_than(s, a, e),
        s.inflight(a).len() > 0,
    ensures
        s.inflight(a)[0] > e,
{
}

/// A barrier moves on as soon as every actor it targets has collected it,
/// and exactly once. After a collection, each barrier of the actor's graph
/// that all its targets collected has left the issued queue, and no later
/// barrier of the graph can carry its epoch, since its epoch is no newer
/// than the graph's last issued one. Each barrier that some target still
/// owes stays issued.
pub proof fn lemma_graduation_exactly_once(
    pre: ManagedBarrierState,
    post: ManagedBarrierState,
    a: ActorId,
)
    requires
        pre.wf(),
        pre.actors().contains_key(a),
        collect_post(pre, post, a),
    ensures
        ({
            let g = pre.actors()[a].partial_graph_id;
            let q = pre.graphs()[g].issued@;
            let rest = post.graphs()[g].issued@;
            &&& forall|j: int, m: int|
                0 <= j < q.len() && 0 <= m < rest.len() && collected_by_all(q[j], post.actors())
                    ==> prev_of(#[trigger] q[j]) != prev_of(#[trigger] rest[m])
            &&& forall|j: int|
                0 <= j < q.len() && collected_by_all(q[j], post.actors())
                    ==> post.graphs()[g].last_issued_epoch.is_some() && prev_of(#[trigger] q[j])
                    <= post.graphs()[g].last_issued_epoch.unwrap()
            &&& forall|j: int|
                0 <= j < q.len() && !collected_by_all(q[j], post.actors()) ==> rest.contains(
                    #[trigger] q[j],
                )
            &&& forall|m: int|
                0 <= m < rest.len() ==> !collected_by_all(#[trigger] rest[m], post.actors())
        }),
{
    let g = pre.actors()[a].partial_graph_id;
    let q = pre.graphs()[g].issued@;
    let acts = post.actors();
    let rest = post.graphs()[g].issued@;
    lemma_partition(q, acts);
    assert(pre.graphs()[g].wf());
    assert forall|j: int, m: int|
        0 <= j < q.len() && 0 <= m < rest.len() && collected_by_all(q[j], acts) implies prev_of(
        #[trigger] q[j],
    ) != prev_of(#[trigger] rest[m]) by {
        let i = choose|i: int| 0 <= i < q.len() && rest[m] == q[i] && !collected_by_all(q[i], acts);
        assert(i != j);
    }
    assert forall|m: int| 0 <= m < rest.len() implies !collected_by_all(#[trigger] rest[m], acts) by {
        let i = choose|i: int| 0 <= i < q.len() && rest[m] == q[i] && !collected_by_all(q[i], acts);
    }
}

/// Collection never reports a checkpoint barrier. The reports a collection
/// adds are non-checkpoint barriers of the actor's graph, and every
/// non-checkpoint barrier that all its targets collected is among them at
/// once; every checkpoint barrier that all its targets collected waits in
/// the graph's collected queue for a complete-barrier request.
pub proof fn lemma_checkpoint_gating(pre: ManagedBarrierState, post: ManagedBarrierState, a: ActorId)
    requires
        pre.wf(),
        pre.actors().contains_key(a),
        collect_post(pre, post, a),
    ensures
        ({
            let g = pre.actors()[a].partial_graph_id;
            let q = pre.graphs()[g].issued@;
            let old_len = pre.collected_epochs@.len() as int;
            let new_events = post.collected_epochs@.skip(old_len);
            &&& post.collected_epochs@.len() >= old_len
            &&& post.collected_epochs@.take(old_len) == pre.collected_epochs@
            &&& forall|i: int|
                0 <= i < new_events.len() ==> (#[trigger] new_events[i]).barrier.kind
                    == BarrierKind::NonCheckpoint && new_events[i].partial_graph_id == g
            &&& forall|j: int|
                0 <= j < q.len() && collected_by_all(q[j], post.actors()) && q[j].barrier.kind
                    == BarrierKind::Checkpoint ==> post.graphs()[g].collected_checkpoints@.contains(
                    #[trigger] q[j],
                )
            &&& forall|j: int|
                0 <= j < q.len() && collected_by_all(q[j], post.actors()) && q[j].barrier.kind
                    != BarrierKind::Checkpoint ==> new_events.contains(
                    CollectedEpoch {
                        partial_graph_id: g,
                        barrier: (#[trigger] q[j]).barrier,
                        create_mview_progress: q[j].create_mview_progress,
                    },
                )
        }),
{
    let g = pre.actors()[a].partial_graph_id;
    let q = pre.graphs()[g].issued@;
    let acts = post.actors();
    let fc = fully_collected(q, acts);
    let old_len = pre.collected_epochs@.len() as int;
    lemma_partition(q, acts);
    lemma_collected_events_kind(g, fc);
    let ev = collected_events_of(g, fc);
    assert(post.collected_epochs@ == pre.collected_epochs@ + ev);
    assert(post.collected_epochs@.take(old_len) =~= pre.collected_epochs@);
    assert(post.collected_epochs@.skip(old_len) =~= ev);
    assert forall|j: int|
        0 <= j < q.len() && collected_by_all(q[j], acts) && q[j].barrier.kind
            == BarrierKind::Checkpoint implies post.graphs()[g].collected_checkpoints@.contains(
        #[trigger] q[j],
    ) by {
        let k = choose|k: int| 0 <= k < fc.len() && fc[k] == q[j];
        lemma_checkpoints_contains(fc, k);
        let cc = pre.graphs()[g].collected_checkpoints@;
        let ck = checkpoints_of(fc);
        let i = choose|i: int| 0 <= i < ck.len() && ck[i] == fc[k];
        assert((cc + ck)[cc.len() + i] == q[j]);
    }
    assert forall|j: int|
        0 <= j < q.len() && collected_by_all(q[j], acts) && q[j].barrier.kind
            != BarrierKind::Checkpoint implies ev.contains(
        CollectedEpoch {
            partial_graph_id: g,
            barrier: (#[trigger] q[j]).barrier,
            create_mview_progress: q[j].create_mview_progress,
        },
    ) by {
        let k = choose|k: int| 0 <= k < fc.len() && fc[k] == q[j];
        lemma_events_contains(g, fc, k);
    }
}

proof fn lemma_events_contains(g: PartialGraphId, s: Seq<IssuedBarrier>, k: int)
    requires
        0 <= k < s.len(),
        s[k].barrier.kind != BarrierKind::Checkpoint,
    ensures
        collected_events_of(g, s).contains(
            CollectedEpoch {
                partial_graph_id: g,
                barrier: s[k].barrier,
                create_mview_progress: s[k].create_mview_progress,
            },
        ),
    decreases s.len(),
{
    let ev = CollectedEpoch {
        partial_graph_id: g,
        barrier: s[k].barrier,
        create_mview_progress: s[k].create_mview_progress,
    };
    if k == s.len() - 1 {
        assert(collected_events_of(g, s) == collected_events_of(g, s.drop_last()).push(ev));
        assert(collected_events_of(g, s)[collected_events_of(g, s).len() - 1] == ev);
    } else {
        lemma_events_contains(g, s.drop_last(), k);
        let c = collected_events_of(g, s.drop_last());
        assert(s.drop_last()[k] == s[k]);
        let j = choose|j: int| 0 <= j < c.len() && c[j] == ev;
        if s.last().barrier.kind != BarrierKind::Checkpoint {
            assert(collected_events_of(g, s)[j] == c[j]);
        }
    }
}

proof fn lemma_checkpoints_contains(s: Seq<IssuedBarrier>, k: int)
    requires
        0 <= k < s.len(),
        s[k].barrier.kind == BarrierKind::Checkpoint,
    ensures
        checkpoints_of(s).contains(s[k]),
    decreases s.len(),
{
    if k == s.len() - 1 {
        assert(checkpoints_of(s) == checkpoints_of(s.drop_last()).push(s[k]));
        assert(checkpoints_of(s)[checkpoints_of(s).len() - 1] == s[k]);
    } else {
        lemma_checkpoints_contains(s.drop_last(), k);
        let c = checkpoints_of(s.drop_last());
        let j = choose|j: int| 0 <= j < c.len() && c[j] == s.drop_last()[k];
        if s.last().barrier.kind == BarrierKind::Checkpoint {
            assert(checkpoints_of(s)[j] == c[j]);
        }
    }
}

impl PartialGraphState {
    pub open spec fn wf(&self) -> bool {
        &&& issued_wf(self.issued@, self.last_issued_epoch)
        &&& forall|i: int|
            0 <= i < self.collected_checkpoints@.len()
                ==> #[trigger] self.collected_checkpoints@[i].barrier.kind == BarrierKind::Checkpoint
    }

    /// No actor, no barrier in flight, none waiting for durability.
    pub open spec fn is_empty_spec(&self) -> bool {
        &&& self.actor_ids@.len() == 0
        &&& self.issued@.len() == 0
        &&& self.collected_checkpoints@.len() == 0
    }

    pub fn new() -> (r: PartialGraphState)
        ensures
            r.is_empty_spec(),
            r.last_issued_epoch.is_none(),
            r.wf(),
    {
        PartialGraphState {
            actor_ids: Vec::new(),
            issued: Vec::new(),
            collected_checkpoints: Vec::new(),
            last_issued_epoch: None,
        }
    }

    pub fn is_empty(&self) -> (r: bool)
        ensures
            r == self.is_empty_spec(),
    {
        self.actor_ids.len() == 0 && self.issued.len() == 0 && self.collected_checkpoints.len() == 0
    }
}

impl ManagedBarrierState {
    pub open spec fn actors(&self) -> Map<ActorId, ActorState> {
        self.actor_states@
    }

    pub open spec fn graphs(&self) -> Map<PartialGraphId, PartialGraphState> {
        self.graph_states@
    }

    /// The epochs that actor `a` has been sent and has not collected yet.
    pub open spec fn inflight(&self, a: ActorId) -> Seq<u64> {
        if self.actors().contains_key(a) {
            self.actors()[a].inflight_barriers@
        } else {
            Seq::empty()
        }
    }

    pub open spec fn wf(&self) -> bool {
        &&& forall|a: ActorId| #[trigger]
            self.actors().contains_key(a) ==> {
                let st = self.actors()[a];
                &&& self.graphs().contains_key(st.partial_graph_id)
                &&& self.graphs()[st.partial_graph_id].actor_ids@.contains(a)
                &&& strictly_ascending(st.inflight_barriers@)
                &&& inflight_bounded(
                    st.inflight_barriers@,
                    self.graphs()[st.partial_graph_id].last_issued_epoch,
                )
            }
        &&& forall|g: PartialGraphId| #[trigger]
            self.graphs().contains_key(g) ==> self.graphs()[g].wf()
    }

    /// A ledger with the given partial graphs, all empty.
    pub fn new(graph_ids: &Vec<PartialGraphId>) -> (r: ManagedBarrierState)
        ensures
            r.wf(),
            r.actors().is_empty(),
            forall|g: PartialGraphId| #[trigger]
                r.graphs().contains_key(g) <==> graph_ids@.contains(g),
            forall|g: PartialGraphId| #[trigger]
                r.graphs().contains_key(g) ==> r.graphs()[g].is_empty_spec()
                    && r.graphs()[g].last_issued_epoch.is_none(),
            r.collected_epochs@.len() == 0,
    {
        let mut graph_states: HashMap<PartialGraphId, PartialGraphState> = HashMap::new();
        let mut i: usize = 0;
        while i < graph_ids.len()
            invariant
                0 <= i <= graph_ids@.len(),
                forall|g: PartialGraphId| #[trigger]
                    graph_states@.contains_key(g) <==> graph_ids@.take(i as int).contains(g),
                forall|g: PartialGraphId| #[trigger]
                    graph_states@.contains_key(g) ==> graph_states@[g].is_empty_spec()
                        && graph_states@[g].last_issued_epoch.is_none() && graph_states@[g].wf(),
            decreases graph_ids@.len() - i,
        {
            graph_states.insert(graph_ids[i], PartialGraphState::new());
            proof {
                let prefix = graph_ids@.take(i as int);
                assert(graph_ids@.take(i + 1) == prefix.push(graph_ids@[i as int]));
                assert forall|g: PartialGraphId| #[trigger]
                    graph_ids@.take(i + 1).contains(g) <==> (prefix.contains(g) || g
                        == graph_ids@[i as int]) by {
                    if graph_ids@.take(i + 1).contains(g) {
                        let k = choose|k: int|
                            0 <= k < i + 1 && #[trigger] graph_ids@.take(i + 1)[k] == g;
                        if k < i {
                            assert(prefix[k] == g);
                        }
                    }
                    if prefix.contains(g) {
                        let k = choose|k: int| 0 <= k < i && #[trigger] prefix[k] == g;
                        assert(graph_ids@.take(i + 1)[k] == g);
                    }
                    if g == graph_ids@[i as int] {
                        assert(graph_ids@.take(i + 1)[i as int] == g);
                    }
                }
            }
            i += 1;
        }
        assert(graph_ids@.take(i as int) == graph_ids@);
        ManagedBarrierState {
            actor_states: HashMap::new(),
            graph_states,
            collected_epochs: Vec::new(),
        }
    }

    pub open spec fn unchanged(&self, other: &Self) -> bool {
        &&& self.actors() == other.actors()
        &&& self.graphs() == other.graphs()
        &&& self.collected_epochs@ == other.collected_epochs@
    }

    /// Whether a partial graph with this id exists.
    pub fn contains_partial_graph(&self, partial_graph_id: PartialGraphId) -> (r: bool)
        ensures
            r == self.graphs().contains_key(partial_graph_id),
    {
        self.graph_states.contains_key(&partial_graph_id)
    }

    /// Registers a new, empty partial graph. The id must be free: adding
    /// one that exists is a broken contract, which callers treat as fatal.
    pub fn add_partial_graph(&mut self, partial_graph_id: PartialGraphId)
        requires
            old(self).wf(),
            !old(self).graphs().contains_key(partial_graph_id),
        ensures
            final(self).wf(),
            final(self).actors() == old(self).actors(),
            final(self).collected_epochs@ == old(self).collected_epochs@,
            final(self).graphs().dom() == old(self).graphs().dom().insert(partial_graph_id),
            forall|g: PartialGraphId|
                #![trigger final(self).graphs()[g]]
                old(self).graphs().contains_key(g) ==> final(self).graphs()[g]
                    == old(self).graphs()[g],
            final(self).graphs()[partial_graph_id].is_empty_spec(),
            final(self).graphs()[partial_graph_id].last_issued_epoch.is_none(),
    {
        self.graph_states.insert(partial_graph_id, PartialGraphState::new());
    }

    /// Whether one of `ids` names a partial graph that still holds actors or barriers.
    pub open spec fn removes_non_empty(&self, ids: Seq<PartialGraphId>) -> bool {
        exists|i: int|
            0 <= i < ids.len() && self.graphs().contains_key(#[trigger] ids[i])
                && !self.graphs()[ids[i]].is_empty_spec()
    }

    /// Checks that none of `ids` names a partial graph that still holds an
    /// actor or a barrier; reports the first that does.
    pub fn check_remove_partial_graphs(&self, ids: &Vec<PartialGraphId>) -> (r: Result<
        (),
        BarrierStateError,
    >)
        ensures
            r.is_ok() <==> !self.removes_non_empty(ids@),
            r.is_err() ==> exists|i: int|
                0 <= i < ids@.len() && self.graphs().contains_key(#[trigger] ids@[i])
                    && !self.graphs()[ids@[i]].is_empty_spec() && r == Err::<
                    (),
                    _,
                >(BarrierStateError::PartialGraphNotEmpty(ids@[i])),
    {
        let mut i: usize = 0;
        while i < ids.len()
            invariant
                0 <= i <= ids@.len(),
                forall|j: int|
                    0 <= j < i ==> !(self.graphs().contains_key(#[trigger] ids@[j])
                        && !self.graphs()[ids@[j]].is_empty_spec()),
            decreases ids@.len() - i,
        {
            let id = ids[i];
            match self.graph_states.get(&id) {
                Some(graph) => {
                    if !graph.is_empty() {
                        return Err(BarrierStateError::PartialGraphNotEmpty(id));
                    }
                },
                None => {},
            }
            i += 1;
        }
        Ok(())
    }

    /// Removes the named partial graphs; absent ids are skipped. Each one
    /// that exists must be empty: removing a graph that still holds an
    /// actor or a barrier is a broken contract, which callers treat as fatal.
    pub fn remove_partial_graphs(&mut self, ids: &Vec<PartialGraphId>)
        requires
            old(self).wf(),
            !old(self).removes_non_empty(ids@),
        ensures
            final(self).wf(),
            final(self).actors() == old(self).actors(),
            final(self).collected_epochs@ == old(self).collected_epochs@,
            forall|g: PartialGraphId| #[trigger]
                final(self).graphs().contains_key(g) <==> (old(self).graphs().contains_key(g)
                    && !ids@.contains(g)),
            forall|g: PartialGraphId| #[trigger]
                final(self).graphs().contains_key(g) ==> final(self).graphs()[g]
                    == old(self).graphs()[g],
    {
        let ghost before = *self;
        let mut i: usize = 0;
        while i < ids.len()
            invariant
                0 <= i <= ids@.len(),
                before.wf(),
                !before.removes_non_empty(ids@),
                self.actors() == before.actors(),
                self.collected_epochs@ == before.collected_epochs@,
                forall|g: PartialGraphId| #[trigger]
                    self.graphs().contains_key(g) <==> (before.graphs().contains_key(g)
                        && !ids@.take(i as int).contains(g)),
                forall|g: PartialGraphId| #[trigger]
                    self.graphs().contains_key(g) ==> self.graphs()[g] == before.graphs()[g],
            decreases ids@.len() - i,
        {
            let ghost prev = self.graphs();
            let id = ids[i];
            self.graph_states.remove(&id);
            proof {
                assert(self.graphs() == prev.remove(id));
                let prefix = ids@.take(i as int);
                assert(ids@.take(i + 1) == prefix.push(ids@[i as int]));
                assert forall|g: PartialGraphId| #[trigger]
                    ids@.take(i + 1).contains(g) <==> (prefix.contains(g) || g == ids@[i as int]) by {
                    if ids@.take(i + 1).contains(g) {
                        let k = choose|k: int| 0 <= k < i + 1 && #[trigger] ids@.take(i + 1)[k] == g;
                        if k < i {
                            assert(prefix[k] == g);
                        }
                    }
                    if prefix.contains(g) {
                        let k = choose|k: int| 0 <= k < i && #[trigger] prefix[k] == g;
                        assert(ids@.take(i + 1)[k] == g);
                    }
                    if g == ids@[i as int] {
                        assert(ids@.take(i + 1)[i as int] == g);
                    }
                }
            }
            i += 1;
        }
        assert(ids@.take(i as int) == ids@);
        proof {
            assert forall|a: ActorId| #[trigger] self.actors().contains_key(a) implies {
                let st = self.actors()[a];
                &&& self.graphs().contains_key(st.partial_graph_id)
                &&& self.graphs()[st.partial_graph_id].actor_ids@.contains(a)
            } by {
                let g = before.actors()[a].partial_graph_id;
                assert(before.graphs()[g].actor_ids@.contains(a));
                if ids@.contains(g) {
                    let k = choose|k: int| 0 <= k < ids@.len() && #[trigger] ids@[k] == g;
                    assert(!before.graphs()[ids@[k]].is_empty_spec());
                }
                assert(self.actors()[a] == before.actors()[a]);
                assert(self.graphs().contains_key(g));
                assert(self.graphs()[g] == before.graphs()[g]);
            }
        }
    }

    /// Whether actor `a` still holds the barrier of epoch `e`.
    fn holds(&self, a: ActorId, e: u64) -> (r: bool)
        ensures
            r == holds_epoch(self.actors(), a, e),
    {
        match self.actor_states.get(&a) {
            None => false,
            Some(st) => {
                assert(self.actors()[a] == *st);
                let mut i: usize = 0;
                while i < st.inflight_barriers.len()
                    invariant
                        0 <= i <= st.inflight_barriers@.len(),
                        self.actors().contains_key(a),
                        self.actors()[a] == *st,
                        forall|j: int| 0 <= j < i ==> st.inflight_barriers@[j] != e,
                    decreases st.inflight_barriers@.len() - i,
                {
                    if st.inflight_barriers[i] == e {
                        assert(st.inflight_barriers@[i as int] == e);
                        assert(self.actors()[a].inflight_barriers@.contains(e));
                        return true;
                    }
                    i += 1;
                }
                false
            },
        }
    }

    fn all_collected(&self, b: &IssuedBarrier) -> (r: bool)
        ensures
            r == collected_by_all(*b, self.actors()),
    {
        let e = b.barrier.epoch.prev;
        let mut i: usize = 0;
        while i < b.actors_to_collect.len()
            invariant
                0 <= i <= b.actors_to_collect@.len(),
                e == prev_of(*b),
                forall|j: int|
                    0 <= j < i ==> !holds_epoch(self.actors(), #[trigger] b.actors_to_collect@[j], e),
            decreases b.actors_to_collect@.len() - i,
        {
            if self.holds(b.actors_to_collect[i], e) {
                return false;
            }
            i += 1;
        }
        true
    }

    /// Moves every barrier of graph `g` that all its actors collected:
    /// checkpoints wait for a durability request, the others become
    /// reports. The rest stay issued, in order.
    fn graduate(&mut self, g: PartialGraphId)
        requires
            old(self).wf(),
            old(self).graphs().contains_key(g),
        ensures
            final(self).wf(),
            final(self).actors() == old(self).actors(),
            final(self).graphs().dom() == old(self).graphs().dom(),
            forall|h: PartialGraphId|
                #![trigger final(self).graphs()[h]]
                old(self).graphs().contains_key(h) && h != g ==> final(self).graphs()[h]
                    == old(self).graphs()[h],
            final(self).graphs()[g].actor_ids == old(self).graphs()[g].actor_ids,
            final(self).graphs()[g].last_issued_epoch == old(self).graphs()[g].last_issued_epoch,
            graduated(
                old(self).graphs()[g],
                old(self).graphs()[g].issued@,
                old(self).collected_epochs@,
                old(self).actors(),
                g,
                final(self).graphs()[g],
                final(self).collected_epochs@,
            ),
    {
        let ghost pre = *self;
        let mut gs = match self.graph_states.remove(&g) {
            Some(gs) => gs,
            None => {
                return;
            },
        };
        let ghost q = gs.issued@;
        let ghost cc = gs.collected_checkpoints@;
        let ghost acts = pre.actors();
        assert(gs.wf());
        let n = gs.issued.len();
        let mut kept: Vec<IssuedBarrier> = Vec::new();
        let mut k: usize = 0;
        while k < n
            invariant
                0 <= k <= n,
                n == q.len(),
                issued_wf(q, gs.last_issued_epoch),
                gs.issued@ == q.skip(k as int),
                kept@ == still_issued(q.take(k as int), acts),
                gs.collected_checkpoints@ == cc + checkpoints_of(
                    fully_collected(q.take(k as int), acts),
                ),
                self.collected_epochs@ == pre.collected_epochs@ + collected_events_of(
                    g,
                    fully_collected(q.take(k as int), acts),
                ),
                forall|i: int, j: int|
                    0 <= i < kept@.len() && k <= j < n ==> prev_of(#[trigger] kept@[i]) < prev_of(
                        #[trigger] q[j],
                    ),
                forall|i: int, j: int|
                    0 <= i < j < kept@.len() ==> prev_of(kept@[i]) < prev_of(kept@[j]),
                forall|i: int|
                    0 <= i < kept@.len() ==> gs.last_issued_epoch.is_some() && prev_of(
                        #[trigger] kept@[i],
                    ) <= gs.last_issued_epoch.unwrap(),
                gs.actor_ids == pre.graphs()[g].actor_ids,
                gs.last_issued_epoch == pre.graphs()[g].last_issued_epoch,
                self.actors() == acts,
                self.graphs() == pre.graphs().remove(g),
            decreases n - k,
        {
            let b = gs.issued.remove(0);
            proof {
                assert(q.take(k + 1).drop_last() == q.take(k as int));
                assert(q.take(k + 1).last() == q[k as int]);
                assert(gs.issued@ == q.skip(k + 1));
                assert(b == q[k as int]);
            }
            if self.all_collected(&b) {
                if b.barrier.kind.is_checkpoint() {
                    gs.collected_checkpoints.push(b);
                } else {
                    self.collected_epochs.push(
                        CollectedEpoch {
                            partial_graph_id: g,
                            barrier: b.barrier,
                            create_mview_progress: b.create_mview_progress,
                        },
                    );
                }
                proof {
                    let fc = fully_collected(q.take(k as int), acts);
                    assert(fully_collected(q.take(k + 1), acts) == fc.push(q[k as int]));
                    assert(fc.push(q[k as int]).drop_last() == fc);
                    assert(still_issued(q.take(k + 1), acts) == still_issued(q.take(k as int), acts));
                }
            } else {
                let ghost old_kept = kept@;
                kept.push(b);
                proof {
                    assert(still_issued(q.take(k + 1), acts) == still_issued(
                        q.take(k as int),
                        acts,
                    ).push(q[k as int]));
                    assert(fully_collected(q.take(k + 1), acts) == fully_collected(
                        q.take(k as int),
                        acts,
                    ));
                    assert forall|i: int, j: int|
                        0 <= i < kept@.len() && k + 1 <= j < n implies prev_of(
                        #[trigger] kept@[i],
                    ) < prev_of(#[trigger] q[j]) by {
                        if i < old_kept.len() {
                            assert(kept@[i] == old_kept[i]);
                        }
                    }
                    assert forall|i: int, j: int|
                        0 <= i < j < kept@.len() implies prev_of(kept@[i]) < prev_of(kept@[j]) by {
                        if j == kept@.len() - 1 {
                            assert(kept@[i] == old_kept[i]);
                            assert(prev_of(old_kept[i]) < prev_of(q[k as int]));
                        } else {
                            assert(kept@[i] == old_kept[i]);
                            assert(kept@[j] == old_kept[j]);
                        }
                    }
                    assert forall|i: int| 0 <= i < kept@.len() implies gs.last_issued_epoch.is_some()
                        && prev_of(#[trigger] kept@[i]) <= gs.last_issued_epoch.unwrap() by {
                        if i < old_kept.len() {
                            assert(kept@[i] == old_kept[i]);
                        }
                    }
                }
            }
            k += 1;
        }
        gs.issued = kept;
        proof {
            assert(q.take(n as int) == q);
            let fc = fully_collected(q, acts);
            lemma_checkpoints_of(fc);
            assert forall|i: int| 0 <= i < gs.collected_checkpoints@.len() implies
                #[trigger] gs.collected_checkpoints@[i].barrier.kind == BarrierKind::Checkpoint by {
                if i >= cc.len() {
                    assert(gs.collected_checkpoints@[i] == checkpoints_of(fc)[i - cc.len()]);
                }
            }
            assert(gs.wf());
        }
        self.graph_states.insert(g, gs);
        assert(self.graphs().dom() =~= pre.graphs().dom());
    }

    /// Whether `epoch` is the oldest epoch that `actor_id` has in flight,
    /// the only one it may collect; if not, why.
    pub fn check_collect(&self, actor_id: ActorId, epoch: EpochPair) -> (r: Result<
        (),
        BarrierStateError,
    >)
        ensures
            r.is_ok() <==> self.inflight(actor_id).len() > 0 && self.inflight(actor_id)[0]
                == epoch.prev,
            r.is_err() ==> r == Err::<(), _>(collect_error(*self, actor_id, epoch)),
    {
        match self.actor_states.get(&actor_id) {
            None => Err(BarrierStateError::UnknownActor(actor_id)),
            Some(st) => {
                if st.inflight_barriers.len() == 0 {
                    Err(BarrierStateError::NoInflightBarrier(actor_id))
                } else if st.inflight_barriers[0] != epoch.prev {
                    Err(
                        BarrierStateError::OutOfOrderCollect {
                            actor_id,
                            expected: st.inflight_barriers[0],
                            got: epoch.prev,
                        },
                    )
                } else {
                    Ok(())
                }
            },
        }
    }

    /// Records that `actor_id` collected the barrier of `epoch`, which must
    /// be the actor's oldest epoch in flight: collecting any other epoch is
    /// a broken contract, which callers treat as fatal. Every barrier of the
    /// actor's graph that thereby has been collected by all its actors moves
    /// on at once.
    pub fn collect(&mut self, actor_id: ActorId, epoch: EpochPair)
        requires
            old(self).wf(),
            old(self).inflight(actor_id).len() > 0,
            old(self).inflight(actor_id)[0] == epoch.prev,
        ensures
            final(self).wf(),
            collect_post(*old(self), *final(self), actor_id),
    {
        let ghost pre = *self;
        let mut st = match self.actor_states.remove(&actor_id) {
            Some(st) => st,
            None => {
                return;
            },
        };
        st.inflight_barriers.remove(0);
        let g = st.partial_graph_id;
        self.actor_states.insert(actor_id, st);
        assert(self.actors().dom() =~= pre.actors().dom());
        assert(self.wf());
        self.graduate(g);
    }

    /// Registers actor `a` on graph `g` (recorded in `gs`) if it is new,
    /// marks it running if `run`, and appends `push` to its epochs.
    fn upsert_actor(
        &mut self,
        gs: &mut PartialGraphState,
        g: PartialGraphId,
        a: ActorId,
        run: bool,
        push: Option<u64>,
    )
        ensures
            actor_upserted(old(self).actors(), final(self).actors(), a, g, run, push),
            final(self).graphs() == old(self).graphs(),
            final(self).collected_epochs@ == old(self).collected_epochs@,
            final(gs).actor_ids@ == if old(self).actors().contains_key(a) {
                old(gs).actor_ids@
            } else {
                old(gs).actor_ids@.push(a)
            },
            final(gs).issued@ == old(gs).issued@,
            final(gs).collected_checkpoints@ == old(gs).collected_checkpoints@,
            final(gs).last_issued_epoch == old(gs).last_issued_epoch,
    {
        let ghost pre = self.actors();
        match self.actor_states.remove(&a) {
            Some(mut st) => {
                if run {
                    st.is_running = true;
                }
                match push {
                    Some(e) => st.inflight_barriers.push(e),
                    None => {},
                }
                self.actor_states.insert(a, st);
            },
            None => {
                let mut inflight_barriers: Vec<u64> = Vec::new();
                match push {
                    Some(e) => inflight_barriers.push(e),
                    None => {},
                }
                self.actor_states.insert(
                    a,
                    ActorState { partial_graph_id: g, inflight_barriers, is_running: run },
                );
                gs.actor_ids.push(a);
            },
        }
        assert(self.actors().dom() =~= pre.dom().insert(a));
    }

    /// Checks an inject request against the ledger without changing it.
    #[verifier::loop_isolation(false)]
    pub fn check_inject(&self, req: &InjectBarrierRequest) -> (r: Result<(), BarrierStateError>)
        ensures
            r.is_ok() <==> self.accepts_inject(*req),
            !self.graphs().contains_key(req.partial_graph_id) ==> r == Err::<(), _>(
                BarrierStateError::UnknownPartialGraph(req.partial_graph_id),
            ),
    {
        let g = req.partial_graph_id;
        let e = req.barrier.epoch.prev;
        match self.graph_states.get(&g) {
            None => {
                return Err(BarrierStateError::UnknownPartialGraph(g));
            },
            Some(gs) => {
                match gs.last_issued_epoch {
                    Some(last) => {
                        if last >= e {
                            return Err(BarrierStateError::EpochNotAscending(e));
                        }
                    },
                    None => {},
                }
            },
        }
        let builds = &req.actors_to_build;
        let mut i: usize = 0;
        while i < builds.len()
            invariant
                0 <= i <= builds@.len(),
                self.graphs().contains_key(g),
                self.graphs()[g].last_issued_epoch.is_none()
                    || self.graphs()[g].last_issued_epoch.unwrap() < e,
                g == req.partial_graph_id,
                e == req.barrier.epoch.prev,
                builds == &req.actors_to_build,
                forall|k: int|
                    0 <= k < i && self.actors().contains_key(#[trigger] builds@[k])
                        ==> self.actors()[builds@[k]].partial_graph_id == g,
            decreases builds@.len() - i,
        {
            match self.actor_states.get(&builds[i]) {
                Some(st) => {
                    if st.partial_graph_id != g {
                        assert(builds@.contains(builds@[i as int]));
                        assert(self.actors()[builds@[i as int]] == *st);
                        return Err(BarrierStateError::ActorInOtherGraph(builds[i]));
                    }
                },
                None => {},
            }
            i += 1;
        }
        let targets = &req.actor_ids_to_collect;
        let mut i: usize = 0;
        while i < targets.len()
            invariant
                0 <= i <= targets@.len(),
                self.graphs().contains_key(g),
                self.graphs()[g].last_issued_epoch.is_none()
                    || self.graphs()[g].last_issued_epoch.unwrap() < e,
                g == req.partial_graph_id,
                e == req.barrier.epoch.prev,
                targets == &req.actor_ids_to_collect,
                forall|k: int|
                    0 <= k < builds@.len() && self.actors().contains_key(#[trigger] builds@[k])
                        ==> self.actors()[builds@[k]].partial_graph_id == g,
                forall|k: int, l: int| 0 <= k < l < i ==> targets@[k] != targets@[l],
                forall|k: int|
                    0 <= k < i && self.actors().contains_key(#[trigger] targets@[k])
                        ==> self.actors()[targets@[k]].partial_graph_id == g,
                forall|k: int|
                    0 <= k < i && self.inflight(#[trigger] targets@[k]).len() > 0
                        ==> self.inflight(targets@[k]).last() < e,
            decreases targets@.len() - i,
        {
            let a = targets[i];
            let mut j: usize = 0;
            while j < i
                invariant
                    0 <= j <= i < targets@.len(),
                    a == targets@[i as int],
                    forall|k: int| 0 <= k < j ==> targets@[k] != a,
                decreases i - j,
            {
                if targets[j] == a {
                    assert(targets@[j as int] == targets@[i as int]);
                    return Err(BarrierStateError::DuplicateActor(a));
                }
                j += 1;
            }
            match self.actor_states.get(&a) {
                Some(st) => {
                    assert(targets@.contains(targets@[i as int]));
                    assert(self.actors()[a] == *st);
                    if st.partial_graph_id != g {
                        return Err(BarrierStateError::ActorInOtherGraph(a));
                    }
                    let n = st.inflight_barriers.len();
                    if n > 0 && st.inflight_barriers[n - 1] >= e {
                        assert(self.inflight(a).len() > 0);
                        return Err(BarrierStateError::EpochNotAscending(e));
                    }
                },
                None => {},
            }
            i += 1;
        }
        proof {
            assert forall|x: ActorId|
                #![trigger self.actors()[x]]
                (targets@.contains(x) || builds@.contains(x)) && self.actors().contains_key(x)
                    implies self.actors()[x].partial_graph_id == g by {
                if targets@.contains(x) {
                    let k = choose|k: int| 0 <= k < targets@.len() && targets@[k] == x;
                    assert(self.actors().contains_key(targets@[k]));
                } else {
                    let k = choose|k: int| 0 <= k < builds@.len() && builds@[k] == x;
                    assert(self.actors().contains_key(builds@[k]));
                }
            }
            assert forall|x: ActorId|
                #![trigger self.inflight(x)]
                targets@.contains(x) && self.inflight(x).len() > 0 implies self.inflight(x).last()
                    < e by {
                let k = choose|k: int| 0 <= k < targets@.len() && targets@[k] == x;
                assert(self.inflight(targets@[k]).len() > 0);
            }
        }
        Ok(())
    }

    /// Issues a barrier: every target actor now owes its epoch, the actors
    /// to build are registered as running, and the barrier joins its
    /// graph's issued queue. The request must fit (see `accepts_inject`):
    /// one that does not, such as an epoch not above a target's newest, is a
    /// broken contract, which callers treat as fatal.
    pub fn transform_to_issued(&mut self, req: InjectBarrierRequest)
        requires
            old(self).wf(),
            old(self).accepts_inject(req),
        ensures
            final(self).wf(),
            inject_post(*old(self), *final(self), req),
    {
        let ghost pre = *self;
        let g = req.partial_graph_id;
        let e = req.barrier.epoch.prev;
        let mut gs = match self.graph_states.remove(&g) {
            Some(gs) => gs,
            None => {
                return;
            },
        };
        let ghost pre_gs = gs;
        let ghost builds = req.actors_to_build@;
        let ghost targets = req.actor_ids_to_collect@;
        let mut i: usize = 0;
        while i < req.actors_to_build.len()
            invariant
                0 <= i <= builds.len(),
                builds == req.actors_to_build@,
                self.graphs() == pre.graphs().remove(g),
                self.collected_epochs@ == pre.collected_epochs@,
                gs.issued@ == pre_gs.issued@,
                gs.collected_checkpoints@ == pre_gs.collected_checkpoints@,
                gs.last_issued_epoch == pre_gs.last_issued_epoch,
                forall|a: ActorId| #[trigger]
                    self.actors().contains_key(a) <==> (pre.actors().contains_key(a)
                        || builds.take(i as int).contains(a)),
                forall|a: ActorId|
                    #![trigger self.actors()[a]]
                    self.actors().contains_key(a) ==> {
                        &&& self.actors()[a].partial_graph_id == if pre.actors().contains_key(a) {
                            pre.actors()[a].partial_graph_id
                        } else {
                            g
                        }
                        &&& self.inflight(a) == pre.inflight(a)
                        &&& self.actors()[a].is_running == ((pre.actors().contains_key(a)
                            && pre.actors()[a].is_running) || builds.take(i as int).contains(a))
                    },
                forall|a: ActorId| #[trigger]
                    gs.actor_ids@.contains(a) <==> (pre_gs.actor_ids@.contains(a) || (
                    !pre.actors().contains_key(a) && builds.take(i as int).contains(a))),
            decreases builds.len() - i,
        {
            let a = req.actors_to_build[i];
            let ghost before = self.actors();
            let ghost before_ids = gs.actor_ids@;
            self.upsert_actor(&mut gs, g, a, true, None);
            proof {
                assert forall|x: ActorId| #[trigger]
                    builds.take(i + 1).contains(x) <==> (builds.take(i as int).contains(x) || x
                        == a) by {
                    lemma_take_contains(builds, i as int, x);
                }
                assert forall|x: ActorId| #[trigger]
                    gs.actor_ids@.contains(x) <==> (before_ids.contains(x) || (!before.contains_key(
                        a,
                    ) && x == a)) by {
                    if !before.contains_key(a) {
                        lemma_push_contains(before_ids, a, x);
                    }
                }
            }
            i += 1;
        }
        assert(builds.take(i as int) == builds);
        let ghost mid = self.actors();
        let mut i: usize = 0;
        while i < req.actor_ids_to_collect.len()
            invariant
                0 <= i <= targets.len(),
                targets == req.actor_ids_to_collect@,
                builds == req.actors_to_build@,
                pre.accepts_inject(req),
                e == req.barrier.epoch.prev,
                self.graphs() == pre.graphs().remove(g),
                self.collected_epochs@ == pre.collected_epochs@,
                gs.issued@ == pre_gs.issued@,
                gs.collected_checkpoints@ == pre_gs.collected_checkpoints@,
                gs.last_issued_epoch == pre_gs.last_issued_epoch,
                forall|a: ActorId| #[trigger]
                    self.actors().contains_key(a) <==> (pre.actors().contains_key(a)
                        || builds.contains(a) || targets.take(i as int).contains(a)),
                forall|a: ActorId|
                    #![trigger self.actors()[a]]
                    self.actors().contains_key(a) ==> {
                        &&& self.actors()[a].partial_graph_id == if pre.actors().contains_key(a) {
                            pre.actors()[a].partial_graph_id
                        } else {
                            g
                        }
                        &&& self.inflight(a) == if targets.take(i as int).contains(a) {
                            pre.inflight(a).push(e)
                        } else {
                            pre.inflight(a)
                        }
                        &&& self.actors()[a].is_running == ((pre.actors().contains_key(a)
                            && pre.actors()[a].is_running) || builds.contains(a))
                    },
                forall|a: ActorId| #[trigger]
                    gs.actor_ids@.contains(a) <==> (pre_gs.actor_ids@.contains(a) || (
                    !pre.actors().contains_key(a) && (builds.contains(a) || targets.take(
                        i as int,
                    ).contains(a)))),
            decreases targets.len() - i,
        {
            let a = req.actor_ids_to_collect[i];
            let ghost before = self.actors();
            let ghost before_ids = gs.actor_ids@;
            proof {
                if targets.take(i as int).contains(a) {
                    let k = choose|k: int| 0 <= k < i && targets.take(i as int)[k] == a;
                    assert(targets[k] == targets[i as int]);
                }
            }
            self.upsert_actor(&mut gs, g, a, false, Some(e));
            proof {
                assert forall|x: ActorId| #[trigger]
                    targets.take(i + 1).contains(x) <==> (targets.take(i as int).contains(x) || x
                        == a) by {
                    lemma_take_contains(targets, i as int, x);
                }
                assert forall|x: ActorId| #[trigger]
                    gs.actor_ids@.contains(x) <==> (before_ids.contains(x) || (!before.contains_key(
                        a,
                    ) && x == a)) by {
                    if !before.contains_key(a) {
                        lemma_push_contains(before_ids, a, x);
                    }
                }
            }
            i += 1;
        }
        assert(targets.take(i as int) == targets);
        let ghost r = req;
        gs.issued.push(
            IssuedBarrier {
                barrier: req.barrier,
                actors_to_collect: req.actor_ids_to_collect,
                table_ids: req.table_ids_to_sync,
                create_mview_progress: Vec::new(),
            },
        );
        let ghost new_issued = gs.issued@.last();
        assert(issued_from(r, new_issued));
        gs.last_issued_epoch = Some(e);
        let ghost acts = self.actors();
        proof {
            let q = gs.issued@;
            assert(q == pre_gs.issued@.push(new_issued));
            assert(pre.graphs()[g].wf());
            assert forall|x: int, y: int| 0 <= x < y < q.len() implies prev_of(q[x]) < prev_of(
                q[y],
            ) by {
                if y == q.len() - 1 {
                    assert(prev_of(pre_gs.issued@[x]) <= pre_gs.last_issued_epoch.unwrap());
                }
            }
            assert forall|x: int| 0 <= x < q.len() implies gs.last_issued_epoch.is_some()
                && prev_of(#[trigger] q[x]) <= gs.last_issued_epoch.unwrap() by {
                if x < q.len() - 1 {
                    assert(prev_of(pre_gs.issued@[x]) <= pre_gs.last_issued_epoch.unwrap());
                }
            }
            assert(gs.wf());
        }
        self.graph_states.insert(g, gs);
        assert(self.actors() == acts);
        proof {
            assert forall|a: ActorId| #[trigger] self.actors().contains_key(a) implies {
                let st = self.actors()[a];
                &&& self.graphs().contains_key(st.partial_graph_id)
                &&& self.graphs()[st.partial_graph_id].actor_ids@.contains(a)
                &&& strictly_ascending(st.inflight_barriers@)
            } by {
                let st = self.actors()[a];
                assert(self.inflight(a) == st.inflight_barriers@);
                if pre.actors().contains_key(a) {
                    let h = pre.actors()[a].partial_graph_id;
                    assert(pre.graphs()[h].actor_ids@.contains(a));
                    if h == g {
                        assert(gs.actor_ids@.contains(a));
                    }
                    assert(strictly_ascending(pre.inflight(a)));
                    if targets.contains(a) {
                        let s0 = pre.inflight(a);
                        let s1 = s0.push(e);
                        assert forall|x: int, y: int| 0 <= x < y < s1.len() implies s1[x]
                            < s1[y] by {
                            if y == s1.len() - 1 {
                                assert(s0.last() < e);
                            }
                        }
                    }
                } else {
                    assert(builds.contains(a) || targets.contains(a));
                    assert(gs.actor_ids@.contains(a));
                    assert(pre.inflight(a).len() == 0);
                    assert(self.inflight(a).len() <= 1);
                }
            }
            assert(self.graphs().dom() =~= pre.graphs().dom());
        }
        self.graduate(g);
        assert(graduated(
            pre.graphs()[g],
            pre.graphs()[g].issued@.push(new_issued),
            pre.collected_epochs@,
            self.actors(),
            g,
            self.graphs()[g],
            self.collected_epochs@,
        ));
    }

    /// Whether graph `g` has a collected checkpoint barrier of `prev_epoch`
    /// waiting for durability.
    pub open spec fn has_collected_checkpoint(&self, g: PartialGraphId, prev_epoch: u64) -> bool {
        self.graphs().contains_key(g) && first_index(
            self.graphs()[g].collected_checkpoints@,
            prev_epoch,
        ) >= 0
    }

    /// The position of the collected checkpoint of `prev_epoch` in graph
    /// `g`'s waiting queue, if there is one.
    pub fn find_collected_checkpoint(&self, g: PartialGraphId, prev_epoch: u64) -> (r: Option<
        usize,
    >)
        ensures
            r.is_some() <==> self.has_collected_checkpoint(g, prev_epoch),
            r matches Some(i) ==> i == first_index(
                self.graphs()[g].collected_checkpoints@,
                prev_epoch,
            ),
    {
        match self.graph_states.get(&g) {
            None => None,
            Some(gs) => {
                let ghost cc = gs.collected_checkpoints@;
                assert(self.graphs()[g] == *gs);
                proof {
                    lemma_first_index(cc, prev_epoch);
                }
                let mut i: usize = 0;
                while i < gs.collected_checkpoints.len()
                    invariant
                        0 <= i <= cc.len(),
                        cc == gs.collected_checkpoints@,
                        self.graphs().contains_key(g),
                        self.graphs()[g].collected_checkpoints@ == cc,
                        -1 <= first_index(cc, prev_epoch) < cc.len(),
                        first_index(cc, prev_epoch) >= 0 ==> prev_of(cc[first_index(cc, prev_epoch)])
                            == prev_epoch,
                        forall|j: int|
                            0 <= j < first_index(cc, prev_epoch) ==> prev_of(#[trigger] cc[j])
                                != prev_epoch,
                        first_index(cc, prev_epoch) < 0 ==> forall|j: int|
                            0 <= j < cc.len() ==> prev_of(#[trigger] cc[j]) != prev_epoch,
                        forall|j: int| 0 <= j < i ==> prev_of(#[trigger] cc[j]) != prev_epoch,
                    decreases cc.len() - i,
                {
                    if gs.collected_checkpoints[i].barrier.epoch.prev == prev_epoch {
                        assert(prev_of(cc[i as int]) == prev_epoch);
                        return Some(i);
                    }
                    i += 1;
                }
                None
            },
        }
    }

    /// Takes the collected checkpoint barrier of `prev_epoch` out of graph
    /// `g`'s waiting queue, with the tables whose state changed in its
    /// epoch. Such a barrier must be there: asking for one that is not is a
    /// broken contract, which callers treat as fatal.
    pub fn pop_barrier_to_complete(&mut self, g: PartialGraphId, prev_epoch: u64) -> (r: (
        Barrier,
        Vec<TableId>,
    ))
        requires
            old(self).wf(),
            old(self).has_collected_checkpoint(g, prev_epoch),
        ensures
            final(self).wf(),
            ({
                let cc = old(self).graphs()[g].collected_checkpoints@;
                let i = first_index(cc, prev_epoch);
                &&& r.0 == cc[i].barrier
                &&& r.0.epoch.prev == prev_epoch
                &&& r.0.kind == BarrierKind::Checkpoint
                &&& r.1@ == cc[i].table_ids@
                &&& final(self).graphs()[g].collected_checkpoints@ == cc.remove(i)
            }),
            final(self).actors() == old(self).actors(),
            final(self).collected_epochs@ == old(self).collected_epochs@,
            final(self).graphs().dom() == old(self).graphs().dom(),
            forall|h: PartialGraphId|
                #![trigger final(self).graphs()[h]]
                old(self).graphs().contains_key(h) && h != g ==> final(self).graphs()[h]
                    == old(self).graphs()[h],
            final(self).graphs()[g].issued == old(self).graphs()[g].issued,
            final(self).graphs()[g].actor_ids == old(self).graphs()[g].actor_ids,
            final(self).graphs()[g].last_issued_epoch == old(self).graphs()[g].last_issued_epoch,
    {
        let ghost pre = *self;
        let i = match self.find_collected_checkpoint(g, prev_epoch) {
            Some(i) => i,
            None => 0,
        };
        let ghost cc = pre.graphs()[g].collected_checkpoints@;
        proof {
            lemma_first_index(cc, prev_epoch);
        }
        let mut gs = self.graph_states.remove(&g).unwrap();
        let found = gs.collected_checkpoints.remove(i);
        assert(pre.graphs()[g].wf());
        assert(found.barrier.kind == BarrierKind::Checkpoint);
        self.graph_states.insert(g, gs);
        assert(self.graphs().dom() =~= pre.graphs().dom());
        assert(self.graphs()[g].wf()) by {
            assert forall|k: int|
                0 <= k < self.graphs()[g].collected_checkpoints@.len() implies #[trigger] self.graphs()[g].collected_checkpoints@[k].barrier.kind
                == BarrierKind::Checkpoint by {
                if k < i {
                    assert(self.graphs()[g].collected_checkpoints@[k] == cc[k]);
                } else {
                    assert(self.graphs()[g].collected_checkpoints@[k] == cc[k + 1]);
                }
            }
        }
        (found.barrier, found.table_ids)
    }

    /// Takes the first non-checkpoint barrier that all its actors collected
    /// and that is not reported yet.
    pub fn next_collected_epoch(&mut self) -> (r: Option<CollectedEpoch>)
        requires
            old(self).wf(),
        ensures
            final(self).wf(),
            final(self).actors() == old(self).actors(),
            final(self).graphs() == old(self).graphs(),
            old(self).collected_epochs@.len() == 0 ==> r.is_none()
                && final(self).collected_epochs@.len() == 0,
            old(self).collected_epochs@.len() > 0 ==> r == Some(old(self).collected_epochs@[0])
                && final(self).collected_epochs@ == old(self).collected_epochs@.drop_first(),
    {
        if self.collected_epochs.len() == 0 {
            None
        } else {
            Some(self.collected_epochs.remove(0))
        }
    }

    /// Whether actor `a` still owes a barrier or runs.
    pub fn actor_is_active(&self, a: ActorId) -> (r: bool)
        ensures
            r == (self.actors().contains_key(a) && (self.inflight(a).len() > 0
                || self.actors()[a].is_running)),
    {
        match self.actor_states.get(&a) {
            None => false,
            Some(st) => st.inflight_barriers.len() > 0 || st.is_running,
        }
    }

    /// Records backfill progress that `actor_id` reported at the barrier of
    /// `epoch`, to be reported with that barrier. Returns false, changing
    /// nothing, if the actor is unknown or its graph has no such barrier in
    /// flight.
    pub fn update_create_mview_progress(
        &mut self,
        actor_id: ActorId,
        epoch: EpochPair,
        progress: CreateMviewProgress,
    ) -> (r: bool)
        requires
            old(self).wf(),
        ensures
            final(self).wf(),
            final(self).actors() == old(self).actors(),
            final(self).collected_epochs@ == old(self).collected_epochs@,
            r <==> old(self).has_barrier_for_progress(actor_id, epoch),
            !r ==> final(self).unchanged(old(self)),
            r ==> progress_recorded(*old(self), *final(self), actor_id, epoch, progress),
    {
        let g = match self.actor_states.get(&actor_id) {
            None => {
                return false;
            },
            Some(st) => {
                assert(self.actors()[actor_id] == *st);
                st.partial_graph_id
            },
        };
        let ghost pre = *self;
        assert(pre.graphs().contains_key(g));
        let mut i: usize = 0;
        let n = match self.graph_states.get(&g) {
            None => {
                return false;
            },
            Some(gs) => {
                while i < gs.issued.len()
                    invariant
                        0 <= i <= gs.issued@.len(),
                        pre.graphs()[g] == *gs,
                        forall|j: int| 0 <= j < i ==> prev_of(#[trigger] gs.issued@[j]) != epoch.prev,
                    ensures
                        0 <= i <= gs.issued@.len(),
                        forall|j: int| 0 <= j < i ==> prev_of(#[trigger] gs.issued@[j]) != epoch.prev,
                        i == gs.issued@.len() || prev_of(gs.issued@[i as int]) == epoch.prev,
                    decreases gs.issued@.len() - i,
                {
                    if gs.issued[i].barrier.epoch.prev == epoch.prev {
                        break;
                    }
                    i += 1;
                }
                gs.issued.len()
            },
        };
        if i == n {
            return false;
        }
        assert(prev_of(pre.graphs()[g].issued@[i as int]) == epoch.prev);
        let mut gs = match self.graph_states.remove(&g) {
            None => {
                return false;
            },
            Some(gs) => gs,
        };
        let ghost q0 = gs.issued@;
        let mut b = gs.issued.remove(i);
        b.create_mview_progress.push(progress);
        gs.issued.insert(i, b);
        proof {
            assert(progress_added(q0, gs.issued@, i as int, progress));
            assert(pre.graphs()[g].wf());
            assert forall|x: int, y: int| 0 <= x < y < gs.issued@.len() implies prev_of(
                gs.issued@[x],
            ) < prev_of(gs.issued@[y]) by {
                assert(prev_of(gs.issued@[x]) == prev_of(q0[x]));
                assert(prev_of(gs.issued@[y]) == prev_of(q0[y]));
            }
            assert forall|x: int| 0 <= x < gs.issued@.len() implies gs.last_issued_epoch.is_some()
                && prev_of(#[trigger] gs.issued@[x]) <= gs.last_issued_epoch.unwrap() by {
                assert(prev_of(gs.issued@[x]) == prev_of(q0[x]));
            }
        }
        self.graph_states.insert(g, gs);
        assert(self.graphs().dom() =~= pre.graphs().dom());
        true
    }
}

} // verus!
