//! Epochs, barriers and the identifiers the coordinator works with.
use vstd::prelude::*;

verus! {

/// Identifies one actor on this node.
pub type ActorId = u32;

/// Identifies one independently scheduled partial graph on this node.
pub type PartialGraphId = u64;

/// Identifies a state table.
pub type TableId = u32;

/// A pair of epochs: `prev` is the snapshot being closed, `curr` the one opened.
#[derive(Clone, Copy, Debug, PartialEq, Eq, Structural)]
pub struct EpochPair {
    pub curr: u64,
    pub prev: u64,
}

impl EpochPair {
    pub fn new(curr: u64, prev: u64) -> (r: EpochPair)
        ensures
            r.curr == curr,
            r.prev == prev,
    {
        EpochPair { curr, prev }
    }
}

/// Whether a barrier asks for a durable checkpoint.
#[derive(Clone, Copy, Debug, PartialEq, Eq, Structural)]
pub enum BarrierKind {
    NonCheckpoint,
    Checkpoint,
}

impl BarrierKind {
    pub fn is_checkpoint(&self) -> (r: bool)
        ensures
            r == (*self == BarrierKind::Checkpoint),
    {
        match self {
            BarrierKind::Checkpoint => true,
            BarrierKind::NonCheckpoint => false,
        }
    }
}

/// A coordination marker delimiting two epochs.
#[derive(Clone, Copy, Debug, PartialEq, Eq, Structural)]
pub struct Barrier {
    pub epoch: EpochPair,
    pub kind: BarrierKind,
}

impl Barrier {
    pub fn new(epoch: EpochPair, kind: BarrierKind) -> (r: Barrier)
        ensures
            r.epoch == epoch,
            r.kind == kind,
    {
        Barrier { epoch, kind }
    }
}

} // verus!

verus! {

/// Progress of a backfilling actor that builds a materialized view,
/// reported at a barrier.
#[derive(Clone, Copy, Debug, PartialEq, Eq, Structural)]
pub struct CreateMviewProgress {
    pub backfill_actor_id: ActorId,
    pub done: bool,
    pub consumed_epoch: u64,
    pub consumed_rows: u64,
}

/// What the control plane asks for when it injects a barrier.
pub struct InjectBarrierRequest {
    pub barrier: Barrier,
    pub partial_graph_id: PartialGraphId,
    /// The actors that must collect the barrier.
    pub actor_ids_to_collect: Vec<ActorId>,
    /// Actors started with this barrier; they are registered as running.
    pub actors_to_build: Vec<ActorId>,
    /// Tables whose state changes in this epoch.
    pub table_ids_to_sync: Vec<TableId>,
}

} // verus!
