//! The control-plane protocol and the handle on its transport.
use vstd::prelude::*;

use crate::barrier::{CreateMviewProgress, InjectBarrierRequest, PartialGraphId, TableId};
use crate::completion::SyncResult;
use crate::scorer::{ScoredStreamError, StreamError};

verus! {

/// A request from the control plane.
pub enum StreamingControlRequest {
    /// Resets the node to the given partial graphs; it comes with a new transport.
    Init { graphs: Vec<PartialGraphId> },
    InjectBarrier(InjectBarrierRequest),
    /// Asks for durability of the named collected checkpoints, as one task.
    CompleteBarrier { task_id: u64, partial_graph_sync_epochs: Vec<(PartialGraphId, u64)> },
    CreatePartialGraph { partial_graph_id: PartialGraphId },
    RemovePartialGraph { partial_graph_ids: Vec<PartialGraphId> },
}

/// A response to the control plane.
pub enum StreamingControlResponse {
    Init,
    /// A non-checkpoint barrier was collected by all its actors.
    CollectBarrier {
        partial_graph_id: PartialGraphId,
        epoch: u64,
        create_mview_progress: Vec<CreateMviewProgress>,
    },
    /// The durability request of a task finished.
    CompleteBarrier { task_id: u64, worker_id: u32, sync_result: SyncResult },
    Shutdown,
}

/// Where a failure was observed.
#[derive(Clone, Copy, Debug, PartialEq, Eq, Structural)]
pub enum FailureContext {
    RecvActorFailure,
    HandleBarrierEvent,
    CompleteEpoch,
    InjectBarrier,
}

/// Why the transport is reset.
pub enum ResetReason {
    /// A new transport replaced it.
    Replaced,
    /// The control plane closed its side.
    EndOfStream,
    /// Receiving from it failed.
    TransportError,
    /// A request could not be understood at this point of the protocol.
    ProtocolError,
    /// A failure was found; this is its most likely root cause.
    Failure { context: FailureContext, root: ScoredStreamError },
}

/// The coordinator cannot go on.
#[derive(Debug)]
pub enum CoordinatorError {
    /// Every durability ticket has been handed out.
    TooManySyncRequests,
}

/// What the coordinator asks the runtime around it to do, in order.
pub enum CoordinatorAction {
    /// Send this response on the attached transport.
    Send(StreamingControlResponse),
    /// Fail the attached transport with this reason; it is then detached.
    ResetStream(ResetReason),
    /// Start a durability request for these epochs and their changed tables;
    /// hand its outcome back with this ticket.
    SyncEpochs { ticket: u64, epochs: Vec<(u64, Vec<TableId>)> },
    /// Gather the actor failures of the next few seconds, then report them
    /// together with this one.
    FindRootCause { first: StreamError, context: FailureContext },
    /// Send the shutdown notice and wait until the control plane closes.
    ShutdownStream,
    /// Abort: the coordinator cannot go on.
    Fatal(CoordinatorError),
}

/// The node's side of the one control-plane transport. It only records
/// whether a transport is attached; the transport itself lives with the
/// runtime, which performs what the coordinator decides.
#[derive(Clone, Copy, Debug, PartialEq, Eq, Structural)]
pub struct ControlStreamHandle {
    pub attached: bool,
}

impl ControlStreamHandle {
    /// No transport attached.
    pub fn empty() -> (r: ControlStreamHandle)
        ensures
            !r.attached,
    {
        ControlStreamHandle { attached: false }
    }

    /// A newly attached transport.
    pub fn new() -> (r: ControlStreamHandle)
        ensures
            r.attached,
    {
        ControlStreamHandle { attached: true }
    }

    pub fn connected(&self) -> (r: bool)
        ensures
            r == self.attached,
    {
        self.attached
    }

    /// Detaches. Returns whether a transport was attached, that is, whether
    /// the runtime must fail it with the error.
    pub fn reset_stream(&mut self) -> (r: bool)
        ensures
            r == old(self).attached,
            !final(self).attached,
    {
        let was = self.attached;
        self.attached = false;
        was
    }

    /// Sending on the transport failed: it is detached for good, and later
    /// responses are dropped.
    pub fn on_send_failed(&mut self)
        ensures
            !final(self).attached,
    {
        self.attached = false;
    }
}

} // verus!
