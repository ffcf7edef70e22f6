use barrier_coord::barrier::{
    Barrier, BarrierKind, CreateMviewProgress, EpochPair, InjectBarrierRequest,
};
use barrier_coord::completion::{SyncOutcome, SyncResult};
use barrier_coord::control::{
    CoordinatorAction, FailureContext, ResetReason, StreamingControlRequest,
    StreamingControlResponse,
};
use barrier_coord::managed_state::BarrierStateError;
use barrier_coord::scorer::{ExecutorErrorKind, StreamError, StreamErrorKind};
use barrier_coord::worker::LocalBarrierWorker;

const PG: u64 = 1;

fn attached_worker() -> LocalBarrierWorker {
    let mut w = LocalBarrierWorker::new(42);
    let actions = w.handle_new_control_stream(&vec![PG]);
    assert_eq!(actions.len(), 1);
    assert!(matches!(
        actions[0],
        CoordinatorAction::Send(StreamingControlResponse::Init)
    ));
    w
}

fn inject(prev: u64, kind: BarrierKind, targets: Vec<u32>) -> StreamingControlRequest {
    StreamingControlRequest::InjectBarrier(InjectBarrierRequest {
        barrier: Barrier::new(EpochPair::new(prev + 1, prev), kind),
        partial_graph_id: PG,
        actor_ids_to_collect: targets,
        actors_to_build: vec![],
        table_ids_to_sync: vec![5],
    })
}

fn collected_epochs(actions: &[CoordinatorAction]) -> Vec<u64> {
    actions
        .iter()
        .filter_map(|a| match a {
            CoordinatorAction::Send(StreamingControlResponse::CollectBarrier { epoch, .. }) => {
                Some(*epoch)
            }
            _ => None,
        })
        .collect()
}

#[test]
fn checkpoint_barrier_reported_once_after_sync() {
    let mut w = attached_worker();
    let a = w.handle_streaming_control_request(inject(10, BarrierKind::Checkpoint, vec![1, 2]));
    assert!(a.is_empty());
    let a = w.handle_actor_collected(1, EpochPair::new(11, 10));
    assert!(a.is_empty());
    let a = w.handle_actor_collected(2, EpochPair::new(11, 10));
    assert!(collected_epochs(&a).is_empty());
    assert!(a.is_empty());

    let a = w.handle_streaming_control_request(StreamingControlRequest::CompleteBarrier {
        task_id: 7,
        partial_graph_sync_epochs: vec![(PG, 10)],
    });
    assert_eq!(a.len(), 1);
    let ticket = match &a[0] {
        CoordinatorAction::SyncEpochs { ticket, epochs } => {
            assert_eq!(epochs.len(), 1);
            assert_eq!(epochs[0].0, 10);
            assert_eq!(epochs[0].1, vec![5]);
            *ticket
        }
        _ => panic!("expected a sync request"),
    };

    let a = w.on_sync_outcome(ticket, SyncOutcome::Synced(SyncResult::empty()));
    assert_eq!(a.len(), 1);
    match &a[0] {
        CoordinatorAction::Send(StreamingControlResponse::CompleteBarrier {
            task_id,
            worker_id,
            ..
        }) => {
            assert_eq!(*task_id, 7);
            assert_eq!(*worker_id, 42);
        }
        _ => panic!("expected a complete-barrier response"),
    }
    // The same answer again reports nothing.
    let a = w.on_sync_outcome(ticket, SyncOutcome::Synced(SyncResult::empty()));
    assert!(a.is_empty());
}

#[test]
fn non_checkpoint_barrier_reported_on_full_collection() {
    let mut w = attached_worker();
    w.handle_streaming_control_request(inject(10, BarrierKind::NonCheckpoint, vec![1, 2]));
    let a = w.handle_actor_collected(2, EpochPair::new(11, 10));
    assert!(a.is_empty());
    let a = w.handle_actor_collected(1, EpochPair::new(11, 10));
    assert_eq!(collected_epochs(&a), vec![10]);
}

#[test]
fn collection_out_of_order_is_refused() {
    let mut w = attached_worker();
    w.handle_streaming_control_request(inject(10, BarrierKind::NonCheckpoint, vec![1]));
    w.handle_streaming_control_request(inject(11, BarrierKind::NonCheckpoint, vec![1]));
    assert_eq!(
        w.state.check_collect(1, EpochPair::new(12, 11)),
        Err(BarrierStateError::OutOfOrderCollect {
            actor_id: 1,
            expected: 10,
            got: 11
        })
    );
    assert_eq!(
        w.state.check_collect(7, EpochPair::new(11, 10)),
        Err(BarrierStateError::UnknownActor(7))
    );
    assert_eq!(w.state.check_collect(1, EpochPair::new(11, 10)), Ok(()));
    assert_eq!(
        collected_epochs(&w.handle_actor_collected(1, EpochPair::new(11, 10))),
        vec![10]
    );
    assert_eq!(
        collected_epochs(&w.handle_actor_collected(1, EpochPair::new(12, 11))),
        vec![11]
    );
}

#[test]
fn barrier_reported_as_soon_as_its_actors_collected() {
    let mut w = attached_worker();
    w.handle_streaming_control_request(inject(10, BarrierKind::NonCheckpoint, vec![1]));
    w.handle_streaming_control_request(inject(11, BarrierKind::NonCheckpoint, vec![2]));
    // Epoch 11 is reported although actor 1 still owes epoch 10.
    let a = w.handle_actor_collected(2, EpochPair::new(12, 11));
    assert_eq!(collected_epochs(&a), vec![11]);
    let a = w.handle_actor_collected(1, EpochPair::new(11, 10));
    assert_eq!(collected_epochs(&a), vec![10]);
    // Collected twice: the actor no longer owes it.
    assert_eq!(
        w.state.check_collect(1, EpochPair::new(11, 10)),
        Err(BarrierStateError::NoInflightBarrier(1))
    );
}

#[test]
fn checkpoints_complete_in_any_order() {
    let mut w = attached_worker();
    w.handle_streaming_control_request(inject(10, BarrierKind::Checkpoint, vec![1]));
    w.handle_streaming_control_request(inject(11, BarrierKind::Checkpoint, vec![2]));
    assert!(w.handle_actor_collected(2, EpochPair::new(12, 11)).is_empty());
    assert!(w.handle_actor_collected(1, EpochPair::new(11, 10)).is_empty());
    let req = StreamingControlRequest::CompleteBarrier {
        task_id: 1,
        partial_graph_sync_epochs: vec![(PG, 10), (PG, 11)],
    };
    assert!(w.check_request(&req));
    let a = w.handle_streaming_control_request(req);
    match &a[0] {
        CoordinatorAction::SyncEpochs { epochs, .. } => {
            assert_eq!(epochs.iter().map(|e| e.0).collect::<Vec<_>>(), vec![10, 11]);
        }
        _ => panic!("expected a sync request"),
    }
    assert!(!w.check_complete(&vec![(PG, 10)]));
}

#[test]
fn barrier_without_actors_reported_at_once() {
    let mut w = attached_worker();
    let a = w.handle_streaming_control_request(inject(10, BarrierKind::NonCheckpoint, vec![]));
    assert_eq!(collected_epochs(&a), vec![10]);
}

#[test]
fn inject_errors() {
    let mut w = attached_worker();
    let req = InjectBarrierRequest {
        barrier: Barrier::new(EpochPair::new(11, 10), BarrierKind::NonCheckpoint),
        partial_graph_id: 9,
        actor_ids_to_collect: vec![1],
        actors_to_build: vec![],
        table_ids_to_sync: vec![],
    };
    assert_eq!(
        w.state.check_inject(&req),
        Err(BarrierStateError::UnknownPartialGraph(9))
    );
    let req = InjectBarrierRequest {
        barrier: Barrier::new(EpochPair::new(11, 10), BarrierKind::NonCheckpoint),
        partial_graph_id: PG,
        actor_ids_to_collect: vec![1, 1],
        actors_to_build: vec![],
        table_ids_to_sync: vec![],
    };
    assert_eq!(
        w.state.check_inject(&req),
        Err(BarrierStateError::DuplicateActor(1))
    );
    w.handle_streaming_control_request(inject(10, BarrierKind::NonCheckpoint, vec![1]));
    assert!(!w.check_request(&inject(10, BarrierKind::NonCheckpoint, vec![1])));
    assert!(!w.check_request(&inject(9, BarrierKind::NonCheckpoint, vec![])));
    assert!(w.check_request(&inject(11, BarrierKind::NonCheckpoint, vec![1])));
    assert!(w.check_request(&StreamingControlRequest::CreatePartialGraph {
        partial_graph_id: 2
    }));
    w.add_partial_graph(2);
    let req = InjectBarrierRequest {
        barrier: Barrier::new(EpochPair::new(21, 20), BarrierKind::NonCheckpoint),
        partial_graph_id: 2,
        actor_ids_to_collect: vec![1],
        actors_to_build: vec![],
        table_ids_to_sync: vec![],
    };
    assert_eq!(
        w.state.check_inject(&req),
        Err(BarrierStateError::ActorInOtherGraph(1))
    );
}

#[test]
fn remove_empty_graph_succeeds_and_busy_graph_is_refused() {
    let mut w = attached_worker();
    assert!(w.add_partial_graph(2).is_empty());
    assert!(w.state.contains_partial_graph(2));
    assert!(!w.check_request(&StreamingControlRequest::CreatePartialGraph {
        partial_graph_id: 2
    }));
    // An absent id is skipped.
    assert!(w.remove_partial_graphs(vec![2, 77]).is_empty());
    assert!(!w.state.contains_partial_graph(2));
    assert!(w.add_partial_graph(2).is_empty());

    w.handle_streaming_control_request(inject(10, BarrierKind::NonCheckpoint, vec![1]));
    assert_eq!(
        w.state.check_remove_partial_graphs(&vec![2, PG]),
        Err(BarrierStateError::PartialGraphNotEmpty(PG))
    );
    assert!(!w.check_request(&StreamingControlRequest::RemovePartialGraph {
        partial_graph_ids: vec![PG]
    }));
    assert_eq!(w.state.check_remove_partial_graphs(&vec![2]), Ok(()));
}

#[test]
fn completion_reports_follow_submission_order() {
    let mut w = attached_worker();
    w.handle_streaming_control_request(inject(10, BarrierKind::Checkpoint, vec![1]));
    w.handle_streaming_control_request(inject(11, BarrierKind::Checkpoint, vec![1]));
    w.handle_actor_collected(1, EpochPair::new(11, 10));
    w.handle_actor_collected(1, EpochPair::new(12, 11));
    let t1 = match &w.complete_barrier(1, &vec![(PG, 10)])[0] {
        CoordinatorAction::SyncEpochs { ticket, .. } => *ticket,
        _ => panic!("expected a sync request"),
    };
    let t2 = match &w.complete_barrier(2, &vec![(PG, 11)])[0] {
        CoordinatorAction::SyncEpochs { ticket, .. } => *ticket,
        _ => panic!("expected a sync request"),
    };
    assert!(w
        .on_sync_outcome(t2, SyncOutcome::Synced(SyncResult::empty()))
        .is_empty());
    let a = w.on_sync_outcome(t1, SyncOutcome::Synced(SyncResult::empty()));
    let tasks: Vec<u64> = a
        .iter()
        .map(|x| match x {
            CoordinatorAction::Send(StreamingControlResponse::CompleteBarrier {
                task_id, ..
            }) => *task_id,
            _ => panic!("expected complete-barrier responses"),
        })
        .collect();
    assert_eq!(tasks, vec![1, 2]);
}

#[test]
fn complete_barrier_without_collected_checkpoint_is_refused() {
    let mut w = attached_worker();
    w.handle_streaming_control_request(inject(10, BarrierKind::Checkpoint, vec![1]));
    assert!(!w.check_complete(&vec![(PG, 10)]));
    assert!(!w.check_complete(&vec![(5, 10)]));
    w.handle_actor_collected(1, EpochPair::new(11, 10));
    assert!(w.check_complete(&vec![(PG, 10)]));
    assert!(!w.check_complete(&vec![(PG, 10), (PG, 10)]));
}

#[test]
fn failed_sync_starts_root_cause_search() {
    let mut w = attached_worker();
    w.handle_streaming_control_request(inject(10, BarrierKind::Checkpoint, vec![]));
    let t = match &w.complete_barrier(1, &vec![(PG, 10)])[0] {
        CoordinatorAction::SyncEpochs { ticket, .. } => *ticket,
        _ => panic!("expected a sync request"),
    };
    let err = StreamError {
        kind: StreamErrorKind::Storage,
        message: "disk".to_string(),
    };
    let a = w.on_sync_outcome(t, SyncOutcome::Failed(err));
    assert_eq!(a.len(), 1);
    assert!(matches!(
        a[0],
        CoordinatorAction::FindRootCause {
            context: FailureContext::CompleteEpoch,
            ..
        }
    ));
}

fn operator_fault() -> StreamError {
    StreamError {
        kind: StreamErrorKind::UnexpectedExit {
            actor_id: 1,
            source: Box::new(StreamErrorKind::Executor(ExecutorErrorKind::ExprError)),
        },
        message: "division by zero".to_string(),
    }
}

fn channel_closed(actor_id: u32) -> StreamError {
    StreamError {
        kind: StreamErrorKind::UnexpectedExit {
            actor_id,
            source: Box::new(StreamErrorKind::Executor(ExecutorErrorKind::ChannelClosed)),
        },
        message: format!("channel closed {actor_id}"),
    }
}

#[test]
fn actor_failure_resets_with_root_cause() {
    let mut w = attached_worker();
    w.handle_streaming_control_request(inject(10, BarrierKind::NonCheckpoint, vec![1]));
    let a = w.notify_failure(
        Some(1),
        vec![channel_closed(2), operator_fault()],
        FailureContext::RecvActorFailure,
    );
    assert_eq!(a.len(), 1);
    match &a[0] {
        CoordinatorAction::ResetStream(ResetReason::Failure { context, root }) => {
            assert_eq!(*context, FailureContext::RecvActorFailure);
            assert_eq!(root.error.message, "division by zero");
            assert_eq!(root.score, 2999);
        }
        _ => panic!("expected a reset"),
    }
    // Detached: a second failure resets nothing.
    let a = w.notify_failure(None, vec![operator_fault()], FailureContext::InjectBarrier);
    assert!(a.is_empty());
}

#[test]
fn failure_of_idle_actor_is_ignored() {
    let mut w = attached_worker();
    let a = w.notify_failure(
        Some(5),
        vec![operator_fault()],
        FailureContext::RecvActorFailure,
    );
    assert!(a.is_empty());
}

#[test]
fn new_stream_resets_old_one_and_state() {
    let mut w = attached_worker();
    w.handle_streaming_control_request(inject(10, BarrierKind::NonCheckpoint, vec![1]));
    let a = w.handle_new_control_stream(&vec![3]);
    assert_eq!(a.len(), 2);
    assert!(matches!(
        a[0],
        CoordinatorAction::ResetStream(ResetReason::Replaced)
    ));
    assert!(matches!(
        a[1],
        CoordinatorAction::Send(StreamingControlResponse::Init)
    ));
    // Graph 1 is gone, graph 3 exists and is empty.
    assert!(w.state.contains_partial_graph(3));
    assert!(!w.state.contains_partial_graph(PG));
    assert!(w.add_partial_graph(PG).is_empty());
    assert!(w.remove_partial_graphs(vec![3]).is_empty());
}

#[test]
fn responses_dropped_while_detached() {
    let mut w = attached_worker();
    w.on_send_failed();
    w.handle_streaming_control_request(inject(10, BarrierKind::NonCheckpoint, vec![1]));
    let a = w.handle_actor_collected(1, EpochPair::new(11, 10));
    assert!(a.is_empty());
    assert!(w.handle_shutdown().is_empty());
}

#[test]
fn shutdown_and_stream_end() {
    let mut w = attached_worker();
    let a = w.handle_shutdown();
    assert!(matches!(a[0], CoordinatorAction::ShutdownStream));
    let mut w = attached_worker();
    let a = w.on_request_stream_closed(false);
    assert!(matches!(
        a[0],
        CoordinatorAction::ResetStream(ResetReason::EndOfStream)
    ));
    assert!(w.on_request_stream_closed(true).is_empty());
    let mut w = attached_worker();
    let a = w.handle_streaming_control_request(StreamingControlRequest::Init { graphs: vec![] });
    assert!(matches!(
        a[0],
        CoordinatorAction::ResetStream(ResetReason::ProtocolError)
    ));
}

#[test]
fn progress_goes_out_with_its_barrier() {
    let mut w = attached_worker();
    w.handle_streaming_control_request(inject(10, BarrierKind::NonCheckpoint, vec![1]));
    let p = CreateMviewProgress {
        backfill_actor_id: 1,
        done: false,
        consumed_epoch: 9,
        consumed_rows: 128,
    };
    assert!(w.update_create_mview_progress(1, EpochPair::new(11, 10), p));
    // No barrier of that epoch, or an unknown actor: dropped.
    assert!(!w.update_create_mview_progress(1, EpochPair::new(13, 12), p));
    assert!(!w.update_create_mview_progress(8, EpochPair::new(11, 10), p));
    let a = w.handle_actor_collected(1, EpochPair::new(11, 10));
    assert_eq!(a.len(), 1);
    match &a[0] {
        CoordinatorAction::Send(StreamingControlResponse::CollectBarrier {
            partial_graph_id,
            epoch,
            create_mview_progress,
        }) => {
            assert_eq!(*partial_graph_id, PG);
            assert_eq!(*epoch, 10);
            assert_eq!(create_mview_progress, &vec![p]);
        }
        _ => panic!("expected a collect-barrier response"),
    }
}
