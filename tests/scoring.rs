use barrier_coord::scorer::{
    find_root_failure, stream_error_score, ExecutorErrorKind, ScoredStreamError, StreamError,
    StreamErrorKind,
};

fn err(kind: StreamErrorKind, message: &str) -> StreamError {
    StreamError {
        kind,
        message: message.to_string(),
    }
}

#[test]
fn scores_by_category() {
    assert_eq!(stream_error_score(&StreamErrorKind::BarrierSend), 1);
    assert_eq!(
        stream_error_score(&StreamErrorKind::Executor(ExecutorErrorKind::ChannelClosed)),
        1
    );
    assert_eq!(
        stream_error_score(&StreamErrorKind::Executor(
            ExecutorErrorKind::ExchangeChannelClosed
        )),
        1
    );
    assert_eq!(stream_error_score(&StreamErrorKind::Storage), 1000);
    assert_eq!(stream_error_score(&StreamErrorKind::Secret), 1000);
    assert_eq!(
        stream_error_score(&StreamErrorKind::Executor(ExecutorErrorKind::SinkError)),
        2999
    );
    let wrapped = StreamErrorKind::UnexpectedExit {
        actor_id: 3,
        source: Box::new(StreamErrorKind::Expression),
    };
    assert_eq!(stream_error_score(&wrapped), 1000);
    let scored = ScoredStreamError::new(err(StreamErrorKind::BarrierSend, "send"));
    assert_eq!(scored.score, 1);
}

#[test]
fn operator_fault_beats_channel_closed() {
    let errs = vec![
        err(
            StreamErrorKind::Executor(ExecutorErrorKind::ChannelClosed),
            "B",
        ),
        err(StreamErrorKind::Executor(ExecutorErrorKind::ExprError), "A"),
    ];
    let root = find_root_failure(errs).unwrap();
    assert_eq!(root.error.message, "A");
    let errs = vec![
        err(StreamErrorKind::Executor(ExecutorErrorKind::ExprError), "A"),
        err(
            StreamErrorKind::Executor(ExecutorErrorKind::ChannelClosed),
            "B",
        ),
    ];
    assert_eq!(find_root_failure(errs).unwrap().error.message, "A");
}

#[test]
fn only_channel_closed_still_picks_one() {
    let errs = vec![
        err(
            StreamErrorKind::Executor(ExecutorErrorKind::ChannelClosed),
            "first",
        ),
        err(StreamErrorKind::BarrierSend, "second"),
    ];
    let root = find_root_failure(errs).unwrap();
    assert_eq!(root.score, 1);
    // Among equals the last one seen is kept.
    assert_eq!(root.error.message, "second");
    assert!(find_root_failure(vec![]).is_none());
}
