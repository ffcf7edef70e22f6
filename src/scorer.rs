//! Root-cause scoring of concurrently reported failures.
use vstd::prelude::*;

use crate::barrier::ActorId;

verus! {

/// How long, in seconds, failures are gathered before the root cause is picked.
pub const ROOT_CAUSE_WINDOW_SECS: u64 = 3;

/// What went wrong inside an operator (executor) of an actor.
#[derive(Clone, Copy, Debug, PartialEq, Eq, Structural)]
pub enum ExecutorErrorKind {
    ChannelClosed,
    ExchangeChannelClosed,
    Uncategorized,
    Storage,
    ArrayError,
    ExprError,
    SerdeError,
    SinkError,
    RpcError,
    AlignBarrier,
    ConnectorError,
    DmlError,
    NotImplemented,
}

/// The category of a streaming error.
#[derive(Debug)]
pub enum StreamErrorKind {
    /// An actor exited because of the wrapped error.
    UnexpectedExit { actor_id: ActorId, source: Box<StreamErrorKind> },
    /// A barrier could not be sent, mostly because its receiver exited.
    BarrierSend,
    Executor(ExecutorErrorKind),
    Uncategorized,
    Storage,
    Expression,
    Array,
    Secret,
}

/// A streaming error: its category and a message for the report.
pub struct StreamError {
    pub kind: StreamErrorKind,
    pub message: String,
}

/// Score of an operator error: a closed channel is a symptom of another
/// actor's exit and scores lowest; any other operator error scores high.
pub open spec fn executor_score(k: ExecutorErrorKind) -> int {
    match k {
        ExecutorErrorKind::ChannelClosed | ExecutorErrorKind::ExchangeChannelClosed => 1,
        _ => 2999,
    }
}

/// Score of an error: the higher, the likelier the root cause.
pub open spec fn score_of(k: StreamErrorKind) -> int
    decreases k,
{
    match k {
        StreamErrorKind::UnexpectedExit { source, .. } => score_of(*source),
        StreamErrorKind::BarrierSend => 1,
        StreamErrorKind::Executor(e) => executor_score(e),
        _ => 1000,
    }
}

/// The error, with any exit wrappers taken off, is a genuine operator fault.
pub open spec fn is_operator_fault(k: StreamErrorKind) -> bool
    decreases k,
{
    match k {
        StreamErrorKind::UnexpectedExit { source, .. } => is_operator_fault(*source),
        StreamErrorKind::Executor(e) => e != ExecutorErrorKind::ChannelClosed && e
            != ExecutorErrorKind::ExchangeChannelClosed,
        _ => false,
    }
}

/// The error, with any exit wrappers taken off, is a symptom of another
/// actor's exit: a closed channel or a failed barrier send.
pub open spec fn is_exit_symptom(k: StreamErrorKind) -> bool
    decreases k,
{
    match k {
        StreamErrorKind::UnexpectedExit { source, .. } => is_exit_symptom(*source),
        StreamErrorKind::BarrierSend => true,
        StreamErrorKind::Executor(e) => e == ExecutorErrorKind::ChannelClosed || e
            == ExecutorErrorKind::ExchangeChannelClosed,
        _ => false,
    }
}

/// Operator faults score highest, exit symptoms lowest (1), the rest between.
pub proof fn lemma_score_tiers(k: StreamErrorKind)
    ensures
        is_operator_fault(k) <==> score_of(k) == 2999,
        is_exit_symptom(k) <==> score_of(k) == 1,
        !is_operator_fault(k) && !is_exit_symptom(k) <==> score_of(k) == 1000,
    decreases k,
{
    match k {
        StreamErrorKind::UnexpectedExit { source, .. } => lemma_score_tiers(*source),
        _ => {},
    }
}

fn executor_error_score(k: ExecutorErrorKind) -> (r: i32)
    ensures
        r == executor_score(k),
{
    match k {
        ExecutorErrorKind::ChannelClosed | ExecutorErrorKind::ExchangeChannelClosed => 1,
        ExecutorErrorKind::Uncategorized
        | ExecutorErrorKind::Storage
        | ExecutorErrorKind::ArrayError
        | ExecutorErrorKind::ExprError
        | ExecutorErrorKind::SerdeError
        | ExecutorErrorKind::SinkError
        | ExecutorErrorKind::RpcError
        | ExecutorErrorKind::AlignBarrier
        | ExecutorErrorKind::ConnectorError
        | ExecutorErrorKind::DmlError
        | ExecutorErrorKind::NotImplemented => 2999,
    }
}

/// The score of an error kind, by the hand-tuned rules of `score_of`.
pub fn stream_error_score(k: &StreamErrorKind) -> (r: i32)
    ensures
        r == score_of(*k),
    decreases *k,
{
    match k {
        StreamErrorKind::UnexpectedExit { source, .. } => stream_error_score(source),
        StreamErrorKind::BarrierSend => 1,
        StreamErrorKind::Executor(e) => executor_error_score(*e),
        StreamErrorKind::Uncategorized
        | StreamErrorKind::Storage
        | StreamErrorKind::Expression
        | StreamErrorKind::Array
        | StreamErrorKind::Secret => 1000,
    }
}

/// An error with its score.
pub struct ScoredStreamError {
    pub error: StreamError,
    pub score: i32,
}

impl ScoredStreamError {
    /// Scores the given error.
    pub fn new(error: StreamError) -> (r: ScoredStreamError)
        ensures
            r.error == error,
            r.score == score_of(error.kind),
    {
        let score = stream_error_score(&error.kind);
        ScoredStreamError { error, score }
    }
}

/// The index that `find_root_failure` picks in `errs`: an error of the
/// highest score, the last one seen among equals.
pub open spec fn is_root_index(errs: Seq<StreamError>, i: int) -> bool {
    &&& 0 <= i < errs.len()
    &&& forall|j: int| 0 <= j < errs.len() ==> score_of(#[trigger] errs[j].kind) <= score_of(errs[i].kind)
    &&& forall|j: int| i < j < errs.len() ==> score_of(#[trigger] errs[j].kind) < score_of(errs[i].kind)
}

/// Picks among the errors, in the order they were seen, the one most likely
/// to be the root cause: the highest score, the last one among equals.
/// `None` only when there is no error.
pub fn find_root_failure(errs: Vec<StreamError>) -> (r: Option<ScoredStreamError>)
    ensures
        errs@.len() == 0 <==> r.is_none(),
        r.is_some() ==> exists|i: int|
            is_root_index(errs@, i) && r.unwrap().error == errs@[i] && r.unwrap().score
                == score_of(errs@[i].kind),
{
    let mut errs = errs;
    if errs.len() == 0 {
        return None;
    }
    let ghost all = errs@;
    let mut best: usize = 0;
    let mut best_score = stream_error_score(&errs[0].kind);
    let mut i: usize = 1;
    while i < errs.len()
        invariant
            errs@ == all,
            1 <= i <= all.len(),
            0 <= best < i,
            best_score == score_of(all[best as int].kind),
            forall|j: int| 0 <= j < i ==> score_of(#[trigger] all[j].kind) <= best_score,
            forall|j: int| best < j < i ==> score_of(#[trigger] all[j].kind) < best_score,
        decreases all.len() - i,
    {
        let s = stream_error_score(&errs[i].kind);
        if s >= best_score {
            best = i;
            best_score = s;
        }
        i += 1;
    }
    let error = errs.remove(best);
    assert(is_root_index(all, best as int));
    Some(ScoredStreamError { error, score: best_score })
}

/// Among concurrent failures, an operator fault is never passed over for a
/// symptom: if any error is an operator fault, the one picked is one too;
/// and some error is picked whenever there is one.
pub proof fn lemma_root_cause_prefers_operator_fault(errs: Seq<StreamError>, i: int, k: int)
    requires
        is_root_index(errs, i),
        0 <= k < errs.len(),
        is_operator_fault(errs[k].kind),
    ensures
        is_operator_fault(errs[i].kind),
{
    lemma_score_tiers(errs[k].kind);
    lemma_score_tiers(errs[i].kind);
    assert(score_of(errs[k].kind) <= score_of(errs[i].kind));
}

/// With one operator fault and symptoms only besides, the fault is picked.
pub proof fn lemma_root_cause_unique_fault(errs: Seq<StreamError>, i: int, k: int)
    requires
        is_root_index(errs, i),
        0 <= k < errs.len(),
        is_operator_fault(errs[k].kind),
        forall|j: int| 0 <= j < errs.len() && j != k ==> is_exit_symptom(#[trigger] errs[j].kind),
    ensures
        i == k,
{
    lemma_root_cause_prefers_operator_fault(errs, i, k);
    if i != k {
        lemma_score_tiers(errs[i].kind);
    }
}

} // verus!
