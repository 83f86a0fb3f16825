//! The stages one upload request passes through, from the first byte received
//! to the remote service's answer.
use crate::ingest::IngestError;
use crate::relay::RelayError;
use vstd::prelude::*;

verus! {

/// Why a request ended in failure.
#[derive(Debug, Clone, Copy, PartialEq, Eq, Structural)]
pub enum PipelineFailure {
    Ingest(IngestError),
    Relay(RelayError),
}

/// Where a request stands. Parts are numbered from 0.
#[derive(Debug, Clone, Copy, PartialEq, Eq, Structural)]
pub enum Stage {
    Receiving,
    Validating(u64),
    Buffering(u64),
    Sealed,
    Signing,
    Relaying,
    Completed,
    Failed(PipelineFailure),
}

/// What the request's driver observed.
#[derive(Debug, Clone, Copy, PartialEq, Eq, Structural)]
pub enum Event {
    /// A new part's headers were read.
    PartArrived,
    /// The part's content type was accepted.
    PartAccepted,
    /// A chunk of the current part was taken and stored.
    ChunkWritten,
    /// The body ended.
    StreamEnded,
    SigningStarted,
    Signed,
    /// The remote answer was received and decoded.
    Answered,
    Failure(PipelineFailure),
}

pub open spec fn is_terminal(s: Stage) -> bool {
    s is Completed || s is Failed
}

/// The stage after an event. Terminal stages never change; a failure ends
/// any other stage; an event that does not fit the stage leaves it as it is.
pub open spec fn step_spec(s: Stage, e: Event) -> Stage {
    if is_terminal(s) {
        s
    } else if let Event::Failure(k) = e {
        Stage::Failed(k)
    } else {
        match (s, e) {
            (Stage::Receiving, Event::PartArrived) => Stage::Validating(0),
            (Stage::Receiving, Event::StreamEnded) => Stage::Sealed,
            (Stage::Validating(p), Event::PartAccepted) => Stage::Buffering(p),
            (Stage::Buffering(p), Event::PartArrived) => if p < u64::MAX {
                Stage::Validating((p + 1) as u64)
            } else {
                s
            },
            (Stage::Buffering(_), Event::StreamEnded) => Stage::Sealed,
            (Stage::Sealed, Event::SigningStarted) => Stage::Signing,
            (Stage::Signing, Event::Signed) => Stage::Relaying,
            (Stage::Relaying, Event::Answered) => Stage::Completed,
            _ => s,
        }
    }
}

/// How far along a stage is; every change of stage raises it.
pub open spec fn progress(s: Stage) -> int {
    let late = 0x4_0000_0000_0000_0000int;
    match s {
        Stage::Receiving => 0,
        Stage::Validating(p) => 2 * p + 1,
        Stage::Buffering(p) => 2 * p + 2,
        Stage::Sealed => late,
        Stage::Signing => late + 1,
        Stage::Relaying => late + 2,
        Stage::Completed => late + 3,
        Stage::Failed(_) => late + 3,
    }
}

/// The stage reached from `s` after the events `es`, in order.
pub open spec fn stage_after(s: Stage, es: Seq<Event>) -> Stage
    decreases es.len(),
{
    if es.len() == 0 {
        s
    } else {
        step_spec(stage_after(s, es.drop_last()), es.last())
    }
}

/// Completed and Failed are final; every other stage can fail with any kind.
pub proof fn lemma_terminal_and_failure(s: Stage, e: Event, k: PipelineFailure)
    ensures
        is_terminal(s) ==> step_spec(s, e) == s,
        !is_terminal(s) ==> step_spec(s, Event::Failure(k)) == Stage::Failed(k),
{
}

/// A step either keeps the stage or moves strictly forward.
pub proof fn lemma_step_progress(s: Stage, e: Event)
    ensures
        step_spec(s, e) == s || progress(s) < progress(step_spec(s, e)),
{
}

proof fn lemma_progress_monotone(s: Stage, es: Seq<Event>, i: int, j: int)
    requires
        0 <= i <= j <= es.len(),
    ensures
        progress(stage_after(s, es.take(i))) <= progress(stage_after(s, es.take(j))),
    decreases j - i,
{
    if i < j {
        lemma_progress_monotone(s, es, i, j - 1);
        let t = es.take(j);
        assert(t.drop_last() =~= es.take(j - 1));
        lemma_step_progress(stage_after(s, es.take(j - 1)), t.last());
    }
}

/// Once a request leaves a stage it never comes back to it: if the event at
/// index `i` changed the stage, no later point of the run is in the stage
/// that stood before it.
pub proof fn lemma_no_reentry(s: Stage, es: Seq<Event>, i: int, j: int)
    requires
        0 <= i < j <= es.len(),
        stage_after(s, es.take(i + 1)) != stage_after(s, es.take(i)),
    ensures
        stage_after(s, es.take(j)) != stage_after(s, es.take(i)),
{
    let t = es.take(i + 1);
    assert(t.drop_last() =~= es.take(i));
    lemma_step_progress(stage_after(s, es.take(i)), t.last());
    lemma_progress_monotone(s, es, i + 1, j);
}

/// Advances a request's stage by one event.
pub fn step(s: Stage, e: Event) -> (r: Stage)
    ensures
        r == step_spec(s, e),
{
    match s {
        Stage::Completed | Stage::Failed(_) => s,
        _ => match e {
            Event::Failure(k) => Stage::Failed(k),
            Event::PartArrived => match s {
                Stage::Receiving => Stage::Validating(0),
                Stage::Buffering(p) => if p < u64::MAX {
                    Stage::Validating(p + 1)
                } else {
                    s
                },
                _ => s,
            },
            Event::PartAccepted => match s {
                Stage::Validating(p) => Stage::Buffering(p),
                _ => s,
            },
            Event::StreamEnded => match s {
                Stage::Receiving | Stage::Buffering(_) => Stage::Sealed,
                _ => s,
            },
            Event::SigningStarted => match s {
                Stage::Sealed => Stage::Signing,
                _ => s,
            },
            Event::Signed => match s {
                Stage::Signing => Stage::Relaying,
                _ => s,
            },
            Event::Answered => match s {
                Stage::Relaying => Stage::Completed,
                _ => s,
            },
            Event::ChunkWritten => s,
        },
    }
}

} // verus!
