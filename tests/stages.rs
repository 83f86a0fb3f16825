use video_upload::ingest::IngestError;
use video_upload::pipeline::{step, Event, PipelineFailure, Stage};
use video_upload::relay::RelayError;

fn run(events: &[Event]) -> Vec<Stage> {
    let mut s = Stage::Receiving;
    let mut seen = vec![s];
    for e in events {
        s = step(s, *e);
        seen.push(s);
    }
    seen
}

#[test]
fn successful_request_walks_every_stage() {
    let seen = run(&[
        Event::PartArrived,
        Event::PartAccepted,
        Event::ChunkWritten,
        Event::ChunkWritten,
        Event::PartArrived,
        Event::PartAccepted,
        Event::StreamEnded,
        Event::SigningStarted,
        Event::Signed,
        Event::Answered,
    ]);
    assert_eq!(
        seen,
        vec![
            Stage::Receiving,
            Stage::Validating(0),
            Stage::Buffering(0),
            Stage::Buffering(0),
            Stage::Buffering(0),
            Stage::Validating(1),
            Stage::Buffering(1),
            Stage::Sealed,
            Stage::Signing,
            Stage::Relaying,
            Stage::Completed,
        ]
    );
}

#[test]
fn failure_ends_any_live_stage_and_sticks() {
    let too_large = PipelineFailure::Ingest(IngestError::PayloadTooLarge);
    for s in [
        Stage::Receiving,
        Stage::Validating(3),
        Stage::Buffering(3),
        Stage::Sealed,
        Stage::Signing,
        Stage::Relaying,
    ] {
        assert_eq!(step(s, Event::Failure(too_large)), Stage::Failed(too_large));
    }
    let failed = Stage::Failed(PipelineFailure::Relay(RelayError::DecodeError));
    assert_eq!(step(failed, Event::Answered), failed);
    assert_eq!(step(failed, Event::Failure(too_large)), failed);
    assert_eq!(step(Stage::Completed, Event::Failure(too_large)), Stage::Completed);
}

#[test]
fn out_of_order_events_change_nothing() {
    assert_eq!(step(Stage::Receiving, Event::Signed), Stage::Receiving);
    assert_eq!(step(Stage::Sealed, Event::PartArrived), Stage::Sealed);
    assert_eq!(step(Stage::Validating(0), Event::ChunkWritten), Stage::Validating(0));
}

#[test]
fn empty_body_is_sealed_directly() {
    assert_eq!(step(Stage::Receiving, Event::StreamEnded), Stage::Sealed);
}
