use lingo_morph::buffered::{Buffered, VecFeed};
use lingo_morph::context::ProcessingFailed;
use lingo_morph::end::{End, FResult, FinalProcessor};
use lingo_morph::location::{CharTracker, Location};
use lingo_morph::monads::Either;
use lingo_morph::processed::{done, err, mismatch, ErrorCause, ProcessingError, Status};
use lingo_morph::processors::{char, digit_range, RangeEdge};
use lingo_morph::source::BoxedSlice;
use lingo_morph::Processor;

fn cursor_over(text: &str) -> BoxedSlice<char> {
    BoxedSlice::new(text.chars().collect())
}

#[test]
fn with_process_returns_the_output() {
    let pipeline = char('h').zip(char('i'));
    match pipeline.with(cursor_over("hi")).process() {
        Ok((a, b)) => assert_eq!((a, b), ('h', 'i')),
        Err(_) => panic!("expected success"),
    }
}

#[test]
fn with_process_reports_unrecognised_input() {
    let pipeline = char('h');
    match pipeline.with(cursor_over("x")).process() {
        Err(ProcessingFailed::NoReturn) => {}
        _ => panic!("expected a no-return failure"),
    }
}

#[test]
fn with_fold_accumulates_repeated_runs() {
    let pipeline = digit_range(RangeEdge::Unbounded, RangeEdge::Unbounded).unwrap();
    match pipeline.with(cursor_over("271x")).fold(0u32, |acc, d| acc * 10 + d as u32) {
        Ok(value) => assert_eq!(value, 271),
        Err(_) => panic!("expected success"),
    }
}

#[test]
fn end_exposes_only_the_outcome() {
    let mut finished = End::new(char('a').replace(1u32));
    match finished.process(cursor_over("a")) {
        FResult::Done(v) => assert_eq!(v, 1),
        _ => panic!("expected completion"),
    }
    match finished.process(cursor_over("b")) {
        FResult::Incomplete => {}
        _ => panic!("expected an incomplete run"),
    }
}

#[test]
fn end_can_conform_input_and_map_output() {
    let mut finished = End::new(char('a').replace(2u32))
        .conform(|text: String| BoxedSlice::new(text.chars().collect()))
        .map(|v| v + 40);
    match finished.process(String::from("a")) {
        FResult::Done(v) => assert_eq!(v, 42),
        _ => panic!("expected completion"),
    }
}

#[test]
fn fresult_map_touches_only_completed_values() {
    let completed: FResult<u32> = FResult::Done(3);
    match completed.map(|v| v + 1) {
        FResult::Done(v) => assert_eq!(v, 4),
        _ => panic!("expected completion"),
    }
    let incomplete: FResult<u32> = FResult::Incomplete;
    match incomplete.map(|v| v + 1) {
        FResult::Incomplete => {}
        _ => panic!("expected an incomplete run"),
    }
}

#[test]
fn status_map_passes_mismatch_through() {
    let done_status: Status<u32, &str> = Status::Done(5, "rest");
    match done_status.map(|v| v * 2) {
        Status::Done(v, rest) => {
            assert_eq!(v, 10);
            assert_eq!(rest, "rest");
        }
        _ => panic!("expected a done status"),
    }
    let missed: Status<u32, &str> = Status::Mismatch("rest");
    match missed.map(|v| v * 2) {
        Status::Mismatch(rest) => assert_eq!(rest, "rest"),
        _ => panic!("expected a mismatch"),
    }
}

#[test]
fn status_constructors_build_what_they_name() {
    let d: Result<Status<u8, u8>, ProcessingError> = done(1, 2);
    assert!(matches!(d, Ok(Status::Done(1, 2))));
    let m: Result<Status<u8, u8>, ProcessingError> = mismatch(3);
    assert!(matches!(m, Ok(Status::Mismatch(3))));
    let failure = ProcessingError::new(Location::default(), ErrorCause::RollBackOutOfWindow);
    let e: Result<Status<u8, u8>, ProcessingError> = err(failure);
    match e {
        Err(error) => {
            assert_eq!(error.location(), Location::default());
            assert_eq!(error.cause(), ErrorCause::RollBackOutOfWindow);
        }
        _ => panic!("expected the error"),
    }
}

#[test]
fn either_unwraps_left_or_maps_right() {
    let left: Either<u32, &str> = Either::Left(7);
    assert_eq!(left.lunwrap_or_map(|s: &str| s.len() as u32), 7);
    let right: Either<u32, &str> = Either::Right("four");
    assert_eq!(right.lunwrap_or_map(|s: &str| s.len() as u32), 4);
}

#[test]
fn end_surfaces_hard_errors() {
    // A rollback out of the buffered window terminates the run with the
    // hard-error outcome, not a mere incompleteness.
    let feed = VecFeed::new("abc".chars().collect());
    let cursor = Buffered::new(feed, CharTracker::new(), 0);
    let mut finished = End::new(char('a').zip(char('b')).ignore(char('z')));
    match finished.process(cursor) {
        FResult::Error(error) => assert_eq!(error.cause(), ErrorCause::RollBackOutOfWindow),
        _ => panic!("expected a hard error"),
    }
}
