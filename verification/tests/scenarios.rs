use lingo_morph::buffered::{Buffered, VecFeed};
use lingo_morph::location::CharTracker;
use lingo_morph::processed::{ErrorCause, Status};
use lingo_morph::processors::{char, char_range, digit_range, RangeEdge};
use lingo_morph::source::{BoxedSlice, Source};
use lingo_morph::Processor;

fn cursor_over(text: &str) -> BoxedSlice<char> {
    BoxedSlice::new(text.chars().collect())
}

#[test]
fn folded_digits_read_a_whole_number() {
    // Cursor over all ten digits; folding them into an accumulator reads
    // the number they spell, and the cursor ends up exhausted.
    let mut pipeline = digit_range(RangeEdge::Unbounded, RangeEdge::Unbounded)
        .unwrap()
        .fold(|| 0u32, |acc, d| acc * 10 + d as u32);
    match pipeline.process(cursor_over("0123456789")) {
        Ok(Status::Done(value, mut rest)) => {
            assert_eq!(value, 123456789);
            assert_eq!(rest.next(), None);
        }
        _ => panic!("expected success"),
    }
}

struct Record {
    label: String,
    number: u32,
}

#[test]
fn label_and_number_parse_into_a_record() {
    // Eleven characters of label, an ignored single space, then a decimal
    // number, zipped into one structured record.
    let label = char_range(RangeEdge::Unbounded, RangeEdge::Unbounded).take(11).fold(
        || String::new(),
        |mut s, c| {
            s.push(c);
            s
        },
    );
    let number = digit_range(RangeEdge::Unbounded, RangeEdge::Unbounded)
        .unwrap()
        .fold(|| 0u32, |acc, d| acc * 10 + d as u32);
    let mut pipeline = label.zip(char(' ').ignore(number)).map(|(label, number)| Record {
        label,
        number,
    });
    match pipeline.process(cursor_over("hello_world 50123")) {
        Ok(Status::Done(record, mut rest)) => {
            assert_eq!(record.label, "hello_world");
            assert_eq!(record.number, 50123);
            assert_eq!(rest.next(), None);
        }
        _ => panic!("expected success"),
    }
}

#[test]
fn buffered_rollback_works_only_within_the_window() {
    // Lookback capacity four, six items consumed: the very first position
    // has left the window, the position before the third item has not.
    let feed = VecFeed::new("abcdef".chars().collect());
    let mut cursor = Buffered::new(feed, CharTracker::new(), 4);

    let start = cursor.snapshot();
    assert_eq!(cursor.next(), Some('a'));
    assert_eq!(cursor.next(), Some('b'));
    let before_third = cursor.snapshot();
    for expected in ['c', 'd', 'e', 'f'] {
        assert_eq!(cursor.next(), Some(expected));
    }

    match cursor.roll_back(start) {
        Err(error) => assert_eq!(error.cause(), ErrorCause::RollBackOutOfWindow),
        Ok(()) => panic!("the start has left the buffered window"),
    }

    assert!(cursor.roll_back(before_third).is_ok());
    assert_eq!(cursor.peek(), Some('c'));
    for expected in ['c', 'd', 'e', 'f'] {
        assert_eq!(cursor.next(), Some(expected));
    }
    assert_eq!(cursor.next(), None);
}

#[test]
fn buffered_cursor_replays_exactly_once_per_position() {
    let feed = VecFeed::new("xyz".chars().collect());
    let mut cursor = Buffered::new(feed, CharTracker::new(), 8);
    assert_eq!(cursor.peek(), Some('x'));
    assert_eq!(cursor.next(), Some('x'));
    let here = cursor.snapshot();
    assert_eq!(cursor.next(), Some('y'));
    assert_eq!(cursor.next(), Some('z'));
    assert_eq!(cursor.next(), None);
    assert!(cursor.roll_back(here).is_ok());
    assert_eq!(cursor.next(), Some('y'));
    assert_eq!(cursor.next(), Some('z'));
    assert_eq!(cursor.next(), None);
}

#[test]
fn ignore_over_a_buffered_cursor_keeps_atomicity_within_capacity() {
    // The pair consumes three items before failing; a window of four covers
    // the rollback, so the mismatch leaves the cursor where it began.
    let feed = VecFeed::new("abcd".chars().collect());
    let cursor = Buffered::new(feed, CharTracker::new(), 4);
    let mut pipeline = char('a').zip(char('b')).zip(char('c')).ignore(char('z'));
    match pipeline.process(cursor) {
        Ok(Status::Mismatch(mut rest)) => {
            for expected in ['a', 'b', 'c', 'd'] {
                assert_eq!(rest.next(), Some(expected));
            }
        }
        _ => panic!("expected a mismatch with the cursor restored"),
    }
}

#[test]
fn ignore_past_the_window_is_a_hard_error() {
    // The same pair over a window of one: the rollback target is out of
    // reach, which is a hard error, never a silent truncation.
    let feed = VecFeed::new("abcd".chars().collect());
    let cursor = Buffered::new(feed, CharTracker::new(), 1);
    let mut pipeline = char('a').zip(char('b')).zip(char('c')).ignore(char('z'));
    match pipeline.process(cursor) {
        Err(error) => {
            assert_eq!(error.cause(), ErrorCause::RollBackOutOfWindow);
            assert_eq!(error.location().at_char(), 3);
            assert_eq!(
                error.message(),
                "processing failed at line 0 and column 3, after consuming 3 items: \
                 not enough buffered history",
            );
        }
        _ => panic!("expected a hard error"),
    }
}

#[test]
fn rollback_to_the_current_position_always_succeeds() {
    // Even with no lookback at all, a snapshot of where the cursor already
    // stands can be restored.
    let feed = VecFeed::new("ab".chars().collect());
    let mut cursor = Buffered::new(feed, CharTracker::new(), 0);
    assert_eq!(cursor.next(), Some('a'));
    let here = cursor.snapshot();
    assert!(cursor.roll_back(here).is_ok());
    assert_eq!(cursor.next(), Some('b'));
}

#[test]
fn peek_matches_next_during_replay() {
    // During a replay after rollback, peeking must show exactly what the
    // next consumption will return, at every position.
    let feed = VecFeed::new("pqrs".chars().collect());
    let mut cursor = Buffered::new(feed, CharTracker::new(), 4);
    let start = cursor.snapshot();
    while cursor.next().is_some() {}
    assert!(cursor.roll_back(start).is_ok());
    loop {
        let peeked = cursor.peek();
        let taken = cursor.next();
        assert_eq!(peeked, taken);
        if taken.is_none() {
            break;
        }
    }
}
