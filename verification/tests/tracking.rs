use lingo_morph::location::{CharTracker, Location, Tracker};

#[test]
fn tracker_counters_never_decrease() {
    // Line, item count and byte offset never decrease as items are
    // consumed; the column only falls back to zero, exactly on a line feed.
    let mut tracker = CharTracker::new();
    let mut previous = tracker.location();
    for c in "ab\ncd\n\ne".chars() {
        tracker.update(&c);
        let current = tracker.location();
        assert!(current.line() >= previous.line());
        assert!(current.at_char() >= previous.at_char());
        assert!(current.at_bytes() >= previous.at_bytes());
        if c == '\n' {
            assert_eq!(current.column(), 0);
            assert_eq!(current.line(), previous.line() + 1);
        } else {
            assert_eq!(current.column(), previous.column() + 1);
            assert_eq!(current.line(), previous.line());
        }
        assert_eq!(current.at_char(), previous.at_char() + 1);
        previous = current;
    }
    assert_eq!(previous.line(), 3);
    assert_eq!(previous.column(), 1);
    assert_eq!(previous.at_char(), 8);
    assert_eq!(previous.at_bytes(), 8);
}

#[test]
fn tracker_counts_encoded_widths() {
    let mut tracker = CharTracker::new();
    for c in "a\u{e9}\u{20ac}\u{1f600}".chars() {
        tracker.update(&c);
    }
    let loc = tracker.location();
    // One ASCII byte, a two-byte, a three-byte and a four-byte character.
    assert_eq!(loc.at_char(), 4);
    assert_eq!(loc.at_bytes(), 1 + 2 + 3 + 4);
}

#[test]
fn fresh_tracker_stands_at_origin() {
    let loc = CharTracker::new().location();
    assert_eq!(loc.line(), 0);
    assert_eq!(loc.column(), 0);
    assert_eq!(loc.at_char(), 0);
    assert_eq!(loc.at_bytes(), 0);
    assert_eq!(loc, Location::default());
}
