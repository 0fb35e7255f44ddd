use lingo_morph::processed::Status;
use lingo_morph::processors::{
    char, char_range, constant, constant_with, digit, digit_range, mutable, no_op, RangeEdge,
};
use lingo_morph::source::{BoxedSlice, Source};
use lingo_morph::Processor;

fn cursor_over(text: &str) -> BoxedSlice<char> {
    BoxedSlice::new(text.chars().collect())
}

fn drain<S: Source<Item = char>>(mut s: S) -> String {
    let mut out = String::new();
    while let Some(c) = s.next() {
        out.push(c);
    }
    out
}

#[test]
fn char_consumes_exactly_its_character() {
    let mut p = char('a');
    match p.process(cursor_over("abc")) {
        Ok(Status::Done(c, rest)) => {
            assert_eq!(c, 'a');
            assert_eq!(drain(rest), "bc");
        }
        _ => panic!("expected success"),
    }
}

#[test]
fn mismatching_leaves_consume_nothing() {
    // For every leaf and cursor, a mismatch hands back a cursor that yields
    // the same subsequent items as the one given.
    let mut c = char('z');
    match c.process(cursor_over("abc")) {
        Ok(Status::Mismatch(rest)) => assert_eq!(drain(rest), "abc"),
        _ => panic!("expected mismatch"),
    }

    let mut r = char_range(RangeEdge::Included('0'), RangeEdge::Included('9'));
    match r.process(cursor_over("abc")) {
        Ok(Status::Mismatch(rest)) => assert_eq!(drain(rest), "abc"),
        _ => panic!("expected mismatch"),
    }

    let mut d = digit_range(RangeEdge::Unbounded, RangeEdge::Unbounded).unwrap();
    match d.process(cursor_over("x1")) {
        Ok(Status::Mismatch(rest)) => assert_eq!(drain(rest), "x1"),
        _ => panic!("expected mismatch"),
    }

    let mut e = char('a');
    match e.process(cursor_over("")) {
        Ok(Status::Mismatch(rest)) => assert_eq!(drain(rest), ""),
        _ => panic!("expected mismatch on empty input"),
    }
}

#[test]
fn constants_succeed_without_consuming() {
    let mut k = constant(42u32);
    match k.process(BoxedSlice::new(vec![1u32, 2, 3])) {
        Ok(Status::Done(v, mut rest)) => {
            assert_eq!(v, 42);
            assert_eq!(rest.next(), Some(1));
            assert_eq!(rest.next(), Some(2));
            assert_eq!(rest.next(), Some(3));
        }
        _ => panic!("expected success"),
    }

    let mut n = no_op();
    match n.process(BoxedSlice::new(vec![(), ()])) {
        Ok(Status::Done((), mut rest)) => {
            assert_eq!(rest.next(), Some(()));
            assert_eq!(rest.next(), Some(()));
            assert_eq!(rest.next(), None);
        }
        _ => panic!("expected success"),
    }

    let mut w = constant_with(|| 7u8);
    match w.process(cursor_over("")) {
        Ok(Status::Done(v, _)) => assert_eq!(v, 7),
        _ => panic!("expected success"),
    }
}

#[test]
fn mutable_value_can_be_read_set_and_mapped() {
    let mut m = mutable(5u32);
    assert_eq!(*m.get(), 5);
    m.set(9);
    assert_eq!(*m.get(), 9);
    match m.process(BoxedSlice::new(vec![8u32])) {
        Ok(Status::Done(v, mut rest)) => {
            assert_eq!(v, 9);
            assert_eq!(rest.next(), Some(8));
        }
        _ => panic!("expected success"),
    }
    let doubled = m.map(|x| x * 2);
    assert_eq!(*doubled.get(), 18);
}

#[test]
fn char_range_respects_both_edges() {
    let mut p = char_range(RangeEdge::Excluded('a'), RangeEdge::Excluded('d'));
    match p.process(cursor_over("b")) {
        Ok(Status::Done(c, _)) => assert_eq!(c, 'b'),
        _ => panic!("expected success"),
    }
    match p.process(cursor_over("a")) {
        Ok(Status::Mismatch(_)) => {}
        _ => panic!("start edge is exclusive"),
    }
    match p.process(cursor_over("d")) {
        Ok(Status::Mismatch(_)) => {}
        _ => panic!("end edge is exclusive"),
    }
}

#[test]
fn digit_recognises_each_value_and_rejects_the_rest() {
    for d in 0..=9u8 {
        let mut p = digit(d).expect("digits zero to nine have a stage");
        let text: String = ((b'0' + d) as char).to_string();
        match p.process(cursor_over(&text)) {
            Ok(Status::Done(v, _)) => assert_eq!(v, d),
            _ => panic!("expected success"),
        }
    }
    assert!(digit(10).is_none());
    assert!(digit(255).is_none());
}

#[test]
fn digit_range_rejects_bad_bounds_at_construction() {
    // An inverted or out-of-zero-to-nine bound yields no stage at all.
    assert!(digit_range(RangeEdge::Included(7), RangeEdge::Included(3)).is_none());
    assert!(digit_range(RangeEdge::Included(0), RangeEdge::Included(10)).is_none());
    assert!(digit_range(RangeEdge::Included(11), RangeEdge::Unbounded).is_none());
    assert!(digit_range(RangeEdge::Excluded(9), RangeEdge::Unbounded).is_none());
    assert!(digit_range(RangeEdge::Unbounded, RangeEdge::Excluded(0)).is_none());
    assert!(digit_range(RangeEdge::Included(9), RangeEdge::Included(9)).is_some());
    assert!(digit_range(RangeEdge::Unbounded, RangeEdge::Unbounded).is_some());
}

#[test]
fn digit_range_converts_characters_to_values() {
    let mut p = digit_range(RangeEdge::Included(2), RangeEdge::Excluded(5)).unwrap();
    match p.process(cursor_over("4")) {
        Ok(Status::Done(v, _)) => assert_eq!(v, 4),
        _ => panic!("expected success"),
    }
    match p.process(cursor_over("5")) {
        Ok(Status::Mismatch(_)) => {}
        _ => panic!("five lies past the exclusive end"),
    }
}

#[test]
fn next_if_consumes_only_on_a_matching_item() {
    let mut cursor = cursor_over("ab");
    assert_eq!(cursor.next_if(|c: &char| *c == 'x'), None);
    assert_eq!(cursor.next_if(|c: &char| *c == 'a'), Some('a'));
    assert_eq!(cursor.next_if(|c: &char| *c == 'b'), Some('b'));
    assert_eq!(cursor.next_if(|c: &char| *c == 'b'), None);
}

#[test]
fn boxed_slice_snapshots_always_restore() {
    let mut cursor = cursor_over("abc");
    let start = cursor.snapshot();
    assert_eq!(cursor.next(), Some('a'));
    assert_eq!(cursor.next(), Some('b'));
    assert!(cursor.roll_back(start).is_ok());
    assert_eq!(cursor.peek(), Some('a'));
    assert_eq!(drain(cursor), "abc");
}
