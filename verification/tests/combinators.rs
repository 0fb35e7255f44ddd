use lingo_morph::processed::Status;
use lingo_morph::processors::{char, char_range, constant, digit_range, RangeEdge};
use lingo_morph::source::{BoxedSlice, Source};
use lingo_morph::Processor;

fn cursor_over(text: &str) -> BoxedSlice<char> {
    BoxedSlice::new(text.chars().collect())
}

fn drain<S: Source<Item = char>>(mut s: S) -> String {
    let mut out = String::new();
    while let Some(c) = s.next() {
        out.push(c);
    }
    out
}

#[test]
fn map_transforms_success_only() {
    let mut p = char('a').map(|c| c as u32);
    match p.process(cursor_over("a")) {
        Ok(Status::Done(v, _)) => assert_eq!(v, 97),
        _ => panic!("expected success"),
    }
    match p.process(cursor_over("b")) {
        Ok(Status::Mismatch(rest)) => assert_eq!(drain(rest), "b"),
        _ => panic!("expected mismatch"),
    }
}

#[test]
fn replace_substitutes_a_constant() {
    let mut p = char('x').replace(3u8);
    match p.process(cursor_over("xy")) {
        Ok(Status::Done(v, rest)) => {
            assert_eq!(v, 3);
            assert_eq!(drain(rest), "y");
        }
        _ => panic!("expected success"),
    }
}

#[test]
fn zip_pairs_outputs_and_keeps_partial_consumption() {
    let mut p = char('a').zip(char('b'));
    match p.process(cursor_over("abc")) {
        Ok(Status::Done((x, y), rest)) => {
            assert_eq!((x, y), ('a', 'b'));
            assert_eq!(drain(rest), "c");
        }
        _ => panic!("expected success"),
    }
    // The first half succeeded, the second mismatched: what was consumed
    // stays consumed, there is no implicit rollback.
    let mut q = char('a').zip(char('b'));
    match q.process(cursor_over("axc")) {
        Ok(Status::Mismatch(rest)) => assert_eq!(drain(rest), "xc"),
        _ => panic!("expected mismatch"),
    }
}

#[test]
fn ignore_rolls_back_when_the_second_stage_fails() {
    // If the first stage succeeds and the second mismatches, the resulting
    // cursor is equivalent to the cursor before the pair ran.
    let mut p = char('a').ignore(char('z'));
    match p.process(cursor_over("abc")) {
        Ok(Status::Mismatch(rest)) => assert_eq!(drain(rest), "abc"),
        _ => panic!("expected mismatch"),
    }
    // On success it keeps only the second stage's output.
    let mut q = char('a').ignore(char('b'));
    match q.process(cursor_over("abc")) {
        Ok(Status::Done(v, rest)) => {
            assert_eq!(v, 'b');
            assert_eq!(drain(rest), "c");
        }
        _ => panic!("expected success"),
    }
}

#[test]
fn ignore_next_keeps_the_first_output() {
    let mut p = char('a').ignore_next(char('b'));
    match p.process(cursor_over("abc")) {
        Ok(Status::Done(v, rest)) => {
            assert_eq!(v, 'a');
            assert_eq!(drain(rest), "c");
        }
        _ => panic!("expected success"),
    }
    let mut q = char('a').ignore_next(char('z'));
    match q.process(cursor_over("abc")) {
        Ok(Status::Mismatch(rest)) => assert_eq!(drain(rest), "abc"),
        _ => panic!("expected mismatch"),
    }
}

#[test]
fn or_falls_through_to_the_second_stage() {
    let mut p = char('a').or(char('b'));
    match p.process(cursor_over("b")) {
        Ok(Status::Done(v, _)) => assert_eq!(v, 'b'),
        _ => panic!("expected success"),
    }
    match p.process(cursor_over("a")) {
        Ok(Status::Done(v, _)) => assert_eq!(v, 'a'),
        _ => panic!("expected success"),
    }
    match p.process(cursor_over("c")) {
        Ok(Status::Mismatch(rest)) => assert_eq!(drain(rest), "c"),
        _ => panic!("expected mismatch"),
    }
}

#[test]
fn take_counts_invocations_and_resets_on_exhaustion() {
    // After a take has mismatched once due to exhaustion, applying it to a
    // fresh cursor again allows the full number of successes.
    let mut p = char('a').take(2);
    for _round in 0..3 {
        let mut cursor = cursor_over("aaa");
        let mut successes = 0;
        loop {
            match p.process(cursor) {
                Ok(Status::Done(_, rest)) => {
                    successes += 1;
                    cursor = rest;
                }
                Ok(Status::Mismatch(rest)) => {
                    cursor = rest;
                    break;
                }
                Err(_) => panic!("no hard error expected"),
            }
        }
        assert_eq!(successes, 2);
        assert_eq!(drain(cursor), "a");
    }
}

#[test]
fn take_while_guards_the_inner_stage() {
    let mut p = char_range(RangeEdge::Unbounded, RangeEdge::Unbounded)
        .take_while(|c: &char| c.is_ascii_lowercase());
    match p.process(cursor_over("q1")) {
        Ok(Status::Done(v, rest)) => {
            assert_eq!(v, 'q');
            assert_eq!(drain(rest), "1");
        }
        _ => panic!("expected success"),
    }
    match p.process(cursor_over("1q")) {
        Ok(Status::Mismatch(rest)) => assert_eq!(drain(rest), "1q"),
        _ => panic!("expected mismatch without consumption"),
    }
}

#[test]
fn fold_accumulates_until_mismatch() {
    let mut p = digit_range(RangeEdge::Unbounded, RangeEdge::Unbounded)
        .unwrap()
        .fold(|| 0u32, |acc, d| acc * 10 + d as u32);
    match p.process(cursor_over("407x")) {
        Ok(Status::Done(v, rest)) => {
            assert_eq!(v, 407);
            assert_eq!(drain(rest), "x");
        }
        _ => panic!("expected success"),
    }
    // Zero repetitions still succeed, with the initial state.
    match p.process(cursor_over("x")) {
        Ok(Status::Done(v, rest)) => {
            assert_eq!(v, 0);
            assert_eq!(drain(rest), "x");
        }
        _ => panic!("expected success"),
    }
}

#[test]
fn connect_hands_the_stage_to_a_binder() {
    let mut p = char('a').connect(|inner| inner.replace(1u8)).or(char('b').replace(2u8));
    match p.process(cursor_over("b")) {
        Ok(Status::Done(v, _)) => assert_eq!(v, 2),
        _ => panic!("expected success"),
    }
}

#[test]
fn take_spends_no_budget_on_inner_mismatches() {
    // Only successful invocations count toward the budget: a failed
    // attempt leaves the full allowance in place.
    let mut p = char('a').take(2);
    match p.process(cursor_over("x")) {
        Ok(Status::Mismatch(_)) => {}
        _ => panic!("expected a mismatch"),
    }
    for _ in 0..2 {
        match p.process(cursor_over("a")) {
            Ok(Status::Done(c, _)) => assert_eq!(c, 'a'),
            _ => panic!("the failed attempt must not have spent budget"),
        }
    }
    match p.process(cursor_over("a")) {
        Ok(Status::Mismatch(_)) => {}
        _ => panic!("two successes exhaust a budget of two"),
    }
}

#[test]
fn fold_over_a_budgeted_constant_terminates() {
    // A budgeted stage is progressive even over a non-consuming inner one:
    // the fold ends when the budget runs out.
    let mut p = constant(5u32).take(3).fold(|| 0u32, |acc, v| acc + v);
    match p.process(BoxedSlice::new(vec![9u32])) {
        Ok(Status::Done(total, mut rest)) => {
            assert_eq!(total, 15);
            assert_eq!(rest.next(), Some(9));
        }
        _ => panic!("expected success"),
    }
}

#[test]
fn take_of_zero_mismatches_at_once() {
    let mut p = char('a').take(0);
    match p.process(cursor_over("aaa")) {
        Ok(Status::Mismatch(rest)) => assert_eq!(drain(rest), "aaa"),
        _ => panic!("expected an immediate mismatch"),
    }
}

#[test]
fn fold_over_empty_input_yields_the_initial_state() {
    let mut p = digit_range(RangeEdge::Unbounded, RangeEdge::Unbounded)
        .unwrap()
        .fold(|| 99u32, |acc, d| acc + d as u32);
    match p.process(cursor_over("")) {
        Ok(Status::Done(v, _)) => assert_eq!(v, 99),
        _ => panic!("expected success"),
    }
}
