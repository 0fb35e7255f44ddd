use lingo_morph::collections::{chain, Chain};
use lingo_morph::processed::Status;
use lingo_morph::processors::{char, Char};
use lingo_morph::source::{BoxedSlice, Source};
use lingo_morph::Processor;

fn cursor_over(text: &str) -> BoxedSlice<char> {
    BoxedSlice::new(text.chars().collect())
}

fn drain<S: Source<Item = char>>(mut s: S) -> String {
    let mut out = String::new();
    while let Some(c) = s.next() {
        out.push(c);
    }
    out
}

#[test]
fn a_chain_runs_each_stage_once_in_order() {
    let stages: Vec<Char> = vec![char('a'), char('b'), char('c')];
    let mut runnable = chain(stages).fold(
        || String::new(),
        |mut s: String, c: char| {
            s.push(c);
            Some(s)
        },
    );
    match runnable.process(cursor_over("abcd")) {
        Ok(Status::Done(Some(collected), rest)) => {
            assert_eq!(collected, "abc");
            assert_eq!(drain(rest), "d");
        }
        _ => panic!("expected the whole chain to succeed"),
    }
}

#[test]
fn a_chain_grows_by_chaining_and_pushing() {
    let mut c: Chain<Char> = Chain::new(vec![char('x')]).chain(char('y'));
    c.push(char('z'));
    let mut runnable = c.fold(|| 0u32, |n: u32, _c: char| Some(n + 1));
    match runnable.process(cursor_over("xyz")) {
        Ok(Status::Done(Some(count), _)) => assert_eq!(count, 3),
        _ => panic!("expected the whole chain to succeed"),
    }
}

#[test]
fn the_folding_function_can_stop_a_chain_early() {
    let stages: Vec<Char> = vec![char('a'), char('b'), char('c')];
    let mut runnable = chain(stages).fold(
        || 0u32,
        |n: u32, c: char| if c == 'b' { None } else { Some(n + 1) },
    );
    match runnable.process(cursor_over("abc")) {
        Ok(Status::Done(None, rest)) => {
            // The run stopped after the second stage; the third never ran.
            assert_eq!(drain(rest), "c");
        }
        _ => panic!("expected an early stop"),
    }
}

#[test]
fn a_chain_mismatches_where_a_stage_does() {
    let stages: Vec<Char> = vec![char('a'), char('b')];
    let mut runnable = chain(stages).fold(|| 0u32, |n: u32, _c: char| Some(n + 1));
    match runnable.process(cursor_over("ax")) {
        Ok(Status::Mismatch(rest)) => {
            // The first stage's consumption stays consumed.
            assert_eq!(drain(rest), "x");
        }
        _ => panic!("expected a mismatch"),
    }
}
