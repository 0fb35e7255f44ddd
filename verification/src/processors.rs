//! Leaf combinators: the stages that actually look at items.

use vstd::prelude::*;

use crate::processed::{done, mismatch, Processed, ProcessingError};
use crate::source::{upcoming, Source};
use crate::{CopyReplace, Processor};

verus! {

broadcast use {
    vstd::seq_lib::lemma_seq_skip_index,
    vstd::seq_lib::lemma_seq_skip_len,
};

/// Succeeds consuming exactly one item equal to the stored character.
#[derive(Debug, Clone, Copy, PartialEq, Eq, Structural)]
pub struct Char(pub char);

impl Processor<char> for Char {
    type Output = char;

    open spec fn inv(&self) -> bool {
        true
    }

    /// Exactly the stored character at the front of the stream is consumed
    /// and returned.
    open spec fn ok_step(pre: Self, s: Seq<char>, post: Self, n: nat, out: char) -> bool {
        &&& s.len() > 0 && s[0] == pre.0
        &&& n == 1
        &&& out == pre.0
        &&& post == pre
    }

    /// The stream is empty or starts with a different character; nothing is
    /// consumed.
    open spec fn miss_step(pre: Self, s: Seq<char>, post: Self, n: nat) -> bool {
        &&& s.len() == 0 || s[0] != pre.0
        &&& n == 0
        &&& post == pre
    }

    open spec fn resets_on_mismatch(&self) -> bool {
        true
    }

    /// A leaf never raises a hard error.
    open spec fn err_step(pre: Self, s: Seq<char>, e: ProcessingError, lossless: bool) -> bool {
        false
    }

    open spec fn consuming(&self) -> bool {
        true
    }

    open spec fn progress(&self) -> bool {
        true
    }

    open spec fn fuel(&self) -> nat {
        0
    }

    proof fn ok_progress(pre: Self, s: Seq<char>, post: Self, n: nat, out: char) {
    }

    proof fn miss_keeps_progress(pre: Self, s: Seq<char>, post: Self, n: nat) {
    }

    fn process<S: Source<Item = char>>(&mut self, given: S) -> (r: Processed<char, S>) {
        let mut given = given;
        proof {
            given.lemma_wf();
            if given.offset() < given.stream().len() {
                assert(upcoming(given)[0] == given.stream()[given.offset() as int]);
            }
        }
        let peeked = given.peek();
        match peeked {
            Some(c) => {
                if c == self.0 {
                    given.next();
                    done(c, given)
                } else {
                    mismatch(given)
                }
            },
            None => mismatch(given),
        }
    }
}

/// Always succeeds without consuming, yielding the stored value.
#[derive(Debug, Clone, Copy, PartialEq, Eq, PartialOrd, Ord)]
pub struct Const<T>(pub T);

impl<T: Copy> Processor<T> for Const<T> {
    type Output = T;

    open spec fn inv(&self) -> bool {
        true
    }

    /// The stored value comes out; nothing is consumed.
    open spec fn ok_step(pre: Self, s: Seq<T>, post: Self, n: nat, out: T) -> bool {
        &&& n == 0
        &&& out == pre.0
        &&& post == pre
    }

    /// A constant never mismatches.
    open spec fn miss_step(pre: Self, s: Seq<T>, post: Self, n: nat) -> bool {
        false
    }

    open spec fn resets_on_mismatch(&self) -> bool {
        true
    }

    /// A leaf never raises a hard error.
    open spec fn err_step(pre: Self, s: Seq<T>, e: ProcessingError, lossless: bool) -> bool {
        false
    }

    open spec fn consuming(&self) -> bool {
        false
    }

    open spec fn progress(&self) -> bool {
        false
    }

    open spec fn fuel(&self) -> nat {
        0
    }

    proof fn ok_progress(pre: Self, s: Seq<T>, post: Self, n: nat, out: T) {
    }

    proof fn miss_keeps_progress(pre: Self, s: Seq<T>, post: Self, n: nat) {
    }

    fn process<S: Source<Item = T>>(&mut self, given: S) -> (r: Processed<T, S>) {
        proof {
            given.lemma_wf();
        }
        done(self.0, given)
    }
}

/// A do-nothing stage: succeeds with `()` and consumes nothing.
pub type NoOp = Const<()>;

/// Build a [`Const`] stage.
pub fn constant<T: Copy>(val: T) -> (r: Const<T>)
    ensures
        r == Const(val),
{
    Const(val)
}

/// Build a stage that succeeds with `()` without consuming anything.
pub fn no_op() -> (r: NoOp)
    ensures
        r == Const(()),
{
    constant(())
}

/// One end of a character or digit range: closed, open, or absent.
#[derive(Debug, Clone, Copy, PartialEq, Eq, Structural)]
pub enum RangeEdge<T> {
    Included(T),
    Excluded(T),
    Unbounded,
}

/// Whether `c` lies at or after the start edge of a range.
pub open spec fn above_start(start: RangeEdge<char>, c: char) -> bool {
    match start {
        RangeEdge::Included(s) => s as u32 <= c as u32,
        RangeEdge::Excluded(s) => (s as u32) < (c as u32),
        RangeEdge::Unbounded => true,
    }
}

/// Whether `c` lies at or before the end edge of a range.
pub open spec fn below_end(end: RangeEdge<char>, c: char) -> bool {
    match end {
        RangeEdge::Included(e) => c as u32 <= e as u32,
        RangeEdge::Excluded(e) => (c as u32) < (e as u32),
        RangeEdge::Unbounded => true,
    }
}

/// Succeeds consuming exactly one item within the stored bounds.
#[derive(Debug, Clone, Copy, PartialEq, Eq, Structural)]
pub struct CharRange {
    pub start: RangeEdge<char>,
    pub end: RangeEdge<char>,
}

impl CharRange {
    /// Whether `c` lies within the bounds.
    pub open spec fn spec_contains(&self, c: char) -> bool {
        above_start(self.start, c) && below_end(self.end, c)
    }

    /// Whether `c` lies within the bounds.
    #[verifier::when_used_as_spec(spec_contains)]
    pub fn contains(&self, c: char) -> (r: bool)
        ensures
            r == self.spec_contains(c),
    {
        let lower = match self.start {
            RangeEdge::Included(s) => s as u32 <= c as u32,
            RangeEdge::Excluded(s) => (s as u32) < (c as u32),
            RangeEdge::Unbounded => true,
        };
        let upper = match self.end {
            RangeEdge::Included(e) => c as u32 <= e as u32,
            RangeEdge::Excluded(e) => (c as u32) < (e as u32),
            RangeEdge::Unbounded => true,
        };
        lower && upper
    }
}

impl Processor<char> for CharRange {
    type Output = char;

    open spec fn inv(&self) -> bool {
        true
    }

    /// One in-bounds character at the front of the stream is consumed and
    /// returned.
    open spec fn ok_step(pre: Self, s: Seq<char>, post: Self, n: nat, out: char) -> bool {
        &&& s.len() > 0 && pre.spec_contains(s[0])
        &&& n == 1
        &&& out == s[0]
        &&& post == pre
    }

    /// The stream is empty or its first character lies outside the bounds;
    /// nothing is consumed.
    open spec fn miss_step(pre: Self, s: Seq<char>, post: Self, n: nat) -> bool {
        &&& s.len() == 0 || !pre.spec_contains(s[0])
        &&& n == 0
        &&& post == pre
    }

    open spec fn resets_on_mismatch(&self) -> bool {
        true
    }

    /// A leaf never raises a hard error.
    open spec fn err_step(pre: Self, s: Seq<char>, e: ProcessingError, lossless: bool) -> bool {
        false
    }

    open spec fn consuming(&self) -> bool {
        true
    }

    open spec fn progress(&self) -> bool {
        true
    }

    open spec fn fuel(&self) -> nat {
        0
    }

    proof fn ok_progress(pre: Self, s: Seq<char>, post: Self, n: nat, out: char) {
    }

    proof fn miss_keeps_progress(pre: Self, s: Seq<char>, post: Self, n: nat) {
    }

    fn process<S: Source<Item = char>>(&mut self, given: S) -> (r: Processed<char, S>) {
        let mut given = given;
        proof {
            given.lemma_wf();
            if given.offset() < given.stream().len() {
                assert(upcoming(given)[0] == given.stream()[given.offset() as int]);
            }
        }
        let peeked = given.peek();
        match peeked {
            Some(c) => {
                if self.contains(c) {
                    given.next();
                    done(c, given)
                } else {
                    mismatch(given)
                }
            },
            None => mismatch(given),
        }
    }
}

/// Always succeeds without consuming, yielding whatever the stored function
/// returns.
#[derive(Debug, Clone, Copy, PartialEq, Eq, PartialOrd, Ord)]
pub struct ConstWith<F>(pub F);

impl<F, T> Processor<char> for ConstWith<F> where F: Fn() -> T {
    type Output = T;

    open spec fn inv(&self) -> bool {
        call_requires(self.0, ())
    }

    /// A value the stored function can return comes out; nothing is
    /// consumed.
    open spec fn ok_step(pre: Self, s: Seq<char>, post: Self, n: nat, out: T) -> bool {
        &&& n == 0
        &&& call_ensures(pre.0, (), out)
        &&& post == pre
    }

    open spec fn miss_step(pre: Self, s: Seq<char>, post: Self, n: nat) -> bool {
        false
    }

    open spec fn resets_on_mismatch(&self) -> bool {
        true
    }

    /// A leaf never raises a hard error.
    open spec fn err_step(pre: Self, s: Seq<char>, e: ProcessingError, lossless: bool) -> bool {
        false
    }

    open spec fn consuming(&self) -> bool {
        false
    }

    open spec fn progress(&self) -> bool {
        false
    }

    open spec fn fuel(&self) -> nat {
        0
    }

    proof fn ok_progress(pre: Self, s: Seq<char>, post: Self, n: nat, out: T) {
    }

    proof fn miss_keeps_progress(pre: Self, s: Seq<char>, post: Self, n: nat) {
    }

    fn process<S: Source<Item = char>>(&mut self, given: S) -> (r: Processed<T, S>) {
        proof {
            given.lemma_wf();
        }
        done((self.0)(), given)
    }
}

/// Always succeeds without consuming, yielding a stored value that can be
/// read, replaced or mapped between runs.
#[derive(Debug, Clone, Copy, PartialEq, Eq, PartialOrd, Ord)]
pub struct Mut<T>(pub T);

impl<T> Mut<T> {
    /// Read the stored value.
    pub fn get(&self) -> (r: &T)
        ensures
            *r == self.0,
    {
        &self.0
    }

    /// Replace the stored value.
    pub fn set(&mut self, new: T)
        ensures
            final(self).0 == new,
    {
        self.0 = new;
    }

    /// Turn the stored value into another one.
    pub fn map<F, U>(self, map: F) -> (r: Mut<U>) where F: FnOnce(T) -> U
        requires
            call_requires(map, (self.0,)),
        ensures
            call_ensures(map, (self.0,), r.0),
    {
        Mut(map(self.0))
    }
}

impl<T: Copy> Processor<T> for Mut<T> {
    type Output = T;

    open spec fn inv(&self) -> bool {
        true
    }

    /// The currently stored value comes out; nothing is consumed.
    open spec fn ok_step(pre: Self, s: Seq<T>, post: Self, n: nat, out: T) -> bool {
        &&& n == 0
        &&& out == pre.0
        &&& post == pre
    }

    open spec fn miss_step(pre: Self, s: Seq<T>, post: Self, n: nat) -> bool {
        false
    }

    open spec fn resets_on_mismatch(&self) -> bool {
        true
    }

    /// A leaf never raises a hard error.
    open spec fn err_step(pre: Self, s: Seq<T>, e: ProcessingError, lossless: bool) -> bool {
        false
    }

    open spec fn consuming(&self) -> bool {
        false
    }

    open spec fn progress(&self) -> bool {
        false
    }

    open spec fn fuel(&self) -> nat {
        0
    }

    proof fn ok_progress(pre: Self, s: Seq<T>, post: Self, n: nat, out: T) {
    }

    proof fn miss_keeps_progress(pre: Self, s: Seq<T>, post: Self, n: nat) {
    }

    fn process<S: Source<Item = T>>(&mut self, given: S) -> (r: Processed<T, S>) {
        proof {
            given.lemma_wf();
        }
        done(self.0, given)
    }
}

/// Succeeds consuming one decimal digit character within stored numeric
/// bounds, yielding its numeric value.
#[derive(Debug, Clone, Copy, PartialEq, Eq, Structural)]
pub struct DigitRange {
    pub lo: u8,
    pub hi: u8,
}

impl Processor<char> for DigitRange {
    type Output = u8;

    open spec fn inv(&self) -> bool {
        true
    }

    /// The first character is a digit between the bounds; it is consumed
    /// and its numeric value comes out.
    open spec fn ok_step(pre: Self, s: Seq<char>, post: Self, n: nat, out: u8) -> bool {
        &&& s.len() > 0
        &&& 0x30 + pre.lo <= s[0] as u32 <= 0x30 + pre.hi
        &&& out == s[0] as u32 - 0x30
        &&& n == 1
        &&& post == pre
    }

    /// The stream is empty or its first character is no digit between the
    /// bounds; nothing is consumed.
    open spec fn miss_step(pre: Self, s: Seq<char>, post: Self, n: nat) -> bool {
        &&& s.len() == 0 || !(0x30 + pre.lo <= s[0] as u32 <= 0x30 + pre.hi)
        &&& n == 0
        &&& post == pre
    }

    open spec fn resets_on_mismatch(&self) -> bool {
        true
    }

    /// A leaf never raises a hard error.
    open spec fn err_step(pre: Self, s: Seq<char>, e: ProcessingError, lossless: bool) -> bool {
        false
    }

    open spec fn consuming(&self) -> bool {
        true
    }

    open spec fn progress(&self) -> bool {
        true
    }

    open spec fn fuel(&self) -> nat {
        0
    }

    proof fn ok_progress(pre: Self, s: Seq<char>, post: Self, n: nat, out: u8) {
    }

    proof fn miss_keeps_progress(pre: Self, s: Seq<char>, post: Self, n: nat) {
    }

    fn process<S: Source<Item = char>>(&mut self, given: S) -> (r: Processed<u8, S>) {
        let mut given = given;
        proof {
            given.lemma_wf();
            if given.offset() < given.stream().len() {
                assert(upcoming(given)[0] == given.stream()[given.offset() as int]);
            }
        }
        let peeked = given.peek();
        match peeked {
            Some(c) => {
                let u = c as u32;
                if 0x30 + (self.lo as u32) <= u && u <= 0x30 + (self.hi as u32) {
                    given.next();
                    done((u - 0x30) as u8, given)
                } else {
                    mismatch(given)
                }
            },
            None => mismatch(given),
        }
    }
}

/// Build a stage that always succeeds with what the given function returns.
pub fn constant_with<F, T>(func: F) -> (r: ConstWith<F>) where F: Fn() -> T
    ensures
        r == ConstWith(func),
{
    ConstWith(func)
}

/// Build a [`Mut`] stage holding `initial`.
pub fn mutable<T: Copy>(initial: T) -> (r: Mut<T>)
    ensures
        r == Mut(initial),
{
    Mut(initial)
}

/// Build a stage recognising exactly the character `from`.
pub fn char(from: char) -> (r: Char)
    ensures
        r == Char(from),
{
    Char(from)
}

/// Build a stage recognising one character within the given bounds.
pub fn char_range(start: RangeEdge<char>, end: RangeEdge<char>) -> (r: CharRange)
    ensures
        r.start == start,
        r.end == end,
{
    CharRange { start, end }
}

/// Build a stage recognising exactly the given decimal digit and yielding
/// its value; digits above nine make no stage.
pub fn digit(value: u8) -> (r: Option<CopyReplace<Char, u8>>)
    ensures
        value <= 9 ==> (r matches Some(p) && (p.0).0 as u32 == 0x30 + value && p.1 == value),
        value > 9 ==> r is None,
{
    match value {
        0 => Some(Char('0').replace(0)),
        1 => Some(Char('1').replace(1)),
        2 => Some(Char('2').replace(2)),
        3 => Some(Char('3').replace(3)),
        4 => Some(Char('4').replace(4)),
        5 => Some(Char('5').replace(5)),
        6 => Some(Char('6').replace(6)),
        7 => Some(Char('7').replace(7)),
        8 => Some(Char('8').replace(8)),
        9 => Some(Char('9').replace(9)),
        _ => None,
    }
}

/// The lowest digit a start edge allows.
pub open spec fn digit_low(start: RangeEdge<u8>) -> int {
    match start {
        RangeEdge::Included(x) => x as int,
        RangeEdge::Excluded(x) => x + 1,
        RangeEdge::Unbounded => 0,
    }
}

/// The highest digit an end edge allows.
pub open spec fn digit_high(end: RangeEdge<u8>) -> int {
    match end {
        RangeEdge::Included(x) => x as int,
        RangeEdge::Excluded(x) => x - 1,
        RangeEdge::Unbounded => 9,
    }
}

/// Whether the two edges describe a sensible, non-inverted range of decimal
/// digits.
pub open spec fn valid_digit_range(start: RangeEdge<u8>, end: RangeEdge<u8>) -> bool {
    &&& digit_low(start) <= digit_high(end)
    &&& digit_low(start) <= 9
    &&& digit_high(end) <= 9
}

/// Build a stage recognising one decimal digit within the given bounds and
/// yielding its numeric value. An inverted range, or one naming digits
/// above nine, yields no stage at all rather than one that could
/// misbehave.
pub fn digit_range(start: RangeEdge<u8>, end: RangeEdge<u8>) -> (r: Option<DigitRange>)
    ensures
        r is Some <==> valid_digit_range(start, end),
        r matches Some(p) ==> p.lo == digit_low(start) && p.hi == digit_high(end),
{
    let lo = match start {
        RangeEdge::Included(x) => x,
        RangeEdge::Excluded(x) => {
            if x >= 9 {
                return None;
            }
            x + 1
        },
        RangeEdge::Unbounded => 0,
    };
    let hi = match end {
        RangeEdge::Included(x) => x,
        RangeEdge::Excluded(x) => {
            if x == 0 {
                return None;
            }
            x - 1
        },
        RangeEdge::Unbounded => 9,
    };
    if lo > hi || hi > 9 {
        None
    } else {
        Some(DigitRange { lo, hi })
    }
}

} // verus!
