//! Per-step results of a processing stage and the hard-error channel.
//!
//! A stage reports [`Status::Done`] or [`Status::Mismatch`], always handing
//! the cursor back to the caller; a [`ProcessingError`] is the separate,
//! unrecoverable channel that terminates a pipeline at once.

use vstd::prelude::*;

use crate::location::Location;

verus! {

/// What made a pipeline fail hard, as opposed to merely mismatching.
#[derive(Debug, Clone, Copy, PartialEq, Eq, Structural)]
pub enum ErrorCause {
    /// A rollback was asked to restore a position that is no longer within
    /// the buffered window.
    RollBackOutOfWindow,
}

/// The decimal digit `d` as a character; digits run from zero to nine.
pub open spec fn digit_to_char(d: nat) -> char {
    if d == 0 {
        '0'
    } else if d == 1 {
        '1'
    } else if d == 2 {
        '2'
    } else if d == 3 {
        '3'
    } else if d == 4 {
        '4'
    } else if d == 5 {
        '5'
    } else if d == 6 {
        '6'
    } else if d == 7 {
        '7'
    } else if d == 8 {
        '8'
    } else {
        '9'
    }
}

/// The decimal rendering of `n`, most significant digit first, without
/// leading zeroes (except for zero itself).
pub open spec fn dec_chars(n: nat) -> Seq<char>
    decreases n,
{
    if n < 10 {
        seq![digit_to_char(n)]
    } else {
        dec_chars(n / 10) + seq![digit_to_char(n % 10)]
    }
}

/// The fixed description of a cause.
pub open spec fn cause_text(c: ErrorCause) -> Seq<char> {
    match c {
        ErrorCause::RollBackOutOfWindow => "not enough buffered history"@,
    }
}

/// The rendered form of a failure: the fixed template with the decimal
/// renderings of line, column and item count, and the cause's description.
pub open spec fn message_text(l: crate::location::Location, c: ErrorCause) -> Seq<char> {
    "processing failed at line "@ + dec_chars(l.spec_line() as nat) + " and column "@ + dec_chars(
        l.spec_column() as nat,
    ) + ", after consuming "@ + dec_chars(l.spec_at_char() as nat) + " items: "@ + cause_text(c)
}

/// Hard failure: where processing stood when it failed, and why.
/// Constructed once, at the failure site, and never discarded.
#[derive(Debug, Clone, Copy, PartialEq, Eq, Structural)]
pub struct ProcessingError {
    location: Location,
    cause: ErrorCause,
}

impl ProcessingError {
    pub closed spec fn spec_location(&self) -> Location {
        self.location
    }

    pub closed spec fn spec_cause(&self) -> ErrorCause {
        self.cause
    }

    pub fn new(location: Location, cause: ErrorCause) -> (r: Self)
        ensures
            r.spec_location() == location,
            r.spec_cause() == cause,
    {
        ProcessingError { location, cause }
    }

    /// Where processing stood when it failed.
    #[verifier::when_used_as_spec(spec_location)]
    pub fn location(&self) -> (r: Location)
        ensures
            r == self.spec_location(),
    {
        self.location
    }

    /// Why it failed.
    #[verifier::when_used_as_spec(spec_cause)]
    pub fn cause(&self) -> (r: ErrorCause)
        ensures
            r == self.spec_cause(),
    {
        self.cause
    }

    /// The failure rendered for a reader: where processing stood, and why
    /// it stopped.
    pub fn message(&self) -> (r: String)
        ensures
            r@ == message_text(self.spec_location(), self.spec_cause()),
    {
        render_message(
            self.location.line(),
            self.location.column(),
            self.location.at_char(),
            self.cause.text(),
        )
    }
}

impl ErrorCause {
    /// A fixed description of the cause.
    pub fn text(&self) -> (r: &'static str)
        ensures
            r@ == cause_text(*self),
    {
        match self {
            ErrorCause::RollBackOutOfWindow => "not enough buffered history",
        }
    }
}

/// Relies on std's `format!` macro: a `{}` hole renders a `usize` as its
/// plain decimal digits and a `&str` as its characters, so the result is
/// the fixed template with the decimal counters and the cause interposed.
#[verifier::external_body]
fn render_message(line: usize, column: usize, items: usize, cause: &str) -> (r: String)
    ensures
        r@ == "processing failed at line "@ + dec_chars(line as nat) + " and column "@ + dec_chars(
            column as nat,
        ) + ", after consuming "@ + dec_chars(items as nat) + " items: "@ + cause@,
{
    format!(
        "processing failed at line {} and column {}, after consuming {} items: {}",
        line, column, items, cause,
    )
}

/// Per-step result: the stage recognised a prefix and produced a value, or
/// it did not recognise the input. Either way the cursor is handed back.
#[derive(Debug)]
pub enum Status<O, R> {
    Done(O, R),
    Mismatch(R),
}

/// Result of one stage: a [`Status`] or a hard error.
pub type PResult<O, R> = Result<Status<O, R>, ProcessingError>;

/// Alias of [`PResult`] used by processing stages.
pub type Processed<O, R> = PResult<O, R>;

impl<O, R> Status<O, R> {
    /// Transform the output of a successful step; a mismatch passes through
    /// unchanged.
    pub fn map<F, U>(self, mapper: F) -> (r: Status<U, R>) where F: FnOnce(O) -> U
        requires
            self matches Status::Done(o, _) ==> call_requires(mapper, (o,)),
        ensures
            (match self {
                Status::Done(o, rest) => r matches Status::Done(u, rest2) && rest2 == rest
                    && call_ensures(mapper, (o,), u),
                Status::Mismatch(rest) => r matches Status::Mismatch(rest2) && rest2 == rest,
            }),
    {
        match self {
            Status::Done(output, rest) => Status::Done(mapper(output), rest),
            Status::Mismatch(rest) => Status::Mismatch(rest),
        }
    }
}

/// A successful step: output plus the remaining cursor.
#[inline]
pub fn done<O, R>(output: O, rest: R) -> (r: Processed<O, R>)
    ensures
        r matches Ok(Status::Done(o, r2)) && o == output && r2 == rest,
{
    Ok(Status::Done(output, rest))
}

/// A soft failure: the stage did not recognise the input; the cursor is
/// handed back.
#[inline]
pub fn mismatch<O, R>(rest: R) -> (r: Processed<O, R>)
    ensures
        r matches Ok(Status::Mismatch(r2)) && r2 == rest,
{
    Ok(Status::Mismatch(rest))
}

/// A hard failure that terminates the pipeline.
#[inline]
pub fn err<O, R>(error: ProcessingError) -> (r: Processed<O, R>)
    ensures
        r matches Err(e) && e == error,
{
    Err(error)
}

} // verus!
