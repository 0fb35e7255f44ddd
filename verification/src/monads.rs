//! A minimal sum type used to thread alternative results around.

use vstd::prelude::*;

verus! {

/// One of two values.
#[derive(Debug, Clone, Copy, PartialEq, Eq)]
pub enum Either<L, R> {
    Left(L),
    Right(R),
}

impl<L, R> Either<L, R> {
    /// The left value as it stands, or the right one turned into a left.
    pub fn lunwrap_or_map<F>(self, map: F) -> (r: L) where F: FnOnce(R) -> L
        requires
            self matches Either::Right(rv) ==> call_requires(map, (rv,)),
        ensures
            (match self {
                Either::Left(l) => r == l,
                Either::Right(rv) => call_ensures(map, (rv,), r),
            }),
    {
        match self {
            Either::Left(left) => left,
            Either::Right(right) => map(right),
        }
    }
}

} // verus!
