//! Positional metadata: an immutable position descriptor and the trackers
//! that advance one as items are consumed.

use vstd::prelude::*;

verus! {

/// Saturating increment on `usize`, used so position counters can never
/// overflow and never decrease.
pub open spec fn sat_inc(x: usize) -> usize {
    if x == usize::MAX {
        x
    } else {
        (x + 1) as usize
    }
}

/// Saturating addition on `usize`.
pub open spec fn sat_add(x: usize, y: usize) -> usize {
    if x + y > usize::MAX {
        usize::MAX
    } else {
        (x + y) as usize
    }
}

/// The number of bytes the UTF-8 encoding of `c` occupies.
pub open spec fn char_width(c: char) -> usize {
    if (c as u32) < 0x80 {
        1
    } else if (c as u32) < 0x800 {
        2
    } else if (c as u32) < 0x10000 {
        3
    } else {
        4
    }
}

/// Immutable position descriptor: line, column, item count and byte offset.
/// Zeroed at cursor construction and advanced only by a [`Tracker`].
#[derive(Debug, Clone, Copy, PartialEq, Eq, Structural)]
pub struct Location {
    line: usize,
    column: usize,
    at_char: usize,
    at_bytes: usize,
}

impl Location {
    /// The position before anything has been consumed.
    pub open spec fn is_origin(&self) -> bool {
        &&& self.spec_line() == 0
        &&& self.spec_column() == 0
        &&& self.spec_at_char() == 0
        &&& self.spec_at_bytes() == 0
    }

    pub closed spec fn spec_line(&self) -> usize {
        self.line
    }

    pub closed spec fn spec_column(&self) -> usize {
        self.column
    }

    pub closed spec fn spec_at_char(&self) -> usize {
        self.at_char
    }

    pub closed spec fn spec_at_bytes(&self) -> usize {
        self.at_bytes
    }

    /// The line this position lies on; line feeds start a new line.
    #[verifier::when_used_as_spec(spec_line)]
    pub fn line(&self) -> (r: usize)
        ensures
            r == self.spec_line(),
    {
        self.line
    }

    /// The column within the current line.
    #[verifier::when_used_as_spec(spec_column)]
    pub fn column(&self) -> (r: usize)
        ensures
            r == self.spec_column(),
    {
        self.column
    }

    /// How many items have been consumed up to this position.
    #[verifier::when_used_as_spec(spec_at_char)]
    pub fn at_char(&self) -> (r: usize)
        ensures
            r == self.spec_at_char(),
    {
        self.at_char
    }

    /// How many bytes have been consumed up to this position.
    #[verifier::when_used_as_spec(spec_at_bytes)]
    pub fn at_bytes(&self) -> (r: usize)
        ensures
            r == self.spec_at_bytes(),
    {
        self.at_bytes
    }
}

impl Default for Location {
    /// The origin position.
    fn default() -> (r: Self)
        ensures
            r.is_origin(),
    {
        Location { line: 0, column: 0, at_char: 0, at_bytes: 0 }
    }
}

/// Stateful updater that advances a [`Location`] as items are consumed.
///
/// Every tracker promises that line, item count and byte offset never
/// decrease, and that the item count advances by exactly one per consumed
/// item (saturating at the machine limit).
pub trait Tracker<I>: Sized {
    /// How this tracker's location responds to consuming one item.
    spec fn step(pre: Location, item: I, post: Location) -> bool;

    /// The location this tracker has reached.
    spec fn spec_location(&self) -> Location;

    fn location(&self) -> (r: Location)
        ensures
            r == self.spec_location(),
    ;

    fn update(&mut self, from: &I)
        ensures
            Self::step(old(self).spec_location(), *from, final(self).spec_location()),
            final(self).spec_location().spec_line() >= old(self).spec_location().spec_line(),
            final(self).spec_location().spec_at_bytes() >= old(self).spec_location().spec_at_bytes(),
            final(self).spec_location().spec_at_char() == sat_inc(
                old(self).spec_location().spec_at_char(),
            ),
    ;
}

/// One tracker step over a character stream: a line feed starts a new line
/// and resets the column to zero; any other character advances the column.
/// Either way the item count advances by one and the byte offset by the
/// character's encoded width.
pub open spec fn char_track_step(pre: Location, c: char, post: Location) -> bool {
    &&& post.spec_at_char() == sat_inc(pre.spec_at_char())
    &&& post.spec_at_bytes() == sat_add(pre.spec_at_bytes(), char_width(c))
    &&& if c == '\n' {
        post.spec_line() == sat_inc(pre.spec_line()) && post.spec_column() == 0
    } else {
        post.spec_line() == pre.spec_line() && post.spec_column() == sat_inc(pre.spec_column())
    }
}

/// Tracker for character streams.
#[derive(Debug, Clone, Copy)]
pub struct CharTracker(Location);

impl CharTracker {
    /// A tracker standing at the origin.
    pub fn new() -> (r: Self)
        ensures
            r.spec_location().is_origin(),
    {
        CharTracker(Location::default())
    }
}

/// Saturating increment, executable form.
fn inc_saturating(x: usize) -> (r: usize)
    ensures
        r == sat_inc(x),
{
    if x == usize::MAX {
        x
    } else {
        x + 1
    }
}

/// Saturating addition, executable form.
fn add_saturating(x: usize, y: usize) -> (r: usize)
    ensures
        r == sat_add(x, y),
{
    if x > usize::MAX - y {
        usize::MAX
    } else {
        x + y
    }
}

/// The number of bytes the UTF-8 encoding of `c` occupies, executable form.
fn width_of_char(c: char) -> (r: usize)
    ensures
        r == char_width(c),
{
    let u = c as u32;
    if u < 0x80 {
        1
    } else if u < 0x800 {
        2
    } else if u < 0x10000 {
        3
    } else {
        4
    }
}

impl Tracker<char> for CharTracker {
    open spec fn step(pre: Location, item: char, post: Location) -> bool {
        char_track_step(pre, item, post)
    }

    closed spec fn spec_location(&self) -> Location {
        self.0
    }

    fn location(&self) -> (r: Location) {
        self.0
    }

    /// Advance past one character, never letting any counter decrease and
    /// resetting the column to zero exactly on a line feed.
    fn update(&mut self, from: &char) {
        let c = *from;
        if c == '\n' {
            self.0.line = inc_saturating(self.0.line);
            self.0.column = 0;
        } else {
            self.0.column = inc_saturating(self.0.column);
        }
        self.0.at_char = inc_saturating(self.0.at_char);
        self.0.at_bytes = add_saturating(self.0.at_bytes, width_of_char(c));
    }
}

} // verus!
