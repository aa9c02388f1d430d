//! A signed line shift used to translate a line position from one revision's
//! coordinate space into another's.

use vstd::prelude::*;

use crate::span::Span;

verus! {

/// Describes the offset of a particular hunk relative to the *Blamed File*.
///
/// The two variants never hold a mixed value: combining collapses
/// algebraically, so subtracting past zero from `Added` turns it into
/// `Deleted` and vice versa.  A shift of zero is always represented as
/// `Added(0)`.
#[derive(Clone, Copy, Debug, PartialEq, Eq, Structural)]
pub enum Offset {
    /// The amount of lines to add.
    Added(u32),
    /// The amount of lines to remove.
    Deleted(u32),
}

impl Offset {
    /// The shift as a mathematical integer: `Added(n)` counts as `n`,
    /// `Deleted(n)` as `-n`.
    pub open spec fn spec_value(self) -> int {
        match self {
            Offset::Added(n) => n as int,
            Offset::Deleted(n) => -(n as int),
        }
    }

    /// A zero shift is written `Added(0)`, never `Deleted(0)`.
    pub open spec fn canonical(self) -> bool {
        match self {
            Offset::Added(_) => true,
            Offset::Deleted(n) => n > 0,
        }
    }

    /// What `plus` returns.
    pub open spec fn spec_plus(self, rhs: u32) -> Offset {
        match self {
            Offset::Added(added) => Offset::Added((added + rhs) as u32),
            Offset::Deleted(deleted) => if rhs >= deleted {
                Offset::Added((rhs - deleted) as u32)
            } else {
                Offset::Deleted((deleted - rhs) as u32)
            },
        }
    }

    /// What `minus` returns.
    pub open spec fn spec_minus(self, rhs: u32) -> Offset {
        match self {
            Offset::Added(added) => if rhs > added {
                Offset::Deleted((rhs - added) as u32)
            } else {
                Offset::Added((added - rhs) as u32)
            },
            Offset::Deleted(deleted) => Offset::Deleted((deleted + rhs) as u32),
        }
    }

    /// Shift the given `range` according to our offset.
    ///
    /// `Added(n)` moves the range `n` lines towards zero; `Deleted(n)` moves
    /// it `n` lines away from zero.  The preconditions are internal
    /// invariants of the blame walk: a shift never underflows below zero nor
    /// overflows the line counter.
    pub fn shifted_range(&self, range: &Span) -> (r: Span)
        requires
            range.start <= range.end,
            range.start - self.spec_value() >= 0,
            range.end - self.spec_value() <= u32::MAX,
        ensures
            r.start == range.start - self.spec_value(),
            r.end == range.end - self.spec_value(),
    {
        match self {
            Offset::Added(added) => Span { start: range.start - added, end: range.end - added },
            Offset::Deleted(deleted) => Span {
                start: range.start + deleted,
                end: range.end + deleted,
            },
        }
    }

    /// Record that `rhs` more lines were added: the shift grows by `rhs`.
    pub fn plus(self, rhs: u32) -> (r: Offset)
        requires
            self.spec_value() + rhs <= u32::MAX,
        ensures
            r == self.spec_plus(rhs),
            r.spec_value() == self.spec_value() + rhs,
            self.canonical() ==> r.canonical(),
    {
        match self {
            Offset::Added(added) => Offset::Added(added + rhs),
            Offset::Deleted(deleted) => {
                if rhs >= deleted {
                    Offset::Added(rhs - deleted)
                } else {
                    Offset::Deleted(deleted - rhs)
                }
            },
        }
    }

    /// Record that `rhs` more lines were deleted: the shift shrinks by `rhs`.
    pub fn minus(self, rhs: u32) -> (r: Offset)
        requires
            self.spec_value() - rhs >= -(u32::MAX as int),
        ensures
            r == self.spec_minus(rhs),
            r.spec_value() == self.spec_value() - rhs,
            self.canonical() ==> r.canonical(),
    {
        match self {
            Offset::Added(added) => {
                if rhs > added {
                    Offset::Deleted(rhs - added)
                } else {
                    Offset::Added(added - rhs)
                }
            },
            Offset::Deleted(deleted) => Offset::Deleted(deleted + rhs),
        }
    }
}

/// Offset algebra: growing and then shrinking a canonical shift by the same
/// amount of lines returns the very value it started from, and so does
/// shrinking first and growing afterwards, as long as neither step leaves the
/// representable range.
pub proof fn lemma_offset_round_trip(o: Offset, r: u32)
    requires
        o.canonical(),
        o.spec_value() + r <= u32::MAX,
        o.spec_value() - r >= -(u32::MAX as int),
    ensures
        o.spec_plus(r).spec_minus(r) == o,
        o.spec_minus(r).spec_plus(r) == o,
{
}

} // verus!
