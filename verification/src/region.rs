use vstd::prelude::*;

verus! {

/// A byte offset into the source text of the module being resolved.
#[derive(Clone, Copy, PartialEq, Eq, Structural, Debug)]
pub struct Position {
    pub offset: u32,
}

/// A source-location span; attached to every binding for diagnostics.
#[derive(Clone, Copy, PartialEq, Eq, Structural, Debug)]
pub struct Region {
    pub start: u32,
    pub end: u32,
}

impl Region {
    pub open spec fn zero_spec() -> Region {
        Region { start: 0, end: 0 }
    }

    /// The empty span at the very start of the source.
    pub fn zero() -> (r: Region)
        ensures
            r == Region::zero_spec(),
    {
        Region { start: 0, end: 0 }
    }

    /// The zero-width span sitting at one position.
    pub fn from_pos(pos: Position) -> (r: Region)
        ensures
            r == (Region { start: pos.offset, end: pos.offset }),
    {
        Region { start: pos.offset, end: pos.offset }
    }

    pub fn new(start: u32, end: u32) -> (r: Region)
        ensures
            r == (Region { start, end }),
    {
        Region { start, end }
    }

    pub open spec fn span_across_spec(self, other: Region) -> Region {
        Region {
            start: if self.start <= other.start {
                self.start
            } else {
                other.start
            },
            end: if self.end >= other.end {
                self.end
            } else {
                other.end
            },
        }
    }

    /// The smallest span covering both `self` and `other`.
    pub fn span_across(&self, other: &Region) -> (r: Region)
        ensures
            r == self.span_across_spec(*other),
    {
        Region {
            start: if self.start <= other.start {
                self.start
            } else {
                other.start
            },
            end: if self.end >= other.end {
                self.end
            } else {
                other.end
            },
        }
    }
}

/// A value tagged with the source region it came from.
#[derive(Clone, Copy, PartialEq, Eq, Debug)]
pub struct Loc<T> {
    pub region: Region,
    pub value: T,
}

impl<T> Loc<T> {
    pub fn at(region: Region, value: T) -> (r: Loc<T>)
        ensures
            r.region == region,
            r.value == value,
    {
        Loc { region, value }
    }
}

} // verus!
