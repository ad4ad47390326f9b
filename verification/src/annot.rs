//! The span model: a half-open byte range into the source text, and a
//! wrapper that pairs any value with the range it was derived from.

use vstd::prelude::*;

verus! {

/// A half-open byte range `[self.0, self.1)` into the original input.
/// `Loc(4, 6)` covers the bytes at offsets 4 and 5.
#[derive(Debug, Clone, Copy, PartialEq, Eq, Hash, Structural)]
pub struct Loc(pub usize, pub usize);

impl Loc {
    /// The smallest range covering both `self` and `other`.
    pub fn merge(&self, other: &Loc) -> (r: Loc)
        ensures
            r == self.spec_merge(*other),
    {
        let start: usize = if self.0 <= other.0 {
            self.0
        } else {
            other.0
        };
        let end: usize = if self.1 >= other.1 {
            self.1
        } else {
            other.1
        };
        Loc(start, end)
    }

    pub open spec fn spec_merge(self, other: Loc) -> Loc {
        Loc(
            if self.0 <= other.0 {
                self.0
            } else {
                other.0
            },
            if self.1 >= other.1 {
                self.1
            } else {
                other.1
            },
        )
    }

    /// A well-formed range does not end before it starts.
    pub open spec fn wf(self) -> bool {
        self.0 <= self.1
    }
}

/// A value annotated with the source range it came from.
#[derive(Debug, Clone, Copy, PartialEq, Eq, Hash)]
pub struct Annot<T> {
    pub value: T,
    pub loc: Loc,
}

impl<T> Annot<T> {
    pub fn new(value: T, loc: Loc) -> (r: Self)
        ensures
            r == (Annot { value, loc }),
    {
        Self { value, loc }
    }
}

} // verus!
