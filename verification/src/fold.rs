//! Foldable regions.

use vstd::prelude::*;

verus! {

/// A foldable region: the header line, which stays visible, through the last line of the region.
#[derive(Clone, Copy, Debug, PartialEq, Eq, Structural)]
pub struct FoldRange {
    /// The header line, visible even when folded.
    pub start: usize,
    /// The last line of the region.
    pub end: usize,
}

impl FoldRange {
    /// Creates a fold range over the lines `start..=end`.
    pub fn new(start: usize, end: usize) -> (r: Self)
        ensures
            r == (FoldRange { start, end }),
    {
        FoldRange { start, end }
    }

    /// Whether the range spans more than one line.
    pub fn is_foldable(&self) -> (r: bool)
        ensures
            r == (self.start < self.end),
    {
        self.end > self.start
    }

    /// Whether folding hides `line`.
    pub open spec fn covers(self, line: nat) -> bool {
        self.start < line <= self.end
    }

    /// Whether folding this range hides `line`. The header is never hidden.
    pub fn hides(&self, line: usize) -> (r: bool)
        ensures
            r == self.covers(line as nat),
    {
        line > self.start && line <= self.end
    }
}

/// A range that is not foldable hides nothing, and no range hides its header.
pub proof fn law_header_stays_visible(f: FoldRange, line: nat)
    ensures
        !f.covers(f.start as nat),
        f.start >= f.end ==> !f.covers(line),
{
}

} // verus!
