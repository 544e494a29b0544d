//! Occurrences of the symbol under the cursor.

use crate::diagnostic::{covers_offset, span_covers};
use std::ops::Range;
use vstd::prelude::*;

verus! {

/// One occurrence of the symbol under the cursor, as a byte range of the buffer.
#[derive(Debug, PartialEq, Eq)]
pub struct Occurrence {
    /// The byte range of this occurrence.
    pub range: Range<usize>,
    /// Whether this is a write or a definition, rather than a read.
    pub write: bool,
}

impl Clone for Occurrence {
    fn clone(&self) -> (r: Self)
        ensures
            r == *self,
    {
        Occurrence {
            range: Range { start: self.range.start, end: self.range.end },
            write: self.write,
        }
    }
}

impl Occurrence {
    /// Creates an occurrence over `range`.
    pub fn new(range: Range<usize>, write: bool) -> (r: Self)
        ensures
            r.range == range,
            r.write == write,
    {
        Occurrence { range, write }
    }

    /// Whether the byte `offset` falls within the span of this occurrence.
    pub fn covers(&self, offset: usize) -> (r: bool)
        ensures
            r == span_covers(self.range, offset as nat),
    {
        covers_offset(&self.range, offset)
    }
}

} // verus!
