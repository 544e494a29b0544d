//! Diagnostics: messages about byte ranges of a buffer.

use std::ops::Range;
use vstd::prelude::*;

verus! {

/// How serious a diagnostic is.
#[derive(Clone, Copy, Debug, PartialEq, Eq, Structural)]
pub enum Severity {
    /// The code will not build or run.
    Error,
    /// Suspicious but not fatal.
    Warning,
    /// Informational.
    Information,
    /// A hint.
    Hint,
}

/// A single diagnostic reported for a buffer.
#[derive(Debug, PartialEq, Eq)]
pub struct Diagnostic {
    /// The affected byte range.
    pub range: Range<usize>,
    /// How serious it is.
    pub severity: Severity,
    /// The message.
    pub message: String,
}

/// Whether a span covers a byte offset. An empty span still covers its start.
pub open spec fn span_covers(range: Range<usize>, offset: nat) -> bool {
    if range.start == range.end {
        offset == range.start
    } else {
        range.start <= offset < range.end
    }
}

/// Whether a span covers a byte offset.
pub fn covers_offset(range: &Range<usize>, offset: usize) -> (r: bool)
    ensures
        r == span_covers(*range, offset as nat),
{
    if range.start == range.end {
        offset == range.start
    } else {
        range.start <= offset && offset < range.end
    }
}

impl Clone for Diagnostic {
    fn clone(&self) -> (r: Self)
        ensures
            r == *self,
    {
        Diagnostic {
            range: Range { start: self.range.start, end: self.range.end },
            severity: self.severity,
            message: self.message.clone(),
        }
    }
}

impl Diagnostic {
    /// Creates a diagnostic over `range`.
    pub fn new(range: Range<usize>, severity: Severity, message: &str) -> (r: Self)
        ensures
            r.range == range,
            r.severity == severity,
            r.message@ == message@,
    {
        Diagnostic { range, severity, message: message.to_owned() }
    }

    /// Whether the byte `offset` falls within the span of this diagnostic.
    pub fn covers(&self, offset: usize) -> (r: bool)
        ensures
            r == span_covers(self.range, offset as nat),
    {
        covers_offset(&self.range, offset)
    }
}

} // verus!
