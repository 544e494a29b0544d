//! Inlay hints: virtual text shown between the characters of a buffer.

use vstd::prelude::*;

verus! {

/// A single inlay hint, shown just before a byte offset of the buffer.
#[derive(Debug, PartialEq, Eq)]
pub struct InlayHint {
    /// The byte offset that the hint is shown before.
    pub byte: usize,
    /// The text, with any padding that the server asked for.
    pub text: String,
}

impl Clone for InlayHint {
    fn clone(&self) -> (r: Self)
        ensures
            r == *self,
    {
        InlayHint { byte: self.byte, text: self.text.clone() }
    }
}

impl InlayHint {
    /// Creates a hint shown just before `byte`.
    pub fn new(byte: usize, text: &str) -> (r: Self)
        ensures
            r.byte == byte,
            r.text@ == text@,
    {
        InlayHint { byte, text: text.to_owned() }
    }
}

} // verus!
