//! Edits that a rename produces: replacements in `(line, character)` coordinates, each with the
//! file that it applies to.

use vstd::prelude::*;

verus! {

/// A single replacement produced by a rename.
#[derive(Clone, Debug, PartialEq, Eq)]
pub struct RenameEdit {
    /// The file that this edit applies to.
    pub path: String,
    /// Zero-based start line of the range to replace.
    pub start_line: u32,
    /// Zero-based start character of the range to replace.
    pub start_character: u32,
    /// Zero-based end line of the range to replace.
    pub end_line: u32,
    /// Zero-based end character of the range to replace.
    pub end_character: u32,
    /// The text to put in place of the range.
    pub new_text: String,
}

} // verus!
