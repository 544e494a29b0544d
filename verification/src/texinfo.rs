//! The Texinfo reader of the document preview: a source becomes styled display lines.
//!
//! [`layout`] reads line by line and drives a [`LineBuilder`]. Sectioning commands become headings,
//! `@example` and its kin verbatim code, `@itemize`, `@enumerate` and `@table` lists, `@menu` entries
//! links, `@multitable` aligned columns; inline commands are styled. Comments, index entries and what
//! is meant for print only are left out.

use crate::search::{find_from, next_occurrence};
use crate::surface::{width_of, Glyphs, Style};
use crate::text::{
    chars_are, chars_of, decimal, decimal_of, find_char, find_char_from, has_prefix, lines,
    lines_of, slice_of, split, split_at_char, starts_with, string_of, strings, texts, trim,
    trim_bounds, trim_end, trim_start, trimmed, trailing_white, white,
};
use crate::typeset::{
    capped, cells, empty_layout, marker_line, marker_runs, next_number, pages, render_table,
    text_width, Layout, Line, LineBuilder, Palette, Run,
};
use vstd::prelude::*;

verus! {

/// Columns of indent for each level of blocks.
pub const INDENT: usize = 2;

/// Whether a character is a letter or a digit of any script.
pub uninterp spec fn is_alphanumeric(c: char) -> bool;

/// `char::is_alphanumeric`: whether a character is a letter or a digit by Unicode's tables, which
/// depends on the character alone.
#[verifier::external_body]
fn alphanumeric(c: char) -> (r: bool)
    ensures
        r == is_alphanumeric(c),
{
    c.is_alphanumeric()
}

/// How many letters and digits `t` starts with.
pub open spec fn name_len(t: Seq<char>) -> nat
    decreases t.len(),
{
    if t.len() > 0 && is_alphanumeric(t[0]) {
        1 + name_len(t.drop_first())
    } else {
        0
    }
}

/// The command name that `t` starts with.
pub open spec fn name_of(t: Seq<char>) -> Seq<char> {
    t.take(name_len(t) as int)
}

/// What follows the command name that `t` starts with, without white space before it.
pub open spec fn argument_of(t: Seq<char>) -> Seq<char> {
    trim_start(t.skip(name_len(t) as int))
}

proof fn lemma_name_len(t: Seq<char>, n: int)
    requires
        0 <= n <= t.len(),
        forall|k: int| 0 <= k < n ==> is_alphanumeric(#[trigger] t[k]),
        n < t.len() ==> !is_alphanumeric(t[n]),
    ensures
        name_len(t) == n,
    decreases n,
{
    if n > 0 {
        assert(is_alphanumeric(t[0]));
        let rest = t.drop_first();
        assert forall|k: int| 0 <= k < n - 1 implies is_alphanumeric(#[trigger] rest[k]) by {
            assert(rest[k] == t[k + 1]);
        }
        lemma_name_len(rest, n - 1);
    }
}

/// The end of the command name that starts at `from`.
fn find_name_end(t: &[char], from: usize) -> (r: usize)
    requires
        from <= t@.len(),
    ensures
        from <= r <= t@.len(),
        r == from + name_len(t@.skip(from as int)),
{
    let mut i: usize = from;
    while i < t.len() && alphanumeric(t[i])
        invariant
            from <= i <= t@.len(),
            forall|k: int| from <= k < i ==> is_alphanumeric(#[trigger] t@[k]),
        decreases t@.len() - i,
    {
        i += 1;
    }
    proof {
        let rest = t@.skip(from as int);
        assert forall|k: int| 0 <= k < i - from implies is_alphanumeric(#[trigger] rest[k]) by {
            assert(rest[k] == t@[from + k]);
        }
        lemma_name_len(rest, i - from);
    }
    i
}

/// Splits a command line behind its `@` into the command name and its argument.
pub fn split_command(rest: &[char]) -> (r: (Vec<char>, Vec<char>))
    ensures
        r.0@ == name_of(rest@),
        r.1@ == argument_of(rest@),
{
    assert(rest@.skip(0) =~= rest@);
    let end = find_name_end(rest, 0);
    let word = slice_of(rest, 0, end);
    assert(word@ =~= name_of(rest@));
    let tail = slice_of(rest, end, rest.len());
    assert(tail@ =~= rest@.skip(end as int));
    let (from, _) = trim_bounds(tail.as_slice());
    let arg = slice_of(tail.as_slice(), from, tail.len());
    assert(arg@ =~= trim_start(tail@));
    (word, arg)
}

/// The level of a sectioning command, or 0.
pub open spec fn level_of(word: Seq<char>) -> nat {
    if word == "top"@ || word == "chapter"@ || word == "unnumbered"@ || word == "appendix"@ || word
        == "majorheading"@ || word == "chapheading"@ || word == "centerchap"@ {
        1
    } else if word == "section"@ || word == "unnumberedsec"@ || word == "appendixsec"@ || word
        == "appendixsection"@ || word == "heading"@ {
        2
    } else if word == "subsection"@ || word == "unnumberedsubsec"@ || word == "appendixsubsec"@
        || word == "subheading"@ {
        3
    } else if word == "subsubsection"@ || word == "unnumberedsubsubsec"@ || word
        == "appendixsubsubsec"@ || word == "subsubheading"@ {
        4
    } else {
        0
    }
}

/// The level of a sectioning command, if `word` is one.
pub fn heading_level(word: &[char]) -> (r: Option<usize>)
    ensures
        match r {
            Some(n) => n == level_of(word@) && n > 0,
            None => level_of(word@) == 0,
        },
{
    if chars_are(word, "top") || chars_are(word, "chapter") || chars_are(word, "unnumbered")
        || chars_are(word, "appendix") || chars_are(word, "majorheading") || chars_are(
        word,
        "chapheading",
    ) || chars_are(word, "centerchap") {
        Some(1)
    } else if chars_are(word, "section") || chars_are(word, "unnumberedsec") || chars_are(
        word,
        "appendixsec",
    ) || chars_are(word, "appendixsection") || chars_are(word, "heading") {
        Some(2)
    } else if chars_are(word, "subsection") || chars_are(word, "unnumberedsubsec") || chars_are(
        word,
        "appendixsubsec",
    ) || chars_are(word, "subheading") {
        Some(3)
    } else if chars_are(word, "subsubsection") || chars_are(word, "unnumberedsubsubsec")
        || chars_are(word, "appendixsubsubsec") || chars_are(word, "subsubheading") {
        Some(4)
    } else {
        None
    }
}

/// Whether a command opens a block of verbatim code.
pub open spec fn opens_verbatim(word: Seq<char>) -> bool {
    word == "example"@ || word == "smallexample"@ || word == "verbatim"@ || word == "lisp"@ || word
        == "smalllisp"@ || word == "display"@ || word == "format"@
}

fn is_verbatim(word: &[char]) -> (r: bool)
    ensures
        r == opens_verbatim(word@),
{
    chars_are(word, "example") || chars_are(word, "smallexample") || chars_are(word, "verbatim")
        || chars_are(word, "lisp") || chars_are(word, "smalllisp") || chars_are(word, "display")
        || chars_are(word, "format")
}

/// Whether a command opens an environment that is not rendered.
pub open spec fn is_skipped(word: Seq<char>) -> bool {
    word == "iftex"@ || word == "tex"@ || word == "html"@ || word == "ifhtml"@ || word == "docbook"@
        || word == "ifdocbook"@ || word == "xml"@ || word == "ifxml"@ || word == "ignore"@ || word
        == "ifnotinfo"@ || word == "titlepage"@ || word == "copying"@ || word == "direntry"@ || word
        == "documentdescription"@
}

fn skips(word: &[char]) -> (r: bool)
    ensures
        r == is_skipped(word@),
{
    chars_are(word, "iftex") || chars_are(word, "tex") || chars_are(word, "html") || chars_are(
        word,
        "ifhtml",
    ) || chars_are(word, "docbook") || chars_are(word, "ifdocbook") || chars_are(word, "xml")
        || chars_are(word, "ifxml") || chars_are(word, "ignore") || chars_are(word, "ifnotinfo")
        || chars_are(word, "titlepage") || chars_are(word, "copying") || chars_are(word, "direntry")
        || chars_are(word, "documentdescription")
}

/// Whether an environment is a conditional whose content is rendered.
pub open spec fn is_honoured(word: Seq<char>) -> bool {
    word == "ifinfo"@ || word == "ifnottex"@ || word == "ifnothtml"@ || word == "ifnotdocbook"@
        || word == "ifnotxml"@ || word == "ifnotplaintext"@ || word == "ifplaintext"@
}

fn honours(word: &[char]) -> (r: bool)
    ensures
        r == is_honoured(word@),
{
    chars_are(word, "ifinfo") || chars_are(word, "ifnottex") || chars_are(word, "ifnothtml")
        || chars_are(word, "ifnotdocbook") || chars_are(word, "ifnotxml") || chars_are(
        word,
        "ifnotplaintext",
    ) || chars_are(word, "ifplaintext")
}

/// Whether a command opens a definition: it starts with `def`, defines no index, and does not end
/// in `x`, as the commands that continue a definition do.
pub open spec fn defines(word: Seq<char>) -> bool {
    &&& starts_with(word, "def"@)
    &&& word != "defindex"@ && word != "defcodeindex"@ && word != "definfoenclose"@
    &&& word.last() != 'x'
}

/// Whether a command opens a definition.
pub fn is_definition(word: &[char]) -> (r: bool)
    ensures
        r == defines(word@),
{
    proof {
        reveal_strlit("def");
    }
    has_prefix(word, "def") && !chars_are(word, "defindex") && !chars_are(word, "defcodeindex")
        && !chars_are(word, "definfoenclose") && word[word.len() - 1] != 'x'
}

/// Whether a command sets up the document or the page.
pub open spec fn sets_document(word: Seq<char>) -> bool {
    ||| word == "node"@ || word == "anchor"@ || word == "setfilename"@
    ||| word == "settitle"@ || word == "set"@ || word == "clear"@
    ||| word == "include"@ || word == "dircategory"@ || word == "documentencoding"@
    ||| word == "documentlanguage"@ || word == "syncodeindex"@ || word == "synindex"@
    ||| word == "paragraphindent"@ || word == "firstparagraphindent"@ || word == "exampleindent"@
    ||| word == "finalout"@ || word == "bye"@ || word == "contents"@
    ||| word == "shortcontents"@ || word == "summarycontents"@ || word == "insertcopying"@
    ||| word == "printindex"@ || word == "listoffloats"@ || word == "page"@
    ||| word == "need"@ || word == "vskip"@ || word == "title"@
    ||| word == "subtitle"@ || word == "author"@ || word == "shorttitlepage"@
}

/// Whether a command is an index entry or sets how the document is printed.
pub open spec fn sets_printing(word: Seq<char>) -> bool {
    ||| word == "cindex"@ || word == "findex"@ || word == "vindex"@
    ||| word == "kindex"@ || word == "pindex"@ || word == "tindex"@
    ||| word == "kbdinputstyle"@ || word == "allowcodebreaks"@ || word == "frenchspacing"@
    ||| word == "codequoteundirected"@ || word == "codequotebacktick"@ || word == "defindex"@
    ||| word == "defcodeindex"@ || word == "definfoenclose"@ || word == "headings"@
    ||| word == "setchapternewpage"@ || word == "everyheading"@ || word == "everyfooting"@
}

/// Whether a command is a directive, metadata or an index entry, which shows nothing.
pub open spec fn directs(word: Seq<char>) -> bool {
    sets_document(word) || sets_printing(word)
}

fn is_document_directive(word: &[char]) -> (r: bool)
    ensures
        r == sets_document(word@),
{
    chars_are(word, "node") || chars_are(word, "anchor") || chars_are(word, "setfilename")
        || chars_are(word, "settitle") || chars_are(word, "set") || chars_are(word, "clear")
        || chars_are(word, "include") || chars_are(word, "dircategory") || chars_are(word, "documentencoding")
        || chars_are(word, "documentlanguage") || chars_are(word, "syncodeindex") || chars_are(word, "synindex")
        || chars_are(word, "paragraphindent") || chars_are(word, "firstparagraphindent") || chars_are(word, "exampleindent")
        || chars_are(word, "finalout") || chars_are(word, "bye") || chars_are(word, "contents")
        || chars_are(word, "shortcontents") || chars_are(word, "summarycontents") || chars_are(word, "insertcopying")
        || chars_are(word, "printindex") || chars_are(word, "listoffloats") || chars_are(word, "page")
        || chars_are(word, "need") || chars_are(word, "vskip") || chars_are(word, "title")
        || chars_are(word, "subtitle") || chars_are(word, "author") || chars_are(word, "shorttitlepage")
}

fn is_printing_directive(word: &[char]) -> (r: bool)
    ensures
        r == sets_printing(word@),
{
    chars_are(word, "cindex") || chars_are(word, "findex") || chars_are(word, "vindex")
        || chars_are(word, "kindex") || chars_are(word, "pindex") || chars_are(word, "tindex")
        || chars_are(word, "kbdinputstyle") || chars_are(word, "allowcodebreaks") || chars_are(word, "frenchspacing")
        || chars_are(word, "codequoteundirected") || chars_are(word, "codequotebacktick") || chars_are(word, "defindex")
        || chars_are(word, "defcodeindex") || chars_are(word, "definfoenclose") || chars_are(word, "headings")
        || chars_are(word, "setchapternewpage") || chars_are(word, "everyheading") || chars_are(word, "everyfooting")
}

/// Whether a command is a directive, metadata or an index entry.
pub fn is_directive(word: &[char]) -> (r: bool)
    ensures
        r == directs(word@),
{
    is_document_directive(word) || is_printing_directive(word)
}

/// The glyph that a symbol command stands for.
pub open spec fn glyph_of(command: Seq<char>) -> Option<Seq<char>> {
    if command == "dots"@ {
        Some("…"@)
    } else if command == "enddots"@ {
        Some("…."@)
    } else if command == "copyright"@ {
        Some("©"@)
    } else if command == "registeredsymbol"@ {
        Some("®"@)
    } else if command == "bullet"@ {
        Some("•"@)
    } else if command == "minus"@ {
        Some("−"@)
    } else if command == "result"@ {
        Some("⇒"@)
    } else if command == "expansion"@ || command == "arrow"@ {
        Some("→"@)
    } else if command == "error"@ {
        Some("error→"@)
    } else if command == "point"@ {
        Some("∗"@)
    } else if command == "equiv"@ {
        Some("≡"@)
    } else if command == "tie"@ || command == "comma"@ {
        Some(","@)
    } else if command == "TeX"@ {
        Some("TeX"@)
    } else if command == "LaTeX"@ {
        Some("LaTeX"@)
    } else {
        None
    }
}

/// The glyph that a symbol command stands for.
pub fn symbol(command: &[char]) -> (r: Option<&'static str>)
    ensures
        match r {
            Some(g) => glyph_of(command@) == Some(g@),
            None => glyph_of(command@) is None,
        },
{
    if chars_are(command, "dots") {
        Some("…")
    } else if chars_are(command, "enddots") {
        Some("….")
    } else if chars_are(command, "copyright") {
        Some("©")
    } else if chars_are(command, "registeredsymbol") {
        Some("®")
    } else if chars_are(command, "bullet") {
        Some("•")
    } else if chars_are(command, "minus") {
        Some("−")
    } else if chars_are(command, "result") {
        Some("⇒")
    } else if chars_are(command, "expansion") || chars_are(command, "arrow") {
        Some("→")
    } else if chars_are(command, "error") {
        Some("error→")
    } else if chars_are(command, "point") {
        Some("∗")
    } else if chars_are(command, "equiv") {
        Some("≡")
    } else if chars_are(command, "tie") || chars_are(command, "comma") {
        Some(",")
    } else if chars_are(command, "TeX") {
        Some("TeX")
    } else if chars_are(command, "LaTeX") {
        Some("LaTeX")
    } else {
        None
    }
}

/// Whether a line is `@end` of the environment `env`.
pub open spec fn ends(raw: Seq<char>, env: Seq<char>) -> bool {
    let t = trim(raw);
    starts_with(t, "@end"@) && trim(t.skip(4)) == env
}

/// Whether a line is `@end` of a block of verbatim code.
pub open spec fn ends_verbatim(raw: Seq<char>) -> bool {
    let t = trim(raw);
    starts_with(t, "@end"@) && opens_verbatim(trim(t.skip(4)))
}

/// The environment that a line ends, if it starts with `@end`.
fn ended_environment(raw: &[char]) -> (r: Option<Vec<char>>)
    ensures
        match r {
            Some(env) => starts_with(trim(raw@), "@end"@) && env@ == trim(trim(raw@).skip(4)),
            None => !starts_with(trim(raw@), "@end"@),
        },
{
    proof {
        reveal_strlit("@end");
    }
    let t = trimmed(raw);
    if !has_prefix(t.as_slice(), "@end") {
        return None;
    }
    let rest = slice_of(t.as_slice(), 4, t.len());
    assert(rest@ =~= t@.skip(4));
    Some(trimmed(rest.as_slice()))
}

/// Whether a line is `@end` of the environment `env`.
pub fn line_ends(raw: &[char], env: &[char]) -> (r: bool)
    ensures
        r == ends(raw@, env@),
{
    match ended_environment(raw) {
        Some(found) => {
            let text = string_of(env);
            chars_are(found.as_slice(), text.as_str())
        },
        None => false,
    }
}

/// Whether a line is `@end` of a block of verbatim code.
pub fn ends_a_verbatim(raw: &[char]) -> (r: bool)
    ensures
        r == ends_verbatim(raw@),
{
    match ended_environment(raw) {
        Some(found) => is_verbatim(found.as_slice()),
        None => false,
    }
}

/// A block environment.
#[derive(Clone, Copy, Debug, PartialEq, Eq, Structural)]
pub enum Block {
    /// Verbatim code.
    Verbatim,
    /// A bullet list.
    Itemize,
    /// A numbered list, with the number of the next item.
    Enumerate(u64),
    /// A list of terms and their descriptions.
    Table,
    /// A menu of nodes.
    Menu,
    /// A quotation.
    Quotation,
    /// A definition.
    Definition,
}

/// What a command at the start of a line does.
#[derive(Clone, Copy, Debug, PartialEq, Eq, Structural)]
pub enum Command {
    /// A heading of the given level.
    Heading(usize),
    /// Nothing to show.
    Nothing,
    /// The end of an environment.
    End,
    /// The start of a table with columns.
    Multitable,
    /// The start of a block.
    Open(Block),
    /// An item of a list.
    Item,
    /// A blank line.
    Space,
    /// A line of prose.
    Prose,
    /// The start of an environment that is not rendered.
    Skip,
    /// A definition.
    Definition,
    /// No line command: the line is prose.
    Inline,
}

/// What the command `word` does at the start of a line.
pub open spec fn command_of(word: Seq<char>) -> Command {
    if level_of(word) > 0 {
        Command::Heading(level_of(word) as usize)
    } else if word == "c"@ || word == "comment"@ {
        Command::Nothing
    } else if word == "end"@ {
        Command::End
    } else if word == "multitable"@ {
        Command::Multitable
    } else if opens_verbatim(word) {
        Command::Open(Block::Verbatim)
    } else if word == "itemize"@ {
        Command::Open(Block::Itemize)
    } else if word == "enumerate"@ {
        Command::Open(Block::Enumerate(1))
    } else if word == "table"@ || word == "vtable"@ || word == "ftable"@ {
        Command::Open(Block::Table)
    } else if word == "menu"@ {
        Command::Open(Block::Menu)
    } else if word == "quotation"@ || word == "smallquotation"@ {
        Command::Open(Block::Quotation)
    } else if word == "item"@ || word == "itemx"@ {
        Command::Item
    } else if word == "sp"@ {
        Command::Space
    } else if word == "center"@ || word == "noindent"@ || word == "indent"@ || word == "exdent"@ {
        Command::Prose
    } else if is_skipped(word) {
        Command::Skip
    } else if defines(word) {
        Command::Definition
    } else if is_honoured(word) || directs(word) {
        Command::Nothing
    } else {
        Command::Inline
    }
}

/// What the command `word` does at the start of a line.
pub fn classify(word: &[char]) -> (r: Command)
    ensures
        r == command_of(word@),
{
    if let Some(level) = heading_level(word) {
        return Command::Heading(level);
    }
    if chars_are(word, "c") || chars_are(word, "comment") {
        Command::Nothing
    } else if chars_are(word, "end") {
        Command::End
    } else if chars_are(word, "multitable") {
        Command::Multitable
    } else if is_verbatim(word) {
        Command::Open(Block::Verbatim)
    } else if chars_are(word, "itemize") {
        Command::Open(Block::Itemize)
    } else if chars_are(word, "enumerate") {
        Command::Open(Block::Enumerate(1))
    } else if chars_are(word, "table") || chars_are(word, "vtable") || chars_are(word, "ftable") {
        Command::Open(Block::Table)
    } else if chars_are(word, "menu") {
        Command::Open(Block::Menu)
    } else if chars_are(word, "quotation") || chars_are(word, "smallquotation") {
        Command::Open(Block::Quotation)
    } else if chars_are(word, "item") || chars_are(word, "itemx") {
        Command::Item
    } else if chars_are(word, "sp") {
        Command::Space
    } else if chars_are(word, "center") || chars_are(word, "noindent") || chars_are(word, "indent")
        || chars_are(word, "exdent") {
        Command::Prose
    } else if skips(word) {
        Command::Skip
    } else if is_definition(word) {
        Command::Definition
    } else if honours(word) || is_directive(word) {
        Command::Nothing
    } else {
        Command::Inline
    }
}

/// The index of the brace that closes a group `depth` deep, from `i` on, or the length.
pub open spec fn group_end(t: Seq<char>, i: int, depth: nat) -> int
    decreases t.len() - i,
{
    if i >= t.len() {
        t.len() as int
    } else if t[i] == '{' {
        group_end(t, i + 1, depth + 1)
    } else if t[i] == '}' {
        if depth <= 1 {
            i
        } else {
            group_end(t, i + 1, (depth - 1) as nat)
        }
    } else {
        group_end(t, i + 1, depth)
    }
}

/// What the character behind an `@` stands for.
pub enum Escape {
    /// Itself.
    Literal,
    /// A space.
    Space,
    /// Nothing.
    Nothing,
    /// A line break.
    Break,
    /// It starts the name of a command.
    Command,
}

/// What the character behind an `@` stands for.
pub open spec fn escape_of(c: char) -> Escape {
    if c == '@' || c == '{' || c == '}' || c == '.' || c == '!' || c == '?' {
        Escape::Literal
    } else if c == ' ' || c == '\t' || c == '\n' {
        Escape::Space
    } else if c == ':' || c == '-' || c == '/' {
        Escape::Nothing
    } else if c == '*' {
        Escape::Break
    } else {
        Escape::Command
    }
}

fn escape(c: char) -> (r: Escape)
    ensures
        r == escape_of(c),
{
    if c == '@' || c == '{' || c == '}' || c == '.' || c == '!' || c == '?' {
        Escape::Literal
    } else if c == ' ' || c == '\t' || c == '\n' {
        Escape::Space
    } else if c == ':' || c == '-' || c == '/' {
        Escape::Nothing
    } else if c == '*' {
        Escape::Break
    } else {
        Escape::Command
    }
}

/// How the argument of an inline command is shown.
pub enum Inline {
    /// As code, as it is.
    Code,
    /// In italic.
    Italic,
    /// In bold.
    Bold,
    /// As a link, by the text behind its last comma.
    Link,
    /// As it would be without the command.
    Plain,
    /// Not at all.
    Hidden,
    /// By a glyph instead.
    Glyph,
}

/// How the argument of the inline command `command` is shown.
pub open spec fn inline_of(command: Seq<char>) -> Inline {
    if shows_code(command) {
        Inline::Code
    } else if command == "emph"@ || command == "i"@ || command == "var"@ || command == "dfn"@
        || command == "cite"@ || command == "slanted"@ {
        Inline::Italic
    } else if command == "strong"@ || command == "b"@ {
        Inline::Bold
    } else if command == "email"@ || command == "url"@ || command == "uref"@ || command == "ref"@
        || command == "xref"@ || command == "pxref"@ {
        Inline::Link
    } else if command == "w"@ || command == "asis"@ || command == "r"@ || command == "footnote"@
        || command == "dmn"@ {
        Inline::Plain
    } else if command == "value"@ || command == "anchor"@ || command == "today"@ {
        Inline::Hidden
    } else if glyph_of(command) is Some {
        Inline::Glyph
    } else {
        Inline::Plain
    }
}

/// Whether an inline command shows its argument as code.
pub open spec fn shows_code(command: Seq<char>) -> bool {
    command == "code"@ || command == "samp"@ || command == "file"@ || command == "command"@
        || command == "option"@ || command == "env"@ || command == "kbd"@ || command == "key"@
        || command == "verb"@ || command == "t"@ || command == "sc"@ || command == "indicateurl"@
        || command == "math"@
}

fn is_code(command: &[char]) -> (r: bool)
    ensures
        r == shows_code(command@),
{
    chars_are(command, "code") || chars_are(command, "samp") || chars_are(command, "file")
        || chars_are(command, "command") || chars_are(command, "option") || chars_are(
        command,
        "env",
    ) || chars_are(command, "kbd") || chars_are(command, "key") || chars_are(command, "verb")
        || chars_are(command, "t") || chars_are(command, "sc") || chars_are(command, "indicateurl")
        || chars_are(command, "math")
}

fn classify_inline(command: &[char]) -> (r: Inline)
    ensures
        r == inline_of(command@),
{
    if is_code(command) {
        Inline::Code
    } else if chars_are(command, "emph") || chars_are(command, "i") || chars_are(command, "var")
        || chars_are(command, "dfn") || chars_are(command, "cite") || chars_are(
        command,
        "slanted",
    ) {
        Inline::Italic
    } else if chars_are(command, "strong") || chars_are(command, "b") {
        Inline::Bold
    } else if chars_are(command, "email") || chars_are(command, "url") || chars_are(command, "uref")
        || chars_are(command, "ref") || chars_are(command, "xref") || chars_are(command, "pxref") {
        Inline::Link
    } else if chars_are(command, "w") || chars_are(command, "asis") || chars_are(command, "r")
        || chars_are(command, "footnote") || chars_are(command, "dmn") {
        Inline::Plain
    } else if chars_are(command, "value") || chars_are(command, "anchor") || chars_are(
        command,
        "today",
    ) {
        Inline::Hidden
    } else if symbol(command).is_some() {
        Inline::Glyph
    } else {
        Inline::Plain
    }
}

/// The text that a link shows: what stands behind the last comma.
pub open spec fn link_text(arg: Seq<char>) -> Seq<char> {
    trim(split(arg, ',', 0).last())
}

/// A builder with the inline text `text` added behind `plain`, which was read before it.
pub open spec fn inlined(l: Layout, plain: Seq<char>, text: Seq<char>, base: Style) -> Layout
    decreases text.len(), 0nat,
{
    if text.len() == 0 || (text.len() == 1 && text[0] == '@') {
        l.span(plain, base)
    } else if text[0] != '@' {
        inlined(l, plain.push(text[0]), text.skip(1), base)
    } else {
        match escape_of(text[1]) {
            Escape::Literal => inlined(l, plain.push(text[1]), text.skip(2), base),
            Escape::Space => inlined(l, plain.push(' '), text.skip(2), base),
            Escape::Nothing => inlined(l, plain, text.skip(2), base),
            Escape::Break => inlined(l.span(plain, base).ended(), Seq::empty(), text.skip(2), base),
            Escape::Command => {
                let rest = text.skip(1);
                let end = command_end(rest);
                let flushed = l.span(plain, base);
                if 0 <= end <= rest.len() {
                    let after = if has_argument(rest) && command_argument(rest).len() < text.len() {
                        braced(flushed, name_of(rest), command_argument(rest), base)
                    } else {
                        flushed.span(name_of(rest), base)
                    };
                    inlined(after, Seq::empty(), rest.skip(end), base)
                } else {
                    flushed
                }
            },
        }
    }
}

/// Whether the command name that `rest` starts with is followed by an argument in braces.
pub open spec fn has_argument(rest: Seq<char>) -> bool {
    name_len(rest) < rest.len() && rest[name_len(rest) as int] == '{'
}

/// The argument in braces behind the command name that `rest` starts with.
pub open spec fn command_argument(rest: Seq<char>) -> Seq<char> {
    let from = name_len(rest) + 1;
    rest.subrange(from as int, group_end(rest, from as int, 1))
}

/// Where the command that `rest` starts with ends, with its argument if it has one.
pub open spec fn command_end(rest: Seq<char>) -> int {
    if has_argument(rest) {
        let end = group_end(rest, name_len(rest) + 1int, 1);
        if end < rest.len() {
            end + 1
        } else {
            end
        }
    } else {
        name_len(rest) as int
    }
}

/// A builder with `@command{arg}` added.
pub open spec fn braced(l: Layout, command: Seq<char>, arg: Seq<char>, base: Style) -> Layout
    decreases arg.len(), 1nat,
{
    match inline_of(command) {
        Inline::Code => l.span(arg, l.palette.code),
        Inline::Italic => inlined(l, Seq::empty(), arg, base.italic()),
        Inline::Bold => inlined(l, Seq::empty(), arg, base.bold()),
        Inline::Link => l.span(link_text(arg), l.palette.link),
        Inline::Plain => inlined(l, Seq::empty(), arg, base),
        Inline::Hidden => l,
        Inline::Glyph => l.span(glyph_of(command)->0, base),
    }
}

proof fn lemma_name_bound(t: Seq<char>)
    ensures
        name_len(t) <= t.len(),
    decreases t.len(),
{
    if t.len() > 0 && is_alphanumeric(t[0]) {
        lemma_name_bound(t.drop_first());
    }
}

proof fn lemma_group_end(t: Seq<char>, i: int, depth: nat)
    requires
        0 <= i <= t.len(),
    ensures
        i <= group_end(t, i, depth) <= t.len(),
    decreases t.len() - i,
{
    if i < t.len() {
        if t[i] == '{' {
            lemma_group_end(t, i + 1, depth + 1);
        } else if t[i] == '}' {
            if depth > 1 {
                lemma_group_end(t, i + 1, (depth - 1) as nat);
            }
        } else {
            lemma_group_end(t, i + 1, depth);
        }
    }
}

/// The closing brace of the group whose content starts at `from`, or the length.
fn find_group_end(t: &[char], from: usize) -> (r: usize)
    requires
        0 < from <= t@.len(),
    ensures
        r == group_end(t@, from as int, 1),
        from <= r <= t@.len(),
{
    let mut i: usize = from;
    let mut depth: usize = 1;
    while i < t.len()
        invariant
            0 < from <= i <= t@.len(),
            1 <= depth <= i - from + 1,
            group_end(t@, from as int, 1) == group_end(t@, i as int, depth as nat),
        decreases t@.len() - i,
    {
        if t[i] == '{' {
            depth += 1;
        } else if t[i] == '}' {
            if depth == 1 {
                return i;
            }
            depth -= 1;
        }
        i += 1;
    }
    i
}

/// Adds inline text: plain runs in `base`, commands styled, escapes resolved.
pub fn render_inline(builder: &mut LineBuilder<'_>, text: &[char], base: Style)
    ensures
        final(builder)@ == inlined(old(builder)@, Seq::empty(), text@, base),
    decreases text@.len(), 1nat,
{
    let mut plain: Vec<char> = Vec::new();
    let mut i: usize = 0;
    assert(plain@ =~= Seq::<char>::empty());
    assert(text@.skip(0) =~= text@);
    while i < text.len()
        invariant
            i <= text@.len(),
            inlined(old(builder)@, Seq::empty(), text@, base) == inlined(
                builder@,
                plain@,
                text@.skip(i as int),
                base,
            ),
        decreases text@.len() - i,
    {
        let ghost t = text@.skip(i as int);
        let c = text[i];
        assert(t[0] == c);
        if c != '@' {
            assert(t.skip(1) =~= text@.skip(i + 1));
            plain.push(c);
            i += 1;
            continue ;
        }
        if text.len() - i == 1 {
            i = text.len();
            assert(inlined(builder@, plain@, t, base) == builder@.span(plain@, base));
            assert(inlined(builder@, plain@, text@.skip(i as int), base) == builder@.span(
                plain@,
                base,
            ));
            continue ;
        }
        assert(t[1] == text@[i + 1]);
        assert(t.skip(2) =~= text@.skip(i + 2));
        match escape(text[i + 1]) {
            Escape::Literal => {
                plain.push(text[i + 1]);
                i += 2;
            },
            Escape::Space => {
                plain.push(' ');
                i += 2;
            },
            Escape::Nothing => {
                i += 2;
            },
            Escape::Break => {
                flush_plain(builder, &mut plain, base);
                builder.end_line();
                i += 2;
            },
            Escape::Command => {
                let ghost rest = t.skip(1);
                assert(rest =~= text@.skip(i + 1));
                flush_plain(builder, &mut plain, base);
                let ghost flushed = builder@;
                let next = put_command(builder, text, i + 1, base);
                proof {
                    lemma_command_bounds(rest);
                    assert(rest.skip(next - (i + 1)) =~= text@.skip(next as int));
                }
                i = next;
            },
        }
    }
    flush_plain(builder, &mut plain, base);
}

proof fn lemma_command_bounds(rest: Seq<char>)
    ensures
        name_len(rest) <= rest.len(),
        0 <= command_end(rest) <= rest.len(),
        has_argument(rest) ==> command_argument(rest).len() < rest.len(),
{
    lemma_name_bound(rest);
    if has_argument(rest) {
        lemma_group_end(rest, name_len(rest) + 1int, 1);
    }
}

/// Adds the command whose name starts at `start`, and returns where it ends.
fn put_command(builder: &mut LineBuilder<'_>, text: &[char], start: usize, base: Style) -> (r: usize)
    requires
        0 < start <= text@.len(),
    ensures
        ({
            let rest = text@.skip(start as int);
            &&& final(builder)@ == if has_argument(rest) {
                braced(old(builder)@, name_of(rest), command_argument(rest), base)
            } else {
                old(builder)@.span(name_of(rest), base)
            }
            &&& r == start + command_end(rest)
        }),
    decreases text@.len(), 0nat,
{
    let ghost rest = text@.skip(start as int);
    let name_end = find_name_end(text, start);
    let command = slice_of(text, start, name_end);
    assert(command@ =~= name_of(rest));
    if name_end < text.len() && text[name_end] == '{' {
        assert(rest[name_end - start] == '{');
        let arg_start: usize = name_end + 1;
        let end = find_group_end(text, arg_start);
        proof {
            lemma_group_skip(text@, start as int, arg_start as int, 1);
        }
        let arg = slice_of(text, arg_start, end);
        assert(arg@ =~= command_argument(rest));
        brace_command(builder, command.as_slice(), arg.as_slice(), base);
        if end < text.len() {
            end + 1
        } else {
            end
        }
    } else {
        let name = string_of(command.as_slice());
        builder.push_span(name.as_str(), base);
        name_end
    }
}

proof fn lemma_group_skip(t: Seq<char>, at: int, i: int, depth: nat)
    requires
        0 <= at <= i <= t.len(),
    ensures
        group_end(t.skip(at), i - at, depth) == group_end(t, i, depth) - at,
    decreases t.len() - i,
{
    if i < t.len() {
        assert(t.skip(at)[i - at] == t[i]);
        if t[i] == '{' {
            lemma_group_skip(t, at, i + 1, depth + 1);
        } else if t[i] == '}' {
            if depth > 1 {
                lemma_group_skip(t, at, i + 1, (depth - 1) as nat);
            }
        } else {
            lemma_group_skip(t, at, i + 1, depth);
        }
    }
}

/// Adds the plain text read so far and clears it.
fn flush_plain(builder: &mut LineBuilder<'_>, plain: &mut Vec<char>, base: Style)
    ensures
        final(builder)@ == old(builder)@.span(old(plain)@, base),
        final(plain)@ == Seq::<char>::empty(),
{
    let text = string_of(plain.as_slice());
    builder.push_span(text.as_str(), base);
    *plain = Vec::new();
    assert(plain@ =~= Seq::<char>::empty());
}

/// Adds `@command{arg}`.
fn brace_command(builder: &mut LineBuilder<'_>, command: &[char], arg: &[char], base: Style)
    ensures
        final(builder)@ == braced(old(builder)@, command@, arg@, base),
    decreases arg@.len(), 2nat,
{
    let palette = builder.palette();
    match classify_inline(command) {
        Inline::Code => {
            let text = string_of(arg);
            builder.push_span(text.as_str(), palette.code);
        },
        Inline::Italic => {
            render_inline(builder, arg, base.italic());
        },
        Inline::Bold => {
            render_inline(builder, arg, base.bold());
        },
        Inline::Link => {
            let parts = split_at_char(arg, ',');
            let n = parts.len();
            assert(split(arg@, ',', 0).len() > 0);
            assert(texts(parts@).len() == n);
            assert(texts(parts@)[n - 1] == parts@[n - 1]@);
            let text = trimmed(parts[n - 1].as_slice());
            let text = string_of(text.as_slice());
            builder.push_span(text.as_str(), palette.link);
        },
        Inline::Plain => {
            render_inline(builder, arg, base);
        },
        Inline::Hidden => {},
        Inline::Glyph => {
            if let Some(glyph) = symbol(command) {
                builder.push_span(glyph, base);
            }
        },
    }
}

/// A table with columns while it is read.
pub struct Columns {
    /// The rows read so far.
    pub rows: Seq<Seq<Seq<char>>>,
    /// How many of them are head rows.
    pub head_rows: nat,
}

/// The state of a Texinfo reader.
#[verifier::ext_equal]
pub struct Reading {
    /// The lines so far.
    pub layout: Layout,
    /// The blocks that are open, innermost last.
    pub blocks: Seq<Block>,
    /// The environments that are being skipped, innermost last.
    pub skip: Seq<Seq<char>>,
    /// The table with columns that is being read, if any.
    pub table: Option<Columns>,
}

/// The indent of the innermost of some blocks.
pub open spec fn block_indent(blocks: Seq<Block>) -> nat
    decreases blocks.len(),
{
    if blocks.len() == 0 {
        0
    } else {
        let outer = block_indent(blocks.drop_last());
        match blocks.last() {
            Block::Quotation => outer,
            Block::Menu => outer,
            _ => capped(outer + INDENT),
        }
    }
}

/// How many quotations some blocks are.
pub open spec fn block_quotes(blocks: Seq<Block>) -> nat
    decreases blocks.len(),
{
    if blocks.len() == 0 {
        0
    } else {
        block_quotes(blocks.drop_last()) + if blocks.last() == Block::Quotation {
            1nat
        } else {
            0
        }
    }
}

/// A column less one level of indent.
pub open spec fn outdented(n: nat) -> nat {
    if n < INDENT {
        0
    } else {
        (n - INDENT) as nat
    }
}

/// A builder with inline text added, unless it is empty.
pub open spec fn with_text(l: Layout, text: Seq<char>, style: Style) -> Layout {
    if text.len() > 0 {
        inlined(l, Seq::empty(), text, style)
    } else {
        l
    }
}

/// How many stars `t` starts with.
pub open spec fn leading_stars(t: Seq<char>) -> nat
    decreases t.len(),
{
    if t.len() > 0 && t[0] == '*' {
        1 + leading_stars(t.drop_first())
    } else {
        0
    }
}

/// The name of a menu entry: what stands between its stars and its first colon.
pub open spec fn entry_name(line: Seq<char>) -> Seq<char> {
    let entry = trim_start(line.skip(leading_stars(line) as int));
    trim(entry.take(find_char(entry, ':', 0)))
}

/// The parts of `t` between the separators `sep`, from the index `i` on.
pub open spec fn split_text(t: Seq<char>, sep: Seq<char>, i: int) -> Seq<Seq<char>>
    decreases t.len() - i,
{
    let p = next_occurrence(t, sep, i);
    if i < 0 || sep.len() == 0 || p < i || p + sep.len() > t.len() {
        seq![t.skip(i)]
    } else {
        seq![t.subrange(i, p)] + split_text(t, sep, p + sep.len())
    }
}

/// The cells of a table row.
pub open spec fn row_cells(arg: Seq<char>) -> Seq<Seq<char>> {
    split_text(arg, "@tab"@, 0).map_values(|cell: Seq<char>| trim(cell))
}

impl Reading {
    /// With other lines.
    pub open spec fn on(self, layout: Layout) -> Reading {
        Reading { layout, ..self }
    }

    /// With the indent and the bars of the open blocks.
    pub open spec fn reflowed(self) -> Reading {
        self.on(
            self.layout.indented(block_indent(self.blocks)).quoted(block_quotes(self.blocks)),
        )
    }

    /// With a block opened.
    pub open spec fn opened(self, block: Block) -> Reading {
        Reading { blocks: self.blocks.push(block), ..self.on(self.layout.blanked()) }.reflowed()
    }

    /// With the innermost block closed.
    pub open spec fn closed(self) -> Reading {
        let r = Reading {
            blocks: if self.blocks.len() > 0 {
                self.blocks.drop_last()
            } else {
                self.blocks
            },
            ..self.on(self.layout.ended())
        }.reflowed();
        r.on(r.layout.blanked())
    }

    /// With a heading added.
    pub open spec fn headed(self, title: Seq<char>, level: nat) -> Reading {
        let b = self.layout.blanked();
        let l = inlined(b, Seq::empty(), title, b.palette.heading).ended();
        self.on(
            if level <= 2 {
                l.ruled()
            } else {
                l
            },
        )
    }

    /// With a term set in bold at the left edge of its block, and the indent behind it.
    pub open spec fn with_term(self, base: nat, term: Seq<char>) -> Reading {
        let p = self.layout.palette;
        let l = self.layout.marked(marker_runs(base, Seq::empty(), p.body, p.body)).indented(base);
        self.on(
            inlined(l, Seq::empty(), term, p.heading).ended().indented(
                capped((base + INDENT) as int),
            ),
        )
    }

    /// With an item of the innermost list begun.
    pub open spec fn with_item(self, arg: Seq<char>) -> Reading {
        let r = self.on(self.layout.ended()).reflowed();
        let l = r.layout;
        let p = l.palette;
        let base = outdented(l.indent);
        let last = if r.blocks.len() > 0 {
            r.blocks.last()
        } else {
            Block::Itemize
        };
        match last {
            Block::Enumerate(number) => r.with_numbered(base, number, arg),
            Block::Table => r.with_term(base, arg),
            _ => {
                let m = l.marked(marker_runs(base, "• "@, p.body, p.body)).indented(
                    capped((base + INDENT) as int),
                );
                r.on(with_text(m, arg, p.body))
            },
        }
    }

    /// With an item of a numbered list begun.
    pub open spec fn with_numbered(self, base: nat, number: u64, arg: Seq<char>) -> Reading {
        let l = self.layout;
        let p = l.palette;
        let marker = decimal(number as nat) + ". "@;
        let m = l.marked(marker_runs(base, marker, p.body, p.body)).indented(
            capped((base + width_of(l.glyphs, marker)) as int),
        );
        Reading {
            blocks: self.blocks.update(
                self.blocks.len() - 1,
                Block::Enumerate(next_number(number)),
            ),
            ..self.on(with_text(m, arg, p.body))
        }
    }

    /// With a definition opened and its signature set.
    pub open spec fn with_definition(self, signature: Seq<char>) -> Reading {
        let r = self.opened(Block::Definition);
        r.with_term(outdented(r.layout.indent), signature)
    }

    /// With a menu entry added.
    pub open spec fn with_entry(self, line: Seq<char>) -> Reading {
        let p = self.layout.palette;
        self.on(self.layout.appended("• "@, p.body).appended(entry_name(line), p.link).ended())
    }

    /// With a line of a table with columns read.
    pub open spec fn with_table_line(self, line: Seq<char>) -> Reading {
        let table = self.table->0;
        let word = name_of(line.skip(1));
        let arg = argument_of(line.skip(1));
        if line.len() == 0 || line[0] != '@' {
            self
        } else if word == "item"@ || word == "headitem"@ {
            Reading {
                table: Some(
                    Columns {
                        rows: table.rows.push(row_cells(arg)),
                        head_rows: if word == "headitem"@ {
                            capped(table.head_rows + 1int)
                        } else {
                            table.head_rows
                        },
                    },
                ),
                ..self
            }
        } else if word == "end"@ && arg == "multitable"@ {
            Reading { table: None, ..self.on(self.layout.table(table.rows, table.head_rows)) }
        } else {
            self
        }
    }

    /// With a line command carried out; `Inline` commands are not.
    pub open spec fn obeyed(self, word: Seq<char>, arg: Seq<char>) -> Reading {
        match command_of(word) {
            Command::Heading(level) => self.headed(arg, level as nat),
            Command::Nothing => self,
            Command::End => if is_honoured(arg) || self.blocks.len() == 0 {
                self
            } else {
                self.closed()
            },
            Command::Multitable => Reading {
                table: Some(Columns { rows: Seq::empty(), head_rows: 0 }),
                ..self.on(self.layout.blanked())
            },
            Command::Open(block) => self.opened(block),
            Command::Item => self.with_item(arg),
            Command::Space => self.on(self.layout.blanked()),
            Command::Prose => self.on(with_text(self.layout, arg, self.layout.palette.body)),
            Command::Skip => Reading { skip: self.skip.push(word), ..self },
            Command::Definition => self.with_definition(arg),
            Command::Inline => self,
        }
    }

    /// With a line of text read.
    pub open spec fn with_prose(self, line: Seq<char>) -> Reading {
        if self.blocks.len() > 0 && self.blocks.last() == Block::Menu && line.len() > 0 && line[0]
            == '*' {
            self.with_entry(line)
        } else {
            self.on(inlined(self.layout, Seq::empty(), line, self.layout.palette.body))
        }
    }

    /// With a line of the source read.
    pub open spec fn read(self, raw: Seq<char>) -> Reading {
        let line = trim(raw);
        if self.skip.len() > 0 {
            if ends(raw, self.skip.last()) {
                Reading { skip: self.skip.drop_last(), ..self }
            } else {
                self
            }
        } else if self.blocks.len() > 0 && self.blocks.last() == Block::Verbatim {
            if ends_verbatim(raw) {
                self.closed()
            } else {
                self.on(self.layout.appended(trim_end(raw), self.layout.palette.code).ended())
            }
        } else if self.table is Some {
            self.with_table_line(line)
        } else if line.len() == 0 {
            self.on(self.layout.blanked())
        } else if line[0] == '@' && command_of(name_of(line.skip(1))) != Command::Inline {
            self.obeyed(name_of(line.skip(1)), argument_of(line.skip(1)))
        } else {
            self.with_prose(line)
        }
    }

    /// With the lines of the source from `i` on read.
    pub open spec fn read_all(self, source: Seq<Seq<char>>, i: nat) -> Reading
        decreases source.len() - i,
    {
        if i >= source.len() {
            self
        } else {
            self.read(source[i as int]).read_all(source, i + 1)
        }
    }
}

/// A reader that has read nothing.
pub open spec fn unread(width: nat, palette: Palette, glyphs: Glyphs) -> Reading {
    Reading {
        layout: empty_layout(width, palette, glyphs),
        blocks: Seq::empty(),
        skip: Seq::empty(),
        table: None,
    }
}

/// The display lines of a Texinfo source.
pub open spec fn laid_out(
    source: Seq<char>,
    width: nat,
    palette: Palette,
    glyphs: Glyphs,
) -> Seq<Seq<Run>> {
    unread(width, palette, glyphs).read_all(lines(source), 0).layout.finished()
}

/// A table with columns while it is read.
struct Multitable {
    rows: Vec<Vec<String>>,
    head_rows: usize,
}

/// A Texinfo reader.
struct Texinfo<'a> {
    builder: LineBuilder<'a>,
    blocks: Vec<Block>,
    skip: Vec<Vec<char>>,
    table: Option<Multitable>,
}

impl<'a> View for Texinfo<'a> {
    type V = Reading;

    closed spec fn view(&self) -> Reading {
        Reading {
            layout: self.builder@,
            blocks: self.blocks@,
            skip: texts(self.skip@),
            table: match self.table {
                Some(t) => Some(Columns { rows: cells(t.rows@), head_rows: t.head_rows as nat }),
                None => None,
            },
        }
    }
}

/// The parts of `t` between the separators `sep`.
fn split_at_text(t: &[char], sep: &[char]) -> (r: Vec<Vec<char>>)
    requires
        sep@.len() > 0,
    ensures
        texts(r@) == split_text(t@, sep@, 0),
{
    let mut r: Vec<Vec<char>> = Vec::new();
    let mut at: usize = 0;
    assert(texts(r@) + split_text(t@, sep@, 0) =~= split_text(t@, sep@, 0));
    loop
        invariant
            at <= t@.len(),
            sep@.len() > 0,
            texts(r@) + split_text(t@, sep@, at as int) == split_text(t@, sep@, 0),
        decreases t@.len() - at,
    {
        let ghost before = texts(r@);
        match find_from(t, sep, at) {
            Some(p) => {
                let total = t.len();
                assert(p + sep@.len() <= total);
                let part = slice_of(t, at, p);
                let next: usize = p + sep.len();
                r.push(part);
                assert(texts(r@) =~= before.push(part@));
                assert(texts(r@) + split_text(t@, sep@, next as int) =~= before + (seq![part@]
                    + split_text(t@, sep@, next as int)));
                at = next;
            },
            None => {
                let part = slice_of(t, at, t.len());
                assert(part@ =~= t@.skip(at as int));
                r.push(part);
                assert(texts(r@) =~= before + seq![t@.skip(at as int)]);
                return r;
            },
        }
    }
}

/// The cells of a table row.
fn read_cells(arg: &[char]) -> (r: Vec<String>)
    ensures
        strings(r@) == row_cells(arg@),
{
    proof {
        reveal_strlit("@tab");
    }
    let sep = chars_of("@tab");
    let parts = split_at_text(arg, sep.as_slice());
    let ghost all = texts(parts@);
    let mut r: Vec<String> = Vec::new();
    let mut i: usize = 0;
    while i < parts.len()
        invariant
            i <= parts@.len(),
            all == texts(parts@),
            r@.len() == i,
            forall|k: int| 0 <= k < i ==> (#[trigger] r@[k])@ == trim(all[k]),
        decreases parts@.len() - i,
    {
        let cell = trimmed(parts[i].as_slice());
        r.push(string_of(cell.as_slice()));
        i += 1;
    }
    assert(strings(r@) =~= row_cells(arg@));
    r
}

/// The name of a menu entry.
fn read_entry_name(line: &[char]) -> (r: String)
    ensures
        r@ == entry_name(line@),
{
    let mut stars: usize = 0;
    assert(line@.skip(0) =~= line@);
    while stars < line.len() && line[stars] == '*'
        invariant
            stars <= line@.len(),
            leading_stars(line@) == stars + leading_stars(line@.skip(stars as int)),
        decreases line@.len() - stars,
    {
        assert(line@.skip(stars as int).drop_first() =~= line@.skip(stars + 1));
        stars += 1;
    }
    let rest = slice_of(line, stars, line.len());
    assert(rest@ =~= line@.skip(stars as int));
    let (from, _) = trim_bounds(rest.as_slice());
    let entry = slice_of(rest.as_slice(), from, rest.len());
    assert(entry@ =~= trim_start(rest@));
    let end = find_char_from(entry.as_slice(), ':', 0);
    let name = slice_of(entry.as_slice(), 0, end);
    assert(name@ =~= entry@.take(end as int));
    let name = trimmed(name.as_slice());
    string_of(name.as_slice())
}

/// Adds inline text, unless it is empty.
fn put_text(builder: &mut LineBuilder<'_>, text: &[char], style: Style)
    ensures
        final(builder)@ == with_text(old(builder)@, text@, style),
{
    if text.len() > 0 {
        render_inline(builder, text, style);
    }
}

impl<'a> Texinfo<'a> {
    fn new(width: usize, palette: &Palette, glyphs: &'a Glyphs) -> (r: Self)
        ensures
            r@ == unread(width as nat, *palette, *glyphs),
    {
        let r = Texinfo {
            builder: LineBuilder::new(width, palette, glyphs),
            blocks: Vec::new(),
            skip: Vec::new(),
            table: None,
        };
        assert(r@ =~= unread(width as nat, *palette, *glyphs));
        r
    }

    fn in_block(&self, block: Block) -> (r: bool)
        ensures
            r == (self@.blocks.len() > 0 && self@.blocks.last() == block),
    {
        let n = self.blocks.len();
        n > 0 && self.blocks[n - 1] == block
    }

    /// Reads a line of the source.
    fn line(&mut self, raw: &[char])
        ensures
            final(self)@ == old(self)@.read(raw@),
    {
        let n = self.skip.len();
        if n > 0 {
            assert(self@.skip.last() == self.skip@[n - 1]@);
            if line_ends(raw, self.skip[n - 1].as_slice()) {
                self.skip.pop();
                assert(self@.skip =~= old(self)@.skip.drop_last());
            }
            return ;
        }
        if self.in_block(Block::Verbatim) {
            if ends_a_verbatim(raw) {
                self.pop_block();
            } else {
                let palette = self.builder.palette();
                let text = end_trimmed(raw);
                self.builder.append(text.as_str(), palette.code);
                self.builder.end_line();
            }
            return ;
        }
        let line = trimmed(raw);
        if self.table.is_some() {
            self.multitable_line(line.as_slice());
            return ;
        }
        if line.len() == 0 {
            self.builder.blank();
            return ;
        }
        if line[0] == '@' {
            let rest = slice_of(line.as_slice(), 1, line.len());
            assert(rest@ =~= line@.skip(1));
            let (word, arg) = split_command(rest.as_slice());
            if self.line_command(word.as_slice(), arg.as_slice()) {
                return ;
            }
        }
        if self.in_block(Block::Menu) && line[0] == '*' {
            self.menu_entry(line.as_slice());
        } else {
            let palette = self.builder.palette();
            render_inline(&mut self.builder, line.as_slice(), palette.body);
        }
    }

    /// Carries out a line command; returns whether `word` is one.
    fn line_command(&mut self, word: &[char], arg: &[char]) -> (r: bool)
        requires
            old(self)@.table is None,
        ensures
            final(self)@ == old(self)@.obeyed(word@, arg@),
            r == (command_of(word@) != Command::Inline),
    {
        match classify(word) {
            Command::Heading(level) => {
                self.heading(arg, level);
            },
            Command::Nothing => {},
            Command::End => {
                self.end_named(arg);
            },
            Command::Multitable => {
                self.builder.blank();
                self.table = Some(Multitable { rows: Vec::new(), head_rows: 0 });
                assert(cells(self.table->0.rows@) =~= Seq::empty());
            },
            Command::Open(block) => {
                self.push_block(block);
            },
            Command::Item => {
                self.item(arg);
            },
            Command::Space => {
                self.builder.blank();
            },
            Command::Prose => {
                let palette = self.builder.palette();
                put_text(&mut self.builder, arg, palette.body);
            },
            Command::Skip => {
                let env = slice_of(word, 0, word.len());
                assert(env@ =~= word@);
                self.skip.push(env);
                assert(self@.skip =~= old(self)@.skip.push(word@));
            },
            Command::Definition => {
                self.definition(arg);
            },
            Command::Inline => {
                return false;
            },
        }
        true
    }

    /// Adds a heading, with a rule below the top levels.
    fn heading(&mut self, title: &[char], level: usize)
        ensures
            final(self)@ == old(self)@.headed(title@, level as nat),
    {
        self.builder.blank();
        let palette = self.builder.palette();
        render_inline(&mut self.builder, title, palette.heading);
        self.builder.end_line();
        if level <= 2 {
            self.builder.rule();
        }
    }

    fn push_block(&mut self, block: Block)
        ensures
            final(self)@ == old(self)@.opened(block),
    {
        self.builder.blank();
        self.blocks.push(block);
        self.reflow();
    }

    fn pop_block(&mut self)
        ensures
            final(self)@ == old(self)@.closed(),
    {
        self.builder.end_line();
        self.blocks.pop();
        assert(old(self)@.blocks.len() > 0 ==> self.blocks@ =~= old(self)@.blocks.drop_last());
        self.reflow();
        self.builder.blank();
    }

    /// Ends an environment: the innermost block, unless it is a conditional.
    fn end_named(&mut self, env: &[char])
        ensures
            final(self)@ == if is_honoured(env@) || old(self)@.blocks.len() == 0 {
                old(self)@
            } else {
                old(self)@.closed()
            },
    {
        if honours(env) {
            return ;
        }
        if self.blocks.len() > 0 {
            self.pop_block();
        }
    }

    /// Sets the indent and the bars by the open blocks.
    fn reflow(&mut self)
        ensures
            final(self)@ == old(self)@.reflowed(),
    {
        let mut indent: usize = 0;
        let mut quotes: usize = 0;
        let mut i: usize = 0;
        let ghost all = self.blocks@;
        assert(all.take(0).len() == 0);
        while i < self.blocks.len()
            invariant
                i <= self.blocks@.len(),
                all == self.blocks@,
                *self == *old(self),
                quotes <= i,
                indent == block_indent(all.take(i as int)),
                quotes == block_quotes(all.take(i as int)),
            decreases self.blocks@.len() - i,
        {
            proof {
                assert(all.take(i + 1).drop_last() =~= all.take(i as int));
                assert(all.take(i + 1).last() == all[i as int]);
            }
            match self.blocks[i] {
                Block::Quotation => {
                    quotes += 1;
                },
                Block::Menu => {},
                _ => {
                    indent = indent.saturating_add(INDENT);
                },
            }
            i += 1;
        }
        assert(all.take(i as int) =~= all);
        self.builder.set_indent(indent);
        self.builder.set_quote_depth(quotes);
    }

    /// Sets a term in bold at the left edge of its block.
    fn term(&mut self, base: usize, term: &[char])
        ensures
            final(self)@ == old(self)@.with_term(base as nat, term@),
    {
        let palette = self.builder.palette();
        proof {
            reveal_strlit("");
            assert(""@ =~= Seq::<char>::empty());
        }
        self.builder.set_marker(marker_line(base, "", palette.body, palette.body));
        self.builder.set_indent(base);
        render_inline(&mut self.builder, term, palette.heading);
        self.builder.end_line();
        self.builder.set_indent(base.saturating_add(INDENT));
    }

    /// Begins an item of the innermost list.
    fn item(&mut self, arg: &[char])
        ensures
            final(self)@ == old(self)@.with_item(arg@),
    {
        self.builder.end_line();
        self.reflow();
        let base = self.builder.indent().saturating_sub(INDENT);
        let palette = self.builder.palette();
        let n = self.blocks.len();
        let last = if n > 0 {
            self.blocks[n - 1]
        } else {
            Block::Itemize
        };
        match last {
            Block::Enumerate(number) => {
                self.numbered_item(base, number, arg);
            },
            Block::Table => {
                self.term(base, arg);
            },
            _ => {
                self.builder.set_marker(marker_line(base, "• ", palette.body, palette.body));
                self.builder.set_indent(base.saturating_add(INDENT));
                put_text(&mut self.builder, arg, palette.body);
            },
        }
    }

    /// Begins an item of a numbered list.
    fn numbered_item(&mut self, base: usize, number: u64, arg: &[char])
        requires
            old(self)@.blocks.len() > 0,
        ensures
            final(self)@ == old(self)@.with_numbered(base as nat, number, arg@),
    {
        let palette = self.builder.palette();
        let mut marker = decimal_of(number as u128);
        marker.append(". ");
        let n = self.blocks.len();
        self.blocks.set(n - 1, Block::Enumerate(number.saturating_add(1)));
        self.builder.set_marker(marker_line(base, marker.as_str(), palette.body, palette.body));
        let width = text_width(self.builder.glyphs(), marker.as_str());
        self.builder.set_indent(base.saturating_add(width));
        put_text(&mut self.builder, arg, palette.body);
    }

    /// Opens a definition: the signature in bold, the body indented.
    fn definition(&mut self, signature: &[char])
        ensures
            final(self)@ == old(self)@.with_definition(signature@),
    {
        self.push_block(Block::Definition);
        let base = self.builder.indent().saturating_sub(INDENT);
        self.term(base, signature);
    }

    /// Adds a menu entry, its name as a link.
    fn menu_entry(&mut self, line: &[char])
        ensures
            final(self)@ == old(self)@.with_entry(line@),
    {
        let palette = self.builder.palette();
        let name = read_entry_name(line);
        self.builder.append("• ", palette.body);
        self.builder.append(name.as_str(), palette.link);
        self.builder.end_line();
    }

    /// Reads a line of a table with columns; at its end the table is added.
    fn multitable_line(&mut self, line: &[char])
        requires
            old(self)@.table is Some,
        ensures
            final(self)@ == old(self)@.with_table_line(line@),
    {
        if line.len() == 0 || line[0] != '@' {
            return ;
        }
        let rest = slice_of(line, 1, line.len());
        assert(rest@ =~= line@.skip(1));
        let (word, arg) = split_command(rest.as_slice());
        let head = chars_are(word.as_slice(), "headitem");
        if head || chars_are(word.as_slice(), "item") {
            let row = read_cells(arg.as_slice());
            if let Some(mut table) = self.table.take() {
                let ghost before = cells(table.rows@);
                if head {
                    table.head_rows = table.head_rows.saturating_add(1);
                }
                table.rows.push(row);
                assert(cells(table.rows@) =~= before.push(row_cells(arg@)));
                self.table = Some(table);
            }
        } else if chars_are(word.as_slice(), "end") && chars_are(arg.as_slice(), "multitable") {
            if let Some(table) = self.table.take() {
                render_table(&mut self.builder, table.rows.as_slice(), table.head_rows);
            }
        }
    }
}

/// A line without white space at its end.
fn end_trimmed(raw: &[char]) -> (r: String)
    ensures
        r@ == trim_end(raw@),
{
    let mut n: usize = raw.len();
    assert(raw@.take(n as int) =~= raw@);
    while n > 0 && white(raw[n - 1])
        invariant
            n <= raw@.len(),
            trailing_white(raw@) == raw@.len() - n + trailing_white(raw@.take(n as int)),
        decreases n,
    {
        proof {
            let t = raw@.take(n as int);
            assert(t.drop_last() =~= raw@.take(n - 1));
            assert(t.last() == raw@[n - 1]);
        }
        n -= 1;
    }
    proof {
        if n > 0 {
            assert(raw@.take(n as int).last() == raw@[n - 1]);
        }
    }
    let part = slice_of(raw, 0, n);
    assert(part@ =~= trim_end(raw@));
    string_of(part.as_slice())
}

/// Lays a Texinfo source out into display lines of `width` columns.
pub fn layout(source: &str, width: usize, palette: &Palette, glyphs: &Glyphs) -> (r: Vec<Line>)
    ensures
        pages(r@) == laid_out(source@, width as nat, *palette, *glyphs),
{
    let text = chars_of(source);
    let ls = lines_of(text.as_slice());
    let ghost all = texts(ls@);
    let mut reader = Texinfo::new(width, palette, glyphs);
    let ghost start = reader@;
    let mut i: usize = 0;
    while i < ls.len()
        invariant
            i <= ls@.len(),
            all == texts(ls@),
            start.read_all(all, 0) == reader@.read_all(all, i as nat),
        decreases ls@.len() - i,
    {
        assert(all[i as int] == ls@[i as int]@);
        reader.line(ls[i].as_slice());
        i += 1;
    }
    reader.builder.finish()
}

/// What stands between a skipped environment and its end shows nothing, and the reader goes on
/// behind that end as before it.
pub proof fn law_skipped_shows_nothing(
    r: Reading,
    word: Seq<char>,
    inside: Seq<Seq<char>>,
    end: Seq<char>,
)
    requires
        command_of(word) == Command::Skip,
        forall|i: int| 0 <= i < inside.len() ==> !ends(#[trigger] inside[i], word),
        ends(end, word),
    ensures
        r.obeyed(word, Seq::empty()).read_all(inside, 0).read(end) == r,
{
    let s = r.obeyed(word, Seq::empty());
    lemma_skipping(s, inside, 0);
    assert(s.read(end).skip =~= r.skip);
}

proof fn lemma_skipping(s: Reading, inside: Seq<Seq<char>>, i: nat)
    requires
        s.skip.len() > 0,
        i <= inside.len(),
        forall|k: int| 0 <= k < inside.len() ==> !ends(#[trigger] inside[k], s.skip.last()),
    ensures
        s.read_all(inside, i) == s,
    decreases inside.len() - i,
{
    if i < inside.len() {
        assert(s.read(inside[i as int]) == s);
        lemma_skipping(s, inside, i + 1);
    }
}

/// An escaped character shows as itself: `@@`, `@{` and `@}` add one character to the plain text.
pub proof fn law_escapes_show_literally(
    l: Layout,
    plain: Seq<char>,
    c: char,
    rest: Seq<char>,
    base: Style,
)
    requires
        c == '@' || c == '{' || c == '}',
    ensures
        inlined(l, plain, seq!['@', c] + rest, base) == inlined(l, plain.push(c), rest, base),
{
    let t = seq!['@', c] + rest;
    assert(t.skip(2) =~= rest);
}

} // verus!
