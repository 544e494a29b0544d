//! The highlighter of the languages without a grammar of their own: line-based syntax definitions.
//!
//! The definitions give the *scopes* of each part of a line; [`spans_of`] maps them to the categories
//! of [`HighlightKind`], so that highlighting keeps to the theme's colours here too.

use crate::paths::{extension, extension_of};
use crate::syntax::{HighlightKind, Span, SpanLayer};
use crate::text::{
    byte_len, chars_of, counted_bytes, find_char, find_char_from, has_prefix, same_text, slice_of,
    starts_with, string_of, strings, texts,
};
use crate::typeset::capped;
use syntect::parsing::{ParseState, ScopeStack, SyntaxSet};
use vstd::prelude::*;

verus! {

/// The category of a scope such as `keyword.control.rust`; scopes of comments and strings are not
/// among them.
pub open spec fn scope_kind(scope: Seq<char>) -> Option<HighlightKind> {
    if starts_with(scope, "constant.numeric"@) {
        Some(HighlightKind::Number)
    } else if starts_with(scope, "constant"@) {
        Some(HighlightKind::Constant)
    } else if starts_with(scope, "entity.name.function"@) {
        Some(HighlightKind::Function)
    } else if starts_with(scope, "entity.other.attribute-name"@) {
        Some(HighlightKind::Attribute)
    } else if starts_with(scope, "entity.name.tag"@) {
        Some(HighlightKind::Keyword)
    } else if starts_with(scope, "entity"@) {
        Some(HighlightKind::Type)
    } else if starts_with(scope, "support.function"@) {
        Some(HighlightKind::Function)
    } else if starts_with(scope, "support.type"@) {
        Some(HighlightKind::Type)
    } else if starts_with(scope, "support.class"@) {
        Some(HighlightKind::Type)
    } else if starts_with(scope, "support.constant"@) {
        Some(HighlightKind::Constant)
    } else if starts_with(scope, "support"@) {
        Some(HighlightKind::Variable)
    } else if starts_with(scope, "variable.function"@) {
        Some(HighlightKind::Function)
    } else if starts_with(scope, "variable"@) {
        Some(HighlightKind::Variable)
    } else if starts_with(scope, "storage.type"@) {
        Some(HighlightKind::Type)
    } else if starts_with(scope, "storage"@) {
        Some(HighlightKind::Keyword)
    } else if starts_with(scope, "keyword"@) {
        Some(HighlightKind::Keyword)
    } else if starts_with(scope, "punctuation"@) {
        Some(HighlightKind::Punctuation)
    } else {
        None
    }
}

/// The category of a scope such as `keyword.control.rust`: by the first prefix that matches, the
/// more specific ones first.
pub fn scope_to_kind(scope: &str) -> (r: Option<HighlightKind>)
    ensures
        r == scope_kind(scope@),
{
    let t = chars_of(scope);
    let t = t.as_slice();
    if has_prefix(t, "constant.numeric") {
        Some(HighlightKind::Number)
    } else if has_prefix(t, "constant") {
        Some(HighlightKind::Constant)
    } else if has_prefix(t, "entity.name.function") {
        Some(HighlightKind::Function)
    } else if has_prefix(t, "entity.other.attribute-name") {
        Some(HighlightKind::Attribute)
    } else if has_prefix(t, "entity.name.tag") {
        Some(HighlightKind::Keyword)
    } else if has_prefix(t, "entity") {
        Some(HighlightKind::Type)
    } else if has_prefix(t, "support.function") {
        Some(HighlightKind::Function)
    } else if has_prefix(t, "support.type") {
        Some(HighlightKind::Type)
    } else if has_prefix(t, "support.class") {
        Some(HighlightKind::Type)
    } else if has_prefix(t, "support.constant") {
        Some(HighlightKind::Constant)
    } else if has_prefix(t, "support") {
        Some(HighlightKind::Variable)
    } else if has_prefix(t, "variable.function") {
        Some(HighlightKind::Function)
    } else if has_prefix(t, "variable") {
        Some(HighlightKind::Variable)
    } else if has_prefix(t, "storage.type") {
        Some(HighlightKind::Type)
    } else if has_prefix(t, "storage") {
        Some(HighlightKind::Keyword)
    } else if has_prefix(t, "keyword") {
        Some(HighlightKind::Keyword)
    } else if has_prefix(t, "punctuation") {
        Some(HighlightKind::Punctuation)
    } else {
        None
    }
}

/// The category of a stack of scopes, from the index `i` on: a comment or a string, whichever comes
/// first, rules all that it holds; else the innermost scope that has a category decides.
pub open spec fn stack_kind(
    scopes: Seq<Seq<char>>,
    i: nat,
    chosen: Option<HighlightKind>,
) -> Option<HighlightKind>
    decreases scopes.len() - i,
{
    if i >= scopes.len() {
        chosen
    } else if starts_with(scopes[i as int], "comment"@) {
        Some(HighlightKind::Comment)
    } else if starts_with(scopes[i as int], "string"@) {
        Some(HighlightKind::String)
    } else {
        let kind = scope_kind(scopes[i as int]);
        stack_kind(
            scopes,
            i + 1,
            if kind is Some {
                kind
            } else {
                chosen
            },
        )
    }
}

/// The category of a stack of scopes.
pub fn stack_to_kind(scopes: &[String]) -> (r: Option<HighlightKind>)
    ensures
        r == stack_kind(strings(scopes@), 0, None),
{
    let ghost all = strings(scopes@);
    let mut chosen: Option<HighlightKind> = None;
    let mut i: usize = 0;
    while i < scopes.len()
        invariant
            i <= scopes@.len(),
            all == strings(scopes@),
            stack_kind(all, 0, None) == stack_kind(all, i as nat, chosen),
        decreases scopes@.len() - i,
    {
        let text = chars_of(scopes[i].as_str());
        assert(all[i as int] == text@);
        if has_prefix(text.as_slice(), "comment") {
            return Some(HighlightKind::Comment);
        }
        if has_prefix(text.as_slice(), "string") {
            return Some(HighlightKind::String);
        }
        let kind = scope_to_kind(scopes[i].as_str());
        if kind.is_some() {
            chosen = kind;
        }
        i += 1;
    }
    chosen
}

/// A change of scopes within a line.
#[derive(Clone, Debug, PartialEq, Eq)]
pub struct Change {
    /// The byte offset in the line.
    pub offset: usize,
    /// The scopes from there on, outermost first.
    pub scopes: Vec<String>,
}

/// The scopes of a line.
#[derive(Clone, Debug, PartialEq, Eq)]
pub struct LineScopes {
    /// How many bytes the line has.
    pub len: usize,
    /// Where its scopes change.
    pub changes: Vec<Change>,
}

/// The contents of a [`Change`].
pub struct Turn {
    /// The byte offset in the line.
    pub offset: usize,
    /// The scopes from there on.
    pub scopes: Seq<Seq<char>>,
}

/// The contents of a [`LineScopes`].
pub struct Scoped {
    /// How many bytes the line has.
    pub len: usize,
    /// Where its scopes change.
    pub changes: Seq<Turn>,
}

impl View for Change {
    type V = Turn;

    open spec fn view(&self) -> Turn {
        Turn { offset: self.offset, scopes: strings(self.scopes@) }
    }
}

/// The contents of a list of changes.
pub open spec fn turns(v: Seq<Change>) -> Seq<Turn> {
    v.map_values(|c: Change| c@)
}

impl View for LineScopes {
    type V = Scoped;

    open spec fn view(&self) -> Scoped {
        Scoped { len: self.len, changes: turns(self.changes@) }
    }
}

/// The contents of a list of lines.
pub open spec fn scoped(v: Seq<LineScopes>) -> Seq<Scoped> {
    v.map_values(|l: LineScopes| l@)
}

/// The span of a part of the text in the category of its scopes, if it is not empty and has one.
pub open spec fn span_for(scopes: Seq<Seq<char>>, start: nat, end: nat) -> Seq<Span> {
    let kind = stack_kind(scopes, 0, None);
    if start < end && kind is Some {
        seq![Span { start: start as usize, end: end as usize, value: kind->0 }]
    } else {
        Seq::empty()
    }
}

/// The spans of a line from the change `i` on, where `last` is the offset of the one before it and
/// `scopes` are those from there on.
pub open spec fn line_spans(
    line: Scoped,
    base: nat,
    i: nat,
    last: nat,
    scopes: Seq<Seq<char>>,
) -> Seq<Span>
    decreases line.changes.len() - i,
{
    let from = capped((base + last) as int);
    if i >= line.changes.len() {
        span_for(scopes, from, capped(base + line.len))
    } else {
        let turn = line.changes[i as int];
        span_for(scopes, from, capped(base + turn.offset)) + line_spans(
            line,
            base,
            i + 1,
            turn.offset as nat,
            turn.scopes,
        )
    }
}

/// The scopes at the end of a line that starts with `scopes`.
pub open spec fn scopes_after(line: Scoped, scopes: Seq<Seq<char>>) -> Seq<Seq<char>> {
    if line.changes.len() == 0 {
        scopes
    } else {
        line.changes.last().scopes
    }
}

/// The spans of the lines from `i` on, where line `i` starts at the byte `base` with `scopes`.
pub open spec fn all_spans(
    lines: Seq<Scoped>,
    i: nat,
    base: nat,
    scopes: Seq<Seq<char>>,
) -> Seq<Span>
    decreases lines.len() - i,
{
    if i >= lines.len() {
        Seq::empty()
    } else {
        let line = lines[i as int];
        line_spans(line, base, 0, 0, scopes) + all_spans(
            lines,
            i + 1,
            capped(base + line.len),
            scopes_after(line, scopes),
        )
    }
}

/// Adds the span of a part of the text, if it is not empty and its scopes have a category.
fn push_span(spans: &mut Vec<Span>, scopes: &[String], start: usize, end: usize)
    ensures
        final(spans)@ == old(spans)@ + span_for(strings(scopes@), start as nat, end as nat),
{
    if end <= start {
        assert(spans@ =~= old(spans)@ + span_for(strings(scopes@), start as nat, end as nat));
        return ;
    }
    if let Some(value) = stack_to_kind(scopes) {
        spans.push(Span { start, end, value });
    }
    assert(spans@ =~= old(spans)@ + span_for(strings(scopes@), start as nat, end as nat));
}

/// Adds the spans of a line that starts at the byte `base` with `scopes`.
fn push_line(spans: &mut Vec<Span>, line: &LineScopes, base: usize, scopes: &[String])
    ensures
        final(spans)@ == old(spans)@ + line_spans(line@, base as nat, 0, 0, strings(scopes@)),
{
    let ghost whole = line@;
    let ghost all = line_spans(whole, base as nat, 0, 0, strings(scopes@));
    let none: Vec<String> = Vec::new();
    let mut last: usize = 0;
    let mut i: usize = 0;
    let ghost mut current = strings(scopes@);
    while i < line.changes.len()
        invariant
            i <= line.changes@.len(),
            whole == line@,
            current == if i == 0 {
                strings(scopes@)
            } else {
                whole.changes[i - 1].scopes
            },
            spans@ + line_spans(whole, base as nat, i as nat, last as nat, current) == old(spans)@
                + all,
        decreases line.changes@.len() - i,
    {
        let change = &line.changes[i];
        assert(whole.changes[i as int] == change@);
        let ghost before = spans@;
        let from = base.saturating_add(last);
        let to = base.saturating_add(change.offset);
        if i == 0 {
            push_span(spans, scopes, from, to);
        } else {
            assert(whole.changes[i - 1] == line.changes@[i - 1]@);
            push_span(spans, line.changes[i - 1].scopes.as_slice(), from, to);
        }
        last = change.offset;
        proof {
            let rest = line_spans(
                whole,
                base as nat,
                (i + 1) as nat,
                last as nat,
                whole.changes[i as int].scopes,
            );
            let now = span_for(current, from as nat, to as nat);
            assert(before + (now + rest) =~= (before + now) + rest);
            current = whole.changes[i as int].scopes;
        }
        i += 1;
    }
    let from = base.saturating_add(last);
    let to = base.saturating_add(line.len);
    if i == 0 {
        push_span(spans, scopes, from, to);
    } else {
        assert(whole.changes[i - 1] == line.changes@[i - 1]@);
        push_span(spans, line.changes[i - 1].scopes.as_slice(), from, to);
    }
}

/// The spans of some lines by their scopes.
pub fn spans_of(lines: &[LineScopes]) -> (r: SpanLayer)
    ensures
        r@ == all_spans(scoped(lines@), 0, 0, Seq::empty()),
{
    let ghost all = scoped(lines@);
    let mut spans: Vec<Span> = Vec::new();
    let mut base: usize = 0;
    let mut scopes: Vec<String> = Vec::new();
    let mut i: usize = 0;
    assert(strings(scopes@) =~= Seq::empty());
    assert(spans@ + all_spans(all, 0, 0, strings(scopes@)) =~= all_spans(all, 0, 0, Seq::empty()));
    while i < lines.len()
        invariant
            i <= lines@.len(),
            all == scoped(lines@),
            spans@ + all_spans(all, i as nat, base as nat, strings(scopes@)) == all_spans(
                all,
                0,
                0,
                Seq::empty(),
            ),
        decreases lines@.len() - i,
    {
        let line = &lines[i];
        assert(all[i as int] == line@);
        let ghost before = spans@;
        let ghost start = base as nat;
        let ghost current = strings(scopes@);
        push_line(&mut spans, line, base, scopes.as_slice());
        base = base.saturating_add(line.len);
        let n = line.changes.len();
        if n > 0 {
            assert(line@.changes.last() == line.changes@[n - 1]@);
            scopes = copy_strings(&line.changes[n - 1].scopes);
        }
        proof {
            let now = line_spans(line@, start, 0, 0, current);
            let rest = all_spans(all, (i + 1) as nat, base as nat, strings(scopes@));
            assert(before + (now + rest) =~= (before + now) + rest);
        }
        i += 1;
    }
    assert(spans@ + all_spans(all, i as nat, base as nat, strings(scopes@)) =~= spans@);
    SpanLayer::from_sorted(spans)
}

fn copy_strings(v: &Vec<String>) -> (r: Vec<String>)
    ensures
        strings(r@) == strings(v@),
{
    let mut r: Vec<String> = Vec::new();
    let mut i: usize = 0;
    while i < v.len()
        invariant
            i <= v@.len(),
            r@.len() == i,
            forall|k: int| 0 <= k < i ==> (#[trigger] r@[k])@ == v@[k]@,
        decreases v@.len() - i,
    {
        r.push(v[i].clone());
        i += 1;
    }
    assert(strings(r@) =~= strings(v@));
    r
}

/// The lines of `t` from the index `i` on, each with the line break that ends it.
pub open spec fn lines_with_endings(t: Seq<char>, i: int) -> Seq<Seq<char>>
    decreases t.len() - i,
{
    if i < 0 || i >= t.len() {
        Seq::empty()
    } else {
        let end = find_char(t, '\n', i);
        if i <= end < t.len() {
            seq![t.subrange(i, end + 1)] + lines_with_endings(t, end + 1)
        } else {
            seq![t.skip(i)]
        }
    }
}

fn split_lines(t: &[char]) -> (r: Vec<Vec<char>>)
    ensures
        texts(r@) == lines_with_endings(t@, 0),
{
    let mut r: Vec<Vec<char>> = Vec::new();
    let mut at: usize = 0;
    assert(texts(r@) + lines_with_endings(t@, 0) =~= lines_with_endings(t@, 0));
    while at < t.len()
        invariant
            at <= t@.len(),
            texts(r@) + lines_with_endings(t@, at as int) == lines_with_endings(t@, 0),
        decreases t@.len() - at,
    {
        let end = find_char_from(t, '\n', at);
        let next: usize = if end < t.len() {
            end + 1
        } else {
            t.len()
        };
        let ghost before = texts(r@);
        let part = slice_of(t, at, next);
        r.push(part);
        proof {
            assert(texts(r@) =~= before.push(part@));
            if end < t@.len() {
                let rest = lines_with_endings(t@, next as int);
                assert(before.push(part@) + rest =~= before + (seq![part@] + rest));
            } else {
                assert(part@ =~= t@.skip(at as int));
                assert(lines_with_endings(t@, next as int) =~= Seq::empty());
                assert(texts(r@) + lines_with_endings(t@, next as int) =~= before + seq![part@]);
            }
        }
        at = next;
    }
    assert(texts(r@) + lines_with_endings(t@, at as int) =~= texts(r@));
    r
}

/// The name of the syntax that the bundled definitions have for a file extension, if any.
pub uninterp spec fn syntax_name(extension: Seq<char>) -> Option<Seq<char>>;

/// `syntect::parsing::SyntaxSet::find_syntax_by_extension` on the definitions of
/// `two_face::syntax::extra_newlines`: the name of the syntax for an extension, which depends on the
/// extension alone.
#[verifier::external_body]
fn find_syntax(extension: &str) -> (r: Option<String>)
    ensures
        match r {
            Some(name) => syntax_name(extension@) == Some(name@),
            None => syntax_name(extension@) is None,
        },
{
    let set = two_face::syntax::extra_newlines();
    set.find_syntax_by_extension(extension).map(|syntax| syntax.name.clone())
}

/// The parser, between two lines.
#[verifier::external_type_specification]
#[verifier::external_body]
pub struct ExParseState(syntect::parsing::ParseState);

/// The scopes that are open.
#[verifier::external_type_specification]
#[verifier::external_body]
pub struct ExScopeStack(syntect::parsing::ScopeStack);

/// The syntax definitions.
#[verifier::external_type_specification]
#[verifier::external_body]
pub struct ExSyntaxSet(syntect::parsing::SyntaxSet);

/// How many bytes a line may have to be parsed. The parser builds patterns out of what it captured
/// from earlier lines, and it is not made for patterns without bounds.
pub const MAX_LINE: usize = 16384;

/// The changes of scopes that the parser for an extension reports for a line when it has read the
/// lines `before`; `None` if it cannot parse the line.
pub uninterp spec fn line_report(
    extension: Seq<char>,
    before: Seq<Seq<char>>,
    line: Seq<char>,
) -> Option<Seq<Turn>>;

/// What the parser reports for a line.
pub open spec fn report_view(changes: Option<Vec<Change>>) -> Option<Seq<Turn>> {
    match changes {
        Some(changes) => Some(turns(changes@)),
        None => None,
    }
}

/// The parser for an extension, with the lines that it has read.
struct LineParser {
    set: SyntaxSet,
    state: ParseState,
    stack: ScopeStack,
    ext: Ghost<Seq<char>>,
    fed: Ghost<Seq<Seq<char>>>,
}

impl LineParser {
    /// `syntect::parsing::ParseState::new` on the syntax that `find_syntax_by_extension` gives, on
    /// the definitions of `two_face::syntax::extra_newlines`: a parser that has read nothing; none
    /// for an extension without a syntax.
    #[verifier::external_body]
    fn begin(extension: &str) -> (r: Option<Self>)
        ensures
            r is Some == syntax_name(extension@) is Some,
            r is Some ==> r->0.ext@ == extension@ && r->0.fed@ == Seq::<Seq<char>>::empty(),
    {
        let set = two_face::syntax::extra_newlines();
        let state = ParseState::new(set.find_syntax_by_extension(extension)?);
        let (ext, fed) = (Ghost(extension@), Ghost(Seq::empty()));
        Some(LineParser { set, state, stack: ScopeStack::new(), ext, fed })
    }

    /// `syntect::parsing::ParseState::parse_line`: the changes of the next line, with the scopes that
    /// `ScopeStack::apply` leaves after each of them, by the names that `Scope::build_string` gives;
    /// `None` for a line that cannot be parsed. They depend on the extension, the lines before and
    /// the line alone. A line of more than [`MAX_LINE`] bytes is left out: `parse_line` panics where
    /// a pattern with captured text in it grows too large to be compiled, which takes longer lines.
    #[verifier::external_body]
    fn feed(&mut self, line: &str) -> (r: Option<Vec<Change>>)
        requires
            byte_len(line@) <= MAX_LINE,
        ensures
            report_view(r) == line_report(old(self).ext@, old(self).fed@, line@),
            final(self).ext@ == old(self).ext@,
            final(self).fed@ == old(self).fed@.push(line@),
    {
        let changes = self.state.parse_line(line, &self.set).ok()?.into_iter().map(|(offset, op)| {
            let _ = self.stack.apply(&op);
            let scopes = self.stack.as_slice().iter().map(|scope| scope.build_string()).collect();
            Change { offset, scopes }
        });
        Some(changes.collect())
    }
}

/// The changes that are reported for the lines of a text from `i` on, which the parser reads one
/// after the other. A line that is too long or cannot be parsed ends it.
pub open spec fn reports_from(extension: Seq<char>, lines: Seq<Seq<char>>, i: int) -> Seq<Seq<Turn>>
    decreases lines.len() - i,
{
    if i < 0 || i >= lines.len() || byte_len(lines[i]) > MAX_LINE {
        Seq::empty()
    } else {
        match line_report(extension, lines.take(i), lines[i]) {
            Some(changes) => seq![changes] + reports_from(extension, lines, i + 1),
            None => Seq::empty(),
        }
    }
}

/// The changes that are reported for the lines of a text; none without a syntax.
pub open spec fn line_reports(extension: Seq<char>, lines: Seq<Seq<char>>) -> Seq<Seq<Turn>> {
    if syntax_name(extension) is Some {
        reports_from(extension, lines, 0)
    } else {
        Seq::empty()
    }
}

/// What was reported for lines.
pub open spec fn reported(reports: Seq<Vec<Change>>) -> Seq<Seq<Turn>> {
    reports.map_values(|changes: Vec<Change>| turns(changes@))
}

/// Has the lines of a text parsed one after the other, up to the first one that is too long or that
/// the parser cannot parse.
pub fn report_lines(extension: &str, lines: &[String]) -> (r: Vec<Vec<Change>>)
    ensures
        reported(r@) == line_reports(extension@, strings(lines@)),
{
    let ghost ls = strings(lines@);
    let mut r: Vec<Vec<Change>> = Vec::new();
    assert(reported(r@) =~= Seq::empty());
    let mut parser = match LineParser::begin(extension) {
        Some(parser) => parser,
        None => return r,
    };
    let mut i: usize = 0;
    assert(ls.take(0) =~= Seq::empty());
    assert(reported(r@) + reports_from(extension@, ls, 0) =~= reports_from(extension@, ls, 0));
    while i < lines.len()
        invariant_except_break
            parser.fed@ == ls.take(i as int),
        invariant
            i <= lines@.len(),
            ls == strings(lines@),
            parser.ext@ == extension@,
            reported(r@) + reports_from(extension@, ls, i as int) == reports_from(extension@, ls, 0),
        ensures
            reports_from(extension@, ls, i as int) == Seq::<Seq<Turn>>::empty(),
        decreases lines@.len() - i,
    {
        let line = lines[i].as_str();
        assert(ls[i as int] == line@);
        if counted_bytes(line) > MAX_LINE {
            break;
        }
        match parser.feed(line) {
            Some(changes) => {
                let ghost before = reported(r@);
                let ghost new = turns(changes@);
                r.push(changes);
                proof {
                    let rest = reports_from(extension@, ls, i + 1);
                    assert(reported(r@) =~= before.push(new));
                    assert(before.push(new) + rest =~= before + (seq![new] + rest));
                    assert(ls.take(i + 1) =~= ls.take(i as int).push(ls[i as int]));
                }
            },
            None => {
                break;
            },
        }
        i += 1;
    }
    assert(reported(r@) + Seq::<Seq<Turn>>::empty() =~= reported(r@));
    r
}

/// Whether the bundled definitions cover a file extension. The syntax for plain text gives no scopes
/// and counts as none.
pub open spec fn covered(path: Seq<char>) -> bool {
    match extension(path) {
        Some(ext) => syntax_name(ext) is Some && syntax_name(ext) != Some("Plain Text"@),
        None => false,
    }
}

/// The lines of a text with the scopes that were reported for them, as far as any were.
pub open spec fn scopes_of(lines: Seq<Seq<char>>, reports: Seq<Seq<Turn>>) -> Seq<Scoped> {
    Seq::new(
        if reports.len() < lines.len() {
            reports.len()
        } else {
            lines.len()
        },
        |i: int|
            Scoped { len: capped(byte_len(lines[i]) as int) as usize, changes: reports[i] },
    )
}

/// Joins the lines of a text with the changes that were reported for them, as far as any were.
pub fn join_scopes(lines: &[String], reports: Vec<Vec<Change>>) -> (r: Vec<LineScopes>)
    ensures
        scoped(r@) == scopes_of(strings(lines@), reported(reports@)),
{
    let ghost ls = strings(lines@);
    let ghost rs = reported(reports@);
    let mut r: Vec<LineScopes> = Vec::new();
    let mut reports = reports;
    let mut i: usize = 0;
    while i < lines.len() && i < reports.len()
        invariant
            i <= lines@.len(),
            i <= reports@.len(),
            ls == strings(lines@),
            reports@.len() == rs.len(),
            forall|k: int| i <= k < reports@.len() ==> turns((#[trigger] reports@[k])@) == rs[k],
            scoped(r@) == scopes_of(ls, rs).take(i as int),
        decreases lines@.len() - i,
    {
        assert(turns(reports@[i as int]@) == rs[i as int]);
        let mut changes: Vec<Change> = Vec::new();
        std::mem::swap(&mut changes, &mut reports[i]);
        let new = LineScopes { len: counted_bytes(lines[i].as_str()), changes };
        let ghost before = scoped(r@);
        r.push(new);
        proof {
            assert(ls[i as int] == lines@[i as int]@);
            assert(scoped(r@) =~= before.push(new@));
            assert(new@ == scopes_of(ls, rs)[i as int]);
            assert(scopes_of(ls, rs).take(i + 1) =~= before.push(new@));
        }
        i += 1;
    }
    assert(scopes_of(ls, rs).take(i as int) =~= scopes_of(ls, rs));
    r
}

/// The spans of a text by the changes of scopes that were reported for its lines.
pub open spec fn text_spans(source: Seq<char>, reports: Seq<Seq<Turn>>) -> Seq<Span> {
    all_spans(scopes_of(lines_with_endings(source, 0), reports), 0, 0, Seq::empty())
}

/// A highlighter for the files of one extension.
#[derive(Debug)]
pub struct SyntectHighlighter {
    extension: String,
}

impl SyntectHighlighter {
    /// The extension.
    pub closed spec fn ext(self) -> Seq<char> {
        self.extension@
    }

    /// Whether there is a syntax for a path's extension.
    pub fn supports(path: &str) -> (r: bool)
        ensures
            r == covered(path@),
    {
        let p = chars_of(path);
        match extension_of(p.as_slice()) {
            Some(ext) => {
                let ext = string_of(ext.as_slice());
                match find_syntax(ext.as_str()) {
                    Some(name) => !same_text(name.as_str(), "Plain Text"),
                    None => false,
                }
            },
            None => false,
        }
    }

    /// A highlighter for a path, if there is a syntax for its extension.
    pub fn for_path(path: &str) -> (r: Option<Self>)
        ensures
            r is Some == covered(path@),
            r is Some ==> extension(path@) == Some(r->0.ext()),
    {
        if !SyntectHighlighter::supports(path) {
            return None;
        }
        let p = chars_of(path);
        match extension_of(p.as_slice()) {
            Some(ext) => Some(SyntectHighlighter { extension: string_of(ext.as_slice()) }),
            None => None,
        }
    }

    /// The spans of a source: those of the scopes that the parser reports line by line, up to the
    /// first line that is too long or that it cannot parse.
    pub fn highlight(&mut self, source: &str) -> (r: SpanLayer)
        ensures
            r@ == text_spans(
                source@,
                line_reports(old(self).ext(), lines_with_endings(source@, 0)),
            ),
            final(self).ext() == old(self).ext(),
    {
        let text = chars_of(source);
        let parts = split_lines(text.as_slice());
        let mut lines: Vec<String> = Vec::new();
        let mut i: usize = 0;
        while i < parts.len()
            invariant
                i <= parts@.len(),
                strings(lines@) == texts(parts@).take(i as int),
            decreases parts@.len() - i,
        {
            let ghost before = strings(lines@);
            lines.push(string_of(parts[i].as_slice()));
            assert(strings(lines@) =~= before.push(parts@[i as int]@));
            assert(texts(parts@).take(i + 1) =~= before.push(parts@[i as int]@));
            i += 1;
        }
        assert(texts(parts@).take(i as int) =~= texts(parts@));
        let reports = report_lines(self.extension.as_str(), lines.as_slice());
        spans_of(join_scopes(lines.as_slice(), reports).as_slice())
    }
}

/// Whether the changes of a line are in order and lie in the line.
pub open spec fn in_order(line: Scoped) -> bool {
    &&& forall|a: int, b: int|
        0 <= a <= b < line.changes.len() ==> (#[trigger] line.changes[a]).offset <= (
        #[trigger] line.changes[b]).offset
    &&& forall|a: int| 0 <= a < line.changes.len() ==> (#[trigger] line.changes[a]).offset <= line.len
}

/// How many bytes the lines from `i` on have.
pub open spec fn total_len(lines: Seq<Scoped>, i: nat) -> nat
    decreases lines.len() - i,
{
    if i >= lines.len() {
        0
    } else {
        lines[i as int].len as nat + total_len(lines, i + 1)
    }
}

/// Whether spans lie between two offsets, each with at least a byte, and one behind the other.
pub open spec fn left_to_right(spans: Seq<Span>, low: nat, high: nat) -> bool {
    &&& forall|a: int|
        0 <= a < spans.len() ==> low <= (#[trigger] spans[a]).start < spans[a].end <= high
    &&& forall|a: int, b: int|
        0 <= a < b < spans.len() ==> (#[trigger] spans[a]).end <= (#[trigger] spans[b]).start
}

proof fn lemma_left_to_right(a: Seq<Span>, b: Seq<Span>, low: nat, mid: nat, high: nat)
    requires
        left_to_right(a, low, mid),
        left_to_right(b, mid, high),
        low <= mid <= high,
    ensures
        left_to_right(a + b, low, high),
{
    let all = a + b;
    assert forall|i: int| 0 <= i < all.len() implies low <= (#[trigger] all[i]).start < all[i].end
        <= high by {
        if i < a.len() {
            assert(all[i] == a[i]);
        } else {
            assert(all[i] == b[i - a.len()]);
        }
    }
    assert forall|i: int, j: int| 0 <= i < j < all.len() implies (#[trigger] all[i]).end <= (
    #[trigger] all[j]).start by {
        if j < a.len() {
            assert(all[i] == a[i] && all[j] == a[j]);
        } else if i >= a.len() {
            assert(all[i] == b[i - a.len()] && all[j] == b[j - a.len()]);
        } else {
            assert(all[i] == a[i] && all[j] == b[j - a.len()]);
        }
    }
}

proof fn lemma_line_in_order(
    line: Scoped,
    base: nat,
    i: nat,
    last: nat,
    scopes: Seq<Seq<char>>,
)
    requires
        in_order(line),
        base + line.len <= usize::MAX,
        last <= line.len,
        i < line.changes.len() ==> last <= line.changes[i as int].offset,
    ensures
        left_to_right(line_spans(line, base, i, last, scopes), base + last, base + line.len as nat),
    decreases line.changes.len() - i,
{
    if i < line.changes.len() {
        let turn = line.changes[i as int];
        assert(turn.offset <= line.len);
        if i + 1 < line.changes.len() {
            assert(turn.offset <= line.changes[i + 1int].offset);
        }
        lemma_line_in_order(line, base, i + 1, turn.offset as nat, turn.scopes);
        lemma_left_to_right(
            span_for(scopes, base + last, base + turn.offset as nat),
            line_spans(line, base, i + 1, turn.offset as nat, turn.scopes),
            base + last,
            base + turn.offset as nat,
            base + line.len as nat,
        );
    }
}

/// Where the changes of every line are in order, the spans of a text run from left to right, do not
/// overlap, and stay in it.
pub proof fn law_spans_run_left_to_right(
    lines: Seq<Scoped>,
    i: nat,
    base: nat,
    scopes: Seq<Seq<char>>,
)
    requires
        forall|k: int| 0 <= k < lines.len() ==> in_order(#[trigger] lines[k]),
        base + total_len(lines, i) <= usize::MAX,
    ensures
        left_to_right(all_spans(lines, i, base, scopes), base, base + total_len(lines, i)),
    decreases lines.len() - i,
{
    if i < lines.len() {
        let line = lines[i as int];
        let next = base + line.len as nat;
        assert(in_order(line));
        lemma_line_in_order(line, base, 0, 0, scopes);
        law_spans_run_left_to_right(lines, i + 1, next, scopes_after(line, scopes));
        lemma_left_to_right(
            line_spans(line, base, 0, 0, scopes),
            all_spans(lines, i + 1, next, scopes_after(line, scopes)),
            base,
            next,
            base + total_len(lines, i),
        );
    }
}

proof fn lemma_not_prefix(t: Seq<char>, q: Seq<char>, k: int)
    requires
        0 <= k < q.len(),
        k < t.len(),
        t[k] != q[k],
    ensures
        !starts_with(t, q),
{
    if starts_with(t, q) {
        assert(t.take(q.len() as int)[k] == q[k]);
    }
}

proof fn lemma_is_prefix(p: Seq<char>, rest: Seq<char>)
    ensures
        starts_with(p + rest, p),
{
    assert((p + rest).take(p.len() as int) =~= p);
}

/// Numbers are a category of their own among the constants.
pub proof fn law_constant_scopes(rest: Seq<char>)
    ensures
        scope_kind("constant.numeric"@ + rest) == Some(HighlightKind::Number),
        !starts_with("constant"@ + rest, "constant.numeric"@) ==> scope_kind("constant"@ + rest) == Some(HighlightKind::Constant),
{
    reveal_strlit("constant.numeric");
    reveal_strlit("constant");
    assert("constant.numeric"@.len() == 16);
    assert("constant"@.len() == 8);
    let t = "constant.numeric"@ + rest;
    lemma_is_prefix("constant.numeric"@, rest);
    let t = "constant"@ + rest;
    lemma_is_prefix("constant"@, rest);
}

/// The names of functions, attributes and tags have their own categories; other names are those of types.
pub proof fn law_entity_scopes(rest: Seq<char>)
    ensures
        scope_kind("entity.name.function"@ + rest) == Some(HighlightKind::Function),
        scope_kind("entity.other.attribute-name"@ + rest) == Some(HighlightKind::Attribute),
        scope_kind("entity.name.tag"@ + rest) == Some(HighlightKind::Keyword),
        !starts_with("entity"@ + rest, "entity.name.function"@) && !starts_with("entity"@ + rest, "entity.other.attribute-name"@) && !starts_with("entity"@ + rest, "entity.name.tag"@) ==> scope_kind("entity"@ + rest) == Some(HighlightKind::Type),
{
    reveal_strlit("constant.numeric");
    reveal_strlit("constant");
    reveal_strlit("entity.name.function");
    reveal_strlit("entity.other.attribute-name");
    reveal_strlit("entity.name.tag");
    reveal_strlit("entity");
    assert("constant.numeric"@.len() == 16);
    assert("constant"@.len() == 8);
    assert("entity.name.function"@.len() == 20);
    assert("entity.other.attribute-name"@.len() == 27);
    assert("entity.name.tag"@.len() == 15);
    assert("entity"@.len() == 6);
    let t = "entity.name.function"@ + rest;
    lemma_is_prefix("entity.name.function"@, rest);
    assert(t[0] == "entity.name.function"@[0]);
    lemma_not_prefix(t, "constant.numeric"@, 0);
    assert(t[0] == "entity.name.function"@[0]);
    lemma_not_prefix(t, "constant"@, 0);
    let t = "entity.other.attribute-name"@ + rest;
    lemma_is_prefix("entity.other.attribute-name"@, rest);
    assert(t[0] == "entity.other.attribute-name"@[0]);
    lemma_not_prefix(t, "constant.numeric"@, 0);
    assert(t[0] == "entity.other.attribute-name"@[0]);
    lemma_not_prefix(t, "constant"@, 0);
    assert(t[7] == "entity.other.attribute-name"@[7]);
    lemma_not_prefix(t, "entity.name.function"@, 7);
    let t = "entity.name.tag"@ + rest;
    lemma_is_prefix("entity.name.tag"@, rest);
    assert(t[0] == "entity.name.tag"@[0]);
    lemma_not_prefix(t, "constant.numeric"@, 0);
    assert(t[0] == "entity.name.tag"@[0]);
    lemma_not_prefix(t, "constant"@, 0);
    assert(t[12] == "entity.name.tag"@[12]);
    lemma_not_prefix(t, "entity.name.function"@, 12);
    assert(t[7] == "entity.name.tag"@[7]);
    lemma_not_prefix(t, "entity.other.attribute-name"@, 7);
    let t = "entity"@ + rest;
    lemma_is_prefix("entity"@, rest);
    assert(t[0] == "entity"@[0]);
    lemma_not_prefix(t, "constant.numeric"@, 0);
    assert(t[0] == "entity"@[0]);
    lemma_not_prefix(t, "constant"@, 0);
}

/// What a language comes with has the category of what it is.
pub proof fn law_support_scopes(rest: Seq<char>)
    ensures
        scope_kind("support.function"@ + rest) == Some(HighlightKind::Function),
        scope_kind("support.type"@ + rest) == Some(HighlightKind::Type),
        scope_kind("support.class"@ + rest) == Some(HighlightKind::Type),
        scope_kind("support.constant"@ + rest) == Some(HighlightKind::Constant),
        !starts_with("support"@ + rest, "support.function"@) && !starts_with("support"@ + rest, "support.type"@) && !starts_with("support"@ + rest, "support.class"@) && !starts_with("support"@ + rest, "support.constant"@) ==> scope_kind("support"@ + rest) == Some(HighlightKind::Variable),
{
    reveal_strlit("constant.numeric");
    reveal_strlit("constant");
    reveal_strlit("entity.name.function");
    reveal_strlit("entity.other.attribute-name");
    reveal_strlit("entity.name.tag");
    reveal_strlit("entity");
    reveal_strlit("support.function");
    reveal_strlit("support.type");
    reveal_strlit("support.class");
    reveal_strlit("support.constant");
    reveal_strlit("support");
    assert("constant.numeric"@.len() == 16);
    assert("constant"@.len() == 8);
    assert("entity.name.function"@.len() == 20);
    assert("entity.other.attribute-name"@.len() == 27);
    assert("entity.name.tag"@.len() == 15);
    assert("entity"@.len() == 6);
    assert("support.function"@.len() == 16);
    assert("support.type"@.len() == 12);
    assert("support.class"@.len() == 13);
    assert("support.constant"@.len() == 16);
    assert("support"@.len() == 7);
    let t = "support.function"@ + rest;
    lemma_is_prefix("support.function"@, rest);
    assert(t[0] == "support.function"@[0]);
    lemma_not_prefix(t, "constant.numeric"@, 0);
    assert(t[0] == "support.function"@[0]);
    lemma_not_prefix(t, "constant"@, 0);
    assert(t[0] == "support.function"@[0]);
    lemma_not_prefix(t, "entity.name.function"@, 0);
    assert(t[0] == "support.function"@[0]);
    lemma_not_prefix(t, "entity.other.attribute-name"@, 0);
    assert(t[0] == "support.function"@[0]);
    lemma_not_prefix(t, "entity.name.tag"@, 0);
    assert(t[0] == "support.function"@[0]);
    lemma_not_prefix(t, "entity"@, 0);
    let t = "support.type"@ + rest;
    lemma_is_prefix("support.type"@, rest);
    assert(t[0] == "support.type"@[0]);
    lemma_not_prefix(t, "constant.numeric"@, 0);
    assert(t[0] == "support.type"@[0]);
    lemma_not_prefix(t, "constant"@, 0);
    assert(t[0] == "support.type"@[0]);
    lemma_not_prefix(t, "entity.name.function"@, 0);
    assert(t[0] == "support.type"@[0]);
    lemma_not_prefix(t, "entity.other.attribute-name"@, 0);
    assert(t[0] == "support.type"@[0]);
    lemma_not_prefix(t, "entity.name.tag"@, 0);
    assert(t[0] == "support.type"@[0]);
    lemma_not_prefix(t, "entity"@, 0);
    assert(t[8] == "support.type"@[8]);
    lemma_not_prefix(t, "support.function"@, 8);
    let t = "support.class"@ + rest;
    lemma_is_prefix("support.class"@, rest);
    assert(t[0] == "support.class"@[0]);
    lemma_not_prefix(t, "constant.numeric"@, 0);
    assert(t[0] == "support.class"@[0]);
    lemma_not_prefix(t, "constant"@, 0);
    assert(t[0] == "support.class"@[0]);
    lemma_not_prefix(t, "entity.name.function"@, 0);
    assert(t[0] == "support.class"@[0]);
    lemma_not_prefix(t, "entity.other.attribute-name"@, 0);
    assert(t[0] == "support.class"@[0]);
    lemma_not_prefix(t, "entity.name.tag"@, 0);
    assert(t[0] == "support.class"@[0]);
    lemma_not_prefix(t, "entity"@, 0);
    assert(t[8] == "support.class"@[8]);
    lemma_not_prefix(t, "support.function"@, 8);
    assert(t[8] == "support.class"@[8]);
    lemma_not_prefix(t, "support.type"@, 8);
    let t = "support.constant"@ + rest;
    lemma_is_prefix("support.constant"@, rest);
    assert(t[0] == "support.constant"@[0]);
    lemma_not_prefix(t, "constant.numeric"@, 0);
    assert(t[0] == "support.constant"@[0]);
    lemma_not_prefix(t, "constant"@, 0);
    assert(t[0] == "support.constant"@[0]);
    lemma_not_prefix(t, "entity.name.function"@, 0);
    assert(t[0] == "support.constant"@[0]);
    lemma_not_prefix(t, "entity.other.attribute-name"@, 0);
    assert(t[0] == "support.constant"@[0]);
    lemma_not_prefix(t, "entity.name.tag"@, 0);
    assert(t[0] == "support.constant"@[0]);
    lemma_not_prefix(t, "entity"@, 0);
    assert(t[8] == "support.constant"@[8]);
    lemma_not_prefix(t, "support.function"@, 8);
    assert(t[8] == "support.constant"@[8]);
    lemma_not_prefix(t, "support.type"@, 8);
    assert(t[9] == "support.constant"@[9]);
    lemma_not_prefix(t, "support.class"@, 9);
    let t = "support"@ + rest;
    lemma_is_prefix("support"@, rest);
    assert(t[0] == "support"@[0]);
    lemma_not_prefix(t, "constant.numeric"@, 0);
    assert(t[0] == "support"@[0]);
    lemma_not_prefix(t, "constant"@, 0);
    assert(t[0] == "support"@[0]);
    lemma_not_prefix(t, "entity.name.function"@, 0);
    assert(t[0] == "support"@[0]);
    lemma_not_prefix(t, "entity.other.attribute-name"@, 0);
    assert(t[0] == "support"@[0]);
    lemma_not_prefix(t, "entity.name.tag"@, 0);
    assert(t[0] == "support"@[0]);
    lemma_not_prefix(t, "entity"@, 0);
}

/// A variable that is called is a function.
pub proof fn law_variable_scopes(rest: Seq<char>)
    ensures
        scope_kind("variable.function"@ + rest) == Some(HighlightKind::Function),
        !starts_with("variable"@ + rest, "variable.function"@) ==> scope_kind("variable"@ + rest) == Some(HighlightKind::Variable),
{
    reveal_strlit("constant.numeric");
    reveal_strlit("constant");
    reveal_strlit("entity.name.function");
    reveal_strlit("entity.other.attribute-name");
    reveal_strlit("entity.name.tag");
    reveal_strlit("entity");
    reveal_strlit("support.function");
    reveal_strlit("support.type");
    reveal_strlit("support.class");
    reveal_strlit("support.constant");
    reveal_strlit("support");
    reveal_strlit("variable.function");
    reveal_strlit("variable");
    assert("constant.numeric"@.len() == 16);
    assert("constant"@.len() == 8);
    assert("entity.name.function"@.len() == 20);
    assert("entity.other.attribute-name"@.len() == 27);
    assert("entity.name.tag"@.len() == 15);
    assert("entity"@.len() == 6);
    assert("support.function"@.len() == 16);
    assert("support.type"@.len() == 12);
    assert("support.class"@.len() == 13);
    assert("support.constant"@.len() == 16);
    assert("support"@.len() == 7);
    assert("variable.function"@.len() == 17);
    assert("variable"@.len() == 8);
    let t = "variable.function"@ + rest;
    lemma_is_prefix("variable.function"@, rest);
    assert(t[0] == "variable.function"@[0]);
    lemma_not_prefix(t, "constant.numeric"@, 0);
    assert(t[0] == "variable.function"@[0]);
    lemma_not_prefix(t, "constant"@, 0);
    assert(t[0] == "variable.function"@[0]);
    lemma_not_prefix(t, "entity.name.function"@, 0);
    assert(t[0] == "variable.function"@[0]);
    lemma_not_prefix(t, "entity.other.attribute-name"@, 0);
    assert(t[0] == "variable.function"@[0]);
    lemma_not_prefix(t, "entity.name.tag"@, 0);
    assert(t[0] == "variable.function"@[0]);
    lemma_not_prefix(t, "entity"@, 0);
    assert(t[0] == "variable.function"@[0]);
    lemma_not_prefix(t, "support.function"@, 0);
    assert(t[0] == "variable.function"@[0]);
    lemma_not_prefix(t, "support.type"@, 0);
    assert(t[0] == "variable.function"@[0]);
    lemma_not_prefix(t, "support.class"@, 0);
    assert(t[0] == "variable.function"@[0]);
    lemma_not_prefix(t, "support.constant"@, 0);
    assert(t[0] == "variable.function"@[0]);
    lemma_not_prefix(t, "support"@, 0);
    let t = "variable"@ + rest;
    lemma_is_prefix("variable"@, rest);
    assert(t[0] == "variable"@[0]);
    lemma_not_prefix(t, "constant.numeric"@, 0);
    assert(t[0] == "variable"@[0]);
    lemma_not_prefix(t, "constant"@, 0);
    assert(t[0] == "variable"@[0]);
    lemma_not_prefix(t, "entity.name.function"@, 0);
    assert(t[0] == "variable"@[0]);
    lemma_not_prefix(t, "entity.other.attribute-name"@, 0);
    assert(t[0] == "variable"@[0]);
    lemma_not_prefix(t, "entity.name.tag"@, 0);
    assert(t[0] == "variable"@[0]);
    lemma_not_prefix(t, "entity"@, 0);
    assert(t[0] == "variable"@[0]);
    lemma_not_prefix(t, "support.function"@, 0);
    assert(t[0] == "variable"@[0]);
    lemma_not_prefix(t, "support.type"@, 0);
    assert(t[0] == "variable"@[0]);
    lemma_not_prefix(t, "support.class"@, 0);
    assert(t[0] == "variable"@[0]);
    lemma_not_prefix(t, "support.constant"@, 0);
    assert(t[0] == "variable"@[0]);
    lemma_not_prefix(t, "support"@, 0);
}

/// Words that declare are keywords, but those that name types.
pub proof fn law_storage_scopes(rest: Seq<char>)
    ensures
        scope_kind("storage.type"@ + rest) == Some(HighlightKind::Type),
        !starts_with("storage"@ + rest, "storage.type"@) ==> scope_kind("storage"@ + rest) == Some(HighlightKind::Keyword),
{
    reveal_strlit("constant.numeric");
    reveal_strlit("constant");
    reveal_strlit("entity.name.function");
    reveal_strlit("entity.other.attribute-name");
    reveal_strlit("entity.name.tag");
    reveal_strlit("entity");
    reveal_strlit("support.function");
    reveal_strlit("support.type");
    reveal_strlit("support.class");
    reveal_strlit("support.constant");
    reveal_strlit("support");
    reveal_strlit("variable.function");
    reveal_strlit("variable");
    reveal_strlit("storage.type");
    reveal_strlit("storage");
    assert("constant.numeric"@.len() == 16);
    assert("constant"@.len() == 8);
    assert("entity.name.function"@.len() == 20);
    assert("entity.other.attribute-name"@.len() == 27);
    assert("entity.name.tag"@.len() == 15);
    assert("entity"@.len() == 6);
    assert("support.function"@.len() == 16);
    assert("support.type"@.len() == 12);
    assert("support.class"@.len() == 13);
    assert("support.constant"@.len() == 16);
    assert("support"@.len() == 7);
    assert("variable.function"@.len() == 17);
    assert("variable"@.len() == 8);
    assert("storage.type"@.len() == 12);
    assert("storage"@.len() == 7);
    let t = "storage.type"@ + rest;
    lemma_is_prefix("storage.type"@, rest);
    assert(t[0] == "storage.type"@[0]);
    lemma_not_prefix(t, "constant.numeric"@, 0);
    assert(t[0] == "storage.type"@[0]);
    lemma_not_prefix(t, "constant"@, 0);
    assert(t[0] == "storage.type"@[0]);
    lemma_not_prefix(t, "entity.name.function"@, 0);
    assert(t[0] == "storage.type"@[0]);
    lemma_not_prefix(t, "entity.other.attribute-name"@, 0);
    assert(t[0] == "storage.type"@[0]);
    lemma_not_prefix(t, "entity.name.tag"@, 0);
    assert(t[0] == "storage.type"@[0]);
    lemma_not_prefix(t, "entity"@, 0);
    assert(t[1] == "storage.type"@[1]);
    lemma_not_prefix(t, "support.function"@, 1);
    assert(t[1] == "storage.type"@[1]);
    lemma_not_prefix(t, "support.type"@, 1);
    assert(t[1] == "storage.type"@[1]);
    lemma_not_prefix(t, "support.class"@, 1);
    assert(t[1] == "storage.type"@[1]);
    lemma_not_prefix(t, "support.constant"@, 1);
    assert(t[1] == "storage.type"@[1]);
    lemma_not_prefix(t, "support"@, 1);
    assert(t[0] == "storage.type"@[0]);
    lemma_not_prefix(t, "variable.function"@, 0);
    assert(t[0] == "storage.type"@[0]);
    lemma_not_prefix(t, "variable"@, 0);
    let t = "storage"@ + rest;
    lemma_is_prefix("storage"@, rest);
    assert(t[0] == "storage"@[0]);
    lemma_not_prefix(t, "constant.numeric"@, 0);
    assert(t[0] == "storage"@[0]);
    lemma_not_prefix(t, "constant"@, 0);
    assert(t[0] == "storage"@[0]);
    lemma_not_prefix(t, "entity.name.function"@, 0);
    assert(t[0] == "storage"@[0]);
    lemma_not_prefix(t, "entity.other.attribute-name"@, 0);
    assert(t[0] == "storage"@[0]);
    lemma_not_prefix(t, "entity.name.tag"@, 0);
    assert(t[0] == "storage"@[0]);
    lemma_not_prefix(t, "entity"@, 0);
    assert(t[1] == "storage"@[1]);
    lemma_not_prefix(t, "support.function"@, 1);
    assert(t[1] == "storage"@[1]);
    lemma_not_prefix(t, "support.type"@, 1);
    assert(t[1] == "storage"@[1]);
    lemma_not_prefix(t, "support.class"@, 1);
    assert(t[1] == "storage"@[1]);
    lemma_not_prefix(t, "support.constant"@, 1);
    assert(t[1] == "storage"@[1]);
    lemma_not_prefix(t, "support"@, 1);
    assert(t[0] == "storage"@[0]);
    lemma_not_prefix(t, "variable.function"@, 0);
    assert(t[0] == "storage"@[0]);
    lemma_not_prefix(t, "variable"@, 0);
}

/// Keywords.
pub proof fn law_keyword_scopes(rest: Seq<char>)
    ensures
        scope_kind("keyword"@ + rest) == Some(HighlightKind::Keyword),
{
    reveal_strlit("constant.numeric");
    reveal_strlit("constant");
    reveal_strlit("entity.name.function");
    reveal_strlit("entity.other.attribute-name");
    reveal_strlit("entity.name.tag");
    reveal_strlit("entity");
    reveal_strlit("support.function");
    reveal_strlit("support.type");
    reveal_strlit("support.class");
    reveal_strlit("support.constant");
    reveal_strlit("support");
    reveal_strlit("variable.function");
    reveal_strlit("variable");
    reveal_strlit("storage.type");
    reveal_strlit("storage");
    reveal_strlit("keyword");
    assert("constant.numeric"@.len() == 16);
    assert("constant"@.len() == 8);
    assert("entity.name.function"@.len() == 20);
    assert("entity.other.attribute-name"@.len() == 27);
    assert("entity.name.tag"@.len() == 15);
    assert("entity"@.len() == 6);
    assert("support.function"@.len() == 16);
    assert("support.type"@.len() == 12);
    assert("support.class"@.len() == 13);
    assert("support.constant"@.len() == 16);
    assert("support"@.len() == 7);
    assert("variable.function"@.len() == 17);
    assert("variable"@.len() == 8);
    assert("storage.type"@.len() == 12);
    assert("storage"@.len() == 7);
    assert("keyword"@.len() == 7);
    let t = "keyword"@ + rest;
    lemma_is_prefix("keyword"@, rest);
    assert(t[0] == "keyword"@[0]);
    lemma_not_prefix(t, "constant.numeric"@, 0);
    assert(t[0] == "keyword"@[0]);
    lemma_not_prefix(t, "constant"@, 0);
    assert(t[0] == "keyword"@[0]);
    lemma_not_prefix(t, "entity.name.function"@, 0);
    assert(t[0] == "keyword"@[0]);
    lemma_not_prefix(t, "entity.other.attribute-name"@, 0);
    assert(t[0] == "keyword"@[0]);
    lemma_not_prefix(t, "entity.name.tag"@, 0);
    assert(t[0] == "keyword"@[0]);
    lemma_not_prefix(t, "entity"@, 0);
    assert(t[0] == "keyword"@[0]);
    lemma_not_prefix(t, "support.function"@, 0);
    assert(t[0] == "keyword"@[0]);
    lemma_not_prefix(t, "support.type"@, 0);
    assert(t[0] == "keyword"@[0]);
    lemma_not_prefix(t, "support.class"@, 0);
    assert(t[0] == "keyword"@[0]);
    lemma_not_prefix(t, "support.constant"@, 0);
    assert(t[0] == "keyword"@[0]);
    lemma_not_prefix(t, "support"@, 0);
    assert(t[0] == "keyword"@[0]);
    lemma_not_prefix(t, "variable.function"@, 0);
    assert(t[0] == "keyword"@[0]);
    lemma_not_prefix(t, "variable"@, 0);
    assert(t[0] == "keyword"@[0]);
    lemma_not_prefix(t, "storage.type"@, 0);
    assert(t[0] == "keyword"@[0]);
    lemma_not_prefix(t, "storage"@, 0);
}

/// Punctuation.
pub proof fn law_punctuation_scopes(rest: Seq<char>)
    ensures
        scope_kind("punctuation"@ + rest) == Some(HighlightKind::Punctuation),
{
    reveal_strlit("constant.numeric");
    reveal_strlit("constant");
    reveal_strlit("entity.name.function");
    reveal_strlit("entity.other.attribute-name");
    reveal_strlit("entity.name.tag");
    reveal_strlit("entity");
    reveal_strlit("support.function");
    reveal_strlit("support.type");
    reveal_strlit("support.class");
    reveal_strlit("support.constant");
    reveal_strlit("support");
    reveal_strlit("variable.function");
    reveal_strlit("variable");
    reveal_strlit("storage.type");
    reveal_strlit("storage");
    reveal_strlit("keyword");
    reveal_strlit("punctuation");
    assert("constant.numeric"@.len() == 16);
    assert("constant"@.len() == 8);
    assert("entity.name.function"@.len() == 20);
    assert("entity.other.attribute-name"@.len() == 27);
    assert("entity.name.tag"@.len() == 15);
    assert("entity"@.len() == 6);
    assert("support.function"@.len() == 16);
    assert("support.type"@.len() == 12);
    assert("support.class"@.len() == 13);
    assert("support.constant"@.len() == 16);
    assert("support"@.len() == 7);
    assert("variable.function"@.len() == 17);
    assert("variable"@.len() == 8);
    assert("storage.type"@.len() == 12);
    assert("storage"@.len() == 7);
    assert("keyword"@.len() == 7);
    assert("punctuation"@.len() == 11);
    let t = "punctuation"@ + rest;
    lemma_is_prefix("punctuation"@, rest);
    assert(t[0] == "punctuation"@[0]);
    lemma_not_prefix(t, "constant.numeric"@, 0);
    assert(t[0] == "punctuation"@[0]);
    lemma_not_prefix(t, "constant"@, 0);
    assert(t[0] == "punctuation"@[0]);
    lemma_not_prefix(t, "entity.name.function"@, 0);
    assert(t[0] == "punctuation"@[0]);
    lemma_not_prefix(t, "entity.other.attribute-name"@, 0);
    assert(t[0] == "punctuation"@[0]);
    lemma_not_prefix(t, "entity.name.tag"@, 0);
    assert(t[0] == "punctuation"@[0]);
    lemma_not_prefix(t, "entity"@, 0);
    assert(t[0] == "punctuation"@[0]);
    lemma_not_prefix(t, "support.function"@, 0);
    assert(t[0] == "punctuation"@[0]);
    lemma_not_prefix(t, "support.type"@, 0);
    assert(t[0] == "punctuation"@[0]);
    lemma_not_prefix(t, "support.class"@, 0);
    assert(t[0] == "punctuation"@[0]);
    lemma_not_prefix(t, "support.constant"@, 0);
    assert(t[0] == "punctuation"@[0]);
    lemma_not_prefix(t, "support"@, 0);
    assert(t[0] == "punctuation"@[0]);
    lemma_not_prefix(t, "variable.function"@, 0);
    assert(t[0] == "punctuation"@[0]);
    lemma_not_prefix(t, "variable"@, 0);
    assert(t[0] == "punctuation"@[0]);
    lemma_not_prefix(t, "storage.type"@, 0);
    assert(t[0] == "punctuation"@[0]);
    lemma_not_prefix(t, "storage"@, 0);
    assert(t[0] == "punctuation"@[0]);
    lemma_not_prefix(t, "keyword"@, 0);
}

} // verus!
