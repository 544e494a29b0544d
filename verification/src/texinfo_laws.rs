//! What the preview of a Texinfo document shows, command by command.

use crate::surface::{Attrs, Style};
use crate::text::{find_char, law_find_char_is_first, split, trim};
use crate::texinfo::{
    braced, command_argument, command_end, command_of, escape_of, glyph_of, group_end, has_argument, inline_of, inlined,
    is_alphanumeric, name_len, name_of, Command,
};
use crate::typeset::{ink, law_wrapping_keeps_text, plain, Layout};
use vstd::prelude::*;

verus! {

/// Whether a text holds no commands.
pub open spec fn no_commands(t: Seq<char>) -> bool {
    forall|k: int| 0 <= k < t.len() ==> #[trigger] t[k] != '@'
}

/// A text without commands is set as it is.
pub proof fn law_text_is_set_as_it_is(l: Layout, before: Seq<char>, text: Seq<char>, base: Style)
    requires
        no_commands(text),
    ensures
        inlined(l, before, text, base) == l.span(before + text, base),
    decreases text.len(),
{
    if text.len() == 0 {
        assert(before + text =~= before);
    } else {
        let tail = text.skip(1);
        assert(text[0] != '@');
        assert forall|k: int| 0 <= k < tail.len() implies #[trigger] tail[k] != '@' by {
            assert(tail[k] == text[k + 1]);
        }
        law_text_is_set_as_it_is(l, before.push(text[0]), tail, base);
        assert(before.push(text[0]) + tail =~= before + text);
    }
}

pub proof fn lemma_bare(l: Layout, text: Seq<char>, base: Style)
    requires
        no_commands(text),
    ensures
        inlined(l, Seq::empty(), text, base) == l.span(text, base),
{
    law_text_is_set_as_it_is(l, Seq::empty(), text, base);
    assert(Seq::<char>::empty() + text =~= text);
}

/// Whether an inline command shows its argument: all do but those that show nothing, the links and the
/// symbols.
pub open spec fn shows_argument(command: Seq<char>) -> bool {
    &&& command != "value"@
    &&& command != "anchor"@
    &&& command != "today"@
    &&& command != "email"@
    &&& command != "url"@
    &&& command != "uref"@
    &&& command != "ref"@
    &&& command != "xref"@
    &&& command != "pxref"@
    &&& command != "dots"@
    &&& command != "enddots"@
    &&& command != "copyright"@
    &&& command != "registeredsymbol"@
    &&& command != "bullet"@
    &&& command != "minus"@
    &&& command != "result"@
    &&& command != "expansion"@
    &&& command != "arrow"@
    &&& command != "error"@
    &&& command != "point"@
    &&& command != "equiv"@
    &&& command != "tie"@
    &&& command != "comma"@
    &&& command != "TeX"@
    &&& command != "LaTeX"@
}

/// An inline command that shows its argument loses not a character of it.
pub proof fn law_argument_is_kept(l: Layout, command: Seq<char>, arg: Seq<char>, base: Style)
    requires
        plain(l),
        shows_argument(command),
        no_commands(arg),
    ensures
        braced(l, command, arg, base).ink() == l.ink() + ink(arg),
{
    assert(glyph_of(command) is None);
    lemma_bare(l, arg, base);
    lemma_bare(l, arg, base.italic());
    lemma_bare(l, arg, base.bold());
    law_wrapping_keeps_text(l, arg, base);
    law_wrapping_keeps_text(l, arg, base.italic());
    law_wrapping_keeps_text(l, arg, base.bold());
    law_wrapping_keeps_text(l, arg, l.palette.code);
}

proof fn lemma_is_italic(command: Seq<char>)
    requires
        command == "emph"@ || command == "i"@ || command == "var"@ || command == "dfn"@
            || command == "cite"@ || command == "slanted"@,
    ensures
        inline_of(command) is Italic,
{
    reveal_strlit("code");
    reveal_strlit("samp");
    reveal_strlit("file");
    reveal_strlit("command");
    reveal_strlit("option");
    reveal_strlit("env");
    reveal_strlit("kbd");
    reveal_strlit("key");
    reveal_strlit("verb");
    reveal_strlit("t");
    reveal_strlit("sc");
    reveal_strlit("indicateurl");
    reveal_strlit("math");
    reveal_strlit("emph");
    reveal_strlit("i");
    reveal_strlit("var");
    reveal_strlit("dfn");
    reveal_strlit("cite");
    reveal_strlit("slanted");
    assert("code"@.len() == 4);
    assert("samp"@.len() == 4);
    assert("file"@.len() == 4);
    assert("command"@.len() == 7);
    assert("option"@.len() == 6);
    assert("env"@.len() == 3);
    assert("kbd"@.len() == 3);
    assert("key"@.len() == 3);
    assert("verb"@.len() == 4);
    assert("t"@.len() == 1);
    assert("sc"@.len() == 2);
    assert("indicateurl"@.len() == 11);
    assert("math"@.len() == 4);
    assert("emph"@.len() == 4);
    assert("i"@.len() == 1);
    assert("var"@.len() == 3);
    assert("dfn"@.len() == 3);
    assert("cite"@.len() == 4);
    assert("slanted"@.len() == 7);
    assert("emph"@[0] != "code"@[0]);
    assert("emph"@[0] != "samp"@[0]);
    assert("emph"@[0] != "file"@[0]);
    assert("emph"@[0] != "verb"@[0]);
    assert("emph"@[0] != "math"@[0]);
    assert("i"@[0] != "t"@[0]);
    assert("var"@[0] != "env"@[0]);
    assert("var"@[0] != "kbd"@[0]);
    assert("var"@[0] != "key"@[0]);
    assert("dfn"@[0] != "env"@[0]);
    assert("dfn"@[0] != "kbd"@[0]);
    assert("dfn"@[0] != "key"@[0]);
    assert("cite"@[1] != "code"@[1]);
    assert("cite"@[0] != "samp"@[0]);
    assert("cite"@[0] != "file"@[0]);
    assert("cite"@[0] != "verb"@[0]);
    assert("cite"@[0] != "math"@[0]);
    assert("slanted"@[0] != "command"@[0]);
}

proof fn lemma_is_bold(command: Seq<char>)
    requires
        command == "strong"@ || command == "b"@,
    ensures
        inline_of(command) is Bold,
{
    reveal_strlit("code");
    reveal_strlit("samp");
    reveal_strlit("file");
    reveal_strlit("command");
    reveal_strlit("option");
    reveal_strlit("env");
    reveal_strlit("kbd");
    reveal_strlit("key");
    reveal_strlit("verb");
    reveal_strlit("t");
    reveal_strlit("sc");
    reveal_strlit("indicateurl");
    reveal_strlit("math");
    reveal_strlit("emph");
    reveal_strlit("i");
    reveal_strlit("var");
    reveal_strlit("dfn");
    reveal_strlit("cite");
    reveal_strlit("slanted");
    reveal_strlit("strong");
    reveal_strlit("b");
    assert("code"@.len() == 4);
    assert("samp"@.len() == 4);
    assert("file"@.len() == 4);
    assert("command"@.len() == 7);
    assert("option"@.len() == 6);
    assert("env"@.len() == 3);
    assert("kbd"@.len() == 3);
    assert("key"@.len() == 3);
    assert("verb"@.len() == 4);
    assert("t"@.len() == 1);
    assert("sc"@.len() == 2);
    assert("indicateurl"@.len() == 11);
    assert("math"@.len() == 4);
    assert("emph"@.len() == 4);
    assert("i"@.len() == 1);
    assert("var"@.len() == 3);
    assert("dfn"@.len() == 3);
    assert("cite"@.len() == 4);
    assert("slanted"@.len() == 7);
    assert("strong"@.len() == 6);
    assert("b"@.len() == 1);
    assert("strong"@[0] != "option"@[0]);
    assert("b"@[0] != "t"@[0]);
    assert("b"@[0] != "i"@[0]);
}

proof fn lemma_is_link(command: Seq<char>)
    requires
        command == "email"@ || command == "url"@ || command == "uref"@ || command == "ref"@
            || command == "xref"@ || command == "pxref"@,
    ensures
        inline_of(command) is Link,
{
    reveal_strlit("code");
    reveal_strlit("samp");
    reveal_strlit("file");
    reveal_strlit("command");
    reveal_strlit("option");
    reveal_strlit("env");
    reveal_strlit("kbd");
    reveal_strlit("key");
    reveal_strlit("verb");
    reveal_strlit("t");
    reveal_strlit("sc");
    reveal_strlit("indicateurl");
    reveal_strlit("math");
    reveal_strlit("emph");
    reveal_strlit("i");
    reveal_strlit("var");
    reveal_strlit("dfn");
    reveal_strlit("cite");
    reveal_strlit("slanted");
    reveal_strlit("strong");
    reveal_strlit("b");
    reveal_strlit("email");
    reveal_strlit("url");
    reveal_strlit("uref");
    reveal_strlit("ref");
    reveal_strlit("xref");
    reveal_strlit("pxref");
    assert("code"@.len() == 4);
    assert("samp"@.len() == 4);
    assert("file"@.len() == 4);
    assert("command"@.len() == 7);
    assert("option"@.len() == 6);
    assert("env"@.len() == 3);
    assert("kbd"@.len() == 3);
    assert("key"@.len() == 3);
    assert("verb"@.len() == 4);
    assert("t"@.len() == 1);
    assert("sc"@.len() == 2);
    assert("indicateurl"@.len() == 11);
    assert("math"@.len() == 4);
    assert("emph"@.len() == 4);
    assert("i"@.len() == 1);
    assert("var"@.len() == 3);
    assert("dfn"@.len() == 3);
    assert("cite"@.len() == 4);
    assert("slanted"@.len() == 7);
    assert("strong"@.len() == 6);
    assert("b"@.len() == 1);
    assert("email"@.len() == 5);
    assert("url"@.len() == 3);
    assert("uref"@.len() == 4);
    assert("ref"@.len() == 3);
    assert("xref"@.len() == 4);
    assert("pxref"@.len() == 5);
    assert("url"@[0] != "env"@[0]);
    assert("url"@[0] != "kbd"@[0]);
    assert("url"@[0] != "key"@[0]);
    assert("url"@[0] != "var"@[0]);
    assert("url"@[0] != "dfn"@[0]);
    assert("uref"@[0] != "code"@[0]);
    assert("uref"@[0] != "samp"@[0]);
    assert("uref"@[0] != "file"@[0]);
    assert("uref"@[0] != "verb"@[0]);
    assert("uref"@[0] != "math"@[0]);
    assert("uref"@[0] != "emph"@[0]);
    assert("uref"@[0] != "cite"@[0]);
    assert("ref"@[0] != "env"@[0]);
    assert("ref"@[0] != "kbd"@[0]);
    assert("ref"@[0] != "key"@[0]);
    assert("ref"@[0] != "var"@[0]);
    assert("ref"@[0] != "dfn"@[0]);
    assert("xref"@[0] != "code"@[0]);
    assert("xref"@[0] != "samp"@[0]);
    assert("xref"@[0] != "file"@[0]);
    assert("xref"@[0] != "verb"@[0]);
    assert("xref"@[0] != "math"@[0]);
    assert("xref"@[0] != "emph"@[0]);
    assert("xref"@[0] != "cite"@[0]);
}

proof fn lemma_is_hidden(command: Seq<char>)
    requires
        command == "value"@ || command == "anchor"@ || command == "today"@,
    ensures
        inline_of(command) is Hidden,
{
    reveal_strlit("code");
    reveal_strlit("samp");
    reveal_strlit("file");
    reveal_strlit("command");
    reveal_strlit("option");
    reveal_strlit("env");
    reveal_strlit("kbd");
    reveal_strlit("key");
    reveal_strlit("verb");
    reveal_strlit("t");
    reveal_strlit("sc");
    reveal_strlit("indicateurl");
    reveal_strlit("math");
    reveal_strlit("emph");
    reveal_strlit("i");
    reveal_strlit("var");
    reveal_strlit("dfn");
    reveal_strlit("cite");
    reveal_strlit("slanted");
    reveal_strlit("strong");
    reveal_strlit("b");
    reveal_strlit("email");
    reveal_strlit("url");
    reveal_strlit("uref");
    reveal_strlit("ref");
    reveal_strlit("xref");
    reveal_strlit("pxref");
    reveal_strlit("w");
    reveal_strlit("asis");
    reveal_strlit("r");
    reveal_strlit("footnote");
    reveal_strlit("dmn");
    reveal_strlit("value");
    reveal_strlit("anchor");
    reveal_strlit("today");
    assert("code"@.len() == 4);
    assert("samp"@.len() == 4);
    assert("file"@.len() == 4);
    assert("command"@.len() == 7);
    assert("option"@.len() == 6);
    assert("env"@.len() == 3);
    assert("kbd"@.len() == 3);
    assert("key"@.len() == 3);
    assert("verb"@.len() == 4);
    assert("t"@.len() == 1);
    assert("sc"@.len() == 2);
    assert("indicateurl"@.len() == 11);
    assert("math"@.len() == 4);
    assert("emph"@.len() == 4);
    assert("i"@.len() == 1);
    assert("var"@.len() == 3);
    assert("dfn"@.len() == 3);
    assert("cite"@.len() == 4);
    assert("slanted"@.len() == 7);
    assert("strong"@.len() == 6);
    assert("b"@.len() == 1);
    assert("email"@.len() == 5);
    assert("url"@.len() == 3);
    assert("uref"@.len() == 4);
    assert("ref"@.len() == 3);
    assert("xref"@.len() == 4);
    assert("pxref"@.len() == 5);
    assert("w"@.len() == 1);
    assert("asis"@.len() == 4);
    assert("r"@.len() == 1);
    assert("footnote"@.len() == 8);
    assert("dmn"@.len() == 3);
    assert("value"@.len() == 5);
    assert("anchor"@.len() == 6);
    assert("today"@.len() == 5);
    assert("value"@[0] != "email"@[0]);
    assert("value"@[0] != "pxref"@[0]);
    assert("anchor"@[0] != "option"@[0]);
    assert("anchor"@[0] != "strong"@[0]);
    assert("today"@[0] != "email"@[0]);
    assert("today"@[0] != "pxref"@[0]);
}

/// What `@emph` and its kin enclose is set in italic.
pub proof fn law_emphasis_is_italic(l: Layout, command: Seq<char>, arg: Seq<char>, base: Style)
    requires
        command == "emph"@ || command == "i"@ || command == "var"@ || command == "dfn"@
            || command == "cite"@ || command == "slanted"@,
        no_commands(arg),
    ensures
        braced(l, command, arg, base) == l.span(
            arg,
            Style { attrs: Attrs { italic: true, ..base.attrs }, ..base },
        ),
{
    lemma_is_italic(command);
    lemma_bare(l, arg, base.italic());
}

/// What `@strong` and `@b` enclose is set in bold.
pub proof fn law_strong_is_bold(l: Layout, command: Seq<char>, arg: Seq<char>, base: Style)
    requires
        command == "strong"@ || command == "b"@,
        no_commands(arg),
    ensures
        braced(l, command, arg, base) == l.span(
            arg,
            Style { attrs: Attrs { bold: true, ..base.attrs }, ..base },
        ),
{
    lemma_is_bold(command);
    lemma_bare(l, arg, base.bold());
}

/// What `@code` and its kin enclose is set as it is, in the style of code.
pub proof fn law_code_has_its_style(l: Layout, command: Seq<char>, arg: Seq<char>, base: Style)
    requires
        command == "code"@ || command == "samp"@ || command == "file"@ || command == "command"@
            || command == "option"@ || command == "env"@ || command == "kbd"@ || command == "key"@
            || command == "verb"@ || command == "t"@ || command == "sc"@
            || command == "indicateurl"@ || command == "math"@,
    ensures
        braced(l, command, arg, base) == l.span(arg, l.palette.code),
{
}

/// A command that is not known sets what it encloses as it is, in the style around it.
pub proof fn law_other_commands_are_plain(l: Layout, command: Seq<char>, arg: Seq<char>, base: Style)
    requires
        shows_argument(command),
        command != "code"@,
        command != "samp"@,
        command != "file"@,
        command != "command"@,
        command != "option"@,
        command != "env"@,
        command != "kbd"@,
        command != "key"@,
        command != "verb"@,
        command != "t"@,
        command != "sc"@,
        command != "indicateurl"@,
        command != "math"@,
        command != "emph"@,
        command != "i"@,
        command != "var"@,
        command != "dfn"@,
        command != "cite"@,
        command != "slanted"@,
        command != "strong"@,
        command != "b"@,
        no_commands(arg),
    ensures
        braced(l, command, arg, base) == l.span(arg, base),
{
    assert(glyph_of(command) is None);
    lemma_bare(l, arg, base);
}

/// `@value`, `@anchor` and `@today` show nothing.
pub proof fn law_hidden_commands_show_nothing(l: Layout, command: Seq<char>, arg: Seq<char>, base: Style)
    requires
        command == "value"@ || command == "anchor"@ || command == "today"@,
    ensures
        braced(l, command, arg, base) == l,
{
    lemma_is_hidden(command);
}

proof fn lemma_last_part(t: Seq<char>, c: char, n: int, i: int)
    requires
        0 <= i <= n < t.len(),
        t[n] == c,
        forall|k: int| n < k < t.len() ==> #[trigger] t[k] != c,
    ensures
        split(t, c, i).len() > 0,
        split(t, c, i).last() == t.skip(n + 1),
    decreases n - i,
{
    law_find_char_is_first(t, c, i);
    let p = find_char(t, c, i);
    assert(p <= n);
    let tail = split(t, c, p + 1);
    if p < n {
        lemma_last_part(t, c, n, p + 1);
    } else {
        law_find_char_is_first(t, c, n + 1);
        assert(find_char(t, c, n + 1) == t.len());
        assert(tail =~= seq![t.skip(n + 1)]);
    }
    assert((seq![t.subrange(i, p)] + tail).last() == tail.last());
}

/// A link shows what stands behind its last comma, or all it encloses where there is none, without
/// the white space around it, in the style of links.
pub proof fn law_link_shows_its_last_part(
    l: Layout,
    command: Seq<char>,
    a: Seq<char>,
    b: Seq<char>,
    base: Style,
)
    requires
        command == "email"@ || command == "url"@ || command == "uref"@ || command == "ref"@
            || command == "xref"@ || command == "pxref"@,
        forall|k: int| 0 <= k < b.len() ==> #[trigger] b[k] != ',',
    ensures
        braced(l, command, b, base) == l.span(trim(b), l.palette.link),
        braced(l, command, a + seq![','] + b, base) == l.span(trim(b), l.palette.link),
{
    lemma_is_link(command);
    law_find_char_is_first(b, ',', 0);
    assert(find_char(b, ',', 0) == b.len());
    assert(b.skip(0) =~= b);
    assert(split(b, ',', 0) =~= seq![b]);
    let t = a + seq![','] + b;
    let n = a.len() as int;
    assert forall|k: int| n < k < t.len() implies #[trigger] t[k] != ',' by {
        assert(t[k] == b[k - n - 1]);
    }
    lemma_last_part(t, ',', n, 0);
    assert(t.skip(n + 1) =~= b);
}

/// The symbols.
pub open spec fn is_shown_as(command: Seq<char>, glyph: Seq<char>) -> bool {
    inline_of(command) is Glyph && glyph_of(command) == Some(glyph)
}

/// The commands for dots, marks and bullets show them.
pub proof fn law_symbols_of_text()
    ensures
        is_shown_as("dots"@, "…"@),
        is_shown_as("enddots"@, "…."@),
        is_shown_as("copyright"@, "©"@),
        is_shown_as("registeredsymbol"@, "®"@),
        is_shown_as("bullet"@, "•"@),
        is_shown_as("minus"@, "−"@),
{
    reveal_strlit("code");
    reveal_strlit("samp");
    reveal_strlit("file");
    reveal_strlit("command");
    reveal_strlit("option");
    reveal_strlit("env");
    reveal_strlit("kbd");
    reveal_strlit("key");
    reveal_strlit("verb");
    reveal_strlit("t");
    reveal_strlit("sc");
    reveal_strlit("indicateurl");
    reveal_strlit("math");
    reveal_strlit("emph");
    reveal_strlit("i");
    reveal_strlit("var");
    reveal_strlit("dfn");
    reveal_strlit("cite");
    reveal_strlit("slanted");
    reveal_strlit("strong");
    reveal_strlit("b");
    reveal_strlit("email");
    reveal_strlit("url");
    reveal_strlit("uref");
    reveal_strlit("ref");
    reveal_strlit("xref");
    reveal_strlit("pxref");
    reveal_strlit("w");
    reveal_strlit("asis");
    reveal_strlit("r");
    reveal_strlit("footnote");
    reveal_strlit("dmn");
    reveal_strlit("value");
    reveal_strlit("anchor");
    reveal_strlit("today");
    reveal_strlit("dots");
    reveal_strlit("enddots");
    reveal_strlit("copyright");
    reveal_strlit("registeredsymbol");
    reveal_strlit("bullet");
    reveal_strlit("minus");
    assert("code"@.len() == 4);
    assert("samp"@.len() == 4);
    assert("file"@.len() == 4);
    assert("command"@.len() == 7);
    assert("option"@.len() == 6);
    assert("env"@.len() == 3);
    assert("kbd"@.len() == 3);
    assert("key"@.len() == 3);
    assert("verb"@.len() == 4);
    assert("t"@.len() == 1);
    assert("sc"@.len() == 2);
    assert("indicateurl"@.len() == 11);
    assert("math"@.len() == 4);
    assert("emph"@.len() == 4);
    assert("i"@.len() == 1);
    assert("var"@.len() == 3);
    assert("dfn"@.len() == 3);
    assert("cite"@.len() == 4);
    assert("slanted"@.len() == 7);
    assert("strong"@.len() == 6);
    assert("b"@.len() == 1);
    assert("email"@.len() == 5);
    assert("url"@.len() == 3);
    assert("uref"@.len() == 4);
    assert("ref"@.len() == 3);
    assert("xref"@.len() == 4);
    assert("pxref"@.len() == 5);
    assert("w"@.len() == 1);
    assert("asis"@.len() == 4);
    assert("r"@.len() == 1);
    assert("footnote"@.len() == 8);
    assert("dmn"@.len() == 3);
    assert("value"@.len() == 5);
    assert("anchor"@.len() == 6);
    assert("today"@.len() == 5);
    assert("dots"@.len() == 4);
    assert("enddots"@.len() == 7);
    assert("copyright"@.len() == 9);
    assert("registeredsymbol"@.len() == 16);
    assert("bullet"@.len() == 6);
    assert("minus"@.len() == 5);
    assert("dots"@[0] != "code"@[0]);
    assert("dots"@[0] != "samp"@[0]);
    assert("dots"@[0] != "file"@[0]);
    assert("dots"@[0] != "verb"@[0]);
    assert("dots"@[0] != "math"@[0]);
    assert("dots"@[0] != "emph"@[0]);
    assert("dots"@[0] != "cite"@[0]);
    assert("dots"@[0] != "uref"@[0]);
    assert("dots"@[0] != "xref"@[0]);
    assert("dots"@[0] != "asis"@[0]);
    assert("enddots"@[0] != "command"@[0]);
    assert("enddots"@[0] != "slanted"@[0]);
    assert("bullet"@[0] != "option"@[0]);
    assert("bullet"@[0] != "strong"@[0]);
    assert("bullet"@[0] != "anchor"@[0]);
    assert("minus"@[0] != "email"@[0]);
    assert("minus"@[0] != "pxref"@[0]);
    assert("minus"@[0] != "value"@[0]);
    assert("minus"@[0] != "today"@[0]);
}

/// The commands for the marks of examples show them.
pub proof fn law_symbols_of_examples()
    ensures
        is_shown_as("result"@, "⇒"@),
        is_shown_as("expansion"@, "→"@),
        is_shown_as("arrow"@, "→"@),
        is_shown_as("error"@, "error→"@),
        is_shown_as("point"@, "∗"@),
        is_shown_as("equiv"@, "≡"@),
{
    reveal_strlit("code");
    reveal_strlit("samp");
    reveal_strlit("file");
    reveal_strlit("command");
    reveal_strlit("option");
    reveal_strlit("env");
    reveal_strlit("kbd");
    reveal_strlit("key");
    reveal_strlit("verb");
    reveal_strlit("t");
    reveal_strlit("sc");
    reveal_strlit("indicateurl");
    reveal_strlit("math");
    reveal_strlit("emph");
    reveal_strlit("i");
    reveal_strlit("var");
    reveal_strlit("dfn");
    reveal_strlit("cite");
    reveal_strlit("slanted");
    reveal_strlit("strong");
    reveal_strlit("b");
    reveal_strlit("email");
    reveal_strlit("url");
    reveal_strlit("uref");
    reveal_strlit("ref");
    reveal_strlit("xref");
    reveal_strlit("pxref");
    reveal_strlit("w");
    reveal_strlit("asis");
    reveal_strlit("r");
    reveal_strlit("footnote");
    reveal_strlit("dmn");
    reveal_strlit("value");
    reveal_strlit("anchor");
    reveal_strlit("today");
    reveal_strlit("dots");
    reveal_strlit("enddots");
    reveal_strlit("copyright");
    reveal_strlit("registeredsymbol");
    reveal_strlit("bullet");
    reveal_strlit("minus");
    reveal_strlit("result");
    reveal_strlit("expansion");
    reveal_strlit("arrow");
    reveal_strlit("error");
    reveal_strlit("point");
    reveal_strlit("equiv");
    assert("code"@.len() == 4);
    assert("samp"@.len() == 4);
    assert("file"@.len() == 4);
    assert("command"@.len() == 7);
    assert("option"@.len() == 6);
    assert("env"@.len() == 3);
    assert("kbd"@.len() == 3);
    assert("key"@.len() == 3);
    assert("verb"@.len() == 4);
    assert("t"@.len() == 1);
    assert("sc"@.len() == 2);
    assert("indicateurl"@.len() == 11);
    assert("math"@.len() == 4);
    assert("emph"@.len() == 4);
    assert("i"@.len() == 1);
    assert("var"@.len() == 3);
    assert("dfn"@.len() == 3);
    assert("cite"@.len() == 4);
    assert("slanted"@.len() == 7);
    assert("strong"@.len() == 6);
    assert("b"@.len() == 1);
    assert("email"@.len() == 5);
    assert("url"@.len() == 3);
    assert("uref"@.len() == 4);
    assert("ref"@.len() == 3);
    assert("xref"@.len() == 4);
    assert("pxref"@.len() == 5);
    assert("w"@.len() == 1);
    assert("asis"@.len() == 4);
    assert("r"@.len() == 1);
    assert("footnote"@.len() == 8);
    assert("dmn"@.len() == 3);
    assert("value"@.len() == 5);
    assert("anchor"@.len() == 6);
    assert("today"@.len() == 5);
    assert("dots"@.len() == 4);
    assert("enddots"@.len() == 7);
    assert("copyright"@.len() == 9);
    assert("registeredsymbol"@.len() == 16);
    assert("bullet"@.len() == 6);
    assert("minus"@.len() == 5);
    assert("result"@.len() == 6);
    assert("expansion"@.len() == 9);
    assert("arrow"@.len() == 5);
    assert("error"@.len() == 5);
    assert("point"@.len() == 5);
    assert("equiv"@.len() == 5);
    assert("result"@[0] != "option"@[0]);
    assert("result"@[0] != "strong"@[0]);
    assert("result"@[0] != "anchor"@[0]);
    assert("result"@[0] != "bullet"@[0]);
    assert("expansion"@[0] != "copyright"@[0]);
    assert("arrow"@[0] != "email"@[0]);
    assert("arrow"@[0] != "pxref"@[0]);
    assert("arrow"@[0] != "value"@[0]);
    assert("arrow"@[0] != "today"@[0]);
    assert("arrow"@[0] != "minus"@[0]);
    assert("arrow"@[0] != "error"@[0]);
    assert("arrow"@[0] != "point"@[0]);
    assert("arrow"@[0] != "equiv"@[0]);
    assert("error"@[1] != "email"@[1]);
    assert("error"@[0] != "pxref"@[0]);
    assert("error"@[0] != "value"@[0]);
    assert("error"@[0] != "today"@[0]);
    assert("error"@[0] != "minus"@[0]);
    assert("error"@[0] != "point"@[0]);
    assert("error"@[1] != "equiv"@[1]);
    assert("point"@[0] != "email"@[0]);
    assert("point"@[1] != "pxref"@[1]);
    assert("point"@[0] != "value"@[0]);
    assert("point"@[0] != "today"@[0]);
    assert("point"@[0] != "minus"@[0]);
    assert("point"@[0] != "equiv"@[0]);
    assert("equiv"@[1] != "email"@[1]);
    assert("equiv"@[0] != "pxref"@[0]);
    assert("equiv"@[0] != "value"@[0]);
    assert("equiv"@[0] != "today"@[0]);
    assert("equiv"@[0] != "minus"@[0]);
}

/// The commands for a comma and for the names of programs show them.
pub proof fn law_symbols_of_names()
    ensures
        is_shown_as("tie"@, ","@),
        is_shown_as("comma"@, ","@),
        is_shown_as("TeX"@, "TeX"@),
        is_shown_as("LaTeX"@, "LaTeX"@),
{
    reveal_strlit("code");
    reveal_strlit("samp");
    reveal_strlit("file");
    reveal_strlit("command");
    reveal_strlit("option");
    reveal_strlit("env");
    reveal_strlit("kbd");
    reveal_strlit("key");
    reveal_strlit("verb");
    reveal_strlit("t");
    reveal_strlit("sc");
    reveal_strlit("indicateurl");
    reveal_strlit("math");
    reveal_strlit("emph");
    reveal_strlit("i");
    reveal_strlit("var");
    reveal_strlit("dfn");
    reveal_strlit("cite");
    reveal_strlit("slanted");
    reveal_strlit("strong");
    reveal_strlit("b");
    reveal_strlit("email");
    reveal_strlit("url");
    reveal_strlit("uref");
    reveal_strlit("ref");
    reveal_strlit("xref");
    reveal_strlit("pxref");
    reveal_strlit("w");
    reveal_strlit("asis");
    reveal_strlit("r");
    reveal_strlit("footnote");
    reveal_strlit("dmn");
    reveal_strlit("value");
    reveal_strlit("anchor");
    reveal_strlit("today");
    reveal_strlit("dots");
    reveal_strlit("enddots");
    reveal_strlit("copyright");
    reveal_strlit("registeredsymbol");
    reveal_strlit("bullet");
    reveal_strlit("minus");
    reveal_strlit("result");
    reveal_strlit("expansion");
    reveal_strlit("arrow");
    reveal_strlit("error");
    reveal_strlit("point");
    reveal_strlit("equiv");
    reveal_strlit("tie");
    reveal_strlit("comma");
    reveal_strlit("TeX");
    reveal_strlit("LaTeX");
    assert("code"@.len() == 4);
    assert("samp"@.len() == 4);
    assert("file"@.len() == 4);
    assert("command"@.len() == 7);
    assert("option"@.len() == 6);
    assert("env"@.len() == 3);
    assert("kbd"@.len() == 3);
    assert("key"@.len() == 3);
    assert("verb"@.len() == 4);
    assert("t"@.len() == 1);
    assert("sc"@.len() == 2);
    assert("indicateurl"@.len() == 11);
    assert("math"@.len() == 4);
    assert("emph"@.len() == 4);
    assert("i"@.len() == 1);
    assert("var"@.len() == 3);
    assert("dfn"@.len() == 3);
    assert("cite"@.len() == 4);
    assert("slanted"@.len() == 7);
    assert("strong"@.len() == 6);
    assert("b"@.len() == 1);
    assert("email"@.len() == 5);
    assert("url"@.len() == 3);
    assert("uref"@.len() == 4);
    assert("ref"@.len() == 3);
    assert("xref"@.len() == 4);
    assert("pxref"@.len() == 5);
    assert("w"@.len() == 1);
    assert("asis"@.len() == 4);
    assert("r"@.len() == 1);
    assert("footnote"@.len() == 8);
    assert("dmn"@.len() == 3);
    assert("value"@.len() == 5);
    assert("anchor"@.len() == 6);
    assert("today"@.len() == 5);
    assert("dots"@.len() == 4);
    assert("enddots"@.len() == 7);
    assert("copyright"@.len() == 9);
    assert("registeredsymbol"@.len() == 16);
    assert("bullet"@.len() == 6);
    assert("minus"@.len() == 5);
    assert("result"@.len() == 6);
    assert("expansion"@.len() == 9);
    assert("arrow"@.len() == 5);
    assert("error"@.len() == 5);
    assert("point"@.len() == 5);
    assert("equiv"@.len() == 5);
    assert("tie"@.len() == 3);
    assert("comma"@.len() == 5);
    assert("TeX"@.len() == 3);
    assert("LaTeX"@.len() == 5);
    assert("tie"@[0] != "env"@[0]);
    assert("tie"@[0] != "kbd"@[0]);
    assert("tie"@[0] != "key"@[0]);
    assert("tie"@[0] != "var"@[0]);
    assert("tie"@[0] != "dfn"@[0]);
    assert("tie"@[0] != "url"@[0]);
    assert("tie"@[0] != "ref"@[0]);
    assert("tie"@[0] != "dmn"@[0]);
    assert("tie"@[0] != "TeX"@[0]);
    assert("comma"@[0] != "email"@[0]);
    assert("comma"@[0] != "pxref"@[0]);
    assert("comma"@[0] != "value"@[0]);
    assert("comma"@[0] != "today"@[0]);
    assert("comma"@[0] != "minus"@[0]);
    assert("comma"@[0] != "arrow"@[0]);
    assert("comma"@[0] != "error"@[0]);
    assert("comma"@[0] != "point"@[0]);
    assert("comma"@[0] != "equiv"@[0]);
    assert("comma"@[0] != "LaTeX"@[0]);
    assert("TeX"@[0] != "env"@[0]);
    assert("TeX"@[0] != "kbd"@[0]);
    assert("TeX"@[0] != "key"@[0]);
    assert("TeX"@[0] != "var"@[0]);
    assert("TeX"@[0] != "dfn"@[0]);
    assert("TeX"@[0] != "url"@[0]);
    assert("TeX"@[0] != "ref"@[0]);
    assert("TeX"@[0] != "dmn"@[0]);
    assert("LaTeX"@[0] != "email"@[0]);
    assert("LaTeX"@[0] != "pxref"@[0]);
    assert("LaTeX"@[0] != "value"@[0]);
    assert("LaTeX"@[0] != "today"@[0]);
    assert("LaTeX"@[0] != "minus"@[0]);
    assert("LaTeX"@[0] != "arrow"@[0]);
    assert("LaTeX"@[0] != "error"@[0]);
    assert("LaTeX"@[0] != "point"@[0]);
    assert("LaTeX"@[0] != "equiv"@[0]);
}

/// A symbol is set in the style around it, whatever stands in the braces.
pub proof fn law_symbol_is_shown(l: Layout, command: Seq<char>, glyph: Seq<char>, arg: Seq<char>, base: Style)
    requires
        is_shown_as(command, glyph),
    ensures
        braced(l, command, arg, base) == l.span(glyph, base),
{
}

/// The escapes: `@.`, `@!` and `@?` show the character, `@` before white space shows a blank, `@:`,
/// `@-` and `@/` show nothing, and `@*` ends the line.
pub proof fn law_escapes(l: Layout, before: Seq<char>, c: char, rest: Seq<char>, base: Style)
    ensures
        ({
            let x = inlined(l, before, seq!['@', c] + rest, base);
            &&& c == '@' || c == '{' || c == '}' || c == '.' || c == '!' || c == '?' ==> x == inlined(
                l,
                before.push(c),
                rest,
                base,
            )
            &&& c == ' ' || c == '\t' || c == '\n' ==> x == inlined(l, before.push(' '), rest, base)
            &&& c == ':' || c == '-' || c == '/' ==> x == inlined(l, before, rest, base)
            &&& c == '*' ==> x == inlined(l.span(before, base).ended(), Seq::empty(), rest, base)
        }),
{
    let t = seq!['@', c] + rest;
    assert(t[0] == '@' && t[1] == c);
    assert(t.skip(2) =~= rest);
}

proof fn lemma_name(t: Seq<char>, n: int)
    requires
        0 <= n < t.len(),
        forall|k: int| 0 <= k < n ==> is_alphanumeric(#[trigger] t[k]),
        !is_alphanumeric(t[n]),
    ensures
        name_len(t) == n,
    decreases n,
{
    if n > 0 {
        assert(is_alphanumeric(t[0]));
        let tail = t.drop_first();
        assert forall|k: int| 0 <= k < n - 1 implies is_alphanumeric(#[trigger] tail[k]) by {
            assert(tail[k] == t[k + 1]);
        }
        assert(tail[n - 1] == t[n]);
        lemma_name(tail, n - 1);
    }
}

proof fn lemma_group(t: Seq<char>, i: int, end: int)
    requires
        0 <= i <= end < t.len(),
        forall|k: int| i <= k < end ==> #[trigger] t[k] != '{' && t[k] != '}',
        t[end] == '}',
    ensures
        group_end(t, i, 1) == end,
    decreases end - i,
{
    if i < end {
        lemma_group(t, i + 1, end);
    }
}

proof fn lemma_whole(t: Seq<char>, name: Seq<char>, arg: Seq<char>, rest: Seq<char>)
    requires
        t == seq!['@'] + name + seq!['{'] + arg + seq!['}'] + rest,
        name.len() > 0,
        forall|k: int| 0 <= k < name.len() ==> is_alphanumeric(#[trigger] name[k]),
        !is_alphanumeric('{'),
        forall|k: int| 0 <= k < arg.len() ==> #[trigger] arg[k] != '{' && arg[k] != '}',
    ensures
        t.len() > 1,
        t[0] == '@',
        t[1] == name[0],
        has_argument(t.skip(1)),
        name_of(t.skip(1)) == name,
        command_argument(t.skip(1)) == arg,
        arg.len() < t.len(),
        0 <= command_end(t.skip(1)) <= t.skip(1).len(),
        t.skip(1).skip(command_end(t.skip(1))) == rest,
{
    let s = t.skip(1);
    let n = name.len() as int;
    let e = n + 1 + arg.len();
    assert(t[0] == '@' && t[1] == name[0]);
    assert forall|k: int| 0 <= k < n implies is_alphanumeric(#[trigger] s[k]) by {
        assert(s[k] == name[k]);
    }
    assert(s[n] == '{');
    lemma_name(s, n);
    assert forall|k: int| n + 1 <= k < e implies #[trigger] s[k] != '{' && s[k] != '}' by {
        assert(s[k] == arg[k - n - 1]);
    }
    assert(s[e] == '}');
    lemma_group(s, n + 1, e);
    assert(name_of(s) =~= name);
    assert(command_argument(s) =~= arg);
    assert(s.skip(e + 1) =~= rest);
    assert(command_end(s) == e + 1);
}

/// A command with braces is read whole: its name, what it encloses, and the text goes on behind the
/// closing brace.
pub proof fn law_command_is_read_whole(
    l: Layout,
    before: Seq<char>,
    name: Seq<char>,
    arg: Seq<char>,
    rest: Seq<char>,
    base: Style,
)
    requires
        name.len() > 0,
        forall|k: int| 0 <= k < name.len() ==> is_alphanumeric(#[trigger] name[k]),
        !is_alphanumeric('{'),
        escape_of(name[0]) is Command,
        forall|k: int| 0 <= k < arg.len() ==> #[trigger] arg[k] != '{' && arg[k] != '}',
    ensures
        inlined(l, before, seq!['@'] + name + seq!['{'] + arg + seq!['}'] + rest, base) == inlined(
            braced(l.span(before, base), name, arg, base),
            Seq::empty(),
            rest,
            base,
        ),
{
    let t = seq!['@'] + name + seq!['{'] + arg + seq!['}'] + rest;
    lemma_whole(t, name, arg, rest);
    let s = t.skip(1);
    assert(inlined(l, before, t, base) == inlined(
        braced(l.span(before, base), name, arg, base),
        Seq::empty(),
        s.skip(command_end(s)),
        base,
    ));
}

/// The levels of the sectioning commands: each `sub` goes one level down.
pub proof fn law_levels_of_headings(word: Seq<char>)
    ensures
        word == "top"@ || word == "chapter"@ || word == "unnumbered"@ || word == "appendix"@
            || word == "majorheading"@ || word == "chapheading"@
            || word == "centerchap"@ ==> command_of(word) == Command::Heading(1),
        word == "section"@ || word == "unnumberedsec"@ || word == "appendixsec"@
            || word == "appendixsection"@
            || word == "heading"@ ==> command_of(word) == Command::Heading(2),
        word == "subsection"@ || word == "unnumberedsubsec"@ || word == "appendixsubsec"@
            || word == "subheading"@ ==> command_of(word) == Command::Heading(3),
        word == "subsubsection"@ || word == "unnumberedsubsubsec"@ || word == "appendixsubsubsec"@
            || word == "subsubheading"@ ==> command_of(word) == Command::Heading(4),
{
    reveal_strlit("top");
    reveal_strlit("chapter");
    reveal_strlit("unnumbered");
    reveal_strlit("appendix");
    reveal_strlit("majorheading");
    reveal_strlit("chapheading");
    reveal_strlit("centerchap");
    reveal_strlit("section");
    reveal_strlit("unnumberedsec");
    reveal_strlit("appendixsec");
    reveal_strlit("appendixsection");
    reveal_strlit("heading");
    assert("top"@.len() == 3);
    assert("chapter"@.len() == 7);
    assert("unnumbered"@.len() == 10);
    assert("appendix"@.len() == 8);
    assert("majorheading"@.len() == 12);
    assert("chapheading"@.len() == 11);
    assert("centerchap"@.len() == 10);
    assert("section"@.len() == 7);
    assert("unnumberedsec"@.len() == 13);
    assert("appendixsec"@.len() == 11);
    assert("appendixsection"@.len() == 15);
    assert("heading"@.len() == 7);
    assert("section"@[0] != "chapter"@[0]);
    assert("appendixsec"@[0] != "chapheading"@[0]);
    assert("heading"@[0] != "chapter"@[0]);
    reveal_strlit("top");
    reveal_strlit("chapter");
    reveal_strlit("unnumbered");
    reveal_strlit("appendix");
    reveal_strlit("majorheading");
    reveal_strlit("chapheading");
    reveal_strlit("centerchap");
    reveal_strlit("section");
    reveal_strlit("unnumberedsec");
    reveal_strlit("appendixsec");
    reveal_strlit("appendixsection");
    reveal_strlit("heading");
    reveal_strlit("subsection");
    reveal_strlit("unnumberedsubsec");
    reveal_strlit("appendixsubsec");
    reveal_strlit("subheading");
    assert("top"@.len() == 3);
    assert("chapter"@.len() == 7);
    assert("unnumbered"@.len() == 10);
    assert("appendix"@.len() == 8);
    assert("majorheading"@.len() == 12);
    assert("chapheading"@.len() == 11);
    assert("centerchap"@.len() == 10);
    assert("section"@.len() == 7);
    assert("unnumberedsec"@.len() == 13);
    assert("appendixsec"@.len() == 11);
    assert("appendixsection"@.len() == 15);
    assert("heading"@.len() == 7);
    assert("subsection"@.len() == 10);
    assert("unnumberedsubsec"@.len() == 16);
    assert("appendixsubsec"@.len() == 14);
    assert("subheading"@.len() == 10);
    assert("subsection"@[0] != "unnumbered"@[0]);
    assert("subsection"@[0] != "centerchap"@[0]);
    assert("subheading"@[0] != "unnumbered"@[0]);
    assert("subheading"@[0] != "centerchap"@[0]);
    reveal_strlit("top");
    reveal_strlit("chapter");
    reveal_strlit("unnumbered");
    reveal_strlit("appendix");
    reveal_strlit("majorheading");
    reveal_strlit("chapheading");
    reveal_strlit("centerchap");
    reveal_strlit("section");
    reveal_strlit("unnumberedsec");
    reveal_strlit("appendixsec");
    reveal_strlit("appendixsection");
    reveal_strlit("heading");
    reveal_strlit("subsection");
    reveal_strlit("unnumberedsubsec");
    reveal_strlit("appendixsubsec");
    reveal_strlit("subheading");
    reveal_strlit("subsubsection");
    reveal_strlit("unnumberedsubsubsec");
    reveal_strlit("appendixsubsubsec");
    reveal_strlit("subsubheading");
    assert("top"@.len() == 3);
    assert("chapter"@.len() == 7);
    assert("unnumbered"@.len() == 10);
    assert("appendix"@.len() == 8);
    assert("majorheading"@.len() == 12);
    assert("chapheading"@.len() == 11);
    assert("centerchap"@.len() == 10);
    assert("section"@.len() == 7);
    assert("unnumberedsec"@.len() == 13);
    assert("appendixsec"@.len() == 11);
    assert("appendixsection"@.len() == 15);
    assert("heading"@.len() == 7);
    assert("subsection"@.len() == 10);
    assert("unnumberedsubsec"@.len() == 16);
    assert("appendixsubsec"@.len() == 14);
    assert("subheading"@.len() == 10);
    assert("subsubsection"@.len() == 13);
    assert("unnumberedsubsubsec"@.len() == 19);
    assert("appendixsubsubsec"@.len() == 17);
    assert("subsubheading"@.len() == 13);
    assert("subsubsection"@[0] != "unnumberedsec"@[0]);
    assert("subsubheading"@[0] != "unnumberedsec"@[0]);
}

} // verus!
