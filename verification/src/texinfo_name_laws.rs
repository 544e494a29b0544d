//! What each command of a Texinfo line is for.

use crate::texinfo::{command_of, Block, Command};
use vstd::prelude::*;

verus! {

/// The commands that open and close blocks, and the comments.
#[verifier::rlimit(40)]
pub proof fn law_block_commands()
    ensures
        command_of("c"@) == Command::Nothing,
        command_of("comment"@) == Command::Nothing,
        command_of("end"@) == Command::End,
        command_of("multitable"@) == Command::Multitable,
        command_of("example"@) == Command::Open(Block::Verbatim),
        command_of("smallexample"@) == Command::Open(Block::Verbatim),
        command_of("verbatim"@) == Command::Open(Block::Verbatim),
        command_of("lisp"@) == Command::Open(Block::Verbatim),
        command_of("smalllisp"@) == Command::Open(Block::Verbatim),
        command_of("display"@) == Command::Open(Block::Verbatim),
        command_of("format"@) == Command::Open(Block::Verbatim),
        command_of("itemize"@) == Command::Open(Block::Itemize),
        command_of("enumerate"@) == Command::Open(Block::Enumerate(1)),
        command_of("table"@) == Command::Open(Block::Table),
        command_of("vtable"@) == Command::Open(Block::Table),
        command_of("ftable"@) == Command::Open(Block::Table),
        command_of("menu"@) == Command::Open(Block::Menu),
        command_of("quotation"@) == Command::Open(Block::Quotation),
        command_of("smallquotation"@) == Command::Open(Block::Quotation),
{
    reveal_strlit("top");
    reveal_strlit("chapter");
    reveal_strlit("unnumbered");
    reveal_strlit("appendix");
    reveal_strlit("majorheading");
    reveal_strlit("chapheading");
    reveal_strlit("centerchap");
    reveal_strlit("section");
    reveal_strlit("unnumberedsec");
    reveal_strlit("appendixsec");
    reveal_strlit("appendixsection");
    reveal_strlit("heading");
    reveal_strlit("subsection");
    reveal_strlit("unnumberedsubsec");
    reveal_strlit("appendixsubsec");
    reveal_strlit("subheading");
    reveal_strlit("subsubsection");
    reveal_strlit("unnumberedsubsubsec");
    reveal_strlit("appendixsubsubsec");
    reveal_strlit("subsubheading");
    reveal_strlit("c");
    reveal_strlit("comment");
    reveal_strlit("end");
    reveal_strlit("multitable");
    reveal_strlit("example");
    reveal_strlit("smallexample");
    reveal_strlit("verbatim");
    reveal_strlit("lisp");
    reveal_strlit("smalllisp");
    reveal_strlit("display");
    reveal_strlit("format");
    reveal_strlit("itemize");
    reveal_strlit("enumerate");
    reveal_strlit("table");
    reveal_strlit("vtable");
    reveal_strlit("ftable");
    reveal_strlit("menu");
    reveal_strlit("quotation");
    reveal_strlit("smallquotation");
    assert("top"@.len() == 3);
    assert("chapter"@.len() == 7);
    assert("unnumbered"@.len() == 10);
    assert("appendix"@.len() == 8);
    assert("majorheading"@.len() == 12);
    assert("chapheading"@.len() == 11);
    assert("centerchap"@.len() == 10);
    assert("section"@.len() == 7);
    assert("unnumberedsec"@.len() == 13);
    assert("appendixsec"@.len() == 11);
    assert("appendixsection"@.len() == 15);
    assert("heading"@.len() == 7);
    assert("subsection"@.len() == 10);
    assert("unnumberedsubsec"@.len() == 16);
    assert("appendixsubsec"@.len() == 14);
    assert("subheading"@.len() == 10);
    assert("subsubsection"@.len() == 13);
    assert("unnumberedsubsubsec"@.len() == 19);
    assert("appendixsubsubsec"@.len() == 17);
    assert("subsubheading"@.len() == 13);
    assert("c"@.len() == 1);
    assert("comment"@.len() == 7);
    assert("end"@.len() == 3);
    assert("multitable"@.len() == 10);
    assert("example"@.len() == 7);
    assert("smallexample"@.len() == 12);
    assert("verbatim"@.len() == 8);
    assert("lisp"@.len() == 4);
    assert("smalllisp"@.len() == 9);
    assert("display"@.len() == 7);
    assert("format"@.len() == 6);
    assert("itemize"@.len() == 7);
    assert("enumerate"@.len() == 9);
    assert("table"@.len() == 5);
    assert("vtable"@.len() == 6);
    assert("ftable"@.len() == 6);
    assert("menu"@.len() == 4);
    assert("quotation"@.len() == 9);
    assert("smallquotation"@.len() == 14);
    assert("comment"@[1] != "chapter"@[1]);
    assert("comment"@[0] != "section"@[0]);
    assert("comment"@[0] != "heading"@[0]);
    assert("comment"@[0] != "example"@[0]);
    assert("comment"@[0] != "display"@[0]);
    assert("comment"@[0] != "itemize"@[0]);
    assert("end"@[0] != "top"@[0]);
    assert("multitable"@[0] != "unnumbered"@[0]);
    assert("multitable"@[0] != "centerchap"@[0]);
    assert("multitable"@[0] != "subsection"@[0]);
    assert("multitable"@[0] != "subheading"@[0]);
    assert("example"@[0] != "chapter"@[0]);
    assert("example"@[0] != "section"@[0]);
    assert("example"@[0] != "heading"@[0]);
    assert("example"@[0] != "display"@[0]);
    assert("example"@[0] != "itemize"@[0]);
    assert("smallexample"@[0] != "majorheading"@[0]);
    assert("verbatim"@[0] != "appendix"@[0]);
    assert("lisp"@[0] != "menu"@[0]);
    assert("smalllisp"@[0] != "enumerate"@[0]);
    assert("smalllisp"@[0] != "quotation"@[0]);
    assert("display"@[0] != "chapter"@[0]);
    assert("display"@[0] != "section"@[0]);
    assert("display"@[0] != "heading"@[0]);
    assert("display"@[0] != "itemize"@[0]);
    assert("format"@[0] != "vtable"@[0]);
    assert("format"@[1] != "ftable"@[1]);
    assert("itemize"@[0] != "chapter"@[0]);
    assert("itemize"@[0] != "section"@[0]);
    assert("itemize"@[0] != "heading"@[0]);
    assert("enumerate"@[0] != "quotation"@[0]);
    assert("vtable"@[0] != "ftable"@[0]);
    assert("smallquotation"@[0] != "appendixsubsec"@[0]);
}

/// The commands of single lines, and those whose blocks are for print alone.
#[verifier::rlimit(40)]
pub proof fn law_line_commands()
    ensures
        command_of("item"@) == Command::Item,
        command_of("itemx"@) == Command::Item,
        command_of("sp"@) == Command::Space,
        command_of("center"@) == Command::Prose,
        command_of("noindent"@) == Command::Prose,
        command_of("indent"@) == Command::Prose,
        command_of("exdent"@) == Command::Prose,
        command_of("iftex"@) == Command::Skip,
        command_of("tex"@) == Command::Skip,
        command_of("html"@) == Command::Skip,
        command_of("ifhtml"@) == Command::Skip,
        command_of("docbook"@) == Command::Skip,
        command_of("ifdocbook"@) == Command::Skip,
        command_of("xml"@) == Command::Skip,
        command_of("ifxml"@) == Command::Skip,
        command_of("ignore"@) == Command::Skip,
        command_of("ifnotinfo"@) == Command::Skip,
        command_of("titlepage"@) == Command::Skip,
        command_of("copying"@) == Command::Skip,
        command_of("direntry"@) == Command::Skip,
        command_of("documentdescription"@) == Command::Skip,
{
    reveal_strlit("top");
    reveal_strlit("chapter");
    reveal_strlit("unnumbered");
    reveal_strlit("appendix");
    reveal_strlit("majorheading");
    reveal_strlit("chapheading");
    reveal_strlit("centerchap");
    reveal_strlit("section");
    reveal_strlit("unnumberedsec");
    reveal_strlit("appendixsec");
    reveal_strlit("appendixsection");
    reveal_strlit("heading");
    reveal_strlit("subsection");
    reveal_strlit("unnumberedsubsec");
    reveal_strlit("appendixsubsec");
    reveal_strlit("subheading");
    reveal_strlit("subsubsection");
    reveal_strlit("unnumberedsubsubsec");
    reveal_strlit("appendixsubsubsec");
    reveal_strlit("subsubheading");
    reveal_strlit("c");
    reveal_strlit("comment");
    reveal_strlit("end");
    reveal_strlit("multitable");
    reveal_strlit("example");
    reveal_strlit("smallexample");
    reveal_strlit("verbatim");
    reveal_strlit("lisp");
    reveal_strlit("smalllisp");
    reveal_strlit("display");
    reveal_strlit("format");
    reveal_strlit("itemize");
    reveal_strlit("enumerate");
    reveal_strlit("table");
    reveal_strlit("vtable");
    reveal_strlit("ftable");
    reveal_strlit("menu");
    reveal_strlit("quotation");
    reveal_strlit("smallquotation");
    reveal_strlit("item");
    reveal_strlit("itemx");
    reveal_strlit("sp");
    reveal_strlit("center");
    reveal_strlit("noindent");
    reveal_strlit("indent");
    reveal_strlit("exdent");
    reveal_strlit("iftex");
    reveal_strlit("tex");
    reveal_strlit("html");
    reveal_strlit("ifhtml");
    reveal_strlit("docbook");
    reveal_strlit("ifdocbook");
    reveal_strlit("xml");
    reveal_strlit("ifxml");
    reveal_strlit("ignore");
    reveal_strlit("ifnotinfo");
    reveal_strlit("titlepage");
    reveal_strlit("copying");
    reveal_strlit("direntry");
    reveal_strlit("documentdescription");
    assert("top"@.len() == 3);
    assert("chapter"@.len() == 7);
    assert("unnumbered"@.len() == 10);
    assert("appendix"@.len() == 8);
    assert("majorheading"@.len() == 12);
    assert("chapheading"@.len() == 11);
    assert("centerchap"@.len() == 10);
    assert("section"@.len() == 7);
    assert("unnumberedsec"@.len() == 13);
    assert("appendixsec"@.len() == 11);
    assert("appendixsection"@.len() == 15);
    assert("heading"@.len() == 7);
    assert("subsection"@.len() == 10);
    assert("unnumberedsubsec"@.len() == 16);
    assert("appendixsubsec"@.len() == 14);
    assert("subheading"@.len() == 10);
    assert("subsubsection"@.len() == 13);
    assert("unnumberedsubsubsec"@.len() == 19);
    assert("appendixsubsubsec"@.len() == 17);
    assert("subsubheading"@.len() == 13);
    assert("c"@.len() == 1);
    assert("comment"@.len() == 7);
    assert("end"@.len() == 3);
    assert("multitable"@.len() == 10);
    assert("example"@.len() == 7);
    assert("smallexample"@.len() == 12);
    assert("verbatim"@.len() == 8);
    assert("lisp"@.len() == 4);
    assert("smalllisp"@.len() == 9);
    assert("display"@.len() == 7);
    assert("format"@.len() == 6);
    assert("itemize"@.len() == 7);
    assert("enumerate"@.len() == 9);
    assert("table"@.len() == 5);
    assert("vtable"@.len() == 6);
    assert("ftable"@.len() == 6);
    assert("menu"@.len() == 4);
    assert("quotation"@.len() == 9);
    assert("smallquotation"@.len() == 14);
    assert("item"@.len() == 4);
    assert("itemx"@.len() == 5);
    assert("sp"@.len() == 2);
    assert("center"@.len() == 6);
    assert("noindent"@.len() == 8);
    assert("indent"@.len() == 6);
    assert("exdent"@.len() == 6);
    assert("iftex"@.len() == 5);
    assert("tex"@.len() == 3);
    assert("html"@.len() == 4);
    assert("ifhtml"@.len() == 6);
    assert("docbook"@.len() == 7);
    assert("ifdocbook"@.len() == 9);
    assert("xml"@.len() == 3);
    assert("ifxml"@.len() == 5);
    assert("ignore"@.len() == 6);
    assert("ifnotinfo"@.len() == 9);
    assert("titlepage"@.len() == 9);
    assert("copying"@.len() == 7);
    assert("direntry"@.len() == 8);
    assert("documentdescription"@.len() == 19);
    assert("item"@[0] != "lisp"@[0]);
    assert("item"@[0] != "menu"@[0]);
    assert("item"@[0] != "html"@[0]);
    assert("itemx"@[0] != "table"@[0]);
    assert("itemx"@[1] != "iftex"@[1]);
    assert("itemx"@[1] != "ifxml"@[1]);
    assert("center"@[0] != "format"@[0]);
    assert("center"@[0] != "vtable"@[0]);
    assert("center"@[0] != "ftable"@[0]);
    assert("center"@[0] != "indent"@[0]);
    assert("center"@[0] != "exdent"@[0]);
    assert("center"@[0] != "ifhtml"@[0]);
    assert("center"@[0] != "ignore"@[0]);
    assert("noindent"@[0] != "appendix"@[0]);
    assert("noindent"@[0] != "verbatim"@[0]);
    assert("noindent"@[0] != "direntry"@[0]);
    assert("indent"@[0] != "format"@[0]);
    assert("indent"@[0] != "vtable"@[0]);
    assert("indent"@[0] != "ftable"@[0]);
    assert("indent"@[0] != "exdent"@[0]);
    assert("indent"@[1] != "ifhtml"@[1]);
    assert("indent"@[1] != "ignore"@[1]);
    assert("exdent"@[0] != "format"@[0]);
    assert("exdent"@[0] != "vtable"@[0]);
    assert("exdent"@[0] != "ftable"@[0]);
    assert("exdent"@[0] != "ifhtml"@[0]);
    assert("exdent"@[0] != "ignore"@[0]);
    assert("iftex"@[0] != "table"@[0]);
    assert("iftex"@[2] != "ifxml"@[2]);
    assert("tex"@[1] != "top"@[1]);
    assert("tex"@[0] != "end"@[0]);
    assert("tex"@[0] != "xml"@[0]);
    assert("html"@[0] != "lisp"@[0]);
    assert("html"@[0] != "menu"@[0]);
    assert("ifhtml"@[0] != "format"@[0]);
    assert("ifhtml"@[0] != "vtable"@[0]);
    assert("ifhtml"@[0] != "ftable"@[0]);
    assert("ifhtml"@[1] != "ignore"@[1]);
    assert("docbook"@[0] != "chapter"@[0]);
    assert("docbook"@[0] != "section"@[0]);
    assert("docbook"@[0] != "heading"@[0]);
    assert("docbook"@[0] != "comment"@[0]);
    assert("docbook"@[0] != "example"@[0]);
    assert("docbook"@[1] != "display"@[1]);
    assert("docbook"@[0] != "itemize"@[0]);
    assert("docbook"@[0] != "copying"@[0]);
    assert("ifdocbook"@[0] != "smalllisp"@[0]);
    assert("ifdocbook"@[0] != "enumerate"@[0]);
    assert("ifdocbook"@[0] != "quotation"@[0]);
    assert("ifdocbook"@[2] != "ifnotinfo"@[2]);
    assert("ifdocbook"@[0] != "titlepage"@[0]);
    assert("xml"@[0] != "top"@[0]);
    assert("xml"@[0] != "end"@[0]);
    assert("ifxml"@[0] != "table"@[0]);
    assert("ignore"@[0] != "format"@[0]);
    assert("ignore"@[0] != "vtable"@[0]);
    assert("ignore"@[0] != "ftable"@[0]);
    assert("ifnotinfo"@[0] != "smalllisp"@[0]);
    assert("ifnotinfo"@[0] != "enumerate"@[0]);
    assert("ifnotinfo"@[0] != "quotation"@[0]);
    assert("ifnotinfo"@[0] != "titlepage"@[0]);
    assert("titlepage"@[0] != "smalllisp"@[0]);
    assert("titlepage"@[0] != "enumerate"@[0]);
    assert("titlepage"@[0] != "quotation"@[0]);
    assert("copying"@[1] != "chapter"@[1]);
    assert("copying"@[0] != "section"@[0]);
    assert("copying"@[0] != "heading"@[0]);
    assert("copying"@[2] != "comment"@[2]);
    assert("copying"@[0] != "example"@[0]);
    assert("copying"@[0] != "display"@[0]);
    assert("copying"@[0] != "itemize"@[0]);
    assert("direntry"@[0] != "appendix"@[0]);
    assert("direntry"@[0] != "verbatim"@[0]);
    assert("documentdescription"@[0] != "unnumberedsubsubsec"@[0]);
}

/// The sections that are shown anyway have nothing of their own to show.
#[verifier::rlimit(40)]
pub proof fn law_sections_for_everyone()
    ensures
        command_of("ifinfo"@) == Command::Nothing,
        command_of("ifnottex"@) == Command::Nothing,
        command_of("ifnothtml"@) == Command::Nothing,
        command_of("ifnotdocbook"@) == Command::Nothing,
        command_of("ifnotxml"@) == Command::Nothing,
        command_of("ifnotplaintext"@) == Command::Nothing,
        command_of("ifplaintext"@) == Command::Nothing,
{
    reveal_strlit("top");
    reveal_strlit("chapter");
    reveal_strlit("unnumbered");
    reveal_strlit("appendix");
    reveal_strlit("majorheading");
    reveal_strlit("chapheading");
    reveal_strlit("centerchap");
    reveal_strlit("section");
    reveal_strlit("unnumberedsec");
    reveal_strlit("appendixsec");
    reveal_strlit("appendixsection");
    reveal_strlit("heading");
    reveal_strlit("subsection");
    reveal_strlit("unnumberedsubsec");
    reveal_strlit("appendixsubsec");
    reveal_strlit("subheading");
    reveal_strlit("subsubsection");
    reveal_strlit("unnumberedsubsubsec");
    reveal_strlit("appendixsubsubsec");
    reveal_strlit("subsubheading");
    reveal_strlit("c");
    reveal_strlit("comment");
    reveal_strlit("end");
    reveal_strlit("multitable");
    reveal_strlit("example");
    reveal_strlit("smallexample");
    reveal_strlit("verbatim");
    reveal_strlit("lisp");
    reveal_strlit("smalllisp");
    reveal_strlit("display");
    reveal_strlit("format");
    reveal_strlit("itemize");
    reveal_strlit("enumerate");
    reveal_strlit("table");
    reveal_strlit("vtable");
    reveal_strlit("ftable");
    reveal_strlit("menu");
    reveal_strlit("quotation");
    reveal_strlit("smallquotation");
    reveal_strlit("item");
    reveal_strlit("itemx");
    reveal_strlit("sp");
    reveal_strlit("center");
    reveal_strlit("noindent");
    reveal_strlit("indent");
    reveal_strlit("exdent");
    reveal_strlit("iftex");
    reveal_strlit("tex");
    reveal_strlit("html");
    reveal_strlit("ifhtml");
    reveal_strlit("docbook");
    reveal_strlit("ifdocbook");
    reveal_strlit("xml");
    reveal_strlit("ifxml");
    reveal_strlit("ignore");
    reveal_strlit("ifnotinfo");
    reveal_strlit("titlepage");
    reveal_strlit("copying");
    reveal_strlit("direntry");
    reveal_strlit("documentdescription");
    reveal_strlit("ifinfo");
    reveal_strlit("ifnottex");
    reveal_strlit("ifnothtml");
    reveal_strlit("ifnotdocbook");
    reveal_strlit("ifnotxml");
    reveal_strlit("ifnotplaintext");
    reveal_strlit("ifplaintext");
    assert("top"@.len() == 3);
    assert("chapter"@.len() == 7);
    assert("unnumbered"@.len() == 10);
    assert("appendix"@.len() == 8);
    assert("majorheading"@.len() == 12);
    assert("chapheading"@.len() == 11);
    assert("centerchap"@.len() == 10);
    assert("section"@.len() == 7);
    assert("unnumberedsec"@.len() == 13);
    assert("appendixsec"@.len() == 11);
    assert("appendixsection"@.len() == 15);
    assert("heading"@.len() == 7);
    assert("subsection"@.len() == 10);
    assert("unnumberedsubsec"@.len() == 16);
    assert("appendixsubsec"@.len() == 14);
    assert("subheading"@.len() == 10);
    assert("subsubsection"@.len() == 13);
    assert("unnumberedsubsubsec"@.len() == 19);
    assert("appendixsubsubsec"@.len() == 17);
    assert("subsubheading"@.len() == 13);
    assert("c"@.len() == 1);
    assert("comment"@.len() == 7);
    assert("end"@.len() == 3);
    assert("multitable"@.len() == 10);
    assert("example"@.len() == 7);
    assert("smallexample"@.len() == 12);
    assert("verbatim"@.len() == 8);
    assert("lisp"@.len() == 4);
    assert("smalllisp"@.len() == 9);
    assert("display"@.len() == 7);
    assert("format"@.len() == 6);
    assert("itemize"@.len() == 7);
    assert("enumerate"@.len() == 9);
    assert("table"@.len() == 5);
    assert("vtable"@.len() == 6);
    assert("ftable"@.len() == 6);
    assert("menu"@.len() == 4);
    assert("quotation"@.len() == 9);
    assert("smallquotation"@.len() == 14);
    assert("item"@.len() == 4);
    assert("itemx"@.len() == 5);
    assert("sp"@.len() == 2);
    assert("center"@.len() == 6);
    assert("noindent"@.len() == 8);
    assert("indent"@.len() == 6);
    assert("exdent"@.len() == 6);
    assert("iftex"@.len() == 5);
    assert("tex"@.len() == 3);
    assert("html"@.len() == 4);
    assert("ifhtml"@.len() == 6);
    assert("docbook"@.len() == 7);
    assert("ifdocbook"@.len() == 9);
    assert("xml"@.len() == 3);
    assert("ifxml"@.len() == 5);
    assert("ignore"@.len() == 6);
    assert("ifnotinfo"@.len() == 9);
    assert("titlepage"@.len() == 9);
    assert("copying"@.len() == 7);
    assert("direntry"@.len() == 8);
    assert("documentdescription"@.len() == 19);
    assert("ifinfo"@.len() == 6);
    assert("ifnottex"@.len() == 8);
    assert("ifnothtml"@.len() == 9);
    assert("ifnotdocbook"@.len() == 12);
    assert("ifnotxml"@.len() == 8);
    assert("ifnotplaintext"@.len() == 14);
    assert("ifplaintext"@.len() == 11);
    assert("ifinfo"@[0] != "format"@[0]);
    assert("ifinfo"@[0] != "vtable"@[0]);
    assert("ifinfo"@[0] != "ftable"@[0]);
    assert("ifinfo"@[0] != "center"@[0]);
    assert("ifinfo"@[1] != "indent"@[1]);
    assert("ifinfo"@[0] != "exdent"@[0]);
    assert("ifinfo"@[2] != "ifhtml"@[2]);
    assert("ifinfo"@[1] != "ignore"@[1]);
    assert("ifnottex"@[0] != "appendix"@[0]);
    assert("ifnottex"@[0] != "verbatim"@[0]);
    assert("ifnottex"@[0] != "noindent"@[0]);
    assert("ifnottex"@[0] != "direntry"@[0]);
    assert("ifnottex"@[5] != "ifnotxml"@[5]);
    assert("ifnothtml"@[0] != "smalllisp"@[0]);
    assert("ifnothtml"@[0] != "enumerate"@[0]);
    assert("ifnothtml"@[0] != "quotation"@[0]);
    assert("ifnothtml"@[2] != "ifdocbook"@[2]);
    assert("ifnothtml"@[5] != "ifnotinfo"@[5]);
    assert("ifnothtml"@[0] != "titlepage"@[0]);
    assert("ifnotdocbook"@[0] != "majorheading"@[0]);
    assert("ifnotdocbook"@[0] != "smallexample"@[0]);
    assert("ifnotxml"@[0] != "appendix"@[0]);
    assert("ifnotxml"@[0] != "verbatim"@[0]);
    assert("ifnotxml"@[0] != "noindent"@[0]);
    assert("ifnotxml"@[0] != "direntry"@[0]);
    assert("ifnotplaintext"@[0] != "appendixsubsec"@[0]);
    assert("ifnotplaintext"@[0] != "smallquotation"@[0]);
    assert("ifplaintext"@[0] != "chapheading"@[0]);
    assert("ifplaintext"@[0] != "appendixsec"@[0]);
    reveal_strlit("def");
    assert("def"@.len() == 3);
    assert("ifinfo"@.take(3)[0] != "def"@[0]);
    assert("ifnottex"@.take(3)[0] != "def"@[0]);
    assert("ifnothtml"@.take(3)[0] != "def"@[0]);
    assert("ifnotdocbook"@.take(3)[0] != "def"@[0]);
    assert("ifnotxml"@.take(3)[0] != "def"@[0]);
    assert("ifnotplaintext"@.take(3)[0] != "def"@[0]);
    assert("ifplaintext"@.take(3)[0] != "def"@[0]);
}

/// What sets the document up shows nothing.
#[verifier::rlimit(40)]
pub proof fn law_settings_of_the_document_show_nothing()
    ensures
        command_of("node"@) == Command::Nothing,
        command_of("anchor"@) == Command::Nothing,
        command_of("setfilename"@) == Command::Nothing,
        command_of("settitle"@) == Command::Nothing,
        command_of("set"@) == Command::Nothing,
        command_of("clear"@) == Command::Nothing,
        command_of("include"@) == Command::Nothing,
        command_of("dircategory"@) == Command::Nothing,
        command_of("documentencoding"@) == Command::Nothing,
        command_of("documentlanguage"@) == Command::Nothing,
        command_of("syncodeindex"@) == Command::Nothing,
        command_of("synindex"@) == Command::Nothing,
        command_of("paragraphindent"@) == Command::Nothing,
        command_of("firstparagraphindent"@) == Command::Nothing,
        command_of("exampleindent"@) == Command::Nothing,
        command_of("finalout"@) == Command::Nothing,
        command_of("bye"@) == Command::Nothing,
        command_of("contents"@) == Command::Nothing,
        command_of("shortcontents"@) == Command::Nothing,
        command_of("summarycontents"@) == Command::Nothing,
        command_of("insertcopying"@) == Command::Nothing,
        command_of("printindex"@) == Command::Nothing,
        command_of("listoffloats"@) == Command::Nothing,
        command_of("page"@) == Command::Nothing,
        command_of("need"@) == Command::Nothing,
        command_of("vskip"@) == Command::Nothing,
        command_of("title"@) == Command::Nothing,
        command_of("subtitle"@) == Command::Nothing,
        command_of("author"@) == Command::Nothing,
        command_of("shorttitlepage"@) == Command::Nothing,
{
    reveal_strlit("top");
    reveal_strlit("chapter");
    reveal_strlit("unnumbered");
    reveal_strlit("appendix");
    reveal_strlit("majorheading");
    reveal_strlit("chapheading");
    reveal_strlit("centerchap");
    reveal_strlit("section");
    reveal_strlit("unnumberedsec");
    reveal_strlit("appendixsec");
    reveal_strlit("appendixsection");
    reveal_strlit("heading");
    reveal_strlit("subsection");
    reveal_strlit("unnumberedsubsec");
    reveal_strlit("appendixsubsec");
    reveal_strlit("subheading");
    reveal_strlit("subsubsection");
    reveal_strlit("unnumberedsubsubsec");
    reveal_strlit("appendixsubsubsec");
    reveal_strlit("subsubheading");
    reveal_strlit("c");
    reveal_strlit("comment");
    reveal_strlit("end");
    reveal_strlit("multitable");
    reveal_strlit("example");
    reveal_strlit("smallexample");
    reveal_strlit("verbatim");
    reveal_strlit("lisp");
    reveal_strlit("smalllisp");
    reveal_strlit("display");
    reveal_strlit("format");
    reveal_strlit("itemize");
    reveal_strlit("enumerate");
    reveal_strlit("table");
    reveal_strlit("vtable");
    reveal_strlit("ftable");
    reveal_strlit("menu");
    reveal_strlit("quotation");
    reveal_strlit("smallquotation");
    reveal_strlit("item");
    reveal_strlit("itemx");
    reveal_strlit("sp");
    reveal_strlit("center");
    reveal_strlit("noindent");
    reveal_strlit("indent");
    reveal_strlit("exdent");
    reveal_strlit("iftex");
    reveal_strlit("tex");
    reveal_strlit("html");
    reveal_strlit("ifhtml");
    reveal_strlit("docbook");
    reveal_strlit("ifdocbook");
    reveal_strlit("xml");
    reveal_strlit("ifxml");
    reveal_strlit("ignore");
    reveal_strlit("ifnotinfo");
    reveal_strlit("titlepage");
    reveal_strlit("copying");
    reveal_strlit("direntry");
    reveal_strlit("documentdescription");
    reveal_strlit("node");
    reveal_strlit("anchor");
    reveal_strlit("setfilename");
    reveal_strlit("settitle");
    reveal_strlit("set");
    reveal_strlit("clear");
    reveal_strlit("include");
    reveal_strlit("dircategory");
    reveal_strlit("documentencoding");
    reveal_strlit("documentlanguage");
    reveal_strlit("syncodeindex");
    reveal_strlit("synindex");
    reveal_strlit("paragraphindent");
    reveal_strlit("firstparagraphindent");
    reveal_strlit("exampleindent");
    reveal_strlit("finalout");
    reveal_strlit("bye");
    reveal_strlit("contents");
    reveal_strlit("shortcontents");
    reveal_strlit("summarycontents");
    reveal_strlit("insertcopying");
    reveal_strlit("printindex");
    reveal_strlit("listoffloats");
    reveal_strlit("page");
    reveal_strlit("need");
    reveal_strlit("vskip");
    reveal_strlit("title");
    reveal_strlit("subtitle");
    reveal_strlit("author");
    reveal_strlit("shorttitlepage");
    assert("top"@.len() == 3);
    assert("chapter"@.len() == 7);
    assert("unnumbered"@.len() == 10);
    assert("appendix"@.len() == 8);
    assert("majorheading"@.len() == 12);
    assert("chapheading"@.len() == 11);
    assert("centerchap"@.len() == 10);
    assert("section"@.len() == 7);
    assert("unnumberedsec"@.len() == 13);
    assert("appendixsec"@.len() == 11);
    assert("appendixsection"@.len() == 15);
    assert("heading"@.len() == 7);
    assert("subsection"@.len() == 10);
    assert("unnumberedsubsec"@.len() == 16);
    assert("appendixsubsec"@.len() == 14);
    assert("subheading"@.len() == 10);
    assert("subsubsection"@.len() == 13);
    assert("unnumberedsubsubsec"@.len() == 19);
    assert("appendixsubsubsec"@.len() == 17);
    assert("subsubheading"@.len() == 13);
    assert("c"@.len() == 1);
    assert("comment"@.len() == 7);
    assert("end"@.len() == 3);
    assert("multitable"@.len() == 10);
    assert("example"@.len() == 7);
    assert("smallexample"@.len() == 12);
    assert("verbatim"@.len() == 8);
    assert("lisp"@.len() == 4);
    assert("smalllisp"@.len() == 9);
    assert("display"@.len() == 7);
    assert("format"@.len() == 6);
    assert("itemize"@.len() == 7);
    assert("enumerate"@.len() == 9);
    assert("table"@.len() == 5);
    assert("vtable"@.len() == 6);
    assert("ftable"@.len() == 6);
    assert("menu"@.len() == 4);
    assert("quotation"@.len() == 9);
    assert("smallquotation"@.len() == 14);
    assert("item"@.len() == 4);
    assert("itemx"@.len() == 5);
    assert("sp"@.len() == 2);
    assert("center"@.len() == 6);
    assert("noindent"@.len() == 8);
    assert("indent"@.len() == 6);
    assert("exdent"@.len() == 6);
    assert("iftex"@.len() == 5);
    assert("tex"@.len() == 3);
    assert("html"@.len() == 4);
    assert("ifhtml"@.len() == 6);
    assert("docbook"@.len() == 7);
    assert("ifdocbook"@.len() == 9);
    assert("xml"@.len() == 3);
    assert("ifxml"@.len() == 5);
    assert("ignore"@.len() == 6);
    assert("ifnotinfo"@.len() == 9);
    assert("titlepage"@.len() == 9);
    assert("copying"@.len() == 7);
    assert("direntry"@.len() == 8);
    assert("documentdescription"@.len() == 19);
    assert("node"@.len() == 4);
    assert("anchor"@.len() == 6);
    assert("setfilename"@.len() == 11);
    assert("settitle"@.len() == 8);
    assert("set"@.len() == 3);
    assert("clear"@.len() == 5);
    assert("include"@.len() == 7);
    assert("dircategory"@.len() == 11);
    assert("documentencoding"@.len() == 16);
    assert("documentlanguage"@.len() == 16);
    assert("syncodeindex"@.len() == 12);
    assert("synindex"@.len() == 8);
    assert("paragraphindent"@.len() == 15);
    assert("firstparagraphindent"@.len() == 20);
    assert("exampleindent"@.len() == 13);
    assert("finalout"@.len() == 8);
    assert("bye"@.len() == 3);
    assert("contents"@.len() == 8);
    assert("shortcontents"@.len() == 13);
    assert("summarycontents"@.len() == 15);
    assert("insertcopying"@.len() == 13);
    assert("printindex"@.len() == 10);
    assert("listoffloats"@.len() == 12);
    assert("page"@.len() == 4);
    assert("need"@.len() == 4);
    assert("vskip"@.len() == 5);
    assert("title"@.len() == 5);
    assert("subtitle"@.len() == 8);
    assert("author"@.len() == 6);
    assert("shorttitlepage"@.len() == 14);
    assert("node"@[0] != "lisp"@[0]);
    assert("node"@[0] != "menu"@[0]);
    assert("node"@[0] != "item"@[0]);
    assert("node"@[0] != "html"@[0]);
    assert("node"@[0] != "page"@[0]);
    assert("node"@[1] != "need"@[1]);
    assert("anchor"@[0] != "format"@[0]);
    assert("anchor"@[0] != "vtable"@[0]);
    assert("anchor"@[0] != "ftable"@[0]);
    assert("anchor"@[0] != "center"@[0]);
    assert("anchor"@[0] != "indent"@[0]);
    assert("anchor"@[0] != "exdent"@[0]);
    assert("anchor"@[0] != "ifhtml"@[0]);
    assert("anchor"@[0] != "ignore"@[0]);
    assert("anchor"@[1] != "author"@[1]);
    assert("setfilename"@[0] != "chapheading"@[0]);
    assert("setfilename"@[0] != "appendixsec"@[0]);
    assert("setfilename"@[0] != "dircategory"@[0]);
    assert("settitle"@[0] != "appendix"@[0]);
    assert("settitle"@[0] != "verbatim"@[0]);
    assert("settitle"@[0] != "noindent"@[0]);
    assert("settitle"@[0] != "direntry"@[0]);
    assert("settitle"@[1] != "synindex"@[1]);
    assert("settitle"@[0] != "finalout"@[0]);
    assert("settitle"@[0] != "contents"@[0]);
    assert("settitle"@[1] != "subtitle"@[1]);
    assert("set"@[0] != "top"@[0]);
    assert("set"@[0] != "end"@[0]);
    assert("set"@[0] != "tex"@[0]);
    assert("set"@[0] != "xml"@[0]);
    assert("set"@[0] != "bye"@[0]);
    assert("clear"@[0] != "table"@[0]);
    assert("clear"@[0] != "itemx"@[0]);
    assert("clear"@[0] != "iftex"@[0]);
    assert("clear"@[0] != "ifxml"@[0]);
    assert("clear"@[0] != "vskip"@[0]);
    assert("clear"@[0] != "title"@[0]);
    assert("include"@[0] != "chapter"@[0]);
    assert("include"@[0] != "section"@[0]);
    assert("include"@[0] != "heading"@[0]);
    assert("include"@[0] != "comment"@[0]);
    assert("include"@[0] != "example"@[0]);
    assert("include"@[0] != "display"@[0]);
    assert("include"@[1] != "itemize"@[1]);
    assert("include"@[0] != "docbook"@[0]);
    assert("include"@[0] != "copying"@[0]);
    assert("dircategory"@[0] != "chapheading"@[0]);
    assert("dircategory"@[0] != "appendixsec"@[0]);
    assert("documentencoding"@[0] != "unnumberedsubsec"@[0]);
    assert("documentencoding"@[8] != "documentlanguage"@[8]);
    assert("documentlanguage"@[0] != "unnumberedsubsec"@[0]);
    assert("syncodeindex"@[0] != "majorheading"@[0]);
    assert("syncodeindex"@[1] != "smallexample"@[1]);
    assert("syncodeindex"@[0] != "listoffloats"@[0]);
    assert("synindex"@[0] != "appendix"@[0]);
    assert("synindex"@[0] != "verbatim"@[0]);
    assert("synindex"@[0] != "noindent"@[0]);
    assert("synindex"@[0] != "direntry"@[0]);
    assert("synindex"@[0] != "finalout"@[0]);
    assert("synindex"@[0] != "contents"@[0]);
    assert("synindex"@[1] != "subtitle"@[1]);
    assert("paragraphindent"@[0] != "appendixsection"@[0]);
    assert("paragraphindent"@[0] != "summarycontents"@[0]);
    assert("exampleindent"@[0] != "unnumberedsec"@[0]);
    assert("exampleindent"@[0] != "subsubsection"@[0]);
    assert("exampleindent"@[0] != "subsubheading"@[0]);
    assert("exampleindent"@[0] != "shortcontents"@[0]);
    assert("exampleindent"@[0] != "insertcopying"@[0]);
    assert("finalout"@[0] != "appendix"@[0]);
    assert("finalout"@[0] != "verbatim"@[0]);
    assert("finalout"@[0] != "noindent"@[0]);
    assert("finalout"@[0] != "direntry"@[0]);
    assert("finalout"@[0] != "contents"@[0]);
    assert("finalout"@[0] != "subtitle"@[0]);
    assert("bye"@[0] != "top"@[0]);
    assert("bye"@[0] != "end"@[0]);
    assert("bye"@[0] != "tex"@[0]);
    assert("bye"@[0] != "xml"@[0]);
    assert("contents"@[0] != "appendix"@[0]);
    assert("contents"@[0] != "verbatim"@[0]);
    assert("contents"@[0] != "noindent"@[0]);
    assert("contents"@[0] != "direntry"@[0]);
    assert("contents"@[0] != "subtitle"@[0]);
    assert("shortcontents"@[0] != "unnumberedsec"@[0]);
    assert("shortcontents"@[1] != "subsubsection"@[1]);
    assert("shortcontents"@[1] != "subsubheading"@[1]);
    assert("shortcontents"@[0] != "insertcopying"@[0]);
    assert("summarycontents"@[0] != "appendixsection"@[0]);
    assert("insertcopying"@[0] != "unnumberedsec"@[0]);
    assert("insertcopying"@[0] != "subsubsection"@[0]);
    assert("insertcopying"@[0] != "subsubheading"@[0]);
    assert("printindex"@[0] != "unnumbered"@[0]);
    assert("printindex"@[0] != "centerchap"@[0]);
    assert("printindex"@[0] != "subsection"@[0]);
    assert("printindex"@[0] != "subheading"@[0]);
    assert("printindex"@[0] != "multitable"@[0]);
    assert("listoffloats"@[0] != "majorheading"@[0]);
    assert("listoffloats"@[0] != "smallexample"@[0]);
    assert("page"@[0] != "lisp"@[0]);
    assert("page"@[0] != "menu"@[0]);
    assert("page"@[0] != "item"@[0]);
    assert("page"@[0] != "html"@[0]);
    assert("page"@[0] != "need"@[0]);
    assert("need"@[0] != "lisp"@[0]);
    assert("need"@[0] != "menu"@[0]);
    assert("need"@[0] != "item"@[0]);
    assert("need"@[0] != "html"@[0]);
    assert("vskip"@[0] != "table"@[0]);
    assert("vskip"@[0] != "itemx"@[0]);
    assert("vskip"@[0] != "iftex"@[0]);
    assert("vskip"@[0] != "ifxml"@[0]);
    assert("vskip"@[0] != "title"@[0]);
    assert("title"@[1] != "table"@[1]);
    assert("title"@[0] != "itemx"@[0]);
    assert("title"@[0] != "iftex"@[0]);
    assert("title"@[0] != "ifxml"@[0]);
    assert("subtitle"@[0] != "appendix"@[0]);
    assert("subtitle"@[0] != "verbatim"@[0]);
    assert("subtitle"@[0] != "noindent"@[0]);
    assert("subtitle"@[0] != "direntry"@[0]);
    assert("author"@[0] != "format"@[0]);
    assert("author"@[0] != "vtable"@[0]);
    assert("author"@[0] != "ftable"@[0]);
    assert("author"@[0] != "center"@[0]);
    assert("author"@[0] != "indent"@[0]);
    assert("author"@[0] != "exdent"@[0]);
    assert("author"@[0] != "ifhtml"@[0]);
    assert("author"@[0] != "ignore"@[0]);
    assert("shorttitlepage"@[0] != "appendixsubsec"@[0]);
    assert("shorttitlepage"@[1] != "smallquotation"@[1]);
    reveal_strlit("def");
    assert("def"@.len() == 3);
    assert("node"@.take(3)[0] != "def"@[0]);
    assert("anchor"@.take(3)[0] != "def"@[0]);
    assert("setfilename"@.take(3)[0] != "def"@[0]);
    assert("settitle"@.take(3)[0] != "def"@[0]);
    assert("set"@.take(3)[0] != "def"@[0]);
    assert("clear"@.take(3)[0] != "def"@[0]);
    assert("include"@.take(3)[0] != "def"@[0]);
    assert("dircategory"@.take(3)[1] != "def"@[1]);
    assert("documentencoding"@.take(3)[1] != "def"@[1]);
    assert("documentlanguage"@.take(3)[1] != "def"@[1]);
    assert("syncodeindex"@.take(3)[0] != "def"@[0]);
    assert("synindex"@.take(3)[0] != "def"@[0]);
    assert("paragraphindent"@.take(3)[0] != "def"@[0]);
    assert("firstparagraphindent"@.take(3)[0] != "def"@[0]);
    assert("exampleindent"@.take(3)[0] != "def"@[0]);
    assert("finalout"@.take(3)[0] != "def"@[0]);
    assert("bye"@.take(3)[0] != "def"@[0]);
    assert("contents"@.take(3)[0] != "def"@[0]);
    assert("shortcontents"@.take(3)[0] != "def"@[0]);
    assert("summarycontents"@.take(3)[0] != "def"@[0]);
    assert("insertcopying"@.take(3)[0] != "def"@[0]);
    assert("printindex"@.take(3)[0] != "def"@[0]);
    assert("listoffloats"@.take(3)[0] != "def"@[0]);
    assert("page"@.take(3)[0] != "def"@[0]);
    assert("need"@.take(3)[0] != "def"@[0]);
    assert("vskip"@.take(3)[0] != "def"@[0]);
    assert("title"@.take(3)[0] != "def"@[0]);
    assert("subtitle"@.take(3)[0] != "def"@[0]);
    assert("author"@.take(3)[0] != "def"@[0]);
    assert("shorttitlepage"@.take(3)[0] != "def"@[0]);
}

/// Index entries and what sets the print up show nothing.
#[verifier::rlimit(40)]
pub proof fn law_settings_of_the_print_show_nothing()
    ensures
        command_of("cindex"@) == Command::Nothing,
        command_of("findex"@) == Command::Nothing,
        command_of("vindex"@) == Command::Nothing,
        command_of("kindex"@) == Command::Nothing,
        command_of("pindex"@) == Command::Nothing,
        command_of("tindex"@) == Command::Nothing,
        command_of("kbdinputstyle"@) == Command::Nothing,
        command_of("allowcodebreaks"@) == Command::Nothing,
        command_of("frenchspacing"@) == Command::Nothing,
        command_of("codequoteundirected"@) == Command::Nothing,
        command_of("codequotebacktick"@) == Command::Nothing,
        command_of("defindex"@) == Command::Nothing,
        command_of("defcodeindex"@) == Command::Nothing,
        command_of("definfoenclose"@) == Command::Nothing,
        command_of("headings"@) == Command::Nothing,
        command_of("setchapternewpage"@) == Command::Nothing,
        command_of("everyheading"@) == Command::Nothing,
        command_of("everyfooting"@) == Command::Nothing,
{
    reveal_strlit("top");
    reveal_strlit("chapter");
    reveal_strlit("unnumbered");
    reveal_strlit("appendix");
    reveal_strlit("majorheading");
    reveal_strlit("chapheading");
    reveal_strlit("centerchap");
    reveal_strlit("section");
    reveal_strlit("unnumberedsec");
    reveal_strlit("appendixsec");
    reveal_strlit("appendixsection");
    reveal_strlit("heading");
    reveal_strlit("subsection");
    reveal_strlit("unnumberedsubsec");
    reveal_strlit("appendixsubsec");
    reveal_strlit("subheading");
    reveal_strlit("subsubsection");
    reveal_strlit("unnumberedsubsubsec");
    reveal_strlit("appendixsubsubsec");
    reveal_strlit("subsubheading");
    reveal_strlit("c");
    reveal_strlit("comment");
    reveal_strlit("end");
    reveal_strlit("multitable");
    reveal_strlit("example");
    reveal_strlit("smallexample");
    reveal_strlit("verbatim");
    reveal_strlit("lisp");
    reveal_strlit("smalllisp");
    reveal_strlit("display");
    reveal_strlit("format");
    reveal_strlit("itemize");
    reveal_strlit("enumerate");
    reveal_strlit("table");
    reveal_strlit("vtable");
    reveal_strlit("ftable");
    reveal_strlit("menu");
    reveal_strlit("quotation");
    reveal_strlit("smallquotation");
    reveal_strlit("item");
    reveal_strlit("itemx");
    reveal_strlit("sp");
    reveal_strlit("center");
    reveal_strlit("noindent");
    reveal_strlit("indent");
    reveal_strlit("exdent");
    reveal_strlit("iftex");
    reveal_strlit("tex");
    reveal_strlit("html");
    reveal_strlit("ifhtml");
    reveal_strlit("docbook");
    reveal_strlit("ifdocbook");
    reveal_strlit("xml");
    reveal_strlit("ifxml");
    reveal_strlit("ignore");
    reveal_strlit("ifnotinfo");
    reveal_strlit("titlepage");
    reveal_strlit("copying");
    reveal_strlit("direntry");
    reveal_strlit("documentdescription");
    reveal_strlit("cindex");
    reveal_strlit("findex");
    reveal_strlit("vindex");
    reveal_strlit("kindex");
    reveal_strlit("pindex");
    reveal_strlit("tindex");
    reveal_strlit("kbdinputstyle");
    reveal_strlit("allowcodebreaks");
    reveal_strlit("frenchspacing");
    reveal_strlit("codequoteundirected");
    reveal_strlit("codequotebacktick");
    reveal_strlit("defindex");
    reveal_strlit("defcodeindex");
    reveal_strlit("definfoenclose");
    reveal_strlit("headings");
    reveal_strlit("setchapternewpage");
    reveal_strlit("everyheading");
    reveal_strlit("everyfooting");
    assert("top"@.len() == 3);
    assert("chapter"@.len() == 7);
    assert("unnumbered"@.len() == 10);
    assert("appendix"@.len() == 8);
    assert("majorheading"@.len() == 12);
    assert("chapheading"@.len() == 11);
    assert("centerchap"@.len() == 10);
    assert("section"@.len() == 7);
    assert("unnumberedsec"@.len() == 13);
    assert("appendixsec"@.len() == 11);
    assert("appendixsection"@.len() == 15);
    assert("heading"@.len() == 7);
    assert("subsection"@.len() == 10);
    assert("unnumberedsubsec"@.len() == 16);
    assert("appendixsubsec"@.len() == 14);
    assert("subheading"@.len() == 10);
    assert("subsubsection"@.len() == 13);
    assert("unnumberedsubsubsec"@.len() == 19);
    assert("appendixsubsubsec"@.len() == 17);
    assert("subsubheading"@.len() == 13);
    assert("c"@.len() == 1);
    assert("comment"@.len() == 7);
    assert("end"@.len() == 3);
    assert("multitable"@.len() == 10);
    assert("example"@.len() == 7);
    assert("smallexample"@.len() == 12);
    assert("verbatim"@.len() == 8);
    assert("lisp"@.len() == 4);
    assert("smalllisp"@.len() == 9);
    assert("display"@.len() == 7);
    assert("format"@.len() == 6);
    assert("itemize"@.len() == 7);
    assert("enumerate"@.len() == 9);
    assert("table"@.len() == 5);
    assert("vtable"@.len() == 6);
    assert("ftable"@.len() == 6);
    assert("menu"@.len() == 4);
    assert("quotation"@.len() == 9);
    assert("smallquotation"@.len() == 14);
    assert("item"@.len() == 4);
    assert("itemx"@.len() == 5);
    assert("sp"@.len() == 2);
    assert("center"@.len() == 6);
    assert("noindent"@.len() == 8);
    assert("indent"@.len() == 6);
    assert("exdent"@.len() == 6);
    assert("iftex"@.len() == 5);
    assert("tex"@.len() == 3);
    assert("html"@.len() == 4);
    assert("ifhtml"@.len() == 6);
    assert("docbook"@.len() == 7);
    assert("ifdocbook"@.len() == 9);
    assert("xml"@.len() == 3);
    assert("ifxml"@.len() == 5);
    assert("ignore"@.len() == 6);
    assert("ifnotinfo"@.len() == 9);
    assert("titlepage"@.len() == 9);
    assert("copying"@.len() == 7);
    assert("direntry"@.len() == 8);
    assert("documentdescription"@.len() == 19);
    assert("cindex"@.len() == 6);
    assert("findex"@.len() == 6);
    assert("vindex"@.len() == 6);
    assert("kindex"@.len() == 6);
    assert("pindex"@.len() == 6);
    assert("tindex"@.len() == 6);
    assert("kbdinputstyle"@.len() == 13);
    assert("allowcodebreaks"@.len() == 15);
    assert("frenchspacing"@.len() == 13);
    assert("codequoteundirected"@.len() == 19);
    assert("codequotebacktick"@.len() == 17);
    assert("defindex"@.len() == 8);
    assert("defcodeindex"@.len() == 12);
    assert("definfoenclose"@.len() == 14);
    assert("headings"@.len() == 8);
    assert("setchapternewpage"@.len() == 17);
    assert("everyheading"@.len() == 12);
    assert("everyfooting"@.len() == 12);
    assert("cindex"@[0] != "format"@[0]);
    assert("cindex"@[0] != "vtable"@[0]);
    assert("cindex"@[0] != "ftable"@[0]);
    assert("cindex"@[1] != "center"@[1]);
    assert("cindex"@[0] != "indent"@[0]);
    assert("cindex"@[0] != "exdent"@[0]);
    assert("cindex"@[0] != "ifhtml"@[0]);
    assert("cindex"@[0] != "ignore"@[0]);
    assert("cindex"@[0] != "findex"@[0]);
    assert("cindex"@[0] != "vindex"@[0]);
    assert("cindex"@[0] != "kindex"@[0]);
    assert("cindex"@[0] != "pindex"@[0]);
    assert("cindex"@[0] != "tindex"@[0]);
    assert("findex"@[1] != "format"@[1]);
    assert("findex"@[0] != "vtable"@[0]);
    assert("findex"@[1] != "ftable"@[1]);
    assert("findex"@[0] != "center"@[0]);
    assert("findex"@[0] != "indent"@[0]);
    assert("findex"@[0] != "exdent"@[0]);
    assert("findex"@[0] != "ifhtml"@[0]);
    assert("findex"@[0] != "ignore"@[0]);
    assert("findex"@[0] != "vindex"@[0]);
    assert("findex"@[0] != "kindex"@[0]);
    assert("findex"@[0] != "pindex"@[0]);
    assert("findex"@[0] != "tindex"@[0]);
    assert("vindex"@[0] != "format"@[0]);
    assert("vindex"@[1] != "vtable"@[1]);
    assert("vindex"@[0] != "ftable"@[0]);
    assert("vindex"@[0] != "center"@[0]);
    assert("vindex"@[0] != "indent"@[0]);
    assert("vindex"@[0] != "exdent"@[0]);
    assert("vindex"@[0] != "ifhtml"@[0]);
    assert("vindex"@[0] != "ignore"@[0]);
    assert("vindex"@[0] != "kindex"@[0]);
    assert("vindex"@[0] != "pindex"@[0]);
    assert("vindex"@[0] != "tindex"@[0]);
    assert("kindex"@[0] != "format"@[0]);
    assert("kindex"@[0] != "vtable"@[0]);
    assert("kindex"@[0] != "ftable"@[0]);
    assert("kindex"@[0] != "center"@[0]);
    assert("kindex"@[0] != "indent"@[0]);
    assert("kindex"@[0] != "exdent"@[0]);
    assert("kindex"@[0] != "ifhtml"@[0]);
    assert("kindex"@[0] != "ignore"@[0]);
    assert("kindex"@[0] != "pindex"@[0]);
    assert("kindex"@[0] != "tindex"@[0]);
    assert("pindex"@[0] != "format"@[0]);
    assert("pindex"@[0] != "vtable"@[0]);
    assert("pindex"@[0] != "ftable"@[0]);
    assert("pindex"@[0] != "center"@[0]);
    assert("pindex"@[0] != "indent"@[0]);
    assert("pindex"@[0] != "exdent"@[0]);
    assert("pindex"@[0] != "ifhtml"@[0]);
    assert("pindex"@[0] != "ignore"@[0]);
    assert("pindex"@[0] != "tindex"@[0]);
    assert("tindex"@[0] != "format"@[0]);
    assert("tindex"@[0] != "vtable"@[0]);
    assert("tindex"@[0] != "ftable"@[0]);
    assert("tindex"@[0] != "center"@[0]);
    assert("tindex"@[0] != "indent"@[0]);
    assert("tindex"@[0] != "exdent"@[0]);
    assert("tindex"@[0] != "ifhtml"@[0]);
    assert("tindex"@[0] != "ignore"@[0]);
    assert("kbdinputstyle"@[0] != "unnumberedsec"@[0]);
    assert("kbdinputstyle"@[0] != "subsubsection"@[0]);
    assert("kbdinputstyle"@[0] != "subsubheading"@[0]);
    assert("kbdinputstyle"@[0] != "frenchspacing"@[0]);
    assert("allowcodebreaks"@[1] != "appendixsection"@[1]);
    assert("frenchspacing"@[0] != "unnumberedsec"@[0]);
    assert("frenchspacing"@[0] != "subsubsection"@[0]);
    assert("frenchspacing"@[0] != "subsubheading"@[0]);
    assert("codequoteundirected"@[0] != "unnumberedsubsubsec"@[0]);
    assert("codequoteundirected"@[0] != "documentdescription"@[0]);
    assert("codequotebacktick"@[0] != "appendixsubsubsec"@[0]);
    assert("codequotebacktick"@[0] != "setchapternewpage"@[0]);
    assert("defindex"@[0] != "appendix"@[0]);
    assert("defindex"@[0] != "verbatim"@[0]);
    assert("defindex"@[0] != "noindent"@[0]);
    assert("defindex"@[1] != "direntry"@[1]);
    assert("defindex"@[0] != "headings"@[0]);
    assert("defcodeindex"@[0] != "majorheading"@[0]);
    assert("defcodeindex"@[0] != "smallexample"@[0]);
    assert("defcodeindex"@[0] != "everyheading"@[0]);
    assert("defcodeindex"@[0] != "everyfooting"@[0]);
    assert("definfoenclose"@[0] != "appendixsubsec"@[0]);
    assert("definfoenclose"@[0] != "smallquotation"@[0]);
    assert("headings"@[0] != "appendix"@[0]);
    assert("headings"@[0] != "verbatim"@[0]);
    assert("headings"@[0] != "noindent"@[0]);
    assert("headings"@[0] != "direntry"@[0]);
    assert("setchapternewpage"@[0] != "appendixsubsubsec"@[0]);
    assert("everyheading"@[0] != "majorheading"@[0]);
    assert("everyheading"@[0] != "smallexample"@[0]);
    assert("everyheading"@[5] != "everyfooting"@[5]);
    assert("everyfooting"@[0] != "majorheading"@[0]);
    assert("everyfooting"@[0] != "smallexample"@[0]);
    reveal_strlit("def");
    assert("def"@.len() == 3);
    assert("cindex"@.take(3)[0] != "def"@[0]);
    assert("findex"@.take(3)[0] != "def"@[0]);
    assert("vindex"@.take(3)[0] != "def"@[0]);
    assert("kindex"@.take(3)[0] != "def"@[0]);
    assert("pindex"@.take(3)[0] != "def"@[0]);
    assert("tindex"@.take(3)[0] != "def"@[0]);
    assert("kbdinputstyle"@.take(3)[0] != "def"@[0]);
    assert("allowcodebreaks"@.take(3)[0] != "def"@[0]);
    assert("frenchspacing"@.take(3)[0] != "def"@[0]);
    assert("codequoteundirected"@.take(3)[0] != "def"@[0]);
    assert("codequotebacktick"@.take(3)[0] != "def"@[0]);
    assert("headings"@.take(3)[0] != "def"@[0]);
    assert("setchapternewpage"@.take(3)[0] != "def"@[0]);
    assert("everyheading"@.take(3)[0] != "def"@[0]);
    assert("everyfooting"@.take(3)[0] != "def"@[0]);
}

} // verus!
