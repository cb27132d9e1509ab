//! Reports with a little colour.
//!
//! Whether colours are wanted depends on where the report goes, and is
//! asked of the terminal library. Everything is verified for either
//! answer.

use crate::text::{lines, lines_str};
use crate::values::views;
use vstd::prelude::*;
use vstd::string::*;

verus! {

// ---------------------------------------------------------------------
// Colours
// ---------------------------------------------------------------------
/// The escape sequences that switch a style on. The styles are those that
/// [`paint`] admits.
pub open spec fn style_on(style: Seq<char>) -> Seq<char> {
    if style == "cyan"@ {
        "\x1b[36m"@
    } else if style == "bold"@ {
        "\x1b[1m"@
    } else if style == "green.bold"@ {
        "\x1b[32m\x1b[1m"@
    } else {
        "\x1b[31m\x1b[1m"@
    }
}

/// `text` in a style, where colours are wanted.
pub open spec fn painted(style: Seq<char>, text: Seq<char>, colors: bool) -> Seq<char> {
    if colors {
        style_on(style) + text + "\x1b[0m"@
    } else {
        text
    }
}

/// Calls `console::Style::from_dotted_str`, and formats `text` in that
/// style with styling forced on or off: off, the text comes out as it is;
/// on, it stands between the escape sequences for the foreground colour
/// and the attribute, in this order, and the one that resets both.
#[verifier::external_body]
fn paint(style: &str, text: &str, colors: bool) -> (r: String)
    requires
        style@ == "cyan"@ || style@ == "bold"@ || style@ == "green.bold"@ || style@
            == "red.bold"@,
    ensures
        r@ == painted(style@, text@, colors),
{
    console::Style::from_dotted_str(style).force_styling(colors).apply_to(text).to_string()
}

/// Calls `console::colors_enabled_stderr`, which looks at the terminal and
/// the environment.
#[verifier::external_body]
pub(crate) fn colors_enabled() -> bool {
    console::colors_enabled_stderr()
}

/// Append `text` in a style, and end the line.
pub fn paint_line(out: &mut String, style: &str, text: &str, colors: bool)
    requires
        style@ == "cyan"@ || style@ == "bold"@ || style@ == "green.bold"@ || style@
            == "red.bold"@,
    ensures
        final(out)@ == old(out)@ + (painted(style@, text@, colors) + "\n"@),
{
    out.append(paint(style, text, colors).as_str());
    out.append("\n");
    assert(out@ =~= old(out)@ + (painted(style@, text@, colors) + "\n"@));
}

// ---------------------------------------------------------------------
// Documents
// ---------------------------------------------------------------------
/// A text of several chunks. Every chunk is flush left, so that what is
/// meant to be copied can be, and a blank line stands between each two.
pub struct StyledDoc {
    chunks: Vec<DocChunk>,
}

/// A chunk of a [`StyledDoc`].
pub enum DocChunk {
    /// Prose.
    Paragraph(String),
    /// Text that is meant to be copied. It is coloured line by line.
    Code(String),
}

/// What a [`DocChunk`] says.
#[verifier::ext_equal]
pub enum ChunkView {
    Paragraph(Seq<char>),
    Code(Seq<char>),
}

impl View for DocChunk {
    type V = ChunkView;

    open spec fn view(&self) -> ChunkView {
        match self {
            DocChunk::Paragraph(t) => ChunkView::Paragraph(t@),
            DocChunk::Code(t) => ChunkView::Code(t@),
        }
    }
}

impl View for StyledDoc {
    type V = Seq<ChunkView>;

    closed spec fn view(&self) -> Seq<ChunkView> {
        views(self.chunks@)
    }
}

/// A line of code; one that is empty needs no colour.
pub open spec fn code_line(line: Seq<char>, colors: bool) -> Seq<char> {
    if line.len() == 0 {
        "\n"@
    } else {
        painted("cyan"@, line, colors) + "\n"@
    }
}

/// Lines of code.
pub open spec fn code_lines(lines: Seq<Seq<char>>, colors: bool) -> Seq<char>
    decreases lines.len(),
{
    if lines.len() == 0 {
        Seq::empty()
    } else {
        code_lines(lines.drop_last(), colors) + code_line(lines.last(), colors)
    }
}

/// How a chunk reads.
pub open spec fn chunk_text(chunk: ChunkView, colors: bool) -> Seq<char> {
    match chunk {
        ChunkView::Paragraph(t) => t + "\n"@,
        ChunkView::Code(t) => code_lines(lines(t), colors),
    }
}

/// How a document reads.
pub open spec fn doc_text(doc: Seq<ChunkView>, colors: bool) -> Seq<char>
    decreases doc.len(),
{
    if doc.len() == 0 {
        Seq::empty()
    } else if doc.len() == 1 {
        chunk_text(doc[0], colors)
    } else {
        doc_text(doc.drop_last(), colors) + "\n"@ + chunk_text(doc.last(), colors)
    }
}

/// Append lines of code.
fn write_code(out: &mut String, text: &str, colors: bool)
    ensures
        final(out)@ == old(out)@ + code_lines(lines(text@), colors),
{
    let ls = lines_str(text);
    let ghost all = lines(text@);
    let mut i: usize = 0;
    assert(old(out)@ + code_lines(all.take(0), colors) =~= old(out)@);
    while i < ls.len()
        invariant
            i <= ls@.len(),
            all == views(ls@),
            out@ == old(out)@ + code_lines(all.take(i as int), colors),
        decreases ls.len() - i,
    {
        let ghost before = out@;
        proof {
            assert(all.take(i + 1).drop_last() =~= all.take(i as int));
            assert(all.take(i + 1).last() == ls@[i as int]@);
        }
        if ls[i].as_str().is_empty() {
            out.append("\n");
        } else {
            paint_line(out, "cyan", ls[i].as_str(), colors);
        }
        assert(out@ =~= old(out)@ + code_lines(all.take(i + 1), colors));
        i = i + 1;
    }
    assert(all.take(all.len() as int) =~= all);
}

impl StyledDoc {
    /// A document without chunks.
    pub fn new() -> (r: StyledDoc)
        ensures
            r@ == Seq::<ChunkView>::empty(),
    {
        let r = StyledDoc { chunks: Vec::new() };
        assert(r@ =~= Seq::<ChunkView>::empty());
        r
    }

    /// The document with a paragraph of prose after it.
    pub fn paragraph(self, text: &str) -> (r: StyledDoc)
        ensures
            r@ == self@.push(ChunkView::Paragraph(text@)),
    {
        let mut chunks = self.chunks;
        chunks.push(DocChunk::Paragraph(text.to_owned()));
        let r = StyledDoc { chunks };
        assert(r@ =~= self@.push(ChunkView::Paragraph(text@)));
        r
    }

    /// The document with text to be copied after it.
    pub fn code(self, text: &str) -> (r: StyledDoc)
        ensures
            r@ == self@.push(ChunkView::Code(text@)),
    {
        let mut chunks = self.chunks;
        chunks.push(DocChunk::Code(text.to_owned()));
        let r = StyledDoc { chunks };
        assert(r@ =~= self@.push(ChunkView::Code(text@)));
        r
    }

    /// Append the document to `out`, with colours or without.
    pub fn write_colored(&self, out: &mut String, colors: bool)
        ensures
            final(out)@ == old(out)@ + doc_text(self@, colors),
    {
        let ghost all = self@;
        let mut i: usize = 0;
        assert(old(out)@ + doc_text(all.take(0), colors) =~= old(out)@);
        while i < self.chunks.len()
            invariant
                i <= self.chunks@.len(),
                all == views(self.chunks@),
                out@ == old(out)@ + doc_text(all.take(i as int), colors),
            decreases self.chunks.len() - i,
        {
            proof {
                assert(all.take(i + 1).drop_last() =~= all.take(i as int));
                assert(all.take(i + 1).last() == self.chunks@[i as int]@);
            }
            if i > 0 {
                out.append("\n");
            }
            match &self.chunks[i] {
                DocChunk::Paragraph(text) => {
                    out.append(text.as_str());
                    out.append("\n");
                },
                DocChunk::Code(text) => write_code(out, text.as_str(), colors),
            }
            assert(out@ =~= old(out)@ + doc_text(all.take(i + 1), colors));
            i = i + 1;
        }
        assert(all.take(all.len() as int) =~= all);
    }

    /// Append the document to `out`, with colours where the terminal wants
    /// them.
    pub fn write_to(&self, out: &mut String)
        ensures
            final(out)@ == old(out)@ + doc_text(self@, true) || final(out)@ == old(out)@
                + doc_text(self@, false),
    {
        self.write_colored(out, colors_enabled());
    }
}

impl Default for StyledDoc {
    /// A document without chunks.
    fn default() -> (r: StyledDoc)
        ensures
            r@ == Seq::<ChunkView>::empty(),
    {
        StyledDoc::new()
    }
}

// ---------------------------------------------------------------------
// Laws
// ---------------------------------------------------------------------
/// Without colours, text stays as it is. With colours, it stands between
/// the escape sequence of its style and the one that resets it.
pub proof fn law_styles_spelled_out(text: Seq<char>, style: Seq<char>)
    ensures
        painted(style, text, false) == text,
        painted("cyan"@, text, true) == "\x1b[36m"@ + text + "\x1b[0m"@,
        painted("bold"@, text, true) == "\x1b[1m"@ + text + "\x1b[0m"@,
        painted("green.bold"@, text, true) == "\x1b[32m\x1b[1m"@ + text + "\x1b[0m"@,
        painted("red.bold"@, text, true) == "\x1b[31m\x1b[1m"@ + text + "\x1b[0m"@,
{
    reveal_strlit("cyan");
    reveal_strlit("bold");
    reveal_strlit("green.bold");
    reveal_strlit("red.bold");
    assert("cyan"@.len() == 4 && "cyan"@[0] == 'c');
    assert("bold"@.len() == 4 && "bold"@[0] == 'b');
    assert("green.bold"@.len() == 10);
    assert("red.bold"@.len() == 8);
}

/// Code reads line by line: the lines of two runs are those of the first
/// and then those of the second, each ends with a line feed, and each that
/// is not empty is cyan by itself.
pub proof fn law_code_reads_line_by_line(
    a: Seq<Seq<char>>,
    b: Seq<Seq<char>>,
    line: Seq<char>,
    colors: bool,
)
    ensures
        code_lines(a + b, colors) == code_lines(a, colors) + code_lines(b, colors),
        code_lines(Seq::<Seq<char>>::empty(), colors) == Seq::<char>::empty(),
        code_lines(seq![line], false) == line + "\n"@,
        line.len() > 0 ==> code_lines(seq![line], true) == "\x1b[36m"@ + line + "\x1b[0m"@ + "\n"@,
        code_lines(seq![Seq::<char>::empty()], true) == "\n"@,
    decreases b.len(),
{
    let none = Seq::<Seq<char>>::empty();
    reveal_with_fuel(code_lines, 2);
    let empty = Seq::<char>::empty();
    assert(seq![line].drop_last() =~= none);
    assert(seq![empty].drop_last() =~= none);
    law_styles_spelled_out(line, "cyan"@);
    assert(empty + code_line(line, true) =~= code_line(line, true));
    assert(empty + code_line(line, false) =~= code_line(line, false));
    assert(empty + code_line(empty, true) =~= code_line(empty, true));
    if line.len() == 0 {
        assert(line + "\n"@ =~= "\n"@);
    }
    if b.len() == 0 {
        assert(a + b =~= a);
        assert(code_lines(a, colors) + code_lines(b, colors) =~= code_lines(a, colors));
    } else {
        law_code_reads_line_by_line(a, b.drop_last(), line, colors);
        assert((a + b).drop_last() =~= a + b.drop_last());
        assert((a + b).last() == b.last());
        assert(code_lines(a + b, colors) =~= code_lines(a, colors) + code_lines(b, colors));
    }
}

/// A document reads chunk by chunk, with a blank line between each two:
/// prose as it is, with a line feed behind it, and code line by line.
pub proof fn law_document_reads_chunk_by_chunk(
    doc: Seq<ChunkView>,
    chunk: ChunkView,
    text: Seq<char>,
    colors: bool,
)
    ensures
        doc_text(Seq::<ChunkView>::empty(), colors) == Seq::<char>::empty(),
        doc_text(seq![ChunkView::Paragraph(text)], colors) == text + "\n"@,
        doc_text(seq![ChunkView::Code(text)], colors) == code_lines(lines(text), colors),
        doc.len() > 0 ==> doc_text(doc.push(chunk), colors) == doc_text(doc, colors) + "\n"@
            + doc_text(seq![chunk], colors),
{
    let longer = doc.push(chunk);
    assert(longer.drop_last() =~= doc);
    assert(longer.last() == chunk);
}

} // verus!
