use crate::highlight::{
    code_block_text, highlight_code, lemma_code_block_ends_with_reset, lines_of, rendered_lines,
    reset_seq, shows_lines,
};
use crate::syntax::Highlighting;
use crate::segment::{segments_of, split_segments, views, Segment, SegmentView};
use vstd::prelude::*;

verus! {

/// One piece of terminal output, in document order.
pub enum Block {
    /// Prose to be printed through the markdown styling profile.
    Markdown(String),
    /// Text ready for the terminal as it is, escape sequences included.
    Terminal(String),
}

pub enum BlockView {
    Markdown(Seq<char>),
    Terminal(Seq<char>),
}

impl View for Block {
    type V = BlockView;

    open spec fn view(&self) -> BlockView {
        match self {
            Block::Markdown(t) => BlockView::Markdown(t@),
            Block::Terminal(t) => BlockView::Terminal(t@),
        }
    }
}

/// Whether `out` is what a segment renders to: prose goes to the styling
/// profile unchanged; a code block becomes its body's lines rendered as
/// [`rendered_lines`] says (each showing its own text once escapes are left
/// out), framed by [`code_block_text`].
pub open spec fn renders_as(seg: SegmentView, out: BlockView, themed: bool) -> bool {
    match seg {
        SegmentView::Text(t) => out == BlockView::Markdown(t),
        SegmentView::Code(lang, code) => {
            &&& out == BlockView::Terminal(
                code_block_text(rendered_lines(lang, lines_of(code), themed)),
            )
            &&& shows_lines(rendered_lines(lang, lines_of(code), themed), lines_of(code))
        },
    }
}

pub open spec fn renders_all(segs: Seq<SegmentView>, out: Seq<Block>, themed: bool) -> bool {
    &&& out.len() == segs.len()
    &&& forall|i: int| 0 <= i < segs.len() ==> renders_as(#[trigger] segs[i], out[i]@, themed)
}

/// Renders segments in order, one block for each.
pub fn render_segments(segments: &Vec<Segment>, highlighting: &Highlighting) -> (r: Vec<Block>)
    ensures
        renders_all(views(segments@), r@, highlighting.themed()),
{
    let mut out: Vec<Block> = Vec::new();
    let mut i: usize = 0;
    while i < segments.len()
        invariant
            i <= segments.len(),
            renders_all(views(segments@).take(i as int), out@, highlighting.themed()),
        decreases segments.len() - i,
    {
        let block = match &segments[i] {
            Segment::Text(t) => Block::Markdown(t.clone()),
            Segment::Code { lang, code } => Block::Terminal(
                highlight_code(lang.as_str(), code.as_str(), highlighting),
            ),
        };
        assert(renders_as(segments@[i as int]@, block@, highlighting.themed()));
        out.push(block);
        assert(views(segments@).take(i + 1) =~= views(segments@).take(i as int).push(
            segments@[i as int]@,
        ));
        i = i + 1;
    }
    assert(views(segments@).take(i as int) =~= views(segments@));
    out
}

/// Renders a document: its segments, in order, each as [`renders_as`] says.
pub fn render_markdown(content: &str, highlighting: &Highlighting) -> (r: Vec<Block>)
    ensures
        renders_all(segments_of(content@), r@, highlighting.themed()),
{
    let segments = split_segments(content);
    render_segments(&segments, highlighting)
}

/// Whatever the highlighter did, the output of a code block ends by
/// resetting the terminal's styling, then a line break.
pub proof fn lemma_code_output_ends_with_reset(seg: SegmentView, out: BlockView, themed: bool)
    requires
        seg is Code,
        renders_as(seg, out, themed),
    ensures
        out matches BlockView::Terminal(x) && x.len() >= 5 && x.subrange(
            x.len() - 5,
            x.len() as int,
        ) == reset_seq() + seq!['\n'],
{
    lemma_code_block_ends_with_reset(
        rendered_lines(seg->Code_0, lines_of(seg->Code_1), themed),
    );
}

/// An empty document has no segments, so it renders to no output at all.
pub proof fn lemma_empty_document_renders_nothing(out: Seq<Block>, themed: bool)
    requires
        renders_all(segments_of(Seq::empty()), out, themed),
    ensures
        out.len() == 0,
{
}

} // verus!
