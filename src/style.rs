use vstd::prelude::*;

verus! {

/// A terminal colour.
#[derive(Clone, Copy, Debug, PartialEq, Eq, Structural)]
pub enum TermColor {
    /// An entry of the 256-colour palette.
    Ansi(u8),
    /// A step of the 24-step grey ramp.
    Gray(u8),
    /// The terminal's own yellow.
    Yellow,
}

/// Which colours and attributes markdown elements are shown with.
#[derive(Clone, Copy, Debug)]
pub struct StyleProfile {
    pub header_fg: TermColor,
    /// How many header levels, from the first, are also bold.
    pub bold_header_levels: usize,
    pub bold_fg: TermColor,
    pub italic_fg: TermColor,
    pub inline_code_fg: TermColor,
    pub inline_code_bg: TermColor,
    pub code_block_fg: TermColor,
    pub code_block_bg: TermColor,
    pub table_fg: TermColor,
}

/// The fixed styling profile for prose: amber bold top headers, yellow bold
/// text, lavender italics, warm inline code on dark grey, light grey code
/// blocks on near black, light blue tables.
pub fn style_profile() -> (r: StyleProfile)
    ensures
        r.header_fg == TermColor::Ansi(178),
        r.bold_header_levels == 2,
        r.bold_fg == TermColor::Yellow,
        r.italic_fg == TermColor::Ansi(147),
        r.inline_code_fg == TermColor::Ansi(222),
        r.inline_code_bg == TermColor::Ansi(236),
        r.code_block_fg == TermColor::Gray(17),
        r.code_block_bg == TermColor::Gray(3),
        r.table_fg == TermColor::Ansi(117),
{
    StyleProfile {
        header_fg: TermColor::Ansi(178),
        bold_header_levels: 2,
        bold_fg: TermColor::Yellow,
        italic_fg: TermColor::Ansi(147),
        inline_code_fg: TermColor::Ansi(222),
        inline_code_bg: TermColor::Ansi(236),
        code_block_fg: TermColor::Gray(17),
        code_block_bg: TermColor::Gray(3),
        table_fg: TermColor::Ansi(117),
    }
}

} // verus!
