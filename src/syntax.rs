use crate::escape::{closes_escapes, no_escape, plain_text};
use syntect::easy::HighlightLines;
use syntect::highlighting::{Theme, ThemeSet};
use syntect::parsing::SyntaxSet;
use syntect::util::as_24_bit_terminal_escaped;
use vstd::prelude::*;

verus! {

#[verifier::external_type_specification]
#[verifier::external_body]
pub struct ExSyntaxSet(SyntaxSet);

#[verifier::external_type_specification]
#[verifier::external_body]
pub struct ExTheme(Theme);

#[verifier::external_type_specification]
#[verifier::external_body]
pub struct ExHighlightLines<'a>(HighlightLines<'a>);

/// Whether syntect's built-in grammars hold one whose file extension or name
/// matches the token.
pub uninterp spec fn syntax_known(token: Seq<char>) -> bool;

/// What syntect makes of the last of `lines` after the earlier ones, with the
/// built-in grammar that `token` names and the built-in "base16-ocean.dark"
/// theme: its styled regions as true-colour escapes (background, then
/// foreground, then the region's text), or `None` where the grammar fails.
pub uninterp spec fn highlighted(token: Seq<char>, lines: Seq<Seq<char>>) -> Option<Seq<char>>;

/// The name of the built-in dark theme.
pub open spec fn dark_theme_name() -> Seq<char> {
    seq![
        'b', 'a', 's', 'e', '1', '6', '-', 'o', 'c', 'e', 'a', 'n', '.', 'd', 'a', 'r', 'k',
    ]
}

/// Relies on `SyntaxSet::load_defaults_newlines`: syntect's built-in grammars.
#[verifier::external_body]
fn load_syntaxes() -> (r: SyntaxSet) {
    SyntaxSet::load_defaults_newlines()
}

/// Relies on `ThemeSet::load_defaults` and `BTreeMap::remove`: the built-in
/// theme of that name, if there is one; "base16-ocean.dark" is one of them.
#[verifier::external_body]
fn load_theme(name: &str) -> (r: Option<Theme>)
    ensures
        name@ == dark_theme_name() ==> r is Some,
{
    ThemeSet::load_defaults().themes.remove(name)
}

/// The grammars and the colour theme that code blocks are highlighted with:
/// syntect's built-in grammars, and its built-in dark theme or none.
pub struct Highlighting {
    syntaxes: SyntaxSet,
    theme: Option<Theme>,
}

impl Highlighting {
    /// Whether a theme is loaded.
    pub closed spec fn themed(&self) -> bool {
        self.theme is Some
    }

    /// The built-in grammars and the built-in dark theme.
    pub fn load() -> (r: Highlighting)
        ensures
            r.themed(),
    {
        proof {
            reveal_strlit("base16-ocean.dark");
            assert("base16-ocean.dark"@ =~= dark_theme_name());
        }
        Highlighting { syntaxes: load_syntaxes(), theme: load_theme("base16-ocean.dark") }
    }

    /// The built-in grammars and no theme: code is printed without colour.
    pub fn without_theme() -> (r: Highlighting)
        ensures
            !r.themed(),
    {
        Highlighting { syntaxes: load_syntaxes(), theme: None }
    }
}

/// A highlighter part way through a code block. Only the two functions below
/// make or change one; they record the grammar token it was started with and
/// the lines it has been given so far.
pub struct LineHighlighter<'a> {
    hl: HighlightLines<'a>,
    token: Ghost<Seq<char>>,
    fed: Ghost<Seq<Seq<char>>>,
}

impl<'a> LineHighlighter<'a> {
    /// The token of the grammar it was started with.
    pub closed spec fn token(&self) -> Seq<char> {
        self.token@
    }

    /// The lines it has been given so far.
    pub closed spec fn fed(&self) -> Seq<Seq<char>> {
        self.fed@
    }
}

/// Relies on `SyntaxSet::find_syntax_by_token` and `HighlightLines::new`: a
/// highlighter at the start of a file, for the built-in grammar that the
/// token names, under the loaded theme; none without a theme or such a grammar.
#[verifier::external_body]
pub fn start_highlighter<'a>(h: &'a Highlighting, token: &str) -> (r: Option<LineHighlighter<'a>>)
    ensures
        r is Some <==> (h.themed() && syntax_known(token@)),
        r matches Some(lh) ==> lh.token() == token@ && lh.fed() == Seq::<Seq<char>>::empty(),
{
    match (&h.theme, h.syntaxes.find_syntax_by_token(token)) {
        (Some(theme), Some(syntax)) => Some(
            LineHighlighter {
                hl: HighlightLines::new(syntax, theme),
                token: Ghost(token@),
                fed: Ghost(Seq::empty()),
            },
        ),
        _ => None,
    }
}

/// Relies on `HighlightLines::highlight_line` and `as_24_bit_terminal_escaped`
/// (with backgrounds): the escaped regions of the next line, each escape
/// closed by its `m` before the region's text, and the texts joined giving
/// back the line; `None` where the grammar fails on it.
#[verifier::external_body]
pub fn highlight_next(lh: &mut LineHighlighter, h: &Highlighting, line: &str) -> (r: Option<
    String,
>)
    ensures
        final(lh).token() == old(lh).token(),
        final(lh).fed() == old(lh).fed().push(line@),
        r is Some <==> highlighted(old(lh).token(), old(lh).fed().push(line@)) is Some,
        r matches Some(e) ==> highlighted(old(lh).token(), old(lh).fed().push(line@)) == Some(e@),
        r matches Some(e) ==> (no_escape(line@) ==> plain_text(e@) == line@ && closes_escapes(e@)),
{
    let r = match lh.hl.highlight_line(line, &h.syntaxes) {
        Ok(regions) => Some(as_24_bit_terminal_escaped(&regions, true)),
        Err(_) => None,
    };
    lh.fed = Ghost(lh.fed@.push(line@));
    r
}

} // verus!
