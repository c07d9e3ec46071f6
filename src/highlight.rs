use crate::segment::{chars_of, lemma_line_end, line_end, next_line_end};
use crate::escape::{
    visible, closes_escapes, lemma_plain_text_concat, lemma_plain_text_no_escape, no_escape, plain_text,
};
use crate::syntax::{highlight_next, highlighted, start_highlighter, syntax_known, Highlighting};
use vstd::prelude::*;

verus! {

/// The lines of `s` from `pos` on, each with its line break where it has one.
pub open spec fn lines_from(s: Seq<char>, pos: int) -> Seq<Seq<char>>
    decreases s.len() - pos,
    via lines_from_decreases
{
    if pos < 0 || pos >= s.len() {
        Seq::empty()
    } else {
        let stop = if line_end(s, pos) < s.len() {
            line_end(s, pos) + 1
        } else {
            s.len() as int
        };
        seq![s.subrange(pos, stop)] + lines_from(s, stop)
    }
}

#[via_fn]
proof fn lines_from_decreases(s: Seq<char>, pos: int) {
    if 0 <= pos < s.len() {
        lemma_line_end(s, pos);
    }
}

/// The lines of `s`, the last one with or without a line break.
pub open spec fn lines_of(s: Seq<char>) -> Seq<Seq<char>> {
    lines_from(s, 0)
}

pub open spec fn string_views(v: Seq<String>) -> Seq<Seq<char>> {
    v.map_values(|x: String| x@)
}

proof fn lemma_lines_from(s: Seq<char>, pos: int)
    requires
        0 <= pos <= s.len(),
    ensures
        lines_from(s, pos).flatten() == s.subrange(pos, s.len() as int),
        forall|i: int| 0 <= i < lines_from(s, pos).len() ==> #[trigger] lines_from(s, pos)[i].len() > 0,
    decreases s.len() - pos,
{
    if pos < s.len() {
        lemma_line_end(s, pos);
        let stop = if line_end(s, pos) < s.len() {
            line_end(s, pos) + 1
        } else {
            s.len() as int
        };
        lemma_lines_from(s, stop);
        let first = s.subrange(pos, stop);
        assert(lines_from(s, pos).drop_first() =~= lines_from(s, stop));
        assert(s.subrange(pos, s.len() as int) =~= first + s.subrange(stop, s.len() as int));
    } else {
        assert(s.subrange(pos, s.len() as int) =~= Seq::<char>::empty());
    }
}

/// Joined, the lines of a text give it back, and none of them is empty.
pub proof fn lemma_lines_rejoin(s: Seq<char>)
    ensures
        lines_of(s).flatten() == s,
        forall|i: int| 0 <= i < lines_of(s).len() ==> #[trigger] lines_of(s)[i].len() > 0,
{
    lemma_lines_from(s, 0);
    assert(s.subrange(0, s.len() as int) =~= s);
}

/// Splits `text` into lines, keeping each line break.
pub fn body_lines(text: &str) -> (r: Vec<String>)
    ensures
        string_views(r@) == lines_of(text@),
{
    let s = chars_of(text);
    let ghost g = text@;
    let mut lines: Vec<String> = Vec::new();
    let mut pos: usize = 0;
    while pos < s.len()
        invariant
            s@ == g,
            g == text@,
            pos <= g.len(),
            lines_of(g) == string_views(lines@) + lines_from(g, pos as int),
        decreases g.len() - pos,
    {
        proof {
            lemma_line_end(g, pos as int);
        }
        let e = next_line_end(&s, pos);
        let stop = if e < s.len() {
            e + 1
        } else {
            e
        };
        let line = String::from_str(text.substring_char(pos, stop));
        let ghost before = string_views(lines@);
        lines.push(line);
        assert(string_views(lines@) =~= before.push(g.subrange(pos as int, stop as int)));
        assert(lines_from(g, pos as int) == seq![g.subrange(pos as int, stop as int)] + lines_from(g, stop as int));
        assert(lines_of(g) =~= string_views(lines@) + lines_from(g, stop as int));
        pos = stop;
    }
    assert(lines_of(g) =~= string_views(lines@));
    lines
}


/// The escape sequence that resets all terminal styling.
pub open spec fn reset_seq() -> Seq<char> {
    seq!['\x1b', '[', '0', 'm']
}

/// Each line behind a two-space indent.
pub open spec fn indented(lines: Seq<Seq<char>>) -> Seq<Seq<char>> {
    lines.map_values(|l: Seq<char>| seq![' ', ' '] + l)
}

/// Whether the last line is left open, without a line break.
pub open spec fn ends_open(lines: Seq<Seq<char>>) -> bool {
    lines.len() > 0 && !(lines.last().len() > 0 && lines.last().last() == '\n')
}

/// A code block as printed: a blank line, each line indented, a line break
/// where the last line has none, then a styling reset and a line break, which
/// leaves one blank line after the block.
pub open spec fn code_block_text(lines: Seq<Seq<char>>) -> Seq<char> {
    seq!['\n'] + indented(lines).flatten() + (if ends_open(lines) {
        seq!['\n']
    } else {
        Seq::empty()
    }) + reset_seq() + seq!['\n']
}

/// Lays out rendered lines of code as a block for the terminal.
pub fn frame_code_block(lines: &Vec<String>) -> (r: String)
    ensures
        r@ == code_block_text(string_views(lines@)),
{
    let mut out = String::from_str("\n");
    proof {
        reveal_strlit("\n");
        reveal_strlit("\x1b[0m\n");
    }
    let mut i: usize = 0;
    while i < lines.len()
        invariant
            i <= lines.len(),
            out@ == seq!['\n'] + indented(string_views(lines@).take(i as int)).flatten(),
        decreases lines.len() - i,
    {
        let ghost prev = indented(string_views(lines@).take(i as int));
        proof {
            reveal_strlit("  ");
        }
        out.append("  ");
        out.append(lines[i].as_str());
        assert(indented(string_views(lines@).take(i + 1)) =~= prev.push(
            seq![' ', ' '] + lines[i as int]@,
        ));
        proof {
            prev.lemma_flatten_push(seq![' ', ' '] + lines[i as int]@);
        }
        i = i + 1;
    }
    assert(string_views(lines@).take(i as int) =~= string_views(lines@));
    let n = lines.len();
    if n > 0 {
        let last = lines[n - 1].as_str();
        let k = last.unicode_len();
        let closed = k > 0 && last.get_char(k - 1) == '\n';
        if !closed {
            out.append("\n");
        }
    }
    out.append("\x1b[0m\n");
    out
}

/// The token of the grammar a code block is highlighted with: its language
/// tag where a built-in grammar matches it, else plain text.
pub open spec fn grammar_token(lang: Seq<char>) -> Seq<char> {
    if syntax_known(lang) {
        lang
    } else {
        seq!['t', 'x', 't']
    }
}

/// The `i`-th line as highlighted after the lines before it, or the line
/// itself where the grammar fails on it.
pub open spec fn rendered_line(token: Seq<char>, lines: Seq<Seq<char>>, i: int) -> Seq<char> {
    match highlighted(token, lines.take(i + 1)) {
        Some(e) => e,
        None => lines[i],
    }
}

/// The lines of a code block as printed: each one highlighted where a theme
/// and a grammar are there, else the lines as they are.
pub open spec fn rendered_lines(lang: Seq<char>, lines: Seq<Seq<char>>, themed: bool) -> Seq<
    Seq<char>,
> {
    if themed && syntax_known(grammar_token(lang)) {
        Seq::new(lines.len(), |i: int| rendered_line(grammar_token(lang), lines, i))
    } else {
        lines
    }
}

/// Whether every line shows its own text once escapes are left out.
pub open spec fn shows_lines(rendered: Seq<Seq<char>>, lines: Seq<Seq<char>>) -> bool {
    &&& rendered.len() == lines.len()
    &&& forall|i: int|
        0 <= i < lines.len() && no_escape(#[trigger] lines[i]) ==> plain_text(rendered[i])
            == lines[i] && closes_escapes(rendered[i])
}

/// Whether no line holds an escape character.
pub open spec fn all_plain(lines: Seq<Seq<char>>) -> bool {
    forall|i: int| 0 <= i < lines.len() ==> no_escape(#[trigger] lines[i])
}

proof fn lemma_indented_visible(rendered: Seq<Seq<char>>, lines: Seq<Seq<char>>)
    requires
        shows_lines(rendered, lines),
        all_plain(lines),
    ensures
        plain_text(indented(rendered).flatten()) == indented(lines).flatten(),
        closes_escapes(indented(rendered).flatten()),
    decreases rendered.len(),
{
    let two = seq![' ', ' '];
    if rendered.len() > 0 {
        let r0 = rendered[0];
        let l0 = lines[0];
        assert(no_escape(l0));
        assert(shows_lines(rendered.drop_first(), lines.drop_first())) by {
            assert forall|i: int|
                0 <= i < lines.drop_first().len() && no_escape(
                    #[trigger] lines.drop_first()[i],
                ) implies plain_text(rendered.drop_first()[i]) == lines.drop_first()[i]
                && closes_escapes(rendered.drop_first()[i]) by {
                assert(no_escape(lines[i + 1]));
            }
        }
        lemma_indented_visible(rendered.drop_first(), lines.drop_first());
        assert(indented(rendered).drop_first() =~= indented(rendered.drop_first()));
        assert(indented(lines).drop_first() =~= indented(lines.drop_first()));
        assert(indented(rendered).flatten() == (two + r0) + indented(
            rendered.drop_first(),
        ).flatten());
        assert(indented(lines).flatten() == (two + l0) + indented(lines.drop_first()).flatten());
        assert(no_escape(two));
        lemma_plain_text_no_escape(two);
        lemma_plain_text_concat(two, r0);
        lemma_plain_text_concat(two + r0, indented(rendered.drop_first()).flatten());
    } else {
        assert(indented(rendered).flatten() =~= Seq::<char>::empty());
        assert(indented(lines).flatten() =~= Seq::<char>::empty());
    }
}

/// Where no line of a code block holds an escape character, the block shows,
/// once escape sequences are left out, a blank line, each line of the body
/// behind two spaces, and then only line breaks.
pub proof fn lemma_block_visible_text(rendered: Seq<Seq<char>>, lines: Seq<Seq<char>>)
    requires
        shows_lines(rendered, lines),
        all_plain(lines),
    ensures
        plain_text(code_block_text(rendered)) == seq!['\n'] + indented(lines).flatten() + (if ends_open(
            rendered,
        ) {
            seq!['\n']
        } else {
            Seq::empty()
        }) + seq!['\n'],
{
    let f = indented(rendered).flatten();
    let x: Seq<char> = if ends_open(rendered) {
        seq!['\n']
    } else {
        Seq::empty()
    };
    let nl = seq!['\n'];
    lemma_indented_visible(rendered, lines);
    assert(no_escape(nl));
    assert(no_escape(x));
    lemma_plain_text_no_escape(nl);
    lemma_plain_text_no_escape(x);
    lemma_plain_text_concat(nl, f);
    lemma_plain_text_concat(nl + f, x);
    let tail = reset_seq() + nl;
    assert(plain_text(tail) == nl) by {
        let d1 = seq!['[', '0', 'm', '\n'];
        let d2 = seq!['0', 'm', '\n'];
        let d3 = seq!['m', '\n'];
        assert(tail.drop_first() =~= d1);
        assert(d1.drop_first() =~= d2);
        assert(d2.drop_first() =~= d3);
        assert(d3.drop_first() =~= nl);
        assert(nl.drop_first() =~= Seq::<char>::empty());
        assert(visible(nl, false) =~= nl);
        assert(visible(d3, true) == visible(nl, false));
        assert(visible(d2, true) == visible(d3, true));
        assert(visible(d1, true) == visible(d2, true));
        assert(visible(tail, false) == visible(d1, true));
    }
    lemma_plain_text_concat(nl + f + x, tail);
    assert(code_block_text(rendered) =~= (nl + f + x) + tail);
}

/// Renders the lines of a code block, as [`rendered_lines`] says.
pub fn highlight_lines(lang: &str, lines: &Vec<String>, highlighting: &Highlighting) -> (r: Vec<
    String,
>)
    ensures
        string_views(r@) == rendered_lines(lang@, string_views(lines@), highlighting.themed()),
        shows_lines(string_views(r@), string_views(lines@)),
{
    let ghost lv = string_views(lines@);
    let ghost tok = grammar_token(lang@);
    proof {
        reveal_strlit("txt");
        assert("txt"@ =~= seq!['t', 'x', 't']);
    }
    let mut out: Vec<String> = Vec::new();
    let started = match start_highlighter(highlighting, lang) {
        Some(lh) => Some(lh),
        None => start_highlighter(highlighting, "txt"),
    };
    match started {
        Some(mut lh) => {
            assert(lh.token() == tok);
            assert(lv.take(0) =~= Seq::<Seq<char>>::empty());
            let mut i: usize = 0;
            while i < lines.len()
                invariant
                    i <= lines.len(),
                    lv == string_views(lines@),
                    lh.token() == tok,
                    lh.fed() == lv.take(i as int),
                    out.len() == i,
                    forall|j: int| 0 <= j < i ==> (#[trigger] out@[j])@ == rendered_line(tok, lv, j),
                    forall|j: int|
                        0 <= j < i && no_escape(#[trigger] lv[j]) ==> plain_text(out@[j]@) == lv[j]
                            && closes_escapes(out@[j]@),
                decreases lines.len() - i,
            {
                assert(lv.take(i as int).push(lv[i as int]) =~= lv.take(i + 1));
                let rendered = match highlight_next(&mut lh, highlighting, lines[i].as_str()) {
                    Some(e) => e,
                    None => lines[i].clone(),
                };
                proof {
                    if no_escape(lv[i as int]) {
                        lemma_plain_text_no_escape(lv[i as int]);
                    }
                }
                out.push(rendered);
                i = i + 1;
            }
            assert(string_views(out@) =~= rendered_lines(lang@, lv, highlighting.themed()));
            return out;
        },
        None => {},
    }
    let mut i: usize = 0;
    while i < lines.len()
        invariant
            i <= lines.len(),
            string_views(out@) == string_views(lines@).take(i as int),
        decreases lines.len() - i,
    {
        let ghost prev = string_views(out@);
        let line = lines[i].clone();
        assert(line@ == string_views(lines@)[i as int]);
        out.push(line);
        assert(string_views(out@) =~= prev.push(line@));
        i = i + 1;
    }
    assert(string_views(lines@).take(i as int) =~= string_views(lines@));
    proof {
        assert forall|j: int|
            0 <= j < lv.len() && no_escape(#[trigger] lv[j]) implies plain_text(lv[j]) == lv[j]
            && closes_escapes(lv[j]) by {
            lemma_plain_text_no_escape(lv[j]);
        }
    }
    out
}

/// The text that prints a fenced code block: its body's lines rendered as
/// [`rendered_lines`] says, framed as [`code_block_text`] says.
pub fn highlight_code(lang: &str, code: &str, highlighting: &Highlighting) -> (r: String)
    ensures
        r@ == code_block_text(rendered_lines(lang@, lines_of(code@), highlighting.themed())),
        shows_lines(rendered_lines(lang@, lines_of(code@), highlighting.themed()), lines_of(code@)),
        all_plain(lines_of(code@)) ==> plain_text(r@) == seq!['\n'] + indented(lines_of(code@)).flatten()
            + (if ends_open(rendered_lines(lang@, lines_of(code@), highlighting.themed())) {
            seq!['\n']
        } else {
            Seq::empty()
        }) + seq!['\n'],
{
    let lines = body_lines(code);
    let rendered = highlight_lines(lang, &lines, highlighting);
    let r = frame_code_block(&rendered);
    proof {
        if all_plain(lines_of(code@)) {
            lemma_block_visible_text(string_views(rendered@), lines_of(code@));
        }
    }
    r
}

/// A printed code block ends by resetting the terminal's styling, then a line break.
pub proof fn lemma_code_block_ends_with_reset(lines: Seq<Seq<char>>)
    ensures
        code_block_text(lines).len() >= 5,
        code_block_text(lines).subrange(
            code_block_text(lines).len() - 5,
            code_block_text(lines).len() as int,
        ) == reset_seq() + seq!['\n'],
{
    let t = code_block_text(lines);
    let head = seq!['\n'] + indented(lines).flatten() + (if ends_open(lines) {
        seq!['\n']
    } else {
        Seq::empty()
    });
    assert(t =~= head + (reset_seq() + seq!['\n']));
    assert(t.subrange(t.len() - 5, t.len() as int) =~= reset_seq() + seq!['\n']);
}

} // verus!
