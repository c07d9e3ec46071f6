use cheetsheet::highlight::{body_lines, frame_code_block, highlight_code};
use cheetsheet::syntax::Highlighting;
use cheetsheet::render::{render_markdown, Block};
use cheetsheet::style::{style_profile, TermColor};

fn plain() -> Highlighting {
    Highlighting::without_theme()
}

fn strip_escapes(s: &str) -> String {
    let mut out = String::new();
    let mut in_escape = false;
    for c in s.chars() {
        if in_escape {
            in_escape = c != 'm';
        } else if c == '\x1b' {
            in_escape = true;
        } else {
            out.push(c);
        }
    }
    out
}

#[test]
fn lines_keep_their_breaks() {
    assert_eq!(body_lines("a\nbc\n\nd"), vec!["a\n", "bc\n", "\n", "d"]);
    assert_eq!(body_lines("x\n"), vec!["x\n"]);
    assert!(body_lines("").is_empty());
}

#[test]
fn frame_indents_and_resets() {
    let lines = vec!["a\n".to_string(), "b".to_string()];
    assert_eq!(frame_code_block(&lines), "\n  a\n  b\n\x1b[0m\n");
    let closed = vec!["a\n".to_string()];
    assert_eq!(frame_code_block(&closed), "\n  a\n\x1b[0m\n");
    assert_eq!(frame_code_block(&Vec::new()), "\n\x1b[0m\n");
}

#[test]
fn code_without_theme_is_plain() {
    assert_eq!(highlight_code("sh", "a\nb", &plain()), "\n  a\n  b\n\x1b[0m\n");
}

#[test]
fn unknown_language_prints_every_line() {
    let h = Highlighting::load();
    let out = highlight_code("not-a-real-lang", "line one\nline two", &h);
    assert!(out.starts_with('\n'));
    assert!(out.contains("line one"));
    assert!(out.contains("line two"));
    assert!(out.ends_with("\x1b[0m\n"));
    assert_eq!(out.matches("\n  ").count(), 2);
    assert_eq!(strip_escapes(&out), "\n  line one\n  line two\n\n");
}

#[test]
fn unknown_language_through_render() {
    let h = Highlighting::load();
    let blocks = render_markdown("```not-a-real-lang\na\nb\n```", &h);
    assert_eq!(blocks.len(), 1);
    assert!(matches!(&blocks[0], Block::Terminal(t) if strip_escapes(t) == "\n  a\n  b\n\n"));
}

#[test]
fn known_language_is_coloured() {
    let h = Highlighting::load();
    let out = highlight_code("rust", "fn main() {}", &h);
    assert!(out.contains("\x1b[38;2;"));
    assert!(out.contains("main"));
    assert!(out.ends_with("\x1b[0m\n"));
}

#[test]
fn render_ends_code_with_reset() {
    let h = Highlighting::load();
    let blocks = render_markdown("# T\n```bash\necho hello\n```\nafter\n", &h);
    assert_eq!(blocks.len(), 3);
    assert!(matches!(&blocks[0], Block::Markdown(t) if t == "# T\n"));
    assert!(matches!(&blocks[1], Block::Terminal(t) if t.ends_with("\x1b[0m\n")));
    assert!(matches!(&blocks[2], Block::Markdown(t) if t == "\nafter\n"));
}

#[test]
fn render_empty_document_is_empty() {
    assert!(render_markdown("", &plain()).is_empty());
}

#[test]
fn render_without_theme_exact() {
    let blocks = render_markdown("x\n```\n1\n2\n```", &plain());
    assert_eq!(blocks.len(), 2);
    assert!(matches!(&blocks[1], Block::Terminal(t) if t == "\n  1\n  2\n\x1b[0m\n"));
}

#[test]
fn style_profile_values() {
    let p = style_profile();
    assert_eq!(p.header_fg, TermColor::Ansi(178));
    assert_eq!(p.bold_header_levels, 2);
    assert_eq!(p.bold_fg, TermColor::Yellow);
    assert_eq!(p.italic_fg, TermColor::Ansi(147));
    assert_eq!(p.inline_code_fg, TermColor::Ansi(222));
    assert_eq!(p.inline_code_bg, TermColor::Ansi(236));
    assert_eq!(p.code_block_fg, TermColor::Gray(17));
    assert_eq!(p.code_block_bg, TermColor::Gray(3));
    assert_eq!(p.table_fg, TermColor::Ansi(117));
}
