use cheetsheet::segment::{split_segments, Segment};

fn text(s: &Segment) -> Option<&str> {
    match s {
        Segment::Text(t) => Some(t.as_str()),
        Segment::Code { .. } => None,
    }
}

fn code(s: &Segment) -> Option<(&str, &str)> {
    match s {
        Segment::Code { lang, code } => Some((lang.as_str(), code.as_str())),
        Segment::Text(_) => None,
    }
}

#[test]
fn test_split_segments_no_code() {
    let content = "# Title\n\nSome text\n";
    let segments = split_segments(content);
    assert_eq!(segments.len(), 1);
    assert!(matches!(&segments[0], Segment::Text(t) if t == content));
}

#[test]
fn test_split_segments_with_code() {
    let content = "# Title\n\n```bash\necho hello\n```\n\nAfter\n";
    let segments = split_segments(content);
    assert_eq!(segments.len(), 3);
    assert!(matches!(&segments[0], Segment::Text(_)));
    assert!(matches!(&segments[1], Segment::Code { lang, code }
        if lang == "bash" && code == "echo hello"));
    assert!(matches!(&segments[2], Segment::Text(_)));
}

#[test]
fn split_with_code_exact_segments() {
    let segments = split_segments("# Title\n\n```bash\necho hello\n```\n\nAfter\n");
    assert_eq!(segments.len(), 3);
    assert_eq!(text(&segments[0]), Some("# Title\n\n"));
    assert_eq!(code(&segments[1]), Some(("bash", "echo hello")));
    assert_eq!(text(&segments[2]), Some("\n\nAfter\n"));
}

#[test]
fn split_unclosed_fence_kept_verbatim() {
    let segments = split_segments("before\n```python\nprint(1)\n");
    assert_eq!(segments.len(), 2);
    assert_eq!(text(&segments[0]), Some("before\n"));
    assert_eq!(text(&segments[1]), Some("```python\nprint(1)\n"));
}

#[test]
fn split_empty_document() {
    assert_eq!(split_segments("").len(), 0);
}

#[test]
fn split_plain_text_is_one_segment() {
    let content = "no fences here, only `inline` and ``double``\n";
    let segments = split_segments(content);
    assert_eq!(segments.len(), 1);
    assert_eq!(text(&segments[0]), Some(content));
}

#[test]
fn split_fence_at_start_has_no_empty_text() {
    let segments = split_segments("```\ncode\n```");
    assert_eq!(segments.len(), 1);
    assert_eq!(code(&segments[0]), Some(("", "code")));
}

#[test]
fn split_adjacent_blocks() {
    let segments = split_segments("a\n```sh\nx\n```\n```py\ny\n```");
    assert_eq!(segments.len(), 4);
    assert_eq!(text(&segments[0]), Some("a\n"));
    assert_eq!(code(&segments[1]), Some(("sh", "x")));
    assert_eq!(text(&segments[2]), Some("\n"));
    assert_eq!(code(&segments[3]), Some(("py", "y")));
}

#[test]
fn split_backticks_inside_body_do_not_close() {
    let segments = split_segments("```md\nuse ```x``` here\n```");
    assert_eq!(segments.len(), 1);
    assert_eq!(code(&segments[0]), Some(("md", "use ```x``` here")));
}

#[test]
fn split_language_tag_is_trimmed() {
    let segments = split_segments("```  bash \t\nls\n```");
    assert_eq!(segments.len(), 1);
    assert_eq!(code(&segments[0]), Some(("bash", "ls")));
}

#[test]
fn split_blank_lines_after_tag_are_skipped() {
    let segments = split_segments("```sh\n\n\nx\n```");
    assert_eq!(code(&segments[0]), Some(("sh", "x")));
}

#[test]
fn split_unclosed_stops_scanning() {
    let segments = split_segments("t\n```a\nb ```c\n");
    assert_eq!(segments.len(), 2);
    assert_eq!(text(&segments[1]), Some("```a\nb ```c\n"));
}

#[test]
fn split_empty_body_counts_as_unclosed() {
    let segments = split_segments("```sh\n```");
    assert_eq!(segments.len(), 1);
    assert_eq!(text(&segments[0]), Some("```sh\n```"));
}

#[test]
fn split_multibyte_text() {
    let segments = split_segments("標題 ü\n```rs\nlet é = 1;\n```\n終");
    assert_eq!(segments.len(), 3);
    assert_eq!(text(&segments[0]), Some("標題 ü\n"));
    assert_eq!(code(&segments[1]), Some(("rs", "let é = 1;")));
    assert_eq!(text(&segments[2]), Some("\n終"));
}

#[test]
fn split_spans_rebuild_document() {
    let content = "intro\n```bash\necho hi\n```\nmid\n```\nraw\n```\nend";
    let mut rebuilt = String::new();
    for seg in split_segments(content) {
        match seg {
            Segment::Text(t) => rebuilt.push_str(&t),
            Segment::Code { lang, code } => {
                rebuilt.push_str(&format!("```{lang}\n{code}\n```"));
            }
        }
    }
    assert_eq!(rebuilt, content);
}

#[test]
fn split_language_tag_trims_unicode_space() {
    let segments = split_segments("```\u{3000}bash\u{a0}\u{2009}\nls\n```");
    assert_eq!(code(&segments[0]), Some(("bash", "ls")));
}
