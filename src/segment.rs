use vstd::prelude::*;

verus! {

/// Whether three backticks start at `i`.
pub open spec fn is_fence_at(s: Seq<char>, i: int) -> bool {
    0 <= i && i + 3 <= s.len() && s[i] == '`' && s[i + 1] == '`' && s[i + 2] == '`'
}

/// Whether a line break followed by three backticks starts at `i`.
pub open spec fn is_close_at(s: Seq<char>, i: int) -> bool {
    0 <= i && i < s.len() && s[i] == '\n' && is_fence_at(s, i + 1)
}

/// The first fence marker at or after `pos`.
pub open spec fn find_fence(s: Seq<char>, pos: int) -> Option<int>
    decreases s.len() - pos,
{
    if pos < 0 || pos + 3 > s.len() {
        None
    } else if is_fence_at(s, pos) {
        Some(pos)
    } else {
        find_fence(s, pos + 1)
    }
}

/// The first closing fence (line break, then three backticks) at or after `pos`.
pub open spec fn find_close(s: Seq<char>, pos: int) -> Option<int>
    decreases s.len() - pos,
{
    if pos < 0 || pos + 4 > s.len() {
        None
    } else if is_close_at(s, pos) {
        Some(pos)
    } else {
        find_close(s, pos + 1)
    }
}

/// The position of the first line break at or after `pos`, or the end of `s`.
pub open spec fn line_end(s: Seq<char>, pos: int) -> int
    decreases s.len() - pos,
{
    if pos < 0 || pos >= s.len() {
        s.len() as int
    } else if s[pos] == '\n' {
        pos
    } else {
        line_end(s, pos + 1)
    }
}

/// The first position at or after `pos` that holds no line break.
pub open spec fn skip_newlines(s: Seq<char>, pos: int) -> int
    decreases s.len() - pos,
{
    if pos < 0 || pos >= s.len() {
        s.len() as int
    } else if s[pos] != '\n' {
        pos
    } else {
        skip_newlines(s, pos + 1)
    }
}

pub proof fn lemma_find_fence(s: Seq<char>, pos: int)
    requires
        0 <= pos,
    ensures
        find_fence(s, pos) matches Some(f) ==> pos <= f && is_fence_at(s, f),
        find_fence(s, pos) matches Some(f) ==> forall|i: int| pos <= i < f ==> !is_fence_at(s, i),
        find_fence(s, pos) is None ==> forall|i: int| pos <= i ==> !is_fence_at(s, i),
    decreases s.len() - pos,
{
    if pos + 3 <= s.len() && !is_fence_at(s, pos) {
        lemma_find_fence(s, pos + 1);
    }
}

pub proof fn lemma_find_close(s: Seq<char>, pos: int)
    requires
        0 <= pos,
    ensures
        find_close(s, pos) matches Some(c) ==> pos <= c && is_close_at(s, c),
    decreases s.len() - pos,
{
    if pos + 4 <= s.len() && !is_close_at(s, pos) {
        lemma_find_close(s, pos + 1);
    }
}

pub proof fn lemma_line_end(s: Seq<char>, pos: int)
    requires
        0 <= pos <= s.len(),
    ensures
        pos <= line_end(s, pos) <= s.len(),
        forall|i: int| pos <= i < line_end(s, pos) ==> s[i] != '\n',
        line_end(s, pos) < s.len() ==> s[line_end(s, pos)] == '\n',
    decreases s.len() - pos,
{
    if pos < s.len() && s[pos] != '\n' {
        lemma_line_end(s, pos + 1);
    }
}

pub proof fn lemma_skip_newlines(s: Seq<char>, pos: int)
    requires
        0 <= pos <= s.len(),
    ensures
        pos <= skip_newlines(s, pos) <= s.len(),
        forall|i: int| pos <= i < skip_newlines(s, pos) ==> s[i] == '\n',
        skip_newlines(s, pos) < s.len() ==> s[skip_newlines(s, pos)] != '\n',
    decreases s.len() - pos,
{
    if pos < s.len() && s[pos] == '\n' {
        lemma_skip_newlines(s, pos + 1);
    }
}

fn fence_at(s: &Vec<char>, i: usize) -> (r: bool)
    ensures
        r == is_fence_at(s@, i as int),
{
    i <= s.len() && s.len() - i >= 3 && s[i] == '`' && s[i + 1] == '`' && s[i + 2] == '`'
}

fn next_fence(s: &Vec<char>, pos: usize) -> (r: Option<usize>)
    requires
        pos <= s.len(),
    ensures
        r matches Some(f) ==> find_fence(s@, pos as int) == Some(f as int),
        r is None ==> find_fence(s@, pos as int) is None,
{
    let mut i = pos;
    while i < s.len()
        invariant
            pos <= i <= s.len(),
            find_fence(s@, pos as int) == find_fence(s@, i as int),
        decreases s.len() - i,
    {
        if fence_at(s, i) {
            return Some(i);
        }
        i = i + 1;
    }
    None
}

fn next_close(s: &Vec<char>, pos: usize) -> (r: Option<usize>)
    requires
        pos <= s.len(),
    ensures
        r matches Some(c) ==> find_close(s@, pos as int) == Some(c as int),
        r is None ==> find_close(s@, pos as int) is None,
{
    let mut i = pos;
    while i < s.len()
        invariant
            pos <= i <= s.len(),
            find_close(s@, pos as int) == find_close(s@, i as int),
        decreases s.len() - i,
    {
        if s[i] == '\n' && fence_at(s, i + 1) {
            return Some(i);
        }
        i = i + 1;
    }
    None
}

pub(crate) fn next_line_end(s: &Vec<char>, pos: usize) -> (r: usize)
    requires
        pos <= s.len(),
    ensures
        r == line_end(s@, pos as int),
{
    let mut i = pos;
    while i < s.len() && s[i] != '\n'
        invariant
            pos <= i <= s.len(),
            line_end(s@, pos as int) == line_end(s@, i as int),
        decreases s.len() - i,
    {
        i = i + 1;
    }
    i
}

fn past_newlines(s: &Vec<char>, pos: usize) -> (r: usize)
    requires
        pos <= s.len(),
    ensures
        r == skip_newlines(s@, pos as int),
{
    let mut i = pos;
    while i < s.len() && s[i] == '\n'
        invariant
            pos <= i <= s.len(),
            skip_newlines(s@, pos as int) == skip_newlines(s@, i as int),
        decreases s.len() - i,
    {
        i = i + 1;
    }
    i
}


/// Whether `c` has the Unicode White_Space property.
pub open spec fn is_white_space(c: char) -> bool {
    let n = c as u32;
    (0x9 <= n <= 0xd) || n == 0x20 || n == 0x85 || n == 0xa0 || n == 0x1680 || (0x2000 <= n
        <= 0x200a) || n == 0x2028 || n == 0x2029 || n == 0x202f || n == 0x205f || n == 0x3000
}

/// `s` without its leading white space.
pub open spec fn trim_start(s: Seq<char>) -> Seq<char>
    decreases s.len(),
{
    if s.len() > 0 && is_white_space(s[0]) {
        trim_start(s.drop_first())
    } else {
        s
    }
}

/// `s` without its trailing white space.
pub open spec fn trim_end(s: Seq<char>) -> Seq<char>
    decreases s.len(),
{
    if s.len() > 0 && is_white_space(s.last()) {
        trim_end(s.drop_last())
    } else {
        s
    }
}

/// `s` without leading and trailing white space.
pub open spec fn trimmed(s: Seq<char>) -> Seq<char> {
    trim_end(trim_start(s))
}

fn white_space(c: char) -> (r: bool)
    ensures
        r == is_white_space(c),
{
    let n = c as u32;
    (0x9 <= n && n <= 0xd) || n == 0x20 || n == 0x85 || n == 0xa0 || n == 0x1680 || (0x2000 <= n
        && n <= 0x200a) || n == 0x2028 || n == 0x2029 || n == 0x202f || n == 0x205f || n == 0x3000
}

/// The bounds of what is left of `s[from..to]` without its leading and
/// trailing white space.
fn trim_bounds(s: &Vec<char>, from: usize, to: usize) -> (r: (usize, usize))
    requires
        from <= to <= s.len(),
    ensures
        from <= r.0 <= r.1 <= to,
        s@.subrange(r.0 as int, r.1 as int) == trimmed(s@.subrange(from as int, to as int)),
{
    let mut a = from;
    while a < to && white_space(s[a])
        invariant
            from <= a <= to <= s.len(),
            trim_start(s@.subrange(from as int, to as int)) == trim_start(
                s@.subrange(a as int, to as int),
            ),
        decreases to - a,
    {
        assert(s@.subrange(a as int, to as int).drop_first() =~= s@.subrange(a + 1, to as int));
        a = a + 1;
    }
    assert(trim_start(s@.subrange(a as int, to as int)) == s@.subrange(a as int, to as int));
    let mut b = to;
    while b > a && white_space(s[b - 1])
        invariant
            from <= a <= b <= to <= s.len(),
            trim_start(s@.subrange(from as int, to as int)) == s@.subrange(a as int, to as int),
            trim_end(s@.subrange(a as int, to as int)) == trim_end(s@.subrange(a as int, b as int)),
        decreases b - a,
    {
        assert(s@.subrange(a as int, b as int).drop_last() =~= s@.subrange(a as int, b - 1));
        b = b - 1;
    }
    assert(trim_end(s@.subrange(a as int, b as int)) == s@.subrange(a as int, b as int));
    (a, b)
}

/// One run of a document: prose, or a fenced code block.
pub enum Segment {
    Text(String),
    Code { lang: String, code: String },
}

/// The mathematical value of a [`Segment`].
pub enum SegmentView {
    Text(Seq<char>),
    Code(Seq<char>, Seq<char>),
}

impl View for Segment {
    type V = SegmentView;

    open spec fn view(&self) -> SegmentView {
        match self {
            Segment::Text(t) => SegmentView::Text(t@),
            Segment::Code { lang, code } => SegmentView::Code(lang@, code@),
        }
    }
}

pub open spec fn views(v: Seq<Segment>) -> Seq<SegmentView> {
    v.map_values(|x: Segment| x@)
}

/// A text segment for `t`, or nothing where `t` is empty.
pub open spec fn text_run(t: Seq<char>) -> Seq<SegmentView> {
    if t.len() == 0 {
        Seq::empty()
    } else {
        seq![SegmentView::Text(t)]
    }
}

/// Where the body of the block opened by the fence at `f` begins.
pub open spec fn body_start(s: Seq<char>, f: int) -> int {
    skip_newlines(s, line_end(s, f + 3))
}

/// The language tag of the block opened by the fence at `f`.
pub open spec fn lang_tag(s: Seq<char>, f: int) -> Seq<char> {
    trimmed(s.subrange(f + 3, line_end(s, f + 3)))
}

proof fn lemma_step_bounds(s: Seq<char>, pos: int)
    requires
        0 <= pos <= s.len(),
    ensures
        find_fence(s, pos) matches Some(f) ==> {
            &&& pos <= f
            &&& f + 3 <= line_end(s, f + 3) <= body_start(s, f) <= s.len()
            &&& find_close(s, body_start(s, f)) matches Some(c) ==> body_start(s, f) <= c && c
                + 4 <= s.len()
        },
{
    lemma_find_fence(s, pos);
    if let Some(f) = find_fence(s, pos) {
        lemma_line_end(s, f + 3);
        lemma_skip_newlines(s, line_end(s, f + 3));
        lemma_find_close(s, body_start(s, f));
    }
}

/// The segments of `s` from position `pos` on.
pub open spec fn segments_from(s: Seq<char>, pos: int) -> Seq<SegmentView>
    decreases s.len() - pos,
    via segments_from_decreases
{
    if pos < 0 || pos > s.len() {
        Seq::empty()
    } else {
        match find_fence(s, pos) {
            None => text_run(s.subrange(pos, s.len() as int)),
            Some(f) => match find_close(s, body_start(s, f)) {
                Some(c) => text_run(s.subrange(pos, f)) + seq![
                    SegmentView::Code(lang_tag(s, f), s.subrange(body_start(s, f), c)),
                ] + segments_from(s, c + 4),
                None => text_run(s.subrange(pos, f)) + seq![
                    SegmentView::Text(s.subrange(f, s.len() as int)),
                ],
            },
        }
    }
}

#[via_fn]
proof fn segments_from_decreases(s: Seq<char>, pos: int) {
    if 0 <= pos <= s.len() {
        lemma_step_bounds(s, pos);
    }
}

/// The segments of a whole document.
pub open spec fn segments_of(s: Seq<char>) -> Seq<SegmentView> {
    segments_from(s, 0)
}

fn text_segment(content: &str, from: usize, to: usize) -> (r: Segment)
    requires
        from <= to <= content@.len(),
    ensures
        r@ == SegmentView::Text(content@.subrange(from as int, to as int)),
{
    Segment::Text(String::from_str(content.substring_char(from, to)))
}

fn push_text_run(segs: &mut Vec<Segment>, content: &str, from: usize, to: usize)
    requires
        from <= to <= content@.len(),
    ensures
        views(final(segs)@) == views(old(segs)@) + text_run(
            content@.subrange(from as int, to as int),
        ),
{
    if from < to {
        let seg = text_segment(content, from, to);
        segs.push(seg);
        proof {
            assert(views(final(segs)@) =~= views(old(segs)@) + text_run(
                content@.subrange(from as int, to as int),
            ));
        }
    } else {
        assert(views(segs@) =~= views(old(segs)@) + text_run(
            content@.subrange(from as int, to as int),
        ));
    }
}

pub(crate) fn chars_of(content: &str) -> (r: Vec<char>)
    ensures
        r@ == content@,
{
    let mut v: Vec<char> = Vec::new();
    for c in it: content.chars()
        invariant
            v@ == it.seq().take(it.index() as int),
    {
        v.push(c);
    }
    v
}


/// Splits a document into prose and fenced code blocks, in document order.
pub fn split_segments(content: &str) -> (r: Vec<Segment>)
    ensures
        views(r@) == segments_of(content@),
{
    let s = chars_of(content);
    let ghost g = content@;
    let mut segs: Vec<Segment> = Vec::new();
    let mut pos: usize = 0;
    let mut done = false;
    while !done
        invariant
            s@ == g,
            g == content@,
            pos <= g.len(),
            segments_of(g) == views(segs@) + (if done {
                Seq::empty()
            } else {
                segments_from(g, pos as int)
            }),
        decreases g.len() - pos + (if done {
            0int
        } else {
            1int
        }),
    {
        proof {
            lemma_step_bounds(g, pos as int);
        }
        match next_fence(&s, pos) {
            None => {
                push_text_run(&mut segs, content, pos, s.len());
                done = true;
                assert(segments_of(g) == views(segs@) + Seq::<SegmentView>::empty());
            },
            Some(f) => {
                push_text_run(&mut segs, content, pos, f);
                let le = next_line_end(&s, f + 3);
                let start = past_newlines(&s, le);
                match next_close(&s, start) {
                    Some(c) => {
                        let (ta, tb) = trim_bounds(&s, f + 3, le);
                        let lang = String::from_str(content.substring_char(ta, tb));
                        let code = String::from_str(content.substring_char(start, c));
                        let ghost mid = views(segs@);
                        segs.push(Segment::Code { lang, code });
                        assert(views(segs@) =~= mid.push(
                            SegmentView::Code(lang_tag(g, f as int), g.subrange(start as int, c as int)),
                        ));
                        pos = c + 4;
                        assert(segments_of(g) =~= views(segs@) + segments_from(g, pos as int));
                    },
                    None => {
                        push_text_run(&mut segs, content, f, s.len());
                        done = true;
                        assert(segments_of(g) =~= views(segs@) + Seq::<SegmentView>::empty());
                    },
                }
            },
        }
    }
    segs
}


proof fn lemma_no_fence(s: Seq<char>, pos: int)
    requires
        0 <= pos,
        forall|i: int| 0 <= i ==> !is_fence_at(s, i),
    ensures
        find_fence(s, pos) is None,
    decreases s.len() - pos,
{
    if pos + 3 <= s.len() {
        assert(!is_fence_at(s, pos));
        lemma_no_fence(s, pos + 1);
    }
}

/// A document without any fence marker is one text segment holding all of
/// it, or no segment at all when it is empty.
pub proof fn lemma_no_fence_single_text(s: Seq<char>)
    requires
        forall|i: int| 0 <= i ==> !is_fence_at(s, i),
    ensures
        s.len() == 0 ==> segments_of(s).len() == 0,
        s.len() > 0 ==> segments_of(s) == seq![SegmentView::Text(s)],
{
    lemma_no_fence(s, 0);
    assert(s.subrange(0, s.len() as int) =~= s);
}

/// The three backticks of a fence marker.
pub open spec fn fence() -> Seq<char> {
    seq!['`', '`', '`']
}

/// A span of the document holding `t`, or none where `t` is empty.
pub open spec fn raw_run(t: Seq<char>) -> Seq<Seq<char>> {
    if t.len() == 0 {
        Seq::empty()
    } else {
        seq![t]
    }
}

/// The spans of `s` from `pos` on that the segments come from, one for each.
pub open spec fn spans_from(s: Seq<char>, pos: int) -> Seq<Seq<char>>
    decreases s.len() - pos,
    via spans_from_decreases
{
    if pos < 0 || pos > s.len() {
        Seq::empty()
    } else {
        match find_fence(s, pos) {
            None => raw_run(s.subrange(pos, s.len() as int)),
            Some(f) => match find_close(s, body_start(s, f)) {
                Some(c) => raw_run(s.subrange(pos, f)) + seq![s.subrange(f, c + 4)] + spans_from(
                    s,
                    c + 4,
                ),
                None => raw_run(s.subrange(pos, f)) + seq![s.subrange(f, s.len() as int)],
            },
        }
    }
}

#[via_fn]
proof fn spans_from_decreases(s: Seq<char>, pos: int) {
    if 0 <= pos <= s.len() {
        lemma_step_bounds(s, pos);
    }
}

/// The spans of a whole document that its segments come from.
pub open spec fn spans_of(s: Seq<char>) -> Seq<Seq<char>> {
    spans_from(s, 0)
}

/// Whether `span` is the source text of `seg`: a text segment is its span;
/// a code block is a fence, a header line whose trimmed form is the language
/// tag, one or more line breaks, the body, a line break and a fence.
pub open spec fn is_source_of(seg: SegmentView, span: Seq<char>) -> bool {
    match seg {
        SegmentView::Text(t) => span == t,
        SegmentView::Code(lang, code) => exists|header: Seq<char>, gap: Seq<char>|
            #![trigger fence() + header + gap]
            {
                &&& span == fence() + header + gap + code + seq!['\n'] + fence()
                &&& forall|i: int| 0 <= i < header.len() ==> header[i] != '\n'
                &&& trimmed(header) == lang
                &&& gap.len() > 0
                &&& forall|i: int| 0 <= i < gap.len() ==> gap[i] == '\n'
            },
    }
}

pub open spec fn spans_match(segs: Seq<SegmentView>, spans: Seq<Seq<char>>) -> bool {
    &&& segs.len() == spans.len()
    &&& forall|i: int| 0 <= i < segs.len() ==> is_source_of(#[trigger] segs[i], spans[i])
}

proof fn lemma_spans_match_concat(
    a: Seq<SegmentView>,
    b: Seq<Seq<char>>,
    c: Seq<SegmentView>,
    d: Seq<Seq<char>>,
)
    requires
        spans_match(a, b),
        spans_match(c, d),
    ensures
        spans_match(a + c, b + d),
{
    assert forall|i: int| 0 <= i < (a + c).len() implies is_source_of(
        #[trigger] (a + c)[i],
        (b + d)[i],
    ) by {
        if i < a.len() {
            assert(is_source_of(a[i], b[i]));
        } else {
            assert(is_source_of(c[i - a.len()], d[i - a.len()]));
        }
    }
}

proof fn lemma_run(t: Seq<char>)
    ensures
        spans_match(text_run(t), raw_run(t)),
        raw_run(t).flatten() == t,
{
    if t.len() > 0 {
        lemma_flatten_single(t);
    }
}

proof fn lemma_flatten_single(t: Seq<char>)
    ensures
        seq![t].flatten() == t,
{
    seq![t].lemma_flatten_one_element();
}

proof fn lemma_spans_from(s: Seq<char>, pos: int)
    requires
        0 <= pos <= s.len(),
    ensures
        spans_match(segments_from(s, pos), spans_from(s, pos)),
        spans_from(s, pos).flatten() == s.subrange(pos, s.len() as int),
    decreases s.len() - pos,
{
    lemma_step_bounds(s, pos);
    match find_fence(s, pos) {
        None => {
            lemma_run(s.subrange(pos, s.len() as int));
        },
        Some(f) => {
            let pre = s.subrange(pos, f);
            lemma_run(pre);
            let start = body_start(s, f);
            match find_close(s, start) {
                Some(c) => {
                    let le = line_end(s, f + 3);
                    lemma_line_end(s, f + 3);
                    lemma_skip_newlines(s, le);
                    lemma_find_close(s, start);
                    lemma_spans_from(s, c + 4);
                    let header = s.subrange(f + 3, le);
                    let gap = s.subrange(le, start);
                    let code = s.subrange(start, c);
                    let span = s.subrange(f, c + 4);
                    assert(le < s.len());
                    lemma_find_fence(s, pos);
                    assert(s.subrange(f, f + 3) =~= fence());
                    assert(s.subrange(c, c + 4) =~= seq!['\n'] + fence());
                    assert(span =~= s.subrange(f, f + 3) + header + gap + code + s.subrange(c, c + 4));
                    assert(span =~= fence() + header + gap + code + seq!['\n'] + fence());
                    let seg = SegmentView::Code(lang_tag(s, f), code);
                    assert(is_source_of(seg, span));
                    assert(spans_match(seq![seg], seq![span]));
                    lemma_spans_match_concat(text_run(pre), raw_run(pre), seq![seg], seq![span]);
                    lemma_spans_match_concat(
                        text_run(pre) + seq![seg],
                        raw_run(pre) + seq![span],
                        segments_from(s, c + 4),
                        spans_from(s, c + 4),
                    );
                    lemma_flatten_single(span);
                    vstd::seq_lib::lemma_flatten_concat(raw_run(pre), seq![span]);
                    vstd::seq_lib::lemma_flatten_concat(
                        raw_run(pre) + seq![span],
                        spans_from(s, c + 4),
                    );
                    assert(s.subrange(pos, s.len() as int) =~= pre + span + s.subrange(
                        c + 4,
                        s.len() as int,
                    ));
                },
                None => {
                    let span = s.subrange(f, s.len() as int);
                    assert(spans_match(seq![SegmentView::Text(span)], seq![span]));
                    lemma_spans_match_concat(
                        text_run(pre),
                        raw_run(pre),
                        seq![SegmentView::Text(span)],
                        seq![span],
                    );
                    lemma_flatten_single(span);
                    vstd::seq_lib::lemma_flatten_concat(raw_run(pre), seq![span]);
                    assert(s.subrange(pos, s.len() as int) =~= pre + span);
                },
            }
        },
    }
}

/// The segments of a document come from consecutive spans of it, in order:
/// joined, the spans give back the document exactly, and each span is the
/// source text of its segment, fence markers included.
pub proof fn lemma_segments_reassemble(s: Seq<char>)
    ensures
        spans_match(segments_of(s), spans_of(s)),
        spans_of(s).flatten() == s,
{
    lemma_spans_from(s, 0);
    assert(s.subrange(0, s.len() as int) =~= s);
}

/// Whether three backticks occur somewhere in `t`.
pub open spec fn holds_fence(t: Seq<char>) -> bool {
    exists|j: int| is_fence_at(t, j)
}

/// Whether `t` is a text segment that holds a fence marker, runs to the end
/// of `s` and starts with that fence.
pub open spec fn is_unclosed_rest(s: Seq<char>, seg: SegmentView) -> bool {
    seg matches SegmentView::Text(t) && is_fence_at(t, 0) && t.len() <= s.len() && t
        == s.subrange(s.len() - t.len(), s.len() as int)
}

proof fn lemma_no_fence_in_span(s: Seq<char>, from: int, to: int)
    requires
        0 <= from <= to <= s.len(),
        forall|k: int| from <= k < to ==> !is_fence_at(s, k),
    ensures
        !holds_fence(s.subrange(from, to)),
{
    let t = s.subrange(from, to);
    if holds_fence(t) {
        let j = choose|j: int| is_fence_at(t, j);
        assert(is_fence_at(s, from + j));
    }
}

proof fn lemma_unclosed_from(s: Seq<char>, pos: int, i: int)
    requires
        0 <= pos <= s.len(),
        0 <= i < segments_from(s, pos).len(),
        segments_from(s, pos)[i] matches SegmentView::Text(t) && holds_fence(t),
    ensures
        i == segments_from(s, pos).len() - 1,
        is_unclosed_rest(s, segments_from(s, pos)[i]),
    decreases s.len() - pos,
{
    lemma_step_bounds(s, pos);
    lemma_find_fence(s, pos);
    match find_fence(s, pos) {
        None => {
            lemma_no_fence_in_span(s, pos, s.len() as int);
        },
        Some(f) => {
            let pre = s.subrange(pos, f);
            lemma_no_fence_in_span(s, pos, f);
            let n = text_run(pre).len();
            match find_close(s, body_start(s, f)) {
                Some(c) => {
                    let rest = segments_from(s, c + 4);
                    let segs = segments_from(s, pos);
                    assert(segs =~= text_run(pre) + seq![
                        SegmentView::Code(lang_tag(s, f), s.subrange(body_start(s, f), c)),
                    ] + rest);
                    assert(i > n);
                    assert(segs[i] == rest[i - n - 1]);
                    lemma_unclosed_from(s, c + 4, i - n - 1);
                },
                None => {
                    let span = s.subrange(f, s.len() as int);
                    assert(segments_from(s, pos) =~= text_run(pre) + seq![SegmentView::Text(span)]);
                    assert(i == n);
                    assert(span =~= s.subrange(s.len() - span.len(), s.len() as int));
                },
            }
        },
    }
}

/// Scanning stops at an unclosed fence: a text segment that holds a fence
/// marker is the last segment, starts with that fence and runs verbatim to
/// the end of the document.
pub proof fn lemma_unclosed_fence_is_last(s: Seq<char>, i: int)
    requires
        0 <= i < segments_of(s).len(),
        segments_of(s)[i] matches SegmentView::Text(t) && holds_fence(t),
    ensures
        i == segments_of(s).len() - 1,
        is_unclosed_rest(s, segments_of(s)[i]),
{
    lemma_unclosed_from(s, 0, i);
}

} // verus!
