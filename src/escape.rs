use vstd::prelude::*;

verus! {

/// The text that `s` shows once every escape sequence (from an escape
/// character up to and including the next `m`) is left out; `in_escape`
/// tells whether `s` starts inside one.
pub open spec fn visible(s: Seq<char>, in_escape: bool) -> Seq<char>
    decreases s.len(),
{
    if s.len() == 0 {
        Seq::empty()
    } else if in_escape {
        visible(s.drop_first(), s[0] != 'm')
    } else if s[0] == '\x1b' {
        visible(s.drop_first(), true)
    } else {
        seq![s[0]] + visible(s.drop_first(), false)
    }
}

/// Whether `s` ends inside an escape sequence; `in_escape` tells whether it
/// starts inside one.
pub open spec fn open_after(s: Seq<char>, in_escape: bool) -> bool
    decreases s.len(),
{
    if s.len() == 0 {
        in_escape
    } else if in_escape {
        open_after(s.drop_first(), s[0] != 'm')
    } else if s[0] == '\x1b' {
        open_after(s.drop_first(), true)
    } else {
        open_after(s.drop_first(), false)
    }
}

/// The visible text of a string with escape sequences.
pub open spec fn plain_text(s: Seq<char>) -> Seq<char> {
    visible(s, false)
}

/// Whether every escape sequence that `s` opens is closed within it.
pub open spec fn closes_escapes(s: Seq<char>) -> bool {
    !open_after(s, false)
}

/// Whether `s` holds no escape character.
pub open spec fn no_escape(s: Seq<char>) -> bool {
    forall|i: int| 0 <= i < s.len() ==> s[i] != '\x1b'
}

proof fn lemma_visible_concat(a: Seq<char>, b: Seq<char>, st: bool)
    ensures
        visible(a + b, st) == visible(a, st) + visible(b, open_after(a, st)),
        open_after(a + b, st) == open_after(b, open_after(a, st)),
    decreases a.len(),
{
    if a.len() == 0 {
        assert(a + b =~= b);
    } else {
        assert((a + b).drop_first() =~= a.drop_first() + b);
        assert((a + b)[0] == a[0]);
        let next = if st {
            a[0] != 'm'
        } else {
            a[0] == '\x1b'
        };
        lemma_visible_concat(a.drop_first(), b, next);
        if !st && a[0] != '\x1b' {
            assert(seq![a[0]] + visible(a.drop_first() + b, false) =~= seq![a[0]] + visible(
                a.drop_first(),
                false,
            ) + visible(b, open_after(a.drop_first(), false)));
        }
    }
}

/// Where the first part closes its escapes, the visible text of two joined
/// parts is the visible text of each, joined.
pub proof fn lemma_plain_text_concat(a: Seq<char>, b: Seq<char>)
    requires
        closes_escapes(a),
    ensures
        plain_text(a + b) == plain_text(a) + plain_text(b),
        closes_escapes(a + b) == closes_escapes(b),
{
    lemma_visible_concat(a, b, false);
}

/// Text without escape characters shows as it is and closes every escape.
pub proof fn lemma_plain_text_no_escape(s: Seq<char>)
    requires
        no_escape(s),
    ensures
        plain_text(s) == s,
        closes_escapes(s),
    decreases s.len(),
{
    if s.len() > 0 {
        assert(no_escape(s.drop_first()));
        lemma_plain_text_no_escape(s.drop_first());
        assert(s =~= seq![s[0]] + s.drop_first());
    }
}

} // verus!
