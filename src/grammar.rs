//! The markup grammar as spec functions over a character sequence.
//!
//! Every rule reads `s` from position `i` and never past `end`; it yields the
//! parsed node and the position just after what it consumed, or `None`.
//! Where several rules may start at one position they are tried in order and
//! the first that succeeds wins.
use vstd::prelude::*;

use crate::document::Emphasis;

verus! {

/// The mathematical form of a segment tree.
pub enum Markup {
    Text(Seq<char>),
    Heading(nat, Seq<Markup>),
    Emphasis(Emphasis, Seq<Markup>),
    Escaped(char),
}

/// Where a run of segments is being parsed; it decides which rules apply.
#[derive(Debug, Clone, Copy, PartialEq, Eq, Structural)]
pub enum Context {
    /// The top level of a document: heading, escape, text, bold, italic.
    Document,
    /// The rest of a heading's line: bold, italic, escape, text.
    HeadingLine,
    /// Between the delimiters of an emphasis of the given kind: heading,
    /// text, escape, and emphasis of the other kind.
    EmphasisBody(Emphasis),
}

/// A character with a meaning of its own: it never belongs to plain text.
pub open spec fn is_structural(c: char) -> bool {
    c == '*' || c == '#' || c == '\\'
}

/// The characters that a backslash can escape.
pub open spec fn is_escapable(c: char) -> bool {
    is_structural(c)
}

/// The first position at or after `i` that is `end` or holds a structural character.
pub open spec fn text_end(s: Seq<char>, i: int, end: int) -> int
    decreases end - i,
{
    if i < end && !is_structural(s[i]) {
        text_end(s, i + 1, end)
    } else {
        i
    }
}

/// The first position at or after `i` that is `end` or does not hold `#`.
pub open spec fn hashes_end(s: Seq<char>, i: int, end: int) -> int
    decreases end - i,
{
    if i < end && s[i] == '#' {
        hashes_end(s, i + 1, end)
    } else {
        i
    }
}

/// The first position at or after `i` that is `end` or holds a newline.
pub open spec fn line_end(s: Seq<char>, i: int, end: int) -> int
    decreases end - i,
{
    if i < end && s[i] != '\n' {
        line_end(s, i + 1, end)
    } else {
        i
    }
}

/// Whether `s` holds `t` from position `i` on, before `end`.
pub open spec fn holds_at(s: Seq<char>, i: int, end: int, t: Seq<char>) -> bool {
    &&& 0 <= i
    &&& i + t.len() <= end
    &&& s.subrange(i, i + t.len()) == t
}

/// Text: the longest non-empty run of characters that are not structural.
pub open spec fn text_rule(s: Seq<char>, i: int, end: int) -> Option<(Markup, int)> {
    let j = text_end(s, i, end);
    if i < j {
        Some((Markup::Text(s.subrange(i, j)), j))
    } else {
        None
    }
}

/// Escape: a backslash followed by `*`, `#` or a backslash.
pub open spec fn escaped_rule(s: Seq<char>, i: int, end: int) -> Option<(Markup, int)> {
    if 0 <= i && i + 2 <= end && s[i] == '\\' && is_escapable(s[i + 1]) {
        Some((Markup::Escaped(s[i + 1]), i + 2))
    } else {
        None
    }
}

/// The text segment that closes every heading.
pub open spec fn newline_text() -> Markup {
    Markup::Text(seq!['\n'])
}

/// Heading: one or more `#`, a space, then the rest of the line parsed as
/// heading-line segments, which must take all of it. The newline, if there
/// is one, is consumed; a newline text segment is appended either way.
pub open spec fn heading_rule(s: Seq<char>, i: int, end: int) -> Option<(Markup, int)>
    decreases end - i, 0int,
{
    let h = hashes_end(s, i, end);
    if 0 <= i < h && h < end && s[h] == ' ' {
        let c = h + 1;
        let e = line_end(s, c, end);
        proof {
            lemma_hashes_end_bounds(s, i, end);
            lemma_line_end_bounds(s, c, end);
        }
        let (ms, p) = run_rule(Context::HeadingLine, s, c, e);
        if ms.len() > 0 && p == e {
            let next = if e < end {
                e + 1
            } else {
                e
            };
            Some((Markup::Heading((h - i) as nat, ms.push(newline_text())), next))
        } else {
            None
        }
    } else {
        None
    }
}

/// Emphasis: the kind's delimiter, one or more emphasis-body segments, and
/// the delimiter again.
pub open spec fn emphasis_rule(kind: Emphasis, s: Seq<char>, i: int, end: int) -> Option<
    (Markup, int),
>
    decreases end - i, 0int,
{
    let d = kind.delim().len() as int;
    if holds_at(s, i, end, kind.delim()) {
        let (ms, p) = run_rule(Context::EmphasisBody(kind), s, i + d, end);
        if ms.len() > 0 && holds_at(s, p, end, kind.delim()) {
            Some((Markup::Emphasis(kind, ms), p + d))
        } else {
            None
        }
    } else {
        None
    }
}

/// The first of two alternatives that succeeds.
pub open spec fn first_of(a: Option<(Markup, int)>, b: Option<(Markup, int)>) -> Option<
    (Markup, int),
> {
    if a is Some {
        a
    } else {
        b
    }
}

/// One segment in the given context, by ordered choice among its rules.
pub open spec fn segment_rule(ctx: Context, s: Seq<char>, i: int, end: int) -> Option<
    (Markup, int),
>
    decreases end - i, 1int,
{
    match ctx {
        Context::Document => first_of(
            heading_rule(s, i, end),
            first_of(
                escaped_rule(s, i, end),
                first_of(
                    text_rule(s, i, end),
                    first_of(
                        emphasis_rule(Emphasis::Bold, s, i, end),
                        emphasis_rule(Emphasis::Italic, s, i, end),
                    ),
                ),
            ),
        ),
        Context::HeadingLine => first_of(
            emphasis_rule(Emphasis::Bold, s, i, end),
            first_of(
                emphasis_rule(Emphasis::Italic, s, i, end),
                first_of(escaped_rule(s, i, end), text_rule(s, i, end)),
            ),
        ),
        Context::EmphasisBody(kind) => first_of(
            heading_rule(s, i, end),
            first_of(
                text_rule(s, i, end),
                first_of(escaped_rule(s, i, end), emphasis_rule(kind.spec_other(), s, i, end)),
            ),
        ),
    }
}

/// Zero or more segments in the given context, taken greedily: the run
/// stops at the first position where no rule succeeds.
pub open spec fn run_rule(ctx: Context, s: Seq<char>, i: int, end: int) -> (Seq<Markup>, int)
    decreases end - i, 2int,
{
    if i < end {
        match segment_rule(ctx, s, i, end) {
            Some((m, j)) => if i < j <= end {
                let (rest, p) = run_rule(ctx, s, j, end);
                (seq![m] + rest, p)
            } else {
                (Seq::empty(), i)
            },
            None => (Seq::empty(), i),
        }
    } else {
        (Seq::empty(), i)
    }
}

/// A whole document: a run of top-level segments from the start.
pub open spec fn document_rule(s: Seq<char>) -> (Seq<Markup>, int) {
    run_rule(Context::Document, s, 0, s.len() as int)
}

/// `n` hash characters.
pub open spec fn hashes(n: nat) -> Seq<char> {
    Seq::new(n, |k: int| '#')
}

/// The source text that a tree stands for: delimiters, escapes and content.
pub open spec fn render(m: Markup) -> Seq<char>
    decreases m,
{
    match m {
        Markup::Text(t) => t,
        Markup::Heading(depth, children) => hashes(depth) + seq![' '] + render_all(children),
        Markup::Emphasis(kind, children) => kind.delim() + render_all(children) + kind.delim(),
        Markup::Escaped(c) => seq!['\\', c],
    }
}

/// The source text of a sequence of trees, one after the other.
pub open spec fn render_all(ms: Seq<Markup>) -> Seq<char>
    decreases ms,
{
    if ms.len() == 0 {
        Seq::empty()
    } else {
        render(ms[0]) + render_all(ms.subrange(1, ms.len() as int))
    }
}

/// Escapes: a backslash before `*`, `#` or a backslash is, as a whole
/// document, one escaped segment holding that character, which then has no
/// structural meaning; its source is the two characters.
pub proof fn lemma_escape(x: char)
    requires
        is_escapable(x),
    ensures
        document_rule(seq!['\\', x]) == (seq![Markup::Escaped(x)], 2int),
        render(Markup::Escaped(x)) == seq!['\\', x],
{
    let s = seq!['\\', x];
    assert(hashes_end(s, 0, 2) == 0);
    assert(segment_rule(Context::Document, s, 0, 2) == Some((Markup::Escaped(x), 2int)));
    assert(run_rule(Context::Document, s, 2, 2) == (Seq::<Markup>::empty(), 2int));
    assert(seq![Markup::Escaped(x)] + Seq::<Markup>::empty() == seq![Markup::Escaped(x)]);
}

/// Escapes in any context: wherever a backslash stands before `*`, `#` or a
/// backslash, in a document, a heading's line or an emphasis, the segment
/// there is that escaped character, and the two characters are consumed, so
/// the escaped character opens no heading or emphasis.
pub proof fn lemma_escape_in_any_context(ctx: Context, s: Seq<char>, i: int, end: int)
    requires
        0 <= i,
        i + 2 <= end <= s.len(),
        s[i] == '\\',
        is_escapable(s[i + 1]),
    ensures
        segment_rule(ctx, s, i, end) == Some((Markup::Escaped(s[i + 1]), i + 2)),
{
    assert(hashes_end(s, i, end) == i);
    assert(text_end(s, i, end) == i);
    assert forall|kind: Emphasis| !holds_at(s, i, end, #[trigger] kind.delim()) by {
        if holds_at(s, i, end, kind.delim()) {
            assert(s.subrange(i, i + kind.delim().len())[0] == s[i]);
        }
    }
    assert(emphasis_rule(Emphasis::Bold, s, i, end) is None);
    assert(emphasis_rule(Emphasis::Italic, s, i, end) is None);
}

pub proof fn lemma_text_end_bounds(s: Seq<char>, i: int, end: int)
    requires
        i <= end,
    ensures
        i <= text_end(s, i, end) <= end,
        forall|k: int| i <= k < text_end(s, i, end) ==> !is_structural(#[trigger] s[k]),
        text_end(s, i, end) < end ==> is_structural(s[text_end(s, i, end)]),
    decreases end - i,
{
    if i < end && !is_structural(s[i]) {
        lemma_text_end_bounds(s, i + 1, end);
    }
}

pub proof fn lemma_hashes_end_bounds(s: Seq<char>, i: int, end: int)
    requires
        i <= end,
    ensures
        i <= hashes_end(s, i, end) <= end,
        forall|k: int| i <= k < hashes_end(s, i, end) ==> #[trigger] s[k] == '#',
        hashes_end(s, i, end) < end ==> s[hashes_end(s, i, end)] != '#',
    decreases end - i,
{
    if i < end && s[i] == '#' {
        lemma_hashes_end_bounds(s, i + 1, end);
    }
}

pub proof fn lemma_line_end_bounds(s: Seq<char>, i: int, end: int)
    requires
        i <= end,
    ensures
        i <= line_end(s, i, end) <= end,
        forall|k: int| i <= k < line_end(s, i, end) ==> #[trigger] s[k] != '\n',
        line_end(s, i, end) < end ==> s[line_end(s, i, end)] == '\n',
    decreases end - i,
{
    if i < end && s[i] != '\n' {
        lemma_line_end_bounds(s, i + 1, end);
    }
}

} // verus!
