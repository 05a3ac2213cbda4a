//! The parse keeps the source: rendering the trees back gives the text they
//! were parsed from, but for the newline that a heading always carries.
use vstd::prelude::*;

use crate::document::Emphasis;
use crate::grammar::{
    document_rule, emphasis_rule, escaped_rule, hashes, hashes_end, heading_rule, holds_at,
    lemma_hashes_end_bounds, lemma_line_end_bounds, lemma_text_end_bounds, line_end, newline_text,
    render, render_all, run_rule, segment_rule, text_rule, Context, Markup,
};

verus! {

/// Whether position `j` of `s` comes right after a newline.
pub open spec fn closes_line(s: Seq<char>, j: int) -> bool {
    0 < j <= s.len() && s[j - 1] == '\n'
}

/// Whether a tree that ends at `j` is a heading whose line had no newline to
/// consume, so that its closing newline segment has no source.
pub open spec fn open_heading(m: Markup, s: Seq<char>, j: int) -> bool {
    m is Heading && !closes_line(s, j)
}

/// Whether a run of trees ending at `j` ends with such a heading.
pub open spec fn open_run(ms: Seq<Markup>, s: Seq<char>, j: int) -> bool {
    ms.len() > 0 && open_heading(ms.last(), s, j)
}

/// The source between `i` and `j`, with a newline added where `open`.
pub open spec fn restored(s: Seq<char>, i: int, j: int, open: bool) -> Seq<char> {
    if open {
        s.subrange(i, j).push('\n')
    } else {
        s.subrange(i, j)
    }
}

/// What holds of every successful rule: it makes progress within its window,
/// its tree renders to what it consumed, and only at the window's end can it
/// be a heading without a newline.
pub open spec fn restores(r: Option<(Markup, int)>, s: Seq<char>, i: int, end: int) -> bool {
    r matches Some((m, j)) ==> {
        &&& i < j <= end
        &&& render(m) == restored(s, i, j, open_heading(m, s, j))
        &&& open_heading(m, s, j) ==> j == end
    }
}

pub proof fn lemma_render_all_cons(m: Markup, rest: Seq<Markup>)
    ensures
        render_all(seq![m] + rest) == render(m) + render_all(rest),
{
    let ms = seq![m] + rest;
    assert(ms.subrange(1, ms.len() as int) == rest);
}

pub proof fn lemma_render_all_push(ms: Seq<Markup>, m: Markup)
    ensures
        render_all(ms.push(m)) == render_all(ms) + render(m),
    decreases ms.len(),
{
    if ms.len() == 0 {
        assert(seq![m] + Seq::<Markup>::empty() == seq![m]);
        assert(ms.push(m) == seq![m]);
        lemma_render_all_cons(m, Seq::empty());
    } else {
        let tail = ms.subrange(1, ms.len() as int);
        assert(ms.push(m).subrange(1, ms.len() as int + 1) == tail.push(m));
        lemma_render_all_push(tail, m);
    }
}

pub proof fn lemma_text_restores(s: Seq<char>, i: int, end: int)
    requires
        0 <= i <= end <= s.len(),
    ensures
        restores(text_rule(s, i, end), s, i, end),
{
    lemma_text_end_bounds(s, i, end);
}

pub proof fn lemma_escaped_restores(s: Seq<char>, i: int, end: int)
    requires
        0 <= i <= end <= s.len(),
    ensures
        restores(escaped_rule(s, i, end), s, i, end),
{
    if escaped_rule(s, i, end) is Some {
        assert(s.subrange(i, i + 2) == seq!['\\', s[i + 1]]);
    }
}

pub proof fn lemma_heading_restores(s: Seq<char>, i: int, end: int)
    requires
        0 <= i <= end <= s.len(),
    ensures
        restores(heading_rule(s, i, end), s, i, end),
    decreases end - i, 0int,
{
    let h = hashes_end(s, i, end);
    lemma_hashes_end_bounds(s, i, end);
    if 0 <= i < h && h < end && s[h] == ' ' {
        let c = h + 1;
        let e = line_end(s, c, end);
        lemma_line_end_bounds(s, c, end);
        lemma_run_restores(Context::HeadingLine, s, c, e);
        let (ms, p) = run_rule(Context::HeadingLine, s, c, e);
        if ms.len() > 0 && p == e {
            let m = Markup::Heading((h - i) as nat, ms.push(newline_text()));
            lemma_render_all_push(ms, newline_text());
            assert(render_all(ms) == s.subrange(c, e));
            assert(s.subrange(i, h) == hashes((h - i) as nat));
            assert(render(m) == s.subrange(i, h) + seq![' '] + s.subrange(c, e) + seq!['\n']);
            if e < end {
                assert(s.subrange(i, e + 1) == s.subrange(i, h) + seq![' '] + s.subrange(c, e)
                    + seq!['\n']);
            } else {
                assert(s[e - 1] != '\n');
                assert(s.subrange(i, e).push('\n') == s.subrange(i, h) + seq![' '] + s.subrange(
                    c,
                    e,
                ) + seq!['\n']);
            }
        }
    }
}

pub proof fn lemma_emphasis_restores(kind: Emphasis, s: Seq<char>, i: int, end: int)
    requires
        0 <= i <= end <= s.len(),
    ensures
        restores(emphasis_rule(kind, s, i, end), s, i, end),
    decreases end - i, 0int,
{
    let delim = kind.delim();
    let d = delim.len() as int;
    if holds_at(s, i, end, delim) {
        lemma_run_restores(Context::EmphasisBody(kind), s, i + d, end);
        let (ms, p) = run_rule(Context::EmphasisBody(kind), s, i + d, end);
        if ms.len() > 0 && holds_at(s, p, end, delim) {
            assert(render_all(ms) == s.subrange(i + d, p));
            assert(s.subrange(i, p + d) == s.subrange(i, i + d) + s.subrange(i + d, p)
                + s.subrange(p, p + d));
        }
    }
}

pub proof fn lemma_segment_restores(ctx: Context, s: Seq<char>, i: int, end: int)
    requires
        0 <= i <= end <= s.len(),
    ensures
        restores(segment_rule(ctx, s, i, end), s, i, end),
        ctx is HeadingLine ==> !(segment_rule(ctx, s, i, end) matches Some((m, _))
            && m is Heading),
    decreases end - i, 1int,
{
    lemma_text_restores(s, i, end);
    lemma_escaped_restores(s, i, end);
    lemma_emphasis_restores(Emphasis::Bold, s, i, end);
    lemma_emphasis_restores(Emphasis::Italic, s, i, end);
    if !(ctx is HeadingLine) {
        lemma_heading_restores(s, i, end);
    }
}

pub proof fn lemma_run_restores(ctx: Context, s: Seq<char>, i: int, end: int)
    requires
        0 <= i <= end <= s.len(),
    ensures
        ({
            let (ms, p) = run_rule(ctx, s, i, end);
            &&& i <= p <= end
            &&& ms.len() == 0 ==> p == i
            &&& ms.len() > 0 ==> i < p
            &&& render_all(ms) == restored(s, i, p, open_run(ms, s, p))
            &&& open_run(ms, s, p) ==> p == end
            &&& ctx is HeadingLine ==> !open_run(ms, s, p)
        }),
    decreases end - i, 2int,
{
    if i < end {
        lemma_segment_restores(ctx, s, i, end);
        match segment_rule(ctx, s, i, end) {
            Some((m, j)) => {
                if i < j <= end {
                    lemma_run_restores(ctx, s, j, end);
                    let (rest, p) = run_rule(ctx, s, j, end);
                    let ms = seq![m] + rest;
                    lemma_render_all_cons(m, rest);
                    if rest.len() == 0 {
                        assert(ms.last() == m);
                        assert(rest == Seq::<Markup>::empty());
                        assert(render_all(rest) == Seq::<char>::empty());
                        assert(render_all(ms) == render(m));
                    } else {
                        assert(ms.last() == rest.last());
                        assert(j < end);
                        assert(render(m) == s.subrange(i, j));
                        assert(s.subrange(i, p) == s.subrange(i, j) + s.subrange(j, p));
                        assert(s.subrange(i, p).push('\n') == s.subrange(i, j) + s.subrange(
                            j,
                            p,
                        ).push('\n'));
                    }
                }
            },
            None => {},
        }
    }
    assert(s.subrange(i, i) == Seq::<char>::empty());
}

/// Round trip: where a document parses completely, rendering its trees
/// back gives its text exactly, with one newline more where it ends in a
/// heading whose line has no newline.
pub proof fn lemma_round_trip(s: Seq<char>)
    requires
        document_rule(s).1 == s.len(),
    ensures
        ({
            let doc = document_rule(s).0;
            render_all(doc) == if doc.len() > 0 && doc.last() is Heading && s.last() != '\n' {
                s.push('\n')
            } else {
                s
            }
        }),
{
    lemma_run_restores(Context::Document, s, 0, s.len() as int);
    assert(s.subrange(0, s.len() as int) == s);
}

} // verus!
