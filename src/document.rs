//! The segment tree and its parser.
//!
//! Each parsing function works on the characters of the input, inside a
//! window that ends at `end`, and is proved to return exactly what the rule
//! of the same name in `grammar` gives.
use vstd::prelude::*;

use crate::grammar::{
    document_rule, emphasis_rule, escaped_rule, hashes_end, heading_rule, holds_at, is_structural,
    line_end, run_rule, segment_rule, text_end, text_rule, Context, Markup,
};

verus! {

/// The two kinds of emphasis, told apart by their delimiter.
#[derive(Debug, Clone, Copy, PartialEq, Eq, Structural)]
pub enum Emphasis {
    Bold,
    Italic,
}

impl Emphasis {
    /// The delimiter as characters: `**` for bold, `*` for italic.
    pub open spec fn delim(self) -> Seq<char> {
        match self {
            Emphasis::Bold => seq!['*', '*'],
            Emphasis::Italic => seq!['*'],
        }
    }

    /// The complementary kind, the one that may nest directly inside this one.
    pub open spec fn spec_other(self) -> Emphasis {
        match self {
            Emphasis::Bold => Emphasis::Italic,
            Emphasis::Italic => Emphasis::Bold,
        }
    }

    /// The delimiter that opens and closes this kind of emphasis.
    pub fn delimiter(self) -> (r: &'static str)
        ensures
            r@ == self.delim(),
    {
        proof {
            reveal_strlit("**");
            reveal_strlit("*");
        }
        match self {
            Emphasis::Bold => "**",
            Emphasis::Italic => "*",
        }
    }

    /// The complementary kind.
    pub fn other(self) -> (r: Emphasis)
        ensures
            r == self.spec_other(),
    {
        match self {
            Emphasis::Bold => Emphasis::Italic,
            Emphasis::Italic => Emphasis::Bold,
        }
    }
}

/// One node of a parsed document.
#[derive(Debug, PartialEq, Eq)]
pub enum Segment {
    /// A run of characters with no special meaning.
    Text(String),
    /// A heading of the given depth (the number of `#`) and its content.
    Heading(usize, Vec<Segment>),
    /// Bold or italic content.
    Emphasis(Emphasis, Vec<Segment>),
    /// A structural character made literal by a preceding backslash.
    Escaped(char),
}

/// The tree that a segment stands for.
pub open spec fn markup_of(seg: Segment) -> Markup
    decreases seg,
{
    match seg {
        Segment::Text(t) => Markup::Text(t@),
        Segment::Heading(depth, children) => Markup::Heading(depth as nat, markups_of(children@)),
        Segment::Emphasis(kind, children) => Markup::Emphasis(kind, markups_of(children@)),
        Segment::Escaped(c) => Markup::Escaped(c),
    }
}

/// The trees that a sequence of segments stands for, in order.
pub open spec fn markups_of(segs: Seq<Segment>) -> Seq<Markup>
    decreases segs,
{
    if segs.len() == 0 {
        Seq::empty()
    } else {
        markups_of(segs.subrange(0, segs.len() - 1)).push(markup_of(segs[segs.len() - 1]))
    }
}

impl View for Segment {
    type V = Markup;

    open spec fn view(&self) -> Markup {
        markup_of(*self)
    }
}

/// A parse result in terms of trees and positions.
pub open spec fn parsed(r: Option<(Segment, usize)>) -> Option<(Markup, int)> {
    match r {
        Some((seg, j)) => Some((seg@, j as int)),
        None => None,
    }
}

pub proof fn lemma_markups_of_push(segs: Seq<Segment>, seg: Segment)
    ensures
        markups_of(segs.push(seg)) == markups_of(segs).push(seg@),
{
    assert(segs.push(seg).subrange(0, segs.len() as int) == segs);
}

/// Relies on `String`'s `FromIterator<&char>`: the string holds the given
/// characters in order.
#[verifier::external_body]
fn string_of(cs: &[char]) -> (r: String)
    ensures
        r@ == cs@,
{
    cs.iter().collect()
}

/// The characters of a string, in order.
pub fn chars_of(input: &str) -> (r: Vec<char>)
    ensures
        r@ == input@,
{
    let mut r: Vec<char> = Vec::new();
    for c in it: input.chars()
        invariant
            r@ == it.seq().take(it.index() as int),
    {
        r.push(c);
    }
    r
}

fn is_structural_char(c: char) -> (r: bool)
    ensures
        r == is_structural(c),
{
    c == '*' || c == '#' || c == '\\'
}

fn text_end_at(s: &[char], i: usize, end: usize) -> (j: usize)
    requires
        i <= end <= s@.len(),
    ensures
        j == text_end(s@, i as int, end as int),
        i <= j <= end,
{
    let mut j = i;
    while j < end && !is_structural_char(s[j])
        invariant
            i <= j <= end <= s@.len(),
            text_end(s@, i as int, end as int) == text_end(s@, j as int, end as int),
        decreases end - j,
    {
        j = j + 1;
    }
    j
}

fn hashes_end_at(s: &[char], i: usize, end: usize) -> (j: usize)
    requires
        i <= end <= s@.len(),
    ensures
        j == hashes_end(s@, i as int, end as int),
        i <= j <= end,
{
    let mut j = i;
    while j < end && s[j] == '#'
        invariant
            i <= j <= end <= s@.len(),
            hashes_end(s@, i as int, end as int) == hashes_end(s@, j as int, end as int),
        decreases end - j,
    {
        j = j + 1;
    }
    j
}

fn line_end_at(s: &[char], i: usize, end: usize) -> (j: usize)
    requires
        i <= end <= s@.len(),
    ensures
        j == line_end(s@, i as int, end as int),
        i <= j <= end,
{
    let mut j = i;
    while j < end && s[j] != '\n'
        invariant
            i <= j <= end <= s@.len(),
            line_end(s@, i as int, end as int) == line_end(s@, j as int, end as int),
        decreases end - j,
    {
        j = j + 1;
    }
    j
}

fn parse_text(s: &[char], i: usize, end: usize) -> (r: Option<(Segment, usize)>)
    requires
        i <= end <= s@.len(),
    ensures
        parsed(r) == text_rule(s@, i as int, end as int),
        r matches Some((_, j)) ==> i < j <= end,
{
    let j = text_end_at(s, i, end);
    if i < j {
        let t = string_of(&s[i..j]);
        Some((Segment::Text(t), j))
    } else {
        None
    }
}

fn parse_escaped(s: &[char], i: usize, end: usize) -> (r: Option<(Segment, usize)>)
    requires
        i <= end <= s@.len(),
    ensures
        parsed(r) == escaped_rule(s@, i as int, end as int),
        r matches Some((_, j)) ==> i < j <= end,
{
    if end - i >= 2 && s[i] == '\\' && is_structural_char(s[i + 1]) {
        Some((Segment::Escaped(s[i + 1]), i + 2))
    } else {
        None
    }
}

/// Whether the delimiter of `kind` stands in `s` at `i`, before `end`.
fn delimiter_at(kind: Emphasis, s: &[char], i: usize, end: usize) -> (r: bool)
    requires
        i <= end <= s@.len(),
    ensures
        r == holds_at(s@, i as int, end as int, kind.delim()),
{
    match kind {
        Emphasis::Bold => {
            let r = end - i >= 2 && s[i] == '*' && s[i + 1] == '*';
            if r {
                assert(s@.subrange(i as int, i + 2) == kind.delim());
            } else if end - i >= 2 {
                assert(s@.subrange(i as int, i + 2)[0] == s@[i as int]);
                assert(s@.subrange(i as int, i + 2)[1] == s@[i + 1]);
            }
            r
        },
        Emphasis::Italic => {
            let r = end - i >= 1 && s[i] == '*';
            if r {
                assert(s@.subrange(i as int, i + 1) == kind.delim());
            } else if end - i >= 1 {
                assert(s@.subrange(i as int, i + 1)[0] == s@[i as int]);
            }
            r
        },
    }
}

fn delimiter_len(kind: Emphasis) -> (r: usize)
    ensures
        r == kind.delim().len(),
        1 <= r <= 2,
{
    match kind {
        Emphasis::Bold => 2,
        Emphasis::Italic => 1,
    }
}

fn newline_string() -> (r: String)
    ensures
        r@ == seq!['\n'],
{
    proof {
        reveal_strlit("\n");
    }
    String::from_str("\n")
}

fn parse_heading(s: &[char], i: usize, end: usize) -> (r: Option<(Segment, usize)>)
    requires
        i <= end <= s@.len(),
    ensures
        parsed(r) == heading_rule(s@, i as int, end as int),
        r matches Some((_, j)) ==> i < j <= end,
    decreases end - i, 0int,
{
    let h = hashes_end_at(s, i, end);
    if i < h && h < end && s[h] == ' ' {
        let c = h + 1;
        let e = line_end_at(s, c, end);
        let (mut segs, p) = parse_run(Context::HeadingLine, s, c, e);
        if segs.len() > 0 && p == e {
            let nl = Segment::Text(newline_string());
            proof {
                lemma_markups_of_push(segs@, nl);
            }
            segs.push(nl);
            let next = if e < end {
                e + 1
            } else {
                e
            };
            Some((Segment::Heading(h - i, segs), next))
        } else {
            None
        }
    } else {
        None
    }
}

fn parse_emphasis(kind: Emphasis, s: &[char], i: usize, end: usize) -> (r: Option<(Segment, usize)>)
    requires
        i <= end <= s@.len(),
    ensures
        parsed(r) == emphasis_rule(kind, s@, i as int, end as int),
        r matches Some((_, j)) ==> i < j <= end,
    decreases end - i, 0int,
{
    if delimiter_at(kind, s, i, end) {
        let d = delimiter_len(kind);
        let (segs, p) = parse_run(Context::EmphasisBody(kind), s, i + d, end);
        if segs.len() > 0 && delimiter_at(kind, s, p, end) {
            Some((Segment::Emphasis(kind, segs), p + d))
        } else {
            None
        }
    } else {
        None
    }
}

fn parse_segment(ctx: Context, s: &[char], i: usize, end: usize) -> (r: Option<(Segment, usize)>)
    requires
        i <= end <= s@.len(),
    ensures
        parsed(r) == segment_rule(ctx, s@, i as int, end as int),
        r matches Some((_, j)) ==> i < j <= end,
    decreases end - i, 1int,
{
    match ctx {
        Context::Document => {
            let r = parse_heading(s, i, end);
            if r.is_some() {
                return r;
            }
            let r = parse_escaped(s, i, end);
            if r.is_some() {
                return r;
            }
            let r = parse_text(s, i, end);
            if r.is_some() {
                return r;
            }
            let r = parse_emphasis(Emphasis::Bold, s, i, end);
            if r.is_some() {
                return r;
            }
            parse_emphasis(Emphasis::Italic, s, i, end)
        },
        Context::HeadingLine => {
            let r = parse_emphasis(Emphasis::Bold, s, i, end);
            if r.is_some() {
                return r;
            }
            let r = parse_emphasis(Emphasis::Italic, s, i, end);
            if r.is_some() {
                return r;
            }
            let r = parse_escaped(s, i, end);
            if r.is_some() {
                return r;
            }
            parse_text(s, i, end)
        },
        Context::EmphasisBody(kind) => {
            let r = parse_heading(s, i, end);
            if r.is_some() {
                return r;
            }
            let r = parse_text(s, i, end);
            if r.is_some() {
                return r;
            }
            let r = parse_escaped(s, i, end);
            if r.is_some() {
                return r;
            }
            parse_emphasis(kind.other(), s, i, end)
        },
    }
}

fn parse_run(ctx: Context, s: &[char], i: usize, end: usize) -> (r: (Vec<Segment>, usize))
    requires
        i <= end <= s@.len(),
    ensures
        (markups_of(r.0@), r.1 as int) == run_rule(ctx, s@, i as int, end as int),
        i <= r.1 <= end,
    decreases end - i, 2int,
{
    let mut segs: Vec<Segment> = Vec::new();
    let mut j = i;
    loop
        invariant
            i <= j <= end <= s@.len(),
            run_rule(ctx, s@, i as int, end as int) == (
            markups_of(segs@) + run_rule(ctx, s@, j as int, end as int).0,
            run_rule(ctx, s@, j as int, end as int).1,
            ),
        decreases end - j,
    {
        if j >= end {
            assert(markups_of(segs@) + Seq::<Markup>::empty() == markups_of(segs@));
            return (segs, j);
        }
        match parse_segment(ctx, s, j, end) {
            Some((seg, k)) => {
                proof {
                    lemma_markups_of_push(segs@, seg);
                    assert(markups_of(segs@) + run_rule(ctx, s@, j as int, end as int).0
                        == markups_of(segs@.push(seg)) + run_rule(ctx, s@, k as int, end as int).0);
                }
                segs.push(seg);
                j = k;
            },
            None => {
                assert(markups_of(segs@) + Seq::<Markup>::empty() == markups_of(segs@));
                return (segs, j);
            },
        }
    }
}

/// A parsed buffer: its top-level segments, in order.
#[derive(Debug, PartialEq, Eq)]
pub struct Document {
    segments: Vec<Segment>,
}

impl View for Document {
    type V = Seq<Markup>;

    closed spec fn view(&self) -> Seq<Markup> {
        markups_of(self.segments@)
    }
}

impl Document {
    /// Parses as many top-level segments as possible from the start of
    /// `input`; also returns how many characters they cover. It never fails:
    /// where nothing matches, the run simply ends.
    pub fn parse(input: &str) -> (r: (Document, usize))
        ensures
            (r.0@, r.1 as int) == document_rule(input@),
    {
        let s = chars_of(input);
        let (segments, n) = parse_run(Context::Document, s.as_slice(), 0, s.len());
        (Document { segments }, n)
    }

    /// Parses the whole of `input`; `None` where the segments do not cover it
    /// all, the case in which a caller shows the raw lines instead.
    pub fn parse_complete(input: &str) -> (r: Option<Document>)
        ensures
            r is Some <==> document_rule(input@).1 == input@.len(),
            r matches Some(d) ==> d@ == document_rule(input@).0,
    {
        let s = chars_of(input);
        let (segments, n) = parse_run(Context::Document, s.as_slice(), 0, s.len());
        if n == s.len() {
            Some(Document { segments })
        } else {
            None
        }
    }
}

impl std::ops::Deref for Document {
    type Target = Vec<Segment>;

    fn deref(&self) -> (r: &Vec<Segment>)
        ensures
            markups_of(r@) == self@,
    {
        &self.segments
    }
}

impl std::ops::DerefMut for Document {
    fn deref_mut(&mut self) -> (r: &mut Vec<Segment>)
        ensures
            markups_of(r@) == old(self)@,
    {
        &mut self.segments
    }
}

impl Segment {
    /// One top-level segment at the start of `input`: a heading, an escape,
    /// text, bold or italic, tried in that order.
    pub fn parse(input: &str) -> (r: Option<(Segment, usize)>)
        ensures
            parsed(r) == segment_rule(Context::Document, input@, 0, input@.len() as int),
    {
        let s = chars_of(input);
        parse_segment(Context::Document, s.as_slice(), 0, s.len())
    }

    /// A heading at the start of `input`.
    pub fn heading(input: &str) -> (r: Option<(Segment, usize)>)
        ensures
            parsed(r) == heading_rule(input@, 0, input@.len() as int),
    {
        let s = chars_of(input);
        parse_heading(s.as_slice(), 0, s.len())
    }

    /// Emphasis of the given kind at the start of `input`.
    pub fn emphasis(kind: Emphasis, input: &str) -> (r: Option<(Segment, usize)>)
        ensures
            parsed(r) == emphasis_rule(kind, input@, 0, input@.len() as int),
    {
        let s = chars_of(input);
        parse_emphasis(kind, s.as_slice(), 0, s.len())
    }

    /// Bold at the start of `input`.
    pub fn bold(input: &str) -> (r: Option<(Segment, usize)>)
        ensures
            parsed(r) == emphasis_rule(Emphasis::Bold, input@, 0, input@.len() as int),
    {
        Segment::emphasis(Emphasis::Bold, input)
    }

    /// Italic at the start of `input`.
    pub fn italic(input: &str) -> (r: Option<(Segment, usize)>)
        ensures
            parsed(r) == emphasis_rule(Emphasis::Italic, input@, 0, input@.len() as int),
    {
        Segment::emphasis(Emphasis::Italic, input)
    }

    /// Plain text at the start of `input`.
    pub fn text(input: &str) -> (r: Option<(Segment, usize)>)
        ensures
            parsed(r) == text_rule(input@, 0, input@.len() as int),
    {
        let s = chars_of(input);
        parse_text(s.as_slice(), 0, s.len())
    }

    /// An escaped character at the start of `input`.
    pub fn escaped(input: &str) -> (r: Option<(Segment, usize)>)
        ensures
            parsed(r) == escaped_rule(input@, 0, input@.len() as int),
    {
        let s = chars_of(input);
        parse_escaped(s.as_slice(), 0, s.len())
    }
}

} // verus!
