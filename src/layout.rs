//! Soft wrapping and selection highlights.
//!
//! The text is cut into lines at each newline, and each line into visual rows
//! of at most `width` characters (a width of 0 means no wrapping). A flat
//! character offset is then placed on a row and a column, and a selection
//! becomes one highlight span per visual row.
use vstd::prelude::*;

use crate::document::chars_of;
use crate::grammar::{lemma_line_end_bounds, line_end};

verus! {

/// One visual row: how many characters it shows, and whether it is the last
/// row of its line.
#[derive(Debug, Clone, Copy, PartialEq, Eq, Structural)]
pub struct VisualRow {
    pub len: usize,
    pub ends_line: bool,
}

/// The highlight of one visual row: where it starts and how wide it is, in
/// columns.
#[derive(Debug, Clone, Copy, PartialEq, Eq, Structural)]
pub struct HighlightSpan {
    pub row: usize,
    pub left: usize,
    pub width: usize,
}

/// The rows of a line of `len` characters wrapped at `width` characters.
/// An empty line still takes one row.
pub open spec fn line_rows(len: usize, width: usize) -> Seq<VisualRow>
    decreases len,
{
    if width == 0 || len <= width {
        seq![VisualRow { len, ends_line: true }]
    } else {
        seq![VisualRow { len: width, ends_line: false }] + line_rows((len - width) as usize, width)
    }
}

/// The rows of the lines of `s` from position `i` on, which starts a line.
pub open spec fn rows_from(s: Seq<char>, i: int, width: usize) -> Seq<VisualRow>
    decreases s.len() - i,
{
    if 0 <= i <= s.len() {
        let e = line_end(s, i, s.len() as int);
        proof {
            lemma_line_end_bounds(s, i, s.len() as int);
        }
        if e < s.len() {
            line_rows((e - i) as usize, width) + rows_from(s, e + 1, width)
        } else {
            line_rows((e - i) as usize, width)
        }
    } else {
        Seq::empty()
    }
}

/// The visual rows of `s`, line after line.
pub open spec fn wrap_rows(s: Seq<char>, width: usize) -> Seq<VisualRow> {
    rows_from(s, 0, width)
}

/// How many offsets a row owns: its characters, and the position of the
/// newline after it where it ends its line.
pub open spec fn row_span(r: VisualRow) -> int {
    r.len + if r.ends_line {
        1int
    } else {
        0int
    }
}

/// Where offset `off`, counted from the start of row `k`, falls among the
/// rows from `k` on: the row and the column within it.
pub open spec fn locate_from(rows: Seq<VisualRow>, k: int, off: int) -> Option<(int, int)>
    decreases rows.len() - k,
{
    if 0 <= k < rows.len() && 0 <= off {
        if off < row_span(rows[k]) {
            Some((k, off))
        } else {
            locate_from(rows, k + 1, off - row_span(rows[k]))
        }
    } else {
        None
    }
}

/// Where a character offset of the text falls: the row and the column.
pub open spec fn locate(rows: Seq<VisualRow>, off: int) -> Option<(int, int)> {
    locate_from(rows, 0, off)
}

/// The offsets owned by rows `a` up to, not including, `b`.
pub open spec fn span_sum(rows: Seq<VisualRow>, a: int, b: int) -> int
    decreases b - a,
{
    if a < b {
        row_span(rows[a]) + span_sum(rows, a + 1, b)
    } else {
        0
    }
}

/// The offset at which row `k` starts.
pub open spec fn row_start(rows: Seq<VisualRow>, k: int) -> int {
    span_sum(rows, 0, k)
}

/// The width of a row that the selection crosses from side to side.
pub open spec fn full_width(r: VisualRow, width: usize) -> int {
    if width > 0 {
        width as int
    } else {
        r.len as int
    }
}

/// The highlight of row `k` for a selection from `start` to `end`, both
/// given as (row, column).
pub open spec fn span_of(
    rows: Seq<VisualRow>,
    width: usize,
    k: int,
    start: (int, int),
    end: (int, int),
) -> HighlightSpan {
    let left = if k == start.0 {
        start.1
    } else {
        0
    };
    let w = if start.0 == end.0 {
        if k == start.0 {
            end.1 - start.1
        } else {
            0
        }
    } else if start.0 < k < end.0 {
        full_width(rows[k], width)
    } else if k == start.0 {
        rows[k].len - start.1
    } else if k == end.0 {
        end.1
    } else {
        0
    };
    HighlightSpan { row: k as usize, left: left as usize, width: w as usize }
}

/// The highlight spans, one per row, of the selection from offset `start`
/// to offset `end`; `None` where the selection is reversed or either end
/// falls outside the rows.
pub open spec fn spans(rows: Seq<VisualRow>, width: usize, start: int, end: int) -> Option<
    Seq<HighlightSpan>,
> {
    match (locate(rows, start), locate(rows, end)) {
        (Some(a), Some(b)) => if start <= end {
            Some(Seq::new(rows.len(), |k: int| span_of(rows, width, k, a, b)))
        } else {
            None
        },
        _ => None,
    }
}

/// The highlight spans of a selection of text `s` wrapped at `width`.
pub open spec fn highlights(s: Seq<char>, width: usize, start: int, end: int) -> Option<
    Seq<HighlightSpan>,
> {
    spans(wrap_rows(s, width), width, start, end)
}

pub proof fn lemma_locate_from_offset(rows: Seq<VisualRow>, j: int, off: int)
    requires
        0 <= j,
    ensures
        locate_from(rows, j, off) matches Some((k, c)) ==> {
            &&& j <= k < rows.len()
            &&& 0 <= c < row_span(rows[k])
            &&& off == span_sum(rows, j, k) + c
        },
    decreases rows.len() - j,
{
    if 0 <= j < rows.len() && 0 <= off && off >= row_span(rows[j]) {
        lemma_locate_from_offset(rows, j + 1, off - row_span(rows[j]));
    }
}

pub proof fn lemma_locate_from_exact(rows: Seq<VisualRow>, j: int, k: int, c: int)
    requires
        0 <= j <= k < rows.len(),
        0 <= c < row_span(rows[k]),
    ensures
        locate_from(rows, j, span_sum(rows, j, k) + c) == Some((k, c)),
    decreases k - j,
{
    if j < k {
        lemma_locate_from_exact(rows, j + 1, k, c);
        lemma_span_sum_nonneg(rows, j + 1, k);
    }
}

pub proof fn lemma_span_sum_nonneg(rows: Seq<VisualRow>, a: int, b: int)
    requires
        0 <= a,
        b <= rows.len(),
    ensures
        span_sum(rows, a, b) >= 0,
    decreases b - a,
{
    if a < b {
        lemma_span_sum_nonneg(rows, a + 1, b);
    }
}

pub proof fn lemma_span_sum_last(rows: Seq<VisualRow>, a: int, b: int)
    requires
        a <= b,
    ensures
        span_sum(rows, a, b + 1) == span_sum(rows, a, b) + row_span(rows[b]),
    decreases b - a,
{
    if a < b {
        lemma_span_sum_last(rows, a + 1, b);
    } else {
        assert(span_sum(rows, a + 1, a + 1) == 0);
    }
}

/// What every wrapping looks like: at least one row, the last one ending
/// its line, and no row that owns no offset.
pub open spec fn well_shaped(rows: Seq<VisualRow>) -> bool {
    &&& rows.len() > 0
    &&& rows.last().ends_line
    &&& forall|t: int| 0 <= t < rows.len() ==> row_span(#[trigger] rows[t]) > 0
}

pub proof fn lemma_well_shaped_append(a: Seq<VisualRow>, b: Seq<VisualRow>)
    requires
        well_shaped(a),
        well_shaped(b),
    ensures
        well_shaped(a + b),
{
    assert forall|t: int| 0 <= t < (a + b).len() implies row_span(#[trigger] (a + b)[t]) > 0 by {
        if t < a.len() {
            assert((a + b)[t] == a[t]);
        } else {
            assert((a + b)[t] == b[t - a.len()]);
        }
    }
}

pub proof fn lemma_line_rows_shape(len: usize, width: usize)
    ensures
        well_shaped(line_rows(len, width)),
    decreases len,
{
    if !(width == 0 || len <= width) {
        lemma_line_rows_shape((len - width) as usize, width);
        let head = seq![VisualRow { len: width, ends_line: false }];
        let tail = line_rows((len - width) as usize, width);
        assert forall|t: int| 0 <= t < (head + tail).len() implies row_span(
            #[trigger] (head + tail)[t],
        ) > 0 by {
            if t > 0 {
                assert((head + tail)[t] == tail[t - 1]);
            }
        }
    }
}

pub proof fn lemma_rows_from_shape(s: Seq<char>, i: int, width: usize)
    requires
        0 <= i <= s.len(),
    ensures
        well_shaped(rows_from(s, i, width)),
    decreases s.len() - i,
{
    let e = line_end(s, i, s.len() as int);
    lemma_line_end_bounds(s, i, s.len() as int);
    lemma_line_rows_shape((e - i) as usize, width);
    if e < s.len() {
        lemma_rows_from_shape(s, e + 1, width);
        lemma_well_shaped_append(line_rows((e - i) as usize, width), rows_from(s, e + 1, width));
    }
}

/// Soft-wrap boundary: in the rows of any text, the offset just past a row
/// that does not end its line is column 0 of the next row, not the end of
/// that row.
pub proof fn lemma_wrap_boundary(s: Seq<char>, width: usize, k: int)
    requires
        0 <= k < wrap_rows(s, width).len(),
        !wrap_rows(s, width)[k].ends_line,
    ensures
        ({
            let rows = wrap_rows(s, width);
            &&& k + 1 < rows.len()
            &&& locate(rows, row_start(rows, k) + rows[k].len) == Some((k + 1, 0int))
        }),
{
    let rows = wrap_rows(s, width);
    lemma_rows_from_shape(s, 0, width);
    assert(row_span(rows[k + 1]) > 0);
    lemma_span_sum_last(rows, 0, k);
    lemma_locate_from_exact(rows, 0, k + 1, 0);
}

/// Repeatable: the highlight spans are a function of the text, the width
/// and the selection alone, so working them out twice from the same inputs
/// gives the same spans.
pub proof fn lemma_highlights_repeatable(
    s: Seq<char>,
    t: Seq<char>,
    width: usize,
    start: int,
    end: int,
)
    requires
        s == t,
    ensures
        highlights(s, width, start, end) == highlights(t, width, start, end),
{
}

/// Appends the rows of a line of `len` characters wrapped at `width`.
fn push_line_rows(rows: &mut Vec<VisualRow>, len: usize, width: usize)
    ensures
        final(rows)@ == old(rows)@ + line_rows(len, width),
{
    let ghost before = rows@;
    let mut rest = len;
    while width > 0 && rest > width
        invariant
            rows@ + line_rows(rest, width) == before + line_rows(len, width),
        decreases rest,
    {
        proof {
            assert(rows@.push(VisualRow { len: width, ends_line: false }) + line_rows((rest - width) as usize, width) == rows@ + line_rows(rest, width));
        }
        rows.push(VisualRow { len: width, ends_line: false });
        rest = rest - width;
    }
    proof {
        assert(rows@.push(VisualRow { len: rest, ends_line: true }) == rows@ + line_rows(rest, width));
    }
    rows.push(VisualRow { len: rest, ends_line: true });
}

/// The visual rows of `text` wrapped at `width` characters; a width of 0
/// means no wrapping, one row per line.
pub fn wrapped_rows(text: &str, width: usize) -> (r: Vec<VisualRow>)
    ensures
        r@ == wrap_rows(text@, width),
{
    let s = chars_of(text);
    let n = s.len();
    let mut rows: Vec<VisualRow> = Vec::new();
    let mut i: usize = 0;
    loop
        invariant
            i <= n == s@.len() == text@.len(),
            rows@ + rows_from(s@, i as int, width) == wrap_rows(text@, width),
        decreases n - i,
    {
        let mut e = i;
        while e < n && s[e] != '\n'
            invariant
                i <= e <= n == s@.len(),
                line_end(s@, i as int, n as int) == line_end(s@, e as int, n as int),
            decreases n - e,
        {
            e = e + 1;
        }
        let ghost old_rows = rows@;
        push_line_rows(&mut rows, e - i, width);
        if e < n {
            proof {
                assert(old_rows + (line_rows((e - i) as usize, width) + rows_from(
                    s@,
                    e + 1,
                    width,
                )) == rows@ + rows_from(s@, e + 1, width));
            }
            i = e + 1;
        } else {
            return rows;
        }
    }
}

/// Where character offset `offset` falls among `rows`: the row and the
/// column within it. An offset at the end of a line stays on that line's
/// last row; one just past a row that does not end its line goes to
/// column 0 of the next row. `None` past the end of the text.
pub fn position_of(rows: &Vec<VisualRow>, offset: usize) -> (r: Option<(usize, usize)>)
    ensures
        match r {
            Some((k, c)) => locate(rows@, offset as int) == Some((k as int, c as int)),
            None => locate(rows@, offset as int) is None,
        },
{
    let mut k: usize = 0;
    let mut rest = offset;
    while k < rows.len()
        invariant
            k <= rows@.len(),
            locate(rows@, offset as int) == locate_from(rows@, k as int, rest as int),
        decreases rows@.len() - k,
    {
        let row = rows[k];
        if rest < row.len || (row.ends_line && rest == row.len) {
            return Some((k, rest));
        }
        rest = rest - row.len;
        if row.ends_line {
            rest = rest - 1;
        }
        k = k + 1;
    }
    None
}

/// The highlight spans, one per row, of the selection from offset `start`
/// to offset `end`; `None` where the selection is reversed or either end
/// falls outside the rows.
pub fn highlight_spans(rows: &Vec<VisualRow>, width: usize, start: usize, end: usize) -> (r: Option<
    Vec<HighlightSpan>,
>)
    ensures
        match r {
            Some(v) => spans(rows@, width, start as int, end as int) == Some(v@),
            None => spans(rows@, width, start as int, end as int) is None,
        },
{
    if start > end {
        return None;
    }
    let a = match position_of(rows, start) {
        Some(a) => a,
        None => return None,
    };
    let b = match position_of(rows, end) {
        Some(b) => b,
        None => return None,
    };
    proof {
        lemma_locate_from_offset(rows@, 0, start as int);
        lemma_locate_from_offset(rows@, 0, end as int);
    }
    let ghost ga = (a.0 as int, a.1 as int);
    let ghost gb = (b.0 as int, b.1 as int);
    let mut out: Vec<HighlightSpan> = Vec::new();
    let mut k: usize = 0;
    while k < rows.len()
        invariant
            k <= rows@.len(),
            ga == (a.0 as int, a.1 as int),
            gb == (b.0 as int, b.1 as int),
            locate(rows@, start as int) == Some(ga),
            locate(rows@, end as int) == Some(gb),
            a.0 == b.0 ==> a.1 <= b.1,
            a.0 < rows@.len(),
            b.0 < rows@.len(),
            a.1 <= rows@[a.0 as int].len,
            out@.len() == k,
            forall|t: int|
                0 <= t < k ==> #[trigger] out@[t] == span_of(rows@, width, t, ga, gb),
        decreases rows@.len() - k,
    {
        let row = rows[k];
        let left = if k == a.0 {
            a.1
        } else {
            0
        };
        let w = if a.0 == b.0 {
            if k == a.0 {
                b.1 - a.1
            } else {
                0
            }
        } else if a.0 < k && k < b.0 {
            if width > 0 {
                width
            } else {
                row.len
            }
        } else if k == a.0 {
            row.len - a.1
        } else if k == b.0 {
            b.1
        } else {
            0
        };
        out.push(HighlightSpan { row: k, left, width: w });
        k = k + 1;
    }
    assert(out@ == Seq::new(rows@.len(), |t: int| span_of(rows@, width, t, ga, gb)));
    Some(out)
}

/// The highlight spans of a selection of `text` wrapped at `width`
/// characters (0: no wrapping): one per visual row, or `None` where the
/// selection is reversed or reaches past the text.
pub fn selection_highlights(text: &str, width: usize, start: usize, end: usize) -> (r: Option<
    Vec<HighlightSpan>,
>)
    ensures
        match r {
            Some(v) => highlights(text@, width, start as int, end as int) == Some(v@),
            None => highlights(text@, width, start as int, end as int) is None,
        },
{
    let rows = wrapped_rows(text, width);
    highlight_spans(&rows, width, start, end)
}

} // verus!
