use quill::layout::{
    highlight_spans, position_of, selection_highlights, wrapped_rows, HighlightSpan, VisualRow,
};
use quill::storage::PathBufCodec;

fn row(len: usize, ends_line: bool) -> VisualRow {
    VisualRow { len, ends_line }
}

fn span(row: usize, left: usize, width: usize) -> HighlightSpan {
    HighlightSpan { row, left, width }
}

#[test]
fn lines_wrap_into_rows() {
    assert_eq!(
        wrapped_rows("abcdef\n\nxy", 4),
        vec![row(4, false), row(2, true), row(0, true), row(2, true)]
    );
    assert_eq!(wrapped_rows("abcdef", 3), vec![row(3, false), row(3, true)]);
    assert_eq!(wrapped_rows("", 3), vec![row(0, true)]);
    assert_eq!(wrapped_rows("ab\n", 3), vec![row(2, true), row(0, true)]);
}

#[test]
fn zero_width_means_no_wrapping() {
    assert_eq!(wrapped_rows("abcdefgh\nxy", 0), vec![row(8, true), row(2, true)]);
}

#[test]
fn offsets_map_to_rows_and_columns() {
    let rows = wrapped_rows("abcdef", 3);
    assert_eq!(position_of(&rows, 0), Some((0, 0)));
    assert_eq!(position_of(&rows, 2), Some((0, 2)));
    assert_eq!(position_of(&rows, 6), Some((1, 3)));
    assert_eq!(position_of(&rows, 7), None);

    let rows = wrapped_rows("ab\ncd", 0);
    assert_eq!(position_of(&rows, 2), Some((0, 2)));
    assert_eq!(position_of(&rows, 3), Some((1, 0)));
    assert_eq!(position_of(&rows, 5), Some((1, 2)));
    assert_eq!(position_of(&rows, 6), None);
}

#[test]
fn wrap_boundary_goes_to_next_row() {
    let rows = wrapped_rows("abcdef", 3);
    assert_eq!(position_of(&rows, 3), Some((1, 0)));
    assert_eq!(
        selection_highlights("abcdef", 3, 3, 5),
        Some(vec![span(0, 0, 0), span(1, 0, 2)])
    );
    assert_eq!(
        selection_highlights("abcdef", 3, 1, 3),
        Some(vec![span(0, 1, 2), span(1, 0, 0)])
    );
}

#[test]
fn selection_spans_per_row() {
    assert_eq!(
        selection_highlights("abcdef", 3, 1, 5),
        Some(vec![span(0, 1, 2), span(1, 0, 2)])
    );
    assert_eq!(
        selection_highlights("abcdefghi", 3, 1, 8),
        Some(vec![span(0, 1, 2), span(1, 0, 3), span(2, 0, 2)])
    );
    assert_eq!(
        selection_highlights("abcdefghi", 3, 1, 2),
        Some(vec![span(0, 1, 1), span(1, 0, 0), span(2, 0, 0)])
    );
    assert_eq!(
        selection_highlights("ab\n\ncd", 0, 1, 5),
        Some(vec![span(0, 1, 1), span(1, 0, 0), span(2, 0, 1)])
    );
}

#[test]
fn bad_selections_give_no_highlight() {
    assert_eq!(selection_highlights("abcdef", 3, 4, 2), None);
    assert_eq!(selection_highlights("abcdef", 3, 2, 9), None);
    assert_eq!(selection_highlights("", 0, 0, 1), None);
    let rows = wrapped_rows("abc", 0);
    assert_eq!(highlight_spans(&rows, 0, 0, 4), None);
    assert_eq!(highlight_spans(&rows, 0, 0, 3), Some(vec![span(0, 0, 3)]));
}

#[test]
fn highlights_are_repeatable() {
    let first = selection_highlights("one two\nthree four five", 5, 2, 17);
    let second = selection_highlights("one two\nthree four five", 5, 2, 17);
    assert!(first.is_some());
    assert_eq!(first, second);
}

#[test]
fn save_path_codec() {
    assert_eq!(PathBufCodec::encode(&None), "");
    assert_eq!(PathBufCodec::encode(&Some("/home/a/notes.md".to_string())), "/home/a/notes.md");
    assert_eq!(PathBufCodec::decode(""), None);
    assert_eq!(PathBufCodec::decode("/tmp/x"), Some("/tmp/x".to_string()));
}
