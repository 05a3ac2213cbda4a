use quill::document::{Document, Emphasis, Segment};

fn text(s: &str) -> Segment {
    Segment::Text(s.to_string())
}

fn full(parser: fn(&str) -> Option<(Segment, usize)>, input: &str) -> Segment {
    let (segment, consumed) = parser(input).unwrap();
    assert_eq!(consumed, input.chars().count(), "not all of {input:?} was consumed");
    segment
}

fn source_of(segment: &Segment, out: &mut String) {
    match segment {
        Segment::Text(t) => out.push_str(t),
        Segment::Heading(depth, children) => {
            out.push_str(&"#".repeat(*depth));
            out.push(' ');
            for child in children {
                source_of(child, out);
            }
        }
        Segment::Emphasis(kind, children) => {
            out.push_str(kind.delimiter());
            for child in children {
                source_of(child, out);
            }
            out.push_str(kind.delimiter());
        }
        Segment::Escaped(c) => {
            out.push('\\');
            out.push(*c);
        }
    }
}

fn source(document: &Document) -> String {
    let mut out = String::new();
    for segment in document.iter() {
        source_of(segment, &mut out);
    }
    out
}

#[test]
fn parsing_document_works() {
    let inputs = [
        "",
        "# Hello",
        "This is a test",
        "## Subheading",
        "This is **bold**",
        "This is *italic*",
        "This is ***bold italic***",
        "## **Bold subheading**",
        "## *Italic subheading*",
        "## ***Bold italic subheading***",
        "This is a # symbol",
    ];

    for input in inputs {
        assert!(Document::parse_complete(input).is_some(), "{input:?} did not parse");
    }
}

#[test]
fn parsing_headings_works() {
    assert_eq!(
        full(Segment::heading, "# Hello"),
        Segment::Heading(1, vec![text("Hello"), text("\n")])
    );
    assert_eq!(
        full(Segment::heading, "## Subheading"),
        Segment::Heading(2, vec![text("Subheading"), text("\n")])
    );
    assert_eq!(
        full(Segment::heading, "### Subsubheading"),
        Segment::Heading(3, vec![text("Subsubheading"), text("\n")])
    );
    // `#` is structural, so it cannot open a heading's text.
    assert!(Segment::heading("# # Hash heading").is_none());
    assert!(Segment::heading("Not a heading").is_none());
}

#[test]
fn parsing_emphasis_works() {
    assert_eq!(
        full(Segment::bold, "**bold**"),
        Segment::Emphasis(Emphasis::Bold, vec![text("bold")])
    );
    assert_eq!(
        full(Segment::italic, "*italic*"),
        Segment::Emphasis(Emphasis::Italic, vec![text("italic")])
    );
    assert_eq!(
        full(Segment::bold, "**nested *italic* bold**"),
        Segment::Emphasis(
            Emphasis::Bold,
            vec![
                text("nested "),
                Segment::Emphasis(Emphasis::Italic, vec![text("italic")]),
                text(" bold"),
            ]
        )
    );
    assert_eq!(
        full(Segment::italic, "*nested **bold** italic*"),
        Segment::Emphasis(
            Emphasis::Italic,
            vec![
                text("nested "),
                Segment::Emphasis(Emphasis::Bold, vec![text("bold")]),
                text(" italic"),
            ]
        )
    );
    assert_eq!(
        full(Segment::bold, "*** bold italic ***"),
        Segment::Emphasis(
            Emphasis::Bold,
            vec![Segment::Emphasis(Emphasis::Italic, vec![text(" bold italic ")])]
        )
    );
}

#[test]
fn empty_input_gives_empty_document() {
    let (document, consumed) = Document::parse("");
    assert_eq!(consumed, 0);
    assert!(document.is_empty());
    assert!(Document::parse_complete("").unwrap().is_empty());
}

#[test]
fn document_with_one_heading() {
    let document = Document::parse_complete("# Hello").unwrap();
    assert_eq!(
        &*document,
        &vec![Segment::Heading(1, vec![text("Hello"), text("\n")])]
    );
    let document = Document::parse_complete("## Subheading").unwrap();
    assert_eq!(
        *document,
        vec![Segment::Heading(2, vec![text("Subheading"), text("\n")])]
    );
}

#[test]
fn document_with_emphasis() {
    assert_eq!(
        &*Document::parse_complete("**bold**").unwrap(),
        &vec![Segment::Emphasis(Emphasis::Bold, vec![text("bold")])]
    );
    assert_eq!(
        &*Document::parse_complete("*italic*").unwrap(),
        &vec![Segment::Emphasis(Emphasis::Italic, vec![text("italic")])]
    );
    assert_eq!(
        &*Document::parse_complete("*** bold italic ***").unwrap(),
        &vec![Segment::Emphasis(
            Emphasis::Bold,
            vec![Segment::Emphasis(Emphasis::Italic, vec![text(" bold italic ")])]
        )]
    );
}

#[test]
fn plain_line_is_text_not_heading() {
    assert!(Segment::heading("Not a heading").is_none());
    assert_eq!(
        &*Document::parse_complete("Not a heading").unwrap(),
        &vec![text("Not a heading")]
    );
    assert_eq!(Segment::parse("Not a heading"), Some((text("Not a heading"), 13)));
}

#[test]
fn escapes_give_the_literal_character() {
    for x in ['*', '#', '\\'] {
        let input = format!("\\{x}");
        let document = Document::parse_complete(&input).unwrap();
        assert_eq!(&*document, &vec![Segment::Escaped(x)]);
        assert_eq!(Segment::escaped(&input), Some((Segment::Escaped(x), 2)));
    }
    assert_eq!(Segment::escaped("\\x"), None);
    assert_eq!(
        full(Segment::bold, "**a\\*b**"),
        Segment::Emphasis(Emphasis::Bold, vec![text("a"), Segment::Escaped('*'), text("b")])
    );
}

#[test]
fn heading_consumes_its_newline() {
    let document = Document::parse_complete("# Title\nbody").unwrap();
    assert_eq!(
        &*document,
        &vec![Segment::Heading(1, vec![text("Title"), text("\n")]), text("body")]
    );
    assert_eq!(
        full(Segment::heading, "# **Bold** end"),
        Segment::Heading(
            1,
            vec![Segment::Emphasis(Emphasis::Bold, vec![text("Bold")]), text(" end"), text("\n")]
        )
    );
}

#[test]
fn source_round_trips() {
    let inputs = [
        "plain text",
        "# Title\nbody with **bold** and *italic*\n",
        "**outer *inner* outer** \\* \\# \\\\",
        "This is ***bold italic***",
    ];
    for input in inputs {
        let document = Document::parse_complete(input).unwrap();
        assert_eq!(source(&document), input);
    }
    let document = Document::parse_complete("text\n## Last").unwrap();
    assert_eq!(source(&document), "text\n## Last\n");
}

#[test]
fn malformed_input_does_not_parse_completely() {
    assert!(Document::parse_complete("**unclosed").is_none());
    let (document, consumed) = Document::parse("**unclosed");
    assert_eq!(consumed, 0);
    assert!(document.is_empty());
    let (document, consumed) = Document::parse("fine **broken");
    assert_eq!(consumed, 5);
    assert_eq!(&*document, &vec![text("fine ")]);
    assert!(Segment::heading("#").is_none());
    assert!(Segment::heading("# ").is_none());
    assert!(Segment::heading("#nospace").is_none());
}

#[test]
fn single_rules() {
    assert_eq!(Segment::text("abc*def"), Some((text("abc"), 3)));
    assert_eq!(Segment::text("*abc"), None);
    assert_eq!(
        Segment::emphasis(Emphasis::Italic, "*x* rest"),
        Some((Segment::Emphasis(Emphasis::Italic, vec![text("x")]), 3))
    );
    assert_eq!(Segment::bold("*x*"), None);
    assert_eq!(
        Segment::parse("**b**"),
        Some((Segment::Emphasis(Emphasis::Bold, vec![text("b")]), 5))
    );
}

#[test]
fn emphasis_kinds() {
    assert_eq!(Emphasis::Bold.delimiter(), "**");
    assert_eq!(Emphasis::Italic.delimiter(), "*");
    assert_eq!(Emphasis::Bold.other(), Emphasis::Italic);
    assert_eq!(Emphasis::Italic.other(), Emphasis::Bold);
}
