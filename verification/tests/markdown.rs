use md_to_tui::parse_markdown;
use md_to_tui::style::style::MdStyle;
use md_to_tui::style::visual::{Color, Style};
use md_to_tui::text::{Line, Span, Text};
use md_to_tui::MarkdownParsable;

fn part(text: &str, style: Style) -> Span {
    Span { content: text.into(), style }
}

#[test]
fn text_of_a_document() {
    let t = MdStyle::default();
    let expected = Text {
        lines: vec![
            Line { spans: vec![part("# ", t.h1), part("TODO", t.text)] },
            Line { spans: vec![] },
            Line {
                spans: vec![part("-", t.list), part(" ", Style::default()), part("one", t.text)],
            },
            Line { spans: vec![] },
        ],
    };
    assert_eq!("# TODO\n\n- one\n".parse_markdown(None), Ok(expected.clone()));
    assert_eq!(String::from("# TODO\n\n- one\n").parse_markdown(None), Ok(expected.clone()));
    assert_eq!(parse_markdown("# TODO\n\n- one\n", None), Ok(expected));
}

#[test]
fn a_failure_becomes_the_text() {
    let expected = Text {
        lines: vec![Line {
            spans: vec![part(
                "md-to-tui error:  Parser Err Token -> Illegal: 1 ",
                Style::default(),
            )],
        }],
    };
    assert_eq!("# a\n\u{1}".parse_markdown(None), Ok(expected.clone()));
    assert_eq!(String::from("\u{1}").parse_markdown(Some(MdStyle::default())), Ok(expected));
    let other = "tab\there".parse_markdown(None).unwrap();
    assert_eq!(other.lines.len(), 1);
    assert_eq!(
        other.lines[0].spans,
        vec![part("md-to-tui error:  Parser Err Token -> Illegal: 9 ", Style::default())]
    );
}

#[test]
fn the_given_table_styles_the_text() {
    let mut t = MdStyle::default();
    t.text = Style::default().fg(Color::Green);
    let got = "word".parse_markdown(Some(t)).unwrap();
    assert_eq!(got.lines, vec![Line { spans: vec![part("word", Style::default().fg(Color::Green))] }]);
}

#[test]
fn empty_text_is_one_empty_line() {
    assert_eq!("".parse_markdown(None), Ok(Text { lines: vec![Line { spans: vec![] }] }));
}

#[test]
fn the_text_of_a_failure_holds_no_newline() {
    for b in 0u8..128 {
        let text = format!("a\nb{}", b as char);
        let shown = text.parse_markdown(None).unwrap();
        if shown.lines.len() == 1 && shown.lines[0].spans.len() == 1 {
            let content = &shown.lines[0].spans[0].content;
            if content.starts_with("md-to-tui error") {
                assert!(!content.contains('\n'));
                assert_eq!(
                    *content,
                    format!("md-to-tui error:  Parser Err Token -> Illegal: {} ", b)
                );
            }
        }
    }
}
