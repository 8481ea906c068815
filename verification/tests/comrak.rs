use comrak::nodes::{AstNode, ListType, NodeValue};
use comrak::{parse_document, Arena, ComrakOptions};
use md_to_tui::parser::ast;
use md_to_tui::parser::parser::Parser;
use md_to_tui::style::style::MdStyle;
use md_to_tui::style::visual::{Color, Style};
use md_to_tui::text::{Line, Span};

fn list(l: &comrak::nodes::NodeList) -> ast::NodeList {
    ast::NodeList {
        list_type: match l.list_type {
            ListType::Bullet => ast::ListType::Bullet,
            ListType::Ordered => ast::ListType::Ordered,
        },
        padding: l.padding,
        start: l.start,
    }
}

fn value(v: &NodeValue) -> ast::NodeValue {
    match v {
        NodeValue::Document => ast::NodeValue::Document,
        NodeValue::FrontMatter(s) => ast::NodeValue::FrontMatter(s.clone()),
        NodeValue::BlockQuote => ast::NodeValue::BlockQuote,
        NodeValue::List(l) => ast::NodeValue::List(list(l)),
        NodeValue::Item(l) => ast::NodeValue::Item(list(l)),
        NodeValue::DescriptionList => ast::NodeValue::DescriptionList,
        NodeValue::DescriptionItem(i) => {
            ast::NodeValue::DescriptionItem(ast::NodeDescriptionItem {
                marker_offset: i.marker_offset,
                padding: i.padding,
            })
        }
        NodeValue::DescriptionTerm => ast::NodeValue::DescriptionTerm,
        NodeValue::DescriptionDetails => ast::NodeValue::DescriptionDetails,
        NodeValue::CodeBlock(c) => {
            ast::NodeValue::CodeBlock(ast::NodeCodeBlock { info: c.info.clone() })
        }
        NodeValue::HtmlBlock(h) => ast::NodeValue::HtmlBlock(ast::NodeHtmlBlock {
            block_type: h.block_type,
            literal: h.literal.clone(),
        }),
        NodeValue::Paragraph => ast::NodeValue::Paragraph,
        NodeValue::Heading(h) => ast::NodeValue::Heading(ast::NodeHeading { level: h.level }),
        NodeValue::ThematicBreak => ast::NodeValue::ThematicBreak,
        NodeValue::FootnoteDefinition(s) => ast::NodeValue::FootnoteDefinition(s.clone()),
        NodeValue::Text(s) => ast::NodeValue::Text(s.clone()),
        NodeValue::LineBreak => ast::NodeValue::LineBreak,
        NodeValue::Code(c) => ast::NodeValue::Code(ast::NodeCode {
            num_backticks: c.num_backticks,
            literal: c.literal.clone(),
        }),
        NodeValue::HtmlInline(s) => ast::NodeValue::HtmlInline(s.clone()),
        NodeValue::Emph => ast::NodeValue::Emph,
        NodeValue::Strong => ast::NodeValue::Strong,
        NodeValue::Link(l) => ast::NodeValue::Link(ast::NodeLink { url: l.url.clone() }),
        NodeValue::FootnoteReference(s) => ast::NodeValue::FootnoteReference(s.clone()),
        other => ast::NodeValue::Other(format!("{:?}", other)),
    }
}

fn node<'a>(n: &'a AstNode<'a>) -> ast::Node {
    ast::Node { value: value(&n.data.borrow().value), children: n.children().map(node).collect() }
}

fn tree(line: &str) -> ast::Node {
    let arena = Arena::new();
    node(parse_document(&arena, line, &ComrakOptions::default()))
}

fn spans(line: &str) -> Vec<Span> {
    Parser::new(String::new(), None).parse_ast(&tree(line)).unwrap()
}

fn shown(text: &str, style: Style) -> Span {
    Span { content: text.into(), style }
}

#[test]
fn document_heading() {
    let t = MdStyle::default();
    assert_eq!(spans("# Title"), vec![shown("# ", t.h1), shown("Title", t.text)]);
    assert_eq!(spans("### Three"), vec![shown("### ", t.h3), shown("Three", t.text)]);
    assert_eq!(spans("body"), vec![shown("body", t.text)]);
    assert_eq!(spans(""), vec![]);
}

#[test]
fn document_of_two_lines() {
    let t = MdStyle::default();
    let parser = Parser::new("# Title\nbody".into(), None);
    let roots: Vec<ast::Node> = parser.source_lines().iter().map(|l| tree(l)).collect();
    assert_eq!(
        parser.parse_trees(&roots),
        Ok(vec![
            Line { spans: vec![shown("# ", t.h1), shown("Title", t.text)] },
            Line { spans: vec![shown("body", t.text)] },
        ])
    );
}

#[test]
fn document_lists() {
    let t = MdStyle::default();
    assert_eq!(
        spans("- item"),
        vec![shown("  \u{2022}", t.list), shown("", Style::default()), shown("item", t.text)]
    );
    assert_eq!(
        spans("3. item"),
        vec![shown("   3. ", t.list), shown("", Style::default()), shown("item", t.text)]
    );
}

#[test]
fn document_inlines() {
    let t = MdStyle::default();
    let white = |add: u16| Style { fg: Some(Color::White), bg: None, add_modifier: add, sub_modifier: 0 };
    assert_eq!(spans("**bold** rest"), vec![shown("bold", white(1)), shown(" rest", t.text)]);
    assert_eq!(spans("*soft* rest"), vec![shown("soft", white(4)), shown(" rest", t.text)]);
    assert_eq!(spans("`x y` rest"), vec![shown("`x y`", t.backtick), shown(" rest", t.text)]);
    assert_eq!(
        spans("[label](http://exp.com) rest"),
        vec![
            shown("(http://exp.com)", t.link),
            shown("[label]", t.link_text),
            shown(" rest", t.text),
        ]
    );
    assert_eq!(spans("plain **bold**"), vec![shown("plain ", t.text), shown("bold", white(1))]);
    assert_eq!(
        spans("a *b* c **d** `e`"),
        vec![
            shown("a ", t.text),
            shown("b", white(4)),
            shown(" c ", t.text),
            shown("d", white(1)),
            shown(" ", t.text),
            shown("`e`", t.backtick),
        ]
    );
}

#[test]
fn document_blocks() {
    let t = MdStyle::default();
    assert_eq!(spans("> quote"), vec![shown(">", t.blocqoutes), shown("quote", t.text)]);
    assert_eq!(spans("---"), vec![shown("------", t.horizontal_rule)]);
    assert_eq!(spans("```rust"), vec![shown("```rust", t.code)]);
    assert_eq!(spans("<table>"), vec![shown("<table>\n,6", t.code)]);
}

#[test]
fn document_nodes_without_a_span_of_their_own() {
    let t = MdStyle::default();
    let got = spans("![alt](pic.png)");
    assert_eq!(got.len(), 2);
    assert_eq!(got[0].style, Style::default().fg(Color::Red));
    assert!(got[0].content.starts_with("TODO: Image("));
    assert_eq!(got[1], shown("alt", t.text));
}
