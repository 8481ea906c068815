//! The span of each kind of node.
use vstd::prelude::*;
use vstd::string::StringExecFns;
use crate::decimal::{decimal, push_decimal};
use crate::error::{Error, ErrorView};
use crate::parser::ast::{
    ListType, NodeCode, NodeCodeBlock, NodeDescriptionItem, NodeHeading, NodeHtmlBlock, NodeLink,
    NodeList, NodeValue,
};
use crate::style::style::MdStyle;
use crate::style::visual::Style;
use crate::text::{repeat, repeated, Span, SpanView};

verus! {

/// The span of a heading marker: `depth` times `#` and a space, in the
/// style of the heading level.
pub open spec fn heading_span(depth: nat, table: MdStyle) -> SpanView {
    SpanView { content: repeat('#', depth).push(' '), style: table.heading_for(depth) }
}

/// The span of a text below a node of the kind `parent`: emphasis and code
/// are laid over the text style, and the text of a link stands in square
/// brackets in the style of link texts.
pub open spec fn indent_span(text: Seq<char>, parent: NodeValue, table: MdStyle) -> SpanView {
    match parent {
        NodeValue::Strong => SpanView { content: text, style: table.text.patched(table.bold) },
        NodeValue::Emph => SpanView { content: text, style: table.text.patched(table.italic) },
        NodeValue::CodeBlock(_) => SpanView { content: text, style: table.text.patched(table.code) },
        NodeValue::Code(_) => SpanView { content: text, style: table.text.patched(table.code) },
        NodeValue::Link(_) => SpanView {
            content: seq!['['] + text + seq![']'],
            style: table.link_text,
        },
        _ => SpanView { content: text, style: table.text },
    }
}

/// The span of a list or of a list item: nothing below a list; else the
/// padding and a bullet, or the padding, the number, a dot and a space.
pub open spec fn list_span(list: NodeList, parent: NodeValue, table: MdStyle) -> SpanView {
    if parent is List {
        SpanView { content: seq![], style: Style::plain() }
    } else {
        match list.list_type {
            ListType::Bullet => SpanView {
                content: repeat(' ', list.padding as nat).push('\u{2022}'),
                style: table.list,
            },
            ListType::Ordered => SpanView {
                content: repeat(' ', list.padding as nat) + decimal(list.start as nat) + seq![
                    '.',
                    ' ',
                ],
                style: table.list,
            },
        }
    }
}

/// The span of a block quote.
pub open spec fn blockquote_span(table: MdStyle) -> SpanView {
    SpanView { content: seq!['>'], style: table.blocqoutes }
}

/// The span of inline code: the literal between its backticks.
pub open spec fn code_span(code: NodeCode, table: MdStyle) -> SpanView {
    SpanView {
        content: repeat('`', code.num_backticks as nat) + code.literal@ + repeat(
            '`',
            code.num_backticks as nat,
        ),
        style: table.backtick,
    }
}

/// The span of a block of code: a fence of three backticks and the info
/// string.
pub open spec fn codeblock_span(code: NodeCodeBlock, table: MdStyle) -> SpanView {
    SpanView { content: repeat('`', 3) + code.info@, style: table.code }
}

/// The span of a link: its address in round brackets.
pub open spec fn link_span(link: NodeLink, table: MdStyle) -> SpanView {
    SpanView { content: seq!['('] + link.url@ + seq![')'], style: table.link }
}

/// The span of a thematic break.
pub open spec fn rule_line_span(table: MdStyle) -> SpanView {
    SpanView { content: repeat('-', 6), style: table.horizontal_rule }
}

/// The span of a block of raw HTML: the literal, a comma and the number of
/// the block's type.
pub open spec fn html_block_span(html: NodeHtmlBlock, table: MdStyle) -> SpanView {
    SpanView {
        content: html.literal@ + seq![','] + decimal(html.block_type as nat),
        style: table.code,
    }
}

/// The message of the failure on an item of a description list.
pub open spec fn description_item_message() -> Seq<char> {
    "description items are not supported"@
}

/// The span of a heading marker of the given depth.
pub fn heading_marker(depth: usize, style: &MdStyle) -> (r: Span)
    ensures
        r@ == heading_span(depth as nat, *style),
{
    proof {
        reveal_strlit("#");
        reveal_strlit(" ");
    }
    let mut text = repeated("#", depth);
    text.append(" ");
    assert(text@ =~= repeat('#', depth as nat).push(' '));
    Span::styled(text, style.heading_style(depth))
}

/// The span of a heading: its marker.
pub fn generate_heading(heading: &NodeHeading, style: &MdStyle) -> (r: Span)
    ensures
        r@ == heading_span(heading.level as nat, *style),
{
    heading_marker(heading.level as usize, style)
}

/// The span of a text below a node of the kind `parent`.
pub fn generate_indent(indent: &String, parent: &NodeValue, style: &MdStyle) -> (r: Span)
    ensures
        r@ == indent_span(indent@, *parent, *style),
{
    let mut span = Span::styled(indent.clone(), style.text);
    match parent {
        NodeValue::Strong => span.patch_style(style.bold),
        NodeValue::Emph => span.patch_style(style.italic),
        NodeValue::CodeBlock(_) => span.patch_style(style.code),
        NodeValue::Code(_) => span.patch_style(style.code),
        NodeValue::Link(_) => {
            let mut text = String::from_str("[");
            text.append(indent.as_str());
            text.append("]");
            proof {
                reveal_strlit("[");
                reveal_strlit("]");
                assert(text@ =~= seq!['['] + indent@ + seq![']']);
            }
            span = Span::styled(text, style.link_text)
        },
        _ => {},
    }
    span
}

/// The span of a list or of a list item below a node of the kind `parent`.
pub fn generate_list(list: &NodeList, parent: &NodeValue, style: &MdStyle) -> (r: Span)
    ensures
        r@ == list_span(*list, *parent, *style),
{
    proof {
        reveal_strlit("");
        reveal_strlit(" ");
        reveal_strlit("\u{2022}");
        reveal_strlit(". ");
    }
    match parent {
        NodeValue::List(_) => {
            let r = Span::raw(String::from_str(""));
            assert(r@.content =~= seq![]);
            r
        },
        _ => {
            match list.list_type {
                ListType::Bullet => {
                    let mut text = repeated(" ", list.padding);
                    text.append("\u{2022}");
                    assert(text@ =~= repeat(' ', list.padding as nat).push('\u{2022}'));
                    Span::styled(text, style.list)
                },
                ListType::Ordered => {
                    let mut text = repeated(" ", list.padding);
                    push_decimal(&mut text, list.start);
                    text.append(". ");
                    assert(text@ =~= repeat(' ', list.padding as nat) + decimal(list.start as nat)
                        + seq!['.', ' ']);
                    Span::styled(text, style.list)
                },
            }
        },
    }
}

/// The span of a block quote: its marker.
pub fn generate_blockquete(style: &MdStyle) -> (r: Span)
    ensures
        r@ == blockquote_span(*style),
{
    proof {
        reveal_strlit(">");
        assert(">"@ =~= seq!['>']);
    }
    Span::styled(String::from_str(">"), style.blocqoutes)
}

/// The span of inline code.
pub fn generate_code(code: &NodeCode, style: &MdStyle) -> (r: Span)
    ensures
        r@ == code_span(*code, *style),
{
    proof {
        reveal_strlit("`");
    }
    let mut text = repeated("`", code.num_backticks);
    text.append(code.literal.as_str());
    let fence = repeated("`", code.num_backticks);
    text.append(fence.as_str());
    Span::styled(text, style.backtick)
}

/// The span of a block of code: its opening fence.
pub fn generate_codeblock(code: &NodeCodeBlock, style: &MdStyle) -> (r: Span)
    ensures
        r@ == codeblock_span(*code, *style),
{
    proof {
        reveal_strlit("`");
    }
    let mut text = repeated("`", 3);
    text.append(code.info.as_str());
    Span::styled(text, style.code)
}

/// The spans of a link: one, with its address.
pub fn generate_link(link: &NodeLink, style: &MdStyle) -> (r: Vec<Span>)
    ensures
        r@.len() == 1,
        r@[0]@ == link_span(*link, *style),
{
    let mut text = String::from_str("(");
    text.append(link.url.as_str());
    text.append(")");
    proof {
        reveal_strlit("(");
        reveal_strlit(")");
        assert(text@ =~= seq!['('] + link.url@ + seq![')']);
    }
    let mut r: Vec<Span> = Vec::new();
    r.push(Span::styled(text, style.link));
    r
}

/// The span of a thematic break.
pub fn generate_rule(style: &MdStyle) -> (r: Span)
    ensures
        r@ == rule_line_span(*style),
{
    proof {
        reveal_strlit("------");
        assert("------"@ =~= repeat('-', 6));
    }
    Span::styled(String::from_str("------"), style.horizontal_rule)
}

/// Items of description lists have no span: the failure says so.
pub fn generate_description_item(
    item: &NodeDescriptionItem,
    parent: &NodeValue,
    style: &MdStyle,
) -> (r: Result<Span, Error>)
    ensures
        r is Err,
        r->Err_0@ == ErrorView::ParserErr(description_item_message()),
{
    Err(Error::ParserErr(String::from_str("description items are not supported")))
}

/// The span of a block of raw HTML.
pub fn generate_html_block(html: &NodeHtmlBlock, parent: &NodeValue, style: &MdStyle) -> (r: Span)
    ensures
        r@ == html_block_span(*html, *style),
{
    let mut text = html.literal.clone();
    text.append(",");
    push_decimal(&mut text, html.block_type as usize);
    proof {
        reveal_strlit(",");
        assert(text@ =~= html.literal@ + seq![','] + decimal(html.block_type as nat));
    }
    Span::styled(text, style.code)
}

} // verus!
