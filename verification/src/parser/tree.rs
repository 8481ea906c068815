//! From a document tree to the spans of a line.
//!
//! The walk visits every node once, a node before the nodes below it and
//! these from the first to the last; every node gives the spans of its
//! kind.
use vstd::prelude::*;
use vstd::string::StringExecFns;
use crate::error::{Error, ErrorView};
use crate::parser::ast::{Node, NodeValue};
use crate::parser::parser::{diagnostic_style, parsed, parsed_line, Parser};
use crate::parser::parser_helpers::{
    blockquote_span, code_span, codeblock_span, description_item_message, generate_blockquete,
    generate_code, generate_codeblock, generate_description_item, generate_heading,
    generate_html_block, generate_indent, generate_link, generate_list, generate_rule,
    heading_span, html_block_span, indent_span, link_span, list_span, rule_line_span,
};
use crate::style::style::MdStyle;
use crate::style::visual::{Color, Style};
use crate::text::{lines_view, spans_view, Line, Span, SpanView};

verus! {

/// The spans of one node below a node of the kind `parent`; `None` for an
/// item of a description list, which has no span.
pub open spec fn node_spans(value: NodeValue, parent: NodeValue, table: MdStyle) -> Option<
    Seq<SpanView>,
> {
    match value {
        NodeValue::Document => Some(seq![]),
        NodeValue::Paragraph => Some(seq![]),
        NodeValue::Strong => Some(seq![]),
        NodeValue::Emph => Some(seq![]),
        NodeValue::DescriptionList => Some(seq![]),
        NodeValue::DescriptionTerm => Some(seq![]),
        NodeValue::DescriptionDetails => Some(seq![]),
        NodeValue::LineBreak => Some(seq![]),
        NodeValue::HtmlBlock(html) => Some(seq![html_block_span(html, table)]),
        NodeValue::HtmlInline(text) => Some(seq![indent_span(text@, parent, table)]),
        NodeValue::FootnoteReference(text) => Some(seq![indent_span(text@, parent, table)]),
        NodeValue::FootnoteDefinition(text) => Some(seq![indent_span(text@, parent, table)]),
        NodeValue::Text(text) => Some(seq![indent_span(text@, parent, table)]),
        NodeValue::DescriptionItem(_) => None,
        NodeValue::Heading(heading) => Some(seq![heading_span(heading.level as nat, table)]),
        NodeValue::List(list) => Some(seq![list_span(list, parent, table)]),
        NodeValue::Item(list) => Some(seq![list_span(list, parent, table)]),
        NodeValue::BlockQuote => Some(seq![blockquote_span(table)]),
        NodeValue::Code(code) => Some(seq![code_span(code, table)]),
        NodeValue::CodeBlock(code) => Some(seq![codeblock_span(code, table)]),
        NodeValue::Link(link) => Some(seq![link_span(link, table)]),
        NodeValue::ThematicBreak => Some(seq![rule_line_span(table)]),
        NodeValue::FrontMatter(text) => Some(
            seq![SpanView { content: text@, style: Style::plain() }],
        ),
        NodeValue::Other(description) => Some(
            seq![SpanView { content: "TODO: "@ + description@, style: diagnostic_style() }],
        ),
    }
}

/// The spans of `node` and of all the nodes below it: those of the node
/// first, then those of its children, from the first to the last. `None`
/// where one of the nodes is an item of a description list.
pub open spec fn tree_spans(node: Node, parent: NodeValue, table: MdStyle) -> Option<
    Seq<SpanView>,
>
    decreases node,
{
    match node_spans(node.value, parent, table) {
        None => None,
        Some(own) => match forest_spans(node.children@, node.value, table) {
            None => None,
            Some(below) => Some(own + below),
        },
    }
}

/// The spans of the trees `nodes`, the children of a node of the kind
/// `parent`, one tree after the other.
pub open spec fn forest_spans(nodes: Seq<Node>, parent: NodeValue, table: MdStyle) -> Option<
    Seq<SpanView>,
>
    decreases nodes,
{
    if nodes.len() == 0 {
        Some(seq![])
    } else {
        match forest_spans(nodes.drop_last(), parent, table) {
            None => None,
            Some(before) => match tree_spans(nodes.last(), parent, table) {
                None => None,
                Some(last) => Some(before + last),
            },
        }
    }
}

/// The trees are walked from the first to the last: the spans of a first
/// tree come before those of the trees behind it.
pub proof fn lemma_forest_first(first: Node, rest: Seq<Node>, parent: NodeValue, table: MdStyle)
    ensures
        forest_spans(seq![first] + rest, parent, table) == match tree_spans(first, parent, table) {
            None => None,
            Some(head) => match forest_spans(rest, parent, table) {
                None => None,
                Some(tail) => Some(head + tail),
            },
        },
    decreases rest.len(),
{
    let all = seq![first] + rest;
    let none = Seq::<Node>::empty();
    assert(forest_spans(none, parent, table) == Some(Seq::<SpanView>::empty()));
    if rest.len() == 0 {
        assert(rest =~= none);
        assert(all.drop_last() =~= none);
        assert(all.last() == first);
        if tree_spans(first, parent, table) is Some {
            let head = tree_spans(first, parent, table)->Some_0;
            assert(Seq::<SpanView>::empty() + head =~= head);
            assert(head + Seq::<SpanView>::empty() =~= head);
        }
    } else {
        assert(all.drop_last() =~= seq![first] + rest.drop_last());
        assert(all.last() == rest.last());
        lemma_forest_first(first, rest.drop_last(), parent, table);
        if tree_spans(first, parent, table) is Some && forest_spans(rest, parent, table) is Some {
            let head = tree_spans(first, parent, table)->Some_0;
            let before = forest_spans(rest.drop_last(), parent, table)->Some_0;
            let last = tree_spans(rest.last(), parent, table)->Some_0;
            assert((head + before) + last =~= head + (before + last));
        }
    }
}

/// Where the first trees have no spans, all of them together have none.
proof fn lemma_forest_fails(nodes: Seq<Node>, j: int, parent: NodeValue, table: MdStyle)
    requires
        0 <= j <= nodes.len(),
        forest_spans(nodes.take(j), parent, table) is None,
    ensures
        forest_spans(nodes, parent, table) is None,
    decreases nodes.len() - j,
{
    if j < nodes.len() {
        assert(nodes.take(j + 1).drop_last() =~= nodes.take(j));
        lemma_forest_fails(nodes, j + 1, parent, table);
    } else {
        assert(nodes.take(j) =~= nodes);
    }
}

/// What the walk over a tree gives: the spans of all its nodes, or the
/// failure on an item of a description list.
pub open spec fn tree_outcome(root: Node, table: MdStyle) -> Result<Seq<SpanView>, ErrorView> {
    match tree_spans(root, NodeValue::Document, table) {
        Some(spans) => Ok(spans),
        None => Err(ErrorView::ParserErr(description_item_message())),
    }
}

/// Each of the trees has spans.
pub open spec fn all_walkable(roots: Seq<Node>, table: MdStyle) -> bool {
    forall|k: int|
        0 <= k < roots.len() ==> (#[trigger] tree_spans(
            roots[k],
            NodeValue::Document,
            table,
        )) is Some
}

/// What the walk over the trees of the lines of a text gives: for each
/// tree the line of its spans; or, where a tree has none, the failure.
pub open spec fn trees_outcome(roots: Seq<Node>, table: MdStyle) -> Result<
    Seq<Seq<SpanView>>,
    ErrorView,
> {
    if all_walkable(roots, table) {
        Ok(
            Seq::new(
                roots.len(),
                |k: int| tree_spans(roots[k], NodeValue::Document, table)->Some_0,
            ),
        )
    } else {
        Err(ErrorView::ParserErr(description_item_message()))
    }
}

/// Appends the spans of one node.
fn push_node(value: &NodeValue, parent: &NodeValue, style: &MdStyle, spans: &mut Vec<Span>) -> (r:
    Result<(), Error>)
    ensures
        match node_spans(*value, *parent, *style) {
            Some(own) => r is Ok && spans_view(final(spans)@) == spans_view(old(spans)@) + own,
            None => r is Err && r->Err_0@ == ErrorView::ParserErr(description_item_message()),
        },
{
    let ghost before = spans_view(spans@);
    match value {
        NodeValue::Document => {},
        NodeValue::Paragraph => {},
        NodeValue::Strong => {},
        NodeValue::Emph => {},
        NodeValue::DescriptionList => {},
        NodeValue::DescriptionTerm => {},
        NodeValue::DescriptionDetails => {},
        NodeValue::LineBreak => {},
        NodeValue::HtmlBlock(html) => {
            spans.push(generate_html_block(html, parent, style));
        },
        NodeValue::HtmlInline(text) => {
            spans.push(generate_indent(text, parent, style));
        },
        NodeValue::FootnoteReference(text) => {
            spans.push(generate_indent(text, parent, style));
        },
        NodeValue::FootnoteDefinition(text) => {
            spans.push(generate_indent(text, parent, style));
        },
        NodeValue::DescriptionItem(item) => {
            match generate_description_item(item, parent, style) {
                Ok(span) => {
                    spans.push(span);
                },
                Err(e) => {
                    return Err(e);
                },
            }
        },
        NodeValue::Heading(heading) => {
            spans.push(generate_heading(heading, style));
        },
        NodeValue::Text(text) => {
            spans.push(generate_indent(text, parent, style));
        },
        NodeValue::List(list) => {
            spans.push(generate_list(list, parent, style));
        },
        NodeValue::Item(list) => {
            spans.push(generate_list(list, parent, style));
        },
        NodeValue::BlockQuote => {
            spans.push(generate_blockquete(style));
        },
        NodeValue::Code(code) => {
            spans.push(generate_code(code, style));
        },
        NodeValue::CodeBlock(codeblock) => {
            spans.push(generate_codeblock(codeblock, style));
        },
        NodeValue::Link(link) => {
            let mut link_spans = generate_link(link, style);
            let ghost added = link_spans@;
            spans.append(&mut link_spans);
            assert(spans@ =~= old(spans)@.push(added[0]));
        },
        NodeValue::ThematicBreak => {
            spans.push(generate_rule(style));
        },
        NodeValue::FrontMatter(front_matter) => {
            spans.push(Span::raw(front_matter.clone()));
        },
        NodeValue::Other(description) => {
            let mut text = String::from_str("TODO: ");
            text.append(description.as_str());
            spans.push(Span::styled(text, Style::new().fg(Color::Red)));
        },
    }
    proof {
        let own = node_spans(*value, *parent, *style)->Some_0;
        assert(spans_view(spans@) =~= before + own);
    }
    Ok(())
}

/// Appends the spans of `node` and then those of the nodes below it, child
/// by child.
fn iter_nodes(node: &Node, parent: &NodeValue, style: &MdStyle, spans: &mut Vec<Span>) -> (r:
    Result<(), Error>)
    ensures
        match tree_spans(*node, *parent, *style) {
            Some(all) => r is Ok && spans_view(final(spans)@) == spans_view(old(spans)@) + all,
            None => r is Err && r->Err_0@ == ErrorView::ParserErr(description_item_message()),
        },
    decreases node,
{
    let ghost before = spans_view(spans@);
    match push_node(&node.value, parent, style, spans) {
        Ok(()) => {},
        Err(e) => {
            return Err(e);
        },
    }
    let ghost own = node_spans(node.value, *parent, *style)->Some_0;
    let ghost children = node.children@;
    let mut i: usize = 0;
    assert(children.take(0) =~= Seq::<Node>::empty());
    assert(before + own + Seq::<SpanView>::empty() =~= before + own);
    while i < node.children.len()
        invariant
            children == node.children@,
            i <= children.len(),
            node_spans(node.value, *parent, *style) == Some(own),
            forest_spans(children.take(i as int), node.value, *style) is Some,
            spans_view(spans@) == before + own + forest_spans(
                children.take(i as int),
                node.value,
                *style,
            )->Some_0,
        decreases children.len() - i,
    {
        let ghost done = forest_spans(children.take(i as int), node.value, *style)->Some_0;
        proof {
            assert(children.take(i + 1).drop_last() =~= children.take(i as int));
            assert(children.take(i + 1).last() == children[i as int]);
        }
        match iter_nodes(&node.children[i], &node.value, style, spans) {
            Ok(()) => {
                proof {
                    let child = tree_spans(children[i as int], node.value, *style)->Some_0;
                    assert(before + own + done + child =~= before + own + (done + child));
                }
            },
            Err(e) => {
                proof {
                    lemma_forest_fails(children, i + 1, node.value, *style);
                }
                return Err(e);
            },
        }
        i += 1;
    }
    proof {
        assert(children.take(i as int) =~= children);
        let below = forest_spans(children, node.value, *style)->Some_0;
        assert(before + own + below =~= before + (own + below));
    }
    Ok(())
}

impl Parser {
    /// The spans of a document tree, in the parser's styles.
    ///
    /// Fails exactly where a node of the tree is an item of a description
    /// list.
    pub fn parse_ast(&self, root: &Node) -> (r: Result<Vec<Span>, Error>)
        ensures
            parsed_line(r) == tree_outcome(*root, self.style),
    {
        let mut spans: Vec<Span> = Vec::new();
        let document = NodeValue::Document;
        match iter_nodes(root, &document, &self.style, &mut spans) {
            Ok(()) => {
                assert(spans_view(spans@) =~= tree_spans(
                    *root,
                    NodeValue::Document,
                    self.style,
                )->Some_0);
                Ok(spans)
            },
            Err(e) => Err(e),
        }
    }

    /// The lines of the document trees of the lines of a text: one line
    /// for each tree, in the order of the trees.
    ///
    /// Fails exactly where the walk over one of the trees fails.
    pub fn parse_trees(&self, roots: &Vec<Node>) -> (r: Result<Vec<Line>, Error>)
        ensures
            parsed(r) == trees_outcome(roots@, self.style),
    {
        let mut lines: Vec<Line> = Vec::new();
        let mut i: usize = 0;
        while i < roots.len()
            invariant
                i <= roots@.len(),
                lines@.len() == i,
                forall|k: int|
                    0 <= k < i ==> (#[trigger] tree_spans(
                        roots@[k],
                        NodeValue::Document,
                        self.style,
                    )) == Some(lines@[k]@),
            decreases roots@.len() - i,
        {
            match self.parse_ast(&roots[i]) {
                Ok(spans) => {
                    lines.push(Line::new(spans));
                },
                Err(e) => {
                    assert(!all_walkable(roots@, self.style)) by {
                        assert(tree_spans(roots@[i as int], NodeValue::Document, self.style)
                            is None);
                    }
                    return Err(e);
                },
            }
            i += 1;
        }
        proof {
            assert(all_walkable(roots@, self.style));
            assert(lines_view(lines@) =~= trees_outcome(roots@, self.style)->Ok_0);
        }
        Ok(lines)
    }
}

} // verus!
