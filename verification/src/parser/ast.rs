//! A document as a tree of nodes, as a parser of the full markup language
//! hands it over.
//!
//! A node holds of each construct what the mapping to spans reads.
use vstd::prelude::*;

verus! {

/// The kind of a list.
#[derive(Debug, Clone, Copy, PartialEq, Eq)]
pub enum ListType {
    /// Items behind a bullet.
    Bullet,
    /// Numbered items.
    Ordered,
}

/// A list, or an item of one.
#[derive(Debug, Clone, Copy, PartialEq, Eq)]
pub struct NodeList {
    pub list_type: ListType,
    /// The number of columns before the marker.
    pub padding: usize,
    /// The number of the first item of a numbered list.
    pub start: usize,
}

/// An item of a description list.
#[derive(Debug, Clone, Copy, PartialEq, Eq)]
pub struct NodeDescriptionItem {
    pub marker_offset: usize,
    pub padding: usize,
}

/// A heading.
#[derive(Debug, Clone, Copy, PartialEq, Eq)]
pub struct NodeHeading {
    pub level: u8,
}

/// Inline code.
#[derive(Debug, Clone, PartialEq, Eq)]
pub struct NodeCode {
    /// The number of backticks on each side.
    pub num_backticks: usize,
    pub literal: String,
}

/// A block of code.
#[derive(Debug, Clone, PartialEq, Eq)]
pub struct NodeCodeBlock {
    /// What follows the opening fence.
    pub info: String,
}

/// A link.
#[derive(Debug, Clone, PartialEq, Eq)]
pub struct NodeLink {
    pub url: String,
}

/// A block of raw HTML.
#[derive(Debug, Clone, PartialEq, Eq)]
pub struct NodeHtmlBlock {
    pub block_type: u8,
    pub literal: String,
}

/// What a node is.
#[derive(Debug, Clone, PartialEq, Eq)]
pub enum NodeValue {
    Document,
    FrontMatter(String),
    BlockQuote,
    List(NodeList),
    Item(NodeList),
    DescriptionList,
    DescriptionItem(NodeDescriptionItem),
    DescriptionTerm,
    DescriptionDetails,
    CodeBlock(NodeCodeBlock),
    HtmlBlock(NodeHtmlBlock),
    Paragraph,
    Heading(NodeHeading),
    ThematicBreak,
    FootnoteDefinition(String),
    Text(String),
    LineBreak,
    Code(NodeCode),
    HtmlInline(String),
    Emph,
    Strong,
    Link(NodeLink),
    FootnoteReference(String),
    /// A node of any other kind, with a description of it.
    Other(String),
}

/// A node with the nodes below it.
#[derive(Debug, PartialEq, Eq)]
pub struct Node {
    pub value: NodeValue,
    pub children: Vec<Node>,
}

} // verus!
