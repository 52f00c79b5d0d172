//! Syntax tree of a translation list: entries, messages, terms, attributes,
//! patterns, placeables, expressions, select expressions and variants.
//!
//! All text is owned. A tree is plain data: every shape can be built by hand,
//! and the serializer accepts every tree.

use vstd::prelude::*;

verus! {

/// A translation list: its entries in document order.
#[derive(Debug, PartialEq)]
pub struct SyntaxTree {
    pub body: Vec<TreeEntry>,
}

/// One top-level entry of a translation list.
#[derive(Debug, PartialEq)]
pub enum TreeEntry {
    Message(MessageNode),
    Term(TermNode),
    Comment(CommentNode),
    GroupComment(CommentNode),
    ResourceComment(CommentNode),
    Junk { content: String },
}

/// A message: an identifier, an optional value and named attributes.
#[derive(Debug, PartialEq)]
pub struct MessageNode {
    pub id: IdentifierNode,
    pub value: Option<PatternNode>,
    pub attributes: Vec<AttributeNode>,
    pub comment: Option<CommentNode>,
}

/// A term: like a message, but its value is mandatory and its identifier is
/// written with a leading `-`.
#[derive(Debug, PartialEq)]
pub struct TermNode {
    pub id: IdentifierNode,
    pub value: PatternNode,
    pub attributes: Vec<AttributeNode>,
    pub comment: Option<CommentNode>,
}

/// The renderable content of a message, term, attribute or variant.
#[derive(Debug, PartialEq)]
pub struct PatternNode {
    pub elements: Vec<ElementNode>,
}

/// A run of plain text, or an interpolation point.
#[derive(Debug, PartialEq)]
pub enum ElementNode {
    TextElement { value: String },
    Placeable { expression: ExpressionNode },
}

/// A named sub-pattern of a message or term.
#[derive(Debug, PartialEq)]
pub struct AttributeNode {
    pub id: IdentifierNode,
    pub value: PatternNode,
}

/// A name as it stands in the source.
#[derive(Clone, Debug, PartialEq, Eq)]
pub struct IdentifierNode {
    pub name: String,
}

/// One branch of a select expression.
#[derive(Debug, PartialEq)]
pub struct VariantNode {
    pub key: KeyNode,
    pub value: PatternNode,
    pub default: bool,
}

/// The key of a variant.
#[derive(Clone, Debug, PartialEq, Eq)]
pub enum KeyNode {
    Identifier { name: String },
    NumberLiteral { value: String },
}

/// A comment: its lines without the leading marker.
#[derive(Clone, Debug, PartialEq, Eq)]
pub struct CommentNode {
    pub content: Vec<String>,
}

/// The arguments of a function or term reference.
#[derive(Debug, PartialEq)]
pub struct ArgumentsNode {
    pub positional: Vec<InlineNode>,
    pub named: Vec<NamedArgumentNode>,
}

/// A `name: value` argument.
#[derive(Debug, PartialEq)]
pub struct NamedArgumentNode {
    pub name: IdentifierNode,
    pub value: InlineNode,
}

/// An expression that can stand inside a placeable on one line.
#[derive(Debug, PartialEq)]
pub enum InlineNode {
    StringLiteral { value: String },
    NumberLiteral { value: String },
    FunctionReference { id: IdentifierNode, arguments: ArgumentsNode },
    MessageReference { id: IdentifierNode, attribute: Option<IdentifierNode> },
    TermReference { id: IdentifierNode, attribute: Option<IdentifierNode>, arguments: Option<ArgumentsNode> },
    VariableReference { id: IdentifierNode },
    Placeable { expression: Box<ExpressionNode> },
}

/// What a placeable holds.
#[derive(Debug, PartialEq)]
pub enum ExpressionNode {
    Select { selector: InlineNode, variants: Vec<VariantNode> },
    Inline(InlineNode),
}

} // verus!
