//! The grammar parser of the `fluent-syntax` crate, and the way from its
//! tree to the library's own.
//!
//! The parser's tree is opaque here. It is taken apart node by node: each
//! `open_*` function moves the fields of one node out, and verified code puts
//! the library's tree together from them. Nothing is claimed of what a node
//! holds. What an `open_*` function does claim, where the tree can nest, is
//! that the parts it hands out stand below the node they were part of, so
//! that the walk over the tree is known to end.
//!
//! What the parser makes of a text depends on the text alone. It has a name,
//! `parse_outcome`, which `parse_source` applies to the library's tree.

use vstd::prelude::*;
use fluent_syntax::ast;
use crate::error::{diagnostics_view, DiagnosticView, ParseDiagnostic};
use crate::text::chars_of;
use crate::tree::{
    ArgumentsNode, AttributeNode, CommentNode, ElementNode, ExpressionNode, IdentifierNode,
    InlineNode, KeyNode, MessageNode, NamedArgumentNode, PatternNode, SyntaxTree, TermNode,
    TreeEntry, VariantNode,
};

verus! {

/// The type `fluent_syntax::ast::Resource`, opaque here.
#[verifier::external_type_specification]
#[verifier::external_body]
#[verifier::reject_recursive_types(S)]
pub struct ExResource<S>(fluent_syntax::ast::Resource<S>);

/// The type `fluent_syntax::ast::Entry`, opaque here.
#[verifier::external_type_specification]
#[verifier::external_body]
#[verifier::reject_recursive_types(S)]
pub struct ExEntry<S>(fluent_syntax::ast::Entry<S>);

/// The type `fluent_syntax::ast::Message`, opaque here.
#[verifier::external_type_specification]
#[verifier::external_body]
#[verifier::reject_recursive_types(S)]
pub struct ExMessage<S>(fluent_syntax::ast::Message<S>);

/// The type `fluent_syntax::ast::Term`, opaque here.
#[verifier::external_type_specification]
#[verifier::external_body]
#[verifier::reject_recursive_types(S)]
pub struct ExTerm<S>(fluent_syntax::ast::Term<S>);

/// The type `fluent_syntax::ast::Pattern`, opaque here.
#[verifier::external_type_specification]
#[verifier::external_body]
#[verifier::reject_recursive_types(S)]
pub struct ExPattern<S>(fluent_syntax::ast::Pattern<S>);

/// The type `fluent_syntax::ast::PatternElement`, opaque here.
#[verifier::external_type_specification]
#[verifier::external_body]
#[verifier::reject_recursive_types(S)]
pub struct ExPatternElement<S>(fluent_syntax::ast::PatternElement<S>);

/// The type `fluent_syntax::ast::Expression`, opaque here.
#[verifier::external_type_specification]
#[verifier::external_body]
#[verifier::reject_recursive_types(S)]
pub struct ExExpression<S>(fluent_syntax::ast::Expression<S>);

/// The type `fluent_syntax::ast::InlineExpression`, opaque here.
#[verifier::external_type_specification]
#[verifier::external_body]
#[verifier::reject_recursive_types(S)]
pub struct ExInlineExpression<S>(fluent_syntax::ast::InlineExpression<S>);

/// The type `fluent_syntax::ast::CallArguments`, opaque here.
#[verifier::external_type_specification]
#[verifier::external_body]
#[verifier::reject_recursive_types(S)]
pub struct ExCallArguments<S>(fluent_syntax::ast::CallArguments<S>);

/// The type `fluent_syntax::ast::Variant`, opaque here.
#[verifier::external_type_specification]
#[verifier::external_body]
#[verifier::reject_recursive_types(S)]
pub struct ExVariant<S>(fluent_syntax::ast::Variant<S>);

/// What the parser makes of `source`: the entries of the tree where it
/// meets no error, and else its diagnostics, first one first.
pub uninterp spec fn parse_outcome(source: Seq<char>) -> Result<Seq<TreeEntry>, Seq<DiagnosticView>>;

/// The entries of the tree that the parser makes of `source`.
pub open spec fn parsed_entries(source: Seq<char>) -> Seq<TreeEntry> {
    match parse_outcome(source) {
        Ok(entries) => entries,
        Err(_) => Seq::empty(),
    }
}

/// The diagnostics that the parser reports on `source`, first one first;
/// none where the source parses.
pub open spec fn parse_diagnostics(source: Seq<char>) -> Seq<DiagnosticView> {
    match parse_outcome(source) {
        Ok(_) => Seq::empty(),
        Err(diagnostics) => diagnostics,
    }
}

/// A hexadecimal digit.
pub open spec fn is_hex_digit(c: char) -> bool {
    '0' <= c <= '9' || 'a' <= c <= 'f' || 'A' <= c <= 'F'
}

/// The number of digits that the escape `\u` or `\U` asks for.
pub open spec fn escape_digits(c: char) -> int {
    if c == 'u' {
        4
    } else {
        6
    }
}

/// Whether a `\u` or `\U` escape begins at `i` and is cut short after `k`
/// digits by a character outside ASCII.
pub open spec fn cut_short_at(s: Seq<char>, i: int, k: int) -> bool {
    &&& 0 <= i
    &&& i + 1 < s.len()
    &&& s[i] == '\\'
    &&& s[i + 1] == 'u' || s[i + 1] == 'U'
    &&& 0 <= k < escape_digits(s[i + 1])
    &&& i + 2 + k < s.len()
    &&& forall|j: int| 0 <= j < k ==> is_hex_digit(#[trigger] s[i + 2 + j])
    &&& !is_hex_digit(s[i + 2 + k])
    &&& s[i + 2 + k] > '\u{7f}'
}

/// Whether no newline stands between the positions `q` and `i`.
pub open spec fn one_line(s: Seq<char>, q: int, i: int) -> bool {
    forall|j: int| q < j < i ==> #[trigger] s[j] != '\n'
}

/// Whether a quotation mark stands before position `i` on the same line.
pub open spec fn quoted_before(s: Seq<char>, i: int) -> bool {
    exists|q: int| 0 <= q < i <= s.len() && s[q] == '"' && #[trigger] one_line(s, q, i)
}

/// Whether the parser can be handed `s`. The parser reads a `\u` or `\U`
/// escape only inside a quoted literal, which begins with a quotation mark
/// and does not go beyond its line. Where the escape is cut short it takes
/// one byte more than the digits into its diagnostic; it cannot do that
/// where a character outside ASCII begins there. So no escape behind a
/// quotation mark of its line may be cut short by such a character.
pub open spec fn escapes_safe(s: Seq<char>) -> bool {
    forall|i: int, k: int| !(quoted_before(s, i) && #[trigger] cut_short_at(s, i, k))
}

fn hex_digit(c: char) -> (b: bool)
    ensures
        b == is_hex_digit(c),
{
    let n = c as u32;
    (0x30 <= n && n <= 0x39) || (0x61 <= n && n <= 0x66) || (0x41 <= n && n <= 0x46)
}

fn escape_cut_short(text: &Vec<char>, i: usize) -> (b: bool)
    requires
        i < text@.len(),
    ensures
        b == exists|k: int| cut_short_at(text@, i as int, k),
{
    let len = text.len();
    if text[i] != '\\' || len - i < 2 {
        return false;
    }
    let c = text[i + 1];
    if c != 'u' && c != 'U' {
        return false;
    }
    let digits: usize = if c == 'u' { 4 } else { 6 };
    let rest = len - i - 2;
    let mut k: usize = 0;
    while k < digits && k < rest
        invariant
            k <= digits,
            k <= rest,
            len == text@.len(),
            i + 2 <= len,
            rest == len - i - 2,
            text@[i as int] == '\\',
            text@[i + 1] == 'u' || text@[i + 1] == 'U',
            digits == escape_digits(text@[i + 1]),
            forall|j: int| 0 <= j < k ==> is_hex_digit(#[trigger] text@[i + 2 + j]),
        decreases digits - k,
    {
        let d = text[i + 2 + k];
        if !hex_digit(d) {
            let cut = d > '\u{7f}';
            proof {
                if cut {
                    assert(cut_short_at(text@, i as int, k as int));
                } else {
                    assert forall|m: int| !cut_short_at(text@, i as int, m) by {
                        if cut_short_at(text@, i as int, m) {
                            if m > k {
                                assert(is_hex_digit(text@[i + 2 + k]));
                            } else if m < k {
                                assert(is_hex_digit(text@[i + 2 + m]));
                            }
                        }
                    }
                }
            }
            return cut;
        }
        k += 1;
    }
    proof {
        assert forall|m: int| !cut_short_at(text@, i as int, m) by {
            if cut_short_at(text@, i as int, m) {
                assert(is_hex_digit(text@[i + 2 + m]));
            }
        }
    }
    false
}

/// Whether the parser can be handed `source`.
pub fn has_safe_escapes(source: &str) -> (b: bool)
    ensures
        b == escapes_safe(source@),
{
    let text = chars_of(source);
    let mut quoted = false;
    let mut i: usize = 0;
    while i < text.len()
        invariant
            i <= text.len(),
            text@ == source@,
            quoted == quoted_before(text@, i as int),
            forall|a: int, k: int| 0 <= a < i ==> !(quoted_before(text@, a) && #[trigger] cut_short_at(text@, a, k)),
        decreases text.len() - i,
    {
        if quoted && escape_cut_short(&text, i) {
            proof {
                let k = choose|k: int| cut_short_at(text@, i as int, k);
                assert(quoted_before(text@, i as int) && cut_short_at(text@, i as int, k));
            }
            return false;
        }
        let c = text[i];
        proof {
            lemma_quoted_next(text@, i as int);
        }
        if c == '"' {
            quoted = true;
        } else if c == '\n' {
            quoted = false;
        }
        i += 1;
    }
    true
}

/// A position is behind a quotation mark of its line if it follows one, or
/// if it follows a character that is no newline and is itself behind one.
proof fn lemma_quoted_next(s: Seq<char>, i: int)
    requires
        0 <= i < s.len(),
    ensures
        quoted_before(s, i + 1) == (s[i] == '"' || (s[i] != '\n' && quoted_before(s, i))),
{
    if s[i] == '"' {
        assert(0 <= i < i + 1 <= s.len() && s[i] == '"' && one_line(s, i, i + 1));
    } else if s[i] != '\n' && quoted_before(s, i) {
        let q = choose|q: int| 0 <= q < i <= s.len() && s[q] == '"' && #[trigger] one_line(s, q, i);
        assert(0 <= q < i + 1 <= s.len() && s[q] == '"' && one_line(s, q, i + 1));
    } else if quoted_before(s, i + 1) {
        let q = choose|q: int| 0 <= q < i + 1 <= s.len() && s[q] == '"' && #[trigger] one_line(s, q, i + 1);
        assert(q < i);
        assert(s[i] != '\n');
        assert(0 <= q < i <= s.len() && s[q] == '"' && one_line(s, q, i));
    }
}

/// Parses `source` and hands out the library's tree.
///
/// Wraps `fluent_syntax::parser::parse`, which returns the tree alone where
/// it met no error, and else the tree together with its non-empty list of
/// errors. What it returns depends on the source alone and is given a name.
/// The parser's tree is turned into the library's by `import_resource`,
/// node for node; of each error the position and the parser's own wording
/// are kept, and the tree that comes with errors is dropped. The parser
/// does not return on a text whose escapes are not safe, so such a text is
/// left out.
#[verifier::external_body]
fn parse_source(source: &str) -> (r: Result<SyntaxTree, Vec<ParseDiagnostic>>)
    requires
        escapes_safe(source@),
    ensures
        match r {
            Ok(tree) => parse_outcome(source@) == Ok::<Seq<TreeEntry>, Seq<DiagnosticView>>(tree.body@),
            Err(list) => list@.len() > 0 && parse_outcome(source@) == Err::<
                Seq<TreeEntry>,
                Seq<DiagnosticView>,
            >(diagnostics_view(list@)),
        },
{
    match fluent_syntax::parser::parse(source.to_string()) {
        Ok(tree) => Ok(import_resource(tree)),
        Err((_, errors)) => Err(
            errors.into_iter().map(
                |e| ParseDiagnostic { start: e.pos.start, end: e.pos.end, message: e.kind.to_string() },
            ).collect(),
        ),
    }
}

/// The entries of a tree. Moves the field `body` of
/// `fluent_syntax::ast::Resource` out.
#[verifier::external_body]
fn open_resource(tree: ast::Resource<String>) -> (entries: Vec<ast::Entry<String>>) {
    tree.body
}

/// One entry of the parser's tree, its fields moved out.
enum EntryParts {
    Message(ast::Message<String>),
    Term(ast::Term<String>),
    Comment(Vec<String>),
    GroupComment(Vec<String>),
    ResourceComment(Vec<String>),
    Junk(String),
}

/// Tells the variants of `fluent_syntax::ast::Entry` apart and moves the
/// fields of each out; of a comment, its lines.
#[verifier::external_body]
fn open_entry(entry: ast::Entry<String>) -> (parts: EntryParts) {
    match entry {
        ast::Entry::Message(m) => EntryParts::Message(m),
        ast::Entry::Term(t) => EntryParts::Term(t),
        ast::Entry::Comment(c) => EntryParts::Comment(c.content),
        ast::Entry::GroupComment(c) => EntryParts::GroupComment(c.content),
        ast::Entry::ResourceComment(c) => EntryParts::ResourceComment(c.content),
        ast::Entry::Junk { content } => EntryParts::Junk(content),
    }
}

/// A message or a term of the parser's tree, its fields moved out.
struct UnitParts {
    name: String,
    value: Option<ast::Pattern<String>>,
    attributes: Vec<(String, ast::Pattern<String>)>,
    comment: Option<Vec<String>>,
}

/// Moves the fields of `fluent_syntax::ast::Message` out; of each attribute,
/// its name and its pattern.
#[verifier::external_body]
fn open_message(m: ast::Message<String>) -> (parts: UnitParts) {
    UnitParts {
        name: m.id.name,
        value: m.value,
        attributes: m.attributes.into_iter().map(|a| (a.id.name, a.value)).collect(),
        comment: m.comment.map(|c| c.content),
    }
}

/// Moves the fields of `fluent_syntax::ast::Term` out; its value, which a
/// term always has, comes as `Some`.
#[verifier::external_body]
fn open_term(t: ast::Term<String>) -> (parts: UnitParts)
    ensures
        parts.value is Some,
{
    UnitParts {
        name: t.id.name,
        value: Some(t.value),
        attributes: t.attributes.into_iter().map(|a| (a.id.name, a.value)).collect(),
        comment: t.comment.map(|c| c.content),
    }
}

/// The elements of a pattern. Moves the field `elements` of
/// `fluent_syntax::ast::Pattern` out.
#[verifier::external_body]
fn open_pattern(p: ast::Pattern<String>) -> (elements: Vec<ast::PatternElement<String>>)
    ensures
        decreases_to!(p => elements),
{
    p.elements
}

/// One element of a pattern of the parser's tree.
enum ElementParts {
    Text(String),
    Placeable(ast::Expression<String>),
}

/// Tells the variants of `fluent_syntax::ast::PatternElement` apart.
#[verifier::external_body]
fn open_element(e: ast::PatternElement<String>) -> (parts: ElementParts)
    ensures
        parts matches ElementParts::Placeable(x) ==> decreases_to!(e => x),
{
    match e {
        ast::PatternElement::TextElement { value } => ElementParts::Text(value),
        ast::PatternElement::Placeable { expression } => ElementParts::Placeable(expression),
    }
}

/// One expression of the parser's tree.
enum ExpressionParts {
    Select(ast::InlineExpression<String>, Vec<ast::Variant<String>>),
    Inline(ast::InlineExpression<String>),
}

/// Tells the variants of `fluent_syntax::ast::Expression` apart.
#[verifier::external_body]
fn open_expression(e: ast::Expression<String>) -> (parts: ExpressionParts)
    ensures
        parts matches ExpressionParts::Inline(inline) ==> decreases_to!(e => inline),
        parts matches ExpressionParts::Select(selector, variants) ==> decreases_to!(e => selector)
            && decreases_to!(e => variants),
{
    match e {
        ast::Expression::Select { selector, variants } => ExpressionParts::Select(selector, variants),
        ast::Expression::Inline(inline) => ExpressionParts::Inline(inline),
    }
}

/// One inline expression of the parser's tree.
enum InlineParts {
    StringLiteral(String),
    NumberLiteral(String),
    FunctionReference(String, ast::CallArguments<String>),
    MessageReference(String, Option<String>),
    TermReference(String, Option<String>, Option<ast::CallArguments<String>>),
    VariableReference(String),
    Placeable(ast::Expression<String>),
}

/// Tells the variants of `fluent_syntax::ast::InlineExpression` apart; of an
/// identifier, its name.
#[verifier::external_body]
fn open_inline(e: ast::InlineExpression<String>) -> (parts: InlineParts)
    ensures
        parts matches InlineParts::FunctionReference(_, args) ==> decreases_to!(e => args),
        parts matches InlineParts::TermReference(_, _, Some(args)) ==> decreases_to!(e => args),
        parts matches InlineParts::Placeable(inner) ==> decreases_to!(e => inner),
{
    match e {
        ast::InlineExpression::StringLiteral { value } => InlineParts::StringLiteral(value),
        ast::InlineExpression::NumberLiteral { value } => InlineParts::NumberLiteral(value),
        ast::InlineExpression::FunctionReference { id, arguments } => InlineParts::FunctionReference(id.name, arguments),
        ast::InlineExpression::MessageReference { id, attribute } => InlineParts::MessageReference(id.name, attribute.map(|a| a.name)),
        ast::InlineExpression::TermReference { id, attribute, arguments } => InlineParts::TermReference(id.name, attribute.map(|a| a.name), arguments),
        ast::InlineExpression::VariableReference { id } => InlineParts::VariableReference(id.name),
        ast::InlineExpression::Placeable { expression } => InlineParts::Placeable(*expression),
    }
}

/// The arguments of a call in the parser's tree: the positional ones, and
/// the named ones each with its name.
struct ArgumentParts {
    positional: Vec<ast::InlineExpression<String>>,
    named: Vec<(String, ast::InlineExpression<String>)>,
}

/// Moves the fields of `fluent_syntax::ast::CallArguments` out.
#[verifier::external_body]
fn open_arguments(args: ast::CallArguments<String>) -> (parts: ArgumentParts)
    ensures
        decreases_to!(args => parts.positional),
        forall|i: int| 0 <= i < parts.named@.len() ==> decreases_to!(args => (#[trigger] parts.named@[i]).1),
{
    ArgumentParts {
        positional: args.positional,
        named: args.named.into_iter().map(|n| (n.name.name, n.value)).collect(),
    }
}

/// One variant of the parser's tree.
struct VariantParts {
    key: KeyNode,
    value: ast::Pattern<String>,
    default: bool,
}

/// Moves the fields of `fluent_syntax::ast::Variant` out; the key comes as
/// the library's key of the same variant and text.
#[verifier::external_body]
fn open_variant(v: ast::Variant<String>) -> (parts: VariantParts)
    ensures
        decreases_to!(v => parts.value),
{
    VariantParts {
        key: match v.key {
            ast::VariantKey::Identifier { name } => KeyNode::Identifier { name },
            ast::VariantKey::NumberLiteral { value } => KeyNode::NumberLiteral { value },
        },
        value: v.value,
        default: v.default,
    }
}

fn import_pattern(p: ast::Pattern<String>) -> (out: PatternNode)
    decreases p,
{
    let raw = open_pattern(p);
    let mut elements: Vec<ElementNode> = Vec::new();
    for e in it: raw
        invariant
            decreases_to!(p => it.seq()),
    {
        elements.push(import_element(e));
    }
    PatternNode { elements }
}

fn import_element(e: ast::PatternElement<String>) -> (out: ElementNode)
    decreases e,
{
    match open_element(e) {
        ElementParts::Text(value) => ElementNode::TextElement { value },
        ElementParts::Placeable(x) => ElementNode::Placeable { expression: import_expression(x) },
    }
}

fn import_expression(e: ast::Expression<String>) -> (out: ExpressionNode)
    decreases e,
{
    match open_expression(e) {
        ExpressionParts::Inline(inline) => ExpressionNode::Inline(import_inline(inline)),
        ExpressionParts::Select(selector, raw) => {
            let selector = import_inline(selector);
            let mut variants: Vec<VariantNode> = Vec::new();
            for v in it: raw
                invariant
                    decreases_to!(e => it.seq()),
            {
                variants.push(import_variant(v));
            }
            ExpressionNode::Select { selector, variants }
        },
    }
}

fn import_variant(v: ast::Variant<String>) -> (out: VariantNode)
    decreases v,
{
    let parts = open_variant(v);
    VariantNode { key: parts.key, value: import_pattern(parts.value), default: parts.default }
}

fn import_name(name: Option<String>) -> (out: Option<IdentifierNode>)
    ensures
        out == match name {
            Some(name) => Some(IdentifierNode { name }),
            None => None,
        },
{
    match name {
        Some(name) => Some(IdentifierNode { name }),
        None => None,
    }
}

fn import_inline(e: ast::InlineExpression<String>) -> (out: InlineNode)
    decreases e,
{
    match open_inline(e) {
        InlineParts::StringLiteral(value) => InlineNode::StringLiteral { value },
        InlineParts::NumberLiteral(value) => InlineNode::NumberLiteral { value },
        InlineParts::VariableReference(name) => InlineNode::VariableReference {
            id: IdentifierNode { name },
        },
        InlineParts::FunctionReference(name, args) => InlineNode::FunctionReference {
            id: IdentifierNode { name },
            arguments: import_arguments(args),
        },
        InlineParts::MessageReference(name, attribute) => InlineNode::MessageReference {
            id: IdentifierNode { name },
            attribute: import_name(attribute),
        },
        InlineParts::TermReference(name, attribute, args) => InlineNode::TermReference {
            id: IdentifierNode { name },
            attribute: import_name(attribute),
            arguments: match args {
                Some(args) => Some(import_arguments(args)),
                None => None,
            },
        },
        InlineParts::Placeable(inner) => InlineNode::Placeable {
            expression: Box::new(import_expression(inner)),
        },
    }
}

fn import_arguments(args: ast::CallArguments<String>) -> (out: ArgumentsNode)
    decreases args,
{
    let parts = open_arguments(args);
    let mut positional: Vec<InlineNode> = Vec::new();
    for p in it: parts.positional
        invariant
            decreases_to!(args => it.seq()),
    {
        positional.push(import_inline(p));
    }
    let mut named: Vec<NamedArgumentNode> = Vec::new();
    for n in it: parts.named
        invariant
            forall|i: int| 0 <= i < it.seq().len() ==> decreases_to!(args => (#[trigger] it.seq()[i]).1),
    {
        named.push(NamedArgumentNode { name: IdentifierNode { name: n.0 }, value: import_inline(n.1) });
    }
    ArgumentsNode { positional, named }
}

fn import_comment(lines: Option<Vec<String>>) -> (out: Option<CommentNode>)
    ensures
        out == match lines {
            Some(content) => Some(CommentNode { content }),
            None => None,
        },
{
    match lines {
        Some(content) => Some(CommentNode { content }),
        None => None,
    }
}

fn import_attributes(raw: Vec<(String, ast::Pattern<String>)>) -> (out: Vec<AttributeNode>)
    ensures
        out@.len() == raw@.len(),
        forall|i: int| 0 <= i < out@.len() ==> (#[trigger] out@[i]).id.name == raw@[i].0,
{
    let mut attributes: Vec<AttributeNode> = Vec::new();
    for a in it: raw
        invariant
            it.seq() == raw@,
            attributes@.len() == it.index(),
            forall|i: int| 0 <= i < attributes@.len() ==> (#[trigger] attributes@[i]).id.name == raw@[i].0,
    {
        attributes.push(AttributeNode { id: IdentifierNode { name: a.0 }, value: import_pattern(a.1) });
    }
    attributes
}

fn import_message(m: ast::Message<String>) -> (out: MessageNode) {
    let parts = open_message(m);
    MessageNode {
        id: IdentifierNode { name: parts.name },
        value: match parts.value {
            Some(p) => Some(import_pattern(p)),
            None => None,
        },
        attributes: import_attributes(parts.attributes),
        comment: import_comment(parts.comment),
    }
}

fn import_term(t: ast::Term<String>) -> (out: TermNode) {
    let parts = open_term(t);
    TermNode {
        id: IdentifierNode { name: parts.name },
        value: import_pattern(parts.value.unwrap()),
        attributes: import_attributes(parts.attributes),
        comment: import_comment(parts.comment),
    }
}

fn import_entry(entry: ast::Entry<String>) -> (out: TreeEntry) {
    match open_entry(entry) {
        EntryParts::Message(m) => TreeEntry::Message(import_message(m)),
        EntryParts::Term(t) => TreeEntry::Term(import_term(t)),
        EntryParts::Comment(content) => TreeEntry::Comment(CommentNode { content }),
        EntryParts::GroupComment(content) => TreeEntry::GroupComment(CommentNode { content }),
        EntryParts::ResourceComment(content) => TreeEntry::ResourceComment(CommentNode { content }),
        EntryParts::Junk(content) => TreeEntry::Junk { content },
    }
}

fn import_resource(tree: ast::Resource<String>) -> (out: SyntaxTree) {
    let mut body: Vec<TreeEntry> = Vec::new();
    for entry in it: open_resource(tree) {
        body.push(import_entry(entry));
    }
    SyntaxTree { body }
}

/// Why a source text gave no tree.
#[derive(Clone, Debug, PartialEq, Eq)]
pub enum ParseFailure {
    /// The text holds, behind a quotation mark, a `\u` or `\U` escape that
    /// is cut short by a character outside ASCII. The parser is not handed
    /// such a text.
    UnfinishedEscape,
    /// The parser's diagnostics, first one first.
    Diagnostics(Vec<ParseDiagnostic>),
}

/// A failure as a mathematical value.
pub enum FailureView {
    UnfinishedEscape,
    Diagnostics(Seq<DiagnosticView>),
}

impl View for ParseFailure {
    type V = FailureView;

    open spec fn view(&self) -> FailureView {
        match self {
            ParseFailure::UnfinishedEscape => FailureView::UnfinishedEscape,
            ParseFailure::Diagnostics(list) => FailureView::Diagnostics(diagnostics_view(list@)),
        }
    }
}

/// Whether `source` gives a tree: its escapes are safe and the parser
/// reports no diagnostic on it.
pub open spec fn parses(source: Seq<char>) -> bool {
    escapes_safe(source) && parse_outcome(source) is Ok
}

/// Why `source` gives no tree, where it gives none.
pub open spec fn failure_of(source: Seq<char>) -> FailureView {
    if escapes_safe(source) {
        FailureView::Diagnostics(parse_diagnostics(source))
    } else {
        FailureView::UnfinishedEscape
    }
}

/// Parses `source` into a syntax tree: the tree that the parser makes of it.
/// It fails exactly when the escapes of the text are not safe or the parser
/// reports diagnostics, and then says which, with all the diagnostics.
pub fn parse(source: &str) -> (r: Result<SyntaxTree, ParseFailure>)
    ensures
        r is Ok <==> parses(source@),
        r matches Ok(tree) ==> tree.body@ == parsed_entries(source@),
        r matches Err(f) ==> f@ == failure_of(source@),
        r matches Err(ParseFailure::Diagnostics(list)) ==> list@.len() > 0,
{
    if !has_safe_escapes(source) {
        return Err(ParseFailure::UnfinishedEscape);
    }
    match parse_source(source) {
        Ok(tree) => Ok(tree),
        Err(list) => Err(ParseFailure::Diagnostics(list)),
    }
}

} // verus!
