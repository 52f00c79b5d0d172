//! The canonical layout of a syntax tree, as a function from writer state to
//! writer state.
//!
//! Each `render_*` function says what the serializer appends for one kind of
//! node. The state is threaded through because what a write produces depends
//! on whether the buffer ends in a newline.

use vstd::prelude::*;
use crate::tree::{
    ArgumentsNode, AttributeNode, CommentNode, ElementNode, ExpressionNode, IdentifierNode,
    InlineNode, KeyNode, MessageNode, NamedArgumentNode, PatternNode, TermNode, TreeEntry,
    VariantNode,
};
use crate::text::is_blank;
use crate::writer::WriterState;

verus! {

/// Whether `e` is a select expression, possibly wrapped in inline placeables.
pub open spec fn is_select_expr(e: ExpressionNode) -> bool
    decreases e,
{
    match e {
        ExpressionNode::Select { .. } => true,
        ExpressionNode::Inline(InlineNode::Placeable { expression }) => is_select_expr(
            *expression,
        ),
        ExpressionNode::Inline(_) => false,
    }
}

/// Whether `e` forces its pattern onto several lines.
pub open spec fn element_is_multiline(e: ElementNode) -> bool {
    match e {
        ElementNode::TextElement { value } => value@.contains('\n'),
        ElementNode::Placeable { expression } => is_select_expr(expression),
    }
}

/// A pattern is multiline when it holds a text element with a newline or a
/// placeable that is a select expression.
pub open spec fn is_multiline(p: PatternNode) -> bool {
    exists|i: int| 0 <= i < p.elements@.len() && element_is_multiline(#[trigger] p.elements@[i])
}

/// Whether the pattern begins with text that starts with `.`.
pub open spec fn has_leading_text_dot(p: PatternNode) -> bool {
    p.elements@.len() > 0 && match p.elements@[0] {
        ElementNode::TextElement { value } => value@.len() > 0 && value@[0] == '.',
        ElementNode::Placeable { .. } => false,
    }
}

/// The layout decision: a pattern starts on a new indented line if and only
/// if it is multiline and does not begin with a dot.
pub open spec fn starts_on_new_line(p: PatternNode) -> bool {
    !has_leading_text_dot(p) && is_multiline(p)
}

/// The text of a variant key.
pub open spec fn variant_key_text(k: KeyNode) -> Seq<char> {
    match k {
        KeyNode::Identifier { name } => name@,
        KeyNode::NumberLiteral { value } => value@,
    }
}

/// A pattern: on a new line and one level deeper if it starts on a new
/// line, else behind exactly one space.
pub open spec fn render_pattern(p: PatternNode, st: WriterState) -> WriterState
    decreases p, 0nat,
{
    if starts_on_new_line(p) {
        render_elements(p.elements@, p.elements@.len(), st.newline().indent()).dedent()
    } else {
        render_elements(p.elements@, p.elements@.len(), st.write(" "@))
    }
}

/// The first `n` elements, in order.
pub open spec fn render_elements(es: Seq<ElementNode>, n: nat, st: WriterState) -> WriterState
    decreases es, n,
{
    if n == 0 || n > es.len() {
        st
    } else {
        render_element(es[n - 1], render_elements(es, (n - 1) as nat, st))
    }
}

/// One element of a pattern. Text is written as it is. A placeable stands
/// in braces: doubled, with a space inside, around a placeable of its own;
/// with a space after the opening brace only around a select expression,
/// whose last line already ends in a newline; with a space on each side
/// around anything else.
pub open spec fn render_element(e: ElementNode, st: WriterState) -> WriterState
    decreases e, 0nat,
{
    match e {
        ElementNode::TextElement { value } => st.write(value@),
        ElementNode::Placeable { expression } => match expression {
            ExpressionNode::Inline(InlineNode::Placeable { expression: inner }) => render_expression(
                *inner,
                st.write("{{ "@),
            ).write(" }}"@),
            ExpressionNode::Select { .. } => render_expression(expression, st.write("{ "@)).write("}"@),
            ExpressionNode::Inline(_) => render_expression(expression, st.write("{ "@)).write(" }"@),
        },
    }
}

/// An expression. A select expression is its selector, ` ->`, and its
/// variants one level deeper, each on a line of its own.
pub open spec fn render_expression(e: ExpressionNode, st: WriterState) -> WriterState
    decreases e, 0nat,
{
    match e {
        ExpressionNode::Inline(inline) => render_inline(inline, st),
        ExpressionNode::Select { selector, variants } => render_variants(
            variants@,
            variants@.len(),
            render_inline(selector, st).write(" ->"@).newline().indent(),
        ).dedent(),
    }
}

/// The attribute behind a reference, if there is one: a dot and its name.
pub open spec fn render_attribute_ref(attribute: Option<IdentifierNode>, st: WriterState) -> WriterState {
    match attribute {
        Some(attr) => st.write("."@).write(attr.name@),
        None => st,
    }
}

/// An inline expression: a string literal in quotes, a number literal as
/// it is, a variable behind `$`, a function with its arguments, a message by
/// its name, a term behind `-` with its arguments if it has any, a placeable
/// in single braces.
pub open spec fn render_inline(e: InlineNode, st: WriterState) -> WriterState
    decreases e, 0nat,
{
    match e {
        InlineNode::StringLiteral { value } => st.write("\""@).write(value@).write("\""@),
        InlineNode::NumberLiteral { value } => st.write(value@),
        InlineNode::VariableReference { id } => st.write("$"@).write(id.name@),
        InlineNode::FunctionReference { id, arguments } => render_call_arguments(
            arguments,
            st.write(id.name@),
        ),
        InlineNode::MessageReference { id, attribute } => render_attribute_ref(
            attribute,
            st.write(id.name@),
        ),
        InlineNode::TermReference { id, attribute, arguments } => {
            let named = render_attribute_ref(attribute, st.write("-"@).write(id.name@));
            match arguments {
                Some(args) => render_call_arguments(args, named),
                None => named,
            }
        },
        InlineNode::Placeable { expression } => render_expression(
            *expression,
            st.write("{"@),
        ).write("}"@),
    }
}

/// Call arguments in parentheses: the positional ones, then the named ones
/// as `name: value`, separated by a comma and a space.
pub open spec fn render_call_arguments(args: ArgumentsNode, st: WriterState) -> WriterState
    decreases args, 0nat,
{
    render_named(
        args.named@,
        args.named@.len(),
        args.positional@.len() > 0,
        render_positional(args.positional@, args.positional@.len(), st.write("("@)),
    ).write(")"@)
}

/// The first `n` positional arguments, separated by a comma and a space.
pub open spec fn render_positional(ps: Seq<InlineNode>, n: nat, st: WriterState) -> WriterState
    decreases ps, n,
{
    if n == 0 || n > ps.len() {
        st
    } else {
        let before = render_positional(ps, (n - 1) as nat, st);
        render_inline(ps[n - 1], if n > 1 { before.write(", "@) } else { before })
    }
}

/// The first `n` named arguments; `follows` says whether an argument was
/// written before the first of them.
pub open spec fn render_named(
    ns: Seq<NamedArgumentNode>,
    n: nat,
    follows: bool,
    st: WriterState,
) -> WriterState
    decreases ns, n,
{
    if n == 0 || n > ns.len() {
        st
    } else {
        let before = render_named(ns, (n - 1) as nat, follows, st);
        let sep = if follows || n > 1 { before.write(", "@) } else { before };
        render_inline(ns[n - 1].value, sep.write(ns[n - 1].name.name@).write(": "@))
    }
}

/// The first `n` variants, each followed by a newline.
pub open spec fn render_variants(vs: Seq<VariantNode>, n: nat, st: WriterState) -> WriterState
    decreases vs, n,
{
    if n == 0 || n > vs.len() {
        st
    } else {
        render_variant(vs[n - 1], render_variants(vs, (n - 1) as nat, st)).newline()
    }
}

/// One variant: its key in square brackets and its pattern. Where it is the
/// default variant, `*` takes the place of the last character of the
/// indentation.
pub open spec fn render_variant(v: VariantNode, st: WriterState) -> WriterState
    decreases v, 0nat,
{
    let marked = if v.default { st.mark('*') } else { st };
    render_pattern(v.value, marked.write("["@).write(variant_key_text(v.key)).write("]"@))
}

/// The first `n` lines of a comment, each behind `prefix`. A blank line
/// keeps the bare prefix.
pub open spec fn render_comment_lines(
    lines: Seq<String>,
    n: nat,
    prefix: Seq<char>,
    st: WriterState,
) -> WriterState
    decreases n,
{
    if n == 0 || n > lines.len() {
        st
    } else {
        let marked = render_comment_lines(lines, (n - 1) as nat, prefix, st).write(prefix);
        let line = lines[n - 1]@;
        if is_blank(line) {
            marked.newline()
        } else {
            marked.write(" "@).write(line).newline()
        }
    }
}

/// A comment: its lines, each behind `prefix`.
pub open spec fn render_comment(c: CommentNode, prefix: Seq<char>, st: WriterState) -> WriterState {
    render_comment_lines(c.content@, c.content@.len(), prefix, st)
}

/// The comment that belongs to a message or term, if there is one.
pub open spec fn render_own_comment(c: Option<CommentNode>, st: WriterState) -> WriterState {
    match c {
        Some(comment) => render_comment(comment, "#"@, st),
        None => st,
    }
}

/// One attribute: a dot, its name, ` =` and its pattern.
pub open spec fn render_attribute(a: AttributeNode, st: WriterState) -> WriterState {
    render_pattern(a.value, st.write("."@).write(a.id.name@).write(" ="@))
}

/// The first `n` attributes, each on a line of its own.
pub open spec fn render_attribute_lines(attrs: Seq<AttributeNode>, n: nat, st: WriterState) -> WriterState
    decreases n,
{
    if n == 0 || n > attrs.len() {
        st
    } else {
        render_attribute(attrs[n - 1], render_attribute_lines(attrs, (n - 1) as nat, st).newline())
    }
}

/// The attribute block: nothing for no attributes, else the attributes one
/// level deeper.
pub open spec fn render_attributes(attrs: Seq<AttributeNode>, st: WriterState) -> WriterState {
    if attrs.len() == 0 {
        st
    } else {
        render_attribute_lines(attrs, attrs.len(), st.indent()).dedent()
    }
}

/// A message: its comment, its name, ` =`, its value if it has one, its
/// attributes, and a newline.
pub open spec fn render_message(m: MessageNode, st: WriterState) -> WriterState {
    let named = render_own_comment(m.comment, st).write(m.id.name@).write(" ="@);
    let valued = match m.value {
        Some(value) => render_pattern(value, named),
        None => named,
    };
    render_attributes(m.attributes@, valued).newline()
}

/// A term: its comment, `-` and its name, ` =`, its value, its
/// attributes, and a newline.
pub open spec fn render_term(t: TermNode, st: WriterState) -> WriterState {
    let named = render_own_comment(t.comment, st).write("-"@).write(t.id.name@).write(" ="@);
    render_attributes(t.attributes@, render_pattern(t.value, named)).newline()
}

/// The state of a serializer between two entries.
pub struct SerializerState {
    pub writer: WriterState,
    pub wrote_non_junk_entry: bool,
}

impl SerializerState {
    /// Nothing written yet.
    pub open spec fn start() -> SerializerState {
        SerializerState { writer: WriterState::start(), wrote_non_junk_entry: false }
    }
}

/// A comment that stands alone: a blank line before it unless it is the
/// first entry that is not junk, and a newline after it.
pub open spec fn render_free_comment(c: CommentNode, prefix: Seq<char>, s: SerializerState) -> WriterState {
    let spaced = if s.wrote_non_junk_entry { s.writer.newline() } else { s.writer };
    render_comment(c, prefix, spaced).newline()
}

/// One entry, and whether anything but junk has been met by now. Junk is
/// written only where `with_junk` asks for it, and then as it is.
pub open spec fn render_entry(e: TreeEntry, with_junk: bool, s: SerializerState) -> SerializerState {
    SerializerState {
        writer: match e {
            TreeEntry::Message(m) => render_message(m, s.writer),
            TreeEntry::Term(t) => render_term(t, s.writer),
            TreeEntry::Comment(c) => render_free_comment(c, "#"@, s),
            TreeEntry::GroupComment(c) => render_free_comment(c, "##"@, s),
            TreeEntry::ResourceComment(c) => render_free_comment(c, "###"@, s),
            TreeEntry::Junk { content } => if with_junk { s.writer.write(content@) } else { s.writer },
        },
        wrote_non_junk_entry: s.wrote_non_junk_entry || !(e is Junk),
    }
}

/// The first `n` entries, in document order.
pub open spec fn render_entries(
    es: Seq<TreeEntry>,
    n: nat,
    with_junk: bool,
    s: SerializerState,
) -> SerializerState
    decreases n,
{
    if n == 0 || n > es.len() {
        s
    } else {
        render_entry(es[n - 1], with_junk, render_entries(es, (n - 1) as nat, with_junk, s))
    }
}

} // verus!
