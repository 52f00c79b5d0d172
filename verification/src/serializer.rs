//! The canonical serializer: renders a syntax tree into text under the fixed
//! layout of [`crate::layout`].

use vstd::prelude::*;
use crate::tree::{
    ArgumentsNode, AttributeNode, CommentNode, ElementNode, ExpressionNode, IdentifierNode,
    InlineNode, KeyNode, MessageNode, PatternNode, SyntaxTree, TermNode, TreeEntry, VariantNode,
};
use crate::layout::{
    element_is_multiline, has_leading_text_dot, is_multiline, is_select_expr, render_attribute,
    render_attribute_lines, render_attribute_ref, render_attributes, render_call_arguments,
    render_comment, render_comment_lines, render_element, render_elements, render_entries,
    render_expression, render_free_comment, render_inline, render_message, render_named,
    render_pattern, render_positional, render_term, render_variant, render_variants,
    starts_on_new_line, variant_key_text, SerializerState,
};
use crate::layout_laws::{
    lemma_attribute_lines_append, lemma_comment_lines_append, lemma_element_appends,
    lemma_entries_append, lemma_inline_appends, lemma_pattern_appends, lemma_variant_appends,
    lemma_variants_append,
};
use crate::text::{all_fluent_ws, contains_char, starts_with_char};
use crate::writer::{TextWriter, WriterState};

verus! {

fn is_select(expr: &ExpressionNode) -> (b: bool)
    ensures
        b == is_select_expr(*expr),
    decreases expr,
{
    match expr {
        ExpressionNode::Select { .. } => true,
        ExpressionNode::Inline(InlineNode::Placeable { expression }) => is_select(expression),
        ExpressionNode::Inline(_) => false,
    }
}

fn multiline(pattern: &PatternNode) -> (b: bool)
    ensures
        b == is_multiline(*pattern),
{
    let mut i: usize = 0;
    while i < pattern.elements.len()
        invariant
            i <= pattern.elements.len(),
            forall|j: int| 0 <= j < i ==> !element_is_multiline(#[trigger] pattern.elements@[j]),
        decreases pattern.elements.len() - i,
    {
        let hit = match &pattern.elements[i] {
            ElementNode::TextElement { value } => contains_char(value.as_str(), '\n'),
            ElementNode::Placeable { expression } => is_select(expression),
        };
        if hit {
            return true;
        }
        i += 1;
    }
    false
}

fn leading_text_dot(pattern: &PatternNode) -> (b: bool)
    ensures
        b == has_leading_text_dot(*pattern),
{
    if pattern.elements.len() == 0 {
        return false;
    }
    match &pattern.elements[0] {
        ElementNode::TextElement { value } => starts_with_char(value.as_str(), '.'),
        ElementNode::Placeable { .. } => false,
    }
}

fn on_new_line(pattern: &PatternNode) -> (b: bool)
    ensures
        b == starts_on_new_line(*pattern),
{
    !leading_text_dot(pattern) && multiline(pattern)
}

fn serialize_pattern_into(w: &mut TextWriter, pattern: &PatternNode)
    requires
        old(w).roomy(),
    ensures
        final(w)@ == render_pattern(*pattern, old(w)@),
    decreases pattern, 0nat,
{
    let start_on_newline = on_new_line(pattern);
    if start_on_newline {
        w.newline();
        proof {
            w.lemma_text_fits();
        }
        w.indent();
    } else {
        w.write_literal(" ");
    }
    let ghost inner = w@;
    let mut i: usize = 0;
    while i < pattern.elements.len()
        invariant
            i <= pattern.elements.len(),
            w.roomy(),
            w@.level == inner.level,
            w@ == render_elements(pattern.elements@, i as nat, inner),
        decreases pattern.elements.len() - i,
    {
        let ghost before = w@;
        serialize_element(w, &pattern.elements[i]);
        proof {
            lemma_element_appends(pattern.elements@[i as int], before);
        }
        i += 1;
    }
    if start_on_newline {
        w.dedent();
    }
}

fn serialize_element(w: &mut TextWriter, elem: &ElementNode)
    requires
        old(w).roomy(),
    ensures
        final(w)@ == render_element(*elem, old(w)@),
    decreases elem, 0nat,
{
    match elem {
        ElementNode::TextElement { value } => w.write_literal(value.as_str()),
        ElementNode::Placeable { expression } => match expression {
            ExpressionNode::Inline(InlineNode::Placeable { expression: inner }) => {
                w.write_literal("{{ ");
                serialize_expression(w, inner);
                w.write_literal(" }}");
            },
            ExpressionNode::Select { .. } => {
                w.write_literal("{ ");
                serialize_expression(w, expression);
                w.write_literal("}");
            },
            ExpressionNode::Inline(_) => {
                w.write_literal("{ ");
                serialize_expression(w, expression);
                w.write_literal(" }");
            },
        },
    }
}

fn serialize_expression(w: &mut TextWriter, expr: &ExpressionNode)
    requires
        old(w).roomy(),
    ensures
        final(w)@ == render_expression(*expr, old(w)@),
    decreases expr, 1nat,
{
    match expr {
        ExpressionNode::Inline(inline) => serialize_inline_expression(w, inline),
        ExpressionNode::Select { .. } => serialize_select_expression(w, expr),
    }
}

fn serialize_attribute_ref(w: &mut TextWriter, attribute: &Option<IdentifierNode>)
    ensures
        final(w)@ == render_attribute_ref(*attribute, old(w)@),
{
    if let Some(attr) = attribute {
        w.write_literal(".");
        w.write_literal(attr.name.as_str());
    }
}

fn serialize_inline_expression(w: &mut TextWriter, expr: &InlineNode)
    requires
        old(w).roomy(),
    ensures
        final(w)@ == render_inline(*expr, old(w)@),
    decreases expr, 0nat,
{
    match expr {
        InlineNode::StringLiteral { value } => {
            w.write_literal("\"");
            w.write_literal(value.as_str());
            w.write_literal("\"");
        },
        InlineNode::NumberLiteral { value } => w.write_literal(value.as_str()),
        InlineNode::VariableReference { id } => {
            w.write_literal("$");
            w.write_literal(id.name.as_str());
        },
        InlineNode::FunctionReference { id, arguments } => {
            w.write_literal(id.name.as_str());
            serialize_call_arguments(w, arguments);
        },
        InlineNode::MessageReference { id, attribute } => {
            w.write_literal(id.name.as_str());
            serialize_attribute_ref(w, attribute);
        },
        InlineNode::TermReference { id, attribute, arguments } => {
            w.write_literal("-");
            w.write_literal(id.name.as_str());
            serialize_attribute_ref(w, attribute);
            if let Some(args) = arguments {
                serialize_call_arguments(w, args);
            }
        },
        InlineNode::Placeable { expression } => {
            w.write_literal("{");
            serialize_expression(w, expression);
            w.write_literal("}");
        },
    }
}

/// Writes a select expression: its selector, ` ->`, and its variants one
/// level deeper, each on a line of its own; the writer is then at the
/// level at which it began. The level of the writer must not exceed the
/// number of characters it holds, so that the level fits its counter
/// however deep the expression nests.
pub fn serialize_select_expression(w: &mut TextWriter, expr: &ExpressionNode)
    requires
        old(w).roomy(),
        *expr is Select,
    ensures
        final(w)@ == render_expression(*expr, old(w)@),
    decreases expr, 0nat,
{
    if let ExpressionNode::Select { selector, variants } = expr {
        serialize_inline_expression(w, selector);
        proof {
            lemma_inline_appends(*selector, old(w)@);
        }
        w.write_literal(" ->");
        w.newline();
        proof {
            w.lemma_text_fits();
        }
        w.indent();
        let ghost inner = w@;
        let mut i: usize = 0;
        while i < variants.len()
            invariant
                i <= variants.len(),
                w.roomy(),
                w@.level == inner.level,
                inner.level >= 1,
                inner.at_line_start(),
                w@ == render_variants(variants@, i as nat, inner),
                *expr is Select,
                expr->variants == variants,
            decreases variants.len() - i,
        {
            proof {
                lemma_variants_append(variants@, i as nat, inner);
                lemma_variant_appends(variants@[i as int], w@);
            }
            serialize_variant(w, &variants[i]);
            w.newline();
            i += 1;
        }
        w.dedent();
    }
}

fn serialize_variant(w: &mut TextWriter, variant: &VariantNode)
    requires
        old(w).roomy(),
    ensures
        final(w)@ == render_variant(*variant, old(w)@),
    decreases variant, 0nat,
{
    if variant.default {
        w.write_char_into_indent('*');
    }
    w.write_literal("[");
    serialize_variant_key(w, &variant.key);
    w.write_literal("]");
    serialize_pattern_into(w, &variant.value);
}

fn serialize_variant_key(w: &mut TextWriter, key: &KeyNode)
    ensures
        final(w)@ == old(w)@.write(variant_key_text(*key)),
{
    match key {
        KeyNode::NumberLiteral { value } => w.write_literal(value.as_str()),
        KeyNode::Identifier { name } => w.write_literal(name.as_str()),
    }
}

fn serialize_call_arguments(w: &mut TextWriter, args: &ArgumentsNode)
    requires
        old(w).roomy(),
    ensures
        final(w)@ == render_call_arguments(*args, old(w)@),
    decreases args, 0nat,
{
    let mut argument_written = false;
    w.write_literal("(");
    let ghost opened = w@;
    let mut i: usize = 0;
    while i < args.positional.len()
        invariant
            i <= args.positional.len(),
            w.roomy(),
            argument_written == (i > 0),
            w@ == render_positional(args.positional@, i as nat, opened),
        decreases args.positional.len() - i,
    {
        if argument_written {
            w.write_literal(", ");
        }
        let ghost before = w@;
        serialize_inline_expression(w, &args.positional[i]);
        proof {
            lemma_inline_appends(args.positional@[i as int], before);
        }
        argument_written = true;
        i += 1;
    }
    let ghost follows = args.positional@.len() > 0;
    let ghost middle = w@;
    let mut j: usize = 0;
    while j < args.named.len()
        invariant
            j <= args.named.len(),
            w.roomy(),
            argument_written == (follows || j > 0),
            w@ == render_named(args.named@, j as nat, follows, middle),
        decreases args.named.len() - j,
    {
        if argument_written {
            w.write_literal(", ");
        }
        let named = &args.named[j];
        w.write_literal(named.name.name.as_str());
        w.write_literal(": ");
        let ghost before = w@;
        serialize_inline_expression(w, &named.value);
        proof {
            lemma_inline_appends(args.named@[j as int].value, before);
        }
        argument_written = true;
        j += 1;
    }
    w.write_literal(")");
}

fn serialize_comment(w: &mut TextWriter, comment: &CommentNode, prefix: &str)
    ensures
        final(w)@ == render_comment(*comment, prefix@, old(w)@),
{
    let mut i: usize = 0;
    while i < comment.content.len()
        invariant
            i <= comment.content.len(),
            w@ == render_comment_lines(comment.content@, i as nat, prefix@, old(w)@),
        decreases comment.content.len() - i,
    {
        let line = comment.content[i].as_str();
        w.write_literal(prefix);
        if !all_fluent_ws(line) {
            w.write_literal(" ");
            w.write_literal(line);
        }
        w.newline();
        i += 1;
    }
}

fn serialize_free_comment(
    w: &mut TextWriter,
    comment: &CommentNode,
    prefix: &str,
    wrote_non_junk_entry: bool,
)
    ensures
        final(w)@ == render_free_comment(
            *comment,
            prefix@,
            (SerializerState { writer: old(w)@, wrote_non_junk_entry }),
        ),
{
    if wrote_non_junk_entry {
        w.newline();
    }
    serialize_comment(w, comment, prefix);
    w.newline();
}

fn serialize_attribute(w: &mut TextWriter, attr: &AttributeNode)
    requires
        old(w).roomy(),
    ensures
        final(w)@ == render_attribute(*attr, old(w)@),
{
    w.write_literal(".");
    w.write_literal(attr.id.name.as_str());
    w.write_literal(" =");
    serialize_pattern_into(w, &attr.value);
}

fn serialize_attributes(w: &mut TextWriter, attrs: &Vec<AttributeNode>)
    requires
        old(w).can_indent(),
    ensures
        final(w)@ == render_attributes(attrs@, old(w)@),
{
    if attrs.len() == 0 {
        return ;
    }
    proof {
        w.lemma_text_fits();
    }
    w.indent();
    let ghost inner = w@;
    let mut i: usize = 0;
    while i < attrs.len()
        invariant
            i <= attrs.len(),
            w.roomy(),
            w@.level == inner.level,
            inner.level <= inner.text.len(),
            w@ == render_attribute_lines(attrs@, i as nat, inner),
        decreases attrs.len() - i,
    {
        proof {
            lemma_attribute_lines_append(attrs@, (i + 1) as nat, inner);
            lemma_attribute_lines_append(attrs@, i as nat, inner);
        }
        w.newline();
        serialize_attribute(w, &attrs[i]);
        i += 1;
    }
    w.dedent();
}

fn serialize_message_into(w: &mut TextWriter, msg: &MessageNode)
    requires
        old(w).roomy(),
    ensures
        final(w)@ == render_message(*msg, old(w)@),
{
    if let Some(comment) = &msg.comment {
        serialize_comment(w, comment, "#");
        proof {
            lemma_comment_lines_append(comment.content@, comment.content@.len(), "#"@, old(w)@);
        }
    }
    w.write_literal(msg.id.name.as_str());
    w.write_literal(" =");
    proof {
        reveal_strlit(" =");
    }
    if let Some(value) = &msg.value {
        let ghost before = w@;
        serialize_pattern_into(w, value);
        proof {
            lemma_pattern_appends(*value, before);
        }
    }
    serialize_attributes(w, &msg.attributes);
    w.newline();
}

fn serialize_term_into(w: &mut TextWriter, term: &TermNode)
    requires
        old(w).roomy(),
    ensures
        final(w)@ == render_term(*term, old(w)@),
{
    if let Some(comment) = &term.comment {
        serialize_comment(w, comment, "#");
        proof {
            lemma_comment_lines_append(comment.content@, comment.content@.len(), "#"@, old(w)@);
        }
    }
    w.write_literal("-");
    w.write_literal(term.id.name.as_str());
    w.write_literal(" =");
    proof {
        reveal_strlit(" =");
    }
    let ghost before = w@;
    serialize_pattern_into(w, &term.value);
    proof {
        lemma_pattern_appends(term.value, before);
    }
    serialize_attributes(w, &term.attributes);
    w.newline();
}

/// Options for serializing a syntax tree.
#[derive(Debug, Copy, Clone, PartialEq, Eq)]
pub struct Options {
    /// Whether invalid text fragments are written out too.
    pub with_junk: bool,
}

impl Default for Options {
    fn default() -> (o: Options)
        ensures
            !o.with_junk,
    {
        Options { with_junk: false }
    }
}

fn serialize_resource(w: &mut TextWriter, res: &SyntaxTree, options: Options)
    requires
        old(w).roomy(),
    ensures
        final(w)@ == render_entries(
            res.body@,
            res.body@.len(),
            options.with_junk,
            (SerializerState { writer: old(w)@, wrote_non_junk_entry: false }),
        ).writer,
{
    let ghost first = SerializerState { writer: w@, wrote_non_junk_entry: false };
    let mut wrote_non_junk_entry = false;
    let mut i: usize = 0;
    while i < res.body.len()
        invariant
            i <= res.body.len(),
            first.writer.level <= first.writer.text.len(),
            render_entries(res.body@, i as nat, options.with_junk, first) == (SerializerState {
                writer: w@,
                wrote_non_junk_entry,
            }),
        decreases res.body.len() - i,
    {
        proof {
            lemma_entries_append(res.body@, i as nat, options.with_junk, first);
        }
        let entry = &res.body[i];
        match entry {
            TreeEntry::Message(msg) => serialize_message_into(w, msg),
            TreeEntry::Term(term) => serialize_term_into(w, term),
            TreeEntry::Comment(comment) => serialize_free_comment(
                w,
                comment,
                "#",
                wrote_non_junk_entry,
            ),
            TreeEntry::GroupComment(comment) => serialize_free_comment(
                w,
                comment,
                "##",
                wrote_non_junk_entry,
            ),
            TreeEntry::ResourceComment(comment) => serialize_free_comment(
                w,
                comment,
                "###",
                wrote_non_junk_entry,
            ),
            TreeEntry::Junk { content } => {
                if options.with_junk {
                    w.write_literal(content.as_str());
                }
            },
        }
        wrote_non_junk_entry = wrote_non_junk_entry || !matches!(entry, TreeEntry::Junk { .. });
        i += 1;
    }
}

/// The canonical text of a whole translation list, junk left out.
pub fn serialize(resource: &SyntaxTree) -> (text: String)
    ensures
        text@ == render_entries(
            resource.body@,
            resource.body@.len(),
            false,
            SerializerState::start(),
        ).writer.text,
{
    serialize_with_options(resource, Options { with_junk: false })
}

/// The canonical text of a whole translation list under `options`.
pub fn serialize_with_options(resource: &SyntaxTree, options: Options) -> (text: String)
    ensures
        text@ == render_entries(
            resource.body@,
            resource.body@.len(),
            options.with_junk,
            SerializerState::start(),
        ).writer.text,
{
    let mut w = TextWriter::new();
    serialize_resource(&mut w, resource, options);
    w.into_string()
}

/// The canonical text of one pattern, written into an empty buffer: a space
/// and the pattern on one line, or a newline and the pattern one level deep.
pub fn serialize_pattern(pattern: &PatternNode) -> (text: String)
    ensures
        text@ == render_pattern(*pattern, WriterState::start()).text,
{
    let mut w = TextWriter::new();
    serialize_pattern_into(&mut w, pattern);
    w.into_string()
}

/// The canonical text of one term with its comment and attributes.
pub fn serialize_term(term: &TermNode) -> (text: String)
    ensures
        text@ == render_term(*term, WriterState::start()).text,
{
    let mut w = TextWriter::new();
    serialize_term_into(&mut w, term);
    w.into_string()
}

/// The canonical text of one message with its comment and attributes.
pub fn serialize_message(msg: &MessageNode) -> (text: String)
    ensures
        text@ == render_message(*msg, WriterState::start()).text,
{
    let mut w = TextWriter::new();
    serialize_message_into(&mut w, msg);
    w.into_string()
}

} // verus!
