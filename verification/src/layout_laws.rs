//! Laws of the canonical layout: whatever is rendered, the serializer
//! returns to the indentation level at which it began, and what it has
//! written stays written.

use vstd::prelude::*;
use crate::layout::{
    render_attribute_lines, render_attribute_ref, render_attributes, render_call_arguments,
    render_comment, render_comment_lines, render_element, render_elements, render_entries,
    render_expression, render_free_comment, render_inline, render_message, render_named,
    render_own_comment, render_pattern, render_positional, render_term, render_variant,
    render_variants, starts_on_new_line, variant_key_text, SerializerState,
};
use crate::text::is_blank;
use crate::tree::{
    ArgumentsNode, AttributeNode, CommentNode, ElementNode, ExpressionNode, IdentifierNode,
    InlineNode, MessageNode, NamedArgumentNode, PatternNode, TermNode, TreeEntry, VariantNode,
};
use crate::writer::{indentation, WriterState};

verus! {

/// What every rendering step does: it returns to the indentation level at
/// which it began, and it only adds to the buffer.
pub open spec fn appends(before: WriterState, after: WriterState) -> bool {
    after.level == before.level && before.text.is_prefix_of(after.text)
}

/// Adding to what was added to is adding.
pub proof fn lemma_appends_chain(a: WriterState, b: WriterState, c: WriterState)
    requires
        a.text.is_prefix_of(b.text),
        b.text.is_prefix_of(c.text),
    ensures
        a.text.is_prefix_of(c.text),
{
    assert(a.text =~= c.text.subrange(0, a.text.len() as int)) by {
        assert forall|i: int| 0 <= i < a.text.len() implies a.text[i] == c.text[i] by {
            assert(a.text[i] == b.text.subrange(0, a.text.len() as int)[i]);
            assert(b.text[i] == c.text.subrange(0, b.text.len() as int)[i]);
        }
    }
}

/// The indentation of a level is four characters for each level.
pub proof fn lemma_indentation_len(level: nat)
    ensures
        indentation(level).len() == 4 * level,
    decreases level,
{
    if level > 0 {
        lemma_indentation_len((level - 1) as nat);
    }
}

/// Writing adds to the buffer.
pub proof fn lemma_write_appends(st: WriterState, item: Seq<char>)
    ensures
        appends(st, st.write(item)),
{
    assert(st.text =~= st.write(item).text.subrange(0, st.text.len() as int));
}

/// Ending the line adds to the buffer, and leaves it at the start of a line.
pub proof fn lemma_newline_appends(st: WriterState)
    ensures
        appends(st, st.newline()),
        st.newline().at_line_start(),
{
    assert(st.text =~= st.newline().text.subrange(0, st.text.len() as int));
}

/// A mark that is put into indentation takes nothing of what was written
/// before the line began.
pub proof fn lemma_mark_appends(st: WriterState, ch: char)
    requires
        st.at_line_start(),
        st.level >= 1,
    ensures
        appends(st, st.mark(ch)),
{
    lemma_indentation_len(st.level);
    assert(st.text =~= st.mark(ch).text.subrange(0, st.text.len() as int));
}

/// The law of the serializer for patterns: rendering a pattern returns to
/// the indentation level at which it began and only adds to the buffer.
/// Every step back is preceded by its step forward, so that the level never
/// falls below zero, and a default variant's mark only ever takes the place
/// of indentation.
pub proof fn lemma_pattern_appends(p: PatternNode, st: WriterState)
    ensures
        appends(st, render_pattern(p, st)),
    decreases p, 0nat,
{
    if starts_on_new_line(p) {
        let inner = st.newline().indent();
        lemma_newline_appends(st);
        lemma_elements_append(p.elements@, p.elements@.len(), inner);
        lemma_appends_chain(st, inner, render_elements(p.elements@, p.elements@.len(), inner));
    } else {
        let inner = st.write(" "@);
        lemma_write_appends(st, " "@);
        lemma_elements_append(p.elements@, p.elements@.len(), inner);
        lemma_appends_chain(st, inner, render_elements(p.elements@, p.elements@.len(), inner));
    }
}

/// The law for the first `n` elements of a pattern.
pub proof fn lemma_elements_append(es: Seq<ElementNode>, n: nat, st: WriterState)
    ensures
        appends(st, render_elements(es, n, st)),
    decreases es, n,
{
    if !(n == 0 || n > es.len()) {
        let before = render_elements(es, (n - 1) as nat, st);
        lemma_elements_append(es, (n - 1) as nat, st);
        lemma_element_appends(es[n - 1], before);
        lemma_appends_chain(st, before, render_element(es[n - 1], before));
    }
}

/// Rendering between two writes adds to the buffer, if the rendering does.
proof fn lemma_bracketed(st: WriterState, open: Seq<char>, inner: WriterState, close: Seq<char>)
    requires
        appends(st.write(open), inner),
    ensures
        appends(st, inner.write(close)),
{
    lemma_write_appends(st, open);
    lemma_write_appends(inner, close);
    lemma_appends_chain(st, st.write(open), inner);
    lemma_appends_chain(st, inner, inner.write(close));
}

/// The law for one element.
pub proof fn lemma_element_appends(e: ElementNode, st: WriterState)
    ensures
        appends(st, render_element(e, st)),
    decreases e, 0nat,
{
    match e {
        ElementNode::TextElement { value } => {
            lemma_write_appends(st, value@);
        },
        ElementNode::Placeable { expression } => match expression {
            ExpressionNode::Inline(InlineNode::Placeable { expression: inner }) => {
                lemma_expression_appends(*inner, st.write("{{ "@));
                lemma_bracketed(st, "{{ "@, render_expression(*inner, st.write("{{ "@)), " }}"@);
            },
            ExpressionNode::Select { .. } => {
                lemma_expression_appends(expression, st.write("{ "@));
                lemma_bracketed(st, "{ "@, render_expression(expression, st.write("{ "@)), "}"@);
            },
            ExpressionNode::Inline(_) => {
                lemma_expression_appends(expression, st.write("{ "@));
                lemma_bracketed(st, "{ "@, render_expression(expression, st.write("{ "@)), " }"@);
            },
        },
    }
}

/// The law for expressions.
pub proof fn lemma_expression_appends(e: ExpressionNode, st: WriterState)
    ensures
        appends(st, render_expression(e, st)),
    decreases e, 0nat,
{
    match e {
        ExpressionNode::Inline(inline) => {
            lemma_inline_appends(inline, st);
        },
        ExpressionNode::Select { selector, variants } => {
            let selected = render_inline(selector, st);
            lemma_inline_appends(selector, st);
            lemma_write_appends(selected, " ->"@);
            lemma_newline_appends(selected.write(" ->"@));
            let inner = selected.write(" ->"@).newline().indent();
            lemma_appends_chain(st, selected, selected.write(" ->"@));
            lemma_appends_chain(st, selected.write(" ->"@), inner);
            lemma_variants_append(variants@, variants@.len(), inner);
            lemma_appends_chain(st, inner, render_variants(variants@, variants@.len(), inner));
        },
    }
}

/// The law for the attribute behind a reference.
proof fn lemma_attribute_ref_appends(attribute: Option<IdentifierNode>, st: WriterState)
    ensures
        appends(st, render_attribute_ref(attribute, st)),
{
    match attribute {
        Some(attr) => {
            lemma_write_appends(st, "."@);
            lemma_write_appends(st.write("."@), attr.name@);
            lemma_appends_chain(st, st.write("."@), st.write("."@).write(attr.name@));
        },
        None => {},
    }
}

/// The law for inline expressions.
pub proof fn lemma_inline_appends(e: InlineNode, st: WriterState)
    ensures
        appends(st, render_inline(e, st)),
    decreases e, 0nat,
{
    match e {
        InlineNode::StringLiteral { value } => {
            lemma_write_appends(st.write("\""@), value@);
            lemma_bracketed(st, "\""@, st.write("\""@).write(value@), "\""@);
        },
        InlineNode::NumberLiteral { value } => {
            lemma_write_appends(st, value@);
        },
        InlineNode::VariableReference { id } => {
            lemma_write_appends(st, "$"@);
            lemma_write_appends(st.write("$"@), id.name@);
            lemma_appends_chain(st, st.write("$"@), st.write("$"@).write(id.name@));
        },
        InlineNode::FunctionReference { id, arguments } => {
            lemma_write_appends(st, id.name@);
            lemma_arguments_append(arguments, st.write(id.name@));
            lemma_appends_chain(st, st.write(id.name@), render_call_arguments(arguments, st.write(id.name@)));
        },
        InlineNode::MessageReference { id, attribute } => {
            lemma_write_appends(st, id.name@);
            lemma_attribute_ref_appends(attribute, st.write(id.name@));
            lemma_appends_chain(st, st.write(id.name@), render_attribute_ref(attribute, st.write(id.name@)));
        },
        InlineNode::TermReference { id, attribute, arguments } => {
            let dashed = st.write("-"@);
            let named = dashed.write(id.name@);
            let referred = render_attribute_ref(attribute, named);
            lemma_write_appends(st, "-"@);
            lemma_write_appends(dashed, id.name@);
            lemma_attribute_ref_appends(attribute, named);
            lemma_appends_chain(st, dashed, named);
            lemma_appends_chain(st, named, referred);
            match arguments {
                Some(args) => {
                    lemma_arguments_append(args, referred);
                    lemma_appends_chain(st, referred, render_call_arguments(args, referred));
                },
                None => {},
            }
        },
        InlineNode::Placeable { expression } => {
            lemma_expression_appends(*expression, st.write("{"@));
            lemma_bracketed(st, "{"@, render_expression(*expression, st.write("{"@)), "}"@);
        },
    }
}

/// The law for call arguments.
pub proof fn lemma_arguments_append(args: ArgumentsNode, st: WriterState)
    ensures
        appends(st, render_call_arguments(args, st)),
    decreases args, 0nat,
{
    let opened = st.write("("@);
    let positional = render_positional(args.positional@, args.positional@.len(), opened);
    let named = render_named(args.named@, args.named@.len(), args.positional@.len() > 0, positional);
    lemma_positional_append(args.positional@, args.positional@.len(), opened);
    lemma_named_append(args.named@, args.named@.len(), args.positional@.len() > 0, positional);
    lemma_appends_chain(opened, positional, named);
    lemma_bracketed(st, "("@, named, ")"@);
}

/// The law for the first `n` positional arguments.
pub proof fn lemma_positional_append(ps: Seq<InlineNode>, n: nat, st: WriterState)
    ensures
        appends(st, render_positional(ps, n, st)),
    decreases ps, n,
{
    if !(n == 0 || n > ps.len()) {
        lemma_positional_append(ps, (n - 1) as nat, st);
        let before = render_positional(ps, (n - 1) as nat, st);
        let sep = if n > 1 { before.write(", "@) } else { before };
        lemma_write_appends(before, ", "@);
        lemma_inline_appends(ps[n - 1], sep);
        lemma_appends_chain(st, before, sep);
        lemma_appends_chain(st, sep, render_inline(ps[n - 1], sep));
    }
}

/// The law for the first `n` named arguments.
pub proof fn lemma_named_append(ns: Seq<NamedArgumentNode>, n: nat, follows: bool, st: WriterState)
    ensures
        appends(st, render_named(ns, n, follows, st)),
    decreases ns, n,
{
    if !(n == 0 || n > ns.len()) {
        lemma_named_append(ns, (n - 1) as nat, follows, st);
        let before = render_named(ns, (n - 1) as nat, follows, st);
        let sep = if follows || n > 1 { before.write(", "@) } else { before };
        let named = sep.write(ns[n - 1].name.name@);
        let valued = named.write(": "@);
        lemma_write_appends(before, ", "@);
        lemma_write_appends(sep, ns[n - 1].name.name@);
        lemma_write_appends(named, ": "@);
        lemma_inline_appends(ns[n - 1].value, valued);
        lemma_appends_chain(st, before, sep);
        lemma_appends_chain(st, sep, named);
        lemma_appends_chain(st, named, valued);
        lemma_appends_chain(st, valued, render_inline(ns[n - 1].value, valued));
    }
}

/// The law for the first `n` variants, which begin at the start of a line
/// one level deep or deeper, and end at the start of a line.
pub proof fn lemma_variants_append(vs: Seq<VariantNode>, n: nat, st: WriterState)
    requires
        st.at_line_start(),
        st.level >= 1,
    ensures
        appends(st, render_variants(vs, n, st)),
        render_variants(vs, n, st).at_line_start(),
    decreases vs, n,
{
    if !(n == 0 || n > vs.len()) {
        lemma_variants_append(vs, (n - 1) as nat, st);
        let before = render_variants(vs, (n - 1) as nat, st);
        let variant = render_variant(vs[n - 1], before);
        lemma_variant_appends(vs[n - 1], before);
        lemma_newline_appends(variant);
        lemma_appends_chain(st, before, variant);
        lemma_appends_chain(st, variant, variant.newline());
    }
}

/// The law for one variant that begins at the start of a line one level
/// deep or deeper.
pub proof fn lemma_variant_appends(v: VariantNode, st: WriterState)
    requires
        st.at_line_start(),
        st.level >= 1,
    ensures
        appends(st, render_variant(v, st)),
    decreases v, 0nat,
{
    let marked = if v.default { st.mark('*') } else { st };
    if v.default {
        lemma_mark_appends(st, '*');
    }
    let opened = marked.write("["@);
    let keyed = opened.write(variant_key_text(v.key));
    let closed = keyed.write("]"@);
    lemma_write_appends(marked, "["@);
    lemma_write_appends(opened, variant_key_text(v.key));
    lemma_write_appends(keyed, "]"@);
    lemma_pattern_appends(v.value, closed);
    lemma_appends_chain(st, marked, opened);
    lemma_appends_chain(st, opened, keyed);
    lemma_appends_chain(st, keyed, closed);
    lemma_appends_chain(st, closed, render_pattern(v.value, closed));
}

/// The law for the first `n` lines of a comment.
pub proof fn lemma_comment_lines_append(lines: Seq<String>, n: nat, prefix: Seq<char>, st: WriterState)
    ensures
        appends(st, render_comment_lines(lines, n, prefix, st)),
    decreases n,
{
    if !(n == 0 || n > lines.len()) {
        lemma_comment_lines_append(lines, (n - 1) as nat, prefix, st);
        let before = render_comment_lines(lines, (n - 1) as nat, prefix, st);
        let marked = before.write(prefix);
        let line = lines[n - 1]@;
        lemma_write_appends(before, prefix);
        lemma_appends_chain(st, before, marked);
        if is_blank(line) {
            lemma_newline_appends(marked);
            lemma_appends_chain(st, marked, marked.newline());
        } else {
            let spaced = marked.write(" "@);
            let written = spaced.write(line);
            lemma_write_appends(marked, " "@);
            lemma_write_appends(spaced, line);
            lemma_newline_appends(written);
            lemma_appends_chain(st, marked, spaced);
            lemma_appends_chain(st, spaced, written);
            lemma_appends_chain(st, written, written.newline());
        }
    }
}

/// The law for the first `n` attribute lines.
pub proof fn lemma_attribute_lines_append(attrs: Seq<AttributeNode>, n: nat, st: WriterState)
    ensures
        appends(st, render_attribute_lines(attrs, n, st)),
    decreases n,
{
    if !(n == 0 || n > attrs.len()) {
        lemma_attribute_lines_append(attrs, (n - 1) as nat, st);
        let a = attrs[n - 1];
        let before = render_attribute_lines(attrs, (n - 1) as nat, st);
        let line = before.newline();
        let dotted = line.write("."@);
        let named = dotted.write(a.id.name@);
        let set = named.write(" ="@);
        lemma_newline_appends(before);
        lemma_write_appends(line, "."@);
        lemma_write_appends(dotted, a.id.name@);
        lemma_write_appends(named, " ="@);
        lemma_pattern_appends(a.value, set);
        lemma_appends_chain(st, before, line);
        lemma_appends_chain(st, line, dotted);
        lemma_appends_chain(st, dotted, named);
        lemma_appends_chain(st, named, set);
        lemma_appends_chain(st, set, render_pattern(a.value, set));
    }
}

/// The law for the attribute block.
pub proof fn lemma_attributes_append(attrs: Seq<AttributeNode>, st: WriterState)
    ensures
        appends(st, render_attributes(attrs, st)),
{
    lemma_attribute_lines_append(attrs, attrs.len(), st.indent());
}

/// The law for the comment of a message or term.
proof fn lemma_own_comment_appends(c: Option<CommentNode>, st: WriterState)
    ensures
        appends(st, render_own_comment(c, st)),
{
    match c {
        Some(comment) => {
            lemma_comment_lines_append(comment.content@, comment.content@.len(), "#"@, st);
        },
        None => {},
    }
}

/// The law for messages.
pub proof fn lemma_message_appends(m: MessageNode, st: WriterState)
    ensures
        appends(st, render_message(m, st)),
{
    let commented = render_own_comment(m.comment, st);
    let named = commented.write(m.id.name@);
    let set = named.write(" ="@);
    let valued = match m.value {
        Some(value) => render_pattern(value, set),
        None => set,
    };
    let attributed = render_attributes(m.attributes@, valued);
    lemma_own_comment_appends(m.comment, st);
    lemma_write_appends(commented, m.id.name@);
    lemma_write_appends(named, " ="@);
    match m.value {
        Some(value) => {
            lemma_pattern_appends(value, set);
        },
        None => {},
    }
    lemma_attributes_append(m.attributes@, valued);
    lemma_newline_appends(attributed);
    lemma_appends_chain(st, commented, named);
    lemma_appends_chain(st, named, set);
    lemma_appends_chain(st, set, valued);
    lemma_appends_chain(st, valued, attributed);
    lemma_appends_chain(st, attributed, attributed.newline());
}

/// The law for terms.
pub proof fn lemma_term_appends(t: TermNode, st: WriterState)
    ensures
        appends(st, render_term(t, st)),
{
    let commented = render_own_comment(t.comment, st);
    let dashed = commented.write("-"@);
    let named = dashed.write(t.id.name@);
    let set = named.write(" ="@);
    let valued = render_pattern(t.value, set);
    let attributed = render_attributes(t.attributes@, valued);
    lemma_own_comment_appends(t.comment, st);
    lemma_write_appends(commented, "-"@);
    lemma_write_appends(dashed, t.id.name@);
    lemma_write_appends(named, " ="@);
    lemma_pattern_appends(t.value, set);
    lemma_attributes_append(t.attributes@, valued);
    lemma_newline_appends(attributed);
    lemma_appends_chain(st, commented, dashed);
    lemma_appends_chain(st, dashed, named);
    lemma_appends_chain(st, named, set);
    lemma_appends_chain(st, set, valued);
    lemma_appends_chain(st, valued, attributed);
    lemma_appends_chain(st, attributed, attributed.newline());
}

/// The law for a comment that stands alone.
proof fn lemma_free_comment_appends(c: CommentNode, prefix: Seq<char>, s: SerializerState)
    ensures
        appends(s.writer, render_free_comment(c, prefix, s)),
{
    let spaced = if s.wrote_non_junk_entry { s.writer.newline() } else { s.writer };
    let commented = render_comment(c, prefix, spaced);
    lemma_newline_appends(s.writer);
    lemma_comment_lines_append(c.content@, c.content@.len(), prefix, spaced);
    lemma_newline_appends(commented);
    lemma_appends_chain(s.writer, spaced, commented);
    lemma_appends_chain(s.writer, commented, commented.newline());
}

/// The law of the serializer for whole translation lists: it ends at the
/// indentation level at which it began, and what it has written stays
/// written.
pub proof fn lemma_entries_append(es: Seq<TreeEntry>, n: nat, with_junk: bool, s: SerializerState)
    ensures
        appends(s.writer, render_entries(es, n, with_junk, s).writer),
    decreases n,
{
    if !(n == 0 || n > es.len()) {
        lemma_entries_append(es, (n - 1) as nat, with_junk, s);
        let before = render_entries(es, (n - 1) as nat, with_junk, s);
        match es[n - 1] {
            TreeEntry::Message(m) => {
                lemma_message_appends(m, before.writer);
            },
            TreeEntry::Term(t) => {
                lemma_term_appends(t, before.writer);
            },
            TreeEntry::Comment(c) => {
                lemma_free_comment_appends(c, "#"@, before);
            },
            TreeEntry::GroupComment(c) => {
                lemma_free_comment_appends(c, "##"@, before);
            },
            TreeEntry::ResourceComment(c) => {
                lemma_free_comment_appends(c, "###"@, before);
            },
            TreeEntry::Junk { content } => {
                lemma_write_appends(before.writer, content@);
            },
        }
        lemma_appends_chain(s.writer, before.writer, render_entries(es, n, with_junk, s).writer);
    }
}

} // verus!
