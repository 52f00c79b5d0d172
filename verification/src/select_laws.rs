//! The law of the canonical layout for select expressions: every variant
//! begins a line of its own, its bracket in one column, and the mark of a
//! default variant in the column before it.

use vstd::prelude::*;
use crate::layout::{
    element_is_multiline, is_multiline, render_element, render_elements, render_expression,
    render_inline, render_pattern, render_variant, render_variants, variant_key_text,
};
use crate::layout_laws::{
    lemma_appends_chain, lemma_indentation_len, lemma_inline_appends, lemma_newline_appends,
    lemma_pattern_appends, lemma_variant_appends, lemma_variants_append, lemma_write_appends,
};
use crate::tree::{ElementNode, ExpressionNode, VariantNode};
use crate::writer::{indentation, WriterState};

verus! {

/// Whether `s` holds neither a newline nor a carriage return.
pub open spec fn stays_on_line(s: Seq<char>) -> bool {
    !s.contains('\n') && !s.contains('\r')
}

/// The text of a variant whose value is one run of text.
pub open spec fn variant_text(v: VariantNode) -> Seq<char> {
    match v.value.elements@[0] {
        ElementNode::TextElement { value } => value@,
        ElementNode::Placeable { .. } => Seq::empty(),
    }
}

/// Whether a variant fits on one line: its value is one run of text, and
/// neither that text nor the key breaks the line.
pub open spec fn is_line_variant(v: VariantNode) -> bool {
    &&& v.value.elements@.len() == 1
    &&& v.value.elements@[0] is TextElement
    &&& stays_on_line(variant_text(v))
    &&& stays_on_line(variant_key_text(v.key))
}

/// What opens the line of a variant at `level`: the indentation, with `*`
/// in place of its last space where the variant is the default.
pub open spec fn variant_lead(default: bool, level: nat) -> Seq<char> {
    if default {
        indentation(level).drop_last().push('*')
    } else {
        indentation(level)
    }
}

/// The line of a variant at `level`.
pub open spec fn variant_line(v: VariantNode, level: nat) -> Seq<char> {
    variant_lead(v.default, level) + seq!['['] + variant_key_text(v.key) + seq![']', ' '] + variant_text(v)
        + seq!['\n']
}

/// The lines of the first `n` variants, in order.
pub open spec fn variant_lines(vs: Seq<VariantNode>, n: nat, level: nat) -> Seq<char>
    decreases n,
{
    if n == 0 || n > vs.len() {
        Seq::empty()
    } else {
        variant_lines(vs, (n - 1) as nat, level) + variant_line(vs[n - 1], level)
    }
}

/// Indentation is spaces only.
pub proof fn lemma_indentation_is_blank(level: nat, j: int)
    requires
        0 <= j < 4 * level,
    ensures
        indentation(level).len() == 4 * level,
        indentation(level)[j] == ' ',
    decreases level,
{
    lemma_indentation_len(level);
    if level > 0 {
        lemma_indentation_len((level - 1) as nat);
        if j < 4 * (level - 1) {
            lemma_indentation_is_blank((level - 1) as nat, j);
        }
    }
}

/// The columns of a variant's line at `level`: spaces up to the column
/// before the bracket; there a `*` for the default variant and a space for
/// any other; the opening bracket in column `4 * level`; a newline at the
/// end.
pub proof fn lemma_variant_line_columns(v: VariantNode, level: nat)
    requires
        level >= 1,
    ensures
        variant_line(v, level).len() > 4 * level,
        forall|j: int| 0 <= j < 4 * level - 1 ==> variant_line(v, level)[j] == ' ',
        variant_line(v, level)[4 * level - 1] == (if v.default {
            '*'
        } else {
            ' '
        }),
        variant_line(v, level)[4 * level as int] == '[',
        variant_line(v, level).last() == '\n',
{
    lemma_indentation_len(level);
    let lead = variant_lead(v.default, level);
    assert(lead.len() == 4 * level);
    assert forall|j: int| 0 <= j < 4 * level - 1 implies variant_line(v, level)[j] == ' ' by {
        lemma_indentation_is_blank(level, j);
    }
    if !v.default {
        lemma_indentation_is_blank(level, 4 * level - 1);
    }
}

/// What opens a variant stays: a variant that begins at the start of a
/// line one level deep or deeper begins with its lead and its bracket,
/// whatever its pattern holds.
pub proof fn lemma_variant_opens(v: VariantNode, st: WriterState)
    requires
        st.at_line_start(),
        st.level >= 1,
    ensures
        (st.text + variant_lead(v.default, st.level) + seq!['[']).is_prefix_of(render_variant(v, st).text),
{
    reveal_strlit("[");
    lemma_indentation_len(st.level);
    let lead = variant_lead(v.default, st.level);
    let marked = if v.default { st.mark('*') } else { st };
    let opened = marked.write("["@);
    assert(opened.text =~= st.text + lead + seq!['[']) by {
        if v.default {
            assert(st.mark('*').text =~= st.text + lead);
        }
    }
    let keyed = opened.write(variant_key_text(v.key));
    let closed = keyed.write("]"@);
    lemma_write_appends(opened, variant_key_text(v.key));
    lemma_write_appends(keyed, "]"@);
    lemma_pattern_appends(v.value, closed);
    lemma_appends_chain(opened, keyed, closed);
    lemma_appends_chain(opened, closed, render_pattern(v.value, closed));
}

/// More variants only add to what fewer variants wrote.
pub proof fn lemma_variants_grow(vs: Seq<VariantNode>, m: nat, n: nat, st: WriterState)
    requires
        st.at_line_start(),
        st.level >= 1,
        m <= n <= vs.len(),
    ensures
        render_variants(vs, m, st).text.is_prefix_of(render_variants(vs, n, st).text),
    decreases n,
{
    if m < n {
        lemma_variants_grow(vs, m, (n - 1) as nat, st);
        lemma_variants_append(vs, (n - 1) as nat, st);
        let before = render_variants(vs, (n - 1) as nat, st);
        let variant = render_variant(vs[n - 1], before);
        lemma_variant_appends(vs[n - 1], before);
        lemma_newline_appends(variant);
        lemma_appends_chain(before, variant, variant.newline());
        lemma_appends_chain(render_variants(vs, m, st), before, variant.newline());
    }
}

/// The law of columns and marks, for any number of variants with any
/// patterns. Where the variants are rendered from the start of a line at
/// `level`, each variant begins a line: before its bracket stand spaces
/// only, but for the column just before the bracket, which holds `*` if
/// the variant is the default and a space if it is not; the bracket stands
/// in column `4 * level`.
pub proof fn lemma_variant_columns(vs: Seq<VariantNode>, n: nat, i: nat, st: WriterState)
    requires
        st.at_line_start(),
        st.level >= 1,
        i < n <= vs.len(),
    ensures
        render_variants(vs, i, st).at_line_start(),
        render_variants(vs, i, st).text.is_prefix_of(render_variants(vs, n, st).text),
        ({
            let start = render_variants(vs, i, st).text.len() as int;
            let out = render_variants(vs, n, st).text;
            &&& out.len() > start + 4 * st.level
            &&& forall|c: int| start <= c < start + 4 * st.level - 1 ==> #[trigger] out[c] == ' '
            &&& out[start + 4 * st.level - 1] == (if vs[i as int].default {
                '*'
            } else {
                ' '
            })
            &&& out[start + 4 * st.level] == '['
        }),
{
    let level = st.level;
    lemma_variants_append(vs, i, st);
    let before = render_variants(vs, i, st);
    let v = vs[i as int];
    lemma_variant_opens(v, before);
    let head = before.text + variant_lead(v.default, level) + seq!['['];
    let variant = render_variant(v, before);
    lemma_newline_appends(variant);
    lemma_appends_chain(
        (WriterState { text: head, level }),
        variant,
        variant.newline(),
    );
    assert(render_variants(vs, (i + 1) as nat, st) == variant.newline());
    lemma_variants_grow(vs, (i + 1) as nat, n, st);
    lemma_variants_grow(vs, i, n, st);
    let out = render_variants(vs, n, st).text;
    lemma_appends_chain(
        (WriterState { text: head, level }),
        variant.newline(),
        render_variants(vs, n, st),
    );
    assert(head.is_prefix_of(out));
    lemma_indentation_len(level);
    let start = before.text.len() as int;
    assert(head.len() == start + 4 * level + 1);
    assert forall|c: int| start <= c <= start + 4 * level implies #[trigger] out[c] == head[c] by {
        assert(out.subrange(0, head.len() as int)[c] == out[c]);
    }
    assert forall|c: int| start <= c < start + 4 * level - 1 implies #[trigger] out[c] == ' ' by {
        lemma_indentation_is_blank(level, c - start);
    }
    if !v.default {
        lemma_indentation_is_blank(level, 4 * level - 1);
    }
}

/// One variant that fits on a line, rendered at the start of a line one
/// level deep or deeper, adds exactly its line.
pub proof fn lemma_variant_line(v: VariantNode, st: WriterState)
    requires
        st.at_line_start(),
        st.level >= 1,
        is_line_variant(v),
    ensures
        render_variant(v, st).newline() == (WriterState {
            text: st.text + variant_line(v, st.level),
            level: st.level,
        }),
{
    reveal_strlit("[");
    reveal_strlit("]");
    reveal_strlit(" ");
    lemma_indentation_len(st.level);
    let key = variant_key_text(v.key);
    let text = variant_text(v);
    let lead = variant_lead(v.default, st.level);
    let marked = if v.default { st.mark('*') } else { st };
    let opened = marked.write("["@);
    assert(opened.text =~= st.text + lead + seq!['[']) by {
        if v.default {
            assert(st.mark('*').text =~= st.text + lead);
        }
    }
    let keyed = opened.write(key);
    assert(keyed.text =~= st.text + lead + seq!['['] + key) by {
        assert(opened.text.last() == '[');
    }
    assert(keyed.text.last() != '\n') by {
        if key.len() > 0 {
            assert(key.contains(key.last()));
        }
    }
    let closed = keyed.write("]"@);
    assert(closed.text =~= st.text + lead + seq!['['] + key + seq![']']);
    let spaced = closed.write(" "@);
    assert(closed.text.last() == ']');
    assert(spaced.text =~= st.text + lead + seq!['['] + key + seq![']', ' ']);
    assert(spaced.text.last() == ' ');
    let es = v.value.elements@;
    assert(!is_multiline(v.value)) by {
        assert(!element_is_multiline(es[0]));
    }
    assert(render_elements(es, 0, spaced) == spaced);
    assert(render_elements(es, 1, spaced) == render_element(es[0], render_elements(es, 0, spaced)));
    let written = spaced.write(text);
    assert(render_pattern(v.value, closed) == written);
    assert(written.text =~= st.text + lead + seq!['['] + key + seq![']', ' '] + text);
    assert(written.text.len() > 0 && written.text.last() != '\r') by {
        if text.len() > 0 {
            assert(text.contains(text.last()));
        }
    }
    assert(written.newline().text =~= st.text + variant_line(v, st.level));
}

/// The first `n` variants, each fitting on a line, rendered at the start of
/// a line one level deep or deeper, add exactly their lines, in order.
pub proof fn lemma_variant_lines(vs: Seq<VariantNode>, n: nat, st: WriterState)
    requires
        st.at_line_start(),
        st.level >= 1,
        n <= vs.len(),
        forall|i: int| 0 <= i < n ==> is_line_variant(#[trigger] vs[i]),
    ensures
        render_variants(vs, n, st) == (WriterState {
            text: st.text + variant_lines(vs, n, st.level),
            level: st.level,
        }),
    decreases n,
{
    if n == 0 {
        assert(st.text + variant_lines(vs, 0, st.level) =~= st.text);
    } else {
        lemma_variant_lines(vs, (n - 1) as nat, st);
        let before = render_variants(vs, (n - 1) as nat, st);
        assert(before.at_line_start()) by {
            if n > 1 {
                lemma_variant_line_columns(vs[n - 2], st.level);
                assert(variant_lines(vs, (n - 1) as nat, st.level).last() == '\n');
            } else {
                assert(before.text =~= st.text);
            }
        }
        lemma_variant_line(vs[n - 1], before);
        assert(before.text + variant_line(vs[n - 1], st.level) =~= st.text + variant_lines(vs, n, st.level));
    }
}

/// The layout of a select expression whose variants each fit on a line:
/// the selector, ` ->` and a newline, then one line for each variant in
/// order, one level deeper than the expression; the level afterwards is
/// the level before. With `lemma_variant_line_columns` this fixes the
/// column of every bracket and of every default mark.
pub proof fn lemma_select_lines(e: ExpressionNode, st: WriterState)
    requires
        e is Select,
        forall|i: int| 0 <= i < e->variants@.len() ==> is_line_variant(#[trigger] e->variants@[i]),
    ensures
        render_expression(e, st) == (WriterState {
            text: render_inline(e->selector, st).write(" ->"@).text + seq!['\n'] + variant_lines(
                e->variants@,
                e->variants@.len(),
                st.level + 1,
            ),
            level: st.level,
        }),
{
    reveal_strlit(" ->");
    let headed = render_inline(e->selector, st).write(" ->"@);
    assert(headed.text.last() == '>');
    let opened = headed.newline().indent();
    assert(opened.text =~= headed.text + seq!['\n']);
    lemma_inline_appends(e->selector, st);
    assert(opened.level == st.level + 1);
    lemma_variant_lines(e->variants@, e->variants@.len(), opened);
}

} // verus!
