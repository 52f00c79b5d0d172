//! The bridge between the content model and the syntax tree.
//!
//! From the model to the tree, each unit is written out as source text, with
//! what the grammar would read as syntax escaped, and the text of a whole
//! locale is handed to the parser. From the tree to the model, each message
//! and term becomes a unit whose texts are the canonical texts of its
//! patterns.

use vstd::prelude::*;
use crate::error::{diagnostics_view, DiagnosticView, Error};
use crate::ident::TUIdentifier;
use crate::ir::{texts_of, TranslationUnit, TranslationUnitMap, UnitView};
use crate::layout::{
    element_is_multiline, is_multiline, render_attribute_lines, render_comment,
    render_comment_lines, render_element, render_elements, render_message, render_pattern,
};
use crate::locale::LocaleTag;
use crate::ordered::OrderedMap;
use crate::parser::{failure_of, parse, parsed_entries, parses, FailureView, ParseFailure};
use crate::serializer::serialize_pattern;
use crate::text::{
    all_fluent_ws, chars_of, contains_char, is_blank, lemma_replace_all_absent, occurs, push_text,
    replace_all, replace_chars, starts_with, starts_with_char, string_of, trim, trim_chars,
};
use crate::tree::{AttributeNode, ElementNode, MessageNode, PatternNode, SyntaxTree, TreeEntry};
use crate::writer::{TextWriter, WriterState};

verus! {

/// `s` with what the grammar would read as syntax made inert: each `*`, and
/// each of `\(`, `\)`, `\{` and `\}`, becomes a placeable that holds the
/// character as a string literal. The five replacements are made one after
/// the other, each on the result of the one before.
pub open spec fn escape_text(s: Seq<char>) -> Seq<char> {
    replace_all(
        replace_all(
            replace_all(
                replace_all(replace_all(s, "*"@, "{\"*\"}"@), "\\("@, "{\"(\"}"@),
                "\\)"@,
                "{\")\"}"@,
            ),
            "\\{"@,
            "{\"{\"}"@,
        ),
        "\\}"@,
        "{\"}\"}"@,
    )
}

/// The source form of a text: trimmed, escaped, every newline followed by
/// the indentation `continuation` ends with, and a newline at the end.
pub open spec fn multiline_text(s: Seq<char>, continuation: Seq<char>) -> Seq<char> {
    replace_all(escape_text(trim(s)), "\n"@, continuation) + "\n"@
}

/// The source form of the main text of a unit: continuation lines carry
/// four spaces.
pub open spec fn multiline_main_text(s: Seq<char>) -> Seq<char> {
    multiline_text(s, "\n    "@)
}

/// The source form of an attribute text: continuation lines carry eight
/// spaces.
pub open spec fn multiline_attr_text(s: Seq<char>) -> Seq<char> {
    multiline_text(s, "\n        "@)
}

/// Escaping leaves a text without `*` and without `\\` as it is.
pub proof fn lemma_escape_plain(s: Seq<char>)
    requires
        forall|i: int| 0 <= i < s.len() ==> s[i] != '*' && s[i] != '\\',
    ensures
        escape_text(s) == s,
{
    reveal_strlit("*");
    reveal_strlit("\\(");
    reveal_strlit("\\)");
    reveal_strlit("\\{");
    reveal_strlit("\\}");
    assert forall|pat: Seq<char>| pat.len() > 0 && (pat[0] == '*' || pat[0] == '\\') implies !occurs(
        s,
        pat,
    ) by {
        if occurs(s, pat) {
            let i = choose|i: int| 0 <= i <= s.len() && starts_with(#[trigger] s.skip(i), pat);
            assert(s.skip(i).subrange(0, pat.len() as int)[0] == pat[0]);
            assert(s[i] == pat[0]);
        }
    }
    lemma_replace_all_absent(s, "*"@, "{\"*\"}"@);
    lemma_replace_all_absent(s, "\\("@, "{\"(\"}"@);
    lemma_replace_all_absent(s, "\\)"@, "{\")\"}"@);
    lemma_replace_all_absent(s, "\\{"@, "{\"{\"}"@);
    lemma_replace_all_absent(s, "\\}"@, "{\"}\"}"@);
}

fn escape_chars(value: &Vec<char>) -> (out: Vec<char>)
    ensures
        out@ == escape_text(value@),
{
    let a = replace_chars(value, &chars_of("*"), &chars_of("{\"*\"}"));
    let b = replace_chars(&a, &chars_of("\\("), &chars_of("{\"(\"}"));
    let c = replace_chars(&b, &chars_of("\\)"), &chars_of("{\")\"}"));
    let d = replace_chars(&c, &chars_of("\\{"), &chars_of("{\"{\"}"));
    replace_chars(&d, &chars_of("\\}"), &chars_of("{\"}\"}"))
}

/// Escapes what the grammar would read as syntax.
pub fn escape(value: &str) -> (out: String)
    ensures
        out@ == escape_text(value@),
{
    string_of(&escape_chars(&chars_of(value)))
}

fn multiline(value: &str, continuation: &str) -> (out: String)
    ensures
        out@ == multiline_text(value@, continuation@),
{
    let escaped = escape_chars(&trim_chars(&chars_of(value)));
    let mut lines = replace_chars(&escaped, &chars_of("\n"), &chars_of(continuation));
    let ghost body = lines@;
    let end = chars_of("\n");
    let mut i: usize = 0;
    while i < end.len()
        invariant
            i <= end.len(),
            lines@ == body + end@.take(i as int),
        decreases end.len() - i,
    {
        lines.push(end[i]);
        i += 1;
    }
    assert(end@.take(end@.len() as int) =~= end@);
    string_of(&lines)
}

/// The source form of the main text of a unit.
pub fn multiline_main(value: &str) -> (out: String)
    ensures
        out@ == multiline_main_text(value@),
{
    multiline(value, "\n    ")
}

/// The source form of an attribute text.
pub fn multiline_attr(value: &str) -> (out: String)
    ensures
        out@ == multiline_attr_text(value@),
{
    multiline(value, "\n        ")
}

/// The layout of a pattern that is one run of text: on a new indented line
/// if the text holds a newline and does not begin with a dot, else behind
/// one space.
pub open spec fn render_text(text: Seq<char>, st: WriterState) -> WriterState {
    if !(text.len() > 0 && text[0] == '.') && text.contains('\n') {
        st.newline().indent().write(text).dedent()
    } else {
        st.write(" "@).write(text)
    }
}

/// The first `n` attributes of a unit as attribute lines, each given by its
/// name and its text.
pub open spec fn render_unit_attributes(
    attrs: Seq<(Seq<char>, Seq<char>)>,
    n: nat,
    st: WriterState,
) -> WriterState
    decreases n,
{
    if n == 0 || n > attrs.len() {
        st
    } else {
        render_text(
            multiline_attr_text(attrs[n - 1].1),
            render_unit_attributes(attrs, (n - 1) as nat, st).newline().write("."@).write(
                attrs[n - 1].0,
            ).write(" ="@),
        )
    }
}

/// The comment that a description becomes: one comment line that holds the
/// source form of the description.
pub open spec fn render_description(description: Option<Seq<char>>, st: WriterState) -> WriterState {
    match description {
        Some(d) => {
            let line = multiline_main_text(d);
            let marked = st.write("#"@);
            if is_blank(line) {
                marked.newline()
            } else {
                marked.write(" "@).write(line).newline()
            }
        },
        None => st,
    }
}

/// The source block of one unit: its description as a comment, its
/// identifier, `=`, its main text, and its attributes one level deeper, each
/// on a line of its own.
pub open spec fn render_unit(
    key: Seq<char>,
    main: Seq<char>,
    attrs: Seq<(Seq<char>, Seq<char>)>,
    description: Option<Seq<char>>,
    st: WriterState,
) -> WriterState {
    let valued = render_text(
        multiline_main_text(main),
        render_description(description, st).write(key).write(" ="@),
    );
    let attributed = if attrs.len() == 0 {
        valued
    } else {
        render_unit_attributes(attrs, attrs.len(), valued.indent()).dedent()
    };
    attributed.newline()
}

/// Whether the pattern is the one run of text `text`.
pub open spec fn is_text_pattern(p: PatternNode, text: Seq<char>) -> bool {
    &&& p.elements@.len() == 1
    &&& p.elements@[0] matches ElementNode::TextElement { value }
    &&& value@ == text
}

/// Whether `m` is the message of a unit: named as the unit is, its value
/// and the values of its attributes the source forms of the unit's texts,
/// each as one run of text, and its comment the source form of the
/// description.
pub open spec fn is_unit_message(
    m: MessageNode,
    key: Seq<char>,
    main: Seq<char>,
    attrs: Seq<(Seq<char>, Seq<char>)>,
    description: Option<Seq<char>>,
) -> bool {
    &&& m.id.name@ == key
    &&& m.value matches Some(p)
    &&& is_text_pattern(p, multiline_main_text(main))
    &&& m.attributes@.len() == attrs.len()
    &&& forall|i: int|
        0 <= i < attrs.len() ==> (#[trigger] m.attributes@[i]).id.name@ == attrs[i].0 && is_text_pattern(
            m.attributes@[i].value,
            multiline_attr_text(attrs[i].1),
        )
    &&& match description {
        Some(d) => m.comment matches Some(c) && c.content@.len() == 1 && c.content@[0]@ == multiline_main_text(
            d,
        ),
        None => m.comment is None,
    }
}

/// A pattern that is one run of text is laid out as `render_text` says.
pub proof fn lemma_text_pattern(p: PatternNode, text: Seq<char>, st: WriterState)
    requires
        is_text_pattern(p, text),
    ensures
        render_pattern(p, st) == render_text(text, st),
{
    let es = p.elements@;
    assert(is_multiline(p) == text.contains('\n')) by {
        if text.contains('\n') {
            assert(element_is_multiline(es[0]));
        }
    }
    let on_new_line = st.newline().indent();
    let inline = st.write(" "@);
    assert(render_element(es[0], on_new_line) == on_new_line.write(text));
    assert(render_element(es[0], inline) == inline.write(text));
    assert(render_elements(es, 0, on_new_line) == on_new_line);
    assert(render_elements(es, 1, on_new_line) == render_element(es[0], render_elements(es, 0, on_new_line)));
    assert(render_elements(es, 0, inline) == inline);
    assert(render_elements(es, 1, inline) == render_element(es[0], render_elements(es, 0, inline)));
}

/// The source block of a unit is the canonical text of the unit's message:
/// the bridge writes what the serializer would write.
pub proof fn lemma_unit_is_message(
    m: MessageNode,
    key: Seq<char>,
    main: Seq<char>,
    attrs: Seq<(Seq<char>, Seq<char>)>,
    description: Option<Seq<char>>,
    st: WriterState,
)
    requires
        is_unit_message(m, key, main, attrs, description),
    ensures
        render_message(m, st) == render_unit(key, main, attrs, description, st),
{
    let commented = render_description(description, st);
    match m.comment {
        Some(c) => {
            assert(render_comment_lines(c.content@, 0, "#"@, st) == st);
            assert(render_comment(c, "#"@, st) == commented);
        },
        None => {},
    }
    let named = commented.write(key).write(" ="@);
    lemma_text_pattern(m.value->Some_0, multiline_main_text(main), named);
    let valued = render_text(multiline_main_text(main), named);
    lemma_unit_attribute_lines(m.attributes@, attrs, attrs.len(), valued.indent());
}

/// The attribute lines of a unit are those of its message.
pub proof fn lemma_unit_attribute_lines(
    nodes: Seq<AttributeNode>,
    attrs: Seq<(Seq<char>, Seq<char>)>,
    n: nat,
    st: WriterState,
)
    requires
        nodes.len() == attrs.len(),
        n <= attrs.len(),
        forall|i: int|
            0 <= i < attrs.len() ==> (#[trigger] nodes[i]).id.name@ == attrs[i].0 && is_text_pattern(
                nodes[i].value,
                multiline_attr_text(attrs[i].1),
            ),
    ensures
        render_attribute_lines(nodes, n, st) == render_unit_attributes(attrs, n, st),
    decreases n,
{
    if n > 0 {
        lemma_unit_attribute_lines(nodes, attrs, (n - 1) as nat, st);
        let a = nodes[n - 1];
        lemma_text_pattern(
            a.value,
            multiline_attr_text(attrs[n - 1].1),
            render_attribute_lines(nodes, (n - 1) as nat, st).newline().write("."@).write(a.id.name@).write(
                " ="@,
            ),
        );
    }
}

/// The attributes of a unit, each as its name and its text, in ascending
/// order of the names.
pub open spec fn attribute_texts(
    attributes: OrderedMap<TUIdentifier, String>,
) -> Seq<(Seq<char>, Seq<char>)> {
    Seq::new(
        attributes.key_texts().len(),
        |i: int| (attributes.key_texts()[i], attributes.values()[i]@),
    )
}

/// The description that `descriptions` holds for the unit `key`, if any.
pub open spec fn description_of(descriptions: Map<Seq<char>, String>, key: Seq<char>) -> Option<Seq<char>> {
    if descriptions.contains_key(key) {
        Some(descriptions[key]@)
    } else {
        None
    }
}

/// The source block of `unit`, written into an empty buffer.
pub open spec fn unit_source(unit: TranslationUnit, descriptions: Map<Seq<char>, String>) -> Seq<char> {
    render_unit(
        unit.key@,
        unit.main@,
        attribute_texts(unit.attributes),
        description_of(descriptions, unit.key@),
        WriterState::start(),
    ).text
}

fn write_text(w: &mut TextWriter, text: &str)
    requires
        old(w).roomy(),
    ensures
        final(w)@ == render_text(text@, old(w)@),
        final(w).roomy(),
        final(w)@.level == old(w)@.level,
        final(w)@.text.len() > old(w)@.text.len(),
{
    let dotted = starts_with_char(text, '.');
    if !dotted && contains_char(text, '\n') {
        w.newline();
        proof {
            w.lemma_text_fits();
        }
        w.indent();
        w.write_literal(text);
        w.dedent();
    } else {
        w.write_literal(" ");
        proof {
            reveal_strlit(" ");
        }
        w.write_literal(text);
    }
}

/// Writes the source block of `unit` into an empty buffer.
pub fn synthesize_unit(
    unit: &TranslationUnit,
    descriptions: &OrderedMap<TUIdentifier, String>,
) -> (out: String)
    requires
        unit.wf(),
        descriptions.wf(),
    ensures
        out@ == unit_source(*unit, descriptions@),
{
    let mut w = TextWriter::new();
    match descriptions.get(&unit.key) {
        Some(d) => {
            let line = multiline_main(d.as_str());
            w.write_literal("#");
            if !all_fluent_ws(line.as_str()) {
                w.write_literal(" ");
                w.write_literal(line.as_str());
            }
            w.newline();
        },
        None => {},
    }
    w.write_literal(unit.key.as_str());
    w.write_literal(" =");
    let main = multiline_main(unit.main.as_str());
    write_text(&mut w, main.as_str());
    let n = unit.attributes.len();
    if n > 0 {
        let ghost attrs = attribute_texts(unit.attributes);
        proof {
            w.lemma_text_fits();
        }
        w.indent();
        let ghost inner = w@;
        let mut i: usize = 0;
        while i < n
            invariant
                i <= n,
                n == unit.attributes.key_texts().len(),
                n == unit.attributes.values().len(),
                attrs == attribute_texts(unit.attributes),
                w.roomy(),
                w@.level == inner.level,
                w@ == render_unit_attributes(attrs, i as nat, inner),
            decreases n - i,
        {
            w.newline();
            w.write_literal(".");
            w.write_literal(unit.attributes.key_at(i).as_str());
            w.write_literal(" =");
            let text = multiline_attr(unit.attributes.value_at(i).as_str());
            write_text(&mut w, text.as_str());
            i += 1;
        }
        w.dedent();
    }
    w.newline();
    w.into_string()
}

/// The source blocks of the first `n` of `units`, one after the other.
pub open spec fn units_source(
    units: Seq<TranslationUnit>,
    n: nat,
    descriptions: Map<Seq<char>, String>,
) -> Seq<char>
    decreases n,
{
    if n == 0 || n > units.len() {
        Seq::empty()
    } else {
        units_source(units, (n - 1) as nat, descriptions) + unit_source(units[n - 1], descriptions)
    }
}

/// The canonical text of a pattern written into an empty buffer.
pub open spec fn pattern_text(p: PatternNode) -> Seq<char> {
    render_pattern(p, WriterState::start()).text
}

/// The attribute texts that the first `n` of `attrs` give, by attribute
/// name; of two attributes with one name the later one stays.
pub open spec fn attributes_of(attrs: Seq<AttributeNode>, n: nat) -> Map<Seq<char>, Seq<char>>
    decreases n,
{
    if n == 0 || n > attrs.len() {
        Map::empty()
    } else {
        attributes_of(attrs, (n - 1) as nat).insert(attrs[n - 1].id.name@, pattern_text(attrs[n - 1].value))
    }
}

/// The unit that an entry gives: a message with a value gives the unit of
/// its name, a term the unit of its name behind `-`, anything else none.
pub open spec fn entry_unit(e: TreeEntry) -> Option<UnitView> {
    match e {
        TreeEntry::Message(m) => match m.value {
            Some(value) => Some(
                UnitView {
                    key: m.id.name@,
                    main: pattern_text(value),
                    attributes: attributes_of(m.attributes@, m.attributes@.len()),
                },
            ),
            None => None,
        },
        TreeEntry::Term(t) => Some(
            UnitView {
                key: seq!['-'] + t.id.name@,
                main: pattern_text(t.value),
                attributes: attributes_of(t.attributes@, t.attributes@.len()),
            },
        ),
        _ => None,
    }
}

/// The units that the first `n` of `body` give, by identifier; of two
/// entries with one identifier the later one stays.
pub open spec fn tree_units(body: Seq<TreeEntry>, n: nat) -> Map<Seq<char>, UnitView>
    decreases n,
{
    if n == 0 || n > body.len() {
        Map::empty()
    } else {
        let before = tree_units(body, (n - 1) as nat);
        match entry_unit(body[n - 1]) {
            Some(unit) => before.insert(unit.key, unit),
            None => before,
        }
    }
}

/// Whether every attribute has a name.
pub open spec fn attributes_named(attrs: Seq<AttributeNode>) -> bool {
    forall|i: int| 0 <= i < attrs.len() ==> (#[trigger] attrs[i]).id.name@.len() > 0
}

/// Whether the entry can be identified: a message and its attributes have
/// names, the attributes of a term have names.
pub open spec fn entry_named(e: TreeEntry) -> bool {
    match e {
        TreeEntry::Message(m) => m.id.name@.len() > 0 && attributes_named(m.attributes@),
        TreeEntry::Term(t) => attributes_named(t.attributes@),
        _ => true,
    }
}

/// Whether the entry, if it is a message, has a value.
pub open spec fn entry_valued(e: TreeEntry) -> bool {
    e matches TreeEntry::Message(m) ==> m.value is Some
}

/// Whether every message among the entries has a value.
pub open spec fn messages_valued(body: Seq<TreeEntry>) -> bool {
    forall|i: int| 0 <= i < body.len() ==> entry_valued(#[trigger] body[i])
}

/// Whether every one of the entries can be identified.
pub open spec fn entries_named(body: Seq<TreeEntry>) -> bool {
    forall|i: int| 0 <= i < body.len() ==> entry_named(#[trigger] body[i])
}

/// Whether every message of the tree has a value.
pub fn every_message_has_value(tree: &SyntaxTree) -> (b: bool)
    ensures
        b == messages_valued(tree.body@),
{
    let mut i: usize = 0;
    while i < tree.body.len()
        invariant
            i <= tree.body.len(),
            forall|j: int| 0 <= j < i ==> entry_valued(#[trigger] tree.body@[j]),
        decreases tree.body.len() - i,
    {
        if let TreeEntry::Message(m) = &tree.body[i] {
            if m.value.is_none() {
                return false;
            }
        }
        i += 1;
    }
    true
}

fn import_attributes(attrs: &Vec<AttributeNode>) -> (r: Result<OrderedMap<TUIdentifier, String>, Error>)
    ensures
        attributes_named(attrs@) ==> r is Ok && r->Ok_0.wf() && texts_of(r->Ok_0@) == attributes_of(
            attrs@,
            attrs@.len(),
        ),
        !attributes_named(attrs@) ==> r == Err::<OrderedMap<TUIdentifier, String>, Error>(
            Error::InvalidIdentifier,
        ),
{
    let mut out: OrderedMap<TUIdentifier, String> = OrderedMap::new();
    assert(texts_of(out@) =~= attributes_of(attrs@, 0));
    let mut i: usize = 0;
    while i < attrs.len()
        invariant
            i <= attrs.len(),
            out.wf(),
            texts_of(out@) == attributes_of(attrs@, i as nat),
            forall|j: int| 0 <= j < i ==> (#[trigger] attrs@[j]).id.name@.len() > 0,
        decreases attrs.len() - i,
    {
        let attr = &attrs[i];
        match TUIdentifier::new(attr.id.name.as_str()) {
            Ok(key) => {
                let text = serialize_pattern(&attr.value);
                let ghost before = out@;
                out.insert(key, text);
                assert(texts_of(out@) =~= texts_of(before).insert(key@, text@));
            },
            Err(_) => {
                return Err(Error::InvalidIdentifier);
            },
        }
        i += 1;
    }
    Ok(out)
}

impl TranslationUnitMap {
    /// The source text of the units in ascending order of their
    /// identifiers, each with its description from `descriptions` as a
    /// comment.
    pub fn synthesize(&self, descriptions: &OrderedMap<TUIdentifier, String>) -> (source: String)
        requires
            self.wf(),
            descriptions.wf(),
        ensures
            source@ == units_source(
                self.translation_units.values(),
                self.translation_units.values().len(),
                descriptions@,
            ),
    {
        let mut source = String::new();
        let n = self.translation_units.len();
        let mut i: usize = 0;
        while i < n
            invariant
                i <= n,
                n == self.translation_units.values().len(),
                self.wf(),
                descriptions.wf(),
                source@ == units_source(self.translation_units.values(), i as nat, descriptions@),
            decreases n - i,
        {
            let block = synthesize_unit(self.translation_units.value_at(i), descriptions);
            push_text(&mut source, block.as_str());
            i += 1;
        }
        source
    }

    /// The syntax tree of the units: the tree that the parser makes of their
    /// source text. The call fails exactly when the source text gives no
    /// tree, and then carries the parser's diagnostics, all of them, first
    /// one first, or says that the text could not be handed to the parser.
    pub fn to_flt_resource(&self, descriptions: &OrderedMap<TUIdentifier, String>) -> (r: Result<
        SyntaxTree,
        Error,
    >)
        requires
            self.wf(),
            descriptions.wf(),
        ensures
            r is Ok <==> parses(self.source(descriptions@)),
            r matches Ok(tree) ==> tree.body@ == parsed_entries(self.source(descriptions@)),
            r matches Err(e) ==> synthesis_failure(e, self.source(descriptions@)),
    {
        let source = self.synthesize(descriptions);
        match parse(source.as_str()) {
            Ok(tree) => Ok(tree),
            Err(ParseFailure::UnfinishedEscape) => Err(Error::UnfinishedEscape),
            Err(ParseFailure::Diagnostics(list)) => Err(Error::SynthesisParseError(list)),
        }
    }

    /// The source text of the units, with `descriptions` as comments.
    pub open spec fn source(&self, descriptions: Map<Seq<char>, String>) -> Seq<char> {
        units_source(
            self.translation_units.values(),
            self.translation_units.values().len(),
            descriptions,
        )
    }

    /// The units of a tree under `locale`: one for each message and term,
    /// with the canonical texts of its value and of its attributes. A
    /// message without a value gives no unit, and the call then fails with
    /// `MissingValue`. A message or an attribute without a name has no
    /// identifier, and the call then fails with `InvalidIdentifier`.
    pub fn from_flt_resource(locale: LocaleTag, value: &SyntaxTree) -> (r: Result<
        TranslationUnitMap,
        Error,
    >)
        ensures
            !messages_valued(value.body@) ==> r == Err::<TranslationUnitMap, Error>(Error::MissingValue),
            messages_valued(value.body@) && !entries_named(value.body@) ==> r == Err::<
                TranslationUnitMap,
                Error,
            >(Error::InvalidIdentifier),
            messages_valued(value.body@) && entries_named(value.body@) ==> r is Ok && {
                let map = r->Ok_0;
                &&& map.wf()
                &&& map.locale@ == locale@
                &&& map.units() == tree_units(value.body@, value.body@.len())
            },
    {
        if !every_message_has_value(value) {
            return Err(Error::MissingValue);
        }
        let mut map = TranslationUnitMap::new(locale);
        let mut i: usize = 0;
        while i < value.body.len()
            invariant
                i <= value.body.len(),
                messages_valued(value.body@),
                map.wf(),
                map.locale@ == locale@,
                map.units() == tree_units(value.body@, i as nat),
                forall|j: int| 0 <= j < i ==> entry_named(#[trigger] value.body@[j]),
            decreases value.body.len() - i,
        {
            assert(entry_valued(value.body@[i as int]));
            match &value.body[i] {
                TreeEntry::Message(m) => {
                    let key = match TUIdentifier::new(m.id.name.as_str()) {
                        Ok(key) => key,
                        Err(_) => {
                            return Err(Error::InvalidIdentifier);
                        },
                    };
                    let main = serialize_pattern(m.value.as_ref().unwrap());
                    let attributes = match import_attributes(&m.attributes) {
                        Ok(attributes) => attributes,
                        Err(_) => {
                            return Err(Error::InvalidIdentifier);
                        },
                    };
                    let unit = TranslationUnit { key, main, attributes };
                    assert(unit@ == entry_unit(value.body@[i as int])->Some_0);
                    map.insert(unit);
                },
                TreeEntry::Term(t) => {
                    let key = TUIdentifier::of_term_name(t.id.name.as_str());
                    let main = serialize_pattern(&t.value);
                    let attributes = match import_attributes(&t.attributes) {
                        Ok(attributes) => attributes,
                        Err(_) => {
                            return Err(Error::InvalidIdentifier);
                        },
                    };
                    let unit = TranslationUnit { key, main, attributes };
                    assert(unit@ == entry_unit(value.body@[i as int])->Some_0);
                    map.insert(unit);
                },
                _ => {},
            }
            i += 1;
        }
        Ok(map)
    }
}

/// What a failed synthesis carries: the diagnostics of the parser on the
/// source text, all of them, in the parser's order; or the word that the
/// text could not be handed to the parser.
pub open spec fn synthesis_failure(e: Error, source: Seq<char>) -> bool {
    match failure_of(source) {
        FailureView::UnfinishedEscape => e == Error::UnfinishedEscape,
        FailureView::Diagnostics(diagnostics) => e matches Error::SynthesisParseError(list) && list@.len() > 0
            && diagnostics_view(list@) == diagnostics,
    }
}

} // verus!
