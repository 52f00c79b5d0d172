use stringly::error::Error;
use stringly::export::{export_category, generate, tree_file, CategoryConfig};
use stringly::flt::{escape, every_message_has_value, multiline_attr, multiline_main, synthesize_unit};
use stringly::ident::{CIdentifier, TUIdentifier};
use stringly::ir::{Category, Project, TranslationUnit, TranslationUnitMap};
use stringly::locale::LocaleTag;
use stringly::ordered::OrderedMap;
use stringly::parser::{parse, ParseFailure};
use stringly::serializer::serialize;
use stringly::tree::{
    AttributeNode, ElementNode, IdentifierNode, MessageNode, PatternNode, SyntaxTree, TermNode, TreeEntry,
};
use stringly::{BTreeKeyedSet, PathNode};

fn tag(text: &str) -> LocaleTag {
    LocaleTag::parse(text).unwrap()
}

fn key(text: &str) -> TUIdentifier {
    TUIdentifier::new(text).unwrap()
}

fn unit(name: &str, main: &str, attributes: &[(&str, &str)]) -> TranslationUnit {
    let mut unit = TranslationUnit::new(key(name), main.to_string());
    for (name, text) in attributes {
        unit.attributes.insert(key(name), text.to_string());
    }
    unit
}

fn unit_map(locale: &str, units: Vec<TranslationUnit>) -> TranslationUnitMap {
    let mut map = TranslationUnitMap::new(tag(locale));
    for u in units {
        map.insert(u);
    }
    map
}

fn no_descriptions() -> OrderedMap<TUIdentifier, String> {
    OrderedMap::new()
}

fn export(units: Vec<TranslationUnit>) -> String {
    serialize(&unit_map("en", units).to_flt_resource(&no_descriptions()).unwrap())
}

fn text_pattern(value: &str) -> PatternNode {
    PatternNode { elements: vec![ElementNode::TextElement { value: value.to_string() }] }
}

#[test]
fn escape_makes_reserved_sequences_inert() {
    assert_eq!(escape("plain text"), "plain text");
    assert_eq!(escape("5 * 3"), "5 {\"*\"} 3");
    assert_eq!(escape("**"), "{\"*\"}{\"*\"}");
    assert_eq!(escape("\\(a\\)"), "{\"(\"}a{\")\"}");
    assert_eq!(escape("\\{x\\}"), "{\"{\"}x{\"}\"}");
    assert_eq!(escape("(a) {b} \\ c"), "(a) {b} \\ c");
    assert_eq!(escape(""), "");
}

#[test]
fn escape_replaces_one_sequence_after_the_other() {
    assert_eq!(escape("\\*"), "{\"{\"}\"*\"}");
}

#[test]
fn multiline_trims_indents_and_ends_the_line() {
    assert_eq!(multiline_main("Hello"), "Hello\n");
    assert_eq!(multiline_main("  Hello \n world\t"), "Hello \n     world\n");
    assert_eq!(multiline_main("a\n\nb"), "a\n    \n    b\n");
    assert_eq!(multiline_attr("a\nb"), "a\n        b\n");
    assert_eq!(multiline_main(""), "\n");
    assert_eq!(multiline_main(" \u{a0}\u{2003}x\u{3000}\n"), "x\n");
    assert_eq!(multiline_attr("2 * 2\n= 4"), "2 {\"*\"} 2\n        = 4\n");
}

#[test]
fn unit_is_written_as_a_block_of_source() {
    let d = no_descriptions();
    assert_eq!(
        synthesize_unit(&unit("greeting", "Hello, { $name }!", &[]), &d),
        "greeting =\n    Hello, { $name }!\n\n"
    );
    assert_eq!(
        synthesize_unit(&unit("label", "Welcome", &[("aria-label", "Described text")]), &d),
        "label =\n    Welcome\n\n    .aria-label =\n        Described text\n\n"
    );
    assert_eq!(synthesize_unit(&unit("dot", ".hidden", &[]), &d), "dot = .hidden\n\n");
    assert_eq!(
        synthesize_unit(&unit("multiline", "Line one\nLine two", &[]), &d),
        "multiline =\n    Line one\n    Line two\n\n"
    );
}

#[test]
fn description_becomes_a_comment() {
    let mut d = no_descriptions();
    d.insert(key("greeting"), "Shown on top".to_string());
    d.insert(key("blank"), "   ".to_string());
    assert_eq!(
        synthesize_unit(&unit("greeting", "Hello", &[]), &d),
        "# Shown on top\n\ngreeting =\n    Hello\n\n"
    );
    assert_eq!(synthesize_unit(&unit("blank", "x", &[]), &d), "#\nblank =\n    x\n\n");
    assert_eq!(synthesize_unit(&unit("other", "x", &[]), &d), "other =\n    x\n\n");
}

#[test]
fn source_of_a_locale_holds_the_units_in_ascending_order() {
    let map = unit_map("en", vec![unit("b", "B", &[]), unit("a", "A", &[])]);
    assert_eq!(map.synthesize(&no_descriptions()), "a =\n    A\n\nb =\n    B\n\n");
    assert_eq!(unit_map("en", vec![]).synthesize(&no_descriptions()), "");
}

#[test]
fn single_line_unit_is_exported_inline() {
    assert_eq!(export(vec![unit("greeting", "Hello, { $name }!", &[])]), "greeting = Hello, { $name }!\n");
}

#[test]
fn unit_with_attribute_is_exported_with_its_line() {
    assert_eq!(
        export(vec![unit("label", "Welcome", &[("aria-label", "Described text")])]),
        "label = Welcome\n    .aria-label = Described text\n"
    );
}

#[test]
fn multiline_unit_is_exported_as_a_block() {
    assert_eq!(
        export(vec![unit("multiline", "Line one\nLine two", &[])]),
        "multiline =\n    Line one\n    Line two\n"
    );
}

#[test]
fn default_marker_in_a_unit_text_is_escaped_like_any_asterisk() {
    let map = unit_map(
        "en",
        vec![unit("emails", "{ $count ->\n    *[one] One email\n    [other] { $count } emails\n}", &[])],
    );
    assert!(map.synthesize(&no_descriptions()).contains("{\"*\"}[one]"));
    match map.to_flt_resource(&no_descriptions()) {
        Err(Error::SynthesisParseError(list)) => {
            assert_eq!(list[0].message, "The select expression must have a default variant");
        }
        other => panic!("expected a synthesis failure, got {:?}", other),
    }
}

#[test]
fn terms_and_escapes_survive_the_export() {
    assert_eq!(
        export(vec![unit("-brand", "Fire*fox", &[]), unit("math", "2 * 2 \\{ok\\}", &[])]),
        "-brand = Fire{ \"*\" }fox\nmath = 2 { \"*\" } 2 { \"{\" }ok{ \"}\" }\n"
    );
}

#[test]
fn synthesis_that_does_not_parse_carries_the_diagnostics() {
    let map = unit_map("en", vec![unit("broken", "{", &[]), unit("fine", "ok", &[])]);
    match map.to_flt_resource(&no_descriptions()) {
        Err(Error::SynthesisParseError(list)) => {
            assert!(!list.is_empty());
            assert_eq!(
                parse(&map.synthesize(&no_descriptions())).err(),
                Some(ParseFailure::Diagnostics(list))
            );
        }
        other => panic!("expected a synthesis failure, got {:?}", other),
    }
}

#[test]
fn description_of_several_lines_does_not_parse() {
    let mut d = no_descriptions();
    d.insert(key("a"), "one\ntwo".to_string());
    let map = unit_map("en", vec![unit("a", "A", &[])]);
    assert!(matches!(map.to_flt_resource(&d), Err(Error::SynthesisParseError(_))));
}

#[test]
fn units_are_read_back_from_a_tree() {
    let tree = parse(
        "# about\ngreeting = Hello, { $name }!\n    .title = Hi\n-brand = Firefox\n## group\nmultiline =\n    Line one\n    Line two\n",
    )
    .unwrap();
    assert!(every_message_has_value(&tree));
    let map = TranslationUnitMap::from_flt_resource(tag("en"), &tree).unwrap();
    assert_eq!(map.locale.as_str(), "en");
    assert_eq!(map.translation_units.len(), 3);
    let brand = map.translation_units.value_at(0);
    assert_eq!(brand.key.as_str(), "-brand");
    assert_eq!(brand.main, " Firefox");
    let greeting = map.translation_units.value_at(1);
    assert_eq!(greeting.key.as_str(), "greeting");
    assert_eq!(greeting.main, " Hello, { $name }!");
    assert_eq!(greeting.attributes.len(), 1);
    assert_eq!(greeting.attributes.get(&key("title")), Some(&" Hi".to_string()));
    let multiline = map.translation_units.value_at(2);
    assert_eq!(multiline.main, "\n    Line one\n    Line two");
}

#[test]
fn later_entry_with_the_same_identifier_stays() {
    let message = |value: &str, attrs: Vec<(&str, &str)>| {
        TreeEntry::Message(MessageNode {
            id: IdentifierNode { name: "k".to_string() },
            value: Some(text_pattern(value)),
            attributes: attrs
                .into_iter()
                .map(|(n, v)| AttributeNode { id: IdentifierNode { name: n.to_string() }, value: text_pattern(v) })
                .collect(),
            comment: None,
        })
    };
    let tree = SyntaxTree {
        body: vec![message("first", vec![("a", "1")]), message("second", vec![("b", "2"), ("b", "3")])],
    };
    let map = TranslationUnitMap::from_flt_resource(tag("en"), &tree).unwrap();
    assert_eq!(map.translation_units.len(), 1);
    let unit = map.translation_units.value_at(0);
    assert_eq!(unit.main, " second");
    assert_eq!(unit.attributes.len(), 1);
    assert_eq!(unit.attributes.get(&key("b")), Some(&" 3".to_string()));
}

#[test]
fn entry_without_a_name_has_no_identifier() {
    let nameless = SyntaxTree {
        body: vec![TreeEntry::Message(MessageNode {
            id: IdentifierNode { name: String::new() },
            value: Some(text_pattern("x")),
            attributes: vec![],
            comment: None,
        })],
    };
    assert_eq!(
        TranslationUnitMap::from_flt_resource(tag("en"), &nameless).err(),
        Some(Error::InvalidIdentifier)
    );
    let nameless_attribute = SyntaxTree {
        body: vec![TreeEntry::Term(TermNode {
            id: IdentifierNode { name: String::new() },
            value: text_pattern("x"),
            attributes: vec![AttributeNode { id: IdentifierNode { name: String::new() }, value: text_pattern("y") }],
            comment: None,
        })],
    };
    assert_eq!(
        TranslationUnitMap::from_flt_resource(tag("en"), &nameless_attribute).err(),
        Some(Error::InvalidIdentifier)
    );
    let nameless_term = SyntaxTree {
        body: vec![TreeEntry::Term(TermNode {
            id: IdentifierNode { name: String::new() },
            value: text_pattern("x"),
            attributes: vec![],
            comment: None,
        })],
    };
    let map = TranslationUnitMap::from_flt_resource(tag("en"), &nameless_term).unwrap();
    assert_eq!(map.translation_units.value_at(0).key.as_str(), "-");
}

#[test]
fn message_without_a_value_is_told_apart() {
    let tree = parse("key =\n    .attr = Value\nother = x\n").unwrap();
    assert!(!every_message_has_value(&tree));
    assert!(every_message_has_value(&parse("other = x\n-term = y\n# c\n").unwrap()));
}

#[test]
fn model_to_tree_to_model_recovers_the_texts() {
    let texts = [
        ("plain", "Hello"),
        ("placeable", "Hello, { $name }!"),
        ("lines", "Line one\nLine two"),
        ("term-ref", "About { -brand }"),
    ];
    let units = texts.iter().map(|(k, t)| unit(k, t, &[("attr", t)])).collect();
    let tree = unit_map("en", units).to_flt_resource(&no_descriptions()).unwrap();
    let back = TranslationUnitMap::from_flt_resource(tag("en"), &tree).unwrap();
    for (k, t) in texts {
        let u = back.translation_units.get(&key(k)).unwrap();
        let main: Vec<&str> = u.main.lines().map(|l| l.trim()).filter(|l| !l.is_empty()).collect();
        let attr: Vec<&str> =
            u.attributes.get(&key("attr")).unwrap().lines().map(|l| l.trim()).filter(|l| !l.is_empty()).collect();
        let expected: Vec<&str> = t.lines().collect();
        assert_eq!(main, expected);
        assert_eq!(attr, expected);
    }
}

#[test]
fn single_line_units_export_the_same_after_a_round_trip() {
    let units = vec![
        unit("plain", "Hello", &[("attr", "World")]),
        unit("placeable", "Hello, { $name }!", &[]),
    ];
    let tree = unit_map("en", units).to_flt_resource(&no_descriptions()).unwrap();
    let back = TranslationUnitMap::from_flt_resource(tag("en"), &tree).unwrap();
    let again = back.to_flt_resource(&no_descriptions()).unwrap();
    assert_eq!(serialize(&again), serialize(&tree));
    assert_eq!(serialize(&tree), "placeable = Hello, { $name }!\nplain = Hello\n    .attr = World\n");
}

#[test]
fn escaped_text_comes_back_as_a_string_literal() {
    let tree = unit_map("en", vec![unit("math", "2 * 2", &[])]).to_flt_resource(&no_descriptions()).unwrap();
    let back = TranslationUnitMap::from_flt_resource(tag("en"), &tree).unwrap();
    assert_eq!(back.translation_units.value_at(0).main, " 2 { \"*\" } 2");
}

fn sample_project() -> Project {
    let mut project = Project::default();
    project.name = "Sample".to_string();
    project.default_locale = Some(tag("en"));
    let mut descriptions = OrderedMap::new();
    descriptions.insert(key("greeting"), "Shown on top".to_string());
    let core = Category::new(
        CIdentifier::new("core").unwrap(),
        "Core".to_string(),
        tag("en"),
        descriptions,
        BTreeKeyedSet::from_set(vec![
            unit_map("sv", vec![unit("greeting", "Hej, { $name }!", &[])]),
            unit_map("en", vec![unit("greeting", "Hello, { $name }!", &[]), unit("bye", "Bye", &[("title", "T")])]),
        ], |m: &TranslationUnitMap| m.locale.clone()),
    )
    .unwrap();
    let web = Category::new(
        CIdentifier::new("web").unwrap(),
        "Web".to_string(),
        tag("nb"),
        OrderedMap::new(),
        BTreeKeyedSet::from_set(vec![unit_map("nb", vec![])], |m: &TranslationUnitMap| m.locale.clone()),
    )
    .unwrap();
    project.categories.insert(web);
    project.categories.insert(core);
    project
}

fn file_text(node: &PathNode) -> String {
    match node {
        PathNode::File(bytes) => String::from_utf8(bytes.clone()).unwrap(),
        PathNode::Directory(_) => panic!("expected a file"),
    }
}

#[test]
fn export_yields_a_directory_per_category_and_a_file_per_locale() {
    let tree = generate(sample_project(), b"name = \"Sample\"\n".to_vec()).unwrap();
    let top = tree.into_directory().unwrap();
    assert_eq!(top.len(), 3);
    assert_eq!(top.key_at(0), "core");
    assert_eq!(top.key_at(1), "stringly.toml");
    assert_eq!(top.key_at(2), "web");
    assert_eq!(file_text(top.value_at(1)), "name = \"Sample\"\n");
    match top.value_at(0) {
        PathNode::Directory(core) => {
            assert_eq!(core.len(), 2);
            assert_eq!(core.key_at(0), "en.flt");
            assert_eq!(core.key_at(1), "sv.flt");
            assert_eq!(
                file_text(core.value_at(0)),
                "bye = Bye\n    .title = T\n\n# Shown on top\n\ngreeting = Hello, { $name }!\n"
            );
            assert_eq!(file_text(core.value_at(1)), "# Shown on top\n\ngreeting = Hej, { $name }!\n");
        }
        PathNode::File(_) => panic!("expected a directory"),
    }
    match top.value_at(2) {
        PathNode::Directory(web) => {
            assert_eq!(web.len(), 1);
            assert_eq!(web.key_at(0), "nb.flt");
            assert_eq!(file_text(web.value_at(0)), "");
        }
        PathNode::File(_) => panic!("expected a directory"),
    }
}

#[test]
fn export_of_one_category() {
    let project = sample_project();
    let files = export_category(project.categories.value_at(0)).unwrap();
    assert_eq!(files.len(), 2);
    assert_eq!(files.key_at(0), "en.flt");
}

#[test]
fn export_is_refused_when_a_locale_has_more_than_the_default_one() {
    let mut project = Project::default();
    let c = Category::new(
        CIdentifier::new("core").unwrap(),
        "Core".to_string(),
        tag("en"),
        OrderedMap::new(),
        BTreeKeyedSet::from_set(vec![
            unit_map("en", vec![unit("a", "A", &[])]),
            unit_map("sv", vec![unit("a", "A", &[("extra", "x")])]),
        ], |m: &TranslationUnitMap| m.locale.clone()),
    )
    .unwrap();
    project.categories.insert(c);
    assert_eq!(generate(project, vec![]).err(), Some(Error::MissingBaseUnit));
}

#[test]
fn export_fails_when_a_source_text_does_not_parse() {
    let mut project = Project::default();
    let c = Category::new(
        CIdentifier::new("core").unwrap(),
        "Core".to_string(),
        tag("en"),
        OrderedMap::new(),
        BTreeKeyedSet::from_set(vec![unit_map("en", vec![unit("a", "{ $", &[])])], |m: &TranslationUnitMap| m.locale.clone()),
    )
    .unwrap();
    project.categories.insert(c);
    assert!(matches!(generate(project, vec![]), Err(Error::SynthesisParseError(_))));
}

#[test]
fn manifest_data_lists_the_categories_in_ascending_order() {
    let config = sample_project().config();
    assert_eq!(config.name, "Sample");
    assert_eq!(config.default_locale, Some("en".to_string()));
    assert_eq!(
        config.categories,
        vec![
            CategoryConfig { key: "core".to_string(), name: "Core".to_string(), default_locale: "en".to_string() },
            CategoryConfig { key: "web".to_string(), name: "Web".to_string(), default_locale: "nb".to_string() },
        ]
    );
}

#[test]
fn tree_is_held_as_the_bytes_of_its_canonical_text() {
    let tree = parse("greeting=Hej   { $namn }\no = åäö\n").unwrap();
    assert_eq!(
        tree_file(&tree).into_file(),
        Some("greeting = Hej   { $namn }\no = åäö\n".as_bytes().to_vec())
    );
}

#[test]
fn tree_with_a_valueless_message_gives_no_units() {
    let tree = parse("key =\n    .attr = Value\nother = x\n").unwrap();
    assert_eq!(TranslationUnitMap::from_flt_resource(tag("en"), &tree).err(), Some(Error::MissingValue));
    let nameless_and_valueless = SyntaxTree {
        body: vec![TreeEntry::Message(MessageNode {
            id: IdentifierNode { name: String::new() },
            value: None,
            attributes: vec![],
            comment: None,
        })],
    };
    assert_eq!(
        TranslationUnitMap::from_flt_resource(tag("en"), &nameless_and_valueless).err(),
        Some(Error::MissingValue)
    );
}

#[test]
fn unit_text_with_an_unfinished_escape_is_no_tree() {
    let map = unit_map("en", vec![unit("a", "{ \"\\u12\u{e9}\" }", &[])]);
    assert_eq!(map.synthesize(&no_descriptions()), "a =\n    { \"\\u12\u{e9}\" }\n\n");
    assert_eq!(map.to_flt_resource(&no_descriptions()).err(), Some(Error::UnfinishedEscape));
    let whole = unit_map("en", vec![unit("a", "{ \"\\u00e9\" }", &[])]);
    assert_eq!(serialize(&whole.to_flt_resource(&no_descriptions()).unwrap()), "a = { \"\\u00e9\" }\n");
}

#[test]
fn exported_file_is_the_canonical_text_of_the_parsed_synthesis() {
    let map = unit_map(
        "en",
        vec![unit("b", "Two\nlines", &[("t", "T")]), unit("a", "2 * 2", &[]), unit("-c", "C", &[])],
    );
    let source = map.synthesize(&no_descriptions());
    let expected = serialize(&parse(&source).unwrap()).into_bytes();
    assert_ne!(expected, source.clone().into_bytes());
    match tree_file(&map.to_flt_resource(&no_descriptions()).unwrap()) {
        PathNode::File(bytes) => assert_eq!(bytes, expected),
        PathNode::Directory(_) => panic!("expected a file"),
    }
}

#[test]
fn escaped_text_reads_back_as_the_text() {
    let texts = ["a * b", "\\(x\\) and \\{y\\}", "**\\{\\}*", "plain \"quoted\" text", "", "\\}\\{\\)\\("];
    for text in texts {
        let escaped = escape(text);
        assert!(!escaped.contains('\\'), "{:?}", escaped);
        let back = escaped
            .replace("{\"*\"}", "*")
            .replace("{\"(\"}", "\\(")
            .replace("{\")\"}", "\\)")
            .replace("{\"{\"}", "\\{")
            .replace("{\"}\"}", "\\}");
        assert_eq!(back, text);
    }
    assert_eq!(escape("\\(x\\) and \\{y\\}"), "{\"(\"}x{\")\"} and {\"{\"}y{\"}\"}");
}

#[test]
fn export_fails_when_a_source_text_cannot_be_handed_to_the_parser() {
    let mut project = Project::default();
    let c = Category::new(
        CIdentifier::new("core").unwrap(),
        "Core".to_string(),
        tag("en"),
        OrderedMap::new(),
        BTreeKeyedSet::from_set(
            vec![unit_map("en", vec![unit("a", "{ \"\\U12\u{e9}\" }", &[])])],
            |m: &TranslationUnitMap| m.locale.clone(),
        ),
    )
    .unwrap();
    assert_eq!(export_category(&c).err(), Some(Error::UnfinishedEscape));
    project.categories.insert(c);
    assert_eq!(generate(project, vec![]).err(), Some(Error::UnfinishedEscape));
}
