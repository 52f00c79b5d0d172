use stringly::parser::{has_safe_escapes, parse, ParseFailure};
use stringly::serializer::{
    serialize, serialize_message, serialize_pattern, serialize_select_expression, serialize_term,
    serialize_with_options, Options,
};
use stringly::tree::{
    ArgumentsNode, AttributeNode, CommentNode, ElementNode, ExpressionNode, IdentifierNode, InlineNode,
    KeyNode, MessageNode, NamedArgumentNode, PatternNode, SyntaxTree, TermNode, TreeEntry, VariantNode,
};
use stringly::writer::TextWriter;

fn id(name: &str) -> IdentifierNode {
    IdentifierNode { name: name.to_string() }
}

fn text(value: &str) -> ElementNode {
    ElementNode::TextElement { value: value.to_string() }
}

fn placeable(expression: InlineNode) -> ElementNode {
    ElementNode::Placeable { expression: ExpressionNode::Inline(expression) }
}

fn variable(name: &str) -> InlineNode {
    InlineNode::VariableReference { id: id(name) }
}

fn pattern(elements: Vec<ElementNode>) -> PatternNode {
    PatternNode { elements }
}

fn message(name: &str, value: Option<PatternNode>, attributes: Vec<AttributeNode>) -> MessageNode {
    MessageNode { id: id(name), value, attributes, comment: None }
}

fn comment(lines: &[&str]) -> CommentNode {
    CommentNode { content: lines.iter().map(|l| l.to_string()).collect() }
}

fn written(w: TextWriter) -> String {
    w.into_string()
}

#[test]
fn single_line_message_round_trips() {
    let tree = parse("greeting = Hello, { $name }!\n").unwrap();
    assert_eq!(serialize(&tree), "greeting = Hello, { $name }!\n");
}

#[test]
fn select_expression_variants_are_indented() {
    let source = "emails =\n    { $count ->\n       *[one] One\n        [other] Many\n    }\n";
    let tree = parse(source).unwrap();
    assert_eq!(serialize(&tree), source);
}

#[test]
fn select_expression_built_by_hand() {
    let select = ExpressionNode::Select {
        selector: variable("count"),
        variants: vec![
            VariantNode {
                key: KeyNode::Identifier { name: "one".to_string() },
                value: pattern(vec![text("One")]),
                default: true,
            },
            VariantNode {
                key: KeyNode::NumberLiteral { value: "2".to_string() },
                value: pattern(vec![text("Two")]),
                default: false,
            },
            VariantNode {
                key: KeyNode::Identifier { name: "other".to_string() },
                value: pattern(vec![text("Many")]),
                default: false,
            },
        ],
    };
    let msg = message("emails", Some(pattern(vec![ElementNode::Placeable { expression: select }])), vec![]);
    let out = serialize_message(&msg);
    assert_eq!(
        out,
        "emails =\n    { $count ->\n       *[one] One\n        [2] Two\n        [other] Many\n    }\n"
    );
    assert_eq!(out.lines().filter(|l| l.trim_start().starts_with("*[one]")).count(), 1);
    assert_eq!(out.lines().filter(|l| l.trim_start().starts_with("[other]")).count(), 1);
    assert!(out.contains("\n       *[one]"));
    assert!(out.contains("\n        [other]"));
}

#[test]
fn writer_indents_what_follows_a_newline() {
    let mut w = TextWriter::new();
    w.write_literal("foo =");
    w.newline();
    w.indent();
    w.write_literal("first line");
    w.newline();
    w.write_literal("second line");
    w.newline();
    w.dedent();
    w.write_literal("not indented");
    w.newline();
    assert_eq!(written(w), "foo =\n    first line\n    second line\nnot indented\n");
}

#[test]
fn writer_doubles_a_trailing_carriage_return() {
    let mut w = TextWriter::new();
    w.write_literal("a\r");
    w.newline();
    assert_eq!(written(w), "a\r\r\n");
}

#[test]
fn writer_puts_a_mark_into_the_indentation() {
    let mut w = TextWriter::new();
    w.write_literal("x");
    w.newline();
    w.indent();
    w.write_char_into_indent('*');
    w.write_literal("[");
    assert_eq!(written(w), "x\n   *[");

    let mut w = TextWriter::new();
    w.write_char_into_indent('*');
    assert_eq!(written(w), "*");

    let mut w = TextWriter::new();
    w.write_literal("ab");
    w.write_char_into_indent('*');
    assert_eq!(written(w), "a*");
}

#[test]
fn writer_indents_before_an_empty_write() {
    let mut w = TextWriter::new();
    w.write_literal("x");
    w.newline();
    w.indent();
    w.write_literal("");
    w.write_literal("y");
    assert_eq!(written(w), "x\n    y");
}

#[test]
fn pattern_alone_starts_with_a_space_or_on_a_new_line() {
    assert_eq!(serialize_pattern(&pattern(vec![text("Hello")])), " Hello");
    assert_eq!(serialize_pattern(&pattern(vec![])), " ");
    assert_eq!(
        serialize_pattern(&pattern(vec![text("Line one\n"), text("Line two")])),
        "\n    Line one\n    Line two"
    );
}

#[test]
fn pattern_with_a_leading_dot_stays_inline() {
    assert_eq!(serialize_pattern(&pattern(vec![text(".one\n"), text("two")])), " .one\ntwo");
    let msg = message("key", Some(pattern(vec![text(".one\n"), text("two")])), vec![]);
    assert_eq!(serialize_message(&msg), "key = .one\ntwo\n");
}

#[test]
fn embedded_newlines_are_written_as_they_are() {
    assert_eq!(serialize_pattern(&pattern(vec![text("a\nb")])), "\n    a\nb");
}

#[test]
fn nested_placeable_gets_doubled_braces() {
    let inner = ExpressionNode::Inline(InlineNode::FunctionReference {
        id: id("FOO"),
        arguments: ArgumentsNode { positional: vec![], named: vec![] },
    });
    let p = pattern(vec![placeable(InlineNode::Placeable { expression: Box::new(inner) })]);
    assert_eq!(serialize_pattern(&p), " {{ FOO() }}");
}

#[test]
fn placeable_inside_an_argument_gets_single_braces() {
    let inner = InlineNode::Placeable { expression: Box::new(ExpressionNode::Inline(variable("x"))) };
    let call = InlineNode::FunctionReference {
        id: id("F"),
        arguments: ArgumentsNode { positional: vec![inner], named: vec![] },
    };
    assert_eq!(serialize_pattern(&pattern(vec![placeable(call)])), " { F({$x}) }");
}

#[test]
fn nested_select_makes_the_pattern_multiline() {
    let select = ExpressionNode::Select {
        selector: variable("n"),
        variants: vec![VariantNode {
            key: KeyNode::Identifier { name: "other".to_string() },
            value: pattern(vec![text("x")]),
            default: true,
        }],
    };
    let wrapped = InlineNode::Placeable { expression: Box::new(select) };
    let p = pattern(vec![placeable(wrapped)]);
    assert_eq!(serialize_pattern(&p), "\n    {{ $n ->\n       *[other] x\n     }}");
}

#[test]
fn call_arguments_positional_then_named() {
    let call = InlineNode::FunctionReference {
        id: id("NUMBER"),
        arguments: ArgumentsNode {
            positional: vec![variable("n"), InlineNode::NumberLiteral { value: "3.5".to_string() }],
            named: vec![
                NamedArgumentNode { name: id("style"), value: InlineNode::StringLiteral { value: "x".to_string() } },
                NamedArgumentNode { name: id("min"), value: InlineNode::NumberLiteral { value: "2".to_string() } },
            ],
        },
    };
    assert_eq!(
        serialize_pattern(&pattern(vec![placeable(call)])),
        " { NUMBER($n, 3.5, style: \"x\", min: 2) }"
    );
    let named_only = InlineNode::FunctionReference {
        id: id("F"),
        arguments: ArgumentsNode {
            positional: vec![],
            named: vec![
                NamedArgumentNode { name: id("a"), value: InlineNode::NumberLiteral { value: "1".to_string() } },
                NamedArgumentNode { name: id("b"), value: InlineNode::NumberLiteral { value: "2".to_string() } },
            ],
        },
    };
    assert_eq!(serialize_pattern(&pattern(vec![placeable(named_only)])), " { F(a: 1, b: 2) }");
}

#[test]
fn references_to_messages_and_terms() {
    let msg_ref = InlineNode::MessageReference { id: id("menu"), attribute: Some(id("title")) };
    let term_ref = InlineNode::TermReference {
        id: id("brand"),
        attribute: Some(id("gender")),
        arguments: Some(ArgumentsNode {
            positional: vec![],
            named: vec![NamedArgumentNode {
                name: id("case"),
                value: InlineNode::StringLiteral { value: "nominative".to_string() },
            }],
        }),
    };
    let bare_term = InlineNode::TermReference { id: id("brand"), attribute: None, arguments: None };
    let bare_msg = InlineNode::MessageReference { id: id("menu"), attribute: None };
    let p = pattern(vec![
        placeable(msg_ref),
        text(" "),
        placeable(term_ref),
        text(" "),
        placeable(bare_term),
        placeable(bare_msg),
    ]);
    assert_eq!(
        serialize_pattern(&p),
        " { menu.title } { -brand.gender(case: \"nominative\") } { -brand }{ menu }"
    );
}

#[test]
fn attributes_follow_one_level_deeper() {
    let msg = message(
        "label",
        Some(pattern(vec![text("Welcome")])),
        vec![
            AttributeNode { id: id("aria-label"), value: pattern(vec![text("Described text")]) },
            AttributeNode { id: id("title"), value: pattern(vec![text("a\n"), text("b")]) },
        ],
    );
    assert_eq!(
        serialize_message(&msg),
        "label = Welcome\n    .aria-label = Described text\n    .title =\n        a\n        b\n"
    );
}

#[test]
fn message_without_a_value() {
    let msg = message("key", None, vec![AttributeNode { id: id("attr"), value: pattern(vec![text("Value")]) }]);
    assert_eq!(serialize_message(&msg), "key =\n    .attr = Value\n");
}

#[test]
fn term_with_its_comment() {
    let term = TermNode {
        id: id("brand"),
        value: pattern(vec![text("Firefox")]),
        attributes: vec![AttributeNode { id: id("gender"), value: pattern(vec![text("masculine")]) }],
        comment: Some(comment(&["The brand", "", "  ", "second"])),
    };
    assert_eq!(
        serialize_term(&term),
        "# The brand\n#\n#\n# second\n-brand = Firefox\n    .gender = masculine\n"
    );
}

#[test]
fn free_comments_are_set_apart_by_a_blank_line() {
    let tree = SyntaxTree {
        body: vec![
            TreeEntry::ResourceComment(comment(&["Resource"])),
            TreeEntry::GroupComment(comment(&["Group"])),
            TreeEntry::Message(message("a", Some(pattern(vec![text("A")])), vec![])),
            TreeEntry::Comment(comment(&["Alone", "again"])),
            TreeEntry::Term(TermNode {
                id: id("t"),
                value: pattern(vec![text("T")]),
                attributes: vec![],
                comment: None,
            }),
        ],
    };
    assert_eq!(
        serialize(&tree),
        "### Resource\n\n\n## Group\n\na = A\n\n# Alone\n# again\n\n-t = T\n"
    );
}

#[test]
fn junk_is_written_only_on_request() {
    let tree = SyntaxTree {
        body: vec![
            TreeEntry::Junk { content: "g@Rb@ge = #2y ds\n\n".to_string() },
            TreeEntry::Comment(comment(&["first"])),
            TreeEntry::Message(message("a", Some(pattern(vec![text("A")])), vec![])),
            TreeEntry::Junk { content: "???\n".to_string() },
            TreeEntry::Comment(comment(&["after junk"])),
        ],
    };
    assert_eq!(serialize(&tree), "# first\n\na = A\n\n# after junk\n\n");
    assert_eq!(serialize_with_options(&tree, Options::default()), serialize(&tree));
    assert_eq!(
        serialize_with_options(&tree, Options { with_junk: true }),
        "g@Rb@ge = #2y ds\n\n# first\n\na = A\n???\n\n# after junk\n\n"
    );
}

#[test]
fn empty_tree_gives_empty_text() {
    assert_eq!(serialize(&SyntaxTree { body: vec![] }), "");
}

#[test]
fn parsed_tree_equals_the_tree_written_by_hand() {
    let tree = parse("# note\nhello = Hi { $who }\n    .title = T\n").unwrap();
    let expected = SyntaxTree {
        body: vec![TreeEntry::Message(MessageNode {
            id: id("hello"),
            value: Some(pattern(vec![text("Hi "), placeable(variable("who"))])),
            attributes: vec![AttributeNode { id: id("title"), value: pattern(vec![text("T")]) }],
            comment: Some(comment(&["note"])),
        })],
    };
    assert_eq!(tree, expected);
}

#[test]
fn parsed_tree_keeps_the_order_of_what_it_holds() {
    let source = "-brand = Firefox\nline = { NUMBER($a, $b, x: 1, y: 2) } then { $c ->\n    [one] 1\n   *[other] { -brand(case: \"x\") }\n }\n";
    let tree = parse(source).unwrap();
    assert_eq!(
        serialize(&tree),
        "-brand = Firefox\nline =\n    { NUMBER($a, $b, x: 1, y: 2) } then { $c ->\n        [one] 1\n       *[other] { -brand(case: \"x\") }\n    }\n"
    );
}

#[test]
fn parse_reports_its_diagnostics() {
    let list = match parse("key1 = Value 1\n\ng@Rb@ge = #2y ds\n\nkey2 = Value 2\nbad line\n") {
        Err(ParseFailure::Diagnostics(list)) => list,
        other => panic!("expected diagnostics, got {:?}", other),
    };
    assert_eq!(list.len(), 2);
    assert_eq!((list[0].start, list[0].end), (17, 18));
    assert_eq!(list[0].message, "Expected a token starting with \"=\"");
    assert!(list[1].start > list[0].start);
}

#[test]
fn serializing_is_idempotent_over_parsing() {
    let sources = [
        "greeting=Hello,   { $name }!",
        "unnormalized-message=This message has\n  abnormal spacing and indentation",
        "emails = { $count ->\n [one] One\n *[other] { $count } emails\n }\n  .title = { menu.title }\n",
        "# c\n-brand = Firefox\n    .gender = masculine\n\n## group\n\nkey = { NUMBER($n, style: \"percent\") } { \"*\" } {{ $x }}\n",
        "multi =\n    one\n\n    two\n      three\n",
    ];
    for source in sources {
        let once = serialize(&parse(source).unwrap());
        let twice = serialize(&parse(&once).unwrap());
        assert_eq!(once, twice);
    }
    assert_eq!(
        serialize(&parse(sources[1]).unwrap()),
        "unnormalized-message =\n    This message has\n    abnormal spacing and indentation\n"
    );
}

#[test]
fn escape_cut_short_by_a_wide_character_is_refused() {
    for source in ["a = { \"\\u12\u{e9}\" }\n", "a = { \"\\U0001F\u{1f600}\" }\n", "a = { \"\\u\u{e9}\" }\n", "a = \"x\" \\u1\u{e9}\n"] {
        assert!(!has_safe_escapes(source), "{:?}", source);
        assert_eq!(parse(source).err(), Some(ParseFailure::UnfinishedEscape), "{:?}", source);
    }
}

#[test]
fn escape_cut_short_by_a_plain_character_is_for_the_parser() {
    for source in ["a = { \"\\u12x\" }\n", "a = { \"\\u12\" }\n", "a = { \"\\U00e9\n", "a = { \"\\u12"] {
        assert!(has_safe_escapes(source), "{:?}", source);
        match parse(source) {
            Err(ParseFailure::Diagnostics(list)) => assert!(!list.is_empty()),
            other => panic!("expected diagnostics for {:?}, got {:?}", source, other),
        }
    }
}

#[test]
fn escapes_that_are_whole_or_unquoted_are_safe() {
    let whole = "a = { \"\\u00e9\u{e9}\" } { \"\\U01F600\u{e9}\" }\n";
    assert!(has_safe_escapes(whole));
    let tree = parse(whole).unwrap();
    assert_eq!(serialize(&tree), whole);
    let unquoted = "a = C:\\u\u{e9}\n";
    assert!(has_safe_escapes(unquoted));
    assert_eq!(serialize(&parse(unquoted).unwrap()), unquoted);
    let earlier_line = "a = { \"x\" }\nb = C:\\u\u{e9}\n";
    assert!(has_safe_escapes(earlier_line));
    assert_eq!(serialize(&parse(earlier_line).unwrap()), earlier_line);
    assert!(has_safe_escapes(""));
    assert!(has_safe_escapes("\\u\u{e9}\""));
}

#[test]
fn every_variant_has_its_bracket_in_one_column() {
    let source = "a =\n    { $n ->\n        [zero] none\n        [one] x\n       *[two] y\n        [3] z\n    }\n";
    let out = serialize(&parse(source).unwrap());
    assert_eq!(out, source);
    let lines: Vec<&str> = out.lines().filter(|l| l.contains('[')).collect();
    assert_eq!(lines.len(), 4);
    for (i, line) in lines.iter().enumerate() {
        assert_eq!(line.find('['), Some(8));
        assert!(line[..7].chars().all(|c| c == ' '));
        assert_eq!(&line[7..8], if i == 2 { "*" } else { " " });
    }
}

#[test]
fn select_expression_is_written_one_level_deeper_than_the_writer() {
    let select = ExpressionNode::Select {
        selector: variable("n"),
        variants: vec![
            VariantNode { key: KeyNode::NumberLiteral { value: "0".to_string() }, value: pattern(vec![text("none")]), default: false },
            VariantNode { key: KeyNode::Identifier { name: "one".to_string() }, value: pattern(vec![text("x")]), default: false },
            VariantNode { key: KeyNode::Identifier { name: "other".to_string() }, value: pattern(vec![text("y")]), default: true },
        ],
    };
    let mut w = TextWriter::new();
    w.write_literal("a =");
    w.newline();
    w.indent();
    w.write_literal("b =");
    w.newline();
    w.indent();
    w.write_literal("{ ");
    serialize_select_expression(&mut w, &select);
    w.write_literal("}");
    assert_eq!(
        written(w),
        "a =\n    b =\n        { $n ->\n            [0] none\n            [one] x\n           *[other] y\n        }"
    );
}
