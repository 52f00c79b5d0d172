use stringly::error::Error;
use stringly::ident::{CIdentifier, TUIdentifier};
use stringly::ir::{Category, TranslationUnit, TranslationUnitMap};
use stringly::locale::LocaleTag;
use stringly::ordered::OrderedMap;
use stringly::translate::{
    assemble, collect_segments, convert_from_html, convert_to_html, translate_category, KeyedString,
    KeyedTranslation, Matchers, Translation, CHUNK_SIZE,
};
use stringly::BTreeKeyedSet;

fn tag(text: &str) -> LocaleTag {
    LocaleTag::parse(text).unwrap()
}

fn key(text: &str) -> TUIdentifier {
    TUIdentifier::new(text).unwrap()
}

fn unit(name: &str, main: &str, attributes: &[(&str, &str)]) -> TranslationUnit {
    let mut unit = TranslationUnit::new(key(name), main.to_string());
    for (name, text) in attributes {
        unit.attributes.insert(key(name), text.to_string());
    }
    unit
}

fn unit_map(locale: &str, units: Vec<TranslationUnit>) -> TranslationUnitMap {
    let mut map = TranslationUnitMap::new(tag(locale));
    for u in units {
        map.insert(u);
    }
    map
}

fn translation<'a>(key: &'a str, target: &str) -> KeyedTranslation<'a> {
    KeyedTranslation { key, source: "", target: target.to_string() }
}

#[test]
fn html_e2e() {
    let test = "This is { $var } and also { $upsetting-var }.";
    let html = convert_to_html(test);
    assert_eq!(
        html,
        "This is <a id=\"$var\">$var</a> and also <a id=\"$upsetting-var\">$upsetting-var</a>."
    );
    let text = convert_from_html(&html);
    assert_eq!(text, "This is { $var } and also { $upsetting-var }.")
}

#[test]
fn html_term() {
    let test = "This is { $var } and also { -upsetting-var }.";
    let html = convert_to_html(test);
    assert_eq!(
        html,
        "This is <a id=\"$var\">$var</a> and also <a id=\"-upsetting-var\">-upsetting-var</a>."
    );
    let text = convert_from_html(&html);
    assert_eq!(text, "This is { $var } and also { -upsetting-var }.")
}

#[test]
fn placeable_is_shielded_and_restored() {
    let token = convert_to_html("Score: { $points }");
    assert_eq!(token, "Score: <a id=\"$points\">$points</a>");
    assert_eq!(convert_from_html("<a id=\"$points\">$points</a>"), "{ $points }");
    assert_eq!(convert_from_html(&token), "Score: { $points }");
}

#[test]
fn placeables_round_trip_one_by_one() {
    let texts = [
        "no placeables at all",
        "",
        "{ $a }{ $b }",
        "{ $a }{ -b }{ $c }",
        "x { $a }{ $b } y { NUMBER($n) } z",
        "{ $only }",
        "ends with { -term }",
    ];
    for text in texts {
        assert_eq!(convert_from_html(&convert_to_html(text)), text);
    }
    assert_eq!(convert_to_html("{ $a }{ $b }"), "<a id=\"$a\">$a</a><a id=\"$b\">$b</a>");
}

#[test]
fn inner_content_is_trimmed_and_respaced() {
    assert_eq!(convert_to_html("{$a} {   $b   }"), "<a id=\"$a\">$a</a> <a id=\"$b\">$b</a>");
    assert_eq!(convert_from_html(&convert_to_html("{$a}")), "{ $a }");
}

#[test]
fn translated_label_is_passed_over() {
    assert_eq!(convert_from_html("Poäng: <a id=\"$points\">poäng</a>!"), "Poäng: { $points }!");
}

#[test]
fn restoring_decodes_entities() {
    assert_eq!(
        convert_from_html("Tom &amp; <a id=\"$who\">$who</a> &lt;3 &#39;x&#39; &quot;y&quot;"),
        "Tom & { $who } <3 'x' \"y\""
    );
    assert_eq!(convert_from_html("plain"), "plain");
}

#[test]
fn segments_follow_the_units_and_their_attributes() {
    let map = unit_map(
        "en",
        vec![
            unit("title", "Plain", &[]),
            unit("label", "Hi { $name }", &[("title", "T { -brand }"), ("aria-label", "A")]),
        ],
    );
    let segments: Vec<(String, String)> =
        collect_segments(&map, &Matchers::new()).into_iter().map(|s| (s.key, s.value)).collect();
    assert_eq!(
        segments,
        vec![
            ("label".to_string(), "Hi <a id=\"$name\">$name</a>".to_string()),
            ("label__aria-label".to_string(), "A".to_string()),
            ("label__title".to_string(), "T <a id=\"-brand\">-brand</a>".to_string()),
            ("title".to_string(), "Plain".to_string()),
        ]
    );
    assert!(collect_segments(&unit_map("en", vec![]), &Matchers::new()).is_empty());
}

fn numbered_segments(n: usize) -> Vec<KeyedString> {
    (0..n).map(|i| KeyedString { key: format!("k{i}"), value: format!("v{i}") }).collect()
}

#[test]
fn segments_are_sent_in_chunks_of_at_most_128() {
    assert_eq!(CHUNK_SIZE, 128);
    let segments = numbered_segments(300);
    let mut run = Translation::start(&segments);
    let mut sizes = Vec::new();
    while let Some(request) = run.next_request() {
        sizes.push(request.len());
        let first = sizes.iter().sum::<usize>() - request.len();
        assert_eq!(request[0], format!("v{first}"));
        assert_eq!(request[request.len() - 1], format!("v{}", first + request.len() - 1));
        run.accept(request.iter().map(|q| format!("t-{q}")).collect());
    }
    assert_eq!(sizes, vec![128, 128, 44]);
    let translated = run.finish();
    assert_eq!(translated.len(), 300);
    for (i, t) in translated.iter().enumerate() {
        assert_eq!(t.key, format!("k{i}"));
        assert_eq!(t.source, format!("v{i}"));
        assert_eq!(t.target, format!("t-v{i}"));
    }
}

#[test]
fn chunk_boundaries() {
    for (n, expected) in [(0, vec![]), (1, vec![1]), (128, vec![128]), (129, vec![128, 1]), (256, vec![128, 128])] {
        let segments = numbered_segments(n);
        let mut run = Translation::start(&segments);
        let mut sizes = Vec::new();
        while let Some(request) = run.next_request() {
            sizes.push(request.len());
            run.accept(request);
        }
        assert_eq!(sizes, expected);
    }
}

#[test]
fn answers_are_matched_by_position_within_a_chunk() {
    let segments = numbered_segments(130);
    let mut run = Translation::start(&segments);
    run.next_request().unwrap();
    run.accept(vec!["a".to_string(), "b".to_string()]);
    let second = run.next_request().unwrap();
    assert_eq!(second, vec!["v128".to_string(), "v129".to_string()]);
    run.accept(vec!["c".to_string(), "d".to_string(), "too many".to_string()]);
    assert!(run.next_request().is_none());
    let got: Vec<(String, String)> = run.finish().into_iter().map(|t| (t.key.to_string(), t.target)).collect();
    assert_eq!(
        got,
        vec![
            ("k0".to_string(), "a".to_string()),
            ("k1".to_string(), "b".to_string()),
            ("k128".to_string(), "c".to_string()),
            ("k129".to_string(), "d".to_string()),
        ]
    );
}

#[test]
fn translations_are_put_together_as_a_unit_map() {
    let translations = vec![
        translation("label", "Hej <a id=\"$name\">$name</a>"),
        translation("label__aria-label", "A &amp; B"),
        translation("title", "Rubrik"),
        translation("label__title", "T"),
    ];
    let map = assemble(tag("sv"), &translations, &Matchers::new()).unwrap();
    assert_eq!(map.locale.as_str(), "sv");
    assert_eq!(map.translation_units.len(), 2);
    let label = map.translation_units.get(&key("label")).unwrap();
    assert_eq!(label.main, "Hej { $name }");
    assert_eq!(label.attributes.len(), 2);
    assert_eq!(label.attributes.get(&key("aria-label")), Some(&"A & B".to_string()));
    assert_eq!(label.attributes.get(&key("title")), Some(&"T".to_string()));
    let title = map.translation_units.get(&key("title")).unwrap();
    assert_eq!(title.main, "Rubrik");
    assert_eq!(title.attributes.len(), 0);
}

#[test]
fn main_text_that_comes_again_begins_the_unit_anew() {
    let translations = vec![translation("a", "one"), translation("a__x", "X"), translation("a", "two")];
    let map = assemble(tag("sv"), &translations, &Matchers::new()).unwrap();
    let a = map.translation_units.get(&key("a")).unwrap();
    assert_eq!(a.main, "two");
    assert_eq!(a.attributes.len(), 0);
}

#[test]
fn attribute_without_its_unit_is_refused() {
    let translations = vec![translation("a", "A"), translation("b__x", "X")];
    assert_eq!(assemble(tag("sv"), &translations, &Matchers::new()).err(), Some(Error::MissingBaseUnit));
}

#[test]
fn key_with_an_empty_part_is_refused() {
    assert_eq!(assemble(tag("sv"), &vec![translation("", "A")], &Matchers::new()).err(), Some(Error::InvalidIdentifier));
    assert_eq!(
        assemble(tag("sv"), &vec![translation("a", "A"), translation("a__", "X")], &Matchers::new()).err(),
        Some(Error::InvalidIdentifier)
    );
    assert_eq!(
        assemble(tag("sv"), &vec![translation("__x", "X"), translation("b__y", "Y")], &Matchers::new()).err(),
        Some(Error::InvalidIdentifier)
    );
}

fn sample_category() -> Category {
    Category::new(
        CIdentifier::new("core").unwrap(),
        "Core".to_string(),
        tag("en"),
        OrderedMap::new(),
        BTreeKeyedSet::from_set(vec![unit_map("en", vec![unit("a", "A", &[("x", "X")])])], |m: &TranslationUnitMap| m.locale.clone()),
    )
    .unwrap()
}

#[test]
fn translated_locale_is_put_into_the_category_as_a_whole() {
    let mut category = sample_category();
    let translations = vec![translation("a", "Ä"), translation("a__x", "Y")];
    assert_eq!(translate_category(&mut category, tag("sv"), &translations, &Matchers::new()), Ok(()));
    assert_eq!(category.translation_units().len(), 2);
    let sv = category.translation_units().get(&tag("sv")).unwrap();
    assert_eq!(sv.translation_units.get(&key("a")).unwrap().main, "Ä");
    assert_eq!(category.base_strings().translation_units.get(&key("a")).unwrap().main, "A");
    assert_eq!(category.check_base_units(), Ok(()));
}

#[test]
fn failed_translation_leaves_the_category_as_it_was() {
    let mut category = sample_category();
    let translations = vec![translation("a", "Ä"), translation("missing__x", "Y")];
    assert_eq!(
        translate_category(&mut category, tag("sv"), &translations, &Matchers::new()),
        Err(Error::MissingBaseUnit)
    );
    assert_eq!(category.translation_units().len(), 1);
    assert!(category.translation_units().get(&tag("sv")).is_none());
}

#[test]
fn matchers_compiled_once_do_what_the_conversions_do() {
    let matchers = Matchers::new();
    assert!(matchers.is_compiled());
    for text in ["Hello, { $name }!", "{$a}{ -b }", "plain", "", "Po\u{e4}ng: { $points }"] {
        let shielded = matchers.protect(text);
        assert_eq!(shielded, convert_to_html(text));
        assert_eq!(matchers.restore(&shielded), convert_from_html(&shielded));
    }
    assert_eq!(matchers.protect("Hello, { $name }!"), "Hello, <a id=\"$name\">$name</a>!");
    assert_eq!(matchers.restore("<a id=\"$n\">x</a> &amp; y"), "{ $n } & y");
}

#[test]
fn translation_keeps_the_name_and_the_descriptions_of_the_category() {
    let mut descriptions = OrderedMap::new();
    descriptions.insert(key("a"), "What a is".to_string());
    let mut category = Category::new(
        CIdentifier::new("core").unwrap(),
        "Core".to_string(),
        tag("en"),
        descriptions,
        BTreeKeyedSet::from_set(
            vec![unit_map("en", vec![unit("a", "A", &[("x", "X")])])],
            |m: &TranslationUnitMap| m.locale.clone(),
        ),
    )
    .unwrap();
    let translations = vec![translation("a", "B"), translation("a__x", "Y")];
    assert_eq!(translate_category(&mut category, tag("sv"), &translations, &Matchers::new()), Ok(()));
    assert_eq!(category.id().as_str(), "core");
    assert_eq!(category.name(), "Core");
    assert_eq!(category.default_locale().as_str(), "en");
    assert_eq!(category.descriptions().len(), 1);
    assert_eq!(category.descriptions().get(&key("a")).unwrap(), "What a is");
}

#[test]
fn answered_segments_give_the_units_of_the_base_locale() {
    let matchers = Matchers::new();
    let mut units = vec![unit("-brand", "Brand { $x }", &[]), unit("solo", "Solo", &[("title", "T"), ("alt", "A { -brand }")])];
    for i in 0..150 {
        units.push(unit(&format!("u{:03}", i), &format!("Text {}", i), &[("hint", "H")]));
    }
    let base = unit_map("en", units);
    let segments = collect_segments(&base, &matchers);
    assert_eq!(segments.len(), 1 + 3 + 300);
    let mut run = Translation::start(&segments);
    let mut requests = 0;
    while let Some(texts) = run.next_request() {
        requests += 1;
        run.accept(texts.into_iter().map(|t| t.replace("Text", "Texte").replace("Solo", "Seul")).collect());
    }
    assert_eq!(requests, 3);
    let translations = run.finish();
    assert_eq!(translations.len(), segments.len());
    let made = assemble(tag("fr"), &translations, &matchers).unwrap();
    assert_eq!(made.translation_units.len(), base.translation_units.len());
    for i in 0..base.translation_units.len() {
        let from = base.translation_units.value_at(i);
        let to = made.translation_units.value_at(i);
        assert_eq!(to.key.as_str(), from.key.as_str());
        assert_eq!(to.attributes.len(), from.attributes.len());
        for j in 0..from.attributes.len() {
            assert_eq!(to.attributes.key_at(j).as_str(), from.attributes.key_at(j).as_str());
        }
    }
    let solo = made.translation_units.get(&key("solo")).unwrap();
    assert_eq!(solo.main, "Seul");
    assert_eq!(solo.attributes.get(&key("alt")).unwrap(), "A { -brand }");
    assert_eq!(made.translation_units.get(&key("-brand")).unwrap().main, "Brand { $x }");
    assert_eq!(made.translation_units.get(&key("u149")).unwrap().main, "Texte 149");
}
