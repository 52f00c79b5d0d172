use stringly::error::Error;
use stringly::format::FromFormat;
use stringly::parser::ParseFailure;
use stringly::ident::{split_path, CIdentifier, TUIdentifier};
use stringly::ir::{Category, Project, TranslationUnit, TranslationUnitMap};
use stringly::locale::LocaleTag;
use stringly::ordered::OrderedMap;
use stringly::order::{rank_text, Rank};
use stringly::{BTreeKeyedSet, Keyed, PathNode};

fn tag(text: &str) -> LocaleTag {
    LocaleTag::parse(text).unwrap()
}

fn unit(key: &str, main: &str, attributes: &[(&str, &str)]) -> TranslationUnit {
    let mut unit = TranslationUnit::new(TUIdentifier::new(key).unwrap(), main.to_string());
    for (name, text) in attributes {
        unit.attributes.insert(TUIdentifier::new(name).unwrap(), text.to_string());
    }
    unit
}

fn unit_map(locale: &str, units: Vec<TranslationUnit>) -> TranslationUnitMap {
    let mut map = TranslationUnitMap::new(tag(locale));
    for u in units {
        map.insert(u);
    }
    map
}

fn category(key: &str, default: &str, maps: Vec<TranslationUnitMap>) -> Result<Category, Error> {
    Category::new(
        CIdentifier::new(key).unwrap(),
        key.to_uppercase(),
        tag(default),
        OrderedMap::new(),
        BTreeKeyedSet::from_set(maps, |m: &TranslationUnitMap| m.locale.clone()),
    )
}

#[test]
fn identifier_of_empty_text_is_refused() {
    assert_eq!(TUIdentifier::new("").err(), Some(Error::InvalidIdentifier));
    assert_eq!(CIdentifier::new("").err(), Some(Error::InvalidIdentifier));
    assert_eq!(TUIdentifier::try_from("").err(), Some(Error::InvalidIdentifier));
    assert_eq!(CIdentifier::try_from(String::new()).err(), Some(Error::InvalidIdentifier));
}

#[test]
fn identifier_keeps_its_text() {
    assert_eq!(TUIdentifier::new("greeting").unwrap().as_str(), "greeting");
    assert_eq!(TUIdentifier::try_from("aria-label".to_string()).unwrap().as_str(), "aria-label");
    assert_eq!(CIdentifier::try_from("core").unwrap().as_str(), "core");
}

#[test]
fn term_identifiers_begin_with_a_hyphen() {
    assert!(TUIdentifier::new("-brand").unwrap().is_term());
    assert!(!TUIdentifier::new("brand").unwrap().is_term());
    assert_eq!(TUIdentifier::of_term_name("brand").as_str(), "-brand");
}

#[test]
fn identifiers_order_as_their_texts() {
    let a = TUIdentifier::new("alpha").unwrap();
    let b = TUIdentifier::new("beta").unwrap();
    assert!(a < b);
    assert_eq!(a, a.clone());
    assert_eq!(rank_text("alpha", "beta"), Rank::Less);
    assert_eq!(rank_text("beta", "alpha"), Rank::Greater);
    assert_eq!(rank_text("beta", "beta"), Rank::Equal);
    assert_eq!(rank_text("a", "ab"), Rank::Less);
    assert_eq!(rank_text("", "a"), Rank::Less);
    assert_eq!(rank_text("Z", "a"), Rank::Less);
    assert_eq!(rank_text("é", "z"), Rank::Greater);
}

#[test]
fn attribute_path_joins_with_double_underscore() {
    let owner = TUIdentifier::new("label").unwrap();
    let attribute = TUIdentifier::new("aria-label").unwrap();
    assert_eq!(owner.attribute_path(&attribute), "label__aria-label");
}

#[test]
fn path_splits_at_the_first_double_underscore() {
    let (owner, attribute) = split_path("label__aria-label").unwrap();
    assert_eq!(owner.as_str(), "label");
    assert_eq!(attribute.unwrap().as_str(), "aria-label");

    let (owner, attribute) = split_path("label").unwrap();
    assert_eq!(owner.as_str(), "label");
    assert!(attribute.is_none());

    let (owner, attribute) = split_path("a__b__c").unwrap();
    assert_eq!(owner.as_str(), "a");
    assert_eq!(attribute.unwrap().as_str(), "b");

    let (owner, attribute) = split_path("a_b__c_d").unwrap();
    assert_eq!(owner.as_str(), "a_b");
    assert_eq!(attribute.unwrap().as_str(), "c_d");
}

#[test]
fn path_with_an_empty_part_is_refused() {
    assert_eq!(split_path("").err(), Some(Error::InvalidIdentifier));
    assert_eq!(split_path("__attr").err(), Some(Error::InvalidIdentifier));
    assert_eq!(split_path("unit__").err(), Some(Error::InvalidIdentifier));
    assert_eq!(split_path("a____b").err(), Some(Error::InvalidIdentifier));
}

#[test]
fn locale_tag_is_held_in_canonical_form() {
    assert_eq!(tag("en").as_str(), "en");
    assert_eq!(tag("en_us").as_str(), "en-US");
    assert_eq!(tag("pL_latn_pl").as_str(), "pl-Latn-PL");
    assert!(LocaleTag::parse("not a locale").is_none());
    assert!(LocaleTag::parse("").is_none());
    assert_eq!(tag("EN-gb"), tag("en-GB"));
}

#[test]
fn ordered_map_keeps_keys_ascending_and_unique() {
    let mut map: OrderedMap<String, u32> = OrderedMap::new();
    assert_eq!(map.insert("m".to_string(), 1), None);
    assert_eq!(map.insert("a".to_string(), 2), None);
    assert_eq!(map.insert("z".to_string(), 3), None);
    assert_eq!(map.insert("m".to_string(), 4), Some(1));
    assert_eq!(map.len(), 3);
    assert_eq!(map.key_at(0), "a");
    assert_eq!(map.key_at(1), "m");
    assert_eq!(map.key_at(2), "z");
    assert_eq!(map.get(&"m".to_string()), Some(&4));
    assert_eq!(map.get(&"q".to_string()), None);
    assert_eq!(map.position(&"z".to_string()), Some(2));
    assert!(map.contains_key(&"a".to_string()));
    assert_eq!(map.remove(&"a".to_string()), Some(2));
    assert_eq!(map.remove(&"a".to_string()), None);
    assert_eq!(
        map.into_entries(),
        vec![("m".to_string(), 4), ("z".to_string(), 3)]
    );
}

#[test]
fn keyed_set_files_values_under_their_own_keys() {
    let mut set: BTreeKeyedSet<TUIdentifier, TranslationUnit> = BTreeKeyedSet::new();
    assert!(set.insert(unit("b", "second", &[])).is_none());
    assert!(set.insert(unit("a", "first", &[])).is_none());
    let replaced = set.insert(unit("b", "again", &[])).unwrap();
    assert_eq!(replaced.main, "second");
    assert_eq!(set.len(), 2);
    assert_eq!(set.key_at(0).as_str(), "a");
    assert_eq!(set.value_at(1).main, "again");
    assert_eq!(set.value_at(0).key().as_str(), "a");
    let key = TUIdentifier::new("a").unwrap();
    assert_eq!(set.get(&key).unwrap().main, "first");
    assert_eq!(set.remove(&key).unwrap().main, "first");
    assert!(!set.contains_key(&key));
    let rest: Vec<(String, String)> = set
        .into_iter()
        .into_iter()
        .map(|(k, v)| (k.as_str().to_string(), v.main))
        .collect();
    assert_eq!(rest, vec![("b".to_string(), "again".to_string())]);
}

#[test]
fn keyed_set_from_values_later_value_wins() {
    let set: BTreeKeyedSet<TUIdentifier, TranslationUnit> = BTreeKeyedSet::from_set(vec![
        unit("k2", "two", &[]),
        unit("k1", "one", &[]),
        unit("k2", "zwei", &[]),
    ], |u: &TranslationUnit| u.key.clone());
    assert_eq!(set.len(), 2);
    assert_eq!(set.value_at(0).main, "one");
    assert_eq!(set.value_at(1).main, "zwei");
}

#[test]
fn category_without_its_default_locale_is_refused() {
    let r = category("core", "en", vec![unit_map("de", vec![])]);
    assert_eq!(r.err(), Some(Error::MissingDefaultLocale));
    let r = category("core", "en", vec![]);
    assert_eq!(r.err(), Some(Error::MissingDefaultLocale));
}

#[test]
fn base_strings_are_those_of_the_default_locale() {
    let c = category(
        "core",
        "en",
        vec![
            unit_map("de", vec![unit("hello", "Hallo", &[])]),
            unit_map("en", vec![unit("hello", "Hello", &[])]),
        ],
    )
    .unwrap();
    assert_eq!(c.base_strings().locale.as_str(), "en");
    assert_eq!(c.base_strings().translation_units.value_at(0).main, "Hello");
    assert_eq!(c.id().as_str(), "core");
    assert_eq!(c.name(), "CORE");
    assert_eq!(c.default_locale().as_str(), "en");
}

#[test]
fn inserting_a_locale_keeps_the_default_locale() {
    let mut c = category("core", "en", vec![unit_map("en", vec![unit("hello", "Hello", &[])])]).unwrap();
    assert!(c.insert(unit_map("fr", vec![unit("hello", "Bonjour", &[])])).is_none());
    let old = c.insert(unit_map("en", vec![unit("hello", "Hi", &[])])).unwrap();
    assert_eq!(old.translation_units.value_at(0).main, "Hello");
    assert_eq!(c.base_strings().translation_units.value_at(0).main, "Hi");
    assert_eq!(c.translation_units().len(), 2);
}

#[test]
fn default_locale_comes_first_then_the_others_ascending() {
    let c = category(
        "core",
        "nb",
        vec![unit_map("sv", vec![]), unit_map("en", vec![]), unit_map("nb", vec![]), unit_map("de", vec![])],
    )
    .unwrap();
    let keys: Vec<&str> = c.ordered_locale_keys().into_iter().map(|t| t.as_str()).collect();
    assert_eq!(keys, vec!["nb", "de", "en", "sv"]);
}

#[test]
fn identity_keys_list_each_unit_then_its_attributes() {
    let c = category(
        "core",
        "en",
        vec![unit_map(
            "en",
            vec![
                unit("title", "Title", &[]),
                unit("label", "Welcome", &[("title", "T"), ("aria-label", "A")]),
            ],
        )],
    )
    .unwrap();
    let keys: Vec<(String, Option<String>)> = c
        .ordered_tu_identity_keys()
        .into_iter()
        .map(|(k, a)| (k.as_str().to_string(), a.map(|a| a.as_str().to_string())))
        .collect();
    assert_eq!(
        keys,
        vec![
            ("label".to_string(), None),
            ("label".to_string(), Some("aria-label".to_string())),
            ("label".to_string(), Some("title".to_string())),
            ("title".to_string(), None),
        ]
    );
}

#[test]
fn project_iterates_in_ascending_order_at_every_level() {
    let mut project = Project::default();
    assert_eq!(project.name, "Untitled");
    assert!(project.default_locale.is_none());
    for key in ["web", "core", "app"] {
        let c = category(
            key,
            "en",
            vec![
                unit_map("sv", vec![unit("b", "", &[]), unit("a", "", &[])]),
                unit_map("en", vec![unit("z", "", &[]), unit("-t", "", &[]), unit("a", "", &[])]),
            ],
        )
        .unwrap();
        project.categories.insert(c);
    }
    let mut seen = Vec::new();
    for i in 0..project.categories.len() {
        let c = project.categories.value_at(i);
        seen.push(c.id().as_str().to_string());
        let locales = c.translation_units();
        for l in 0..locales.len() {
            let map = locales.value_at(l);
            seen.push(format!(" {}", map.locale.as_str()));
            for u in 0..map.translation_units.len() {
                seen.push(format!("  {}", map.translation_units.value_at(u).key.as_str()));
            }
        }
    }
    assert_eq!(
        seen,
        vec![
            "app", " en", "  -t", "  a", "  z", " sv", "  a", "  b", "core", " en", "  -t", "  a", "  z", " sv",
            "  a", "  b", "web", " en", "  -t", "  a", "  z", " sv", "  a", "  b",
        ]
    );
}

#[test]
fn base_unit_check_finds_what_the_default_locale_lacks() {
    let covered = category(
        "core",
        "en",
        vec![
            unit_map("en", vec![unit("a", "A", &[("x", "X")]), unit("b", "B", &[])]),
            unit_map("de", vec![unit("a", "A", &[("x", "X")])]),
        ],
    )
    .unwrap();
    assert_eq!(covered.check_base_units(), Ok(()));

    let extra_unit = category(
        "core",
        "en",
        vec![unit_map("en", vec![unit("a", "A", &[])]), unit_map("de", vec![unit("c", "C", &[])])],
    )
    .unwrap();
    assert_eq!(extra_unit.check_base_units(), Err(Error::MissingBaseUnit));

    let extra_attribute = category(
        "core",
        "en",
        vec![unit_map("en", vec![unit("a", "A", &[])]), unit_map("de", vec![unit("a", "A", &[("x", "X")])])],
    )
    .unwrap();
    assert_eq!(extra_attribute.check_base_units(), Err(Error::MissingBaseUnit));
}

#[test]
fn unit_maps_compare_by_locale_alone() {
    let a = unit_map("en", vec![unit("a", "A", &[])]);
    let b = unit_map("en", vec![]);
    let c = unit_map("sv", vec![]);
    assert!(a == b);
    assert!(a != c);
    assert!(a < c);
    assert_eq!(a.partial_cmp(&b), Some(std::cmp::Ordering::Equal));
    assert_eq!(c.partial_cmp(&a), Some(std::cmp::Ordering::Greater));
}

#[test]
fn set_attribute_needs_the_unit() {
    let mut map = unit_map("en", vec![unit("a", "A", &[])]);
    let a = TUIdentifier::new("a").unwrap();
    let b = TUIdentifier::new("b").unwrap();
    assert!(map.set_attribute(&a, TUIdentifier::new("x").unwrap(), "X".to_string()));
    assert!(!map.set_attribute(&b, TUIdentifier::new("x").unwrap(), "X".to_string()));
    let unit = map.translation_units.get(&a).unwrap();
    assert_eq!(unit.main, "A");
    assert_eq!(unit.attributes.get(&TUIdentifier::new("x").unwrap()), Some(&"X".to_string()));
    assert_eq!(map.translation_units.len(), 1);
}

#[test]
fn path_node_gives_up_what_it_is() {
    let file = PathNode::File(vec![1, 2, 3]);
    assert_eq!(file.into_file(), Some(vec![1, 2, 3]));
    assert!(PathNode::File(vec![]).into_directory().is_none());
    let mut entries: OrderedMap<String, PathNode> = OrderedMap::new();
    entries.insert("a.flt".to_string(), PathNode::File(vec![7]));
    let dir = PathNode::Directory(entries);
    let entries = dir.into_directory().unwrap();
    assert_eq!(entries.len(), 1);
    assert_eq!(entries.key_at(0), "a.flt");
    assert!(PathNode::Directory(OrderedMap::new()).into_file().is_none());
}

#[test]
fn format_extensions() {
    assert_eq!(FromFormat::Fluent.file_ext(), "ftl");
    assert_eq!(FromFormat::Xlsx.file_ext(), "xlsx");
}

#[test]
fn validation_hands_back_the_first_diagnostic() {
    assert!(FromFormat::Fluent.validate("hello = Hello\n").is_ok());
    let list = match FromFormat::Fluent.validate("key1 = Value 1\n\ng@Rb@ge = #2y ds\n\nkey2 = Value 2\n") {
        Err(ParseFailure::Diagnostics(list)) => list,
        other => panic!("expected diagnostics, got {:?}", other),
    };
    let d = &list[0];
    assert_eq!(d.start, 17);
    assert_eq!(d.end, 18);
    assert_eq!(d.message, "Expected a token starting with \"=\"");
    assert_eq!(
        FromFormat::Fluent.validate("a = { \"\\u12\u{e9}\" }\n"),
        Err(ParseFailure::UnfinishedEscape)
    );
}

#[test]
fn keyed_set_from_values_under_keys_of_another_kind() {
    let by_text = |u: &TranslationUnit| TUIdentifier::new(&u.main).unwrap();
    let set: BTreeKeyedSet<TUIdentifier, TranslationUnit> =
        BTreeKeyedSet::from_set(vec![unit("k1", "zulu", &[]), unit("k2", "alpha", &[]), unit("k3", "mike", &[])], by_text);
    assert_eq!(set.len(), 3);
    assert_eq!(set.get(&TUIdentifier::new("alpha").unwrap()).unwrap().key.as_str(), "k2");
    assert!(set.get(&TUIdentifier::new("k2").unwrap()).is_none());
    let pairs: Vec<(String, String)> =
        set.into_iter().into_iter().map(|(k, v)| (k.as_str().to_string(), v.key.as_str().to_string())).collect();
    assert_eq!(
        pairs,
        vec![
            ("alpha".to_string(), "k2".to_string()),
            ("mike".to_string(), "k3".to_string()),
            ("zulu".to_string(), "k1".to_string()),
        ]
    );
    let same: BTreeKeyedSet<TUIdentifier, TranslationUnit> = BTreeKeyedSet::from_set(
        vec![unit("k1", "one", &[]), unit("k2", "one", &[])],
        |u: &TranslationUnit| TUIdentifier::new(&u.main).unwrap(),
    );
    assert_eq!(same.len(), 1);
    assert_eq!(same.value_at(0).key.as_str(), "k2");
}
