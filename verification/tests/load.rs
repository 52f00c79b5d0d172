use stringly::export::{generate, CategoryConfig};
use stringly::load::{
    load_category, load_locale, load_project, load_tree, CategorySource, LoadError, LocaleSource,
};
use stringly::locale::LocaleTag;
use stringly::parser::parse;

fn source(locale: &str, text: &str) -> LocaleSource {
    LocaleSource { locale: locale.to_string(), source: text.to_string() }
}

fn category(key: &str, default: &str, locales: Vec<LocaleSource>) -> CategorySource {
    CategorySource {
        config: CategoryConfig { key: key.to_string(), name: key.to_uppercase(), default_locale: default.to_string() },
        locales,
    }
}

#[test]
fn locale_is_read_from_its_source_text() {
    let map = load_locale("en_us", "hello = Hello\n    .title = T\n-brand = X\n").unwrap();
    assert_eq!(map.locale.as_str(), "en-US");
    assert_eq!(map.translation_units.len(), 2);
    assert_eq!(map.translation_units.value_at(1).main, " Hello");
}

#[test]
fn locale_that_cannot_be_read() {
    assert_eq!(load_locale("no locale", "a = b\n").err(), Some(LoadError::InvalidLocale));
    assert_eq!(load_locale("no locale", "a b\n").err(), Some(LoadError::InvalidLocale));
    match load_locale("en", "a b\n") {
        Err(LoadError::InvalidSource(list)) => assert_eq!(list.len(), 1),
        other => panic!("expected diagnostics, got {:?}", other),
    }
    assert_eq!(load_locale("en", "a =\n    .title = T\n").err(), Some(LoadError::MissingValue));
    assert_eq!(load_locale("en", "a = { \"\\u12\u{e9}\" }\n").err(), Some(LoadError::UnfinishedEscape));
    assert_eq!(load_locale("??", "a = { \"\\u12\u{e9}\" }\n").err(), Some(LoadError::InvalidLocale));
}

#[test]
fn category_is_put_together_from_its_locales() {
    let c = load_category(&category(
        "core",
        "en",
        vec![source("sv", "a = Ett\n"), source("en", "a = One\n"), source("sv", "a = Två\n")],
    ))
    .unwrap();
    assert_eq!(c.id().as_str(), "core");
    assert_eq!(c.name(), "CORE");
    assert_eq!(c.default_locale().as_str(), "en");
    assert_eq!(c.translation_units().len(), 2);
    assert_eq!(c.base_strings().translation_units.value_at(0).main, " One");
    assert_eq!(c.translation_units().value_at(1).translation_units.value_at(0).main, " Två");
    assert_eq!(c.descriptions().len(), 0);
}

#[test]
fn category_that_cannot_be_put_together() {
    assert_eq!(
        load_category(&category("", "en", vec![source("en", "")])).err(),
        Some(LoadError::InvalidIdentifier)
    );
    assert_eq!(
        load_category(&category("core", "??", vec![source("en", "")])).err(),
        Some(LoadError::InvalidLocale)
    );
    assert_eq!(
        load_category(&category("core", "en", vec![source("sv", "a = b\n")])).err(),
        Some(LoadError::MissingDefaultLocale)
    );
    assert_eq!(
        load_category(&category("core", "en", vec![source("en", "a = b\n"), source("x y", "")])).err(),
        Some(LoadError::InvalidLocale)
    );
}

#[test]
fn project_is_put_together_and_exports_again() {
    let project = load_project(
        "Sample".to_string(),
        Some("en"),
        &vec![
            category("web", "en", vec![source("en", "title = Web\n")]),
            category("core", "en", vec![source("en", "hello = Hello, { $name }!\n"), source("nb", "hello = Hei\n")]),
        ],
    )
    .unwrap();
    assert_eq!(project.name, "Sample");
    assert_eq!(project.default_locale.as_ref().unwrap().as_str(), "en");
    assert_eq!(project.categories.len(), 2);
    assert_eq!(project.categories.value_at(0).id().as_str(), "core");
    assert_eq!(project.categories.value_at(0).descriptions().len(), 0);
    assert_eq!(project.categories.value_at(1).descriptions().len(), 0);
    let top = generate(project, vec![]).unwrap().into_directory().unwrap();
    let core = match top.value_at(0) {
        stringly::PathNode::Directory(d) => d,
        stringly::PathNode::File(_) => panic!("expected a directory"),
    };
    match core.value_at(0) {
        stringly::PathNode::File(bytes) => assert_eq!(bytes, b"hello = Hello, { $name }!\n"),
        stringly::PathNode::Directory(_) => panic!("expected a file"),
    }
}

#[test]
fn project_that_cannot_be_put_together() {
    assert_eq!(load_project("P".to_string(), Some("not a tag"), &vec![]).err(), Some(LoadError::InvalidLocale));
    assert_eq!(
        load_project("P".to_string(), None, &vec![category("core", "en", vec![])]).err(),
        Some(LoadError::MissingDefaultLocale)
    );
    let empty = load_project("P".to_string(), None, &vec![]).unwrap();
    assert!(empty.default_locale.is_none());
    assert_eq!(empty.categories.len(), 0);
}

#[test]
fn tree_is_turned_into_a_unit_map() {
    let tag = || LocaleTag::parse("en").unwrap();
    let map = load_tree(tag(), &parse("a = One\n-b = Two\n").unwrap()).unwrap();
    assert_eq!(map.translation_units.len(), 2);
    assert_eq!(map.translation_units.value_at(0).key.as_str(), "-b");
    assert_eq!(map.translation_units.value_at(0).main, " Two");
    assert_eq!(
        load_tree(tag(), &parse("a =\n    .title = T\n").unwrap()).err(),
        Some(LoadError::MissingValue)
    );
}
