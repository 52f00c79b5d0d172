//! Putting a project together from what was read: the manifest's data and
//! the source text of each locale.

use vstd::prelude::*;
use crate::error::{diagnostics_view, DiagnosticView, Error, ParseDiagnostic};
use crate::export::CategoryConfig;
use crate::flt::{entries_named, messages_valued, tree_units};
use crate::ident::CIdentifier;
use crate::ir::{texts_of, Category, Project, TranslationUnitMap, UnitView};
use crate::keyed::BTreeKeyedSet;
use crate::locale::{canonical_locale, LocaleTag};
use crate::ordered::OrderedMap;
use crate::parser::{escapes_safe, parse, parse_outcome, ParseFailure};
use crate::tree::{SyntaxTree, TreeEntry};

verus! {

/// The source text of one locale, with the name of the locale as it was
/// found.
#[derive(Clone, Debug, PartialEq, Eq)]
pub struct LocaleSource {
    pub locale: String,
    pub source: String,
}

/// What was read of one category: what the manifest says of it, and the
/// source texts of its locales.
#[derive(Clone, Debug, PartialEq, Eq)]
pub struct CategorySource {
    pub config: CategoryConfig,
    pub locales: Vec<LocaleSource>,
}

/// Why a project could not be put together.
#[derive(Clone, Debug, PartialEq, Eq)]
pub enum LoadError {
    /// The name of a locale spells no language identifier.
    InvalidLocale,
    /// A source text holds an escape that is cut short by a character
    /// outside ASCII; the parser is not handed such a text.
    UnfinishedEscape,
    /// A source text does not parse; the parser's diagnostics.
    InvalidSource(Vec<ParseDiagnostic>),
    /// A message has no value.
    MissingValue,
    /// A category, a message or an attribute has no name.
    InvalidIdentifier,
    /// A category has no source text for its default locale.
    MissingDefaultLocale,
}

/// A failure to load as a mathematical value.
pub enum LoadFault {
    InvalidLocale,
    UnfinishedEscape,
    InvalidSource(Seq<DiagnosticView>),
    MissingValue,
    InvalidIdentifier,
    MissingDefaultLocale,
}

impl View for LoadError {
    type V = LoadFault;

    open spec fn view(&self) -> LoadFault {
        match self {
            LoadError::InvalidLocale => LoadFault::InvalidLocale,
            LoadError::UnfinishedEscape => LoadFault::UnfinishedEscape,
            LoadError::InvalidSource(list) => LoadFault::InvalidSource(diagnostics_view(list@)),
            LoadError::MissingValue => LoadFault::MissingValue,
            LoadError::InvalidIdentifier => LoadFault::InvalidIdentifier,
            LoadError::MissingDefaultLocale => LoadFault::MissingDefaultLocale,
        }
    }
}

/// The units of a locale, by identifier.
pub type Units = Map<Seq<char>, UnitView>;

/// A category as a mathematical value: its identifier, its name, its
/// default locale, its descriptions by unit identifier, and the units of
/// its locales by locale tag.
pub struct CategoryView {
    pub key: Seq<char>,
    pub name: Seq<char>,
    pub default_locale: Seq<char>,
    pub descriptions: Map<Seq<char>, Seq<char>>,
    pub locales: Map<Seq<char>, Units>,
}

/// The units of the unit maps of a set, by locale tag.
pub open spec fn locale_units(maps: Map<Seq<char>, TranslationUnitMap>) -> Map<Seq<char>, Units> {
    maps.map_values(|m: TranslationUnitMap| m.units())
}

/// What a category holds.
pub open spec fn category_view(c: Category) -> CategoryView {
    CategoryView {
        key: c.key_text(),
        name: c.name_text(),
        default_locale: c.default_text(),
        descriptions: texts_of(c.description_map()@),
        locales: locale_units(c.locales()@),
    }
}

/// What the categories of a set hold, by identifier.
pub open spec fn category_views(categories: Map<Seq<char>, Category>) -> Map<Seq<char>, CategoryView> {
    categories.map_values(|c: Category| category_view(c))
}

/// What the entries of a tree give: the units of `tree_units`, unless a
/// message has no value or something has no name.
pub open spec fn tree_outcome(body: Seq<TreeEntry>) -> Result<Units, LoadFault> {
    if !messages_valued(body) {
        Err(LoadFault::MissingValue)
    } else if !entries_named(body) {
        Err(LoadFault::InvalidIdentifier)
    } else {
        Ok(tree_units(body, body.len()))
    }
}

/// What the source text of a locale gives: the canonical tag of the locale
/// and the units of the tree that the parser makes of the text. The name of
/// the locale is checked first, then the escapes of the text, then what the
/// parser says, then the tree.
pub open spec fn locale_outcome(locale: Seq<char>, source: Seq<char>) -> Result<(Seq<char>, Units), LoadFault> {
    match canonical_locale(locale) {
        None => Err(LoadFault::InvalidLocale),
        Some(tag) => if !escapes_safe(source) {
            Err(LoadFault::UnfinishedEscape)
        } else {
            match parse_outcome(source) {
                Err(diagnostics) => Err(LoadFault::InvalidSource(diagnostics)),
                Ok(entries) => match tree_outcome(entries) {
                    Ok(units) => Ok((tag, units)),
                    Err(fault) => Err(fault),
                },
            }
        },
    }
}

/// What the first `n` source texts give, one after the other: the units by
/// locale tag, of two texts for one locale those of the later one; or the
/// failure of the first text that fails.
pub open spec fn locales_outcome(sources: Seq<LocaleSource>, n: nat) -> Result<Map<Seq<char>, Units>, LoadFault>
    decreases n,
{
    if n == 0 || n > sources.len() {
        Ok(Map::empty())
    } else {
        match locales_outcome(sources, (n - 1) as nat) {
            Err(fault) => Err(fault),
            Ok(maps) => match locale_outcome(sources[n - 1].locale@, sources[n - 1].source@) {
                Err(fault) => Err(fault),
                Ok((tag, units)) => Ok(maps.insert(tag, units)),
            },
        }
    }
}

/// What was read of a category gives: the category, without descriptions,
/// unless its identifier
/// is empty, its default locale spells no language identifier, one of its
/// source texts fails, or none of them is for the default locale; checked
/// in that order.
pub open spec fn category_outcome(category: CategorySource) -> Result<CategoryView, LoadFault> {
    if category.config.key@.len() == 0 {
        Err(LoadFault::InvalidIdentifier)
    } else {
        match canonical_locale(category.config.default_locale@) {
            None => Err(LoadFault::InvalidLocale),
            Some(tag) => match locales_outcome(category.locales@, category.locales@.len()) {
                Err(fault) => Err(fault),
                Ok(locales) => if locales.contains_key(tag) {
                    Ok(
                        CategoryView {
                            key: category.config.key@,
                            name: category.config.name@,
                            default_locale: tag,
                            descriptions: Map::empty(),
                            locales,
                        },
                    )
                } else {
                    Err(LoadFault::MissingDefaultLocale)
                },
            },
        }
    }
}

/// What the first `n` categories give, one after the other: the categories
/// by identifier, of two with one identifier the later one; or the failure
/// of the first category that fails.
pub open spec fn categories_outcome(categories: Seq<CategorySource>, n: nat) -> Result<
    Map<Seq<char>, CategoryView>,
    LoadFault,
>
    decreases n,
{
    if n == 0 || n > categories.len() {
        Ok(Map::empty())
    } else {
        match categories_outcome(categories, (n - 1) as nat) {
            Err(fault) => Err(fault),
            Ok(views) => match category_outcome(categories[n - 1]) {
                Err(fault) => Err(fault),
                Ok(view) => Ok(views.insert(view.key, view)),
            },
        }
    }
}

/// What was read of a project gives: its default locale in canonical form,
/// if it has one, and its categories; the default locale is checked first.
pub open spec fn project_outcome(default_locale: Option<&str>, categories: Seq<CategorySource>) -> Result<
    (Option<Seq<char>>, Map<Seq<char>, CategoryView>),
    LoadFault,
> {
    let tag = match default_locale {
        Some(text) => canonical_locale(text@),
        None => None,
    };
    if default_locale is Some && tag is None {
        Err(LoadFault::InvalidLocale)
    } else {
        match categories_outcome(categories, categories.len()) {
            Err(fault) => Err(fault),
            Ok(views) => Ok((tag, views)),
        }
    }
}

/// A failure stays: the source texts that fail after `n` of them fail the
/// same way after more of them.
pub proof fn lemma_locale_failure_stays(sources: Seq<LocaleSource>, n: nat, m: nat)
    requires
        locales_outcome(sources, n) is Err,
        n <= m <= sources.len(),
    ensures
        locales_outcome(sources, m) == locales_outcome(sources, n),
    decreases m,
{
    if n < m {
        lemma_locale_failure_stays(sources, n, (m - 1) as nat);
    }
}

/// A failure stays: the categories that fail after `n` of them fail the
/// same way after more of them.
pub proof fn lemma_category_failure_stays(categories: Seq<CategorySource>, n: nat, m: nat)
    requires
        categories_outcome(categories, n) is Err,
        n <= m <= categories.len(),
    ensures
        categories_outcome(categories, m) == categories_outcome(categories, n),
    decreases m,
{
    if n < m {
        lemma_category_failure_stays(categories, n, (m - 1) as nat);
    }
}

/// The unit map of `locale` that a parsed tree gives: that of
/// `from_flt_resource`.
pub fn load_tree(locale: LocaleTag, tree: &SyntaxTree) -> (r: Result<TranslationUnitMap, LoadError>)
    ensures
        match tree_outcome(tree.body@) {
            Ok(units) => r matches Ok(map) && map.wf() && map.locale@ == locale@ && map.units() == units,
            Err(fault) => r matches Err(e) && e@ == fault,
        },
{
    match TranslationUnitMap::from_flt_resource(locale, tree) {
        Ok(map) => Ok(map),
        Err(Error::MissingValue) => Err(LoadError::MissingValue),
        Err(_) => Err(LoadError::InvalidIdentifier),
    }
}

/// The unit map that the source text of a locale gives: the units of the
/// tree that the parser makes of the text, under the canonical tag of the
/// locale.
pub fn load_locale(locale: &str, source: &str) -> (r: Result<TranslationUnitMap, LoadError>)
    ensures
        match locale_outcome(locale@, source@) {
            Ok((tag, units)) => r matches Ok(map) && map.wf() && map.locale@ == tag && map.units() == units,
            Err(fault) => r matches Err(e) && e@ == fault,
        },
{
    let tag = match LocaleTag::parse(locale) {
        Some(tag) => tag,
        None => {
            return Err(LoadError::InvalidLocale);
        },
    };
    let tree = match parse(source) {
        Ok(tree) => tree,
        Err(ParseFailure::UnfinishedEscape) => {
            return Err(LoadError::UnfinishedEscape);
        },
        Err(ParseFailure::Diagnostics(list)) => {
            return Err(LoadError::InvalidSource(list));
        },
    };
    load_tree(tag, &tree)
}

/// The category that the manifest's data and the source texts of its
/// locales give. Of two source texts for one locale the later one stays.
///
/// The identifier is checked first, then the default locale, then the
/// locales one after the other; at the end the default locale must be among
/// them. The category has no descriptions.
pub fn load_category(category: &CategorySource) -> (r: Result<Category, LoadError>)
    ensures
        match category_outcome(*category) {
            Ok(view) => r matches Ok(c) && c.wf() && category_view(c) == view
                && c.description_map().key_texts().len() == 0,
            Err(fault) => r matches Err(e) && e@ == fault,
        },
{
    let key = match CIdentifier::new(category.config.key.as_str()) {
        Ok(key) => key,
        Err(_) => {
            return Err(LoadError::InvalidIdentifier);
        },
    };
    let default_locale = match LocaleTag::parse(category.config.default_locale.as_str()) {
        Some(tag) => tag,
        None => {
            return Err(LoadError::InvalidLocale);
        },
    };
    let mut maps: BTreeKeyedSet<LocaleTag, TranslationUnitMap> = BTreeKeyedSet::new();
    let ghost sources = category.locales@;
    assert(locale_units(maps@) =~= Map::<Seq<char>, Units>::empty());
    let mut i: usize = 0;
    while i < category.locales.len()
        invariant
            i <= category.locales.len(),
            sources == category.locales@,
            category.config.key@.len() > 0,
            key@ == category.config.key@,
            canonical_locale(category.config.default_locale@) == Some(default_locale@),
            maps.wf(),
            forall|k: int| 0 <= k < maps.values().len() ==> (#[trigger] maps.values()[k]).wf(),
            locales_outcome(sources, i as nat) == Ok::<Map<Seq<char>, Units>, LoadFault>(locale_units(maps@)),
        decreases category.locales.len() - i,
    {
        let source = &category.locales[i];
        let map = match load_locale(source.locale.as_str(), source.source.as_str()) {
            Ok(map) => map,
            Err(e) => {
                proof {
                    lemma_locale_failure_stays(sources, (i + 1) as nat, sources.len());
                }
                return Err(e);
            },
        };
        let ghost before = maps;
        maps.insert(map);
        proof {
            assert forall|k: int| 0 <= k < maps.values().len() implies (#[trigger] maps.values()[k]).wf() by {
                maps.lemma_value_at(k);
                if maps.values()[k].locale@ != map.locale@ {
                    let j = before.lemma_position_of(maps.values()[k].locale@);
                }
            }
            assert(locale_units(maps@) =~= locale_units(before@).insert(map.locale@, map.units()));
        }
        i += 1;
    }
    let ghost loaded = maps@;
    match Category::new(key, category.config.name.clone(), default_locale, OrderedMap::new(), maps) {
        Ok(c) => {
            assert(category_view(c).locales == locale_units(loaded));
            assert(category_view(c).descriptions =~= Map::<Seq<char>, Seq<char>>::empty());
            Ok(c)
        },
        Err(_) => Err(LoadError::MissingDefaultLocale),
    }
}

/// The project that the manifest's data and the source texts give. Of two
/// categories with one identifier the later one stays.
///
/// The default locale of the project is checked first, then the categories
/// one after the other. No category has descriptions.
pub fn load_project(name: String, default_locale: Option<&str>, categories: &Vec<CategorySource>) -> (r: Result<
    Project,
    LoadError,
>)
    ensures
        match project_outcome(default_locale, categories@) {
            Ok((tag, views)) => {
                &&& r matches Ok(p)
                &&& p.wf()
                &&& p.name@ == name@
                &&& match tag {
                    Some(t) => p.default_locale matches Some(own) && own@ == t,
                    None => p.default_locale is None,
                }
                &&& category_views(p.categories@) == views
                &&& forall|k: int|
                    0 <= k < p.categories.values().len() ==> (#[trigger] p.categories.values()[k])
                        .description_map().key_texts().len() == 0
            },
            Err(fault) => r matches Err(e) && e@ == fault,
        },
{
    let project_locale = match default_locale {
        Some(text) => match LocaleTag::parse(text) {
            Some(tag) => Some(tag),
            None => {
                return Err(LoadError::InvalidLocale);
            },
        },
        None => None,
    };
    let mut set: BTreeKeyedSet<CIdentifier, Category> = BTreeKeyedSet::new();
    let ghost sources = categories@;
    assert(category_views(set@) =~= Map::<Seq<char>, CategoryView>::empty());
    let mut i: usize = 0;
    while i < categories.len()
        invariant
            i <= categories.len(),
            sources == categories@,
            default_locale matches Some(text) ==> canonical_locale(text@) is Some,
            set.wf(),
            forall|k: int|
                0 <= k < set.values().len() ==> (#[trigger] set.values()[k]).wf() && set.values()[k]
                    .description_map().key_texts().len() == 0,
            categories_outcome(sources, i as nat) == Ok::<Map<Seq<char>, CategoryView>, LoadFault>(
                category_views(set@),
            ),
        decreases categories.len() - i,
    {
        let category = match load_category(&categories[i]) {
            Ok(category) => category,
            Err(e) => {
                proof {
                    lemma_category_failure_stays(sources, (i + 1) as nat, sources.len());
                }
                return Err(e);
            },
        };
        let ghost before = set;
        set.insert(category);
        proof {
            assert forall|k: int| 0 <= k < set.values().len() implies (#[trigger] set.values()[k]).wf()
                && set.values()[k].description_map().key_texts().len() == 0 by {
                set.lemma_value_at(k);
                if set.values()[k].key_text() != category.key_text() {
                    let j = before.lemma_position_of(set.values()[k].key_text());
                }
            }
            assert(category_views(set@) =~= category_views(before@).insert(
                category.key_text(),
                category_view(category),
            ));
        }
        i += 1;
    }
    Ok(Project { name, default_locale: project_locale, categories: set })
}

} // verus!
