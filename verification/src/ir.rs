//! The content model: project, category, locale unit map, translation unit.
//!
//! Every level is held in ascending key order, so that whatever is derived
//! from a project comes out the same each time.

use vstd::prelude::*;
use crate::error::Error;
use crate::ident::{CIdentifier, TUIdentifier};
use crate::keyed::{BTreeKeyedSet, Keyed};
use crate::locale::LocaleTag;
use crate::ordered::OrderedMap;
use crate::order::text_lt;

verus! {

/// A translation unit as a mathematical value: its identifier, its main
/// text, and its attribute texts by attribute identifier.
pub struct UnitView {
    pub key: Seq<char>,
    pub main: Seq<char>,
    pub attributes: Map<Seq<char>, Seq<char>>,
}

/// The texts that a map of strings holds.
pub open spec fn texts_of(m: Map<Seq<char>, String>) -> Map<Seq<char>, Seq<char>> {
    m.map_values(|s: String| s@)
}

/// The units that a map of units holds, as mathematical values.
pub open spec fn units_of(m: Map<Seq<char>, TranslationUnit>) -> Map<Seq<char>, UnitView> {
    m.map_values(|u: TranslationUnit| u@)
}

/// The smallest translatable entity: an identifier, a main text and named
/// attribute texts. The texts are as their author wrote them.
#[derive(Clone, Debug)]
pub struct TranslationUnit {
    pub key: TUIdentifier,
    pub main: String,
    pub attributes: OrderedMap<TUIdentifier, String>,
}

impl View for TranslationUnit {
    type V = UnitView;

    open spec fn view(&self) -> UnitView {
        UnitView { key: self.key@, main: self.main@, attributes: texts_of(self.attributes@) }
    }
}

impl TranslationUnit {
    /// The invariant: the attributes are in order.
    pub open spec fn wf(&self) -> bool {
        self.attributes.wf()
    }

    /// A unit without attributes.
    pub fn new(key: TUIdentifier, main: String) -> (unit: TranslationUnit)
        ensures
            unit.wf(),
            unit.key@ == key@,
            unit.main@ == main@,
            unit.attributes.key_texts().len() == 0,
    {
        TranslationUnit { key, main, attributes: OrderedMap::new() }
    }
}

impl Keyed<TUIdentifier> for TranslationUnit {
    open spec fn key_text(&self) -> Seq<char> {
        self.key@
    }

    fn key(&self) -> (k: TUIdentifier) {
        self.key.clone()
    }
}

/// The translation units of one locale.
#[derive(Clone, Debug)]
pub struct TranslationUnitMap {
    pub locale: LocaleTag,
    pub translation_units: BTreeKeyedSet<TUIdentifier, TranslationUnit>,
}

impl TranslationUnitMap {
    /// The invariant: the units are in order, each under its identifier, and
    /// each is valid.
    pub open spec fn wf(&self) -> bool {
        &&& self.translation_units.wf()
        &&& forall|i: int| 0 <= i < self.translation_units.values().len() ==>
            (#[trigger] self.translation_units.values()[i]).wf()
    }

    /// The units by identifier, as mathematical values.
    pub open spec fn units(&self) -> Map<Seq<char>, UnitView> {
        units_of(self.translation_units@)
    }

    /// The empty unit map of `locale`.
    pub fn new(locale: LocaleTag) -> (map: TranslationUnitMap)
        ensures
            map.wf(),
            map.locale@ == locale@,
            map.translation_units.values().len() == 0,
            map.units() == Map::<Seq<char>, UnitView>::empty(),
    {
        let map = TranslationUnitMap { locale, translation_units: BTreeKeyedSet::new() };
        assert(map.units() =~= Map::<Seq<char>, UnitView>::empty());
        map
    }

    /// Puts `unit` under its identifier; a unit that stood there is replaced
    /// and handed back.
    pub fn insert(&mut self, unit: TranslationUnit) -> (previous: Option<TranslationUnit>)
        requires
            old(self).wf(),
            unit.wf(),
        ensures
            final(self).wf(),
            final(self).locale == old(self).locale,
            final(self).translation_units@ == old(self).translation_units@.insert(unit.key@, unit),
            final(self).units() == old(self).units().insert(unit.key@, unit@),
            match previous {
                Some(u) => old(self).translation_units@.contains_key(unit.key@) && u == old(self).translation_units@[unit.key@],
                None => !old(self).translation_units@.contains_key(unit.key@),
            },
    {
        let ghost before = self.translation_units;
        let previous = self.translation_units.insert(unit);
        proof {
            let after = self.translation_units;
            assert forall|i: int| 0 <= i < after.values().len() implies (#[trigger] after.values()[i]).wf() by {
                after.lemma_value_at(i);
                let t = after.values()[i].key_text();
                if t != unit.key@ {
                    let j = before.lemma_position_of(t);
                }
            }
            assert(self.units() =~= old(self).units().insert(unit.key@, unit@));
        }
        previous
    }
}

impl TranslationUnitMap {
    /// Puts `text` under `attribute` in the unit `unit`, if the map holds
    /// that unit; says whether it does. An attribute text that stood there
    /// is replaced. Everything else stays.
    pub fn set_attribute(
        &mut self,
        unit: &TUIdentifier,
        attribute: TUIdentifier,
        text: String,
    ) -> (found: bool)
        requires
            old(self).wf(),
        ensures
            final(self).wf(),
            final(self).locale == old(self).locale,
            found == old(self).units().contains_key(unit@),
            found ==> final(self).units() == old(self).units().insert(
                unit@,
                (UnitView {
                    key: unit@,
                    main: old(self).units()[unit@].main,
                    attributes: old(self).units()[unit@].attributes.insert(attribute@, text@),
                }),
            ),
            !found ==> final(self).units() == old(self).units(),
    {
        let ghost before = self.translation_units;
        let taken = self.translation_units.remove(unit);
        proof {
            let mid = self.translation_units;
            assert forall|i: int| 0 <= i < mid.values().len() implies (#[trigger] mid.values()[i]).wf() by {
                mid.lemma_value_at(i);
                let k = before.lemma_position_of(mid.values()[i].key_text());
            }
        }
        match taken {
            Some(mut u) => {
                proof {
                    let j = before.lemma_position_of(unit@);
                }
                let ghost old_attributes = u.attributes@;
                u.attributes.insert(attribute, text);
                assert(texts_of(u.attributes@) =~= texts_of(old_attributes).insert(attribute@, text@));
                let ghost removed = self.units();
                assert(removed =~= old(self).units().remove(unit@));
                self.insert(u);
                assert(self.units() =~= old(self).units().insert(unit@, u@));
                true
            },
            None => {
                assert(self.translation_units@ =~= before@);
                assert(self.units() =~= old(self).units());
                false
            },
        }
    }
}

impl Keyed<LocaleTag> for TranslationUnitMap {
    open spec fn key_text(&self) -> Seq<char> {
        self.locale@
    }

    fn key(&self) -> (k: LocaleTag) {
        self.locale.clone()
    }
}

/// A named group of translation units that share a default locale.
#[derive(Clone, Debug)]
pub struct Category {
    key: CIdentifier,
    name: String,
    default_locale: LocaleTag,
    descriptions: OrderedMap<TUIdentifier, String>,
    translation_units: BTreeKeyedSet<LocaleTag, TranslationUnitMap>,
}

impl Category {
    /// The text of the category's identifier.
    pub closed spec fn key_text(&self) -> Seq<char> {
        self.key@
    }

    /// The display name.
    pub closed spec fn name_text(&self) -> Seq<char> {
        self.name@
    }

    /// The tag of the default locale.
    pub closed spec fn default_text(&self) -> Seq<char> {
        self.default_locale@
    }

    /// The descriptions, by unit identifier.
    pub closed spec fn description_map(&self) -> OrderedMap<TUIdentifier, String> {
        self.descriptions
    }

    /// The unit maps, by locale tag.
    pub closed spec fn locales(&self) -> BTreeKeyedSet<LocaleTag, TranslationUnitMap> {
        self.translation_units
    }

    /// The invariant: everything is in order, every unit map is valid, and
    /// the default locale has a unit map.
    pub open spec fn wf(&self) -> bool {
        &&& self.description_map().wf()
        &&& self.locales().wf()
        &&& forall|i: int| 0 <= i < self.locales().values().len() ==>
            (#[trigger] self.locales().values()[i]).wf()
        &&& self.locales()@.contains_key(self.default_text())
    }

    /// The unit map of the default locale.
    pub open spec fn base(&self) -> TranslationUnitMap {
        self.locales()@[self.default_text()]
    }

    /// The default-locale law: a valid category holds a unit map for its
    /// default locale, and that unit map bears the default locale's tag.
    pub proof fn lemma_default_locale_present(&self)
        requires
            self.wf(),
        ensures
            self.locales()@.contains_key(self.default_text()),
            self.base().locale@ == self.default_text(),
            self.base().wf(),
    {
        let i = self.locales().lemma_position_of(self.default_text());
    }

    /// A category of the given parts. It is refused with
    /// `MissingDefaultLocale` if and only if `translation_units` holds no
    /// unit map for `default_locale`.
    pub fn new(
        key: CIdentifier,
        name: String,
        default_locale: LocaleTag,
        descriptions: OrderedMap<TUIdentifier, String>,
        translation_units: BTreeKeyedSet<LocaleTag, TranslationUnitMap>,
    ) -> (r: Result<Category, Error>)
        requires
            descriptions.wf(),
            translation_units.wf(),
            forall|i: int| 0 <= i < translation_units.values().len() ==>
                (#[trigger] translation_units.values()[i]).wf(),
        ensures
            translation_units@.contains_key(default_locale@) ==> r is Ok && {
                let c = r->Ok_0;
                &&& c.wf()
                &&& c.key_text() == key@
                &&& c.name_text() == name@
                &&& c.default_text() == default_locale@
                &&& c.description_map() == descriptions
                &&& c.locales() == translation_units
            },
            !translation_units@.contains_key(default_locale@) ==> r == Err::<Category, Error>(Error::MissingDefaultLocale),
    {
        if translation_units.contains_key(&default_locale) {
            Ok(Category { key, name, default_locale, descriptions, translation_units })
        } else {
            Err(Error::MissingDefaultLocale)
        }
    }

    /// The identifier.
    pub fn id(&self) -> (k: &CIdentifier)
        ensures
            k@ == self.key_text(),
    {
        &self.key
    }

    /// The display name.
    pub fn name(&self) -> (s: &str)
        ensures
            s@ == self.name_text(),
    {
        self.name.as_str()
    }

    /// The default locale.
    pub fn default_locale(&self) -> (tag: &LocaleTag)
        ensures
            tag@ == self.default_text(),
    {
        &self.default_locale
    }

    /// The descriptions, by unit identifier.
    pub fn descriptions(&self) -> (d: &OrderedMap<TUIdentifier, String>)
        ensures
            *d == self.description_map(),
    {
        &self.descriptions
    }

    /// The unit maps, by locale tag.
    pub fn translation_units(&self) -> (s: &BTreeKeyedSet<LocaleTag, TranslationUnitMap>)
        ensures
            *s == self.locales(),
    {
        &self.translation_units
    }

    /// The unit map of the default locale. A valid category always has one.
    pub fn base_strings(&self) -> (map: &TranslationUnitMap)
        requires
            self.wf(),
        ensures
            *map == self.base(),
            map.locale@ == self.default_text(),
            map.wf(),
    {
        let found = self.translation_units.get(&self.default_locale);
        proof {
            let i = self.translation_units.lemma_position_of(self.default_locale@);
        }
        found.unwrap()
    }

    /// Puts `map` under its locale; a unit map that stood there is replaced
    /// and handed back. The other locales stay.
    pub fn insert(&mut self, map: TranslationUnitMap) -> (previous: Option<TranslationUnitMap>)
        requires
            old(self).wf(),
            map.wf(),
        ensures
            final(self).wf(),
            final(self).key_text() == old(self).key_text(),
            final(self).name_text() == old(self).name_text(),
            final(self).default_text() == old(self).default_text(),
            final(self).description_map() == old(self).description_map(),
            final(self).locales()@ == old(self).locales()@.insert(map.locale@, map),
            match previous {
                Some(m) => old(self).locales()@.contains_key(map.locale@) && m == old(self).locales()@[map.locale@],
                None => !old(self).locales()@.contains_key(map.locale@),
            },
    {
        let ghost before = self.translation_units;
        let previous = self.translation_units.insert(map);
        proof {
            let after = self.translation_units;
            assert forall|i: int| 0 <= i < after.values().len() implies (#[trigger] after.values()[i]).wf() by {
                after.lemma_value_at(i);
                let t = after.values()[i].key_text();
                if t != map.locale@ {
                    let j = before.lemma_position_of(t);
                }
            }
        }
        previous
    }
}

/// Whether `base` has every unit of `other`, and of each of them every
/// attribute.
pub open spec fn covers(base: Map<Seq<char>, UnitView>, other: Map<Seq<char>, UnitView>) -> bool {
    forall|t: Seq<char>| #[trigger]
        other.contains_key(t) ==> base.contains_key(t) && other[t].attributes.dom().subset_of(
            base[t].attributes.dom(),
        )
}

/// The order in which the locales of a category are shown: the default
/// locale first, then the others in ascending order.
pub open spec fn locale_order(keys: Seq<Seq<char>>, default: Seq<char>) -> Seq<Seq<char>> {
    seq![default] + keys.remove(keys.index_of(default))
}

/// The identity keys of one unit: the unit alone, then the unit with each
/// of its attributes in ascending order.
pub open spec fn unit_identity_keys(u: TranslationUnit) -> Seq<(Seq<char>, Option<Seq<char>>)> {
    seq![(u.key@, None::<Seq<char>>)] + Seq::new(
        u.attributes.key_texts().len(),
        |i: int| (u.key@, Some(u.attributes.key_texts()[i])),
    )
}

/// The identity keys of the first `n` of `units`, unit after unit.
pub open spec fn identity_keys(units: Seq<TranslationUnit>, n: nat) -> Seq<(Seq<char>, Option<Seq<char>>)>
    decreases n,
{
    if n == 0 || n > units.len() {
        Seq::empty()
    } else {
        identity_keys(units, (n - 1) as nat) + unit_identity_keys(units[n - 1])
    }
}

/// An identity key as a mathematical value.
pub open spec fn identity_view(k: (&TUIdentifier, Option<&TUIdentifier>)) -> (Seq<char>, Option<Seq<char>>) {
    (
        k.0@,
        match k.1 {
            Some(a) => Some(a@),
            None => None,
        },
    )
}

fn unit_covers(base: &TranslationUnit, other: &TranslationUnit) -> (b: bool)
    requires
        base.wf(),
        other.wf(),
    ensures
        b == other@.attributes.dom().subset_of(base@.attributes.dom()),
{
    let n = other.attributes.len();
    let mut i: usize = 0;
    while i < n
        invariant
            i <= n,
            n == other.attributes.key_texts().len(),
            base.wf(),
            other.wf(),
            forall|j: int| 0 <= j < i ==>
                base@.attributes.contains_key(#[trigger] other.attributes.key_texts()[j]),
        decreases n - i,
    {
        let key = other.attributes.key_at(i);
        if !base.attributes.contains_key(key) {
            proof {
                crate::ordered::lemma_zip_map_at(
                    other.attributes.key_texts(),
                    other.attributes.values(),
                    i as int,
                );
                assert(other@.attributes.dom().contains(key@));
            }
            return false;
        }
        i += 1;
    }
    proof {
        assert forall|t: Seq<char>| other@.attributes.dom().contains(t) implies base@.attributes.dom().contains(
            t,
        ) by {
            let j = other.attributes.key_texts().index_of(t);
            assert(other.attributes.key_texts()[j] == t);
        }
    }
    true
}

fn map_covers(base: &TranslationUnitMap, other: &TranslationUnitMap) -> (b: bool)
    requires
        base.wf(),
        other.wf(),
    ensures
        b == covers(base.units(), other.units()),
{
    let n = other.translation_units.len();
    let mut i: usize = 0;
    while i < n
        invariant
            i <= n,
            n == other.translation_units.values().len(),
            base.wf(),
            other.wf(),
            forall|j: int|
                0 <= j < i ==> {
                    let t = (#[trigger] other.translation_units.values()[j]).key@;
                    base.units().contains_key(t) && other.units()[t].attributes.dom().subset_of(
                        base.units()[t].attributes.dom(),
                    )
                },
        decreases n - i,
    {
        let unit = other.translation_units.value_at(i);
        proof {
            other.translation_units.lemma_value_at(i as int);
        }
        let covered = match base.translation_units.get(&unit.key) {
            Some(base_unit) => {
                proof {
                    let k = base.translation_units.lemma_position_of(unit.key@);
                }
                unit_covers(base_unit, unit)
            },
            None => false,
        };
        if !covered {
            assert(other.units().contains_key(unit.key@));
            return false;
        }
        i += 1;
    }
    proof {
        assert forall|t: Seq<char>| #[trigger] other.units().contains_key(t) implies base.units().contains_key(t)
            && other.units()[t].attributes.dom().subset_of(base.units()[t].attributes.dom()) by {
            let j = other.translation_units.lemma_position_of(t);
            assert(other.translation_units.values()[j].key@ == t);
        }
    }
    true
}

impl Category {
    /// Whether the default locale has every unit and every attribute that
    /// any locale of the category has.
    pub open spec fn base_covers_all(&self) -> bool {
        forall|i: int| 0 <= i < self.locales().values().len() ==> covers(
            self.base().units(),
            (#[trigger] self.locales().values()[i]).units(),
        )
    }

    /// Checks that no locale defines a unit or an attribute that the
    /// default locale lacks; `MissingBaseUnit` where one does.
    pub fn check_base_units(&self) -> (r: Result<(), Error>)
        requires
            self.wf(),
        ensures
            self.base_covers_all() ==> r is Ok,
            !self.base_covers_all() ==> r == Err::<(), Error>(Error::MissingBaseUnit),
    {
        let base = self.base_strings();
        let n = self.translation_units.len();
        let mut i: usize = 0;
        while i < n
            invariant
                i <= n,
                n == self.locales().values().len(),
                self.wf(),
                base.wf(),
                *base == self.base(),
                forall|j: int| 0 <= j < i ==>
                    covers(self.base().units(), (#[trigger] self.locales().values()[j]).units()),
            decreases n - i,
        {
            if !map_covers(base, self.translation_units.value_at(i)) {
                return Err(Error::MissingBaseUnit);
            }
            i += 1;
        }
        Ok(())
    }

    /// The locales in the order in which they are shown: the default locale
    /// first, then the others in ascending order.
    pub fn ordered_locale_keys(&self) -> (out: Vec<&LocaleTag>)
        requires
            self.wf(),
        ensures
            Seq::new(out@.len(), |i: int| out@[i]@) == locale_order(self.locales().key_texts(), self.default_text()),
    {
        let mut out: Vec<&LocaleTag> = Vec::new();
        out.push(&self.default_locale);
        let n = self.translation_units.len();
        let ghost keys = self.locales().key_texts();
        let at = self.translation_units.position(&self.default_locale).unwrap();
        proof {
            crate::ordered::lemma_positions_unique(keys, at as int, keys.index_of(self.default_text()));
        }
        let ghost rest = keys.remove(at as int);
        let mut i: usize = 0;
        while i < n
            invariant
                i <= n,
                at < n,
                n == keys.len(),
                self.wf(),
                keys == self.locales().key_texts(),
                rest == keys.remove(at as int),
                Seq::new(out@.len(), |k: int| out@[k]@) == seq![self.default_text()] + rest.take(
                    if i <= at { i as int } else { i - 1 },
                ),
            decreases n - i,
        {
            if i != at {
                let ghost so_far = Seq::new(out@.len(), |k: int| out@[k]@);
                let ghost m = if i <= at { i as int } else { i - 1 };
                out.push(self.translation_units.key_at(i));
                assert(rest[m] == keys[i as int]);
                assert(Seq::new(out@.len(), |k: int| out@[k]@) =~= so_far.push(keys[i as int]));
                assert(rest.take(m + 1) =~= rest.take(m).push(rest[m]));
            }
            i += 1;
        }
        assert(rest.take(n - 1) =~= rest);
        out
    }

    /// The identity keys of the category: for each unit of the default
    /// locale in ascending order, the unit alone and then the unit with each
    /// of its attributes.
    pub fn ordered_tu_identity_keys(&self) -> (out: Vec<(&TUIdentifier, Option<&TUIdentifier>)>)
        requires
            self.wf(),
        ensures
            Seq::new(out@.len(), |i: int| identity_view(out@[i])) == identity_keys(
                self.base().translation_units.values(),
                self.base().translation_units.values().len(),
            ),
    {
        let base = self.base_strings();
        let mut out: Vec<(&TUIdentifier, Option<&TUIdentifier>)> = Vec::new();
        let ghost units = base.translation_units.values();
        let n = base.translation_units.len();
        assert(Seq::new(out@.len(), |k: int| identity_view(out@[k])) =~= identity_keys(units, 0));
        let mut i: usize = 0;
        while i < n
            invariant
                i <= n,
                n == units.len(),
                units == base.translation_units.values(),
                Seq::new(out@.len(), |k: int| identity_view(out@[k])) == identity_keys(units, i as nat),
            decreases n - i,
        {
            let unit = base.translation_units.value_at(i);
            let ghost before = Seq::new(out@.len(), |k: int| identity_view(out@[k]));
            out.push((&unit.key, None));
            assert(Seq::new(out@.len(), |k: int| identity_view(out@[k])) =~= before + unit_identity_keys(
                *unit,
            ).take(1));
            let m = unit.attributes.len();
            let mut j: usize = 0;
            while j < m
                invariant
                    j <= m,
                    m == unit.attributes.key_texts().len(),
                    Seq::new(out@.len(), |k: int| identity_view(out@[k])) == before + unit_identity_keys(
                        *unit,
                    ).take(j + 1),
                decreases m - j,
            {
                let ghost so_far = Seq::new(out@.len(), |k: int| identity_view(out@[k]));
                out.push((&unit.key, Some(unit.attributes.key_at(j))));
                assert(Seq::new(out@.len(), |k: int| identity_view(out@[k])) =~= so_far.push(
                    unit_identity_keys(*unit)[j + 1],
                ));
                assert(unit_identity_keys(*unit).take(j + 2) =~= unit_identity_keys(*unit).take(j + 1).push(
                    unit_identity_keys(*unit)[j + 1],
                ));
                j += 1;
            }
            assert(unit_identity_keys(*unit).take(m + 1) =~= unit_identity_keys(*unit));
            i += 1;
        }
        out
    }
}

impl Keyed<CIdentifier> for Category {
    open spec fn key_text(&self) -> Seq<char> {
        Category::key_text(self)
    }

    fn key(&self) -> (k: CIdentifier) {
        self.key.clone()
    }
}

/// A project: a display name, an optional default locale and its categories.
#[derive(Clone, Debug)]
pub struct Project {
    pub name: String,
    pub default_locale: Option<LocaleTag>,
    pub categories: BTreeKeyedSet<CIdentifier, Category>,
}

impl Project {
    /// The invariant: the categories are in order, each under its
    /// identifier, and each is valid.
    pub open spec fn wf(&self) -> bool {
        &&& self.categories.wf()
        &&& forall|i: int| 0 <= i < self.categories.values().len() ==>
            (#[trigger] self.categories.values()[i]).wf()
    }

    /// The order law: walking a valid project level by level, the
    /// identifiers of the categories ascend strictly, within each category
    /// the locale tags do, and within each locale the unit identifiers do.
    pub proof fn lemma_iteration_ascends(&self)
        requires
            self.wf(),
        ensures
            forall|a: int, b: int|
                0 <= a < b < self.categories.values().len() ==> text_lt(
                    #[trigger] self.categories.values()[a].key_text(),
                    #[trigger] self.categories.values()[b].key_text(),
                ),
            forall|c: int, a: int, b: int|
                0 <= c < self.categories.values().len() && 0 <= a < b
                    < self.categories.values()[c].locales().values().len() ==> text_lt(
                    (#[trigger] self.categories.values()[c].locales().values()[a]).locale@,
                    (#[trigger] self.categories.values()[c].locales().values()[b]).locale@,
                ),
            forall|c: int, l: int, a: int, b: int|
                0 <= c < self.categories.values().len() && 0 <= l
                    < self.categories.values()[c].locales().values().len() && 0 <= a < b
                    < self.categories.values()[c].locales().values()[l].translation_units.values().len()
                    ==> text_lt(
                    (#[trigger] self.categories.values()[c].locales().values()[l].translation_units.values()[a]).key@,
                    (#[trigger] self.categories.values()[c].locales().values()[l].translation_units.values()[b]).key@,
                ),
    {
        let cats = self.categories;
        assert forall|a: int, b: int| 0 <= a < b < cats.values().len() implies text_lt(
            #[trigger] cats.values()[a].key_text(),
            #[trigger] cats.values()[b].key_text(),
        ) by {
            cats.lemma_ascending(a, b);
        }
        assert forall|c: int, a: int, b: int|
            0 <= c < cats.values().len() && 0 <= a < b < cats.values()[c].locales().values().len() implies text_lt(
            (#[trigger] cats.values()[c].locales().values()[a]).locale@,
            (#[trigger] cats.values()[c].locales().values()[b]).locale@,
        ) by {
            assert(cats.values()[c].wf());
            cats.values()[c].locales().lemma_ascending(a, b);
        }
        assert forall|c: int, l: int, a: int, b: int|
            0 <= c < cats.values().len() && 0 <= l < cats.values()[c].locales().values().len() && 0 <= a < b
                < cats.values()[c].locales().values()[l].translation_units.values().len() implies text_lt(
            (#[trigger] cats.values()[c].locales().values()[l].translation_units.values()[a]).key@,
            (#[trigger] cats.values()[c].locales().values()[l].translation_units.values()[b]).key@,
        ) by {
            assert(cats.values()[c].wf());
            assert(cats.values()[c].locales().values()[l].wf());
            cats.values()[c].locales().values()[l].translation_units.lemma_ascending(a, b);
        }
    }
}

impl Default for Project {
    fn default() -> (p: Project)
        ensures
            p.wf(),
            p.name@ == "Untitled"@,
            p.default_locale is None,
            p.categories.values().len() == 0,
    {
        Project { name: "Untitled".to_owned(), default_locale: None, categories: BTreeKeyedSet::new() }
    }
}

} // verus!
