//! The law of the translation step: where every segment of a unit map is
//! answered, what is put together from the answers has exactly the units
//! of the map and, in each, exactly its attributes, and every text is the
//! restored answer to its own segment.

use vstd::prelude::*;
use crate::error::Error;
use crate::ident::{attribute_path_text, lemma_path_splits_back, path_attribute, path_owner};
use crate::ir::{TranslationUnit, TranslationUnitMap, UnitView};
use crate::ordered::lemma_positions_unique;
use crate::text::{lemma_first_match_at, occurs, starts_with};
use crate::translate::{
    assemble_step, assembled, paired, plain_unit, protected_text, restored_text, segment_views,
    segments_of, unit_segments, KeyedString, TranslationView,
};

verus! {

/// Whether a text can stand in a path: it is not empty, as every
/// identifier is, and holds no `__`.
pub open spec fn is_plain_id(t: Seq<char>) -> bool {
    t.len() > 0 && !occurs(t, seq!['_', '_'])
}

/// Whether the identifiers of a unit can be read back from the paths made
/// of them: the unit's and its attributes' can stand in a path, and the
/// unit's does not end in `_`.
pub open spec fn has_plain_ids(u: TranslationUnit) -> bool {
    &&& is_plain_id(u.key@)
    &&& u.key@.last() != '_'
    &&& forall|j: int|
        0 <= j < u.attributes.key_texts().len() ==> is_plain_id(#[trigger] u.attributes.key_texts()[j])
}

/// The attributes that the answers give the first `j` attributes of `u`,
/// where the segment of the unit's main text stands at `at`: each
/// attribute's text is the restored answer to its own segment.
pub open spec fn attributes_through(
    u: TranslationUnit,
    answers: Seq<String>,
    at: int,
    j: nat,
) -> Map<Seq<char>, Seq<char>>
    decreases j,
{
    if j == 0 || j > u.attributes.key_texts().len() {
        Map::empty()
    } else {
        attributes_through(u, answers, at, (j - 1) as nat).insert(
            u.attributes.key_texts()[j - 1],
            restored_text(answers[at + j]@),
        )
    }
}

/// The unit that the answers make of `u`, where the segment of its main
/// text stands at `at`.
pub open spec fn translated_unit(u: TranslationUnit, answers: Seq<String>, at: int) -> UnitView {
    UnitView {
        key: u.key@,
        main: restored_text(answers[at]@),
        attributes: attributes_through(u, answers, at, u.attributes.key_texts().len()),
    }
}

/// The units that the answers make of the first `n` of `units`.
pub open spec fn translated_units(
    units: Seq<TranslationUnit>,
    answers: Seq<String>,
    n: nat,
) -> Map<Seq<char>, UnitView>
    decreases n,
{
    if n == 0 || n > units.len() {
        Map::empty()
    } else {
        translated_units(units, answers, (n - 1) as nat).insert(
            units[n - 1].key@,
            translated_unit(units[n - 1], answers, segments_of(units, (n - 1) as nat).len() as int),
        )
    }
}

/// A text without `__` is a path that names a unit alone.
pub proof fn lemma_plain_path(key: Seq<char>)
    requires
        !occurs(key, seq!['_', '_']),
    ensures
        path_owner(key) == key,
        path_attribute(key) is None,
{
    let sep = seq!['_', '_'];
    assert forall|i: int| 0 <= i < key.len() implies !starts_with(#[trigger] key.skip(i), sep) by {}
    lemma_first_match_at(key, sep, 0, key.len() as int);
    assert(key.subrange(0, key.len() as int) =~= key);
}

/// The answers to two chunks that follow each other are the answers to
/// the two as one, where the first chunk is answered in full.
pub proof fn lemma_paired_joins(
    segments: Seq<KeyedString>,
    from: nat,
    mid: nat,
    to: nat,
    first: Seq<String>,
    second: Seq<String>,
)
    requires
        from <= mid <= to,
        first.len() == mid - from,
    ensures
        paired(segments, from, mid, first) + paired(segments, mid, to, second) == paired(
            segments,
            from,
            to,
            first + second,
        ),
{
    assert(paired(segments, from, mid, first) + paired(segments, mid, to, second) =~= paired(
        segments,
        from,
        to,
        first + second,
    ));
}

/// The segments of a unit stand in the list where the segments of the
/// units before it end.
pub proof fn lemma_segments_at(units: Seq<TranslationUnit>, i: nat, n: nat, k: int)
    requires
        i < n <= units.len(),
        0 <= k < unit_segments(units[i as int]).len(),
    ensures
        segments_of(units, i).len() + unit_segments(units[i as int]).len() <= segments_of(units, n).len(),
        segments_of(units, n)[segments_of(units, i).len() + k] == unit_segments(units[i as int])[k],
    decreases n,
{
    if n > i + 1 {
        lemma_segments_at(units, i, (n - 1) as nat, k);
    } else {
        assert(segments_of(units, n) == segments_of(units, i) + unit_segments(units[i as int]));
    }
}

/// The translations of one unit, taken one after the other, put the unit
/// in and then fill its attributes.
proof fn lemma_unit_assembles(
    ts: Seq<TranslationView>,
    answers: Seq<String>,
    u: TranslationUnit,
    at: int,
    j: nat,
    before: Map<Seq<char>, UnitView>,
)
    requires
        has_plain_ids(u),
        0 <= at,
        j <= u.attributes.key_texts().len(),
        at + 1 + u.attributes.key_texts().len() <= ts.len(),
        assembled(ts, at as nat) == Ok::<Map<Seq<char>, UnitView>, Error>(before),
        ts[at].key == u.key@,
        forall|k: int| at <= k < at + 1 + u.attributes.key_texts().len() ==> (#[trigger] ts[k]).target == answers[k]@,
        forall|k: int|
            0 <= k < u.attributes.key_texts().len() ==> ts[at + 1 + k].key == attribute_path_text(
                u.key@,
                #[trigger] u.attributes.key_texts()[k],
            ),
    ensures
        assembled(ts, (at + 1 + j) as nat) == Ok::<Map<Seq<char>, UnitView>, Error>(
            before.insert(
                u.key@,
                (UnitView {
                    key: u.key@,
                    main: restored_text(answers[at]@),
                    attributes: attributes_through(u, answers, at, j),
                }),
            ),
        ),
    decreases j,
{
    let key = u.key@;
    if j == 0 {
        lemma_plain_path(key);
        assert(assembled(ts, (at + 1) as nat) == assemble_step(before, ts[at]));
        assert(plain_unit(key, restored_text(answers[at]@)).attributes =~= attributes_through(u, answers, at, 0));
    } else {
        lemma_unit_assembles(ts, answers, u, at, (j - 1) as nat, before);
        let a = u.attributes.key_texts()[j - 1];
        let so_far = UnitView {
            key,
            main: restored_text(answers[at]@),
            attributes: attributes_through(u, answers, at, (j - 1) as nat),
        };
        let held = before.insert(key, so_far);
        let t = ts[at + j];
        assert(t.key == attribute_path_text(key, a)) by {
            assert(ts[at + 1 + (j - 1)].key == attribute_path_text(key, u.attributes.key_texts()[j - 1]));
        }
        lemma_path_splits_back(key, a);
        assert(path_attribute(t.key) == Some(a));
        assert(a.len() > 0);
        assert(assembled(ts, (at + 1 + j) as nat) == assemble_step(held, t));
        let filled = UnitView {
            key,
            main: restored_text(answers[at]@),
            attributes: attributes_through(u, answers, at, j),
        };
        assert(held.insert(
            key,
            (UnitView { key, main: held[key].main, attributes: held[key].attributes.insert(a, restored_text(t.target)) }),
        ) =~= before.insert(key, filled));
    }
}

/// The translations of the first `n` units, taken one after the other,
/// make the units that the answers give.
pub proof fn lemma_units_assemble(
    units: Seq<TranslationUnit>,
    segments: Seq<KeyedString>,
    answers: Seq<String>,
    n: nat,
)
    requires
        n <= units.len(),
        forall|i: int| 0 <= i < units.len() ==> has_plain_ids(#[trigger] units[i]),
        segment_views(segments) == segments_of(units, units.len()),
        answers.len() == segments.len(),
    ensures
        segments_of(units, n).len() <= segments.len(),
        assembled(paired(segments, 0, segments.len(), answers), segments_of(units, n).len()) == Ok::<
            Map<Seq<char>, UnitView>,
            Error,
        >(translated_units(units, answers, n)),
    decreases n,
{
    let ts = paired(segments, 0, segments.len(), answers);
    let all = segments_of(units, units.len());
    assert(all.len() == segments.len());
    if n > 0 {
        lemma_units_assemble(units, segments, answers, (n - 1) as nat);
        let u = units[n - 1];
        let at = segments_of(units, (n - 1) as nat).len() as int;
        let c = u.attributes.key_texts().len();
        assert(unit_segments(u).len() == 1 + c);
        lemma_segments_at(units, (n - 1) as nat, units.len(), 0);
        assert(ts[at].key == u.key@) by {
            assert(segment_views(segments)[at] == segments[at]@);
            assert(all[at] == unit_segments(u)[0]);
        }
        assert forall|k: int| 0 <= k < c implies ts[at + 1 + k].key == attribute_path_text(
            u.key@,
            #[trigger] u.attributes.key_texts()[k],
        ) by {
            lemma_segments_at(units, (n - 1) as nat, units.len(), k + 1);
            assert(segment_views(segments)[at + 1 + k] == segments[at + 1 + k]@);
            assert(all[at + 1 + k] == unit_segments(u)[k + 1]);
        }
        lemma_unit_assembles(ts, answers, u, at, c, translated_units(units, answers, (n - 1) as nat));
        assert(segments_of(units, n) == segments_of(units, (n - 1) as nat) + unit_segments(u));
    }
}

/// An attribute that the answers give is one of the unit's: the position
/// of its identifier among them.
pub proof fn lemma_attribute_given(u: TranslationUnit, answers: Seq<String>, at: int, j: nat, a: Seq<char>) -> (k:
    int)
    requires
        attributes_through(u, answers, at, j).contains_key(a),
    ensures
        0 <= k < j <= u.attributes.key_texts().len(),
        u.attributes.key_texts()[k] == a,
    decreases j,
{
    if a == u.attributes.key_texts()[j - 1] {
        j - 1
    } else {
        lemma_attribute_given(u, answers, at, (j - 1) as nat, a)
    }
}

/// Each of the first `j` attributes of a unit is given the restored
/// answer to its own segment.
pub proof fn lemma_attribute_at(u: TranslationUnit, answers: Seq<String>, at: int, j: nat, k: int)
    requires
        u.wf(),
        0 <= k < j <= u.attributes.key_texts().len(),
    ensures
        attributes_through(u, answers, at, j).contains_key(u.attributes.key_texts()[k]),
        attributes_through(u, answers, at, j)[u.attributes.key_texts()[k]] == restored_text(
            answers[at + 1 + k]@,
        ),
    decreases j,
{
    if k < j - 1 {
        lemma_attribute_at(u, answers, at, (j - 1) as nat, k);
        if u.attributes.key_texts()[k] == u.attributes.key_texts()[j - 1] {
            lemma_positions_unique(u.attributes.key_texts(), k, j - 1);
        }
    }
}

/// A unit that the answers make is made of one of the units: its position.
pub proof fn lemma_unit_given(units: Seq<TranslationUnit>, answers: Seq<String>, n: nat, t: Seq<char>) -> (i:
    int)
    requires
        translated_units(units, answers, n).contains_key(t),
    ensures
        0 <= i < n <= units.len(),
        units[i].key@ == t,
    decreases n,
{
    if t == units[n - 1].key@ {
        n - 1
    } else {
        lemma_unit_given(units, answers, (n - 1) as nat, t)
    }
}

/// Each of the first `n` units of a valid unit map is made what
/// `translated_unit` says.
pub proof fn lemma_unit_at(map: TranslationUnitMap, answers: Seq<String>, n: nat, i: int)
    requires
        map.wf(),
        0 <= i < n <= map.translation_units.values().len(),
    ensures
        translated_units(map.translation_units.values(), answers, n).contains_key(
            map.translation_units.values()[i].key@,
        ),
        translated_units(map.translation_units.values(), answers, n)[map.translation_units.values()[i].key@]
            == translated_unit(
            map.translation_units.values()[i],
            answers,
            segments_of(map.translation_units.values(), i as nat).len() as int,
        ),
    decreases n,
{
    let units = map.translation_units.values();
    if i < n - 1 {
        lemma_unit_at(map, answers, (n - 1) as nat, i);
        if units[i].key@ == units[n - 1].key@ {
            lemma_positions_unique(map.translation_units.key_texts(), i, n - 1);
        }
    }
}

/// Whether `m` holds the unit at position `i` of the map as the answers
/// make it. The segment of the unit's main text stands where the segments
/// of the units before it end, and the segments of its attributes follow
/// it in order. In `m` the unit has its identifier, as its main text the
/// restored answer to the segment of its main text, and exactly its own
/// attributes, each with the restored answer to its own segment.
pub open spec fn is_translated_in(
    map: TranslationUnitMap,
    segments: Seq<KeyedString>,
    answers: Seq<String>,
    m: Map<Seq<char>, UnitView>,
    i: int,
) -> bool {
    let units = map.translation_units.values();
    let u = units[i];
    let at = segments_of(units, i as nat).len() as int;
    &&& 0 <= at < segments.len()
    &&& segments[at]@ == (u.key@, protected_text(u.main@))
    &&& m.contains_key(u.key@)
    &&& m[u.key@].key == u.key@
    &&& m[u.key@].main == restored_text(answers[at]@)
    &&& m[u.key@].attributes.dom() == u@.attributes.dom()
    &&& forall|j: int|
        0 <= j < u.attributes.key_texts().len() ==> {
            &&& at + 1 + j < segments.len()
            &&& segments[at + 1 + j]@ == (
                attribute_path_text(u.key@, u.attributes.key_texts()[j]),
                protected_text(u.attributes.values()[j]@),
            )
            &&& m[u.key@].attributes[#[trigger] u.attributes.key_texts()[j]] == restored_text(
                answers[at + 1 + j]@,
            )
        }
}

/// The law of the translation step. Take a valid unit map whose
/// identifiers can be read back from their paths, the segments collected
/// from it, and as many answers as there are segments. Then putting the
/// answers together succeeds, and what it gives has exactly the units of
/// the map, each as `is_translated_in` says: with its identifier, as its
/// main text the restored answer to the segment of its main text, and
/// with exactly the attributes of the unit, each with the restored answer
/// to its own segment.
pub proof fn lemma_translation_covers_base(
    map: TranslationUnitMap,
    segments: Seq<KeyedString>,
    answers: Seq<String>,
)
    requires
        map.wf(),
        forall|i: int|
            0 <= i < map.translation_units.values().len() ==> has_plain_ids(
                #[trigger] map.translation_units.values()[i],
            ),
        segment_views(segments) == segments_of(
            map.translation_units.values(),
            map.translation_units.values().len(),
        ),
        answers.len() == segments.len(),
    ensures
        assembled(paired(segments, 0, segments.len(), answers), segments.len()) matches Ok(m) && {
            &&& m.dom() == map.units().dom()
            &&& forall|i: int|
                0 <= i < map.translation_units.values().len() ==> #[trigger] is_translated_in(
                    map,
                    segments,
                    answers,
                    m,
                    i,
                )
        },
{
    let units = map.translation_units.values();
    let n = units.len();
    lemma_units_assemble(units, segments, answers, n);
    let m = translated_units(units, answers, n);
    assert(segments_of(units, n).len() == segments.len());
    assert forall|t: Seq<char>| m.contains_key(t) <==> map.units().contains_key(t) by {
        if m.contains_key(t) {
            let i = lemma_unit_given(units, answers, n, t);
            map.translation_units.lemma_value_at(i);
        }
        if map.units().contains_key(t) {
            let i = map.translation_units.lemma_position_of(t);
            lemma_unit_at(map, answers, n, i);
        }
    }
    assert(m.dom() =~= map.units().dom());
    assert forall|i: int| 0 <= i < n implies #[trigger] is_translated_in(map, segments, answers, m, i) by {
        lemma_unit_law(map, segments, answers, i);
    }
}

/// The law of the translation step for the unit at position `i`.
pub proof fn lemma_unit_law(map: TranslationUnitMap, segments: Seq<KeyedString>, answers: Seq<String>, i: int)
    requires
        map.wf(),
        0 <= i < map.translation_units.values().len(),
        segment_views(segments) == segments_of(
            map.translation_units.values(),
            map.translation_units.values().len(),
        ),
    ensures
        is_translated_in(
            map,
            segments,
            answers,
            translated_units(map.translation_units.values(), answers, map.translation_units.values().len()),
            i,
        ),
{
    let units = map.translation_units.values();
    let n = units.len();
    let all = segments_of(units, n);
    let u = units[i];
    let at = segments_of(units, i as nat).len() as int;
    let keys = u.attributes.key_texts();
    let c = keys.len();
    assert(all.len() == segments.len());
    assert(unit_segments(u).len() == 1 + c);
    lemma_segments_at(units, i as nat, n, 0);
    assert(segment_views(segments)[at] == segments[at]@);
    assert(all[at] == unit_segments(u)[0]);
    lemma_unit_at(map, answers, n, i);
    assert(units[i].wf());
    u.attributes.lemma_aligned();
    let given = attributes_through(u, answers, at, c);
    assert forall|a: Seq<char>| given.contains_key(a) <==> u@.attributes.contains_key(a) by {
        if given.contains_key(a) {
            let k = lemma_attribute_given(u, answers, at, c, a);
            assert(keys.contains(a));
        }
        if u@.attributes.contains_key(a) {
            let k = keys.index_of(a);
            lemma_attribute_at(u, answers, at, c, k);
        }
    }
    assert(given.dom() =~= u@.attributes.dom());
    assert forall|j: int| 0 <= j < c implies {
        &&& at + 1 + j < segments.len()
        &&& segments[at + 1 + j]@ == (
            attribute_path_text(u.key@, keys[j]),
            protected_text(u.attributes.values()[j]@),
        )
        &&& given[#[trigger] keys[j]] == restored_text(answers[at + 1 + j]@)
    } by {
        lemma_segments_at(units, i as nat, n, j + 1);
        assert(segment_views(segments)[at + 1 + j] == segments[at + 1 + j]@);
        assert(all[at + 1 + j] == unit_segments(u)[j + 1]);
        lemma_attribute_at(u, answers, at, c, j);
    }
}

} // verus!
