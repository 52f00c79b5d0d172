//! What stands between the content model and a translation service that
//! knows nothing of the markup: placeables are shielded before a text is
//! sent out and restored when it comes back, the texts of a category are
//! sent in chunks, and what comes back is put together as the unit map of
//! the new locale.

use vstd::prelude::*;
use crate::error::Error;
use crate::ident::{attribute_path_text, path_attribute, path_owner, split_path};
use crate::ir::{Category, TranslationUnit, TranslationUnitMap, UnitView};
use crate::locale::LocaleTag;

verus! {

/// A placeable span: an opening brace, blank space, the inner content, blank
/// space, a closing brace. The inner content is the first group.
pub open spec fn placeable_pattern() -> Seq<char> {
    "\\{\\s*(.+?)\\s*\\}"@
}

/// The anchor that stands for a placeable: the inner content as the id of
/// the anchor and as its label.
pub open spec fn anchor_template() -> Seq<char> {
    "<a id=\"${1}\">${1}</a>"@
}

/// An anchor as it comes back: the id is the first group, the label is
/// passed over.
pub open spec fn anchor_pattern() -> Seq<char> {
    "<a id=\"(.+?)\">.+?</a>"@
}

/// The placeable that an anchor stood for.
pub open spec fn placeable_template() -> Seq<char> {
    "{ ${1} }"@
}

/// The type `regex::Regex`, opaque here.
#[verifier::external_type_specification]
#[verifier::external_body]
pub struct ExRegex(regex::Regex);

/// Whether `pattern` is a regular expression that can be compiled.
pub uninterp spec fn regex_compiles(pattern: Seq<char>) -> bool;

/// The pattern that a compiled regular expression was made from, where it
/// was compiled with the default options, as `regex::Regex::new` compiles;
/// `None` for an expression that was compiled otherwise. The expression
/// keeps its pattern: `regex::Regex::as_str` gives it.
pub uninterp spec fn matcher_pattern(matcher: regex::Regex) -> Option<Seq<char>>;

/// `text` with every match of the regular expression `pattern`, compiled
/// with the default options and found from left to right without overlap,
/// replaced by `template`, in which `${1}` stands for the first group of
/// the match.
pub uninterp spec fn regex_replace_all(pattern: Seq<char>, text: Seq<char>, template: Seq<char>) -> Seq<char>;

/// Compiles `pattern`.
///
/// Wraps `regex::Regex::new`, which returns an error for a pattern that it
/// cannot compile, and else the expression compiled with the default
/// options, which keeps the pattern it was made from. Whether it compiles
/// depends on the pattern alone; the contract gives that a name and claims
/// no more.
#[verifier::external_body]
fn compile(pattern: &str) -> (r: Option<regex::Regex>)
    ensures
        r is Some <==> regex_compiles(pattern@),
        r matches Some(matcher) ==> matcher_pattern(matcher) == Some(pattern@),
{
    regex::Regex::new(pattern).ok()
}

/// Replaces all matches of `matcher` in `text`.
///
/// Wraps `regex::Regex::replace_all`, which returns the text with all
/// non-overlapping matches replaced by the expansion of the replacement
/// string. For an expression compiled with the default options the result
/// depends on the pattern and the two texts alone; the contract gives it a
/// name and claims no more, and of an expression compiled otherwise it
/// claims nothing.
#[verifier::external_body]
fn replace_matches(matcher: &regex::Regex, text: &str, template: &str) -> (out: String)
    ensures
        matcher_pattern(*matcher) matches Some(pattern) ==> out@ == regex_replace_all(
            pattern,
            text@,
            template@,
        ),
{
    matcher.replace_all(text, template).into_owned()
}

/// `text` with its HTML entities decoded.
pub uninterp spec fn html_decoded(text: Seq<char>) -> Seq<char>;

/// Decodes the HTML entities of `text`.
///
/// Wraps `html_escape::decode_html_entities`, which replaces each named or
/// numeric character reference that ends in `;` by the character it stands
/// for. The result depends on the text alone; the contract gives it a name
/// and claims no more.
#[verifier::external_body]
fn decode_entities(text: &str) -> (out: String)
    ensures
        out@ == html_decoded(text@),
{
    html_escape::decode_html_entities(text).into_owned()
}

/// `text` as it is sent out: every placeable span replaced by an anchor.
pub open spec fn shielded(text: Seq<char>) -> Seq<char> {
    regex_replace_all(placeable_pattern(), text, anchor_template())
}

/// `text` as it is taken back: every anchor replaced by the placeable it
/// stood for, and the HTML entities of the result decoded.
pub open spec fn unshielded(text: Seq<char>) -> Seq<char> {
    html_decoded(regex_replace_all(anchor_pattern(), text, placeable_template()))
}

/// Whether the two patterns of the guard compile.
pub open spec fn matchers_compile() -> bool {
    regex_compiles(placeable_pattern()) && regex_compiles(anchor_pattern())
}

/// `text` shielded where the matchers compile, and the text itself where
/// they do not.
pub open spec fn protected_text(text: Seq<char>) -> Seq<char> {
    if matchers_compile() {
        shielded(text)
    } else {
        text
    }
}

/// `text` restored where the matchers compile, and the text itself where
/// they do not.
pub open spec fn restored_text(text: Seq<char>) -> Seq<char> {
    if matchers_compile() {
        unshielded(text)
    } else {
        text
    }
}

/// The two matchers of the guard, the one for placeables and the one for
/// anchors: compiled once and handed by reference to whatever shields or
/// restores a text. It holds none where one of the patterns did not compile.
pub struct Matchers {
    compiled: Option<(regex::Regex, regex::Regex)>,
}

impl Matchers {
    #[verifier::type_invariant]
    spec fn made_from_the_patterns(self) -> bool {
        match self.compiled {
            Some((placeable, anchor)) => matchers_compile() && matcher_pattern(placeable) == Some(
                placeable_pattern(),
            ) && matcher_pattern(anchor) == Some(anchor_pattern()),
            None => !matchers_compile(),
        }
    }

    /// Compiles the two patterns.
    pub fn new() -> (matchers: Matchers) {
        let compiled = match compile("\\{\\s*(.+?)\\s*\\}") {
            Some(placeable) => match compile("<a id=\"(.+?)\">.+?</a>") {
                Some(anchor) => Some((placeable, anchor)),
                None => None,
            },
            None => None,
        };
        Matchers { compiled }
    }

    /// Whether both patterns compiled.
    pub fn is_compiled(&self) -> (b: bool)
        ensures
            b == matchers_compile(),
    {
        proof {
            use_type_invariant(self);
        }
        self.compiled.is_some()
    }

    /// Shields the placeables of `text` from a translation step: each
    /// becomes an anchor that carries the inner content as its id and as
    /// its label.
    pub fn protect(&self, text: &str) -> (out: String)
        ensures
            out@ == protected_text(text@),
    {
        proof {
            use_type_invariant(self);
        }
        match &self.compiled {
            Some(pair) => replace_matches(&pair.0, text, "<a id=\"${1}\">${1}</a>"),
            None => text.to_owned(),
        }
    }

    /// Restores the placeables of a text that came back from a translation
    /// step, and decodes the HTML entities that the step may have put in.
    pub fn restore(&self, text: &str) -> (out: String)
        ensures
            out@ == restored_text(text@),
    {
        proof {
            use_type_invariant(self);
        }
        match &self.compiled {
            Some(pair) => {
                let restored = replace_matches(&pair.1, text, "{ ${1} }");
                decode_entities(restored.as_str())
            },
            None => text.to_owned(),
        }
    }
}

/// Shields the placeables of `text` from a translation step, with matchers
/// compiled for this one text.
pub fn convert_to_html(text: &str) -> (out: String)
    ensures
        out@ == protected_text(text@),
{
    Matchers::new().protect(text)
}

/// Restores the placeables of a text that came back from a translation
/// step, with matchers compiled for this one text.
pub fn convert_from_html(text: &str) -> (out: String)
    ensures
        out@ == restored_text(text@),
{
    Matchers::new().restore(text)
}

/// A text to translate, with the key under which the result is put back.
#[derive(Clone, Debug)]
pub struct KeyedString {
    pub key: String,
    pub value: String,
}

impl View for KeyedString {
    type V = (Seq<char>, Seq<char>);

    open spec fn view(&self) -> (Seq<char>, Seq<char>) {
        (self.key@, self.value@)
    }
}

/// A translated text: the key and the source of the segment it answers, and
/// the text that came back.
#[derive(Debug)]
pub struct KeyedTranslation<'a> {
    pub key: &'a str,
    pub source: &'a str,
    pub target: String,
}

/// A translated text as a mathematical value.
pub struct TranslationView {
    pub key: Seq<char>,
    pub source: Seq<char>,
    pub target: Seq<char>,
}

impl<'a> View for KeyedTranslation<'a> {
    type V = TranslationView;

    open spec fn view(&self) -> TranslationView {
        TranslationView { key: self.key@, source: self.source@, target: self.target@ }
    }
}

/// The segments of a list, each as its key and its text.
pub open spec fn segment_views(v: Seq<KeyedString>) -> Seq<(Seq<char>, Seq<char>)> {
    Seq::new(v.len(), |i: int| v[i]@)
}

/// The translations of a list as mathematical values.
pub open spec fn translation_views(v: Seq<KeyedTranslation>) -> Seq<TranslationView> {
    Seq::new(v.len(), |i: int| v[i]@)
}

/// The segments of one unit: its main text under its identifier, then each
/// attribute text under the attribute's path, all with their placeables
/// shielded.
pub open spec fn unit_segments(u: TranslationUnit) -> Seq<(Seq<char>, Seq<char>)> {
    seq![(u.key@, protected_text(u.main@))] + Seq::new(
        u.attributes.key_texts().len(),
        |i: int|
            (
                attribute_path_text(u.key@, u.attributes.key_texts()[i]),
                protected_text(u.attributes.values()[i]@),
            ),
    )
}

/// The segments of the first `n` of `units`, unit after unit.
pub open spec fn segments_of(units: Seq<TranslationUnit>, n: nat) -> Seq<(Seq<char>, Seq<char>)>
    decreases n,
{
    if n == 0 || n > units.len() {
        Seq::empty()
    } else {
        segments_of(units, (n - 1) as nat) + unit_segments(units[n - 1])
    }
}

/// The segments to translate of a unit map, in ascending order of the unit
/// identifiers and, within a unit, of the attribute identifiers, each text
/// shielded with `matchers`.
pub fn collect_segments(map: &TranslationUnitMap, matchers: &Matchers) -> (out: Vec<KeyedString>)
    requires
        map.wf(),
    ensures
        segment_views(out@) == segments_of(
            map.translation_units.values(),
            map.translation_units.values().len(),
        ),
{
    let mut out: Vec<KeyedString> = Vec::new();
    let n = map.translation_units.len();
    let ghost units = map.translation_units.values();
    assert(segment_views(out@) =~= segments_of(units, 0));
    let mut i: usize = 0;
    while i < n
        invariant
            i <= n,
            n == units.len(),
            units == map.translation_units.values(),
            map.wf(),
            segment_views(out@) == segments_of(units, i as nat),
        decreases n - i,
    {
        let unit = map.translation_units.value_at(i);
        let ghost before = segment_views(out@);
        out.push(KeyedString { key: unit.key.as_str().to_owned(), value: matchers.protect(unit.main.as_str()) });
        let m = unit.attributes.len();
        let mut j: usize = 0;
        while j < m
            invariant
                j <= m,
                m == unit.attributes.key_texts().len(),
                m == unit.attributes.values().len(),
                segment_views(out@) == before + unit_segments(*unit).take(j + 1),
            decreases m - j,
        {
            let ghost so_far = segment_views(out@);
            let key = unit.key.attribute_path(unit.attributes.key_at(j));
            let value = matchers.protect(unit.attributes.value_at(j).as_str());
            out.push(KeyedString { key, value });
            assert(segment_views(out@) =~= so_far.push(unit_segments(*unit)[j + 1]));
            assert(unit_segments(*unit).take(j + 2) =~= unit_segments(*unit).take(j + 1).push(
                unit_segments(*unit)[j + 1],
            ));
            j += 1;
        }
        assert(unit_segments(*unit).take(m + 1) =~= unit_segments(*unit));
        i += 1;
    }
    out
}

/// The most segments that one request carries.
pub const CHUNK_SIZE: usize = 128;

/// Where the chunk that begins at `sent` ends, among `len` segments.
pub open spec fn chunk_end(sent: nat, len: nat) -> nat {
    if sent + 128 <= len {
        sent + 128
    } else {
        len
    }
}

/// The answers to the chunk of `segments` from `from` up to `to`: the i-th
/// of `targets` answers the i-th segment of the chunk. Targets beyond the
/// chunk find no segment, segments beyond the targets no answer.
pub open spec fn paired(
    segments: Seq<KeyedString>,
    from: nat,
    to: nat,
    targets: Seq<String>,
) -> Seq<TranslationView> {
    Seq::new(
        if to - from <= targets.len() { (to - from) as nat } else { targets.len() },
        |i: int|
            TranslationView {
                key: segments[from + i].key@,
                source: segments[from + i].value@,
                target: targets[i]@,
            },
    )
}

/// The translation of a list of segments in chunks: which segments have
/// been sent, and what has come back.
pub struct Translation<'a> {
    segments: &'a Vec<KeyedString>,
    sent: usize,
    translated: Vec<KeyedTranslation<'a>>,
}

impl<'a> Translation<'a> {
    /// The segments.
    pub closed spec fn segments(&self) -> Seq<KeyedString> {
        self.segments@
    }

    /// How many segments have been answered for.
    pub closed spec fn sent(&self) -> nat {
        self.sent as nat
    }

    /// What has come back so far.
    pub closed spec fn translated(&self) -> Seq<TranslationView> {
        translation_views(self.translated@)
    }

    /// The texts that have come back so far, in the order in which they were
    /// put back onto segments.
    pub closed spec fn answers(&self) -> Seq<String> {
        Seq::new(self.translated@.len(), |i: int| self.translated@[i].target)
    }

    /// The invariant: no more was sent than there is.
    pub open spec fn wf(&self) -> bool {
        self.sent() <= self.segments().len()
    }

    /// Whether every segment that was sent has its answer: what has come
    /// back is the answers paired with the segments sent, one for one.
    pub open spec fn answered(&self) -> bool {
        &&& self.answers().len() == self.sent()
        &&& self.translated() == paired(self.segments(), 0, self.sent(), self.answers())
    }

    /// Whether every segment has been answered for.
    pub open spec fn done(&self) -> bool {
        self.sent() >= self.segments().len()
    }

    /// Begins with nothing sent.
    pub fn start(segments: &'a Vec<KeyedString>) -> (run: Translation<'a>)
        ensures
            run.wf(),
            run.segments() == segments@,
            run.sent() == 0,
            run.translated() == Seq::<TranslationView>::empty(),
            run.answers() == Seq::<String>::empty(),
            run.answered(),
    {
        let run = Translation { segments, sent: 0, translated: Vec::new() };
        assert(run.translated() =~= Seq::<TranslationView>::empty());
        assert(run.answers() =~= Seq::<String>::empty());
        assert(run.translated() =~= paired(run.segments(), 0, 0, run.answers()));
        run
    }

    /// The texts of the next chunk, in the order of the segments: those
    /// from the first segment not yet answered for, at most 128 of them.
    /// `None` when every segment has been answered for.
    pub fn next_request(&self) -> (request: Option<Vec<String>>)
        requires
            self.wf(),
        ensures
            self.done() <==> request is None,
            request matches Some(texts) ==> {
                &&& texts@.len() == chunk_end(self.sent(), self.segments().len()) - self.sent()
                &&& forall|i: int| 0 <= i < texts@.len() ==>
                    (#[trigger] texts@[i])@ == self.segments()[self.sent() + i].value@
            },
    {
        let len = self.segments.len();
        if self.sent >= len {
            return None;
        }
        let end = if len - self.sent >= CHUNK_SIZE { self.sent + CHUNK_SIZE } else { len };
        let mut texts: Vec<String> = Vec::new();
        let mut i: usize = self.sent;
        while i < end
            invariant
                self.sent <= i <= end <= self.segments@.len(),
                texts@.len() == i - self.sent,
                forall|k: int| 0 <= k < texts@.len() ==>
                    (#[trigger] texts@[k])@ == self.segments@[self.sent + k].value@,
            decreases end - i,
        {
            texts.push(self.segments[i].value.clone());
            i += 1;
        }
        Some(texts)
    }

    /// Takes the answer to the chunk that `next_request` gave: the i-th of
    /// `targets` is put back onto the i-th segment of the chunk. Where every
    /// segment sent before had its answer and the chunk is answered one for
    /// one, every segment sent has its answer again.
    pub fn accept(&mut self, targets: Vec<String>)
        requires
            old(self).wf(),
            !old(self).done(),
        ensures
            final(self).wf(),
            final(self).segments() == old(self).segments(),
            final(self).sent() == chunk_end(old(self).sent(), old(self).segments().len()),
            final(self).translated() == old(self).translated() + paired(
                old(self).segments(),
                old(self).sent(),
                chunk_end(old(self).sent(), old(self).segments().len()),
                targets@,
            ),
            old(self).answered() && targets@.len() == final(self).sent() - old(self).sent()
                ==> final(self).answered() && final(self).answers() == old(self).answers() + targets@,
    {
        let len = self.segments.len();
        let from = self.sent;
        let end = if len - from >= CHUNK_SIZE { from + CHUNK_SIZE } else { len };
        let ghost answers = paired(self.segments@, from as nat, end as nat, targets@);
        let ghost before = self.translated();
        let count = targets.len();
        let mut i: usize = 0;
        assert(answers.take(0) =~= Seq::<TranslationView>::empty());
        for target in it: targets
            invariant
                it.seq() == targets@,
                it.seq().len() == count,
                i == it.index(),
                from <= end <= self.segments@.len(),
                self.sent == from,
                self.segments == old(self).segments,
                answers == paired(self.segments@, from as nat, end as nat, targets@),
                self.translated() == before + answers.take(
                    if i <= answers.len() { i as int } else { answers.len() as int },
                ),
                self.answers() == old(self).answers() + targets@.take(
                    if i <= answers.len() { i as int } else { answers.len() as int },
                ),
        {
            if i < end - from {
                let ghost so_far = self.translated();
                let ghost texts = self.answers();
                let segment = &self.segments[from + i];
                self.translated.push(
                    KeyedTranslation { key: segment.key.as_str(), source: segment.value.as_str(), target },
                );
                assert(self.translated() =~= so_far.push(answers[i as int]));
                assert(answers.take(i + 1) =~= answers.take(i as int).push(answers[i as int]));
                assert(self.answers() =~= texts.push(targets@[i as int]));
                assert(targets@.take(i + 1) =~= targets@.take(i as int).push(targets@[i as int]));
            }
            i += 1;
        }
        assert(answers.take(answers.len() as int) =~= answers);
        self.sent = end;
        proof {
            if old(self).answered() && targets@.len() == end - from {
                assert(targets@.take(answers.len() as int) =~= targets@);
                assert(paired(self.segments@, 0, from as nat, old(self).answers()) + paired(
                    self.segments@,
                    from as nat,
                    end as nat,
                    targets@,
                ) =~= paired(self.segments@, 0, end as nat, old(self).answers() + targets@));
            }
        }
    }

    /// What has come back, in the order of the segments.
    pub fn finish(self) -> (out: Vec<KeyedTranslation<'a>>)
        ensures
            translation_views(out@) == self.translated(),
            out@.len() == self.answers().len(),
            forall|i: int| 0 <= i < out@.len() ==> (#[trigger] out@[i]).target == self.answers()[i],
    {
        self.translated
    }
}

/// The unit that a translated main text becomes: no attributes yet.
pub open spec fn plain_unit(key: Seq<char>, main: Seq<char>) -> UnitView {
    UnitView { key, main, attributes: Map::empty() }
}

/// What one translation makes of the units put together so far. A key
/// without `__` begins the unit of that name anew, with the restored text as
/// its main text. A key with `__` puts the restored text under the
/// attribute in the unit, which must be there already.
pub open spec fn assemble_step(
    units: Map<Seq<char>, UnitView>,
    t: TranslationView,
) -> Result<Map<Seq<char>, UnitView>, Error> {
    let owner = path_owner(t.key);
    let text = restored_text(t.target);
    if owner.len() == 0 || path_attribute(t.key) == Some(Seq::<char>::empty()) {
        Err(Error::InvalidIdentifier)
    } else {
        match path_attribute(t.key) {
            None => Ok(units.insert(owner, plain_unit(owner, text))),
            Some(attribute) => if units.contains_key(owner) {
                Ok(
                    units.insert(
                        owner,
                        UnitView {
                            key: owner,
                            main: units[owner].main,
                            attributes: units[owner].attributes.insert(attribute, text),
                        },
                    ),
                )
            } else {
                Err(Error::MissingBaseUnit)
            },
        }
    }
}

/// What the first `n` of `ts` make, one after the other; the first failure
/// ends it.
pub open spec fn assembled(ts: Seq<TranslationView>, n: nat) -> Result<Map<Seq<char>, UnitView>, Error>
    decreases n,
{
    if n == 0 || n > ts.len() {
        Ok(Map::empty())
    } else {
        match assembled(ts, (n - 1) as nat) {
            Ok(units) => assemble_step(units, ts[n - 1]),
            Err(e) => Err(e),
        }
    }
}

/// A failure stays: what fails after `n` translations fails the same way
/// after more of them.
pub proof fn lemma_failure_stays(ts: Seq<TranslationView>, n: nat, m: nat)
    requires
        assembled(ts, n) is Err,
        n <= m <= ts.len(),
    ensures
        assembled(ts, m) == assembled(ts, n),
    decreases m,
{
    if n < m {
        lemma_failure_stays(ts, n, (m - 1) as nat);
    }
}

/// Puts the translations together as the unit map of `locale`, each text
/// restored with `matchers`.
pub fn assemble(
    locale: LocaleTag,
    translations: &Vec<KeyedTranslation>,
    matchers: &Matchers,
) -> (r: Result<TranslationUnitMap, Error>)
    ensures
        match assembled(translation_views(translations@), translations@.len()) {
            Ok(units) => r is Ok && r->Ok_0.wf() && r->Ok_0.locale@ == locale@ && r->Ok_0.units() == units,
            Err(e) => r == Err::<TranslationUnitMap, Error>(e),
        },
{
    let mut out = TranslationUnitMap::new(locale);
    let ghost ts = translation_views(translations@);
    let mut i: usize = 0;
    while i < translations.len()
        invariant
            i <= translations.len(),
            ts == translation_views(translations@),
            out.wf(),
            out.locale@ == locale@,
            assembled(ts, i as nat) == Ok::<Map<Seq<char>, UnitView>, Error>(out.units()),
        decreases translations.len() - i,
    {
        let x = &translations[i];
        assert(ts[i as int] == x@);
        let (base_id, meta_id) = match split_path(x.key) {
            Ok(pair) => pair,
            Err(_) => {
                proof {
                    lemma_failure_stays(ts, (i + 1) as nat, ts.len());
                }
                return Err(Error::InvalidIdentifier);
            },
        };
        let text = matchers.restore(x.target.as_str());
        match meta_id {
            Some(meta_id) => {
                if !out.set_attribute(&base_id, meta_id, text) {
                    proof {
                        lemma_failure_stays(ts, (i + 1) as nat, ts.len());
                    }
                    return Err(Error::MissingBaseUnit);
                }
            },
            None => {
                let unit = TranslationUnit::new(base_id, text);
                assert(unit@ == plain_unit(unit.key@, text@)) by {
                    assert(unit@.attributes =~= Map::<Seq<char>, Seq<char>>::empty());
                }
                out.insert(unit);
            },
        }
        i += 1;
    }
    Ok(out)
}

/// Puts the translations of a category into it as the unit map of
/// `locale`. Either the whole unit map is put in, in place of one that the
/// locale had, and nothing else of the category changes: not its name, its
/// default locale, its descriptions or another locale's units; or the
/// category stays as it was.
pub fn translate_category(
    category: &mut Category,
    locale: LocaleTag,
    translations: &Vec<KeyedTranslation>,
    matchers: &Matchers,
) -> (r: Result<(), Error>)
    requires
        old(category).wf(),
    ensures
        final(category).wf(),
        match assembled(translation_views(translations@), translations@.len()) {
            Ok(units) => {
                &&& r is Ok
                &&& final(category).key_text() == old(category).key_text()
                &&& final(category).name_text() == old(category).name_text()
                &&& final(category).default_text() == old(category).default_text()
                &&& final(category).description_map() == old(category).description_map()
                &&& final(category).locales()@.dom() == old(category).locales()@.dom().insert(locale@)
                &&& final(category).locales()@[locale@].units() == units
                &&& forall|t: Seq<char>| t != locale@ && old(category).locales()@.contains_key(t) ==>
                    final(category).locales()@[t] == old(category).locales()@[t]
            },
            Err(e) => r == Err::<(), Error>(e) && *final(category) == *old(category),
        },
{
    match assemble(locale, translations, matchers) {
        Ok(map) => {
            category.insert(map);
            Ok(())
        },
        Err(e) => Err(e),
    }
}

} // verus!
