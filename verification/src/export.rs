//! The export of a project as a tree of files: a directory for each
//! category, in it one translation list for each locale, and the manifest
//! beside the directories.

use vstd::prelude::*;
use vstd::utf8::encode_utf8;
use crate::error::Error;
use crate::flt::{synthesis_failure, units_source};
use crate::ir::{Category, Project};
use crate::layout::{render_entries, SerializerState};
use crate::order::lemma_text_lt_trichotomy;
use crate::ordered::OrderedMap;
use crate::ordered::lemma_positions_unique;
use crate::parser::{parsed_entries, parses};
use crate::path_node::PathNode;
use crate::serializer::serialize;
use crate::text::push_text;
use crate::tree::{SyntaxTree, TreeEntry};

verus! {

/// What the manifest of a project says of one category.
#[derive(Clone, Debug, PartialEq, Eq)]
pub struct CategoryConfig {
    pub key: String,
    pub name: String,
    pub default_locale: String,
}

/// What the manifest of a project holds: the name of the project, its
/// default locale if it has one, and its categories in ascending order of
/// their identifiers.
#[derive(Clone, Debug, PartialEq, Eq)]
pub struct ProjectConfig {
    pub name: String,
    pub default_locale: Option<String>,
    pub categories: Vec<CategoryConfig>,
}

impl Project {
    /// What the manifest of the project holds.
    pub fn config(&self) -> (config: ProjectConfig)
        requires
            self.wf(),
        ensures
            config.name@ == self.name@,
            match self.default_locale {
                Some(tag) => config.default_locale is Some && config.default_locale->Some_0@ == tag@,
                None => config.default_locale is None,
            },
            config.categories@.len() == self.categories.values().len(),
            forall|i: int|
                0 <= i < config.categories@.len() ==> {
                    let c = #[trigger] config.categories@[i];
                    let category = self.categories.values()[i];
                    &&& c.key@ == category.key_text()
                    &&& c.name@ == category.name_text()
                    &&& c.default_locale@ == category.default_text()
                },
    {
        let mut categories: Vec<CategoryConfig> = Vec::new();
        let n = self.categories.len();
        let mut i: usize = 0;
        while i < n
            invariant
                i <= n,
                n == self.categories.values().len(),
                categories@.len() == i,
                forall|k: int|
                    0 <= k < i ==> {
                        let c = #[trigger] categories@[k];
                        let category = self.categories.values()[k];
                        &&& c.key@ == category.key_text()
                        &&& c.name@ == category.name_text()
                        &&& c.default_locale@ == category.default_text()
                    },
            decreases n - i,
        {
            let category = self.categories.value_at(i);
            categories.push(
                CategoryConfig {
                    key: category.id().as_str().to_owned(),
                    name: category.name().to_owned(),
                    default_locale: category.default_locale().as_str().to_owned(),
                },
            );
            i += 1;
        }
        ProjectConfig {
            name: self.name.clone(),
            default_locale: match &self.default_locale {
                Some(tag) => Some(tag.as_str().to_owned()),
                None => None,
            },
            categories,
        }
    }
}

/// The name of the file that holds the units of the locale `tag`.
pub open spec fn file_name(tag: Seq<char>) -> Seq<char> {
    tag + ".flt"@
}

/// The name of the file that holds the manifest of a project.
pub open spec fn manifest_name() -> Seq<char> {
    "stringly.toml"@
}

/// The names of the files of the first `n` of the locales `tags`.
pub open spec fn file_names(tags: Seq<Seq<char>>, n: nat) -> Set<Seq<char>> {
    Set::new(|name: Seq<char>| exists|l: int| 0 <= l < n && l < tags.len() && name == file_name(#[trigger] tags[l]))
}

/// The first `n` of the texts `ids`, as a set.
pub open spec fn names_before(ids: Seq<Seq<char>>, n: nat) -> Set<Seq<char>> {
    Set::new(|name: Seq<char>| exists|c: int| 0 <= c < n && c < ids.len() && name == #[trigger] ids[c])
}

/// The source text of the locale at position `l` of the category.
pub open spec fn locale_source(category: Category, l: int) -> Seq<char> {
    units_source(
        category.locales().values()[l].translation_units.values(),
        category.locales().values()[l].translation_units.values().len(),
        category.description_map()@,
    )
}

/// Whether the source texts of the first `n` locales of the category parse.
pub open spec fn locales_parse(category: Category, n: nat) -> bool {
    forall|l: int| 0 <= l < n && l < category.locales().values().len() ==> parses(
        #[trigger] locale_source(category, l),
    )
}

/// Whether `e` is the failure of the first locale of the category whose
/// source text does not parse.
pub open spec fn category_failure(category: Category, e: Error) -> bool {
    exists|l: int|
        0 <= l < category.locales().values().len() && locales_parse(category, l as nat) && !parses(
            locale_source(category, l),
        ) && synthesis_failure(e, #[trigger] locale_source(category, l))
}

/// The bytes of the canonical text of the given entries.
pub open spec fn canonical_bytes(entries: Seq<TreeEntry>) -> Seq<u8> {
    encode_utf8(render_entries(entries, entries.len(), false, SerializerState::start()).writer.text)
}

/// What the file of the locale at position `l` of the category holds: the
/// canonical text of the tree that the parser makes of the locale's source
/// text.
pub open spec fn locale_bytes(category: Category, l: int) -> Seq<u8> {
    canonical_bytes(parsed_entries(locale_source(category, l)))
}

/// Whether `d` holds one file for each of the first `n` locales of the
/// category, under the name of the locale and with the canonical text of its
/// tree, and nothing else.
pub open spec fn holds_locale_files(d: OrderedMap<String, PathNode>, category: Category, n: nat) -> bool {
    &&& d.wf()
    &&& d@.dom() == file_names(category.locales().key_texts(), n)
    &&& forall|l: int|
        0 <= l < n && l < category.locales().key_texts().len() ==> {
            let name = file_name(#[trigger] category.locales().key_texts()[l]);
            &&& d@.contains_key(name)
            &&& d@[name] matches PathNode::File(bytes)
            &&& bytes@ == locale_bytes(category, l)
        }
}

/// Two locales with one file name are one locale.
pub proof fn lemma_file_name_identifies(a: Seq<char>, b: Seq<char>)
    requires
        file_name(a) == file_name(b),
    ensures
        a == b,
{
    assert(file_name(a).len() == a.len() + ".flt"@.len());
    assert(file_name(b).len() == b.len() + ".flt"@.len());
    assert(a =~= file_name(a).subrange(0, a.len() as int));
    assert(b =~= file_name(b).subrange(0, b.len() as int));
}

/// The file that holds a tree: the bytes of its canonical text.
pub fn tree_file(tree: &SyntaxTree) -> (file: PathNode)
    ensures
        file matches PathNode::File(bytes) && bytes@ == canonical_bytes(tree.body@),
{
    let text = serialize(tree);
    PathNode::File(text.as_str().as_bytes_vec())
}

/// The files of one category: for each locale, in ascending order, the
/// canonical text of the tree that its source text parses to.
pub fn export_category(category: &Category) -> (r: Result<OrderedMap<String, PathNode>, Error>)
    requires
        category.wf(),
    ensures
        r is Ok <==> locales_parse(*category, category.locales().values().len()),
        r matches Ok(d) ==> holds_locale_files(d, *category, category.locales().values().len()),
        r matches Err(e) ==> category_failure(*category, e),
{
    let mut subfiles: OrderedMap<String, PathNode> = OrderedMap::new();
    let locales = category.translation_units();
    let n = locales.len();
    let ghost tags = category.locales().key_texts();
    assert(subfiles@.dom() =~= file_names(tags, 0));
    let mut i: usize = 0;
    while i < n
        invariant
            i <= n,
            n == category.locales().values().len(),
            *locales == category.locales(),
            tags == category.locales().key_texts(),
            category.wf(),
            locales_parse(*category, i as nat),
            holds_locale_files(subfiles, *category, i as nat),
        decreases n - i,
    {
        let map = locales.value_at(i);
        proof {
            category.locales().lemma_value_at(i as int);
        }
        let tree = match map.to_flt_resource(category.descriptions()) {
            Ok(tree) => tree,
            Err(e) => {
                assert(synthesis_failure(e, locale_source(*category, i as int)));
                return Err(e);
            },
        };
        assert(parses(locale_source(*category, i as int)));
        assert(tree.body@ == parsed_entries(locale_source(*category, i as int)));
        let mut name = map.locale.as_str().to_owned();
        push_text(&mut name, ".flt");
        assert(name@ == file_name(tags[i as int]));
        let ghost before = subfiles@;
        subfiles.insert(name, tree_file(&tree));
        proof {
            let after = file_names(tags, (i + 1) as nat);
            assert forall|x: Seq<char>| subfiles@.dom().contains(x) <==> after.contains(x) by {
                if before.dom().contains(x) {
                    let l = choose|l: int| 0 <= l < i && l < tags.len() && x == file_name(#[trigger] tags[l]);
                    assert(0 <= l < i + 1 && x == file_name(tags[l]));
                }
                if after.contains(x) {
                    let l = choose|l: int| 0 <= l < i + 1 && l < tags.len() && x == file_name(#[trigger] tags[l]);
                    if l < i {
                        assert(file_names(tags, i as nat).contains(x));
                    }
                }
            }
            assert(subfiles@.dom() =~= after);
            assert forall|l: int| 0 <= l < i + 1 implies {
                let other = file_name(#[trigger] tags[l]);
                &&& subfiles@.contains_key(other)
                &&& subfiles@[other] matches PathNode::File(bytes)
                &&& bytes@ == locale_bytes(*category, l)
            } by {
                if l < i {
                    if file_name(tags[l]) == file_name(tags[i as int]) {
                        lemma_file_name_identifies(tags[l], tags[i as int]);
                        lemma_positions_unique(tags, l, i as int);
                    }
                }
            }
        }
        i += 1;
    }
    Ok(subfiles)
}

/// Whether every category of the project has, in its default locale, every
/// unit and attribute that its other locales have.
pub open spec fn bases_cover(project: Project) -> bool {
    forall|c: int| 0 <= c < project.categories.values().len() ==>
        (#[trigger] project.categories.values()[c]).base_covers_all()
}

/// Whether the source texts of all locales of the first `n` categories
/// parse.
pub open spec fn categories_parse(project: Project, n: nat) -> bool {
    forall|c: int| 0 <= c < n && c < project.categories.values().len() ==> locales_parse(
        #[trigger] project.categories.values()[c],
        project.categories.values()[c].locales().values().len(),
    )
}

/// Whether `e` is the failure of the first category, and in it of the first
/// locale, whose source text does not parse.
pub open spec fn project_failure(project: Project, e: Error) -> bool {
    exists|c: int|
        0 <= c < project.categories.values().len() && categories_parse(project, c as nat) && category_failure(
            #[trigger] project.categories.values()[c],
            e,
        )
}

/// Whether the directory `d` is the export of the first `n` categories: one
/// directory for each, under the category's identifier, with the files of
/// its locales.
pub open spec fn holds_categories(d: OrderedMap<String, PathNode>, project: Project, n: nat) -> bool {
    &&& d.wf()
    &&& d@.dom() == names_before(project.categories.key_texts(), n)
    &&& forall|c: int|
        0 <= c < n && c < project.categories.values().len() ==> {
            let category = #[trigger] project.categories.values()[c];
            &&& d@.contains_key(category.key_text())
            &&& d@[category.key_text()] matches PathNode::Directory(sub)
            &&& holds_locale_files(sub, category, category.locales().values().len())
        }
}

fn check_bases(input: &Project) -> (r: Result<(), Error>)
    requires
        input.wf(),
    ensures
        bases_cover(*input) ==> r is Ok,
        !bases_cover(*input) ==> r == Err::<(), Error>(Error::MissingBaseUnit),
{
    let n = input.categories.len();
    let mut i: usize = 0;
    while i < n
        invariant
            i <= n,
            n == input.categories.values().len(),
            input.wf(),
            forall|c: int| 0 <= c < i ==> (#[trigger] input.categories.values()[c]).base_covers_all(),
        decreases n - i,
    {
        match input.categories.value_at(i).check_base_units() {
            Ok(_) => {},
            Err(_) => {
                return Err(Error::MissingBaseUnit);
            },
        }
        i += 1;
    }
    Ok(())
}

/// The export of a project as a tree of files: a directory for each
/// category, in it a file for each locale with the canonical text of the
/// locale's units, and the manifest beside the directories.
///
/// The export is refused with `MissingBaseUnit` if and only if some locale
/// defines what the default locale of its category lacks. Else it fails if
/// and only if the source text of some locale does not parse, with the
/// failure of the first such locale. What the files hold is the canonical
/// text of what the parser made of the source texts.
pub fn generate(input: Project, manifest: Vec<u8>) -> (r: Result<PathNode, Error>)
    requires
        input.wf(),
    ensures
        !bases_cover(input) ==> r == Err::<PathNode, Error>(Error::MissingBaseUnit),
        bases_cover(input) ==> (r is Ok <==> categories_parse(input, input.categories.values().len())),
        bases_cover(input) ==> (r matches Err(e) ==> project_failure(input, e)),
        r matches Ok(node) ==> node matches PathNode::Directory(d) && exported(d, input, manifest@),
{
    match check_bases(&input) {
        Ok(_) => {},
        Err(_) => {
            return Err(Error::MissingBaseUnit);
        },
    }
    let mut files: OrderedMap<String, PathNode> = OrderedMap::new();
    let n = input.categories.len();
    let ghost ids = input.categories.key_texts();
    assert(files@.dom() =~= names_before(ids, 0));
    let mut i: usize = 0;
    while i < n
        invariant
            i <= n,
            n == input.categories.values().len(),
            n == ids.len(),
            ids == input.categories.key_texts(),
            input.wf(),
            bases_cover(input),
            categories_parse(input, i as nat),
            holds_categories(files, input, i as nat),
        decreases n - i,
    {
        let category = input.categories.value_at(i);
        proof {
            input.categories.lemma_value_at(i as int);
        }
        let subfiles = match export_category(category) {
            Ok(subfiles) => subfiles,
            Err(e) => {
                return Err(e);
            },
        };
        let ghost before = files@;
        files.insert(category.id().as_str().to_owned(), PathNode::Directory(subfiles));
        proof {
            let after = names_before(ids, (i + 1) as nat);
            assert(ids[i as int] == category.key_text());
            assert forall|x: Seq<char>| files@.dom().contains(x) <==> after.contains(x) by {
                if before.dom().contains(x) {
                    let c = choose|c: int| 0 <= c < i && c < ids.len() && x == #[trigger] ids[c];
                    assert(0 <= c < i + 1 && x == ids[c]);
                }
                if after.contains(x) {
                    let c = choose|c: int| 0 <= c < i + 1 && c < ids.len() && x == #[trigger] ids[c];
                    if c < i {
                        assert(names_before(ids, i as nat).contains(x));
                    }
                }
            }
            assert(files@.dom() =~= after);
            assert forall|c: int| 0 <= c < i + 1 implies {
                let other = #[trigger] input.categories.values()[c];
                &&& files@.contains_key(other.key_text())
                &&& files@[other.key_text()] matches PathNode::Directory(sub)
                &&& holds_locale_files(sub, other, other.locales().values().len())
            } by {
                if c < i {
                    input.categories.lemma_ascending(c, i as int);
                    lemma_text_lt_trichotomy(
                        input.categories.values()[c].key_text(),
                        category.key_text(),
                    );
                }
            }
        }
        i += 1;
    }
    let mut name = String::new();
    push_text(&mut name, "stringly.toml");
    files.insert(name, PathNode::File(manifest));
    Ok(PathNode::Directory(files))
}

/// Whether the directory `d` is the export of the project: the manifest
/// under its name, and for each category, unless its identifier is the name
/// of the manifest, a directory with the files of its locales.
pub open spec fn exported(d: OrderedMap<String, PathNode>, project: Project, manifest: Seq<u8>) -> bool {
    &&& d.wf()
    &&& d@.dom() == names_before(project.categories.key_texts(), project.categories.key_texts().len()).insert(
        manifest_name(),
    )
    &&& d@[manifest_name()] matches PathNode::File(bytes)
    &&& bytes@ == manifest
    &&& forall|c: int|
        0 <= c < project.categories.values().len() ==> {
            let category = #[trigger] project.categories.values()[c];
            category.key_text() != manifest_name() ==> {
                &&& d@[category.key_text()] matches PathNode::Directory(sub)
                &&& holds_locale_files(sub, category, category.locales().values().len())
            }
        }
}

} // verus!
