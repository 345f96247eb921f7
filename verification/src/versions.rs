//! The version registry: which versions of the site exist, under which titles,
//! and which aliases point to them.

use std::cmp::Ordering;
use vstd::prelude::*;
use vstd::string::*;
use crate::assoc::{
    get, has_key, key_index, lemma_key_index, lemma_put, lemma_put_all, lemma_put_all_same,
    lemma_put_same, put, put_all, unique_keys,
};
use crate::order::{compare_tags, semver_text, sign_of, tag_order};
use crate::text::{bytes_of, lemma_lex_order_chain, same_text, text_order};

verus! {

/// The name of the registry's file in the published branch.
pub const VERSIONS_FILE: &'static str = "versions.json";

/// One deployed version of the site.
#[derive(Debug)]
pub struct Version {
    pub tag: String,
    pub title: Option<String>,
}

/// The text of an optional string.
pub open spec fn opt_text(t: Option<String>) -> Option<Seq<char>> {
    match t {
        Some(s) => Some(s@),
        None => None,
    }
}

/// The texts of a sequence of strings.
pub open spec fn texts(v: Seq<String>) -> Seq<Seq<char>> {
    v.map_values(|s: String| s@)
}

/// Copies an optional string.
pub fn clone_opt(t: &Option<String>) -> (r: Option<String>)
    ensures
        opt_text(r) == opt_text(*t),
{
    match t {
        Some(s) => Some(s.clone()),
        None => None,
    }
}

impl View for Version {
    type V = (Seq<char>, Option<Seq<char>>);

    /// The tag and the title.
    open spec fn view(&self) -> (Seq<char>, Option<Seq<char>>) {
        (self.tag@, opt_text(self.title))
    }
}

impl Clone for Version {
    fn clone(&self) -> (r: Version)
        ensures
            r@ == self@,
    {
        Version { tag: self.tag.clone(), title: clone_opt(&self.title) }
    }
}

/// The title under which a version is shown: its own, or else its tag.
pub open spec fn shown_title(v: (Seq<char>, Option<Seq<char>>)) -> Seq<char> {
    match v.1 {
        Some(t) => t,
        None => v.0,
    }
}

impl Version {
    pub fn new(tag: String, title: Option<String>) -> (v: Version)
        ensures
            v.tag == tag,
            v.title == title,
    {
        Version { tag, title }
    }

    /// Compares by the listing order of the tags; titles play no part.
    pub fn cmp(&self, other: &Version) -> (r: Ordering)
        ensures
            sign_of(r) == tag_order(self.tag@, other.tag@),
            sign_of(r) == -tag_order(other.tag@, self.tag@),
    {
        compare_tags(self.tag.as_str(), other.tag.as_str())
    }

    /// Whether the listing order puts this version strictly after the other.
    pub fn listed_after(&self, other: &Version) -> (r: bool)
        ensures
            r == (tag_order(self.tag@, other.tag@) > 0),
            r == (tag_order(other.tag@, self.tag@) < 0),
    {
        match self.cmp(other) {
            Ordering::Greater => true,
            _ => false,
        }
    }

    /// The title under which the version is shown.
    pub fn display_title(&self) -> (r: String)
        ensures
            r@ == shown_title(self@),
    {
        match &self.title {
            Some(t) => t.clone(),
            None => self.tag.clone(),
        }
    }

    /// The tag, followed by the title in parentheses where there is one.
    pub fn to_string(&self) -> (r: String)
        ensures
            r@ == match self.title {
                Some(t) => self.tag@ + " ("@ + t@ + ")"@,
                None => self.tag@,
            },
    {
        let mut out: String = self.tag.clone();
        match &self.title {
            Some(t) => {
                out.append(" (");
                out.append(t.as_str());
                out.append(")");
            },
            None => {},
        }
        out
    }
}

/// The registry as two association lists, each in the order in which its keys
/// were first bound.
pub struct RegistryView {
    /// Tag and title of each version.
    pub versions: Seq<(Seq<char>, Option<Seq<char>>)>,
    /// Alias and the tag it points to.
    pub aliases: Seq<(Seq<char>, Seq<char>)>,
}

/// The registry after a version was registered: the tag bound to the title,
/// and each given alias bound to the tag.
pub open spec fn upserted(
    r: RegistryView,
    tag: Seq<char>,
    title: Option<Seq<char>>,
    aliases: Seq<Seq<char>>,
) -> RegistryView {
    RegistryView {
        versions: put(r.versions, tag, title),
        aliases: put_all(r.aliases, aliases, tag),
    }
}

/// One rewrite rule: everything under the alias is served from the tag.
pub open spec fn rewrite_line(alias: Seq<char>, tag: Seq<char>) -> Seq<char> {
    "/"@ + alias + "/* /"@ + tag + "/:splat 200\n"@
}

/// The catch-all rule: the site root is served from the tag.
pub open spec fn catch_all_line(tag: Seq<char>) -> Seq<char> {
    "/* /"@ + tag + "/:splat 200\n"@
}

/// One rewrite rule for each binding, in the bindings' order.
pub open spec fn alias_lines(b: Seq<(Seq<char>, Seq<char>)>) -> Seq<Seq<char>> {
    Seq::new(b.len(), |i: int| rewrite_line(b[i].0, b[i].1))
}

/// The lines of the redirect document: a rule for each alias, then the
/// catch-all rule where the default alias is bound.
pub open spec fn redirect_lines(b: Seq<(Seq<char>, Seq<char>)>, default_alias: Seq<char>) -> Seq<
    Seq<char>,
> {
    match get(b, default_alias) {
        Some(tag) => alias_lines(b).push(catch_all_line(tag)),
        None => alias_lines(b),
    }
}

/// The lines one after the other.
pub open spec fn joined(lines: Seq<Seq<char>>) -> Seq<char>
    decreases lines.len(),
{
    if lines.len() == 0 {
        Seq::empty()
    } else {
        joined(lines.drop_last()) + lines.last()
    }
}

/// The versions among `vs` that a search for `query` finds: all of them where
/// `query` is a bound alias, else the one tagged `query`.
pub open spec fn found(vs: Seq<Version>, bound: bool, query: Seq<char>) -> Seq<Version> {
    vs.filter(|v: Version| bound || v.tag@ == query)
}

/// The registry of versions and aliases.
#[derive(Debug)]
pub struct Versions {
    pub versions: Vec<Version>,
    pub aliases: Vec<(String, String)>,
}

impl View for Versions {
    type V = RegistryView;

    open spec fn view(&self) -> RegistryView {
        RegistryView {
            versions: self.versions@.map_values(|v: Version| v@),
            aliases: self.aliases@.map_values(|b: (String, String)| (b.0@, b.1@)),
        }
    }
}

impl Default for Versions {
    fn default() -> (r: Versions)
        ensures
            r.wf(),
            r@.versions.len() == 0,
            r@.aliases.len() == 0,
    {
        Versions { versions: Vec::new(), aliases: Vec::new() }
    }
}

impl Clone for Versions {
    fn clone(&self) -> (r: Versions)
        ensures
            r@ == self@,
    {
        let mut versions: Vec<Version> = Vec::new();
        let mut i: usize = 0;
        while i < self.versions.len()
            invariant
                i <= self.versions.len(),
                versions@.len() == i,
                forall|j: int| 0 <= j < i ==> versions@[j]@ == self.versions@[j]@,
            decreases self.versions.len() - i,
        {
            versions.push(self.versions[i].clone());
            i += 1;
        }
        let mut aliases: Vec<(String, String)> = Vec::new();
        let mut k: usize = 0;
        while k < self.aliases.len()
            invariant
                k <= self.aliases.len(),
                aliases@.len() == k,
                forall|j: int|
                    0 <= j < k ==> aliases@[j].0@ == self.aliases@[j].0@ && aliases@[j].1@
                        == self.aliases@[j].1@,
            decreases self.aliases.len() - k,
        {
            aliases.push((self.aliases[k].0.clone(), self.aliases[k].1.clone()));
            k += 1;
        }
        let r = Versions { versions, aliases };
        proof {
            assert(r@.versions =~= self@.versions);
            assert(r@.aliases =~= self@.aliases);
        }
        r
    }
}

impl Versions {
    /// No tag and no alias occurs twice.
    pub open spec fn wf(&self) -> bool {
        unique_keys(self@.versions) && unique_keys(self@.aliases)
    }

    fn version_index(&self, tag: &str) -> (r: Option<usize>)
        ensures
            r is Some <==> has_key(self@.versions, tag@),
            r matches Some(i) ==> i < self.versions.len() && self.versions[i as int].tag@ == tag@,
    {
        let mut i: usize = 0;
        while i < self.versions.len()
            invariant
                i <= self.versions.len(),
                forall|j: int| 0 <= j < i ==> self.versions[j].tag@ != tag@,
            decreases self.versions.len() - i,
        {
            if same_text(self.versions[i].tag.as_str(), tag) {
                proof {
                    assert(self@.versions[i as int].0 == tag@);
                }
                return Some(i);
            }
            i += 1;
        }
        proof {
            if has_key(self@.versions, tag@) {
                let j = key_index(self@.versions, tag@);
                assert(self@.versions[j].0 == self.versions[j].tag@);
            }
        }
        None
    }

    fn alias_index(&self, alias: &str) -> (r: Option<usize>)
        ensures
            r is Some <==> has_key(self@.aliases, alias@),
            r matches Some(i) ==> i < self.aliases.len() && self.aliases[i as int].0@ == alias@,
    {
        let mut i: usize = 0;
        while i < self.aliases.len()
            invariant
                i <= self.aliases.len(),
                forall|j: int| 0 <= j < i ==> self.aliases[j].0@ != alias@,
            decreases self.aliases.len() - i,
        {
            if same_text(self.aliases[i].0.as_str(), alias) {
                proof {
                    assert(self@.aliases[i as int].0 == alias@);
                }
                return Some(i);
            }
            i += 1;
        }
        proof {
            if has_key(self@.aliases, alias@) {
                let j = key_index(self@.aliases, alias@);
                assert(self@.aliases[j].0 == self.aliases[j].0@);
            }
        }
        None
    }

    /// The version with the given tag.
    pub fn by_tag(&self, tag: &str) -> (r: Option<&Version>)
        requires
            self.wf(),
        ensures
            r is Some <==> has_key(self@.versions, tag@),
            r matches Some(v) ==> v.tag@ == tag@ && Some(opt_text(v.title)) == get(
                self@.versions,
                tag@,
            ),
    {
        match self.version_index(tag) {
            Some(i) => {
                proof {
                    lemma_key_index(self@.versions, tag@, i as int);
                }
                Some(&self.versions[i])
            },
            None => None,
        }
    }

    /// The version that the alias points to. An alias may point to a tag that
    /// no version has; then there is none.
    pub fn by_alias(&self, alias: &str) -> (r: Option<&Version>)
        requires
            self.wf(),
        ensures
            r is Some <==> (get(self@.aliases, alias@) matches Some(tag) && has_key(
                self@.versions,
                tag,
            )),
            r matches Some(v) ==> Some(v.tag@) == get(self@.aliases, alias@) && Some(
                opt_text(v.title),
            ) == get(self@.versions, v.tag@),
    {
        match self.alias_index(alias) {
            Some(i) => {
                proof {
                    lemma_key_index(self@.aliases, alias@, i as int);
                }
                self.by_tag(self.aliases[i].1.as_str())
            },
            None => None,
        }
    }

    /// The versions that a query finds, in the registry's order: every version
    /// where the query is a bound alias, whatever it points to; else the
    /// version tagged with the query, if there is one.
    pub fn search(&self, tag_or_alias: &str) -> (r: Vec<&Version>)
        ensures
            r@.map_values(|v: &Version| *v) == found(
                self.versions@,
                has_key(self@.aliases, tag_or_alias@),
                tag_or_alias@,
            ),
    {
        let bound: bool = self.alias_index(tag_or_alias).is_some();
        let mut out: Vec<&Version> = Vec::new();
        let mut i: usize = 0;
        while i < self.versions.len()
            invariant
                i <= self.versions.len(),
                bound == has_key(self@.aliases, tag_or_alias@),
                out@.map_values(|v: &Version| *v) == found(
                    self.versions@.take(i as int),
                    bound,
                    tag_or_alias@,
                ),
            decreases self.versions.len() - i,
        {
            let v: &Version = &self.versions[i];
            let ghost before = out@.map_values(|v: &Version| *v);
            proof {
                assert(self.versions@.take(i as int + 1).drop_last() =~= self.versions@.take(
                    i as int,
                ));
                reveal(Seq::filter);
            }
            if bound || same_text(v.tag.as_str(), tag_or_alias) {
                out.push(v);
                proof {
                    assert(out@.map_values(|v: &Version| *v) =~= before.push(*v));
                }
            }
            i += 1;
        }
        proof {
            assert(self.versions@.take(i as int) =~= self.versions@);
        }
        out
    }

    /// Points each of the aliases to the tag, first alias first.
    fn bind_all(&mut self, aliases: &Vec<String>, tag: &str)
        requires
            unique_keys(old(self)@.aliases),
        ensures
            unique_keys(final(self)@.aliases),
            final(self).versions == old(self).versions,
            final(self)@.aliases == put_all(old(self)@.aliases, texts(aliases@), tag@),
    {
        let mut k: usize = 0;
        while k < aliases.len()
            invariant
                k <= aliases.len(),
                self.versions == old(self).versions,
                unique_keys(self@.aliases),
                self@.aliases == put_all(old(self)@.aliases, texts(aliases@.take(k as int)), tag@),
            decreases aliases.len() - k,
        {
            let ghost before = self@.aliases;
            let alias: String = aliases[k].clone();
            proof {
                lemma_put(before, alias@, tag@);
                assert(texts(aliases@.take(k as int + 1)).drop_last() =~= texts(
                    aliases@.take(k as int),
                ));
                assert(texts(aliases@.take(k as int + 1)).last() == alias@);
            }
            match self.alias_index(alias.as_str()) {
                Some(i) => {
                    proof {
                        lemma_key_index(before, alias@, i as int);
                    }
                    self.aliases.set(i, (alias, String::from_str(tag)));
                },
                None => {
                    self.aliases.push((alias, String::from_str(tag)));
                },
            }
            proof {
                assert(self@.aliases =~= put(before, alias@, tag@));
            }
            k += 1;
        }
        proof {
            assert(aliases@.take(k as int) =~= aliases@);
        }
    }

    /// Registers a version: binds the tag to the title, replacing the version
    /// that had the tag, and points each given alias to the tag. Other aliases
    /// stay as they are. Returns the version now registered under the tag.
    pub fn add(&mut self, version_tag: String, title: Option<String>, aliases: Vec<String>) -> (r:
        Option<&Version>)
        requires
            old(self).wf(),
        ensures
            final(self).wf(),
            final(self)@ == upserted(old(self)@, version_tag@, opt_text(title), texts(aliases@)),
            r matches Some(v) && v@ == (version_tag@, opt_text(title)),
    {
        let version = Version::new(version_tag.clone(), title);
        proof {
            lemma_put(self@.versions, version_tag@, opt_text(title));
        }
        match self.version_index(version_tag.as_str()) {
            Some(i) => {
                proof {
                    lemma_key_index(self@.versions, version_tag@, i as int);
                }
                self.versions.set(i, version);
            },
            None => {
                self.versions.push(version);
            },
        }
        proof {
            assert(self@.versions =~= put(old(self)@.versions, version_tag@, opt_text(title)));
        }
        self.bind_all(&aliases, version_tag.as_str());
        self.by_tag(version_tag.as_str())
    }

    /// The redirect document: for each alias a rule that serves its paths from
    /// the tag it points to, and, where the default alias is bound, a last rule
    /// that serves the site root from the default alias's tag.
    pub fn netlify_rewrites(&self, default_alias: String) -> (r: String)
        requires
            self.wf(),
        ensures
            r@ == joined(redirect_lines(self@.aliases, default_alias@)),
    {
        let mut result: String = String::new();
        let mut default_tag: Option<usize> = None;
        let mut i: usize = 0;
        while i < self.aliases.len()
            invariant
                i <= self.aliases.len(),
                result@ == joined(alias_lines(self@.aliases).take(i as int)),
                default_tag matches Some(d) ==> d < i && self.aliases[d as int].0@
                    == default_alias@,
                default_tag is None ==> forall|j: int|
                    0 <= j < i ==> self.aliases[j].0@ != default_alias@,
            decreases self.aliases.len() - i,
        {
            let ghost lines = alias_lines(self@.aliases);
            let ghost before = result@;
            proof {
                assert(lines.take(i as int + 1).drop_last() =~= lines.take(i as int));
                assert(lines.take(i as int + 1).last() == rewrite_line(
                    self.aliases[i as int].0@,
                    self.aliases[i as int].1@,
                ));
            }
            result.append("/");
            result.append(self.aliases[i].0.as_str());
            result.append("/* /");
            result.append(self.aliases[i].1.as_str());
            result.append("/:splat 200\n");
            proof {
                assert(result@ =~= before + rewrite_line(
                    self.aliases[i as int].0@,
                    self.aliases[i as int].1@,
                ));
            }
            if same_text(self.aliases[i].0.as_str(), default_alias.as_str()) {
                default_tag = Some(i);
            }
            i += 1;
        }
        proof {
            let lines = alias_lines(self@.aliases);
            assert(lines.take(i as int) =~= lines);
        }
        match default_tag {
            Some(d) => {
                let ghost before = result@;
                proof {
                    assert(self@.aliases[d as int].0 == default_alias@);
                    lemma_key_index(self@.aliases, default_alias@, d as int);
                    let all = redirect_lines(self@.aliases, default_alias@);
                    assert(all.drop_last() =~= alias_lines(self@.aliases));
                }
                result.append("/* /");
                result.append(self.aliases[d].1.as_str());
                result.append("/:splat 200\n");
                proof {
                    assert(result@ =~= before + catch_all_line(self.aliases[d as int].1@));
                }
            },
            None => {
                proof {
                    if has_key(self@.aliases, default_alias@) {
                        let j = key_index(self@.aliases, default_alias@);
                        assert(self@.aliases[j].0 == self.aliases[j].0@);
                    }
                }
            },
        }
        result
    }
}

/// One element of the persisted document: a version with the aliases that
/// point to it.
#[derive(Debug)]
pub struct VersionWithAliases {
    pub version: String,
    pub title: Option<String>,
    pub aliases: Vec<String>,
}

/// What an element of the document holds.
pub struct EntryView {
    pub version: Seq<char>,
    pub title: Option<Seq<char>>,
    pub aliases: Seq<Seq<char>>,
}

impl View for VersionWithAliases {
    type V = EntryView;

    open spec fn view(&self) -> EntryView {
        EntryView {
            version: self.version@,
            title: opt_text(self.title),
            aliases: texts(self.aliases@),
        }
    }
}

/// The views of a sequence of document elements.
pub open spec fn entry_views(items: Seq<VersionWithAliases>) -> Seq<EntryView> {
    items.map_values(|e: VersionWithAliases| e@)
}

/// Why a document cannot be read.
#[derive(Debug)]
pub enum DocumentError {
    /// An element has no title; it holds the element's tag.
    MissingTitle(String),
    /// Two elements have the same tag; it holds that tag.
    DuplicateTag(String),
}

impl DocumentError {
    /// The message of the error.
    pub fn to_string(&self) -> (r: String)
        ensures
            r@ == match *self {
                DocumentError::MissingTitle(_) => "missing field `title`"@,
                DocumentError::DuplicateTag(_) => "duplicate version tag"@,
            },
    {
        match self {
            DocumentError::MissingTitle(_) => String::from_str("missing field `title`"),
            DocumentError::DuplicateTag(_) => String::from_str("duplicate version tag"),
        }
    }
}

/// The aliases that point to the tag, in the bindings' order.
pub open spec fn aliases_of(b: Seq<(Seq<char>, Seq<char>)>, tag: Seq<char>) -> Seq<Seq<char>>
    decreases b.len(),
{
    if b.len() == 0 {
        Seq::empty()
    } else if b.last().1 == tag {
        aliases_of(b.drop_last(), tag).push(b.last().0)
    } else {
        aliases_of(b.drop_last(), tag)
    }
}

/// The document element of a version: its tag, the title under which it is
/// shown, and the aliases that point to it.
pub open spec fn entry_of(r: RegistryView, i: int) -> EntryView {
    EntryView {
        version: r.versions[i].0,
        title: Some(shown_title(r.versions[i])),
        aliases: aliases_of(r.aliases, r.versions[i].0),
    }
}

/// Whether `order` names the place `v`.
pub open spec fn names(order: Seq<usize>, v: int) -> bool {
    exists|i: int| 0 <= i < order.len() && #[trigger] order[i] == v
}

/// Whether `order` names every version once, and no version is named directly
/// before one that the listing order puts strictly before it.
pub open spec fn is_listing_order(order: Seq<usize>, versions: Seq<(Seq<char>, Option<Seq<char>>)>) -> bool {
    &&& order.len() == versions.len()
    &&& forall|i: int| 0 <= i < order.len() ==> (#[trigger] order[i]) < versions.len()
    &&& forall|i: int, j: int| 0 <= i < j < order.len() ==> order[i] != order[j]
    &&& forall|v: int| 0 <= v < versions.len() ==> #[trigger] names(order, v)
    &&& forall|i: int, j: int|
        0 <= i && j == i + 1 && j < order.len() ==> tag_order(
            versions[(#[trigger] order[i]) as int].0,
            versions[(#[trigger] order[j]) as int].0,
        ) <= 0
}

/// Whether `doc` is the registry's document with its elements in `order`.
pub open spec fn is_document(r: RegistryView, order: Seq<usize>, doc: Seq<EntryView>) -> bool {
    &&& is_listing_order(order, r.versions)
    &&& doc.len() == order.len()
    &&& forall|i: int| 0 <= i < doc.len() ==> #[trigger] doc[i] == entry_of(r, order[i] as int)
}

/// Whether every element has a title.
pub open spec fn all_titled(items: Seq<EntryView>) -> bool {
    forall|i: int| 0 <= i < items.len() ==> (#[trigger] items[i]).title is Some
}

/// Whether no two elements have the same tag.
pub open spec fn distinct_tags(items: Seq<EntryView>) -> bool {
    forall|i: int, j: int|
        0 <= i < j < items.len() ==> (#[trigger] items[i]).version != (#[trigger] items[j]).version
}

/// The alias bindings that a document gives: each element's aliases bound to
/// its tag, first element first.
pub open spec fn document_aliases(items: Seq<EntryView>) -> Seq<(Seq<char>, Seq<char>)>
    decreases items.len(),
{
    if items.len() == 0 {
        Seq::empty()
    } else {
        put_all(document_aliases(items.drop_last()), items.last().aliases, items.last().version)
    }
}

/// The registry that a document gives.
pub open spec fn loaded(items: Seq<EntryView>) -> RegistryView {
    RegistryView {
        versions: Seq::new(items.len(), |i: int| (items[i].version, items[i].title)),
        aliases: document_aliases(items),
    }
}

impl Versions {
    /// The aliases that point to the tag.
    pub fn aliases_for(&self, tag: &str) -> (r: Vec<String>)
        ensures
            texts(r@) == aliases_of(self@.aliases, tag@),
    {
        let mut out: Vec<String> = Vec::new();
        let mut i: usize = 0;
        while i < self.aliases.len()
            invariant
                i <= self.aliases.len(),
                texts(out@) == aliases_of(self@.aliases.take(i as int), tag@),
            decreases self.aliases.len() - i,
        {
            let ghost before = texts(out@);
            proof {
                assert(self@.aliases.take(i as int + 1).drop_last() =~= self@.aliases.take(
                    i as int,
                ));
            }
            if same_text(self.aliases[i].1.as_str(), tag) {
                out.push(self.aliases[i].0.clone());
                proof {
                    assert(texts(out@) =~= before.push(self.aliases[i as int].0@));
                }
            }
            i += 1;
        }
        proof {
            assert(self@.aliases.take(i as int) =~= self@.aliases);
        }
        out
    }

    /// The places of the versions in listing order.
    pub fn listing_order(&self) -> (order: Vec<usize>)
        ensures
            is_listing_order(order@, self@.versions),
    {
        let n: usize = self.versions.len();
        let mut order: Vec<usize> = Vec::new();
        let mut k: usize = 0;
        while k < n
            invariant
                n == self.versions.len(),
                k <= n,
                order@.len() == k,
                forall|i: int| 0 <= i < order@.len() ==> (#[trigger] order@[i]) < k,
                forall|i: int, j: int| 0 <= i < j < order@.len() ==> order@[i] != order@[j],
                forall|v: int| 0 <= v < k ==> #[trigger] names(order@, v),
                forall|i: int, j: int|
                    0 <= i && j == i + 1 && j < order@.len() ==> tag_order(
                        self@.versions[(#[trigger] order@[i]) as int].0,
                        self@.versions[(#[trigger] order@[j]) as int].0,
                    ) <= 0,
            decreases n - k,
        {
            let mut j: usize = order.len();
            let mut settled: bool = false;
            while j > 0 && !settled
                invariant
                    j <= order@.len(),
                    order@.len() == k,
                    k < n,
                    n == self.versions.len(),
                    forall|i: int| 0 <= i < order@.len() ==> (#[trigger] order@[i]) < k,
                    j < order@.len() ==> tag_order(
                        self@.versions[k as int].0,
                        self@.versions[order@[j as int] as int].0,
                    ) <= 0,
                    settled ==> j > 0 && tag_order(
                        self@.versions[order@[j - 1] as int].0,
                        self@.versions[k as int].0,
                    ) <= 0,
                decreases j + (if settled { 0int } else { 1int }),
            {
                let before: usize = order[j - 1];
                if self.versions[before].listed_after(&self.versions[k]) {
                    j -= 1;
                } else {
                    settled = true;
                }
            }
            let ghost old_order = order@;
            order.insert(j, k);
            proof {
                let new_order = order@;
                assert(new_order == old_order.insert(j as int, k));
                assert forall|i: int| 0 <= i < new_order.len() implies (#[trigger] new_order[i]) < k
                    + 1 by {
                    if i < j {
                        assert(new_order[i] == old_order[i]);
                    } else if i > j {
                        assert(new_order[i] == old_order[i - 1]);
                    }
                }
                assert forall|a: int, b: int| 0 <= a < b < new_order.len() implies new_order[a]
                    != new_order[b] by {
                    let oa = if a < j { a } else { a - 1 };
                    let ob = if b < j { b } else { b - 1 };
                    if a != j {
                        assert(new_order[a] == old_order[oa]);
                    }
                    if b != j {
                        assert(new_order[b] == old_order[ob]);
                    }
                }
                assert forall|v: int| 0 <= v < k + 1 implies #[trigger] names(new_order, v) by {
                    if v == k {
                        assert(new_order[j as int] == k);
                    } else {
                        assert(names(old_order, v));
                        let w = choose|w: int| 0 <= w < old_order.len() && #[trigger] old_order[w] == v;
                        if w < j {
                            assert(new_order[w] == old_order[w]);
                        } else {
                            assert(new_order[w + 1] == old_order[w]);
                        }
                    }
                }
                assert forall|i: int, i1: int|
                    0 <= i && i1 == i + 1 && i1 < new_order.len() implies tag_order(
                    self@.versions[(#[trigger] new_order[i]) as int].0,
                    self@.versions[(#[trigger] new_order[i1]) as int].0,
                ) <= 0 by {
                    if i + 1 < j {
                        assert(new_order[i] == old_order[i]);
                        assert(new_order[i + 1] == old_order[i + 1]);
                    } else if i + 1 == j {
                        assert(new_order[i] == old_order[i]);
                        assert(new_order[i + 1] == k);
                    } else if i == j {
                        assert(new_order[i] == k);
                        assert(new_order[i + 1] == old_order[i]);
                    } else {
                        assert(new_order[i] == old_order[i - 1]);
                        assert(new_order[i + 1] == old_order[i]);
                    }
                }
            }
            k += 1;
        }
        order
    }

    /// The persisted document: one element for each version, in listing
    /// order, with the title under which the version is shown and the aliases
    /// that point to it.
    pub fn to_entries(&self) -> (doc: Vec<VersionWithAliases>)
        ensures
            exists|order: Seq<usize>| is_document(self@, order, entry_views(doc@)),
    {
        let order: Vec<usize> = self.listing_order();
        let mut doc: Vec<VersionWithAliases> = Vec::new();
        let mut i: usize = 0;
        while i < order.len()
            invariant
                i <= order.len(),
                is_listing_order(order@, self@.versions),
                doc@.len() == i,
                forall|m: int| 0 <= m < i ==> #[trigger] doc@[m]@ == entry_of(self@, order@[m] as int),
            decreases order.len() - i,
        {
            let version: &Version = &self.versions[order[i]];
            let item = VersionWithAliases {
                version: version.tag.clone(),
                title: Some(version.display_title()),
                aliases: self.aliases_for(version.tag.as_str()),
            };
            doc.push(item);
            i += 1;
        }
        proof {
            let views = entry_views(doc@);
            assert forall|m: int| 0 <= m < views.len() implies #[trigger] views[m] == entry_of(
                self@,
                order@[m] as int,
            ) by {
                assert(views[m] == doc@[m]@);
            }
            assert(is_document(self@, order@, views));
        }
        doc
    }

    /// The first element without a title, if any.
    fn first_untitled(items: &Vec<VersionWithAliases>) -> (r: Option<usize>)
        ensures
            r is None <==> all_titled(entry_views(items@)),
            r matches Some(i) ==> i < items@.len() && items@[i as int].title is None && all_titled(
                entry_views(items@).take(i as int),
            ),
    {
        let ghost views = entry_views(items@);
        let mut i: usize = 0;
        while i < items.len()
            invariant
                i <= items.len(),
                views == entry_views(items@),
                all_titled(views.take(i as int)),
            decreases items.len() - i,
        {
            if items[i].title.is_none() {
                proof {
                    assert(views[i as int].title is None);
                }
                return Some(i);
            }
            proof {
                assert forall|m: int| 0 <= m < i + 1 implies (#[trigger] views.take(
                    i as int + 1,
                )[m]).title is Some by {
                    if m < i {
                        assert(views.take(i as int)[m] == views.take(i as int + 1)[m]);
                    } else {
                        assert(views[i as int] == items@[i as int]@);
                    }
                }
            }
            i += 1;
        }
        proof {
            assert(views.take(i as int) =~= views);
        }
        None
    }

    /// Reads a document. It is refused where an element has no title, and
    /// where two of its elements have the same tag; else each element gives a
    /// version, in the document's order, and its aliases are pointed to its
    /// tag.
    pub fn from_entries(items: &Vec<VersionWithAliases>) -> (r: Result<Versions, DocumentError>)
        ensures
            r is Ok <==> all_titled(entry_views(items@)) && distinct_tags(entry_views(items@)),
            r matches Ok(registry) ==> registry.wf() && registry@ == loaded(entry_views(items@)),
            r matches Err(DocumentError::MissingTitle(tag)) ==> exists|i: int|
                0 <= i < items@.len() && (#[trigger] items@[i]).title is None && items@[i].version@
                    == tag@ && all_titled(entry_views(items@).take(i)),
            r matches Err(DocumentError::DuplicateTag(tag)) ==> all_titled(entry_views(items@))
                && exists|i: int, j: int|
                0 <= i < j < items@.len() && #[trigger] items@[i].version@ == tag@
                    && #[trigger] items@[j].version@ == tag@ && distinct_tags(
                    entry_views(items@).take(j),
                ),
    {
        match Versions::first_untitled(items) {
            Some(i) => {
                return Err(DocumentError::MissingTitle(items[i].version.clone()));
            },
            None => {},
        }
        let mut registry = Versions { versions: Vec::new(), aliases: Vec::new() };
        let ghost views = entry_views(items@);
        let mut k: usize = 0;
        proof {
            assert(registry@.versions =~= loaded(views.take(0)).versions);
            assert(registry@.aliases =~= loaded(views.take(0)).aliases);
        }
        while k < items.len()
            invariant
                k <= items.len(),
                views == entry_views(items@),
                all_titled(views),
                registry.wf(),
                distinct_tags(views.take(k as int)),
                registry@.versions == loaded(views.take(k as int)).versions,
                registry@.aliases == loaded(views.take(k as int)).aliases,
            decreases items.len() - k,
        {
            let item: &VersionWithAliases = &items[k];
            let ghost before = registry@;
            proof {
                assert(views.take(k as int + 1).drop_last() =~= views.take(k as int));
                assert(views.take(k as int + 1).last() == item@);
            }
            match registry.version_index(item.version.as_str()) {
                Some(i) => {
                    proof {
                        assert(registry@.versions[i as int].0 == item.version@);
                        assert(views.take(k as int)[i as int].version == item.version@);
                        assert(views[i as int] == items@[i as int]@);
                        assert(views[k as int] == items@[k as int]@);
                        assert(!distinct_tags(views));
                    }
                    return Err(DocumentError::DuplicateTag(item.version.clone()));
                },
                None => {},
            }
            registry.versions.push(Version::new(item.version.clone(), clone_opt(&item.title)));
            proof {
                assert(registry@.versions =~= before.versions.push((item.version@, opt_text(item.title))));
            }
            registry.bind_all(&item.aliases, item.version.as_str());
            proof {
                let next = views.take(k as int + 1);
                assert(registry@.versions =~= loaded(next).versions);
                assert forall|a: int, b: int| 0 <= a < b < next.len() implies (#[trigger] next[a]).version
                    != (#[trigger] next[b]).version by {
                    if b < k {
                        assert(views.take(k as int)[a] == next[a]);
                        assert(views.take(k as int)[b] == next[b]);
                    } else {
                        assert(before.versions[a].0 == next[a].version);
                    }
                }
                assert forall|a: int, b: int| 0 <= a < b < registry@.versions.len() implies (
                #[trigger] registry@.versions[a]).0 != (#[trigger] registry@.versions[b]).0 by {
                    assert(registry@.versions[a].0 == next[a].version);
                    assert(registry@.versions[b].0 == next[b].version);
                }
            }
            k += 1;
        }
        proof {
            assert(views.take(k as int) =~= views);
            assert(registry@ == loaded(views));
        }
        Ok(registry)
    }
}

/// A walk through the registry in listing order.
#[derive(Debug)]
pub struct VersionsIter {
    pub registry: Versions,
    pub order: Vec<usize>,
    pub index: usize,
}

impl VersionsIter {
    /// The walk goes by a listing order of its registry.
    pub open spec fn wf(&self) -> bool {
        is_listing_order(self.order@, self.registry@.versions)
    }

    /// The next version with the aliases that point to it, or nothing when
    /// every version has been given.
    pub fn next(&mut self) -> (r: Option<(Version, Vec<String>)>)
        requires
            old(self).wf(),
        ensures
            final(self).wf(),
            final(self).registry == old(self).registry,
            final(self).order == old(self).order,
            old(self).index >= old(self).order@.len() ==> r is None && final(self).index == old(
                self,
            ).index,
            old(self).index < old(self).order@.len() ==> final(self).index == old(self).index + 1
                && (r matches Some(pair) && pair.0@ == old(self).registry@.versions[old(
                self,
            ).order@[old(self).index as int] as int] && texts(pair.1@) == aliases_of(
                old(self).registry@.aliases,
                pair.0@.0,
            )),
    {
        if self.index >= self.order.len() {
            return None;
        }
        let at: usize = self.order[self.index];
        let version: Version = self.registry.versions[at].clone();
        self.index += 1;
        let aliases: Vec<String> = self.registry.aliases_for(version.tag.as_str());
        Some((version, aliases))
    }
}

impl Versions {
    /// A walk through the registry in listing order, from its start.
    pub fn iter(&self) -> (it: VersionsIter)
        ensures
            it.wf(),
            it.index == 0,
            it.registry@ == self@,
    {
        let order: Vec<usize> = self.listing_order();
        VersionsIter { registry: self.clone(), order, index: 0 }
    }

    /// The registry that the published branch holds: empty where the branch
    /// has no document yet, else what the document gives.
    pub fn from_git(document: Option<&Vec<VersionWithAliases>>) -> (r: Result<
        Versions,
        DocumentError,
    >)
        ensures
            document is None ==> (r matches Ok(registry) && registry.wf()
                && registry@.versions.len() == 0 && registry@.aliases.len() == 0),
            document matches Some(items) ==> {
                &&& r is Ok <==> all_titled(entry_views(items@)) && distinct_tags(
                    entry_views(items@),
                )
                &&& r matches Ok(registry) ==> registry.wf() && registry@ == loaded(
                    entry_views(items@),
                )
            },
    {
        match document {
            None => Ok(Versions::default()),
            Some(items) => Versions::from_entries(items),
        }
    }
}

/// Registering a version twice with the same title and aliases gives the
/// registry that registering it once gives.
pub proof fn lemma_upsert_idempotent(
    r: RegistryView,
    tag: Seq<char>,
    title: Option<Seq<char>>,
    aliases: Seq<Seq<char>>,
)
    requires
        unique_keys(r.versions),
        unique_keys(r.aliases),
    ensures
        upserted(upserted(r, tag, title, aliases), tag, title, aliases) == upserted(
            r,
            tag,
            title,
            aliases,
        ),
{
    let once = upserted(r, tag, title, aliases);
    lemma_put(r.versions, tag, title);
    lemma_put_same(once.versions, tag, title);
    lemma_put_all(r.aliases, aliases, tag);
    lemma_put_all_same(once.aliases, aliases, tag);
}

/// The redirect document has one line for each alias, in the aliases' order,
/// and after them the catch-all line exactly where the default alias is bound.
pub proof fn lemma_redirect_lines(b: Seq<(Seq<char>, Seq<char>)>, default_alias: Seq<char>)
    ensures
        alias_lines(b).len() == b.len(),
        forall|i: int|
            0 <= i < b.len() ==> #[trigger] redirect_lines(b, default_alias)[i] == rewrite_line(
                b[i].0,
                b[i].1,
            ),
        has_key(b, default_alias) ==> redirect_lines(b, default_alias).len() == b.len() + 1
            && redirect_lines(b, default_alias).last() == catch_all_line(
            get(b, default_alias).unwrap(),
        ),
        !has_key(b, default_alias) ==> redirect_lines(b, default_alias).len() == b.len(),
{
}

/// An alias is among the aliases of a tag exactly where a binding points it
/// to the tag.
pub proof fn lemma_aliases_of(b: Seq<(Seq<char>, Seq<char>)>, tag: Seq<char>)
    ensures
        forall|a: Seq<char>| #[trigger]
            aliases_of(b, tag).contains(a) <==> exists|k: int|
                0 <= k < b.len() && #[trigger] b[k] == (a, tag),
    decreases b.len(),
{
    if b.len() > 0 {
        let prev = b.drop_last();
        lemma_aliases_of(prev, tag);
        let now = aliases_of(b, tag);
        let before = aliases_of(prev, tag);
        assert forall|a: Seq<char>| #[trigger]
            now.contains(a) <==> exists|k: int| 0 <= k < b.len() && #[trigger] b[k] == (a, tag) by {
            if now.contains(a) {
                let j = choose|j: int| 0 <= j < now.len() && now[j] == a;
                if b.last().1 == tag && j == now.len() - 1 {
                    assert(b[b.len() - 1] == (a, tag));
                } else {
                    assert(before[j] == a);
                    assert(before.contains(a));
                    let k = choose|k: int| 0 <= k < prev.len() && #[trigger] prev[k] == (a, tag);
                    assert(b[k] == (a, tag));
                }
            }
            if exists|k: int| 0 <= k < b.len() && #[trigger] b[k] == (a, tag) {
                let k = choose|k: int| 0 <= k < b.len() && #[trigger] b[k] == (a, tag);
                if k == b.len() - 1 {
                    assert(now[now.len() - 1] == a);
                } else {
                    assert(prev[k] == (a, tag));
                    assert(before.contains(a));
                    let j = choose|j: int| 0 <= j < before.len() && before[j] == a;
                    assert(now[j] == a);
                }
            }
        }
    }
}

/// Whether no alias stands in two elements of the document.
pub open spec fn exclusive_aliases(doc: Seq<EntryView>) -> bool {
    forall|i: int, j: int, a: Seq<char>|
        0 <= i < doc.len() && 0 <= j < doc.len() && #[trigger] doc[i].aliases.contains(a)
            && #[trigger] doc[j].aliases.contains(a) ==> i == j
}

/// In a document where no alias stands in two elements, reading binds each
/// alias to the tag of its element, and binds nothing else.
pub proof fn lemma_document_aliases(doc: Seq<EntryView>)
    requires
        exclusive_aliases(doc),
    ensures
        unique_keys(document_aliases(doc)),
        forall|i: int, a: Seq<char>|
            0 <= i < doc.len() && #[trigger] doc[i].aliases.contains(a) ==> get(
                document_aliases(doc),
                a,
            ) == Some(doc[i].version),
        forall|a: Seq<char>| #[trigger]
            has_key(document_aliases(doc), a) ==> exists|i: int|
                0 <= i < doc.len() && #[trigger] doc[i].aliases.contains(a),
    decreases doc.len(),
{
    if doc.len() > 0 {
        let rest = doc.drop_last();
        let last = doc.last();
        let n = doc.len() - 1;
        assert(exclusive_aliases(rest)) by {
            assert forall|i: int, j: int, a: Seq<char>|
                0 <= i < rest.len() && 0 <= j < rest.len() && #[trigger] rest[i].aliases.contains(a)
                    && #[trigger] rest[j].aliases.contains(a) implies i == j by {
                assert(doc[i] == rest[i] && doc[j] == rest[j]);
            }
        }
        lemma_document_aliases(rest);
        let prev = document_aliases(rest);
        let now = document_aliases(doc);
        lemma_put_all(prev, last.aliases, last.version);
        assert forall|i: int, a: Seq<char>|
            0 <= i < doc.len() && #[trigger] doc[i].aliases.contains(a) implies get(now, a)
            == Some(doc[i].version) by {
            if i == n {
                let k = choose|k: int| 0 <= k < last.aliases.len() && last.aliases[k] == a;
                assert(get(now, last.aliases[k]) == Some(last.version));
            } else {
                assert(doc[i] == rest[i]);
                if last.aliases.contains(a) {
                    assert(doc[n].aliases.contains(a));
                }
                assert(!last.aliases.contains(a));
            }
        }
        assert forall|a: Seq<char>| #[trigger] has_key(now, a) implies exists|i: int|
            0 <= i < doc.len() && #[trigger] doc[i].aliases.contains(a) by {
            if last.aliases.contains(a) {
                assert(doc[n].aliases.contains(a));
            } else {
                assert(get(now, a) == get(prev, a));
                assert(has_key(prev, a));
                let i = choose|i: int| 0 <= i < rest.len() && #[trigger] rest[i].aliases.contains(a);
                assert(doc[i] == rest[i]);
                assert(doc[i].aliases.contains(a));
            }
        }
    }
}

/// The registry's document can be read: every element has a title and no
/// tag occurs twice. Writing it and reading it again gives a registry
/// with the same tags, each under the title it is shown with, and with every
/// alias that pointed to a registered tag still pointing to it. An alias that
/// pointed to a tag that no version has is not in the document, and is gone.
pub proof fn lemma_document_round_trip(r: RegistryView, order: Seq<usize>, doc: Seq<EntryView>)
    requires
        unique_keys(r.versions),
        unique_keys(r.aliases),
        is_document(r, order, doc),
    ensures
        all_titled(doc),
        distinct_tags(doc),
        unique_keys(loaded(doc).versions),
        unique_keys(loaded(doc).aliases),
        forall|tag: Seq<char>|
            #![trigger get(loaded(doc).versions, tag)]
            get(loaded(doc).versions, tag) == match get(r.versions, tag) {
                Some(title) => Some(Some(shown_title((tag, title)))),
                None => None,
            },
        forall|alias: Seq<char>|
            #![trigger get(loaded(doc).aliases, alias)]
            get(loaded(doc).aliases, alias) == match get(r.aliases, alias) {
                Some(tag) => if has_key(r.versions, tag) {
                    Some(tag)
                } else {
                    None
                },
                None => None,
            },
{
    let lv = loaded(doc).versions;
    let la = loaded(doc).aliases;
    assert forall|i: int| 0 <= i < doc.len() implies (#[trigger] doc[i]).version
        == r.versions[order[i] as int].0 by {
        assert(doc[i] == entry_of(r, order[i] as int));
    }
    assert forall|i: int, j: int| 0 <= i < j < doc.len() implies (#[trigger] doc[i]).version != (
    #[trigger] doc[j]).version by {
        assert(order[i] != order[j]);
        let a = order[i] as int;
        let b = order[j] as int;
        if a < b {
            assert(r.versions[a].0 != r.versions[b].0);
        } else {
            assert(r.versions[b].0 != r.versions[a].0);
        }
    }
    assert forall|i: int, j: int| 0 <= i < j < lv.len() implies (#[trigger] lv[i]).0 != (
    #[trigger] lv[j]).0 by {
        assert(lv[i].0 == doc[i].version);
        assert(lv[j].0 == doc[j].version);
    }
    assert forall|tag: Seq<char>|
        #![trigger get(lv, tag)]
        get(lv, tag) == match get(r.versions, tag) {
            Some(title) => Some(Some(shown_title((tag, title)))),
            None => None,
        } by {
        if has_key(r.versions, tag) {
            let v = key_index(r.versions, tag);
            assert(names(order, v));
            let i = choose|i: int| 0 <= i < order.len() && #[trigger] order[i] == v;
            assert(doc[i] == entry_of(r, order[i] as int));
            assert(lv[i] == (tag, Some(shown_title(r.versions[v]))));
            lemma_key_index(lv, tag, i);
        } else if has_key(lv, tag) {
            let j = key_index(lv, tag);
            assert(doc[j].version == tag);
            assert(r.versions[order[j] as int].0 == tag);
        }
    }
    assert(exclusive_aliases(doc)) by {
        assert forall|i: int, j: int, a: Seq<char>|
            0 <= i < doc.len() && 0 <= j < doc.len() && #[trigger] doc[i].aliases.contains(a)
                && #[trigger] doc[j].aliases.contains(a) implies i == j by {
            assert(doc[i] == entry_of(r, order[i] as int));
            assert(doc[j] == entry_of(r, order[j] as int));
            lemma_aliases_of(r.aliases, doc[i].version);
            lemma_aliases_of(r.aliases, doc[j].version);
            assert(aliases_of(r.aliases, doc[i].version).contains(a));
            assert(aliases_of(r.aliases, doc[j].version).contains(a));
            let k = choose|k: int|
                0 <= k < r.aliases.len() && #[trigger] r.aliases[k] == (a, doc[i].version);
            let m = choose|m: int|
                0 <= m < r.aliases.len() && #[trigger] r.aliases[m] == (a, doc[j].version);
            lemma_key_index(r.aliases, a, k);
            lemma_key_index(r.aliases, a, m);
            if i < j {
                assert(doc[i].version != doc[j].version);
            } else if j < i {
                assert(doc[j].version != doc[i].version);
            }
        }
    }
    lemma_document_aliases(doc);
    assert forall|alias: Seq<char>|
        #![trigger get(la, alias)]
        get(la, alias) == match get(r.aliases, alias) {
            Some(tag) => if has_key(r.versions, tag) {
                Some(tag)
            } else {
                None
            },
            None => None,
        } by {
        if has_key(la, alias) {
            let i = choose|i: int| 0 <= i < doc.len() && #[trigger] doc[i].aliases.contains(alias);
            assert(doc[i] == entry_of(r, order[i] as int));
            lemma_aliases_of(r.aliases, doc[i].version);
            assert(aliases_of(r.aliases, doc[i].version).contains(alias));
            let k = choose|k: int|
                0 <= k < r.aliases.len() && #[trigger] r.aliases[k] == (alias, doc[i].version);
            lemma_key_index(r.aliases, alias, k);
            assert(r.versions[order[i] as int].0 == doc[i].version);
            assert(has_key(r.versions, doc[i].version));
            assert(get(la, alias) == Some(doc[i].version));
        } else if has_key(r.aliases, alias) {
            let k = key_index(r.aliases, alias);
            let tag = r.aliases[k].1;
            if has_key(r.versions, tag) {
                let v = key_index(r.versions, tag);
                assert(names(order, v));
                let i = choose|i: int| 0 <= i < order.len() && #[trigger] order[i] == v;
                assert(doc[i] == entry_of(r, order[i] as int));
                lemma_aliases_of(r.aliases, tag);
                assert(r.aliases[k] == (alias, tag));
                assert(aliases_of(r.aliases, tag).contains(alias));
                assert(doc[i].aliases.contains(alias));
                assert(get(la, alias) == Some(doc[i].version));
            }
        }
    }
}

/// In a listing order no tag that reads as a semantic version comes before
/// one that does not, and the tags that do not come in descending order of
/// their text.
pub proof fn lemma_listing_tiers(
    order: Seq<usize>,
    versions: Seq<(Seq<char>, Option<Seq<char>>)>,
    i: int,
    j: int,
)
    requires
        is_listing_order(order, versions),
        0 <= i < j < order.len(),
    ensures
        semver_text(versions[order[i] as int].0) is Some ==> semver_text(
            versions[order[j] as int].0,
        ) is Some,
        semver_text(versions[order[j] as int].0) is None ==> text_order(
            versions[order[j] as int].0,
            versions[order[i] as int].0,
        ) <= 0,
    decreases j - i,
{
    let first = versions[order[i] as int].0;
    let before = versions[order[j - 1] as int].0;
    let last = versions[order[j] as int].0;
    assert(tag_order(before, last) <= 0);
    if j > i + 1 {
        lemma_listing_tiers(order, versions, i, j - 1);
        if semver_text(last) is None {
            lemma_lex_order_chain(bytes_of(last), bytes_of(before), bytes_of(first));
        }
    }
}

} // verus!
