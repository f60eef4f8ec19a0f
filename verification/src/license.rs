//! The license catalog and the steps that give a project its license.

use vstd::prelude::*;
use vstd::string::StringExecFns;
use crate::config::Configuration;
use crate::data::ProjectData;
use crate::fetch::{is_success, reason_of, receive, FetchError, FetchErrorView, Fetched};
use crate::files::{removal_notice, removal_spec, FileError, Notice, NoticeView, Removal};
use crate::template::{missing, pending_fields, resolved, substitute, substituted, tokenize_spec};
use crate::text::{
    ends_with, from_chars, lowercase, lowercase_of, strip_suffix, texts_of, to_chars,
    without_suffix,
};
use crate::tools::{is_ranking, ranking_of, Tools};

verus! {

/// Where the list of licenses is fetched from.
pub const LISTING_URL: &'static str =
    "https://api.github.com/repos/spdx/license-list-data/git/trees/main:text";

/// The file that the license text is written to.
pub const LICENSE_FILE: &'static str = "LICENSE";

/// One entry of the remote listing.
#[derive(Debug)]
pub struct TreeItem {
    /// The entry's name.
    pub path: String,
    /// `blob` for a file that can be downloaded.
    pub item_type: String,
}

/// The type of a listing entry that can be downloaded.
pub open spec fn blob_type() -> Seq<char> {
    "blob"@
}

/// The names of the entries of `tree` that can be downloaded, in order.
pub open spec fn blob_paths(tree: Seq<TreeItem>) -> Seq<Seq<char>>
    decreases tree.len(),
{
    if tree.len() == 0 {
        Seq::empty()
    } else if tree.last().item_type@ == blob_type() {
        blob_paths(tree.drop_last()).push(tree.last().path@)
    } else {
        blob_paths(tree.drop_last())
    }
}

/// Why the catalog cannot be had.
#[derive(Debug, Clone, Copy, PartialEq, Eq, Structural)]
pub enum CatalogError {
    /// The listing could not be fetched or read.
    Unavailable,
}

/// Why a license cannot be reloaded.
#[derive(Debug, Clone, Copy, PartialEq, Eq, Structural)]
pub enum LicenseError {
    /// The configuration names no license.
    NoneConfigured,
}

/// The ending of every catalog entry.
pub open spec fn entry_suffix() -> Seq<char> {
    ".txt"@
}

/// The key under which the chosen license is recorded.
pub open spec fn license_key() -> Seq<char> {
    "license"@
}

/// Where the text of a license is fetched from.
pub open spec fn license_url_of(license: Seq<char>) -> Seq<char> {
    "https://raw.githubusercontent.com/spdx/license-list-data/main/text/"@ + license
        + entry_suffix()
}

/// A lowercase entry is the one for a lowercase name when it is the name
/// followed by the entry ending.
pub open spec fn is_entry_for(entry: Seq<char>, name: Seq<char>) -> bool {
    entry == name + entry_suffix()
}

/// The place of the first entry that is the one for `name`.
pub open spec fn entry_index(entries: Seq<Seq<char>>, name: Seq<char>) -> Option<int>
    decreases entries.len(),
{
    if entries.len() == 0 {
        None
    } else {
        match entry_index(entries.drop_last(), name) {
            Some(i) => Some(i),
            None => if is_entry_for(entries.last(), name) {
                Some(entries.len() - 1)
            } else {
                None
            },
        }
    }
}

/// The place of the license asked for: names are compared in lowercase.
pub open spec fn exact_index(names: Seq<Seq<char>>, name: Seq<char>) -> Option<int> {
    entry_index(lowered(names), lowercase_of(name))
}

/// The identifier of the license asked for: the first entry that is the one
/// asked for, as the catalog writes it, without its ending.
pub open spec fn resolve_spec(names: Seq<Seq<char>>, name: Seq<char>) -> Option<Seq<char>> {
    match exact_index(names, name) {
        Some(i) => Some(without_suffix(names[i], entry_suffix())),
        None => None,
    }
}

/// `entry_index` finds the first match, and finds none only where there is
/// none.
pub proof fn lemma_entry_index(entries: Seq<Seq<char>>, name: Seq<char>)
    ensures
        match entry_index(entries, name) {
            Some(i) => 0 <= i < entries.len() && is_entry_for(entries[i], name) && forall|j: int|
                0 <= j < i ==> !is_entry_for(entries[j], name),
            None => forall|j: int| 0 <= j < entries.len() ==> !is_entry_for(entries[j], name),
        },
    decreases entries.len(),
{
    if entries.len() > 0 {
        let front = entries.drop_last();
        lemma_entry_index(front, name);
        assert forall|j: int| 0 <= j < front.len() implies front[j] == entries[j] by {}
        match entry_index(front, name) {
            Some(i) => {
                assert(front[i] == entries[i]);
                assert forall|j: int| 0 <= j < i implies !is_entry_for(entries[j], name) by {
                    assert(front[j] == entries[j]);
                }
            },
            None => {
                assert forall|j: int| 0 <= j < entries.len() - 1 implies !is_entry_for(
                    entries[j],
                    name,
                ) by {
                    assert(front[j] == entries[j]);
                }
            },
        }
    }
}

/// The outcome of asking for a license by name.
#[derive(Debug)]
pub enum LicenseChoice {
    /// The catalog has it, under this identifier.
    Selected(String),
    /// The catalog does not have it; these entries come closest.
    Unknown(Vec<(String, i64)>),
}

/// The views of a list of suggestions.
pub open spec fn suggestions_of(list: Seq<(String, i64)>) -> Seq<(Seq<char>, i64)> {
    list.map_values(|m: (String, i64)| (m.0@, m.1))
}

/// Each name in lowercase.
pub open spec fn lowered(names: Seq<Seq<char>>) -> Seq<Seq<char>> {
    names.map_values(|n: Seq<char>| lowercase_of(n))
}

/// The license catalog of one run: the listing is fetched once and kept.
#[derive(Debug)]
pub struct LicenseManager {
    cache: Option<Vec<String>>,
}

impl LicenseManager {
    /// The listing that is kept, if one was fetched.
    pub closed spec fn listing(&self) -> Option<Seq<Seq<char>>> {
        match self.cache {
            Some(list) => Some(texts_of(list@)),
            None => None,
        }
    }

    /// A catalog that has fetched nothing yet.
    pub fn new() -> (manager: Self)
        ensures
            manager.listing() is None,
    {
        LicenseManager { cache: None }
    }

    /// Whether the listing still has to be fetched.
    pub fn needs_listing(&self) -> (needed: bool)
        ensures
            needed == self.listing() is None,
    {
        self.cache.is_none()
    }

    /// The list of licenses. Where a listing is kept, it is returned and
    /// `fetched` is not looked at. Else `fetched` is the outcome of fetching
    /// the remote listing: its downloadable entries are kept and returned;
    /// `None`, for a fetch that failed, is an error and nothing is kept.
    pub fn get_licenses(&mut self, fetched: Option<Vec<TreeItem>>) -> (list: Result<
        Vec<String>,
        CatalogError,
    >)
        ensures
            match old(self).listing() {
                Some(kept) => final(self).listing() == Some(kept) && list is Ok && texts_of(
                    list->Ok_0@,
                ) == kept,
                None => match fetched {
                    Some(tree) => final(self).listing() == Some(blob_paths(tree@)) && list is Ok
                        && texts_of(list->Ok_0@) == blob_paths(tree@),
                    None => final(self).listing() is None && list == Err::<
                        Vec<String>,
                        CatalogError,
                    >(CatalogError::Unavailable),
                },
            },
    {
        if let Some(kept) = &self.cache {
            return Ok(copy_names(kept));
        }
        match fetched {
            None => Err(CatalogError::Unavailable),
            Some(tree) => {
                let files = downloadable(&tree);
                let list = copy_names(&files);
                self.cache = Some(files);
                Ok(list)
            },
        }
    }

    /// The name under which a catalog entry is shown: the entry without its
    /// ending.
    pub fn entry_name(entry: &str) -> (name: String)
        ensures
            name@ == without_suffix(entry@, entry_suffix()),
    {
        from_chars(&strip_suffix(&to_chars(entry), &to_chars(".txt")))
    }

    /// The place of the first of the lowercase `entries` that is the one for
    /// the lowercase `name`: the name followed by the entry ending.
    pub fn find_entry(entries: &[String], name: &str) -> (at: Option<usize>)
        ensures
            match at {
                Some(i) => i < entries@.len() && entry_index(texts_of(entries@), name@) == Some(
                    i as int,
                ),
                None => entry_index(texts_of(entries@), name@) is None,
            },
    {
        let ghost all = texts_of(entries@);
        let mut wanted = name.to_owned();
        wanted.append(".txt");
        let mut i: usize = 0;
        assert(all.take(0) =~= Seq::<Seq<char>>::empty());
        while i < entries.len()
            invariant
                i <= entries.len(),
                all == texts_of(entries@),
                wanted@ == name@ + entry_suffix(),
                entry_index(all.take(i as int), name@) is None,
            decreases entries.len() - i,
        {
            assert(all.take(i + 1).drop_last() =~= all.take(i as int));
            if entries[i] == wanted {
                proof {
                    lemma_entry_found(all, name@, i + 1, i as int);
                }
                return Some(i);
            }
            i += 1;
        }
        assert(all.take(entries@.len() as int) =~= all);
        None
    }

    /// The identifier of the license called `name`: the first entry of the
    /// catalog that is `name` with the entry ending, compared in lowercase,
    /// given as the catalog writes it and without the ending.
    pub fn resolve_exact(licenses: &[String], name: &str) -> (identifier: Option<String>)
        ensures
            match identifier {
                Some(id) => resolve_spec(texts_of(licenses@), name@) == Some(id@),
                None => resolve_spec(texts_of(licenses@), name@) is None,
            },
    {
        let entries = lowercase_all(licenses);
        let wanted = lowercase(name);
        match Self::find_entry(entries.as_slice(), wanted.as_str()) {
            Some(i) => Some(Self::entry_name(licenses[i].as_str())),
            None => None,
        }
    }

    /// Looks a license up for a project that is being set up: its
    /// identifier where the catalog has it, else the entries that come
    /// closest to the name as it was typed.
    pub fn lookup(name: &str, licenses: &[String]) -> (choice: LicenseChoice)
        ensures
            match choice {
                LicenseChoice::Selected(id) => resolve_spec(texts_of(licenses@), name@) == Some(
                    id@,
                ),
                LicenseChoice::Unknown(closest) => resolve_spec(texts_of(licenses@), name@) is None
                    && is_ranking(texts_of(licenses@), name@, suggestions_of(closest@)),
            },
    {
        match Self::resolve_exact(licenses, name) {
            Some(id) => LicenseChoice::Selected(id),
            None => LicenseChoice::Unknown(copy_ranking(Tools::fuzzy_search(licenses, name))),
        }
    }

    /// Gives the project the license called `license`. Where the catalog has
    /// it, its identifier is recorded in the configuration under `license`
    /// and returned; the caller then stores the configuration and downloads
    /// the text. Where it has not, the configuration stays as it is and the
    /// closest entries are returned: the best matches of the lowercase name
    /// among the lowercase entries.
    pub fn set_license(license: String, licenses: &[String], config: &mut Configuration) -> (choice:
        LicenseChoice)
        ensures
            final(config).settings == old(config).settings,
            match choice {
                LicenseChoice::Selected(id) => resolve_spec(texts_of(licenses@), license@) == Some(
                    id@,
                ) && final(config).data@ == old(config).data@.insert(license_key(), id@),
                LicenseChoice::Unknown(closest) => resolve_spec(texts_of(licenses@), license@)
                    is None && final(config).data@ == old(config).data@ && is_ranking(
                    lowered(texts_of(licenses@)),
                    lowercase_of(license@),
                    suggestions_of(closest@),
                ),
            },
    {
        match Self::resolve_exact(licenses, license.as_str()) {
            Some(id) => {
                config.data.insert("license".to_owned(), id.clone());
                LicenseChoice::Selected(id)
            },
            None => {
                let query = lowercase(license.as_str());
                let names = lowercase_all(licenses);
                let found = Tools::fuzzy_search(names.as_slice(), query.as_str());
                LicenseChoice::Unknown(copy_ranking(found))
            },
        }
    }

    /// The license that the configuration names, to download it again.
    pub fn reload_license(config: &Configuration) -> (license: Result<String, LicenseError>)
        ensures
            match license {
                Ok(id) => config.data@.contains_key(license_key()) && id@
                    == config.data@[license_key()],
                Err(e) => !config.data@.contains_key(license_key()),
            },
    {
        match config.data.get("license") {
            Some(id) => Ok(id.clone()),
            None => Err(LicenseError::NoneConfigured),
        }
    }

    /// Where the text of the license `license` is fetched from.
    pub fn license_url(license: &str) -> (url: String)
        ensures
            url@ == license_url_of(license@),
    {
        let mut url =
            "https://raw.githubusercontent.com/spdx/license-list-data/main/text/".to_owned();
        url.append(license);
        url.append(".txt");
        url
    }

    /// The text of the license `license`, out of what the request for it
    /// brought back.
    pub fn download_license(license: &str, fetched: Fetched) -> (text: Result<String, FetchError>)
        ensures
            match fetched {
                Fetched::Reply { status, body } => if is_success(status) {
                    text == Ok::<String, FetchError>(body)
                } else {
                    text is Err && text->Err_0@ == (FetchErrorView::TemplateNotFound {
                        identifier: license@,
                        status,
                        reason: reason_of(status),
                    })
                },
                Fetched::Failed { detail } => text is Err && text->Err_0@ == (
                FetchErrorView::Network { identifier: license@, detail: detail@ }),
            },
    {
        receive(license, fetched)
    }

    /// Reports the removal of the license file.
    pub fn remove_license(removal: Removal) -> (report: Result<Notice, FileError>)
        ensures
            match report {
                Ok(notice) => removal_spec("LICENSE"@, removal) == Ok::<NoticeView, Seq<char>>(
                    notice@,
                ),
                Err(error) => removal_spec("LICENSE"@, removal) == Err::<NoticeView, Seq<char>>(
                    error.message@,
                ),
            },
    {
        removal_notice("LICENSE", removal)
    }

    /// The values to ask the user for before `modify_license`: the fields of
    /// the text that the configuration cannot resolve, each once, in the
    /// order in which the text first uses them.
    pub fn pending_prompts(license: &str, config: &Configuration) -> (names: Vec<String>)
        ensures
            texts_of(names@) == missing(tokenize_spec(license@), config.data@),
    {
        pending_fields(license, &config.data)
    }

    /// Fills in a template: every link gives way to its content, every field
    /// to the value that the configuration has for it, or else to the answer
    /// given for it, which the configuration then records.
    pub fn modify_license(license: String, config: &mut Configuration, answers: &ProjectData) -> (text:
        String)
        ensures
            final(config).settings == old(config).settings,
            final(config).data@ == resolved(tokenize_spec(license@), old(config).data@, answers@),
            text@ == substituted(license@, old(config).data@, answers@),
    {
        substitute(license.as_str(), &mut config.data, answers)
    }
}

/// An entry that is a name followed by the entry ending gives that name as
/// its identifier, so long as the name does not itself end in the ending:
/// the identifier with the ending is then the entry again.
pub proof fn lemma_identifier_names_entry(name: Seq<char>)
    requires
        !ends_with(name, entry_suffix()),
    ensures
        without_suffix(name + entry_suffix(), entry_suffix()) == name,
{
    reveal_strlit(".txt");
    let entry = name + entry_suffix();
    assert(entry.subrange(entry.len() - entry_suffix().len(), entry.len() as int)
        =~= entry_suffix());
    assert(entry.take(entry.len() - entry_suffix().len()) =~= name);
    assert(without_suffix(name, entry_suffix()) == name);
}

/// Looking a license up does not depend on how the name is cased: two
/// names with the same lowercase form find the same license.
pub proof fn lemma_resolve_ignores_case(names: Seq<Seq<char>>, first: Seq<char>, second: Seq<char>)
    requires
        lowercase_of(first) == lowercase_of(second),
    ensures
        exact_index(names, first) == exact_index(names, second),
        resolve_spec(names, first) == resolve_spec(names, second),
{
}

proof fn lemma_entry_found(entries: Seq<Seq<char>>, name: Seq<char>, upto: int, at: int)
    requires
        0 <= upto <= entries.len(),
        entry_index(entries.take(upto), name) == Some(at),
    ensures
        entry_index(entries, name) == Some(at),
    decreases entries.len() - upto,
{
    if upto < entries.len() {
        assert(entries.take(upto + 1).drop_last() =~= entries.take(upto));
        lemma_entry_found(entries, name, upto + 1, at);
    } else {
        assert(entries.take(upto) =~= entries);
    }
}

fn copy_ranking(found: Vec<(&str, i64)>) -> (closest: Vec<(String, i64)>)
    ensures
        suggestions_of(closest@) == ranking_of(found@),
{
    let mut closest: Vec<(String, i64)> = Vec::new();
    let mut k: usize = 0;
    while k < found.len()
        invariant
            k <= found@.len(),
            closest@.len() == k,
            forall|n: int|
                0 <= n < k ==> (#[trigger] closest@[n]).0@ == found@[n].0@ && closest@[n].1
                    == found@[n].1,
        decreases found.len() - k,
    {
        closest.push((found[k].0.to_owned(), found[k].1));
        k += 1;
    }
    assert(suggestions_of(closest@) =~= ranking_of(found@));
    closest
}

fn copy_names(names: &Vec<String>) -> (copy: Vec<String>)
    ensures
        texts_of(copy@) == texts_of(names@),
{
    let mut copy: Vec<String> = Vec::new();
    let mut i: usize = 0;
    while i < names.len()
        invariant
            i <= names.len(),
            copy@.len() == i,
            forall|k: int| 0 <= k < i ==> copy@[k]@ == names@[k]@,
        decreases names.len() - i,
    {
        copy.push(names[i].clone());
        i += 1;
    }
    assert(texts_of(copy@) =~= texts_of(names@));
    copy
}

fn lowercase_all(names: &[String]) -> (lower: Vec<String>)
    ensures
        texts_of(lower@) == lowered(texts_of(names@)),
{
    let mut lower: Vec<String> = Vec::new();
    let mut i: usize = 0;
    while i < names.len()
        invariant
            i <= names.len(),
            lower@.len() == i,
            forall|k: int| 0 <= k < i ==> lower@[k]@ == lowercase_of(names@[k]@),
        decreases names.len() - i,
    {
        lower.push(lowercase(names[i].as_str()));
        i += 1;
    }
    assert(texts_of(lower@) =~= lowered(texts_of(names@)));
    lower
}

/// The names of the entries of `tree` that can be downloaded.
pub fn downloadable(tree: &Vec<TreeItem>) -> (files: Vec<String>)
    ensures
        texts_of(files@) == blob_paths(tree@),
{
    let mut files: Vec<String> = Vec::new();
    let mut i: usize = 0;
    assert(tree@.take(0) =~= Seq::<TreeItem>::empty());
    while i < tree.len()
        invariant
            i <= tree.len(),
            texts_of(files@) == blob_paths(tree@.take(i as int)),
        decreases tree.len() - i,
    {
        let ghost before = texts_of(files@);
        assert(tree@.take(i + 1).drop_last() =~= tree@.take(i as int));
        if crate::text::same_text(tree[i].item_type.as_str(), "blob") {
            files.push(tree[i].path.clone());
            assert(texts_of(files@) =~= before.push(tree@[i as int].path@));
        }
        i += 1;
    }
    assert(tree@.take(tree@.len() as int) =~= tree@);
    files
}

} // verus!
