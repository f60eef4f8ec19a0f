//! The configuration file's format: JSON, read and written by `serde_json`.
//!
//! The file is an object of objects of strings. Nothing here is proved: the
//! two functions below call `serde_json`, and their contracts say what this
//! library relies on.

use vstd::prelude::*;
use crate::config::{sections_distinct, sections_map, Sections};

verus! {

/// `serde_json`'s error, carried through untouched.
#[verifier::external_type_specification]
#[verifier::external_body]
pub struct ExJsonError(serde_json::Error);

/// What `serde_json::from_str` makes of `text` when asked for a map from
/// strings to maps from strings to strings: `None` where it reports an error.
pub uninterp spec fn json_sections(text: Seq<char>) -> Option<
    Map<Seq<char>, Map<Seq<char>, Seq<char>>>,
>;

/// Calls `serde_json::from_str` for a `BTreeMap<String, BTreeMap<String,
/// String>>` and hands the maps out as lists of pairs. The result depends on
/// `text` alone; the contract names it and says that the lists stand for the
/// maps that were read.
#[verifier::external_body]
pub(crate) fn parse_sections(text: &str) -> (parsed: Result<Sections, serde_json::Error>)
    ensures
        parsed is Ok <==> json_sections(text@) is Some,
        parsed is Ok ==> json_sections(text@) == Some(sections_map(parsed->Ok_0@)),
{
    let maps: std::collections::BTreeMap<String, std::collections::BTreeMap<String, String>> =
        serde_json::from_str(text)?;
    Ok(maps.into_iter().map(|(name, section)| (name, section.into_iter().collect())).collect())
}

/// The text that `serde_json::to_string_pretty` writes for a map from
/// strings to maps from strings to strings, both ordered by key.
pub uninterp spec fn pretty_json(sections: Map<Seq<char>, Map<Seq<char>, Seq<char>>>) -> Seq<char>;

/// Calls `serde_json::to_string_pretty` on the maps that `sections` stand
/// for; as no name occurs twice, turning the lists into maps loses nothing,
/// and as the maps are ordered, the result depends on them alone. The
/// contract names the result and claims two things. The call succeeds:
/// `serde_json` documents two causes of failure, a `Serialize` impl that
/// fails and a map with keys that are not strings, and maps of strings give
/// neither. And the text, read again by `serde_json::from_str`, gives those
/// maps: what the writer escapes in a string, the reader takes back.
#[verifier::external_body]
pub(crate) fn print_sections(sections: &Sections) -> (printed: Result<String, serde_json::Error>)
    requires
        sections_distinct(sections@),
    ensures
        printed is Ok,
        printed->Ok_0@ == pretty_json(sections_map(sections@)),
        json_sections(printed->Ok_0@) == Some(sections_map(sections@)),
{
    let maps: std::collections::BTreeMap<&str, std::collections::BTreeMap<&str, &str>> = sections
        .iter()
        .map(|(name, section)| {
            (name.as_str(), section.iter().map(|(k, v)| (k.as_str(), v.as_str())).collect())
        })
        .collect();
    serde_json::to_string_pretty(&maps)
}

} // verus!
