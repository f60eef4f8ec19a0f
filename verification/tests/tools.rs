use curator::tools::{Tools, SUGGESTION_LIMIT};
use fuzzy_matcher::skim::SkimMatcherV2;
use fuzzy_matcher::FuzzyMatcher;

fn list(names: &[&str]) -> Vec<String> {
    names.iter().map(|n| n.to_string()).collect()
}

fn expected(names: &[String], query: &str) -> Vec<(String, i64)> {
    let matcher = SkimMatcherV2::default();
    let mut all: Vec<(String, i64)> = Vec::new();
    for name in names {
        if let Some(score) = matcher.fuzzy_match(name, query) {
            all.push((name.clone(), score));
        }
    }
    all.sort_by(|a, b| b.1.cmp(&a.1));
    all.truncate(3);
    all
}

fn owned(found: Vec<(&str, i64)>) -> Vec<(String, i64)> {
    found.into_iter().map(|(n, s)| (n.to_string(), s)).collect()
}

#[test]
fn limit_is_three() {
    assert_eq!(SUGGESTION_LIMIT, 3);
}

#[test]
fn best_matches_of_nothing() {
    assert_eq!(Tools::best_matches(&Vec::new()), Vec::<(usize, i64)>::new());
    assert_eq!(Tools::best_matches(&vec![None, None]), Vec::<(usize, i64)>::new());
}

#[test]
fn best_matches_picks_the_top_three_in_order() {
    let scores = vec![Some(5), None, Some(9), Some(1), Some(7), None, Some(9), Some(-3)];
    assert_eq!(Tools::best_matches(&scores), vec![(2, 9), (6, 9), (4, 7)]);
}

#[test]
fn best_matches_keeps_earlier_places_first_among_equals() {
    let scores = vec![Some(4), Some(4), Some(4), Some(4), Some(4)];
    assert_eq!(Tools::best_matches(&scores), vec![(0, 4), (1, 4), (2, 4)]);
    let scores = vec![Some(1), Some(2), Some(2), Some(3), Some(2)];
    assert_eq!(Tools::best_matches(&scores), vec![(3, 3), (1, 2), (2, 2)]);
}

#[test]
fn best_matches_returns_all_when_there_are_few() {
    let scores = vec![None, Some(i64::MIN), None, Some(i64::MAX)];
    assert_eq!(Tools::best_matches(&scores), vec![(3, i64::MAX), (1, i64::MIN)]);
    assert_eq!(Tools::best_matches(&vec![Some(0)]), vec![(0, 0)]);
}

#[test]
fn empty_catalog_gives_nothing() {
    let names: Vec<String> = Vec::new();
    assert!(Tools::fuzzy_search(&names, "mit").is_empty());
}

#[test]
fn entries_without_match_are_left_out() {
    let names = list(&["Apache-2.0.txt", "MIT.txt", "GPL-3.0.txt"]);
    let found = Tools::fuzzy_search(&names, "mit");
    assert_eq!(found.len(), 1);
    assert_eq!(found[0].0, "MIT.txt");
    assert_eq!(Some(found[0].1), SkimMatcherV2::default().fuzzy_match("MIT.txt", "mit"));
    assert!(Tools::fuzzy_search(&names, "zzz").is_empty());
}

#[test]
fn empty_query_matches_everything_with_score_zero() {
    let names = list(&["x", "y", "z", "w"]);
    let found = owned(Tools::fuzzy_search(&names, ""));
    assert_eq!(
        found,
        vec![("x".to_string(), 0), ("y".to_string(), 0), ("z".to_string(), 0)]
    );
}

#[test]
fn equal_scores_keep_catalog_order() {
    let names = list(&["a4", "a1", "a3", "a2", "a5"]);
    let found = Tools::fuzzy_search(&names, "a");
    assert_eq!(found.len(), 3);
    assert_eq!(found[0].1, found[1].1);
    assert_eq!(found[1].1, found[2].1);
    assert_eq!(found[0].0, "a4");
    assert_eq!(found[1].0, "a1");
    assert_eq!(found[2].0, "a3");
}

#[test]
fn at_most_three_sorted_by_score() {
    let names = list(&[
        "GPL-1.0-only.txt",
        "GPL-2.0-only.txt",
        "LGPL-2.1.txt",
        "AGPL-3.0.txt",
        "MIT.txt",
        "GPL-3.0-or-later.txt",
        "gpl.txt",
        "BSD-3-Clause.txt",
    ]);
    let found = owned(Tools::fuzzy_search(&names, "gpl"));
    assert_eq!(found.len(), 3);
    assert!(found[0].1 >= found[1].1);
    assert!(found[1].1 >= found[2].1);
    assert_eq!(found, expected(&names, "gpl"));
}

#[test]
fn agrees_with_a_full_stable_sort() {
    let names = list(&[
        "0BSD.txt",
        "AAL.txt",
        "Apache-1.0.txt",
        "Apache-1.1.txt",
        "Apache-2.0.txt",
        "Artistic-2.0.txt",
        "BSD-2-Clause.txt",
        "BSD-3-Clause.txt",
        "CC0-1.0.txt",
        "EPL-2.0.txt",
        "ISC.txt",
        "MIT-0.txt",
        "MIT.txt",
        "MPL-2.0.txt",
        "Unlicense.txt",
        "Zlib.txt",
    ]);
    for query in ["apache", "bsd", "mit", "a", "2.0", "txt", "x", "Apache", "MIT", "c", "l", ""] {
        let found = owned(Tools::fuzzy_search(&names, query));
        assert_eq!(found, expected(&names, query), "query {:?}", query);
    }
}

#[test]
fn fewer_than_three_matches_are_all_returned_in_order() {
    let names = list(&["zlib", "mit-0", "apache", "mit"]);
    let found = owned(Tools::fuzzy_search(&names, "mit"));
    assert_eq!(found, expected(&names, "mit"));
    assert_eq!(found.len(), 2);
}

#[test]
fn uppercase_in_the_query_makes_the_match_case_sensitive() {
    let names = list(&["mit.txt", "MIT.txt"]);
    let found = Tools::fuzzy_search(&names, "MIT");
    assert_eq!(found.len(), 1);
    assert_eq!(found[0].0, "MIT.txt");
    assert_eq!(Tools::fuzzy_search(&names, "mit").len(), 2);
}
