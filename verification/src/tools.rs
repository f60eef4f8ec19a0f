//! Fuzzy suggestions: the few catalog entries that come closest to a name
//! that matched none exactly.

use vstd::prelude::*;
use crate::text::texts_of;

verus! {

/// How many suggestions are offered at most.
pub const SUGGESTION_LIMIT: usize = 3;

/// The score that the skim matcher, as `SkimMatcherV2::default()` sets it up,
/// gives to `choice` for `pattern`: `None` where the pattern does not match.
pub uninterp spec fn skim_score(choice: Seq<char>, pattern: Seq<char>) -> Option<i64>;

/// Calls `fuzzy_matcher`'s `SkimMatcherV2::fuzzy_match` on a matcher in its
/// default configuration. The matcher is made anew for each call and its
/// result depends on the two strings alone; the contract gives that result
/// its name and claims nothing else about it.
#[verifier::external_body]
fn skim_match(choice: &str, pattern: &str) -> (score: Option<i64>)
    ensures
        score == skim_score(choice@, pattern@),
{
    let matcher = fuzzy_matcher::skim::SkimMatcherV2::default();
    fuzzy_matcher::FuzzyMatcher::fuzzy_match(&matcher, choice, pattern)
}

/// The score of each name for `query`.
pub open spec fn scores_of(names: Seq<Seq<char>>, query: Seq<char>) -> Seq<Option<i64>> {
    Seq::new(names.len(), |i: int| skim_score(names[i], query))
}

/// Entry `i` is offered before entry `j`: both match, and `i` has the higher
/// score or, at equal scores, the earlier place in the catalog.
pub open spec fn ranks_before(scores: Seq<Option<i64>>, i: int, j: int) -> bool {
    &&& scores[i] is Some
    &&& scores[j] is Some
    &&& (scores[i]->0 > scores[j]->0 || (scores[i]->0 == scores[j]->0 && i < j))
}

/// `picks` are the places of the best matches, best first: at most
/// `SUGGESTION_LIMIT` of them, each a match, in ranking order, and every
/// match left out ranks after all of them, which happens only when the limit
/// is reached.
pub open spec fn is_selection(scores: Seq<Option<i64>>, picks: Seq<int>) -> bool {
    &&& picks.len() <= SUGGESTION_LIMIT
    &&& forall|k: int|
        0 <= k < picks.len() ==> 0 <= #[trigger] picks[k] < scores.len() && scores[picks[k]] is Some
    &&& forall|k: int, l: int|
        0 <= k < l < picks.len() ==> ranks_before(scores, #[trigger] picks[k], #[trigger] picks[l])
    &&& forall|j: int|
        0 <= j < scores.len() && (#[trigger] scores[j]) is Some && (forall|k: int|
            0 <= k < picks.len() ==> picks[k] != j) ==> picks.len() == SUGGESTION_LIMIT && forall|
            k: int,
        | 0 <= k < picks.len() ==> ranks_before(scores, #[trigger] picks[k], j)
}

proof fn lemma_selection_agree(scores: Seq<Option<i64>>, a: Seq<int>, b: Seq<int>, upto: int)
    requires
        is_selection(scores, a),
        is_selection(scores, b),
        0 <= upto <= a.len(),
        upto <= b.len(),
    ensures
        forall|m: int| 0 <= m < upto ==> a[m] == b[m],
    decreases upto,
{
    if upto > 0 {
        lemma_selection_agree(scores, a, b, upto - 1);
        let k = upto - 1;
        if a[k] != b[k] {
            lemma_outranked(scores, a, b, k);
            lemma_outranked(scores, b, a, k);
        }
    }
}

proof fn lemma_outranked(scores: Seq<Option<i64>>, a: Seq<int>, b: Seq<int>, k: int)
    requires
        is_selection(scores, a),
        is_selection(scores, b),
        0 <= k < a.len(),
        k < b.len(),
        forall|m: int| 0 <= m < k ==> a[m] == b[m],
        a[k] != b[k],
    ensures
        ranks_before(scores, b[k], a[k]),
{
    let j = a[k];
    if exists|l: int| 0 <= l < b.len() && b[l] == j {
        let l = choose|l: int| 0 <= l < b.len() && b[l] == j;
        if l < k {
            assert(ranks_before(scores, a[l], a[k]));
        } else {
            assert(ranks_before(scores, b[k], b[l]));
        }
    } else {
        assert(scores[j] is Some);
        assert(ranks_before(scores, b[k], j));
    }
}

/// The scores decide the selection: two selections from the same scores are
/// the same.
pub proof fn lemma_selection_unique(scores: Seq<Option<i64>>, a: Seq<int>, b: Seq<int>)
    requires
        is_selection(scores, a),
        is_selection(scores, b),
    ensures
        a == b,
{
    if a.len() <= b.len() {
        lemma_selection_agree(scores, a, b, a.len() as int);
        if a.len() < b.len() {
            let j = b[a.len() as int];
            assert forall|l: int| 0 <= l < a.len() implies a[l] != j by {
                if a[l] == j {
                    assert(ranks_before(scores, b[l], b[a.len() as int]));
                }
            }
            assert(scores[j] is Some);
        }
    } else {
        lemma_selection_agree(scores, a, b, b.len() as int);
        let j = a[b.len() as int];
        assert forall|l: int| 0 <= l < b.len() implies b[l] != j by {
            if b[l] == j {
                assert(ranks_before(scores, a[l], a[b.len() as int]));
            }
        }
        assert(scores[j] is Some);
    }
    assert(a =~= b);
}

/// A ranking is fixed by the catalog and the query: two rankings of the same
/// names for the same query are the same list.
pub proof fn lemma_ranking_unique(
    names: Seq<Seq<char>>,
    query: Seq<char>,
    first: Seq<(Seq<char>, i64)>,
    second: Seq<(Seq<char>, i64)>,
)
    requires
        is_ranking(names, query, first),
        is_ranking(names, query, second),
    ensures
        first == second,
{
    let scores = scores_of(names, query);
    let a = choose|picks: Seq<int>|
        {
            &&& #[trigger] is_selection(scores, picks)
            &&& first.len() == picks.len()
            &&& forall|k: int|
                0 <= k < picks.len() ==> #[trigger] first[k] == (
                    names[picks[k]],
                    skim_score(names[picks[k]], query)->0,
                )
        };
    let b = choose|picks: Seq<int>|
        {
            &&& #[trigger] is_selection(scores, picks)
            &&& second.len() == picks.len()
            &&& forall|k: int|
                0 <= k < picks.len() ==> #[trigger] second[k] == (
                    names[picks[k]],
                    skim_score(names[picks[k]], query)->0,
                )
        };
    lemma_selection_unique(scores, a, b);
    assert(first =~= second);
}

/// `ranking` lists the best matches of `query` among `names`, best first,
/// each with its score.
pub open spec fn is_ranking(
    names: Seq<Seq<char>>,
    query: Seq<char>,
    ranking: Seq<(Seq<char>, i64)>,
) -> bool {
    exists|picks: Seq<int>|
        {
            &&& #[trigger] is_selection(scores_of(names, query), picks)
            &&& ranking.len() == picks.len()
            &&& forall|k: int|
                0 <= k < picks.len() ==> #[trigger] ranking[k] == (
                    names[picks[k]],
                    skim_score(names[picks[k]], query)->0,
                )
        }
}

/// The views of a list of suggestions.
pub open spec fn ranking_of(matches: Seq<(&str, i64)>) -> Seq<(Seq<char>, i64)> {
    matches.map_values(|m: (&str, i64)| (m.0@, m.1))
}

/// The places that a list of places with scores names.
pub open spec fn places_of(top: Seq<(usize, i64)>) -> Seq<int> {
    top.map_values(|p: (usize, i64)| p.0 as int)
}

/// Helpers that are not tied to one kind of document.
pub struct Tools;

impl Tools {
    /// The places of the up to three best scores, best first, each with its
    /// score. `None` stands for an entry that does not match and is left
    /// out; among equal scores the earlier place comes first. The scores are
    /// gone through once, keeping the best three seen so far.
    pub fn best_matches(scores: &Vec<Option<i64>>) -> (top: Vec<(usize, i64)>)
        ensures
            is_selection(scores@, places_of(top@)),
            forall|k: int|
                0 <= k < top@.len() ==> (#[trigger] top@[k]).0 < scores@.len() && scores@[top@[k].0 as int]
                    == Some(top@[k].1),
    {
        let mut top: Vec<(usize, i64)> = Vec::new();
        let mut i: usize = 0;
        while i < scores.len()
            invariant
                i <= scores.len(),
                top@.len() <= SUGGESTION_LIMIT,
                forall|k: int|
                    0 <= k < top@.len() ==> (#[trigger] top@[k]).0 < i && scores@[top@[k].0 as int]
                        == Some(top@[k].1),
                forall|k: int, l: int|
                    0 <= k < l < top@.len() ==> ranks_before(
                        scores@,
                        (#[trigger] top@[k]).0 as int,
                        (#[trigger] top@[l]).0 as int,
                    ),
                forall|j: int|
                    0 <= j < i && (#[trigger] scores@[j]) is Some && (forall|k: int|
                        0 <= k < top@.len() ==> top@[k].0 != j) ==> top@.len() == SUGGESTION_LIMIT
                        && forall|k: int|
                        0 <= k < top@.len() ==> ranks_before(
                            scores@,
                            (#[trigger] top@[k]).0 as int,
                            j,
                        ),
            decreases scores.len() - i,
        {
            match scores[i] {
                Some(score) => {
                    let mut at: usize = top.len();
                    while at > 0 && top[at - 1].1 < score
                        invariant
                            at <= top@.len(),
                            forall|k: int| at <= k < top@.len() ==> (#[trigger] top@[k]).1 < score,
                        decreases at,
                    {
                        at -= 1;
                    }
                    if at < SUGGESTION_LIMIT {
                        let ghost before = top@;
                        top.insert(at, (i, score));
                        if top.len() > SUGGESTION_LIMIT {
                            top.pop();
                        }
                        proof {
                            assert forall|k: int| 0 <= k < top@.len() implies top@[k] == (if k
                                < at {
                                before[k]
                            } else if k == at {
                                (i, score)
                            } else {
                                before[k - 1]
                            }) by {}
                            assert forall|j: int|
                                0 <= j < i + 1 && (#[trigger] scores@[j]) is Some && (forall|
                                    k: int,
                                | 0 <= k < top@.len() ==> top@[k].0 != j) implies top@.len()
                                == SUGGESTION_LIMIT && forall|k: int|
                                0 <= k < top@.len() ==> ranks_before(
                                    scores@,
                                    (#[trigger] top@[k]).0 as int,
                                    j,
                                ) by {
                                assert(top@[at as int].0 == i);
                                assert(j != i);
                                if exists|k: int| 0 <= k < before.len() && before[k].0 == j {
                                    let k = choose|k: int| 0 <= k < before.len() && before[k].0 == j;
                                    if k < at {
                                        assert(top@[k] == before[k]);
                                    } else if k + 1 < top@.len() {
                                        assert(top@[k + 1] == before[k]);
                                    }
                                    assert(k == before.len() - 1);
                                    assert(before.len() == SUGGESTION_LIMIT);
                                } else {
                                    assert(forall|k: int|
                                        0 <= k < before.len() ==> before[k].0 != j);
                                }
                            }
                        }
                    } else {
                        proof {
                            assert forall|k: int| 0 <= k < top@.len() implies ranks_before(
                                scores@,
                                (#[trigger] top@[k]).0 as int,
                                i as int,
                            ) by {
                                if top@[k].1 < score {
                                    assert(k < at);
                                }
                            }
                        }
                    }
                },
                None => {},
            }
            i += 1;
        }
        proof {
            let picks = places_of(top@);
            assert forall|j: int|
                0 <= j < scores@.len() && (#[trigger] scores@[j]) is Some && (forall|k: int|
                    0 <= k < picks.len() ==> picks[k] != j) implies picks.len() == SUGGESTION_LIMIT
                && forall|k: int|
                0 <= k < picks.len() ==> ranks_before(scores@, #[trigger] picks[k], j) by {
                assert forall|k: int| 0 <= k < top@.len() implies top@[k].0 != j by {
                    assert(picks[k] != j);
                }
                assert forall|k: int| 0 <= k < picks.len() implies ranks_before(
                    scores@,
                    #[trigger] picks[k],
                    j,
                ) by {
                    assert(ranks_before(scores@, top@[k].0 as int, j));
                }
            }
            assert forall|k: int, l: int| 0 <= k < l < picks.len() implies ranks_before(
                scores@,
                #[trigger] picks[k],
                #[trigger] picks[l],
            ) by {
                assert(ranks_before(scores@, top@[k].0 as int, top@[l].0 as int));
            }
            assert forall|k: int| 0 <= k < picks.len() implies 0 <= #[trigger] picks[k]
                < scores@.len() && scores@[picks[k]] is Some by {
                assert(top@[k].0 < i);
            }
        }
        top
    }

    /// The up to three entries of `licenses` that match `query` best, best
    /// first, each with its score. Entries that do not match are left out;
    /// among equal scores the earlier entry of the catalog comes first.
    pub fn fuzzy_search<'a>(licenses: &'a [String], query: &str) -> (matches: Vec<(&'a str, i64)>)
        ensures
            is_ranking(texts_of(licenses@), query@, ranking_of(matches@)),
            matches@.len() <= SUGGESTION_LIMIT,
            forall|k: int, l: int|
                0 <= k < l < matches@.len() ==> matches@[k].1 >= matches@[l].1,
            forall|k: int|
                0 <= k < matches@.len() ==> skim_score(#[trigger] matches@[k].0@, query@) == Some(
                    matches@[k].1,
                ) && texts_of(licenses@).contains(matches@[k].0@),
    {
        let ghost names = texts_of(licenses@);
        let mut scores: Vec<Option<i64>> = Vec::new();
        let mut i: usize = 0;
        while i < licenses.len()
            invariant
                i <= licenses.len(),
                names == texts_of(licenses@),
                scores@ == scores_of(names, query@).take(i as int),
            decreases licenses.len() - i,
        {
            scores.push(skim_match(licenses[i].as_str(), query));
            assert(scores@ =~= scores_of(names, query@).take(i + 1));
            i += 1;
        }
        assert(scores@ =~= scores_of(names, query@));
        let top = Self::best_matches(&scores);
        let ghost picks = places_of(top@);
        let mut matches: Vec<(&'a str, i64)> = Vec::new();
        let mut k: usize = 0;
        while k < top.len()
            invariant
                k <= top@.len(),
                names == texts_of(licenses@),
                scores@ == scores_of(names, query@),
                matches@.len() == k,
                forall|n: int|
                    0 <= n < top@.len() ==> (#[trigger] top@[n]).0 < scores@.len() && scores@[top@[n].0 as int]
                        == Some(top@[n].1),
                forall|n: int|
                    0 <= n < k ==> (#[trigger] matches@[n]).0@ == names[top@[n].0 as int]
                        && matches@[n].1 == top@[n].1,
            decreases top.len() - k,
        {
            let (at, score) = top[k];
            matches.push((licenses[at].as_str(), score));
            k += 1;
        }
        proof {
            assert forall|n: int| 0 <= n < picks.len() implies #[trigger] ranking_of(matches@)[n]
                == (names[picks[n]], skim_score(names[picks[n]], query@)->0) by {
                assert(scores@[top@[n].0 as int] == Some(top@[n].1));
            }
            assert forall|n: int| 0 <= n < matches@.len() implies skim_score(
                #[trigger] matches@[n].0@,
                query@,
            ) == Some(matches@[n].1) && names.contains(matches@[n].0@) by {
                assert(scores@[top@[n].0 as int] == Some(top@[n].1));
                assert(names[top@[n].0 as int] == matches@[n].0@);
            }
            assert forall|a: int, b: int| 0 <= a < b < matches@.len() implies matches@[a].1
                >= matches@[b].1 by {
                assert(ranks_before(scores@, picks[a], picks[b]));
                assert(scores@[top@[a].0 as int] == Some(top@[a].1));
                assert(scores@[top@[b].0 as int] == Some(top@[b].1));
            }
        }
        matches
    }
}

} // verus!
