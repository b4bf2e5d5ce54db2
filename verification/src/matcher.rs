//! Scoring bookmark names against a query and ranking the matches.

use vstd::prelude::*;
use fuzzy_matcher::skim::SkimMatcherV2;
use fuzzy_matcher::FuzzyMatcher;
use crate::bookmark::Bookmark;
use crate::ranking::{
    is_ranking, lemma_ranking_no_duplicates, lemma_ranking_unique, outranks, rank_order,
};
use crate::text::{
    ascii_lowercase, has_ascii_uppercase, is_subsequence, lemma_ascii_lowercase_idempotent,
    lemma_subsequence_is_no_longer,
};

verus! {

/// The longest text, in characters, that is handed to the matcher.
///
/// The matcher keeps its sums in 32-bit integers. A sum grows by at most 32
/// for each character of the pattern (16 for the match and at most 16 of
/// bonus), and it falls by at most 4 for each character of the choice, from
/// a start of 32,768 below zero. With both texts within this length the sums
/// stay between -201,000,000 and 1,600,000,000, inside the 32-bit range; the
/// shortest pattern that could leave it has 67,108,864 characters.
pub const MAX_TEXT_CHARS: usize = 50_000_000;

/// Whether a text is short enough to be scored.
pub open spec fn fits(text: Seq<char>) -> bool {
    text.len() <= MAX_TEXT_CHARS
}

/// Whether every name of a collection is short enough to be scored.
pub open spec fn all_fit(records: Seq<Bookmark>) -> bool {
    forall|i: int| 0 <= i < records.len() ==> fits((#[trigger] records[i]).name@)
}

/// Tells whether a text is short enough to be scored.
pub fn text_fits(text: &str) -> (ok: bool)
    ensures
        ok == fits(text@),
{
    text.unicode_len() <= MAX_TEXT_CHARS
}

/// Tells whether every name of a collection is short enough to be scored.
pub fn names_fit(records: &Vec<Bookmark>) -> (ok: bool)
    ensures
        ok == all_fit(records@),
{
    let mut i: usize = 0;
    while i < records.len()
        invariant
            i <= records.len(),
            forall|j: int| 0 <= j < i ==> fits((#[trigger] records[j]).name@),
        decreases records.len() - i,
    {
        if !text_fits(records[i].name.as_str()) {
            return false;
        }
        i += 1;
    }
    true
}

/// The score that a fresh `SkimMatcherV2` in its default configuration gives
/// to `choice` for `pattern`, or `None` where it finds no match.
pub uninterp spec fn skim_score(choice: Seq<char>, pattern: Seq<char>) -> Option<i64>;

/// Which pairs that matcher scores. It compares characters exactly when the
/// pattern holds an ASCII upper-case letter and without regard to ASCII case
/// otherwise, and asks that the characters of the pattern occur in the choice
/// in order.
pub open spec fn skim_accepts(choice: Seq<char>, pattern: Seq<char>) -> bool {
    if has_ascii_uppercase(pattern) {
        is_subsequence(pattern, choice)
    } else {
        is_subsequence(pattern, ascii_lowercase(choice))
    }
}

/// Calls `FuzzyMatcher::fuzzy_match` on a new `SkimMatcherV2::default()`.
/// The matcher starts from empty buffers, so the score is a function of the
/// two texts alone. It answers `Some` exactly for the pairs described by
/// `skim_accepts`, and its score is a 32-bit value widened to `i64`.
#[verifier::external_body]
fn fuzzy_match(choice: &str, pattern: &str) -> (score: Option<i64>)
    requires
        fits(choice@),
        fits(pattern@),
    ensures
        score == skim_score(choice@, pattern@),
        score is Some <==> skim_accepts(choice@, pattern@),
        score matches Some(value) ==> i32::MIN <= value <= i32::MAX,
{
    SkimMatcherV2::default().fuzzy_match(choice, pattern)
}

/// The score of a name for a query: both are folded to ASCII lower case and
/// then scored by the matcher.
pub open spec fn match_score(name: Seq<char>, query: Seq<char>) -> Option<i64> {
    skim_score(ascii_lowercase(name), ascii_lowercase(query))
}

/// Whether a name matches a query: the folded characters of the query occur,
/// in order, among the folded characters of the name.
pub open spec fn is_match(name: Seq<char>, query: Seq<char>) -> bool {
    is_subsequence(ascii_lowercase(query), ascii_lowercase(name))
}

/// A name that is shorter than the query does not match it.
pub proof fn lemma_longer_query_never_matches(name: Seq<char>, query: Seq<char>)
    requires
        name.len() < query.len(),
    ensures
        !is_match(name, query),
{
    if is_match(name, query) {
        lemma_subsequence_is_no_longer(ascii_lowercase(query), ascii_lowercase(name));
    }
}

/// The sort key that belongs to a score: its negation, and zero where there
/// is no score.
pub open spec fn sort_key(score: Option<i64>) -> int {
    match score {
        Some(value) => -value,
        None => 0,
    }
}

impl Bookmark {
    /// Scores the name against a query that is already folded.
    fn score_folded(&self, folded: &str) -> (score: Option<i64>)
        requires
            fits(self.name@),
            fits(folded@),
            !has_ascii_uppercase(folded@),
        ensures
            score == skim_score(ascii_lowercase(self.name@), folded@),
            score is Some <==> is_subsequence(folded@, ascii_lowercase(self.name@)),
            score matches Some(value) ==> i32::MIN <= value <= i32::MAX,
    {
        let name = self.name.as_str().to_ascii_lowercase();
        proof {
            lemma_ascii_lowercase_idempotent(self.name@);
        }
        fuzzy_match(name.as_str(), folded)
    }

    /// The fuzzy score of this bookmark's name for the query, without regard
    /// to ASCII case; `None` when the name does not match.
    pub fn score(&self, query: &str) -> (score: Option<i64>)
        requires
            fits(self.name@),
            fits(query@),
        ensures
            score == match_score(self.name@, query@),
            score is Some <==> is_match(self.name@, query@),
            score matches Some(value) ==> i32::MIN <= value <= i32::MAX,
    {
        let folded = query.to_ascii_lowercase();
        proof {
            lemma_ascii_lowercase_idempotent(query@);
        }
        self.score_folded(folded.as_str())
    }

    /// The key by which bookmarks sort best first: the negated score, and zero
    /// for a name that does not match.
    pub fn calculate_matching_score(&self, query: String) -> (key: i64)
        requires
            fits(self.name@),
            fits(query@),
        ensures
            key == sort_key(match_score(self.name@, query@)),
            key != 0 ==> is_match(self.name@, query@),
    {
        match self.score(query.as_str()) {
            Some(value) => -value,
            None => 0,
        }
    }
}

/// The score of every record for the query, in the order of the records.
pub open spec fn scores_of(query: Seq<char>, records: Seq<Bookmark>) -> Seq<Option<i64>> {
    Seq::new(records.len(), |i: int| match_score(records[i].name@, query))
}

/// The records at the positions that `order` lists, in that order.
pub open spec fn picks(records: Seq<Bookmark>, order: Seq<usize>) -> Seq<Bookmark> {
    Seq::new(order.len(), |k: int| records[order[k] as int])
}

/// Whether `ranked` is the result of ranking `records` for `query`: the
/// records that have a score, best score first, and records of equal score in
/// the order in which `records` has them.
pub open spec fn is_ranked(
    query: Seq<char>,
    records: Seq<Bookmark>,
    ranked: Seq<Bookmark>,
) -> bool {
    exists|order: Seq<usize>| #[trigger]
        is_ranking(scores_of(query, records), order) && ranked == picks(records, order)
}

/// The ranking of `records` for `query`.
pub open spec fn ranked_records(query: Seq<char>, records: Seq<Bookmark>) -> Seq<Bookmark> {
    choose|ranked: Seq<Bookmark>| is_ranked(query, records, ranked)
}

/// Ranking is deterministic: a query and a collection have one ranking.
pub proof fn lemma_rank_deterministic(
    query: Seq<char>,
    records: Seq<Bookmark>,
    first: Seq<Bookmark>,
    second: Seq<Bookmark>,
)
    requires
        is_ranked(query, records, first),
        is_ranked(query, records, second),
    ensures
        first == second,
{
    let scores = scores_of(query, records);
    let a = choose|order: Seq<usize>| #[trigger]
        is_ranking(scores, order) && first == picks(records, order);
    let b = choose|order: Seq<usize>| #[trigger]
        is_ranking(scores, order) && second == picks(records, order);
    lemma_ranking_unique(scores, a, b);
}

/// Whether `order` tells, for each ranked record, the position of the
/// collection from which it is taken.
pub open spec fn is_selection(
    records: Seq<Bookmark>,
    ranked: Seq<Bookmark>,
    order: Seq<usize>,
) -> bool {
    &&& ranked == picks(records, order)
    &&& forall|k: int| 0 <= k < order.len() ==> (#[trigger] order[k]) < records.len()
}

/// Ranking only selects: every ranked record is taken from a position of the
/// collection, and no position is taken twice. So each ranked record is a
/// record of the collection, and a collection without repeated records has a
/// ranking without repeated records.
pub proof fn lemma_rank_selects(query: Seq<char>, records: Seq<Bookmark>, ranked: Seq<Bookmark>)
    requires
        is_ranked(query, records, ranked),
    ensures
        exists|order: Seq<usize>| #[trigger]
            is_selection(records, ranked, order) && order.no_duplicates(),
        forall|record: Bookmark| #[trigger] ranked.contains(record) ==> records.contains(record),
        records.no_duplicates() ==> ranked.no_duplicates(),
{
    let scores = scores_of(query, records);
    let order = choose|order: Seq<usize>| #[trigger]
        is_ranking(scores, order) && ranked == picks(records, order);
    lemma_ranking_no_duplicates(scores, order);
    assert(is_selection(records, ranked, order));
    assert forall|record: Bookmark| #[trigger] ranked.contains(record) implies records.contains(
        record,
    ) by {
        let k = choose|k: int| 0 <= k < ranked.len() && ranked[k] == record;
        assert(records[order[k] as int] == record);
    }
    if records.no_duplicates() {
        assert forall|k: int, l: int|
            0 <= k < ranked.len() && 0 <= l < ranked.len() && k != l implies ranked[k]
            != ranked[l] by {
            assert(order[k] != order[l]);
        }
    }
}

/// Ranking is ordered and stable: of two ranked records the earlier one has
/// the higher score, or the two have the same score and the earlier one is
/// taken from the earlier position of the collection.
pub proof fn lemma_rank_stable(query: Seq<char>, records: Seq<Bookmark>, ranked: Seq<Bookmark>)
    requires
        is_ranked(query, records, ranked),
    ensures
        exists|order: Seq<usize>| #[trigger]
            is_selection(records, ranked, order) && forall|k: int, l: int|
                0 <= k < l < ranked.len() ==> {
                    let first = match_score((#[trigger] ranked[k]).name@, query);
                    let second = match_score((#[trigger] ranked[l]).name@, query);
                    &&& first is Some
                    &&& second is Some
                    &&& first.unwrap() >= second.unwrap()
                    &&& first.unwrap() == second.unwrap() ==> order[k] < order[l]
                },
{
    let scores = scores_of(query, records);
    let order = choose|order: Seq<usize>| #[trigger]
        is_ranking(scores, order) && ranked == picks(records, order);
    assert(is_selection(records, ranked, order));
    assert forall|k: int, l: int| 0 <= k < l < ranked.len() implies {
        let first = match_score((#[trigger] ranked[k]).name@, query);
        let second = match_score((#[trigger] ranked[l]).name@, query);
        &&& first is Some
        &&& second is Some
        &&& first.unwrap() >= second.unwrap()
        &&& first.unwrap() == second.unwrap() ==> order[k] < order[l]
    } by {
        assert(outranks(scores, order[k] as int, order[l] as int));
    }
}

/// Ranking ignores ASCII case in the query: two queries with the same folded
/// form rank a collection alike.
pub proof fn lemma_rank_ignores_case(
    query: Seq<char>,
    other: Seq<char>,
    records: Seq<Bookmark>,
    first: Seq<Bookmark>,
    second: Seq<Bookmark>,
)
    requires
        ascii_lowercase(query) == ascii_lowercase(other),
        is_ranked(query, records, first),
        is_ranked(other, records, second),
    ensures
        first == second,
{
    assert(scores_of(query, records) =~= scores_of(other, records));
    lemma_rank_deterministic(query, records, first, second);
}

/// Ranks the records for a query. Both the query and the names are folded to
/// ASCII lower case, so upper and lower case match each other. A record is
/// kept exactly when its name matches; the kept records come best score
/// first, and records of equal score keep their given order. An empty
/// collection, or one in which no name matches, gives an empty result.
pub fn rank(query: &str, records: &Vec<Bookmark>) -> (ranked: Vec<Bookmark>)
    requires
        fits(query@),
        all_fit(records@),
    ensures
        is_ranked(query@, records@, ranked@),
        ranked@ == ranked_records(query@, records@),
        forall|record: Bookmark| #[trigger]
            ranked@.contains(record) <==> records@.contains(record) && is_match(
                record.name@,
                query@,
            ),
{
    let folded = query.to_ascii_lowercase();
    proof {
        lemma_ascii_lowercase_idempotent(query@);
    }
    let mut scores: Vec<Option<i64>> = Vec::new();
    let mut i: usize = 0;
    while i < records.len()
        invariant
            i <= records.len(),
            scores.len() == i,
            folded@ == ascii_lowercase(query@),
            fits(folded@),
            !has_ascii_uppercase(folded@),
            all_fit(records@),
            forall|j: int|
                0 <= j < i ==> #[trigger] scores[j] == match_score(records[j].name@, query@),
            forall|j: int|
                0 <= j < i ==> ((#[trigger] scores[j]) is Some <==> is_match(
                    records[j].name@,
                    query@,
                )),
        decreases records.len() - i,
    {
        let score = records[i].score_folded(folded.as_str());
        scores.push(score);
        i += 1;
    }
    assert(scores@ =~= scores_of(query@, records@));
    let order = rank_order(&scores);
    let mut ranked: Vec<Bookmark> = Vec::new();
    let mut k: usize = 0;
    while k < order.len()
        invariant
            k <= order.len(),
            ranked.len() == k,
            is_ranking(scores@, order@),
            scores.len() == records.len(),
            forall|j: int| 0 <= j < k ==> #[trigger] ranked[j] == records[order[j] as int],
        decreases order.len() - k,
    {
        ranked.push(records[order[k]].clone());
        k += 1;
    }
    proof {
        assert(ranked@ =~= picks(records@, order@));
        assert(is_ranking(scores_of(query@, records@), order@));
        assert(is_ranked(query@, records@, ranked@));
        lemma_rank_deterministic(query@, records@, ranked@, ranked_records(query@, records@));
        assert forall|record: Bookmark| #[trigger]
            ranked@.contains(record) <==> records@.contains(record) && is_match(
                record.name@,
                query@,
            ) by {
            if ranked@.contains(record) {
                let k = choose|k: int| 0 <= k < ranked.len() && ranked[k] == record;
                let at = order[k] as int;
                assert(records[at] == record);
                assert(scores[at] is Some);
            }
            if records@.contains(record) && is_match(record.name@, query@) {
                let at = choose|at: int| 0 <= at < records.len() && records[at] == record;
                assert(scores[at] is Some);
                let k = choose|k: int| 0 <= k < order.len() && order[k] == at;
                assert(ranked[k] == record);
            }
        }
    }
    ranked
}

} // verus!
