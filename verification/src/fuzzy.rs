//! Fuzzy filename search: scores every listed path against the query and
//! ranks the paths that match.

use fuzzy_matcher::skim::SkimMatcherV2;
use fuzzy_matcher::FuzzyMatcher;
use vstd::prelude::*;
use crate::listing::texts;
use crate::duplicate::Duplicate;
use crate::sorting::{
    is_stable_order, lemma_same_rank, lemma_stable_order_unique, rank_of, stable_order, Rank,
    Ranked,
};
use crate::text::{byte_len, bytes_of};

verus! {

/// Longest path or query, in bytes, that is handed to the matcher; longer
/// texts count as not matching. The matcher adds its scores up in 32 bits
/// without a guard, a few dozen points a character at most: within this
/// bound, which no path reaches, the sums stay far inside that range.
pub const MAX_SCORED_BYTES: usize = 1048576;

/// The score that the skim matcher, as configured by default, gives to
/// `choice` for `pattern`; `None` where the pattern does not match.
pub uninterp spec fn skim_score(choice: Seq<char>, pattern: Seq<char>) -> Option<i64>;

/// Calls `fuzzy_matcher::skim::SkimMatcherV2::fuzzy_match` on a matcher
/// made by `SkimMatcherV2::default()`. The contract only names the result:
/// the score depends on the two texts alone. Texts over the bound are kept
/// out: the matcher's 32-bit sums are not guarded against overflow.
#[verifier::external_body]
fn skim_match(choice: &str, pattern: &str) -> (score: Option<i64>)
    requires
        bytes_of(choice@).len() <= MAX_SCORED_BYTES,
        bytes_of(pattern@).len() <= MAX_SCORED_BYTES,
    ensures
        score == skim_score(choice@, pattern@),
{
    SkimMatcherV2::default().fuzzy_match(choice, pattern)
}

/// The score of a path for a query: the matcher's score, and none for
/// texts over the bound.
pub open spec fn score_of(path: Seq<char>, query: Seq<char>) -> Option<i64> {
    if bytes_of(path).len() > MAX_SCORED_BYTES || bytes_of(query).len() > MAX_SCORED_BYTES {
        None
    } else {
        skim_score(path, query)
    }
}

/// Scores one path against the query.
pub fn candidate_score(path: &str, query: &str) -> (score: Option<i64>)
    ensures
        score == score_of(path@, query@),
{
    if byte_len(path) > MAX_SCORED_BYTES || byte_len(query) > MAX_SCORED_BYTES {
        None
    } else {
        skim_match(path, query)
    }
}

/// A path that matched, with its score, as a plain value.
pub struct Candidate {
    pub path: Seq<char>,
    pub score: i64,
}

/// A path that matched the query, with its score.
pub struct Scored {
    pub path: String,
    pub score: i64,
}

impl View for Scored {
    type V = Candidate;

    open spec fn view(&self) -> Candidate {
        Candidate { path: self.path@, score: self.score }
    }
}

impl Ranked for Scored {
    open spec fn precedes(&self, other: &Self) -> bool {
        self.score >= other.score
    }

    proof fn lemma_total(a: &Self, b: &Self) {
    }

    proof fn lemma_transitive(a: &Self, b: &Self, c: &Self) {
    }

    fn comes_before(&self, other: &Self) -> (before: bool) {
        self.score >= other.score
    }
}

/// The candidates that a list of scored paths holds.
pub open spec fn candidates(scored: Seq<Scored>) -> Seq<Candidate> {
    Seq::new(scored.len(), |i: int| scored[i]@)
}

/// The paths that match, each with its score, in the order of the list:
/// paths without a score are left out.
pub open spec fn matched(paths: Seq<Seq<char>>, scores: Seq<Option<i64>>) -> Seq<Candidate>
    decreases paths.len(),
{
    if paths.len() == 0 || scores.len() != paths.len() {
        Seq::empty()
    } else {
        let earlier = matched(paths.drop_last(), scores.drop_last());
        match scores.last() {
            Some(score) => earlier.push(Candidate { path: paths.last(), score }),
            None => earlier,
        }
    }
}

/// The scores of all paths for one query.
pub open spec fn scores_of(paths: Seq<Seq<char>>, query: Seq<char>) -> Seq<Option<i64>> {
    Seq::new(paths.len(), |i: int| score_of(paths[i], query))
}

/// The ranking by score: the higher score may stand first.
pub open spec fn score_rank(found: Seq<Candidate>) -> Rank {
    |i: int, j: int| found[i].score >= found[j].score
}

/// `ranked` holds the paths of the candidates in the order that `order` gives.
pub open spec fn picks_paths(
    found: Seq<Candidate>,
    order: Seq<usize>,
    ranked: Seq<Seq<char>>,
) -> bool {
    &&& ranked.len() == order.len()
    &&& forall|k: int| 0 <= k < ranked.len() ==> #[trigger] ranked[k] == found[order[k] as int].path
}

/// `ranked` is the ranking of the candidates: every candidate's path once,
/// by descending score, and among equal scores in the order of the list.
pub open spec fn is_ranking(found: Seq<Candidate>, ranked: Seq<Seq<char>>) -> bool {
    exists|order: Seq<usize>| #[trigger]
        is_stable_order(score_rank(found), order, found.len() as int) && picks_paths(
            found,
            order,
            ranked,
        )
}

/// The candidates have one ranking only.
pub proof fn lemma_ranking_unique(
    found: Seq<Candidate>,
    first: Seq<Seq<char>>,
    second: Seq<Seq<char>>,
)
    requires
        is_ranking(found, first),
        is_ranking(found, second),
    ensures
        first == second,
{
    let n = found.len() as int;
    let a = choose|order: Seq<usize>| #[trigger]
        is_stable_order(score_rank(found), order, n) && picks_paths(found, order, first);
    let b = choose|order: Seq<usize>| #[trigger]
        is_stable_order(score_rank(found), order, n) && picks_paths(found, order, second);
    lemma_stable_order_unique(score_rank(found), n, a, b);
    assert(first =~= second);
}

/// Scores every path of the list and keeps the ones that match.
pub fn score_files(files: &Vec<String>, query: &str) -> (scored: Vec<Scored>)
    ensures
        candidates(scored@) == matched(texts(files@), scores_of(texts(files@), query@)),
{
    let mut scored: Vec<Scored> = Vec::new();
    let mut i: usize = 0;
    let ghost paths = texts(files@);
    let ghost scores = scores_of(paths, query@);
    assert(paths.take(0) =~= Seq::<Seq<char>>::empty());
    while i < files.len()
        invariant
            i <= files@.len(),
            paths == texts(files@),
            scores == scores_of(paths, query@),
            candidates(scored@) == matched(paths.take(i as int), scores.take(i as int)),
        decreases files@.len() - i,
    {
        let ghost before = candidates(scored@);
        proof {
            assert(paths.take(i + 1).drop_last() =~= paths.take(i as int));
            assert(scores.take(i + 1).drop_last() =~= scores.take(i as int));
            assert(paths.take(i + 1).last() == files@[i as int]@);
            assert(scores.take(i + 1).last() == score_of(files@[i as int]@, query@));
        }
        match candidate_score(files[i].as_str(), query) {
            Some(score) => {
                scored.push(Scored { path: files[i].duplicate(), score });
                assert(candidates(scored@) =~= before.push(
                    Candidate { path: files@[i as int]@, score },
                ));
            },
            None => {},
        }
        i = i + 1;
    }
    assert(paths.take(i as int) =~= paths);
    assert(scores.take(i as int) =~= scores);
    scored
}

/// Ranks scored paths: highest score first, equal scores in the order given.
pub fn rank_scored(scored: &Vec<Scored>) -> (ranked: Vec<String>)
    ensures
        is_ranking(candidates(scored@), texts(ranked@)),
{
    let order = stable_order(scored);
    let mut ranked: Vec<String> = Vec::new();
    let mut k: usize = 0;
    while k < order.len()
        invariant
            k <= order@.len(),
            ranked@.len() == k,
            is_stable_order(rank_of(scored@), order@, scored@.len() as int),
            forall|i: int| 0 <= i < k ==> (#[trigger] ranked@[i])@ == scored@[order@[i] as int].path@,
        decreases order@.len() - k,
    {
        ranked.push(scored[order[k]].path.duplicate());
        k = k + 1;
    }
    proof {
        let found = candidates(scored@);
        lemma_same_rank(rank_of(scored@), score_rank(found), order@, scored@.len() as int);
        assert(picks_paths(found, order@, texts(ranked@)));
        assert(is_stable_order(score_rank(found), order@, found.len() as int));
    }
    ranked
}

/// Fuzzy search over a file list: the paths that match the query, ranked.
pub fn rank_files(files: &Vec<String>, query: &str) -> (ranked: Vec<String>)
    ensures
        is_ranking(matched(texts(files@), scores_of(texts(files@), query@)), texts(ranked@)),
{
    let scored = score_files(files, query);
    rank_scored(&scored)
}

} // verus!
