//! The file list: the relative paths under the root directory, each once,
//! in the order of paths.

use vstd::prelude::*;
use crate::duplicate::{arrange, Duplicate};
use crate::sorting::{
    is_stable_order, lemma_arranged_same_items, lemma_same_rank, lemma_stable_order_permutes,
    rank_of, stable_order, stands_before, Rank, Ranked,
};
use crate::text::{
    bytes_of, lemma_lex_antisymmetric, lemma_lex_reflexive, lemma_lex_total,
    lemma_lex_transitive, lex_le, text_eq, text_le,
};

verus! {

/// Deepest directory level below the root that a walk descends to.
pub const MAX_DEPTH: usize = 10;

/// The texts that a list of strings holds.
pub open spec fn texts(list: Seq<String>) -> Seq<Seq<char>> {
    Seq::new(list.len(), |i: int| list[i]@)
}

impl Ranked for String {
    open spec fn precedes(&self, other: &Self) -> bool {
        lex_le(bytes_of(self@), bytes_of(other@))
    }

    proof fn lemma_total(a: &Self, b: &Self) {
        lemma_lex_total(bytes_of(a@), bytes_of(b@));
    }

    proof fn lemma_transitive(a: &Self, b: &Self, c: &Self) {
        lemma_lex_transitive(bytes_of(a@), bytes_of(b@), bytes_of(c@));
    }

    fn comes_before(&self, other: &Self) -> (before: bool) {
        text_le(self.as_str(), other.as_str())
    }
}

/// Each path comes before, or equals, every later one, in the order of
/// paths.
pub open spec fn is_sorted(paths: Seq<Seq<char>>) -> bool {
    forall|i: int, j: int|
        0 <= i <= j < paths.len() ==> lex_le(
            bytes_of(#[trigger] paths[i]),
            bytes_of(#[trigger] paths[j]),
        )
}

/// The first path comes before the second in the order of paths, and is
/// another path.
pub open spec fn path_lt(a: Seq<char>, b: Seq<char>) -> bool {
    lex_le(bytes_of(a), bytes_of(b)) && a != b
}

/// Each path comes before every later one: the list is sorted and holds
/// no path twice.
pub open spec fn strictly_ascending(paths: Seq<Seq<char>>) -> bool {
    forall|i: int, j: int|
        0 <= i < j < paths.len() ==> path_lt(#[trigger] paths[i], #[trigger] paths[j])
}

/// `listing` is the file list made of `entries`: every path that was
/// found, once, in the order of paths.
pub open spec fn is_listing_of(entries: Seq<Seq<char>>, listing: Seq<Seq<char>>) -> bool {
    strictly_ascending(listing) && listing.to_set() == entries.to_set()
}

/// Paths that each come before the other, or equal it, are one path.
proof fn lemma_path_antisymmetric(a: Seq<char>, b: Seq<char>)
    requires
        lex_le(bytes_of(a), bytes_of(b)),
        lex_le(bytes_of(b), bytes_of(a)),
    ensures
        a == b,
{
    lemma_lex_antisymmetric(bytes_of(a), bytes_of(b));
    vstd::utf8::encode_utf8_decode_utf8(a);
    vstd::utf8::encode_utf8_decode_utf8(b);
}

/// Two strictly ascending lists of the same paths are one list.
proof fn lemma_ascending_same_paths(one: Seq<Seq<char>>, other: Seq<Seq<char>>)
    requires
        strictly_ascending(one),
        strictly_ascending(other),
        one.to_set() == other.to_set(),
    ensures
        one == other,
    decreases one.len(),
{
    if one.len() == 0 {
        if other.len() > 0 {
            assert(other.contains(other[0]));
            assert(other.to_set().contains(other[0]));
            assert(one.contains(other[0]));
        }
        assert(one =~= other);
    } else if other.len() == 0 {
        assert(one.contains(one[0]));
        assert(one.to_set().contains(one[0]));
        assert(other.contains(one[0]));
    } else {
        assert(other.contains(other[0]));
        assert(one.to_set().contains(other[0]));
        let i = choose|i: int| 0 <= i < one.len() && one[i] == other[0];
        assert(one.contains(one[0]));
        assert(other.to_set().contains(one[0]));
        let j = choose|j: int| 0 <= j < other.len() && other[j] == one[0];
        if i == 0 {
        } else {
            assert(path_lt(one[0], one[i]));
            if j > 0 {
                assert(path_lt(other[0], other[j]));
            } else {
            }
            lemma_lex_reflexive(bytes_of(one[0]));
            lemma_path_antisymmetric(one[0], other[0]);
        }
        assert(one[0] == other[0]);
        let rest = one.drop_first();
        let more = other.drop_first();
        assert(strictly_ascending(rest)) by {
            assert forall|a: int, b: int| 0 <= a < b < rest.len() implies path_lt(
                #[trigger] rest[a],
                #[trigger] rest[b],
            ) by {
                assert(path_lt(one[a + 1], one[b + 1]));
            }
        }
        assert(strictly_ascending(more)) by {
            assert forall|a: int, b: int| 0 <= a < b < more.len() implies path_lt(
                #[trigger] more[a],
                #[trigger] more[b],
            ) by {
                assert(path_lt(other[a + 1], other[b + 1]));
            }
        }
        assert(rest.to_set() =~= more.to_set()) by {
            assert forall|p: Seq<char>| rest.to_set().contains(p) implies more.to_set().contains(
                p,
            ) by {
                let k = choose|k: int| 0 <= k < rest.len() && rest[k] == p;
                assert(one[k + 1] == p);
                assert(path_lt(one[0], one[k + 1]));
                assert(one.contains(p));
                assert(other.to_set().contains(p));
                let m = choose|m: int| 0 <= m < other.len() && other[m] == p;
                assert(more[m - 1] == p);
            }
            assert forall|p: Seq<char>| more.to_set().contains(p) implies rest.to_set().contains(
                p,
            ) by {
                let k = choose|k: int| 0 <= k < more.len() && more[k] == p;
                assert(other[k + 1] == p);
                assert(path_lt(other[0], other[k + 1]));
                assert(other.contains(p));
                assert(one.to_set().contains(p));
                let m = choose|m: int| 0 <= m < one.len() && one[m] == p;
                assert(rest[m - 1] == p);
            }
        }
        lemma_ascending_same_paths(rest, more);
        assert(one =~= seq![one[0]] + rest);
        assert(other =~= seq![other[0]] + more);
    }
}

/// The file list does not depend on the order in which a walk found the
/// entries, nor on how often it found one: the same paths have one file
/// list only.
pub proof fn lemma_listing_unique(
    first: Seq<Seq<char>>,
    second: Seq<Seq<char>>,
    one: Seq<Seq<char>>,
    other: Seq<Seq<char>>,
)
    requires
        first.to_set() == second.to_set(),
        is_listing_of(first, one),
        is_listing_of(second, other),
    ensures
        one == other,
{
    lemma_ascending_same_paths(one, other);
}

/// A file list is sorted.
pub proof fn lemma_ascending_is_sorted(paths: Seq<Seq<char>>)
    requires
        strictly_ascending(paths),
    ensures
        is_sorted(paths),
{
    assert forall|i: int, j: int| 0 <= i <= j < paths.len() implies lex_le(
        bytes_of(#[trigger] paths[i]),
        bytes_of(#[trigger] paths[j]),
    ) by {
        if i == j {
            lemma_lex_reflexive(bytes_of(paths[i]));
        } else {
            assert(path_lt(paths[i], paths[j]));
        }
    }
}

/// The ranking of paths by their order.
spec fn path_rank(entries: Seq<Seq<char>>) -> Rank {
    |i: int, j: int| lex_le(bytes_of(entries[i]), bytes_of(entries[j]))
}

/// Entries arranged in their stable order by path are sorted, and the
/// same entries.
proof fn lemma_stable_order_lists(
    entries: Seq<Seq<char>>,
    order: Seq<usize>,
    listing: Seq<Seq<char>>,
)
    requires
        is_stable_order(path_rank(entries), order, entries.len() as int),
        listing.len() == entries.len(),
        forall|k: int| 0 <= k < listing.len() ==> #[trigger] listing[k] == entries[order[k] as int],
    ensures
        is_sorted(listing),
        listing.to_multiset() == entries.to_multiset(),
{
    lemma_stable_order_permutes(path_rank(entries), order, entries.len() as int);
    lemma_arranged_same_items(entries, order, listing);
    assert forall|i: int, j: int| 0 <= i <= j < listing.len() implies lex_le(
        bytes_of(#[trigger] listing[i]),
        bytes_of(#[trigger] listing[j]),
    ) by {
        if i == j {
            lemma_lex_reflexive(bytes_of(listing[i]));
        } else {
            assert(stands_before(path_rank(entries), order[i] as int, order[j] as int));
        }
    }
}

/// What is left of `path` once the leading `base` is taken off it, by the
/// path rules of the standard library; `None` where `base` does not lead
/// `path`.
pub uninterp spec fn path_after_prefix(path: Seq<char>, base: Seq<char>) -> Option<Seq<char>>;

/// Calls `std::path::Path::strip_prefix` on `path` with `base`. The
/// contract only names the outcome: the remainder as text where the call
/// succeeds, nothing where it reports that `base` is no prefix.
#[verifier::external_body]
fn strip_prefix(path: &str, base: &str) -> (rest: Option<String>)
    ensures
        match rest {
            Some(r) => path_after_prefix(path@, base@) == Some(r@),
            None => path_after_prefix(path@, base@) is None,
        },
{
    match std::path::Path::new(path).strip_prefix(base) {
        Ok(rest) => Some(rest.to_string_lossy().into_owned()),
        Err(_) => None,
    }
}

/// The path as the file list shows it: relative to the root where the
/// root leads it, else unchanged.
pub open spec fn relative_text(path: Seq<char>, root: Seq<char>) -> Seq<char> {
    match path_after_prefix(path, root) {
        Some(rest) => rest,
        None => path,
    }
}

/// Makes one found path relative to the root.
pub fn relative_path(path: &str, root: &str) -> (relative: String)
    ensures
        relative@ == relative_text(path@, root@),
{
    match strip_prefix(path, root) {
        Some(rest) => rest,
        None => path.to_owned(),
    }
}

/// Makes every found path relative to the root, in the order found.
pub fn relative_paths(found: &Vec<String>, root: &str) -> (entries: Vec<String>)
    ensures
        entries@.len() == found@.len(),
        forall|i: int|
            0 <= i < found@.len() ==> (#[trigger] entries@[i])@ == relative_text(found@[i]@, root@),
{
    let mut entries: Vec<String> = Vec::new();
    let mut i: usize = 0;
    while i < found.len()
        invariant
            i <= found@.len(),
            entries@.len() == i,
            forall|k: int|
                0 <= k < i ==> (#[trigger] entries@[k])@ == relative_text(found@[k]@, root@),
        decreases found@.len() - i,
    {
        entries.push(relative_path(found[i].as_str(), root));
        i = i + 1;
    }
    entries
}

/// Copies a sorted list without the paths that repeat the one before them.
fn without_repeats(sorted: &Vec<String>) -> (listing: Vec<String>)
    requires
        is_sorted(texts(sorted@)),
    ensures
        strictly_ascending(texts(listing@)),
        texts(listing@).to_set() == texts(sorted@).to_set(),
{
    let mut listing: Vec<String> = Vec::new();
    let mut k: usize = 0;
    let ghost paths = texts(sorted@);
    assert(texts(listing@).to_set() =~= paths.take(0).to_set());
    while k < sorted.len()
        invariant
            k <= sorted@.len(),
            paths == texts(sorted@),
            is_sorted(paths),
            strictly_ascending(texts(listing@)),
            texts(listing@).to_set() == paths.take(k as int).to_set(),
            k > 0 ==> listing@.len() > 0 && listing@[listing@.len() - 1]@ == paths[k - 1],
        decreases sorted@.len() - k,
    {
        let ghost before = texts(listing@);
        let ghost upto = paths.take(k as int);
        let ghost incl = paths.take(k + 1);
        let fresh = if k == 0 {
            true
        } else {
            !text_eq(sorted[k].as_str(), sorted[k - 1].as_str())
        };
        proof {
            assert(incl =~= upto.push(paths[k as int]));
        }
        if fresh {
            proof {
                assert forall|i: int| 0 <= i < before.len() implies path_lt(
                    #[trigger] before[i],
                    paths[k as int],
                ) by {
                    assert(before.contains(before[i]));
                    assert(upto.to_set().contains(before[i]));
                    let m = choose|m: int|
                        0 <= m < upto.len() && upto[m]
                            == before[i];
                    assert(paths[m] == before[i]);
                    assert(lex_le(bytes_of(paths[m]), bytes_of(paths[k as int])));
                    if before[i] == paths[k as int] {
                        assert(lex_le(bytes_of(paths[m]), bytes_of(paths[k - 1])));
                        assert(lex_le(bytes_of(paths[k - 1]), bytes_of(paths[k as int])));
                        lemma_path_antisymmetric(paths[k - 1], paths[m]);
                    }
                }
            }
            listing.push(sorted[k].duplicate());
            proof {
                let after = texts(listing@);
                assert(after =~= before.push(paths[k as int]));
                assert forall|i: int, j: int| 0 <= i < j < after.len() implies path_lt(
                    #[trigger] after[i],
                    #[trigger] after[j],
                ) by {
                    if j < before.len() {
                        assert(path_lt(before[i], before[j]));
                    }
                }
                assert(after.to_set() =~= incl.to_set()) by {
                    assert forall|p: Seq<char>| after.to_set().contains(p) implies incl.to_set().contains(p) by {
                        let m = choose|m: int| 0 <= m < after.len() && after[m] == p;
                        if m < before.len() {
                            assert(before.contains(p));
                            assert(upto.to_set().contains(p));
                            let w = choose|w: int|
                                0 <= w < upto.len() && upto[w]
                                    == p;
                            assert(incl[w] == p);
                        } else {
                            assert(incl[k as int] == p);
                        }
                    }
                    assert forall|p: Seq<char>| incl.to_set().contains(
                        p,
                    ) implies after.to_set().contains(p) by {
                        let m = choose|m: int| 0 <= m < incl.len() && incl[m] == p;
                        if m < k {
                            assert(upto[m] == p);
                            assert(upto.contains(p));
                            assert(before.to_set().contains(p));
                            let w = choose|w: int| 0 <= w < before.len() && before[w] == p;
                            assert(after[w] == p);
                        } else {
                            assert(after[after.len() - 1] == p);
                        }
                    }
                }
            }
        } else {
            proof {
                assert(paths[k as int] == paths[k - 1]);
                assert(before.to_set() =~= incl.to_set()) by {
                    assert forall|p: Seq<char>| before.to_set().contains(p) implies incl.to_set().contains(p) by {
                        assert(upto.to_set().contains(p));
                        let w = choose|w: int|
                            0 <= w < upto.len() && upto[w] == p;
                        assert(incl[w] == p);
                    }
                    assert forall|p: Seq<char>| incl.to_set().contains(
                        p,
                    ) implies before.to_set().contains(p) by {
                        let m = choose|m: int| 0 <= m < incl.len() && incl[m] == p;
                        if m < k {
                            assert(upto[m] == p);
                            assert(upto.contains(p));
                        } else {
                            assert(upto[k - 1] == p);
                            assert(upto.contains(p));
                        }
                    }
                }
            }
        }
        k = k + 1;
    }
    assert(paths.take(k as int) =~= paths);
    listing
}

/// Makes the file list of the paths that a walk of the root directory
/// found: every path once, in the order of paths.
pub fn build_file_list(entries: Vec<String>) -> (listing: Vec<String>)
    ensures
        is_listing_of(texts(entries@), texts(listing@)),
{
    let order = stable_order(&entries);
    let sorted = arrange(&entries, &order);
    proof {
        let n = entries@.len() as int;
        lemma_same_rank(rank_of(entries@), path_rank(texts(entries@)), order@, n);
        lemma_stable_order_lists(texts(entries@), order@, texts(sorted@));
        lemma_same_paths(texts(entries@), texts(sorted@));
    }
    without_repeats(&sorted)
}

/// Lists of the same entries, each as often in the one as in the other,
/// hold the same paths.
proof fn lemma_same_paths(entries: Seq<Seq<char>>, sorted: Seq<Seq<char>>)
    requires
        sorted.to_multiset() == entries.to_multiset(),
    ensures
        sorted.to_set() == entries.to_set(),
{
    assert(sorted.to_set() =~= entries.to_set()) by {
        assert forall|p: Seq<char>| sorted.to_set().contains(p) == entries.to_set().contains(p) by {
            vstd::seq_lib::to_multiset_contains(sorted, p);
            vstd::seq_lib::to_multiset_contains(entries, p);
        }
    }
}

} // verus!
