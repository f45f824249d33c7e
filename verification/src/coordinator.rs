//! Content search over the whole file list: chunks of files to read, the
//! results gathered from them, and their final order.

use vstd::prelude::*;
use crate::content::{file_scan_of, findings, lines_ascend, Found, SearchResult};
use crate::listing::texts;
use crate::duplicate::{arrange, Duplicate};
use crate::sorting::{
    is_stable_order, lemma_arranged_same_items, lemma_same_rank, lemma_stable_order_permutes,
    lemma_stable_order_unique, rank_of, stable_order, stands_before, Rank, Ranked,
};
use crate::text::{
    bytes_of, lemma_lex_antisymmetric, lemma_lex_total, lemma_lex_transitive, lex_le, text_eq,
    text_le,
};

verus! {

/// Number of files handed out for reading at a time.
pub const CHUNK_SIZE: usize = 50;

/// Most files that may be open at once, over all searches of the engine.
pub const MAX_CONCURRENT_READS: usize = 100;

/// The first finding may stand before the second: its path comes first,
/// or the paths are the same and its line is not the later one.
pub open spec fn finding_le(a: Found, b: Found) -> bool {
    if a.file_path == b.file_path {
        a.line_number <= b.line_number
    } else {
        lex_le(bytes_of(a.file_path), bytes_of(b.file_path))
    }
}

/// Texts with the same bytes are the same text.
proof fn lemma_bytes_tell_texts_apart(a: Seq<char>, b: Seq<char>)
    requires
        bytes_of(a) == bytes_of(b),
    ensures
        a == b,
{
    vstd::utf8::encode_utf8_decode_utf8(a);
    vstd::utf8::encode_utf8_decode_utf8(b);
}

impl Ranked for SearchResult {
    open spec fn precedes(&self, other: &Self) -> bool {
        finding_le(self@, other@)
    }

    proof fn lemma_total(a: &Self, b: &Self) {
        lemma_lex_total(bytes_of(a@.file_path), bytes_of(b@.file_path));
    }

    proof fn lemma_transitive(a: &Self, b: &Self, c: &Self) {
        let x = bytes_of(a@.file_path);
        let y = bytes_of(b@.file_path);
        let z = bytes_of(c@.file_path);
        if a@.file_path == b@.file_path {
        } else if b@.file_path == c@.file_path {
        } else if a@.file_path == c@.file_path {
            lemma_lex_antisymmetric(x, y);
            lemma_bytes_tell_texts_apart(a@.file_path, b@.file_path);
        } else {
            lemma_lex_transitive(x, y, z);
        }
    }

    fn comes_before(&self, other: &Self) -> (before: bool) {
        if text_eq(self.file_path.as_str(), other.file_path.as_str()) {
            self.line_number <= other.line_number
        } else {
            text_le(self.file_path.as_str(), other.file_path.as_str())
        }
    }
}

/// The ranking of findings by path and then by line.
pub open spec fn finding_rank(found: Seq<Found>) -> Rank {
    |i: int, j: int| finding_le(found[i], found[j])
}

/// `sorted` holds the findings in the order that `order` gives.
pub open spec fn picks_findings(found: Seq<Found>, order: Seq<usize>, sorted: Seq<Found>) -> bool {
    &&& sorted.len() == order.len()
    &&& forall|k: int| 0 <= k < sorted.len() ==> #[trigger] sorted[k] == found[order[k] as int]
}

/// `sorted` is the display order of the findings: each of them once, by
/// path and then by line number, equal ones in the order gathered.
pub open spec fn is_display_order(found: Seq<Found>, sorted: Seq<Found>) -> bool {
    exists|order: Seq<usize>| #[trigger]
        is_stable_order(finding_rank(found), order, found.len() as int) && picks_findings(
            found,
            order,
            sorted,
        )
}

/// The findings have one display order only.
pub proof fn lemma_display_order_unique(found: Seq<Found>, first: Seq<Found>, second: Seq<Found>)
    requires
        is_display_order(found, first),
        is_display_order(found, second),
    ensures
        first == second,
{
    let n = found.len() as int;
    let a = choose|order: Seq<usize>| #[trigger]
        is_stable_order(finding_rank(found), order, n) && picks_findings(found, order, first);
    let b = choose|order: Seq<usize>| #[trigger]
        is_stable_order(finding_rank(found), order, n) && picks_findings(found, order, second);
    lemma_stable_order_unique(finding_rank(found), n, a, b);
    assert(first =~= second);
}

/// In display order every finding may stand before each later one.
pub proof fn lemma_display_order_ascends(found: Seq<Found>, sorted: Seq<Found>, i: int, j: int)
    requires
        is_display_order(found, sorted),
        0 <= i <= j < sorted.len(),
    ensures
        finding_le(sorted[i], sorted[j]),
{
    let n = found.len() as int;
    let order = choose|order: Seq<usize>| #[trigger]
        is_stable_order(finding_rank(found), order, n) && picks_findings(found, order, sorted);
    if i == j {
        lemma_lex_total(bytes_of(sorted[i].file_path), bytes_of(sorted[i].file_path));
    } else {
        assert(stands_before(finding_rank(found), order[i] as int, order[j] as int));
    }
}

/// No two of the findings are of the same line of the same file.
pub open spec fn distinct_lines(found: Seq<Found>) -> bool {
    forall|i: int, j: int|
        0 <= i < j < found.len() ==> !((#[trigger] found[i]).file_path == (
        #[trigger] found[j]).file_path && found[i].line_number == found[j].line_number)
}

/// Each finding may stand before every later one.
pub open spec fn ascends(found: Seq<Found>) -> bool {
    forall|i: int, j: int|
        0 <= i <= j < found.len() ==> finding_le(#[trigger] found[i], #[trigger] found[j])
}

/// Findings of distinct lines have one ascending arrangement only.
proof fn lemma_ascending_unique(one: Seq<Found>, other: Seq<Found>)
    requires
        ascends(one),
        ascends(other),
        distinct_lines(one),
        one.to_multiset() == other.to_multiset(),
    ensures
        one == other,
    decreases one.len(),
{
    broadcast use vstd::multiset::group_multiset_axioms;
    broadcast use vstd::seq_lib::group_to_multiset_ensures;

    vstd::seq_lib::to_multiset_len(one);
    vstd::seq_lib::to_multiset_len(other);
    if one.len() == 0 || other.len() == 0 {
        assert(one =~= other);
    } else {
        assert(one.to_multiset().contains(one[0]));
        assert(one.to_multiset().contains(other[0]));
        let i = choose|i: int| 0 <= i < one.len() && #[trigger] one[i] == other[0];
        let j = choose|j: int| 0 <= j < other.len() && #[trigger] other[j] == one[0];
        assert(finding_le(one[0], one[i]));
        assert(finding_le(other[0], other[j]));
        if one[0].file_path != one[i].file_path {
            lemma_lex_antisymmetric(bytes_of(one[0].file_path), bytes_of(one[i].file_path));
            lemma_bytes_tell_texts_apart(one[0].file_path, one[i].file_path);
        }
        assert(i == 0);
        assert(one.remove(0) =~= one.drop_first());
        assert(other.remove(0) =~= other.drop_first());
        vstd::seq_lib::to_multiset_remove(one, 0);
        vstd::seq_lib::to_multiset_remove(other, 0);
        assert(ascends(one.drop_first())) by {
            assert forall|a: int, b: int| 0 <= a <= b < one.drop_first().len() implies finding_le(
                #[trigger] one.drop_first()[a],
                #[trigger] one.drop_first()[b],
            ) by {
                assert(finding_le(one[a + 1], one[b + 1]));
            }
        }
        assert(ascends(other.drop_first())) by {
            assert forall|a: int, b: int| 0 <= a <= b < other.drop_first().len() implies finding_le(
                #[trigger] other.drop_first()[a],
                #[trigger] other.drop_first()[b],
            ) by {
                assert(finding_le(other[a + 1], other[b + 1]));
            }
        }
        assert(distinct_lines(one.drop_first())) by {
            assert forall|a: int, b: int| 0 <= a < b < one.drop_first().len() implies !((
            #[trigger] one.drop_first()[a]).file_path == (#[trigger] one.drop_first()[b]).file_path
                && one.drop_first()[a].line_number == one.drop_first()[b].line_number) by {
                assert(!(one[a + 1].file_path == one[b + 1].file_path && one[a + 1].line_number
                    == one[b + 1].line_number));
            }
        }
        lemma_ascending_unique(one.drop_first(), other.drop_first());
        assert(one =~= seq![one[0]] + one.drop_first());
        assert(other =~= seq![other[0]] + other.drop_first());
    }
}

/// The display order holds the findings that were gathered, each as
/// often as it was gathered.
pub proof fn lemma_display_order_same_findings(found: Seq<Found>, sorted: Seq<Found>)
    requires
        is_display_order(found, sorted),
    ensures
        sorted.to_multiset() == found.to_multiset(),
{
    let n = found.len() as int;
    let order = choose|order: Seq<usize>| #[trigger]
        is_stable_order(finding_rank(found), order, n) && picks_findings(found, order, sorted);
    lemma_stable_order_permutes(finding_rank(found), order, n);
    lemma_arranged_same_items(found, order, sorted);
}

/// The display order does not depend on the order in which the results
/// of the files came in: findings of distinct lines, gathered in any
/// order, are shown in one order only.
pub proof fn lemma_display_order_ignores_arrival(
    first: Seq<Found>,
    second: Seq<Found>,
    one: Seq<Found>,
    other: Seq<Found>,
)
    requires
        first.to_multiset() == second.to_multiset(),
        distinct_lines(first),
        is_display_order(first, one),
        is_display_order(second, other),
    ensures
        one == other,
{
    lemma_display_order_same_findings(first, one);
    lemma_display_order_same_findings(second, other);
    assert(ascends(one)) by {
        assert forall|i: int, j: int| 0 <= i <= j < one.len() implies finding_le(
            #[trigger] one[i],
            #[trigger] one[j],
        ) by {
            lemma_display_order_ascends(first, one, i, j);
        }
    }
    assert(ascends(other)) by {
        assert forall|i: int, j: int| 0 <= i <= j < other.len() implies finding_le(
            #[trigger] other[i],
            #[trigger] other[j],
        ) by {
            lemma_display_order_ascends(second, other, i, j);
        }
    }
    let n = first.len() as int;
    let order = choose|order: Seq<usize>| #[trigger]
        is_stable_order(finding_rank(first), order, n) && picks_findings(first, order, one);
    lemma_stable_order_permutes(finding_rank(first), order, n);
    assert(distinct_lines(one)) by {
        assert forall|a: int, b: int| 0 <= a < b < one.len() implies !((#[trigger] one[a]).file_path
            == (#[trigger] one[b]).file_path && one[a].line_number == one[b].line_number) by {
            let p = order[a] as int;
            let q = order[b] as int;
            assert(order[a] != order[b]);
            if p < q {
                assert(!(first[p].file_path == first[q].file_path && first[p].line_number
                    == first[q].line_number));
            } else {
                assert(!(first[q].file_path == first[p].file_path && first[q].line_number
                    == first[p].line_number));
            }
        }
    }
    lemma_ascending_unique(one, other);
}

/// The first finding stands before the second: its path comes first, or
/// the paths are the same and its line is the earlier one.
pub open spec fn finding_lt(a: Found, b: Found) -> bool {
    finding_le(a, b) && !(a.file_path == b.file_path && a.line_number == b.line_number)
}

/// Findings of distinct lines are shown strictly ascending: by path, and
/// within a file by line number, no line twice.
pub proof fn lemma_display_order_strict(found: Seq<Found>, sorted: Seq<Found>, i: int, j: int)
    requires
        distinct_lines(found),
        is_display_order(found, sorted),
        0 <= i < j < sorted.len(),
    ensures
        finding_lt(sorted[i], sorted[j]),
{
    lemma_display_order_ascends(found, sorted, i, j);
    let n = found.len() as int;
    let order = choose|order: Seq<usize>| #[trigger]
        is_stable_order(finding_rank(found), order, n) && picks_findings(found, order, sorted);
    lemma_stable_order_permutes(finding_rank(found), order, n);
    let p = order[i] as int;
    let q = order[j] as int;
    assert(order[i] != order[j]);
    if p < q {
        assert(!(found[p].file_path == found[q].file_path && found[p].line_number
            == found[q].line_number));
    } else {
        assert(!(found[q].file_path == found[p].file_path && found[q].line_number
            == found[p].line_number));
    }
}

/// What is gathered stays of distinct lines when the results of one more
/// file come in: the search of a file records a line once at most, and no
/// file is searched twice.
pub proof fn lemma_distinct_lines_join(gathered: Seq<Found>, scanned: Seq<Found>, path: Seq<char>)
    requires
        distinct_lines(gathered),
        lines_ascend(scanned, path),
        forall|i: int| 0 <= i < gathered.len() ==> (#[trigger] gathered[i]).file_path != path,
    ensures
        distinct_lines(gathered + scanned),
{
    let all = gathered + scanned;
    assert forall|i: int, j: int| 0 <= i < j < all.len() implies !((#[trigger] all[i]).file_path == (
    #[trigger] all[j]).file_path && all[i].line_number == all[j].line_number) by {
        if j < gathered.len() {
            assert(!(gathered[i].file_path == gathered[j].file_path && gathered[i].line_number
                == gathered[j].line_number));
        } else if i < gathered.len() {
            assert(gathered[i].file_path != path);
            assert(scanned[j - gathered.len()].file_path == path);
        } else {
            assert(scanned[i - gathered.len()].line_number < scanned[j
                - gathered.len()].line_number);
        }
    }
}

/// A file as a content search meets it: its path, its size, and the bytes
/// that reading it gave.
pub struct Loaded {
    pub path: Seq<char>,
    pub size: u64,
    pub bytes: Seq<u8>,
}

/// What the searches of the files record, file after file.
pub open spec fn all_scans(files: Seq<Loaded>, query: Seq<char>) -> Seq<Found>
    decreases files.len(),
{
    if files.len() == 0 {
        Seq::empty()
    } else {
        all_scans(files.drop_last(), query) + file_scan_of(
            files.last().path,
            files.last().size,
            files.last().bytes,
            query,
        )
    }
}

/// No two of the files have the same path.
pub open spec fn distinct_paths(files: Seq<Loaded>) -> bool {
    forall|a: int, b: int|
        0 <= a < b < files.len() ==> (#[trigger] files[a]).path != (#[trigger] files[b]).path
}

/// What the searches of files of distinct paths record is of distinct
/// lines, and of those files only.
proof fn lemma_all_scans_distinct(files: Seq<Loaded>, query: Seq<char>)
    requires
        distinct_paths(files),
    ensures
        distinct_lines(all_scans(files, query)),
        forall|i: int|
            0 <= i < all_scans(files, query).len() ==> exists|k: int|
                0 <= k < files.len() && (#[trigger] files[k]).path == (#[trigger] all_scans(
                    files,
                    query,
                )[i]).file_path,
    decreases files.len(),
{
    if files.len() > 0 {
        let earlier = files.drop_last();
        let last = files.last();
        assert(distinct_paths(earlier)) by {
            assert forall|a: int, b: int| 0 <= a < b < earlier.len() implies (
            #[trigger] earlier[a]).path != (#[trigger] earlier[b]).path by {
                assert(files[a].path != files[b].path);
            }
        }
        lemma_all_scans_distinct(earlier, query);
        let gathered = all_scans(earlier, query);
        let scanned = file_scan_of(last.path, last.size, last.bytes, query);
        crate::content::lemma_scan_lines_ascend(last.path, last.bytes, query);
        assert(lines_ascend(scanned, last.path));
        assert forall|i: int| 0 <= i < gathered.len() implies (#[trigger] gathered[i]).file_path
            != last.path by {
            let k = choose|k: int|
                0 <= k < earlier.len() && (#[trigger] earlier[k]).path == gathered[i].file_path;
            assert(files[k].path != files[files.len() - 1].path);
        }
        lemma_distinct_lines_join(gathered, scanned, last.path);
        let all = all_scans(files, query);
        assert forall|i: int| 0 <= i < all.len() implies exists|k: int|
            0 <= k < files.len() && (#[trigger] files[k]).path == (#[trigger] all[i]).file_path by {
            if i < gathered.len() {
                let k = choose|k: int|
                    0 <= k < earlier.len() && (#[trigger] earlier[k]).path
                        == gathered[i].file_path;
                assert(files[k].path == all[i].file_path);
            } else {
                assert(scanned[i - gathered.len()].file_path == last.path);
                assert(files[files.len() - 1].path == all[i].file_path);
            }
        }
    }
}

/// The results of a whole content search, over files of distinct paths,
/// are shown strictly ascending: by path, and within a file by line
/// number, with one result a line at most.
pub proof fn lemma_search_order(
    files: Seq<Loaded>,
    query: Seq<char>,
    sorted: Seq<Found>,
    i: int,
    j: int,
)
    requires
        distinct_paths(files),
        is_display_order(all_scans(files, query), sorted),
        0 <= i < j < sorted.len(),
    ensures
        finding_lt(sorted[i], sorted[j]),
{
    lemma_all_scans_distinct(files, query);
    lemma_display_order_strict(all_scans(files, query), sorted, i, j);
}

/// Sorts gathered results for display: by path, then by line number.
pub fn sort_results(results: &Vec<SearchResult>) -> (sorted: Vec<SearchResult>)
    ensures
        is_display_order(findings(results@), findings(sorted@)),
{
    let order = stable_order(results);
    let sorted = arrange(results, &order);
    proof {
        let found = findings(results@);
        lemma_same_rank(rank_of(results@), finding_rank(found), order@, results@.len() as int);
        assert(picks_findings(found, order@, findings(sorted@)));
        assert(is_stable_order(finding_rank(found), order@, found.len() as int));
    }
    sorted
}

/// A content search in progress: the files still to be read, and the
/// results gathered so far.
pub struct ContentSearch {
    files: Vec<String>,
    next: usize,
    results: Vec<SearchResult>,
}

impl ContentSearch {
    /// The paths to search, in listing order.
    pub closed spec fn files(&self) -> Seq<Seq<char>> {
        texts(self.files@)
    }

    /// Number of files already handed out.
    pub closed spec fn handed_out(&self) -> int {
        self.next as int
    }

    /// The results gathered so far, in the order they came in.
    pub closed spec fn gathered(&self) -> Seq<Found> {
        findings(self.results@)
    }

    /// No more files are handed out than there are.
    pub closed spec fn wf(&self) -> bool {
        self.next <= self.files@.len()
    }

    /// Starts a search of the listed files. For an empty query no file is
    /// handed out: the search ends with no result.
    pub fn new(files: Vec<String>, query: &str) -> (search: Self)
        ensures
            search.wf(),
            search.files() == if query@.len() == 0 {
                Seq::<Seq<char>>::empty()
            } else {
                texts(files@)
            },
            search.handed_out() == 0,
            search.gathered() == Seq::<Found>::empty(),
    {
        let search = if query.as_bytes().len() == 0 {
            proof {
                vstd::utf8::encode_utf8_decode_utf8(query@);
            }
            ContentSearch { files: Vec::new(), next: 0, results: Vec::new() }
        } else {
            proof {
                if query@.len() == 0 {
                    assert(query@ =~= Seq::<char>::empty());
                    assert(vstd::utf8::encode_utf8(query@).len() == 0);
                }
            }
            ContentSearch { files, next: 0, results: Vec::new() }
        };
        assert(search.files() =~= if query@.len() == 0 {
            Seq::<Seq<char>>::empty()
        } else {
            texts(files@)
        });
        assert(search.gathered() =~= Seq::<Found>::empty());
        search
    }

    /// Hands out the next files to read, at most a chunk of them, in
    /// listing order; `None` once all were handed out.
    pub fn next_chunk(&mut self) -> (chunk: Option<Vec<String>>)
        requires
            old(self).wf(),
        ensures
            final(self).wf(),
            final(self).files() == old(self).files(),
            final(self).gathered() == old(self).gathered(),
            final(self).handed_out() == chunk_end(
                old(self).handed_out(),
                old(self).files().len() as int,
            ),
            match chunk {
                Some(paths) => old(self).handed_out() < old(self).files().len() && texts(paths@)
                    == old(self).files().subrange(old(self).handed_out(), final(self).handed_out()),
                None => old(self).handed_out() == old(self).files().len(),
            },
    {
        let total = self.files.len();
        if self.next >= total {
            return None;
        }
        let end = if total - self.next > CHUNK_SIZE {
            self.next + CHUNK_SIZE
        } else {
            total
        };
        let mut paths: Vec<String> = Vec::new();
        let mut i: usize = self.next;
        let start = self.next;
        while i < end
            invariant
                start <= i <= end <= total,
                total == self.files@.len(),
                paths@.len() == i - start,
                forall|k: int| 0 <= k < paths@.len() ==> #[trigger] paths@[k] == self.files@[start + k],
            decreases end - i,
        {
            paths.push(self.files[i].duplicate());
            i = i + 1;
        }
        self.next = end;
        assert(texts(paths@) =~= texts(self.files@).subrange(start as int, end as int));
        Some(paths)
    }

    /// Adds the results of one file to those gathered.
    pub fn absorb(&mut self, found: Vec<SearchResult>)
        requires
            old(self).wf(),
        ensures
            final(self).wf(),
            final(self).files() == old(self).files(),
            final(self).handed_out() == old(self).handed_out(),
            final(self).gathered() == old(self).gathered() + findings(found@),
    {
        let mut found = found;
        let ghost before = self.results@;
        let ghost added = found@;
        self.results.append(&mut found);
        assert(findings(self.results@) =~= findings(before) + findings(added));
    }

    /// Adds copies of the results of one file to those gathered.
    pub fn absorb_from(&mut self, found: &Vec<SearchResult>)
        requires
            old(self).wf(),
        ensures
            final(self).wf(),
            final(self).files() == old(self).files(),
            final(self).handed_out() == old(self).handed_out(),
            final(self).gathered() == old(self).gathered() + findings(found@),
    {
        let mut i: usize = 0;
        let ghost before = self.results@;
        assert(self.results@ =~= before + found@.take(0));
        while i < found.len()
            invariant
                i <= found@.len(),
                self.next == old(self).next,
                self.files == old(self).files,
                self.results@ == before + found@.take(i as int),
            decreases found@.len() - i,
        {
            self.results.push(found[i].duplicate());
            assert(self.results@ =~= before + found@.take(i + 1));
            i = i + 1;
        }
        assert(found@.take(i as int) =~= found@);
        assert(findings(self.results@) =~= findings(before) + findings(found@));
    }

    /// Ends the search: the gathered results in display order.
    pub fn finish(self) -> (sorted: Vec<SearchResult>)
        ensures
            is_display_order(self.gathered(), findings(sorted@)),
    {
        sort_results(&self.results)
    }
}

/// Where the chunk that starts at `start` ends in a list of `total` files.
pub open spec fn chunk_end(start: int, total: int) -> int {
    if start >= total {
        start
    } else if total - start > CHUNK_SIZE {
        start + CHUNK_SIZE
    } else {
        total
    }
}

} // verus!
