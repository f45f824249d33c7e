//! Bounded memo of fuzzy search results, keyed by the exact query.

use vstd::prelude::*;
use crate::listing::texts;
use crate::duplicate::copy_list;
use crate::text::text_eq;

verus! {

/// Most queries that the memo holds.
pub const QUERY_CACHE_CAPACITY: usize = 100;

/// What the memo holds, as a plain value: the ranked paths of each query.
pub type Memo = Map<Seq<char>, Seq<Seq<char>>>;

/// The memo after a result is stored: a memo that is full is emptied
/// first, then the query gets the result.
pub open spec fn memo_store(memo: Memo, query: Seq<char>, ranked: Seq<Seq<char>>) -> Memo {
    if memo.dom().len() >= QUERY_CACHE_CAPACITY {
        Map::<Seq<char>, Seq<Seq<char>>>::empty().insert(query, ranked)
    } else {
        memo.insert(query, ranked)
    }
}

/// The memo after the results of a run of queries are stored, one by one.
pub open spec fn memo_store_all(
    memo: Memo,
    queries: Seq<Seq<char>>,
    ranked: Seq<Seq<Seq<char>>>,
) -> Memo
    decreases queries.len(),
{
    if queries.len() == 0 || ranked.len() != queries.len() {
        memo
    } else {
        memo_store(
            memo_store_all(memo, queries.drop_last(), ranked.drop_last()),
            queries.last(),
            ranked.last(),
        )
    }
}

/// Storing keeps the memo finite and within its capacity.
pub proof fn lemma_store_bounded(memo: Memo, query: Seq<char>, ranked: Seq<Seq<char>>)
    requires
        memo.dom().finite(),
        memo.dom().len() <= QUERY_CACHE_CAPACITY,
    ensures
        memo_store(memo, query, ranked).dom().finite(),
        1 <= memo_store(memo, query, ranked).dom().len() <= QUERY_CACHE_CAPACITY,
        memo_store(memo, query, ranked).contains_key(query),
        memo_store(memo, query, ranked)[query] == ranked,
{
    let empty = Map::<Seq<char>, Seq<Seq<char>>>::empty();
    assert(empty.insert(query, ranked).dom() =~= Set::<Seq<char>>::empty().insert(query));
    assert(memo.insert(query, ranked).dom() =~= memo.dom().insert(query));
}

/// Stores of queries that all differ, into an empty memo, fill it one by
/// one while they are no more than the capacity.
pub proof fn lemma_distinct_stores_count(queries: Seq<Seq<char>>, ranked: Seq<Seq<Seq<char>>>)
    requires
        queries.no_duplicates(),
        ranked.len() == queries.len(),
        queries.len() <= QUERY_CACHE_CAPACITY,
    ensures
        memo_store_all(Map::empty(), queries, ranked).dom() == queries.to_set(),
        memo_store_all(Map::empty(), queries, ranked).dom().finite(),
        memo_store_all(Map::empty(), queries, ranked).dom().len() == queries.len(),
    decreases queries.len(),
{
    let memo = memo_store_all(Map::empty(), queries, ranked);
    if queries.len() == 0 {
        assert(memo.dom() =~= queries.to_set());
    } else {
        let earlier = memo_store_all(Map::empty(), queries.drop_last(), ranked.drop_last());
        lemma_distinct_stores_count(queries.drop_last(), ranked.drop_last());
        assert(memo == earlier.insert(queries.last(), ranked.last()));
        assert(memo.dom() =~= earlier.dom().insert(queries.last()));
        assert(!queries.drop_last().contains(queries.last())) by {
            if queries.drop_last().contains(queries.last()) {
                let i = choose|i: int|
                    0 <= i < queries.drop_last().len() && queries.drop_last()[i] == queries.last();
                assert(queries[i] == queries[queries.len() - 1]);
            }
        }
        assert(queries.to_set() =~= queries.drop_last().to_set().insert(queries.last())) by {
            assert forall|q: Seq<char>| queries.to_set().contains(q) implies queries.drop_last().to_set().insert(
                queries.last(),
            ).contains(q) by {
                let i = choose|i: int| 0 <= i < queries.len() && queries[i] == q;
                if i < queries.len() - 1 {
                    assert(queries.drop_last()[i] == q);
                }
            }
            assert forall|q: Seq<char>| queries.drop_last().to_set().insert(
                queries.last(),
            ).contains(q) implies queries.to_set().contains(q) by {
                if q == queries.last() {
                    assert(queries[queries.len() - 1] == q);
                } else {
                    let i = choose|i: int|
                        0 <= i < queries.drop_last().len() && queries.drop_last()[i] == q;
                    assert(queries[i] == q);
                }
            }
        }
    }
}

/// One query more than the capacity, all different, stored into an empty
/// memo: only the last of them is left.
pub proof fn lemma_overflow_leaves_last(queries: Seq<Seq<char>>, ranked: Seq<Seq<Seq<char>>>)
    requires
        queries.no_duplicates(),
        ranked.len() == queries.len(),
        queries.len() == QUERY_CACHE_CAPACITY + 1,
    ensures
        memo_store_all(Map::empty(), queries, ranked) == Map::<
            Seq<char>,
            Seq<Seq<char>>,
        >::empty().insert(queries.last(), ranked.last()),
        memo_store_all(Map::empty(), queries, ranked).dom().len() == 1,
{
    let earlier = queries.drop_last();
    assert(earlier.no_duplicates()) by {
        assert forall|i: int, j: int| 0 <= i < earlier.len() && 0 <= j < earlier.len() && i != j implies earlier[i]
            != earlier[j] by {
            assert(queries[i] != queries[j]);
        }
    }
    lemma_distinct_stores_count(earlier, ranked.drop_last());
    lemma_store_bounded(
        memo_store_all(Map::empty(), earlier, ranked.drop_last()),
        queries.last(),
        ranked.last(),
    );
    let last = Map::<Seq<char>, Seq<Seq<char>>>::empty().insert(queries.last(), ranked.last());
    assert(last.dom() =~= Set::<Seq<char>>::empty().insert(queries.last()));
}

/// One remembered query with its ranked paths.
pub struct Entry {
    query: String,
    ranked: Vec<String>,
}

/// The memo that a list of entries stands for.
pub closed spec fn entries_memo(entries: Seq<Entry>) -> Memo
    decreases entries.len(),
{
    if entries.len() == 0 {
        Map::empty()
    } else {
        entries_memo(entries.drop_last()).insert(entries.last().query@, texts(entries.last().ranked@))
    }
}

/// No two entries hold the same query.
pub closed spec fn distinct_queries(entries: Seq<Entry>) -> bool {
    forall|i: int, j: int|
        0 <= i < j < entries.len() ==> (#[trigger] entries[i]).query@ != (#[trigger] entries[j]).query@
}

/// The memo of a list of entries holds exactly their queries, each with
/// its own result where no query occurs twice.
proof fn lemma_entries_memo(entries: Seq<Entry>)
    requires
        distinct_queries(entries),
    ensures
        entries_memo(entries).dom().finite(),
        entries_memo(entries).dom().len() == entries.len(),
        forall|i: int|
            0 <= i < entries.len() ==> entries_memo(entries).contains_key(
                (#[trigger] entries[i]).query@,
            ) && entries_memo(entries)[entries[i].query@] == texts(entries[i].ranked@),
        forall|q: Seq<char>|
            entries_memo(entries).contains_key(q) ==> exists|i: int|
                0 <= i < entries.len() && (#[trigger] entries[i]).query@ == q,
    decreases entries.len(),
{
    if entries.len() > 0 {
        let earlier = entries.drop_last();
        let last = entries.last();
        assert(distinct_queries(earlier)) by {
            assert forall|i: int, j: int| 0 <= i < j < earlier.len() implies (#[trigger] earlier[i]).query@
                != (#[trigger] earlier[j]).query@ by {
                assert(entries[i].query@ != entries[j].query@);
            }
        }
        lemma_entries_memo(earlier);
        let memo = entries_memo(entries);
        assert(memo.dom() =~= entries_memo(earlier).dom().insert(last.query@));
        if entries_memo(earlier).contains_key(last.query@) {
            let i = choose|i: int| 0 <= i < earlier.len() && (#[trigger] earlier[i]).query@ == last.query@;
            assert(entries[i].query@ != entries[entries.len() - 1].query@);
        }
        assert forall|i: int| 0 <= i < entries.len() implies memo.contains_key(
            (#[trigger] entries[i]).query@,
        ) && memo[entries[i].query@] == texts(entries[i].ranked@) by {
            if i < entries.len() - 1 {
                assert(earlier[i] == entries[i]);
                assert(entries[i].query@ != entries[entries.len() - 1].query@);
            }
        }
        assert forall|q: Seq<char>| memo.contains_key(q) implies exists|i: int|
            0 <= i < entries.len() && (#[trigger] entries[i]).query@ == q by {
            if q == last.query@ {
                assert(entries[entries.len() - 1].query@ == q);
            } else {
                let i = choose|i: int| 0 <= i < earlier.len() && (#[trigger] earlier[i]).query@ == q;
                assert(entries[i].query@ == q);
            }
        }
    }
}

/// The memo of fuzzy search results.
pub struct QueryCache {
    entries: Vec<Entry>,
}

impl View for QueryCache {
    type V = Memo;

    closed spec fn view(&self) -> Memo {
        entries_memo(self.entries@)
    }
}

impl QueryCache {
    /// The memo is finite and within its capacity.
    pub closed spec fn wf(&self) -> bool {
        &&& distinct_queries(self.entries@)
        &&& self.entries@.len() <= QUERY_CACHE_CAPACITY
    }

    /// A well-formed memo holds no more queries than its capacity.
    pub proof fn lemma_bounded(&self)
        requires
            self.wf(),
        ensures
            Self::bounded(self@),
    {
        lemma_entries_memo(self.entries@);
    }

    /// An empty memo.
    pub fn new() -> (cache: Self)
        ensures
            cache.wf(),
            cache@ == Map::<Seq<char>, Seq<Seq<char>>>::empty(),
    {
        QueryCache { entries: Vec::new() }
    }

    /// The memo as a plain value is finite and within the capacity.
    pub open spec fn bounded(memo: Memo) -> bool {
        memo.dom().finite() && memo.dom().len() <= QUERY_CACHE_CAPACITY
    }

    /// Number of queries remembered.
    pub fn len(&self) -> (n: usize)
        requires
            self.wf(),
        ensures
            n == self@.dom().len(),
            n <= QUERY_CACHE_CAPACITY,
    {
        proof {
            lemma_entries_memo(self.entries@);
        }
        self.entries.len()
    }

    /// Position of the entry for the query, if there is one.
    fn position(&self, query: &str) -> (at: Option<usize>)
        requires
            self.wf(),
        ensures
            match at {
                Some(i) => i < self.entries@.len() && self.entries@[i as int].query@ == query@,
                None => !self@.contains_key(query@),
            },
    {
        let mut i: usize = 0;
        while i < self.entries.len()
            invariant
                i <= self.entries@.len(),
                forall|k: int| 0 <= k < i ==> (#[trigger] self.entries@[k]).query@ != query@,
            decreases self.entries@.len() - i,
        {
            if text_eq(self.entries[i].query.as_str(), query) {
                return Some(i);
            }
            i = i + 1;
        }
        proof {
            lemma_entries_memo(self.entries@);
        }
        None
    }

    /// The remembered result of the query, if it has one.
    pub fn lookup(&self, query: &str) -> (hit: Option<Vec<String>>)
        requires
            self.wf(),
        ensures
            match hit {
                Some(ranked) => self@.contains_key(query@) && texts(ranked@) == self@[query@],
                None => !self@.contains_key(query@),
            },
    {
        match self.position(query) {
            Some(i) => {
                proof {
                    lemma_entries_memo(self.entries@);
                }
                Some(copy_list(&self.entries[i].ranked))
            },
            None => None,
        }
    }

    /// Remembers the result of a query. A memo that is full is emptied
    /// first, whatever the query.
    pub fn store(&mut self, query: &str, ranked: Vec<String>)
        requires
            old(self).wf(),
        ensures
            final(self).wf(),
            final(self)@ == memo_store(old(self)@, query@, texts(ranked@)),
            Self::bounded(final(self)@),
    {
        proof {
            lemma_entries_memo(self.entries@);
            lemma_store_bounded(self@, query@, texts(ranked@));
        }
        if self.entries.len() >= QUERY_CACHE_CAPACITY {
            self.entries.clear();
        }
        let entry = Entry { query: query.to_owned(), ranked };
        let ghost before = self.entries@;
        match self.position(query) {
            Some(i) => {
                self.entries.set(i, entry);
                proof {
                    lemma_replace(before, i as int, entry);
                }
            },
            None => {
                self.entries.push(entry);
                proof {
                    lemma_entries_memo(before);
                    assert(self.entries@.drop_last() =~= before);
                    assert forall|i: int, j: int| 0 <= i < j < self.entries@.len() implies (
                    #[trigger] self.entries@[i]).query@ != (#[trigger] self.entries@[j]).query@ by {
                        if j == before.len() {
                            assert(before[i].query@ != query@);
                        } else {
                            assert(before[i].query@ != before[j].query@);
                        }
                    }
                }
            },
        }
    }

    /// Forgets every result.
    pub fn invalidate_all(&mut self)
        ensures
            final(self).wf(),
            final(self)@ == Map::<Seq<char>, Seq<Seq<char>>>::empty(),
            Self::bounded(final(self)@),
    {
        self.entries.clear();
    }
}

/// Replacing the entry of a query gives the memo with that query's result
/// replaced.
proof fn lemma_replace(entries: Seq<Entry>, at: int, entry: Entry)
    requires
        distinct_queries(entries),
        0 <= at < entries.len(),
        entries[at].query@ == entry.query@,
    ensures
        distinct_queries(entries.update(at, entry)),
        entries_memo(entries.update(at, entry)) == entries_memo(entries).insert(
            entry.query@,
            texts(entry.ranked@),
        ),
    decreases entries.len(),
{
    let updated = entries.update(at, entry);
    assert forall|i: int, j: int| 0 <= i < j < updated.len() implies (#[trigger] updated[i]).query@ != (
    #[trigger] updated[j]).query@ by {
        assert(entries[i].query@ != entries[j].query@);
    }
    let earlier = entries.drop_last();
    let last = entries.last();
    if at == entries.len() - 1 {
        assert(updated.drop_last() =~= earlier);
        assert(entries_memo(updated) =~= entries_memo(entries).insert(
            entry.query@,
            texts(entry.ranked@),
        ));
    } else {
        assert(distinct_queries(earlier)) by {
            assert forall|i: int, j: int| 0 <= i < j < earlier.len() implies (#[trigger] earlier[i]).query@
                != (#[trigger] earlier[j]).query@ by {
                assert(entries[i].query@ != entries[j].query@);
            }
        }
        lemma_replace(earlier, at, entry);
        assert(updated.drop_last() =~= earlier.update(at, entry));
        assert(updated.last() == last);
        assert(entries[at].query@ != entries[entries.len() - 1].query@);
        assert(entries_memo(updated) =~= entries_memo(entries).insert(
            entry.query@,
            texts(entry.ranked@),
        ));
    }
}

} // verus!
