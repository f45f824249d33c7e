//! The search engine: the root directory, the cached file list and the
//! memo of fuzzy results, and the searches that run against them.

use vstd::prelude::*;
use crate::coordinator::ContentSearch;
use crate::content::Found;
use crate::fuzzy::{is_ranking, matched, rank_files, scores_of};
use crate::listing::{
    build_file_list, is_listing_of, relative_paths, relative_text, strictly_ascending, texts,
};
use crate::duplicate::copy_list;
use crate::query_cache::{memo_store, Memo, QueryCache, QUERY_CACHE_CAPACITY};

verus! {

/// Time, in milliseconds, for which a file list is served from the cache.
pub const CACHE_DURATION_MS: u64 = 30000;

/// A file list with the clock reading at which it was made.
pub struct Snapshot {
    pub files: Seq<Seq<char>>,
    pub taken_at: nat,
}

/// The engine as a plain value.
pub struct Engine {
    pub root: Seq<char>,
    pub snapshot: Option<Snapshot>,
    pub memo: Memo,
    pub cache_duration: nat,
}

impl Engine {
    /// Age of the cached file list at `now`; a clock that reads earlier
    /// than the list counts as no age.
    pub open spec fn age(self, now: nat) -> nat {
        match self.snapshot {
            Some(snapshot) => if now >= snapshot.taken_at {
                (now - snapshot.taken_at) as nat
            } else {
                0
            },
            None => 0,
        }
    }

    /// The file list that is served at `now`: the cached one while it is
    /// younger than the cache duration.
    pub open spec fn fresh(self, now: nat) -> Option<Seq<Seq<char>>> {
        match self.snapshot {
            Some(snapshot) => if self.age(now) < self.cache_duration {
                Some(snapshot.files)
            } else {
                None
            },
            None => None,
        }
    }

    /// The cached file list is sorted and holds no path twice, the memo is
    /// finite and holds no more queries than its capacity, and the cache
    /// duration is positive.
    pub open spec fn wf(self) -> bool {
        &&& self.snapshot matches Some(snapshot) ==> strictly_ascending(snapshot.files)
        &&& QueryCache::bounded(self.memo)
        &&& self.cache_duration > 0
    }

    /// The engine after a file list made at `now` is cached.
    pub open spec fn with_listing(self, files: Seq<Seq<char>>, now: nat) -> Engine {
        Engine { snapshot: Some(Snapshot { files, taken_at: now }), ..self }
    }

    /// The engine with both caches emptied.
    pub open spec fn invalidated(self) -> Engine {
        Engine { snapshot: None, memo: Map::empty(), ..self }
    }

    /// The engine after the ranking of a query is remembered.
    pub open spec fn with_result(self, query: Seq<char>, ranked: Seq<Seq<char>>) -> Engine {
        Engine { memo: memo_store(self.memo, query, ranked), ..self }
    }
}

/// Two requests for the file list within the cache duration of one cached
/// list are served the same list, the one that was cached.
pub proof fn lemma_listing_repeats(
    engine: Engine,
    files: Seq<Seq<char>>,
    made: nat,
    first: nat,
    second: nat,
)
    requires
        made <= first < made + engine.cache_duration,
        made <= second < made + engine.cache_duration,
    ensures
        engine.with_listing(files, made).fresh(first) == Some(files),
        engine.with_listing(files, made).fresh(second) == Some(files),
{
}

/// After the caches are emptied no file list is served and no fuzzy result
/// is remembered, whatever the clock reads: the next request walks the
/// directory.
pub proof fn lemma_invalidate_forces_walk(engine: Engine, now: nat, query: Seq<char>)
    ensures
        engine.invalidated().fresh(now) is None,
        !engine.invalidated().memo.contains_key(query),
{
}

/// The paths found by a walk, each made relative to the root.
pub open spec fn relative_texts(found: Seq<Seq<char>>, root: Seq<char>) -> Seq<Seq<char>> {
    Seq::new(found.len(), |i: int| relative_text(found[i], root))
}

/// What a request gives that may need a walk of the directory first.
#[derive(Debug)]
pub enum Lookup<T> {
    /// The answer.
    Ready(T),
    /// No file list is cached, or the cached one is too old: walk the
    /// directory, store what was found, and ask again.
    NeedsListing,
}

/// A cached file list.
pub struct CachedFileList {
    files: Vec<String>,
    last_updated: u64,
}

/// The search engine of one root directory.
pub struct FileSearcher {
    root_directory: String,
    cached_files: Option<CachedFileList>,
    fuzzy_cache: QueryCache,
    cache_duration: u64,
}

impl View for FileSearcher {
    type V = Engine;

    closed spec fn view(&self) -> Engine {
        Engine {
            root: self.root_directory@,
            snapshot: match self.cached_files {
                Some(cached) => Some(
                    Snapshot { files: texts(cached.files@), taken_at: cached.last_updated as nat },
                ),
                None => None,
            },
            memo: self.fuzzy_cache@,
            cache_duration: self.cache_duration as nat,
        }
    }
}

impl FileSearcher {
    /// The memo of fuzzy results is held as it should be.
    pub closed spec fn memo_held(&self) -> bool {
        self.fuzzy_cache.wf()
    }

    /// The engine is well formed: the cached file list is sorted and free
    /// of repeats, the memo is finite and within its capacity, the cache
    /// duration is positive.
    pub open spec fn wf(&self) -> bool {
        self.memo_held() && self@.wf()
    }

    /// An engine for the given root directory, with empty caches.
    pub fn new(root_directory: String) -> (searcher: Self)
        ensures
            searcher.wf(),
            searcher@ == (Engine {
                root: root_directory@,
                snapshot: None,
                memo: Map::empty(),
                cache_duration: CACHE_DURATION_MS as nat,
            }),
    {
        let searcher = FileSearcher {
            root_directory,
            cached_files: None,
            fuzzy_cache: QueryCache::new(),
            cache_duration: CACHE_DURATION_MS,
        };
        proof {
            searcher.fuzzy_cache.lemma_bounded();
        }
        searcher
    }

    /// The root directory.
    pub fn root_directory(&self) -> (root: &String)
        ensures
            root@ == self@.root,
    {
        &self.root_directory
    }

    /// Number of fuzzy results remembered.
    pub fn cached_queries(&self) -> (n: usize)
        requires
            self.wf(),
        ensures
            n == self@.memo.dom().len(),
            n <= QUERY_CACHE_CAPACITY,
    {
        self.fuzzy_cache.len()
    }

    /// The file list, from the cache while it is fresh. The list is sorted
    /// and holds no path twice.
    pub fn list_files(&self, now: u64) -> (listing: Lookup<Vec<String>>)
        requires
            self.wf(),
        ensures
            match listing {
                Lookup::Ready(files) => self@.fresh(now as nat) == Some(texts(files@))
                    && strictly_ascending(texts(files@)),
                Lookup::NeedsListing => self@.fresh(now as nat) is None,
            },
    {
        match &self.cached_files {
            Some(cached) => {
                let age = if now >= cached.last_updated {
                    now - cached.last_updated
                } else {
                    0
                };
                if age < self.cache_duration {
                    Lookup::Ready(copy_list(&cached.files))
                } else {
                    Lookup::NeedsListing
                }
            },
            None => Lookup::NeedsListing,
        }
    }

    /// Takes what a walk of the root directory found at `now`: the paths
    /// are made relative to the root, sorted, cached and returned.
    pub fn store_listing(&mut self, found: Vec<String>, now: u64) -> (listing: Vec<String>)
        requires
            old(self).wf(),
        ensures
            final(self).wf(),
            is_listing_of(relative_texts(texts(found@), old(self)@.root), texts(listing@)),
            final(self)@ == old(self)@.with_listing(texts(listing@), now as nat),
    {
        let entries = relative_paths(&found, self.root_directory.as_str());
        assert(texts(entries@) =~= relative_texts(texts(found@), self@.root));
        let listing = build_file_list(entries);
        self.cached_files = Some(CachedFileList { files: copy_list(&listing), last_updated: now });
        listing
    }

    /// Fuzzy filename search. An empty query lists all files. Else the
    /// remembered ranking of the query is given where there is one; where
    /// there is none the fresh file list is ranked and the ranking
    /// remembered.
    pub fn fuzzy_search_files(&mut self, query: &str, now: u64) -> (outcome: Lookup<Vec<String>>)
        requires
            old(self).wf(),
        ensures
            final(self).wf(),
            match outcome {
                Lookup::Ready(ranked) => if query@.len() == 0 {
                    &&& old(self)@.fresh(now as nat) == Some(texts(ranked@))
                    &&& strictly_ascending(texts(ranked@))
                    &&& final(self)@ == old(self)@
                } else if old(self)@.memo.contains_key(query@) {
                    &&& texts(ranked@) == old(self)@.memo[query@]
                    &&& final(self)@ == old(self)@
                } else {
                    &&& old(self)@.fresh(now as nat) matches Some(files)
                    &&& is_ranking(matched(files, scores_of(files, query@)), texts(ranked@))
                    &&& final(self)@ == old(self)@.with_result(query@, texts(ranked@))
                },
                Lookup::NeedsListing => {
                    &&& old(self)@.fresh(now as nat) is None
                    &&& query@.len() == 0 || !old(self)@.memo.contains_key(query@)
                    &&& final(self)@ == old(self)@
                },
            },
    {
        if query.is_empty() {
            return self.list_files(now);
        }
        match self.fuzzy_cache.lookup(query) {
            Some(ranked) => {
                return Lookup::Ready(ranked);
            },
            None => {},
        }
        match self.list_files(now) {
            Lookup::Ready(files) => {
                let ranked = rank_files(&files, query);
                self.fuzzy_cache.store(query, copy_list(&ranked));
                Lookup::Ready(ranked)
            },
            Lookup::NeedsListing => Lookup::NeedsListing,
        }
    }

    /// Starts a content search over the fresh file list.
    pub fn search_content(&self, query: &str, now: u64) -> (outcome: Lookup<ContentSearch>)
        requires
            self.wf(),
        ensures
            match outcome {
                Lookup::Ready(search) => {
                    &&& self@.fresh(now as nat) matches Some(files)
                    &&& search.wf()
                    &&& search.files() == if query@.len() == 0 {
                        Seq::<Seq<char>>::empty()
                    } else {
                        files
                    }
                    &&& search.handed_out() == 0
                    &&& search.gathered() == Seq::<Found>::empty()
                },
                Lookup::NeedsListing => self@.fresh(now as nat) is None,
            },
    {
        match self.list_files(now) {
            Lookup::Ready(files) => Lookup::Ready(ContentSearch::new(files, query)),
            Lookup::NeedsListing => Lookup::NeedsListing,
        }
    }

    /// Empties the cached file list and the memo of fuzzy results.
    pub fn invalidate_caches(&mut self)
        requires
            old(self).wf(),
        ensures
            final(self).wf(),
            final(self)@ == old(self)@.invalidated(),
    {
        self.cached_files = None;
        self.fuzzy_cache.invalidate_all();
    }
}

} // verus!
