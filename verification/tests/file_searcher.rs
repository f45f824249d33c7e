use file_search::file_searcher::{FileSearcher, Lookup, CACHE_DURATION_MS};

fn list(items: &[&str]) -> Vec<String> {
    items.iter().map(|s| s.to_string()).collect()
}

fn ready<T>(lookup: Lookup<T>) -> T {
    match lookup {
        Lookup::Ready(value) => value,
        Lookup::NeedsListing => panic!("a listing is needed"),
    }
}

fn needs_listing<T>(lookup: &Lookup<T>) -> bool {
    matches!(lookup, Lookup::NeedsListing)
}

fn walked() -> Vec<String> {
    list(&["/root/src/main.rs", "/root/README.md", "/root/src/app.rs"])
}

#[test]
fn cache_duration_is_30_s() {
    assert_eq!(CACHE_DURATION_MS, 30_000);
}

#[test]
fn new_engine_needs_a_listing() {
    let searcher = FileSearcher::new("/root".to_string());
    assert_eq!(searcher.root_directory(), "/root");
    assert!(needs_listing(&searcher.list_files(0)));
    assert_eq!(searcher.cached_queries(), 0);
}

#[test]
fn store_listing_sorts_relative_paths() {
    let mut searcher = FileSearcher::new("/root".to_string());
    let listing = searcher.store_listing(walked(), 1000);
    assert_eq!(listing, list(&["README.md", "src/app.rs", "src/main.rs"]));
}

#[test]
fn list_files_twice_within_the_duration_gives_the_same_list() {
    let mut searcher = FileSearcher::new("/root".to_string());
    let stored = searcher.store_listing(walked(), 1000);
    let first = ready(searcher.list_files(1000));
    let second = ready(searcher.list_files(30_999));
    assert_eq!(first, stored);
    assert_eq!(second, stored);
}

#[test]
fn listing_expires_after_the_duration() {
    let mut searcher = FileSearcher::new("/root".to_string());
    searcher.store_listing(walked(), 1000);
    assert!(!needs_listing(&searcher.list_files(30_999)));
    assert!(needs_listing(&searcher.list_files(31_000)));
    assert!(needs_listing(&searcher.list_files(1_000_000)));
    // a clock that reads earlier than the listing counts as no age
    assert!(!needs_listing(&searcher.list_files(5)));
}

#[test]
fn invalidate_caches_forces_a_walk() {
    let mut searcher = FileSearcher::new("/root".to_string());
    searcher.store_listing(walked(), 1000);
    ready(searcher.fuzzy_search_files("main", 1000));
    assert_eq!(searcher.cached_queries(), 1);
    searcher.invalidate_caches();
    assert_eq!(searcher.cached_queries(), 0);
    assert!(needs_listing(&searcher.list_files(1000)));
    assert!(needs_listing(&searcher.list_files(1001)));
    assert!(needs_listing(&searcher.fuzzy_search_files("main", 1001)));
    assert!(needs_listing(&searcher.fuzzy_search_files("", 1001)));
    assert!(needs_listing(&searcher.search_content("main", 1001)));
}

#[test]
fn empty_query_lists_all_files() {
    let mut searcher = FileSearcher::new("/root".to_string());
    assert!(needs_listing(&searcher.fuzzy_search_files("", 0)));
    let stored = searcher.store_listing(walked(), 0);
    assert_eq!(ready(searcher.fuzzy_search_files("", 10)), stored);
    assert_eq!(searcher.cached_queries(), 0);
}

#[test]
fn fuzzy_search_ranks_and_remembers() {
    let mut searcher = FileSearcher::new("/root".to_string());
    assert!(needs_listing(&searcher.fuzzy_search_files("main", 0)));
    searcher.store_listing(walked(), 0);
    let ranked = ready(searcher.fuzzy_search_files("main", 10));
    assert_eq!(ranked[0], "src/main.rs");
    assert!(!ranked.contains(&"README.md".to_string()));
    assert_eq!(searcher.cached_queries(), 1);
    // a remembered ranking is served even when the file list has expired
    let again = ready(searcher.fuzzy_search_files("main", 1_000_000));
    assert_eq!(again, ranked);
    // another query needs the file list
    assert!(needs_listing(&searcher.fuzzy_search_files("app", 1_000_000)));
}

#[test]
fn fuzzy_memo_is_bounded() {
    let mut searcher = FileSearcher::new("/root".to_string());
    searcher.store_listing(walked(), 0);
    for i in 0..100 {
        ready(searcher.fuzzy_search_files(&format!("q{}", i), 1));
    }
    assert_eq!(searcher.cached_queries(), 100);
    ready(searcher.fuzzy_search_files("main", 1));
    assert_eq!(searcher.cached_queries(), 1);
}

#[test]
fn search_content_hands_out_the_listing() {
    let mut searcher = FileSearcher::new("/root".to_string());
    assert!(needs_listing(&searcher.search_content("x", 0)));
    let stored = searcher.store_listing(walked(), 0);
    let mut search = ready(searcher.search_content("x", 5));
    assert_eq!(search.next_chunk(), Some(stored));
    assert_eq!(search.next_chunk(), None);
    let mut search = ready(searcher.search_content("", 5));
    assert_eq!(search.next_chunk(), None);
}
