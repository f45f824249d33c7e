use file_search::duplicate::copy_list;
use file_search::query_cache::{QueryCache, QUERY_CACHE_CAPACITY};

fn list(items: &[&str]) -> Vec<String> {
    items.iter().map(|s| s.to_string()).collect()
}

#[test]
fn capacity_is_100() {
    assert_eq!(QUERY_CACHE_CAPACITY, 100);
}

#[test]
fn lookup_finds_what_was_stored() {
    let mut cache = QueryCache::new();
    assert_eq!(cache.len(), 0);
    assert_eq!(cache.lookup("main"), None);
    cache.store("main", list(&["src/main.rs"]));
    cache.store("app", list(&["src/app.rs", "app.toml"]));
    assert_eq!(cache.len(), 2);
    assert_eq!(cache.lookup("main"), Some(list(&["src/main.rs"])));
    assert_eq!(cache.lookup("app"), Some(list(&["src/app.rs", "app.toml"])));
    assert_eq!(cache.lookup("Main"), None);
    assert_eq!(cache.lookup(""), None);
}

#[test]
fn storing_a_query_again_replaces_its_result() {
    let mut cache = QueryCache::new();
    cache.store("a", list(&["one"]));
    cache.store("b", list(&["two"]));
    cache.store("a", list(&["three", "four"]));
    assert_eq!(cache.len(), 2);
    assert_eq!(cache.lookup("a"), Some(list(&["three", "four"])));
    assert_eq!(cache.lookup("b"), Some(list(&["two"])));
}

#[test]
fn overflow_clears_and_keeps_the_newcomer() {
    let mut cache = QueryCache::new();
    for i in 0..100 {
        cache.store(&format!("query{}", i), list(&["x"]));
        assert_eq!(cache.len(), i + 1);
    }
    assert_eq!(cache.len(), 100);
    assert!(cache.lookup("query0").is_some());
    assert!(cache.lookup("query99").is_some());
    cache.store("query100", list(&["last"]));
    assert_eq!(cache.len(), 1);
    assert_eq!(cache.lookup("query100"), Some(list(&["last"])));
    assert_eq!(cache.lookup("query0"), None);
    assert_eq!(cache.lookup("query99"), None);
}

#[test]
fn full_cache_is_cleared_even_for_a_known_query() {
    let mut cache = QueryCache::new();
    for i in 0..100 {
        cache.store(&format!("q{}", i), list(&["x"]));
    }
    cache.store("q5", list(&["y"]));
    assert_eq!(cache.len(), 1);
    assert_eq!(cache.lookup("q5"), Some(list(&["y"])));
}

#[test]
fn invalidate_all_forgets_everything() {
    let mut cache = QueryCache::new();
    cache.store("a", list(&["one"]));
    cache.store("b", list(&["two"]));
    cache.invalidate_all();
    assert_eq!(cache.len(), 0);
    assert_eq!(cache.lookup("a"), None);
    assert_eq!(cache.lookup("b"), None);
}

#[test]
fn copy_list_copies() {
    let source = list(&["b", "a", "c"]);
    assert_eq!(copy_list(&source), source);
    assert_eq!(copy_list(&Vec::<String>::new()), Vec::<String>::new());
}
