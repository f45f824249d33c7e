use file_search::content::SearchResult;
use file_search::coordinator::{sort_results, ContentSearch, CHUNK_SIZE, MAX_CONCURRENT_READS};

fn found(path: &str, line: usize) -> SearchResult {
    SearchResult {
        file_path: path.to_string(),
        line_number: line,
        line_content: format!("{}:{}", path, line),
        match_start: 0,
        match_end: 1,
    }
}

fn keys(results: &[SearchResult]) -> Vec<(String, usize)> {
    results.iter().map(|r| (r.file_path.clone(), r.line_number)).collect()
}

fn key(path: &str, line: usize) -> (String, usize) {
    (path.to_string(), line)
}

fn numbered(n: usize) -> Vec<String> {
    (0..n).map(|i| format!("file{:04}", i)).collect()
}

#[test]
fn chunks_are_50_files_and_reads_are_capped_at_100() {
    assert_eq!(CHUNK_SIZE, 50);
    assert_eq!(MAX_CONCURRENT_READS, 100);
}

#[test]
fn sort_results_orders_by_path_then_line() {
    let sorted = sort_results(&vec![
        found("b.txt", 3),
        found("a.txt", 9),
        found("b.txt", 1),
        found("a.txt", 2),
        found("B.txt", 5),
    ]);
    assert_eq!(
        keys(&sorted),
        vec![key("B.txt", 5), key("a.txt", 2), key("a.txt", 9), key("b.txt", 1), key("b.txt", 3)]
    );
    assert_eq!(sorted[1].line_content, "a.txt:2");
}

#[test]
fn sort_results_keeps_equal_ones_in_order() {
    let mut first = found("a", 1);
    first.line_content = "first".to_string();
    let mut second = found("a", 1);
    second.line_content = "second".to_string();
    let sorted = sort_results(&vec![found("b", 1), first, second]);
    assert_eq!(sorted[0].line_content, "first");
    assert_eq!(sorted[1].line_content, "second");
    assert_eq!(sorted[2].file_path, "b");
}

#[test]
fn chunks_cover_the_list_in_order() {
    let files = numbered(120);
    let mut search = ContentSearch::new(files.clone(), "q");
    let first = search.next_chunk().unwrap();
    assert_eq!(first, files[0..50].to_vec());
    let second = search.next_chunk().unwrap();
    assert_eq!(second, files[50..100].to_vec());
    let third = search.next_chunk().unwrap();
    assert_eq!(third, files[100..120].to_vec());
    assert_eq!(search.next_chunk(), None);
    assert_eq!(search.next_chunk(), None);
}

#[test]
fn exact_multiple_has_no_empty_chunk() {
    let mut search = ContentSearch::new(numbered(100), "q");
    assert_eq!(search.next_chunk().unwrap().len(), 50);
    assert_eq!(search.next_chunk().unwrap().len(), 50);
    assert_eq!(search.next_chunk(), None);
}

#[test]
fn empty_query_hands_out_nothing() {
    let mut search = ContentSearch::new(numbered(10), "");
    assert_eq!(search.next_chunk(), None);
    assert!(search.finish().is_empty());
}

#[test]
fn no_files_hand_out_nothing() {
    let mut search = ContentSearch::new(Vec::new(), "q");
    assert_eq!(search.next_chunk(), None);
    assert!(search.finish().is_empty());
}

#[test]
fn finish_sorts_what_was_gathered() {
    let mut search = ContentSearch::new(numbered(3), "q");
    search.next_chunk();
    search.absorb(vec![found("z", 1), found("z", 4)]);
    search.absorb(Vec::new());
    search.absorb_from(&vec![found("a", 7), found("a", 8)]);
    search.absorb(vec![found("m", 2)]);
    let sorted = search.finish();
    assert_eq!(
        keys(&sorted),
        vec![key("a", 7), key("a", 8), key("m", 2), key("z", 1), key("z", 4)]
    );
}

#[test]
fn display_order_does_not_depend_on_arrival_order() {
    let one = sort_results(&vec![found("b", 2), found("a", 1), found("b", 1), found("a", 3)]);
    let other = sort_results(&vec![found("a", 3), found("b", 1), found("a", 1), found("b", 2)]);
    assert_eq!(keys(&one), keys(&other));
    assert_eq!(keys(&one), vec![key("a", 1), key("a", 3), key("b", 1), key("b", 2)]);
}
