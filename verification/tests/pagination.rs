use file_search::pagination::{pages_needed, PageView};

fn numbered(n: usize) -> Vec<String> {
    (0..n).map(|i| format!("file{}", i)).collect()
}

#[test]
fn pages_round_up() {
    assert_eq!(pages_needed(0, 1000), 0);
    assert_eq!(pages_needed(1, 1000), 1);
    assert_eq!(pages_needed(1000, 1000), 1);
    assert_eq!(pages_needed(1001, 1000), 2);
    assert_eq!(pages_needed(2500, 1000), 3);
    assert_eq!(pages_needed(4213, 1000), 5);
}

#[test]
fn next_page_stops_at_last_page() {
    let mut view: PageView<String> = PageView::new(1000);
    view.set_results(numbered(2500));
    assert_eq!(view.total_pages(), 3);
    assert_eq!(view.current_page(), 0);
    assert_eq!(view.visible().len(), 1000);
    for _ in 0..5 {
        view.next_page();
        assert!(view.current_page() <= 2);
    }
    assert_eq!(view.current_page(), 2);
    assert_eq!(view.visible().len(), 500);
    assert_eq!(view.visible()[0], "file2000");
}

#[test]
fn last_page_shows_the_rest() {
    let mut view: PageView<String> = PageView::new(1000);
    view.set_results(numbered(2500));
    assert!(view.last_page());
    assert_eq!(view.current_page(), 2);
    assert_eq!(view.visible().len(), 500);
    assert_eq!(view.visible()[499], "file2499");
    assert!(view.last_page());
    assert_eq!(view.current_page(), 2);
    assert!(view.first_page());
    assert_eq!(view.current_page(), 0);
    assert_eq!(view.visible()[0], "file0");
    assert!(!view.prev_page());
    assert_eq!(view.current_page(), 0);
}
