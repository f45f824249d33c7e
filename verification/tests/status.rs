use file_search::pagination::PageView;
use file_search::query_line::{chars_of, string_of, QueryLine};
use file_search::selection::Selection;
use file_search::status::{pagination_line, status_line, write_decimal};

fn numbered(n: usize) -> Vec<String> {
    (0..n).map(|i| format!("f{}", i)).collect()
}

fn decimal(n: usize) -> String {
    let mut out = String::from("<");
    write_decimal(&mut out, n);
    out
}

#[test]
fn write_decimal_appends_the_digits() {
    assert_eq!(decimal(0), "<0");
    assert_eq!(decimal(7), "<7");
    assert_eq!(decimal(10), "<10");
    assert_eq!(decimal(4213), "<4213");
    assert_eq!(decimal(1234567890), "<1234567890");
    assert_eq!(decimal(usize::MAX), format!("<{}", usize::MAX));
}

#[test]
fn status_line_of_one_page() {
    let mut view: PageView<String> = PageView::new(1000);
    assert_eq!(status_line("Files", &view), "Files: 0");
    view.set_results(numbered(1000));
    assert_eq!(status_line("Files", &view), "Files: 1000");
    assert_eq!(pagination_line(&view), "");
}

#[test]
fn status_line_of_many_pages() {
    let mut view: PageView<String> = PageView::new(1000);
    view.set_results(numbered(4213));
    assert_eq!(status_line("Files", &view), "Files: 1-1000 of 4213 (Page 1/5)");
    view.last_page();
    assert_eq!(status_line("Results", &view), "Results: 4001-4213 of 4213 (Page 5/5)");
    assert_eq!(
        pagination_line(&view),
        "Page 5/5 | n/]: Next | p/[: Prev | Ctrl+g: First | G: Last"
    );
    assert_eq!(view.window(), (4000, 4213));
}

#[test]
fn strings_and_characters() {
    assert_eq!(string_of(&vec!['h', 'é', '界']), "hé界");
    assert_eq!(string_of(&Vec::new()), "");
    assert_eq!(chars_of("hé界"), vec!['h', 'é', '界']);
    assert_eq!(chars_of(""), Vec::<char>::new());
}

#[test]
fn query_line_edits_at_the_cursor() {
    let mut line = QueryLine::new("ac");
    assert_eq!(line.cursor(), 0);
    assert!(!line.backspace());
    line.right();
    line.insert('b');
    assert_eq!(line.text(), "abc");
    assert_eq!(line.cursor(), 2);
    line.right();
    line.right();
    assert_eq!(line.cursor(), 3);
    assert!(line.backspace());
    assert_eq!(line.text(), "ab");
    line.left();
    line.left();
    line.left();
    assert_eq!(line.cursor(), 0);
    line.insert('x');
    assert_eq!(line.text(), "xab");
    assert!(!line.is_empty());
    line.clear();
    assert!(line.is_empty());
    assert_eq!(line.cursor(), 0);
}

#[test]
fn selection_follows_with_the_screen() {
    let mut s = Selection::new();
    s.down(100);
    assert_eq!((s.selected_index, s.scroll_offset), (1, 0));
    for _ in 0..30 {
        s.down(100);
    }
    assert_eq!((s.selected_index, s.scroll_offset), (31, 7));
    s.up();
    assert_eq!((s.selected_index, s.scroll_offset), (30, 7));
    s.end(100);
    assert_eq!((s.selected_index, s.scroll_offset), (99, 75));
    s.down(100);
    assert_eq!(s.selected_index, 99);
    s.page_up();
    assert_eq!((s.selected_index, s.scroll_offset), (79, 75));
    s.home();
    assert_eq!((s.selected_index, s.scroll_offset), (0, 0));
    s.up();
    assert_eq!(s.selected_index, 0);
    s.page_down(10);
    assert_eq!(s.selected_index, 9);
    s.page_down(0);
    assert_eq!(s.selected_index, 0);
    s.end(0);
    assert_eq!(s.selected_index, 0);
    s.down(0);
    assert_eq!(s.selected_index, 0);
    s.end(5);
    s.reset();
    assert_eq!((s.selected_index, s.scroll_offset), (0, 0));
}
