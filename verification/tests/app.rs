use file_search::app::{
    handle_editing_mode, handle_normal_mode, Action, App, AppMode, InputMode, Key, KeyPress, Step,
    Waiting,
};
use file_search::content::{scan_file, SearchResult};

fn press(key: Key) -> KeyPress {
    KeyPress { key, control: false }
}

fn ctrl(key: Key) -> KeyPress {
    KeyPress { key, control: true }
}

fn list(items: &[&str]) -> Vec<String> {
    items.iter().map(|s| s.to_string()).collect()
}

fn walked() -> Vec<String> {
    list(&["/root/src/main.rs", "/root/README.md", "/root/src/app.rs"])
}

fn started() -> App {
    let mut app = App::new("/root".to_string(), None, 0);
    assert!(matches!(app.listing_walked(walked(), 0), Step::Idle));
    app
}

fn type_text(app: &mut App, text: &str, now: u64) {
    for c in text.chars() {
        assert!(matches!(app.handle_key_event(press(Key::Char(c)), now), Step::Idle));
    }
}

fn numbered(n: usize) -> Vec<String> {
    (0..n).map(|i| format!("/root/file{:05}", i)).collect()
}

#[test]
fn new_session_waits_for_the_first_listing() {
    let app = App::new("/root".to_string(), Some("abc".to_string()), 7);
    assert_eq!(app.mode, AppMode::FileBrowser);
    assert_eq!(app.input_mode, InputMode::Normal);
    assert_eq!(app.current_directory, "/root");
    assert_eq!(app.query.text(), "abc");
    assert_eq!(app.query.cursor(), 0);
    assert!(app.is_searching);
    assert_eq!(app.waiting, Waiting::ListingForRefresh);
    assert_eq!(app.get_status_info(), "Loading files...");
    assert_eq!(app.files.total_items(), 0);
    assert_eq!(app.files.page_size(), 1000);
    assert_eq!(app.matches.page_size(), 1000);
}

#[test]
fn first_listing_is_shown_sorted() {
    let app = started();
    assert!(!app.is_searching);
    assert_eq!(app.waiting, Waiting::Nothing);
    assert_eq!(app.files.visible(), &list(&["README.md", "src/app.rs", "src/main.rs"]));
    assert_eq!(app.get_status_info(), "Files: 3");
    assert_eq!(app.get_pagination_info(), "");
    assert_eq!(app.get_visible_items(), (0, 3));
    assert_eq!(app.get_current_file(), Some(&"README.md".to_string()));
    assert!(app.get_current_content_result().is_none());
}

#[test]
fn normal_keys_map_to_actions() {
    assert!(matches!(handle_normal_mode(press(Key::Char('q'))), Action::Quit));
    assert!(matches!(handle_normal_mode(ctrl(Key::Char('q'))), Action::Quit));
    assert!(matches!(handle_normal_mode(press(Key::Char('h'))), Action::ToggleHelp));
    assert!(matches!(handle_normal_mode(press(Key::F(1))), Action::ToggleHelp));
    assert!(matches!(handle_normal_mode(press(Key::F(2))), Action::Nothing));
    assert!(matches!(handle_normal_mode(press(Key::Tab)), Action::SwitchMode));
    assert!(matches!(handle_normal_mode(press(Key::Char('/'))), Action::BeginEditing));
    assert!(matches!(handle_normal_mode(press(Key::Enter)), Action::Confirm));
    assert!(matches!(handle_normal_mode(press(Key::Char('r'))), Action::Refresh));
    assert!(matches!(handle_normal_mode(press(Key::Char('n'))), Action::NextPage));
    assert!(matches!(handle_normal_mode(press(Key::Char(']'))), Action::NextPage));
    assert!(matches!(handle_normal_mode(press(Key::Char('p'))), Action::PrevPage));
    assert!(matches!(handle_normal_mode(press(Key::Char('['))), Action::PrevPage));
    assert!(matches!(handle_normal_mode(ctrl(Key::Char('g'))), Action::FirstPage));
    assert!(matches!(handle_normal_mode(press(Key::Char('g'))), Action::Nothing));
    assert!(matches!(handle_normal_mode(press(Key::Char('G'))), Action::LastPage));
    assert!(matches!(handle_normal_mode(press(Key::Up)), Action::Up));
    assert!(matches!(handle_normal_mode(press(Key::Char('k'))), Action::Up));
    assert!(matches!(handle_normal_mode(press(Key::Down)), Action::Down));
    assert!(matches!(handle_normal_mode(press(Key::Char('j'))), Action::Down));
    assert!(matches!(handle_normal_mode(press(Key::PageUp)), Action::PageUp));
    assert!(matches!(handle_normal_mode(press(Key::PageDown)), Action::PageDown));
    assert!(matches!(handle_normal_mode(press(Key::Home)), Action::Home));
    assert!(matches!(handle_normal_mode(press(Key::End)), Action::End));
    assert!(matches!(handle_normal_mode(press(Key::Esc)), Action::Nothing));
    assert!(matches!(handle_normal_mode(press(Key::Backspace)), Action::Nothing));
    assert!(matches!(handle_normal_mode(press(Key::Char('x'))), Action::Nothing));
    assert!(matches!(handle_normal_mode(press(Key::Other)), Action::Nothing));
}

#[test]
fn editing_keys_map_to_actions() {
    assert!(matches!(handle_editing_mode(press(Key::Enter)), Action::Submit));
    assert!(matches!(handle_editing_mode(press(Key::Esc)), Action::LeaveEditing));
    assert!(matches!(handle_editing_mode(ctrl(Key::Char('c'))), Action::LeaveEditing));
    assert!(matches!(handle_editing_mode(ctrl(Key::Char('x'))), Action::Nothing));
    assert!(matches!(handle_editing_mode(press(Key::Char('q'))), Action::Insert('q')));
    assert!(matches!(handle_editing_mode(press(Key::Char('/'))), Action::Insert('/')));
    assert!(matches!(handle_editing_mode(press(Key::Backspace)), Action::Backspace));
    assert!(matches!(handle_editing_mode(press(Key::Left)), Action::CursorLeft));
    assert!(matches!(handle_editing_mode(press(Key::Right)), Action::CursorRight));
    assert!(matches!(handle_editing_mode(press(Key::Tab)), Action::Nothing));
    assert!(matches!(handle_editing_mode(press(Key::Up)), Action::Nothing));
}

#[test]
fn q_quits_in_normal_mode_only() {
    let mut app = started();
    assert!(matches!(app.handle_key_event(press(Key::Char('q')), 1), Step::Quit));
    app.handle_key_event(press(Key::Char('/')), 1);
    assert!(matches!(app.handle_key_event(press(Key::Char('q')), 1), Step::Idle));
    assert_eq!(app.query.text(), "q");
}

#[test]
fn help_and_mode_keys() {
    let mut app = started();
    app.handle_key_event(press(Key::Down), 1);
    assert_eq!(app.selection.selected_index, 1);
    app.handle_key_event(press(Key::Char('h')), 1);
    assert_eq!(app.mode, AppMode::Help);
    assert_eq!(app.selection.selected_index, 1);
    assert_eq!(app.get_status_info(), "Help");
    assert_eq!(app.get_visible_items(), (0, 0));
    assert!(app.get_current_file().is_none());
    app.handle_key_event(press(Key::F(1)), 1);
    assert_eq!(app.mode, AppMode::FileBrowser);
    app.handle_key_event(press(Key::Tab), 1);
    assert_eq!(app.mode, AppMode::ContentSearch);
    assert_eq!(app.selection.selected_index, 0);
    assert_eq!(app.get_status_info(), "Results: 0");
    app.handle_key_event(press(Key::Char('h')), 1);
    assert_eq!(app.mode, AppMode::Help);
    app.handle_key_event(press(Key::Tab), 1);
    assert_eq!(app.mode, AppMode::FileBrowser);
    app.handle_key_event(press(Key::Tab), 1);
    app.handle_key_event(press(Key::Tab), 1);
    assert_eq!(app.mode, AppMode::FileBrowser);
    // the file list is still there
    assert_eq!(app.files.total_items(), 3);
}

#[test]
fn editing_the_query() {
    let mut app = started();
    app.handle_key_event(press(Key::Char('/')), 10);
    assert_eq!(app.input_mode, InputMode::Editing);
    type_text(&mut app, "mán", 10);
    assert_eq!(app.query.text(), "mán");
    assert_eq!(app.query.cursor(), 3);
    app.handle_key_event(press(Key::Left), 10);
    app.handle_key_event(press(Key::Char('i')), 10);
    assert_eq!(app.query.text(), "máin");
    assert_eq!(app.query.cursor(), 3);
    app.handle_key_event(press(Key::Left), 10);
    app.handle_key_event(press(Key::Backspace), 10);
    assert_eq!(app.query.text(), "min");
    assert_eq!(app.query.cursor(), 1);
    app.handle_key_event(press(Key::Left), 10);
    app.handle_key_event(press(Key::Left), 10);
    assert_eq!(app.query.cursor(), 0);
    app.handle_key_event(press(Key::Backspace), 10);
    assert_eq!(app.query.text(), "min");
    for _ in 0..5 {
        app.handle_key_event(press(Key::Right), 10);
    }
    assert_eq!(app.query.cursor(), 3);
    app.handle_key_event(press(Key::Esc), 10);
    assert_eq!(app.input_mode, InputMode::Normal);
    assert_eq!(app.query.text(), "min");
    // starting to edit again empties the line
    app.handle_key_event(press(Key::Char('/')), 10);
    assert_eq!(app.query.text(), "");
    assert_eq!(app.query.cursor(), 0);
    app.handle_key_event(ctrl(Key::Char('c')), 10);
    assert_eq!(app.input_mode, InputMode::Normal);
}

#[test]
fn live_search_fires_once_after_the_pause() {
    let mut app = started();
    app.handle_key_event(press(Key::Char('/')), 1000);
    let mut fired = 0;
    for (i, c) in "main".chars().enumerate() {
        let at = 1000 + 30 * i as u64;
        app.handle_key_event(press(Key::Char(c)), at);
        app.tick(at + 15);
        if app.files.total_items() != 3 {
            fired += 1;
        }
    }
    assert_eq!(fired, 0);
    // last keystroke at 1090
    assert!(matches!(app.tick(1239), Step::Idle));
    assert_eq!(app.files.total_items(), 3);
    assert!(matches!(app.tick(1240), Step::Idle));
    assert_eq!(app.files.visible()[0], "src/main.rs");
    assert!(app.files.total_items() < 3);
    assert_eq!(app.file_searcher.cached_queries(), 1);
    // no second search in the same idle period
    app.file_searcher.invalidate_caches();
    assert!(matches!(app.tick(1500), Step::Idle));
    assert!(matches!(app.tick(100_000_000), Step::Idle));
    assert_eq!(app.file_searcher.cached_queries(), 0);
}

#[test]
fn tick_does_nothing_outside_file_editing() {
    let mut app = started();
    // normal mode
    assert!(matches!(app.tick(10_000), Step::Idle));
    app.handle_key_event(press(Key::Tab), 10_000);
    app.handle_key_event(press(Key::Char('/')), 10_000);
    type_text(&mut app, "main", 10_000);
    // content mode: no live search
    assert!(matches!(app.tick(20_000), Step::Idle));
    assert_eq!(app.files.total_items(), 3);
    assert_eq!(app.matches.total_items(), 0);
    assert!(!app.is_searching);
}

#[test]
fn enter_runs_the_file_search() {
    let mut app = started();
    app.handle_key_event(press(Key::Char('/')), 10);
    type_text(&mut app, "app", 10);
    assert!(matches!(app.handle_key_event(press(Key::Enter), 20), Step::Idle));
    assert_eq!(app.input_mode, InputMode::Normal);
    assert_eq!(app.files.visible()[0], "src/app.rs");
    assert_eq!(app.selection.selected_index, 0);
    // enter in normal mode searches again
    assert!(matches!(app.handle_key_event(press(Key::Enter), 30), Step::Idle));
    assert_eq!(app.files.visible()[0], "src/app.rs");
}

#[test]
fn enter_with_an_empty_query() {
    let mut app = started();
    // normal mode: nothing happens
    app.handle_key_event(press(Key::Down), 10);
    assert!(matches!(app.handle_key_event(press(Key::Enter), 10), Step::Idle));
    assert_eq!(app.selection.selected_index, 1);
    // editing mode: the file list is shown again
    app.handle_key_event(press(Key::Char('/')), 10);
    assert!(matches!(app.handle_key_event(press(Key::Enter), 10), Step::Idle));
    assert_eq!(app.files.total_items(), 3);
    assert_eq!(app.selection.selected_index, 0);
}

#[test]
fn expired_listing_asks_for_a_walk() {
    let mut app = started();
    app.handle_key_event(press(Key::Char('/')), 10);
    type_text(&mut app, "main", 10);
    let later = 40_000;
    assert!(matches!(app.handle_key_event(press(Key::Enter), later), Step::Walk));
    assert!(app.is_searching);
    assert_eq!(app.waiting, Waiting::ListingForFiles);
    assert_eq!(app.get_status_info(), "Searching files for 'main'...");
    // no live search while a search is under way
    assert!(matches!(app.tick(later + 1000), Step::Idle));
    let found = list(&["/root/main.c", "/root/zzz"]);
    assert!(matches!(app.listing_walked(found, later + 5), Step::Idle));
    assert!(!app.is_searching);
    assert_eq!(app.files.visible(), &list(&["main.c"]));
    assert_eq!(app.get_status_info(), "Files: 1");
}

#[test]
fn refresh_always_walks() {
    let mut app = started();
    app.handle_key_event(press(Key::Char('/')), 10);
    type_text(&mut app, "main", 10);
    app.handle_key_event(press(Key::Enter), 10);
    assert_eq!(app.file_searcher.cached_queries(), 1);
    assert!(matches!(app.handle_key_event(press(Key::Char('r')), 20), Step::Walk));
    assert_eq!(app.get_status_info(), "Loading files...");
    assert_eq!(app.waiting, Waiting::ListingForRefresh);
    assert_eq!(app.file_searcher.cached_queries(), 0);
    assert!(matches!(app.listing_walked(list(&["/root/new.txt"]), 25), Step::Idle));
    assert_eq!(app.files.visible(), &list(&["new.txt"]));
    assert_eq!(app.waiting, Waiting::Nothing);
}

#[test]
fn listing_without_a_request_is_only_cached() {
    let mut app = started();
    assert!(matches!(app.listing_walked(list(&["/root/other"]), 50), Step::Idle));
    assert_eq!(app.files.total_items(), 3);
    assert!(matches!(app.handle_key_event(press(Key::Char('/')), 60), Step::Idle));
    assert!(matches!(app.handle_key_event(press(Key::Enter), 60), Step::Idle));
    assert_eq!(app.files.visible(), &list(&["other"]));
}

fn read_chunk(paths: &[String], query: &str) -> Vec<Vec<SearchResult>> {
    paths
        .iter()
        .map(|p| {
            let content = format!("first line\nthe needle in {}\nlast", p);
            scan_file(p, content.len() as u64, content.as_bytes(), query)
        })
        .collect()
}

#[test]
fn content_search_reads_chunk_by_chunk() {
    let mut app = App::new("/root".to_string(), None, 0);
    app.listing_walked(numbered(120), 0);
    app.handle_key_event(press(Key::Tab), 1);
    app.handle_key_event(press(Key::Char('/')), 1);
    type_text(&mut app, "NEEDLE", 1);
    let mut step = app.handle_key_event(press(Key::Enter), 2);
    let mut sizes = Vec::new();
    loop {
        match step {
            Step::Read(paths) => {
                assert!(app.is_searching);
                assert_eq!(app.waiting, Waiting::Chunk);
                assert_eq!(app.get_status_info(), "Searching content for 'NEEDLE'...");
                sizes.push(paths.len());
                let mut results = read_chunk(&paths, "NEEDLE");
                results.reverse();
                step = app.chunk_read(results);
            }
            Step::Idle => break,
            _ => panic!("the listing is fresh"),
        }
    }
    assert_eq!(sizes, vec![50, 50, 20]);
    assert!(!app.is_searching);
    assert_eq!(app.waiting, Waiting::Nothing);
    assert_eq!(app.matches.total_items(), 120);
    assert_eq!(app.get_status_info(), "Results: 120");
    let shown = app.matches.visible();
    for (i, r) in shown.iter().enumerate() {
        assert_eq!(r.file_path, format!("file{:05}", i));
        assert_eq!(r.line_number, 2);
        assert_eq!(r.match_start, 4);
        assert_eq!(r.match_end, 10);
    }
    let current = app.get_current_content_result().unwrap();
    assert_eq!(current.file_path, "file00000");
    assert!(app.get_current_file().is_none());
    // the file view kept its own results
    assert_eq!(app.files.total_items(), 120);
}

#[test]
fn content_search_with_an_empty_query_clears_the_matches() {
    let mut app = started();
    app.handle_key_event(press(Key::Tab), 1);
    app.handle_key_event(press(Key::Char('/')), 1);
    type_text(&mut app, "main", 1);
    let step = app.handle_key_event(press(Key::Enter), 2);
    let paths = match step {
        Step::Read(paths) => paths,
        _ => panic!("files are listed"),
    };
    let results = paths.iter().map(|p| scan_file(p, 4, b"main", "main")).collect();
    assert!(matches!(app.chunk_read(results), Step::Idle));
    assert_eq!(app.matches.total_items(), 3);
    app.handle_key_event(press(Key::Char('/')), 3);
    assert!(matches!(app.handle_key_event(press(Key::Enter), 3), Step::Idle));
    assert_eq!(app.matches.total_items(), 0);
    assert_eq!(app.get_status_info(), "Results: 0");
}

#[test]
fn content_search_without_a_listing_walks_first() {
    let mut app = started();
    app.handle_key_event(press(Key::Tab), 1);
    app.handle_key_event(press(Key::Char('/')), 1);
    type_text(&mut app, "x", 1);
    assert!(matches!(app.handle_key_event(press(Key::Enter), 50_000), Step::Walk));
    assert_eq!(app.waiting, Waiting::ListingForContent);
    assert_eq!(app.get_status_info(), "Searching content for 'x'...");
    let step = app.listing_walked(list(&["/root/b.txt", "/root/a.txt"]), 50_001);
    match step {
        Step::Read(paths) => assert_eq!(paths, list(&["a.txt", "b.txt"])),
        _ => panic!("two files are to be read"),
    }
    assert!(matches!(app.chunk_read(vec![Vec::new(), Vec::new()]), Step::Idle));
    assert_eq!(app.matches.total_items(), 0);
    assert!(!app.is_searching);
}

#[test]
fn chunk_results_without_a_search_are_ignored() {
    let mut app = started();
    let stray = scan_file("a.txt", 1, b"x", "x");
    assert!(matches!(app.chunk_read(vec![stray]), Step::Idle));
    assert_eq!(app.matches.total_items(), 0);
    assert!(!app.is_searching);
}

#[test]
fn paging_keys_turn_pages_of_the_mode_on_show() {
    let mut app = App::new("/root".to_string(), None, 0);
    app.listing_walked(numbered(2500), 0);
    assert_eq!(app.files.total_pages(), 3);
    assert_eq!(app.get_status_info(), "Files: 1-1000 of 2500 (Page 1/3)");
    assert_eq!(
        app.get_pagination_info(),
        "Page 1/3 | n/]: Next | p/[: Prev | Ctrl+g: First | G: Last"
    );
    app.handle_key_event(press(Key::End), 1);
    assert_eq!(app.selection.selected_index, 999);
    assert_eq!(app.selection.scroll_offset, 975);
    for _ in 0..5 {
        app.handle_key_event(press(Key::Char('n')), 1);
        assert!(app.files.current_page() <= 2);
    }
    assert_eq!(app.files.current_page(), 2);
    assert_eq!(app.files.visible().len(), 500);
    assert_eq!(app.selection.selected_index, 0);
    assert_eq!(app.get_status_info(), "Files: 2001-2500 of 2500 (Page 3/3)");
    // at the last page the key changes nothing, selection included
    app.handle_key_event(press(Key::Down), 1);
    app.handle_key_event(press(Key::Char(']')), 1);
    assert_eq!(app.selection.selected_index, 1);
    app.handle_key_event(press(Key::Char('p')), 1);
    assert_eq!(app.files.current_page(), 1);
    assert_eq!(app.get_status_info(), "Files: 1001-2000 of 2500 (Page 2/3)");
    app.handle_key_event(ctrl(Key::Char('g')), 1);
    assert_eq!(app.files.current_page(), 0);
    app.handle_key_event(press(Key::Char('[')), 1);
    assert_eq!(app.files.current_page(), 0);
    app.handle_key_event(press(Key::Char('G')), 1);
    assert_eq!(app.files.current_page(), 2);
    assert_eq!(app.files.visible().len(), 500);
    // the other mode has its own page
    app.handle_key_event(press(Key::Tab), 1);
    app.handle_key_event(press(Key::Char('G')), 1);
    assert_eq!(app.matches.current_page(), 0);
    app.handle_key_event(press(Key::Tab), 1);
    assert_eq!(app.files.current_page(), 2);
    // help mode turns no page
    app.handle_key_event(press(Key::Char('h')), 1);
    app.handle_key_event(ctrl(Key::Char('g')), 1);
    assert_eq!(app.files.current_page(), 2);
    assert_eq!(app.get_pagination_info(), "");
}

#[test]
fn shorter_results_pull_the_page_back() {
    let mut app = App::new("/root".to_string(), None, 0);
    app.listing_walked(numbered(2500), 0);
    app.handle_key_event(press(Key::Char('G')), 1);
    assert_eq!(app.files.current_page(), 2);
    app.handle_key_event(press(Key::Char('r')), 2);
    app.listing_walked(numbered(1500), 3);
    assert_eq!(app.files.current_page(), 1);
    assert_eq!(app.files.visible().len(), 500);
    app.handle_key_event(press(Key::Char('r')), 4);
    app.listing_walked(Vec::new(), 5);
    assert_eq!(app.files.current_page(), 0);
    assert_eq!(app.files.total_pages(), 0);
    assert_eq!(app.files.visible().len(), 0);
    assert_eq!(app.get_status_info(), "Files: 0");
    app.handle_key_event(press(Key::Char('n')), 6);
    app.handle_key_event(press(Key::Char('G')), 6);
    app.handle_key_event(press(Key::End), 6);
    app.handle_key_event(press(Key::Down), 6);
    assert_eq!(app.selection.selected_index, 0);
    assert!(app.get_current_file().is_none());
}

#[test]
fn selection_keys_move_within_the_page() {
    let mut app = App::new("/root".to_string(), None, 0);
    app.listing_walked(numbered(60), 0);
    app.handle_key_event(press(Key::Up), 1);
    assert_eq!(app.selection.selected_index, 0);
    app.handle_key_event(press(Key::PageDown), 1);
    assert_eq!(app.selection.selected_index, 20);
    assert_eq!(app.selection.scroll_offset, 0);
    app.handle_key_event(press(Key::PageDown), 1);
    assert_eq!(app.selection.selected_index, 40);
    assert_eq!(app.selection.scroll_offset, 16);
    app.handle_key_event(press(Key::PageDown), 1);
    assert_eq!(app.selection.selected_index, 59);
    assert_eq!(app.selection.scroll_offset, 35);
    app.handle_key_event(press(Key::Char('j')), 1);
    assert_eq!(app.selection.selected_index, 59);
    app.handle_key_event(press(Key::Char('k')), 1);
    assert_eq!(app.selection.selected_index, 58);
    assert_eq!(app.selection.scroll_offset, 35);
    app.handle_key_event(press(Key::PageUp), 1);
    assert_eq!(app.selection.selected_index, 38);
    app.handle_key_event(press(Key::PageUp), 1);
    assert_eq!(app.selection.selected_index, 18);
    assert_eq!(app.selection.scroll_offset, 18);
    app.handle_key_event(press(Key::PageUp), 1);
    assert_eq!(app.selection.selected_index, 0);
    assert_eq!(app.selection.scroll_offset, 0);
    app.handle_key_event(press(Key::End), 1);
    assert_eq!(app.selection.selected_index, 59);
    assert_eq!(app.get_current_file(), Some(&"file00059".to_string()));
    app.handle_key_event(press(Key::Home), 1);
    assert_eq!(app.selection.selected_index, 0);
    assert_eq!(app.selection.scroll_offset, 0);
    assert_eq!(app.get_visible_items(), (0, 60));
}
