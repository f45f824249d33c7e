//! The search session of the interactive loop: what a key or a tick does
//! to it, and which outside work it asks for.

use vstd::prelude::*;
use vstd::string::StringExecFns;
use crate::content::{findings, Found, SearchResult};
use crate::coordinator::{chunk_end, is_display_order, ContentSearch};
use crate::debounce::{Debounce, Timer, DEBOUNCE_INTERVAL_MS};
use crate::file_searcher::{relative_texts, Engine, FileSearcher, Lookup, CACHE_DURATION_MS};
use crate::fuzzy::{is_ranking, matched, scores_of};
use crate::listing::{is_listing_of, texts};
use crate::duplicate::Duplicate;
use crate::pagination::{clamp_page, page_count, PageView, DEFAULT_PAGE_SIZE};
use crate::query_line::{Line, QueryLine};
use crate::selection::Selection;
use crate::status::{pagination_line, pagination_text, status_line, status_text};

verus! {

/// What the screen shows.
#[derive(Debug, Clone, Copy, PartialEq, Eq, Structural)]
pub enum AppMode {
    FileBrowser,
    ContentSearch,
    Help,
}

/// Whether keys are commands or text for the query.
#[derive(Debug, Clone, Copy, PartialEq, Eq, Structural)]
pub enum InputMode {
    Normal,
    Editing,
}

/// A key of the keyboard.
#[derive(Debug, Clone, Copy)]
pub enum Key {
    Char(char),
    F(u8),
    Tab,
    Enter,
    Esc,
    Backspace,
    Left,
    Right,
    Up,
    Down,
    PageUp,
    PageDown,
    Home,
    End,
    Other,
}

/// A key press: the key, and whether Control was held.
#[derive(Debug, Clone, Copy)]
pub struct KeyPress {
    pub key: Key,
    pub control: bool,
}

/// What a key press asks of the session.
#[derive(Debug, Clone, Copy)]
pub enum Action {
    Nothing,
    Quit,
    ToggleHelp,
    SwitchMode,
    BeginEditing,
    /// Search for the query, if there is one.
    Confirm,
    /// Leave editing and search for the query.
    Submit,
    Refresh,
    NextPage,
    PrevPage,
    FirstPage,
    LastPage,
    Up,
    Down,
    PageUp,
    PageDown,
    Home,
    End,
    LeaveEditing,
    Insert(char),
    Backspace,
    CursorLeft,
    CursorRight,
}

/// What a key press asks for while keys are commands.
pub open spec fn normal_action(press: KeyPress) -> Action {
    match press.key {
        Key::Char(c) => if c == 'q' {
            Action::Quit
        } else if c == 'h' {
            Action::ToggleHelp
        } else if c == '/' {
            Action::BeginEditing
        } else if c == 'r' {
            Action::Refresh
        } else if c == 'n' || c == ']' {
            Action::NextPage
        } else if c == 'p' || c == '[' {
            Action::PrevPage
        } else if c == 'g' && press.control {
            Action::FirstPage
        } else if c == 'G' {
            Action::LastPage
        } else if c == 'k' {
            Action::Up
        } else if c == 'j' {
            Action::Down
        } else {
            Action::Nothing
        },
        Key::F(n) => if n == 1 {
            Action::ToggleHelp
        } else {
            Action::Nothing
        },
        Key::Tab => Action::SwitchMode,
        Key::Enter => Action::Confirm,
        Key::Up => Action::Up,
        Key::Down => Action::Down,
        Key::PageUp => Action::PageUp,
        Key::PageDown => Action::PageDown,
        Key::Home => Action::Home,
        Key::End => Action::End,
        _ => Action::Nothing,
    }
}

/// What a key press asks for while keys are text for the query.
pub open spec fn editing_action(press: KeyPress) -> Action {
    match press.key {
        Key::Enter => Action::Submit,
        Key::Esc => Action::LeaveEditing,
        Key::Char(c) => if press.control {
            if c == 'c' {
                Action::LeaveEditing
            } else {
                Action::Nothing
            }
        } else {
            Action::Insert(c)
        },
        Key::Backspace => Action::Backspace,
        Key::Left => Action::CursorLeft,
        Key::Right => Action::CursorRight,
        _ => Action::Nothing,
    }
}

/// What a key press asks for in the given input mode.
pub open spec fn action_of(input_mode: InputMode, press: KeyPress) -> Action {
    match input_mode {
        InputMode::Normal => normal_action(press),
        InputMode::Editing => editing_action(press),
    }
}

/// Reads a key press as a command.
pub fn handle_normal_mode(press: KeyPress) -> (action: Action)
    ensures
        action == normal_action(press),
{
    match press.key {
        Key::Char(c) => {
            if c == 'q' {
                Action::Quit
            } else if c == 'h' {
                Action::ToggleHelp
            } else if c == '/' {
                Action::BeginEditing
            } else if c == 'r' {
                Action::Refresh
            } else if c == 'n' || c == ']' {
                Action::NextPage
            } else if c == 'p' || c == '[' {
                Action::PrevPage
            } else if c == 'g' && press.control {
                Action::FirstPage
            } else if c == 'G' {
                Action::LastPage
            } else if c == 'k' {
                Action::Up
            } else if c == 'j' {
                Action::Down
            } else {
                Action::Nothing
            }
        },
        Key::F(n) => {
            if n == 1 {
                Action::ToggleHelp
            } else {
                Action::Nothing
            }
        },
        Key::Tab => Action::SwitchMode,
        Key::Enter => Action::Confirm,
        Key::Up => Action::Up,
        Key::Down => Action::Down,
        Key::PageUp => Action::PageUp,
        Key::PageDown => Action::PageDown,
        Key::Home => Action::Home,
        Key::End => Action::End,
        _ => Action::Nothing,
    }
}

/// Reads a key press as text for the query.
pub fn handle_editing_mode(press: KeyPress) -> (action: Action)
    ensures
        action == editing_action(press),
{
    match press.key {
        Key::Enter => Action::Submit,
        Key::Esc => Action::LeaveEditing,
        Key::Char(c) => {
            if press.control {
                if c == 'c' {
                    Action::LeaveEditing
                } else {
                    Action::Nothing
                }
            } else {
                Action::Insert(c)
            }
        },
        Key::Backspace => Action::Backspace,
        Key::Left => Action::CursorLeft,
        Key::Right => Action::CursorRight,
        _ => Action::Nothing,
    }
}

/// The outside work that the session waits for.
#[derive(Debug, Clone, Copy, PartialEq, Eq, Structural)]
pub enum Waiting {
    /// None: no search is under way.
    Nothing,
    /// A walk of the directory, to show the file list.
    ListingForRefresh,
    /// A walk of the directory, to rank the files for the query.
    ListingForFiles,
    /// A walk of the directory, to search the files' content.
    ListingForContent,
    /// The results of a chunk of files.
    Chunk,
}

/// What the interactive loop does next.
#[derive(Debug)]
pub enum Step {
    /// Wait for the next key or tick.
    Idle,
    /// End the program.
    Quit,
    /// Walk the root directory and hand what was found to `listing_walked`.
    Walk,
    /// Read and search these files and hand the results to `chunk_read`.
    Read(Vec<String>),
}

/// The search session.
pub struct App {
    pub mode: AppMode,
    pub input_mode: InputMode,
    pub current_directory: String,
    pub query: QueryLine,
    pub selection: Selection,
    pub files: PageView<String>,
    pub matches: PageView<SearchResult>,
    pub is_searching: bool,
    pub search_progress: String,
    pub file_searcher: FileSearcher,
    pub debounce: Debounce,
    pub waiting: Waiting,
    pub job: Option<ContentSearch>,
}

/// The mode after the mode key.
pub open spec fn next_mode(mode: AppMode) -> AppMode {
    match mode {
        AppMode::FileBrowser => AppMode::ContentSearch,
        AppMode::ContentSearch => AppMode::FileBrowser,
        AppMode::Help => AppMode::FileBrowser,
    }
}

/// The mode after the help key.
pub open spec fn help_toggled(mode: AppMode) -> AppMode {
    match mode {
        AppMode::Help => AppMode::FileBrowser,
        _ => AppMode::Help,
    }
}

/// A result view after a page key: the same results with page `page` on show.
pub open spec fn turned_to<T: Duplicate>(
    before: PageView<T>,
    after: PageView<T>,
    page: int,
) -> bool {
    &&& after.wf()
    &&& after.items() == before.items()
    &&& after.size() == before.size()
    &&& after.page() == page
}

/// A result view after new results came in: the page stays where it
/// still exists.
pub open spec fn refilled<T: Duplicate>(before: PageView<T>, after: PageView<T>) -> bool {
    &&& after.wf()
    &&& after.size() == before.size()
    &&& after.page() == clamp_page(
        before.page(),
        page_count(after.items().len() as int, before.size()),
    )
}

/// The page that a page key leads to, from page `page` of `pages`.
pub open spec fn page_after(action: Action, page: int, pages: int) -> int {
    match action {
        Action::NextPage => if page + 1 < pages {
            page + 1
        } else {
            page
        },
        Action::PrevPage => if page > 0 {
            page - 1
        } else {
            page
        },
        Action::FirstPage => 0,
        Action::LastPage => if pages > 0 {
            pages - 1
        } else {
            0
        },
        _ => page,
    }
}

/// No page key leads off the pages: from a page that exists it leads to
/// one that exists.
pub proof fn lemma_page_key_stays_in_range(action: Action, page: int, pages: int)
    requires
        0 <= page < pages,
    ensures
        0 <= page_after(action, page, pages) < pages,
{
}

/// Whether a page key changes anything, from page `page` of `pages`.
pub open spec fn page_key_moves(action: Action, page: int, pages: int) -> bool {
    match action {
        Action::NextPage => page + 1 < pages,
        Action::PrevPage => page > 0,
        Action::FirstPage => pages > 0,
        Action::LastPage => pages > 0,
        _ => false,
    }
}

impl App {
    /// The query line, the result views and the engine are well formed.
    pub open spec fn parts_wf(&self) -> bool {
        &&& self.query@.wf()
        &&& self.files.wf()
        &&& self.matches.wf()
        &&& self.file_searcher.wf()
        &&& self.file_searcher@.cache_duration > 0
    }

    /// The parts are well formed, a content search is held exactly while
    /// its chunks are awaited, and the search flag is up exactly while
    /// outside work is awaited.
    pub open spec fn wf(&self) -> bool {
        &&& self.parts_wf()
        &&& (self.waiting == Waiting::Chunk <==> self.job is Some)
        &&& (self.job matches Some(job) ==> job.wf())
        &&& (self.is_searching <==> self.waiting != Waiting::Nothing)
    }

    /// Number of rows on the visible page of the mode on show.
    pub open spec fn row_count(&self) -> nat {
        match self.mode {
            AppMode::FileBrowser => self.files.shown().len(),
            AppMode::ContentSearch => self.matches.shown().len(),
            AppMode::Help => 0,
        }
    }

    /// Number of rows on the visible page of the mode on show.
    pub fn get_current_page_items_len(&self) -> (count: usize)
        ensures
            count == self.row_count(),
    {
        match self.mode {
            AppMode::FileBrowser => self.files.visible().len(),
            AppMode::ContentSearch => self.matches.visible().len(),
            AppMode::Help => 0,
        }
    }

    /// Puts the selection and the screen at the top.
    pub fn reset_selection(&mut self)
        ensures
            *final(self) == (App { selection: Selection::top(), ..*old(self) }),
    {
        self.selection.reset();
    }

    /// What a page key does: the result view of the mode on show turns to
    /// the page that the key leads to, and where that changes anything the
    /// selection goes to the top. In help mode nothing happens.
    pub open spec fn page_turned(pre: App, action: Action, post: App) -> bool {
        match pre.mode {
            AppMode::FileBrowser => {
                &&& post == (App { files: post.files, selection: post.selection, ..pre })
                &&& turned_to(
                    pre.files,
                    post.files,
                    page_after(action, pre.files.page(), pre.files.pages()),
                )
                &&& post.selection == if page_key_moves(
                    action,
                    pre.files.page(),
                    pre.files.pages(),
                ) {
                    Selection::top()
                } else {
                    pre.selection
                }
            },
            AppMode::ContentSearch => {
                &&& post == (App { matches: post.matches, selection: post.selection, ..pre })
                &&& turned_to(
                    pre.matches,
                    post.matches,
                    page_after(action, pre.matches.page(), pre.matches.pages()),
                )
                &&& post.selection == if page_key_moves(
                    action,
                    pre.matches.page(),
                    pre.matches.pages(),
                ) {
                    Selection::top()
                } else {
                    pre.selection
                }
            },
            AppMode::Help => post == pre,
        }
    }

    /// Turns to the next page of the mode on show.
    pub fn next_page(&mut self)
        requires
            old(self).wf(),
        ensures
            final(self).wf(),
            Self::page_turned(*old(self), Action::NextPage, *final(self)),
    {
        let moved = match self.mode {
            AppMode::FileBrowser => self.files.next_page(),
            AppMode::ContentSearch => self.matches.next_page(),
            AppMode::Help => false,
        };
        if moved {
            self.selection.reset();
        }
    }

    /// Turns to the previous page of the mode on show.
    pub fn prev_page(&mut self)
        requires
            old(self).wf(),
        ensures
            final(self).wf(),
            Self::page_turned(*old(self), Action::PrevPage, *final(self)),
    {
        let moved = match self.mode {
            AppMode::FileBrowser => self.files.prev_page(),
            AppMode::ContentSearch => self.matches.prev_page(),
            AppMode::Help => false,
        };
        if moved {
            self.selection.reset();
        }
    }

    /// Turns to the first page of the mode on show.
    pub fn first_page(&mut self)
        requires
            old(self).wf(),
        ensures
            final(self).wf(),
            Self::page_turned(*old(self), Action::FirstPage, *final(self)),
    {
        let moved = match self.mode {
            AppMode::FileBrowser => self.files.first_page(),
            AppMode::ContentSearch => self.matches.first_page(),
            AppMode::Help => false,
        };
        if moved {
            self.selection.reset();
        }
    }

    /// Turns to the last page of the mode on show.
    pub fn last_page(&mut self)
        requires
            old(self).wf(),
        ensures
            final(self).wf(),
            Self::page_turned(*old(self), Action::LastPage, *final(self)),
    {
        let moved = match self.mode {
            AppMode::FileBrowser => self.files.last_page(),
            AppMode::ContentSearch => self.matches.last_page(),
            AppMode::Help => false,
        };
        if moved {
            self.selection.reset();
        }
    }

    /// The first row on screen and the number of rows on the visible page.
    pub fn get_visible_items(&self) -> (rows: (usize, usize))
        ensures
            rows.0 == self.selection.scroll_offset,
            rows.1 == self.row_count(),
    {
        (self.selection.scroll_offset, self.get_current_page_items_len())
    }

    /// The selected file, in file mode and where a row is selected.
    pub fn get_current_file(&self) -> (file: Option<&String>)
        ensures
            match file {
                Some(path) => self.mode == AppMode::FileBrowser && self.selection.selected_index
                    < self.files.shown().len() && *path == self.files.shown()[
                self.selection.selected_index as int],
                None => !(self.mode == AppMode::FileBrowser && self.selection.selected_index
                    < self.files.shown().len()),
            },
    {
        let shown = self.files.visible();
        match self.mode {
            AppMode::FileBrowser => {
                if self.selection.selected_index < shown.len() {
                    Some(&shown[self.selection.selected_index])
                } else {
                    None
                }
            },
            _ => None,
        }
    }

    /// The selected match, in content mode and where a row is selected.
    pub fn get_current_content_result(&self) -> (result: Option<&SearchResult>)
        ensures
            match result {
                Some(found) => self.mode == AppMode::ContentSearch
                    && self.selection.selected_index < self.matches.shown().len() && *found
                    == self.matches.shown()[self.selection.selected_index as int],
                None => !(self.mode == AppMode::ContentSearch && self.selection.selected_index
                    < self.matches.shown().len()),
            },
    {
        let shown = self.matches.visible();
        match self.mode {
            AppMode::ContentSearch => {
                if self.selection.selected_index < shown.len() {
                    Some(&shown[self.selection.selected_index])
                } else {
                    None
                }
            },
            _ => None,
        }
    }
}

/// The text shown while files are loaded.
pub open spec fn loading_text() -> Seq<char> {
    "Loading files..."@
}

/// The text shown while files are ranked for a query.
pub open spec fn ranking_text(query: Seq<char>) -> Seq<char> {
    "Searching files for '"@ + query + "'..."@
}

/// The text shown while the content of files is searched for a query.
pub open spec fn scanning_text(query: Seq<char>) -> Seq<char> {
    "Searching content for '"@ + query + "'..."@
}

/// A progress text: the opening, the query, and the closing quote and dots.
fn progress_text(opening: &str, query: &str) -> (text: String)
    ensures
        text@ == opening@ + query@ + "'..."@,
{
    let mut text = String::from_str(opening);
    text.append(query);
    text.append("'...");
    text
}

/// All findings of a run of result lists, in their order.
pub open spec fn gathered_all(lists: Seq<Vec<SearchResult>>) -> Seq<Found>
    decreases lists.len(),
{
    if lists.len() == 0 {
        Seq::empty()
    } else {
        gathered_all(lists.drop_last()) + findings(lists.last()@)
    }
}

impl App {
    /// The session shows a new file list: the file view holds `listing`,
    /// the selection is at the top, and no search is under way.
    pub open spec fn files_shown(pre: App, post: App, listing: Seq<Seq<char>>) -> bool {
        &&& post == (App {
            files: post.files,
            selection: Selection::top(),
            is_searching: false,
            search_progress: post.search_progress,
            file_searcher: post.file_searcher,
            waiting: Waiting::Nothing,
            job: None,
            ..pre
        })
        &&& refilled(pre.files, post.files)
        &&& texts(post.files.items()) == listing
        &&& post.search_progress@ == Seq::<char>::empty()
    }

    /// The session shows new content matches: the match view holds
    /// `found`, the selection is at the top, and no search is under way.
    pub open spec fn matches_shown(pre: App, post: App, found: Seq<Found>) -> bool {
        &&& post == (App {
            matches: post.matches,
            selection: Selection::top(),
            is_searching: false,
            search_progress: post.search_progress,
            file_searcher: post.file_searcher,
            waiting: Waiting::Nothing,
            job: None,
            ..pre
        })
        &&& refilled(pre.matches, post.matches)
        &&& findings(post.matches.items()) == found
        &&& post.search_progress@ == Seq::<char>::empty()
    }

    /// The session waits for outside work, with the search flag up and
    /// the given progress text.
    pub open spec fn awaiting(pre: App, post: App, waiting: Waiting, progress: Seq<char>) -> bool {
        &&& post == (App {
            is_searching: true,
            search_progress: post.search_progress,
            file_searcher: post.file_searcher,
            waiting,
            job: post.job,
            ..pre
        })
        &&& post.search_progress@ == progress
    }

    /// What a request for the file list does, on an engine in state
    /// `engine` at `now`: a fresh list is shown at once; else the session
    /// asks for a walk.
    pub open spec fn refreshed(pre: App, engine: Engine, now: nat, post: App, step: Step) -> bool {
        &&& post.file_searcher@ == engine
        &&& match engine.fresh(now) {
            Some(files) => step is Idle && Self::files_shown(pre, post, files),
            None => step is Walk && post.job is None && Self::awaiting(
                pre,
                post,
                Waiting::ListingForRefresh,
                loading_text(),
            ),
        }
    }

    /// What a filename search does, on an engine in state `engine` at
    /// `now`: an empty query asks for the file list; a remembered ranking
    /// is shown; else the fresh file list is ranked, the ranking shown and
    /// remembered; without a fresh file list the session asks for a walk.
    pub open spec fn files_searched(
        pre: App,
        engine: Engine,
        now: nat,
        post: App,
        step: Step,
    ) -> bool {
        let query = pre.query@.text;
        let shown = texts(post.files.items());
        if query.len() == 0 {
            Self::refreshed(pre, engine, now, post, step)
        } else if engine.memo.contains_key(query) {
            &&& step is Idle
            &&& Self::files_shown(pre, post, engine.memo[query])
            &&& post.file_searcher@ == engine
        } else {
            match engine.fresh(now) {
                Some(files) => {
                    &&& step is Idle
                    &&& is_ranking(matched(files, scores_of(files, query)), shown)
                    &&& Self::files_shown(pre, post, shown)
                    &&& post.file_searcher@ == engine.with_result(query, shown)
                },
                None => {
                    &&& step is Walk
                    &&& post.job is None
                    &&& Self::awaiting(pre, post, Waiting::ListingForFiles, ranking_text(query))
                    &&& post.file_searcher@ == engine
                },
            }
        }
    }

    /// What the start of a content search over the listed `files` does:
    /// with no file the empty result is shown; else the first chunk of
    /// files is handed out for reading.
    pub open spec fn content_begun(pre: App, files: Seq<Seq<char>>, post: App, step: Step) -> bool {
        if files.len() == 0 {
            step is Idle && Self::matches_shown(pre, post, Seq::empty())
        } else {
            &&& step matches Step::Read(paths)
            &&& texts(paths@) == files.subrange(0, chunk_end(0, files.len() as int))
            &&& Self::awaiting(pre, post, Waiting::Chunk, scanning_text(pre.query@.text))
            &&& post.job matches Some(job)
            &&& job.wf()
            &&& job.files() == files
            &&& job.handed_out() == chunk_end(0, files.len() as int)
            &&& job.gathered() == Seq::<Found>::empty()
        }
    }

    /// What a content search does, on an engine in state `engine` at
    /// `now`: an empty query empties the match view; else the search
    /// starts over the fresh file list; without one the session asks for
    /// a walk.
    pub open spec fn content_searched(
        pre: App,
        engine: Engine,
        now: nat,
        post: App,
        step: Step,
    ) -> bool {
        let query = pre.query@.text;
        if query.len() == 0 {
            &&& step is Idle
            &&& post == (App { matches: post.matches, selection: Selection::top(), ..pre })
            &&& refilled(pre.matches, post.matches)
            &&& post.matches.items().len() == 0
            &&& post.file_searcher@ == engine
        } else {
            &&& post.file_searcher@ == engine
            &&& match engine.fresh(now) {
                Some(files) => Self::content_begun(pre, files, post, step),
                None => {
                    &&& step is Walk
                    &&& post.job is None
                    &&& Self::awaiting(
                        pre,
                        post,
                        Waiting::ListingForContent,
                        scanning_text(query),
                    )
                },
            }
        }
    }

    /// What the results of a chunk do to the content search `job` and the
    /// session: they are added to those gathered; then the next chunk is
    /// handed out, or, when no file is left, all that was gathered is
    /// shown in display order.
    pub open spec fn chunk_absorbed(
        pre: App,
        job: ContentSearch,
        results: Seq<Vec<SearchResult>>,
        post: App,
        step: Step,
    ) -> bool {
        let gathered = job.gathered() + gathered_all(results);
        let handed = job.handed_out();
        let total = job.files().len() as int;
        if handed >= total {
            &&& step is Idle
            &&& is_display_order(gathered, findings(post.matches.items()))
            &&& Self::matches_shown(pre, post, findings(post.matches.items()))
            &&& post.file_searcher == pre.file_searcher
        } else {
            &&& step matches Step::Read(paths)
            &&& texts(paths@) == job.files().subrange(handed, chunk_end(handed, total))
            &&& post == (App { waiting: Waiting::Chunk, job: post.job, ..pre })
            &&& post.job matches Some(next)
            &&& next.wf()
            &&& next.files() == job.files()
            &&& next.handed_out() == chunk_end(handed, total)
            &&& next.gathered() == gathered
        }
    }

    /// Shows a file list.
    fn show_files(&mut self, listing: Vec<String>)
        requires
            old(self).wf(),
        ensures
            final(self).wf(),
            Self::files_shown(*old(self), *final(self), texts(listing@)),
            final(self).file_searcher == old(self).file_searcher,
    {
        self.files.set_results(listing);
        self.selection.reset();
        self.is_searching = false;
        self.search_progress = String::new();
        self.waiting = Waiting::Nothing;
        self.job = None;
    }

    /// Shows content matches.
    fn show_matches(&mut self, found: Vec<SearchResult>)
        requires
            old(self).parts_wf(),
        ensures
            final(self).wf(),
            Self::matches_shown(*old(self), *final(self), findings(found@)),
            final(self).file_searcher == old(self).file_searcher,
    {
        self.matches.set_results(found);
        self.selection.reset();
        self.is_searching = false;
        self.search_progress = String::new();
        self.waiting = Waiting::Nothing;
        self.job = None;
    }

    /// Puts the search flag up and asks for outside work.
    fn wait_for(&mut self, waiting: Waiting, progress: String)
        requires
            old(self).wf(),
            waiting != Waiting::Nothing,
            waiting != Waiting::Chunk,
        ensures
            final(self).wf(),
            final(self).job is None,
            final(self).file_searcher == old(self).file_searcher,
            Self::awaiting(*old(self), *final(self), waiting, progress@),
    {
        self.is_searching = true;
        self.search_progress = progress;
        self.waiting = waiting;
        self.job = None;
    }

    /// Asks for the file list and shows it.
    pub fn refresh_files(&mut self, now: u64) -> (step: Step)
        requires
            old(self).wf(),
        ensures
            final(self).wf(),
            Self::refreshed(
                *old(self),
                old(self).file_searcher@,
                now as nat,
                *final(self),
                step,
            ),
    {
        match self.file_searcher.list_files(now) {
            Lookup::Ready(files) => {
                self.show_files(files);
                Step::Idle
            },
            Lookup::NeedsListing => {
                self.wait_for(Waiting::ListingForRefresh, String::from_str("Loading files..."));
                Step::Walk
            },
        }
    }

    /// Runs the filename search for the query and shows its ranking.
    pub fn search_files(&mut self, now: u64) -> (step: Step)
        requires
            old(self).wf(),
        ensures
            final(self).wf(),
            Self::files_searched(
                *old(self),
                old(self).file_searcher@,
                now as nat,
                *final(self),
                step,
            ),
    {
        if self.query.is_empty() {
            return self.refresh_files(now);
        }
        let query = self.query.text();
        match self.file_searcher.fuzzy_search_files(query.as_str(), now) {
            Lookup::Ready(ranked) => {
                self.show_files(ranked);
                Step::Idle
            },
            Lookup::NeedsListing => {
                self.wait_for(
                    Waiting::ListingForFiles,
                    progress_text("Searching files for '", query.as_str()),
                );
                Step::Walk
            },
        }
    }

    /// Hands out the next chunk of the content search, or shows its
    /// results when no file is left.
    fn advance(&mut self, job: ContentSearch) -> (step: Step)
        requires
            old(self).parts_wf(),
            job.wf(),
        ensures
            final(self).wf(),
            final(self).file_searcher == old(self).file_searcher,
            if job.handed_out() >= job.files().len() {
                &&& step is Idle
                &&& is_display_order(job.gathered(), findings(final(self).matches.items()))
                &&& Self::matches_shown(
                    *old(self),
                    *final(self),
                    findings(final(self).matches.items()),
                )
            } else {
                &&& step matches Step::Read(paths)
                &&& texts(paths@) == job.files().subrange(
                    job.handed_out(),
                    chunk_end(job.handed_out(), job.files().len() as int),
                )
                &&& *final(self) == (App {
                    is_searching: true,
                    waiting: Waiting::Chunk,
                    job: final(self).job,
                    ..*old(self)
                })
                &&& final(self).job matches Some(next)
                &&& next.wf()
                &&& next.files() == job.files()
                &&& next.handed_out() == chunk_end(job.handed_out(), job.files().len() as int)
                &&& next.gathered() == job.gathered()
            },
    {
        let mut job = job;
        match job.next_chunk() {
            Some(paths) => {
                self.is_searching = true;
                self.waiting = Waiting::Chunk;
                self.job = Some(job);
                Step::Read(paths)
            },
            None => {
                let sorted = job.finish();
                self.show_matches(sorted);
                Step::Idle
            },
        }
    }

    /// Starts the content search for the query.
    pub fn search_content(&mut self, now: u64) -> (step: Step)
        requires
            old(self).wf(),
        ensures
            final(self).wf(),
            Self::content_searched(
                *old(self),
                old(self).file_searcher@,
                now as nat,
                *final(self),
                step,
            ),
    {
        if self.query.is_empty() {
            self.matches.set_results(Vec::new());
            self.selection.reset();
            return Step::Idle;
        }
        let query = self.query.text();
        let progress = progress_text("Searching content for '", query.as_str());
        match self.file_searcher.search_content(query.as_str(), now) {
            Lookup::Ready(job) => {
                self.search_progress = progress;
                let step = self.advance(job);
                proof {
                    let files = self.file_searcher@.fresh(now as nat)->0;
                    if files.len() == 0 {
                        lemma_display_order_of_none(findings(self.matches.items()));
                    }
                }
                step
            },
            Lookup::NeedsListing => {
                self.wait_for(Waiting::ListingForContent, progress);
                Step::Walk
            },
        }
    }
}

/// Nothing gathered shows as nothing.
proof fn lemma_display_order_of_none(sorted: Seq<Found>)
    requires
        is_display_order(Seq::<Found>::empty(), sorted),
    ensures
        sorted == Seq::<Found>::empty(),
{
    let order = choose|order: Seq<usize>| #[trigger]
        crate::sorting::is_stable_order(
            crate::coordinator::finding_rank(Seq::<Found>::empty()),
            order,
            0,
        ) && crate::coordinator::picks_findings(Seq::<Found>::empty(), order, sorted);
    assert(sorted =~= Seq::<Found>::empty());
}

impl App {
    /// What a key press that only moves things on the screen does.
    pub open spec fn screen_changed(pre: App, action: Action, post: App) -> bool {
        match action {
            Action::ToggleHelp => post == (App { mode: help_toggled(pre.mode), ..pre }),
            Action::SwitchMode => post == (App {
                mode: next_mode(pre.mode),
                selection: Selection::top(),
                ..pre
            }),
            Action::BeginEditing => {
                &&& post == (App { input_mode: InputMode::Editing, query: post.query, ..pre })
                &&& post.query@ == (Line { text: Seq::empty(), cursor: 0 })
            },
            Action::LeaveEditing => post == (App { input_mode: InputMode::Normal, ..pre }),
            Action::NextPage | Action::PrevPage | Action::FirstPage | Action::LastPage =>
                Self::page_turned(pre, action, post),
            Action::Up => post == (App { selection: pre.selection.after_up(), ..pre }),
            Action::Down => post == (App {
                selection: pre.selection.after_down(pre.row_count() as usize),
                ..pre
            }),
            Action::PageUp => post == (App { selection: pre.selection.after_page_up(), ..pre }),
            Action::PageDown => post == (App {
                selection: pre.selection.after_page_down(pre.row_count() as usize),
                ..pre
            }),
            Action::Home => post == (App { selection: Selection::top(), ..pre }),
            Action::End => post == (App {
                selection: pre.selection.after_end(pre.row_count() as usize),
                ..pre
            }),
            Action::CursorLeft => {
                &&& post == (App { query: post.query, ..pre })
                &&& post.query@ == pre.query@.after_left()
            },
            Action::CursorRight => {
                &&& post == (App { query: post.query, ..pre })
                &&& post.query@ == pre.query@.after_right()
            },
            _ => post == pre,
        }
    }

    /// What an edit of the query does at `now`: the text changes and the
    /// debounce timer is armed again; a backspace at the start of the line
    /// changes nothing.
    pub open spec fn query_edited(pre: App, action: Action, now: nat, post: App) -> bool {
        match action {
            Action::Insert(c) => {
                &&& post == (App { query: post.query, debounce: post.debounce, ..pre })
                &&& post.query@ == pre.query@.after_insert(c)
                &&& post.debounce@ == pre.debounce@.edit(now)
            },
            Action::Backspace => if pre.query@.cursor > 0 {
                &&& post == (App { query: post.query, debounce: post.debounce, ..pre })
                &&& post.query@ == pre.query@.after_backspace()
                &&& post.debounce@ == pre.debounce@.edit(now)
            } else {
                post == pre
            },
            _ => post == pre,
        }
    }

    /// What an action does to the session at `now`, and what the loop does
    /// next.
    pub open spec fn applied(pre: App, action: Action, now: nat, post: App, step: Step) -> bool {
        match action {
            Action::Quit => post == pre && step is Quit,
            Action::Confirm => if pre.query@.text.len() == 0 {
                post == pre && step is Idle
            } else {
                match pre.mode {
                    AppMode::FileBrowser => Self::files_searched(
                        pre,
                        pre.file_searcher@,
                        now,
                        post,
                        step,
                    ),
                    AppMode::ContentSearch => Self::content_searched(
                        pre,
                        pre.file_searcher@,
                        now,
                        post,
                        step,
                    ),
                    AppMode::Help => post == pre && step is Idle,
                }
            },
            Action::Submit => {
                let left = App { input_mode: InputMode::Normal, ..pre };
                match pre.mode {
                    AppMode::FileBrowser => Self::files_searched(
                        left,
                        pre.file_searcher@,
                        now,
                        post,
                        step,
                    ),
                    AppMode::ContentSearch => Self::content_searched(
                        left,
                        pre.file_searcher@,
                        now,
                        post,
                        step,
                    ),
                    AppMode::Help => post == left && step is Idle,
                }
            },
            Action::Refresh => Self::refreshed(
                pre,
                pre.file_searcher@.invalidated(),
                now,
                post,
                step,
            ),
            Action::Insert(_) | Action::Backspace => Self::query_edited(pre, action, now, post)
                && step is Idle,
            _ => Self::screen_changed(pre, action, post) && step is Idle,
        }
    }

    /// Carries out a key press that only moves things on the screen.
    fn change_screen(&mut self, action: Action)
        requires
            old(self).wf(),
        ensures
            final(self).wf(),
            Self::screen_changed(*old(self), action, *final(self)),
    {
        match action {
            Action::ToggleHelp => {
                self.mode = match self.mode {
                    AppMode::Help => AppMode::FileBrowser,
                    _ => AppMode::Help,
                };
            },
            Action::SwitchMode => {
                self.mode = match self.mode {
                    AppMode::FileBrowser => AppMode::ContentSearch,
                    AppMode::ContentSearch => AppMode::FileBrowser,
                    AppMode::Help => AppMode::FileBrowser,
                };
                self.selection.reset();
            },
            Action::BeginEditing => {
                self.input_mode = InputMode::Editing;
                self.query.clear();
            },
            Action::LeaveEditing => {
                self.input_mode = InputMode::Normal;
            },
            Action::NextPage => {
                self.next_page();
            },
            Action::PrevPage => {
                self.prev_page();
            },
            Action::FirstPage => {
                self.first_page();
            },
            Action::LastPage => {
                self.last_page();
            },
            Action::Up => {
                self.selection.up();
            },
            Action::Down => {
                let count = self.get_current_page_items_len();
                self.selection.down(count);
            },
            Action::PageUp => {
                self.selection.page_up();
            },
            Action::PageDown => {
                let count = self.get_current_page_items_len();
                self.selection.page_down(count);
            },
            Action::Home => {
                self.selection.home();
            },
            Action::End => {
                let count = self.get_current_page_items_len();
                self.selection.end(count);
            },
            Action::CursorLeft => {
                self.query.left();
            },
            Action::CursorRight => {
                self.query.right();
            },
            _ => {},
        }
    }

    /// Carries out an edit of the query at `now`.
    fn edit_query(&mut self, action: Action, now: u64)
        requires
            old(self).wf(),
        ensures
            final(self).wf(),
            Self::query_edited(*old(self), action, now as nat, *final(self)),
    {
        match action {
            Action::Insert(c) => {
                self.query.insert(c);
                self.debounce.record_edit(now);
            },
            Action::Backspace => {
                if self.query.cursor() > 0 {
                    self.query.backspace();
                    self.debounce.record_edit(now);
                }
            },
            _ => {},
        }
    }

    /// Searches for the query in the way of the mode on show.
    fn search_by_mode(&mut self, now: u64) -> (step: Step)
        requires
            old(self).wf(),
        ensures
            final(self).wf(),
            match old(self).mode {
                AppMode::FileBrowser => Self::files_searched(
                    *old(self),
                    old(self).file_searcher@,
                    now as nat,
                    *final(self),
                    step,
                ),
                AppMode::ContentSearch => Self::content_searched(
                    *old(self),
                    old(self).file_searcher@,
                    now as nat,
                    *final(self),
                    step,
                ),
                AppMode::Help => *final(self) == *old(self) && step is Idle,
            },
    {
        match self.mode {
            AppMode::FileBrowser => self.search_files(now),
            AppMode::ContentSearch => self.search_content(now),
            AppMode::Help => Step::Idle,
        }
    }

    /// Carries out what a key press asked for.
    pub fn apply(&mut self, action: Action, now: u64) -> (step: Step)
        requires
            old(self).wf(),
        ensures
            final(self).wf(),
            Self::applied(*old(self), action, now as nat, *final(self), step),
    {
        match action {
            Action::Quit => Step::Quit,
            Action::Confirm => {
                if self.query.is_empty() {
                    Step::Idle
                } else {
                    self.search_by_mode(now)
                }
            },
            Action::Submit => {
                self.input_mode = InputMode::Normal;
                self.search_by_mode(now)
            },
            Action::Refresh => {
                self.file_searcher.invalidate_caches();
                self.refresh_files(now)
            },
            Action::Insert(_) | Action::Backspace => {
                self.edit_query(action, now);
                Step::Idle
            },
            _ => {
                self.change_screen(action);
                Step::Idle
            },
        }
    }

    /// Takes a key press at `now`: reads it by the input mode and carries
    /// out what it asks for.
    pub fn handle_key_event(&mut self, press: KeyPress, now: u64) -> (step: Step)
        requires
            old(self).wf(),
        ensures
            final(self).wf(),
            Self::applied(
                *old(self),
                action_of(old(self).input_mode, press),
                now as nat,
                *final(self),
                step,
            ),
    {
        let action = match self.input_mode {
            InputMode::Normal => handle_normal_mode(press),
            InputMode::Editing => handle_editing_mode(press),
        };
        self.apply(action, now)
    }

    /// A live search is due at `now`: the query is under edit in file
    /// mode, no search is under way, and the debounce timer is due.
    pub open spec fn live_search_due(&self, now: nat) -> bool {
        &&& self.input_mode == InputMode::Editing
        &&& self.mode == AppMode::FileBrowser
        &&& !self.is_searching
        &&& self.debounce@.due(now)
    }

    /// What a tick does at `now`: where a live search is due the timer is
    /// disarmed and the filename search runs; else nothing happens.
    pub open spec fn ticked(pre: App, now: nat, post: App, step: Step) -> bool {
        if pre.live_search_due(now) {
            &&& post.debounce@ == pre.debounce@.poll(now)
            &&& Self::files_searched(
                App { debounce: post.debounce, ..pre },
                pre.file_searcher@,
                now,
                post,
                step,
            )
        } else {
            post == pre && step is Idle
        }
    }

    /// A tick of the interactive loop at `now`.
    pub fn tick(&mut self, now: u64) -> (step: Step)
        requires
            old(self).wf(),
        ensures
            final(self).wf(),
            Self::ticked(*old(self), now as nat, *final(self), step),
    {
        let editing = match self.input_mode {
            InputMode::Editing => true,
            InputMode::Normal => false,
        };
        let browsing = match self.mode {
            AppMode::FileBrowser => true,
            _ => false,
        };
        if editing && browsing && !self.is_searching && self.debounce.is_due(now) {
            self.debounce.poll(now);
            self.search_files(now)
        } else {
            Step::Idle
        }
    }

    /// The status text: the progress text while a search is under way,
    /// else the status of the result view of the mode on show.
    pub open spec fn status(&self) -> Seq<char> {
        if self.is_searching && self.search_progress@.len() > 0 {
            self.search_progress@
        } else {
            match self.mode {
                AppMode::FileBrowser => status_text(
                    "Files"@,
                    self.files.items().len(),
                    (crate::pagination::page_start(self.files.page(), self.files.size())
                        + 1) as nat,
                    crate::pagination::page_end(
                        self.files.page(),
                        self.files.size(),
                        self.files.items().len() as int,
                    ) as nat,
                    self.files.page() as nat,
                    self.files.pages() as nat,
                ),
                AppMode::ContentSearch => status_text(
                    "Results"@,
                    self.matches.items().len(),
                    (crate::pagination::page_start(self.matches.page(), self.matches.size())
                        + 1) as nat,
                    crate::pagination::page_end(
                        self.matches.page(),
                        self.matches.size(),
                        self.matches.items().len() as int,
                    ) as nat,
                    self.matches.page() as nat,
                    self.matches.pages() as nat,
                ),
                AppMode::Help => "Help"@,
            }
        }
    }

    /// The status text.
    pub fn get_status_info(&self) -> (text: String)
        requires
            self.wf(),
        ensures
            text@ == self.status(),
    {
        if self.is_searching && !self.search_progress.as_str().is_empty() {
            return self.search_progress.clone();
        }
        match self.mode {
            AppMode::FileBrowser => status_line("Files", &self.files),
            AppMode::ContentSearch => status_line("Results", &self.matches),
            AppMode::Help => String::from_str("Help"),
        }
    }

    /// The paging hint of the mode on show; empty in help mode.
    pub open spec fn pagination_info(&self) -> Seq<char> {
        match self.mode {
            AppMode::FileBrowser => pagination_text(
                self.files.page() as nat,
                self.files.pages() as nat,
            ),
            AppMode::ContentSearch => pagination_text(
                self.matches.page() as nat,
                self.matches.pages() as nat,
            ),
            AppMode::Help => Seq::empty(),
        }
    }

    /// The paging hint.
    pub fn get_pagination_info(&self) -> (text: String)
        requires
            self.wf(),
        ensures
            text@ == self.pagination_info(),
    {
        match self.mode {
            AppMode::FileBrowser => pagination_line(&self.files),
            AppMode::ContentSearch => pagination_line(&self.matches),
            AppMode::Help => String::new(),
        }
    }
}

impl App {
    /// What the result of a walk of the directory does at `now`: the
    /// sorted list of what was found is cached, and the request that
    /// waited for it goes on against it. Where nothing waited the list is
    /// only cached.
    pub open spec fn walked(
        pre: App,
        found: Seq<Seq<char>>,
        now: nat,
        post: App,
        step: Step,
    ) -> bool {
        &&& post.file_searcher@.snapshot matches Some(snapshot)
        &&& is_listing_of(relative_texts(found, pre.file_searcher@.root), snapshot.files)
        &&& {
            let stored = pre.file_searcher@.with_listing(snapshot.files, now);
            match pre.waiting {
                Waiting::ListingForRefresh => Self::refreshed(pre, stored, now, post, step),
                Waiting::ListingForFiles => Self::files_searched(pre, stored, now, post, step),
                Waiting::ListingForContent => {
                    &&& post.file_searcher@ == stored
                    &&& Self::content_begun(
                        pre,
                        if pre.query@.text.len() == 0 {
                            Seq::empty()
                        } else {
                            snapshot.files
                        },
                        post,
                        step,
                    )
                },
                _ => {
                    &&& step is Idle
                    &&& post == (App { file_searcher: post.file_searcher, ..pre })
                    &&& post.file_searcher@ == stored
                },
            }
        }
    }

    /// Takes what a walk of the root directory found at `now`.
    pub fn listing_walked(&mut self, found: Vec<String>, now: u64) -> (step: Step)
        requires
            old(self).wf(),
        ensures
            final(self).wf(),
            Self::walked(*old(self), texts(found@), now as nat, *final(self), step),
    {
        let listing = self.file_searcher.store_listing(found, now);
        match self.waiting {
            Waiting::ListingForRefresh => self.refresh_files(now),
            Waiting::ListingForFiles => self.search_files(now),
            Waiting::ListingForContent => {
                let query = self.query.text();
                match self.file_searcher.search_content(query.as_str(), now) {
                    Lookup::Ready(job) => {
                        self.search_progress = progress_text(
                            "Searching content for '",
                            query.as_str(),
                        );
                        let step = self.advance(job);
                        proof {
                            if job.files().len() == 0 {
                                lemma_display_order_of_none(findings(self.matches.items()));
                            }
                        }
                        step
                    },
                    Lookup::NeedsListing => Step::Idle,
                }
            },
            _ => Step::Idle,
        }
    }

    /// What the results of a chunk of files do: nothing where no content
    /// search is under way.
    pub open spec fn chunk_taken(
        pre: App,
        results: Seq<Vec<SearchResult>>,
        post: App,
        step: Step,
    ) -> bool {
        match pre.job {
            Some(job) => Self::chunk_absorbed(pre, job, results, post, step),
            None => post == pre && step is Idle,
        }
    }

    /// Takes the results of the chunk of files that was handed out last,
    /// one list per file.
    pub fn chunk_read(&mut self, results: Vec<Vec<SearchResult>>) -> (step: Step)
        requires
            old(self).wf(),
        ensures
            final(self).wf(),
            Self::chunk_taken(*old(self), results@, *final(self), step),
    {
        if self.job.is_none() {
            return Step::Idle;
        }
        let mut job = self.job.take().unwrap();
        let ghost start = job.gathered();
        let mut i: usize = 0;
        assert(results@.take(0) =~= Seq::<Vec<SearchResult>>::empty());
        while i < results.len()
            invariant
                i <= results@.len(),
                job.wf(),
                job.files() == old(self).job->0.files(),
                job.handed_out() == old(self).job->0.handed_out(),
                job.gathered() == start + gathered_all(results@.take(i as int)),
            decreases results@.len() - i,
        {
            job.absorb_from(&results[i]);
            proof {
                assert(results@.take(i + 1).drop_last() =~= results@.take(i as int));
                assert(results@.take(i + 1).last() == results@[i as int]);
                assert(job.gathered() =~= start + gathered_all(results@.take(i + 1)));
            }
            i = i + 1;
        }
        assert(results@.take(i as int) =~= results@);
        self.advance(job)
    }

    /// The session as it starts at `now`: file mode, keys as commands, the
    /// given pattern as the query, empty result views, and the first file
    /// list awaited.
    pub fn new(directory: String, initial_pattern: Option<String>, now: u64) -> (app: Self)
        ensures
            app.wf(),
            app.mode == AppMode::FileBrowser,
            app.input_mode == InputMode::Normal,
            app.current_directory@ == directory@,
            app.query@ == (Line {
                text: match initial_pattern {
                    Some(pattern) => pattern@,
                    None => Seq::empty(),
                },
                cursor: 0,
            }),
            app.selection == Selection::top(),
            app.files.items().len() == 0,
            app.files.size() == DEFAULT_PAGE_SIZE,
            app.matches.items().len() == 0,
            app.matches.size() == DEFAULT_PAGE_SIZE,
            app.is_searching,
            app.search_progress@ == loading_text(),
            app.waiting == Waiting::ListingForRefresh,
            app.job is None,
            app.file_searcher@ == (Engine {
                root: directory@,
                snapshot: None,
                memo: Map::empty(),
                cache_duration: CACHE_DURATION_MS as nat,
            }),
            app.debounce@ == (Timer {
                last_edit: now as nat,
                armed: true,
                interval: DEBOUNCE_INTERVAL_MS as nat,
            }),
    {
        let query = match &initial_pattern {
            Some(pattern) => QueryLine::new(pattern.as_str()),
            None => QueryLine::new(""),
        };
        proof {
            reveal_strlit("");
            assert(""@ =~= Seq::<char>::empty());
        }
        App {
            mode: AppMode::FileBrowser,
            input_mode: InputMode::Normal,
            current_directory: directory.clone(),
            query,
            selection: Selection::new(),
            files: PageView::new(DEFAULT_PAGE_SIZE),
            matches: PageView::new(DEFAULT_PAGE_SIZE),
            is_searching: true,
            search_progress: String::from_str("Loading files..."),
            file_searcher: FileSearcher::new(directory),
            debounce: Debounce::new(now, DEBOUNCE_INTERVAL_MS),
            waiting: Waiting::ListingForRefresh,
            job: None,
        }
    }
}

} // verus!
