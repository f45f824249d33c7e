//! Fixed-size pages over an unbounded result list.

use vstd::prelude::*;
use crate::duplicate::Duplicate;

verus! {

/// Number of items shown per page unless the caller chooses otherwise.
pub const DEFAULT_PAGE_SIZE: usize = 1000;

/// Number of pages needed for `total` items: the quotient rounded up.
pub open spec fn page_count(total: int, page_size: int) -> int {
    if total <= 0 || page_size <= 0 {
        0
    } else {
        (total + page_size - 1) / page_size
    }
}

/// The page shown after a result list changed: the old page, pulled back
/// onto the last page when it fell off the end.
pub open spec fn clamp_page(page: int, pages: int) -> int {
    if pages <= 0 {
        0
    } else if page >= pages {
        pages - 1
    } else {
        page
    }
}

/// Index of the first item of `page`.
pub open spec fn page_start(page: int, page_size: int) -> int {
    page * page_size
}

/// Index one past the last item of `page`.
pub open spec fn page_end(page: int, page_size: int, total: int) -> int {
    if (page + 1) * page_size <= total {
        (page + 1) * page_size
    } else if page * page_size <= total {
        total
    } else {
        page * page_size
    }
}

/// Every item lies on exactly one page, and that page exists: page `p`
/// holds `item` exactly when `p` is the quotient of `item` by the page size.
pub proof fn lemma_item_on_one_page(total: int, page_size: int, item: int, p: int)
    requires
        page_size > 0,
        0 <= item < total,
    ensures
        (0 <= p < page_count(total, page_size) && page_start(p, page_size) <= item < page_end(
            p,
            page_size,
            total,
        )) <==> p == item / page_size,
{
    let q = item / page_size;
    assert(q * page_size <= item < (q + 1) * page_size && 0 <= q) by (nonlinear_arith)
        requires
            page_size > 0,
            0 <= item,
            q == item / page_size,
    ;
    lemma_page_count_bounds(total, page_size);
    let n = page_count(total, page_size);
    assert(q < n) by (nonlinear_arith)
        requires
            q * page_size <= item,
            item < total,
            total <= n * page_size,
            page_size > 0,
    ;
    if 0 <= p < n && page_start(p, page_size) <= item < page_end(p, page_size, total) {
        assert(p == q) by (nonlinear_arith)
            requires
                p * page_size <= item,
                item < (p + 1) * page_size,
                q * page_size <= item,
                item < (q + 1) * page_size,
                page_size > 0,
        ;
    }
}

/// The page count is the least number of pages that holds all items.
pub proof fn lemma_page_count_bounds(total: int, page_size: int)
    requires
        page_size > 0,
        0 <= total,
    ensures
        0 <= page_count(total, page_size),
        total <= page_count(total, page_size) * page_size,
        total > 0 ==> (page_count(total, page_size) - 1) * page_size < total,
        total == 0 <==> page_count(total, page_size) == 0,
{
    if total > 0 {
        let n = (total + page_size - 1) / page_size;
        assert(n * page_size <= total + page_size - 1 < (n + 1) * page_size) by (nonlinear_arith)
            requires
                page_size > 0,
                total > 0,
                n == (total + page_size - 1) / page_size,
        ;
        assert((n - 1) * page_size == n * page_size - page_size) by (nonlinear_arith);
        assert((n + 1) * page_size == n * page_size + page_size) by (nonlinear_arith);
        assert(n != 0) by (nonlinear_arith)
            requires
                total + page_size - 1 < (n + 1) * page_size,
                total > 0,
        ;
    }
}

/// Every page but the last is full, and the last page holds the rest: at
/// least one item and at most a page of them.
pub proof fn lemma_page_sizes(total: int, page_size: int, page: int)
    requires
        page_size > 0,
        0 <= page < page_count(total, page_size),
    ensures
        page + 1 < page_count(total, page_size) ==> page_end(page, page_size, total) - page_start(
            page,
            page_size,
        ) == page_size,
        page + 1 == page_count(total, page_size) ==> page_end(page, page_size, total)
            - page_start(page, page_size) == total - page * page_size,
        1 <= page_end(page, page_size, total) - page_start(page, page_size) <= page_size,
{
    lemma_page_count_bounds(total, page_size);
    let n = page_count(total, page_size);
    assert((page + 1) * page_size == page * page_size + page_size) by (nonlinear_arith);
    assert(page * page_size <= (n - 1) * page_size) by (nonlinear_arith)
        requires
            page <= n - 1,
            page_size > 0,
    ;
    if page + 1 < n {
        assert((page + 1) * page_size <= (n - 1) * page_size) by (nonlinear_arith)
            requires
                page + 1 <= n - 1,
                page_size > 0,
        ;
    } else {
        assert((n - 1) * page_size + page_size == n * page_size) by (nonlinear_arith);
    }
}

/// The full result list of one mode, cut into pages, with the page on show.
pub struct PageView<T> {
    all: Vec<T>,
    visible: Vec<T>,
    current_page: usize,
    page_size: usize,
    total_pages: usize,
}

impl<T: Duplicate> PageView<T> {
    /// The whole result list.
    pub closed spec fn items(&self) -> Seq<T> {
        self.all@
    }

    /// The slice of the result list that is on show.
    pub closed spec fn shown(&self) -> Seq<T> {
        self.visible@
    }

    /// Zero-based index of the page on show.
    pub closed spec fn page(&self) -> int {
        self.current_page as int
    }

    /// Items per page.
    pub closed spec fn size(&self) -> int {
        self.page_size as int
    }

    /// Number of pages.
    pub closed spec fn pages(&self) -> int {
        self.total_pages as int
    }

    /// The page size is positive, the page count is the rounded-up
    /// quotient, the page on show is none before the first and exists (or
    /// is 0 when there is none), and the visible slice is that page's
    /// window of the result list.
    pub open spec fn wf(&self) -> bool {
        &&& self.size() > 0
        &&& self.page() >= 0
        &&& self.pages() == page_count(self.items().len() as int, self.size())
        &&& self.page() == clamp_page(self.page(), self.pages())
        &&& self.shown() == self.items().subrange(
            page_start(self.page(), self.size()),
            page_end(self.page(), self.size(), self.items().len() as int),
        )
    }

    /// An empty view with the given page size.
    pub fn new(page_size: usize) -> (view: Self)
        requires
            page_size > 0,
        ensures
            view.wf(),
            view.items() == Seq::<T>::empty(),
            view.size() == page_size,
            view.page() == 0,
    {
        let view = PageView {
            all: Vec::new(),
            visible: Vec::new(),
            current_page: 0,
            page_size,
            total_pages: 0,
        };
        assert(view.visible@ =~= view.all@.subrange(0, 0));
        view
    }

    /// Replaces the result list, keeping the page where it still exists.
    pub fn set_results(&mut self, all: Vec<T>)
        requires
            old(self).wf(),
        ensures
            final(self).wf(),
            final(self).items() == all@,
            final(self).size() == old(self).size(),
            final(self).page() == clamp_page(
                old(self).page(),
                page_count(all@.len() as int, old(self).size()),
            ),
    {
        let total = all.len();
        let pages = pages_needed(total, self.page_size);
        self.all = all;
        self.total_pages = pages;
        if pages == 0 {
            self.current_page = 0;
        } else if self.current_page >= pages {
            self.current_page = pages - 1;
        }
        self.refresh_visible();
    }

    /// Moves one page forward; at the last page nothing changes. Returns
    /// whether the page changed.
    pub fn next_page(&mut self) -> (moved: bool)
        requires
            old(self).wf(),
        ensures
            final(self).wf(),
            final(self).items() == old(self).items(),
            final(self).size() == old(self).size(),
            moved == (old(self).page() + 1 < old(self).pages()),
            final(self).page() == if moved {
                old(self).page() + 1
            } else {
                old(self).page()
            },
    {
        if self.total_pages > 0 && self.current_page < self.total_pages - 1 {
            self.current_page = self.current_page + 1;
            self.refresh_visible();
            true
        } else {
            false
        }
    }

    /// Moves one page back; at the first page nothing changes. Returns
    /// whether the page changed.
    pub fn prev_page(&mut self) -> (moved: bool)
        requires
            old(self).wf(),
        ensures
            final(self).wf(),
            final(self).items() == old(self).items(),
            final(self).size() == old(self).size(),
            moved == (old(self).page() > 0),
            final(self).page() == if moved {
                old(self).page() - 1
            } else {
                old(self).page()
            },
    {
        if self.current_page > 0 {
            self.current_page = self.current_page - 1;
            self.refresh_visible();
            true
        } else {
            false
        }
    }

    /// Shows the first page; with no pages nothing changes. Returns whether
    /// there is a page to show.
    pub fn first_page(&mut self) -> (moved: bool)
        requires
            old(self).wf(),
        ensures
            final(self).wf(),
            final(self).items() == old(self).items(),
            final(self).size() == old(self).size(),
            moved == (old(self).pages() > 0),
            final(self).page() == 0,
    {
        if self.total_pages > 0 {
            self.current_page = 0;
            self.refresh_visible();
            true
        } else {
            false
        }
    }

    /// Shows the last page; with no pages nothing changes. Returns whether
    /// there is a page to show.
    pub fn last_page(&mut self) -> (moved: bool)
        requires
            old(self).wf(),
        ensures
            final(self).wf(),
            final(self).items() == old(self).items(),
            final(self).size() == old(self).size(),
            moved == (old(self).pages() > 0),
            final(self).page() == if moved {
                old(self).pages() - 1
            } else {
                0
            },
    {
        if self.total_pages > 0 {
            self.current_page = self.total_pages - 1;
            self.refresh_visible();
            true
        } else {
            false
        }
    }

    /// The items on show.
    pub fn visible(&self) -> (shown: &Vec<T>)
        ensures
            shown@ == self.shown(),
    {
        &self.visible
    }

    /// The whole result list.
    pub fn all(&self) -> (items: &Vec<T>)
        ensures
            items@ == self.items(),
    {
        &self.all
    }

    /// Number of items in the whole result list.
    pub fn total_items(&self) -> (n: usize)
        ensures
            n == self.items().len(),
    {
        self.all.len()
    }

    /// Zero-based index of the page on show.
    pub fn current_page(&self) -> (p: usize)
        ensures
            p == self.page(),
    {
        self.current_page
    }

    /// Items per page.
    pub fn page_size(&self) -> (n: usize)
        ensures
            n == self.size(),
    {
        self.page_size
    }

    /// Number of pages.
    pub fn total_pages(&self) -> (n: usize)
        ensures
            n == self.pages(),
    {
        self.total_pages
    }

    /// The window of the page on show: the index of its first item and the
    /// index one past its last.
    pub fn window(&self) -> (bounds: (usize, usize))
        requires
            self.wf(),
        ensures
            bounds.0 == page_start(self.page(), self.size()),
            bounds.1 == page_end(self.page(), self.size(), self.items().len() as int),
            bounds.0 <= bounds.1 <= self.items().len(),
            bounds.1 - bounds.0 == self.shown().len(),
            self.pages() > 0 ==> bounds.0 < bounds.1,
    {
        let total = self.all.len();
        proof {
            lemma_page_count_bounds(total as int, self.page_size as int);
            lemma_window_in_range(total as int, self.page_size as int, self.current_page as int);
        }
        let start = self.current_page * self.page_size;
        let end = if total - start > self.page_size {
            start + self.page_size
        } else {
            total
        };
        assert(end == page_end(self.page(), self.size(), total as int)) by (nonlinear_arith)
            requires
                start == self.current_page * self.page_size,
                start <= total,
                end == if total - start > self.page_size {
                    start + self.page_size
                } else {
                    total as int
                },
        ;
        (start, end)
    }

    /// Rebuilds the visible slice from the page on show.
    fn refresh_visible(&mut self)
        requires
            old(self).page_size > 0,
            old(self).total_pages == page_count(old(self).all@.len() as int, old(self).size()),
            old(self).page() == clamp_page(old(self).page(), old(self).pages()),
        ensures
            final(self).wf(),
            final(self).all == old(self).all,
            final(self).current_page == old(self).current_page,
            final(self).page_size == old(self).page_size,
            final(self).total_pages == old(self).total_pages,
    {
        let total = self.all.len();
        proof {
            lemma_page_count_bounds(total as int, self.page_size as int);
            lemma_window_in_range(total as int, self.page_size as int, self.current_page as int);
        }
        let start = self.current_page * self.page_size;
        let end = if total - start > self.page_size {
            start + self.page_size
        } else {
            total
        };
        assert(end == page_end(self.page(), self.size(), total as int)) by (nonlinear_arith)
            requires
                start == self.current_page * self.page_size,
                start <= total,
                end == if total - start > self.page_size {
                    start + self.page_size
                } else {
                    total as int
                },
        ;
        let mut shown: Vec<T> = Vec::new();
        let mut i: usize = start;
        while i < end
            invariant
                start <= i <= end <= total,
                total == self.all@.len(),
                shown@ == self.all@.subrange(start as int, i as int),
            decreases end - i,
        {
            shown.push(self.all[i].duplicate());
            assert(shown@ =~= self.all@.subrange(start as int, i + 1));
            i = i + 1;
        }
        self.visible = shown;
    }
}

/// Number of pages for `total` items, computed without overflow.
pub fn pages_needed(total: usize, page_size: usize) -> (pages: usize)
    requires
        page_size > 0,
    ensures
        pages == page_count(total as int, page_size as int),
{
    let whole = total / page_size;
    let rest = total % page_size;
    proof {
        lemma_page_count_split(total as int, page_size as int);
    }
    if rest == 0 {
        whole
    } else {
        whole + 1
    }
}

/// The rounded-up quotient is the quotient, plus one where a remainder is left.
proof fn lemma_page_count_split(total: int, page_size: int)
    requires
        page_size > 0,
        0 <= total,
    ensures
        page_count(total, page_size) == total / page_size + if total % page_size == 0 {
            0int
        } else {
            1int
        },
        total / page_size <= total,
        total % page_size != 0 ==> total / page_size < total,
{
    let q = total / page_size;
    let r = total % page_size;
    assert(total == q * page_size + r && 0 <= r < page_size && 0 <= q && q <= total
        && (r != 0 ==> q < total)) by (nonlinear_arith)
        requires
            page_size > 0,
            0 <= total,
            q == total / page_size,
            r == total % page_size,
    ;
    if total > 0 {
        let n = (total + page_size - 1) / page_size;
        let k = if r == 0 { q } else { q + 1 };
        assert(n == k) by (nonlinear_arith)
            requires
                total == q * page_size + r,
                0 <= r < page_size,
                n == (total + page_size - 1) / page_size,
                k == if r == 0 { q } else { q + 1 },
                page_size > 0,
        ;
    }
}

/// The window of an existing page starts inside the result list.
proof fn lemma_window_in_range(total: int, page_size: int, page: int)
    requires
        page_size > 0,
        0 <= total,
        0 <= page,
        page == clamp_page(page, page_count(total, page_size)),
    ensures
        0 <= page * page_size <= total,
        total > 0 ==> page * page_size < total,
{
    lemma_page_count_bounds(total, page_size);
    let n = page_count(total, page_size);
    if n > 0 {
        assert(page * page_size <= (n - 1) * page_size && 0 <= page * page_size)
            by (nonlinear_arith)
            requires
                0 <= page <= n - 1,
                page_size > 0,
        ;
    } else {
        assert(page * page_size == 0) by (nonlinear_arith)
            requires
                page == 0,
        ;
    }
}

} // verus!
