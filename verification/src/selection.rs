//! The selected row of the visible page, and the first row on screen.

use vstd::prelude::*;

verus! {

/// Rows that fit on the screen.
pub const VISIBLE_ITEMS: usize = 25;

/// Rows that a page key moves the selection by.
pub const PAGE_JUMP: usize = 20;

/// The selected row and the first row on screen.
#[derive(Debug, Clone, Copy, PartialEq, Eq, Structural)]
pub struct Selection {
    pub selected_index: usize,
    pub scroll_offset: usize,
}

impl Selection {
    /// The first row on screen once `selected` is brought into view: the
    /// screen moves up to a row above it, and down just far enough for a
    /// row below it.
    pub open spec fn scrolled(selected: usize, scroll: usize) -> usize {
        if selected < scroll {
            selected
        } else if selected - scroll >= VISIBLE_ITEMS {
            (selected - (VISIBLE_ITEMS - 1)) as usize
        } else {
            scroll
        }
    }

    /// The selection moved to `selected`, with the screen following.
    pub open spec fn moved_to(self, selected: usize) -> Selection {
        Selection {
            selected_index: selected,
            scroll_offset: Self::scrolled(selected, self.scroll_offset),
        }
    }

    /// The selection at the top.
    pub open spec fn top() -> Selection {
        Selection { selected_index: 0, scroll_offset: 0 }
    }

    /// One row up, unless at the first row.
    pub open spec fn after_up(self) -> Selection {
        if self.selected_index > 0 {
            self.moved_to((self.selected_index - 1) as usize)
        } else {
            self
        }
    }

    /// One row down, unless at the last of `count` rows.
    pub open spec fn after_down(self, count: usize) -> Selection {
        if self.selected_index + 1 < count {
            self.moved_to((self.selected_index + 1) as usize)
        } else {
            self
        }
    }

    /// A page jump up, stopping at the first row.
    pub open spec fn after_page_up(self) -> Selection {
        self.moved_to(
            if self.selected_index >= PAGE_JUMP {
                (self.selected_index - PAGE_JUMP) as usize
            } else {
                0
            },
        )
    }

    /// The last of `count` rows; row 0 where there is none.
    pub open spec fn last_row(count: usize) -> usize {
        if count > 0 {
            (count - 1) as usize
        } else {
            0
        }
    }

    /// A page jump down, stopping at the last of `count` rows.
    pub open spec fn after_page_down(self, count: usize) -> Selection {
        self.moved_to(
            if self.selected_index + PAGE_JUMP < Self::last_row(count) {
                (self.selected_index + PAGE_JUMP) as usize
            } else {
                Self::last_row(count)
            },
        )
    }

    /// The last of `count` rows.
    pub open spec fn after_end(self, count: usize) -> Selection {
        self.moved_to(Self::last_row(count))
    }

    /// The selection at the top.
    pub fn new() -> (selection: Self)
        ensures
            selection == Self::top(),
    {
        Selection { selected_index: 0, scroll_offset: 0 }
    }

    /// Puts the selection and the screen at the top.
    pub fn reset(&mut self)
        ensures
            *final(self) == Self::top(),
    {
        self.selected_index = 0;
        self.scroll_offset = 0;
    }

    /// Brings the selected row into view.
    fn adjust_scroll(&mut self)
        ensures
            *final(self) == old(self).moved_to(old(self).selected_index),
    {
        if self.selected_index < self.scroll_offset {
            self.scroll_offset = self.selected_index;
        } else if self.selected_index - self.scroll_offset >= VISIBLE_ITEMS {
            self.scroll_offset = self.selected_index - (VISIBLE_ITEMS - 1);
        }
    }

    /// Moves one row up.
    pub fn up(&mut self)
        ensures
            *final(self) == old(self).after_up(),
    {
        if self.selected_index > 0 {
            self.selected_index = self.selected_index - 1;
            self.adjust_scroll();
        }
    }

    /// Moves one row down among `count` rows.
    pub fn down(&mut self, count: usize)
        ensures
            *final(self) == old(self).after_down(count),
    {
        if self.selected_index < count && self.selected_index + 1 < count {
            self.selected_index = self.selected_index + 1;
            self.adjust_scroll();
        }
    }

    /// Jumps a page up.
    pub fn page_up(&mut self)
        ensures
            *final(self) == old(self).after_page_up(),
    {
        self.selected_index = if self.selected_index >= PAGE_JUMP {
            self.selected_index - PAGE_JUMP
        } else {
            0
        };
        self.adjust_scroll();
    }

    /// Jumps a page down among `count` rows.
    pub fn page_down(&mut self, count: usize)
        ensures
            *final(self) == old(self).after_page_down(count),
    {
        let last = if count > 0 {
            count - 1
        } else {
            0
        };
        self.selected_index = if self.selected_index < last && last - self.selected_index
            > PAGE_JUMP {
            self.selected_index + PAGE_JUMP
        } else {
            last
        };
        self.adjust_scroll();
    }

    /// Moves to the first row.
    pub fn home(&mut self)
        ensures
            *final(self) == Self::top(),
    {
        self.reset();
    }

    /// Moves to the last of `count` rows.
    pub fn end(&mut self, count: usize)
        ensures
            *final(self) == old(self).after_end(count),
    {
        self.selected_index = if count > 0 {
            count - 1
        } else {
            0
        };
        self.adjust_scroll();
    }
}

} // verus!
