//! Scroll state for the detail panel: a vertical offset clamped to the
//! rendered content, with the extents reported back after each draw.

use vstd::prelude::*;

verus! {

/// State of the detail panel scroll position.
pub struct DetailState {
    scroll: u16,
    content_height: u16,
    viewport_height: u16,
}

impl DetailState {
    /// The current scroll offset.
    pub closed spec fn scroll_spec(self) -> int {
        self.scroll as int
    }

    /// The furthest the panel may scroll: content beyond the viewport.
    pub closed spec fn max_scroll(self) -> int {
        if self.content_height >= self.viewport_height {
            self.content_height - self.viewport_height
        } else {
            0
        }
    }

    /// A fresh state scrolled to the top.
    pub fn new() -> (r: Self)
        ensures
            r.scroll_spec() == 0,
            r.max_scroll() == 0,
    {
        DetailState { scroll: 0, content_height: 0, viewport_height: 0 }
    }

    /// Scroll up by `n` lines, stopping at the top.
    pub fn scroll_up(&mut self, n: u16)
        ensures
            final(self).scroll_spec() == (if old(self).scroll_spec() - n >= 0 {
                old(self).scroll_spec() - n
            } else {
                0int
            }),
            final(self).max_scroll() == old(self).max_scroll(),
    {
        self.scroll = if self.scroll >= n {
            self.scroll - n
        } else {
            0
        };
    }

    /// Scroll down by `n` lines, stopping at the end of the content.
    pub fn scroll_down(&mut self, n: u16)
        ensures
            final(self).scroll_spec() == (if old(self).scroll_spec() + n <= old(self).max_scroll() {
                old(self).scroll_spec() + n
            } else {
                old(self).max_scroll()
            }),
            final(self).max_scroll() == old(self).max_scroll(),
    {
        let max_scroll = if self.content_height >= self.viewport_height {
            self.content_height - self.viewport_height
        } else {
            0
        };
        let bumped: u16 = if self.scroll as u32 + n as u32 > 65535 {
            65535
        } else {
            self.scroll + n
        };
        self.scroll = if bumped <= max_scroll {
            bumped
        } else {
            max_scroll
        };
    }

    /// Scroll back to the top.
    pub fn reset(&mut self)
        ensures
            final(self).scroll_spec() == 0,
            final(self).max_scroll() == old(self).max_scroll(),
    {
        self.scroll = 0;
    }

    /// The current scroll offset.
    pub fn scroll(&self) -> (r: u16)
        ensures
            r == self.scroll_spec(),
    {
        self.scroll
    }

    /// Record the content and viewport heights the drawing layer measured.
    pub fn set_extents(&mut self, content_height: u16, viewport_height: u16)
        ensures
            final(self).scroll_spec() == old(self).scroll_spec(),
            final(self).max_scroll() == (if content_height >= viewport_height {
                content_height - viewport_height
            } else {
                0int
            }),
    {
        self.content_height = content_height;
        self.viewport_height = viewport_height;
    }
}

} // verus!
