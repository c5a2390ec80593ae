//! Selection state for the bead list: an index into the current display
//! order, moved by wrapping navigation, always guarded by the caller-supplied
//! list length.

use vstd::prelude::*;

verus! {

/// State of the list selection.
pub struct BeadListState {
    selected: Option<usize>,
}

impl BeadListState {
    /// The selected row, if any.
    pub closed spec fn sel(self) -> Option<usize> {
        self.selected
    }

    /// A fresh state with the first row selected.
    pub fn new() -> (r: Self)
        ensures
            r.sel() == Some(0usize),
    {
        BeadListState { selected: Some(0) }
    }

    /// The selected row, if any.
    pub fn selected(&self) -> (r: Option<usize>)
        ensures
            r == self.sel(),
    {
        self.selected
    }

    /// Set the selection directly.
    pub fn select(&mut self, index: Option<usize>)
        ensures
            final(self).sel() == index,
    {
        self.selected = index;
    }

    /// Move down one row, wrapping to the top; a no-op on an empty list.
    pub fn next(&mut self, len: usize)
        ensures
            len == 0 ==> *final(self) == *old(self),
            len > 0 ==> final(self).sel() == Some(
                match old(self).sel() {
                    Some(i) => if i >= len - 1 {
                        0usize
                    } else {
                        (i + 1) as usize
                    },
                    None => 0usize,
                },
            ),
    {
        if len == 0 {
            return;
        }
        let i = match self.selected {
            Some(i) => if i >= len - 1 {
                0
            } else {
                i + 1
            },
            None => 0,
        };
        self.selected = Some(i);
    }

    /// Move up one row, wrapping to the bottom; a no-op on an empty list.
    pub fn previous(&mut self, len: usize)
        ensures
            len == 0 ==> *final(self) == *old(self),
            len > 0 ==> final(self).sel() == Some(
                match old(self).sel() {
                    Some(i) => if i == 0 {
                        (len - 1) as usize
                    } else {
                        (i - 1) as usize
                    },
                    None => 0usize,
                },
            ),
    {
        if len == 0 {
            return;
        }
        let i = match self.selected {
            Some(i) => if i == 0 {
                len - 1
            } else {
                i - 1
            },
            None => 0,
        };
        self.selected = Some(i);
    }

    /// Select the first row.
    pub fn first(&mut self)
        ensures
            final(self).sel() == Some(0usize),
    {
        self.selected = Some(0);
    }

    /// Select the last row; a no-op on an empty list.
    pub fn last(&mut self, len: usize)
        ensures
            len == 0 ==> *final(self) == *old(self),
            len > 0 ==> final(self).sel() == Some((len - 1) as usize),
    {
        if len > 0 {
            self.selected = Some(len - 1);
        }
    }
}

} // verus!
