//! Pane focus, screen rectangles and the split-handle arithmetic used for
//! mouse-driven resizing. Rectangles are the plain model of what the drawing
//! layer last rendered; hit testing happens here, over plain values.

use vstd::prelude::*;

verus! {

/// Which pane is currently focused.
#[derive(Debug, Clone, Copy, PartialEq, Eq, Structural)]
pub enum Focus {
    List,
    Detail,
}

/// A rectangle on the terminal grid.
#[derive(Debug, Clone, Copy, PartialEq, Eq, Structural)]
pub struct Rect {
    pub x: u16,
    pub y: u16,
    pub width: u16,
    pub height: u16,
}

/// Addition clamped to the u16 range.
pub open spec fn sat_add16(a: int, b: int) -> int {
    if a + b > 65535 {
        65535
    } else {
        a + b
    }
}

/// Subtraction clamped at zero.
pub open spec fn sat_sub16(a: int, b: int) -> int {
    if a - b < 0 {
        0
    } else {
        a - b
    }
}

impl Rect {
    /// An empty rectangle at the origin.
    pub fn zero() -> (r: Rect)
        ensures
            r == (Rect { x: 0u16, y: 0u16, width: 0u16, height: 0u16 }),
    {
        Rect { x: 0, y: 0, width: 0, height: 0 }
    }

    /// The point lies inside the rectangle.
    pub open spec fn contains_spec(self, px: int, py: int) -> bool {
        self.x <= px < self.x + self.width && self.y <= py < self.y + self.height
    }

    /// Exec hit test matching `contains_spec`.
    pub fn contains(&self, px: u16, py: u16) -> (r: bool)
        ensures
            r == self.contains_spec(px as int, py as int),
    {
        px >= self.x && (px as u32) < (self.x as u32) + (self.width as u32) && py >= self.y && (
        py as u32) < (self.y as u32) + (self.height as u32)
    }
}

/// Both panes are visible, so the split can be resized.
pub open spec fn split_resizable_spec(list: Rect, detail: Rect) -> bool {
    list.width > 0 && detail.width > 0
}

/// Exec test matching `split_resizable_spec`.
pub fn split_resizable(list: Rect, detail: Rect) -> (r: bool)
    ensures
        r == split_resizable_spec(list, detail),
{
    list.width > 0 && detail.width > 0
}

/// The point lies on the border column between the two panes.
pub open spec fn on_split_handle_spec(list: Rect, detail: Rect, x: int, y: int) -> bool {
    if !split_resizable_spec(list, detail) {
        false
    } else {
        let top = if list.y <= detail.y {
            list.y as int
        } else {
            detail.y as int
        };
        let list_bottom = sat_add16(list.y as int, list.height as int);
        let detail_bottom = sat_add16(detail.y as int, detail.height as int);
        let bottom = if list_bottom >= detail_bottom {
            list_bottom
        } else {
            detail_bottom
        };
        if y < top || y >= bottom {
            false
        } else {
            let list_right = sat_add16(list.x as int, sat_sub16(list.width as int, 1));
            x == list_right || x == detail.x as int
        }
    }
}

/// Exec test matching `on_split_handle_spec`.
pub fn on_split_handle(list: Rect, detail: Rect, x: u16, y: u16) -> (r: bool)
    ensures
        r == on_split_handle_spec(list, detail, x as int, y as int),
{
    if !split_resizable(list, detail) {
        return false;
    }
    let top = if list.y <= detail.y {
        list.y
    } else {
        detail.y
    };
    let list_bottom = if list.y as u32 + list.height as u32 > 65535 {
        65535u16
    } else {
        list.y + list.height
    };
    let detail_bottom = if detail.y as u32 + detail.height as u32 > 65535 {
        65535u16
    } else {
        detail.y + detail.height
    };
    let bottom = if list_bottom >= detail_bottom {
        list_bottom
    } else {
        detail_bottom
    };
    if y < top || y >= bottom {
        return false;
    }
    let lw1 = if list.width >= 1 {
        list.width - 1
    } else {
        0
    };
    let list_right = if list.x as u32 + lw1 as u32 > 65535 {
        65535u16
    } else {
        list.x + lw1
    };
    x == list_right || x == detail.x
}

/// Lowest split percentage the panes may take.
pub const MIN_SPLIT_PERCENT: u16 = 20;

/// Highest split percentage the panes may take.
pub const MAX_SPLIT_PERCENT: u16 = 80;

/// The new split percentage a drag to column `x` asks for, clamped to the
/// allowed band; `None` when the panes cannot be resized.
pub open spec fn split_from_mouse_spec(list: Rect, detail: Rect, x: int) -> Option<u16> {
    if !split_resizable_spec(list, detail) {
        None
    } else {
        let content_left = list.x as int;
        let total = sat_add16(list.width as int, detail.width as int);
        if total == 0 {
            None
        } else {
            let content_right = sat_add16(content_left, sat_sub16(total, 1));
            let clamped_x = if x < content_left {
                content_left
            } else if x > content_right {
                content_right
            } else {
                x
            };
            let left_width = sat_add16(sat_sub16(clamped_x, content_left), 1);
            let raw = (left_width * 100) / total;
            let clamped = if raw < MIN_SPLIT_PERCENT as int {
                MIN_SPLIT_PERCENT as int
            } else if raw > MAX_SPLIT_PERCENT as int {
                MAX_SPLIT_PERCENT as int
            } else {
                raw
            };
            Some(clamped as u16)
        }
    }
}

/// Exec computation matching `split_from_mouse_spec`.
pub fn split_from_mouse(list: Rect, detail: Rect, x: u16) -> (r: Option<u16>)
    ensures
        r == split_from_mouse_spec(list, detail, x as int),
{
    if !split_resizable(list, detail) {
        return None;
    }
    let content_left = list.x;
    let total: u16 = if list.width as u32 + detail.width as u32 > 65535 {
        65535u16
    } else {
        list.width + detail.width
    };
    if total == 0 {
        return None;
    }
    let tm1 = total - 1;
    let content_right: u16 = if content_left as u32 + tm1 as u32 > 65535 {
        65535u16
    } else {
        content_left + tm1
    };
    let clamped_x = if x < content_left {
        content_left
    } else if x > content_right {
        content_right
    } else {
        x
    };
    let lw0 = clamped_x - content_left;
    let left_width: u16 = if lw0 as u32 + 1 > 65535 {
        65535u16
    } else {
        lw0 + 1
    };
    let raw32: u32 = (left_width as u32 * 100) / (total as u32);
    let raw: u16 = if raw32 > 65535 {
        65535u16
    } else {
        raw32 as u16
    };
    let clamped = if raw < MIN_SPLIT_PERCENT {
        MIN_SPLIT_PERCENT
    } else if raw > MAX_SPLIT_PERCENT {
        MAX_SPLIT_PERCENT
    } else {
        raw
    };
    Some(clamped)
}

} // verus!
