use beads_tui::detail::DetailState;
use beads_tui::layout::{on_split_handle, split_from_mouse, split_resizable, Rect};
use beads_tui::list::BeadListState;
use beads_tui::text::{str_contains, str_eq, str_lt, to_lower, u8_to_string};

#[test]
fn decimal_rendering_covers_all_widths() {
    assert_eq!(u8_to_string(0), "0");
    assert_eq!(u8_to_string(7), "7");
    assert_eq!(u8_to_string(42), "42");
    assert_eq!(u8_to_string(255), "255");
}

#[test]
fn string_helpers_behave() {
    assert!(str_eq("caf\u{e9}", "caf\u{e9}"));
    assert!(!str_eq("a", "ab"));
    assert!(str_contains("hello world", "lo wo"));
    assert!(str_contains("anything", ""));
    assert!(!str_contains("short", "longer than it"));
    assert!(str_lt("abc", "abd"));
    assert!(str_lt("ab", "abc"));
    assert!(!str_lt("abc", "abc"));
    assert_eq!(to_lower("MiXeD \u{c9}"), "mixed \u{e9}");
}

#[test]
fn list_state_wraps_and_clamps() {
    let mut s = BeadListState::new();
    assert_eq!(s.selected(), Some(0));
    s.next(3);
    s.next(3);
    assert_eq!(s.selected(), Some(2));
    s.next(3);
    assert_eq!(s.selected(), Some(0));
    s.previous(3);
    assert_eq!(s.selected(), Some(2));
    s.first();
    assert_eq!(s.selected(), Some(0));
    s.last(3);
    assert_eq!(s.selected(), Some(2));
    // an empty list leaves the selection untouched
    s.next(0);
    assert_eq!(s.selected(), Some(2));
    s.select(None);
    s.previous(5);
    assert_eq!(s.selected(), Some(0));
}

#[test]
fn detail_scroll_stays_within_content() {
    let mut d = DetailState::new();
    d.set_extents(30, 10);
    d.scroll_down(5);
    assert_eq!(d.scroll(), 5);
    d.scroll_down(10000);
    assert_eq!(d.scroll(), 20);
    d.scroll_up(3);
    assert_eq!(d.scroll(), 17);
    d.reset();
    assert_eq!(d.scroll(), 0);
    d.scroll_up(4);
    assert_eq!(d.scroll(), 0);
}

#[test]
fn rect_hit_testing() {
    let r = Rect { x: 10, y: 5, width: 20, height: 4 };
    assert!(r.contains(10, 5));
    assert!(r.contains(29, 8));
    assert!(!r.contains(30, 8));
    assert!(!r.contains(15, 9));
}

#[test]
fn split_handle_and_drag_percentages() {
    let list = Rect { x: 0, y: 0, width: 40, height: 20 };
    let detail = Rect { x: 40, y: 0, width: 60, height: 20 };
    assert!(split_resizable(list, detail));
    assert!(on_split_handle(list, detail, 39, 3));
    assert!(on_split_handle(list, detail, 40, 3));
    assert!(!on_split_handle(list, detail, 41, 3));
    assert!(!on_split_handle(list, detail, 39, 25));
    // drag to the middle: half of the total width
    assert_eq!(split_from_mouse(list, detail, 49), Some(50));
    // drags past the edges clamp to the allowed band
    assert_eq!(split_from_mouse(list, detail, 0), Some(20));
    assert_eq!(split_from_mouse(list, detail, 99), Some(80));
    let hidden = Rect { x: 0, y: 0, width: 0, height: 0 };
    assert_eq!(split_from_mouse(hidden, detail, 10), None);
}
