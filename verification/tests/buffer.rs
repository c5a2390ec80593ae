use beads_tui::input::TextInput;
use beads_tui::keys::{KeyCode, KeyEvent};

fn key(code: KeyCode) -> KeyEvent {
    KeyEvent::plain(code)
}

#[test]
fn test_insert() {
    let mut input = TextInput::new();
    input.handle_key(key(KeyCode::Char('h')));
    input.handle_key(key(KeyCode::Char('i')));
    assert_eq!(input.text(), "hi");
    assert_eq!(input.cursor(), 2);
}

#[test]
fn test_ctrl_a_e() {
    let mut input = TextInput::with_text("hello");
    assert_eq!(input.cursor(), 5);

    input.handle_key(KeyEvent::ctrl('a'));
    assert_eq!(input.cursor(), 0);

    input.handle_key(KeyEvent::ctrl('e'));
    assert_eq!(input.cursor(), 5);
}

#[test]
fn test_ctrl_w() {
    let mut input = TextInput::with_text("hello world");
    input.handle_key(KeyEvent::ctrl('w'));
    assert_eq!(input.text(), "hello ");
}

#[test]
fn test_backspace() {
    let mut input = TextInput::with_text("hello");
    input.handle_key(key(KeyCode::Backspace));
    assert_eq!(input.text(), "hell");
}

#[test]
fn test_move_word() {
    let mut input = TextInput::with_text("hello world");
    input.handle_key(key(KeyCode::Home));
    assert_eq!(input.cursor(), 0);

    input.handle_key(KeyEvent::alt('f'));
    assert_eq!(input.cursor(), 6); // after "hello "

    input.handle_key(KeyEvent::alt('b'));
    assert_eq!(input.cursor(), 0);
}

#[test]
fn multibyte_editing_keeps_cursor_on_boundaries() {
    let mut input = TextInput::with_text("caf\u{e9} \u{65e5}\u{672c}");
    // cursor counts characters, not bytes
    assert_eq!(input.cursor(), 7);
    input.handle_key(key(KeyCode::Left));
    input.handle_key(key(KeyCode::Left));
    assert_eq!(input.cursor(), 5);
    input.handle_key(key(KeyCode::Delete));
    assert_eq!(input.text(), "caf\u{e9} \u{672c}");
    input.handle_key(key(KeyCode::Backspace));
    assert_eq!(input.text(), "caf\u{e9}\u{672c}");
    assert_eq!(input.cursor(), 4);
    input.insert_char('\u{f6}');
    assert_eq!(input.text(), "caf\u{e9}\u{f6}\u{672c}");
    assert_eq!(input.cursor(), 5);
    // hammer the boundaries: cursor never exceeds the length
    for _ in 0..20 {
        input.handle_key(key(KeyCode::Right));
    }
    assert_eq!(input.cursor(), 6);
    for _ in 0..20 {
        input.handle_key(key(KeyCode::Left));
    }
    assert_eq!(input.cursor(), 0);
    input.handle_key(key(KeyCode::Backspace));
    assert_eq!(input.text(), "caf\u{e9}\u{f6}\u{672c}");
}

#[test]
fn word_motion_over_multibyte_text() {
    let mut input = TextInput::with_text("\u{3053}\u{3093} caf\u{e9}");
    input.handle_key(key(KeyCode::Home));
    input.handle_key(KeyEvent::alt('f'));
    assert_eq!(input.cursor(), 3);
    input.handle_key(KeyEvent::alt('f'));
    assert_eq!(input.cursor(), 7);
    input.handle_key(KeyEvent::ctrl('w'));
    assert_eq!(input.text(), "\u{3053}\u{3093} ");
}

#[test]
fn line_navigation_preserves_column() {
    let mut input = TextInput::with_text("alpha\nbe\ngamma");
    // cursor at end ("gamma" end, column 5)
    input.handle_key(key(KeyCode::Up));
    // previous line "be" is shorter: clamps to its end
    assert_eq!(input.cursor(), 8); // after "alpha\nbe"
    input.handle_key(key(KeyCode::Up));
    assert_eq!(input.cursor(), 2); // "al|pha": column 2 kept
    input.handle_key(key(KeyCode::Down));
    assert_eq!(input.cursor(), 8);
    input.handle_key(KeyEvent::ctrl('a'));
    assert_eq!(input.cursor(), 6);
    input.handle_key(KeyEvent::ctrl('e'));
    assert_eq!(input.cursor(), 8);
}

#[test]
fn kill_to_start_and_end() {
    let mut input = TextInput::with_text("hello world");
    for _ in 0..5 {
        input.handle_key(key(KeyCode::Left));
    }
    input.handle_key(KeyEvent::ctrl('k'));
    assert_eq!(input.text(), "hello ");
    let mut input2 = TextInput::with_text("hello world");
    for _ in 0..5 {
        input2.handle_key(key(KeyCode::Left));
    }
    input2.handle_key(KeyEvent::ctrl('u'));
    assert_eq!(input2.text(), "world");
    assert_eq!(input2.cursor(), 0);
}

#[test]
fn clear_and_insert_str() {
    let mut input = TextInput::with_text("abc");
    input.clear();
    assert!(input.is_empty());
    input.insert_str("xy");
    input.handle_key(key(KeyCode::Left));
    input.insert_str("12");
    assert_eq!(input.text(), "x12y");
    assert_eq!(input.cursor(), 3);
}
