use beads_tui::app::{App, AppAction, InputMode};
use beads_tui::bead::{Bead, BeadStatus};
use beads_tui::keys::{KeyCode, KeyEvent, MouseEvent, MouseKind};
use beads_tui::layout::{Focus, Rect};

fn mk_flow_bead(id: &str, title: &str, status: BeadStatus, priority: u8) -> Bead {
    let mut b = Bead::default();
    b.id = id.to_string();
    b.title = title.to_string();
    b.status = status;
    b.priority = priority;
    b
}

fn sample_app() -> App {
    let beads = vec![
        mk_flow_bead("bd-1", "First task", BeadStatus::Open, 1),
        mk_flow_bead("bd-2", "Second task", BeadStatus::Open, 2),
        mk_flow_bead("bd-3", "Done task", BeadStatus::Closed, 2),
    ];
    App::new(beads)
}

#[test]
fn quit_keys_set_the_flag() {
    let mut app = sample_app();
    assert!(!app.should_quit);
    app.handle_key(KeyEvent::plain(KeyCode::Char('q')));
    assert!(app.should_quit);
    let mut app2 = sample_app();
    app2.handle_key(KeyEvent::ctrl('c'));
    assert!(app2.should_quit);
}

#[test]
fn ctrl_z_requests_suspend() {
    let mut app = sample_app();
    let act = app.handle_key(KeyEvent::ctrl('z'));
    assert!(matches!(act, AppAction::Suspend));
    assert!(!app.should_quit);
}

#[test]
fn navigation_wraps_and_pages() {
    let mut app = sample_app();
    // closed bead hidden: two rows
    assert_eq!(app.filtered_len(), 2);
    assert_eq!(app.list_state.selected(), Some(0));
    app.handle_key(KeyEvent::plain(KeyCode::Char('j')));
    assert_eq!(app.list_state.selected(), Some(1));
    app.handle_key(KeyEvent::plain(KeyCode::Char('j')));
    assert_eq!(app.list_state.selected(), Some(0));
    app.handle_key(KeyEvent::plain(KeyCode::Char('k')));
    assert_eq!(app.list_state.selected(), Some(1));
    app.handle_key(KeyEvent::plain(KeyCode::Char('g')));
    assert_eq!(app.list_state.selected(), Some(0));
    app.handle_key(KeyEvent::plain(KeyCode::Char('G')));
    assert_eq!(app.list_state.selected(), Some(1));
    app.handle_key(KeyEvent::plain(KeyCode::Char('u')));
    assert_eq!(app.list_state.selected(), Some(0));
}

#[test]
fn search_filters_and_escape_clears() {
    let mut app = sample_app();
    app.handle_key(KeyEvent::plain(KeyCode::Char('/')));
    assert_eq!(app.input_mode, InputMode::Search);
    app.handle_key(KeyEvent::plain(KeyCode::Char('s')));
    app.handle_key(KeyEvent::plain(KeyCode::Char('e')));
    app.handle_key(KeyEvent::plain(KeyCode::Char('c')));
    assert_eq!(app.filtered_len(), 1);
    assert_eq!(app.list_state.selected(), Some(0));
    app.handle_key(KeyEvent::plain(KeyCode::Enter));
    assert_eq!(app.input_mode, InputMode::Normal);
    assert_eq!(app.filter().as_deref(), Some("sec"));
    // Escape in normal mode with list focus clears the filter
    app.handle_key(KeyEvent::plain(KeyCode::Esc));
    assert_eq!(app.filter(), None);
    assert_eq!(app.filtered_len(), 2);
}

#[test]
fn search_escape_cancels() {
    let mut app = sample_app();
    app.handle_key(KeyEvent::plain(KeyCode::Char('/')));
    app.handle_key(KeyEvent::plain(KeyCode::Char('z')));
    assert_eq!(app.filtered_len(), 0);
    assert_eq!(app.list_state.selected(), None);
    app.handle_key(KeyEvent::plain(KeyCode::Esc));
    assert_eq!(app.input_mode, InputMode::Normal);
    assert_eq!(app.filter(), None);
}

#[test]
fn toggle_hide_closed_reveals_closed_rows() {
    let mut app = sample_app();
    assert_eq!(app.filtered_len(), 2);
    app.handle_key(KeyEvent::plain(KeyCode::Char('c')));
    assert!(!app.hide_closed);
    assert_eq!(app.filtered_len(), 3);
    app.handle_key(KeyEvent::plain(KeyCode::Char('c')));
    assert_eq!(app.filtered_len(), 2);
}

#[test]
fn help_overlay_swallows_next_key() {
    let mut app = sample_app();
    app.handle_key(KeyEvent::plain(KeyCode::Char('?')));
    assert!(app.show_help);
    app.handle_key(KeyEvent::plain(KeyCode::Char('q')));
    assert!(!app.show_help);
    assert!(!app.should_quit);
}

#[test]
fn close_flow_emits_close_action_with_reason() {
    let mut app = sample_app();
    app.handle_key(KeyEvent::plain(KeyCode::Enter)); // open detail
    assert_eq!(app.focus, Focus::Detail);
    app.handle_key(KeyEvent::plain(KeyCode::Char('x')));
    assert_eq!(app.input_mode, InputMode::ClosingBead);
    app.handle_key(KeyEvent::plain(KeyCode::Char('o')));
    app.handle_key(KeyEvent::plain(KeyCode::Char('k')));
    let act = app.handle_key(KeyEvent::plain(KeyCode::Enter));
    match act {
        AppAction::CloseBead { id, reason } => {
            assert_eq!(id, "bd-1");
            assert_eq!(reason.as_deref(), Some("ok"));
        }
        other => panic!("unexpected action: {:?}", action_name(&other)),
    }
    assert_eq!(app.input_mode, InputMode::Normal);
}

#[test]
fn close_with_empty_reason_omits_it() {
    let mut app = sample_app();
    app.handle_key(KeyEvent::plain(KeyCode::Enter));
    app.handle_key(KeyEvent::plain(KeyCode::Char('x')));
    let act = app.handle_key(KeyEvent::plain(KeyCode::Enter));
    match act {
        AppAction::CloseBead { id, reason } => {
            assert_eq!(id, "bd-1");
            assert!(reason.is_none());
        }
        other => panic!("unexpected action: {:?}", action_name(&other)),
    }
}

#[test]
fn reopen_flow_prefixes_reason_comment() {
    let mut app = sample_app();
    app.handle_key(KeyEvent::plain(KeyCode::Char('c'))); // show closed
    app.handle_key(KeyEvent::plain(KeyCode::Char('G'))); // last row = closed bead
    app.handle_key(KeyEvent::plain(KeyCode::Enter));
    app.handle_key(KeyEvent::plain(KeyCode::Char('x')));
    assert_eq!(app.input_mode, InputMode::ReopeningBead);
    app.handle_key(KeyEvent::plain(KeyCode::Char('w')));
    app.handle_key(KeyEvent::plain(KeyCode::Char('h')));
    app.handle_key(KeyEvent::plain(KeyCode::Char('y')));
    let act = app.handle_key(KeyEvent::plain(KeyCode::Enter));
    match act {
        AppAction::ReopenBead { id, comment } => {
            assert_eq!(id, "bd-3");
            assert_eq!(comment.as_deref(), Some("Reopened: why"));
        }
        other => panic!("unexpected action: {:?}", action_name(&other)),
    }
}

#[test]
fn blank_comment_is_discarded() {
    let mut app = sample_app();
    app.handle_key(KeyEvent::plain(KeyCode::Enter));
    app.handle_key(KeyEvent::plain(KeyCode::Char('c'))); // comment prompt in detail focus
    assert_eq!(app.input_mode, InputMode::AddingComment);
    app.handle_key(KeyEvent::plain(KeyCode::Char(' ')));
    let act = app.handle_key(KeyEvent::plain(KeyCode::Enter));
    assert!(matches!(act, AppAction::Idle));
    assert_eq!(app.input_mode, InputMode::Normal);
}

#[test]
fn comment_flow_emits_add_comment() {
    let mut app = sample_app();
    app.handle_key(KeyEvent::plain(KeyCode::Enter));
    app.handle_key(KeyEvent::plain(KeyCode::Char('c')));
    app.handle_key(KeyEvent::plain(KeyCode::Char('h')));
    app.handle_key(KeyEvent::plain(KeyCode::Char('i')));
    let act = app.handle_key(KeyEvent::plain(KeyCode::Enter));
    match act {
        AppAction::AddComment { id, text } => {
            assert_eq!(id, "bd-1");
            assert_eq!(text, "hi");
        }
        other => panic!("unexpected action: {:?}", action_name(&other)),
    }
}

#[test]
fn create_flow_emits_submit_create() {
    let mut app = sample_app();
    app.handle_key(KeyEvent::plain(KeyCode::Char('a')));
    assert_eq!(app.input_mode, InputMode::Creating);
    app.handle_key(KeyEvent::plain(KeyCode::Char('N')));
    app.handle_key(KeyEvent::plain(KeyCode::Char('e')));
    app.handle_key(KeyEvent::plain(KeyCode::Char('w')));
    let act = app.handle_key(KeyEvent::ctrl('s'));
    match act {
        AppAction::SubmitCreate { title, description, priority, labels, .. } => {
            assert_eq!(title, "New");
            assert!(description.is_none());
            assert_eq!(priority, 2);
            assert!(labels.is_empty());
        }
        other => panic!("unexpected action: {:?}", action_name(&other)),
    }
    assert_eq!(app.input_mode, InputMode::Normal);
}

#[test]
fn edit_flow_with_priority_change_issues_one_update() {
    let mut app = sample_app();
    app.handle_key(KeyEvent::plain(KeyCode::Enter)); // detail focus on bd-1
    app.handle_key(KeyEvent::plain(KeyCode::Char('e')));
    assert_eq!(app.input_mode, InputMode::Editing);
    // move focus to the priority field: Tab x3
    app.handle_key(KeyEvent::plain(KeyCode::Tab));
    app.handle_key(KeyEvent::plain(KeyCode::Tab));
    app.handle_key(KeyEvent::plain(KeyCode::Tab));
    app.handle_key(KeyEvent::plain(KeyCode::Char('0')));
    let act = app.handle_key(KeyEvent::ctrl('s'));
    match act {
        AppAction::SubmitUpdate { id, updates } => {
            assert_eq!(id, "bd-1");
            assert_eq!(updates.len(), 1);
            assert!(matches!(
                &updates[0],
                beads_tui::diff::FieldUpdate::Priority(0)
            ));
        }
        other => panic!("unexpected action: {:?}", action_name(&other)),
    }
}

#[test]
fn edit_without_changes_issues_zero_updates() {
    let mut app = sample_app();
    app.handle_key(KeyEvent::plain(KeyCode::Enter));
    app.handle_key(KeyEvent::plain(KeyCode::Char('e')));
    let act = app.handle_key(KeyEvent::ctrl('s'));
    match act {
        AppAction::SubmitUpdate { id, updates } => {
            assert_eq!(id, "bd-1");
            assert!(updates.is_empty());
        }
        other => panic!("unexpected action: {:?}", action_name(&other)),
    }
}

#[test]
fn set_beads_clamps_the_selection() {
    let mut app = sample_app();
    app.handle_key(KeyEvent::plain(KeyCode::Char('G')));
    assert_eq!(app.list_state.selected(), Some(1));
    app.set_beads(vec![mk_flow_bead("only", "One left", BeadStatus::Open, 1)]);
    assert_eq!(app.list_state.selected(), Some(0));
    app.set_beads(Vec::new());
    assert_eq!(app.list_state.selected(), None);
}

#[test]
fn mouse_click_selects_and_focuses_detail() {
    let mut app = sample_app();
    app.set_areas(
        Rect { x: 0, y: 0, width: 40, height: 20 },
        Rect { x: 40, y: 0, width: 40, height: 20 },
    );
    app.handle_mouse(MouseEvent { kind: MouseKind::LeftDown, column: 5, row: 2 });
    assert_eq!(app.list_state.selected(), Some(1));
    assert_eq!(app.focus, Focus::Detail);
    assert!(app.show_detail);
    app.handle_mouse(MouseEvent { kind: MouseKind::ScrollUp, column: 5, row: 2 });
    app.handle_key(KeyEvent::plain(KeyCode::Esc));
    assert_eq!(app.focus, Focus::List);
}

#[test]
fn toggle_deferred_emits_status_update_for_open_bead() {
    let mut app = sample_app();
    app.handle_key(KeyEvent::plain(KeyCode::Enter));
    let act = app.handle_key(KeyEvent::plain(KeyCode::Char('D')));
    match act {
        AppAction::UpdateStatus { id, status } => {
            assert_eq!(id, "bd-1");
            assert_eq!(status, "deferred");
        }
        other => panic!("unexpected action: {:?}", action_name(&other)),
    }
}

#[test]
fn refresh_key_requests_reload() {
    let mut app = sample_app();
    let act = app.handle_key(KeyEvent::plain(KeyCode::Char('r')));
    assert!(matches!(act, AppAction::Refresh));
}

fn action_name(a: &AppAction) -> &'static str {
    match a {
        AppAction::Idle => "Idle",
        AppAction::Suspend => "Suspend",
        AppAction::Refresh => "Refresh",
        AppAction::SubmitCreate { .. } => "SubmitCreate",
        AppAction::SubmitUpdate { .. } => "SubmitUpdate",
        AppAction::CloseBead { .. } => "CloseBead",
        AppAction::ReopenBead { .. } => "ReopenBead",
        AppAction::AddComment { .. } => "AddComment",
        AppAction::UpdateStatus { .. } => "UpdateStatus",
    }
}
