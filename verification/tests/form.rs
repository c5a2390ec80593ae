use beads_tui::bead::{Bead, BeadStatus, BeadType};
use beads_tui::diff::{diff_updates, FieldUpdate};
use beads_tui::keys::{KeyCode, KeyEvent};
use beads_tui::modal::{CreateField, CreateModal, ModalAction};

fn mk_form_bead(id: &str, title: &str) -> Bead {
    let mut b = Bead::default();
    b.id = id.to_string();
    b.title = title.to_string();
    b.status = BeadStatus::Open;
    b
}

#[test]
fn paste_title_flattens_newlines() {
    let mut modal = CreateModal::new();
    modal.focus = CreateField::Title;

    modal.handle_paste("one\ntwo");

    assert_eq!(modal.get_title(), "one two");
}

#[test]
fn paste_description_preserves_newlines() {
    let mut modal = CreateModal::new();
    modal.focus = CreateField::Description;

    modal.handle_paste("line one\nline two");

    assert_eq!(modal.description.text(), "line one\nline two");
}

#[test]
fn paste_labels_turns_newlines_into_commas() {
    let mut modal = CreateModal::new();
    modal.focus = CreateField::Labels;

    modal.handle_paste("ui\nbug");

    assert_eq!(modal.get_labels(), vec!["ui", "bug"]);
}

#[test]
fn tab_cycles_fields_both_ways() {
    let mut modal = CreateModal::new();
    modal.open();
    assert_eq!(modal.focus, CreateField::Title);
    modal.handle_key(KeyEvent::plain(KeyCode::Tab));
    assert_eq!(modal.focus, CreateField::Description);
    modal.handle_key(KeyEvent::plain(KeyCode::Tab));
    modal.handle_key(KeyEvent::plain(KeyCode::Tab));
    modal.handle_key(KeyEvent::plain(KeyCode::Tab));
    assert_eq!(modal.focus, CreateField::Labels);
    modal.handle_key(KeyEvent::plain(KeyCode::Tab));
    assert_eq!(modal.focus, CreateField::Title);
    modal.handle_key(KeyEvent::plain(KeyCode::BackTab));
    assert_eq!(modal.focus, CreateField::Labels);
}

#[test]
fn enter_in_title_moves_to_description() {
    let mut modal = CreateModal::new();
    modal.open();
    modal.handle_key(KeyEvent::plain(KeyCode::Char('h')));
    modal.handle_key(KeyEvent::plain(KeyCode::Enter));
    assert_eq!(modal.focus, CreateField::Description);
    assert_eq!(modal.get_title(), "h");
    // in the description, Enter inserts a newline
    modal.handle_key(KeyEvent::plain(KeyCode::Char('a')));
    modal.handle_key(KeyEvent::plain(KeyCode::Enter));
    modal.handle_key(KeyEvent::plain(KeyCode::Char('b')));
    assert_eq!(modal.description.text(), "a\nb");
}

#[test]
fn submit_requires_nonblank_title() {
    let mut modal = CreateModal::new();
    modal.open();
    assert_eq!(modal.handle_key(KeyEvent::ctrl('s')), ModalAction::Continue);
    modal.handle_key(KeyEvent::plain(KeyCode::Char(' ')));
    assert_eq!(modal.handle_key(KeyEvent::ctrl('s')), ModalAction::Continue);
    modal.handle_key(KeyEvent::plain(KeyCode::Char('x')));
    assert_eq!(modal.handle_key(KeyEvent::ctrl('s')), ModalAction::Submit);
    assert_eq!(modal.handle_key(KeyEvent::plain(KeyCode::Esc)), ModalAction::Cancelled);
    assert!(!modal.open);
}

#[test]
fn type_and_priority_wheels() {
    let mut modal = CreateModal::new();
    modal.open();
    modal.focus = CreateField::Type;
    modal.handle_key(KeyEvent::plain(KeyCode::Right));
    assert_eq!(modal.bead_type, BeadType::Bug);
    modal.handle_key(KeyEvent::plain(KeyCode::Left));
    modal.handle_key(KeyEvent::plain(KeyCode::Left));
    assert_eq!(modal.bead_type, BeadType::Story);
    modal.focus = CreateField::Priority;
    assert_eq!(modal.priority, 2);
    modal.handle_key(KeyEvent::plain(KeyCode::Left));
    assert_eq!(modal.priority, 1);
    modal.handle_key(KeyEvent::plain(KeyCode::Right));
    modal.handle_key(KeyEvent::plain(KeyCode::Right));
    modal.handle_key(KeyEvent::plain(KeyCode::Right));
    modal.handle_key(KeyEvent::plain(KeyCode::Right));
    assert_eq!(modal.priority, 4);
    modal.handle_key(KeyEvent::plain(KeyCode::Char('0')));
    assert_eq!(modal.priority, 0);
    modal.handle_key(KeyEvent::plain(KeyCode::Char('7')));
    assert_eq!(modal.priority, 0);
}

#[test]
fn open_with_bead_prefills_fields() {
    let mut b = mk_form_bead("bd-9", "Prefilled");
    b.description = Some("two\nlines".to_string());
    b.labels.push("ui".to_string());
    b.labels.push("bug".to_string());
    b.bead_type = BeadType::Feature;
    b.priority = 1;
    let mut modal = CreateModal::new();
    modal.open_with_bead(&b);
    assert_eq!(modal.get_title(), "Prefilled");
    assert_eq!(modal.description.text(), "two\nlines");
    assert_eq!(modal.labels.text(), "ui, bug");
    assert_eq!(modal.bead_type, BeadType::Feature);
    assert_eq!(modal.priority, 1);
    assert_eq!(modal.get_labels(), vec!["ui", "bug"]);
}

#[test]
fn unchanged_form_produces_no_updates() {
    let mut b = mk_form_bead("bd-1", "Same title");
    b.description = Some("desc".to_string());
    b.labels.push("one".to_string());
    b.labels.push("two".to_string());
    b.priority = 3;
    b.bead_type = BeadType::Bug;
    let labels = vec!["two".to_string(), "one".to_string()];
    let updates = diff_updates(
        &b,
        &"Same title".to_string(),
        &"desc".to_string(),
        BeadType::Bug,
        3,
        &labels,
    );
    assert!(updates.is_empty());
}

#[test]
fn priority_change_issues_exactly_one_update() {
    let mut b = mk_form_bead("bd-2", "Keep");
    b.priority = 2;
    let labels: Vec<String> = Vec::new();
    let updates = diff_updates(&b, &"Keep".to_string(), &"".to_string(), BeadType::Task, 0, &labels);
    assert_eq!(updates.len(), 1);
    assert!(matches!(&updates[0], FieldUpdate::Priority(0)));
}

#[test]
fn label_differences_become_adds_and_removes() {
    let mut b = mk_form_bead("bd-3", "Labels");
    b.labels.push("keep".to_string());
    b.labels.push("drop".to_string());
    let labels = vec!["keep".to_string(), "new".to_string(), "new".to_string()];
    let updates = diff_updates(
        &b,
        &"Labels".to_string(),
        &"".to_string(),
        BeadType::Task,
        2,
        &labels,
    );
    assert_eq!(updates.len(), 2);
    assert!(matches!(&updates[0], FieldUpdate::AddLabel(l) if l == "new"));
    assert!(matches!(&updates[1], FieldUpdate::RemoveLabel(l) if l == "drop"));
}

#[test]
fn every_changed_field_is_reported_once() {
    let mut b = mk_form_bead("bd-4", "Old");
    b.description = None;
    b.priority = 2;
    b.bead_type = BeadType::Task;
    let labels: Vec<String> = Vec::new();
    let updates = diff_updates(
        &b,
        &"New".to_string(),
        &"fresh words".to_string(),
        BeadType::Epic,
        4,
        &labels,
    );
    assert_eq!(updates.len(), 4);
    assert!(matches!(&updates[0], FieldUpdate::Title(t) if t == "New"));
    assert!(matches!(&updates[1], FieldUpdate::Description(d) if d == "fresh words"));
    assert!(matches!(&updates[2], FieldUpdate::Kind(BeadType::Epic)));
    assert!(matches!(&updates[3], FieldUpdate::Priority(4)));
}

#[test]
fn labels_parse_trims_and_drops_blanks() {
    let mut modal = CreateModal::new();
    modal.open();
    modal.focus = CreateField::Labels;
    modal.handle_paste("  ui , , backend  ");
    assert_eq!(modal.get_labels(), vec!["ui", "backend"]);
}
