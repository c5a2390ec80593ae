use beads_tui::bead::{Bead, BeadStatus, BeadType, Dependency, DependencyType};
use beads_tui::load::{apply_dependencies, apply_labels, sort_loaded};

fn mk_data_bead(id: &str, title: &str, status: BeadStatus, priority: u8) -> Bead {
    let mut b = Bead::default();
    b.id = id.to_string();
    b.title = title.to_string();
    b.status = status;
    b.priority = priority;
    b
}

#[test]
fn test_status_parsing() {
    assert_eq!("open".parse::<BeadStatus>().unwrap(), BeadStatus::Open);
    assert_eq!(
        "in_progress".parse::<BeadStatus>().unwrap(),
        BeadStatus::InProgress
    );
    assert_eq!(
        "blocked".parse::<BeadStatus>().unwrap(),
        BeadStatus::Blocked
    );
    assert_eq!("closed".parse::<BeadStatus>().unwrap(), BeadStatus::Closed);
}

#[test]
fn status_parsing_ignores_case_and_rejects_unknown() {
    assert_eq!("OPEN".parse::<BeadStatus>().unwrap(), BeadStatus::Open);
    assert_eq!(
        "In-Progress".parse::<BeadStatus>().unwrap(),
        BeadStatus::InProgress
    );
    assert!("tombstone".parse::<BeadStatus>().is_err());
}

#[test]
fn type_parsing_round_trip() {
    for t in [
        BeadType::Task,
        BeadType::Bug,
        BeadType::Feature,
        BeadType::Epic,
        BeadType::Story,
    ] {
        assert_eq!(t.as_str().parse::<BeadType>().unwrap(), t);
    }
    assert!("widget".parse::<BeadType>().is_err());
}

#[test]
fn dependency_type_parsing() {
    assert_eq!(
        "parent-child".parse::<DependencyType>().unwrap(),
        DependencyType::ParentChild
    );
    assert_eq!(
        "parent_child".parse::<DependencyType>().unwrap(),
        DependencyType::ParentChild
    );
    assert_eq!(
        "blocks".parse::<DependencyType>().unwrap(),
        DependencyType::Blocks
    );
    assert_eq!(
        "related".parse::<DependencyType>().unwrap(),
        DependencyType::Related
    );
    assert!("mystery".parse::<DependencyType>().is_err());
}

#[test]
fn icons_follow_status() {
    let t = BeadType::Task;
    assert_eq!(t.icon_for_status(&BeadStatus::Open), t.icon_outline());
    assert_eq!(t.icon_for_status(&BeadStatus::InProgress), t.icon_filled());
    assert_eq!(t.icon_for_status(&BeadStatus::Blocked), t.icon_outline());
    assert_eq!(t.icon_for_status(&BeadStatus::Closed), t.icon_closed());
    assert_eq!(BeadStatus::Open.icon(), "\u{25cb}");
    assert_eq!(BeadStatus::all().len(), 4);
}

#[test]
fn priority_label_renders_decimal() {
    let b = mk_data_bead("x", "x", BeadStatus::Open, 2);
    assert_eq!(b.priority_label(), "P2");
    let mut c = Bead::default();
    c.priority = 0;
    assert_eq!(c.priority_label(), "P0");
}

#[test]
fn deferred_and_blocked_flags() {
    let mut b = mk_data_bead("a", "a", BeadStatus::Open, 2);
    assert!(!b.is_deferred());
    assert!(!b.is_blocked());
    b.labels.push("deferred".to_string());
    assert!(b.is_deferred());
    b.blocked_by.push("z".to_string());
    assert!(b.is_blocked());
    let c = mk_data_bead("c", "c", BeadStatus::Blocked, 2);
    assert!(c.is_blocked());
}

#[test]
fn sort_loaded_orders_by_status_priority_title() {
    let beads = vec![
        mk_data_bead("1", "zeta", BeadStatus::Open, 1),
        mk_data_bead("2", "alpha", BeadStatus::InProgress, 3),
        mk_data_bead("3", "beta", BeadStatus::Open, 1),
        mk_data_bead("4", "late", BeadStatus::Blocked, 0),
    ];
    let sorted = sort_loaded(beads);
    let ids: Vec<&str> = sorted.iter().map(|b| b.id.as_str()).collect();
    // in-progress first, then open by priority/title, then blocked
    assert_eq!(ids, vec!["2", "3", "1", "4"]);
}

#[test]
fn sort_loaded_orders_closed_by_close_time() {
    let mut a = mk_data_bead("a", "a", BeadStatus::Closed, 2);
    a.closed_at = Some(100);
    let mut b = mk_data_bead("b", "b", BeadStatus::Closed, 2);
    b.closed_at = Some(300);
    let c = mk_data_bead("c", "c", BeadStatus::Open, 2);
    let sorted = sort_loaded(vec![a, b, c]);
    let ids: Vec<&str> = sorted.iter().map(|x| x.id.as_str()).collect();
    // open first; closed sorted most recently closed first
    assert_eq!(ids, vec!["c", "b", "a"]);
}

#[test]
fn apply_labels_attaches_matching_rows() {
    let beads = vec![
        mk_data_bead("a", "a", BeadStatus::Open, 2),
        mk_data_bead("b", "b", BeadStatus::Open, 2),
    ];
    let rows = vec![
        ("a".to_string(), "ui".to_string()),
        ("b".to_string(), "backend".to_string()),
        ("a".to_string(), "bug".to_string()),
    ];
    let out = apply_labels(beads, &rows);
    assert_eq!(out[0].labels, vec!["ui".to_string(), "bug".to_string()]);
    assert_eq!(out[1].labels, vec!["backend".to_string()]);
}

#[test]
fn apply_dependencies_fills_relationship_lists() {
    let beads = vec![
        mk_data_bead("a", "a", BeadStatus::Open, 2),
        mk_data_bead("b", "b", BeadStatus::Open, 2),
    ];
    let deps = vec![
        Dependency {
            from_id: "a".to_string(),
            to_id: "b".to_string(),
            dep_type: DependencyType::ParentChild,
        },
        Dependency {
            from_id: "a".to_string(),
            to_id: "b".to_string(),
            dep_type: DependencyType::Blocks,
        },
        Dependency {
            from_id: "b".to_string(),
            to_id: "a".to_string(),
            dep_type: DependencyType::Related,
        },
    ];
    let out = apply_dependencies(beads, &deps);
    assert_eq!(out[0].parent_ids, vec!["b".to_string()]);
    assert_eq!(out[0].blocked_by, vec!["b".to_string()]);
    assert!(out[0].blocks.is_empty());
    assert_eq!(out[1].blocks, vec!["a".to_string()]);
    assert!(out[1].parent_ids.is_empty());
}
