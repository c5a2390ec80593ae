use beads_tui::bead::{Bead, BeadStatus};
use beads_tui::order::build_tree_order;

fn mk_view_bead(id: &str, title: &str, status: BeadStatus, priority: u8) -> Bead {
    let mut b = Bead::default();
    b.id = id.to_string();
    b.title = title.to_string();
    b.status = status;
    b.priority = priority;
    b
}

#[test]
fn parent_child_nests_child_under_parent() {
    let a = mk_view_bead("A", "Parent item", BeadStatus::Open, 2);
    let mut b = mk_view_bead("B", "Child item", BeadStatus::Open, 2);
    b.parent_ids.push("A".to_string());
    let beads = vec![a, b];
    let order = build_tree_order(&beads, false, None);
    assert_eq!(order.len(), 2);
    assert_eq!(beads[order[0].0].id, "A");
    assert_eq!(order[0].1, 0);
    assert_eq!(beads[order[1].0].id, "B");
    assert_eq!(order[1].1, 1);
}

#[test]
fn blocked_bead_nests_under_its_blocker() {
    let mut c = mk_view_bead("C", "Blocked one", BeadStatus::Open, 2);
    c.blocked_by.push("D".to_string());
    let d = mk_view_bead("D", "Blocker", BeadStatus::Open, 2);
    let beads = vec![c, d];
    let order = build_tree_order(&beads, false, None);
    assert_eq!(order.len(), 2);
    assert_eq!(beads[order[0].0].id, "D");
    assert_eq!(order[0].1, 0);
    assert_eq!(beads[order[1].0].id, "C");
    assert_eq!(order[1].1, 1);
}

#[test]
fn hide_closed_drops_closed_and_showing_appends_them_last() {
    let open = mk_view_bead("1", "Fix bug", BeadStatus::Open, 2);
    let mut closed = mk_view_bead("2", "Old task", BeadStatus::Closed, 0);
    closed.closed_at = Some(10);
    let beads = vec![open, closed];

    let hidden = build_tree_order(&beads, true, None);
    assert_eq!(hidden.len(), 1);
    assert_eq!(beads[hidden[0].0].title, "Fix bug");

    let shown = build_tree_order(&beads, false, None);
    assert_eq!(shown.len(), 2);
    assert_eq!(beads[shown[0].0].title, "Fix bug");
    // the closed bead comes last despite its urgent priority
    assert_eq!(beads[shown[1].0].title, "Old task");
    assert_eq!(shown[1].1, 0);
}

#[test]
fn building_twice_gives_identical_sequences() {
    let mut a = mk_view_bead("a", "one", BeadStatus::Open, 1);
    a.labels.push("deferred".to_string());
    let b = mk_view_bead("b", "two", BeadStatus::InProgress, 0);
    let mut c = mk_view_bead("c", "three", BeadStatus::Open, 3);
    c.parent_ids.push("b".to_string());
    let beads = vec![a, b, c];
    let first = build_tree_order(&beads, false, Some("t"));
    let second = build_tree_order(&beads, false, Some("t"));
    assert_eq!(first, second);
}

#[test]
fn same_filter_twice_keeps_the_length() {
    let beads = vec![
        mk_view_bead("x1", "alpha", BeadStatus::Open, 1),
        mk_view_bead("x2", "beta", BeadStatus::Open, 2),
        mk_view_bead("x3", "alphabet", BeadStatus::Open, 3),
    ];
    let first_len = build_tree_order(&beads, false, Some("alpha")).len();
    let second_len = build_tree_order(&beads, false, Some("alpha")).len();
    assert_eq!(first_len, 2);
    assert_eq!(first_len, second_len);
}

#[test]
fn doubly_reachable_bead_appears_once() {
    let p = mk_view_bead("p", "parent", BeadStatus::Open, 1);
    let mut q = mk_view_bead("q", "child", BeadStatus::Open, 2);
    q.parent_ids.push("p".to_string());
    q.blocked_by.push("p".to_string());
    let beads = vec![p, q];
    let order = build_tree_order(&beads, false, None);
    assert_eq!(order.len(), 2);
    assert_ne!(order[0].0, order[1].0);
    assert_eq!(beads[order[1].0].id, "q");
    assert_eq!(order[1].1, 1);
}

#[test]
fn depths_step_by_one_from_parents() {
    let g = mk_view_bead("g", "grand", BeadStatus::Open, 1);
    let mut m = mk_view_bead("m", "middle", BeadStatus::Open, 1);
    m.parent_ids.push("g".to_string());
    let mut l = mk_view_bead("l", "leaf", BeadStatus::Open, 1);
    l.parent_ids.push("m".to_string());
    let beads = vec![l, m, g];
    let order = build_tree_order(&beads, false, None);
    let depths: Vec<usize> = order.iter().map(|e| e.1).collect();
    let ids: Vec<&str> = order.iter().map(|e| beads[e.0].id.as_str()).collect();
    assert_eq!(ids, vec!["g", "m", "l"]);
    assert_eq!(depths, vec![0, 1, 2]);
}

#[test]
fn filter_matches_title_or_id_case_insensitively() {
    let beads = vec![
        mk_view_bead("bd-100", "Fix Crash", BeadStatus::Open, 1),
        mk_view_bead("bd-200", "Polish docs", BeadStatus::Open, 2),
    ];
    let by_title = build_tree_order(&beads, false, Some("fix"));
    assert_eq!(by_title.len(), 1);
    assert_eq!(beads[by_title[0].0].id, "bd-100");
    let by_id = build_tree_order(&beads, false, Some("BD-200"));
    assert_eq!(by_id.len(), 1);
    assert_eq!(beads[by_id[0].0].id, "bd-200");
    let none = build_tree_order(&beads, false, Some("zzz"));
    assert!(none.is_empty());
}

#[test]
fn roots_sort_deferred_last_then_priority_then_title() {
    let mut d = mk_view_bead("d", "aaa", BeadStatus::Open, 0);
    d.labels.push("deferred".to_string());
    let b1 = mk_view_bead("b1", "beta", BeadStatus::Open, 1);
    let b2 = mk_view_bead("b2", "alpha", BeadStatus::Open, 1);
    let c = mk_view_bead("c", "gamma", BeadStatus::Open, 0);
    let beads = vec![d, b1, b2, c];
    let order = build_tree_order(&beads, false, None);
    let ids: Vec<&str> = order.iter().map(|e| beads[e.0].id.as_str()).collect();
    assert_eq!(ids, vec!["c", "b2", "b1", "d"]);
}

#[test]
fn siblings_emerge_priority_then_title_ascending() {
    let p = mk_view_bead("p", "parent", BeadStatus::Open, 0);
    let mut c1 = mk_view_bead("c1", "zulu", BeadStatus::Open, 1);
    c1.parent_ids.push("p".to_string());
    let mut c2 = mk_view_bead("c2", "alpha", BeadStatus::Open, 2);
    c2.parent_ids.push("p".to_string());
    let mut c3 = mk_view_bead("c3", "mike", BeadStatus::Open, 1);
    c3.parent_ids.push("p".to_string());
    let beads = vec![p, c1, c2, c3];
    let order = build_tree_order(&beads, false, None);
    let ids: Vec<&str> = order.iter().map(|e| beads[e.0].id.as_str()).collect();
    assert_eq!(ids, vec!["p", "c3", "c1", "c2"]);
    assert_eq!(order[1].1, 1);
    assert_eq!(order[2].1, 1);
    assert_eq!(order[3].1, 1);
}

#[test]
fn closed_parent_does_not_anchor_children() {
    let closed_parent = {
        let mut b = mk_view_bead("cp", "was parent", BeadStatus::Closed, 1);
        b.closed_at = Some(5);
        b
    };
    let mut child = mk_view_bead("ch", "child", BeadStatus::Open, 2);
    child.parent_ids.push("cp".to_string());
    let beads = vec![closed_parent, child];
    let order = build_tree_order(&beads, false, None);
    let ids: Vec<&str> = order.iter().map(|e| beads[e.0].id.as_str()).collect();
    // the child is a root now; the closed bead trails at depth zero
    assert_eq!(ids, vec!["ch", "cp"]);
    assert_eq!(order[0].1, 0);
    assert_eq!(order[1].1, 0);
}

#[test]
fn empty_collection_gives_empty_view() {
    let beads: Vec<Bead> = Vec::new();
    assert!(build_tree_order(&beads, true, None).is_empty());
    assert!(build_tree_order(&beads, false, Some("x")).is_empty());
}
