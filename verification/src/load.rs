//! Collation of a freshly loaded collection: folding label rows and
//! dependency edges into each bead, and the load-order sort the rest of the
//! crate relies on (active work first, then by priority and title; closed
//! beads by close time, most recent first).

use vstd::prelude::*;
use crate::bead::{Bead, BeadStatus, Dependency, DependencyType};
use crate::text::{str_eq, str_lt, str_lt_seq};

verus! {

/// The labels rows assign to the bead with this id, in row order.
pub open spec fn labels_for(id: Seq<char>, rows: Seq<(String, String)>) -> Seq<Seq<char>>
    decreases rows.len(),
{
    if rows.len() == 0 {
        Seq::empty()
    } else {
        let rest = labels_for(id, rows.drop_last());
        if rows.last().0@ == id {
            rest.push(rows.last().1@)
        } else {
            rest
        }
    }
}

/// Parents of the bead with this id: targets of its parent-child edges.
pub open spec fn parents_for(id: Seq<char>, deps: Seq<Dependency>) -> Seq<Seq<char>>
    decreases deps.len(),
{
    if deps.len() == 0 {
        Seq::empty()
    } else {
        let rest = parents_for(id, deps.drop_last());
        let d = deps.last();
        if d.dep_type == DependencyType::ParentChild && d.from_id@ == id {
            rest.push(d.to_id@)
        } else {
            rest
        }
    }
}

/// Blockers of the bead with this id: targets of its blocks edges.
pub open spec fn blocked_by_for(id: Seq<char>, deps: Seq<Dependency>) -> Seq<Seq<char>>
    decreases deps.len(),
{
    if deps.len() == 0 {
        Seq::empty()
    } else {
        let rest = blocked_by_for(id, deps.drop_last());
        let d = deps.last();
        if d.dep_type == DependencyType::Blocks && d.from_id@ == id {
            rest.push(d.to_id@)
        } else {
            rest
        }
    }
}

/// Beads the bead with this id blocks: sources of blocks edges aimed at it,
/// except a self-edge, which counts as a blocker only.
pub open spec fn blocks_for(id: Seq<char>, deps: Seq<Dependency>) -> Seq<Seq<char>>
    decreases deps.len(),
{
    if deps.len() == 0 {
        Seq::empty()
    } else {
        let rest = blocks_for(id, deps.drop_last());
        let d = deps.last();
        if d.dep_type == DependencyType::Blocks && d.from_id@ != id && d.to_id@ == id {
            rest.push(d.from_id@)
        } else {
            rest
        }
    }
}

/// All fields of the two beads except the labels lists are the same values.
pub open spec fn same_but_labels(a: Bead, b: Bead) -> bool {
    a.id == b.id && a.title == b.title && a.status == b.status && a.priority == b.priority
        && a.bead_type == b.bead_type && a.description == b.description && a.created_by
        == b.created_by && a.assignee == b.assignee && a.created_at == b.created_at && a.updated_at
        == b.updated_at && a.closed_at == b.closed_at && a.close_reason == b.close_reason
        && a.parent_ids == b.parent_ids && a.blocked_by == b.blocked_by && a.blocks == b.blocks
        && a.comments == b.comments
}

/// All fields except the three relationship lists are the same values.
pub open spec fn same_but_relations(a: Bead, b: Bead) -> bool {
    a.id == b.id && a.title == b.title && a.status == b.status && a.priority == b.priority
        && a.bead_type == b.bead_type && a.description == b.description && a.created_by
        == b.created_by && a.assignee == b.assignee && a.created_at == b.created_at && a.updated_at
        == b.updated_at && a.closed_at == b.closed_at && a.close_reason == b.close_reason
        && a.labels == b.labels && a.comments == b.comments
}

/// Append to each bead the labels its id is assigned by `rows`, in row
/// order; everything else is untouched.
pub fn apply_labels(beads: Vec<Bead>, rows: &Vec<(String, String)>) -> (r: Vec<Bead>)
    ensures
        r@.len() == beads@.len(),
        forall|k: int|
            0 <= k < r@.len() ==> same_but_labels(#[trigger] r@[k], beads@[k]) && r@[k]
                .labels.deep_view() == beads@[k].labels.deep_view() + labels_for(
                beads@[k].id@,
                rows@,
            ),
{
    let ghost in0 = beads@;
    let mut rest = beads;
    let mut out: Vec<Bead> = Vec::new();
    while rest.len() > 0
        invariant
            out@.len() + rest@.len() == in0.len(),
            rest@ == in0.skip(out@.len() as int),
            forall|k: int|
                0 <= k < out@.len() ==> same_but_labels(#[trigger] out@[k], in0[k]) && out@[k]
                    .labels.deep_view() == in0[k].labels.deep_view() + labels_for(
                    in0[k].id@,
                    rows@,
                ),
        decreases rest@.len(),
    {
        let mut b = rest.remove(0);
        proof {
            assert(rest@ =~= in0.skip(out@.len() as int + 1));
            assert(b == in0[out@.len() as int]);
        }
        let ghost l0 = b.labels.deep_view();
        let ghost id = b.id@;
        let mut i: usize = 0;
        while i < rows.len()
            invariant
                0 <= i <= rows@.len(),
                out@.len() < in0.len(),
                same_but_labels(b, in0[out@.len() as int]),
                b.id@ == id,
                b.labels.deep_view() == l0 + labels_for(id, rows@.take(i as int)),
            decreases rows@.len() - i,
        {
            proof {
                assert(rows@.take(i + 1).drop_last() =~= rows@.take(i as int));
                assert(rows@.take(i + 1).last() == rows@[i as int]);
            }
            if str_eq(rows[i].0.as_str(), b.id.as_str()) {
                let ghost pre = b.labels.deep_view();
                b.labels.push(rows[i].1.clone());
                proof {
                    assert(b.labels.deep_view() =~~= pre.push(rows@[i as int].1@));
                    assert(b.labels.deep_view() =~~= l0 + labels_for(id, rows@.take(i + 1)));
                }
            } else {
                assert(b.labels.deep_view() =~~= l0 + labels_for(id, rows@.take(i + 1)));
            }
            i = i + 1;
        }
        proof {
            assert(rows@.take(rows@.len() as int) =~= rows@);
        }
        out.push(b);
    }
    proof {
        assert(out@.len() == in0.len());
    }
    out
}

/// Fill each bead's relationship lists from the dependency edges: targets
/// of its parent-child edges, targets of its blocks edges (its blockers),
/// and sources of blocks edges aimed at it (what it blocks); each list is
/// appended in edge order. Everything else is untouched.
pub fn apply_dependencies(beads: Vec<Bead>, deps: &Vec<Dependency>) -> (r: Vec<Bead>)
    ensures
        r@.len() == beads@.len(),
        forall|k: int|
            0 <= k < r@.len() ==> same_but_relations(#[trigger] r@[k], beads@[k]) && r@[k]
                .parent_ids.deep_view() == beads@[k].parent_ids.deep_view() + parents_for(
                beads@[k].id@,
                deps@,
            ) && r@[k].blocked_by.deep_view() == beads@[k].blocked_by.deep_view() + blocked_by_for(
                beads@[k].id@,
                deps@,
            ) && r@[k].blocks.deep_view() == beads@[k].blocks.deep_view() + blocks_for(
                beads@[k].id@,
                deps@,
            ),
{
    let ghost in0 = beads@;
    let mut rest = beads;
    let mut out: Vec<Bead> = Vec::new();
    while rest.len() > 0
        invariant
            out@.len() + rest@.len() == in0.len(),
            rest@ == in0.skip(out@.len() as int),
            forall|k: int|
                0 <= k < out@.len() ==> same_but_relations(#[trigger] out@[k], in0[k]) && out@[k]
                    .parent_ids.deep_view() == in0[k].parent_ids.deep_view() + parents_for(
                    in0[k].id@,
                    deps@,
                ) && out@[k].blocked_by.deep_view() == in0[k].blocked_by.deep_view()
                    + blocked_by_for(in0[k].id@, deps@) && out@[k].blocks.deep_view() == in0[k]
                    .blocks.deep_view() + blocks_for(in0[k].id@, deps@),
        decreases rest@.len(),
    {
        let mut b = rest.remove(0);
        proof {
            assert(rest@ =~= in0.skip(out@.len() as int + 1));
            assert(b == in0[out@.len() as int]);
        }
        let ghost p0 = b.parent_ids.deep_view();
        let ghost bb0 = b.blocked_by.deep_view();
        let ghost bl0 = b.blocks.deep_view();
        let ghost id = b.id@;
        let mut i: usize = 0;
        while i < deps.len()
            invariant
                0 <= i <= deps@.len(),
                out@.len() < in0.len(),
                same_but_relations(b, in0[out@.len() as int]),
                b.id@ == id,
                b.parent_ids.deep_view() == p0 + parents_for(id, deps@.take(i as int)),
                b.blocked_by.deep_view() == bb0 + blocked_by_for(id, deps@.take(i as int)),
                b.blocks.deep_view() == bl0 + blocks_for(id, deps@.take(i as int)),
            decreases deps@.len() - i,
        {
            proof {
                assert(deps@.take(i + 1).drop_last() =~= deps@.take(i as int));
                assert(deps@.take(i + 1).last() == deps@[i as int]);
            }
            let d = &deps[i];
            let from_matches = str_eq(d.from_id.as_str(), b.id.as_str());
            if d.dep_type == DependencyType::ParentChild && from_matches {
                let ghost pre = b.parent_ids.deep_view();
                b.parent_ids.push(d.to_id.clone());
                proof {
                    assert(b.parent_ids.deep_view() =~~= pre.push(deps@[i as int].to_id@));
                }
            } else if d.dep_type == DependencyType::Blocks && from_matches {
                let ghost pre = b.blocked_by.deep_view();
                b.blocked_by.push(d.to_id.clone());
                proof {
                    assert(b.blocked_by.deep_view() =~~= pre.push(deps@[i as int].to_id@));
                }
            } else if d.dep_type == DependencyType::Blocks && str_eq(d.to_id.as_str(), b.id.as_str())
            {
                let ghost pre = b.blocks.deep_view();
                b.blocks.push(d.from_id.clone());
                proof {
                    assert(b.blocks.deep_view() =~~= pre.push(deps@[i as int].from_id@));
                }
            }
            proof {
                assert(b.parent_ids.deep_view() =~~= p0 + parents_for(id, deps@.take(i + 1)));
                assert(b.blocked_by.deep_view() =~~= bb0 + blocked_by_for(id, deps@.take(i + 1)));
                assert(b.blocks.deep_view() =~~= bl0 + blocks_for(id, deps@.take(i + 1)));
            }
            i = i + 1;
        }
        proof {
            assert(deps@.take(deps@.len() as int) =~= deps@);
        }
        out.push(b);
    }
    out
}

/// Bead `a` sorts strictly before `b` in load order. Among closed beads:
/// more recently closed first, a missing close time first, ties by title.
/// Otherwise: by status rank, then priority, then title.
pub open spec fn load_lt(a: Bead, b: Bead) -> bool {
    if a.status == BeadStatus::Closed && b.status == BeadStatus::Closed {
        match (a.closed_at, b.closed_at) {
            (Some(at), Some(bt)) => at > bt,
            (None, Some(_)) => true,
            (Some(_), None) => false,
            (None, None) => str_lt_seq(a.title@, b.title@),
        }
    } else {
        if a.status.rank_spec() != b.status.rank_spec() {
            a.status.rank_spec() < b.status.rank_spec()
        } else if a.priority != b.priority {
            a.priority < b.priority
        } else {
            str_lt_seq(a.title@, b.title@)
        }
    }
}

fn load_lt_exec(a: &Bead, b: &Bead) -> (r: bool)
    ensures
        r == load_lt(*a, *b),
{
    if a.status == BeadStatus::Closed && b.status == BeadStatus::Closed {
        match (a.closed_at, b.closed_at) {
            (Some(at), Some(bt)) => at > bt,
            (None, Some(_)) => true,
            (Some(_), None) => false,
            (None, None) => str_lt(a.title.as_str(), b.title.as_str()),
        }
    } else {
        let ra = a.status.rank();
        let rb = b.status.rank();
        if ra != rb {
            ra < rb
        } else if a.priority != b.priority {
            a.priority < b.priority
        } else {
            str_lt(a.title.as_str(), b.title.as_str())
        }
    }
}

/// Insert a bead into a load-sorted run, after any equal keys.
pub open spec fn ins_load(sorted: Seq<Bead>, x: Bead) -> Seq<Bead>
    decreases sorted.len(),
{
    if sorted.len() == 0 {
        seq![x]
    } else if load_lt(x, sorted.last()) {
        ins_load(sorted.drop_last(), x).push(sorted.last())
    } else {
        sorted.push(x)
    }
}

/// Stable insertion sort by `load_lt`.
pub open spec fn isort_load(s: Seq<Bead>) -> Seq<Bead>
    decreases s.len(),
{
    if s.len() == 0 {
        Seq::empty()
    } else {
        ins_load(isort_load(s.drop_last()), s.last())
    }
}

fn ins_load_exec(sorted: Vec<Bead>, x: Bead) -> (r: Vec<Bead>)
    ensures
        r@ == ins_load(sorted@, x),
    decreases sorted@.len(),
{
    if sorted.len() == 0 {
        let mut r: Vec<Bead> = Vec::new();
        r.push(x);
        assert(r@ =~= seq![x]);
        r
    } else {
        let mut s2 = sorted;
        let ghost s0 = s2@;
        let lt = load_lt_exec(&x, &s2[s2.len() - 1]);
        if lt {
            let last = s2.pop().unwrap();
            assert(s2@ =~= s0.drop_last());
            assert(last == s0.last());
            let mut r = ins_load_exec(s2, x);
            r.push(last);
            r
        } else {
            s2.push(x);
            s2
        }
    }
}

/// Sort a loaded collection into load order; the result is exactly the
/// stable insertion sort of the input by `load_lt`.
pub fn sort_loaded(beads: Vec<Bead>) -> (r: Vec<Bead>)
    ensures
        r@ == isort_load(beads@),
    decreases beads@.len(),
{
    if beads.len() == 0 {
        let r: Vec<Bead> = Vec::new();
        assert(r@ =~= isort_load(beads@));
        r
    } else {
        let mut s2 = beads;
        let ghost s0 = s2@;
        let last = s2.pop().unwrap();
        assert(s2@ =~= s0.drop_last());
        assert(last == s0.last());
        let rec = sort_loaded(s2);
        ins_load_exec(rec, last)
    }
}

} // verus!
