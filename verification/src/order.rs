//! The tree-ordered view: a pure, fully specified function from the loaded
//! bead collection and the current filters to a depth-annotated display
//! order.
//!
//! Non-closed survivors are arranged hierarchically: a bead nests under any
//! surviving bead named by its parent or blocked-by lists; roots are sorted
//! deferred-last, then by priority, then title; siblings by priority then
//! title; a bead reachable from several parents appears once, where it is
//! first reached. Closed survivors follow flat at depth zero in load order.

use vstd::prelude::*;
use crate::bead::{Bead, BeadStatus, spec_is_deferred};
use crate::text::{contains_seq, lower_of, str_contains, str_eq, str_lt, str_lt_seq, to_lower};

verus! {

/// The view of an optional filter string.
pub open spec fn opt_str_view(f: Option<&str>) -> Option<Seq<char>> {
    match f {
        None => None,
        Some(s) => Some(s@),
    }
}

/// The bead matches the text filter: its folded title or id contains the
/// folded query.
pub open spec fn matches_filter(b: Bead, f: Option<Seq<char>>) -> bool {
    match f {
        None => true,
        Some(q) => contains_seq(lower_of(b.title@), lower_of(q)) || contains_seq(
            lower_of(b.id@),
            lower_of(q),
        ),
    }
}

/// The bead stays in view under the given settings.
pub open spec fn survives(b: Bead, hide_closed: bool, f: Option<Seq<char>>) -> bool {
    (!hide_closed || b.status != BeadStatus::Closed) && matches_filter(b, f)
}

fn survives_exec(b: &Bead, hide_closed: bool, low: &Option<String>, Ghost(f): Ghost<Option<Seq<char>>>) -> (r: bool)
    requires
        low is None <==> f is None,
        low is Some ==> low->0@ == lower_of(f->0),
    ensures
        r == survives(*b, hide_closed, f),
{
    if hide_closed && b.status == BeadStatus::Closed {
        return false;
    }
    match low {
        None => true,
        Some(q) => {
            let lt = to_lower(b.title.as_str());
            if str_contains(lt.as_str(), q.as_str()) {
                true
            } else {
                let li = to_lower(b.id.as_str());
                str_contains(li.as_str(), q.as_str())
            }
        },
    }
}

/// Indices below `n` of beads that survive and whose closedness matches
/// `closed`, ascending.
pub open spec fn sel_upto(
    beads: Seq<Bead>,
    h: bool,
    f: Option<Seq<char>>,
    closed: bool,
    n: int,
) -> Seq<usize>
    decreases n,
{
    if n <= 0 {
        Seq::empty()
    } else {
        let rest = sel_upto(beads, h, f, closed, n - 1);
        if survives(beads[n - 1], h, f) && ((beads[n - 1].status == BeadStatus::Closed) == closed) {
            rest.push((n - 1) as usize)
        } else {
            rest
        }
    }
}

/// Surviving non-closed indices, ascending.
pub open spec fn non_closed_idxs(beads: Seq<Bead>, h: bool, f: Option<Seq<char>>) -> Seq<usize> {
    sel_upto(beads, h, f, false, beads.len() as int)
}

/// Surviving closed indices, ascending (load order is kept).
pub open spec fn closed_idxs(beads: Seq<Bead>, h: bool, f: Option<Seq<char>>) -> Seq<usize> {
    sel_upto(beads, h, f, true, beads.len() as int)
}

/// Every index in `s` is below `n`.
pub open spec fn idxs_ok(s: Seq<usize>, n: int) -> bool {
    forall|k: int| 0 <= k < s.len() ==> (#[trigger] s[k]) < n
}

proof fn lemma_sel_upto_ok(beads: Seq<Bead>, h: bool, f: Option<Seq<char>>, closed: bool, n: int)
    requires
        n <= beads.len(),
    ensures
        idxs_ok(sel_upto(beads, h, f, closed, n), n),
    decreases n,
{
    if n > 0 {
        lemma_sel_upto_ok(beads, h, f, closed, n - 1);
        assert forall|k: int|
            0 <= k < sel_upto(beads, h, f, closed, n).len() implies (#[trigger] sel_upto(
            beads,
            h,
            f,
            closed,
            n,
        )[k]) < n by {
            let prev = sel_upto(beads, h, f, closed, n - 1);
            if k < prev.len() {
                assert(prev[k] < n - 1);
            }
        }
    }
}

fn select_idxs(
    beads: &Vec<Bead>,
    h: bool,
    low: &Option<String>,
    Ghost(f): Ghost<Option<Seq<char>>>,
    closed: bool,
) -> (r: Vec<usize>)
    requires
        low is None <==> f is None,
        low is Some ==> low->0@ == lower_of(f->0),
    ensures
        r@ == sel_upto(beads@, h, f, closed, beads@.len() as int),
        idxs_ok(r@, beads@.len() as int),
{
    let mut r: Vec<usize> = Vec::new();
    let mut i: usize = 0;
    assert(r@ =~= sel_upto(beads@, h, f, closed, 0));
    while i < beads.len()
        invariant
            low is None <==> f is None,
            low is Some ==> low->0@ == lower_of(f->0),
            0 <= i <= beads@.len(),
            r@ == sel_upto(beads@, h, f, closed, i as int),
        decreases beads@.len() - i,
    {
        let keep = survives_exec(&beads[i], h, low, Ghost(f));
        if keep && ((beads[i].status == BeadStatus::Closed) == closed) {
            r.push(i);
        }
        i = i + 1;
    }
    proof {
        lemma_sel_upto_ok(beads@, h, f, closed, beads@.len() as int);
    }
    r
}

/// Some string in the list has exactly these characters.
pub open spec fn id_in(l: Seq<String>, id: Seq<char>) -> bool {
    exists|k: int| 0 <= k < l.len() && (#[trigger] l[k])@ == id
}

fn id_list_contains(l: &Vec<String>, id: &str) -> (r: bool)
    ensures
        r == id_in(l@, id@),
{
    let mut k: usize = 0;
    while k < l.len()
        invariant
            0 <= k <= l@.len(),
            forall|j: int| 0 <= j < k ==> (#[trigger] l@[j])@ != id@,
        decreases l@.len() - k,
    {
        if str_eq(l[k].as_str(), id) {
            return true;
        }
        k = k + 1;
    }
    false
}

/// `c` is displayed under `p`: `p` is named by `c`'s parent list or by its
/// blocked-by list (a blocked bead nests under its blocker).
pub open spec fn has_edge(p: Bead, c: Bead) -> bool {
    id_in(c.parent_ids@, p.id@) || id_in(c.blocked_by@, p.id@)
}

fn has_edge_exec(p: &Bead, c: &Bead) -> (r: bool)
    ensures
        r == has_edge(*p, *c),
{
    id_list_contains(&c.parent_ids, p.id.as_str()) || id_list_contains(&c.blocked_by, p.id.as_str())
}

/// The children of `p` among the non-closed survivors, in survivor order.
pub open spec fn children_of(beads: Seq<Bead>, nc: Seq<usize>, p: usize) -> Seq<usize>
    decreases nc.len(),
{
    if nc.len() == 0 {
        Seq::empty()
    } else {
        let rest = children_of(beads, nc.drop_last(), p);
        if has_edge(beads[p as int], beads[nc.last() as int]) {
            rest.push(nc.last())
        } else {
            rest
        }
    }
}

pub proof fn lemma_children_ok(beads: Seq<Bead>, nc: Seq<usize>, p: usize, n: int)
    requires
        idxs_ok(nc, n),
    ensures
        idxs_ok(children_of(beads, nc, p), n),
    decreases nc.len(),
{
    if nc.len() > 0 {
        assert(idxs_ok(nc.drop_last(), n));
        lemma_children_ok(beads, nc.drop_last(), p, n);
        assert(nc.last() == nc[nc.len() - 1]);
        assert forall|k: int|
            0 <= k < children_of(beads, nc, p).len() implies (#[trigger] children_of(
            beads,
            nc,
            p,
        )[k]) < n by {
            let rest = children_of(beads, nc.drop_last(), p);
            if k < rest.len() {
                assert(rest[k] < n);
            }
        }
    }
}

fn children_exec(beads: &Vec<Bead>, nc: &Vec<usize>, p: usize) -> (r: Vec<usize>)
    requires
        idxs_ok(nc@, beads@.len() as int),
        p < beads@.len(),
    ensures
        r@ == children_of(beads@, nc@, p),
        idxs_ok(r@, beads@.len() as int),
{
    let mut r: Vec<usize> = Vec::new();
    let mut i: usize = 0;
    assert(r@ =~= children_of(beads@, nc@.take(0), p));
    while i < nc.len()
        invariant
            idxs_ok(nc@, beads@.len() as int),
            p < beads@.len(),
            0 <= i <= nc@.len(),
            r@ == children_of(beads@, nc@.take(i as int), p),
        decreases nc@.len() - i,
    {
        let j = nc[i];
        proof {
            assert(nc@.take(i + 1).drop_last() =~= nc@.take(i as int));
            assert(nc@.take(i + 1).last() == nc@[i as int]);
        }
        if has_edge_exec(&beads[p], &beads[j]) {
            r.push(j);
        }
        i = i + 1;
    }
    proof {
        assert(nc@.take(nc@.len() as int) =~= nc@);
        lemma_children_ok(beads@, nc@, p, beads@.len() as int);
    }
    r
}

/// Some non-closed survivor has an edge to `j`.
pub open spec fn spec_has_parent(beads: Seq<Bead>, nc: Seq<usize>, j: usize) -> bool {
    exists|k: int| 0 <= k < nc.len() && has_edge(beads[(#[trigger] nc[k]) as int], beads[j as int])
}

fn has_parent_exec(beads: &Vec<Bead>, nc: &Vec<usize>, j: usize) -> (r: bool)
    requires
        idxs_ok(nc@, beads@.len() as int),
        j < beads@.len(),
    ensures
        r == spec_has_parent(beads@, nc@, j),
{
    let mut k: usize = 0;
    while k < nc.len()
        invariant
            idxs_ok(nc@, beads@.len() as int),
            j < beads@.len(),
            0 <= k <= nc@.len(),
            forall|m: int|
                0 <= m < k ==> !has_edge(beads@[(#[trigger] nc@[m]) as int], beads@[j as int]),
        decreases nc@.len() - k,
    {
        if has_edge_exec(&beads[nc[k]], &beads[j]) {
            return true;
        }
        k = k + 1;
    }
    false
}

/// The prefix of `nc` of length `n`, kept when nothing in `nc` is a parent.
pub open spec fn roots_upto(beads: Seq<Bead>, nc: Seq<usize>, n: int) -> Seq<usize>
    decreases n,
{
    if n <= 0 {
        Seq::empty()
    } else {
        let rest = roots_upto(beads, nc, n - 1);
        if !spec_has_parent(beads, nc, nc[n - 1]) {
            rest.push(nc[n - 1])
        } else {
            rest
        }
    }
}

/// Non-closed survivors never registered as anyone's child, in order.
pub open spec fn roots_of(beads: Seq<Bead>, nc: Seq<usize>) -> Seq<usize> {
    roots_upto(beads, nc, nc.len() as int)
}

proof fn lemma_roots_ok(beads: Seq<Bead>, nc: Seq<usize>, n: int, bound: int)
    requires
        idxs_ok(nc, bound),
        n <= nc.len(),
    ensures
        idxs_ok(roots_upto(beads, nc, n), bound),
    decreases n,
{
    if n > 0 {
        lemma_roots_ok(beads, nc, n - 1, bound);
        assert forall|k: int|
            0 <= k < roots_upto(beads, nc, n).len() implies (#[trigger] roots_upto(
            beads,
            nc,
            n,
        )[k]) < bound by {
            let rest = roots_upto(beads, nc, n - 1);
            if k < rest.len() {
                assert(rest[k] < bound);
            } else {
                assert(nc[n - 1] < bound);
            }
        }
    }
}

fn roots_exec(beads: &Vec<Bead>, nc: &Vec<usize>) -> (r: Vec<usize>)
    requires
        idxs_ok(nc@, beads@.len() as int),
    ensures
        r@ == roots_of(beads@, nc@),
        idxs_ok(r@, beads@.len() as int),
{
    let mut r: Vec<usize> = Vec::new();
    let mut i: usize = 0;
    assert(r@ =~= roots_upto(beads@, nc@, 0));
    while i < nc.len()
        invariant
            idxs_ok(nc@, beads@.len() as int),
            0 <= i <= nc@.len(),
            r@ == roots_upto(beads@, nc@, i as int),
        decreases nc@.len() - i,
    {
        if !has_parent_exec(beads, nc, nc[i]) {
            r.push(nc[i]);
        }
        i = i + 1;
    }
    proof {
        lemma_roots_ok(beads@, nc@, nc@.len() as int, beads@.len() as int);
    }
    r
}

/// Root `a` sorts strictly before root `b`: non-deferred first, then lower
/// priority number, then lexicographically smaller title.
pub open spec fn root_lt(beads: Seq<Bead>, a: usize, b: usize) -> bool {
    let da = spec_is_deferred(&beads[a as int]);
    let db = spec_is_deferred(&beads[b as int]);
    if da != db {
        !da && db
    } else if beads[a as int].priority != beads[b as int].priority {
        beads[a as int].priority < beads[b as int].priority
    } else {
        str_lt_seq(beads[a as int].title@, beads[b as int].title@)
    }
}

fn root_lt_exec(beads: &Vec<Bead>, a: usize, b: usize) -> (r: bool)
    requires
        a < beads@.len(),
        b < beads@.len(),
    ensures
        r == root_lt(beads@, a, b),
{
    let da = beads[a].is_deferred();
    let db = beads[b].is_deferred();
    if da != db {
        !da && db
    } else if beads[a].priority != beads[b].priority {
        beads[a].priority < beads[b].priority
    } else {
        str_lt(beads[a].title.as_str(), beads[b].title.as_str())
    }
}

/// Child `a` sorts strictly before child `b` in stack order: higher priority
/// number first, then lexicographically greater title (the reversal the
/// stack applies turns this into priority-then-title ascending).
pub open spec fn child_before(beads: Seq<Bead>, a: usize, b: usize) -> bool {
    if beads[a as int].priority != beads[b as int].priority {
        beads[a as int].priority > beads[b as int].priority
    } else {
        str_lt_seq(beads[b as int].title@, beads[a as int].title@)
    }
}

fn child_before_exec(beads: &Vec<Bead>, a: usize, b: usize) -> (r: bool)
    requires
        a < beads@.len(),
        b < beads@.len(),
    ensures
        r == child_before(beads@, a, b),
{
    if beads[a].priority != beads[b].priority {
        beads[a].priority > beads[b].priority
    } else {
        str_lt(beads[b].title.as_str(), beads[a].title.as_str())
    }
}

/// Insert `x` into a sorted run of roots, after any equal keys.
pub open spec fn ins_root(beads: Seq<Bead>, sorted: Seq<usize>, x: usize) -> Seq<usize>
    decreases sorted.len(),
{
    if sorted.len() == 0 {
        seq![x]
    } else if root_lt(beads, x, sorted.last()) {
        ins_root(beads, sorted.drop_last(), x).push(sorted.last())
    } else {
        sorted.push(x)
    }
}

/// Stable insertion sort of roots by `root_lt`.
pub open spec fn isort_root(beads: Seq<Bead>, s: Seq<usize>) -> Seq<usize>
    decreases s.len(),
{
    if s.len() == 0 {
        Seq::empty()
    } else {
        ins_root(beads, isort_root(beads, s.drop_last()), s.last())
    }
}

/// Insert `x` into a sorted run of children, after any equal keys.
pub open spec fn ins_child(beads: Seq<Bead>, sorted: Seq<usize>, x: usize) -> Seq<usize>
    decreases sorted.len(),
{
    if sorted.len() == 0 {
        seq![x]
    } else if child_before(beads, x, sorted.last()) {
        ins_child(beads, sorted.drop_last(), x).push(sorted.last())
    } else {
        sorted.push(x)
    }
}

/// Stable insertion sort of children by `child_before`.
pub open spec fn isort_child(beads: Seq<Bead>, s: Seq<usize>) -> Seq<usize>
    decreases s.len(),
{
    if s.len() == 0 {
        Seq::empty()
    } else {
        ins_child(beads, isort_child(beads, s.drop_last()), s.last())
    }
}

proof fn lemma_ins_root_ok(beads: Seq<Bead>, sorted: Seq<usize>, x: usize, n: int)
    requires
        idxs_ok(sorted, n),
        (x as int) < n,
    ensures
        idxs_ok(ins_root(beads, sorted, x), n),
    decreases sorted.len(),
{
    if sorted.len() > 0 && root_lt(beads, x, sorted.last()) {
        assert(idxs_ok(sorted.drop_last(), n));
        lemma_ins_root_ok(beads, sorted.drop_last(), x, n);
        let r = ins_root(beads, sorted.drop_last(), x);
        assert forall|k: int|
            0 <= k < ins_root(beads, sorted, x).len() implies (#[trigger] ins_root(
            beads,
            sorted,
            x,
        )[k]) < n by {
            if k < r.len() {
                assert(r[k] < n);
            } else {
                assert(sorted.last() == sorted[sorted.len() - 1]);
            }
        }
    }
}

proof fn lemma_isort_root_ok(beads: Seq<Bead>, s: Seq<usize>, n: int)
    requires
        idxs_ok(s, n),
    ensures
        idxs_ok(isort_root(beads, s), n),
    decreases s.len(),
{
    if s.len() > 0 {
        assert(idxs_ok(s.drop_last(), n));
        lemma_isort_root_ok(beads, s.drop_last(), n);
        assert(s.last() == s[s.len() - 1]);
        lemma_ins_root_ok(beads, isort_root(beads, s.drop_last()), s.last(), n);
    }
}

pub proof fn lemma_ins_child_ok(beads: Seq<Bead>, sorted: Seq<usize>, x: usize, n: int)
    requires
        idxs_ok(sorted, n),
        (x as int) < n,
    ensures
        idxs_ok(ins_child(beads, sorted, x), n),
    decreases sorted.len(),
{
    if sorted.len() > 0 && child_before(beads, x, sorted.last()) {
        assert(idxs_ok(sorted.drop_last(), n));
        lemma_ins_child_ok(beads, sorted.drop_last(), x, n);
        let r = ins_child(beads, sorted.drop_last(), x);
        assert forall|k: int|
            0 <= k < ins_child(beads, sorted, x).len() implies (#[trigger] ins_child(
            beads,
            sorted,
            x,
        )[k]) < n by {
            if k < r.len() {
                assert(r[k] < n);
            } else {
                assert(sorted.last() == sorted[sorted.len() - 1]);
            }
        }
    }
}

pub proof fn lemma_isort_child_ok(beads: Seq<Bead>, s: Seq<usize>, n: int)
    requires
        idxs_ok(s, n),
    ensures
        idxs_ok(isort_child(beads, s), n),
    decreases s.len(),
{
    if s.len() > 0 {
        assert(idxs_ok(s.drop_last(), n));
        lemma_isort_child_ok(beads, s.drop_last(), n);
        assert(s.last() == s[s.len() - 1]);
        lemma_ins_child_ok(beads, isort_child(beads, s.drop_last()), s.last(), n);
    }
}

fn ins_root_exec(beads: &Vec<Bead>, sorted: Vec<usize>, x: usize) -> (r: Vec<usize>)
    requires
        idxs_ok(sorted@, beads@.len() as int),
        x < beads@.len(),
    ensures
        r@ == ins_root(beads@, sorted@, x),
    decreases sorted@.len(),
{
    if sorted.len() == 0 {
        let mut r: Vec<usize> = Vec::new();
        r.push(x);
        assert(r@ =~= seq![x]);
        r
    } else {
        let last = sorted[sorted.len() - 1];
        if root_lt_exec(beads, x, last) {
            let mut s2 = sorted;
            let ghost s0 = s2@;
            s2.truncate(s2.len() - 1);
            assert(s2@ =~= s0.drop_last());
            assert(idxs_ok(s2@, beads@.len() as int));
            let mut r = ins_root_exec(beads, s2, x);
            r.push(last);
            r
        } else {
            let mut r = sorted;
            r.push(x);
            r
        }
    }
}

fn isort_root_exec(beads: &Vec<Bead>, s: Vec<usize>) -> (r: Vec<usize>)
    requires
        idxs_ok(s@, beads@.len() as int),
    ensures
        r@ == isort_root(beads@, s@),
        idxs_ok(r@, beads@.len() as int),
    decreases s@.len(),
{
    proof {
        lemma_isort_root_ok(beads@, s@, beads@.len() as int);
    }
    if s.len() == 0 {
        let r: Vec<usize> = Vec::new();
        assert(r@ =~= isort_root(beads@, s@));
        r
    } else {
        let mut s2 = s;
        let ghost s0 = s2@;
        let last = s2[s2.len() - 1];
        s2.truncate(s2.len() - 1);
        assert(s2@ =~= s0.drop_last());
        assert(idxs_ok(s2@, beads@.len() as int));
        let rec = isort_root_exec(beads, s2);
        ins_root_exec(beads, rec, last)
    }
}

fn ins_child_exec(beads: &Vec<Bead>, sorted: Vec<usize>, x: usize) -> (r: Vec<usize>)
    requires
        idxs_ok(sorted@, beads@.len() as int),
        x < beads@.len(),
    ensures
        r@ == ins_child(beads@, sorted@, x),
    decreases sorted@.len(),
{
    if sorted.len() == 0 {
        let mut r: Vec<usize> = Vec::new();
        r.push(x);
        assert(r@ =~= seq![x]);
        r
    } else {
        let last = sorted[sorted.len() - 1];
        if child_before_exec(beads, x, last) {
            let mut s2 = sorted;
            let ghost s0 = s2@;
            s2.truncate(s2.len() - 1);
            assert(s2@ =~= s0.drop_last());
            assert(idxs_ok(s2@, beads@.len() as int));
            let mut r = ins_child_exec(beads, s2, x);
            r.push(last);
            r
        } else {
            let mut r = sorted;
            r.push(x);
            r
        }
    }
}

fn isort_child_exec(beads: &Vec<Bead>, s: Vec<usize>) -> (r: Vec<usize>)
    requires
        idxs_ok(s@, beads@.len() as int),
    ensures
        r@ == isort_child(beads@, s@),
        idxs_ok(r@, beads@.len() as int),
    decreases s@.len(),
{
    proof {
        lemma_isort_child_ok(beads@, s@, beads@.len() as int);
    }
    if s.len() == 0 {
        let r: Vec<usize> = Vec::new();
        assert(r@ =~= isort_child(beads@, s@));
        r
    } else {
        let mut s2 = s;
        let ghost s0 = s2@;
        let last = s2[s2.len() - 1];
        s2.truncate(s2.len() - 1);
        assert(s2@ =~= s0.drop_last());
        assert(idxs_ok(s2@, beads@.len() as int));
        let rec = isort_child_exec(beads, s2);
        ins_child_exec(beads, rec, last)
    }
}

/// Pair each index with a fixed depth.
pub open spec fn with_depth(s: Seq<usize>, d: usize) -> Seq<(usize, usize)> {
    Seq::new(s.len(), |i: int| (s[i], d))
}

/// How many entries of `s` are still false.
pub open spec fn count_false(s: Seq<bool>) -> nat
    decreases s.len(),
{
    if s.len() == 0 {
        0
    } else {
        count_false(s.drop_last()) + if s.last() {
            0nat
        } else {
            1nat
        }
    }
}

proof fn lemma_count_false_le(s: Seq<bool>)
    ensures
        count_false(s) <= s.len(),
    decreases s.len(),
{
    if s.len() > 0 {
        lemma_count_false_le(s.drop_last());
    }
}

pub proof fn lemma_count_false_update(s: Seq<bool>, i: int)
    requires
        0 <= i < s.len(),
        !s[i],
    ensures
        count_false(s.update(i, true)) == count_false(s) - 1,
    decreases s.len(),
{
    if i == s.len() - 1 {
        assert(s.update(i, true).drop_last() =~= s.drop_last());
        assert(s.update(i, true).last());
    } else {
        assert(s.update(i, true).drop_last() =~= s.drop_last().update(i, true));
        assert(s.update(i, true).last() == s.last());
        lemma_count_false_update(s.drop_last(), i);
    }
}

/// Every stack entry's index is below `n`.
pub open spec fn stack_ok(st: Seq<(usize, usize)>, n: int) -> bool {
    forall|k: int| 0 <= k < st.len() ==> ((#[trigger] st[k]).0 as int) < n
}

/// Depth-first traversal: pop the top of the stack; skip it if already
/// visited, otherwise emit it and push its sorted children one level deeper.
pub open spec fn dfs(
    beads: Seq<Bead>,
    nc: Seq<usize>,
    stack: Seq<(usize, usize)>,
    visited: Seq<bool>,
) -> Seq<(usize, usize)>
    decreases count_false(visited), stack.len(),
        when idxs_ok(nc, visited.len() as int) && stack_ok(stack, visited.len() as int)
{
    if stack.len() == 0 {
        Seq::empty()
    } else {
        let top = stack.last();
        let rest = stack.drop_last();
        if visited[top.0 as int] {
            dfs(beads, nc, rest, visited)
        } else {
            let visited2 = visited.update(top.0 as int, true);
            let kids = isort_child(beads, children_of(beads, nc, top.0));
            let stack2 = rest + with_depth(kids, (top.1 + 1) as usize);
            proof {
                lemma_count_false_update(visited, top.0 as int);
                lemma_children_ok(beads, nc, top.0, visited.len() as int);
                lemma_isort_child_ok(
                    beads,
                    children_of(beads, nc, top.0),
                    visited.len() as int,
                );
                assert forall|k: int| 0 <= k < stack2.len() implies ((#[trigger] stack2[k]).0
                    as int) < visited2.len() by {
                    if k < rest.len() {
                        assert(rest[k] == stack[k]);
                    } else {
                        assert(stack2[k].0 == kids[k - rest.len()]);
                    }
                }
            }
            seq![top] + dfs(beads, nc, stack2, visited2)
        }
    }
}

/// The display order: the depth-first layout of the non-closed survivors,
/// then the closed survivors flat at depth zero, in load order.
pub open spec fn tree_order(beads: Seq<Bead>, h: bool, f: Option<Seq<char>>) -> Seq<(usize, usize)> {
    let nc = non_closed_idxs(beads, h, f);
    let cl = closed_idxs(beads, h, f);
    let roots = isort_root(beads, roots_of(beads, nc));
    let visited0 = Seq::new(beads.len(), |i: int| false);
    dfs(beads, nc, with_depth(roots, 0).reverse(), visited0) + with_depth(cl, 0)
}

/// Build the display order as (index into `beads`, depth) pairs. The result
/// is exactly `tree_order` of the inputs: a pure function of the bead
/// collection, the hide-closed flag and the filter text.
pub fn build_tree_order(beads: &Vec<Bead>, hide_closed: bool, filter: Option<&str>) -> (r: Vec<
    (usize, usize),
>)
    ensures
        r@ == tree_order(beads@, hide_closed, opt_str_view(filter)),
        idxs_ok_pairs(r@, beads@.len() as int),
{
    let ghost f = opt_str_view(filter);
    let n = beads.len();
    let low: Option<String> = match filter {
        None => None,
        Some(q) => Some(to_lower(q)),
    };
    let nc = select_idxs(beads, hide_closed, &low, Ghost(f), false);
    let cl = select_idxs(beads, hide_closed, &low, Ghost(f), true);
    let roots_raw = roots_exec(beads, &nc);
    let roots = isort_root_exec(beads, roots_raw);

    // initial stack: roots reversed, all at depth zero
    let mut stack: Vec<(usize, usize)> = Vec::new();
    let mut k: usize = roots.len();
    while k > 0
        invariant
            0 <= k <= roots@.len(),
            idxs_ok(roots@, n as int),
            stack@.len() == roots@.len() - k,
            forall|m: int|
                0 <= m < stack@.len() ==> #[trigger] stack@[m] == (
                roots@[roots@.len() - 1 - m],
                0usize,
            ),
        decreases k,
    {
        k = k - 1;
        stack.push((roots[k], 0));
    }
    proof {
        assert(stack@ =~= with_depth(roots@, 0).reverse());
    }

    let mut visited: Vec<bool> = vec![false; n];
    let mut result: Vec<(usize, usize)> = Vec::new();
    proof {
        assert(visited@ =~= Seq::new(beads@.len(), |i: int| false));
        lemma_count_false_le(visited@);
    }
    let ghost target = dfs(beads@, nc@, stack@, visited@);

    while stack.len() > 0
        invariant
            n == beads@.len(),
            visited@.len() == n,
            idxs_ok(nc@, n as int),
            stack_ok(stack@, n as int),
            forall|m: int|
                0 <= m < stack@.len() ==> (#[trigger] stack@[m]).1 + count_false(visited@) <= n,
            result@ + dfs(beads@, nc@, stack@, visited@) == target,
            idxs_ok_pairs(result@, n as int),
        decreases count_false(visited@), stack@.len(),
    {
        let li = stack.len() - 1;
        let top = stack[li];
        let ghost pre_stack = stack@;
        stack.truncate(li);
        proof {
            assert(stack@ =~= pre_stack.drop_last());
            assert(pre_stack.last() == top);
        }
        let idx = top.0;
        let depth = top.1;
        if visited[idx] {
            // dfs skips an already-visited entry
        } else {
            let ghost pre_visited = visited@;
            visited[idx] = true;
            proof {
                assert(visited@ =~= pre_visited.update(idx as int, true));
                lemma_count_false_update(pre_visited, idx as int);
            }
            result.push(top);
            let kids_raw = children_exec(beads, &nc, idx);
            let kids = isort_child_exec(beads, kids_raw);
            proof {
                assert(depth + count_false(pre_visited) <= n);
                assert(count_false(pre_visited) >= 1);
            }
            let d2 = depth + 1;
            let ghost mid_stack = stack@;
            let mut j: usize = 0;
            while j < kids.len()
                invariant
                    idxs_ok(kids@, n as int),
                    n == beads@.len(),
                    d2 == depth + 1,
                    0 <= j <= kids@.len(),
                    stack@ == mid_stack + with_depth(kids@.take(j as int), d2),
                decreases kids@.len() - j,
            {
                stack.push((kids[j], d2));
                proof {
                    assert(stack@ =~= mid_stack + with_depth(kids@.take(j + 1), d2));
                }
                j = j + 1;
            }
            proof {
                assert(kids@.take(kids@.len() as int) =~= kids@);
                assert(stack@ =~= mid_stack + with_depth(kids@, d2));
                let ghost old_result = result@.drop_last();
                assert(result@ =~= result@.drop_last().push(top));
                assert(dfs(beads@, nc@, pre_stack, pre_visited) == seq![top] + dfs(
                    beads@,
                    nc@,
                    stack@,
                    visited@,
                ));
                assert(result@.drop_last() + (seq![top] + dfs(beads@, nc@, stack@, visited@))
                    =~= result@ + dfs(beads@, nc@, stack@, visited@));
                assert forall|m: int|
                    0 <= m < stack@.len() implies (#[trigger] stack@[m]).1 + count_false(
                    visited@,
                ) <= n by {
                    if m < mid_stack.len() {
                        assert(pre_stack[m] == mid_stack[m]);
                        assert(pre_stack[m].1 + count_false(pre_visited) <= n);
                    } else {
                        assert(stack@[m].1 == d2);
                    }
                }
            }
        }
    }
    proof {
        assert(result@ + dfs(beads@, nc@, stack@, visited@) =~= result@);
    }

    let mut c: usize = 0;
    let ghost base = result@;
    while c < cl.len()
        invariant
            idxs_ok(cl@, n as int),
            n == beads@.len(),
            0 <= c <= cl@.len(),
            result@ == base + with_depth(cl@.take(c as int), 0),
            idxs_ok_pairs(base, n as int),
        decreases cl@.len() - c,
    {
        result.push((cl[c], 0));
        proof {
            assert(result@ =~= base + with_depth(cl@.take(c + 1), 0));
        }
        c = c + 1;
    }
    proof {
        assert(cl@.take(cl@.len() as int) =~= cl@);
        assert(result@ =~= target + with_depth(cl@, 0));
        assert forall|m: int|
            0 <= m < result@.len() implies ((#[trigger] result@[m]).0 as int) < n by {
            if m < base.len() {
            } else {
                assert(result@[m].0 == cl@[m - base.len()]);
            }
        }
    }
    result
}

/// Every entry's index component is below `n`.
pub open spec fn idxs_ok_pairs(s: Seq<(usize, usize)>, n: int) -> bool {
    forall|k: int| 0 <= k < s.len() ==> ((#[trigger] s[k]).0 as int) < n
}

/// No index appears at two positions.
pub open spec fn entries_distinct(out: Seq<(usize, usize)>) -> bool {
    forall|i: int, j: int|
        0 <= i < j < out.len() ==> (#[trigger] out[i]).0 != (#[trigger] out[j]).0
}

/// Every entry's index is still unvisited.
pub open spec fn entries_fresh(out: Seq<(usize, usize)>, visited: Seq<bool>) -> bool {
    forall|i: int| 0 <= i < out.len() ==> !visited[((#[trigger] out[i]).0) as int]
}

/// Every element of `s` occurs in `pool`.
pub open spec fn all_in(s: Seq<usize>, pool: Seq<usize>) -> bool {
    forall|i: int| 0 <= i < s.len() ==> pool.contains(#[trigger] s[i])
}

/// Every stack entry's index occurs in `pool`.
pub open spec fn stack_all_in(st: Seq<(usize, usize)>, pool: Seq<usize>) -> bool {
    forall|i: int| 0 <= i < st.len() ==> pool.contains((#[trigger] st[i]).0)
}

proof fn lemma_sel_upto_props(beads: Seq<Bead>, h: bool, f: Option<Seq<char>>, closed: bool, n: int)
    requires
        n <= beads.len(),
        n <= usize::MAX,
    ensures
        forall|i: int|
            0 <= i < sel_upto(beads, h, f, closed, n).len() ==> survives(
                beads[(#[trigger] sel_upto(beads, h, f, closed, n)[i]) as int],
                h,
                f,
            ) && ((beads[(sel_upto(beads, h, f, closed, n)[i]) as int].status == BeadStatus::Closed)
                == closed),
        forall|i: int, j: int|
            0 <= i < j < sel_upto(beads, h, f, closed, n).len() ==> (#[trigger] sel_upto(
                beads,
                h,
                f,
                closed,
                n,
            )[i]) < (#[trigger] sel_upto(beads, h, f, closed, n)[j]),
    decreases n,
{
    if n > 0 {
        lemma_sel_upto_props(beads, h, f, closed, n - 1);
        lemma_sel_upto_ok(beads, h, f, closed, n - 1);
        let prev = sel_upto(beads, h, f, closed, n - 1);
        let cur = sel_upto(beads, h, f, closed, n);
        if survives(beads[n - 1], h, f) && ((beads[n - 1].status == BeadStatus::Closed)
            == closed) {
            assert(cur == prev.push((n - 1) as usize));
            assert forall|i: int| 0 <= i < cur.len() implies survives(
                beads[(#[trigger] cur[i]) as int],
                h,
                f,
            ) && ((beads[(cur[i]) as int].status == BeadStatus::Closed) == closed) by {
                if i < prev.len() {
                    assert(cur[i] == prev[i]);
                    assert(survives(beads[(prev[i]) as int], h, f));
                } else {
                    assert(cur[i] == (n - 1) as usize);
                }
            }
            assert forall|i: int, j: int| 0 <= i < j < cur.len() implies (#[trigger] cur[i])
                < (#[trigger] cur[j]) by {
                if j < prev.len() {
                    assert(cur[i] == prev[i] && cur[j] == prev[j]);
                    assert(prev[i] < prev[j]);
                } else {
                    assert(cur[i] == prev[i]);
                    assert(cur[j] == (n - 1) as usize);
                    assert(prev[i] < n - 1);
                }
            }
        } else {
            assert(cur == prev);
        }
    }
}

proof fn lemma_ins_root_in(beads: Seq<Bead>, sorted: Seq<usize>, x: usize, pool: Seq<usize>)
    requires
        all_in(sorted, pool),
        pool.contains(x),
    ensures
        all_in(ins_root(beads, sorted, x), pool),
    decreases sorted.len(),
{
    if sorted.len() == 0 {
        assert(ins_root(beads, sorted, x) =~= seq![x]);
    } else if root_lt(beads, x, sorted.last()) {
        assert(all_in(sorted.drop_last(), pool));
        lemma_ins_root_in(beads, sorted.drop_last(), x, pool);
        assert(pool.contains(sorted[sorted.len() - 1]));
        let r = ins_root(beads, sorted.drop_last(), x);
        assert forall|i: int|
            0 <= i < ins_root(beads, sorted, x).len() implies pool.contains(
            (#[trigger] ins_root(beads, sorted, x)[i]),
        ) by {
            if i < r.len() {
                assert(pool.contains(r[i]));
            }
        }
    } else {
        assert forall|i: int|
            0 <= i < ins_root(beads, sorted, x).len() implies pool.contains(
            (#[trigger] ins_root(beads, sorted, x)[i]),
        ) by {
            if i < sorted.len() {
                assert(pool.contains(sorted[i]));
            }
        }
    }
}

proof fn lemma_isort_root_in(beads: Seq<Bead>, s: Seq<usize>, pool: Seq<usize>)
    requires
        all_in(s, pool),
    ensures
        all_in(isort_root(beads, s), pool),
    decreases s.len(),
{
    if s.len() > 0 {
        assert(all_in(s.drop_last(), pool));
        lemma_isort_root_in(beads, s.drop_last(), pool);
        assert(pool.contains(s[s.len() - 1]));
        lemma_ins_root_in(beads, isort_root(beads, s.drop_last()), s.last(), pool);
    }
}

proof fn lemma_ins_child_in(beads: Seq<Bead>, sorted: Seq<usize>, x: usize, pool: Seq<usize>)
    requires
        all_in(sorted, pool),
        pool.contains(x),
    ensures
        all_in(ins_child(beads, sorted, x), pool),
    decreases sorted.len(),
{
    if sorted.len() == 0 {
        assert(ins_child(beads, sorted, x) =~= seq![x]);
    } else if child_before(beads, x, sorted.last()) {
        assert(all_in(sorted.drop_last(), pool));
        lemma_ins_child_in(beads, sorted.drop_last(), x, pool);
        assert(pool.contains(sorted[sorted.len() - 1]));
        let r = ins_child(beads, sorted.drop_last(), x);
        assert forall|i: int|
            0 <= i < ins_child(beads, sorted, x).len() implies pool.contains(
            (#[trigger] ins_child(beads, sorted, x)[i]),
        ) by {
            if i < r.len() {
                assert(pool.contains(r[i]));
            }
        }
    } else {
        assert forall|i: int|
            0 <= i < ins_child(beads, sorted, x).len() implies pool.contains(
            (#[trigger] ins_child(beads, sorted, x)[i]),
        ) by {
            if i < sorted.len() {
                assert(pool.contains(sorted[i]));
            }
        }
    }
}

proof fn lemma_isort_child_in(beads: Seq<Bead>, s: Seq<usize>, pool: Seq<usize>)
    requires
        all_in(s, pool),
    ensures
        all_in(isort_child(beads, s), pool),
    decreases s.len(),
{
    if s.len() > 0 {
        assert(all_in(s.drop_last(), pool));
        lemma_isort_child_in(beads, s.drop_last(), pool);
        assert(pool.contains(s[s.len() - 1]));
        lemma_ins_child_in(beads, isort_child(beads, s.drop_last()), s.last(), pool);
    }
}

proof fn lemma_children_in(beads: Seq<Bead>, nc: Seq<usize>, p: usize, pool: Seq<usize>)
    requires
        all_in(nc, pool),
    ensures
        all_in(children_of(beads, nc, p), pool),
    decreases nc.len(),
{
    if nc.len() > 0 {
        assert(all_in(nc.drop_last(), pool));
        lemma_children_in(beads, nc.drop_last(), p, pool);
        assert(pool.contains(nc[nc.len() - 1]));
        let rest = children_of(beads, nc.drop_last(), p);
        assert forall|i: int|
            0 <= i < children_of(beads, nc, p).len() implies pool.contains(
            (#[trigger] children_of(beads, nc, p)[i]),
        ) by {
            if i < rest.len() {
                assert(pool.contains(rest[i]));
            }
        }
    }
}

proof fn lemma_roots_in(beads: Seq<Bead>, nc: Seq<usize>, n: int)
    requires
        n <= nc.len(),
    ensures
        all_in(roots_upto(beads, nc, n), nc),
    decreases n,
{
    if n > 0 {
        lemma_roots_in(beads, nc, n - 1);
        let rest = roots_upto(beads, nc, n - 1);
        assert(nc.contains(nc[n - 1]));
        assert forall|i: int|
            0 <= i < roots_upto(beads, nc, n).len() implies nc.contains(
            (#[trigger] roots_upto(beads, nc, n)[i]),
        ) by {
            if i < rest.len() {
                assert(nc.contains(rest[i]));
            }
        }
    }
}

proof fn lemma_dfs_fresh(
    beads: Seq<Bead>,
    nc: Seq<usize>,
    stack: Seq<(usize, usize)>,
    visited: Seq<bool>,
)
    requires
        idxs_ok(nc, visited.len() as int),
        stack_ok(stack, visited.len() as int),
        stack_all_in(stack, nc),
    ensures
        entries_fresh(dfs(beads, nc, stack, visited), visited),
        entries_distinct(dfs(beads, nc, stack, visited)),
        idxs_ok_pairs(dfs(beads, nc, stack, visited), visited.len() as int),
        stack_all_in(dfs(beads, nc, stack, visited), nc),
    decreases count_false(visited), stack.len(),
{
    if stack.len() == 0 {
    } else {
        let top = stack.last();
        let rest = stack.drop_last();
        assert(stack[stack.len() - 1] == top);
        assert(stack_ok(rest, visited.len() as int));
        assert(stack_all_in(rest, nc));
        if visited[top.0 as int] {
            lemma_dfs_fresh(beads, nc, rest, visited);
            assert(dfs(beads, nc, stack, visited) == dfs(beads, nc, rest, visited));
        } else {
            let visited2 = visited.update(top.0 as int, true);
            let kids = isort_child(beads, children_of(beads, nc, top.0));
            let stack2 = rest + with_depth(kids, (top.1 + 1) as usize);
            lemma_count_false_update(visited, top.0 as int);
            lemma_children_ok(beads, nc, top.0, visited.len() as int);
            lemma_isort_child_ok(beads, children_of(beads, nc, top.0), visited.len() as int);
            lemma_children_in(beads, nc, top.0, nc);
            lemma_isort_child_in(beads, children_of(beads, nc, top.0), nc);
            assert forall|k: int| 0 <= k < stack2.len() implies ((#[trigger] stack2[k]).0 as int)
                < visited2.len() && nc.contains(stack2[k].0) by {
                if k < rest.len() {
                    assert(rest[k] == stack[k]);
                } else {
                    assert(stack2[k].0 == kids[k - rest.len()]);
                }
            }
            lemma_dfs_fresh(beads, nc, stack2, visited2);
            let tail = dfs(beads, nc, stack2, visited2);
            let out = dfs(beads, nc, stack, visited);
            assert(out == seq![top] + tail);
            assert(out[0] == top);
            assert forall|i: int| 0 <= i < out.len() implies !visited[((#[trigger] out[i]).0)
                as int] && ((out[i].0) as int) < visited.len() && nc.contains(out[i].0) by {
                if i > 0 {
                    assert(out[i] == tail[i - 1]);
                    assert(!visited2[(tail[i - 1].0) as int]);
                }
            }
            assert forall|i: int, j: int| 0 <= i < j < out.len() implies (#[trigger] out[i]).0
                != (#[trigger] out[j]).0 by {
                if i == 0 {
                    assert(out[j] == tail[j - 1]);
                    assert(!visited2[(tail[j - 1].0) as int]);
                    assert(visited2[top.0 as int]);
                } else {
                    assert(out[i] == tail[i - 1]);
                    assert(out[j] == tail[j - 1]);
                }
            }
        }
    }
}

/// Entry depths are explained in place: each entry is a root at depth zero,
/// or a registered child of an earlier entry one level up.
pub open spec fn depth_linked(beads: Seq<Bead>, out: Seq<(usize, usize)>) -> bool {
    forall|i: int|
        0 <= i < out.len() ==> ((#[trigger] out[i]).1 == 0 || exists|j: int|
            0 <= j < i && (#[trigger] out[j]).1 + 1 == out[i].1 && has_edge(
                beads[(out[j].0) as int],
                beads[(out[i].0) as int],
            ))
}

/// Every stack entry is at depth zero or a registered child of some entry
/// already in `prefix`, one level up.
pub open spec fn stack_linked(
    beads: Seq<Bead>,
    st: Seq<(usize, usize)>,
    prefix: Seq<(usize, usize)>,
) -> bool {
    forall|k: int|
        0 <= k < st.len() ==> ((#[trigger] st[k]).1 == 0 || exists|j: int|
            0 <= j < prefix.len() && (#[trigger] prefix[j]).1 + 1 == st[k].1 && has_edge(
                beads[(prefix[j].0) as int],
                beads[(st[k].0) as int],
            ))
}

proof fn lemma_prefix_push_linked(
    beads: Seq<Bead>,
    prefix: Seq<(usize, usize)>,
    top: (usize, usize),
)
    requires
        depth_linked(beads, prefix),
        top.1 == 0 || exists|j: int|
            0 <= j < prefix.len() && (#[trigger] prefix[j]).1 + 1 == top.1 && has_edge(
                beads[(prefix[j].0) as int],
                beads[(top.0) as int],
            ),
    ensures
        depth_linked(beads, prefix.push(top)),
{
    let prefix2 = prefix.push(top);
    assert forall|i: int| 0 <= i < prefix2.len() implies ((#[trigger] prefix2[i]).1 == 0 || exists|
        j: int,
    |
        0 <= j < i && (#[trigger] prefix2[j]).1 + 1 == prefix2[i].1 && has_edge(
            beads[(prefix2[j].0) as int],
            beads[(prefix2[i].0) as int],
        )) by {
        if i < prefix.len() {
            assert(prefix2[i] == prefix[i]);
            if prefix[i].1 != 0 {
                let j = choose|j: int|
                    0 <= j < i && (#[trigger] prefix[j]).1 + 1 == prefix[i].1 && has_edge(
                        beads[(prefix[j].0) as int],
                        beads[(prefix[i].0) as int],
                    );
                assert(prefix2[j] == prefix[j]);
                assert(0 <= j < i && prefix2[j].1 + 1 == prefix2[i].1 && has_edge(
                    beads[(prefix2[j].0) as int],
                    beads[(prefix2[i].0) as int],
                ));
            }
        } else {
            assert(prefix2[i] == top);
            if top.1 != 0 {
                let j = choose|j: int|
                    0 <= j < prefix.len() && (#[trigger] prefix[j]).1 + 1 == top.1 && has_edge(
                        beads[(prefix[j].0) as int],
                        beads[(top.0) as int],
                    );
                assert(prefix2[j] == prefix[j]);
                assert(0 <= j < i && prefix2[j].1 + 1 == prefix2[i].1 && has_edge(
                    beads[(prefix2[j].0) as int],
                    beads[(prefix2[i].0) as int],
                ));
            }
        }
    }
}

proof fn lemma_stack2_linked(
    beads: Seq<Bead>,
    rest: Seq<(usize, usize)>,
    kids: Seq<usize>,
    top: (usize, usize),
    prefix: Seq<(usize, usize)>,
)
    requires
        top.1 < usize::MAX,
        stack_linked(beads, rest, prefix),
        forall|i: int|
            0 <= i < kids.len() ==> has_edge(beads[(top.0) as int], beads[(#[trigger] kids[i]) as int]),
    ensures
        stack_linked(
            beads,
            rest + with_depth(kids, (top.1 + 1) as usize),
            prefix.push(top),
        ),
{
    let prefix2 = prefix.push(top);
    let stack2 = rest + with_depth(kids, (top.1 + 1) as usize);
    assert forall|k: int| 0 <= k < stack2.len() implies ((#[trigger] stack2[k]).1 == 0 || exists|
        j: int,
    |
        0 <= j < prefix2.len() && (#[trigger] prefix2[j]).1 + 1 == stack2[k].1 && has_edge(
            beads[(prefix2[j].0) as int],
            beads[(stack2[k].0) as int],
        )) by {
        if k < rest.len() {
            assert(stack2[k] == rest[k]);
            if rest[k].1 != 0 {
                let j = choose|j: int|
                    0 <= j < prefix.len() && (#[trigger] prefix[j]).1 + 1 == rest[k].1 && has_edge(
                        beads[(prefix[j].0) as int],
                        beads[(rest[k].0) as int],
                    );
                assert(prefix2[j] == prefix[j]);
                assert(0 <= j < prefix2.len() && prefix2[j].1 + 1 == stack2[k].1 && has_edge(
                    beads[(prefix2[j].0) as int],
                    beads[(stack2[k].0) as int],
                ));
            }
        } else {
            let kid = kids[k - rest.len()];
            assert(stack2[k] == (kid, (top.1 + 1) as usize));
            assert(has_edge(beads[(top.0) as int], beads[kid as int]));
            let j = prefix.len() as int;
            assert(prefix2[j] == top);
            assert(0 <= j < prefix2.len() && prefix2[j].1 + 1 == stack2[k].1 && has_edge(
                beads[(prefix2[j].0) as int],
                beads[(stack2[k].0) as int],
            ));
        }
    }
}

proof fn lemma_dfs_depths(
    beads: Seq<Bead>,
    nc: Seq<usize>,
    stack: Seq<(usize, usize)>,
    visited: Seq<bool>,
    prefix: Seq<(usize, usize)>,
)
    requires
        visited.len() <= usize::MAX,
        idxs_ok(nc, visited.len() as int),
        stack_ok(stack, visited.len() as int),
        stack_linked(beads, stack, prefix),
        forall|k: int|
            0 <= k < stack.len() ==> (#[trigger] stack[k]).1 + count_false(visited)
                <= visited.len(),
        depth_linked(beads, prefix),
    ensures
        depth_linked(beads, prefix + dfs(beads, nc, stack, visited)),
    decreases count_false(visited), stack.len(),
{
    let out = dfs(beads, nc, stack, visited);
    if stack.len() == 0 {
        assert(prefix + out =~= prefix);
    } else {
        let top = stack.last();
        let rest = stack.drop_last();
        assert(stack[stack.len() - 1] == top);
        assert(stack_ok(rest, visited.len() as int));
        assert(stack_linked(beads, rest, prefix));
        assert(forall|k: int|
            0 <= k < rest.len() ==> (#[trigger] rest[k]).1 + count_false(visited)
                <= visited.len());
        if visited[top.0 as int] {
            lemma_dfs_depths(beads, nc, rest, visited, prefix);
            assert(out == dfs(beads, nc, rest, visited));
        } else {
            let visited2 = visited.update(top.0 as int, true);
            let kids = isort_child(beads, children_of(beads, nc, top.0));
            let stack2 = rest + with_depth(kids, (top.1 + 1) as usize);
            let prefix2 = prefix.push(top);
            lemma_count_false_update(visited, top.0 as int);
            lemma_children_ok(beads, nc, top.0, visited.len() as int);
            lemma_isort_child_ok(beads, children_of(beads, nc, top.0), visited.len() as int);
            lemma_children_has_edge(beads, nc, top.0);
            lemma_isort_child_edge(beads, children_of(beads, nc, top.0), top.0);
            assert(top.1 + count_false(visited) <= visited.len());
            assert(count_false(visited) >= 1);
            assert(top.1 < usize::MAX);
            lemma_prefix_push_linked(beads, prefix, top);
            lemma_stack2_linked(beads, rest, kids, top, prefix);
            assert forall|k: int| 0 <= k < stack2.len() implies ((#[trigger] stack2[k]).0 as int)
                < visited2.len() && stack2[k].1 + count_false(visited2) <= visited2.len() by {
                if k < rest.len() {
                    assert(rest[k] == stack[k]);
                } else {
                    assert(stack2[k].0 == kids[k - rest.len()]);
                    assert(stack2[k].1 == (top.1 + 1) as usize);
                }
            }
            lemma_dfs_depths(beads, nc, stack2, visited2, prefix2);
            let tail = dfs(beads, nc, stack2, visited2);
            assert(out == seq![top] + tail);
            assert(prefix + out =~= prefix2 + tail);
        }
    }
}

proof fn lemma_children_has_edge(beads: Seq<Bead>, nc: Seq<usize>, p: usize)
    ensures
        forall|i: int|
            0 <= i < children_of(beads, nc, p).len() ==> has_edge(
                beads[p as int],
                beads[(#[trigger] children_of(beads, nc, p)[i]) as int],
            ),
    decreases nc.len(),
{
    if nc.len() > 0 {
        lemma_children_has_edge(beads, nc.drop_last(), p);
        let rest = children_of(beads, nc.drop_last(), p);
        assert forall|i: int|
            0 <= i < children_of(beads, nc, p).len() implies has_edge(
            beads[p as int],
            beads[(#[trigger] children_of(beads, nc, p)[i]) as int],
        ) by {
            if i < rest.len() {
                assert(has_edge(beads[p as int], beads[(rest[i]) as int]));
            }
        }
    }
}

proof fn lemma_ins_child_edge(beads: Seq<Bead>, sorted: Seq<usize>, x: usize, p: usize)
    requires
        forall|i: int|
            0 <= i < sorted.len() ==> has_edge(beads[p as int], beads[(#[trigger] sorted[i]) as int]),
        has_edge(beads[p as int], beads[x as int]),
    ensures
        forall|i: int|
            0 <= i < ins_child(beads, sorted, x).len() ==> has_edge(
                beads[p as int],
                beads[(#[trigger] ins_child(beads, sorted, x)[i]) as int],
            ),
    decreases sorted.len(),
{
    if sorted.len() == 0 {
        assert(ins_child(beads, sorted, x) =~= seq![x]);
    } else if child_before(beads, x, sorted.last()) {
        lemma_ins_child_edge(beads, sorted.drop_last(), x, p);
        assert(has_edge(beads[p as int], beads[(sorted[sorted.len() - 1]) as int]));
        let r = ins_child(beads, sorted.drop_last(), x);
        assert forall|i: int|
            0 <= i < ins_child(beads, sorted, x).len() implies has_edge(
            beads[p as int],
            beads[(#[trigger] ins_child(beads, sorted, x)[i]) as int],
        ) by {
            if i < r.len() {
                assert(has_edge(beads[p as int], beads[(r[i]) as int]));
            }
        }
    } else {
        assert forall|i: int|
            0 <= i < ins_child(beads, sorted, x).len() implies has_edge(
            beads[p as int],
            beads[(#[trigger] ins_child(beads, sorted, x)[i]) as int],
        ) by {
            if i < sorted.len() {
                assert(has_edge(beads[p as int], beads[(sorted[i]) as int]));
            }
        }
    }
}

proof fn lemma_isort_child_edge(beads: Seq<Bead>, s: Seq<usize>, p: usize)
    requires
        forall|i: int|
            0 <= i < s.len() ==> has_edge(beads[p as int], beads[(#[trigger] s[i]) as int]),
    ensures
        forall|i: int|
            0 <= i < isort_child(beads, s).len() ==> has_edge(
                beads[p as int],
                beads[(#[trigger] isort_child(beads, s)[i]) as int],
            ),
    decreases s.len(),
{
    if s.len() > 0 {
        lemma_isort_child_edge(beads, s.drop_last(), p);
        assert(has_edge(beads[p as int], beads[(s[s.len() - 1]) as int]));
        lemma_ins_child_edge(beads, isort_child(beads, s.drop_last()), s.last(), p);
    }
}

/// Determinism: the display order is a pure function of the collection,
/// the hide-closed flag and the filter; computing it twice over equal
/// inputs yields identical sequences.
pub proof fn lemma_tree_order_deterministic(
    r1: Seq<(usize, usize)>,
    r2: Seq<(usize, usize)>,
    beads: Seq<Bead>,
    h: bool,
    f: Option<Seq<char>>,
)
    requires
        r1 == tree_order(beads, h, f),
        r2 == tree_order(beads, h, f),
    ensures
        r1 == r2,
{
}

/// Filter idempotence: with no state change in between, a second
/// application of the same non-empty filter yields a view of the same
/// length as the first.
pub proof fn lemma_filter_idempotent(
    r1: Seq<(usize, usize)>,
    r2: Seq<(usize, usize)>,
    beads: Seq<Bead>,
    h: bool,
    q: Seq<char>,
)
    requires
        q.len() > 0,
        r1 == tree_order(beads, h, Some(q)),
        r2 == tree_order(beads, h, Some(q)),
    ensures
        r1.len() == r2.len(),
{
}

/// No duplicates: no bead index appears twice in the display order, even
/// when a bead is reachable both through a parent edge and a blocked-by
/// edge.
pub proof fn lemma_tree_order_no_duplicates(beads: Seq<Bead>, h: bool, f: Option<Seq<char>>)
    requires
        beads.len() <= usize::MAX,
    ensures
        entries_distinct(tree_order(beads, h, f)),
        idxs_ok_pairs(tree_order(beads, h, f), beads.len() as int),
{
    let nc = non_closed_idxs(beads, h, f);
    let cl = closed_idxs(beads, h, f);
    let roots = isort_root(beads, roots_of(beads, nc));
    let visited0 = Seq::new(beads.len(), |i: int| false);
    let stack0 = with_depth(roots, 0).reverse();
    let dout = dfs(beads, nc, stack0, visited0);
    let out = tree_order(beads, h, f);
    lemma_sel_upto_ok(beads, h, f, false, beads.len() as int);
    lemma_sel_upto_ok(beads, h, f, true, beads.len() as int);
    lemma_sel_upto_props(beads, h, f, false, beads.len() as int);
    lemma_sel_upto_props(beads, h, f, true, beads.len() as int);
    lemma_roots_in(beads, nc, nc.len() as int);
    lemma_isort_root_in(beads, roots_of(beads, nc), nc);
    lemma_isort_root_ok(beads, roots_of(beads, nc), beads.len() as int);
    assert forall|k: int| 0 <= k < stack0.len() implies ((#[trigger] stack0[k]).0 as int)
        < visited0.len() && nc.contains(stack0[k].0) by {
        assert(stack0[k].0 == roots[roots.len() - 1 - k]);
    }
    lemma_dfs_fresh(beads, nc, stack0, visited0);
    assert(out == dout + with_depth(cl, 0));
    assert forall|i: int, j: int| 0 <= i < j < out.len() implies (#[trigger] out[i]).0
        != (#[trigger] out[j]).0 by {
        if j < dout.len() {
            assert(out[i] == dout[i] && out[j] == dout[j]);
        } else if i >= dout.len() {
            assert(out[i].0 == cl[i - dout.len()] && out[j].0 == cl[j - dout.len()]);
        } else {
            // one entry is non-closed, the other closed
            assert(out[i] == dout[i]);
            assert(out[j].0 == cl[j - dout.len()]);
            assert(nc.contains(dout[i].0));
            let k = choose|k: int| 0 <= k < nc.len() && nc[k] == dout[i].0;
            assert(beads[(nc[k]) as int].status != BeadStatus::Closed);
            assert(beads[(cl[j - dout.len()]) as int].status == BeadStatus::Closed);
        }
    }
    assert forall|m: int| 0 <= m < out.len() implies ((#[trigger] out[m]).0 as int)
        < beads.len() by {
        if m < dout.len() {
            assert(out[m] == dout[m]);
        } else {
            assert(out[m].0 == cl[m - dout.len()]);
        }
    }
}

/// Index `i` appears somewhere in the output.
pub open spec fn appears(out: Seq<(usize, usize)>, i: usize) -> bool {
    exists|m: int| 0 <= m < out.len() && (#[trigger] out[m]).0 == i
}

/// Index `i` sits somewhere on the stack.
pub open spec fn stack_has(st: Seq<(usize, usize)>, i: usize) -> bool {
    exists|k: int| 0 <= k < st.len() && (#[trigger] st[k]).0 == i
}

proof fn lemma_ins_child_complete(beads: Seq<Bead>, sorted: Seq<usize>, x: usize)
    ensures
        forall|y: usize| sorted.contains(y) ==> ins_child(beads, sorted, x).contains(y),
        ins_child(beads, sorted, x).contains(x),
    decreases sorted.len(),
{
    let out = ins_child(beads, sorted, x);
    if sorted.len() == 0 {
        assert(out =~= seq![x]);
        assert(out[0] == x);
    } else if child_before(beads, x, sorted.last()) {
        lemma_ins_child_complete(beads, sorted.drop_last(), x);
        let rec = ins_child(beads, sorted.drop_last(), x);
        assert(out == rec.push(sorted.last()));
        assert forall|y: usize| sorted.contains(y) implies out.contains(y) by {
            let k = choose|k: int| 0 <= k < sorted.len() && sorted[k] == y;
            if k < sorted.len() - 1 {
                assert(sorted.drop_last()[k] == y);
                assert(sorted.drop_last().contains(y));
                let m = choose|m: int| 0 <= m < rec.len() && rec[m] == y;
                assert(out[m] == y);
            } else {
                assert(out[out.len() - 1] == y);
            }
        }
        let m = choose|m: int| 0 <= m < rec.len() && rec[m] == x;
        assert(out[m] == x);
    } else {
        assert(out == sorted.push(x));
        assert forall|y: usize| sorted.contains(y) implies out.contains(y) by {
            let k = choose|k: int| 0 <= k < sorted.len() && sorted[k] == y;
            assert(out[k] == y);
        }
        assert(out[out.len() - 1] == x);
    }
}

proof fn lemma_isort_child_complete(beads: Seq<Bead>, s: Seq<usize>)
    ensures
        forall|y: usize| s.contains(y) ==> isort_child(beads, s).contains(y),
    decreases s.len(),
{
    if s.len() > 0 {
        lemma_isort_child_complete(beads, s.drop_last());
        lemma_ins_child_complete(beads, isort_child(beads, s.drop_last()), s.last());
        let rec = isort_child(beads, s.drop_last());
        let out = isort_child(beads, s);
        assert forall|y: usize| s.contains(y) implies out.contains(y) by {
            let k = choose|k: int| 0 <= k < s.len() && s[k] == y;
            if k < s.len() - 1 {
                assert(s.drop_last()[k] == y);
                assert(s.drop_last().contains(y));
                assert(rec.contains(y));
            } else {
                assert(y == s.last());
            }
        }
    }
}

proof fn lemma_ins_root_complete(beads: Seq<Bead>, sorted: Seq<usize>, x: usize)
    ensures
        forall|y: usize| sorted.contains(y) ==> ins_root(beads, sorted, x).contains(y),
        ins_root(beads, sorted, x).contains(x),
    decreases sorted.len(),
{
    let out = ins_root(beads, sorted, x);
    if sorted.len() == 0 {
        assert(out =~= seq![x]);
        assert(out[0] == x);
    } else if root_lt(beads, x, sorted.last()) {
        lemma_ins_root_complete(beads, sorted.drop_last(), x);
        let rec = ins_root(beads, sorted.drop_last(), x);
        assert(out == rec.push(sorted.last()));
        assert forall|y: usize| sorted.contains(y) implies out.contains(y) by {
            let k = choose|k: int| 0 <= k < sorted.len() && sorted[k] == y;
            if k < sorted.len() - 1 {
                assert(sorted.drop_last()[k] == y);
                assert(sorted.drop_last().contains(y));
                let m = choose|m: int| 0 <= m < rec.len() && rec[m] == y;
                assert(out[m] == y);
            } else {
                assert(out[out.len() - 1] == y);
            }
        }
        let m = choose|m: int| 0 <= m < rec.len() && rec[m] == x;
        assert(out[m] == x);
    } else {
        assert(out == sorted.push(x));
        assert forall|y: usize| sorted.contains(y) implies out.contains(y) by {
            let k = choose|k: int| 0 <= k < sorted.len() && sorted[k] == y;
            assert(out[k] == y);
        }
        assert(out[out.len() - 1] == x);
    }
}

proof fn lemma_isort_root_complete(beads: Seq<Bead>, s: Seq<usize>)
    ensures
        forall|y: usize| s.contains(y) ==> isort_root(beads, s).contains(y),
    decreases s.len(),
{
    if s.len() > 0 {
        lemma_isort_root_complete(beads, s.drop_last());
        lemma_ins_root_complete(beads, isort_root(beads, s.drop_last()), s.last());
        let rec = isort_root(beads, s.drop_last());
        let out = isort_root(beads, s);
        assert forall|y: usize| s.contains(y) implies out.contains(y) by {
            let k = choose|k: int| 0 <= k < s.len() && s[k] == y;
            if k < s.len() - 1 {
                assert(s.drop_last()[k] == y);
                assert(s.drop_last().contains(y));
                assert(rec.contains(y));
            } else {
                assert(y == s.last());
            }
        }
    }
}

/// Every registered child of an already-emitted bead is either already
/// emitted or still waiting on the stack.
pub open spec fn closure_inv(
    beads: Seq<Bead>,
    nc: Seq<usize>,
    emitted: Seq<(usize, usize)>,
    stack: Seq<(usize, usize)>,
) -> bool {
    forall|m: int, c: int|
        #![trigger children_of(beads, nc, emitted[m].0)[c]]
        0 <= m < emitted.len() && 0 <= c < children_of(beads, nc, emitted[m].0).len() ==> appears(
            emitted,
            children_of(beads, nc, emitted[m].0)[c],
        ) || stack_has(stack, children_of(beads, nc, emitted[m].0)[c])
}

#[verifier::rlimit(100)]
#[verifier::spinoff_prover]
proof fn lemma_dfs_coverage(
    beads: Seq<Bead>,
    nc: Seq<usize>,
    stack: Seq<(usize, usize)>,
    visited: Seq<bool>,
    emitted: Seq<(usize, usize)>,
)
    requires
        visited.len() <= usize::MAX,
        idxs_ok(nc, visited.len() as int),
        stack_ok(stack, visited.len() as int),
        forall|i: int|
            0 <= i < visited.len() ==> (visited[i] <==> appears(emitted, i as usize)),
        closure_inv(beads, nc, emitted, stack),
    ensures
        forall|k: int|
            0 <= k < stack.len() ==> appears(
                emitted + dfs(beads, nc, stack, visited),
                (#[trigger] stack[k]).0,
            ),
        closure_inv(beads, nc, emitted + dfs(beads, nc, stack, visited), Seq::empty()),
    decreases count_false(visited), stack.len(),
{
    let out = emitted + dfs(beads, nc, stack, visited);
    if stack.len() == 0 {
        assert(out =~= emitted);
        assert forall|m: int, c: int|
            #![trigger children_of(beads, nc, out[m].0)[c]]
            0 <= m < out.len() && 0 <= c < children_of(beads, nc, out[m].0).len() implies appears(
            out,
            children_of(beads, nc, out[m].0)[c],
        ) || stack_has(Seq::empty(), children_of(beads, nc, out[m].0)[c]) by {
            assert(out[m] == emitted[m]);
            let kid = children_of(beads, nc, emitted[m].0)[c];
            assert(appears(emitted, kid) || stack_has(stack, kid));
        }
    } else {
        let top = stack.last();
        let rest = stack.drop_last();
        assert(stack[stack.len() - 1] == top);
        assert(stack_ok(rest, visited.len() as int));
        if visited[top.0 as int] {
            // the top is already emitted; children it owes are owed by that
            // earlier occurrence, whose stack entries are all in `rest` or
            // emitted
            assert(appears(emitted, top.0));
            assert forall|m: int, c: int|
                #![trigger children_of(beads, nc, emitted[m].0)[c]]
                0 <= m < emitted.len() && 0 <= c < children_of(beads, nc, emitted[m].0).len()
                implies appears(emitted, children_of(beads, nc, emitted[m].0)[c]) || stack_has(
                rest,
                children_of(beads, nc, emitted[m].0)[c],
            ) by {
                let kid = children_of(beads, nc, emitted[m].0)[c];
                assert(appears(emitted, kid) || stack_has(stack, kid));
                if !appears(emitted, kid) {
                    let k = choose|k: int| 0 <= k < stack.len() && stack[k].0 == kid;
                    if k == stack.len() - 1 {
                        assert(kid == top.0);
                        assert(appears(emitted, kid));
                    } else {
                        assert(rest[k].0 == kid);
                        assert(stack_has(rest, kid));
                    }
                }
            }
            lemma_dfs_coverage(beads, nc, rest, visited, emitted);
            assert(dfs(beads, nc, stack, visited) == dfs(beads, nc, rest, visited));
            assert forall|k: int| 0 <= k < stack.len() implies appears(
                out,
                (#[trigger] stack[k]).0,
            ) by {
                if k == stack.len() - 1 {
                    let m = choose|m: int| 0 <= m < emitted.len() && emitted[m].0 == top.0;
                    assert(out[m].0 == top.0);
                } else {
                    assert(rest[k] == stack[k]);
                    assert(appears(out, rest[k].0));
                }
            }
        } else {
            let visited2 = visited.update(top.0 as int, true);
            let kids = isort_child(beads, children_of(beads, nc, top.0));
            let stack2 = rest + with_depth(kids, (top.1 + 1) as usize);
            let emitted2 = emitted.push(top);
            lemma_count_false_update(visited, top.0 as int);
            lemma_children_ok(beads, nc, top.0, visited.len() as int);
            lemma_isort_child_ok(beads, children_of(beads, nc, top.0), visited.len() as int);
            lemma_isort_child_complete(beads, children_of(beads, nc, top.0));
            assert forall|k: int| 0 <= k < stack2.len() implies ((#[trigger] stack2[k]).0 as int)
                < visited2.len() by {
                if k < rest.len() {
                    assert(rest[k] == stack[k]);
                } else {
                    assert(stack2[k].0 == kids[k - rest.len()]);
                }
            }
            // the emitted-visited correspondence carries to the new state
            assert(emitted2[emitted.len() as int] == top);
            assert forall|i: int| 0 <= i < visited2.len() implies (visited2[i] <==> appears(
                emitted2,
                i as usize,
            )) by {
                if i == top.0 as int {
                    assert(appears(emitted2, top.0));
                } else {
                    assert((i as usize) as int == i);
                    if appears(emitted2, i as usize) {
                        let m = choose|m: int|
                            0 <= m < emitted2.len() && emitted2[m].0 == i as usize;
                        assert(m < emitted.len());
                        assert(emitted[m].0 == i as usize);
                        assert(appears(emitted, i as usize));
                    }
                    if appears(emitted, i as usize) {
                        let m = choose|m: int| 0 <= m < emitted.len() && emitted[m].0 == i as usize;
                        assert(emitted2[m].0 == i as usize);
                    }
                }
            }
            // the closure invariant carries to the new state
            assert forall|m: int, c: int|
                #![trigger children_of(beads, nc, emitted2[m].0)[c]]
                0 <= m < emitted2.len() && 0 <= c < children_of(beads, nc, emitted2[m].0).len()
                implies appears(emitted2, children_of(beads, nc, emitted2[m].0)[c]) || stack_has(
                stack2,
                children_of(beads, nc, emitted2[m].0)[c],
            ) by {
                let kid = children_of(beads, nc, emitted2[m].0)[c];
                if m < emitted.len() {
                    assert(emitted2[m] == emitted[m]);
                    assert(appears(emitted, kid) || stack_has(stack, kid));
                    if appears(emitted, kid) {
                        let w = choose|w: int| 0 <= w < emitted.len() && emitted[w].0 == kid;
                        assert(emitted2[w].0 == kid);
                    } else {
                        let k = choose|k: int| 0 <= k < stack.len() && stack[k].0 == kid;
                        if k == stack.len() - 1 {
                            assert(kid == top.0);
                            assert(emitted2[emitted.len() as int].0 == kid);
                        } else {
                            assert(stack2[k] == rest[k]);
                            assert(stack2[k].0 == kid);
                        }
                    }
                } else {
                    assert(emitted2[m] == top);
                    assert(children_of(beads, nc, top.0).contains(kid));
                    assert(kids.contains(kid));
                    let w = choose|w: int| 0 <= w < kids.len() && kids[w] == kid;
                    assert(stack2[rest.len() + w].0 == kid);
                    assert(stack_has(stack2, kid));
                }
            }
            lemma_dfs_coverage(beads, nc, stack2, visited2, emitted2);
            let tail = dfs(beads, nc, stack2, visited2);
            assert(dfs(beads, nc, stack, visited) == seq![top] + tail);
            assert(out =~= emitted2 + tail);
            assert forall|k: int| 0 <= k < stack.len() implies appears(
                out,
                (#[trigger] stack[k]).0,
            ) by {
                if k == stack.len() - 1 {
                    assert(out[emitted.len() as int].0 == top.0);
                } else {
                    assert(rest[k] == stack[k]);
                    assert(stack2[k] == rest[k]);
                    assert(appears(emitted2 + tail, stack2[k].0));
                }
            }
        }
    }
}

/// Completeness: every root appears in the display order, and every
/// registered child of a displayed non-closed bead appears too; together
/// with the no-duplicate law, everything reachable from a root is shown
/// exactly once.
pub proof fn lemma_tree_order_complete(beads: Seq<Bead>, h: bool, f: Option<Seq<char>>)
    requires
        beads.len() <= usize::MAX,
    ensures
        forall|k: int|
            0 <= k < roots_of(beads, non_closed_idxs(beads, h, f)).len() ==> appears(
                tree_order(beads, h, f),
                #[trigger] roots_of(beads, non_closed_idxs(beads, h, f))[k],
            ),
        forall|m: int, c: int|
            #![trigger children_of(beads, non_closed_idxs(beads, h, f), tree_order(beads, h, f)[m].0)[c]]
            0 <= m < tree_order(beads, h, f).len() && beads[(tree_order(beads, h, f)[m].0) as int].status
                != BeadStatus::Closed && 0 <= c < children_of(
                beads,
                non_closed_idxs(beads, h, f),
                tree_order(beads, h, f)[m].0,
            ).len() ==> appears(
                tree_order(beads, h, f),
                children_of(beads, non_closed_idxs(beads, h, f), tree_order(beads, h, f)[m].0)[c],
            ),
{
    let nc = non_closed_idxs(beads, h, f);
    let cl = closed_idxs(beads, h, f);
    let roots = isort_root(beads, roots_of(beads, nc));
    let visited0 = Seq::new(beads.len(), |i: int| false);
    let stack0 = with_depth(roots, 0).reverse();
    let dout = dfs(beads, nc, stack0, visited0);
    let out = tree_order(beads, h, f);
    lemma_sel_upto_ok(beads, h, f, false, beads.len() as int);
    lemma_roots_ok(beads, nc, nc.len() as int, beads.len() as int);
    lemma_isort_root_ok(beads, roots_of(beads, nc), beads.len() as int);
    lemma_isort_root_complete(beads, roots_of(beads, nc));
    assert forall|k: int| 0 <= k < stack0.len() implies ((#[trigger] stack0[k]).0 as int)
        < visited0.len() by {
        assert(stack0[k].0 == roots[roots.len() - 1 - k]);
    }
    assert forall|i: int| 0 <= i < visited0.len() implies (visited0[i] <==> appears(
        Seq::empty(),
        i as usize,
    )) by {
        assert(!visited0[i]);
    }
    lemma_dfs_coverage(beads, nc, stack0, visited0, Seq::empty());
    assert(Seq::empty() + dout =~= dout);
    assert(out == dout + with_depth(cl, 0));
    // every root appears: it sits on the initial stack, which is covered
    assert forall|k: int| 0 <= k < roots_of(beads, nc).len() implies appears(
        out,
        #[trigger] roots_of(beads, nc)[k],
    ) by {
        let r = roots_of(beads, nc)[k];
        assert(roots_of(beads, nc).contains(r));
        assert(roots.contains(r));
        let w = choose|w: int| 0 <= w < roots.len() && roots[w] == r;
        assert(stack0[roots.len() - 1 - w].0 == roots[w]);
        assert(appears(dout, r));
        let m = choose|m: int| 0 <= m < dout.len() && dout[m].0 == r;
        assert(out[m].0 == r);
    }
    // closure: non-closed entries are exactly the depth-first prefix
    lemma_sel_upto_props(beads, h, f, true, beads.len() as int);
    lemma_roots_in(beads, nc, nc.len() as int);
    lemma_isort_root_in(beads, roots_of(beads, nc), nc);
    assert forall|k: int| 0 <= k < stack0.len() implies nc.contains((#[trigger] stack0[k]).0) by {
        assert(stack0[k].0 == roots[roots.len() - 1 - k]);
    }
    lemma_dfs_fresh(beads, nc, stack0, visited0);
    lemma_sel_upto_props(beads, h, f, false, beads.len() as int);
    assert forall|m: int, c: int|
        #![trigger children_of(beads, nc, out[m].0)[c]]
        0 <= m < out.len() && beads[(out[m].0) as int].status != BeadStatus::Closed && 0 <= c
            < children_of(beads, nc, out[m].0).len() implies appears(
        out,
        children_of(beads, nc, out[m].0)[c],
    ) by {
        if m < dout.len() {
            assert(out[m] == dout[m]);
            assert(appears(dout, children_of(beads, nc, dout[m].0)[c]) || stack_has(
                Seq::empty(),
                children_of(beads, nc, dout[m].0)[c],
            ));
            let kid = children_of(beads, nc, dout[m].0)[c];
            let w = choose|w: int| 0 <= w < dout.len() && dout[w].0 == kid;
            assert(out[w].0 == kid);
        } else {
            assert(out[m].0 == cl[m - dout.len()]);
            assert(beads[(cl[m - dout.len()]) as int].status == BeadStatus::Closed);
        }
    }
}

/// Every entry of the display order is a bead that survives the filter
/// settings; no hidden or filtered-out bead is ever shown.
pub proof fn lemma_tree_order_survivors(beads: Seq<Bead>, h: bool, f: Option<Seq<char>>)
    requires
        beads.len() <= usize::MAX,
    ensures
        forall|k: int|
            0 <= k < tree_order(beads, h, f).len() ==> ((#[trigger] tree_order(beads, h, f)[k]).0
                as int) < beads.len() && survives(
                beads[(tree_order(beads, h, f)[k].0) as int],
                h,
                f,
            ),
{
    let nc = non_closed_idxs(beads, h, f);
    let cl = closed_idxs(beads, h, f);
    let roots = isort_root(beads, roots_of(beads, nc));
    let visited0 = Seq::new(beads.len(), |i: int| false);
    let stack0 = with_depth(roots, 0).reverse();
    let dout = dfs(beads, nc, stack0, visited0);
    let out = tree_order(beads, h, f);
    lemma_sel_upto_ok(beads, h, f, false, beads.len() as int);
    lemma_sel_upto_ok(beads, h, f, true, beads.len() as int);
    lemma_sel_upto_props(beads, h, f, false, beads.len() as int);
    lemma_sel_upto_props(beads, h, f, true, beads.len() as int);
    lemma_roots_in(beads, nc, nc.len() as int);
    lemma_isort_root_in(beads, roots_of(beads, nc), nc);
    lemma_isort_root_ok(beads, roots_of(beads, nc), beads.len() as int);
    assert forall|k: int| 0 <= k < stack0.len() implies ((#[trigger] stack0[k]).0 as int)
        < visited0.len() && nc.contains(stack0[k].0) by {
        assert(stack0[k].0 == roots[roots.len() - 1 - k]);
    }
    lemma_dfs_fresh(beads, nc, stack0, visited0);
    assert(out == dout + with_depth(cl, 0));
    assert forall|k: int| 0 <= k < out.len() implies ((#[trigger] out[k]).0 as int) < beads.len()
        && survives(beads[(out[k].0) as int], h, f) by {
        if k < dout.len() {
            assert(out[k] == dout[k]);
            assert(nc.contains(dout[k].0));
            let m = choose|m: int| 0 <= m < nc.len() && nc[m] == dout[k].0;
            assert(survives(beads[(nc[m]) as int], h, f));
        } else {
            assert(out[k].0 == cl[k - dout.len()]);
            assert(survives(beads[(cl[k - dout.len()]) as int], h, f));
        }
    }
}

/// No duplicates, by identifier: with globally unique ids, every id appears
/// at most once in the display order.
pub proof fn lemma_tree_order_no_duplicate_ids(beads: Seq<Bead>, h: bool, f: Option<Seq<char>>)
    requires
        beads.len() <= usize::MAX,
        forall|i: int, j: int|
            0 <= i < j < beads.len() ==> (#[trigger] beads[i]).id@ != (#[trigger] beads[j]).id@,
    ensures
        forall|i: int, j: int|
            0 <= i < j < tree_order(beads, h, f).len() ==> beads[((#[trigger] tree_order(
                beads,
                h,
                f,
            )[i]).0) as int].id@ != beads[((#[trigger] tree_order(beads, h, f)[j]).0) as int].id@,
{
    lemma_tree_order_no_duplicates(beads, h, f);
    let out = tree_order(beads, h, f);
    assert forall|i: int, j: int| 0 <= i < j < out.len() implies beads[((#[trigger] out[i]).0)
        as int].id@ != beads[((#[trigger] out[j]).0) as int].id@ by {
        let a = out[i].0 as int;
        let b = out[j].0 as int;
        assert(a != b);
        if a < b {
            assert(beads[a].id@ != beads[b].id@);
        } else {
            assert(beads[b].id@ != beads[a].id@);
        }
    }
}

/// Depth correctness: a root stands at depth zero, and every entry at a
/// positive depth is a registered child of an earlier entry exactly one
/// level up; the closed tail is flat at depth zero.
pub proof fn lemma_tree_order_depths(beads: Seq<Bead>, h: bool, f: Option<Seq<char>>)
    requires
        beads.len() <= usize::MAX,
    ensures
        depth_linked(beads, tree_order(beads, h, f)),
        tree_order(beads, h, f).len() > 0 ==> tree_order(beads, h, f)[0].1 == 0,
{
    let nc = non_closed_idxs(beads, h, f);
    let cl = closed_idxs(beads, h, f);
    let roots = isort_root(beads, roots_of(beads, nc));
    let visited0 = Seq::new(beads.len(), |i: int| false);
    let stack0 = with_depth(roots, 0).reverse();
    let dout = dfs(beads, nc, stack0, visited0);
    let out = tree_order(beads, h, f);
    lemma_sel_upto_ok(beads, h, f, false, beads.len() as int);
    lemma_sel_upto_ok(beads, h, f, true, beads.len() as int);
    lemma_roots_in(beads, nc, nc.len() as int);
    lemma_isort_root_in(beads, roots_of(beads, nc), nc);
    lemma_isort_root_ok(beads, roots_of(beads, nc), beads.len() as int);
    assert forall|k: int| 0 <= k < stack0.len() implies ((#[trigger] stack0[k]).0 as int)
        < visited0.len() by {
        assert(stack0[k].0 == roots[roots.len() - 1 - k]);
    }
    assert forall|k: int| 0 <= k < stack0.len() implies (#[trigger] stack0[k]).1 == 0 by {
        assert(stack0[k] == with_depth(roots, 0)[roots.len() - 1 - k]);
    }
    assert(stack_linked(beads, stack0, Seq::empty()));
    lemma_count_false_le(visited0);
    assert(forall|k: int|
        0 <= k < stack0.len() ==> (#[trigger] stack0[k]).1 + count_false(visited0)
            <= visited0.len());
    assert(depth_linked(beads, Seq::empty()));
    lemma_dfs_depths(beads, nc, stack0, visited0, Seq::empty());
    assert(depth_linked(beads, Seq::empty()));
    assert(Seq::empty() + dout =~= dout);
    assert(out == dout + with_depth(cl, 0));
    assert forall|i: int| 0 <= i < out.len() implies ((#[trigger] out[i]).1 == 0 || exists|j: int|
        0 <= j < i && (#[trigger] out[j]).1 + 1 == out[i].1 && has_edge(
            beads[(out[j].0) as int],
            beads[(out[i].0) as int],
        )) by {
        if i < dout.len() {
            assert(out[i] == dout[i]);
            if dout[i].1 != 0 {
                let j = choose|j: int|
                    0 <= j < i && (#[trigger] dout[j]).1 + 1 == dout[i].1 && has_edge(
                        beads[(dout[j].0) as int],
                        beads[(dout[i].0) as int],
                    );
                assert(out[j] == dout[j]);
            }
        } else {
            assert(out[i].1 == 0);
        }
    }
}

} // verus!
