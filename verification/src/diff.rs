//! The edit diff: compare the form against the original bead and produce
//! exactly one update per changed field, plus one label add or remove per
//! set difference. Unchanged fields produce no update at all.

use vstd::prelude::*;
use crate::bead::{Bead, BeadType};
use crate::text::str_eq;

verus! {

/// One update the mutation backend must perform.
pub enum FieldUpdate {
    /// Set the title.
    Title(String),
    /// Set the description (empty clears it).
    Description(String),
    /// Set the type.
    Kind(BeadType),
    /// Set the priority.
    Priority(u8),
    /// Attach a label.
    AddLabel(String),
    /// Detach a label.
    RemoveLabel(String),
}

/// The ghost shape of an update, over character sequences.
pub enum FieldUpdateView {
    Title(Seq<char>),
    Description(Seq<char>),
    Kind(BeadType),
    Priority(u8),
    AddLabel(Seq<char>),
    RemoveLabel(Seq<char>),
}

/// The ghost shape of an exec update.
pub open spec fn fu_view(u: FieldUpdate) -> FieldUpdateView {
    match u {
        FieldUpdate::Title(s) => FieldUpdateView::Title(s@),
        FieldUpdate::Description(s) => FieldUpdateView::Description(s@),
        FieldUpdate::Kind(t) => FieldUpdateView::Kind(t),
        FieldUpdate::Priority(p) => FieldUpdateView::Priority(p),
        FieldUpdate::AddLabel(s) => FieldUpdateView::AddLabel(s@),
        FieldUpdate::RemoveLabel(s) => FieldUpdateView::RemoveLabel(s@),
    }
}

/// The description a bead carries, the empty sequence when there is none.
pub open spec fn desc_seq(d: Option<String>) -> Seq<char> {
    match d {
        Some(s) => s@,
        None => Seq::empty(),
    }
}

/// Some sequence in the list equals `x`.
pub open spec fn seq_has(xs: Seq<Seq<char>>, x: Seq<char>) -> bool {
    exists|k: int| 0 <= k < xs.len() && #[trigger] xs[k] == x
}

/// Prefix-respecting set difference: the members of `cands`, in first
/// occurrence order, that do not occur in `other`.
pub open spec fn missing_upto(cands: Seq<Seq<char>>, other: Seq<Seq<char>>, n: int) -> Seq<
    Seq<char>,
>
    decreases n,
{
    if n <= 0 {
        Seq::empty()
    } else {
        let rest = missing_upto(cands, other, n - 1);
        let c = cands[n - 1];
        if !seq_has(other, c) && !seq_has(cands.take(n - 1), c) {
            rest.push(c)
        } else {
            rest
        }
    }
}

/// The members of `cands` missing from `other`, deduplicated, in first
/// occurrence order.
pub open spec fn set_missing(cands: Seq<Seq<char>>, other: Seq<Seq<char>>) -> Seq<Seq<char>> {
    missing_upto(cands, other, cands.len() as int)
}

/// Tag a sequence of labels as additions.
pub open spec fn as_adds(xs: Seq<Seq<char>>) -> Seq<FieldUpdateView> {
    xs.map_values(|x: Seq<char>| FieldUpdateView::AddLabel(x))
}

/// Tag a sequence of labels as removals.
pub open spec fn as_removes(xs: Seq<Seq<char>>) -> Seq<FieldUpdateView> {
    xs.map_values(|x: Seq<char>| FieldUpdateView::RemoveLabel(x))
}

/// The exact updates an edit must issue: one per changed field, in field
/// order, then label additions, then label removals, each computed as a
/// set difference over the old and new label sets.
pub open spec fn diff_spec(
    orig: Bead,
    new_title: Seq<char>,
    new_desc: Seq<char>,
    new_type: BeadType,
    new_priority: u8,
    new_labels: Seq<Seq<char>>,
) -> Seq<FieldUpdateView> {
    let t = if new_title != orig.title@ {
        seq![FieldUpdateView::Title(new_title)]
    } else {
        Seq::empty()
    };
    let d = if new_desc != desc_seq(orig.description) {
        seq![FieldUpdateView::Description(new_desc)]
    } else {
        Seq::empty()
    };
    let k = if new_type != orig.bead_type {
        seq![FieldUpdateView::Kind(new_type)]
    } else {
        Seq::empty()
    };
    let p = if new_priority != orig.priority {
        seq![FieldUpdateView::Priority(new_priority)]
    } else {
        Seq::empty()
    };
    let adds = as_adds(set_missing(new_labels, orig.labels.deep_view()));
    let removes = as_removes(set_missing(orig.labels.deep_view(), new_labels));
    t + d + k + p + adds + removes
}

fn seq_has_exec(xs: &Vec<String>, x: &str) -> (r: bool)
    ensures
        r == seq_has(xs.deep_view(), x@),
{
    let mut k: usize = 0;
    proof {
        assert(xs.deep_view().len() == xs@.len());
    }
    while k < xs.len()
        invariant
            0 <= k <= xs@.len(),
            xs.deep_view().len() == xs@.len(),
            forall|j: int| 0 <= j < k ==> #[trigger] xs.deep_view()[j] != x@,
        decreases xs@.len() - k,
    {
        proof {
            assert(xs.deep_view()[k as int] == xs@[k as int].deep_view());
            assert(xs@[k as int].deep_view() =~= xs@[k as int]@);
        }
        if str_eq(xs[k].as_str(), x) {
            return true;
        }
        k = k + 1;
    }
    false
}

fn collect_missing(cands: &Vec<String>, other: &Vec<String>) -> (r: Vec<String>)
    ensures
        r.deep_view() == set_missing(cands.deep_view(), other.deep_view()),
{
    let mut r: Vec<String> = Vec::new();
    let mut i: usize = 0;
    proof {
        assert(cands.deep_view().len() == cands@.len());
        assert(r.deep_view() =~~= missing_upto(cands.deep_view(), other.deep_view(), 0));
    }
    while i < cands.len()
        invariant
            0 <= i <= cands@.len(),
            cands.deep_view().len() == cands@.len(),
            r.deep_view() == missing_upto(cands.deep_view(), other.deep_view(), i as int),
        decreases cands@.len() - i,
    {
        proof {
            assert(cands.deep_view()[i as int] == cands@[i as int].deep_view());
            assert(cands@[i as int].deep_view() =~= cands@[i as int]@);
        }
        let ghost rv = r.deep_view();
        let in_other = seq_has_exec(other, cands[i].as_str());
        let mut seen_before = false;
        let mut j: usize = 0;
        while j < i
            invariant
                0 <= j <= i < cands@.len(),
                cands.deep_view().len() == cands@.len(),
                cands.deep_view()[i as int] == cands@[i as int]@,
                seen_before == seq_has(
                    cands.deep_view().take(j as int),
                    cands.deep_view()[i as int],
                ),
            decreases i - j,
        {
            proof {
                assert(cands.deep_view()[j as int] == cands@[j as int].deep_view());
                assert(cands@[j as int].deep_view() =~= cands@[j as int]@);
            }
            let eq_ij = str_eq(cands[j].as_str(), cands[i].as_str());
            proof {
                let dv = cands.deep_view();
                let c = dv[i as int];
                let pj = dv.take(j as int);
                let pj1 = dv.take(j + 1);
                assert(pj1 =~= pj.push(dv[j as int]));
                if eq_ij {
                    assert(pj1[j as int] == c);
                    assert(seq_has(pj1, c));
                } else {
                    assert(seq_has(pj1, c) == seq_has(pj, c)) by {
                        if seq_has(pj1, c) {
                            let k = choose|k: int| 0 <= k < pj1.len() && #[trigger] pj1[k] == c;
                            if k < j {
                                assert(pj[k] == c);
                                assert(seq_has(pj, c));
                            } else {
                                assert(pj1[k] == dv[j as int]);
                            }
                        }
                        if seq_has(pj, c) {
                            let k = choose|k: int| 0 <= k < pj.len() && #[trigger] pj[k] == c;
                            assert(pj1[k] == c);
                        }
                    }
                }
            }
            if eq_ij {
                seen_before = true;
            }
            j = j + 1;
        }
        if !in_other && !seen_before {
            let s = crate::text::string_from_chars(&crate::text::chars_of_str(cands[i].as_str()));
            proof {
                assert(s.deep_view() =~= s@);
            }
            r.push(s);
            proof {
                assert(r.deep_view() =~~= rv.push(cands.deep_view()[i as int]));
            }
        }
        i = i + 1;
    }
    r
}

/// Compute the updates an edit submission must issue. The result is exactly
/// `diff_spec`: a form identical to the original produces no updates.
pub fn diff_updates(
    orig: &Bead,
    new_title: &String,
    new_desc: &String,
    new_type: BeadType,
    new_priority: u8,
    new_labels: &Vec<String>,
) -> (r: Vec<FieldUpdate>)
    ensures
        r@.map_values(|u: FieldUpdate| fu_view(u)) == diff_spec(
            *orig,
            new_title@,
            new_desc@,
            new_type,
            new_priority,
            new_labels.deep_view(),
        ),
{
    let ghost target = diff_spec(
        *orig,
        new_title@,
        new_desc@,
        new_type,
        new_priority,
        new_labels.deep_view(),
    );
    let ghost t_part = if new_title@ != orig.title@ {
        seq![FieldUpdateView::Title(new_title@)]
    } else {
        Seq::<FieldUpdateView>::empty()
    };
    let ghost d_part = if new_desc@ != desc_seq(orig.description) {
        seq![FieldUpdateView::Description(new_desc@)]
    } else {
        Seq::<FieldUpdateView>::empty()
    };
    let ghost k_part = if new_type != orig.bead_type {
        seq![FieldUpdateView::Kind(new_type)]
    } else {
        Seq::<FieldUpdateView>::empty()
    };
    let ghost p_part = if new_priority != orig.priority {
        seq![FieldUpdateView::Priority(new_priority)]
    } else {
        Seq::<FieldUpdateView>::empty()
    };
    let mut r: Vec<FieldUpdate> = Vec::new();
    if !str_eq(new_title.as_str(), orig.title.as_str()) {
        let t = crate::text::string_from_chars(&crate::text::chars_of_str(new_title.as_str()));
        r.push(FieldUpdate::Title(t));
    }
    proof {
        assert(r@.map_values(|u: FieldUpdate| fu_view(u)) =~= t_part);
    }
    let desc_differs = match &orig.description {
        Some(d) => !str_eq(new_desc.as_str(), d.as_str()),
        None => {
            let nonempty = new_desc.unicode_len() > 0;
            proof {
                if !nonempty {
                    assert(new_desc@ =~= Seq::<char>::empty());
                }
            }
            nonempty
        },
    };
    if desc_differs {
        let d = crate::text::string_from_chars(&crate::text::chars_of_str(new_desc.as_str()));
        r.push(FieldUpdate::Description(d));
    }
    proof {
        assert(desc_differs == (new_desc@ != desc_seq(orig.description)));
        assert(r@.map_values(|u: FieldUpdate| fu_view(u)) =~= t_part + d_part);
    }
    if new_type != orig.bead_type {
        r.push(FieldUpdate::Kind(new_type));
    }
    proof {
        assert(r@.map_values(|u: FieldUpdate| fu_view(u)) =~= t_part + d_part + k_part);
    }
    if new_priority != orig.priority {
        r.push(FieldUpdate::Priority(new_priority));
    }
    proof {
        assert(r@.map_values(|u: FieldUpdate| fu_view(u)) =~= t_part + d_part + k_part + p_part);
    }
    let adds = collect_missing(new_labels, &orig.labels);
    let removes = collect_missing(&orig.labels, new_labels);
    let ghost base = r@.map_values(|u: FieldUpdate| fu_view(u));
    let mut a: usize = 0;
    while a < adds.len()
        invariant
            0 <= a <= adds@.len(),
            adds.deep_view().len() == adds@.len(),
            adds.deep_view() == set_missing(new_labels.deep_view(), orig.labels.deep_view()),
            r@.map_values(|u: FieldUpdate| fu_view(u)) == base + as_adds(
                adds.deep_view().take(a as int),
            ),
        decreases adds@.len() - a,
    {
        proof {
            assert(adds.deep_view()[a as int] == adds@[a as int].deep_view());
            assert(adds@[a as int].deep_view() =~= adds@[a as int]@);
        }
        let ghost rm = r@.map_values(|u: FieldUpdate| fu_view(u));
        let s = crate::text::string_from_chars(&crate::text::chars_of_str(adds[a].as_str()));
        r.push(FieldUpdate::AddLabel(s));
        proof {
            assert(r@.map_values(|u: FieldUpdate| fu_view(u)) =~= rm.push(
                FieldUpdateView::AddLabel(adds.deep_view()[a as int]),
            ));
            assert(as_adds(adds.deep_view().take(a + 1)) =~= as_adds(
                adds.deep_view().take(a as int),
            ).push(FieldUpdateView::AddLabel(adds.deep_view()[a as int])));
            assert(base + as_adds(adds.deep_view().take(a as int)) + seq![
                FieldUpdateView::AddLabel(adds.deep_view()[a as int]),
            ] =~= base + as_adds(adds.deep_view().take(a + 1)));
            assert(r@.map_values(|u: FieldUpdate| fu_view(u)) =~= base + as_adds(
                adds.deep_view().take(a + 1),
            ));
        }
        a = a + 1;
    }
    proof {
        assert(adds.deep_view().take(adds@.len() as int) =~~= adds.deep_view());
    }
    let ghost base2 = r@.map_values(|u: FieldUpdate| fu_view(u));
    let mut b: usize = 0;
    while b < removes.len()
        invariant
            0 <= b <= removes@.len(),
            removes.deep_view().len() == removes@.len(),
            removes.deep_view() == set_missing(orig.labels.deep_view(), new_labels.deep_view()),
            r@.map_values(|u: FieldUpdate| fu_view(u)) == base2 + as_removes(
                removes.deep_view().take(b as int),
            ),
        decreases removes@.len() - b,
    {
        proof {
            assert(removes.deep_view()[b as int] == removes@[b as int].deep_view());
            assert(removes@[b as int].deep_view() =~= removes@[b as int]@);
        }
        let ghost rm = r@.map_values(|u: FieldUpdate| fu_view(u));
        let s = crate::text::string_from_chars(&crate::text::chars_of_str(removes[b].as_str()));
        r.push(FieldUpdate::RemoveLabel(s));
        proof {
            assert(r@.map_values(|u: FieldUpdate| fu_view(u)) =~= rm.push(
                FieldUpdateView::RemoveLabel(removes.deep_view()[b as int]),
            ));
            assert(as_removes(removes.deep_view().take(b + 1)) =~= as_removes(
                removes.deep_view().take(b as int),
            ).push(FieldUpdateView::RemoveLabel(removes.deep_view()[b as int])));
            assert(base2 + as_removes(removes.deep_view().take(b as int)) + seq![
                FieldUpdateView::RemoveLabel(removes.deep_view()[b as int]),
            ] =~= base2 + as_removes(removes.deep_view().take(b + 1)));
            assert(r@.map_values(|u: FieldUpdate| fu_view(u)) =~= base2 + as_removes(
                removes.deep_view().take(b + 1),
            ));
        }
        b = b + 1;
    }
    proof {
        assert(removes.deep_view().take(removes@.len() as int) =~~= removes.deep_view());
        assert(r@.map_values(|u: FieldUpdate| fu_view(u)) =~= target);
    }
    r
}

proof fn lemma_missing_empty(cands: Seq<Seq<char>>, other: Seq<Seq<char>>, n: int)
    requires
        n <= cands.len(),
        forall|i: int| 0 <= i < cands.len() ==> seq_has(other, #[trigger] cands[i]),
    ensures
        missing_upto(cands, other, n).len() == 0,
    decreases n,
{
    if n > 0 {
        lemma_missing_empty(cands, other, n - 1);
    }
}

/// Diff minimality: a submission where no field changed and the old and new
/// label lists hold the same label set issues no update at all.
pub proof fn lemma_diff_minimal(
    orig: Bead,
    new_title: Seq<char>,
    new_desc: Seq<char>,
    new_type: BeadType,
    new_priority: u8,
    new_labels: Seq<Seq<char>>,
)
    requires
        new_title == orig.title@,
        new_desc == desc_seq(orig.description),
        new_type == orig.bead_type,
        new_priority == orig.priority,
        forall|x: Seq<char>| seq_has(new_labels, x) == seq_has(orig.labels.deep_view(), x),
    ensures
        diff_spec(orig, new_title, new_desc, new_type, new_priority, new_labels).len() == 0,
{
    let ol = orig.labels.deep_view();
    assert forall|i: int| 0 <= i < new_labels.len() implies seq_has(
        ol,
        #[trigger] new_labels[i],
    ) by {
        assert(seq_has(new_labels, new_labels[i]));
    }
    assert forall|i: int| 0 <= i < ol.len() implies seq_has(new_labels, #[trigger] ol[i]) by {
        assert(seq_has(ol, ol[i]));
    }
    lemma_missing_empty(new_labels, ol, new_labels.len() as int);
    lemma_missing_empty(ol, new_labels, ol.len() as int);
    assert(diff_spec(orig, new_title, new_desc, new_type, new_priority, new_labels) =~= Seq::<
        FieldUpdateView,
    >::empty());
}

} // verus!
