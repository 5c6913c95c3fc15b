//! The loop-closure law: on the pairing the vertex linker builds, a loop
//! traversal always returns to its starting leg within `4 * M` steps.  The
//! loop update's contract delivers this as owed success: its step bound
//! can never be exceeded on the structure it is handed.
use vstd::prelude::*;
use vstd::set_lib::{lemma_int_range, lemma_len_subset, set_int_range};
use crate::types::{OpSlot, VertexEntry, partial_pairing, partner, next_leg, iterate};

verus! {

pub proof fn lemma_partner_same_slot(v: int)
    by (nonlinear_arith)
    requires
        0 <= v,
    ensures
        partner(partner(v)) == v,
        partner(v) / 4 == v / 4,
        v % 2 == 0 ==> partner(v) == v + 1,
        v % 2 != 0 ==> partner(v) == v - 1,
{
}

#[verifier::rlimit(50)]
pub proof fn lemma_step_linked(ops: Seq<OpSlot>, vl: Seq<VertexEntry>, v: int)
    requires
        partial_pairing(ops, vl),
        vl.len() % 2 == 0,
        vl.len() <= usize::MAX,
        0 <= v < vl.len(),
        vl[v] is Linked,
    ensures
        0 <= next_leg(vl, v) < vl.len(),
        vl[next_leg(vl, v)] is Linked,
        vl[partner(v)] == VertexEntry::Linked(next_leg(vl, v) as usize),
        vl[next_leg(vl, v)] == VertexEntry::Linked(partner(v) as usize),
{
    lemma_partner_same_slot(v);
    assert(vl[partner(v)] is Linked);
    match vl[partner(v)] {
        VertexEntry::Linked(w) => {
            assert(vl[w as int] == VertexEntry::Linked(partner(v) as usize));
        },
        _ => {},
    }
}

#[verifier::rlimit(50)]
pub proof fn lemma_iter_linked(ops: Seq<OpSlot>, vl: Seq<VertexEntry>, start: int, k: nat)
    requires
        partial_pairing(ops, vl),
        vl.len() % 2 == 0,
        vl.len() <= usize::MAX,
        0 <= start < vl.len(),
        vl[start] is Linked,
    ensures
        0 <= iterate(vl, start, k) < vl.len(),
        vl[iterate(vl, start, k)] is Linked,
    decreases k,
{
    if k > 0 {
        lemma_iter_linked(ops, vl, start, (k - 1) as nat);
        lemma_step_linked(ops, vl, iterate(vl, start, (k - 1) as nat));
    }
}

#[verifier::rlimit(50)]
pub proof fn lemma_step_injective(ops: Seq<OpSlot>, vl: Seq<VertexEntry>, a: int, b: int)
    requires
        partial_pairing(ops, vl),
        vl.len() % 2 == 0,
        vl.len() <= usize::MAX,
        0 <= a < vl.len(),
        0 <= b < vl.len(),
        vl[a] is Linked,
        vl[b] is Linked,
        next_leg(vl, a) == next_leg(vl, b),
    ensures
        a == b,
{
    lemma_step_linked(ops, vl, a);
    lemma_step_linked(ops, vl, b);
    let c = next_leg(vl, a);
    assert(vl[c] == VertexEntry::Linked(partner(a) as usize));
    assert(vl[c] == VertexEntry::Linked(partner(b) as usize));
    lemma_partner_same_slot(a);
    lemma_partner_same_slot(b);
    assert(0 <= partner(a) < vl.len());
    assert(0 <= partner(b) < vl.len());
    assert(partner(a) as usize == partner(b) as usize);
    assert(partner(a) == partner(b));
    assert(partner(partner(a)) == partner(partner(b)));
}

#[verifier::rlimit(50)]
pub proof fn lemma_orbit_cancel(
    ops: Seq<OpSlot>,
    vl: Seq<VertexEntry>,
    start: int,
    i: nat,
    j: nat,
)
    requires
        partial_pairing(ops, vl),
        vl.len() % 2 == 0,
        vl.len() <= usize::MAX,
        0 <= start < vl.len(),
        vl[start] is Linked,
        i < j,
        iterate(vl, start, i) == iterate(vl, start, j),
    ensures
        iterate(vl, start, (j - i) as nat) == start,
    decreases i,
{
    if i == 0 {
    } else {
        lemma_iter_linked(ops, vl, start, (i - 1) as nat);
        lemma_iter_linked(ops, vl, start, (j - 1) as nat);
        lemma_step_injective(
            ops,
            vl,
            iterate(vl, start, (i - 1) as nat),
            iterate(vl, start, (j - 1) as nat),
        );
        lemma_orbit_cancel(ops, vl, start, (i - 1) as nat, (j - 1) as nat);
    }
}

/// LAW.  On a vertex list whose links form a partial pairing — which the
/// involutive, slot-complete structure of `make_vertex_lists` is — the
/// loop traversal that starts at any linked leg returns to that leg within
/// `vl.len()` steps, and the vertex list has length `4 * M`.
pub proof fn lemma_loop_closes(ops: Seq<OpSlot>, vl: Seq<VertexEntry>, start: int)
    requires
        partial_pairing(ops, vl),
        vl.len() % 2 == 0,
        vl.len() <= usize::MAX,
        0 <= start < vl.len(),
        vl[start] is Linked,
    ensures
        exists|k: int|
            1 <= k <= vl.len() && #[trigger] iterate(vl, start, k as nat) == start,
{
    let len = vl.len() as int;
    if exists|k: int| 1 <= k <= len && #[trigger] iterate(vl, start, k as nat) == start {
    } else {
        let orbit = Seq::<int>::new((len + 1) as nat, |k: int| iterate(vl, start, k as nat));
        assert forall|i: int, j: int| 0 <= i < j <= len implies orbit[i] != orbit[j] by {
            if orbit[i] == orbit[j] {
                lemma_orbit_cancel(ops, vl, start, i as nat, j as nat);
                assert(1 <= j - i <= len);
                assert(iterate(vl, start, (j - i) as nat) == start);
            }
        }
        assert(orbit.no_duplicates()) by {
            assert forall|i: int, j: int|
                0 <= i < orbit.len() && 0 <= j < orbit.len() && i != j implies orbit[i]
                != orbit[j] by {
                if i < j {
                    assert(orbit[i] != orbit[j]);
                } else {
                    assert(orbit[j] != orbit[i]);
                }
            }
        }
        orbit.unique_seq_to_set();
        assert forall|x: int| orbit.to_set().contains(x) implies set_int_range(0, len).contains(
            x,
        ) by {
            let idx = choose|idx: int| 0 <= idx < orbit.len() && orbit[idx] == x;
            lemma_iter_linked(ops, vl, start, idx as nat);
        }
        lemma_int_range(0, len);
        assert(orbit.to_set() <= set_int_range(0, len));
        lemma_len_subset(orbit.to_set(), set_int_range(0, len));
        assert(orbit.to_set().len() <= len);
        assert(orbit.to_set().len() == len + 1);
    }
}

} // verus!
