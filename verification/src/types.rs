//! The operator string and the vertex list: their slot types, the
//! non-identity count, and the spin propagation through off-diagonal
//! operators.
use vstd::prelude::*;
use crate::lattice::Bond;

verus! {

/// One slot of the operator string: the identity, or a bond operator that is
/// diagonal (leaves spins alone) or off-diagonal (flips both endpoint spins).
#[derive(Clone, Copy, PartialEq, Eq, Structural, Debug)]
pub enum OpSlot {
    Identity,
    Diagonal(usize),
    OffDiagonal(usize),
}

/// One entry of the vertex list: not part of any link, linked to another
/// leg, or already consumed by a loop traversal.
#[derive(Clone, Copy, PartialEq, Eq, Structural, Debug)]
pub enum VertexEntry {
    Unset,
    Linked(usize),
    Visited,
}

/// Counts one for a bond operator and zero for the identity.
pub open spec fn op_weight(o: OpSlot) -> nat {
    if o is Identity {
        0
    } else {
        1
    }
}

/// The number of non-identity slots of an operator string.
pub open spec fn count_ops(s: Seq<OpSlot>) -> nat
    decreases s.len(),
{
    if s.len() == 0 {
        0
    } else {
        count_ops(s.drop_last()) + op_weight(s.last())
    }
}

pub proof fn lemma_count_le_len(s: Seq<OpSlot>)
    ensures
        count_ops(s) <= s.len(),
    decreases s.len(),
{
    if s.len() > 0 {
        lemma_count_le_len(s.drop_last());
    }
}

pub proof fn lemma_count_update(s: Seq<OpSlot>, i: int, x: OpSlot)
    requires
        0 <= i < s.len(),
    ensures
        count_ops(s.update(i, x)) == count_ops(s) - op_weight(s[i]) + op_weight(x),
    decreases s.len(),
{
    let t = s.update(i, x);
    if i == s.len() - 1 {
        assert(t.drop_last() =~= s.drop_last());
    } else {
        assert(t.drop_last() =~= s.drop_last().update(i, x));
        lemma_count_update(s.drop_last(), i, x);
    }
}

pub proof fn lemma_count_push(s: Seq<OpSlot>, x: OpSlot)
    ensures
        count_ops(s.push(x)) == count_ops(s) + op_weight(x),
{
    assert(s.push(x).drop_last() =~= s);
}

pub proof fn lemma_count_all_identity(s: Seq<OpSlot>)
    requires
        forall|p: int| 0 <= p < s.len() ==> #[trigger] s[p] == OpSlot::Identity,
    ensures
        count_ops(s) == 0,
    decreases s.len(),
{
    if s.len() > 0 {
        lemma_count_all_identity(s.drop_last());
    }
}

pub proof fn lemma_count_pos(s: Seq<OpSlot>, i: int)
    requires
        0 <= i < s.len(),
        !(s[i] is Identity),
    ensures
        count_ops(s) >= 1,
    decreases s.len(),
{
    if i < s.len() - 1 {
        lemma_count_pos(s.drop_last(), i);
    }
}

/// The bond index carried by a slot; zero for the identity.
pub open spec fn op_bond_idx(o: OpSlot) -> int {
    match o {
        OpSlot::Identity => 0,
        OpSlot::Diagonal(b) => b as int,
        OpSlot::OffDiagonal(b) => b as int,
    }
}

/// A leg belongs to a non-identity slot.
pub open spec fn leg_live(ops: Seq<OpSlot>, v: int) -> bool {
    !(ops[v / 4] is Identity)
}

/// The same-slot partner of a leg: entry and exit legs of one site at one
/// slot pair up by toggling the lowest bit.
pub open spec fn partner(v: int) -> int {
    if v % 2 == 0 {
        v + 1
    } else {
        v - 1
    }
}

/// The linked entries of a vertex list form a partial pairing: each link is
/// symmetric, joins two distinct legs of non-identity slots, and the
/// same-slot partner of a linked leg is linked as well.  This is what a
/// loop traversal needs; it is preserved when whole cycles are consumed.
pub open spec fn partial_pairing(ops: Seq<OpSlot>, vl: Seq<VertexEntry>) -> bool {
    &&& (forall|v: int|
        #![trigger vl[v]]
        0 <= v < vl.len() ==> match vl[v] {
            VertexEntry::Linked(w) => {
                &&& w < vl.len()
                &&& w as int != v
                &&& vl[w as int] == VertexEntry::Linked(v as usize)
                &&& leg_live(ops, v)
                &&& leg_live(ops, w as int)
            },
            _ => true,
        })
    &&& (forall|v: int|
        #![trigger vl[partner(v)]]
        0 <= v < vl.len() && vl[v] is Linked ==> vl[partner(v)] is Linked)
}

/// One traversal step: move to the same-slot partner, then follow its
/// vertex link.  (The value for an unlinked partner is arbitrary; nothing
/// is claimed of legs whose partners are not linked.)
pub open spec fn next_leg(vl: Seq<VertexEntry>, v: int) -> int {
    match vl[partner(v)] {
        VertexEntry::Linked(w) => w as int,
        _ => v,
    }
}

/// The leg reached after `k` traversal steps from `v`.
pub open spec fn iterate(vl: Seq<VertexEntry>, v: int, k: nat) -> int
    decreases k,
{
    if k == 0 {
        v
    } else {
        next_leg(vl, iterate(vl, v, (k - 1) as nat))
    }
}

/// The legs retired by the first `k` steps of a traversal from `start`:
/// the heads reached so far and their same-slot partners.
pub open spec fn consumed(vl0: Seq<VertexEntry>, start: int, k: int, j: int) -> bool {
    exists|i: int|
        0 <= i < k && (#[trigger] iterate(vl0, start, i as nat) == j || partner(
            iterate(vl0, start, i as nat),
        ) == j)
}

/// The first `k` heads of a traversal are pairwise distinct and none is
/// another's same-slot partner: no leg has been passed twice.
pub open spec fn heads_distinct(vl0: Seq<VertexEntry>, start: int, k: int) -> bool {
    forall|i: int, j2: int|
        0 <= i < j2 < k ==> #[trigger] iterate(vl0, start, i as nat) != #[trigger] iterate(
            vl0,
            start,
            j2 as nat,
        ) && iterate(vl0, start, i as nat) != partner(iterate(vl0, start, j2 as nat))
            && partner(iterate(vl0, start, i as nat)) != iterate(vl0, start, j2 as nat)
}

/// The spin sequence with the spin at `s` reversed.
pub open spec fn flip_site(spins: Seq<i32>, s: int) -> Seq<i32> {
    spins.update(s, (0 - spins[s]) as i32)
}

/// One imaginary-time step of spin propagation: an off-diagonal operator
/// flips both endpoint spins of its bond, every other slot changes nothing.
pub open spec fn prop_step(spins: Seq<i32>, o: OpSlot, bonds: Seq<Bond>) -> Seq<i32> {
    match o {
        OpSlot::OffDiagonal(b) => flip_site(
            flip_site(spins, bonds[b as int].s0 as int),
            bonds[b as int].s1 as int,
        ),
        _ => spins,
    }
}

/// The spin configuration after propagating through the first `upto` slots
/// of the operator string.
pub open spec fn propagate(spins: Seq<i32>, ops: Seq<OpSlot>, bonds: Seq<Bond>, upto: int) -> Seq<
    i32,
>
    decreases upto,
{
    if upto <= 0 {
        spins
    } else {
        prop_step(propagate(spins, ops, bonds, upto - 1), ops[upto - 1], bonds)
    }
}

} // verus!
