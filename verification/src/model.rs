//! The simulation state: lattice, spin configuration, operator string,
//! truncation order and the vertex-list working arrays, together with its
//! well-formedness invariant and its construction.
use vstd::prelude::*;
use crate::lattice::{Bond, LAT_MAX, build_lattice, lattice_bond, spec_n_bonds};
use crate::types::{OpSlot, VertexEntry, count_ops};

verus! {

/// Truncation order that a fresh simulation starts from.
pub const INITIAL_M: usize = 20;

/// Largest truncation order the engine will ever grow to; a machine limit
/// that keeps leg indices (four per slot) far away from overflow.
pub const M_CAP: usize = 0x1000_0000;

/// Largest accepted inverse temperature in 32-bit fixed point (so at most
/// 2^16); a machine limit that keeps the acceptance-probability arithmetic
/// inside `u128`.
pub const BETA_MAX_Q32: u64 = 0x1_0000_0000_0000;

/// One in the 32-bit fixed-point scale used for probabilities.
pub const Q32: u128 = 0x1_0000_0000;

/// A slot is either the identity or a bond operator on a real bond, one
/// whose two endpoints are distinct sites.
pub open spec fn slot_ok(o: OpSlot, bonds: Seq<Bond>) -> bool {
    match o {
        OpSlot::Identity => true,
        OpSlot::Diagonal(b) => b < bonds.len() && bonds[b as int].s0 != bonds[b as int].s1,
        OpSlot::OffDiagonal(b) => b < bonds.len() && bonds[b as int].s0 != bonds[b as int].s1,
    }
}

/// A recorded leg index stays below the vertex-list length.
pub open spec fn opt_leg_ok(o: Option<usize>, lim: int) -> bool {
    match o {
        Option::None => true,
        Option::Some(v) => v < lim,
    }
}

/// The SSE simulation state for the spin-1/2 Heisenberg model.
pub struct HeisenbergModel {
    /// Lattice extent in the first direction.
    pub lx: usize,
    /// Lattice extent in the second direction; `1` selects a chain.
    pub ly: usize,
    /// Inverse temperature in 32-bit fixed point: `beta_q32 / 2^32` is beta.
    pub beta_q32: u64,
    /// Number of non-identity operators in the string.
    pub n: usize,
    /// Truncation order: the length of the operator string.
    pub m: usize,
    /// Number of lattice sites.
    pub n_sites: usize,
    /// Number of lattice bonds.
    pub n_bonds: usize,
    /// The bond list.
    pub b_sites: Vec<Bond>,
    /// `beta * n_bonds / 2` in 32-bit fixed point.
    pub prob_add_q32: u128,
    /// The pseudo-random source.
    pub rng: prng_mt::mt19937::MT19937,
    /// One spin per site, each `+1` or `-1`.
    pub spins: Vec<i32>,
    /// The operator string, `m` slots.
    pub op_string: Vec<OpSlot>,
    /// First leg touched by each site during a vertex-linker pass.
    pub v_first: Vec<Option<usize>>,
    /// Most recently linked leg of each site during a vertex-linker pass.
    pub v_last: Vec<Option<usize>>,
    /// The leg-pairing structure, four legs per slot.
    pub vertex_list: Vec<VertexEntry>,
}

impl HeisenbergModel {
    /// Everything the update engines preserve: lattice geometry, sizes,
    /// the operator-count bookkeeping and the value ranges of every array.
    pub open spec fn wf(self) -> bool {
        &&& 1 <= self.lx
        &&& 1 <= self.ly
        &&& self.lx * self.ly <= LAT_MAX
        &&& self.n_sites == self.lx * self.ly
        &&& 1 <= self.n_sites
        &&& self.beta_q32 <= BETA_MAX_Q32
        &&& self.n_bonds == spec_n_bonds(self.lx as int, self.ly as int)
        &&& 1 <= self.n_bonds <= 2 * LAT_MAX
        &&& self.b_sites@.len() == self.n_bonds
        &&& (forall|k: int|
            0 <= k < self.n_bonds ==> #[trigger] self.b_sites@[k] == lattice_bond(
                self.lx as int,
                self.ly as int,
                k,
            ))
        &&& (forall|k: int|
            0 <= k < self.n_bonds ==> (#[trigger] self.b_sites@[k]).s0 < self.n_sites
                && self.b_sites@[k].s1 < self.n_sites)
        &&& self.prob_add_q32 as int == self.beta_q32 as int * self.n_bonds as int / 2
        &&& self.prob_add_q32 <= 0x1000_0000_0000_0000_0000
        &&& 1 <= self.m <= M_CAP
        &&& self.op_string@.len() == self.m
        &&& self.n == count_ops(self.op_string@)
        &&& (forall|p: int|
            0 <= p < self.m ==> slot_ok(#[trigger] self.op_string@[p], self.b_sites@))
        &&& self.spins@.len() == self.n_sites
        &&& (forall|i: int|
            0 <= i < self.n_sites ==> #[trigger] self.spins@[i] == 1i32 || self.spins@[i] == -1i32)
        &&& self.vertex_list@.len() == 4 * self.m
        &&& self.v_first@.len() == self.n_sites
        &&& self.v_last@.len() == self.n_sites
        &&& (forall|s: int|
            0 <= s < self.n_sites ==> opt_leg_ok(#[trigger] self.v_first@[s], 4 * self.m as int))
        &&& (forall|s: int|
            0 <= s < self.n_sites ==> opt_leg_ok(#[trigger] self.v_last@[s], 4 * self.m as int))
    }

    /// The parameters and the lattice, which no update ever changes.
    pub open spec fn same_params(self, other: Self) -> bool {
        &&& self.lx == other.lx
        &&& self.ly == other.ly
        &&& self.beta_q32 == other.beta_q32
        &&& self.n_sites == other.n_sites
        &&& self.n_bonds == other.n_bonds
        &&& self.b_sites@ == other.b_sites@
        &&& self.prob_add_q32 == other.prob_add_q32
    }

    /// Everything but the random source and the spins: what a pass that
    /// only draws random numbers and writes spins leaves untouched.
    pub open spec fn eq_except_rng_spins(a: Self, b: Self) -> bool {
        &&& a.lx == b.lx
        &&& a.ly == b.ly
        &&& a.beta_q32 == b.beta_q32
        &&& a.n == b.n
        &&& a.m == b.m
        &&& a.n_sites == b.n_sites
        &&& a.n_bonds == b.n_bonds
        &&& a.b_sites@ == b.b_sites@
        &&& a.prob_add_q32 == b.prob_add_q32
        &&& a.op_string@ == b.op_string@
        &&& a.v_first@ == b.v_first@
        &&& a.v_last@ == b.v_last@
        &&& a.vertex_list@ == b.vertex_list@
    }

    /// Creates a simulation shell: parameters and a seeded random source;
    /// the arrays stay empty until `initialization` fills them.
    pub fn new(para_lx: usize, para_ly: usize, para_beta_q32: u64, para_seed: u32) -> (r: Self)
        requires
            1 <= para_lx,
            1 <= para_ly,
            para_lx * para_ly <= LAT_MAX,
            para_beta_q32 <= BETA_MAX_Q32,
        ensures
            r.lx == para_lx,
            r.ly == para_ly,
            r.beta_q32 == para_beta_q32,
            r.n == 0,
            r.m == INITIAL_M,
            r.n_sites == para_lx * para_ly,
            r.n_bonds == 0,
            r.b_sites@.len() == 0,
            r.spins@.len() == 0,
            r.op_string@.len() == 0,
            r.v_first@.len() == 0,
            r.v_last@.len() == 0,
            r.vertex_list@.len() == 0,
    {
        HeisenbergModel {
            lx: para_lx,
            ly: para_ly,
            beta_q32: para_beta_q32,
            n: 0,
            m: INITIAL_M,
            n_sites: para_lx * para_ly,
            n_bonds: 0,
            b_sites: Vec::new(),
            prob_add_q32: 0,
            rng: prng_mt::mt19937::MT19937::new(para_seed),
            spins: Vec::new(),
            op_string: Vec::new(),
            v_first: Vec::new(),
            v_last: Vec::new(),
            vertex_list: Vec::new(),
        }
    }

    /// Builds the lattice, derives the insertion-probability factor, draws a
    /// random initial spin per site and resets the operator string to all
    /// identities, establishing the invariant `wf`.
    #[verifier::loop_isolation(false)]
    pub fn initialization(&mut self)
        requires
            1 <= old(self).lx,
            1 <= old(self).ly,
            old(self).lx * old(self).ly <= LAT_MAX,
            old(self).n_sites == old(self).lx * old(self).ly,
            old(self).beta_q32 <= BETA_MAX_Q32,
            1 <= old(self).m <= M_CAP,
        ensures
            final(self).wf(),
            final(self).lx == old(self).lx,
            final(self).ly == old(self).ly,
            final(self).beta_q32 == old(self).beta_q32,
            final(self).m == old(self).m,
            final(self).n == 0,
            forall|p: int|
                0 <= p < final(self).m ==> #[trigger] final(self).op_string@[p]
                    == OpSlot::Identity,
            forall|s: int|
                0 <= s < final(self).n_sites ==> #[trigger] final(self).v_first@[s]
                    == Option::<usize>::None,
            forall|s: int|
                0 <= s < final(self).n_sites ==> #[trigger] final(self).v_last@[s]
                    == Option::<usize>::None,
            forall|v: int|
                0 <= v < 4 * final(self).m ==> #[trigger] final(self).vertex_list@[v]
                    == VertexEntry::Unset,
    {
        let lx = self.lx;
        let ly = self.ly;
        proof {
            assert(lx as int * ly as int >= 1 && lx as int <= lx as int * ly as int && 2 * (
            lx as int * ly as int) == 2 * lx as int * ly as int) by (nonlinear_arith)
                requires
                    1 <= lx as int,
                    1 <= ly as int,
            ;
        }
        self.n_bonds = if ly == 1 {
            lx
        } else {
            2 * (lx * ly)
        };
        self.b_sites = build_lattice(lx, ly);
        proof {
            assert(self.beta_q32 as int * self.n_bonds as int <= BETA_MAX_Q32 as int * (2
                * LAT_MAX) as int) by (nonlinear_arith)
                requires
                    0 <= self.beta_q32 as int <= BETA_MAX_Q32 as int,
                    0 <= self.n_bonds as int <= (2 * LAT_MAX) as int,
            ;
        }
        self.prob_add_q32 = (self.beta_q32 as u128) * (self.n_bonds as u128) / 2;

        let n_sites = self.n_sites;
        let ghost mid = *self;
        let mut sp: Vec<i32> = Vec::new();
        let mut i: usize = 0;
        while i < n_sites
            invariant
                i <= n_sites,
                sp@.len() == i,
                forall|j: int| 0 <= j < i ==> #[trigger] sp@[j] == 1i32 || sp@[j] == -1i32,
                Self::eq_except_rng_spins(*self, mid),
                self.spins@ == mid.spins@,
            decreases n_sites - i,
        {
            let x = self.rng.next();
            sp.push(if x > 0x8000_0000u32 {
                1
            } else {
                -1
            });
            i = i + 1;
        }
        self.spins = sp;

        let m = self.m;
        let mut ops: Vec<OpSlot> = Vec::new();
        let mut p: usize = 0;
        while p < m
            invariant
                p <= m,
                ops@.len() == p,
                forall|q: int| 0 <= q < p ==> #[trigger] ops@[q] == OpSlot::Identity,
            decreases m - p,
        {
            ops.push(OpSlot::Identity);
            p = p + 1;
        }
        self.op_string = ops;
        self.n = 0;
        proof {
            crate::types::lemma_count_all_identity(self.op_string@);
        }

        let mut vf: Vec<Option<usize>> = Vec::new();
        let mut vlst: Vec<Option<usize>> = Vec::new();
        let mut s: usize = 0;
        while s < n_sites
            invariant
                s <= n_sites,
                vf@.len() == s,
                vlst@.len() == s,
                forall|j: int| 0 <= j < s ==> #[trigger] vf@[j] == Option::<usize>::None,
                forall|j: int| 0 <= j < s ==> #[trigger] vlst@[j] == Option::<usize>::None,
            decreases n_sites - s,
        {
            vf.push(Option::None);
            vlst.push(Option::None);
            s = s + 1;
        }
        self.v_first = vf;
        self.v_last = vlst;

        let mut vl: Vec<VertexEntry> = Vec::new();
        let mut v: usize = 0;
        let four_m = 4 * m;
        while v < four_m
            invariant
                v <= four_m,
                vl@.len() == v,
                forall|j: int| 0 <= j < v ==> #[trigger] vl@[j] == VertexEntry::Unset,
            decreases four_m - v,
        {
            vl.push(VertexEntry::Unset);
            v = v + 1;
        }
        self.vertex_list = vl;
    }
}

} // verus!
