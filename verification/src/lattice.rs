//! Construction of the fixed bond list: a periodic chain when `ly == 1`,
//! otherwise a periodic square lattice with horizontal bonds first.
use vstd::prelude::*;

verus! {

/// Largest accepted site count `lx * ly`; a machine limit that keeps every
/// index computation of the simulation far away from overflow.
pub const LAT_MAX: usize = 0x100_0000;

/// One lattice bond, joining the sites `s0` and `s1`.
#[derive(Clone, Copy, PartialEq, Eq, Structural, Debug)]
pub struct Bond {
    pub s0: usize,
    pub s1: usize,
}

/// Number of bonds: a chain has one bond per site, a square lattice has a
/// horizontal and a vertical bond per site.
pub open spec fn spec_n_bonds(lx: int, ly: int) -> int {
    if ly == 1 {
        lx
    } else {
        2 * lx * ly
    }
}

/// The bond with index `k`.  On the chain, bond `k` joins site `k` with its
/// right neighbour, wrapping around.  On the square lattice the first
/// `lx * ly` bonds run to the right within each row and the remaining
/// `lx * ly` bonds run downward within each column, both wrapping.
pub open spec fn lattice_bond(lx: int, ly: int, k: int) -> Bond {
    if ly == 1 {
        Bond { s0: k as usize, s1: ((k + 1) % lx) as usize }
    } else if k < lx * ly {
        Bond { s0: k as usize, s1: ((k / lx) * lx + (k % lx + 1) % lx) as usize }
    } else {
        Bond { s0: (k - lx * ly) as usize, s1: ((k - lx * ly + lx) % (lx * ly)) as usize }
    }
}

proof fn lemma_div_mod_bounds(k: int, lx: int, ly: int)
    by (nonlinear_arith)
    requires
        1 <= lx,
        1 <= ly,
        0 <= k < lx * ly,
    ensures
        0 <= k / lx < ly,
        0 <= k % lx < lx,
        (k / lx) * lx + k % lx == k,
        (k / lx) * lx + lx <= lx * ly,
{
}

/// Builds the bond list for the requested lattice.
#[verifier::loop_isolation(false)]
pub fn build_lattice(lx: usize, ly: usize) -> (r: Vec<Bond>)
    requires
        1 <= lx,
        1 <= ly,
        lx * ly <= LAT_MAX,
    ensures
        r@.len() == spec_n_bonds(lx as int, ly as int),
        forall|k: int| 0 <= k < r@.len() ==> #[trigger] r@[k] == lattice_bond(lx as int, ly as int, k),
        forall|k: int| 0 <= k < r@.len() ==> (#[trigger] r@[k]).s0 < lx * ly && r@[k].s1 < lx * ly,
{
    let n_sites: usize = lx * ly;
    proof {
        assert(lx as int <= lx as int * ly as int && 2 * (lx as int) * (ly as int) == lx as int
            * ly as int + lx as int * ly as int) by (nonlinear_arith)
            requires
                1 <= lx as int,
                1 <= ly as int,
        ;
    }
    let mut r: Vec<Bond> = Vec::new();
    if ly == 1 {
        let mut i: usize = 0;
        while i < lx
            invariant
                i <= lx,
                r@.len() == i,
                forall|k: int| 0 <= k < i ==> #[trigger] r@[k] == lattice_bond(lx as int, ly as int, k),
                forall|k: int| 0 <= k < i ==> (#[trigger] r@[k]).s0 < lx * ly && r@[k].s1 < lx * ly,
            decreases lx - i,
        {
            r.push(Bond { s0: i, s1: (i + 1) % lx });
            i = i + 1;
        }
    } else {
        let mut k: usize = 0;
        while k < n_sites
            invariant
                k <= n_sites,
                r@.len() == k,
                forall|j: int| 0 <= j < k ==> #[trigger] r@[j] == lattice_bond(lx as int, ly as int, j),
                forall|j: int| 0 <= j < k ==> (#[trigger] r@[j]).s0 < lx * ly && r@[j].s1 < lx * ly,
            decreases n_sites - k,
        {
            proof {
                lemma_div_mod_bounds(k as int, lx as int, ly as int);
            }
            let row: usize = k / lx;
            let col: usize = k % lx;
            r.push(Bond { s0: k, s1: row * lx + (col + 1) % lx });
            k = k + 1;
        }
        let mut k2: usize = 0;
        while k2 < n_sites
            invariant
                k2 <= n_sites,
                r@.len() == n_sites + k2,
                forall|j: int| 0 <= j < n_sites + k2 ==> #[trigger] r@[j] == lattice_bond(
                    lx as int,
                    ly as int,
                    j,
                ),
                forall|j: int| 0 <= j < n_sites + k2 ==> (#[trigger] r@[j]).s0 < lx * ly
                    && r@[j].s1 < lx * ly,
            decreases n_sites - k2,
        {
            r.push(Bond { s0: k2, s1: (k2 + lx) % n_sites });
            k2 = k2 + 1;
        }
    }
    r
}

} // verus!
