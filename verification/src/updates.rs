//! The Markov-chain update engines: the diagonal update, the vertex linker,
//! the loop update and the adaptive truncation growth.
use vstd::prelude::*;
use crate::lattice::Bond;
use crate::model::{HeisenbergModel, M_CAP, Q32, slot_ok, opt_leg_ok};
use crate::types::{
    OpSlot, VertexEntry, count_ops, lemma_count_le_len, lemma_count_update, lemma_count_push,
    lemma_count_pos, propagate, op_bond_idx, leg_live, partner, partial_pairing, next_leg,
    iterate, consumed, heads_distinct,
};
use crate::laws::{
    lemma_partner_same_slot, lemma_step_linked, lemma_iter_linked, lemma_orbit_cancel,
    lemma_loop_closes,
};

verus! {

/// How one slot may change under the diagonal update: an identity slot may
/// gain a diagonal operator, a diagonal operator may be removed, and an
/// off-diagonal operator is never touched.
pub open spec fn diag_evolution(a: OpSlot, b: OpSlot, n_bonds: int) -> bool {
    match a {
        OpSlot::Identity => b == OpSlot::Identity || (b matches OpSlot::Diagonal(x) && x
            < n_bonds),
        OpSlot::Diagonal(x) => b == a || b == OpSlot::Identity,
        OpSlot::OffDiagonal(x) => b == a,
    }
}

/// An insertion is physical: a slot that goes from the identity to a bond
/// operator gets a diagonal operator whose endpoint spins are antiparallel
/// in `spins_at`, the spin state propagated up to that slot.
pub open spec fn insert_antiparallel(a: OpSlot, b: OpSlot, spins_at: Seq<i32>, bonds: Seq<Bond>) -> bool {
    (a is Identity && !(b is Identity)) ==> (b matches OpSlot::Diagonal(bi)
        && spins_at[bonds[bi as int].s0 as int] != spins_at[bonds[bi as int].s1 as int])
}

/// Returned by the loop update when the vertex list is not the involutive
/// pairing the linker builds: a structural invariant was violated.
#[derive(Clone, Copy, PartialEq, Eq, Structural, Debug)]
pub struct LoopFault;

/// How one slot may change under the loop update: the operator type may
/// toggle between diagonal and off-diagonal, but the bond never changes and
/// identities stay identities.
pub open spec fn loop_evolution(a: OpSlot, b: OpSlot) -> bool {
    match a {
        OpSlot::Identity => b == OpSlot::Identity,
        OpSlot::Diagonal(x) => b == OpSlot::Diagonal(x) || b == OpSlot::OffDiagonal(x),
        OpSlot::OffDiagonal(x) => b == OpSlot::OffDiagonal(x) || b == OpSlot::Diagonal(x),
    }
}

/// The site a leg touches: legs 0 and 2 of a slot sit on the bond's first
/// site, legs 1 and 3 on its second.
pub open spec fn leg_site(ops: Seq<OpSlot>, bonds: Seq<Bond>, v: int) -> int {
    let b = op_bond_idx(ops[v / 4]);
    if v % 4 == 0 || v % 4 == 2 {
        bonds[b].s0 as int
    } else {
        bonds[b].s1 as int
    }
}

/// What the vertex linker delivers: every leg of a non-identity slot is
/// linked, the pairing is involutive, and every other entry is untouched.
pub open spec fn pairing_ok(ops: Seq<OpSlot>, vl: Seq<VertexEntry>) -> bool {
    &&& (forall|v: int|
        #![trigger vl[v]]
        0 <= v < vl.len() ==> match vl[v] {
            VertexEntry::Linked(w) => {
                &&& w < vl.len()
                &&& w as int != v
                &&& vl[w as int] == VertexEntry::Linked(v as usize)
                &&& leg_live(ops, v)
                &&& leg_live(ops, w as int)
            },
            _ => true,
        })
    &&& (forall|v: int|
        #![trigger vl[v]]
        0 <= v < vl.len() ==> (leg_live(ops, v) <==> vl[v] is Linked))
    &&& (forall|v: int|
        #![trigger vl[v]]
        0 <= v < vl.len() && !leg_live(ops, v) ==> vl[v] == VertexEntry::Unset)
}

/// Invariant of the linking scan after `p` slots have been handled.
pub open spec fn linker_inv(
    ops: Seq<OpSlot>,
    bonds: Seq<Bond>,
    vl: Seq<VertexEntry>,
    vf: Seq<Option<usize>>,
    vlst: Seq<Option<usize>>,
    p: int,
    m: int,
    n_sites: int,
) -> bool {
    &&& vl.len() == 4 * m
    &&& vf.len() == n_sites
    &&& vlst.len() == n_sites
    &&& (forall|v: int|
        #![trigger vl[v]]
        0 <= v < 4 * m ==> match vl[v] {
            VertexEntry::Linked(w) => {
                &&& w < 4 * m
                &&& w as int != v
                &&& vl[w as int] == VertexEntry::Linked(v as usize)
                &&& leg_live(ops, v)
                &&& leg_live(ops, w as int)
                &&& v / 4 < p
                &&& w as int / 4 < p
            },
            VertexEntry::Unset => true,
            VertexEntry::Visited => false,
        })
    &&& (forall|v: int| #![trigger vl[v]] 4 * p <= v < 4 * m ==> vl[v] == VertexEntry::Unset)
    &&& (forall|v: int|
        #![trigger vl[v]]
        0 <= v < 4 * m && !leg_live(ops, v) ==> vl[v] == VertexEntry::Unset)
    &&& (forall|s: int|
        #![trigger vlst[s]]
        0 <= s < n_sites ==> match vlst[s] {
            Option::Some(l) => {
                &&& l < 4 * p
                &&& (l % 4 == 2 || l % 4 == 3)
                &&& leg_live(ops, l as int)
                &&& leg_site(ops, bonds, l as int) == s
                &&& vl[l as int] == VertexEntry::Unset
            },
            Option::None => true,
        })
    &&& (forall|s: int|
        #![trigger vf[s]]
        0 <= s < n_sites ==> match vf[s] {
            Option::Some(f) => {
                &&& f < 4 * p
                &&& (f % 4 == 0 || f % 4 == 1)
                &&& leg_live(ops, f as int)
                &&& leg_site(ops, bonds, f as int) == s
                &&& vl[f as int] == VertexEntry::Unset
            },
            Option::None => true,
        })
    &&& (forall|s: int|
        #![trigger vf[s], vlst[s]]
        0 <= s < n_sites ==> (vf[s] is Some <==> vlst[s] is Some))
    &&& (forall|v: int|
        #![trigger leg_live(ops, v)]
        0 <= v < 4 * p && leg_live(ops, v) ==> (vl[v] is Linked || vf[leg_site(ops, bonds, v)]
            == Option::Some(v as usize) || vlst[leg_site(ops, bonds, v)] == Option::Some(
            v as usize,
        )))
}

/// Invariant of the periodic-closure pass after `s` sites have been closed.
pub open spec fn closure_inv(
    ops: Seq<OpSlot>,
    bonds: Seq<Bond>,
    vl: Seq<VertexEntry>,
    vf: Seq<Option<usize>>,
    vlst: Seq<Option<usize>>,
    s: int,
    m: int,
    n_sites: int,
) -> bool {
    &&& vl.len() == 4 * m
    &&& vf.len() == n_sites
    &&& vlst.len() == n_sites
    &&& (forall|v: int|
        #![trigger vl[v]]
        0 <= v < 4 * m ==> match vl[v] {
            VertexEntry::Linked(w) => {
                &&& w < 4 * m
                &&& w as int != v
                &&& vl[w as int] == VertexEntry::Linked(v as usize)
                &&& leg_live(ops, v)
                &&& leg_live(ops, w as int)
            },
            VertexEntry::Unset => true,
            VertexEntry::Visited => false,
        })
    &&& (forall|v: int|
        #![trigger vl[v]]
        0 <= v < 4 * m && !leg_live(ops, v) ==> vl[v] == VertexEntry::Unset)
    &&& (forall|s2: int|
        #![trigger vlst[s2]]
        s <= s2 < n_sites ==> match vlst[s2] {
            Option::Some(l) => {
                &&& l < 4 * m
                &&& (l % 4 == 2 || l % 4 == 3)
                &&& leg_live(ops, l as int)
                &&& leg_site(ops, bonds, l as int) == s2
                &&& vl[l as int] == VertexEntry::Unset
            },
            Option::None => true,
        })
    &&& (forall|s2: int|
        #![trigger vf[s2]]
        s <= s2 < n_sites ==> match vf[s2] {
            Option::Some(f) => {
                &&& f < 4 * m
                &&& (f % 4 == 0 || f % 4 == 1)
                &&& leg_live(ops, f as int)
                &&& leg_site(ops, bonds, f as int) == s2
                &&& vl[f as int] == VertexEntry::Unset
            },
            Option::None => true,
        })
    &&& (forall|s2: int|
        #![trigger vf[s2], vlst[s2]]
        0 <= s2 < n_sites ==> (vf[s2] is Some <==> vlst[s2] is Some))
    &&& (forall|s2: int| 0 <= s2 < n_sites ==> opt_leg_ok(#[trigger] vf[s2], 4 * m))
    &&& (forall|s2: int| 0 <= s2 < n_sites ==> opt_leg_ok(#[trigger] vlst[s2], 4 * m))
    &&& (forall|v: int|
        #![trigger leg_live(ops, v)]
        0 <= v < 4 * m && leg_live(ops, v) ==> (vl[v] is Linked || (leg_site(ops, bonds, v) >= s
            && (vf[leg_site(ops, bonds, v)] == Option::Some(v as usize) || vlst[leg_site(
            ops,
            bonds,
            v,
        )] == Option::Some(v as usize)))))
}

/// Closes the periodic imaginary-time boundary at site `s`: if the site was
/// touched by any operator, its first and last legs are linked.
#[verifier::loop_isolation(false)]
#[verifier::rlimit(100)]
fn close_site(
    vl: &mut Vec<VertexEntry>,
    vf: &Vec<Option<usize>>,
    vlst: &Vec<Option<usize>>,
    s: usize,
    m: usize,
    n_sites: usize,
    Ghost(ops): Ghost<Seq<OpSlot>>,
    Ghost(bonds): Ghost<Seq<Bond>>,
)
    requires
        closure_inv(ops, bonds, old(vl)@, vf@, vlst@, s as int, m as int, n_sites as int),
        s < n_sites,
        m <= M_CAP,
    ensures
        closure_inv(ops, bonds, final(vl)@, vf@, vlst@, s as int + 1, m as int, n_sites as int),
{
    let f_opt = vf[s];
    let l_opt = vlst[s];
    match f_opt {
        Option::Some(f) => {
            match l_opt {
                Option::Some(l) => {
                    vl[f] = VertexEntry::Linked(l);
                    vl[l] = VertexEntry::Linked(f);
                    proof {
                        let ovl = old(vl)@;
                        let nvl = vl@;
                        let mi = m as int;
                        let si = s as int;
                        let fi = f as int;
                        let li = l as int;
                        assert(fi != li);

                        assert forall|v: int|
                            #![trigger nvl[v]]
                            0 <= v < 4 * mi implies match nvl[v] {
                            VertexEntry::Linked(w) => {
                                &&& w < 4 * mi
                                &&& w as int != v
                                &&& nvl[w as int] == VertexEntry::Linked(v as usize)
                                &&& leg_live(ops, v)
                                &&& leg_live(ops, w as int)
                            },
                            VertexEntry::Unset => true,
                            VertexEntry::Visited => false,
                        } by {
                            if v == fi || v == li {
                            } else {
                                assert(nvl[v] == ovl[v]);
                                match ovl[v] {
                                    VertexEntry::Linked(w) => {
                                        assert(ovl[w as int] == VertexEntry::Linked(v as usize));
                                        assert(w as int != fi && w as int != li);
                                        assert(nvl[w as int] == ovl[w as int]);
                                    },
                                    _ => {},
                                }
                            }
                        }

                        assert forall|s2: int|
                            #![trigger vlst@[s2]]
                            si + 1 <= s2 < n_sites as int implies match vlst@[s2] {
                            Option::Some(l2) => {
                                &&& l2 < 4 * mi
                                &&& (l2 % 4 == 2 || l2 % 4 == 3)
                                &&& leg_live(ops, l2 as int)
                                &&& leg_site(ops, bonds, l2 as int) == s2
                                &&& nvl[l2 as int] == VertexEntry::Unset
                            },
                            Option::None => true,
                        } by {
                            match vlst@[s2] {
                                Option::Some(l2) => {
                                    assert(leg_site(ops, bonds, l2 as int) == s2);
                                    assert(l2 as int != fi && l2 as int != li);
                                    assert(nvl[l2 as int] == ovl[l2 as int]);
                                },
                                Option::None => {},
                            }
                        }

                        assert forall|s2: int|
                            #![trigger vf@[s2]]
                            si + 1 <= s2 < n_sites as int implies match vf@[s2] {
                            Option::Some(f2) => {
                                &&& f2 < 4 * mi
                                &&& (f2 % 4 == 0 || f2 % 4 == 1)
                                &&& leg_live(ops, f2 as int)
                                &&& leg_site(ops, bonds, f2 as int) == s2
                                &&& nvl[f2 as int] == VertexEntry::Unset
                            },
                            Option::None => true,
                        } by {
                            match vf@[s2] {
                                Option::Some(f2) => {
                                    assert(leg_site(ops, bonds, f2 as int) == s2);
                                    assert(f2 as int != fi && f2 as int != li);
                                    assert(nvl[f2 as int] == ovl[f2 as int]);
                                },
                                Option::None => {},
                            }
                        }

                        assert forall|v: int|
                            #![trigger leg_live(ops, v)]
                            0 <= v < 4 * mi && leg_live(ops, v) implies (nvl[v] is Linked || (
                        leg_site(ops, bonds, v) >= si + 1 && (vf@[leg_site(ops, bonds, v)]
                            == Option::Some(v as usize) || vlst@[leg_site(ops, bonds, v)]
                            == Option::Some(v as usize)))) by {
                            let site = leg_site(ops, bonds, v);
                            if ovl[v] is Linked {
                                if v != fi && v != li {
                                    assert(nvl[v] == ovl[v]);
                                }
                            } else if site == si {
                                assert(vf@[site] == Option::Some(v as usize) || vlst@[site]
                                    == Option::Some(v as usize));
                                assert(v == fi || v == li);
                            }
                        }
                    }
                },
                Option::None => {
                    proof {
                        assert(false);
                    }
                },
            }
        },
        Option::None => {},
    }
}

/// After the closure pass has run over every site, the vertex list is a
/// total involutive pairing of the legs of non-identity slots.
proof fn lemma_pairing_from_closure(
    ops: Seq<OpSlot>,
    bonds: Seq<Bond>,
    vl: Seq<VertexEntry>,
    vf: Seq<Option<usize>>,
    vlst: Seq<Option<usize>>,
    m: int,
    n_sites: int,
)
    requires
        closure_inv(ops, bonds, vl, vf, vlst, n_sites, m, n_sites),
        forall|v: int|
            #![trigger leg_live(ops, v)]
            0 <= v < 4 * m && leg_live(ops, v) ==> 0 <= leg_site(ops, bonds, v) < n_sites,
    ensures
        pairing_ok(ops, vl),
        partial_pairing(ops, vl),
{
    assert forall|v: int|
        #![trigger vl[v]]
        0 <= v < vl.len() implies (leg_live(ops, v) <==> vl[v] is Linked) by {
        if leg_live(ops, v) {
            assert(leg_site(ops, bonds, v) < n_sites);
        }
    }
    lemma_pairing_total_is_partial(ops, vl);
}

/// Links the four legs of the non-identity slot `p` into the structure:
/// each entry leg is tied to the site's most recent exit leg (or recorded
/// as the site's first leg), and the site's last-leg pointer moves to this
/// slot's exit leg.
#[verifier::loop_isolation(false)]
#[verifier::rlimit(100)]
fn link_slot(
    vl: &mut Vec<VertexEntry>,
    vf: &mut Vec<Option<usize>>,
    vlst: &mut Vec<Option<usize>>,
    p: usize,
    m: usize,
    n_sites: usize,
    st0: usize,
    st1: usize,
    Ghost(ops): Ghost<Seq<OpSlot>>,
    Ghost(bonds): Ghost<Seq<Bond>>,
)
    requires
        linker_inv(ops, bonds, old(vl)@, old(vf)@, old(vlst)@, p as int, m as int, n_sites as int),
        p < m <= M_CAP,
        forall|v: int|
            #![trigger leg_live(ops, v)]
            0 <= v < 4 * m && leg_live(ops, v) ==> 0 <= leg_site(ops, bonds, v) < n_sites,
        leg_live(ops, 4 * p as int),
        st0 < n_sites,
        st1 < n_sites,
        st0 != st1,
        leg_site(ops, bonds, 4 * p as int) == st0 as int,
        leg_site(ops, bonds, 4 * p as int + 1) == st1 as int,
        leg_site(ops, bonds, 4 * p as int + 2) == st0 as int,
        leg_site(ops, bonds, 4 * p as int + 3) == st1 as int,
    ensures
        linker_inv(
            ops,
            bonds,
            final(vl)@,
            final(vf)@,
            final(vlst)@,
            p as int + 1,
            m as int,
            n_sites as int,
        ),
{
    let leg0 = 4 * p;
    let l0 = vlst[st0];
    let l1 = vlst[st1];
    proof {
        if l0 is Some && l1 is Some {
            assert(leg_site(ops, bonds, l0->0 as int) == st0 as int);
            assert(leg_site(ops, bonds, l1->0 as int) == st1 as int);
            assert(l0->0 != l1->0);
        }
    }
    match l0 {
        Option::Some(l) => {
            vl[l] = VertexEntry::Linked(leg0);
            vl[leg0] = VertexEntry::Linked(l);
        },
        Option::None => {
            vf[st0] = Option::Some(leg0);
        },
    }
    vlst[st0] = Option::Some(leg0 + 2);
    match l1 {
        Option::Some(l) => {
            vl[l] = VertexEntry::Linked(leg0 + 1);
            vl[leg0 + 1] = VertexEntry::Linked(l);
        },
        Option::None => {
            vf[st1] = Option::Some(leg0 + 1);
        },
    }
    vlst[st1] = Option::Some(leg0 + 3);
    proof {
        let ovl = old(vl)@;
        let ovf = old(vf)@;
        let ovlst = old(vlst)@;
        let nvl = vl@;
        let nvf = vf@;
        let nvlst = vlst@;
        let pi = p as int;
        let mi = m as int;
        let lg = leg0 as int;

        assert forall|v: int|
            #![trigger nvl[v]]
            0 <= v < 4 * mi implies match nvl[v] {
            VertexEntry::Linked(w) => {
                &&& w < 4 * mi
                &&& w as int != v
                &&& nvl[w as int] == VertexEntry::Linked(v as usize)
                &&& leg_live(ops, v)
                &&& leg_live(ops, w as int)
                &&& v / 4 < pi + 1
                &&& w as int / 4 < pi + 1
            },
            VertexEntry::Unset => true,
            VertexEntry::Visited => false,
        } by {
            if l0 is Some && v == l0->0 {
            } else if l1 is Some && v == l1->0 {
            } else if v == lg || v == lg + 1 {
            } else {
                assert(nvl[v] == ovl[v]);
                match ovl[v] {
                    VertexEntry::Linked(w) => {
                        assert(ovl[w as int] == VertexEntry::Linked(v as usize));
                        if l0 is Some {
                            assert(w as int != l0->0 as int);
                        }
                        if l1 is Some {
                            assert(w as int != l1->0 as int);
                        }
                        assert(nvl[w as int] == ovl[w as int]);
                    },
                    _ => {},
                }
            }
        }

        assert forall|s2: int|
            #![trigger nvlst[s2]]
            0 <= s2 < n_sites as int implies match nvlst[s2] {
            Option::Some(l) => {
                &&& l < 4 * (pi + 1)
                &&& (l % 4 == 2 || l % 4 == 3)
                &&& leg_live(ops, l as int)
                &&& leg_site(ops, bonds, l as int) == s2
                &&& nvl[l as int] == VertexEntry::Unset
            },
            Option::None => true,
        } by {
            if s2 == st0 as int || s2 == st1 as int {
            } else {
                assert(nvlst[s2] == ovlst[s2]);
                match ovlst[s2] {
                    Option::Some(l) => {
                        assert(leg_site(ops, bonds, l as int) == s2);
                        assert(nvl[l as int] == ovl[l as int]);
                    },
                    Option::None => {},
                }
            }
        }

        assert forall|s2: int|
            #![trigger nvf[s2]]
            0 <= s2 < n_sites as int implies match nvf[s2] {
            Option::Some(f) => {
                &&& f < 4 * (pi + 1)
                &&& (f % 4 == 0 || f % 4 == 1)
                &&& leg_live(ops, f as int)
                &&& leg_site(ops, bonds, f as int) == s2
                &&& nvl[f as int] == VertexEntry::Unset
            },
            Option::None => true,
        } by {
            if s2 == st0 as int && l0 is None {
                assert(nvf[s2] == Option::Some(leg0));
                assert(nvl[lg] == ovl[lg]);
            } else if s2 == st1 as int && l1 is None {
                assert(nvf[s2] == Option::Some((leg0 + 1) as usize));
                assert(nvl[lg + 1] == ovl[lg + 1]);
            } else {
                assert(nvf[s2] == ovf[s2]);
                match ovf[s2] {
                    Option::Some(f) => {
                        assert(leg_site(ops, bonds, f as int) == s2);
                        assert(nvl[f as int] == ovl[f as int]);
                    },
                    Option::None => {},
                }
            }
        }

        assert forall|v: int|
            #![trigger leg_live(ops, v)]
            0 <= v < 4 * (pi + 1) && leg_live(ops, v) implies (nvl[v] is Linked || nvf[leg_site(
            ops,
            bonds,
            v,
        )] == Option::Some(v as usize) || nvlst[leg_site(ops, bonds, v)] == Option::Some(
            v as usize,
        )) by {
            if v < 4 * pi {
                let site = leg_site(ops, bonds, v);
                if ovl[v] is Linked {
                    assert(nvl[v] == ovl[v]);
                } else if ovf[site] == Option::Some(v as usize) {
                    if site == st0 as int {
                        assert(ovlst[st0 as int] is Some);
                    } else if site == st1 as int {
                        assert(ovlst[st1 as int] is Some);
                    } else {
                        assert(nvf[site] == ovf[site]);
                    }
                } else if ovlst[site] == Option::Some(v as usize) {
                    if site == st0 as int {
                        assert(l0 == Option::Some(v as usize));
                        assert(nvl[v] is Linked);
                    } else if site == st1 as int {
                        assert(l1 == Option::Some(v as usize));
                        assert(nvl[v] is Linked);
                    } else {
                        assert(nvlst[site] == ovlst[site]);
                    }
                }
            } else {
                assert(v / 4 == pi);
                if v == lg {
                    assert(nvl[lg] is Linked || nvf[st0 as int] == Option::Some(leg0));
                } else if v == lg + 1 {
                    assert(nvl[lg + 1] is Linked || nvf[st1 as int] == Option::Some(
                        (leg0 + 1) as usize,
                    ));
                } else if v == lg + 2 {
                    assert(nvlst[st0 as int] == Option::Some((leg0 + 2) as usize));
                } else {
                    assert(v == lg + 3);
                    assert(nvlst[st1 as int] == Option::Some((leg0 + 3) as usize));
                }
            }
        }
    }
}

/// The slot-complete pairing of the linker is in particular a partial
/// pairing: the partner of a linked leg lies in the same slot, is live,
/// and is therefore linked as well.
pub proof fn lemma_pairing_total_is_partial(ops: Seq<OpSlot>, vl: Seq<VertexEntry>)
    requires
        pairing_ok(ops, vl),
        vl.len() % 2 == 0,
    ensures
        partial_pairing(ops, vl),
{
    assert forall|v: int|
        #![trigger vl[partner(v)]]
        0 <= v < vl.len() && vl[v] is Linked implies vl[partner(v)] is Linked by {
        lemma_partner_same_slot(v);
        assert(leg_live(ops, v));
        assert(0 <= partner(v) < vl.len());
        assert(leg_live(ops, partner(v)));
    }
}

/// The consumed set of a traversal is closed under the same-slot partner.
proof fn lemma_consumed_partner(
    ops: Seq<OpSlot>,
    vl0: Seq<VertexEntry>,
    start: int,
    k: int,
    j: int,
)
    requires
        partial_pairing(ops, vl0),
        vl0.len() % 2 == 0,
        vl0.len() <= usize::MAX,
        0 <= start < vl0.len(),
        vl0[start] is Linked,
        0 <= j,
        consumed(vl0, start, k, j),
    ensures
        consumed(vl0, start, k, partner(j)),
{
    let i = choose|i: int|
        0 <= i < k && (#[trigger] iterate(vl0, start, i as nat) == j || partner(
            iterate(vl0, start, i as nat),
        ) == j);
    let xi = iterate(vl0, start, i as nat);
    lemma_iter_linked(ops, vl0, start, i as nat);
    lemma_partner_same_slot(xi);
    if xi == j {
        assert(partner(iterate(vl0, start, i as nat)) == partner(j));
    } else {
        assert(iterate(vl0, start, i as nat) == partner(j));
    }
}

/// Extending a traversal that has not yet closed keeps all heads and their
/// partners pairwise distinct: no leg is ever passed twice before closure.
#[verifier::rlimit(100)]
proof fn lemma_orbit_step(ops: Seq<OpSlot>, vl0: Seq<VertexEntry>, start: int, k: int)
    requires
        partial_pairing(ops, vl0),
        vl0.len() % 2 == 0,
        vl0.len() <= usize::MAX,
        0 <= start < vl0.len(),
        vl0[start] is Linked,
        0 <= k,
        heads_distinct(vl0, start, k + 1),
        forall|i: int| 1 <= i <= k ==> #[trigger] iterate(vl0, start, i as nat) != start,
        iterate(vl0, start, (k + 1) as nat) != start,
    ensures
        heads_distinct(vl0, start, k + 2),
{
    let y = iterate(vl0, start, (k + 1) as nat);
    let xk = iterate(vl0, start, k as nat);
    lemma_iter_linked(ops, vl0, start, k as nat);
    lemma_iter_linked(ops, vl0, start, (k + 1) as nat);
    lemma_step_linked(ops, vl0, xk);
    lemma_partner_same_slot(xk);
    lemma_partner_same_slot(y);
    assert forall|i: int, j2: int|
        0 <= i < j2 < k + 2 implies #[trigger] iterate(vl0, start, i as nat)
        != #[trigger] iterate(vl0, start, j2 as nat) && iterate(vl0, start, i as nat) != partner(
        iterate(vl0, start, j2 as nat),
    ) && partner(iterate(vl0, start, i as nat)) != iterate(vl0, start, j2 as nat) by {
        if j2 == k + 1 {
            let xi = iterate(vl0, start, i as nat);
            lemma_iter_linked(ops, vl0, start, i as nat);
            lemma_partner_same_slot(xi);
            if y == xi {
                lemma_orbit_cancel(ops, vl0, start, i as nat, (k + 1) as nat);
                assert(iterate(vl0, start, (k + 1 - i) as nat) == start);
                assert(false);
            }
            if y == partner(xi) || partner(y) == xi {
                assert(y == partner(xi));
                lemma_step_linked(ops, vl0, xi);
                let xn = next_leg(vl0, xi);
                assert(xn == iterate(vl0, start, (i + 1) as nat));
                assert(vl0[y] == VertexEntry::Linked(partner(xk) as usize));
                assert(vl0[partner(xi)] == VertexEntry::Linked(xn as usize));
                lemma_iter_linked(ops, vl0, start, (i + 1) as nat);
                assert(0 <= partner(xk) < vl0.len());
                assert(xn == partner(xk));
                if i + 1 == k + 1 {
                    assert(vl0[partner(xk)] == VertexEntry::Linked(y as usize));
                    assert(y == partner(xk));
                    assert(false);
                } else if i + 1 == k {
                    assert(partner(xk) == xk);
                    assert(false);
                } else {
                    assert(iterate(vl0, start, (i + 1) as nat) != partner(
                        iterate(vl0, start, k as nat),
                    ));
                    assert(false);
                }
            }
        }
    }
}

/// A component consumed whole is closed: no link leads from an unconsumed
/// leg into it.
#[verifier::rlimit(100)]
proof fn lemma_component_closed(
    ops: Seq<OpSlot>,
    vl0: Seq<VertexEntry>,
    start: int,
    kk: int,
    j: int,
    w: usize,
)
    requires
        partial_pairing(ops, vl0),
        vl0.len() % 2 == 0,
        vl0.len() <= usize::MAX,
        0 <= start < vl0.len(),
        vl0[start] is Linked,
        1 <= kk,
        iterate(vl0, start, kk as nat) == start,
        0 <= j < vl0.len(),
        vl0[j] == VertexEntry::Linked(w),
        !consumed(vl0, start, kk, j),
    ensures
        !consumed(vl0, start, kk, w as int),
{
    if consumed(vl0, start, kk, w as int) {
        let i = choose|i: int|
            0 <= i < kk && (#[trigger] iterate(vl0, start, i as nat) == w as int || partner(
                iterate(vl0, start, i as nat),
            ) == w as int);
        let xi = iterate(vl0, start, i as nat);
        lemma_iter_linked(ops, vl0, start, i as nat);
        lemma_partner_same_slot(xi);
        assert(vl0[w as int] == VertexEntry::Linked(j as usize));
        if xi == w as int {
            if i >= 1 {
                let xprev = iterate(vl0, start, (i - 1) as nat);
                lemma_iter_linked(ops, vl0, start, (i - 1) as nat);
                lemma_step_linked(ops, vl0, xprev);
                lemma_partner_same_slot(xprev);
                assert(next_leg(vl0, xprev) == xi);
                assert(vl0[xi] == VertexEntry::Linked(partner(xprev) as usize));
                assert(j == partner(xprev));
                assert(partner(iterate(vl0, start, (i - 1) as nat)) == j);
                assert(consumed(vl0, start, kk, j));
                assert(false);
            } else {
                let xprev = iterate(vl0, start, (kk - 1) as nat);
                lemma_iter_linked(ops, vl0, start, (kk - 1) as nat);
                lemma_step_linked(ops, vl0, xprev);
                lemma_partner_same_slot(xprev);
                assert(next_leg(vl0, xprev) == iterate(vl0, start, kk as nat));
                assert(vl0[start] == VertexEntry::Linked(partner(xprev) as usize));
                assert(j == partner(xprev));
                assert(partner(iterate(vl0, start, (kk - 1) as nat)) == j);
                assert(consumed(vl0, start, kk, j));
                assert(false);
            }
        } else {
            assert(partner(xi) == w as int);
            lemma_step_linked(ops, vl0, xi);
            let xn = next_leg(vl0, xi);
            assert(xn == iterate(vl0, start, (i + 1) as nat));
            assert(vl0[partner(xi)] == VertexEntry::Linked(xn as usize));
            lemma_iter_linked(ops, vl0, start, (i + 1) as nat);
            assert(j == xn);
            if i + 1 < kk {
                assert(iterate(vl0, start, (i + 1) as nat) == j);
                assert(consumed(vl0, start, kk, j));
                assert(false);
            } else {
                assert(j == start);
                let z: int = 0;
                assert(0 <= z < kk && iterate(vl0, start, z as nat) == j);
                assert(consumed(vl0, start, kk, j));
                assert(false);
            }
        }
    }
}

/// With every even leg unlinked, partner-closure leaves no linked leg at
/// all: the whole vertex list is retired.
proof fn lemma_all_retired(ops: Seq<OpSlot>, vl: Seq<VertexEntry>)
    requires
        partial_pairing(ops, vl),
        forall|w: int| 0 <= w < vl.len() && w % 2 == 0 ==> !((#[trigger] vl[w]) is Linked),
    ensures
        forall|j: int|
            0 <= j < vl.len() ==> ((#[trigger] vl[j]) is Unset || vl[j] is Visited),
{
    assert forall|j: int|
        0 <= j < vl.len() implies ((#[trigger] vl[j]) is Unset || vl[j] is Visited) by {
        if vl[j] is Linked {
            if j % 2 == 0 {
                assert(false);
            } else {
                lemma_partner_same_slot(j);
                assert(vl[partner(j)] is Linked);
                assert(partner(j) == j - 1 && (j - 1) % 2 == 0);
                assert(false);
            }
        }
    }
}

proof fn lemma_mul_le(a: int, b: int, ca: int, cb: int)
    by (nonlinear_arith)
    requires
        0 <= a <= ca,
        0 <= b <= cb,
    ensures
        a * b <= ca * cb,
{
}

proof fn lemma_count_identity_slot(s: Seq<OpSlot>, i: int)
    requires
        0 <= i < s.len(),
        s[i] is Identity,
    ensures
        count_ops(s) <= s.len() - 1,
    decreases s.len(),
{
    lemma_count_le_len(s.drop_last());
    if i < s.len() - 1 {
        lemma_count_identity_slot(s.drop_last(), i);
    }
}

impl HeisenbergModel {
    /// One sequential pass over all slots of the operator string.  At an
    /// identity slot a random bond is drawn and, if its endpoint spins are
    /// antiparallel, a diagonal operator is inserted with probability
    /// `min(1, prob_add / (M - n))`; a diagonal operator is removed with
    /// probability `min(1, (M - n + 1) / prob_add)`; an off-diagonal
    /// operator propagates the spin state by flipping both endpoint spins.
    /// Both acceptance tests are evaluated exactly in 32-bit fixed point,
    /// and at saturation (`M == n`) an insertion is accepted outright.
    #[verifier::loop_isolation(false)]
    pub fn diag_update(&mut self)
        requires
            old(self).wf(),
        ensures
            final(self).wf(),
            Self::same_params(*old(self), *final(self)),
            final(self).m == old(self).m,
            final(self).v_first@ == old(self).v_first@,
            final(self).v_last@ == old(self).v_last@,
            final(self).vertex_list@ == old(self).vertex_list@,
            final(self).spins@ == propagate(
                old(self).spins@,
                old(self).op_string@,
                old(self).b_sites@,
                old(self).m as int,
            ),
            forall|p: int|
                0 <= p < old(self).m ==> diag_evolution(
                    old(self).op_string@[p],
                    #[trigger] final(self).op_string@[p],
                    old(self).n_bonds as int,
                ),
            forall|p: int|
                0 <= p < old(self).m ==> insert_antiparallel(
                    old(self).op_string@[p],
                    #[trigger] final(self).op_string@[p],
                    propagate(old(self).spins@, old(self).op_string@, old(self).b_sites@, p),
                    old(self).b_sites@,
                ),
    {
        let ghost ops0 = self.op_string@;
        let ghost spins0 = self.spins@;
        let m = self.m;
        let mut p: usize = 0;
        while p < m
            invariant
                p <= m,
                self.wf(),
                Self::same_params(*old(self), *self),
                self.m == old(self).m,
                self.v_first@ == old(self).v_first@,
                self.v_last@ == old(self).v_last@,
                self.vertex_list@ == old(self).vertex_list@,
                self.spins@ == propagate(spins0, ops0, self.b_sites@, p as int),
                forall|q: int| p <= q < m ==> self.op_string@[q] == ops0[q],
                forall|q: int|
                    0 <= q < p ==> diag_evolution(
                        ops0[q],
                        #[trigger] self.op_string@[q],
                        self.n_bonds as int,
                    ),
                forall|q: int|
                    0 <= q < p ==> insert_antiparallel(
                        ops0[q],
                        #[trigger] self.op_string@[q],
                        propagate(spins0, ops0, self.b_sites@, q),
                        self.b_sites@,
                    ),
            decreases m - p,
        {
            let op = self.op_string[p];
            match op {
                OpSlot::Identity => {
                    let x = self.rng.next();
                    let new_bond = (x as usize) % self.n_bonds;
                    let bond = self.b_sites[new_bond];
                    if self.spins[bond.s0] != self.spins[bond.s1] {
                        proof {
                            lemma_count_le_len(self.op_string@);
                        }
                        let d = self.m - self.n;
                        let accept: bool;
                        if self.prob_add_q32 >= (d as u128) * Q32 {
                            accept = true;
                        } else {
                            let y = self.rng.next();
                            proof {
                                lemma_mul_le(y as int, d as int, 0xFFFF_FFFF, M_CAP as int);
                            }
                            accept = (y as u128) * (d as u128) <= self.prob_add_q32;
                        }
                        if accept {
                            proof {
                                lemma_count_identity_slot(self.op_string@, p as int);
                                lemma_count_update(
                                    self.op_string@,
                                    p as int,
                                    OpSlot::Diagonal(new_bond),
                                );
                            }
                            self.op_string[p] = OpSlot::Diagonal(new_bond);
                            self.n = self.n + 1;
                        }
                    }
                },
                OpSlot::Diagonal(_bidx) => {
                    proof {
                        lemma_count_pos(self.op_string@, p as int);
                        lemma_count_le_len(self.op_string@);
                    }
                    let d1 = self.m - self.n + 1;
                    let accept: bool;
                    if (d1 as u128) * Q32 >= self.prob_add_q32 {
                        accept = true;
                    } else {
                        let y = self.rng.next();
                        proof {
                            lemma_mul_le(
                                y as int,
                                self.prob_add_q32 as int,
                                0xFFFF_FFFF,
                                0x1000_0000_0000_0000_0000,
                            );
                        }
                        accept = (y as u128) * self.prob_add_q32 <= (d1 as u128) * Q32 * Q32;
                    }
                    if accept {
                        proof {
                            lemma_count_update(self.op_string@, p as int, OpSlot::Identity);
                        }
                        self.op_string[p] = OpSlot::Identity;
                        self.n = self.n - 1;
                    }
                },
                OpSlot::OffDiagonal(bidx) => {
                    let bond = self.b_sites[bidx];
                    let cur0 = self.spins[bond.s0];
                    self.spins[bond.s0] = -cur0;
                    let cur1 = self.spins[bond.s1];
                    self.spins[bond.s1] = -cur1;
                },
            }
            p = p + 1;
        }
    }

    /// Rebuilds the vertex list from scratch: scanning the slots in order,
    /// each leg of a non-identity operator is linked bidirectionally with
    /// the previous leg touching the same site, and at the end each site's
    /// first and last legs are linked to close the periodic imaginary-time
    /// boundary.  The resulting pairing is a total involution on the legs
    /// of non-identity slots; every other entry is `Unset`.
    #[verifier::loop_isolation(false)]
    #[verifier::rlimit(100)]
    pub fn make_vertex_lists(&mut self)
        requires
            old(self).wf(),
        ensures
            final(self).wf(),
            Self::same_params(*old(self), *final(self)),
            final(self).m == old(self).m,
            final(self).n == old(self).n,
            final(self).op_string@ == old(self).op_string@,
            final(self).spins@ == old(self).spins@,
            final(self).rng == old(self).rng,
            pairing_ok(final(self).op_string@, final(self).vertex_list@),
            partial_pairing(final(self).op_string@, final(self).vertex_list@),
    {
        let m = self.m;
        let n_sites = self.n_sites;
        let ghost ops = self.op_string@;
        let ghost bonds = self.b_sites@;
        proof {
            assert forall|v: int|
                #![trigger leg_live(ops, v)]
                0 <= v < 4 * (m as int) && leg_live(ops, v) implies 0 <= leg_site(ops, bonds, v)
                < n_sites as int by {
                assert(slot_ok(ops[v / 4], bonds));
                let bi = op_bond_idx(ops[v / 4]);
                assert(bonds[bi].s0 < n_sites && bonds[bi].s1 < n_sites);
            }
        }

        let mut vl: Vec<VertexEntry> = Vec::new();
        let four_m = 4 * m;
        let mut v0: usize = 0;
        while v0 < four_m
            invariant
                v0 <= four_m,
                vl@.len() == v0,
                forall|j: int| 0 <= j < v0 ==> #[trigger] vl@[j] == VertexEntry::Unset,
            decreases four_m - v0,
        {
            vl.push(VertexEntry::Unset);
            v0 = v0 + 1;
        }
        let mut vf: Vec<Option<usize>> = Vec::new();
        let mut vlst: Vec<Option<usize>> = Vec::new();
        let mut si: usize = 0;
        while si < n_sites
            invariant
                si <= n_sites,
                vf@.len() == si,
                vlst@.len() == si,
                forall|j: int| 0 <= j < si ==> #[trigger] vf@[j] == Option::<usize>::None,
                forall|j: int| 0 <= j < si ==> #[trigger] vlst@[j] == Option::<usize>::None,
            decreases n_sites - si,
        {
            vf.push(Option::None);
            vlst.push(Option::None);
            si = si + 1;
        }

        let mut p: usize = 0;
        while p < m
            invariant
                p <= m,
                *self == *old(self),
                linker_inv(ops, bonds, vl@, vf@, vlst@, p as int, m as int, n_sites as int),
            decreases m - p,
        {
            let op = self.op_string[p];
            let bidx_opt: Option<usize> = match op {
                OpSlot::Identity => Option::None,
                OpSlot::Diagonal(b) => Option::Some(b),
                OpSlot::OffDiagonal(b) => Option::Some(b),
            };
            match bidx_opt {
                Option::None => {},
                Option::Some(b) => {
                    let bond = self.b_sites[b];
                    let st0 = bond.s0;
                    let st1 = bond.s1;
                    proof {
                        assert(slot_ok(ops[p as int], bonds));
                        assert(leg_site(ops, bonds, 4 * p as int) == st0 as int);
                        assert(leg_site(ops, bonds, 4 * p as int + 1) == st1 as int);
                        assert(leg_site(ops, bonds, 4 * p as int + 2) == st0 as int);
                        assert(leg_site(ops, bonds, 4 * p as int + 3) == st1 as int);
                    }
                    link_slot(
                        &mut vl,
                        &mut vf,
                        &mut vlst,
                        p,
                        m,
                        n_sites,
                        st0,
                        st1,
                        Ghost(ops),
                        Ghost(bonds),
                    );
                },
            }
            p = p + 1;
        }

        let mut s: usize = 0;
        while s < n_sites
            invariant
                s <= n_sites,
                *self == *old(self),
                closure_inv(ops, bonds, vl@, vf@, vlst@, s as int, m as int, n_sites as int),
            decreases n_sites - s,
        {
            close_site(&mut vl, &vf, &vlst, s, m, n_sites, Ghost(ops), Ghost(bonds));
            s = s + 1;
        }

        proof {
            lemma_pairing_from_closure(
                ops,
                bonds,
                vl@,
                vf@,
                vlst@,
                m as int,
                n_sites as int,
            );
        }
        self.vertex_list = vl;
        self.v_first = vf;
        self.v_last = vlst;
    }

    /// Follows one closed cycle of the leg pairing starting at `start`,
    /// marking every leg it passes.  With `flip` the operator type of every
    /// slot passed is toggled and legs are marked `Visited`; without it the
    /// legs are only set back to `Unset`.  When the linked entries form a
    /// partial pairing and `start` is linked, the traversal provably closes
    /// and consumes exactly one cycle, leaving the remaining links a partial
    /// pairing; on any other structure it returns `false`, leaving the
    /// state well formed.
    #[verifier::loop_isolation(false)]
    #[verifier::rlimit(100)]
    fn traverse(&mut self, start: usize, flip: bool) -> (completed: bool)
        requires
            old(self).wf(),
            start < 4 * old(self).m,
        ensures
            final(self).wf(),
            Self::same_params(*old(self), *final(self)),
            final(self).m == old(self).m,
            final(self).n == old(self).n,
            final(self).spins@ == old(self).spins@,
            final(self).v_first@ == old(self).v_first@,
            final(self).v_last@ == old(self).v_last@,
            forall|p: int|
                0 <= p < old(self).m ==> loop_evolution(
                    old(self).op_string@[p],
                    #[trigger] final(self).op_string@[p],
                ),
            forall|j: int|
                0 <= j < 4 * old(self).m && (#[trigger] final(self).vertex_list@[j]) is Linked
                    ==> final(self).vertex_list@[j] == old(self).vertex_list@[j],
            (partial_pairing(old(self).op_string@, old(self).vertex_list@) && old(
                self,
            ).vertex_list@[start as int] is Linked) ==> (completed && partial_pairing(
                final(self).op_string@,
                final(self).vertex_list@,
            ) && !(final(self).vertex_list@[start as int] is Linked)),
    {
        let m = self.m;
        let bound = 4 * m;
        let ghost vl0 = old(self).vertex_list@;
        let ghost ops_e = old(self).op_string@;
        let ghost st = start as int;
        let ghost good = partial_pairing(ops_e, vl0) && vl0[st] is Linked;
        let ghost markv = if flip {
            VertexEntry::Visited
        } else {
            VertexEntry::Unset
        };
        let mut v_head = start;
        let mut steps: usize = 0;
        while steps <= bound
            invariant
                self.wf(),
                Self::same_params(*old(self), *self),
                self.m == old(self).m,
                self.n == old(self).n,
                self.spins@ == old(self).spins@,
                self.v_first@ == old(self).v_first@,
                self.v_last@ == old(self).v_last@,
                v_head < 4 * m,
                forall|p: int|
                    0 <= p < old(self).m ==> loop_evolution(
                        old(self).op_string@[p],
                        #[trigger] self.op_string@[p],
                    ),
                forall|j: int|
                    0 <= j < 4 * m && (#[trigger] self.vertex_list@[j]) is Linked
                        ==> self.vertex_list@[j] == vl0[j],
                good ==> v_head as int == iterate(vl0, st, steps as nat),
                good ==> heads_distinct(vl0, st, steps as int + 1),
                good ==> (forall|i: int|
                    1 <= i <= steps as int ==> #[trigger] iterate(vl0, st, i as nat) != st),
                good ==> (forall|j: int|
                    0 <= j < 4 * m && !consumed(vl0, st, steps as int, j)
                        ==> #[trigger] self.vertex_list@[j] == vl0[j]),
                good ==> (forall|j: int|
                    0 <= j < 4 * m && consumed(vl0, st, steps as int, j)
                        ==> #[trigger] self.vertex_list@[j] == markv),
            decreases bound + 1 - steps,
        {
            let ghost k = steps as int;
            proof {
                if good {
                    lemma_iter_linked(ops_e, vl0, st, k as nat);
                    lemma_partner_same_slot(v_head as int);
                    if consumed(vl0, st, k, v_head as int) {
                        let i = choose|i: int|
                            0 <= i < k && (#[trigger] iterate(vl0, st, i as nat) == v_head as int
                                || partner(iterate(vl0, st, i as nat)) == v_head as int);
                        assert(false);
                    }
                    if consumed(vl0, st, k, partner(v_head as int)) {
                        let i = choose|i: int|
                            0 <= i < k && (#[trigger] iterate(vl0, st, i as nat) == partner(
                                v_head as int,
                            ) || partner(iterate(vl0, st, i as nat)) == partner(v_head as int));
                        lemma_iter_linked(ops_e, vl0, st, i as nat);
                        lemma_partner_same_slot(iterate(vl0, st, i as nat));
                        assert(false);
                    }
                    assert(self.vertex_list@[v_head as int] == vl0[v_head as int]);
                    lemma_step_linked(ops_e, vl0, v_head as int);
                }
            }
            if flip {
                let slot = v_head / 4;
                let cur = self.op_string[slot];
                match cur {
                    OpSlot::Identity => {
                        proof {
                            if good {
                                assert(leg_live(ops_e, v_head as int));
                                assert(!(ops_e[v_head as int / 4] is Identity));
                                assert(false);
                            }
                        }
                        return false;
                    },
                    OpSlot::Diagonal(b) => {
                        proof {
                            lemma_count_update(self.op_string@, slot as int, OpSlot::OffDiagonal(b));
                        }
                        self.op_string[slot] = OpSlot::OffDiagonal(b);
                    },
                    OpSlot::OffDiagonal(b) => {
                        proof {
                            lemma_count_update(self.op_string@, slot as int, OpSlot::Diagonal(b));
                        }
                        self.op_string[slot] = OpSlot::Diagonal(b);
                    },
                }
            }
            let mark = if flip {
                VertexEntry::Visited
            } else {
                VertexEntry::Unset
            };
            self.vertex_list[v_head] = mark;
            let v_tail = if v_head % 2 == 0 {
                v_head + 1
            } else {
                v_head - 1
            };
            let nxt = self.vertex_list[v_tail];
            self.vertex_list[v_tail] = mark;
            proof {
                if good {
                    assert(v_tail as int == partner(v_head as int));
                    assert(nxt == vl0[partner(v_head as int)]);
                    assert(nxt == VertexEntry::Linked(next_leg(vl0, v_head as int) as usize));
                    assert forall|j: int|
                        0 <= j < 4 * m && !consumed(vl0, st, k + 1, j)
                            implies self.vertex_list@[j] == vl0[j] by {
                        if consumed(vl0, st, k, j) {
                            let i = choose|i: int|
                                0 <= i < k && (#[trigger] iterate(vl0, st, i as nat) == j
                                    || partner(iterate(vl0, st, i as nat)) == j);
                            assert(consumed(vl0, st, k + 1, j));
                            assert(false);
                        }
                        if j == v_head as int || j == v_tail as int {
                            assert(iterate(vl0, st, k as nat) == v_head as int);
                            assert(consumed(vl0, st, k + 1, j));
                            assert(false);
                        }
                    }
                    assert forall|j: int|
                        0 <= j < 4 * m && consumed(vl0, st, k + 1, j)
                            implies self.vertex_list@[j] == markv by {
                        let i = choose|i: int|
                            0 <= i < k + 1 && (#[trigger] iterate(vl0, st, i as nat) == j
                                || partner(iterate(vl0, st, i as nat)) == j);
                        if i < k {
                            assert(consumed(vl0, st, k, j));
                            assert(j != v_head as int && j != v_tail as int);
                        } else {
                            assert(j == v_head as int || j == v_tail as int);
                        }
                    }
                }
            }
            match nxt {
                VertexEntry::Linked(w) => {
                    proof {
                        if good {
                            assert(w as int == iterate(vl0, st, (k + 1) as nat));
                            lemma_iter_linked(ops_e, vl0, st, (k + 1) as nat);
                        }
                    }
                    if w >= bound {
                        proof {
                            if good {
                                assert(false);
                            }
                        }
                        return false;
                    }
                    if w == start {
                        proof {
                            if good {
                                let kk = k + 1;
                                assert(iterate(vl0, st, kk as nat) == st);
                                let z: int = 0;
                                assert(0 <= z < kk && iterate(vl0, st, z as nat) == st);
                                assert(consumed(vl0, st, kk, st));
                                assert(!(self.vertex_list@[st] is Linked));
                                assert forall|v2: int|
                                    #![trigger self.vertex_list@[v2]]
                                    0 <= v2 < self.vertex_list@.len() implies match self.vertex_list@[v2] {
                                    VertexEntry::Linked(w2) => {
                                        &&& w2 < self.vertex_list@.len()
                                        &&& w2 as int != v2
                                        &&& self.vertex_list@[w2 as int] == VertexEntry::Linked(
                                            v2 as usize,
                                        )
                                        &&& leg_live(self.op_string@, v2)
                                        &&& leg_live(self.op_string@, w2 as int)
                                    },
                                    _ => true,
                                } by {
                                    match self.vertex_list@[v2] {
                                        VertexEntry::Linked(w2) => {
                                            assert(self.vertex_list@[v2] == vl0[v2]);
                                            assert(!consumed(vl0, st, kk, v2));
                                            lemma_component_closed(ops_e, vl0, st, kk, v2, w2);
                                            assert(self.vertex_list@[w2 as int] == vl0[
                                                w2 as int]);
                                            assert(leg_live(ops_e, v2) && leg_live(
                                                ops_e,
                                                w2 as int,
                                            ));
                                            assert(loop_evolution(
                                                ops_e[v2 / 4],
                                                self.op_string@[v2 / 4],
                                            ));
                                            assert(loop_evolution(
                                                ops_e[w2 as int / 4],
                                                self.op_string@[w2 as int / 4],
                                            ));
                                        },
                                        _ => {},
                                    }
                                }
                                assert forall|v2: int|
                                    #![trigger self.vertex_list@[partner(v2)]]
                                    0 <= v2 < self.vertex_list@.len()
                                        && self.vertex_list@[v2] is Linked
                                        implies self.vertex_list@[partner(v2)] is Linked by {
                                    assert(self.vertex_list@[v2] == vl0[v2]);
                                    assert(!consumed(vl0, st, kk, v2));
                                    lemma_partner_same_slot(v2);
                                    assert(vl0[partner(v2)] is Linked);
                                    if consumed(vl0, st, kk, partner(v2)) {
                                        lemma_consumed_partner(ops_e, vl0, st, kk, partner(v2));
                                        assert(consumed(vl0, st, kk, v2));
                                        assert(false);
                                    }
                                    assert(self.vertex_list@[partner(v2)] == vl0[partner(v2)]);
                                }
                                assert(partial_pairing(self.op_string@, self.vertex_list@));
                            }
                        }
                        return true;
                    }
                    proof {
                        if good {
                            lemma_orbit_step(ops_e, vl0, st, k);
                        }
                    }
                    v_head = w;
                },
                _ => {
                    proof {
                        if good {
                            assert(false);
                        }
                    }
                    return false;
                },
            }
            steps = steps + 1;
        }
        proof {
            if good {
                lemma_loop_closes(ops_e, vl0, st);
                let kx = choose|kx: int|
                    1 <= kx <= vl0.len() && #[trigger] iterate(vl0, st, kx as nat) == st;
                assert(iterate(vl0, st, kx as nat) != st);
                assert(false);
            }
        }
        false
    }

    /// The cycle phase of the loop update: every even leg still linked
    /// seeds a traversal, flipped with probability one half.  On a partial
    /// pairing every traversal provably completes and the whole vertex
    /// list is retired to `Unset` or `Visited`; on any other structure the
    /// pass stops at the defect and returns `false`.
    #[verifier::loop_isolation(false)]
    #[verifier::rlimit(100)]
    fn erase_loops(&mut self) -> (ok: bool)
        requires
            old(self).wf(),
        ensures
            final(self).wf(),
            Self::same_params(*old(self), *final(self)),
            final(self).m == old(self).m,
            final(self).n == old(self).n,
            final(self).spins@ == old(self).spins@,
            final(self).v_first@ == old(self).v_first@,
            final(self).v_last@ == old(self).v_last@,
            forall|p: int|
                0 <= p < old(self).m ==> loop_evolution(
                    old(self).op_string@[p],
                    #[trigger] final(self).op_string@[p],
                ),
            partial_pairing(old(self).op_string@, old(self).vertex_list@) ==> (ok && (forall|
                j: int,
            |
                0 <= j < 4 * final(self).m ==> ((#[trigger] final(self).vertex_list@[j]) is Unset
                    || final(self).vertex_list@[j] is Visited))),
    {
        let m = self.m;
        let four_m = 4 * m;
        let ghost good0 = partial_pairing(old(self).op_string@, old(self).vertex_list@);
        let mut v: usize = 0;
        while v < four_m
            invariant
                v % 2 == 0,
                v <= four_m,
                self.wf(),
                Self::same_params(*old(self), *self),
                self.m == old(self).m,
                self.n == old(self).n,
                self.spins@ == old(self).spins@,
                self.v_first@ == old(self).v_first@,
                self.v_last@ == old(self).v_last@,
                forall|p: int|
                    0 <= p < old(self).m ==> loop_evolution(
                        old(self).op_string@[p],
                        #[trigger] self.op_string@[p],
                    ),
                good0 ==> partial_pairing(self.op_string@, self.vertex_list@),
                good0 ==> (forall|w: int|
                    0 <= w < v && w % 2 == 0 ==> !((#[trigger] self.vertex_list@[w]) is Linked)),
            decreases four_m - v,
        {
            let entry = self.vertex_list[v];
            match entry {
                VertexEntry::Linked(_) => {
                    let x = self.rng.next();
                    let flip = x < 0x8000_0000u32;
                    let ghost before = *self;
                    let completed = self.traverse(v, flip);
                    proof {
                        if good0 {
                            assert(completed);
                            assert forall|w: int|
                                0 <= w < v + 2 && w % 2 == 0
                                    implies !((#[trigger] self.vertex_list@[w]) is Linked) by {
                                if self.vertex_list@[w] is Linked {
                                    assert(self.vertex_list@[w] == before.vertex_list@[w]);
                                }
                            }
                        }
                    }
                    if !completed {
                        return false;
                    }
                },
                _ => {},
            }
            v = v + 2;
        }
        proof {
            if good0 {
                lemma_all_retired(self.op_string@, self.vertex_list@);
            }
        }
        true
    }

    /// The spin phase of the loop update: a site whose first leg ends up
    /// marked `Visited` (its cycle was flipped) has its spin reversed; a
    /// site touched by no operator has its spin reversed with probability
    /// one half.
    #[verifier::loop_isolation(false)]
    #[verifier::rlimit(100)]
    fn flip_spins(&mut self)
        requires
            old(self).wf(),
        ensures
            final(self).wf(),
            Self::same_params(*old(self), *final(self)),
            final(self).m == old(self).m,
            final(self).n == old(self).n,
            final(self).v_first@ == old(self).v_first@,
            final(self).v_last@ == old(self).v_last@,
            final(self).op_string@ == old(self).op_string@,
            final(self).vertex_list@ == old(self).vertex_list@,
            forall|i: int|
                0 <= i < old(self).n_sites ==> ((#[trigger] old(self).v_first@[i]) matches
                    Option::Some(f) ==> final(self).spins@[i] == (
                if old(self).vertex_list@[f as int] is Visited {
                    (0 - old(self).spins@[i]) as i32
                } else {
                    old(self).spins@[i]
                })),
    {
        let ghost vl_ph2 = self.vertex_list@;
        let n_sites = self.n_sites;
        let mut i: usize = 0;
        while i < n_sites
            invariant
                i <= n_sites,
                self.wf(),
                Self::same_params(*old(self), *self),
                self.m == old(self).m,
                self.n == old(self).n,
                self.v_first@ == old(self).v_first@,
                self.v_last@ == old(self).v_last@,
                self.op_string@ == old(self).op_string@,
                self.vertex_list@ == vl_ph2,
                forall|j: int| i <= j < n_sites ==> self.spins@[j] == old(self).spins@[j],
                forall|j: int|
                    0 <= j < i ==> ((#[trigger] old(self).v_first@[j]) matches Option::Some(f)
                        ==> self.spins@[j] == (if self.vertex_list@[f as int] is Visited {
                        (0 - old(self).spins@[j]) as i32
                    } else {
                        old(self).spins@[j]
                    })),
            decreases n_sites - i,
        {
            let first = self.v_first[i];
            match first {
                Option::Some(f) => {
                    let e = self.vertex_list[f];
                    match e {
                        VertexEntry::Visited => {
                            let cur = self.spins[i];
                            self.spins[i] = -cur;
                        },
                        _ => {},
                    }
                },
                Option::None => {
                    let x = self.rng.next();
                    if x < 0x8000_0000u32 {
                        let cur = self.spins[i];
                        self.spins[i] = -cur;
                    }
                },
            }
            i = i + 1;
        }
    }

    /// The loop update: every leg still linked after the vertex-linker pass
    /// seeds a cycle, which with probability one half is traversed with a
    /// flip of every operator it passes, and otherwise only erased.  A site
    /// whose first leg ends up on a flipped cycle has its spin flipped; a
    /// site touched by no operator has its spin flipped with probability
    /// one half.  The operator count `n` is preserved exactly.  Success is
    /// owed: on the involutive pairing the linker builds, every cycle
    /// provably closes within the `4 * M` step bound and the result is
    /// `Ok`, with the whole vertex list retired to `Unset` or `Visited`;
    /// `Err` can arise only on a vertex list that is not such a pairing,
    /// and even then the state stays well formed and the spins untouched.
    #[verifier::loop_isolation(false)]
    #[verifier::rlimit(100)]
    pub fn loop_update(&mut self) -> (r: Result<(), LoopFault>)
        requires
            old(self).wf(),
        ensures
            final(self).wf(),
            Self::same_params(*old(self), *final(self)),
            final(self).m == old(self).m,
            final(self).n == old(self).n,
            final(self).v_first@ == old(self).v_first@,
            final(self).v_last@ == old(self).v_last@,
            forall|p: int|
                0 <= p < old(self).m ==> loop_evolution(
                    old(self).op_string@[p],
                    #[trigger] final(self).op_string@[p],
                ),
            partial_pairing(old(self).op_string@, old(self).vertex_list@) ==> r is Ok,
            partial_pairing(old(self).op_string@, old(self).vertex_list@) ==> (forall|j: int|
                0 <= j < 4 * final(self).m ==> ((#[trigger] final(self).vertex_list@[j]) is Unset
                    || final(self).vertex_list@[j] is Visited)),
            r is Err ==> final(self).spins@ == old(self).spins@,
            r is Ok ==> (forall|i: int|
                0 <= i < old(self).n_sites ==> ((#[trigger] old(self).v_first@[i]) matches
                    Option::Some(f) ==> final(self).spins@[i] == (
                if final(self).vertex_list@[f as int] is Visited {
                    (0 - old(self).spins@[i]) as i32
                } else {
                    old(self).spins@[i]
                }))),
    {
        let ghost good0 = partial_pairing(old(self).op_string@, old(self).vertex_list@);
        let ok = self.erase_loops();
        if !ok {
            return Result::Err(LoopFault);
        }
        self.flip_spins();
        Result::Ok(())
    }


    /// Grows the truncation order to `n + n/3` when the operator count has
    /// caught up with it, extending the operator string with identities
    /// (existing slots preserved) and reallocating the vertex list.  The
    /// order never shrinks; growth is capped at `M_CAP`.
    #[verifier::loop_isolation(false)]
    pub fn adjust_m(&mut self)
        requires
            old(self).wf(),
        ensures
            final(self).wf(),
            Self::same_params(*old(self), *final(self)),
            final(self).n == old(self).n,
            final(self).spins@ == old(self).spins@,
            final(self).v_first@ == old(self).v_first@,
            final(self).v_last@ == old(self).v_last@,
            final(self).rng == old(self).rng,
            final(self).m >= old(self).m,
            ({
                let t = old(self).n + old(self).n / 3;
                let tc: int = if t > M_CAP {
                    M_CAP as int
                } else {
                    t as int
                };
                final(self).m == if old(self).m < tc {
                    tc
                } else {
                    old(self).m as int
                }
            }),
            final(self).op_string@.subrange(0, old(self).m as int) == old(self).op_string@,
            forall|q: int|
                old(self).m <= q < final(self).m ==> #[trigger] final(self).op_string@[q]
                    == OpSlot::Identity,
            final(self).m > old(self).m ==> forall|v: int|
                0 <= v < 4 * final(self).m ==> #[trigger] final(self).vertex_list@[v]
                    == VertexEntry::Unset,
            final(self).m == old(self).m ==> final(self).vertex_list@ == old(self).vertex_list@,
    {
        proof {
            lemma_count_le_len(self.op_string@);
        }
        let new_m_raw = self.n + self.n / 3;
        let new_m = if new_m_raw > M_CAP {
            M_CAP
        } else {
            new_m_raw
        };
        if self.m < new_m {
            let ghost ops0 = self.op_string@;
            while self.op_string.len() < new_m
                invariant
                    self.op_string@.len() >= ops0.len(),
                    self.op_string@.len() <= new_m,
                    self.op_string@.subrange(0, ops0.len() as int) == ops0,
                    forall|q: int|
                        ops0.len() <= q < self.op_string@.len() ==> #[trigger] self.op_string@[q]
                            == OpSlot::Identity,
                    count_ops(self.op_string@) == count_ops(ops0),
                    self.m == old(self).m,
                    self.n == old(self).n,
                    self.spins@ == old(self).spins@,
                    self.v_first@ == old(self).v_first@,
                    self.v_last@ == old(self).v_last@,
                    self.vertex_list@ == old(self).vertex_list@,
                    self.rng == old(self).rng,
                    Self::same_params(*old(self), *self),
                decreases new_m - self.op_string.len(),
            {
                proof {
                    lemma_count_push(self.op_string@, OpSlot::Identity);
                    assert(self.op_string@.push(OpSlot::Identity).subrange(0, ops0.len() as int)
                        =~= self.op_string@.subrange(0, ops0.len() as int));
                }
                self.op_string.push(OpSlot::Identity);
            }
            proof {
                assert forall|q: int| 0 <= q < self.op_string@.len() implies slot_ok(
                    #[trigger] self.op_string@[q],
                    self.b_sites@,
                ) by {
                    if q < ops0.len() {
                        assert(self.op_string@.subrange(0, ops0.len() as int)[q]
                            == self.op_string@[q]);
                    }
                }
            }
            self.m = new_m;

            let mut vl: Vec<VertexEntry> = Vec::new();
            let four_m = 4 * new_m;
            let mut v: usize = 0;
            while v < four_m
                invariant
                    v <= four_m,
                    vl@.len() == v,
                    forall|j: int| 0 <= j < v ==> #[trigger] vl@[j] == VertexEntry::Unset,
                decreases four_m - v,
            {
                vl.push(VertexEntry::Unset);
                v = v + 1;
            }
            self.vertex_list = vl;
        }
    }
}

} // verus!
