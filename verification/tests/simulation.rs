use sse_heisenberg::lattice::build_lattice;
use sse_heisenberg::model::HeisenbergModel;
use sse_heisenberg::types::{OpSlot, VertexEntry};

fn beta_q32(beta: f64) -> u64 {
    (beta * 4294967296.0).round() as u64
}

fn count_non_identity(model: &HeisenbergModel) -> usize {
    model.op_string.iter().filter(|o| !matches!(o, OpSlot::Identity)).count()
}

fn all_spins_unit(model: &HeisenbergModel) -> bool {
    model.spins.iter().all(|&s| s == 1 || s == -1)
}

fn one_sweep(model: &mut HeisenbergModel) {
    model.diag_update();
    model.make_vertex_lists();
    model.loop_update().unwrap();
}

#[test]
fn chain_lattice_has_six_bonds() {
    let bonds = build_lattice(6, 1);
    assert_eq!(bonds.len(), 6);
    for i in 0..6 {
        assert_eq!(bonds[i].s0, i);
        assert_eq!(bonds[i].s1, (i + 1) % 6);
    }
}

#[test]
fn square_lattice_has_32_bonds() {
    let bonds = build_lattice(4, 4);
    assert_eq!(bonds.len(), 32);
    // horizontal bond in row 2, column 3 wraps back to column 0
    assert_eq!(bonds[11].s0, 11);
    assert_eq!(bonds[11].s1, 8);
    // vertical bond from the last row wraps to the first
    assert_eq!(bonds[16 + 14].s0, 14);
    assert_eq!(bonds[16 + 14].s1, 2);
}

#[test]
fn initialization_state() {
    let mut model = HeisenbergModel::new(4, 4, beta_q32(1.0), 7);
    model.initialization();
    assert_eq!(model.m, 20);
    assert_eq!(model.n, 0);
    assert_eq!(model.n_sites, 16);
    assert_eq!(model.n_bonds, 32);
    assert_eq!(model.op_string.len(), 20);
    assert!(model.op_string.iter().all(|o| matches!(o, OpSlot::Identity)));
    assert_eq!(model.spins.len(), 16);
    assert!(all_spins_unit(&model));
    assert_eq!(model.vertex_list.len(), 80);
}

#[test]
fn operator_count_matches_string() {
    let mut model = HeisenbergModel::new(4, 4, beta_q32(1.0), 11);
    model.initialization();
    for _ in 0..60 {
        model.diag_update();
        assert_eq!(model.n, count_non_identity(&model));
        model.make_vertex_lists();
        assert_eq!(model.n, count_non_identity(&model));
        model.loop_update().unwrap();
        assert_eq!(model.n, count_non_identity(&model));
        model.adjust_m();
        assert_eq!(model.n, count_non_identity(&model));
    }
}

#[test]
fn spins_stay_unit() {
    let mut model = HeisenbergModel::new(8, 1, beta_q32(2.0), 5);
    model.initialization();
    for _ in 0..80 {
        model.diag_update();
        assert!(all_spins_unit(&model));
        model.make_vertex_lists();
        model.loop_update().unwrap();
        assert!(all_spins_unit(&model));
        model.adjust_m();
    }
}

#[test]
fn pairing_involutive_after_construction() {
    let mut model = HeisenbergModel::new(4, 4, beta_q32(1.5), 23);
    model.initialization();
    for _ in 0..40 {
        model.diag_update();
        model.make_vertex_lists();
        let vl = &model.vertex_list;
        for v in 0..vl.len() {
            if let VertexEntry::Linked(w) = vl[v] {
                assert!(w < vl.len());
                assert_eq!(vl[w], VertexEntry::Linked(v));
                // a linked leg always belongs to a non-identity slot
                assert!(!matches!(model.op_string[v / 4], OpSlot::Identity));
            }
        }
        // legs of identity slots are unset, legs of operators are linked
        for p in 0..model.m {
            for leg in 0..4 {
                match model.op_string[p] {
                    OpSlot::Identity => {
                        assert_eq!(vl[4 * p + leg], VertexEntry::Unset)
                    },
                    _ => assert!(matches!(vl[4 * p + leg], VertexEntry::Linked(_))),
                }
            }
        }
        model.loop_update().unwrap();
        model.adjust_m();
    }
}

#[test]
fn loops_always_close() {
    let mut model = HeisenbergModel::new(6, 6, beta_q32(4.0), 91);
    model.initialization();
    for _ in 0..150 {
        model.diag_update();
        model.make_vertex_lists();
        assert!(model.loop_update().is_ok());
        model.adjust_m();
    }
}

#[test]
fn truncation_monotone() {
    let mut model = HeisenbergModel::new(4, 4, beta_q32(2.0), 3);
    model.initialization();
    let mut last_m = model.m;
    for _ in 0..120 {
        one_sweep(&mut model);
        let n_before = model.n;
        let m_before = model.m;
        model.adjust_m();
        assert!(model.m >= m_before);
        assert!(model.m >= last_m);
        let want = n_before + n_before / 3;
        if m_before < want {
            assert_eq!(model.m, want);
        } else {
            assert_eq!(model.m, m_before);
        }
        last_m = model.m;
    }
}

#[test]
fn identical_seeds_reproduce_trajectories() {
    let mut a = HeisenbergModel::new(4, 4, beta_q32(1.0), 12345);
    let mut b = HeisenbergModel::new(4, 4, beta_q32(1.0), 12345);
    a.initialization();
    b.initialization();
    assert_eq!(a.spins, b.spins);
    for _ in 0..100 {
        one_sweep(&mut a);
        a.adjust_m();
        one_sweep(&mut b);
        b.adjust_m();
        assert_eq!(a.spins, b.spins);
        assert_eq!(a.op_string, b.op_string);
        assert_eq!(a.n, b.n);
        assert_eq!(a.m, b.m);
    }
}

#[test]
fn different_seeds_diverge() {
    let mut a = HeisenbergModel::new(4, 4, beta_q32(1.0), 1);
    let mut b = HeisenbergModel::new(4, 4, beta_q32(1.0), 2);
    a.initialization();
    b.initialization();
    let mut same = true;
    for _ in 0..20 {
        one_sweep(&mut a);
        one_sweep(&mut b);
        if a.spins != b.spins || a.op_string != b.op_string {
            same = false;
        }
    }
    assert!(!same);
}

#[test]
fn zero_beta_keeps_operator_string_empty() {
    // at beta = 0 the insertion factor is 0: nothing antiparallel is ever
    // accepted away from saturation, and saturation is never reached
    let mut model = HeisenbergModel::new(8, 1, 0, 99);
    model.initialization();
    for _ in 0..50 {
        one_sweep(&mut model);
        assert_eq!(model.n, 0);
        assert!(model.op_string.iter().all(|o| matches!(o, OpSlot::Identity)));
    }
}

#[test]
fn truncation_growth_preserves_operators() {
    let mut model = HeisenbergModel::new(4, 4, beta_q32(4.0), 17);
    model.initialization();
    for _ in 0..60 {
        one_sweep(&mut model);
        let before = model.op_string.clone();
        let n_before = model.n;
        model.adjust_m();
        assert_eq!(&model.op_string[..before.len()], &before[..]);
        assert!(model.op_string[before.len()..].iter().all(|o| matches!(o, OpSlot::Identity)));
        assert_eq!(model.n, n_before);
        assert_eq!(model.op_string.len(), model.m);
        assert_eq!(model.vertex_list.len(), 4 * model.m);
    }
}
