use sse_heisenberg::model::HeisenbergModel;

fn beta_q32(beta: f64) -> u64 {
    (beta * 4294967296.0).round() as u64
}

struct BinResult {
    energy_per_site: f64,
    heat_capacity_per_site: f64,
    correlation: Vec<f64>,
}

/// The standard SSE estimators built from the operator count and the spin
/// configuration that the engine exposes after each sweep.
fn measure_bins(model: &mut HeisenbergModel, beta: f64, n_stat: usize, n_bins: usize) -> Vec<
    BinResult,
> {
    let n_sites = model.n_sites;
    let n_bonds = model.n_bonds;
    let mut out = Vec::new();
    for _ in 0..n_bins {
        let mut acc_n = 0.0f64;
        let mut acc_n2 = 0.0f64;
        let mut corr = vec![0.0f64; n_sites];
        for _ in 0..n_stat {
            model.diag_update();
            model.make_vertex_lists();
            model.loop_update().unwrap();
            acc_n += model.n as f64;
            acc_n2 += (model.n as f64) * (model.n as f64);
            for i in 0..n_sites {
                corr[i] += (model.spins[0] * model.spins[i]) as f64;
            }
        }
        let steps = n_stat as f64;
        let avg_n = acc_n / steps;
        let avg_n2 = acc_n2 / steps;
        let energy_per_site = -avg_n / (beta * n_sites as f64) + 0.25 * n_bonds as f64
            / n_sites as f64;
        let heat_capacity_per_site = (avg_n2 - avg_n * avg_n - avg_n) / n_sites as f64;
        out.push(BinResult {
            energy_per_site,
            heat_capacity_per_site,
            correlation: corr.iter().map(|c| c / steps).collect(),
        });
    }
    out
}

#[test]
fn five_bins_with_exact_self_correlation() {
    let beta = 1.0;
    let mut model = HeisenbergModel::new(4, 1, beta_q32(beta), 777);
    model.initialization();
    for _ in 0..1000 {
        model.diag_update();
        model.make_vertex_lists();
        model.loop_update().unwrap();
        model.adjust_m();
    }
    let bins = measure_bins(&mut model, beta, 1000, 5);
    assert_eq!(bins.len(), 5);
    for bin in &bins {
        assert_eq!(bin.correlation.len(), 4);
        // the spin at site 0 is perfectly correlated with itself
        assert_eq!(bin.correlation[0], 1.0);
        assert!(bin.energy_per_site.is_finite());
        assert!(bin.heat_capacity_per_site.is_finite());
    }
}

#[test]
fn high_temperature_energy_is_near_zero() {
    let beta = 0.05;
    let mut model = HeisenbergModel::new(16, 1, beta_q32(beta), 4242);
    model.initialization();
    for _ in 0..2000 {
        model.diag_update();
        model.make_vertex_lists();
        model.loop_update().unwrap();
        model.adjust_m();
    }
    let bins = measure_bins(&mut model, beta, 2000, 3);
    let mean: f64 = bins.iter().map(|b| b.energy_per_site).sum::<f64>() / bins.len() as f64;
    // free spins: the energy per site vanishes as beta goes to zero
    assert!(mean.abs() < 0.1, "energy per site {mean} too far from 0");
}

#[test]
fn low_temperature_2d_energy_near_ground_state() {
    let beta = 8.0;
    let mut model = HeisenbergModel::new(4, 4, beta_q32(beta), 20177);
    model.initialization();
    for _ in 0..3000 {
        model.diag_update();
        model.make_vertex_lists();
        model.loop_update().unwrap();
        model.adjust_m();
    }
    let bins = measure_bins(&mut model, beta, 2000, 4);
    let mean: f64 = bins.iter().map(|b| b.energy_per_site).sum::<f64>() / bins.len() as f64;
    // the 4x4 periodic Heisenberg ground-state energy per site is about -0.7018
    assert!(
        (mean - (-0.7018)).abs() < 0.05,
        "energy per site {mean} too far from the 4x4 ground state"
    );
}
