use hydro_rs::data::Data;
use hydro_rs::errors::Error;
use hydro_rs::objective::Objective;
use hydro_rs::sce::{Outcome, Reply, Request, Sce};

/// The uniform sample `lower + u * (upper - lower)` with 52-bit draws.
fn uniform_row(draws: &[u64], lower: &[u64], upper: &[u64]) -> Vec<u64> {
    let mut row = Vec::new();
    for j in 0..lower.len() {
        let u = (draws[j] >> 12) as f64 / 4503599627370496.0;
        let lo = f64::from_bits(lower[j]);
        let hi = f64::from_bits(upper[j]);
        row.push((lo + u * (hi - lo)).to_bits());
    }
    row
}

/// Centroid of all simplex rows but the last.
fn centroid(simplex: &[Vec<u64>]) -> Vec<f64> {
    let p = simplex[0].len();
    let n = simplex.len() - 1;
    let mut c = vec![0.0; p];
    for row in &simplex[..n] {
        for j in 0..p {
            c[j] += f64::from_bits(row[j]);
        }
    }
    for j in 0..p {
        c[j] /= n as f64;
    }
    c
}

/// A smooth toy simulator: a "discharge" series that depends on every
/// parameter, so the fit improves as the parameters approach the ones the
/// observations were made with.
fn toy_simulate(params: &[u64], t: usize) -> Vec<f64> {
    let x: Vec<f64> = params.iter().map(|b| f64::from_bits(*b)).collect();
    (0..t)
        .map(|k| x.iter().enumerate().map(|(i, xi)| xi / (1.0 + k as f64 + i as f64)).sum())
        .collect()
}

/// RMSE, NSE and KGE of a simulation against the observations, with the
/// single-pass moment form for KGE.
fn metrics3(obs: &[f64], sim: &[f64]) -> [f64; 3] {
    let n = obs.len() as f64;
    let sse: f64 = obs.iter().zip(sim).map(|(o, p)| (o - p) * (o - p)).sum();
    let rmse = (sse / n).sqrt();
    let obs_mean = obs.iter().sum::<f64>() / n;
    let var: f64 = obs.iter().map(|o| (o - obs_mean) * (o - obs_mean)).sum();
    let nse = 1.0 - sse / var;
    let obs_mean_2 = obs.iter().map(|x| x * x).sum::<f64>() / n;
    let sim_mean = sim.iter().sum::<f64>() / n;
    let sim_mean_2 = sim.iter().map(|x| x * x).sum::<f64>() / n;
    let cross = obs.iter().zip(sim).map(|(o, p)| o * p).sum::<f64>() / n;
    let obs_std = (obs_mean_2 - obs_mean * obs_mean).sqrt();
    let sim_std = (sim_mean_2 - sim_mean * sim_mean).sqrt();
    let r = (cross - obs_mean * sim_mean) / (obs_std * sim_std);
    let alpha = sim_std / obs_std;
    let beta = sim_mean / obs_mean;
    let kge = 1.0 - ((r - 1.0).powi(2) + (alpha - 1.0).powi(2) + (beta - 1.0).powi(2)).sqrt();
    [rmse, nse, kge]
}

fn toy_objectives(params: &[u64], t: usize, obs: &[f64]) -> Vec<u64> {
    let sim = toy_simulate(params, t);
    let m = metrics3(obs, &sim);
    vec![m[0].to_bits(), m[1].to_bits(), m[2].to_bits()]
}

fn answer(req: &Request, t: usize, obs: &[f64]) -> Reply {
    match req {
        Request::UniformRows { draws, lower, upper } => {
            let p = lower.len();
            let mut rows = Vec::new();
            for chunk in draws.chunks(p) {
                rows.push(uniform_row(chunk, lower, upper));
            }
            Reply::Rows(rows)
        },
        Request::UniformRow { draws, lower, upper } => {
            Reply::Candidate(uniform_row(draws, lower, upper))
        },
        Request::Reflect { simplex } => {
            let c = centroid(simplex);
            let w = &simplex[simplex.len() - 1];
            let mut out = Vec::new();
            for j in 0..c.len() {
                out.push((c[j] + (c[j] - f64::from_bits(w[j]))).to_bits());
            }
            Reply::Candidate(out)
        },
        Request::Contract { simplex } => {
            let c = centroid(simplex);
            let w = &simplex[simplex.len() - 1];
            let mut out = Vec::new();
            for j in 0..c.len() {
                out.push((f64::from_bits(w[j]) + 0.5 * (c[j] - f64::from_bits(w[j]))).to_bits());
            }
            Reply::Candidate(out)
        },
        Request::EvaluateRows { rows } => {
            Reply::ObjectiveRows(rows.iter().map(|r| toy_objectives(r, t, obs)).collect())
        },
        Request::Evaluate { params } => Reply::Objectives(toy_objectives(params, t, obs)),
        Request::Gnrng { population, lower, upper } => {
            let p = lower.len();
            let mut sum_ln = 0.0;
            for j in 0..p {
                let mut mx = f64::NEG_INFINITY;
                let mut mn = f64::INFINITY;
                for row in population {
                    let x = f64::from_bits(row[j]);
                    mx = mx.max(x);
                    mn = mn.min(x);
                }
                let span = f64::from_bits(upper[j]) - f64::from_bits(lower[j]);
                sum_ln += ((mx - mn) / span).max(1e-10).ln();
            }
            Reply::Scalar((sum_ln / p as f64).exp().to_bits())
        },
        Request::CriteriaChange { window } => {
            let vals: Vec<f64> = window.iter().map(|b| f64::from_bits(*b)).collect();
            let mean: f64 = vals.iter().map(|x| x.abs()).sum::<f64>() / vals.len() as f64;
            let change = if mean > 0.0 {
                (vals[vals.len() - 1] - vals[0]).abs() * 100.0 / mean
            } else {
                f64::INFINITY
            };
            Reply::Scalar(change.to_bits())
        },
        Request::Simulate { params } => {
            Reply::Series(toy_simulate(params, t).iter().map(|x| x.to_bits()).collect())
        },
    }
}

fn drive(sce: &mut Sce, first: Request, t: usize, obs: &[f64]) -> Outcome {
    let mut req = first;
    loop {
        let reply = answer(&req, t, obs);
        match sce.resume(reply).unwrap() {
            Outcome::Pending(next) => {
                req = next;
            },
            other => return other,
        }
    }
}

fn forcing(t: usize) -> Data {
    let series: Vec<u64> = (0..t).map(|k| ((k as f64) * 0.5).to_bits()).collect();
    Data::new(series.clone(), series.clone(), series.clone(), (0..t).map(|k| k % 365 + 1).collect())
        .unwrap()
}

fn make(seed: u64, geo: f64, pcento: f64, max_evals: usize) -> Sce {
    Sce::new(
        "gr4j",
        None,
        Objective::Rmse,
        2,
        10,
        pcento.to_bits(),
        geo.to_bits(),
        max_evals,
        seed,
    )
    .unwrap()
}

fn run_init(sce: &mut Sce, t: usize, obs: &Vec<u64>) {
    let data = forcing(t);
    let obs_f: Vec<f64> = obs.iter().map(|b| f64::from_bits(*b)).collect();
    let req = sce.init(&data, obs).unwrap();
    let out = drive(sce, req, t, &obs_f);
    assert!(matches!(out, Outcome::InitDone));
}

fn run_step_with(sce: &mut Sce, t: usize, obs: &[f64]) -> (bool, Vec<u64>, Vec<u64>, Vec<u64>) {
    let req = sce.step().unwrap();
    match drive(sce, req, t, obs) {
        Outcome::StepDone { done, best_params, best_simulation, best_objectives } => {
            (done, best_params, best_simulation, best_objectives)
        },
        _ => panic!("step did not finish"),
    }
}

fn run_step(sce: &mut Sce, t: usize) -> (bool, Vec<u64>, Vec<u64>, Vec<u64>) {
    let obs: Vec<f64> = (0..t).map(|k| k as f64).collect();
    run_step_with(sce, t, &obs)
}

#[test]
fn initial_population_has_the_documented_shape() {
    let t = 5;
    let obs: Vec<u64> = (0..t).map(|k| (k as f64).to_bits()).collect();
    let mut sce = make(42, 1e-12, 1e-12, 100000);
    run_init(&mut sce, t, &obs);
    // N_pop = n_complexes * (2 P + 1) with P = 4.
    assert_eq!(sce.population.len(), 2 * 9);
    assert_eq!(sce.objectives.len(), 2 * 9);
    for row in &sce.population {
        assert_eq!(row.len(), 4);
    }
    for row in &sce.objectives {
        assert_eq!(row.len(), 3);
    }
    // Row 0 of a freshly initialized population is the bound midpoints.
    let contains_mid = sce.population.iter().any(|row| {
        row == &vec![755.0f64.to_bits(), (-1.0f64).to_bits(), 205.0f64.to_bits(), 5.4f64.to_bits()]
    });
    assert!(contains_mid);
    // Sorted best-first on the minimized column.
    for w in sce.objectives.windows(2) {
        assert!(f64::from_bits(w[0][0]) <= f64::from_bits(w[1][0]));
    }
}

#[test]
fn population_stays_within_bounds() {
    let t = 4;
    let obs: Vec<u64> = (0..t).map(|k| (k as f64).to_bits()).collect();
    let mut sce = make(7, 1e-12, 1e-12, 100000);
    run_init(&mut sce, t, &obs);
    let lower = vec![10.0, -5.0, 10.0, 0.8];
    let upper = vec![1500.0, 3.0, 400.0, 10.0];
    for _ in 0..3 {
        run_step(&mut sce, t);
        for row in &sce.population {
            for j in 0..4 {
                let x = f64::from_bits(row[j]);
                assert!(lower[j] <= x && x <= upper[j], "component {j} out of bounds: {x}");
            }
        }
    }
}

#[test]
fn best_objective_never_worsens() {
    let t = 6;
    let obs: Vec<u64> = (0..t).map(|k| (k as f64).to_bits()).collect();
    let mut sce = make(11, 1e-12, 1e-12, 100000);
    run_init(&mut sce, t, &obs);
    for _ in 0..6 {
        run_step(&mut sce, t);
    }
    let vals: Vec<f64> = sce.criteria.iter().map(|b| f64::from_bits(*b)).collect();
    assert!(vals.len() >= 7);
    for w in vals.windows(2) {
        assert!(w[1] <= w[0], "best worsened: {} -> {}", w[0], w[1]);
    }
    // The toy objective really was optimized toward its target.
    assert!(vals[vals.len() - 1] < vals[0]);
}

#[test]
fn runs_with_one_seed_are_bit_identical() {
    let t = 5;
    let obs: Vec<u64> = (0..t).map(|k| (k as f64).to_bits()).collect();
    let mut a = make(1234, 1e-12, 1e-12, 100000);
    let mut b = make(1234, 1e-12, 1e-12, 100000);
    run_init(&mut a, t, &obs);
    run_init(&mut b, t, &obs);
    assert_eq!(a.population, b.population);
    for _ in 0..4 {
        let ra = run_step(&mut a, t);
        let rb = run_step(&mut b, t);
        assert_eq!(ra, rb);
    }
    assert_eq!(a.population, b.population);
    assert_eq!(a.criteria, b.criteria);
    assert_eq!(a.best_params(), b.best_params());
    assert_eq!(a.n_evaluations(), b.n_evaluations());
}

#[test]
fn a_generous_geometric_threshold_converges_after_one_step() {
    let t = 5;
    let obs: Vec<u64> = (0..t).map(|k| (k as f64).to_bits()).collect();
    let mut sce = make(42, 1e9, 1e-12, 100000);
    run_init(&mut sce, t, &obs);
    let (done, _, _, _) = run_step(&mut sce, t);
    assert!(done);
    assert!(sce.is_done());
}

#[test]
fn a_converged_optimizer_repeats_itself() {
    let t = 5;
    let obs: Vec<u64> = (0..t).map(|k| (k as f64).to_bits()).collect();
    let mut sce = make(42, 1e9, 1e-12, 100000);
    run_init(&mut sce, t, &obs);
    let first = run_step(&mut sce, t);
    assert!(first.0);
    let evals = sce.n_evaluations();
    let second = run_step(&mut sce, t);
    let third = run_step(&mut sce, t);
    assert_eq!(first, second);
    assert_eq!(second, third);
    assert_eq!(sce.n_evaluations(), evals);
}

#[test]
fn the_best_simulation_and_objectives_round_trip() {
    let t = 5;
    let obs: Vec<u64> = (0..t).map(|k| (k as f64).to_bits()).collect();
    let obs_f: Vec<f64> = (0..t).map(|k| k as f64).collect();
    let mut sce = make(3, 1e-12, 1e-12, 100000);
    run_init(&mut sce, t, &obs);
    let (_, best_params, best_simulation, best_objectives) = run_step(&mut sce, t);
    // Simulating again with the returned parameters reproduces the returned
    // simulation bit for bit.
    let resim: Vec<u64> = toy_simulate(&best_params, t).iter().map(|x| x.to_bits()).collect();
    assert_eq!(best_simulation, resim);
    // Applying the three metrics to (observations, best_simulation)
    // reproduces the returned objective row bit for bit.
    let sim_f: Vec<f64> = best_simulation.iter().map(|b| f64::from_bits(*b)).collect();
    let m = metrics3(&obs_f, &sim_f);
    assert_eq!(best_objectives, vec![m[0].to_bits(), m[1].to_bits(), m[2].to_bits()]);
    // The returned values are the stored ones.
    assert_eq!(best_objectives, sce.best_objectives());
    assert_eq!(best_params, sce.best_params());
}

#[test]
fn the_criteria_window_fills_and_convergence_is_judged_on_it() {
    let t = 5;
    let obs: Vec<u64> = (0..t).map(|k| (k as f64).to_bits()).collect();
    // A tiny geometric threshold keeps that trigger quiet; a moderate
    // relative-change threshold lets the window decide once the best
    // stalls.
    let mut sce = make(9, 1e-12, 5.0, 1_000_000);
    run_init(&mut sce, t, &obs);
    let mut done = false;
    for _ in 0..40 {
        let (d, _, _, _) = run_step(&mut sce, t);
        if d {
            done = true;
            break;
        }
    }
    // One criterion per step, seeded by init: the window (10 entries) has
    // long been full.
    assert!(sce.criteria.len() >= 11 || done);
    assert!(done, "the relative-change trigger never fired");
}

#[test]
fn a_composed_model_calibrates_seven_parameters() {
    let t = 4;
    let obs: Vec<u64> = (0..t).map(|k| (k as f64).to_bits()).collect();
    let mut sce = Sce::new(
        "gr4j",
        Some("cemaneige"),
        Objective::Kge,
        1,
        10,
        1e-12f64.to_bits(),
        1e-12f64.to_bits(),
        100000,
        8,
    )
    .unwrap();
    run_init(&mut sce, t, &obs);
    // N_pop = 1 * (2 * 7 + 1); every candidate has the composed layout.
    assert_eq!(sce.population.len(), 15);
    for row in &sce.population {
        assert_eq!(row.len(), 7);
    }
    let lower = vec![0.0, 0.0, 50.0, 10.0, -5.0, 10.0, 0.8];
    let upper = vec![1.0, 20.0, 800.0, 1500.0, 3.0, 400.0, 10.0];
    run_step(&mut sce, t);
    for row in &sce.population {
        for j in 0..7 {
            let x = f64::from_bits(row[j]);
            assert!(lower[j] <= x && x <= upper[j]);
        }
    }
}

#[test]
fn unknown_models_are_refused_at_construction() {
    let e = Sce::new(
        "topmodel",
        None,
        Objective::Rmse,
        2,
        10,
        0.1f64.to_bits(),
        0.001f64.to_bits(),
        10000,
        1,
    )
    .unwrap_err();
    assert!(matches!(e, Error::UnknownModel(n) if n == "topmodel"));
}

#[test]
fn a_reply_of_the_wrong_shape_is_refused() {
    let t = 3;
    let obs: Vec<u64> = (0..t).map(|k| (k as f64).to_bits()).collect();
    let mut sce = make(5, 1e-12, 1e-12, 1000);
    let data = forcing(t);
    let req = sce.init(&data, &obs).unwrap();
    // Too few candidate rows.
    let e = sce.resume(Reply::Rows(Vec::new())).unwrap_err();
    assert!(matches!(e, Error::Protocol));
    // Rows of the wrong width.
    let e = sce.resume(Reply::Rows(vec![vec![0u64; 3]; 17])).unwrap_err();
    assert!(matches!(e, Error::Protocol));
    let obs_f: Vec<f64> = obs.iter().map(|b| f64::from_bits(*b)).collect();
    let out = drive(&mut sce, req, t, &obs_f);
    assert!(matches!(out, Outcome::InitDone));
}

#[test]
fn an_abandoned_exchange_keeps_the_stored_state_and_init_recovers() {
    let t = 5;
    let obs: Vec<u64> = (0..t).map(|k| (k as f64).to_bits()).collect();
    let mut sce = make(21, 1e-12, 1e-12, 100000);
    run_init(&mut sce, t, &obs);
    run_step(&mut sce, t);
    let population = sce.population.clone();
    let criteria = sce.criteria.clone();
    let best = sce.best_params();
    let evals = sce.n_evaluations();
    // Begin a step but walk away from its first request.
    let _pending = sce.step().unwrap();
    // Mid-exchange, another step is refused and nothing stored has moved.
    let e = sce.step().unwrap_err();
    assert!(matches!(e, Error::Protocol));
    assert_eq!(sce.population, population);
    assert_eq!(sce.criteria, criteria);
    assert_eq!(sce.best_params(), best);
    assert_eq!(sce.n_evaluations(), evals);
    // A fresh initialization starts over.
    run_init(&mut sce, t, &obs);
    let (_, _, _, best_objectives) = run_step(&mut sce, t);
    assert_eq!(best_objectives, sce.best_objectives());
}

#[test]
fn stepping_before_init_is_refused() {
    let mut sce = make(1, 1e-12, 1e-12, 1000);
    let e = sce.step().unwrap_err();
    assert!(matches!(e, Error::Uninitialized));
}

#[test]
fn a_reply_of_the_wrong_kind_is_refused_and_changes_nothing() {
    let t = 3;
    let obs: Vec<u64> = (0..t).map(|k| (k as f64).to_bits()).collect();
    let mut sce = make(5, 1e-12, 1e-12, 1000);
    let data = forcing(t);
    let req = sce.init(&data, &obs).unwrap();
    let e = sce.resume(Reply::Scalar(0)).unwrap_err();
    assert!(matches!(e, Error::Protocol));
    // The pending request can still be answered.
    let obs_f: Vec<f64> = obs.iter().map(|b| f64::from_bits(*b)).collect();
    let out = drive(&mut sce, req, t, &obs_f);
    assert!(matches!(out, Outcome::InitDone));
}

#[test]
fn mismatched_forcing_lengths_are_reported() {
    let t = 3;
    let mut sce = make(5, 1e-12, 1e-12, 1000);
    let series: Vec<u64> = (0..t).map(|k| (k as f64).to_bits()).collect();
    let bad = Data {
        precipitation: series.clone(),
        temperature: series.clone(),
        pet: vec![0],
        day_of_year: vec![1, 2, 3],
    };
    let obs = series.clone();
    let e = sce.init(&bad, &obs).unwrap_err();
    assert!(matches!(e, Error::LengthMismatch(3, 3, 1, 3)));
    let good = forcing(t);
    let short_obs: Vec<u64> = vec![0];
    let e = sce.init(&good, &short_obs).unwrap_err();
    assert!(matches!(e, Error::Metrics(m) if m == hydro_rs::errors::MetricsError::LengthMismatch(1, 3)));
}
