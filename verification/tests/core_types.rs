use hydro_rs::data::Data;
use hydro_rs::errors::Error;
use hydro_rs::models::{resolve, split_params};
use hydro_rs::objective::Objective;
use hydro_rs::scalar::{clamp_b, le_b, lt_b, rank_of};

#[test]
fn le_b_matches_ieee_comparison() {
    let samples: Vec<f64> = vec![
        0.0,
        -0.0,
        1.0,
        -1.0,
        1.5,
        -2.75,
        1e300,
        -1e300,
        5e-324,
        -5e-324,
        f64::INFINITY,
        f64::NEG_INFINITY,
        f64::NAN,
        -f64::NAN,
        f64::MAX,
        f64::MIN,
    ];
    for &a in &samples {
        for &b in &samples {
            assert_eq!(le_b(a.to_bits(), b.to_bits()), a <= b, "le {a} {b}");
            assert_eq!(lt_b(a.to_bits(), b.to_bits()), a < b, "lt {a} {b}");
        }
    }
}

#[test]
fn rank_orders_like_the_objective_direction() {
    let vals: Vec<f64> = vec![-3.5, -0.0, 0.0, 0.25, 7.0, 1e9, f64::NEG_INFINITY, f64::INFINITY];
    for &a in &vals {
        for &b in &vals {
            if a < b {
                assert!(rank_of(a.to_bits(), true) < rank_of(b.to_bits(), true));
                assert!(rank_of(a.to_bits(), false) > rank_of(b.to_bits(), false));
            }
        }
    }
    // NaN loses against every number, whichever direction is optimized.
    for &a in &vals {
        assert!(rank_of(f64::NAN.to_bits(), true) > rank_of(a.to_bits(), true));
        assert!(rank_of(f64::NAN.to_bits(), false) > rank_of(a.to_bits(), false));
        assert!(rank_of((-f64::NAN).to_bits(), true) > rank_of(a.to_bits(), true));
    }
}

#[test]
fn clamp_keeps_values_inside_and_passes_inside_values_through() {
    let lo = 10.0f64.to_bits();
    let hi = 400.0f64.to_bits();
    assert_eq!(clamp_b(lo, hi, 55.5f64.to_bits()), 55.5f64.to_bits());
    assert_eq!(clamp_b(lo, hi, 9.0f64.to_bits()), lo);
    assert_eq!(clamp_b(lo, hi, 1e9f64.to_bits()), hi);
    assert_eq!(clamp_b(lo, hi, f64::NAN.to_bits()), lo);
}

#[test]
fn objective_names_parse_case_insensitively() {
    assert_eq!(Objective::from_str("rmse").unwrap(), Objective::Rmse);
    assert_eq!(Objective::from_str("RMSE").unwrap(), Objective::Rmse);
    assert_eq!(Objective::from_str("Rmse").unwrap(), Objective::Rmse);
    assert_eq!(Objective::from_str("nse").unwrap(), Objective::Nse);
    assert_eq!(Objective::from_str("NsE").unwrap(), Objective::Nse);
    assert_eq!(Objective::from_str("kge").unwrap(), Objective::Kge);
    assert_eq!(Objective::from_str("KGE").unwrap(), Objective::Kge);
    let e = Objective::from_str("mare").unwrap_err();
    assert!(matches!(e, Error::UnknownObjective(n) if n == "mare"));
}

#[test]
fn registry_resolves_gr4j_with_its_bounds() {
    let m = resolve("gr4j", None).unwrap();
    assert_eq!(m.n_snow_params, 0);
    assert_eq!(m.n_params, 4);
    let lower: Vec<u64> = vec![10.0, -5.0, 10.0, 0.8].into_iter().map(f64::to_bits).collect();
    let upper: Vec<u64> = vec![1500.0, 3.0, 400.0, 10.0].into_iter().map(f64::to_bits).collect();
    assert_eq!(m.lower, lower);
    assert_eq!(m.upper, upper);
    // gr4j defaults are the bound midpoints.
    let mids: Vec<u64> = vec![
        (10.0 + 1500.0) / 2.0,
        (-5.0 + 3.0) / 2.0,
        (10.0 + 400.0) / 2.0,
        (0.8 + 10.0) / 2.0,
    ]
    .into_iter()
    .map(f64::to_bits)
    .collect();
    assert_eq!(m.defaults, mids);
    assert_eq!(m.midpoints, mids);
}

#[test]
fn composition_concatenates_snow_then_runoff() {
    let m = resolve("gr4j", Some("cemaneige")).unwrap();
    assert_eq!(m.n_snow_params, 3);
    assert_eq!(m.n_params, 7);
    // Ordering (ctg, kf, qnbv, x1, x2, x3, x4): the bounds table is the
    // row-concatenation of the two component tables, snow first.
    let lower: Vec<u64> = vec![0.0, 0.0, 50.0, 10.0, -5.0, 10.0, 0.8]
        .into_iter()
        .map(f64::to_bits)
        .collect();
    let upper: Vec<u64> = vec![1.0, 20.0, 800.0, 1500.0, 3.0, 400.0, 10.0]
        .into_iter()
        .map(f64::to_bits)
        .collect();
    let defaults: Vec<u64> = vec![0.25, 3.74, 350.0, 755.0, -1.0, 205.0, 5.4]
        .into_iter()
        .map(f64::to_bits)
        .collect();
    assert_eq!(m.lower, lower);
    assert_eq!(m.upper, upper);
    assert_eq!(m.defaults, defaults);
}

#[test]
fn unknown_models_are_rejected_with_their_name() {
    let e = resolve("bucket", None).unwrap_err();
    assert!(matches!(e, Error::UnknownModel(n) if n == "bucket"));
    let e = resolve("gr4j", Some("degreeday")).unwrap_err();
    assert!(matches!(e, Error::UnknownModel(n) if n == "degreeday"));
    let e = resolve("hbv", Some("cemaneige")).unwrap_err();
    assert!(matches!(e, Error::UnknownModel(n) if n == "hbv"));
}

#[test]
fn split_params_cuts_at_the_snow_boundary() {
    let m = resolve("gr4j", Some("cemaneige")).unwrap();
    let params: Vec<u64> = vec![0.3, 4.0, 300.0, 200.0, 0.5, 100.0, 2.0]
        .into_iter()
        .map(f64::to_bits)
        .collect();
    let (snow, runoff) = split_params(&m, &params).unwrap();
    assert_eq!(snow, params[0..3].to_vec());
    assert_eq!(runoff, params[3..7].to_vec());
    let short: Vec<u64> = vec![1.0, 2.0].into_iter().map(f64::to_bits).collect();
    let e = split_params(&m, &short).unwrap_err();
    assert!(matches!(e, Error::ParamsMismatch(7, 2)));
}

#[test]
fn forcing_lengths_must_agree() {
    let p: Vec<u64> = vec![1.0, 2.0].into_iter().map(f64::to_bits).collect();
    let t: Vec<u64> = vec![5.0, 6.0].into_iter().map(f64::to_bits).collect();
    let pe: Vec<u64> = vec![0.5, 0.5].into_iter().map(f64::to_bits).collect();
    let d = Data::new(p.clone(), t.clone(), pe.clone(), vec![1, 2]).unwrap();
    assert_eq!(d.len(), 2);
    assert_eq!(d.temperature(), &t);
    assert_eq!(d.pet(), &pe);
    assert_eq!(d.day_of_year(), &vec![1, 2]);
    let e = Data::new(p.clone(), t.clone(), pe.clone(), vec![1]).unwrap_err();
    assert!(matches!(e, Error::LengthMismatch(2, 2, 2, 1)));
    let replaced = d.with_precipitation(vec![7.0f64.to_bits(), 8.0f64.to_bits()]);
    assert_eq!(replaced.precipitation, vec![7.0f64.to_bits(), 8.0f64.to_bits()]);
    assert_eq!(replaced.temperature, t);
}
