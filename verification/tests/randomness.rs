use hydro_rs::data::Data;
use hydro_rs::objective::Objective;
use hydro_rs::sce::{Request, Sce};
use rand_chacha::rand_core::{Rng, SeedableRng};
use rand_chacha::ChaCha8Rng;

fn forcing(t: usize) -> Data {
    let series: Vec<u64> = (0..t).map(|k| (k as f64).to_bits()).collect();
    Data::new(series.clone(), series.clone(), series.clone(), vec![1; t]).unwrap()
}

/// The engine's draws are the words of the seeded ChaCha8 stream, read in
/// order: the draws in the first initialization request must equal the
/// output of the generator itself.
#[test]
fn the_draw_stream_is_the_chacha8_stream_of_the_seed() {
    let seed = 97u64;
    let t = 4;
    let obs: Vec<u64> = (0..t).map(|k| (k as f64).to_bits()).collect();
    let mut sce = Sce::new(
        "gr4j",
        None,
        Objective::Kge,
        2,
        10,
        0.1f64.to_bits(),
        0.001f64.to_bits(),
        10000,
        seed,
    )
    .unwrap();
    let data = forcing(t);
    let req = sce.init(&data, &obs).unwrap();
    let draws = match req {
        Request::UniformRows { draws, .. } => draws,
        _ => panic!("expected a uniform-rows request"),
    };
    // One draw per component of each row beyond the midpoint row.
    assert_eq!(draws.len(), (2 * 9 - 1) * 4);
    let mut reference = ChaCha8Rng::seed_from_u64(seed);
    for (i, d) in draws.iter().enumerate() {
        assert_eq!(*d, reference.next_u64(), "draw {i} diverged from the stream");
    }
}

/// Two engines with different seeds draw different streams.
#[test]
fn different_seeds_draw_different_streams() {
    let t = 4;
    let obs: Vec<u64> = (0..t).map(|k| (k as f64).to_bits()).collect();
    let mut draws = Vec::new();
    for seed in [1u64, 2u64] {
        let mut sce = Sce::new(
            "gr4j",
            None,
            Objective::Rmse,
            1,
            10,
            0.1f64.to_bits(),
            0.001f64.to_bits(),
            10000,
            seed,
        )
        .unwrap();
        let data = forcing(t);
        match sce.init(&data, &obs).unwrap() {
            Request::UniformRows { draws: d, .. } => draws.push(d),
            _ => panic!("expected a uniform-rows request"),
        }
    }
    assert_ne!(draws[0], draws[1]);
}
