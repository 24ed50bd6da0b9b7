use neuroevo::chance::make_distinct;
use neuroevo::error::EngineError;
use neuroevo::fitness::{fitness_is_valid, rank, scale_factor_permille};
use neuroevo::generation::{elite_count, make_new_generation, resume_island};
use neuroevo::genome::{Genome, Layer};
use neuroevo::islands::{is_migration_tick, island_crossing, BestTracker};
use neuroevo::networks::{big_ai_topology, random_genome, small_ai_topology};

fn layer(name: &str, d_input: usize, d_output: usize, start: f32) -> Layer<f32> {
    Layer {
        name: name.to_string(),
        d_input,
        d_output,
        weight: (0..d_input * d_output).map(|i| start + i as f32).collect(),
        bias: Some((0..d_output).map(|i| start - 1.0 - i as f32).collect()),
    }
}

fn genome(start: f32) -> Genome<f32> {
    Genome {
        network: "Net".to_string(),
        layers: vec![layer("input", 2, 3, start), layer("output", 3, 1, start + 0.5)],
    }
}

fn same_genome(a: &Genome<f32>, b: &Genome<f32>) -> bool {
    a.network == b.network
        && a.layers.len() == b.layers.len()
        && a.layers.iter().zip(b.layers.iter()).all(|(x, y)| {
            x.name == y.name
                && x.d_input == y.d_input
                && x.d_output == y.d_output
                && x.weight == y.weight
                && x.bias == y.bias
        })
}

fn noise(x: f32) -> f32 {
    x + 0.25
}

fn mean(x: f32, y: f32) -> f32 {
    (x + y) / 2.0
}

fn scored(n: usize) -> Vec<(u32, Genome<f32>)> {
    (0..n).map(|i| (((i as f32) / 10.0).to_bits(), genome(100.0 * i as f32))).collect()
}

#[test]
fn one_tick_keeps_size_and_carries_the_top_three() {
    let population = scored(10);
    let ranked = rank(population.clone());
    let top: Vec<Genome<f32>> = ranked.iter().take(3).map(|(_, g)| g.clone()).collect();
    let next = make_new_generation(ranked, vec![genome(-5.0)], 30, &noise, &mean).unwrap();
    assert_eq!(next.len(), 10);
    for t in &top {
        assert!(next.iter().any(|g| same_genome(g, t)));
    }
    assert!(same_genome(&next[0], &genome(-5.0)));
    assert!(same_genome(&next[7], &genome(900.0)));
    assert!(same_genome(&next[8], &genome(800.0)));
    assert!(same_genome(&next[9], &genome(700.0)));
}

#[test]
fn generation_size_is_kept_for_a_hundred() {
    let ranked = rank(scored(100));
    let randoms: Vec<Genome<f32>> = (0..3).map(|i| genome(-1.0 - i as f32)).collect();
    let next = make_new_generation(ranked, randoms, 25, &noise, &mean).unwrap();
    assert_eq!(next.len(), 100);
}

#[test]
fn non_finite_fitness_is_refused() {
    let mut s = rank(scored(10));
    s[0].0 = f32::INFINITY.to_bits();
    let r = make_new_generation(s, Vec::new(), 30, &noise, &mean);
    assert_eq!(r.unwrap_err(), EngineError::NonFiniteFitness);
    assert!(!fitness_is_valid(f32::NAN.to_bits()));
    assert!(!fitness_is_valid((-1.0f32).to_bits()));
    assert!(fitness_is_valid(0.75f32.to_bits()));
}

#[test]
fn too_many_randoms_are_refused() {
    let randoms: Vec<Genome<f32>> = (0..8).map(|i| genome(i as f32)).collect();
    let r = make_new_generation(rank(scored(10)), randoms, 30, &noise, &mean);
    assert_eq!(r.unwrap_err(), EngineError::TooManyRandoms);
}

#[test]
fn mismatched_elites_are_refused() {
    let mut s = rank(scored(10));
    s[1].1.layers[0] = layer("input", 4, 4, 0.0);
    let r = make_new_generation(s, Vec::new(), 30, &noise, &mean);
    assert_eq!(r.unwrap_err(), EngineError::ShapeMismatch);
}

#[test]
fn rank_orders_best_first() {
    let s: Vec<(u32, Genome<f32>)> = vec![
        (0.2f32.to_bits(), genome(2.0)),
        (0.9f32.to_bits(), genome(9.0)),
        (0.5f32.to_bits(), genome(5.0)),
    ];
    let r = rank(s);
    let scores: Vec<f32> = r.iter().map(|p| f32::from_bits(p.0)).collect();
    assert_eq!(scores, vec![0.9, 0.5, 0.2]);
    assert!(same_genome(&r[0].1, &genome(9.0)));
}

#[test]
fn scale_factor_is_coarse_below_half() {
    assert!(scale_factor_permille(0.49f32.to_bits()) > scale_factor_permille(0.51f32.to_bits()));
    assert_eq!(scale_factor_permille(0.0f32.to_bits()), 150);
    assert_eq!(scale_factor_permille(0.5f32.to_bits()), 75);
    assert_eq!(scale_factor_permille(0.75f32.to_bits()), 50);
    assert_eq!(scale_factor_permille(0.9f32.to_bits()), 20);
    assert_eq!(scale_factor_permille(0.95f32.to_bits()), 10);
    assert_eq!(scale_factor_permille(1.0f32.to_bits()), 10);
    let points = [0.0f32, 0.3, 0.5, 0.6, 0.75, 0.8, 0.9, 0.92, 0.95, 0.99, 1.0];
    for w in points.windows(2) {
        assert!(scale_factor_permille(w[0].to_bits()) >= scale_factor_permille(w[1].to_bits()));
    }
}

#[test]
fn elite_count_rounds_down() {
    assert_eq!(elite_count(10, 30), 3);
    assert_eq!(elite_count(100, 25), 25);
    assert_eq!(elite_count(7, 25), 1);
    assert_eq!(elite_count(0, 25), 0);
}

#[test]
fn make_distinct_gives_two_different_indices() {
    for _ in 0..50 {
        let (a, b) = make_distinct(2);
        assert!(a < 2 && b < 2 && a != b);
        let (c, d) = make_distinct(5);
        assert!(c < 5 && d < 5 && c != d);
    }
}

#[test]
fn best_tracker_numbers_new_bests() {
    let mut t = BestTracker::new();
    assert_eq!(t.observe(0.5f32.to_bits()), Some(0));
    assert_eq!(t.observe(0.4f32.to_bits()), None);
    assert_eq!(t.observe(0.5f32.to_bits()), None);
    assert_eq!(t.observe(0.7f32.to_bits()), Some(1));
    assert_eq!(t.best_score, 0.7f32.to_bits());
    assert_eq!(t.number_of_bests, 2);
    let r = BestTracker::resumed(0.3f32.to_bits(), Some(12));
    assert_eq!(r.number_of_bests, 13);
    assert_eq!(BestTracker::resumed(0, None).number_of_bests, 0);
}

#[test]
fn migration_runs_every_period() {
    assert!(is_migration_tick(0, 100));
    assert!(!is_migration_tick(99, 100));
    assert!(is_migration_tick(200, 100));
}

#[test]
fn island_crossing_only_overwrites_low_slots() {
    let mut islands: Vec<Vec<Genome<f32>>> = (0..3)
        .map(|k| (0..10).map(|i| genome((k * 100 + i) as f32)).collect())
        .collect();
    let before = islands.clone();
    let writes = island_crossing(&mut islands, 10, 30, 10, 3, &noise, &mean).unwrap();
    assert_eq!(writes.len(), 10);
    assert!(writes.iter().all(|(i, j)| *i < 3 && *j < 3));
    assert_eq!(islands.len(), 3);
    let mut changed = 0;
    for (k, island) in islands.iter().enumerate() {
        assert_eq!(island.len(), 10);
        for j in 3..10 {
            assert!(same_genome(&island[j], &before[k][j]));
        }
        for j in 0..3 {
            if !same_genome(&island[j], &before[k][j]) {
                changed += 1;
                assert!(writes.contains(&(k, j)));
            }
        }
    }
    assert!(changed >= 1 && changed <= 10);
}

#[test]
fn island_crossing_refuses_mismatched_elites() {
    let mut islands: Vec<Vec<Genome<f32>>> = (0..2)
        .map(|k| (0..10).map(|i| genome((k * 100 + i) as f32)).collect())
        .collect();
    islands[1][9].layers.pop();
    let r = island_crossing(&mut islands, 10, 30, 10, 3, &noise, &mean);
    assert_eq!(r.unwrap_err(), EngineError::ShapeMismatch);
}

#[test]
fn resume_fills_elite_slots_from_checkpoints() {
    let fresh: Vec<Genome<f32>> = (0..10).map(|i| genome(i as f32)).collect();
    let loaded = vec![genome(500.0), genome(600.0)];
    let next = resume_island(fresh, loaded, vec![genome(-3.0)], 30, &noise, &mean).unwrap();
    assert_eq!(next.len(), 10);
    assert!(same_genome(&next[7], &genome(500.0)));
    assert!(same_genome(&next[8], &genome(600.0)));
    assert!(same_genome(&next[9], &genome(500.0)));
}

#[test]
fn topologies_build_well_formed_genomes() {
    let small: Genome<f32> = random_genome("SmallAI", &small_ai_topology(), &|| 0.5f32);
    assert_eq!(small.layers.len(), 3);
    assert_eq!(small.layers[0].weight.len(), 64 * 128);
    assert_eq!(small.layers[2].bias.as_ref().unwrap().len(), 14);
    assert!(small.is_well_formed());
    let big: Genome<f32> = random_genome("BigAI", &big_ai_topology(), &|| 1.0f32);
    assert_eq!(big.layers.len(), 5);
    assert_eq!(big.network_name(), "BigAI");
    assert_eq!(big.layers[4].weight.len(), 64 * 32);
}
