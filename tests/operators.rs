use neuroevo::amplitude::{max_amp_for_linear, max_amp_for_tensor};
use neuroevo::error::EngineError;
use neuroevo::genome::{shapes_match, Genome, Layer};
use neuroevo::operators::{average, interleave, interleave_masked, jiggle_tensor};
use neuroevo::reproduction::{
    breed, make_offspring, reproduction_for_ticket, Reproduction, TOTAL_WEIGHT,
};

fn layer(name: &str, d_input: usize, d_output: usize, start: f32, bias: bool) -> Layer<f32> {
    let weight: Vec<f32> = (0..d_input * d_output).map(|i| start + i as f32).collect();
    let bias = if bias {
        Some((0..d_output).map(|i| start + 100.0 + i as f32).collect())
    } else {
        None
    };
    Layer { name: name.to_string(), d_input, d_output, weight, bias }
}

fn genome(start: f32) -> Genome<f32> {
    Genome {
        network: "Net".to_string(),
        layers: vec![
            layer("input", 3, 2, start, true),
            layer("output", 2, 2, start + 10.0, true),
            layer("hidden", 2, 2, start + 20.0, true),
        ],
    }
}

fn same_shapes(a: &Genome<f32>, b: &Genome<f32>) -> bool {
    a.layers.len() == b.layers.len()
        && a.layers.iter().zip(b.layers.iter()).all(|(x, y)| {
            x.name == y.name
                && x.d_input == y.d_input
                && x.d_output == y.d_output
                && x.weight.len() == y.weight.len()
                && x.bias.as_ref().map(|v| v.len()) == y.bias.as_ref().map(|v| v.len())
        })
}

fn entries(g: &Genome<f32>) -> Vec<f32> {
    let mut out = Vec::new();
    for l in &g.layers {
        out.extend(l.weight.iter().copied());
        if let Some(b) = &l.bias {
            out.extend(b.iter().copied());
        }
    }
    out
}

#[test]
fn jiggle_keeps_names_and_shapes() {
    let g = genome(1.0);
    let j = g.jiggle(&|x: f32| x + 0.5);
    assert!(same_shapes(&g, &j));
    assert_eq!(j.network, "Net");
    for (a, b) in entries(&g).iter().zip(entries(&j).iter()) {
        assert_eq!(*a + 0.5, *b);
    }
}

#[test]
fn jiggle_tensor_applies_noise_to_every_entry() {
    let t = vec![1.0f32, -2.0, 3.0];
    assert_eq!(jiggle_tensor(&t, &|x: f32| x * 2.0), vec![2.0, -4.0, 6.0]);
}

#[test]
fn combine_takes_weights_from_mother_and_bias_from_father() {
    let a = genome(1.0);
    let b = genome(1000.0);
    let c = a.combine(&b).unwrap();
    for (l, layer) in c.layers.iter().enumerate() {
        assert_eq!(layer.weight, a.layers[l].weight);
        assert_eq!(layer.bias, b.layers[l].bias);
        assert_eq!(layer.name, a.layers[l].name);
    }
}

#[test]
fn interleave_takes_every_entry_from_one_parent() {
    let a = genome(1.0);
    let b = genome(1000.0);
    let c = a.interleave_with(&b).unwrap();
    assert!(same_shapes(&a, &c));
    let (ea, eb, ec) = (entries(&a), entries(&b), entries(&c));
    for i in 0..ec.len() {
        assert!(ec[i] == ea[i] || ec[i] == eb[i]);
    }
}

#[test]
fn interleave_masked_follows_the_mask() {
    let a = vec![1.0f32, 2.0, 3.0, 4.0];
    let b = vec![10.0f32, 20.0, 30.0, 40.0];
    let mask = vec![true, false, false, true];
    assert_eq!(interleave_masked(&a, &b, &mask), vec![1.0, 20.0, 30.0, 4.0]);
    let r = interleave(&a, &b);
    for i in 0..4 {
        assert!(r[i] == a[i] || r[i] == b[i]);
    }
}

#[test]
fn average_is_the_entrywise_mean() {
    let a = genome(1.0);
    let b = genome(4.0);
    let c = a.average_with(&b, &|x: f32, y: f32| (x + y) / 2.0).unwrap();
    let (ea, eb, ec) = (entries(&a), entries(&b), entries(&c));
    for i in 0..ec.len() {
        assert!((ec[i] - (ea[i] + eb[i]) / 2.0).abs() < 1e-6);
    }
    assert_eq!(average(&vec![1.0f32, 3.0], &vec![2.0f32, 5.0], &|x: f32, y: f32| (x + y) / 2.0), vec![1.5, 4.0]);
}

#[test]
fn layer_swap_alternates_between_parents() {
    let a = genome(1.0);
    let b = genome(1000.0);
    let c = a.layer_swap(&b).unwrap();
    assert_eq!(c.layers[0].weight, a.layers[0].weight);
    assert_eq!(c.layers[1].weight, b.layers[1].weight);
    assert_eq!(c.layers[2].weight, a.layers[2].weight);
    assert_eq!(c.layers[1].bias, b.layers[1].bias);
}

#[test]
fn combine_refuses_different_topologies() {
    let a = Genome { network: "Net".to_string(), layers: vec![layer("L1", 4, 4, 0.0, true)] };
    let b = Genome { network: "Net".to_string(), layers: vec![layer("L1", 3, 4, 0.0, true)] };
    assert!(!shapes_match(&a, &b));
    assert_eq!(a.combine(&b).unwrap_err(), EngineError::ShapeMismatch);
    assert_eq!(a.offspring(&b, &|x: f32| x).unwrap_err(), EngineError::ShapeMismatch);
    assert_eq!(a.interleave_with(&b).unwrap_err(), EngineError::ShapeMismatch);
    assert_eq!(a.layer_swap(&b).unwrap_err(), EngineError::ShapeMismatch);
}

#[test]
fn shapes_match_compares_names_dimensions_and_biases() {
    let a = genome(1.0);
    assert!(shapes_match(&a, &genome(5.0)));
    let mut renamed = genome(1.0);
    renamed.layers[1].name = "other".to_string();
    assert!(!shapes_match(&a, &renamed));
    let mut no_bias = genome(1.0);
    no_bias.layers[2].bias = None;
    assert!(!shapes_match(&a, &no_bias));
}

#[test]
fn reproduction_table_follows_the_weights() {
    assert_eq!(TOTAL_WEIGHT, 15);
    let modes: Vec<Reproduction> = (0..15).map(reproduction_for_ticket).collect();
    assert_eq!(modes.iter().filter(|m| **m == Reproduction::Interleave).count(), 5);
    assert_eq!(modes.iter().filter(|m| **m == Reproduction::Average).count(), 4);
    assert_eq!(modes[9], Reproduction::Combine);
    assert_eq!(modes[10], Reproduction::LayerSwap);
    assert_eq!(modes[11], Reproduction::JiggleMother);
    assert_eq!(modes[14], Reproduction::JiggleFather);
}

#[test]
fn breed_jiggle_father_perturbs_the_father() {
    let a = genome(1.0);
    let b = genome(1000.0);
    let c = breed(Reproduction::JiggleFather, &a, &b, &|x: f32| x + 1.0, &|x: f32, y: f32| (x + y) / 2.0).unwrap();
    for (x, y) in entries(&b).iter().zip(entries(&c).iter()) {
        assert_eq!(*x + 1.0, *y);
    }
}

#[test]
fn make_offspring_keeps_the_topology() {
    let a = genome(1.0);
    let b = genome(1000.0);
    for _ in 0..20 {
        let c = make_offspring(&a, &b, &|x: f32| x, &|x: f32, y: f32| (x + y) / 2.0).unwrap();
        assert!(same_shapes(&a, &c));
    }
}

#[test]
fn max_amp_finds_the_largest_magnitude() {
    let key = |x: f32| x.abs().to_bits();
    let t = vec![1.0f32, -3.5, 2.0];
    assert_eq!(max_amp_for_tensor(&t, &key), 3.5f32.to_bits());
    assert_eq!(max_amp_for_tensor(&vec![-0.25f32], &key), 0.25f32.to_bits());
    let l = layer("input", 2, 2, -7.0, true);
    assert_eq!(max_amp_for_linear(&l, &key), 94.0f32.to_bits());
    let g = genome(1.0);
    assert_eq!(g.max_amp(&key), 122.0f32.to_bits());
}
