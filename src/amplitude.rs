use vstd::prelude::*;

use crate::genome::{Genome, GenomeModel, Layer, LayerModel};

verus! {

/// `magnitude` gives each parameter one key, whose order is the order of the
/// parameters' absolute values (for an `f32`, the bit pattern of its absolute value).
pub open spec fn is_key<T, K: Fn(T) -> u32>(magnitude: K) -> bool {
    &&& forall|x: T| magnitude.requires((x,))
    &&& forall|x: T, a: u32, b: u32|
        magnitude.ensures((x,), a) && magnitude.ensures((x,), b) ==> a == b
}

/// `m` is the largest key of the entries of `s`, and the key of one of them.
pub open spec fn is_max_key<T, K: Fn(T) -> u32>(s: Seq<T>, m: u32, magnitude: K) -> bool {
    &&& exists|i: int| 0 <= i < s.len() && #[trigger] magnitude.ensures((s[i],), m)
    &&& forall|i: int, k: u32| 0 <= i < s.len() && #[trigger] magnitude.ensures((s[i],), k) ==> k <= m
}

/// All weight and bias entries of a layer.
pub open spec fn layer_entries<T>(l: LayerModel<T>) -> Seq<T> {
    l.weight + l.bias_seq()
}

/// The genome has layers, and every layer has a bias and at least one weight.
pub open spec fn has_amplitude<T>(g: GenomeModel<T>) -> bool {
    &&& g.layers.len() > 0
    &&& forall|l: int| 0 <= l < g.layers.len() ==> layer_has_amplitude(#[trigger] g.layers[l])
}

/// The largest key among the entries of a non-empty parameter vector.
pub fn max_amp_for_tensor<T: Copy, K: Fn(T) -> u32>(input: &Vec<T>, magnitude: &K) -> (r: u32)
    requires
        is_key(*magnitude),
        input@.len() > 0,
    ensures
        is_max_key(input@, r, *magnitude),
{
    let mut best = magnitude(input[0]);
    let mut i: usize = 1;
    while i < input.len()
        invariant
            is_key(*magnitude),
            1 <= i <= input@.len(),
            exists|j: int| 0 <= j < i && #[trigger] magnitude.ensures((input@[j],), best),
            forall|j: int, k: u32| 0 <= j < i && #[trigger] magnitude.ensures((input@[j],), k) ==> k <= best,
        decreases input@.len() - i,
    {
        let k = magnitude(input[i]);
        if k > best {
            best = k;
        }
        i = i + 1;
    }
    best
}

/// Every layer has a bias, and at least one weight and one bias entry.
pub open spec fn layer_has_amplitude<T>(l: LayerModel<T>) -> bool {
    l.bias is Some && l.weight.len() > 0 && l.bias_seq().len() > 0
}

/// The largest key among the weights and biases of a layer that has a bias.
pub fn max_amp_for_linear<T: Copy, K: Fn(T) -> u32>(input: &Layer<T>, magnitude: &K) -> (r: u32)
    requires
        is_key(*magnitude),
        layer_has_amplitude(input@),
    ensures
        is_max_key(layer_entries(input@), r, *magnitude),
{
    let bias = input.bias.as_ref().unwrap();
    let weight_max = max_amp_for_tensor(&input.weight, magnitude);
    let bias_max = max_amp_for_tensor(bias, magnitude);
    let ghost all = layer_entries(input@);
    let ghost w = input@.weight;
    let ghost b = input@.bias_seq();
    let m = if weight_max >= bias_max { weight_max } else { bias_max };
    proof {
        assert forall|i: int, k: u32| 0 <= i < all.len() && #[trigger] magnitude.ensures((all[i],), k) implies k <= m by {
            if i < w.len() {
                assert(all[i] == w[i]);
            } else {
                assert(all[i] == b[i - w.len()]);
            }
        }
        if weight_max >= bias_max {
            let j = choose|j: int| 0 <= j < w.len() && #[trigger] magnitude.ensures((w[j],), weight_max);
            assert(all[j] == w[j]);
        } else {
            let j = choose|j: int| 0 <= j < b.len() && #[trigger] magnitude.ensures((b[j],), bias_max);
            assert(all[w.len() + j] == b[j]);
        }
    }
    m
}

impl<T: Copy> Genome<T> {
    /// The largest key among all weights and biases of a genome whose every layer has
    /// a bias.
    pub fn max_amp<K: Fn(T) -> u32>(&self, magnitude: &K) -> (r: u32)
        requires
            is_key(*magnitude),
            has_amplitude(self@),
        ensures
            exists|l: int|
                0 <= l < self@.layers.len() && is_max_key(
                    layer_entries(#[trigger] self@.layers[l]),
                    r,
                    *magnitude,
                ),
            forall|l: int, i: int, k: u32|
                0 <= l < self@.layers.len() && 0 <= i < layer_entries(self@.layers[l]).len()
                    && #[trigger] magnitude.ensures((layer_entries(self@.layers[l])[i],), k) ==> k <= r,
    {
        let mut best: u32 = 0;
        let mut i: usize = 0;
        while i < self.layers.len()
            invariant
                is_key(*magnitude),
                has_amplitude(self@),
                i <= self.layers@.len(),
                i > 0 ==> exists|l: int|
                    0 <= l < i && is_max_key(layer_entries(#[trigger] self@.layers[l]), best, *magnitude),
                forall|l: int, j: int, k: u32|
                    0 <= l < i && 0 <= j < layer_entries(self@.layers[l]).len()
                        && #[trigger] magnitude.ensures((layer_entries(self@.layers[l])[j],), k) ==> k <= best,
            decreases self.layers@.len() - i,
        {
            assert(self@.layers[i as int] == self.layers@[i as int]@);
            assert(layer_has_amplitude(self@.layers[i as int]));
            let m = max_amp_for_linear(&self.layers[i], magnitude);
            let ghost old_best = best;
            if i == 0 || m > best {
                best = m;
            }
            proof {
                let e = layer_entries(self@.layers[i as int]);
                if i > 0 && m <= old_best {
                    let l0 = choose|l: int|
                        0 <= l < i && is_max_key(layer_entries(#[trigger] self@.layers[l]), old_best, *magnitude);
                    assert(0 <= l0 < i + 1 && is_max_key(layer_entries(self@.layers[l0]), best, *magnitude));
                } else {
                    assert(is_max_key(e, best, *magnitude));
                }
            }
            i = i + 1;
        }
        best
    }
}

} // verus!
