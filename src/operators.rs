use vstd::prelude::*;

use crate::chance::coin_mask;
use crate::error::EngineError;
use crate::genome::{copy_bias, copy_entries, same_shape, shapes_match, Genome, GenomeModel, Layer, LayerModel};

verus! {

/// Each entry of `dst` is what `noise` may return on the entry of `src` at the same place.
pub open spec fn perturbed<T, F: Fn(T) -> T>(src: Seq<T>, dst: Seq<T>, noise: F) -> bool {
    &&& dst.len() == src.len()
    &&& forall|i: int| 0 <= i < src.len() ==> noise.ensures((src[i],), #[trigger] dst[i])
}

/// Each entry of `r` is the entry of `a` or the entry of `b` at the same place.
pub open spec fn picks_from<T>(a: Seq<T>, b: Seq<T>, r: Seq<T>) -> bool {
    &&& r.len() == a.len()
    &&& forall|i: int| 0 <= i < r.len() ==> (#[trigger] r[i]) == a[i] || r[i] == b[i]
}

/// The entries of `a` where the mask is set, and those of `b` elsewhere.
pub open spec fn mixed<T>(a: Seq<T>, b: Seq<T>, mask: Seq<bool>) -> Seq<T> {
    Seq::new(a.len(), |i: int| if mask[i] { a[i] } else { b[i] })
}

/// Each entry of `r` is what `mean` may return on the two entries at the same place.
pub open spec fn averaged<T, M: Fn(T, T) -> T>(a: Seq<T>, b: Seq<T>, r: Seq<T>, mean: M) -> bool {
    &&& r.len() == a.len()
    &&& forall|i: int| 0 <= i < r.len() ==> mean.ensures((a[i], b[i]), #[trigger] r[i])
}

/// Adds noise to every entry of a parameter vector.
pub fn jiggle_tensor<T: Copy, F: Fn(T) -> T>(t: &Vec<T>, noise: &F) -> (r: Vec<T>)
    requires
        forall|x: T| noise.requires((x,)),
    ensures
        perturbed(t@, r@, *noise),
{
    let mut r: Vec<T> = Vec::with_capacity(t.len());
    let mut i: usize = 0;
    while i < t.len()
        invariant
            i <= t@.len(),
            r@.len() == i,
            forall|x: T| noise.requires((x,)),
            forall|k: int| 0 <= k < i ==> noise.ensures((t@[k],), #[trigger] r@[k]),
        decreases t@.len() - i,
    {
        let v = noise(t[i]);
        r.push(v);
        i = i + 1;
    }
    r
}

/// Takes each entry from `a` where the mask is set and from `b` elsewhere.
pub fn interleave_masked<T: Copy>(a: &Vec<T>, b: &Vec<T>, mask: &Vec<bool>) -> (r: Vec<T>)
    requires
        a@.len() == b@.len(),
        mask@.len() == a@.len(),
    ensures
        r@ == mixed(a@, b@, mask@),
{
    let mut r: Vec<T> = Vec::with_capacity(a.len());
    let mut i: usize = 0;
    while i < a.len()
        invariant
            a@.len() == b@.len(),
            mask@.len() == a@.len(),
            i <= a@.len(),
            r@.len() == i,
            forall|k: int| 0 <= k < i ==> #[trigger] r@[k] == if mask@[k] { a@[k] } else { b@[k] },
        decreases a@.len() - i,
    {
        if mask[i] {
            r.push(a[i]);
        } else {
            r.push(b[i]);
        }
        i = i + 1;
    }
    assert(r@ =~= mixed(a@, b@, mask@));
    r
}

/// Takes each entry from `a` or from `b` by a fair coin, drawn afresh for every entry.
pub fn interleave<T: Copy>(a: &Vec<T>, b: &Vec<T>) -> (r: Vec<T>)
    requires
        a@.len() == b@.len(),
    ensures
        picks_from(a@, b@, r@),
{
    let mask = coin_mask(a.len());
    interleave_masked(a, b, &mask)
}

/// Combines the two entries at each place with `mean`.
pub fn average<T: Copy, M: Fn(T, T) -> T>(a: &Vec<T>, b: &Vec<T>, mean: &M) -> (r: Vec<T>)
    requires
        a@.len() == b@.len(),
        forall|x: T, y: T| mean.requires((x, y)),
    ensures
        averaged(a@, b@, r@, *mean),
{
    let mut r: Vec<T> = Vec::with_capacity(a.len());
    let mut i: usize = 0;
    while i < a.len()
        invariant
            a@.len() == b@.len(),
            i <= a@.len(),
            r@.len() == i,
            forall|x: T, y: T| mean.requires((x, y)),
            forall|k: int| 0 <= k < i ==> mean.ensures((a@[k], b@[k]), #[trigger] r@[k]),
        decreases a@.len() - i,
    {
        let v = mean(a[i], b[i]);
        r.push(v);
        i = i + 1;
    }
    r
}

/// `dst` has the shape of `src`, and every weight and bias entry went through `noise`.
pub open spec fn layer_perturbed<T, F: Fn(T) -> T>(
    src: LayerModel<T>,
    dst: LayerModel<T>,
    noise: F,
) -> bool {
    &&& dst.shape() == src.shape()
    &&& perturbed(src.weight, dst.weight, noise)
    &&& perturbed(src.bias_seq(), dst.bias_seq(), noise)
}

/// `r` has the weights of `a` and the bias of `b`.
pub open spec fn layer_combined<T>(a: LayerModel<T>, b: LayerModel<T>, r: LayerModel<T>) -> bool {
    &&& r.shape() == a.shape()
    &&& r.weight == a.weight
    &&& r.bias == b.bias
}

/// Every weight and bias entry of `r` is that of `a` or that of `b`.
pub open spec fn layer_interleaved<T>(a: LayerModel<T>, b: LayerModel<T>, r: LayerModel<T>) -> bool {
    &&& r.shape() == a.shape()
    &&& picks_from(a.weight, b.weight, r.weight)
    &&& picks_from(a.bias_seq(), b.bias_seq(), r.bias_seq())
}

/// Every weight and bias entry of `r` is the `mean` of those of `a` and `b`.
pub open spec fn layer_averaged<T, M: Fn(T, T) -> T>(
    a: LayerModel<T>,
    b: LayerModel<T>,
    r: LayerModel<T>,
    mean: M,
) -> bool {
    &&& r.shape() == a.shape()
    &&& averaged(a.weight, b.weight, r.weight, mean)
    &&& averaged(a.bias_seq(), b.bias_seq(), r.bias_seq(), mean)
}

/// Adds noise to every weight and bias entry of a layer.
pub fn jiggle_linear<T: Copy, F: Fn(T) -> T>(ln: &Layer<T>, noise: &F) -> (r: Layer<T>)
    requires
        forall|x: T| noise.requires((x,)),
    ensures
        layer_perturbed(ln@, r@, *noise),
        ln@.wf() ==> r@.wf(),
{
    Layer {
        name: ln.name.clone(),
        d_input: ln.d_input,
        d_output: ln.d_output,
        weight: jiggle_tensor(&ln.weight, noise),
        bias: match &ln.bias {
            Some(b) => Some(jiggle_tensor(b, noise)),
            None => None,
        },
    }
}

/// The weights of `a` with the bias of `b`.
pub fn combine_bw_linear<T: Copy>(a: &Layer<T>, b: &Layer<T>) -> (r: Layer<T>)
    requires
        a@.shape() == b@.shape(),
        a@.wf(),
        b@.wf(),
    ensures
        layer_combined(a@, b@, r@),
        r@.wf(),
{
    Layer {
        name: a.name.clone(),
        d_input: a.d_input,
        d_output: a.d_output,
        weight: copy_entries(&a.weight),
        bias: copy_bias(&b.bias),
    }
}

/// Each weight and bias entry from `a` or `b` by a fair coin.
pub fn interleave_bw_linear<T: Copy>(a: &Layer<T>, b: &Layer<T>) -> (r: Layer<T>)
    requires
        a@.shape() == b@.shape(),
        a@.wf(),
        b@.wf(),
    ensures
        layer_interleaved(a@, b@, r@),
        r@.wf(),
{
    Layer {
        name: a.name.clone(),
        d_input: a.d_input,
        d_output: a.d_output,
        weight: interleave(&a.weight, &b.weight),
        bias: match (&a.bias, &b.bias) {
            (Some(x), Some(y)) => Some(interleave(x, y)),
            _ => None,
        },
    }
}

/// Each weight and bias entry the `mean` of those of `a` and `b`.
pub fn average_bw_linear<T: Copy, M: Fn(T, T) -> T>(a: &Layer<T>, b: &Layer<T>, mean: &M) -> (r:
    Layer<T>)
    requires
        a@.shape() == b@.shape(),
        a@.wf(),
        b@.wf(),
        forall|x: T, y: T| mean.requires((x, y)),
    ensures
        layer_averaged(a@, b@, r@, *mean),
        r@.wf(),
{
    Layer {
        name: a.name.clone(),
        d_input: a.d_input,
        d_output: a.d_output,
        weight: average(&a.weight, &b.weight, mean),
        bias: match (&a.bias, &b.bias) {
            (Some(x), Some(y)) => Some(average(x, y, mean)),
            _ => None,
        },
    }
}

} // verus!
