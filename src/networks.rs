use vstd::prelude::*;

use crate::genome::{Genome, Layer, LayerShape, ShapeModel};

verus! {

/// The views of a topology.
pub open spec fn shape_models(v: Seq<LayerShape>) -> Seq<ShapeModel> {
    v.map_values(|s: LayerShape| s@)
}

/// Every parameter vector of a layer of this topology has a length that fits in memory.
pub open spec fn topology_fits(v: Seq<ShapeModel>) -> bool {
    forall|i: int| 0 <= i < v.len() ==> (#[trigger] v[i]).1 * v[i].2 <= usize::MAX
}

/// Each entry is a value that `draw` may return.
pub open spec fn all_drawn<T, D: Fn() -> T>(s: Seq<T>, draw: D) -> bool {
    forall|i: int| 0 <= i < s.len() ==> draw.ensures((), #[trigger] s[i])
}

/// A dense layer with a bias.
pub fn dense(name: &str, d_input: usize, d_output: usize) -> (r: LayerShape)
    ensures
        r@ == (name@, d_input, d_output, true),
{
    LayerShape { name: name.to_string(), d_input, d_output, has_bias: true }
}

/// The small controller: 64 inputs, a hidden layer of 14, and 7 outputs, with the
/// layers in the order input, output, hidden.
pub fn small_ai_topology() -> (r: Vec<LayerShape>)
    ensures
        shape_models(r@) == seq![
            ("input"@, 64usize, 128usize, true),
            ("output"@, 14usize, 7usize, true),
            ("hidden"@, 128usize, 14usize, true),
        ],
        topology_fits(shape_models(r@)),
{
    let mut r: Vec<LayerShape> = Vec::new();
    r.push(dense("input", 64, 128));
    r.push(dense("output", 14, 7));
    r.push(dense("hidden", 128, 14));
    assert(shape_models(r@) =~= seq![
        ("input"@, 64usize, 128usize, true),
        ("output"@, 14usize, 7usize, true),
        ("hidden"@, 128usize, 14usize, true),
    ]);
    r
}

/// The large controller: 64 inputs, hidden layers of 256, 128, 64 and 32, and 7
/// outputs, with the layers in the order input, output, hidden_1, hidden_2, hidden_3.
pub fn big_ai_topology() -> (r: Vec<LayerShape>)
    ensures
        shape_models(r@) == seq![
            ("input"@, 64usize, 256usize, true),
            ("output"@, 32usize, 7usize, true),
            ("hidden_1"@, 256usize, 128usize, true),
            ("hidden_2"@, 128usize, 64usize, true),
            ("hidden_3"@, 64usize, 32usize, true),
        ],
        topology_fits(shape_models(r@)),
{
    let mut r: Vec<LayerShape> = Vec::new();
    r.push(dense("input", 64, 256));
    r.push(dense("output", 32, 7));
    r.push(dense("hidden_1", 256, 128));
    r.push(dense("hidden_2", 128, 64));
    r.push(dense("hidden_3", 64, 32));
    assert(shape_models(r@) =~= seq![
        ("input"@, 64usize, 256usize, true),
        ("output"@, 32usize, 7usize, true),
        ("hidden_1"@, 256usize, 128usize, true),
        ("hidden_2"@, 128usize, 64usize, true),
        ("hidden_3"@, 64usize, 32usize, true),
    ]);
    r
}

/// `n` values, each drawn by `draw`.
fn draw_entries<T, D: Fn() -> T>(n: usize, draw: &D) -> (r: Vec<T>)
    requires
        draw.requires(()),
    ensures
        r@.len() == n,
        all_drawn(r@, *draw),
{
    let mut r: Vec<T> = Vec::with_capacity(n);
    let mut i: usize = 0;
    while i < n
        invariant
            draw.requires(()),
            i <= n,
            r@.len() == i,
            all_drawn(r@, *draw),
        decreases n - i,
    {
        let v = draw();
        r.push(v);
        i = i + 1;
    }
    r
}

/// A genome of the given topology whose every weight and bias entry comes from `draw`.
pub fn random_genome<T, D: Fn() -> T>(network: &str, topology: &Vec<LayerShape>, draw: &D) -> (r:
    Genome<T>)
    requires
        topology_fits(shape_models(topology@)),
        draw.requires(()),
    ensures
        r@.network == network@,
        r@.shape() == shape_models(topology@),
        r@.wf(),
        forall|l: int|
            0 <= l < r@.layers.len() ==> all_drawn((#[trigger] r@.layers[l]).weight, *draw)
                && all_drawn(r@.layers[l].bias_seq(), *draw),
{
    let mut layers: Vec<Layer<T>> = Vec::with_capacity(topology.len());
    let mut i: usize = 0;
    while i < topology.len()
        invariant
            topology_fits(shape_models(topology@)),
            draw.requires(()),
            i <= topology@.len(),
            layers@.len() == i,
            forall|k: int|
                0 <= k < i ==> (#[trigger] layers@[k])@.shape() == topology@[k]@ && layers@[k]@.wf()
                    && all_drawn(layers@[k]@.weight, *draw) && all_drawn(layers@[k]@.bias_seq(), *draw),
        decreases topology@.len() - i,
    {
        let shape = &topology[i];
        assert(shape_models(topology@)[i as int] == topology@[i as int]@);
        assert(shape.d_input * shape.d_output <= usize::MAX);
        let weight = draw_entries(shape.d_input * shape.d_output, draw);
        let bias = if shape.has_bias {
            Some(draw_entries(shape.d_output, draw))
        } else {
            None
        };
        layers.push(
            Layer {
                name: shape.name.clone(),
                d_input: shape.d_input,
                d_output: shape.d_output,
                weight,
                bias,
            },
        );
        i = i + 1;
    }
    let r = Genome { network: network.to_string(), layers };
    assert(r@.shape() =~= shape_models(topology@));
    r
}

} // verus!
