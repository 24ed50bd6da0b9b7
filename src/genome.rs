use vstd::prelude::*;

verus! {

/// One dense layer of a controller network: a weight matrix of
/// `d_input * d_output` entries, stored row by row (one row per input), and
/// an optional bias vector of `d_output` entries.
#[derive(Clone, Debug)]
pub struct Layer<T> {
    pub name: String,
    pub d_input: usize,
    pub d_output: usize,
    pub weight: Vec<T>,
    pub bias: Option<Vec<T>>,
}

/// A candidate controller: the topology name and its ordered layers.
#[derive(Clone, Debug)]
pub struct Genome<T> {
    pub network: String,
    pub layers: Vec<Layer<T>>,
}

/// The name and dimensions of one layer, without its parameters.
#[derive(Clone, Debug)]
pub struct LayerShape {
    pub name: String,
    pub d_input: usize,
    pub d_output: usize,
    pub has_bias: bool,
}

/// What a layer is, as a mathematical value.
pub struct LayerModel<T> {
    pub name: Seq<char>,
    pub d_input: usize,
    pub d_output: usize,
    pub weight: Seq<T>,
    pub bias: Option<Seq<T>>,
}

/// What a genome is, as a mathematical value.
pub struct GenomeModel<T> {
    pub network: Seq<char>,
    pub layers: Seq<LayerModel<T>>,
}

/// The shape of a layer: name, input width, output width, and whether it has a bias.
pub type ShapeModel = (Seq<char>, usize, usize, bool);

impl<T> View for Layer<T> {
    type V = LayerModel<T>;

    open spec fn view(&self) -> LayerModel<T> {
        LayerModel {
            name: self.name@,
            d_input: self.d_input,
            d_output: self.d_output,
            weight: self.weight@,
            bias: match self.bias {
                Some(b) => Some(b@),
                None => None,
            },
        }
    }
}

impl<T> View for Genome<T> {
    type V = GenomeModel<T>;

    open spec fn view(&self) -> GenomeModel<T> {
        GenomeModel { network: self.network@, layers: self.layers@.map_values(|l: Layer<T>| l@) }
    }
}

impl View for LayerShape {
    type V = ShapeModel;

    open spec fn view(&self) -> ShapeModel {
        (self.name@, self.d_input, self.d_output, self.has_bias)
    }
}

impl<T> LayerModel<T> {
    pub open spec fn shape(self) -> ShapeModel {
        (self.name, self.d_input, self.d_output, self.bias is Some)
    }

    /// The bias entries, or none where the layer has no bias.
    pub open spec fn bias_seq(self) -> Seq<T> {
        match self.bias {
            Some(b) => b,
            None => Seq::empty(),
        }
    }

    pub open spec fn wf(self) -> bool {
        &&& self.weight.len() == self.d_input * self.d_output
        &&& match self.bias {
            Some(b) => b.len() == self.d_output,
            None => true,
        }
    }
}

impl<T> GenomeModel<T> {
    /// The topology: the ordered shapes of the layers.
    pub open spec fn shape(self) -> Seq<ShapeModel> {
        self.layers.map_values(|l: LayerModel<T>| l.shape())
    }

    pub open spec fn wf(self) -> bool {
        forall|l: int| 0 <= l < self.layers.len() ==> (#[trigger] self.layers[l]).wf()
    }
}

/// Two genomes can be recombined exactly when they have the same ordered layers,
/// each with the same name, dimensions and presence of a bias.
pub open spec fn same_shape<T>(a: GenomeModel<T>, b: GenomeModel<T>) -> bool {
    a.shape() == b.shape()
}

/// Copies a vector of parameters entry by entry.
pub fn copy_entries<T: Copy>(v: &Vec<T>) -> (r: Vec<T>)
    ensures
        r@ == v@,
{
    let mut r: Vec<T> = Vec::with_capacity(v.len());
    let mut i: usize = 0;
    while i < v.len()
        invariant
            i <= v@.len(),
            r@ == v@.subrange(0, i as int),
        decreases v@.len() - i,
    {
        r.push(v[i]);
        i = i + 1;
    }
    assert(r@ =~= v@);
    r
}

/// Copies an optional bias vector.
pub fn copy_bias<T: Copy>(b: &Option<Vec<T>>) -> (r: Option<Vec<T>>)
    ensures
        match (r, *b) {
            (Some(x), Some(y)) => x@ == y@,
            (None, None) => true,
            _ => false,
        },
{
    match b {
        Some(v) => Some(copy_entries(v)),
        None => None,
    }
}

impl<T: Copy> Layer<T> {
    /// An exact copy of this layer.
    pub fn duplicate(&self) -> (r: Layer<T>)
        ensures
            r@ == self@,
    {
        Layer {
            name: self.name.clone(),
            d_input: self.d_input,
            d_output: self.d_output,
            weight: copy_entries(&self.weight),
            bias: copy_bias(&self.bias),
        }
    }

    /// Whether the parameter vectors have the lengths that the dimensions give.
    pub fn is_well_formed(&self) -> (r: bool)
        ensures
            r == self@.wf(),
    {
        let wl = self.weight.len();
        match self.d_input.checked_mul(self.d_output) {
            None => false,
            Some(n) => {
                wl == n && match &self.bias {
                    Some(b) => b.len() == self.d_output,
                    None => true,
                }
            },
        }
    }
}

impl<T: Copy> Genome<T> {
    /// An exact copy of this genome.
    pub fn duplicate(&self) -> (r: Genome<T>)
        ensures
            r@ == self@,
    {
        let mut layers: Vec<Layer<T>> = Vec::with_capacity(self.layers.len());
        let mut i: usize = 0;
        while i < self.layers.len()
            invariant
                i <= self.layers@.len(),
                layers@.len() == i,
                forall|k: int| 0 <= k < i ==> (#[trigger] layers@[k])@ == self.layers@[k]@,
            decreases self.layers@.len() - i,
        {
            layers.push(self.layers[i].duplicate());
            i = i + 1;
        }
        let r = Genome { network: self.network.clone(), layers };
        assert(r@.layers =~= self@.layers);
        r
    }

    /// Whether every layer's parameter vectors have the lengths its dimensions give.
    pub fn is_well_formed(&self) -> (r: bool)
        ensures
            r == self@.wf(),
    {
        let mut i: usize = 0;
        while i < self.layers.len()
            invariant
                i <= self.layers@.len(),
                forall|k: int| 0 <= k < i ==> (#[trigger] self@.layers[k]).wf(),
            decreases self.layers@.len() - i,
        {
            if !self.layers[i].is_well_formed() {
                assert(self@.layers[i as int] == self.layers@[i as int]@);
                return false;
            }
            assert(self@.layers[i as int] == self.layers@[i as int]@);
            i = i + 1;
        }
        true
    }

    /// The topology name, which names the checkpoint records of this genome.
    pub fn network_name(&self) -> (r: &str)
        ensures
            r@ == self@.network,
    {
        self.network.as_str()
    }
}

/// Whether two genomes have the same ordered layers with the same names and dimensions.
pub fn shapes_match<T: Copy>(a: &Genome<T>, b: &Genome<T>) -> (r: bool)
    ensures
        r == same_shape(a@, b@),
{
    if a.layers.len() != b.layers.len() {
        assert(a@.shape().len() != b@.shape().len());
        return false;
    }
    let mut i: usize = 0;
    while i < a.layers.len()
        invariant
            a.layers@.len() == b.layers@.len(),
            i <= a.layers@.len(),
            forall|k: int| 0 <= k < i ==> #[trigger] a@.shape()[k] == b@.shape()[k],
        decreases a.layers@.len() - i,
    {
        let la = &a.layers[i];
        let lb = &b.layers[i];
        if !(la.name == lb.name && la.d_input == lb.d_input && la.d_output == lb.d_output
            && la.bias.is_some() == lb.bias.is_some()) {
            assert(a@.shape()[i as int] != b@.shape()[i as int]);
            return false;
        }
        i = i + 1;
    }
    assert(a@.shape() =~= b@.shape());
    true
}

} // verus!
