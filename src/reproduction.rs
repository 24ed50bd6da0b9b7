use vstd::prelude::*;

use crate::chance::random_below;
use crate::error::EngineError;
use crate::genome::{same_shape, shapes_match, Genome, GenomeModel, Layer};
use crate::operators::{
    average_bw_linear, combine_bw_linear, interleave_bw_linear, jiggle_linear, layer_averaged,
    layer_combined, layer_interleaved, layer_perturbed,
};

verus! {

/// `dst` is `src` with every weight and bias entry put through `noise`.
pub open spec fn genome_perturbed<T, F: Fn(T) -> T>(
    src: GenomeModel<T>,
    dst: GenomeModel<T>,
    noise: F,
) -> bool {
    &&& dst.network == src.network
    &&& dst.layers.len() == src.layers.len()
    &&& forall|l: int|
        0 <= l < src.layers.len() ==> layer_perturbed(src.layers[l], #[trigger] dst.layers[l], noise)
}

/// Layer by layer, `r` has the weights of `a` and the biases of `b`.
pub open spec fn combined<T>(a: GenomeModel<T>, b: GenomeModel<T>, r: GenomeModel<T>) -> bool {
    &&& r.network == a.network
    &&& r.layers.len() == a.layers.len()
    &&& forall|l: int|
        0 <= l < a.layers.len() ==> layer_combined(a.layers[l], b.layers[l], #[trigger] r.layers[l])
}

/// Every entry of `r` is the entry of `a` or that of `b` at the same place.
pub open spec fn interleaved<T>(a: GenomeModel<T>, b: GenomeModel<T>, r: GenomeModel<T>) -> bool {
    &&& r.network == a.network
    &&& r.layers.len() == a.layers.len()
    &&& forall|l: int|
        0 <= l < a.layers.len() ==> layer_interleaved(a.layers[l], b.layers[l], #[trigger] r.layers[l])
}

/// Every entry of `r` is the `mean` of the entries of `a` and `b` at the same place.
pub open spec fn averaged_genomes<T, M: Fn(T, T) -> T>(
    a: GenomeModel<T>,
    b: GenomeModel<T>,
    r: GenomeModel<T>,
    mean: M,
) -> bool {
    &&& r.network == a.network
    &&& r.layers.len() == a.layers.len()
    &&& forall|l: int|
        0 <= l < a.layers.len() ==> layer_averaged(
            a.layers[l],
            b.layers[l],
            #[trigger] r.layers[l],
            mean,
        )
}

/// Whole layers alternate between the parents: even positions from `a`, odd ones from `b`.
pub open spec fn layers_swapped<T>(a: GenomeModel<T>, b: GenomeModel<T>, r: GenomeModel<T>) -> bool {
    &&& r.network == a.network
    &&& r.layers.len() == a.layers.len()
    &&& forall|l: int|
        0 <= l < a.layers.len() ==> #[trigger] r.layers[l] == if l % 2 == 0 {
            a.layers[l]
        } else {
            b.layers[l]
        }
}

/// The ways of producing one offspring from a mother and a father.
#[derive(Clone, Copy, Debug, PartialEq, Eq, Structural)]
pub enum Reproduction {
    Interleave,
    Average,
    Combine,
    LayerSwap,
    JiggleMother,
    JiggleFather,
}

/// `r` is what `mode` makes of mother `m` and father `f`: the crossover, then noise on
/// every entry.
pub open spec fn bred_by<T, F: Fn(T) -> T, M: Fn(T, T) -> T>(
    mode: Reproduction,
    m: GenomeModel<T>,
    f: GenomeModel<T>,
    r: GenomeModel<T>,
    noise: F,
    mean: M,
) -> bool {
    match mode {
        Reproduction::Interleave => exists|c: GenomeModel<T>|
            #[trigger] interleaved(m, f, c) && genome_perturbed(c, r, noise),
        Reproduction::Average => exists|c: GenomeModel<T>|
            #[trigger] averaged_genomes(m, f, c, mean) && genome_perturbed(c, r, noise),
        Reproduction::Combine => exists|c: GenomeModel<T>|
            #[trigger] combined(m, f, c) && genome_perturbed(c, r, noise),
        Reproduction::LayerSwap => exists|c: GenomeModel<T>|
            #[trigger] layers_swapped(m, f, c) && genome_perturbed(c, r, noise),
        Reproduction::JiggleMother => genome_perturbed(m, r, noise),
        Reproduction::JiggleFather => genome_perturbed(f, r, noise),
    }
}

/// `r` is an offspring of `m` and `f` by one of the reproduction modes.
pub open spec fn offspring_of<T, F: Fn(T) -> T, M: Fn(T, T) -> T>(
    m: GenomeModel<T>,
    f: GenomeModel<T>,
    r: GenomeModel<T>,
    noise: F,
    mean: M,
) -> bool {
    exists|mode: Reproduction| #[trigger] bred_by(mode, m, f, r, noise, mean)
}

proof fn lemma_layer_shapes<T>(a: GenomeModel<T>, b: GenomeModel<T>, l: int)
    requires
        same_shape(a, b),
        0 <= l < a.layers.len(),
    ensures
        a.layers.len() == b.layers.len(),
        a.layers[l].shape() == b.layers[l].shape(),
{
    assert(a.shape().len() == b.shape().len());
    assert(a.shape()[l] == b.shape()[l]);
}

proof fn lemma_same_shape_by_layers<T>(a: GenomeModel<T>, r: GenomeModel<T>)
    requires
        r.layers.len() == a.layers.len(),
        forall|l: int| 0 <= l < a.layers.len() ==> (#[trigger] r.layers[l]).shape() == a.layers[l].shape(),
    ensures
        same_shape(r, a),
{
    assert(r.shape() =~= a.shape());
}

impl<T: Copy> Genome<T> {
    /// Adds noise to every weight and bias entry; the topology is kept.
    pub fn jiggle<F: Fn(T) -> T>(&self, noise: &F) -> (r: Genome<T>)
        requires
            forall|x: T| noise.requires((x,)),
        ensures
            genome_perturbed(self@, r@, *noise),
            same_shape(r@, self@),
            self@.wf() ==> r@.wf(),
    {
        let mut layers: Vec<Layer<T>> = Vec::with_capacity(self.layers.len());
        let mut i: usize = 0;
        while i < self.layers.len()
            invariant
                i <= self.layers@.len(),
                layers@.len() == i,
                forall|x: T| noise.requires((x,)),
                forall|k: int|
                    0 <= k < i ==> layer_perturbed(self@.layers[k], #[trigger] layers@[k]@, *noise),
                forall|k: int| 0 <= k < i ==> self@.wf() ==> (#[trigger] layers@[k]@).wf(),
            decreases self.layers@.len() - i,
        {
            proof {
                if self@.wf() {
                    assert(self@.layers[i as int].wf());
                }
            }
            layers.push(jiggle_linear(&self.layers[i], noise));
            i = i + 1;
        }
        let r = Genome { network: self.network.clone(), layers };
        assert forall|l: int| 0 <= l < self@.layers.len() implies (#[trigger] r@.layers[l]).shape()
            == self@.layers[l].shape() by {
            assert(layer_perturbed(self@.layers[l], layers@[l]@, *noise));
        }
        proof {
            lemma_same_shape_by_layers(self@, r@);
        }
        r
    }

    /// Per layer, the weights of `self` and the bias of `other`.
    pub fn combine(&self, other: &Genome<T>) -> (r: Result<Genome<T>, EngineError>)
        requires
            self@.wf(),
            other@.wf(),
        ensures
            match r {
                Ok(c) => same_shape(self@, other@) && combined(self@, other@, c@) && same_shape(
                    c@,
                    self@,
                ) && c@.wf(),
                Err(e) => !same_shape(self@, other@) && e == EngineError::ShapeMismatch,
            },
    {
        if !shapes_match(self, other) {
            return Err(EngineError::ShapeMismatch);
        }
        let mut layers: Vec<Layer<T>> = Vec::with_capacity(self.layers.len());
        let mut i: usize = 0;
        while i < self.layers.len()
            invariant
                same_shape(self@, other@),
                self@.wf(),
                other@.wf(),
                i <= self.layers@.len(),
                layers@.len() == i,
                forall|k: int|
                    0 <= k < i ==> layer_combined(
                        self@.layers[k],
                        other@.layers[k],
                        #[trigger] layers@[k]@,
                    ),
                forall|k: int| 0 <= k < i ==> (#[trigger] layers@[k]@).wf(),
            decreases self.layers@.len() - i,
        {
            proof {
                lemma_layer_shapes(self@, other@, i as int);
            }
            layers.push(combine_bw_linear(&self.layers[i], &other.layers[i]));
            i = i + 1;
        }
        let r = Genome { network: self.network.clone(), layers };
        assert forall|l: int| 0 <= l < self@.layers.len() implies (#[trigger] r@.layers[l]).shape()
            == self@.layers[l].shape() by {
            assert(layer_combined(self@.layers[l], other@.layers[l], layers@[l]@));
        }
        proof {
            lemma_same_shape_by_layers(self@, r@);
        }
        Ok(r)
    }

    /// Per layer, every weight and bias entry from `self` or `other` by a fair coin.
    pub fn interleave_with(&self, other: &Genome<T>) -> (r: Result<Genome<T>, EngineError>)
        requires
            self@.wf(),
            other@.wf(),
        ensures
            match r {
                Ok(c) => same_shape(self@, other@) && interleaved(self@, other@, c@) && same_shape(
                    c@,
                    self@,
                ) && c@.wf(),
                Err(e) => !same_shape(self@, other@) && e == EngineError::ShapeMismatch,
            },
    {
        if !shapes_match(self, other) {
            return Err(EngineError::ShapeMismatch);
        }
        let mut layers: Vec<Layer<T>> = Vec::with_capacity(self.layers.len());
        let mut i: usize = 0;
        while i < self.layers.len()
            invariant
                same_shape(self@, other@),
                self@.wf(),
                other@.wf(),
                i <= self.layers@.len(),
                layers@.len() == i,
                forall|k: int|
                    0 <= k < i ==> layer_interleaved(
                        self@.layers[k],
                        other@.layers[k],
                        #[trigger] layers@[k]@,
                    ),
                forall|k: int| 0 <= k < i ==> (#[trigger] layers@[k]@).wf(),
            decreases self.layers@.len() - i,
        {
            proof {
                lemma_layer_shapes(self@, other@, i as int);
            }
            layers.push(interleave_bw_linear(&self.layers[i], &other.layers[i]));
            i = i + 1;
        }
        let r = Genome { network: self.network.clone(), layers };
        assert forall|l: int| 0 <= l < self@.layers.len() implies (#[trigger] r@.layers[l]).shape()
            == self@.layers[l].shape() by {
            assert(layer_interleaved(self@.layers[l], other@.layers[l], layers@[l]@));
        }
        proof {
            lemma_same_shape_by_layers(self@, r@);
        }
        Ok(r)
    }

    /// Per layer, every weight and bias entry the `mean` of those of `self` and `other`.
    pub fn average_with<M: Fn(T, T) -> T>(&self, other: &Genome<T>, mean: &M) -> (r: Result<
        Genome<T>,
        EngineError,
    >)
        requires
            self@.wf(),
            other@.wf(),
            forall|x: T, y: T| mean.requires((x, y)),
        ensures
            match r {
                Ok(c) => same_shape(self@, other@) && averaged_genomes(self@, other@, c@, *mean)
                    && same_shape(c@, self@) && c@.wf(),
                Err(e) => !same_shape(self@, other@) && e == EngineError::ShapeMismatch,
            },
    {
        if !shapes_match(self, other) {
            return Err(EngineError::ShapeMismatch);
        }
        let mut layers: Vec<Layer<T>> = Vec::with_capacity(self.layers.len());
        let mut i: usize = 0;
        while i < self.layers.len()
            invariant
                same_shape(self@, other@),
                self@.wf(),
                other@.wf(),
                forall|x: T, y: T| mean.requires((x, y)),
                i <= self.layers@.len(),
                layers@.len() == i,
                forall|k: int|
                    0 <= k < i ==> layer_averaged(
                        self@.layers[k],
                        other@.layers[k],
                        #[trigger] layers@[k]@,
                        *mean,
                    ),
                forall|k: int| 0 <= k < i ==> (#[trigger] layers@[k]@).wf(),
            decreases self.layers@.len() - i,
        {
            proof {
                lemma_layer_shapes(self@, other@, i as int);
            }
            layers.push(average_bw_linear(&self.layers[i], &other.layers[i], mean));
            i = i + 1;
        }
        let r = Genome { network: self.network.clone(), layers };
        assert forall|l: int| 0 <= l < self@.layers.len() implies (#[trigger] r@.layers[l]).shape()
            == self@.layers[l].shape() by {
            assert(layer_averaged(self@.layers[l], other@.layers[l], layers@[l]@, *mean));
        }
        proof {
            lemma_same_shape_by_layers(self@, r@);
        }
        Ok(r)
    }

    /// Whole layers alternately from `self` (first, third, ...) and `other` (second, ...).
    pub fn layer_swap(&self, other: &Genome<T>) -> (r: Result<Genome<T>, EngineError>)
        requires
            self@.wf(),
            other@.wf(),
        ensures
            match r {
                Ok(c) => same_shape(self@, other@) && layers_swapped(self@, other@, c@) && same_shape(
                    c@,
                    self@,
                ) && c@.wf(),
                Err(e) => !same_shape(self@, other@) && e == EngineError::ShapeMismatch,
            },
    {
        if !shapes_match(self, other) {
            return Err(EngineError::ShapeMismatch);
        }
        let mut layers: Vec<Layer<T>> = Vec::with_capacity(self.layers.len());
        let mut i: usize = 0;
        while i < self.layers.len()
            invariant
                same_shape(self@, other@),
                self@.wf(),
                other@.wf(),
                i <= self.layers@.len(),
                layers@.len() == i,
                forall|k: int|
                    0 <= k < i ==> #[trigger] layers@[k]@ == if k % 2 == 0 {
                        self@.layers[k]
                    } else {
                        other@.layers[k]
                    },
            decreases self.layers@.len() - i,
        {
            proof {
                lemma_layer_shapes(self@, other@, i as int);
            }
            if i % 2 == 0 {
                layers.push(self.layers[i].duplicate());
            } else {
                layers.push(other.layers[i].duplicate());
            }
            i = i + 1;
        }
        let r = Genome { network: self.network.clone(), layers };
        assert forall|l: int| 0 <= l < self@.layers.len() implies (#[trigger] r@.layers[l]).shape()
            == self@.layers[l].shape() && r@.layers[l].wf() by {
            lemma_layer_shapes(self@, other@, l);
            assert(r@.layers[l] == layers@[l]@);
        }
        proof {
            lemma_same_shape_by_layers(self@, r@);
        }
        Ok(r)
    }
}

/// Relative weight of interleaving in the choice of a reproduction mode.
pub const INTERLEAVE_WEIGHT: usize = 5;

/// Relative weight of averaging.
pub const AVERAGE_WEIGHT: usize = 4;

/// Relative weight of combining weights of the mother with biases of the father.
pub const COMBINE_WEIGHT: usize = 1;

/// Relative weight of swapping whole layers.
pub const LAYER_SWAP_WEIGHT: usize = 1;

/// Relative weight of perturbing the mother alone.
pub const JIGGLE_MOTHER_WEIGHT: usize = 2;

/// Relative weight of perturbing the father alone.
pub const JIGGLE_FATHER_WEIGHT: usize = 2;

/// Sum of all reproduction weights: a ticket is drawn below it.
pub const TOTAL_WEIGHT: usize = INTERLEAVE_WEIGHT + AVERAGE_WEIGHT + COMBINE_WEIGHT
    + LAYER_SWAP_WEIGHT + JIGGLE_MOTHER_WEIGHT + JIGGLE_FATHER_WEIGHT;

/// The mode that a ticket drawn below `TOTAL_WEIGHT` selects: each mode owns a run of
/// consecutive tickets as long as its weight, in the order of the table above.
pub open spec fn reproduction_for(ticket: int) -> Reproduction {
    if ticket < INTERLEAVE_WEIGHT {
        Reproduction::Interleave
    } else if ticket < INTERLEAVE_WEIGHT + AVERAGE_WEIGHT {
        Reproduction::Average
    } else if ticket < INTERLEAVE_WEIGHT + AVERAGE_WEIGHT + COMBINE_WEIGHT {
        Reproduction::Combine
    } else if ticket < INTERLEAVE_WEIGHT + AVERAGE_WEIGHT + COMBINE_WEIGHT + LAYER_SWAP_WEIGHT {
        Reproduction::LayerSwap
    } else if ticket < INTERLEAVE_WEIGHT + AVERAGE_WEIGHT + COMBINE_WEIGHT + LAYER_SWAP_WEIGHT
        + JIGGLE_MOTHER_WEIGHT {
        Reproduction::JiggleMother
    } else {
        Reproduction::JiggleFather
    }
}

/// The reproduction mode that a ticket below `TOTAL_WEIGHT` selects.
pub fn reproduction_for_ticket(ticket: usize) -> (r: Reproduction)
    requires
        ticket < TOTAL_WEIGHT,
    ensures
        r == reproduction_for(ticket as int),
{
    if ticket < INTERLEAVE_WEIGHT {
        Reproduction::Interleave
    } else if ticket < INTERLEAVE_WEIGHT + AVERAGE_WEIGHT {
        Reproduction::Average
    } else if ticket < INTERLEAVE_WEIGHT + AVERAGE_WEIGHT + COMBINE_WEIGHT {
        Reproduction::Combine
    } else if ticket < INTERLEAVE_WEIGHT + AVERAGE_WEIGHT + COMBINE_WEIGHT + LAYER_SWAP_WEIGHT {
        Reproduction::LayerSwap
    } else if ticket < INTERLEAVE_WEIGHT + AVERAGE_WEIGHT + COMBINE_WEIGHT + LAYER_SWAP_WEIGHT
        + JIGGLE_MOTHER_WEIGHT {
        Reproduction::JiggleMother
    } else {
        Reproduction::JiggleFather
    }
}

impl<T: Copy> Genome<T> {
    /// Combines (weights of `self`, biases of `other_parent`), then adds noise.
    pub fn offspring<F: Fn(T) -> T>(&self, other_parent: &Genome<T>, noise: &F) -> (r: Result<
        Genome<T>,
        EngineError,
    >)
        requires
            self@.wf(),
            other_parent@.wf(),
            forall|x: T| noise.requires((x,)),
        ensures
            match r {
                Ok(c) => same_shape(self@, other_parent@) && same_shape(c@, self@) && c@.wf() && exists|
                    x: GenomeModel<T>,
                |
                    #[trigger] combined(self@, other_parent@, x) && genome_perturbed(x, c@, *noise),
                Err(e) => !same_shape(self@, other_parent@) && e == EngineError::ShapeMismatch,
            },
    {
        match self.combine(other_parent) {
            Ok(x) => {
                let c = x.jiggle(noise);
                assert(combined(self@, other_parent@, x@) && genome_perturbed(x@, c@, *noise));
                Ok(c)
            },
            Err(e) => Err(e),
        }
    }

    /// Interleaves with `other_parent` entry by entry, then adds noise.
    pub fn offspring_iw<F: Fn(T) -> T>(&self, other_parent: &Genome<T>, noise: &F) -> (r: Result<
        Genome<T>,
        EngineError,
    >)
        requires
            self@.wf(),
            other_parent@.wf(),
            forall|x: T| noise.requires((x,)),
        ensures
            match r {
                Ok(c) => same_shape(self@, other_parent@) && same_shape(c@, self@) && c@.wf() && exists|
                    x: GenomeModel<T>,
                |
                    #[trigger] interleaved(self@, other_parent@, x) && genome_perturbed(x, c@, *noise),
                Err(e) => !same_shape(self@, other_parent@) && e == EngineError::ShapeMismatch,
            },
    {
        match self.interleave_with(other_parent) {
            Ok(x) => {
                let c = x.jiggle(noise);
                assert(interleaved(self@, other_parent@, x@) && genome_perturbed(x@, c@, *noise));
                Ok(c)
            },
            Err(e) => Err(e),
        }
    }

    /// Averages with `other_parent` entry by entry, then adds noise.
    pub fn offspring_aw<F: Fn(T) -> T, M: Fn(T, T) -> T>(
        &self,
        other_parent: &Genome<T>,
        noise: &F,
        mean: &M,
    ) -> (r: Result<Genome<T>, EngineError>)
        requires
            self@.wf(),
            other_parent@.wf(),
            forall|x: T| noise.requires((x,)),
            forall|x: T, y: T| mean.requires((x, y)),
        ensures
            match r {
                Ok(c) => same_shape(self@, other_parent@) && same_shape(c@, self@) && c@.wf() && exists|
                    x: GenomeModel<T>,
                |
                    #[trigger] averaged_genomes(self@, other_parent@, x, *mean) && genome_perturbed(
                        x,
                        c@,
                        *noise,
                    ),
                Err(e) => !same_shape(self@, other_parent@) && e == EngineError::ShapeMismatch,
            },
    {
        match self.average_with(other_parent, mean) {
            Ok(x) => {
                let c = x.jiggle(noise);
                assert(averaged_genomes(self@, other_parent@, x@, *mean) && genome_perturbed(
                    x@,
                    c@,
                    *noise,
                ));
                Ok(c)
            },
            Err(e) => Err(e),
        }
    }

    /// Swaps whole layers with `other_parent` alternately, then adds noise.
    pub fn offspring_layers<F: Fn(T) -> T>(&self, other_parent: &Genome<T>, noise: &F) -> (r:
        Result<Genome<T>, EngineError>)
        requires
            self@.wf(),
            other_parent@.wf(),
            forall|x: T| noise.requires((x,)),
        ensures
            match r {
                Ok(c) => same_shape(self@, other_parent@) && same_shape(c@, self@) && c@.wf() && exists|
                    x: GenomeModel<T>,
                |
                    #[trigger] layers_swapped(self@, other_parent@, x) && genome_perturbed(x, c@, *noise),
                Err(e) => !same_shape(self@, other_parent@) && e == EngineError::ShapeMismatch,
            },
    {
        match self.layer_swap(other_parent) {
            Ok(x) => {
                let c = x.jiggle(noise);
                assert(layers_swapped(self@, other_parent@, x@) && genome_perturbed(x@, c@, *noise));
                Ok(c)
            },
            Err(e) => Err(e),
        }
    }
}

/// Produces one offspring of `mother` and `father` by the given mode.
pub fn breed<T: Copy, F: Fn(T) -> T, M: Fn(T, T) -> T>(
    mode: Reproduction,
    mother: &Genome<T>,
    father: &Genome<T>,
    noise: &F,
    mean: &M,
) -> (r: Result<Genome<T>, EngineError>)
    requires
        mother@.wf(),
        father@.wf(),
        forall|x: T| noise.requires((x,)),
        forall|x: T, y: T| mean.requires((x, y)),
    ensures
        match r {
            Ok(c) => same_shape(mother@, father@) && same_shape(c@, mother@) && c@.wf() && bred_by(
                mode,
                mother@,
                father@,
                c@,
                *noise,
                *mean,
            ),
            Err(e) => !same_shape(mother@, father@) && e == EngineError::ShapeMismatch,
        },
{
    match mode {
        Reproduction::Interleave => mother.offspring_iw(father, noise),
        Reproduction::Average => mother.offspring_aw(father, noise, mean),
        Reproduction::Combine => mother.offspring(father, noise),
        Reproduction::LayerSwap => mother.offspring_layers(father, noise),
        Reproduction::JiggleMother => {
            if !shapes_match(mother, father) {
                return Err(EngineError::ShapeMismatch);
            }
            Ok(mother.jiggle(noise))
        },
        Reproduction::JiggleFather => {
            if !shapes_match(mother, father) {
                return Err(EngineError::ShapeMismatch);
            }
            Ok(father.jiggle(noise))
        },
    }
}

/// Produces one offspring by a mode drawn from the weighted table.
pub fn make_offspring<T: Copy, F: Fn(T) -> T, M: Fn(T, T) -> T>(
    mother: &Genome<T>,
    father: &Genome<T>,
    noise: &F,
    mean: &M,
) -> (r: Result<Genome<T>, EngineError>)
    requires
        mother@.wf(),
        father@.wf(),
        forall|x: T| noise.requires((x,)),
        forall|x: T, y: T| mean.requires((x, y)),
    ensures
        match r {
            Ok(c) => same_shape(mother@, father@) && same_shape(c@, mother@) && c@.wf()
                && offspring_of(mother@, father@, c@, *noise, *mean),
            Err(e) => !same_shape(mother@, father@) && e == EngineError::ShapeMismatch,
        },
{
    let mode = reproduction_for_ticket(random_below(TOTAL_WEIGHT));
    breed(mode, mother, father, noise, mean)
}

} // verus!
