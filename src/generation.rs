use vstd::prelude::*;

use crate::chance::make_distinct;
use crate::error::EngineError;
use crate::fitness::{fitness_is_valid, is_ranked, is_valid_fitness};
use crate::genome::{same_shape, shapes_match, Genome, GenomeModel};
use crate::reproduction::{make_offspring, offspring_of};

verus! {

/// The models of a sequence of genomes.
pub open spec fn models<T>(v: Seq<Genome<T>>) -> Seq<GenomeModel<T>> {
    v.map_values(|g: Genome<T>| g@)
}

/// The models of a sequence of scored genomes.
pub open spec fn scored_models<T>(v: Seq<(u32, Genome<T>)>) -> Seq<(u32, GenomeModel<T>)> {
    v.map_values(|p: (u32, Genome<T>)| (p.0, p.1@))
}

/// How many of `population` genomes survive as elites when `elite_percent` hundredths do.
pub open spec fn elites_of(population: nat, elite_percent: nat) -> nat {
    population * elite_percent / 100
}

/// The number of elites: `elite_percent` hundredths of the population, rounded down.
pub fn elite_count(population: usize, elite_percent: usize) -> (r: usize)
    requires
        elite_percent <= 100,
    ensures
        r == elites_of(population as nat, elite_percent as nat),
        r <= population,
{
    let p = population as u128;
    let e = elite_percent as u128;
    proof {
        assert(p * e <= p * 100) by (nonlinear_arith)
            requires
                e <= 100,
        ;
    }
    let r = p * e / 100;
    assert(r <= p);
    r as usize
}

/// A population of `n` can be bred from: it is not empty, and where slots are left for
/// offspring after the elites and `randoms` fresh genomes, there are two elites to be
/// their parents.
pub open spec fn can_breed(n: nat, elite_percent: nat, randoms: nat) -> bool {
    &&& n > 0
    &&& elites_of(n, elite_percent) + randoms < n ==> elites_of(n, elite_percent) >= 2
}

/// The first broken invariant of a generation request, checked in this order: a score
/// that is no non-negative finite number, more elites and fresh genomes than slots, and
/// an elite or fresh genome whose topology differs from the best genome's.
pub open spec fn generation_error<T>(
    scored: Seq<(u32, GenomeModel<T>)>,
    randoms: Seq<GenomeModel<T>>,
    elite_percent: nat,
) -> Option<EngineError> {
    let n = scored.len();
    let e = elites_of(n, elite_percent);
    if exists|i: int| 0 <= i < n && !is_valid_fitness(#[trigger] scored[i].0) {
        Some(EngineError::NonFiniteFitness)
    } else if e + randoms.len() > n {
        Some(EngineError::TooManyRandoms)
    } else if (exists|i: int| 0 <= i < e && !same_shape(#[trigger] scored[i].1, scored[0].1)) || (
    exists|j: int| 0 <= j < randoms.len() && !same_shape(#[trigger] randoms[j], scored[0].1)) {
        Some(EngineError::ShapeMismatch)
    } else {
        None
    }
}

/// `child` is an offspring of two distinct genomes among the first `e` of `scored`.
pub open spec fn bred_from_elites<T, F: Fn(T) -> T, M: Fn(T, T) -> T>(
    scored: Seq<(u32, GenomeModel<T>)>,
    e: nat,
    child: GenomeModel<T>,
    noise: F,
    mean: M,
) -> bool {
    exists|m: int, f: int|
        0 <= m < e && 0 <= f < e && m != f && #[trigger] offspring_of(
            scored[m].1,
            scored[f].1,
            child,
            noise,
            mean,
        )
}

/// `next` is a generation bred from the ranked `scored`: first the fresh genomes, then
/// one offspring of two distinct elites for each remaining slot, then the elites
/// themselves, unchanged and best first; all of the best genome's topology.
pub open spec fn is_next_generation<T, F: Fn(T) -> T, M: Fn(T, T) -> T>(
    scored: Seq<(u32, GenomeModel<T>)>,
    randoms: Seq<GenomeModel<T>>,
    elite_percent: nat,
    next: Seq<GenomeModel<T>>,
    noise: F,
    mean: M,
) -> bool {
    let n = scored.len();
    let e = elites_of(n, elite_percent);
    let k = randoms.len();
    &&& next.len() == n
    &&& forall|j: int| 0 <= j < k ==> #[trigger] next[j] == randoms[j]
    &&& forall|j: int|
        k <= j < n - e ==> bred_from_elites(scored, e as nat, #[trigger] next[j], noise, mean)
    &&& forall|j: int| 0 <= j < e ==> #[trigger] next[n - e + j] == scored[j].1
    &&& forall|j: int| 0 <= j < n ==> (#[trigger] next[j]).wf() && same_shape(next[j], scored[0].1)
}

/// Breeds the next generation from scored genomes ranked best first: the top
/// `elite_percent` hundredths survive unchanged, `randoms` (freshly initialised genomes)
/// are added, and every other slot gets an offspring of two distinct elites drawn at
/// random, made by a reproduction mode drawn from the weighted table. The population
/// keeps its size.
pub fn make_new_generation<T: Copy, F: Fn(T) -> T, M: Fn(T, T) -> T>(
    ais_w_score: Vec<(u32, Genome<T>)>,
    randoms: Vec<Genome<T>>,
    elite_percent: usize,
    noise: &F,
    mean: &M,
) -> (r: Result<Vec<Genome<T>>, EngineError>)
    requires
        elite_percent <= 100,
        can_breed(ais_w_score@.len(), elite_percent as nat, randoms@.len()),
        is_ranked(ais_w_score@),
        forall|i: int| 0 <= i < ais_w_score@.len() ==> (#[trigger] ais_w_score@[i]).1@.wf(),
        forall|j: int| 0 <= j < randoms@.len() ==> (#[trigger] randoms@[j])@.wf(),
        forall|x: T| noise.requires((x,)),
        forall|x: T, y: T| mean.requires((x, y)),
    ensures
        match r {
            Ok(next) => generation_error(scored_models(ais_w_score@), models(randoms@), elite_percent as nat)
                is None && is_next_generation(
                scored_models(ais_w_score@),
                models(randoms@),
                elite_percent as nat,
                models(next@),
                *noise,
                *mean,
            ),
            Err(e) => generation_error(scored_models(ais_w_score@), models(randoms@), elite_percent as nat)
                == Some(e),
        },
{
    let ghost sc = scored_models(ais_w_score@);
    let ghost rs = models(randoms@);
    let n = ais_w_score.len();
    let mut i: usize = 0;
    while i < n
        invariant
            n == ais_w_score@.len(),
            sc == scored_models(ais_w_score@),
            i <= n,
            forall|k: int| 0 <= k < i ==> is_valid_fitness(#[trigger] sc[k].0),
        decreases n - i,
    {
        if !fitness_is_valid(ais_w_score[i].0) {
            assert(!is_valid_fitness(sc[i as int].0));
            return Err(EngineError::NonFiniteFitness);
        }
        i = i + 1;
    }
    let e = elite_count(n, elite_percent);
    if randoms.len() > n - e {
        return Err(EngineError::TooManyRandoms);
    }
    let slots = n - e - randoms.len();
    let mut i: usize = 0;
    while i < e
        invariant
            n == ais_w_score@.len(),
            sc == scored_models(ais_w_score@),
            e <= n,
            0 < n,
            i <= e,
            e == elites_of(n as nat, elite_percent as nat),
            e + randoms@.len() <= n,
            !(e + randoms@.len() < n && e < 2),
            rs == models(randoms@),
            forall|k: int| 0 <= k < n ==> is_valid_fitness(#[trigger] sc[k].0),
            forall|k: int| 0 <= k < i ==> same_shape(#[trigger] sc[k].1, sc[0].1),
        decreases e - i,
    {
        if !shapes_match(&ais_w_score[i].1, &ais_w_score[0].1) {
            assert(!same_shape(sc[i as int].1, sc[0].1));
            return Err(EngineError::ShapeMismatch);
        }
        i = i + 1;
    }
    let mut j: usize = 0;
    while j < randoms.len()
        invariant
            n == ais_w_score@.len(),
            sc == scored_models(ais_w_score@),
            rs == models(randoms@),
            0 < n,
            j <= randoms@.len(),
            e == elites_of(n as nat, elite_percent as nat),
            e + randoms@.len() <= n,
            !(e + randoms@.len() < n && e < 2),
            forall|k: int| 0 <= k < n ==> is_valid_fitness(#[trigger] sc[k].0),
            forall|k: int| 0 <= k < e ==> same_shape(#[trigger] sc[k].1, sc[0].1),
            forall|k: int| 0 <= k < j ==> same_shape(#[trigger] rs[k], sc[0].1),
        decreases randoms@.len() - j,
    {
        if !shapes_match(&randoms[j], &ais_w_score[0].1) {
            assert(!same_shape(rs[j as int], sc[0].1));
            return Err(EngineError::ShapeMismatch);
        }
        j = j + 1;
    }
    assert(generation_error(sc, rs, elite_percent as nat) is None);
    let mut best_ones: Vec<Genome<T>> = Vec::with_capacity(e);
    let mut i: usize = 0;
    while i < e
        invariant
            n == ais_w_score@.len(),
            sc == scored_models(ais_w_score@),
            e <= n,
            i <= e,
            best_ones@.len() == i,
            forall|k: int| 0 <= k < i ==> (#[trigger] best_ones@[k])@ == sc[k].1,
        decreases e - i,
    {
        best_ones.push(ais_w_score[i].1.duplicate());
        i = i + 1;
    }
    let k = randoms.len();
    proof {
        assert forall|j: int| 0 <= j < k implies (#[trigger] randoms@[j])@.wf() && same_shape(
            randoms@[j]@,
            sc[0].1,
        ) by {
            assert(rs[j] == randoms@[j]@);
        }
    }
    let mut next = randoms;
    let mut s: usize = 0;
    while s < slots
        invariant
            n == ais_w_score@.len(),
            sc == scored_models(ais_w_score@),
            generation_error(sc, rs, elite_percent as nat) is None,
            e == elites_of(n as nat, elite_percent as nat),
            slots == n - e - k,
            k == rs.len(),
            slots > 0 ==> e >= 2,
            best_ones@.len() == e,
            forall|m: int| 0 <= m < e ==> (#[trigger] best_ones@[m])@ == sc[m].1,
            forall|i: int| 0 <= i < n ==> (#[trigger] ais_w_score@[i]).1@.wf(),
            forall|x: T| noise.requires((x,)),
            forall|x: T, y: T| mean.requires((x, y)),
            s <= slots,
            next@.len() == k + s,
            forall|j: int| 0 <= j < k ==> (#[trigger] next@[j])@ == rs[j],
            forall|j: int|
                k <= j < k + s ==> bred_from_elites(sc, e as nat, #[trigger] next@[j]@, *noise, *mean),
            forall|j: int| 0 <= j < k + s ==> (#[trigger] next@[j])@.wf() && same_shape(next@[j]@, sc[0].1),
        decreases slots - s,
    {
        let (m, f) = make_distinct(e);
        proof {
            assert(sc[m as int].1 == ais_w_score@[m as int].1@);
            assert(sc[f as int].1 == ais_w_score@[f as int].1@);
            assert(same_shape(sc[m as int].1, sc[0].1));
            assert(same_shape(sc[f as int].1, sc[0].1));
        }
        let child = make_offspring(&best_ones[m], &best_ones[f], noise, mean);
        match child {
            Ok(c) => {
                next.push(c);
                assert(offspring_of(sc[m as int].1, sc[f as int].1, next@[k + s]@, *noise, *mean));
            },
            Err(err) => {
                return Err(err);
            },
        }
        s = s + 1;
    }
    let mut i: usize = 0;
    while i < e
        invariant
            n == ais_w_score@.len(),
            sc == scored_models(ais_w_score@),
            e == elites_of(n as nat, elite_percent as nat),
            e <= n,
            k + slots + e == n,
            k == rs.len(),
            best_ones@.len() == e,
            forall|m: int| 0 <= m < e ==> (#[trigger] best_ones@[m])@ == sc[m].1,
            forall|i: int| 0 <= i < n ==> (#[trigger] ais_w_score@[i]).1@.wf(),
            forall|m: int| 0 <= m < e ==> same_shape(#[trigger] sc[m].1, sc[0].1),
            i <= e,
            next@.len() == k + slots + i,
            forall|j: int| 0 <= j < k ==> (#[trigger] next@[j])@ == rs[j],
            forall|j: int|
                k <= j < k + slots ==> bred_from_elites(sc, e as nat, #[trigger] next@[j]@, *noise, *mean),
            forall|j: int| 0 <= j < i ==> (#[trigger] next@[n - e + j])@ == sc[j].1,
            forall|j: int| 0 <= j < k + slots + i ==> (#[trigger] next@[j])@.wf() && same_shape(next@[j]@, sc[0].1),
        decreases e - i,
    {
        proof {
            assert(sc[i as int].1 == ais_w_score@[i as int].1@);
        }
        next.push(best_ones[i].duplicate());
        i = i + 1;
    }
    proof {
        let nm = models(next@);
        assert forall|j: int| 0 <= j < k implies #[trigger] nm[j] == rs[j] by {}
        assert forall|j: int| 0 <= j < e implies #[trigger] nm[n - e + j] == sc[j].1 by {
            assert(nm[n - e + j] == next@[n - e + j]@);
        }
        assert forall|j: int| k <= j < n - e implies bred_from_elites(sc, e as nat, #[trigger] nm[j], *noise, *mean) by {
            assert(nm[j] == next@[j]@);
        }
        assert forall|j: int| 0 <= j < n implies (#[trigger] nm[j]).wf() && same_shape(nm[j], sc[0].1) by {
            assert(nm[j] == next@[j]@);
        }
    }
    Ok(next)
}

/// No score in `scored` exceeds `x`.
pub open spec fn bounds_all_scores<G>(scored: Seq<(u32, G)>, x: u32) -> bool {
    forall|i: int| 0 <= i < scored.len() ==> #[trigger] scored[i].0 <= x
}

/// Elitism: where every score is what one fixed fitness function gives its genome,
/// and at least one elite survives, some genome of the next generation scores at least
/// as well as every genome of the current one, so the best score never falls.
pub proof fn lemma_elitism<T, F: Fn(T) -> T, M: Fn(T, T) -> T>(
    scored: Seq<(u32, GenomeModel<T>)>,
    randoms: Seq<GenomeModel<T>>,
    elite_percent: nat,
    next: Seq<GenomeModel<T>>,
    noise: F,
    mean: M,
    fitness: spec_fn(GenomeModel<T>) -> u32,
)
    requires
        elite_percent <= 100,
        is_ranked(scored),
        elites_of(scored.len(), elite_percent) >= 1,
        is_next_generation(scored, randoms, elite_percent, next, noise, mean),
        forall|i: int| 0 <= i < scored.len() ==> #[trigger] scored[i].0 == fitness(scored[i].1),
    ensures
        exists|j: int| 0 <= j < next.len() && bounds_all_scores(scored, #[trigger] fitness(next[j])),
{
    let n = scored.len();
    let e = elites_of(n, elite_percent);
    assert(n * elite_percent <= n * 100) by (nonlinear_arith)
        requires
            elite_percent <= 100,
    ;
    assert(n > 0) by (nonlinear_arith)
        requires
            e == n * elite_percent / 100,
            e >= 1,
    ;
    let j = n - e;
    assert(next[j + 0] == scored[0].1);
    assert(scored[0].0 == fitness(scored[0].1));
    assert forall|i: int| 0 <= i < scored.len() implies #[trigger] scored[i].0 <= fitness(next[j]) by {
        if i > 0 {
            assert(scored[0].0 >= scored[i].0);
        }
    }
    assert(bounds_all_scores(scored, fitness(next[j])));
}

/// `fresh` with its first `e` slots taken by the loaded genomes, cycling through them
/// where there are fewer loaded genomes than slots.
pub open spec fn seeded<T>(fresh: Seq<GenomeModel<T>>, loaded: Seq<GenomeModel<T>>, e: nat) -> Seq<
    GenomeModel<T>,
> {
    Seq::new(fresh.len(), |i: int| if i < e { loaded[i % loaded.len() as int] } else { fresh[i] })
}

/// Every genome with a score of zero.
pub open spec fn zero_scored<T>(s: Seq<GenomeModel<T>>) -> Seq<(u32, GenomeModel<T>)> {
    s.map_values(|g: GenomeModel<T>| (0u32, g))
}

/// The scored population that resuming breeds from: `fresh` seeded with `loaded` in its
/// elite slots, every genome scored zero.
pub open spec fn resumed_start<T>(
    fresh: Seq<GenomeModel<T>>,
    loaded: Seq<GenomeModel<T>>,
    elite_percent: nat,
) -> Seq<(u32, GenomeModel<T>)> {
    zero_scored(seeded(fresh, loaded, elites_of(fresh.len(), elite_percent)))
}

/// Rebuilds an island from checkpoints, of which at least one was loaded: the elite slots of the freshly initialised
/// population `fresh` take the `loaded` genomes (most recent first, cycling through them
/// where there are fewer than slots), every genome gets a score of zero, and one
/// generation is bred from that, so that the rest is filled before evaluation begins.
pub fn resume_island<T: Copy, F: Fn(T) -> T, M: Fn(T, T) -> T>(
    fresh: Vec<Genome<T>>,
    loaded: Vec<Genome<T>>,
    randoms: Vec<Genome<T>>,
    elite_percent: usize,
    noise: &F,
    mean: &M,
) -> (r: Result<Vec<Genome<T>>, EngineError>)
    requires
        elite_percent <= 100,
        loaded@.len() > 0,
        can_breed(fresh@.len(), elite_percent as nat, randoms@.len()),
        forall|i: int| 0 <= i < fresh@.len() ==> (#[trigger] fresh@[i])@.wf(),
        forall|i: int| 0 <= i < loaded@.len() ==> (#[trigger] loaded@[i])@.wf(),
        forall|j: int| 0 <= j < randoms@.len() ==> (#[trigger] randoms@[j])@.wf(),
        forall|x: T| noise.requires((x,)),
        forall|x: T, y: T| mean.requires((x, y)),
    ensures
        match r {
            Ok(next) => generation_error(
                resumed_start(models(fresh@), models(loaded@), elite_percent as nat),
                models(randoms@),
                elite_percent as nat,
            ) is None && is_next_generation(
                resumed_start(models(fresh@), models(loaded@), elite_percent as nat),
                models(randoms@),
                elite_percent as nat,
                models(next@),
                *noise,
                *mean,
            ),
            Err(e) => generation_error(
                resumed_start(models(fresh@), models(loaded@), elite_percent as nat),
                models(randoms@),
                elite_percent as nat,
            ) == Some(e),
        },
{
    let n = fresh.len();
    let e = elite_count(n, elite_percent);
    let ghost start = zero_scored(seeded(models(fresh@), models(loaded@), e as nat));
    let mut initial: Vec<(u32, Genome<T>)> = Vec::with_capacity(n);
    let mut i: usize = 0;
    while i < n
        invariant
            n == fresh@.len(),
            loaded@.len() > 0,
            e == elites_of(n as nat, elite_percent as nat),
            start == zero_scored(seeded(models(fresh@), models(loaded@), e as nat)),
            forall|k: int| 0 <= k < fresh@.len() ==> (#[trigger] fresh@[k])@.wf(),
            forall|k: int| 0 <= k < loaded@.len() ==> (#[trigger] loaded@[k])@.wf(),
            i <= n,
            initial@.len() == i,
            forall|k: int| 0 <= k < i ==> (#[trigger] initial@[k]).0 == 0,
            forall|k: int| 0 <= k < i ==> (#[trigger] initial@[k]).1@ == start[k].1,
        decreases n - i,
    {
        if i < e {
            let g = loaded[i % loaded.len()].duplicate();
            initial.push((0, g));
        } else {
            let g = fresh[i].duplicate();
            initial.push((0, g));
        }
        i = i + 1;
    }
    assert(scored_models(initial@) =~= start);
    assert forall|k: int| 0 <= k < initial@.len() implies (#[trigger] initial@[k]).1@.wf() by {
        if k < e {
            assert(initial@[k].1@ == loaded@[k % loaded@.len() as int]@);
        } else {
            assert(initial@[k].1@ == fresh@[k]@);
        }
    }
    assert(is_ranked(initial@));
    make_new_generation(initial, randoms, elite_percent, noise, mean)
}

} // verus!
