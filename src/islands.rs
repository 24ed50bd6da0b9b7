use vstd::prelude::*;

use crate::chance::{make_distinct, random_below};
use crate::error::EngineError;
use crate::generation::{elite_count, elites_of, models};
use crate::genome::{same_shape, shapes_match, Genome, GenomeModel};
use crate::reproduction::{make_offspring, offspring_of};

verus! {

/// The models of every island's genomes.
pub open spec fn island_models<T>(v: Seq<Vec<Genome<T>>>) -> Seq<Seq<GenomeModel<T>>> {
    v.map_values(|isl: Vec<Genome<T>>| models(isl@))
}

/// Every island holds `n` well-formed genomes.
pub open spec fn islands_wf<T>(islands: Seq<Seq<GenomeModel<T>>>, n: nat) -> bool {
    forall|i: int|
        0 <= i < islands.len() ==> (#[trigger] islands[i]).len() == n && forall|j: int|
            0 <= j < n ==> (#[trigger] islands[i][j]).wf()
}

/// Every elite (one of the last `e` genomes) of every island has the topology of the
/// last genome of the first island.
pub open spec fn elites_share_shape<T>(islands: Seq<Seq<GenomeModel<T>>>, n: nat, e: nat) -> bool {
    forall|i: int, m: int|
        0 <= i < islands.len() && 0 <= m < e ==> same_shape(
            #[trigger] islands[i][n - e + m],
            islands[0][n - 1],
        )
}

/// `g` is an offspring of an elite of island `i`, the mother, and an elite of another
/// island, the father.
pub open spec fn migrant_of<T, F: Fn(T) -> T, M: Fn(T, T) -> T>(
    islands: Seq<Seq<GenomeModel<T>>>,
    n: nat,
    e: nat,
    i: int,
    g: GenomeModel<T>,
    noise: F,
    mean: M,
) -> bool {
    exists|fi: int, m: int, f: int|
        0 <= fi < islands.len() && fi != i && 0 <= m < e && 0 <= f < e && #[trigger] offspring_of(
            islands[i][n - e + m],
            islands[fi][n - e + f],
            g,
            noise,
            mean,
        )
}

/// Some entry of `writes` is the slot `j` of island `i`.
pub open spec fn written(writes: Seq<(usize, usize)>, i: int, j: int) -> bool {
    exists|k: int| 0 <= k < writes.len() && (#[trigger] writes[k]).0 == i && writes[k].1 == j
}

/// `writes` lists the slots that migrants overwrote, one per crossing and in order: each
/// lies among the first `replace_below` slots of an island and holds a migrant bred from
/// the elites of `before`; every slot not listed holds what it held in `before`.
pub open spec fn migrated<T, F: Fn(T) -> T, M: Fn(T, T) -> T>(
    before: Seq<Seq<GenomeModel<T>>>,
    after: Seq<Seq<GenomeModel<T>>>,
    n: nat,
    e: nat,
    replace_below: nat,
    writes: Seq<(usize, usize)>,
    noise: F,
    mean: M,
) -> bool {
    &&& after.len() == before.len()
    &&& forall|i: int| 0 <= i < after.len() ==> (#[trigger] after[i]).len() == n
    &&& forall|k: int|
        0 <= k < writes.len() ==> (#[trigger] writes[k]).0 < before.len() && writes[k].1 < replace_below
            && migrant_of(before, n, e, writes[k].0 as int, after[writes[k].0 as int][writes[k].1 as int], noise, mean)
    &&& forall|i: int, j: int|
        0 <= i < after.len() && 0 <= j < n && !written(writes, i, j) ==> #[trigger] after[i][j] == before[i][j]
    &&& forall|i: int, j: int|
        0 <= i < after.len() && 0 <= j < n ==> (#[trigger] after[i][j]).wf()
}

/// Migration between islands. Each island's elites are its last `elite_percent`
/// hundredths. `crossings` times, two distinct islands are drawn, a random elite of each
/// becomes mother and father, and their offspring overwrites one of the first
/// `replace_below` slots of the mother's island. All parents come from the elites as
/// they were before the first crossing. The result lists the slots written, one per
/// crossing, as (island, slot).
pub fn island_crossing<T: Copy, F: Fn(T) -> T, M: Fn(T, T) -> T>(
    islands: &mut Vec<Vec<Genome<T>>>,
    island_size: usize,
    elite_percent: usize,
    crossings: usize,
    replace_below: usize,
    noise: &F,
    mean: &M,
) -> (r: Result<Vec<(usize, usize)>, EngineError>)
    requires
        old(islands)@.len() >= 2,
        elite_percent <= 100,
        elites_of(island_size as nat, elite_percent as nat) >= 1,
        1 <= replace_below <= island_size,
        islands_wf(island_models(old(islands)@), island_size as nat),
        forall|x: T| noise.requires((x,)),
        forall|x: T, y: T| mean.requires((x, y)),
    ensures
        match r {
            Ok(writes) => writes@.len() == crossings && elites_share_shape(
                island_models(old(islands)@),
                island_size as nat,
                elites_of(island_size as nat, elite_percent as nat),
            ) && migrated(
                island_models(old(islands)@),
                island_models(final(islands)@),
                island_size as nat,
                elites_of(island_size as nat, elite_percent as nat),
                replace_below as nat,
                writes@,
                *noise,
                *mean,
            ),
            Err(e) => e == EngineError::ShapeMismatch && !elites_share_shape(
                island_models(old(islands)@),
                island_size as nat,
                elites_of(island_size as nat, elite_percent as nat),
            ) && final(islands)@ == old(islands)@,
        },
{
    let ghost before = island_models(islands@);
    let n = island_size;
    let e = elite_count(n, elite_percent);
    let count = islands.len();
    let fittest_start = n - e;
    // The elites as they stand before any crossing.
    let mut best: Vec<Vec<Genome<T>>> = Vec::with_capacity(count);
    let mut i: usize = 0;
    while i < count
        invariant
            before == island_models(islands@),
            before == island_models(old(islands)@),
            n == island_size,
            count == islands@.len(),
            islands_wf(before, n as nat),
            e == elites_of(n as nat, elite_percent as nat),
            1 <= e <= n,
            fittest_start == n - e,
            i <= count,
            best@.len() == i,
            forall|a: int, m: int|
                0 <= a < i && 0 <= m < e ==> same_shape(#[trigger] before[a][n - e + m], before[0][n - 1]),
            forall|a: int| 0 <= a < i ==> (#[trigger] best@[a])@.len() == e,
            forall|a: int, m: int|
                0 <= a < i && 0 <= m < e ==> (#[trigger] best@[a]@[m])@ == before[a][n - e + m],
        decreases count - i,
    {
        let mut elites: Vec<Genome<T>> = Vec::with_capacity(e);
        let mut m: usize = 0;
        while m < e
            invariant
                before == island_models(islands@),
                before == island_models(old(islands)@),
            n == island_size,
                count == islands@.len(),
                islands_wf(before, n as nat),
                e == elites_of(n as nat, elite_percent as nat),
                1 <= e <= n,
                fittest_start == n - e,
                i < count,
                m <= e,
                elites@.len() == m,
                forall|q: int| 0 <= q < m ==> same_shape(#[trigger] before[i as int][n - e + q], before[0][n - 1]),
                forall|q: int| 0 <= q < m ==> (#[trigger] elites@[q])@ == before[i as int][n - e + q],
            decreases e - m,
        {
            proof {
                assert(before[i as int].len() == n);
                assert(before[0].len() == n);
                assert(before[i as int][fittest_start + m] == islands@[i as int]@[fittest_start + m]@);
                assert(before[0][n - 1] == islands@[0]@[n - 1]@);
            }
            if !shapes_match(&islands[i][fittest_start + m], &islands[0][n - 1]) {
                assert(!same_shape(before[i as int][n - e + m], before[0][n - 1]));
                assert(!elites_share_shape(before, n as nat, e as nat));
                return Err(EngineError::ShapeMismatch);
            }
            elites.push(islands[i][fittest_start + m].duplicate());
            m = m + 1;
        }
        best.push(elites);
        i = i + 1;
    }
    let mut writes: Vec<(usize, usize)> = Vec::with_capacity(crossings);
    let mut c: usize = 0;
    while c < crossings
        invariant
            before == island_models(old(islands)@),
            n == island_size,
            count == islands@.len(),
            count >= 2,
            islands_wf(before, n as nat),
            e == elites_of(n as nat, elite_percent as nat),
            1 <= e <= n,
            1 <= replace_below <= n,
            elites_share_shape(before, n as nat, e as nat),
            best@.len() == count,
            forall|a: int| 0 <= a < count ==> (#[trigger] best@[a])@.len() == e,
            forall|a: int, m: int|
                0 <= a < count && 0 <= m < e ==> (#[trigger] best@[a]@[m])@ == before[a][n - e + m],
            forall|x: T| noise.requires((x,)),
            forall|x: T, y: T| mean.requires((x, y)),
            c <= crossings,
            writes@.len() == c,
            migrated(before, island_models(islands@), n as nat, e as nat, replace_below as nat, writes@, *noise, *mean),
        decreases crossings - c,
    {
        let (mothers_island, fathers_island) = make_distinct(count);
        let mi = random_below(e);
        let fi = random_below(e);
        proof {
            assert(best@[mothers_island as int]@[mi as int]@ == before[mothers_island as int][n - e + mi]);
            assert(best@[fathers_island as int]@[fi as int]@ == before[fathers_island as int][n - e + fi]);
            assert(before[mothers_island as int].len() == n);
            assert(before[fathers_island as int].len() == n);
            assert(same_shape(before[mothers_island as int][n - e + mi], before[0][n - 1]));
            assert(same_shape(before[fathers_island as int][n - e + fi], before[0][n - 1]));
        }
        let child = make_offspring(
            &best[mothers_island][mi],
            &best[fathers_island][fi],
            noise,
            mean,
        );
        match child {
            Ok(g) => {
                let slot = random_below(replace_below);
                let ghost mid = island_models(islands@);
                assert(offspring_of(
                    before[mothers_island as int][n - e + mi],
                    before[fathers_island as int][n - e + fi],
                    g@,
                    *noise,
                    *mean,
                ));
                assert(mid[mothers_island as int].len() == n);
                assert(islands@[mothers_island as int]@.len() == n);
                let ghost old_writes = writes@;
                islands[mothers_island][slot] = g;
                writes.push((mothers_island, slot));
                proof {
                    let after = island_models(islands@);
                    let mo = mothers_island as int;
                    let sl = slot as int;
                    assert forall|a: int| 0 <= a < after.len() implies (#[trigger] after[a]).len() == n by {
                        assert(mid[a].len() == n);
                    }
                    assert forall|a: int, j: int| 0 <= a < after.len() && 0 <= j < n implies #[trigger] after[a][j]
                        == if a == mo && j == sl { g@ } else { mid[a][j] } by {
                        assert(mid[a].len() == n);
                    }
                    assert forall|k: int| 0 <= k < writes@.len() implies (#[trigger] writes@[k]).0 < before.len()
                        && writes@[k].1 < replace_below && migrant_of(
                        before,
                        n as nat,
                        e as nat,
                        writes@[k].0 as int,
                        after[writes@[k].0 as int][writes@[k].1 as int],
                        *noise,
                        *mean,
                    ) by {
                        let w = writes@[k];
                        if k < old_writes.len() {
                            assert(w == old_writes[k]);
                        }
                        assert(after[w.0 as int][w.1 as int] == if w.0 as int == mo && w.1 as int == sl {
                            g@
                        } else {
                            mid[w.0 as int][w.1 as int]
                        });
                    }
                    assert forall|a: int, j: int| 0 <= a < after.len() && 0 <= j < n && !written(writes@, a, j) implies
                        #[trigger] after[a][j] == before[a][j] by {
                        assert(writes@[old_writes.len() as int] == (mothers_island, slot));
                        if written(old_writes, a, j) {
                            let k = choose|k: int| 0 <= k < old_writes.len() && (#[trigger] old_writes[k]).0 == a && old_writes[k].1 == j;
                            assert(writes@[k] == old_writes[k]);
                        }
                        assert(after[a][j] == mid[a][j]);
                    }
                    assert forall|a: int, j: int| 0 <= a < after.len() && 0 <= j < n implies (
                    #[trigger] after[a][j]).wf() by {
                        if a == mo && j == sl {
                            assert(after[a][j] == g@);
                        } else {
                            assert(after[a][j] == mid[a][j]);
                        }
                    }
                }
            },
            Err(err) => {
                return Err(err);
            },
        }
        c = c + 1;
    }
    Ok(writes)
}

/// What the scheduler carries from tick to tick: the best score seen so far, over all
/// islands, and the sequence number that the next checkpoint will get.
#[derive(Clone, Copy, Debug, PartialEq, Eq, Structural)]
pub struct BestTracker {
    pub best_score: u32,
    pub number_of_bests: usize,
}

impl BestTracker {
    /// A fresh run: no score yet, and the first checkpoint numbered zero.
    pub fn new() -> (r: BestTracker)
        ensures
            r.best_score == 0,
            r.number_of_bests == 0,
    {
        BestTracker { best_score: 0, number_of_bests: 0 }
    }

    /// A resumed run, whose best score is `best_score` and whose latest checkpoint, if
    /// any, has sequence number `latest`: the next checkpoint comes after it.
    pub fn resumed(best_score: u32, latest: Option<usize>) -> (r: BestTracker)
        requires
            latest matches Some(s) ==> s < usize::MAX,
        ensures
            r.best_score == best_score,
            r.number_of_bests == match latest {
                Some(s) => s + 1,
                None => 0,
            },
    {
        let number_of_bests = match latest {
            Some(s) => s + 1,
            None => 0,
        };
        BestTracker { best_score, number_of_bests }
    }

    /// Records the high score of one island's generation. When it beats every score seen
    /// so far, it becomes the best and the sequence number under which to checkpoint the
    /// best genome is returned; otherwise nothing changes.
    pub fn observe(&mut self, high_score: u32) -> (r: Option<usize>)
        requires
            old(self).number_of_bests < usize::MAX,
        ensures
            high_score > old(self).best_score ==> r == Some(old(self).number_of_bests)
                && final(self).best_score == high_score && final(self).number_of_bests == old(
                self,
            ).number_of_bests + 1,
            high_score <= old(self).best_score ==> r is None && *final(self) == *old(self),
    {
        if high_score > self.best_score {
            let seq = self.number_of_bests;
            self.best_score = high_score;
            self.number_of_bests = seq + 1;
            Some(seq)
        } else {
            None
        }
    }
}

/// Whether migration runs after tick `tick` when it runs every `period` ticks, starting
/// with the first.
pub fn is_migration_tick(tick: usize, period: usize) -> (r: bool)
    requires
        period > 0,
    ensures
        r == (tick % period == 0),
{
    tick % period == 0
}

} // verus!
