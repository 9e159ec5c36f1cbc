use std::sync::atomic::{AtomicBool, AtomicU64, Ordering};
use vstd::prelude::*;

use crate::results::{
    apply_all, empty_tally, lemma_character_sum_bounds, lemma_occurrences_below,
    lemma_occurrences_bounded, lemma_total_zeros, lemma_weighted_tables_agree, occurrences, total,
    weighted, SimulationResults, Tally, CHECK_INTERVAL,
};
use crate::roller::{character_at, is_ability_roll, roll_character, DiceStream};

verus! {

/// What a worker loop did besides filling its result.
pub struct WorkerRun {
    /// Characters fully generated and tallied.
    pub characters: u64,
    /// Amount added to the shared progress counter.
    pub published: u64,
    /// Whether the loop ended on reading a set stop flag.
    pub stopped: bool,
    /// The characters rolled, in order.
    pub rolled: Ghost<Seq<Seq<u8>>>,
    /// The readings of the stop flag, one per checkpoint, in order.
    pub stop_reads: Ghost<Seq<bool>>,
}

/// Six ability scores, each the best three of a roll of four dice.
pub open spec fn valid_character(c: Seq<u8>) -> bool {
    c.len() == 6 && forall|j: int| 0 <= j < 6 ==> 3 <= #[trigger] c[j] <= 18 && is_ability_roll(c[j])
}

/// `a` and `b` hold the same ability, sum and two-18s counts.
pub open spec fn same_counts(a: Tally, b: Tally) -> bool {
    a.ability == b.ability && a.sums == b.sums && a.two_18s == b.two_18s
}

/// How a worker that ran `n` of its `max` iterations stops, given the
/// readings `reads` of the stop flag at its checkpoints: it reads the flag
/// at every checkpoint, stops at the first reading that finds it set, and
/// otherwise runs its whole budget.
pub open spec fn stop_protocol(reads: Seq<bool>, n: int, max: int, stopped: bool) -> bool {
    &&& 0 <= n <= max
    &&& reads.len() == n / CHECK_INTERVAL as int
    &&& forall|k: int| 0 <= k < reads.len() - 1 ==> !#[trigger] reads[k]
    &&& stopped <==> (reads.len() > 0 && reads.last())
    &&& !stopped ==> n == max
    &&& stopped ==> n % CHECK_INTERVAL as int == 0
}

/// A worker that finds the stop flag set at every checkpoint, as it does when
/// the flag was set before it started, stops at its first checkpoint at the
/// latest: it runs at most `CHECK_INTERVAL` iterations, never a larger budget.
pub proof fn lemma_stop_set_before_start(reads: Seq<bool>, n: int, max: int, stopped: bool)
    requires
        stop_protocol(reads, n, max, stopped),
        forall|k: int| 0 <= k < reads.len() ==> #[trigger] reads[k],
    ensures
        n <= CHECK_INTERVAL,
        max > CHECK_INTERVAL ==> n < max,
{
    if reads.len() >= 2 {
        assert(reads[0]);
        assert(!reads[0]);
    }
}

/// A worker that never finds the stop flag set runs its whole budget.
pub proof fn lemma_stop_never_set(reads: Seq<bool>, n: int, max: int, stopped: bool)
    requires
        stop_protocol(reads, n, max, stopped),
        forall|k: int| 0 <= k < reads.len() ==> !#[trigger] reads[k],
    ensures
        !stopped,
        n == max,
{
}

/// `sim` can take `n` more characters without any count overflowing.
pub open spec fn room_for(sim: SimulationResults, n: int) -> bool {
    &&& forall|j: int| 0 <= j < 19 ==> sim.ability[j] + 6 * n <= u64::MAX
    &&& forall|j: int| 0 <= j < 109 ==> sim.sum_abilities[j] + n <= u64::MAX
    &&& sim.cnt_two_18s + n <= u64::MAX
}

/// Index of the last checkpointed iteration after `n` iterations, where
/// `prior` was recorded before the first checkpoint.
pub open spec fn last_checkpoint(n: int, prior: int) -> int {
    if n >= CHECK_INTERVAL {
        (n / CHECK_INTERVAL as int) * CHECK_INTERVAL - 1
    } else {
        prior
    }
}

/// Amount published to the progress counter over `n` iterations.
pub open spec fn published_for(n: int) -> int {
    (n / CHECK_INTERVAL as int) * CHECK_INTERVAL
}

/// Records the checkpoint reached after `done` iterations in `iterations_done`,
/// and decides from the stop flag's reading `stop_seen` whether to stop there.
pub fn checkpoint(sim: &mut SimulationResults, done: u64, stop_seen: bool) -> (stop_now: bool)
    requires
        done >= 1,
    ensures
        stop_now == stop_seen,
        final(sim).iterations_done == done - 1,
        final(sim).ability == old(sim).ability,
        final(sim).sum_abilities == old(sim).sum_abilities,
        final(sim).cnt_two_18s == old(sim).cnt_two_18s,
        final(sim).index == old(sim).index,
        final(sim).max_iterations == old(sim).max_iterations,
        final(sim).check_interval == old(sim).check_interval,
{
    sim.iterations_done = done - 1;
    stop_seen
}

/// Runs the simulation loop of one worker on `sim`, rolling from `dice`.
///
/// Every `check_interval` iterations it records the index of the current
/// iteration in `iterations_done`, adds `check_interval` to `count`, and stops
/// if `stop` is set. Otherwise it runs `max_iterations` iterations.
pub fn simulate(
    sim: &mut SimulationResults,
    dice: &mut DiceStream,
    stop: &AtomicBool,
    count: &AtomicU64,
) -> (w: WorkerRun)
    requires
        old(sim).check_interval == CHECK_INTERVAL,
        room_for(*old(sim), old(sim).max_iterations as int),
    ensures
        stop_protocol(
            w.stop_reads@,
            w.characters as int,
            old(sim).max_iterations as int,
            w.stopped,
        ),
        w.rolled@.len() == w.characters,
        forall|k: int| 0 <= k < w.characters ==> valid_character(#[trigger] w.rolled@[k]),
        forall|k: int|
            0 <= k < w.characters ==> #[trigger] w.rolled@[k] == character_at(
                old(dice).seed(),
                old(dice).drawn() + 24 * k,
            ),
        final(dice).seed() == old(dice).seed(),
        final(dice).drawn() == old(dice).drawn() + 24 * w.characters,
        same_counts(final(sim)@, apply_all(old(sim)@, w.rolled@)),
        w.published == published_for(w.characters as int),
        final(sim).iterations_done == last_checkpoint(
            w.characters as int,
            old(sim).iterations_done as int,
        ),
        total(final(sim)@.sums) == total(old(sim)@.sums) + w.characters,
        total(final(sim)@.ability) == total(old(sim)@.ability) + 6 * w.characters,
        room_for(*final(sim), old(sim).max_iterations - w.characters),
        final(sim).cnt_two_18s <= old(sim).cnt_two_18s + w.characters,
        forall|j: int| 0 <= j < 3 ==> final(sim).ability[j] == old(sim).ability[j],
        forall|j: int| 0 <= j < 18 ==> final(sim).sum_abilities[j] == old(sim).sum_abilities[j],
        final(sim).index == old(sim).index,
        final(sim).max_iterations == old(sim).max_iterations,
        final(sim).check_interval == old(sim).check_interval,
{
    let ci = sim.check_interval;
    let max = sim.max_iterations;
    let mut update_stats: u64 = ci;
    let mut published: u64 = 0;
    let mut stopped = false;
    let mut i: u64 = 0;
    let ghost mut rolled: Seq<Seq<u8>> = Seq::empty();
    let ghost mut reads: Seq<bool> = Seq::empty();
    while i < max && !stopped
        invariant
            ci == CHECK_INTERVAL,
            max == old(sim).max_iterations,
            i <= max,
            update_stats == ci - i % ci,
            published == published_for(i as int),
            stopped ==> i > 0 && i % ci == 0,
            reads.len() == i / ci,
            forall|k: int| 0 <= k < reads.len() - 1 ==> !#[trigger] reads[k],
            stopped <==> (reads.len() > 0 && reads.last()),
            rolled.len() == i,
            forall|k: int| 0 <= k < i ==> valid_character(#[trigger] rolled[k]),
            forall|k: int|
                0 <= k < i ==> #[trigger] rolled[k] == character_at(
                    old(dice).seed(),
                    old(dice).drawn() + 24 * k,
                ),
            dice.seed() == old(dice).seed(),
            dice.drawn() == old(dice).drawn() + 24 * i,
            same_counts(sim@, apply_all(old(sim)@, rolled)),
            sim.iterations_done == last_checkpoint(i as int, old(sim).iterations_done as int),
            total(sim@.sums) == total(old(sim)@.sums) + i,
            total(sim@.ability) == total(old(sim)@.ability) + 6 * i,
            room_for(*sim, max - i),
            sim.cnt_two_18s <= old(sim).cnt_two_18s + i,
            forall|j: int| 0 <= j < 3 ==> sim.ability[j] == old(sim).ability[j],
            forall|j: int| 0 <= j < 18 ==> sim.sum_abilities[j] == old(sim).sum_abilities[j],
            sim.index == old(sim).index,
            sim.max_iterations == old(sim).max_iterations,
            sim.check_interval == old(sim).check_interval,
        decreases max - i,
    {
        update_stats = update_stats - 1;
        let abilities = roll_character(dice);
        proof {
            assert forall|j: int| 0 <= j < 19 implies 0 <= #[trigger] occurrences(
                abilities@,
                j,
            ) <= 6 by {
                lemma_occurrences_bounded(abilities@, j);
            }
            assert forall|j: int| 0 <= j < 3 implies #[trigger] occurrences(abilities@, j) == 0 by {
                lemma_occurrences_below(abilities@, j);
            }
            lemma_character_sum_bounds(abilities@);
        }
        sim.record_character(abilities);
        proof {
            assert(rolled.push(abilities@).drop_last() =~= rolled);
            rolled = rolled.push(abilities@);
        }
        i = i + 1;
        if update_stats == 0 {
            count.fetch_add(ci, Ordering::Relaxed);
            published = published + ci;
            update_stats = ci;
            let seen = stop.load(Ordering::Relaxed);
            proof {
                reads = reads.push(seen);
            }
            stopped = checkpoint(sim, i, seen);
        }
    }
    WorkerRun { characters: i, published, stopped, rolled: Ghost(rolled), stop_reads: Ghost(reads) }
}

/// Runs worker `index` with a budget of `iterations`, on a dice stream
/// seeded with the worker index, and returns its result.
pub fn run(index: usize, iterations: u64, stop: &AtomicBool, count: &AtomicU64) -> (r: (
    SimulationResults,
    WorkerRun,
))
    requires
        6 * iterations <= u64::MAX,
    ensures
        r.0.index == index,
        r.0.max_iterations == iterations,
        r.0.check_interval == CHECK_INTERVAL,
        stop_protocol(r.1.stop_reads@, r.1.characters as int, iterations as int, r.1.stopped),
        r.1.rolled@.len() == r.1.characters,
        forall|k: int| 0 <= k < r.1.characters ==> valid_character(#[trigger] r.1.rolled@[k]),
        forall|k: int|
            0 <= k < r.1.characters ==> #[trigger] r.1.rolled@[k] == character_at(
                index as u64,
                24 * k,
            ),
        same_counts(r.0@, apply_all(empty_tally(), r.1.rolled@)),
        forall|j: int| 0 <= j < 3 ==> r.0.ability[j] == 0,
        weighted(r.0@.sums) == weighted(r.0@.ability),
        forall|s: int| 0 <= s < 18 ==> r.0.sum_abilities[s] == 0,
        r.1.published == published_for(r.1.characters as int),
        r.0.iterations_done == last_checkpoint(r.1.characters as int, 0),
        total(r.0@.sums) == r.1.characters,
        total(r.0@.ability) == 6 * r.1.characters,
        r.0.cnt_two_18s <= r.1.characters,
{
    let mut sim = SimulationResults::new(index, iterations);
    let mut dice = DiceStream::new(index as u64);
    proof {
        lemma_total_zeros(109);
        lemma_total_zeros(19);
        assert forall|j: int| 0 <= j < 19 implies #[trigger] sim.ability[j] == 0 by {
            assert(sim@.ability[j] == 0);
        }
        assert forall|j: int| 0 <= j < 109 implies #[trigger] sim.sum_abilities[j] == 0 by {
            assert(sim@.sums[j] == 0);
        }
    }
    let w = simulate(&mut sim, &mut dice, stop, count);
    proof {
        let cs = w.rolled@;
        assert forall|k: int| 0 <= k < cs.len() implies (#[trigger] cs[k]).len() == 6 && forall|
            j: int,
        | 0 <= j < 6 ==> cs[k][j] <= 18 by {
            assert(valid_character(cs[k]));
        }
        lemma_weighted_tables_agree(sim, cs);
    }
    (sim, w)
}

} // verus!
