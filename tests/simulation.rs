use std::sync::atomic::{AtomicBool, AtomicU64, Ordering};

use ability_sim::{
    ability_from_dice, checkpoint, ray_merge, roll_ability, roll_character, run, simulate, DiceStream, SimulationResults,
    CHECK_INTERVAL,
};

fn counts_total(s: &[u64]) -> u64 {
    s.iter().sum()
}

#[test]
fn ability_from_dice_drops_lowest() {
    assert_eq!(ability_from_dice([1, 2, 3, 4]), 9);
    assert_eq!(ability_from_dice([6, 6, 6, 6]), 18);
    assert_eq!(ability_from_dice([1, 1, 1, 1]), 3);
    assert_eq!(ability_from_dice([5, 2, 6, 2]), 13);
    assert_eq!(ability_from_dice([3, 6, 1, 6]), 15);
}

#[test]
fn rolled_abilities_lie_in_range_for_many_seeds() {
    for seed in 0..200u64 {
        let mut rng = DiceStream::new(seed);
        for _ in 0..50 {
            let a = roll_ability(&mut rng);
            assert!((3..=18).contains(&a), "seed {} gave {}", seed, a);
        }
    }
}

#[test]
fn rolled_abilities_vary() {
    let mut rng = DiceStream::new(11);
    let mut seen = [false; 19];
    for _ in 0..5000 {
        seen[roll_ability(&mut rng) as usize] = true;
    }
    assert!(seen[18]);
    assert!(seen[3] || seen[4]);
    assert!(seen.iter().filter(|b| **b).count() > 10);
}

#[test]
fn character_with_two_18s_is_counted() {
    let mut sim = SimulationResults::new(0, 0);
    sim.record_character([18, 18, 9, 9, 9, 9]);
    assert_eq!(sim.cnt_two_18s, 1);
    assert_eq!(sim.ability[18], 2);
    assert_eq!(sim.ability[9], 4);
    assert_eq!(sim.sum_abilities[72], 1);
    assert_eq!(counts_total(&sim.ability), 6);
    assert_eq!(counts_total(&sim.sum_abilities), 1);
}

#[test]
fn character_with_one_18_is_not_counted() {
    let mut sim = SimulationResults::new(0, 0);
    sim.record_character([18, 9, 9, 9, 9, 9]);
    assert_eq!(sim.cnt_two_18s, 0);
    assert_eq!(sim.ability[18], 1);
    assert_eq!(sim.ability[9], 5);
    assert_eq!(sim.sum_abilities[63], 1);
}

#[test]
fn sum_slot_is_exact_sum_of_six() {
    let mut sim = SimulationResults::new(0, 0);
    sim.record_character([3, 3, 3, 3, 3, 3]);
    sim.record_character([18, 18, 18, 18, 18, 18]);
    sim.record_character([3, 7, 11, 12, 17, 18]);
    assert_eq!(sim.sum_abilities[18], 1);
    assert_eq!(sim.sum_abilities[108], 1);
    assert_eq!(sim.sum_abilities[68], 1);
    assert_eq!(counts_total(&sim.sum_abilities), 3);
    assert_eq!(sim.cnt_two_18s, 1);
    assert_eq!(sim.ability[3], 7);
    assert_eq!(sim.ability[18], 7);
}

#[test]
fn rolled_character_sum_in_range() {
    let mut rng = DiceStream::new(5);
    for _ in 0..1000 {
        let c = roll_character(&mut rng);
        let s: u32 = c.iter().map(|a| *a as u32).sum();
        assert!((18..=108).contains(&s));
        assert!(c.iter().all(|a| (3..=18).contains(a)));
    }
}

#[test]
fn ray_merge_adds_elementwise() {
    let mut a = [1u64, 2, 3];
    ray_merge(&mut a, &[10, 20, 30]);
    assert_eq!(a, [11, 22, 33]);
}

fn sample(index: usize, seed: u64, n: usize) -> SimulationResults {
    let mut sim = SimulationResults::new(index, 0);
    let mut rng = DiceStream::new(seed);
    for _ in 0..n {
        sim.record_character(roll_character(&mut rng));
    }
    sim.iterations_done = n as u64;
    sim
}

fn copy_of(a: &SimulationResults) -> SimulationResults {
    let mut r = SimulationResults::new(a.index, 0);
    r.add_to(a);
    r
}

fn same_tallies(a: &SimulationResults, b: &SimulationResults) -> bool {
    a.iterations_done == b.iterations_done
        && a.ability == b.ability
        && a.sum_abilities == b.sum_abilities
        && a.cnt_two_18s == b.cnt_two_18s
}

#[test]
fn merge_is_commutative_and_associative() {
    let a = sample(1, 1, 300);
    let b = sample(2, 2, 500);
    let c = sample(3, 3, 700);

    let mut ab_c = SimulationResults::new(0, 0);
    ab_c.add_to(&a);
    ab_c.add_to(&b);
    ab_c.add_to(&c);

    let mut bc = SimulationResults::new(0, 0);
    bc.add_to(&b);
    bc.add_to(&c);
    let mut a_bc = copy_of(&a);
    a_bc.add_to(&bc);

    let mut cba = copy_of(&c);
    cba.add_to(&b);
    cba.add_to(&a);

    assert!(same_tallies(&ab_c, &a_bc));
    assert!(same_tallies(&ab_c, &cba));
    assert_eq!(ab_c.iterations_done, 1500);
    assert_eq!(counts_total(&ab_c.sum_abilities), 1500);
    assert_eq!(counts_total(&ab_c.ability), 9000);
}

#[test]
fn merge_with_empty_is_identity() {
    let a = sample(4, 9, 250);
    let mut x = sample(4, 9, 250);
    x.add_to(&SimulationResults::new(0, 0));
    assert!(same_tallies(&x, &a));
    let mut y = SimulationResults::new(0, 0);
    y.add_to(&a);
    assert!(same_tallies(&y, &a));
    assert_eq!(y.iterations_done, 250);
    assert_eq!(counts_total(&y.ability), 1500);
}

#[test]
fn one_check_interval_publishes_once() {
    let stop = AtomicBool::new(false);
    let count = AtomicU64::new(0);
    let (sim, w) = run(0, CHECK_INTERVAL, &stop, &count);
    assert_eq!(count.load(Ordering::Relaxed), CHECK_INTERVAL);
    assert_eq!(w.published, CHECK_INTERVAL);
    assert_eq!(sim.iterations_done, CHECK_INTERVAL - 1);
    assert_eq!(w.characters, CHECK_INTERVAL);
    assert_eq!(counts_total(&sim.sum_abilities), CHECK_INTERVAL);
    assert_eq!(counts_total(&sim.ability), 6 * CHECK_INTERVAL);
}

#[test]
fn stop_set_before_start_stops_at_first_checkpoint() {
    let stop = AtomicBool::new(true);
    let count = AtomicU64::new(0);
    let (sim, w) = run(3, 5 * CHECK_INTERVAL, &stop, &count);
    assert!(w.stopped);
    assert_eq!(w.characters, CHECK_INTERVAL);
    assert_eq!(sim.iterations_done, CHECK_INTERVAL - 1);
    assert_eq!(count.load(Ordering::Relaxed), CHECK_INTERVAL);
    assert_eq!(counts_total(&sim.sum_abilities), CHECK_INTERVAL);
}

#[test]
fn budget_past_last_checkpoint_under_reports_iterations_done() {
    // iterations_done keeps the last checkpoint index, not the full count.
    let stop = AtomicBool::new(false);
    let count = AtomicU64::new(0);
    let (sim, w) = run(1, 1500, &stop, &count);
    assert!(!w.stopped);
    assert_eq!(w.characters, 1500);
    assert_eq!(sim.iterations_done, 999);
    assert_eq!(count.load(Ordering::Relaxed), 1000);
    assert_eq!(counts_total(&sim.sum_abilities), 1500);
}

#[test]
fn budget_below_check_interval_records_no_checkpoint() {
    let stop = AtomicBool::new(true);
    let count = AtomicU64::new(0);
    let (sim, w) = run(1, 10, &stop, &count);
    assert!(!w.stopped);
    assert_eq!(w.characters, 10);
    assert_eq!(sim.iterations_done, 0);
    assert_eq!(count.load(Ordering::Relaxed), 0);
    assert_eq!(counts_total(&sim.sum_abilities), 10);
}

#[test]
fn seeded_single_iteration_updates_one_character() {
    let stop = AtomicBool::new(false);
    let count = AtomicU64::new(0);
    let mut sim = SimulationResults::new(0, 1);
    let mut rng = DiceStream::new(42);
    let w = simulate(&mut sim, &mut rng, &stop, &count);
    assert_eq!(w.characters, 1);

    let mut again = DiceStream::new(42);
    let expected = roll_character(&mut again);
    assert!(expected.iter().all(|a| (3..=18).contains(a)));
    let sum: usize = expected.iter().map(|a| *a as usize).sum();
    assert_eq!(sim.sum_abilities[sum], 1);
    assert_eq!(counts_total(&sim.sum_abilities), 1);
    for v in 0..19usize {
        let n = expected.iter().filter(|a| **a as usize == v).count() as u64;
        assert_eq!(sim.ability[v], n);
    }
    assert_eq!(count.load(Ordering::Relaxed), 0);
}

#[test]
fn workers_with_the_same_index_agree() {
    let stop = AtomicBool::new(false);
    let count = AtomicU64::new(0);
    let (a, _) = run(7, 300, &stop, &count);
    let (b, _) = run(7, 300, &stop, &count);
    let (c, _) = run(8, 300, &stop, &count);
    assert!(same_tallies(&a, &b));
    assert!(!same_tallies(&a, &c));
}

#[test]
fn two_workers_of_2000_merge_exactly() {
    let stop = AtomicBool::new(false);
    let count = AtomicU64::new(0);
    let (a, wa) = run(0, 2000, &stop, &count);
    let (b, wb) = run(1, 2000, &stop, &count);
    assert_eq!(wa.characters, 2000);
    assert_eq!(wb.characters, 2000);
    assert_eq!(a.iterations_done, 1999);
    assert_eq!(b.iterations_done, 1999);
    assert_eq!(count.load(Ordering::Relaxed), 4000);

    let mut total = SimulationResults::new(0, 0);
    total.add_to(&a);
    total.add_to(&b);
    assert_eq!(total.iterations_done, 3998);
    assert_eq!(total.cnt_two_18s, a.cnt_two_18s + b.cnt_two_18s);
    for i in 0..19 {
        assert_eq!(total.ability[i], a.ability[i] + b.ability[i]);
    }
    for i in 0..109 {
        assert_eq!(total.sum_abilities[i], a.sum_abilities[i] + b.sum_abilities[i]);
    }
    assert_eq!(counts_total(&total.sum_abilities), 4000);
    assert_eq!(counts_total(&total.ability), 24000);
}

#[test]
fn checkpoint_records_index_and_follows_flag() {
    let mut sim = SimulationResults::new(2, 5000);
    sim.record_character([18, 18, 9, 9, 9, 9]);
    assert!(checkpoint(&mut sim, 1000, true));
    assert_eq!(sim.iterations_done, 999);
    assert!(!checkpoint(&mut sim, 2000, false));
    assert_eq!(sim.iterations_done, 1999);
    assert_eq!(sim.cnt_two_18s, 1);
    assert_eq!(sim.sum_abilities[72], 1);
    assert_eq!(sim.max_iterations, 5000);
}

#[test]
fn character_is_best_three_of_consecutive_seeded_draws() {
    let mut dice = DiceStream::new(99);
    let first = roll_character(&mut dice);
    let second = roll_character(&mut dice);
    let mut rng = fastrand::Rng::with_seed(99);
    for expected in [first, second] {
        for score in expected {
            let d: Vec<u8> = (0..4).map(|_| rng.u8(1..7)).collect();
            let sum: u8 = d.iter().sum();
            let min = *d.iter().min().unwrap();
            assert_eq!(score, sum - min);
        }
    }
}

#[test]
fn weighted_sum_and_ability_tables_agree() {
    let stop = AtomicBool::new(false);
    let count = AtomicU64::new(0);
    let (sim, _) = run(5, 2500, &stop, &count);
    let by_sum: u64 = sim.sum_abilities.iter().enumerate().map(|(s, n)| s as u64 * n).sum();
    let by_ability: u64 = sim.ability.iter().enumerate().map(|(v, n)| v as u64 * n).sum();
    assert_eq!(by_sum, by_ability);
    assert!(by_sum >= 18 * 2500 && by_sum <= 108 * 2500);
    assert_eq!(sim.ability[0] + sim.ability[1] + sim.ability[2], 0);
    assert_eq!(sim.sum_abilities[..18].iter().sum::<u64>(), 0);
}
