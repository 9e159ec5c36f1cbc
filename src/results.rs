use vstd::prelude::*;

verus! {

/// Number of iterations between progress publications and stop-flag checks.
pub const CHECK_INTERVAL: u64 = 1000;

/// Sum of a sequence of integers.
pub open spec fn total(s: Seq<int>) -> int
    decreases s.len(),
{
    if s.len() == 0 {
        0
    } else {
        total(s.drop_last()) + s.last()
    }
}

/// The counts of a result, as mathematical integers.
#[verifier::ext_equal]
pub struct Tally {
    pub iterations_done: int,
    pub ability: Seq<int>,
    pub sums: Seq<int>,
    pub two_18s: int,
}

/// A tally with no characters in it.
pub open spec fn empty_tally() -> Tally {
    Tally {
        iterations_done: 0,
        ability: Seq::new(19, |i: int| 0int),
        sums: Seq::new(109, |i: int| 0int),
        two_18s: 0,
    }
}

/// Element-wise sum of two count sequences.
pub open spec fn add_counts(a: Seq<int>, b: Seq<int>) -> Seq<int> {
    Seq::new(a.len(), |i: int| a[i] + b[i])
}

/// The tally that merging `b` into `a` produces.
pub open spec fn merge_tally(a: Tally, b: Tally) -> Tally {
    Tally {
        iterations_done: a.iterations_done + b.iterations_done,
        ability: add_counts(a.ability, b.ability),
        sums: add_counts(a.sums, b.sums),
        two_18s: a.two_18s + b.two_18s,
    }
}

pub open spec fn as_ints(s: Seq<u64>) -> Seq<int> {
    s.map_values(|x: u64| x as int)
}

/// Number of entries of `s` equal to `v`.
pub open spec fn occurrences(s: Seq<u8>, v: int) -> int
    decreases s.len(),
{
    if s.len() == 0 {
        0
    } else {
        occurrences(s.drop_last(), v) + if s.last() == v {
            1int
        } else {
            0int
        }
    }
}

/// Number of entries of `s` that are at least `t`.
pub open spec fn count_at_least(s: Seq<u8>, t: int) -> int
    decreases s.len(),
{
    if s.len() == 0 {
        0
    } else {
        count_at_least(s.drop_last(), t) + if s.last() >= t {
            1int
        } else {
            0int
        }
    }
}

/// Sum of the ability scores in `s`.
pub open spec fn score_sum(s: Seq<u8>) -> int
    decreases s.len(),
{
    if s.len() == 0 {
        0
    } else {
        score_sum(s.drop_last()) + s.last()
    }
}

/// How much a character with abilities `s` adds to the two-or-more-18s count.
pub open spec fn two_18s_step(s: Seq<u8>) -> int {
    if count_at_least(s, 18) >= 2 {
        1
    } else {
        0
    }
}

/// The tally after one character with abilities `c` is recorded: each ability
/// slot rises by the occurrences of its value in `c`, the slot of the sum of
/// `c` rises by one, and the two-18s count by `two_18s_step(c)`.
pub open spec fn apply_character(t: Tally, c: Seq<u8>) -> Tally {
    Tally {
        iterations_done: t.iterations_done,
        ability: Seq::new(t.ability.len(), |v: int| t.ability[v] + occurrences(c, v)),
        sums: t.sums.update(score_sum(c), t.sums[score_sum(c)] + 1),
        two_18s: t.two_18s + two_18s_step(c),
    }
}

/// The tally after the characters `cs` are recorded in order.
pub open spec fn apply_all(t: Tally, cs: Seq<Seq<u8>>) -> Tally
    decreases cs.len(),
{
    if cs.len() == 0 {
        t
    } else {
        apply_character(apply_all(t, cs.drop_last()), cs.last())
    }
}

/// Sum over the slots of `s` of slot index times count.
pub open spec fn weighted(s: Seq<int>) -> int
    decreases s.len(),
{
    if s.len() == 0 {
        0
    } else {
        weighted(s.drop_last()) + (s.len() - 1) * s.last()
    }
}

/// `a` with the slot of each entry of `c` raised by one, entry by entry.
pub open spec fn bump_each(a: Seq<int>, c: Seq<u8>) -> Seq<int>
    decreases c.len(),
{
    if c.len() == 0 {
        a
    } else {
        let b = bump_each(a, c.drop_last());
        b.update(c.last() as int, b[c.last() as int] + 1)
    }
}

pub proof fn lemma_weighted_bump(s: Seq<int>, i: int)
    requires
        0 <= i < s.len(),
    ensures
        weighted(s.update(i, s[i] + 1)) == weighted(s) + i,
    decreases s.len(),
{
    let t = s.update(i, s[i] + 1);
    if i == s.len() - 1 {
        assert(t.drop_last() =~= s.drop_last());
        assert((s.len() - 1) * (s[i] + 1) == (s.len() - 1) * s[i] + i) by (nonlinear_arith)
            requires
                i == s.len() - 1,
        ;
    } else {
        assert(t.drop_last() =~= s.drop_last().update(i, s[i] + 1));
        lemma_weighted_bump(s.drop_last(), i);
    }
}

pub proof fn lemma_bump_each(a: Seq<int>, c: Seq<u8>)
    requires
        forall|i: int| 0 <= i < c.len() ==> (#[trigger] c[i]) < a.len(),
    ensures
        bump_each(a, c) =~= Seq::new(a.len(), |v: int| a[v] + occurrences(c, v)),
        weighted(bump_each(a, c)) == weighted(a) + score_sum(c),
    decreases c.len(),
{
    if c.len() > 0 {
        let p = c.drop_last();
        lemma_bump_each(a, p);
        let b = bump_each(a, p);
        lemma_weighted_bump(b, c.last() as int);
    }
}

pub proof fn lemma_occurrences_bounded(s: Seq<u8>, v: int)
    ensures
        0 <= occurrences(s, v) <= s.len(),
    decreases s.len(),
{
    if s.len() > 0 {
        lemma_occurrences_bounded(s.drop_last(), v);
    }
}

/// A value below every entry of `s` does not occur in it.
pub proof fn lemma_occurrences_below(s: Seq<u8>, v: int)
    requires
        forall|i: int| 0 <= i < s.len() ==> v < #[trigger] s[i],
    ensures
        occurrences(s, v) == 0,
    decreases s.len(),
{
    if s.len() > 0 {
        lemma_occurrences_below(s.drop_last(), v);
    }
}

/// Six abilities, each in [3, 18], sum to a value in [18, 108].
pub proof fn lemma_character_sum_bounds(s: Seq<u8>)
    requires
        forall|i: int| 0 <= i < s.len() ==> 3 <= #[trigger] s[i] <= 18,
    ensures
        3 * s.len() <= score_sum(s) <= 18 * s.len(),
    decreases s.len(),
{
    if s.len() > 0 {
        lemma_character_sum_bounds(s.drop_last());
    }
}

pub proof fn lemma_total_update(s: Seq<int>, i: int, v: int)
    requires
        0 <= i < s.len(),
    ensures
        total(s.update(i, v)) == total(s) - s[i] + v,
    decreases s.len(),
{
    if i == s.len() - 1 {
        assert(s.update(i, v).drop_last() =~= s.drop_last());
    } else {
        assert(s.update(i, v).drop_last() =~= s.drop_last().update(i, v));
        lemma_total_update(s.drop_last(), i, v);
    }
}

pub proof fn lemma_total_zeros(n: nat)
    ensures
        total(Seq::new(n, |i: int| 0int)) == 0,
    decreases n,
{
    if n > 0 {
        assert(Seq::new(n, |i: int| 0int).drop_last() =~= Seq::new((n - 1) as nat, |i: int| 0int));
        lemma_total_zeros((n - 1) as nat);
    }
}

/// Recording characters of scores in [0, 18] raises the index-weighted sum
/// of the sum slots and that of the ability slots by the same amount.
pub proof fn lemma_apply_all_weighted(t: Tally, cs: Seq<Seq<u8>>)
    requires
        t.ability.len() == 19,
        t.sums.len() == 109,
        forall|k: int|
            0 <= k < cs.len() ==> (#[trigger] cs[k]).len() == 6 && forall|j: int|
                0 <= j < 6 ==> cs[k][j] <= 18,
    ensures
        apply_all(t, cs).ability.len() == 19,
        apply_all(t, cs).sums.len() == 109,
        weighted(apply_all(t, cs).sums) - weighted(t.sums) == weighted(apply_all(t, cs).ability)
            - weighted(t.ability),
    decreases cs.len(),
{
    if cs.len() > 0 {
        let p = cs.drop_last();
        let c = cs.last();
        assert forall|k: int| 0 <= k < p.len() implies (#[trigger] p[k]).len() == 6 && forall|
            j: int,
        | 0 <= j < 6 ==> p[k][j] <= 18 by {
            assert(p[k] == cs[k]);
        }
        lemma_apply_all_weighted(t, p);
        let u = apply_all(t, p);
        assert(c == cs[cs.len() - 1]);
        lemma_character_sum_bounds_upper(c);
        lemma_weighted_bump(u.sums, score_sum(c));
        lemma_bump_each(u.ability, c);
    }
}

/// Scores of at most 18 sum to at most 18 per score.
pub proof fn lemma_character_sum_bounds_upper(s: Seq<u8>)
    requires
        forall|i: int| 0 <= i < s.len() ==> #[trigger] s[i] <= 18,
    ensures
        0 <= score_sum(s) <= 18 * s.len(),
    decreases s.len(),
{
    if s.len() > 0 {
        lemma_character_sum_bounds_upper(s.drop_last());
    }
}

pub proof fn lemma_weighted_zeros(n: nat)
    ensures
        weighted(Seq::new(n, |i: int| 0int)) == 0,
    decreases n,
{
    if n > 0 {
        assert(Seq::new(n, |i: int| 0int).drop_last() =~= Seq::new((n - 1) as nat, |i: int| 0int));
        lemma_weighted_zeros((n - 1) as nat);
        assert(Seq::new(n, |i: int| 0int).last() == 0);
        assert((n - 1) * 0int == 0) by (nonlinear_arith);
    }
}

/// In a result that holds exactly the characters `cs`, each of six scores in
/// [0, 18], the sum over sum slots of slot times count equals the sum over
/// ability slots of slot times count.
pub proof fn lemma_weighted_tables_agree(r: SimulationResults, cs: Seq<Seq<u8>>)
    requires
        r@.ability == apply_all(empty_tally(), cs).ability,
        r@.sums == apply_all(empty_tally(), cs).sums,
        forall|k: int|
            0 <= k < cs.len() ==> (#[trigger] cs[k]).len() == 6 && forall|j: int|
                0 <= j < 6 ==> cs[k][j] <= 18,
    ensures
        weighted(r@.sums) == weighted(r@.ability),
{
    lemma_apply_all_weighted(empty_tally(), cs);
    lemma_weighted_zeros(19);
    lemma_weighted_zeros(109);
}

/// Statistics gathered by one worker, or the merge of several workers' results.
pub struct SimulationResults {
    /// Worker that owns this result (diagnostic only).
    pub index: usize,
    /// Iteration budget of the worker; 0 for a merged result.
    pub max_iterations: u64,
    /// Index of the last checkpointed iteration (summed over merged results).
    pub iterations_done: u64,
    /// Occurrences of each ability value, 0 to 18.
    pub ability: [u64; 19],
    /// Occurrences of each sum of six abilities, 0 to 108.
    pub sum_abilities: [u64; 109],
    /// Iterations between checkpoints.
    pub check_interval: u64,
    /// Characters with two or more abilities of 18 or more.
    pub cnt_two_18s: u64,
}

impl View for SimulationResults {
    type V = Tally;

    open spec fn view(&self) -> Tally {
        Tally {
            iterations_done: self.iterations_done as int,
            ability: as_ints(self.ability@),
            sums: as_ints(self.sum_abilities@),
            two_18s: self.cnt_two_18s as int,
        }
    }
}

/// Adds `r2` element-wise into `r1`.
pub fn ray_merge<const N: usize>(r1: &mut [u64; N], r2: &[u64; N])
    requires
        forall|i: int| 0 <= i < N ==> old(r1)[i] + r2[i] <= u64::MAX,
    ensures
        forall|i: int| 0 <= i < N ==> final(r1)[i] == old(r1)[i] + r2[i],
{
    for i in 0..N
        invariant
            forall|j: int| 0 <= j < i ==> r1[j] == old(r1)[j] + r2[j],
            forall|j: int| i <= j < N ==> r1[j] == old(r1)[j],
            forall|j: int| 0 <= j < N ==> old(r1)[j] + r2[j] <= u64::MAX,
    {
        r1[i] = r1[i] + r2[i];
    }
}

impl SimulationResults {
    /// True when merging `other` into `self` overflows no count.
    pub open spec fn can_absorb(&self, other: &SimulationResults) -> bool {
        &&& self.iterations_done + other.iterations_done <= u64::MAX
        &&& self.cnt_two_18s + other.cnt_two_18s <= u64::MAX
        &&& forall|i: int| 0 <= i < 19 ==> self.ability[i] + other.ability[i] <= u64::MAX
        &&& forall|i: int| 0 <= i < 109 ==> self.sum_abilities[i] + other.sum_abilities[i]
            <= u64::MAX
    }

    /// An empty result for worker `index` with a budget of `iterations`.
    pub fn new(index: usize, iterations: u64) -> (r: SimulationResults)
        ensures
            r.index == index,
            r.max_iterations == iterations,
            r.check_interval == CHECK_INTERVAL,
            r@ == empty_tally(),
    {
        let r = SimulationResults {
            index,
            max_iterations: iterations,
            iterations_done: 0,
            ability: [0u64; 19],
            sum_abilities: [0u64; 109],
            check_interval: CHECK_INTERVAL,
            cnt_two_18s: 0,
        };
        assert(r@ =~= empty_tally());
        r
    }

    /// Tallies one character with the six ability scores `abilities`.
    pub fn record_character(&mut self, abilities: [u8; 6])
        requires
            forall|i: int| 0 <= i < 6 ==> abilities[i] <= 18,
            forall|j: int| 0 <= j < 19 ==> old(self).ability[j] + 6 <= u64::MAX,
            forall|j: int| 0 <= j < 109 ==> old(self).sum_abilities[j] + 1 <= u64::MAX,
            old(self).cnt_two_18s + 1 <= u64::MAX,
        ensures
            forall|j: int|
                0 <= j < 19 ==> final(self).ability[j] == old(self).ability[j] + occurrences(
                    abilities@,
                    j,
                ),
            0 <= score_sum(abilities@) <= 108,
            final(self).sum_abilities@ == old(self).sum_abilities@.update(
                score_sum(abilities@),
                (old(self).sum_abilities[score_sum(abilities@)] + 1) as u64,
            ),
            final(self).cnt_two_18s == old(self).cnt_two_18s + two_18s_step(abilities@),
            final(self)@ == apply_character(old(self)@, abilities@),
            total(final(self)@.ability) == total(old(self)@.ability) + 6,
            total(final(self)@.sums) == total(old(self)@.sums) + 1,
            final(self).iterations_done == old(self).iterations_done,
            final(self).index == old(self).index,
            final(self).max_iterations == old(self).max_iterations,
            final(self).check_interval == old(self).check_interval,
    {
        let mut ability_sum: u8 = 0;
        let mut cnt_18s: u8 = 0;
        for a in 0..6
            invariant
                forall|i: int| 0 <= i < 6 ==> abilities[i] <= 18,
                forall|j: int| 0 <= j < 19 ==> old(self).ability[j] + 6 <= u64::MAX,
                ability_sum == score_sum(abilities@.take(a as int)),
                ability_sum <= 18 * a,
                cnt_18s == count_at_least(abilities@.take(a as int), 18),
                cnt_18s <= a,
                forall|j: int|
                    0 <= j < 19 ==> self.ability[j] == old(self).ability[j] + occurrences(
                        abilities@.take(a as int),
                        j,
                    ),
                total(self@.ability) == total(old(self)@.ability) + a,
                self.sum_abilities == old(self).sum_abilities,
                self.cnt_two_18s == old(self).cnt_two_18s,
                self.iterations_done == old(self).iterations_done,
                self.index == old(self).index,
                self.max_iterations == old(self).max_iterations,
                self.check_interval == old(self).check_interval,
        {
            let ability = abilities[a];
            let ghost before = self@.ability;
            proof {
                assert(abilities@.take(a + 1).drop_last() =~= abilities@.take(a as int));
                lemma_occurrences_bounded(abilities@.take(a as int), ability as int);
            }
            if ability >= 18 {
                cnt_18s = cnt_18s + 1;
            }
            ability_sum = ability_sum + ability;
            self.ability[ability as usize] = self.ability[ability as usize] + 1;
            proof {
                assert(self@.ability =~= before.update(ability as int, before[ability as int] + 1));
                lemma_total_update(before, ability as int, before[ability as int] + 1);
            }
        }
        assert(abilities@.take(6) =~= abilities@);
        if cnt_18s >= 2 {
            self.cnt_two_18s = self.cnt_two_18s + 1;
        }
        let ghost sums_before = self@.sums;
        self.sum_abilities[ability_sum as usize] = self.sum_abilities[ability_sum as usize] + 1;
        proof {
            let k = ability_sum as int;
            assert(self@.sums =~= sums_before.update(k, sums_before[k] + 1));
            lemma_total_update(sums_before, k, sums_before[k] + 1);
            assert(self@ =~= apply_character(old(self)@, abilities@));
        }
    }

    /// Whether merging `other` into `self` overflows no count.
    pub fn can_merge(&self, other: &Self) -> (r: bool)
        ensures
            r == self.can_absorb(other),
    {
        if self.iterations_done > u64::MAX - other.iterations_done {
            return false;
        }
        if self.cnt_two_18s > u64::MAX - other.cnt_two_18s {
            return false;
        }
        for i in 0..19
            invariant
                forall|j: int| 0 <= j < i ==> self.ability[j] + other.ability[j] <= u64::MAX,
        {
            if self.ability[i] > u64::MAX - other.ability[i] {
                return false;
            }
        }
        for i in 0..109
            invariant
                forall|j: int| 0 <= j < 19 ==> self.ability[j] + other.ability[j] <= u64::MAX,
                forall|j: int| 0 <= j < i ==> self.sum_abilities[j] + other.sum_abilities[j]
                    <= u64::MAX,
        {
            if self.sum_abilities[i] > u64::MAX - other.sum_abilities[i] {
                return false;
            }
        }
        true
    }

    /// Merges the counts of `other` into `self`.
    pub fn add_to(&mut self, other: &Self)
        requires
            old(self).can_absorb(other),
        ensures
            final(self)@ == merge_tally(old(self)@, other@),
            final(self).index == old(self).index,
            final(self).max_iterations == old(self).max_iterations,
            final(self).check_interval == old(self).check_interval,
    {
        self.iterations_done = self.iterations_done + other.iterations_done;
        ray_merge(&mut self.ability, &other.ability);
        ray_merge(&mut self.sum_abilities, &other.sum_abilities);
        self.cnt_two_18s = self.cnt_two_18s + other.cnt_two_18s;
        assert(self@ =~= merge_tally(old(self)@, other@));
    }
}

/// Merging is commutative: `b` merged into `a` has the same counts as `a`
/// merged into `b`.
pub proof fn lemma_merge_commutative(a: SimulationResults, b: SimulationResults)
    ensures
        merge_tally(a@, b@) == merge_tally(b@, a@),
{
    assert(merge_tally(a@, b@) =~= merge_tally(b@, a@));
}

/// Merging is associative: merging `a`, `b` and `c` gives the same counts
/// whichever pair is merged first.
pub proof fn lemma_merge_associative(a: SimulationResults, b: SimulationResults, c: SimulationResults)
    ensures
        merge_tally(merge_tally(a@, b@), c@) == merge_tally(a@, merge_tally(b@, c@)),
{
    assert(merge_tally(merge_tally(a@, b@), c@) =~= merge_tally(a@, merge_tally(b@, c@)));
}

/// Merging a freshly created result into `a`, or `a` into a freshly created
/// result, yields the counts of `a` unchanged.
pub proof fn lemma_merge_empty(a: SimulationResults)
    ensures
        merge_tally(a@, empty_tally()) == a@,
        merge_tally(empty_tally(), a@) == a@,
{
    assert(merge_tally(a@, empty_tally()) =~= a@);
    assert(merge_tally(empty_tally(), a@) =~= a@);
}

} // verus!
