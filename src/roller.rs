use vstd::prelude::*;

verus! {

#[verifier::external_type_specification]
#[verifier::external_body]
pub struct ExRng(fastrand::Rng);

/// The value of the `k`-th die, counting from 0, drawn from a generator
/// seeded with `seed`.
pub uninterp spec fn die_at(seed: u64, k: int) -> u8;

/// A seeded stream of six-sided dice.
pub struct DiceStream {
    rng: fastrand::Rng,
    seed: Ghost<u64>,
    drawn: Ghost<int>,
}

impl DiceStream {
    /// The seed the stream was made with.
    pub closed spec fn seed(&self) -> u64 {
        self.seed@
    }

    /// Number of dice drawn so far.
    pub closed spec fn drawn(&self) -> int {
        self.drawn@
    }

    /// A stream seeded with `seed`, with no die drawn yet.
    pub fn new(seed: u64) -> (d: DiceStream)
        ensures
            d.seed() == seed,
            d.drawn() == 0,
    {
        DiceStream { rng: seeded_rng(seed), seed: Ghost(seed), drawn: Ghost(0) }
    }
}

/// Relies on fastrand::Rng::with_seed: a generator whose stream is fixed by the seed.
#[verifier::external_body]
fn seeded_rng(seed: u64) -> fastrand::Rng {
    fastrand::Rng::with_seed(seed)
}

/// Relies on fastrand::Rng::u8: a draw from the range `1..7`, so a value from
/// 1 to 6, fixed by the seed and the number of draws before it.
#[verifier::external_body]
fn roll_die(d: &mut DiceStream) -> (r: u8)
    ensures
        1 <= r <= 6,
        r == die_at(old(d).seed(), old(d).drawn()),
        final(d).seed() == old(d).seed(),
        final(d).drawn() == old(d).drawn() + 1,
{
    d.rng.u8(1..7)
}

/// The four dice drawn from `seed` starting at draw `k`.
pub open spec fn dice_at(seed: u64, k: int) -> Seq<u8> {
    seq![die_at(seed, k), die_at(seed, k + 1), die_at(seed, k + 2), die_at(seed, k + 3)]
}

/// The ability score rolled from `seed` starting at draw `k`.
pub open spec fn ability_at(seed: u64, k: int) -> int {
    best_three(dice_at(seed, k))
}

/// The six ability scores of the character rolled from `seed` starting at draw `k`.
pub open spec fn character_at(seed: u64, k: int) -> Seq<u8> {
    Seq::new(6, |i: int| ability_at(seed, k + 4 * i) as u8)
}

/// Smaller of two integers.
pub open spec fn min2(a: int, b: int) -> int {
    if a <= b {
        a
    } else {
        b
    }
}

/// Four dice, each showing 1 to 6.
pub open spec fn valid_dice(d: Seq<u8>) -> bool {
    d.len() == 4 && forall|i: int| 0 <= i < 4 ==> 1 <= #[trigger] d[i] <= 6
}

/// Sum of four dice minus the lowest of them.
pub open spec fn best_three(d: Seq<u8>) -> int {
    d[0] + d[1] + d[2] + d[3] - min2(min2(d[0] as int, d[1] as int), min2(d[2] as int, d[3] as int))
}

/// `a` is the best three of some roll of four dice.
pub open spec fn is_ability_roll(a: u8) -> bool {
    exists|d: Seq<u8>| valid_dice(d) && a == best_three(d)
}

/// The ability score that four dice give: their sum without the lowest.
pub fn ability_from_dice(dice: [u8; 4]) -> (r: u8)
    requires
        valid_dice(dice@),
    ensures
        r == best_three(dice@),
        3 <= r <= 18,
{
    let mut sum: u8 = 0;
    let mut min: u8 = 10;
    for i in 0..4
        invariant
            valid_dice(dice@),
            sum <= 6 * i,
            i == 0 ==> sum == 0 && min == 10,
            i == 1 ==> sum == dice[0] && min == dice[0],
            i == 2 ==> sum == dice[0] + dice[1] && min == min2(dice[0] as int, dice[1] as int),
            i == 3 ==> sum == dice[0] + dice[1] + dice[2] && min == min2(
                min2(dice[0] as int, dice[1] as int),
                dice[2] as int,
            ),
            i == 4 ==> sum == dice[0] + dice[1] + dice[2] + dice[3] && min == min2(
                min2(min2(dice[0] as int, dice[1] as int), dice[2] as int),
                dice[3] as int,
            ),
    {
        let roll = dice[i];
        sum = sum + roll;
        if roll < min {
            min = roll;
        }
    }
    sum - min
}

/// Rolls one ability score: four dice, the lowest discarded.
pub fn roll_ability(d: &mut DiceStream) -> (r: u8)
    ensures
        r == ability_at(old(d).seed(), old(d).drawn()),
        3 <= r <= 18,
        is_ability_roll(r),
        final(d).seed() == old(d).seed(),
        final(d).drawn() == old(d).drawn() + 4,
{
    let mut dice: [u8; 4] = [0u8; 4];
    for i in 0..4
        invariant
            d.seed() == old(d).seed(),
            d.drawn() == old(d).drawn() + i,
            forall|j: int| 0 <= j < i ==> 1 <= #[trigger] dice[j] <= 6,
            forall|j: int| 0 <= j < i ==> dice[j] == die_at(old(d).seed(), old(d).drawn() + j),
    {
        dice[i] = roll_die(d);
    }
    assert(dice@ =~= dice_at(old(d).seed(), old(d).drawn()));
    ability_from_dice(dice)
}

/// Rolls the six ability scores of one character, 24 dice in all.
pub fn roll_character(d: &mut DiceStream) -> (r: [u8; 6])
    ensures
        r@ == character_at(old(d).seed(), old(d).drawn()),
        forall|i: int| 0 <= i < 6 ==> 3 <= #[trigger] r[i] <= 18,
        forall|i: int| 0 <= i < 6 ==> is_ability_roll(#[trigger] r[i]),
        final(d).seed() == old(d).seed(),
        final(d).drawn() == old(d).drawn() + 24,
{
    let mut abilities: [u8; 6] = [0u8; 6];
    for a in 0..6
        invariant
            d.seed() == old(d).seed(),
            d.drawn() == old(d).drawn() + 4 * a,
            forall|j: int| 0 <= j < a ==> 3 <= #[trigger] abilities[j] <= 18,
            forall|j: int| 0 <= j < a ==> is_ability_roll(#[trigger] abilities[j]),
            forall|j: int|
                0 <= j < a ==> abilities[j] == ability_at(old(d).seed(), old(d).drawn() + 4 * j),
    {
        abilities[a] = roll_ability(d);
    }
    assert(abilities@ =~= character_at(old(d).seed(), old(d).drawn()));
    abilities
}

} // verus!
