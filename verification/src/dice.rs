use rand::Rng;
use vstd::prelude::*;

verus! {

/// Uniform random index in `0..bound`, taken from the thread-local generator
/// of the `rand` crate (`rand::rng().random_range(0..bound)`).
/// The contract claims only that the value lies in the range: which value
/// comes back depends on chance.
#[verifier::external_body]
pub(crate) fn random_index(bound: usize) -> (i: usize)
    requires
        bound > 0,
    ensures
        i < bound,
{
    rand::rng().random_range(0..bound)
}

/// The sub-second part of the wall clock, in nanoseconds
/// (`SystemTime::now().duration_since(UNIX_EPOCH)` then `subsec_nanos`).
/// std documents that value as below one billion; a clock set before the
/// epoch gives 0 here. Which value comes back depends on the moment of the
/// call.
#[verifier::external_body]
pub(crate) fn clock_subsec_nanos() -> (n: u32)
    ensures
        n < 1_000_000_000,
{
    match std::time::SystemTime::now().duration_since(std::time::UNIX_EPOCH) {
        Ok(d) => d.subsec_nanos(),
        Err(_) => 0,
    }
}

/// The damage multiplier of a d20 throw, in hundredths.
pub open spec fn multiplier_percent(d20: int) -> int {
    if d20 == 1 {
        0
    } else if 2 <= d20 <= 6 {
        20
    } else if 7 <= d20 <= 9 {
        75
    } else if 10 <= d20 <= 13 {
        100
    } else if 14 <= d20 <= 16 {
        150
    } else if 17 <= d20 <= 19 {
        200
    } else if d20 == 20 {
        300
    } else {
        0
    }
}

/// Damage dealt by a throw of `roll` points scaled by the d20 multiplier,
/// rounded toward zero.
pub open spec fn damage_value(d20: int, roll: int) -> int {
    roll * multiplier_percent(d20) / 100
}

/// The damage of an attack for a roll of `roll` points, rounded down: a
/// throw of 1 fails, 2 to 6 deal a fifth of the roll, 7 to 9 three
/// quarters, 10 to 13 the roll, 14 to 16 one and a half times the roll, 17
/// to 19 twice the roll and 20 three times the roll; any other value deals
/// nothing.
pub proof fn lemma_damage_value_table(d20: int, roll: int)
    requires
        roll >= 0,
    ensures
        d20 == 1 ==> damage_value(d20, roll) == 0,
        2 <= d20 <= 6 ==> damage_value(d20, roll) == roll / 5,
        7 <= d20 <= 9 ==> damage_value(d20, roll) == (3 * roll) / 4,
        10 <= d20 <= 13 ==> damage_value(d20, roll) == roll,
        14 <= d20 <= 16 ==> damage_value(d20, roll) == (3 * roll) / 2,
        17 <= d20 <= 19 ==> damage_value(d20, roll) == 2 * roll,
        d20 == 20 ==> damage_value(d20, roll) == 3 * roll,
        d20 < 1 || d20 > 20 ==> damage_value(d20, roll) == 0,
{
    assert((roll * 20) / 100 == roll / 5) by (nonlinear_arith)
        requires roll >= 0;
    assert((roll * 75) / 100 == (3 * roll) / 4) by (nonlinear_arith)
        requires roll >= 0;
    assert((roll * 100) / 100 == roll) by (nonlinear_arith)
        requires roll >= 0;
    assert((roll * 150) / 100 == (3 * roll) / 2) by (nonlinear_arith)
        requires roll >= 0;
    assert((roll * 200) / 100 == 2 * roll) by (nonlinear_arith)
        requires roll >= 0;
    assert((roll * 300) / 100 == 3 * roll) by (nonlinear_arith)
        requires roll >= 0;
    assert(roll * 0 == 0);
}

/// The multiplier that a d20 throw gives to the damage, in hundredths:
/// a 1 fails, 2-6 graze, 7-9 hit weakly, 10-13 hit, 14-16 and 17-19 hit
/// hard, a 20 is critical. Values outside 1..=20 give 0.
pub fn d20_multiplier_percent(d20: i32) -> (p: u32)
    ensures
        p == multiplier_percent(d20 as int),
{
    if d20 == 1 {
        0
    } else if 2 <= d20 && d20 <= 6 {
        20
    } else if 7 <= d20 && d20 <= 9 {
        75
    } else if 10 <= d20 && d20 <= 13 {
        100
    } else if 14 <= d20 && d20 <= 16 {
        150
    } else if 17 <= d20 && d20 <= 19 {
        200
    } else if d20 == 20 {
        300
    } else {
        0
    }
}

/// Damage of an attack whose d20 throw is `d20` and whose damage dice sum to
/// `roll`.
pub fn damage_for(d20: i32, roll: i32) -> (d: i32)
    requires
        0 <= roll <= i32::MAX / 3,
    ensures
        d == damage_value(d20 as int, roll as int),
        0 <= d <= 3 * roll,
{
    let p = d20_multiplier_percent(d20);
    let prod: i64 = (roll as i64) * (p as i64);
    assert(0 <= prod <= 300 * roll) by (nonlinear_arith)
        requires
            prod == roll * p,
            0 <= roll,
            p <= 300;
    let d: i64 = prod / 100;
    d as i32
}

/// Damage of a d20 throw `d20` and two damage dice `a` and `b`.
pub open spec fn throw_damage(d20: int, a: int, b: int) -> int {
    damage_value(d20, a + b)
}

/// One throw of a die with `sides` faces.
pub fn roll_die(sides: i32) -> (r: i32)
    requires
        sides >= 1,
    ensures
        1 <= r <= sides,
{
    let i = random_index(sides as usize);
    (i as i32) + 1
}

/// Throws a d20 and two d8 and returns the resulting damage.
pub fn calc_damage() -> (d: i32)
    ensures
        exists|d20: int, a: int, b: int|
            1 <= d20 <= 20 && 1 <= a <= 8 && 1 <= b <= 8 && d == #[trigger] throw_damage(d20, a, b),
        0 <= d <= 48,
{
    let d20 = roll_die(20);
    let a = roll_die(8);
    let b = roll_die(8);
    let d = damage_for(d20, a + b);
    assert(d == throw_damage(d20 as int, a as int, b as int));
    d
}

} // verus!
