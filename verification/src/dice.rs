//! Rolling dice: the draws come from the thread's random generator, the
//! counting and summing is done here.
use vstd::prelude::*;
use rand::Rng;

verus! {

/// The sum of a sequence of draws.
pub open spec fn sum(draws: Seq<int>) -> int
    decreases draws.len(),
{
    if draws.len() == 0 {
        0
    } else {
        sum(draws.drop_last()) + draws.last()
    }
}

/// How many dice a count asks for: a count below zero asks for none.
pub open spec fn dice_asked(count: int) -> nat {
    if count > 0 {
        count as nat
    } else {
        0
    }
}

/// `draws` is what `count` dice of `sides` sides can show: one draw per
/// die, each a face from 1 to `sides`.
pub open spec fn fair_draws(draws: Seq<int>, count: int, sides: int) -> bool {
    &&& draws.len() == dice_asked(count)
    &&& forall|i: int| 0 <= i < draws.len() ==> 1 <= #[trigger] draws[i] <= sides
}

/// One draw of a die with `sides` sides.
///
/// Calls `rand::Rng::gen_range` on `rand::thread_rng()` with the closed
/// range from 1 to `sides`. Taken on trust: the range is not empty, so
/// `gen_range` returns, and what it returns lies in the range. Which face
/// comes is left open, and so is that the faces are equally likely. The
/// generator of the thread is seeded by the system at its first use: where
/// the system has no seed to give, `thread_rng` does not return.
#[verifier::external_body]
fn roll_die(sides: i32) -> (face: i32)
    requires
        sides >= 1,
    ensures
        1 <= face <= sides,
{
    rand::thread_rng().gen_range(1..=sides)
}

/// Fair draws sum to at least the number of dice and to at most that number
/// times the number of sides.
pub proof fn lemma_sum_of_fair_draws(draws: Seq<int>, count: int, sides: int)
    requires
        fair_draws(draws, count, sides),
    ensures
        dice_asked(count) <= sum(draws) <= dice_asked(count) * sides,
    decreases draws.len(),
{
    if draws.len() > 0 {
        let rest = draws.drop_last();
        assert forall|i: int| 0 <= i < rest.len() implies 1 <= #[trigger] rest[i] <= sides by {
            assert(rest[i] == draws[i]);
        }
        lemma_sum_of_fair_draws(rest, count - 1, sides);
        assert(1 <= draws[draws.len() - 1] <= sides);
        assert(dice_asked(count) * sides == dice_asked(count - 1) * sides + sides)
            by (nonlinear_arith)
            requires
                dice_asked(count) == dice_asked(count - 1) + 1,
        ;
    } else {
        assert(dice_asked(count) * sides == 0) by (nonlinear_arith)
            requires
                dice_asked(count) == 0,
        ;
    }
}

/// Rolls `count` dice of `sides` sides, one draw for each, and adds them up.
/// No dice, for a count of zero or less, give 0.
pub fn roll_dice(count: i32, sides: i32) -> (value: i64)
    requires
        sides >= 1,
    ensures
        exists|draws: Seq<int>| fair_draws(draws, count as int, sides as int) && value == sum(draws),
{
    let mut value: i64 = 0;
    let mut rolled: i32 = 0;
    let ghost mut draws: Seq<int> = Seq::empty();
    while rolled < count
        invariant
            sides >= 1,
            0 <= rolled,
            rolled <= dice_asked(count as int),
            fair_draws(draws, rolled as int, sides as int),
            value == sum(draws),
        decreases count - rolled,
    {
        let face: i32 = roll_die(sides);
        proof {
            lemma_sum_of_fair_draws(draws, rolled as int, sides as int);
            assert(dice_asked(rolled as int) * sides <= 0x7fff_ffff * 0x7fff_ffff)
                by (nonlinear_arith)
                requires
                    0 <= dice_asked(rolled as int) <= 0x7fff_ffff,
                    1 <= sides <= 0x7fff_ffff,
            ;
            let ghost before = draws;
            draws = draws.push(face as int);
            assert(draws.drop_last() =~= before);
        }
        value = value + face as i64;
        rolled = rolled + 1;
    }
    proof {
        assert(fair_draws(draws, count as int, sides as int));
    }
    value
}

} // verus!
