//! Difficulty model.
//!
//! A difficulty lives in one of two spaces. In the 128-bit threshold space a
//! proof passes when its score is at least the threshold. In the
//! average-attempts space a positive integer gives the expected number of
//! nonces a prover must try, scores being uniform over the 128-bit range.
//! The two conversions here are the only bridge between the spaces, and both
//! truncate: `threshold = MAX - MAX / attempts` and
//! `attempts = MAX / (MAX - threshold)`, saturating at `MAX`.

use vstd::prelude::*;
use vstd::arithmetic::div_mod::lemma_fundamental_div_mod;
use vstd::arithmetic::div_mod::lemma_fundamental_div_mod_converse;
use vstd::arithmetic::div_mod::lemma_mod_bound;
use vstd::arithmetic::div_mod::lemma_div_nonincreasing;
use crate::PowError;

verus! {

/// The threshold that makes a proof take `difficulty_factor` attempts on
/// average.
pub open spec fn spec_threshold(difficulty_factor: u32) -> u128
    recommends
        difficulty_factor >= 1,
{
    (u128::MAX - (u128::MAX as int) / (difficulty_factor as int)) as u128
}

/// The average number of attempts needed to clear `difficulty`, saturating
/// at `u128::MAX` for the threshold whose exact average is unbounded.
pub open spec fn spec_average(difficulty: u128) -> u128 {
    if difficulty == u128::MAX {
        u128::MAX
    } else {
        ((u128::MAX as int) / (u128::MAX - difficulty)) as u128
    }
}

/// Converts an average-attempts difficulty factor into the 128-bit threshold
/// space. A factor of zero asks for zero expected attempts, which is
/// undefined and rejected.
pub fn get_difficulty(difficulty_factor: u32) -> (r: Result<u128, PowError>)
    ensures
        r is Ok <==> difficulty_factor >= 1,
        difficulty_factor >= 1 ==> r == Ok::<u128, PowError>(spec_threshold(difficulty_factor)),
        difficulty_factor == 0 ==> r == Err::<u128, PowError>(PowError::InvalidDifficulty),
{
    if difficulty_factor == 0 {
        Err(PowError::InvalidDifficulty)
    } else {
        proof {
            lemma_div_nonincreasing(u128::MAX as int, difficulty_factor as int);
        }
        Ok(u128::MAX - u128::MAX / (difficulty_factor as u128))
    }
}

/// Converts a threshold back into the average-attempts space, saturating at
/// `u128::MAX`.
pub fn get_average_attempts(difficulty: u128) -> (r: u128)
    ensures
        r == spec_average(difficulty),
{
    if difficulty == u128::MAX {
        u128::MAX
    } else {
        u128::MAX / (u128::MAX - difficulty)
    }
}

/// Converting an average-attempts factor to the threshold space and back
/// yields exactly the factor again: for every positive `u32` factor the two
/// truncating divisions cancel.
pub proof fn lemma_difficulty_round_trip(difficulty_factor: u32)
    requires
        difficulty_factor >= 1,
    ensures
        spec_average(spec_threshold(difficulty_factor)) == difficulty_factor,
{
    let m: int = u128::MAX as int;
    let a: int = difficulty_factor as int;
    let q: int = m / a;
    let r: int = m % a;
    lemma_fundamental_div_mod(m, a);
    lemma_mod_bound(m, a);
    assert(a * a <= m) by (nonlinear_arith)
        requires
            1 <= a <= 0xffff_ffff,
            m == 0xffff_ffff_ffff_ffff_ffff_ffff_ffff_ffff,
    ;
    assert(q >= a) by (nonlinear_arith)
        requires
            m == a * q + r,
            0 <= r < a,
            a * a <= m,
            1 <= a,
    ;
    assert(q <= m) by (nonlinear_arith)
        requires
            m == a * q + r,
            0 <= r,
            1 <= a,
            1 <= q,
    ;
    let d: int = m - q;
    assert(spec_threshold(difficulty_factor) == d as u128);
    assert(d < m);
    assert(m - d == q);
    lemma_fundamental_div_mod_converse(m, q, a, r);
    assert(m / q == a);
}

} // verus!
