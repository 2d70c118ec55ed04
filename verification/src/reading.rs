//! Reads the value that a solver gives a utilisation variable.
//!
//! A solver returns an IEEE-754 double. The library counts a utilisation in
//! parts of `UTILISATION_SCALE`, so a value becomes the count nearest to it,
//! and a value whose count is no utilisation is refused. The double is taken
//! apart with integer arithmetic only.
use vstd::arithmetic::div_mod::lemma_fundamental_div_mod;
use vstd::arithmetic::power2::{
    lemma2_to64, lemma_pow2_adds, lemma_pow2_pos, lemma_pow2_strictly_increases,
    lemma_pow2_unfold, pow2,
};
use vstd::prelude::*;

use crate::UTILISATION_SCALE;

verus! {

/// The value of the bit that follows the fraction of a double: two to the
/// power 52.
pub const HIDDEN_BIT: u64 = 0x10_0000_0000_0000;

/// The least bit pattern with the sign set: two to the power 63.
pub const SIGN_BIT: u64 = 0x8000_0000_0000_0000;

/// The eleven bits that hold the exponent of a double.
pub open spec fn exponent_field(bits: u64) -> int {
    (bits as int / HIDDEN_BIT as int) % 2048
}

/// The 52 bits that hold the fraction of a double.
pub open spec fn fraction_field(bits: u64) -> int {
    bits as int % HIDDEN_BIT as int
}

/// The double is neither an infinity nor a NaN.
pub open spec fn finite(bits: u64) -> bool {
    exponent_field(bits) != 2047
}

/// The double is below zero, or is the negative zero.
pub open spec fn negative(bits: u64) -> bool {
    bits >= SIGN_BIT
}

/// The integer `s` for which the absolute value of a finite double is
/// `s / 2^k`, with `k` its [`binary_places`].
pub open spec fn significand(bits: u64) -> int {
    if exponent_field(bits) == 0 {
        fraction_field(bits)
    } else {
        HIDDEN_BIT as int + fraction_field(bits)
    }
}

/// The integer `k` for which the absolute value of a finite double is
/// `s / 2^k`, with `s` its [`significand`]. It is negative for a double of
/// two to the power 53 or more.
pub open spec fn binary_places(bits: u64) -> int {
    if exponent_field(bits) == 0 {
        1074
    } else {
        1075 - exponent_field(bits)
    }
}

/// The count of parts of `UTILISATION_SCALE` nearest to the absolute value
/// of a finite double below two to the power 53; a value halfway between two
/// counts goes to the greater.
pub open spec fn nearest_count(bits: u64) -> int
    recommends
        finite(bits),
        binary_places(bits) >= 0,
{
    let k = binary_places(bits) as nat;
    (2 * significand(bits) * UTILISATION_SCALE as int + pow2(k)) / (pow2(k + 1) as int)
}

/// The utilisation that a double stands for: the count nearest to it, where
/// the double is finite and that count lies between zero and full
/// utilisation.
pub open spec fn reading_of(bits: u64) -> Option<u32> {
    if !finite(bits) || binary_places(bits) < 0 {
        None
    } else if nearest_count(bits) == 0 {
        Some(0u32)
    } else if negative(bits) || nearest_count(bits) > UTILISATION_SCALE {
        None
    } else {
        Some(nearest_count(bits) as u32)
    }
}

/// The utilisations that a list of doubles stands for, where each of them
/// stands for one.
pub open spec fn readings_of(bits: Seq<u64>) -> Option<Seq<u32>> {
    if forall|i: int| 0 <= i < bits.len() ==> reading_of(#[trigger] bits[i]) is Some {
        Some(Seq::new(bits.len(), |i: int| reading_of(bits[i])->Some_0))
    } else {
        None
    }
}

/// The nearest count is at most half a part away from the absolute value of
/// the double: with `s / 2^k` that value and `n` the count, the distance
/// between `s * UTILISATION_SCALE` and `n * 2^k` is at most half of `2^k`,
/// and less where the count is the smaller of two neighbours.
pub proof fn lemma_nearest_count_is_nearest(bits: u64)
    requires
        finite(bits),
        binary_places(bits) >= 0,
    ensures
        0 <= nearest_count(bits),
        (2 * nearest_count(bits) - 1) * pow2(binary_places(bits) as nat) <= 2 * significand(bits)
            * UTILISATION_SCALE,
        2 * significand(bits) * UTILISATION_SCALE < (2 * nearest_count(bits) + 1) * pow2(
            binary_places(bits) as nat,
        ),
{
    let k = binary_places(bits) as nat;
    let half = pow2(k) as int;
    let x = 2 * significand(bits) * UTILISATION_SCALE as int + half;
    let d = pow2(k + 1) as int;
    lemma_pow2_pos(k);
    lemma_pow2_unfold(k + 1);
    lemma_fundamental_div_mod(x, d);
    let n = x / d;
    assert(0 <= x);
    assert(0 <= n) by (nonlinear_arith)
        requires
            0 <= x,
            0 < d,
            n == x / d,
    ;
    assert(d * n == 2 * n * half) by (nonlinear_arith)
        requires
            d == 2 * half,
    ;
    assert((2 * n - 1) * half == 2 * n * half - half) by (nonlinear_arith);
    assert((2 * n + 1) * half == 2 * n * half + half) by (nonlinear_arith);
}

/// Two to the power `k`.
fn power_of_two(k: u64) -> (p: u128)
    requires
        k <= 76,
    ensures
        p == pow2(k as nat),
        p <= 0x1000_0000_0000_0000_0000,
{
    let mut p: u128 = 1;
    let mut i: u64 = 0;
    proof {
        lemma2_to64();
        lemma_pow2_adds(64, 12);
    }
    while i < k
        invariant
            i <= k <= 76,
            p == pow2(i as nat),
            p <= pow2(76),
            pow2(76) == 0x1000_0000_0000_0000_0000,
        decreases k - i,
    {
        proof {
            lemma_pow2_unfold((i + 1) as nat);
            if i + 1 < 76 {
                lemma_pow2_strictly_increases((i + 1) as nat, 76);
            }
        }
        p = p * 2;
        i += 1;
    }
    p
}

/// The utilisation that a double, given by its bit pattern, stands for.
pub fn reading(bits: u64) -> (r: Option<u32>)
    ensures
        r == reading_of(bits),
{
    let exponent: u64 = (bits / HIDDEN_BIT) % 2048;
    let fraction: u64 = bits % HIDDEN_BIT;
    if exponent == 2047 || exponent > 1075 {
        return None;
    }
    let significand: u64 = if exponent == 0 {
        fraction
    } else {
        HIDDEN_BIT + fraction
    };
    let places: u64 = if exponent == 0 {
        1074
    } else {
        1075 - exponent
    };
    let doubled: u128 = 2 * (significand as u128) * (UTILISATION_SCALE as u128);
    if places > 75 {
        proof {
            lemma2_to64();
            lemma_pow2_adds(64, 11);
            lemma_pow2_strictly_increases(75, places as nat);
            lemma_pow2_unfold((places + 1) as nat);
            let d = pow2((places + 1) as nat) as int;
            let x = doubled as int + pow2(places as nat);
            assert(x / d == 0) by (nonlinear_arith)
                requires
                    0 <= x < d,
            ;
        }
        return Some(0);
    }
    let half: u128 = power_of_two(places);
    proof {
        lemma_pow2_unfold((places + 1) as nat);
        lemma_pow2_pos(places as nat);
    }
    let count: u128 = (doubled + half) / (2 * half);
    if count == 0 {
        Some(0)
    } else if bits >= SIGN_BIT || count > UTILISATION_SCALE as u128 {
        None
    } else {
        Some(count as u32)
    }
}

/// The utilisations that a list of doubles, given by their bit patterns,
/// stands for, or `None` where one of them stands for none.
pub fn readings(bits: &Vec<u64>) -> (r: Option<Vec<u32>>)
    ensures
        match r {
            Some(counts) => readings_of(bits@) == Some(counts@),
            None => readings_of(bits@) is None,
        },
{
    let mut counts: Vec<u32> = Vec::new();
    let mut i: usize = 0;
    while i < bits.len()
        invariant
            i <= bits.len(),
            counts@.len() == i,
            forall|k: int| 0 <= k < i ==> reading_of(#[trigger] bits@[k]) == Some(counts@[k]),
        decreases bits.len() - i,
    {
        match reading(bits[i]) {
            Some(count) => {
                counts.push(count);
            },
            None => {
                return None;
            },
        }
        i += 1;
    }
    assert(counts@ =~= Seq::new(bits@.len(), |i: int| reading_of(bits@[i])->Some_0));
    Some(counts)
}

} // verus!
