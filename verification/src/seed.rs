//! The pseudo-random numbers behind the digit counter and the glitch bars.

use vstd::prelude::*;

verus! {

/// The seed of the first frame.
pub const FIRST_SEED: u64 = 12345678901234567;

/// How many 64-bit numbers there are.
pub open spec fn two_to_64() -> int {
    0x1_0000_0000_0000_0000
}

/// The seed after `seed`: one step of a linear congruential generator on 64-bit numbers.
pub open spec fn seed_after(seed: u64) -> u64 {
    ((seed * 6364136223846793005 + 1442695040888963407) % two_to_64()) as u64
}

/// Adds in 64 bits.
pub(crate) fn wrapping_sum(a: u64, b: u64) -> (sum: u64)
    ensures
        sum == (a + b) % two_to_64(),
{
    proof {
        let m = two_to_64();
        if a + b < m {
            vstd::arithmetic::div_mod::lemma_small_mod((a + b) as nat, m as nat);
        } else {
            vstd::arithmetic::div_mod::lemma_mod_sub_multiples_vanish(a + b, m);
            vstd::arithmetic::div_mod::lemma_small_mod((a + b - m) as nat, m as nat);
        }
    }
    a.wrapping_add(b)
}

/// Steps the generator.
pub fn next_seed(seed: u64) -> (next: u64)
    ensures
        next == seed_after(seed),
{
    let product: u64 = seed.wrapping_mul(6364136223846793005);
    proof {
        lemma_reduced_first(
            seed * 6364136223846793005,
            product as int,
            1442695040888963407,
            two_to_64(),
        );
    }
    wrapping_sum(product, 1442695040888963407)
}

/// A term of a sum may be reduced before the sum is.
pub(crate) proof fn lemma_reduced_first(full: int, reduced: int, other: int, m: int)
    requires
        m > 0,
        reduced == full % m,
    ensures
        (reduced + other) % m == (full + other) % m,
{
    vstd::arithmetic::div_mod::lemma_add_mod_noop_right(other, full, m);
}

/// The number drawn for `offset` in a frame with this seed: the upper 31 bits of a 64-bit sum.
pub open spec fn drawn(seed: u64, offset: u64) -> u32 {
    ((seed + offset * 2891336453) % two_to_64() / 0x2_0000_0000) as u32
}

/// Draws a number below 2^31. Divided by 4294967295 it is a fraction from 0 to one half.
pub fn lcg_bits(seed: u64, offset: u64) -> (bits: u32)
    ensures
        bits == drawn(seed, offset),
        bits < 0x8000_0000,
{
    let product: u64 = offset.wrapping_mul(2891336453);
    let s: u64 = wrapping_sum(product, seed);
    proof {
        lemma_reduced_first(offset * 2891336453, product as int, seed as int, two_to_64());
    }
    assert(s >> 33 == s / 0x2_0000_0000) by (bit_vector);
    assert(s / 0x2_0000_0000 < 0x8000_0000) by (bit_vector);
    (s >> 33) as u32
}

/// A factor that has an inverse can be taken out of a multiple of `m`.
proof fn lemma_cancel(d: int, factor: int, inverse: int, k: int, m: int)
    requires
        m > 0,
        factor * inverse == 1 + k * m,
        (d * factor) % m == 0,
        -m < d < m,
    ensures
        d == 0,
{
    let q = (d * factor) / m;
    vstd::arithmetic::div_mod::lemma_fundamental_div_mod(d * factor, m);
    assert(d == m * (q * inverse - d * k)) by (nonlinear_arith)
        requires
            d * factor == m * q,
            factor * inverse == 1 + k * m,
    ;
    let n = q * inverse - d * k;
    assert(n == 0) by (nonlinear_arith)
        requires
            -m < m * n < m,
            m > 0,
    ;
    assert(m * 0 == 0);
}

/// No two seeds step to the same one, so the generator never narrows.
pub proof fn lemma_seeds_stay_apart(a: u64, b: u64)
    requires
        seed_after(a) == seed_after(b),
    ensures
        a == b,
{
    let m = two_to_64();
    let factor: int = 6364136223846793005;
    let x = a * factor + 1442695040888963407;
    let y = b * factor + 1442695040888963407;
    vstd::arithmetic::div_mod::lemma_mod_bound(x, m);
    vstd::arithmetic::div_mod::lemma_mod_bound(y, m);
    vstd::arithmetic::div_mod::lemma_mod_equivalence(x, y, m);
    assert(x - y == (a - b) * factor);
    assert(factor * 13877824140714322085 == 1 + 4787856489426250814 * m);
    lemma_cancel(a - b, factor, 13877824140714322085, 4787856489426250814, m);
}

/// The step multiplies by 6364136223846793005 and adds 1442695040888963407, up to a multiple of
/// 2^64.
pub proof fn lemma_step_is_linear(seed: u64)
    ensures
        (seed * 6364136223846793005 + 1442695040888963407 - seed_after(seed))
            % 0x1_0000_0000_0000_0000 == 0,
{
    let x = seed * 6364136223846793005 + 1442695040888963407;
    let m: int = 0x1_0000_0000_0000_0000;
    vstd::arithmetic::div_mod::lemma_mod_bound(x, m);
    vstd::arithmetic::div_mod::lemma_fundamental_div_mod(x, m);
    vstd::arithmetic::div_mod::lemma_mod_multiples_basic(x / m, m);
}

/// What is drawn is the upper 31 of the 64 bits of the seed and 2891336453 times the offset, summed
/// up.
pub proof fn lemma_drawn_from_the_upper_bits(seed: u64, offset: u64)
    ensures
        ({
            let sum = (seed + offset * 2891336453) % 0x1_0000_0000_0000_0000;
            &&& 0x2_0000_0000 * drawn(seed, offset) <= sum
            &&& sum < 0x2_0000_0000 * (drawn(seed, offset) + 1)
            &&& drawn(seed, offset) < 0x8000_0000
        }),
{
    let sum = (seed + offset * 2891336453) % 0x1_0000_0000_0000_0000;
    vstd::arithmetic::div_mod::lemma_mod_bound(
        seed + offset * 2891336453,
        0x1_0000_0000_0000_0000,
    );
    assert(0 <= sum / 0x2_0000_0000 < 0x8000_0000);
}

} // verus!
