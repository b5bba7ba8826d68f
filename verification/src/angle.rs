//! Angle arithmetic in millidegrees, and fixed-point trigonometry.
//!
//! Rotations are held as signed 64-bit counts of millidegrees. A normalized
//! angle lies in the half-open range (-180_000, 180_000], i.e. (-180, 180]
//! degrees, so composing rotations never drifts out of that range.
//!
//! Sine and cosine are computed in fixed point with scale 2^16, by a
//! rational approximation that is exact at every multiple of 30 degrees.
use vstd::prelude::*;

verus! {

use vstd::arithmetic::div_mod::{
    lemma_fundamental_div_mod,
    lemma_mod_bound,
    lemma_mod_multiples_vanish,
    lemma_small_mod,
};

/// The angle congruent to `a` modulo a full turn that lies in
/// (-180_000, 180_000].
pub open spec fn norm_mdeg(a: int) -> int {
    180_000 - ((180_000 - a) % 360_000)
}

/// Whether `a` already lies in the normalized range (-180_000, 180_000].
pub open spec fn is_norm_mdeg(a: int) -> bool {
    -180_000 < a <= 180_000
}

/// Normalization always lands in (-180_000, 180_000].
pub broadcast proof fn lemma_norm_range(a: int)
    ensures
        is_norm_mdeg(#[trigger] norm_mdeg(a)),
{
    lemma_mod_bound(180_000 - a, 360_000);
}

/// An angle already in (-180_000, 180_000] is left unchanged.
pub broadcast proof fn lemma_norm_of_normalized(a: int)
    requires
        is_norm_mdeg(a),
    ensures
        #[trigger] norm_mdeg(a) == a,
{
    lemma_small_mod((180_000 - a) as nat, 360_000 as nat);
}

/// Normalizing one summand before adding does not change the
/// normalized sum.
pub proof fn lemma_norm_add(a: int, b: int)
    ensures
        norm_mdeg(norm_mdeg(a) + b) == norm_mdeg(a + b),
{
    let q = (180_000 - a) / 360_000;
    lemma_fundamental_div_mod(180_000 - a, 360_000);
    // norm_mdeg(a) == a + 360_000 * q
    lemma_mod_multiples_vanish(-q, 180_000 - (a + b), 360_000);
}

/// Exact bound needed by the sine approximation: t * (180_000 - t)
/// peaks at the quarter turn.
proof fn lemma_sin_arg_product_bound(t: int)
    requires
        0 <= t <= 180_000,
    ensures
        0 <= t * (180_000 - t) <= 8_100_000_000,
{
    assert(0 <= t * (180_000 - t) <= 8_100_000_000) by (nonlinear_arith)
        requires
            0 <= t <= 180_000,
    ;
}

/// Fixed-point sine on [0, 180_000] millidegrees, by the rational
/// approximation 4 d (180 - d) / (40500 - d (180 - d)) with d in degrees,
/// scaled by 2^16. Exact at 0, 30, 90, 150 and 180 degrees.
pub open spec fn sin_half_mdeg(t: int) -> int
    recommends
        0 <= t <= 180_000,
{
    let p = t * (180_000 - t);
    (4 * p * 65_536) / (40_500_000_000 - p)
}

/// Fixed-point sine on the normalized range, odd extension of
/// `sin_half_mdeg`.
pub open spec fn sin_mdeg(t: int) -> int
    recommends
        -180_000 <= t <= 180_000,
{
    if t >= 0 {
        sin_half_mdeg(t)
    } else {
        -sin_half_mdeg(-t)
    }
}

/// Fixed-point cosine on the normalized range, as the sine of the
/// complementary angle.
pub open spec fn cos_mdeg(t: int) -> int
    recommends
        -180_000 <= t <= 180_000,
{
    sin_mdeg(norm_mdeg(90_000 - t))
}

/// The sine approximation stays within the fixed-point unit.
pub proof fn lemma_sin_half_bounds(t: int)
    requires
        0 <= t <= 180_000,
    ensures
        0 <= sin_half_mdeg(t) <= 65_536,
{
    lemma_sin_arg_product_bound(t);
    let p = t * (180_000 - t);
    let num = 4 * p * 65_536;
    let den = 40_500_000_000 - p;
    assert(num >= 0) by (nonlinear_arith)
        requires
            p >= 0,
            num == 4 * p * 65_536,
    ;
    assert(den >= 32_400_000_000);
    vstd::arithmetic::div_mod::lemma_div_pos_is_pos(num, den);
    assert(num <= 65_536 * den) by (nonlinear_arith)
        requires
            0 <= p <= 8_100_000_000,
            num == 4 * p * 65_536,
            den == 40_500_000_000 - p,
    ;
    vstd::arithmetic::div_mod::lemma_div_is_ordered(num, 65_536 * den, den);
    vstd::arithmetic::div_mod::lemma_div_multiples_vanish(65_536, den);
}

/// Sine and cosine stay within the fixed-point unit on the whole
/// normalized range.
pub proof fn lemma_trig_bounds(t: int)
    requires
        -180_000 <= t <= 180_000,
    ensures
        -65_536 <= sin_mdeg(t) <= 65_536,
        -65_536 <= cos_mdeg(t) <= 65_536,
{
    if t >= 0 {
        lemma_sin_half_bounds(t);
    } else {
        lemma_sin_half_bounds(-t);
    }
    lemma_norm_range(90_000 - t);
    let c = norm_mdeg(90_000 - t);
    if c >= 0 {
        lemma_sin_half_bounds(c);
    } else {
        lemma_sin_half_bounds(-c);
    }
}

/// Normalizes an angle given as a wide intermediate sum.
pub fn norm_angle_wide(a: i128) -> (r: i64)
    requires
        -36_893_488_147_419_103_232 <= a <= 36_893_488_147_419_103_232,
    ensures
        r == norm_mdeg(a as int),
        is_norm_mdeg(r as int),
{
    let d: i128 = 180_000 - a;
    // Shift by a large multiple of the full turn so the dividend of the
    // Euclidean remainder below is non-negative.
    let u: i128 = d + 360_000i128 * 110_000_000_000_000i128;
    let m: i128 = u % 360_000;
    proof {
        lemma_mod_multiples_vanish(110_000_000_000_000, d as int, 360_000);
        lemma_mod_bound(u as int, 360_000);
    }
    (180_000 - m) as i64
}

/// Normalizes an angle held in 64 bits.
pub fn norm_angle(a: i64) -> (r: i64)
    ensures
        r == norm_mdeg(a as int),
        is_norm_mdeg(r as int),
{
    norm_angle_wide(a as i128)
}

/// Fixed-point sine of a normalized angle, scaled by 2^16.
pub fn sin_fp(t: i64) -> (r: i64)
    requires
        -180_000 <= t <= 180_000,
    ensures
        r == sin_mdeg(t as int),
        -65_536 <= r <= 65_536,
{
    let mag: i64 = if t >= 0 {
        t
    } else {
        -t
    };
    proof {
        lemma_sin_arg_product_bound(mag as int);
        lemma_sin_half_bounds(mag as int);
    }
    let p: i64 = mag * (180_000 - mag);
    let num: u64 = (4 * p * 65_536) as u64;
    let den: u64 = (40_500_000_000 - p) as u64;
    let q: i64 = (num / den) as i64;
    if t >= 0 {
        q
    } else {
        -q
    }
}

/// Fixed-point cosine of a normalized angle, scaled by 2^16.
pub fn cos_fp(t: i64) -> (r: i64)
    requires
        -180_000 <= t <= 180_000,
    ensures
        r == cos_mdeg(t as int),
        -65_536 <= r <= 65_536,
{
    let c: i64 = norm_angle_wide(90_000i128 - t as i128);
    sin_fp(c)
}

} // verus!
