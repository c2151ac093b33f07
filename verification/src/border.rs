//! Where the content area ends.
//!
//! The far border of a picture starts at eleven halves of the square length,
//! taken in single precision and cut down to a whole number. Single precision
//! keeps 24 significant bits, so for long squares the product is rounded
//! twice: once when the length becomes a single-precision value, once when
//! the product does. This module states that arithmetic over whole numbers
//! and computes it without leaving them.

use vstd::prelude::*;

verus! {

/// The first whole number that single precision may have to round: two to the 24th.
pub const SINGLE_LIMIT: u64 = 16_777_216;

/// The largest whole number whose eleven-fold is below `SINGLE_LIMIT`. Up to
/// here the border computation involves no rounding at all.
pub const EXACT_LENGTH: u32 = 1_525_201;

/// The gap between neighbouring single-precision values at the magnitude of
/// `n`: one below `SINGLE_LIMIT`, doubling with every further bit.
pub open spec fn single_ulp(n: nat) -> nat
    decreases n,
{
    if n < SINGLE_LIMIT {
        1
    } else {
        2 * single_ulp(n / 2)
    }
}

/// The single-precision value nearest to `n`: the nearest multiple of
/// `single_ulp(n)`, and of two equally near ones the even multiple.
pub open spec fn single_nearest(n: nat) -> nat {
    let u = single_ulp(n);
    let q = n / u;
    let r = n % u;
    if 2 * r < u || (2 * r == u && q % 2 == 0) {
        q * u
    } else {
        (q + 1) * u
    }
}

/// The coordinate at which the far border starts for squares of length `s`:
/// `s` as a single-precision value, times eleven halves in single precision,
/// cut down to a whole number and capped at `u32::MAX`.
///
/// Halving a single-precision value rounds nothing, so the product is half
/// the value nearest to eleven times the rounded length.
pub open spec fn border_end(s: nat) -> nat {
    let p = single_nearest(11 * single_nearest(s)) / 2;
    if p > u32::MAX {
        u32::MAX as nat
    } else {
        p
    }
}

/// Whether the content area for squares of length `s` is at most five squares
/// wide, so that every pixel inside it lies in one of the five columns and rows.
/// Rounding can push the far border out too far for some lengths above
/// `EXACT_LENGTH`.
pub open spec fn border_fits(s: nat) -> bool {
    border_end(s) <= 5 * s + s / 2
}

/// Bounds on `single_ulp`: it is positive, and a number from `SINGLE_LIMIT`
/// on has at least 23 bits more than its gap.
pub proof fn lemma_single_ulp_bounds(n: nat)
    ensures
        1 <= single_ulp(n),
        n < SINGLE_LIMIT ==> single_ulp(n) == 1,
        n >= SINGLE_LIMIT ==> single_ulp(n) * 8_388_608 <= n,
    decreases n,
{
    if n >= SINGLE_LIMIT {
        lemma_single_ulp_bounds(n / 2);
    }
}

/// `single_nearest(n)` is a multiple of the gap at `n`, and no further from
/// `n` than half the gap.
pub proof fn lemma_single_nearest_is_near(n: nat)
    ensures
        single_nearest(n) % single_ulp(n) == 0,
        2 * (single_nearest(n) - n) <= single_ulp(n),
        2 * (n - single_nearest(n)) <= single_ulp(n),
{
    let u = single_ulp(n);
    lemma_single_ulp_bounds(n);
    let q = n / u;
    let r = n % u;
    assert(n == q * u + r && 0 <= r < u && (q * u) % u == 0 && ((q + 1) * u) % u == 0 && (q + 1)
        * u == q * u + u) by (nonlinear_arith)
        requires
            q == n / u,
            r == n % u,
            u > 0,
    ;
}

/// Below `SINGLE_LIMIT` every whole number is a single-precision value.
pub proof fn lemma_single_nearest_exact(n: nat)
    requires
        n < SINGLE_LIMIT,
    ensures
        single_nearest(n) == n,
{
    assert(n / 1 == n && n % 1 == 0 && n * 1 == n);
}

/// Up to `EXACT_LENGTH` nothing is rounded: the far border starts at eleven
/// halves of the length, rounded down.
pub proof fn lemma_border_end_exact(s: nat)
    requires
        s <= EXACT_LENGTH,
    ensures
        border_end(s) == 11 * s / 2,
        border_fits(s),
{
    lemma_single_nearest_exact(s);
    lemma_single_nearest_exact(11 * s);
}

fn ulp_of(n: u64) -> (u: u64)
    ensures
        u == single_ulp(n as nat),
        1 <= u,
        n >= SINGLE_LIMIT ==> u * 8_388_608 <= n,
    decreases n,
{
    proof {
        lemma_single_ulp_bounds(n as nat);
    }
    if n < SINGLE_LIMIT {
        1
    } else {
        proof {
            lemma_single_ulp_bounds((n / 2) as nat);
        }
        2 * ulp_of(n / 2)
    }
}

/// Rounds `n` to the nearest single-precision value, ties to even.
pub fn nearest_single(n: u64) -> (r: u64)
    requires
        n <= u64::MAX / 2,
    ensures
        r == single_nearest(n as nat),
{
    let u: u64 = ulp_of(n);
    let q: u64 = n / u;
    let r: u64 = n % u;
    assert(q * u <= n && (q + 1) * u == q * u + u) by (nonlinear_arith)
        requires
            q == n / u,
            u > 0,
    ;
    if 2 * r < u || (2 * r == u && q % 2 == 0) {
        q * u
    } else {
        (q + 1) * u
    }
}

/// Computes where the far border starts for squares of the given length.
pub fn upper_border(square_length: u32) -> (t: u32)
    ensures
        t == border_end(square_length as nat),
{
    let f: u64 = nearest_single(square_length as u64);
    proof {
        lemma_single_nearest_bound(square_length as nat);
    }
    let p: u64 = nearest_single(11 * f) / 2;
    if p > u32::MAX as u64 {
        u32::MAX
    } else {
        p as u32
    }
}

/// Rounding at most doubles a number.
pub proof fn lemma_single_nearest_bound(n: nat)
    ensures
        single_nearest(n) <= 2 * n,
{
    let u = single_ulp(n);
    lemma_single_ulp_bounds(n);
    let q = n / u;
    assert(q * u <= n && (q + 1) * u == q * u + u) by (nonlinear_arith)
        requires
            q == n / u,
            u > 0,
    ;
}

} // verus!
