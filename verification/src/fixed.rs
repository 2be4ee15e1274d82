//! Fixed-point scalars.
//!
//! Every real-valued quantity of the tracer (coordinates, distances,
//! colour channels, angles) is carried as a signed count of millionths.
//! `UNIT` units make 1.0. All arithmetic on these scalars is exact
//! integer arithmetic; the only rounding happens in `div_round`, which
//! rounds to the nearest unit, and in `isqrt`, which rounds down.

use vstd::prelude::*;

verus! {

/// Number of fixed-point units in 1.0.
pub const UNIT: i64 = 1_000_000;

/// `UNIT` as an `i128`, for wide intermediate products.
pub const UNIT_WIDE: i128 = 1_000_000;

/// Division rounded to the nearest integer, halves away from zero.
/// Only used with `den > 0`.
pub open spec fn rdiv(num: int, den: int) -> int {
    if num >= 0 {
        (num + den / 2) / den
    } else {
        -(((-num) + den / 2) / den)
    }
}

/// Floor of the square root of a non-negative integer.
pub open spec fn sqrt_floor(n: int) -> int {
    choose|r: int| 0 <= r && #[trigger] (r * r) <= n && n < (r + 1) * (r + 1)
}

/// Two integers that both satisfy the floor-square-root property of `n`
/// are equal, so `sqrt_floor` is well defined wherever a witness exists.
pub proof fn lemma_sqrt_floor_unique(n: int, r: int)
    requires
        0 <= r,
        r * r <= n,
        n < (r + 1) * (r + 1),
    ensures
        sqrt_floor(n) == r,
{
    assert(exists|q: int| 0 <= q && #[trigger] (q * q) <= n && n < (q + 1) * (q + 1)) by {
        assert(0 <= r && r * r <= n && n < (r + 1) * (r + 1));
    }
    let q = sqrt_floor(n);
    assert(0 <= q && q * q <= n && n < (q + 1) * (q + 1));
    if q < r {
        assert((q + 1) * (q + 1) <= r * r) by (nonlinear_arith)
            requires 0 <= q, 0 <= r, q < r,
        ;
    }
    if r < q {
        assert((r + 1) * (r + 1) <= q * q) by (nonlinear_arith)
            requires 0 <= q, 0 <= r, r < q,
        ;
    }
}

/// Every non-negative integer has a floor square root, so `sqrt_floor`
/// satisfies its defining bracket wherever its argument is in range.
pub proof fn lemma_sqrt_floor_bounds(n: int)
    requires
        0 <= n,
    ensures
        0 <= sqrt_floor(n),
        sqrt_floor(n) * sqrt_floor(n) <= n,
        n < (sqrt_floor(n) + 1) * (sqrt_floor(n) + 1),
    decreases n,
{
    if n == 0 {
        lemma_sqrt_floor_unique(0, 0);
    } else {
        lemma_sqrt_floor_bounds(n - 1);
        let r = sqrt_floor(n - 1);
        if n < (r + 1) * (r + 1) {
            lemma_sqrt_floor_unique(n, r);
        } else {
            assert(n == (r + 1) * (r + 1));
            assert((r + 1) * (r + 1) < (r + 2) * (r + 2)) by (nonlinear_arith)
                requires r >= 0,
            ;
            lemma_sqrt_floor_unique(n, r + 1);
        }
    }
}

/// A floor square root is zero exactly on a zero argument.
pub proof fn lemma_sqrt_zero_iff(n: int, r: int)
    by (nonlinear_arith)
    requires
        0 <= n,
        0 <= r,
        r * r <= n,
        n < (r + 1) * (r + 1),
    ensures
        (r == 0) <==> (n == 0),
{
}

/// Squares are non-negative and vanish only at zero.
pub proof fn lemma_sq(a: int)
    by (nonlinear_arith)
    ensures
        a * a >= 0,
        a * a == 0 ==> a == 0,
{
}

/// A product of scalars bounded in magnitude is bounded by the product
/// of the bounds.
pub proof fn lemma_mul_bound(a: int, b: int, ca: int, cb: int)
    by (nonlinear_arith)
    requires
        -ca <= a <= ca,
        -cb <= b <= cb,
    ensures
        -(ca * cb) <= a * b <= ca * cb,
{
}

/// Rounded division scales down: a numerator within `c` multiples of the
/// divisor gives a quotient within `c`.
pub proof fn lemma_rdiv_bound(num: int, den: int, c: int)
    by (nonlinear_arith)
    requires
        den > 0,
        0 <= c,
        -(c * den) <= num <= c * den,
    ensures
        -c <= rdiv(num, den) <= c,
{
}

/// A rounded quotient of a non-negative numerator by a positive
/// divisor is non-negative.
pub proof fn lemma_rdiv_nonneg(num: int, den: int)
    requires
        num >= 0,
        den > 0,
    ensures
        rdiv(num, den) >= 0,
{
    assert((num + den / 2) / den >= 0) by (nonlinear_arith)
        requires num >= 0, den > 0,
    ;
}

/// Rounded division of wide intermediates, used to bring a product of
/// fixed-point scalars back to scale.
pub fn div_round(num: i128, den: i128) -> (r: i128)
    requires
        den > 0,
        -0x40000000000000000000000000000000 < num < 0x40000000000000000000000000000000,
    ensures
        r == rdiv(num as int, den as int),
{
    let h: i128 = den / 2;
    if num >= 0 {
        (num + h) / den
    } else {
        -((-num + h) / den)
    }
}

/// Floor square root of a wide non-negative value.
pub fn isqrt(n: u128) -> (r: u64)
    ensures
        r * r <= n < (r + 1) * (r + 1),
        r == sqrt_floor(n as int),
{
    let mut lo: u128 = 0;
    let mut hi: u128 = 0x1_0000_0000_0000_0000;
    while lo + 1 < hi
        invariant
            0 <= lo < hi <= 0x1_0000_0000_0000_0000,
            lo * lo <= n,
            (hi * hi) as int > n,
        decreases hi - lo,
    {
        let mid: u128 = lo + (hi - lo) / 2;
        assert(lo < mid < hi);
        assert((mid as int) * (mid as int) < 0x1_0000_0000_0000_0000_0000_0000_0000_0000) by (nonlinear_arith)
            requires (mid as int) < 0x1_0000_0000_0000_0000,
                0 <= mid as int,
        ;
        if mid * mid <= n {
            lo = mid;
        } else {
            hi = mid;
        }
    }
    assert(hi == lo + 1);
    proof {
        lemma_sqrt_floor_unique(n as int, lo as int);
    }
    lo as u64
}


/// The fixed-point reading of an IEEE double-precision bit pattern:
/// the represented magnitude in millionths, rounded to nearest and
/// saturated at one thousand units; zeros, subnormals (all below one
/// millionth) and not-a-number patterns read as zero, and infinities
/// saturate.
pub open spec fn fx_of_bits(bits: u64) -> int {
    let sign: int = if bits >= 0x8000_0000_0000_0000 { -1 } else { 1 };
    let exp = ((bits as int) / 0x10_0000_0000_0000) % 0x800;
    let frac = (bits as int) % 0x10_0000_0000_0000;
    if exp == 0x7FF {
        if frac != 0 {
            0
        } else {
            sign * 1_000_000_000
        }
    } else if exp == 0 {
        0
    } else {
        let m = 0x10_0000_0000_0000 + frac;
        if exp > 1075 {
            sign * 1_000_000_000
        } else {
            let mag = rdiv(m * (UNIT as int), vstd::arithmetic::power2::pow2((1075 - exp) as nat) as int);
            if mag > 1_000_000_000 {
                sign * 1_000_000_000
            } else {
                sign * mag
            }
        }
    }
}

/// Decode an IEEE double-precision bit pattern; see `fx_of_bits`.
pub fn fx_from_bits(bits: u64) -> (r: i64)
    ensures
        r == fx_of_bits(bits),
        -1_000_000_000 <= r <= 1_000_000_000,
{
    broadcast use vstd::arithmetic::power2::lemma_pow2_pos;

    let neg = bits >= 0x8000_0000_0000_0000;
    let exp: u64 = (bits / 0x10_0000_0000_0000) % 0x800;
    let frac: u64 = bits % 0x10_0000_0000_0000;
    if exp == 0x7FF {
        if frac != 0 {
            0
        } else if neg {
            -1_000_000_000
        } else {
            1_000_000_000
        }
    } else if exp == 0 {
        0
    } else if exp > 1075 {
        if neg {
            -1_000_000_000
        } else {
            1_000_000_000
        }
    } else {
        let m: u128 = 0x10_0000_0000_0000 + frac as u128;
        let p: u64 = 1075 - exp;
        let num: u128 = m * 1_000_000;
        proof {
            assert(num < 0x200_0000_0000_0000_0000) by (nonlinear_arith)
                requires num == m * 1_000_000, m < 0x20_0000_0000_0000,
            ;
        }
        if p >= 74 {
            proof {
                vstd::arithmetic::power2::lemma2_to64();
                vstd::arithmetic::power2::lemma_pow2_adds(64, 9);
                vstd::arithmetic::power2::lemma2_to64_rest();
                if p > 73 {
                    vstd::arithmetic::power2::lemma_pow2_strictly_increases(73, p as nat);
                }
                let d = vstd::arithmetic::power2::pow2(p as nat) as int;
                assert(vstd::arithmetic::power2::pow2(73) == 0x200_0000_0000_0000_0000) by {
                    vstd::arithmetic::power2::lemma_pow2_adds(64, 9);
                };
                assert(d >= 0x400_0000_0000_0000_0000) by {
                    vstd::arithmetic::power2::lemma_pow2_adds(73, 1);
                    if p > 74 {
                        vstd::arithmetic::power2::lemma_pow2_strictly_increases(74, p as nat);
                    }
                };
                assert(num as int + d / 2 < d);
                vstd::arithmetic::div_mod::lemma_basic_div(num as int + d / 2, d);
                assert(rdiv(num as int, d) == 0);
            }
            0
        } else {
            let mut den: u128 = 1;
            let mut k: u64 = 0;
            proof { vstd::arithmetic::power2::lemma2_to64(); }
            while k < p
                invariant
                    0 <= k <= p <= 73,
                    den == vstd::arithmetic::power2::pow2(k as nat),
                    den <= 0x200_0000_0000_0000_0000,
                decreases p - k,
            {
                proof {
                    vstd::arithmetic::power2::lemma_pow2_unfold((k + 1) as nat);
                    if (k + 1) as nat <= 73 {
                        vstd::arithmetic::power2::lemma2_to64();
                        vstd::arithmetic::power2::lemma_pow2_adds(64, 9);
                        if ((k + 1) as nat) < 73 {
                            vstd::arithmetic::power2::lemma_pow2_strictly_increases((k + 1) as nat, 73);
                        }
                        assert(vstd::arithmetic::power2::pow2(73) == 0x200_0000_0000_0000_0000);
                    }
                }
                den = den * 2;
                k += 1;
            }
            proof {
                lemma_rdiv_bound(num as int, den as int, 0x200_0000_0000_0000_0000);
                lemma_rdiv_nonneg(num as int, den as int);
            }
            let mag128 = div_round(num as i128, den as i128);
            let mag: i64 = if mag128 > 1_000_000_000 { 1_000_000_000 } else { mag128 as i64 };
            if neg {
                -mag
            } else {
                mag
            }
        }
    }
}

} // verus!
