//! Three-component vectors in fixed-point scale.
//!
//! Componentwise operations are exact; `dot`, `cross` and the scalings
//! divide the raw product by `UNIT` with rounding to nearest, and the
//! lengths round down through the integer square root.

use vstd::prelude::*;
use crate::fixed::{rdiv, sqrt_floor, isqrt, div_round, lemma_mul_bound, lemma_rdiv_bound, UNIT};

verus! {

/// Bound on each component for the multiplicative operations.
pub const VMAX: i64 = 1_000_000_000_000;

/// Bound on each component for the cross product, which tolerates
/// wider inputs than the other multiplicative operations.
pub const CMAX: i64 = 2_000_000_000_000;

/// Bound on each component for the additive operations.
pub const AMAX: i64 = 4_000_000_000_000_000_000;

/// Bound on each component for the norm operations.
pub const NMAX: i64 = 2_000_000_000_000_000_000;

#[derive(Clone, Copy, Debug, PartialEq, Eq, Structural)]
pub struct Vec3 {
    pub x: i64,
    pub y: i64,
    pub z: i64,
}

/// Raw (unscaled) dot product of two vectors.
pub open spec fn dot_raw(a: Vec3, b: Vec3) -> int {
    a.x * b.x + a.y * b.y + a.z * b.z
}

/// Raw squared norm of a vector.
pub open spec fn sq_norm(v: Vec3) -> int {
    dot_raw(v, v)
}

/// Every component within `c` in magnitude.
pub open spec fn in_range(v: Vec3, c: int) -> bool {
    -c <= v.x <= c && -c <= v.y <= c && -c <= v.z <= c
}

/// A vector as a triple of unbounded integers, for raw intermediate
/// arithmetic in specifications.
pub open spec fn tvec(v: Vec3) -> (int, int, int) {
    (v.x as int, v.y as int, v.z as int)
}

pub open spec fn tsub(a: (int, int, int), b: (int, int, int)) -> (int, int, int) {
    (a.0 - b.0, a.1 - b.1, a.2 - b.2)
}

pub open spec fn tdot(a: (int, int, int), b: (int, int, int)) -> int {
    a.0 * b.0 + a.1 * b.1 + a.2 * b.2
}

pub open spec fn tcross(a: (int, int, int), b: (int, int, int)) -> (int, int, int) {
    (a.1 * b.2 - a.2 * b.1, a.2 * b.0 - a.0 * b.2, a.0 * b.1 - a.1 * b.0)
}

/// Bound on primitive (scene geometry) coordinates.
pub const PMAX: i64 = 1_000_000_000;

/// Bound on ray direction components handed to the intersectors.
pub const DIRMAX: i64 = 100_000_000;

/// Bound on ray origin components handed to the intersectors.
pub const ORIMAX: i64 = 4_000_000_000;

/// Largest hit distance the intersectors report.
pub const T_MAX: i64 = 4_000_000_000_000_000;

/// What `add` returns.
pub open spec fn add_spec(a: Vec3, b: Vec3) -> Vec3 {
    Vec3 { x: (a.x + b.x) as i64, y: (a.y + b.y) as i64, z: (a.z + b.z) as i64 }
}

/// What `sub` returns.
pub open spec fn sub_spec(a: Vec3, b: Vec3) -> Vec3 {
    Vec3 { x: (a.x - b.x) as i64, y: (a.y - b.y) as i64, z: (a.z - b.z) as i64 }
}

/// What `mult` returns.
pub open spec fn mult_spec(v: Vec3, num: int) -> Vec3 {
    Vec3 {
        x: rdiv(v.x * num, UNIT as int) as i64,
        y: rdiv(v.y * num, UNIT as int) as i64,
        z: rdiv(v.z * num, UNIT as int) as i64,
    }
}

/// What `mul` returns.
pub open spec fn mul_spec(a: Vec3, b: Vec3) -> Vec3 {
    Vec3 {
        x: rdiv(a.x * b.x, UNIT as int) as i64,
        y: rdiv(a.y * b.y, UNIT as int) as i64,
        z: rdiv(a.z * b.z, UNIT as int) as i64,
    }
}

/// What `cross` returns.
pub open spec fn cross_spec(a: Vec3, b: Vec3) -> Vec3 {
    Vec3 {
        x: rdiv(a.y * b.z - a.z * b.y, UNIT as int) as i64,
        y: rdiv(a.z * b.x - a.x * b.z, UNIT as int) as i64,
        z: rdiv(a.x * b.y - a.y * b.x, UNIT as int) as i64,
    }
}

/// What `dot` returns.
pub open spec fn dot_spec(a: Vec3, b: Vec3) -> int {
    rdiv(dot_raw(a, b), UNIT as int)
}

/// What `length` returns.
pub open spec fn length_spec(v: Vec3) -> int {
    sqrt_floor(sq_norm(v))
}

/// What `normalize` leaves behind.
pub open spec fn normalize_spec(v: Vec3) -> Vec3 {
    if sq_norm(v) == 0 {
        v
    } else {
        Vec3 {
            x: rdiv(v.x * (UNIT as int), length_spec(v)) as i64,
            y: rdiv(v.y * (UNIT as int), length_spec(v)) as i64,
            z: rdiv(v.z * (UNIT as int), length_spec(v)) as i64,
        }
    }
}

/// What `distance` returns.
pub open spec fn distance_spec(a: Vec3, b: Vec3) -> int {
    sqrt_floor(sq_norm(sub_spec(a, b)))
}

/// What `get_area` returns.
pub open spec fn area_spec(a: Vec3, b: Vec3, c: Vec3) -> int {
    rdiv(length_spec(cross_spec(sub_spec(b, a), sub_spec(c, a))), 2)
}

impl Vec3 {
    /// The zero vector.
    pub fn new() -> (v: Vec3)
        ensures
            v.x == 0 && v.y == 0 && v.z == 0,
    {
        Vec3 { x: 0, y: 0, z: 0 }
    }

    pub fn init(x: i64, y: i64, z: i64) -> (v: Vec3)
        ensures
            v.x == x && v.y == y && v.z == z,
    {
        Vec3 { x, y, z }
    }

    /// Componentwise sum.
    pub fn add(self, vec: Vec3) -> (r: Vec3)
        requires
            in_range(self, AMAX as int),
            in_range(vec, AMAX as int),
        ensures
            r == add_spec(self, vec),
            r.x == self.x + vec.x,
            r.y == self.y + vec.y,
            r.z == self.z + vec.z,
    {
        Vec3 { x: self.x + vec.x, y: self.y + vec.y, z: self.z + vec.z }
    }

    /// Componentwise difference.
    pub fn sub(self, vec: Vec3) -> (r: Vec3)
        requires
            in_range(self, AMAX as int),
            in_range(vec, AMAX as int),
        ensures
            r == sub_spec(self, vec),
            r.x == self.x - vec.x,
            r.y == self.y - vec.y,
            r.z == self.z - vec.z,
    {
        Vec3 { x: self.x - vec.x, y: self.y - vec.y, z: self.z - vec.z }
    }

    /// Componentwise product at fixed-point scale.
    pub fn mul(self, vec: Vec3) -> (r: Vec3)
        requires
            in_range(self, VMAX as int),
            in_range(vec, VMAX as int),
        ensures
            r == mul_spec(self, vec),
            r.x == rdiv(self.x * vec.x, UNIT as int),
            r.y == rdiv(self.y * vec.y, UNIT as int),
            r.z == rdiv(self.z * vec.z, UNIT as int),
    {
        proof {
            lemma_mul_bound(self.x as int, vec.x as int, VMAX as int, VMAX as int);
            lemma_mul_bound(self.y as int, vec.y as int, VMAX as int, VMAX as int);
            lemma_mul_bound(self.z as int, vec.z as int, VMAX as int, VMAX as int);
            lemma_rdiv_bound(self.x * vec.x, UNIT as int, 0x1000_0000_0000_0000_0000);
            lemma_rdiv_bound(self.y * vec.y, UNIT as int, 0x1000_0000_0000_0000_0000);
            lemma_rdiv_bound(self.z * vec.z, UNIT as int, 0x1000_0000_0000_0000_0000);
        }
        Vec3 {
            x: div_round((self.x as i128) * (vec.x as i128), 1_000_000) as i64,
            y: div_round((self.y as i128) * (vec.y as i128), 1_000_000) as i64,
            z: div_round((self.z as i128) * (vec.z as i128), 1_000_000) as i64,
        }
    }

    /// Scale by the fixed-point factor `num`.
    pub fn mult(self, num: i64) -> (r: Vec3)
        requires
            in_range(self, VMAX as int),
            -VMAX <= num <= VMAX,
        ensures
            r == mult_spec(self, num as int),
            r.x == rdiv(self.x * num, UNIT as int),
            r.y == rdiv(self.y * num, UNIT as int),
            r.z == rdiv(self.z * num, UNIT as int),
    {
        proof {
            lemma_mul_bound(self.x as int, num as int, VMAX as int, VMAX as int);
            lemma_mul_bound(self.y as int, num as int, VMAX as int, VMAX as int);
            lemma_mul_bound(self.z as int, num as int, VMAX as int, VMAX as int);
            lemma_rdiv_bound(self.x * num, UNIT as int, 0x1000_0000_0000_0000_0000);
            lemma_rdiv_bound(self.y * num, UNIT as int, 0x1000_0000_0000_0000_0000);
            lemma_rdiv_bound(self.z * num, UNIT as int, 0x1000_0000_0000_0000_0000);
        }
        Vec3 {
            x: div_round((self.x as i128) * (num as i128), 1_000_000) as i64,
            y: div_round((self.y as i128) * (num as i128), 1_000_000) as i64,
            z: div_round((self.z as i128) * (num as i128), 1_000_000) as i64,
        }
    }

    /// Negation; exact.
    pub fn invert(self) -> (r: Vec3)
        requires
            in_range(self, AMAX as int),
        ensures
            r.x == -self.x,
            r.y == -self.y,
            r.z == -self.z,
    {
        Vec3 { x: -self.x, y: -self.y, z: -self.z }
    }

    /// Dot product at fixed-point scale.
    pub fn dot(&self, other: Vec3) -> (r: i64)
        requires
            in_range(*self, VMAX as int),
            in_range(other, VMAX as int),
        ensures
            r == dot_spec(*self, other),
    {
        proof {
            lemma_mul_bound(self.x as int, other.x as int, VMAX as int, VMAX as int);
            lemma_mul_bound(self.y as int, other.y as int, VMAX as int, VMAX as int);
            lemma_mul_bound(self.z as int, other.z as int, VMAX as int, VMAX as int);
            lemma_rdiv_bound(
                dot_raw(*self, other),
                UNIT as int,
                0x3000_0000_0000_0000_0000,
            );
        }
        let raw: i128 = (self.x as i128) * (other.x as i128)
            + (self.y as i128) * (other.y as i128)
            + (self.z as i128) * (other.z as i128);
        div_round(raw, 1_000_000) as i64
    }

    /// Cross product at fixed-point scale.
    pub fn cross(&self, vec: Vec3) -> (r: Vec3)
        requires
            in_range(*self, CMAX as int),
            in_range(vec, CMAX as int),
        ensures
            r == cross_spec(*self, vec),
    {
        proof {
            lemma_mul_bound(self.y as int, vec.z as int, CMAX as int, CMAX as int);
            lemma_mul_bound(self.z as int, vec.y as int, CMAX as int, CMAX as int);
            lemma_mul_bound(self.z as int, vec.x as int, CMAX as int, CMAX as int);
            lemma_mul_bound(self.x as int, vec.z as int, CMAX as int, CMAX as int);
            lemma_mul_bound(self.x as int, vec.y as int, CMAX as int, CMAX as int);
            lemma_mul_bound(self.y as int, vec.x as int, CMAX as int, CMAX as int);
            lemma_rdiv_bound(
                self.y * vec.z - self.z * vec.y,
                UNIT as int,
                8_200_000_000_000_000_000,
            );
            lemma_rdiv_bound(
                self.z * vec.x - self.x * vec.z,
                UNIT as int,
                8_200_000_000_000_000_000,
            );
            lemma_rdiv_bound(
                self.x * vec.y - self.y * vec.x,
                UNIT as int,
                8_200_000_000_000_000_000,
            );
        }
        let x = (self.y as i128) * (vec.z as i128) - (self.z as i128) * (vec.y as i128);
        let y = (self.z as i128) * (vec.x as i128) - (self.x as i128) * (vec.z as i128);
        let z = (self.x as i128) * (vec.y as i128) - (self.y as i128) * (vec.x as i128);
        Vec3 {
            x: div_round(x, 1_000_000) as i64,
            y: div_round(y, 1_000_000) as i64,
            z: div_round(z, 1_000_000) as i64,
        }
    }

    /// Euclidean length, rounded down to the unit.
    pub fn length(&self) -> (r: i64)
        requires
            in_range(*self, NMAX as int),
        ensures
            r == length_spec(*self),
            r * r <= sq_norm(*self) < (r + 1) * (r + 1),
            0 <= r <= 2 * NMAX,
    {
        proof {
            lemma_mul_bound(self.x as int, self.x as int, NMAX as int, NMAX as int);
            lemma_mul_bound(self.y as int, self.y as int, NMAX as int, NMAX as int);
            lemma_mul_bound(self.z as int, self.z as int, NMAX as int, NMAX as int);
            lemma_square_nonneg3(*self);
        }
        let raw: i128 = (self.x as i128) * (self.x as i128)
            + (self.y as i128) * (self.y as i128)
            + (self.z as i128) * (self.z as i128);
        let r = isqrt(raw as u128);
        proof {
            assert(r as int <= 2 * NMAX) by {
                if r as int > 2 * NMAX {
                    assert((r as int) * (r as int) > (2 * NMAX as int) * (2 * NMAX as int))
                        by (nonlinear_arith)
                        requires r as int > 2 * (NMAX as int), NMAX == 2_000_000_000_000_000_000i64,
                    ;
                    assert(sq_norm(*self) <= 3 * ((NMAX as int) * (NMAX as int)));
                }
            }
        }
        r as i64
    }

    /// Scale to unit length; leaves the zero vector unchanged. Each
    /// component of the result lies in `[-UNIT, UNIT]`.
    pub fn normalize(&mut self)
        requires
            in_range(*old(self), NMAX as int),
        ensures
            *final(self) == normalize_spec(*old(self)),
            sq_norm(*old(self)) != 0 ==> in_range(*final(self), UNIT as int),
            sq_norm(*old(self)) == 0 ==> *final(self) == *old(self),
    {
        let len = self.length();
        proof {
            lemma_square_nonneg3(*self);
            crate::fixed::lemma_sqrt_zero_iff(sq_norm(*self), len as int);
        }
        if len != 0 {
            proof {
                lemma_component_le_norm(*self, len as int);
                lemma_mul_bound(self.x as int, UNIT as int, NMAX as int, UNIT as int);
                lemma_mul_bound(self.y as int, UNIT as int, NMAX as int, UNIT as int);
                lemma_mul_bound(self.z as int, UNIT as int, NMAX as int, UNIT as int);
                lemma_rdiv_mono_scaled(self.x as int, len as int);
                lemma_rdiv_mono_scaled(self.y as int, len as int);
                lemma_rdiv_mono_scaled(self.z as int, len as int);
            }
            let x = div_round((self.x as i128) * 1_000_000, len as i128) as i64;
            let y = div_round((self.y as i128) * 1_000_000, len as i128) as i64;
            let z = div_round((self.z as i128) * 1_000_000, len as i128) as i64;
            self.x = x;
            self.y = y;
            self.z = z;
        }
    }

    /// Distance between two points, rounded down to the unit.
    pub fn distance(&self, other: Vec3) -> (r: i64)
        requires
            in_range(*self, VMAX as int),
            in_range(other, VMAX as int),
        ensures
            r == distance_spec(*self, other),
            0 <= r,
    {
        let d = Vec3 {
            x: self.x - other.x,
            y: self.y - other.y,
            z: self.z - other.z,
        };
        proof {
            lemma_mul_bound(d.x as int, d.x as int, 2 * VMAX as int, 2 * VMAX as int);
            lemma_mul_bound(d.y as int, d.y as int, 2 * VMAX as int, 2 * VMAX as int);
            lemma_mul_bound(d.z as int, d.z as int, 2 * VMAX as int, 2 * VMAX as int);
            lemma_square_nonneg3(d);
        }
        let raw: i128 = (d.x as i128) * (d.x as i128) + (d.y as i128) * (d.y as i128)
            + (d.z as i128) * (d.z as i128);
        let r = isqrt(raw as u128);
        proof {
            assert(r as int <= 4 * VMAX) by {
                if r as int > 4 * VMAX {
                    assert((r as int) * (r as int) > (4 * VMAX as int) * (4 * VMAX as int))
                        by (nonlinear_arith)
                        requires r as int > 4 * (VMAX as int), VMAX == 1_000_000_000_000i64,
                    ;
                }
            }
        }
        r as i64
    }

    /// Area of the triangle spanned by three points: half the length of
    /// the cross product of two edges.
    pub fn get_area(a: Vec3, b: Vec3, c: Vec3) -> (r: i64)
        requires
            in_range(a, VMAX as int / 4),
            in_range(b, VMAX as int / 4),
            in_range(c, VMAX as int / 4),
        ensures
            r == area_spec(a, b, c),
            0 <= r <= 1_000_000_000_000_000_000,
    {
        let ab = b.sub(a);
        let ac = c.sub(a);
        let cr = ab.cross(ac);
        proof {
            let h = VMAX as int / 2;
            lemma_mul_bound(ab.y as int, ac.z as int, h, h);
            lemma_mul_bound(ab.z as int, ac.y as int, h, h);
            lemma_mul_bound(ab.z as int, ac.x as int, h, h);
            lemma_mul_bound(ab.x as int, ac.z as int, h, h);
            lemma_mul_bound(ab.x as int, ac.y as int, h, h);
            lemma_mul_bound(ab.y as int, ac.x as int, h, h);
            lemma_rdiv_bound(ab.y * ac.z - ab.z * ac.y, UNIT as int, 500_000_000_000_000_000);
            lemma_rdiv_bound(ab.z * ac.x - ab.x * ac.z, UNIT as int, 500_000_000_000_000_000);
            lemma_rdiv_bound(ab.x * ac.y - ab.y * ac.x, UNIT as int, 500_000_000_000_000_000);
        }
        let len = cr.length();
        proof {
            let cb: int = 500_000_000_000_000_000;
            lemma_mul_bound(cr.x as int, cr.x as int, cb, cb);
            lemma_mul_bound(cr.y as int, cr.y as int, cb, cb);
            lemma_mul_bound(cr.z as int, cr.z as int, cb, cb);
            assert(len as int <= 1_000_000_000_000_000_000) by {
                if len as int > 1_000_000_000_000_000_000 {
                    assert((len as int) * (len as int)
                        > 1_000_000_000_000_000_000_000_000_000_000_000_000) by (nonlinear_arith)
                        requires len as int > 1_000_000_000_000_000_000,
                    ;
                }
            }
            lemma_rdiv_bound(len as int, 2, 1_000_000_000_000_000_000);
            assert(rdiv(len as int, 2) >= 0) by {
                assert((len as int) + 1 >= 0);
                assert(rdiv(len as int, 2) == ((len as int) + 1) / 2);
            }
        }
        div_round(len as i128, 2) as i64
    }
}

/// The scaling `mult` computes stays within `co` when the inputs stay
/// within `cv` and `cn` with `cv * cn <= co * UNIT`.
pub proof fn lemma_mult_range(v: Vec3, num: int, cv: int, cn: int, co: int)
    requires
        in_range(v, cv),
        -cn <= num <= cn,
        0 <= cv,
        0 <= cn,
        0 <= co,
        cv * cn <= co * (UNIT as int),
    ensures
        in_range(mult_spec(v, num), co),
{
    lemma_mul_bound(v.x as int, num, cv, cn);
    lemma_mul_bound(v.y as int, num, cv, cn);
    lemma_mul_bound(v.z as int, num, cv, cn);
    lemma_rdiv_bound(v.x * num, UNIT as int, co);
    lemma_rdiv_bound(v.y * num, UNIT as int, co);
    lemma_rdiv_bound(v.z * num, UNIT as int, co);
}

/// The cross product's components stay within `co` when the inputs
/// stay within `ca` and `cb` with `2 ca cb <= co * UNIT`.
pub proof fn lemma_cross_range(a: Vec3, b: Vec3, ca: int, cb: int, co: int)
    requires
        in_range(a, ca),
        in_range(b, cb),
        0 <= ca,
        0 <= cb,
        0 <= co,
        2 * (ca * cb) <= co * (UNIT as int),
    ensures
        in_range(cross_spec(a, b), co),
{
    lemma_mul_bound(a.y as int, b.z as int, ca, cb);
    lemma_mul_bound(a.z as int, b.y as int, ca, cb);
    lemma_mul_bound(a.z as int, b.x as int, ca, cb);
    lemma_mul_bound(a.x as int, b.z as int, ca, cb);
    lemma_mul_bound(a.x as int, b.y as int, ca, cb);
    lemma_mul_bound(a.y as int, b.x as int, ca, cb);
    lemma_rdiv_bound(a.y * b.z - a.z * b.y, UNIT as int, co);
    lemma_rdiv_bound(a.z * b.x - a.x * b.z, UNIT as int, co);
    lemma_rdiv_bound(a.x * b.y - a.y * b.x, UNIT as int, co);
}

/// A sum of squares is never negative.
proof fn lemma_square_nonneg3(v: Vec3)
    by (nonlinear_arith)
    ensures
        sq_norm(v) >= 0,
        v.x * v.x >= 0,
        v.y * v.y >= 0,
        v.z * v.z >= 0,
{
}

/// No component exceeds the floor square root of the squared norm in
/// magnitude.
proof fn lemma_component_le_norm(v: Vec3, len: int)
    by (nonlinear_arith)
    requires
        len >= 0,
        len * len <= sq_norm(v),
        sq_norm(v) < (len + 1) * (len + 1),
    ensures
        -len <= v.x <= len,
        -len <= v.y <= len,
        -len <= v.z <= len,
{
}

/// Scaling a component no larger than the length by `UNIT / length`
/// lands within `[-UNIT, UNIT]`.
proof fn lemma_rdiv_mono_scaled(c: int, len: int)
    requires
        len > 0,
        -len <= c <= len,
    ensures
        -UNIT <= rdiv(c * (UNIT as int), len) <= UNIT,
{
    assert(-(len * (UNIT as int)) <= c * (UNIT as int) <= len * (UNIT as int))
        by (nonlinear_arith)
        requires len > 0, -len <= c <= len,
    ;
    lemma_rdiv_bound(c * (UNIT as int), len, UNIT as int);
}

} // verus!
