//! Axis-aligned bounding boxes and the slab test.
//!
//! The slab test here is the exact rational form of the classic
//! axis-by-axis interval intersection: each axis with a non-zero
//! direction component contributes the interval of line parameters
//! between its two planes, an axis with a zero direction component
//! passes only when the origin lies between its planes, and the box is
//! hit exactly when no lower bound of one axis exceeds an upper bound
//! of another. Intervals are compared as fractions over the positive
//! denominator `|d|`, so no division or rounding occurs.

use vstd::prelude::*;
use crate::vec3::{Vec3, in_range};
use crate::ray::Ray;
use crate::fixed::rdiv;

verus! {

/// Bound on box corner components.
pub const BBMAX: i64 = 2_000_000_000;

/// Bound on ray origin components for box queries.
pub const OMAX: i64 = 4_000_000_000;

/// Bound on ray direction components for box queries.
pub const DMAX: i64 = 1_000_000_000;

pub open spec fn min2(a: int, b: int) -> int {
    if a <= b { a } else { b }
}

pub open spec fn max2(a: int, b: int) -> int {
    if a <= b { b } else { a }
}

/// Lower endpoint of the axis interval, as a numerator over `|d|`.
pub open spec fn axis_lo(minv: int, maxv: int, o: int, d: int) -> int {
    if d > 0 {
        min2(minv - o, maxv - o)
    } else {
        min2(o - minv, o - maxv)
    }
}

/// Upper endpoint of the axis interval, as a numerator over `|d|`.
pub open spec fn axis_hi(minv: int, maxv: int, o: int, d: int) -> int {
    if d > 0 {
        max2(minv - o, maxv - o)
    } else {
        max2(o - minv, o - maxv)
    }
}

/// An axis whose direction component is zero passes only when the
/// origin sits between the two planes.
pub open spec fn axis_zero_ok(minv: int, maxv: int, o: int, d: int) -> bool {
    d != 0 || (min2(minv, maxv) <= o && o <= max2(minv, maxv))
}

/// The interval lower bound of axis `a` does not exceed the interval
/// upper bound of axis `b`; trivially true when either axis is
/// unconstrained.
pub open spec fn axes_compatible(
    min_a: int, max_a: int, o_a: int, d_a: int,
    min_b: int, max_b: int, o_b: int, d_b: int,
) -> bool {
    d_a != 0 && d_b != 0 ==> axis_lo(min_a, max_a, o_a, d_a) * abs2(d_b)
        <= axis_hi(min_b, max_b, o_b, d_b) * abs2(d_a)
}

pub open spec fn abs2(a: int) -> int {
    if a >= 0 { a } else { -a }
}

/// The exact slab test: the line of the ray meets the box.
pub open spec fn slab_hit(bb: BoundingBox, ray: Ray) -> bool {
    let mnx = bb.min.x as int; let mxx = bb.max.x as int;
    let mny = bb.min.y as int; let mxy = bb.max.y as int;
    let mnz = bb.min.z as int; let mxz = bb.max.z as int;
    let ox = ray.ori.x as int; let oy = ray.ori.y as int; let oz = ray.ori.z as int;
    let dx = ray.dir.x as int; let dy = ray.dir.y as int; let dz = ray.dir.z as int;
    axis_zero_ok(mnx, mxx, ox, dx)
        && axis_zero_ok(mny, mxy, oy, dy)
        && axis_zero_ok(mnz, mxz, oz, dz)
        && axes_compatible(mnx, mxx, ox, dx, mnx, mxx, ox, dx)
        && axes_compatible(mny, mxy, oy, dy, mny, mxy, oy, dy)
        && axes_compatible(mnz, mxz, oz, dz, mnz, mxz, oz, dz)
        && axes_compatible(mnx, mxx, ox, dx, mny, mxy, oy, dy)
        && axes_compatible(mny, mxy, oy, dy, mnx, mxx, ox, dx)
        && axes_compatible(mnx, mxx, ox, dx, mnz, mxz, oz, dz)
        && axes_compatible(mnz, mxz, oz, dz, mnx, mxx, ox, dx)
        && axes_compatible(mny, mxy, oy, dy, mnz, mxz, oz, dz)
        && axes_compatible(mnz, mxz, oz, dz, mny, mxy, oy, dy)
}

#[derive(Clone, Copy, Debug, PartialEq, Eq, Structural)]
pub struct BoundingBox {
    pub min: Vec3,
    pub max: Vec3,
}

/// One axis of the slab test, normalised to a positive denominator.
/// Returns (constrained, lo, hi, den).
fn axis_interval(minv: i64, maxv: i64, o: i64, d: i64) -> (r: (bool, i64, i64, i64))
    requires
        -BBMAX <= minv <= BBMAX,
        -BBMAX <= maxv <= BBMAX,
        -OMAX <= o <= OMAX,
        -DMAX <= d <= DMAX,
    ensures
        r.0 == (d != 0),
        d != 0 ==> r.1 == axis_lo(minv as int, maxv as int, o as int, d as int),
        d != 0 ==> r.2 == axis_hi(minv as int, maxv as int, o as int, d as int),
        d != 0 ==> r.3 == abs2(d as int) && r.3 > 0,
        -(BBMAX + OMAX) <= r.1 <= BBMAX + OMAX,
        -(BBMAX + OMAX) <= r.2 <= BBMAX + OMAX,
        0 < r.3 <= DMAX,
{
    if d > 0 {
        let a = minv - o;
        let b = maxv - o;
        if a <= b {
            (true, a, b, d)
        } else {
            (true, b, a, d)
        }
    } else if d < 0 {
        let a = o - minv;
        let b = o - maxv;
        if a <= b {
            (true, a, b, -d)
        } else {
            (true, b, a, -d)
        }
    } else {
        (false, 0, 0, 1)
    }
}

impl BoundingBox {
    /// The degenerate box at the origin.
    pub fn new() -> (b: BoundingBox)
        ensures
            b.min.x == 0 && b.min.y == 0 && b.min.z == 0,
            b.max.x == 0 && b.max.y == 0 && b.max.z == 0,
    {
        BoundingBox { min: Vec3::new(), max: Vec3::new() }
    }

    pub fn init(min: Vec3, max: Vec3) -> (b: BoundingBox)
        ensures
            b.min == min,
            b.max == max,
    {
        BoundingBox { min, max }
    }

    /// Midpoint of the two corners, componentwise.
    pub fn centroid(&self) -> (c: Vec3)
        requires
            in_range(self.min, BBMAX as int),
            in_range(self.max, BBMAX as int),
        ensures
            c.x == rdiv(self.min.x + self.max.x, 2),
            c.y == rdiv(self.min.y + self.max.y, 2),
            c.z == rdiv(self.min.z + self.max.z, 2),
    {
        Vec3 {
            x: crate::fixed::div_round(self.min.x as i128 + self.max.x as i128, 2) as i64,
            y: crate::fixed::div_round(self.min.y as i128 + self.max.y as i128, 2) as i64,
            z: crate::fixed::div_round(self.min.z as i128 + self.max.z as i128, 2) as i64,
        }
    }

    /// Union: componentwise minimum and maximum of the two boxes.
    pub fn add(self, other: BoundingBox) -> (b: BoundingBox)
        requires
            in_range(self.min, BBMAX as int),
            in_range(self.max, BBMAX as int),
            in_range(other.min, BBMAX as int),
            in_range(other.max, BBMAX as int),
        ensures
            b.min.x == min2(self.min.x as int, other.min.x as int),
            b.min.y == min2(self.min.y as int, other.min.y as int),
            b.min.z == min2(self.min.z as int, other.min.z as int),
            b.max.x == max2(self.max.x as int, other.max.x as int),
            b.max.y == max2(self.max.y as int, other.max.y as int),
            b.max.z == max2(self.max.z as int, other.max.z as int),
            in_range(b.min, BBMAX as int),
            in_range(b.max, BBMAX as int),
    {
        BoundingBox {
            min: Vec3 {
                x: if self.min.x <= other.min.x { self.min.x } else { other.min.x },
                y: if self.min.y <= other.min.y { self.min.y } else { other.min.y },
                z: if self.min.z <= other.min.z { self.min.z } else { other.min.z },
            },
            max: Vec3 {
                x: if self.max.x <= other.max.x { other.max.x } else { self.max.x },
                y: if self.max.y <= other.max.y { other.max.y } else { self.max.y },
                z: if self.max.z <= other.max.z { other.max.z } else { self.max.z },
            },
        }
    }

    /// The slab test.
    pub fn intersects(&self, ray: &Ray) -> (hit: bool)
        requires
            in_range(self.min, BBMAX as int),
            in_range(self.max, BBMAX as int),
            in_range(ray.ori, OMAX as int),
            in_range(ray.dir, DMAX as int),
        ensures
            hit == slab_hit(*self, *ray),
    {
        let (cx, lox, hix, denx) =
            axis_interval(self.min.x, self.max.x, ray.ori.x, ray.dir.x);
        let (cy, loy, hiy, deny) =
            axis_interval(self.min.y, self.max.y, ray.ori.y, ray.dir.y);
        let (cz, loz, hiz, denz) =
            axis_interval(self.min.z, self.max.z, ray.ori.z, ray.dir.z);

        let mnx = if self.min.x <= self.max.x { self.min.x } else { self.max.x };
        let mxx = if self.min.x <= self.max.x { self.max.x } else { self.min.x };
        let mny = if self.min.y <= self.max.y { self.min.y } else { self.max.y };
        let mxy = if self.min.y <= self.max.y { self.max.y } else { self.min.y };
        let mnz = if self.min.z <= self.max.z { self.min.z } else { self.max.z };
        let mxz = if self.min.z <= self.max.z { self.max.z } else { self.min.z };
        if !cx && (ray.ori.x < mnx || ray.ori.x > mxx) {
            return false;
        }
        if !cy && (ray.ori.y < mny || ray.ori.y > mxy) {
            return false;
        }
        if !cz && (ray.ori.z < mnz || ray.ori.z > mxz) {
            return false;
        }
        proof {
            let m: int = (BBMAX + OMAX) as int;
            crate::fixed::lemma_mul_bound(lox as int, denx as int, m, DMAX as int);
            crate::fixed::lemma_mul_bound(lox as int, deny as int, m, DMAX as int);
            crate::fixed::lemma_mul_bound(lox as int, denz as int, m, DMAX as int);
            crate::fixed::lemma_mul_bound(loy as int, denx as int, m, DMAX as int);
            crate::fixed::lemma_mul_bound(loy as int, deny as int, m, DMAX as int);
            crate::fixed::lemma_mul_bound(loy as int, denz as int, m, DMAX as int);
            crate::fixed::lemma_mul_bound(loz as int, denx as int, m, DMAX as int);
            crate::fixed::lemma_mul_bound(loz as int, deny as int, m, DMAX as int);
            crate::fixed::lemma_mul_bound(loz as int, denz as int, m, DMAX as int);
            crate::fixed::lemma_mul_bound(hix as int, denx as int, m, DMAX as int);
            crate::fixed::lemma_mul_bound(hix as int, deny as int, m, DMAX as int);
            crate::fixed::lemma_mul_bound(hix as int, denz as int, m, DMAX as int);
            crate::fixed::lemma_mul_bound(hiy as int, denx as int, m, DMAX as int);
            crate::fixed::lemma_mul_bound(hiy as int, deny as int, m, DMAX as int);
            crate::fixed::lemma_mul_bound(hiy as int, denz as int, m, DMAX as int);
            crate::fixed::lemma_mul_bound(hiz as int, denx as int, m, DMAX as int);
            crate::fixed::lemma_mul_bound(hiz as int, deny as int, m, DMAX as int);
            crate::fixed::lemma_mul_bound(hiz as int, denz as int, m, DMAX as int);
        }

        let okxx = !cx || (lox as i128) * (denx as i128) <= (hix as i128) * (denx as i128);
        let okyy = !cy || (loy as i128) * (deny as i128) <= (hiy as i128) * (deny as i128);
        let okzz = !cz || (loz as i128) * (denz as i128) <= (hiz as i128) * (denz as i128);
        let okxy = !(cx && cy) || (lox as i128) * (deny as i128) <= (hiy as i128) * (denx as i128);
        let okyx = !(cx && cy) || (loy as i128) * (denx as i128) <= (hix as i128) * (deny as i128);
        let okxz = !(cx && cz) || (lox as i128) * (denz as i128) <= (hiz as i128) * (denx as i128);
        let okzx = !(cx && cz) || (loz as i128) * (denx as i128) <= (hix as i128) * (denz as i128);
        let okyz = !(cy && cz) || (loy as i128) * (denz as i128) <= (hiz as i128) * (deny as i128);
        let okzy = !(cy && cz) || (loz as i128) * (deny as i128) <= (hiy as i128) * (denz as i128);

        okxx && okyy && okzz && okxy && okyx && okxz && okzx && okyz && okzy
    }
}

} // verus!
