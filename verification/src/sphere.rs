//! Spheres.
//!
//! The intersector solves the quadratic `a t^2 + b t + c = 0` exactly
//! over the raw fixed-point integers: the miss conditions are sign
//! tests on the exact discriminant and coefficients, and only the
//! reported distance passes through the floor square root and one
//! rounded division.

use vstd::prelude::*;
use crate::color::{Color, Material};
use crate::vec3::{Vec3, in_range, tvec, tsub, tdot, PMAX, DIRMAX, ORIMAX, T_MAX};
use crate::ray::Ray;
use crate::bbox::BoundingBox;
use crate::shapes::ShapeIntersection;
use crate::fixed::{rdiv, sqrt_floor, UNIT, div_round, isqrt, lemma_mul_bound, lemma_sqrt_floor_bounds};

verus! {

/// The exact hit distance of a ray against a sphere, or `None` on a
/// miss. Misses are: a degenerate direction, a negative discriminant,
/// or a sphere entirely behind the ray; a hit farther than `T_MAX` is
/// also reported as a miss.
pub open spec fn sphere_hit(origin: Vec3, radius: i64, ray: Ray) -> Option<int> {
    let o = tsub(tvec(ray.ori), tvec(origin));
    let d = tvec(ray.dir);
    let a = tdot(d, d);
    let b = 2 * tdot(d, o);
    let c = tdot(o, o) - radius * radius;
    if a == 0 {
        None
    } else {
        let disc = b * b - 4 * (a * c);
        if disc < 0 {
            None
        } else if b > 0 && c > 0 {
            None
        } else {
            let s = sqrt_floor(disc);
            let t = if b > 0 || c < 0 {
                rdiv((-b + s) * (UNIT as int), 2 * a)
            } else {
                rdiv((-b - s) * (UNIT as int), 2 * a)
            };
            if t > T_MAX || t < 0 {
                None
            } else {
                Some(t)
            }
        }
    }
}

pub struct Sphere {
    pub materials: Vec<Material>,
    pub origin: Vec3,
    pub radius: i64,
    pub xaxis: Vec3,
    pub xlength: i64,
    pub yaxis: Vec3,
    pub ylength: i64,
    pub zaxis: Vec3,
    pub zlength: i64,
}

impl Sphere {
    /// Geometry within bounds and at least one material.
    pub open spec fn wf(self) -> bool {
        in_range(self.origin, PMAX as int) && 0 <= self.radius <= PMAX
            && self.materials.len() >= 1
            && forall|i: int| 0 <= i < self.materials.len() ==> self.materials[i].wf()
    }

    pub fn new() -> (s: Sphere)
        ensures
            s.materials.len() == 0,
            s.origin.x == 0 && s.origin.y == 0 && s.origin.z == 0,
            s.radius == 0,
    {
        Sphere {
            materials: Vec::new(),
            origin: Vec3::new(),
            radius: 0,
            xaxis: Vec3::new(),
            xlength: 0,
            yaxis: Vec3::new(),
            ylength: 0,
            zaxis: Vec3::new(),
            zlength: 0,
        }
    }

    pub fn init(origin: Vec3, radius: i64) -> (s: Sphere)
        requires
            in_range(origin, PMAX as int),
            0 <= radius <= PMAX,
        ensures
            s.origin == origin,
            s.radius == radius,
            s.materials.len() == 1,
            s.materials[0] == crate::color::default_material(),
            s.wf(),
    {
        let mut s = Sphere::new();
        s.materials.push(Material::new());
        s.origin = origin;
        s.radius = radius;
        s
    }

    /// The axis-aligned box spanning `origin +- radius`.
    pub fn get_bbox(&self) -> (b: BoundingBox)
        requires
            in_range(self.origin, PMAX as int),
            0 <= self.radius <= PMAX,
        ensures
            b.min.x == self.origin.x - self.radius,
            b.min.y == self.origin.y - self.radius,
            b.min.z == self.origin.z - self.radius,
            b.max.x == self.origin.x + self.radius,
            b.max.y == self.origin.y + self.radius,
            b.max.z == self.origin.z + self.radius,
    {
        BoundingBox::init(
            Vec3 {
                x: self.origin.x - self.radius,
                y: self.origin.y - self.radius,
                z: self.origin.z - self.radius,
            },
            Vec3 {
                x: self.origin.x + self.radius,
                y: self.origin.y + self.radius,
                z: self.origin.z + self.radius,
            },
        )
    }

    /// Exact quadratic intersection; see `sphere_hit`.
    pub fn intersects(&self, ray: &Ray) -> (r: ShapeIntersection)
        requires
            in_range(self.origin, PMAX as int),
            0 <= self.radius <= PMAX,
            in_range(ray.ori, ORIMAX as int),
            in_range(ray.dir, DIRMAX as int),
        ensures
            r.view() == sphere_hit(self.origin, self.radius, *ray),
    {
        let ox: i128 = ray.ori.x as i128 - self.origin.x as i128;
        let oy: i128 = ray.ori.y as i128 - self.origin.y as i128;
        let oz: i128 = ray.ori.z as i128 - self.origin.z as i128;
        let dx: i128 = ray.dir.x as i128;
        let dy: i128 = ray.dir.y as i128;
        let dz: i128 = ray.dir.z as i128;

        proof {
            lemma_mul_bound(dx as int, dx as int, DIRMAX as int, DIRMAX as int);
            lemma_mul_bound(dy as int, dy as int, DIRMAX as int, DIRMAX as int);
            lemma_mul_bound(dz as int, dz as int, DIRMAX as int, DIRMAX as int);
            lemma_mul_bound(dx as int, ox as int, DIRMAX as int, 5_000_000_000);
            lemma_mul_bound(dy as int, oy as int, DIRMAX as int, 5_000_000_000);
            lemma_mul_bound(dz as int, oz as int, DIRMAX as int, 5_000_000_000);
            lemma_mul_bound(ox as int, ox as int, 5_000_000_000, 5_000_000_000);
            lemma_mul_bound(oy as int, oy as int, 5_000_000_000, 5_000_000_000);
            lemma_mul_bound(oz as int, oz as int, 5_000_000_000, 5_000_000_000);
            lemma_mul_bound(self.radius as int, self.radius as int, PMAX as int, PMAX as int);
        }
        let a: i128 = dx * dx + dy * dy + dz * dz;
        let b: i128 = 2 * (dx * ox + dy * oy + dz * oz);
        let c: i128 = (ox * ox + oy * oy + oz * oz)
            - (self.radius as i128) * (self.radius as i128);

        if a == 0 {
            return ShapeIntersection::Missed;
        }
        proof {
            crate::fixed::lemma_sq(dx as int);
            crate::fixed::lemma_sq(dy as int);
            crate::fixed::lemma_sq(dz as int);
            assert(a > 0);
            lemma_mul_bound(b as int, b as int, 3_000_000_000_000_000_000, 3_000_000_000_000_000_000);
            lemma_mul_bound(a as int, c as int, 30_000_000_000_000_000, 76_000_000_000_000_000_000);
        }
        let disc: i128 = b * b - 4 * (a * c);
        if disc < 0 {
            return ShapeIntersection::Missed;
        }
        if b > 0 && c > 0 {
            return ShapeIntersection::Missed;
        }

        let s: i128 = isqrt(disc as u128) as i128;
        proof {
            assert(s as int <= 5_000_000_000_000_000_000) by {
                if s as int > 5_000_000_000_000_000_000 {
                    assert((s as int) * (s as int)
                        > 25_000_000_000_000_000_000_000_000_000_000_000_000) by (nonlinear_arith)
                        requires s as int > 5_000_000_000_000_000_000,
                    ;
                }
            }
        }
        let num: i128 = if b > 0 || c < 0 { -b + s } else { -b - s };
        proof {
            assert(num >= 0) by {
                if b > 0 || c < 0 {
                    if b > 0 {
                        assert(!(c > 0));
                        assert(disc >= b * b) by (nonlinear_arith)
                            requires a as int > 0, c as int <= 0,
                                disc as int == (b as int) * (b as int) - 4 * ((a as int) * (c as int)),
                        ;
                        assert(s as int >= b as int) by {
                            if (s as int) < b as int {
                                assert(((s as int) + 1) * ((s as int) + 1) <= (b as int) * (b as int))
                                    by (nonlinear_arith)
                                    requires 0 <= s as int, (s as int) + 1 <= b as int,
                                ;
                            }
                        }
                    }
                } else {
                    assert(b <= 0 && c >= 0);
                    assert(disc <= b * b) by (nonlinear_arith)
                        requires a as int > 0, c as int >= 0,
                            disc as int == (b as int) * (b as int) - 4 * ((a as int) * (c as int)),
                    ;
                    assert(s as int <= -(b as int)) by {
                        if s as int > -(b as int) {
                            assert((s as int) * (s as int) > (b as int) * (b as int))
                                by (nonlinear_arith)
                                requires s as int >= -(b as int) + 1, b as int <= 0,
                            ;
                        }
                    }
                }
            }
            crate::fixed::lemma_rdiv_nonneg(num as int * (UNIT as int), 2 * (a as int));

            lemma_mul_bound(num as int, UNIT as int, 9_000_000_000_000_000_000, UNIT as int);
            crate::fixed::lemma_rdiv_bound(
                num as int * (UNIT as int),
                2 * a as int,
                9_000_000_000_000_000_000_000_000,
            );
            assert(2 * (a as int) * 9_000_000_000_000_000_000_000_000
                >= (num as int) * (UNIT as int)) by (nonlinear_arith)
                requires
                    a as int >= 1,
                    (num as int) * (UNIT as int) <= 9_000_000_000_000_000_000_000_000,
            ;
            assert(-(2 * (a as int) * 9_000_000_000_000_000_000_000_000)
                <= (num as int) * (UNIT as int)) by (nonlinear_arith)
                requires
                    a as int >= 1,
                    (num as int) * (UNIT as int) >= -9_000_000_000_000_000_000_000_000,
            ;
        }
        let t: i128 = div_round(num * 1_000_000, 2 * a);
        if t > T_MAX as i128 || t < 0 {
            ShapeIntersection::Missed
        } else {
            ShapeIntersection::Hit(t as i64)
        }
    }

    pub fn get_material(&self) -> (m: Material)
        requires
            self.materials.len() >= 1,
        ensures
            m == self.materials[0],
    {
        self.materials[0]
    }

    /// Outward unit normal at a surface point.
    pub fn surface_normal(&self, _direction: Vec3, point: Vec3) -> (n: Vec3)
        requires
            in_range(self.origin, PMAX as int),
            in_range(point, ORIMAX as int),
        ensures
            n == crate::vec3::normalize_spec(crate::vec3::sub_spec(point, self.origin)),
            in_range(n, UNIT as int),
    {
        let mut normal = Vec3 {
            x: point.x - self.origin.x,
            y: point.y - self.origin.y,
            z: point.z - self.origin.z,
        };
        proof {
            if crate::vec3::sq_norm(normal) == 0 {
                crate::fixed::lemma_sq(normal.x as int);
                crate::fixed::lemma_sq(normal.y as int);
                crate::fixed::lemma_sq(normal.z as int);
                crate::fixed::lemma_mul_bound(normal.x as int, normal.x as int, 5_000_000_000, 5_000_000_000);
                crate::fixed::lemma_mul_bound(normal.y as int, normal.y as int, 5_000_000_000, 5_000_000_000);
                crate::fixed::lemma_mul_bound(normal.z as int, normal.z as int, 5_000_000_000, 5_000_000_000);
            }
        }
        normal.normalize();
        normal
    }

    pub fn diffuse_color(&self, _point: Vec3) -> (c: Color)
        requires
            self.materials.len() >= 1,
        ensures
            c == self.materials[0].diffuse,
    {
        self.get_material().diffuse
    }
}

} // verus!
