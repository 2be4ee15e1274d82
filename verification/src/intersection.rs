//! A single ray/primitive hit, viewed lazily.
//!
//! An intersection stores only the parametric distance, the ray and a
//! reference to the primitive; the hit point, surface normal, colours
//! and the spawned reflective and refractive rays are derived on
//! demand, each with an exact contract. Hit points are clamped into
//! the coordinate budget so every derived ray stays within the bounds
//! the intersectors require.

use vstd::prelude::*;
use crate::color::{Color, Material};
use crate::vec3::{
    Vec3, in_range, add_spec, sub_spec, mult_spec, dot_spec, sq_norm,
    DIRMAX, ORIMAX, T_MAX,
};
use crate::ray::Ray;
use crate::shapes::{Primitive, prim_normal_spec, prim_diffuse_rgb};
use crate::fixed::{rdiv, sqrt_floor, UNIT, div_round, isqrt, lemma_mul_bound, lemma_rdiv_bound};

verus! {

/// Offset along the normal for spawned reflection and shadow origins:
/// the fixed-point form of `1e-4`.
pub const SURFACE_EPS: i64 = 100;

/// Offset against the normal for refracted origins: the fixed-point
/// form of `1e-2`.
pub const REFRACT_EPS: i64 = 10_000;

/// Coordinate budget for derived hit points.
pub const POINT_MAX: i64 = 3_000_000_000;

/// Relative index of refraction entering the dielectric: `1/1.5`.
pub const ETA_IN: i64 = 666_667;

/// Relative index of refraction leaving the dielectric: `1.5`.
pub const ETA_OUT: i64 = 1_500_000;

/// Clamp a scalar into `[-c, c]`.
pub open spec fn clamp_abs(v: int, c: int) -> int {
    if v < -c {
        -c
    } else if v > c {
        c
    } else {
        v
    }
}

/// A vector clamped componentwise into `[-c, c]`.
pub open spec fn clamp_vec_spec(v: Vec3, c: int) -> Vec3 {
    Vec3 {
        x: clamp_abs(v.x as int, c) as i64,
        y: clamp_abs(v.y as int, c) as i64,
        z: clamp_abs(v.z as int, c) as i64,
    }
}

/// The hit point `ori + t * dir`, componentwise clamped into the
/// coordinate budget.
pub open spec fn hit_point_spec(ray: Ray, t: int) -> Vec3 {
    Vec3 {
        x: clamp_abs(ray.ori.x + rdiv(ray.dir.x * t, UNIT as int), POINT_MAX as int) as i64,
        y: clamp_abs(ray.ori.y + rdiv(ray.dir.y * t, UNIT as int), POINT_MAX as int) as i64,
        z: clamp_abs(ray.ori.z + rdiv(ray.dir.z * t, UNIT as int), POINT_MAX as int) as i64,
    }
}

pub struct Intersection<'a> {
    pub dist: i64,
    pub ray: Ray,
    pub shape: &'a Primitive,
}

impl<'a> Intersection<'a> {
    /// The stored pieces are within the bounds the geometry needs.
    pub open spec fn wf(self) -> bool {
        &&& self.shape.wf()
        &&& in_range(self.ray.ori, ORIMAX as int)
        &&& in_range(self.ray.dir, DIRMAX as int)
        &&& 0 <= self.dist <= T_MAX
    }

    pub fn new(dist: i64, ray: Ray, shape: &'a Primitive) -> (it: Intersection<'a>)
        ensures
            it.dist == dist,
            it.ray == ray,
            it.shape == shape,
    {
        Intersection { dist, ray, shape }
    }

    pub fn direction(&self) -> (d: Vec3)
        ensures
            d == self.ray.dir,
    {
        self.ray.dir
    }

    /// The hit point, clamped into the coordinate budget.
    pub fn point(&self) -> (p: Vec3)
        requires
            self.wf(),
        ensures
            p == hit_point_spec(self.ray, self.dist as int),
            in_range(p, POINT_MAX as int),
    {
        proof {
            lemma_mul_bound(self.ray.dir.x as int, self.dist as int, DIRMAX as int, T_MAX as int);
            lemma_mul_bound(self.ray.dir.y as int, self.dist as int, DIRMAX as int, T_MAX as int);
            lemma_mul_bound(self.ray.dir.z as int, self.dist as int, DIRMAX as int, T_MAX as int);
            lemma_rdiv_bound(self.ray.dir.x * self.dist, UNIT as int, 0x8000_0000_0000_0000_0000);
            lemma_rdiv_bound(self.ray.dir.y * self.dist, UNIT as int, 0x8000_0000_0000_0000_0000);
            lemma_rdiv_bound(self.ray.dir.z * self.dist, UNIT as int, 0x8000_0000_0000_0000_0000);
        }
        let x = div_round((self.ray.dir.x as i128) * (self.dist as i128), 1_000_000)
            + self.ray.ori.x as i128;
        let y = div_round((self.ray.dir.y as i128) * (self.dist as i128), 1_000_000)
            + self.ray.ori.y as i128;
        let z = div_round((self.ray.dir.z as i128) * (self.dist as i128), 1_000_000)
            + self.ray.ori.z as i128;
        Vec3 {
            x: clamp_coord(x),
            y: clamp_coord(y),
            z: clamp_coord(z),
        }
    }

    /// The primitive's leading diffuse colour.
    pub fn color(&self) -> (c: Color)
        requires
            self.wf(),
        ensures
            c == self.shape.material_spec().diffuse,
    {
        self.shape.get_material().diffuse
    }

    pub fn material(&self) -> (m: Material)
        requires
            self.wf(),
        ensures
            m == self.shape.material_spec(),
    {
        self.shape.get_material()
    }

    /// Unit surface normal at the hit point, as the primitive reports
    /// it against the incoming direction.
    pub fn surface_normal(&self) -> (n: Vec3)
        requires
            self.wf(),
        ensures
            n == prim_normal_spec(*self.shape, self.ray.dir, hit_point_spec(self.ray, self.dist as int)),
            in_range(n, UNIT as int),
    {
        let p = self.point();
        self.shape.surface_normal(self.ray.dir, p)
    }

    /// What `reflective_ray` returns: origin nudged along the normal,
    /// direction mirrored about it and clamped into the direction
    /// budget, medium reset to vacuum.
    pub open spec fn reflective_ray_spec(self) -> Ray {
        let point = hit_point_spec(self.ray, self.dist as int);
        let normal = prim_normal_spec(*self.shape, self.ray.dir, point);
        let d0 = Vec3 {
            x: (-self.ray.dir.x) as i64,
            y: (-self.ray.dir.y) as i64,
            z: (-self.ray.dir.z) as i64,
        };
        let origin = add_spec(point, mult_spec(normal, SURFACE_EPS as int));
        let dir = sub_spec(mult_spec(normal, 2 * dot_spec(d0, normal)), d0);
        Ray {
            ori: origin,
            dir: clamp_vec_spec(dir, DIRMAX as int),
            vacuum: true,
        }
    }

    /// The reflection of the incoming ray about the surface normal.
    pub fn reflective_ray(&self) -> (r: Ray)
        requires
            self.wf(),
        ensures
            r == self.reflective_ray_spec(),
            in_range(r.ori, ORIMAX as int),
            in_range(r.dir, DIRMAX as int),
    {
        let normal = self.surface_normal();
        let d0 = self.ray.dir.invert();
        let p = self.point();
        proof {
            crate::vec3::lemma_mult_range(normal, SURFACE_EPS as int, UNIT as int, 100, 100);
            lemma_dot_small(d0, normal);
        }
        let origin = p.add(normal.mult(SURFACE_EPS));
        let k = 2 * d0.dot(normal);
        proof {
            crate::vec3::lemma_mult_range(normal, k as int, UNIT as int, 600_000_000, 600_000_000);
        }
        let direction = normal.mult(k).sub(d0);
        Ray::init(origin, clamp_vec(direction, DIRMAX))
    }

    /// What `refractive_ray` returns, when there is one; `None` means
    /// total internal reflection. The relative index depends only on
    /// the ray's medium flag; the normal is flipped onto the incidence
    /// side; the transmitted direction follows the two-term refraction
    /// formula; the origin is pushed through the surface; and the new
    /// ray carries the opposite medium flag.
    pub open spec fn refractive_ray_spec(self) -> Option<Ray> {
        let point = hit_point_spec(self.ray, self.dist as int);
        let n0 = prim_normal_spec(*self.shape, self.ray.dir, point);
        let in_dir = self.ray.dir;
        let eta: int = if self.ray.in_vacuum_spec() { ETA_IN as int } else { ETA_OUT as int };
        let normal = if dot_spec(n0, in_dir) > 0 {
            Vec3 { x: (-n0.x) as i64, y: (-n0.y) as i64, z: (-n0.z) as i64 }
        } else {
            n0
        };
        let c = dot_spec(in_dir, normal);
        let c2 = rdiv(c * c, UNIT as int);
        let n2 = rdiv(eta * eta, UNIT as int);
        let cos_phi_2 = UNIT - rdiv(n2 * (UNIT - c2), UNIT as int);
        if cos_phi_2 < 0 {
            None
        } else {
            let cos_phi = sqrt_floor(cos_phi_2 * (UNIT as int));
            let term1 = mult_spec(sub_spec(in_dir, mult_spec(normal, c)), eta);
            let dir = sub_spec(term1, mult_spec(normal, cos_phi));
            let origin = sub_spec(point, mult_spec(normal, REFRACT_EPS as int));
            Some(Ray {
                ori: origin,
                dir: clamp_vec_spec(dir, DIRMAX as int),
                vacuum: !self.ray.in_vacuum_spec(),
            })
        }
    }

    /// The transmitted ray across the dielectric boundary, or `None`
    /// on total internal reflection.
    pub fn refractive_ray(&self) -> (r: Option<Ray>)
        requires
            self.wf(),
        ensures
            r == self.refractive_ray_spec(),
            r is Some ==> in_range(r.unwrap().ori, ORIMAX as int)
                && in_range(r.unwrap().dir, DIRMAX as int),
    {
        let in_dir = self.ray.dir;
        let n0 = self.surface_normal();
        let eta: i64 = if self.ray.in_vacuum() { ETA_IN } else { ETA_OUT };

        proof {
            lemma_dot_small(n0, in_dir);
        }
        let cos_in = n0.dot(in_dir);
        let normal = if cos_in > 0 { n0.invert() } else { n0 };

        proof {
            lemma_dot_small(normal, in_dir);
            lemma_dot_small(in_dir, normal);
            lemma_mul_bound(dot_spec(in_dir, normal), dot_spec(in_dir, normal), 300_000_000, 300_000_000);
            lemma_rdiv_bound(
                dot_spec(in_dir, normal) * dot_spec(in_dir, normal),
                UNIT as int,
                90_000_000_000_000_000,
            );
        }
        let c = in_dir.dot(normal);
        let c2 = div_round((c as i128) * (c as i128), 1_000_000) as i64;
        proof {
            lemma_mul_bound(eta as int, eta as int, 1_500_000, 1_500_000);
            lemma_rdiv_bound(eta as int * eta as int, UNIT as int, 2_250_000);
        }
        let n2 = div_round((eta as i128) * (eta as i128), 1_000_000) as i64;
        proof {
            lemma_mul_bound(n2 as int, UNIT - c2 as int, 2_250_000, 91_000_000_000_000_000);
            lemma_rdiv_bound(
                n2 as int * (UNIT - c2 as int),
                UNIT as int,
                210_000_000_000_000_000,
            );
        }
        let cos_phi_2 = UNIT - div_round((n2 as i128) * ((UNIT as i128) - c2 as i128), 1_000_000) as i64;
        if cos_phi_2 < 0 {
            None
        } else {
            proof {
                lemma_mul_bound(cos_phi_2 as int, UNIT as int, 300_000_000_000_000_000_000_000, UNIT as int);
                crate::fixed::lemma_sqrt_floor_bounds(cos_phi_2 as int * (UNIT as int));
            }
            let cos_phi_sq: u128 = ((cos_phi_2 as i128) * 1_000_000) as u128;
            let cos_phi_u = isqrt(cos_phi_sq);
            proof {
                assert(cos_phi_u as int <= 600_000_000_000) by {
                    if cos_phi_u as int > 600_000_000_000 {
                        assert((cos_phi_u as int) * (cos_phi_u as int)
                            > 360_000_000_000_000_000_000_000) by (nonlinear_arith)
                            requires cos_phi_u as int > 600_000_000_000,
                        ;
                    }
                }
            }
            let cos_phi = cos_phi_u as i64;
            proof {
                crate::vec3::lemma_mult_range(normal, c as int, UNIT as int, 300_000_000, 300_000_000);
            }
            let nm = normal.mult(c);
            let sm = in_dir.sub(nm);
            proof {
                crate::vec3::lemma_mult_range(sm, eta as int, 400_000_000, 1_500_000, 600_000_000);
                crate::vec3::lemma_mult_range(
                    normal, cos_phi as int, UNIT as int, 600_000_000_000, 600_000_000_000,
                );
                crate::vec3::lemma_mult_range(normal, REFRACT_EPS as int, UNIT as int, 10_000, 10_000);
            }
            let term1 = sm.mult(eta);
            let direction = term1.sub(normal.mult(cos_phi));
            let p = self.point();
            let origin = p.sub(normal.mult(REFRACT_EPS));
            Some(Ray {
                ori: origin,
                dir: clamp_vec(direction, DIRMAX),
                vacuum: !self.ray.in_vacuum(),
            })
        }
    }

    /// The diffuse colour at the hit point, interpolated where the
    /// primitive binds materials per vertex.
    pub fn diffuse_color(&self) -> (c: Color)
        requires
            self.wf(),
        ensures
            (c.r_spec(), c.g_spec(), c.b_spec()) == prim_diffuse_rgb(
                *self.shape,
                hit_point_spec(self.ray, self.dist as int),
            ),
    {
        let p = self.point();
        self.shape.diffuse_color(p)
    }
}

/// Clamp a wide coordinate into the point budget.
fn clamp_coord(v: i128) -> (r: i64)
    ensures
        r as int == clamp_abs(v as int, POINT_MAX as int),
{
    if v < -(POINT_MAX as i128) {
        -POINT_MAX
    } else if v > POINT_MAX as i128 {
        POINT_MAX
    } else {
        v as i64
    }
}

/// Clamp a vector componentwise into `[-c, c]`.
fn clamp_vec(v: Vec3, c: i64) -> (r: Vec3)
    requires
        0 < c,
    ensures
        r == clamp_vec_spec(v, c as int),
        in_range(r, c as int),
{
    Vec3 {
        x: if v.x < -c { -c } else if v.x > c { c } else { v.x },
        y: if v.y < -c { -c } else if v.y > c { c } else { v.y },
        z: if v.z < -c { -c } else if v.z > c { c } else { v.z },
    }
}

/// A dot product of a bounded direction with a unit-bounded vector is
/// small.
proof fn lemma_dot_small(a: Vec3, b: Vec3)
    requires
        in_range(a, DIRMAX as int),
        in_range(b, DIRMAX as int),
        in_range(a, UNIT as int) || in_range(b, UNIT as int),
    ensures
        -300_000_000 <= dot_spec(a, b) <= 300_000_000,
{
    if in_range(a, UNIT as int) {
        lemma_mul_bound(a.x as int, b.x as int, UNIT as int, DIRMAX as int);
        lemma_mul_bound(a.y as int, b.y as int, UNIT as int, DIRMAX as int);
        lemma_mul_bound(a.z as int, b.z as int, UNIT as int, DIRMAX as int);
    } else {
        lemma_mul_bound(a.x as int, b.x as int, DIRMAX as int, UNIT as int);
        lemma_mul_bound(a.y as int, b.y as int, DIRMAX as int, UNIT as int);
        lemma_mul_bound(a.z as int, b.z as int, DIRMAX as int, UNIT as int);
    }
    lemma_rdiv_bound(
        crate::vec3::dot_raw(a, b),
        UNIT as int,
        300_000_000,
    );
}

} // verus!
