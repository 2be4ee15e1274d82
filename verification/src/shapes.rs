//! The closed set of primitive shapes and the result of a shape query.

use vstd::prelude::*;
use crate::color::{Color, Material, interp_channel};
use crate::vec3::{Vec3, in_range, normalize_spec, sub_spec, PMAX, DIRMAX, ORIMAX};
use crate::bbox::min2;
use crate::ray::Ray;
use crate::bbox::BoundingBox;
use crate::sphere::{Sphere, sphere_hit};
use crate::poly::{Poly, poly_hit};

verus! {

/// Outcome of intersecting one shape: the parametric hit distance, or
/// a miss.
#[derive(Clone, Copy, Debug, PartialEq, Eq, Structural)]
pub enum ShapeIntersection {
    Hit(i64),
    Missed,
}

impl ShapeIntersection {
    /// The hit distance as a mathematical option.
    pub open spec fn view(self) -> Option<int> {
        match self {
            ShapeIntersection::Hit(t) => Some(t as int),
            ShapeIntersection::Missed => None,
        }
    }
}

/// A scene primitive.
pub enum Primitive {
    Poly(Poly),
    Sphere(Sphere),
}

/// The exact hit distance of a ray against a primitive.
pub open spec fn prim_hit(p: Primitive, ray: Ray) -> Option<int> {
    match p {
        Primitive::Poly(poly) => poly_hit(
            poly.vertices[0].position,
            poly.vertices[1].position,
            poly.vertices[2].position,
            ray,
        ),
        Primitive::Sphere(s) => sphere_hit(s.origin, s.radius, ray),
    }
}

/// The unit surface normal a primitive reports at `point` against the
/// incoming `direction`. A sphere's normal always points outward; a
/// triangle's is flipped to oppose the incoming direction.
pub open spec fn prim_normal_spec(p: Primitive, direction: Vec3, point: Vec3) -> Vec3 {
    match p {
        Primitive::Poly(poly) => poly.normal_spec(direction, point),
        Primitive::Sphere(s) => normalize_spec(sub_spec(point, s.origin)),
    }
}

/// The diffuse colour channels a primitive reports at `point`.
pub open spec fn prim_diffuse_rgb(p: Primitive, point: Vec3) -> (int, int, int) {
    match p {
        Primitive::Sphere(s) => (
            s.materials[0].diffuse.r_spec(),
            s.materials[0].diffuse.g_spec(),
            s.materials[0].diffuse.b_spec(),
        ),
        Primitive::Poly(poly) => {
            if !poly.vertex_material {
                (
                    poly.materials[0].diffuse.r_spec(),
                    poly.materials[0].diffuse.g_spec(),
                    poly.materials[0].diffuse.b_spec(),
                )
            } else {
                let w = crate::poly::weights_spec(
                    poly.vertices[0].position,
                    poly.vertices[1].position,
                    poly.vertices[2].position,
                    point,
                );
                let m0 = poly.materials[0].diffuse;
                let m1 = poly.materials[min2(1, poly.materials.len() - 1)].diffuse;
                let m2 = poly.materials[min2(2, poly.materials.len() - 1)].diffuse;
                (
                    interp_channel(m0.r_spec(), m1.r_spec(), m2.r_spec(), w.0, w.1, w.2),
                    interp_channel(m0.g_spec(), m1.g_spec(), m2.g_spec(), w.0, w.1, w.2),
                    interp_channel(m0.b_spec(), m1.b_spec(), m2.b_spec(), w.0, w.1, w.2),
                )
            }
        },
    }
}

/// The leading material of a well-formed primitive is well formed.
pub proof fn lemma_material_wf(p: Primitive)
    requires
        p.wf(),
    ensures
        p.material_spec().wf(),
{
    match p {
        Primitive::Poly(pl) => {
            assert(pl.materials[0].wf());
        },
        Primitive::Sphere(s) => {
            assert(s.materials[0].wf());
        },
    }
}

impl Primitive {
    pub open spec fn wf(self) -> bool {
        match self {
            Primitive::Poly(p) => p.wf(),
            Primitive::Sphere(s) => s.wf(),
        }
    }

    /// The primitive's axis-aligned bounding box.
    pub fn get_bbox(&self) -> (b: BoundingBox)
        requires
            self.wf(),
        ensures
            b == self.bbox_spec(),
            in_range(b.min, 2 * PMAX as int),
            in_range(b.max, 2 * PMAX as int),
    {
        match self {
            Primitive::Poly(p) => p.get_bbox(),
            Primitive::Sphere(s) => s.get_bbox(),
        }
    }

    /// The box `get_bbox` returns.
    pub open spec fn bbox_spec(self) -> BoundingBox {
        match self {
            Primitive::Poly(p) => p.bbox_spec(),
            Primitive::Sphere(s) => BoundingBox {
                min: Vec3 {
                    x: (s.origin.x - s.radius) as i64,
                    y: (s.origin.y - s.radius) as i64,
                    z: (s.origin.z - s.radius) as i64,
                },
                max: Vec3 {
                    x: (s.origin.x + s.radius) as i64,
                    y: (s.origin.y + s.radius) as i64,
                    z: (s.origin.z + s.radius) as i64,
                },
            },
        }
    }

    /// Exact intersection; see `prim_hit`.
    pub fn intersects(&self, ray: &Ray) -> (r: ShapeIntersection)
        requires
            self.wf(),
            in_range(ray.ori, ORIMAX as int),
            in_range(ray.dir, DIRMAX as int),
        ensures
            r.view() == prim_hit(*self, *ray),
    {
        match self {
            Primitive::Poly(p) => p.intersects(ray),
            Primitive::Sphere(s) => s.intersects(ray),
        }
    }

    /// The shape's leading material.
    pub fn get_material(&self) -> (m: Material)
        requires
            self.wf(),
        ensures
            m == self.material_spec(),
    {
        match self {
            Primitive::Poly(p) => p.get_material(),
            Primitive::Sphere(s) => s.get_material(),
        }
    }

    pub open spec fn material_spec(self) -> Material {
        match self {
            Primitive::Poly(p) => p.materials[0],
            Primitive::Sphere(s) => s.materials[0],
        }
    }

    /// Surface normal opposing the incoming direction.
    pub fn surface_normal(&self, direction: Vec3, point: Vec3) -> (n: Vec3)
        requires
            self.wf(),
            in_range(direction, DIRMAX as int),
            in_range(point, ORIMAX as int),
        ensures
            n == prim_normal_spec(*self, direction, point),
            in_range(n, crate::fixed::UNIT as int),
    {
        match self {
            Primitive::Poly(p) => p.surface_normal(direction, point),
            Primitive::Sphere(s) => s.surface_normal(direction, point),
        }
    }

    /// Diffuse colour at a surface point.
    pub fn diffuse_color(&self, point: Vec3) -> (c: Color)
        requires
            self.wf(),
            in_range(point, ORIMAX as int),
        ensures
            (c.r_spec(), c.g_spec(), c.b_spec()) == prim_diffuse_rgb(*self, point),
    {
        match self {
            Primitive::Poly(p) => p.diffuse_color(point),
            Primitive::Sphere(s) => s.diffuse_color(point),
        }
    }
}

} // verus!
