//! Triangles, with optional per-vertex normals and materials.
//!
//! The intersector is the edge-vector determinant method, done exactly:
//! all accept/reject decisions are sign tests on raw integer products,
//! and only the reported distance passes through one rounded division.
//! Barycentric weights for interpolation are clamped into `[0, 1]`
//! instead of aborting when a query point drifts off the face.

use vstd::prelude::*;
use crate::color::{Color, Material, clamp_channel, scale_channel, interp_channel};
use crate::vec3::{
    Vec3, in_range, tvec, tsub, tdot, tcross, sub_spec, add_spec, mult_spec, cross_spec,
    dot_spec, normalize_spec, area_spec, sq_norm, PMAX, DIRMAX, ORIMAX, T_MAX,
};
use crate::ray::Ray;
use crate::bbox::{BoundingBox, min2, max2};
use crate::shapes::ShapeIntersection;
use crate::fixed::{rdiv, UNIT, div_round, lemma_mul_bound, lemma_rdiv_bound};

verus! {

/// Raw determinant threshold below which a ray counts as parallel to
/// the face: the fixed-point form of `1e-7`.
pub const TRI_EPS_RAW: i128 = 100_000_000_000;

/// The exact hit distance of a ray against the triangle `v0 v1 v2`, or
/// `None` on a miss. Misses are: a near-parallel ray, barycentric
/// coordinates outside the face, a hit not beyond the self-intersection
/// threshold, or a hit farther than `T_MAX`.
pub open spec fn poly_hit(v0: Vec3, v1: Vec3, v2: Vec3, ray: Ray) -> Option<int> {
    let p = tvec(ray.ori);
    let d = tvec(ray.dir);
    let e1 = tsub(tvec(v1), tvec(v0));
    let e2 = tsub(tvec(v2), tvec(v0));
    let h = tcross(d, e2);
    let a0 = tdot(e1, h);
    if -TRI_EPS_RAW < a0 < TRI_EPS_RAW {
        None
    } else {
        let s = tsub(p, tvec(v0));
        let sh = tdot(s, h);
        let u_ok = if a0 > 0 { 0 <= sh <= a0 } else { a0 <= sh <= 0 };
        if !u_ok {
            None
        } else {
            let q = tcross(s, e1);
            let dq = tdot(d, q);
            let v_ok = if a0 > 0 { 0 <= dq && sh + dq <= a0 } else { dq <= 0 && sh + dq >= a0 };
            if !v_ok {
                None
            } else {
                let tn = tdot(e2, q);
                let t_ok = if a0 > 0 { tn * 10_000_000 > a0 } else { tn * 10_000_000 < a0 };
                if !t_ok {
                    None
                } else {
                    let t = if a0 > 0 { rdiv(tn * (UNIT as int), a0) } else { rdiv(-tn * (UNIT as int), -a0) };
                    if t > T_MAX || t < 0 {
                        None
                    } else {
                        Some(t)
                    }
                }
            }
        }
    }
}

/// A triangle corner: its position, an optional normal, and the index
/// of its material in the owning polygon.
#[derive(Clone, Copy, Debug, PartialEq, Eq, Structural)]
pub struct Vertex {
    pub mat_index: u32,
    pub has_normal: bool,
    pub position: Vec3,
    pub normal: Vec3,
}

impl Vertex {
    pub fn new() -> (v: Vertex)
        ensures
            v == zero_vertex(),
    {
        Vertex { mat_index: 0, has_normal: false, position: Vec3::new(), normal: Vec3::new() }
    }

    pub fn init(position: Vec3) -> (v: Vertex)
        ensures
            v.position == position,
            v.mat_index == 0,
            !v.has_normal,
            v.normal == (Vec3 { x: 0, y: 0, z: 0 }),
    {
        Vertex { mat_index: 0, has_normal: false, position, normal: Vec3::new() }
    }
}

/// The all-zero vertex.
pub open spec fn zero_vertex() -> Vertex {
    Vertex {
        mat_index: 0,
        has_normal: false,
        position: Vec3 { x: 0, y: 0, z: 0 },
        normal: Vec3 { x: 0, y: 0, z: 0 },
    }
}

pub struct Poly {
    pub materials: Vec<Material>,
    pub vertices: [Vertex; 3],
    pub vertex_material: bool,
    pub vertex_normal: bool,
}

/// The barycentric weights of `point` in the triangle, scaled to
/// `UNIT` and clamped into `[0, UNIT]`; a degenerate triangle puts all
/// weight on the first area term.
pub open spec fn weights_spec(v0: Vec3, v1: Vec3, v2: Vec3, p: Vec3) -> (int, int, int) {
    let area = area_spec(v0, v1, v2);
    if area == 0 {
        (UNIT as int, 0, 0)
    } else {
        (
            clamp_channel(rdiv(area_spec(v0, v1, p) * (UNIT as int), area)),
            clamp_channel(rdiv(area_spec(v2, v0, p) * (UNIT as int), area)),
            clamp_channel(rdiv(area_spec(v1, v2, p) * (UNIT as int), area)),
        )
    }
}

impl Poly {
    /// Geometry within bounds, and between one and three materials.
    pub open spec fn wf(self) -> bool {
        &&& in_range(self.vertices[0].position, PMAX as int)
        &&& in_range(self.vertices[1].position, PMAX as int)
        &&& in_range(self.vertices[2].position, PMAX as int)
        &&& in_range(self.vertices[0].normal, PMAX as int)
        &&& in_range(self.vertices[1].normal, PMAX as int)
        &&& in_range(self.vertices[2].normal, PMAX as int)
        &&& 1 <= self.materials.len() <= 3
        &&& forall|i: int| 0 <= i < self.materials.len() ==> self.materials[i].wf()
    }

    pub fn new() -> (p: Poly)
        ensures
            p.materials.len() == 0,
            p.vertices[0] == zero_vertex(),
            p.vertices[1] == zero_vertex(),
            p.vertices[2] == zero_vertex(),
            !p.vertex_material,
            !p.vertex_normal,
    {
        Poly {
            materials: Vec::new(),
            vertices: [Vertex::new(), Vertex::new(), Vertex::new()],
            vertex_material: false,
            vertex_normal: false,
        }
    }

    /// A polygon at the origin with one default material.
    pub fn init() -> (p: Poly)
        ensures
            p.materials.len() == 1,
            p.materials[0] == crate::color::default_material(),
            p.vertices[0] == zero_vertex(),
            p.vertices[1] == zero_vertex(),
            p.vertices[2] == zero_vertex(),
            !p.vertex_material,
            !p.vertex_normal,
            p.wf(),
    {
        let mut poly = Poly::new();
        poly.materials.push(Material::new());
        poly
    }

    /// The box `get_bbox` returns: componentwise extremes of the three
    /// corners.
    pub open spec fn bbox_spec(self) -> BoundingBox {
        let p0 = self.vertices[0].position;
        let p1 = self.vertices[1].position;
        let p2 = self.vertices[2].position;
        BoundingBox {
            min: Vec3 {
                x: min2(p0.x as int, min2(p1.x as int, p2.x as int)) as i64,
                y: min2(p0.y as int, min2(p1.y as int, p2.y as int)) as i64,
                z: min2(p0.z as int, min2(p1.z as int, p2.z as int)) as i64,
            },
            max: Vec3 {
                x: max2(p0.x as int, max2(p1.x as int, p2.x as int)) as i64,
                y: max2(p0.y as int, max2(p1.y as int, p2.y as int)) as i64,
                z: max2(p0.z as int, max2(p1.z as int, p2.z as int)) as i64,
            },
        }
    }

    pub fn get_bbox(&self) -> (b: BoundingBox)
        requires
            self.wf(),
        ensures
            b == self.bbox_spec(),
    {
        let p0 = self.vertices[0].position;
        let p1 = self.vertices[1].position;
        let p2 = self.vertices[2].position;
        let min = Vec3 {
            x: min3(p0.x, p1.x, p2.x),
            y: min3(p0.y, p1.y, p2.y),
            z: min3(p0.z, p1.z, p2.z),
        };
        let max = Vec3 {
            x: max3(p0.x, p1.x, p2.x),
            y: max3(p0.y, p1.y, p2.y),
            z: max3(p0.z, p1.z, p2.z),
        };
        BoundingBox::init(min, max)
    }

    /// Exact edge-vector intersection; see `poly_hit`.
    pub fn intersects(&self, ray: &Ray) -> (r: ShapeIntersection)
        requires
            self.wf(),
            in_range(ray.ori, ORIMAX as int),
            in_range(ray.dir, DIRMAX as int),
        ensures
            r.view() == poly_hit(
                self.vertices[0].position,
                self.vertices[1].position,
                self.vertices[2].position,
                *ray,
            ),
    {
        let v0 = self.vertices[0].position;
        let v1 = self.vertices[1].position;
        let v2 = self.vertices[2].position;

        let e1x: i128 = v1.x as i128 - v0.x as i128;
        let e1y: i128 = v1.y as i128 - v0.y as i128;
        let e1z: i128 = v1.z as i128 - v0.z as i128;
        let e2x: i128 = v2.x as i128 - v0.x as i128;
        let e2y: i128 = v2.y as i128 - v0.y as i128;
        let e2z: i128 = v2.z as i128 - v0.z as i128;
        let dx: i128 = ray.dir.x as i128;
        let dy: i128 = ray.dir.y as i128;
        let dz: i128 = ray.dir.z as i128;

        proof {
            let eb: int = 2_000_000_000;
            let db: int = 100_000_000;
            lemma_mul_bound(dy as int, e2z as int, db, eb);
            lemma_mul_bound(dz as int, e2y as int, db, eb);
            lemma_mul_bound(dz as int, e2x as int, db, eb);
            lemma_mul_bound(dx as int, e2z as int, db, eb);
            lemma_mul_bound(dx as int, e2y as int, db, eb);
            lemma_mul_bound(dy as int, e2x as int, db, eb);
        }
        let hx: i128 = dy * e2z - dz * e2y;
        let hy: i128 = dz * e2x - dx * e2z;
        let hz: i128 = dx * e2y - dy * e2x;
        proof {
            let eb: int = 2_000_000_000;
            let hb: int = 400_000_000_000_000_000;
            lemma_mul_bound(e1x as int, hx as int, eb, hb);
            lemma_mul_bound(e1y as int, hy as int, eb, hb);
            lemma_mul_bound(e1z as int, hz as int, eb, hb);
        }
        let a0: i128 = e1x * hx + e1y * hy + e1z * hz;

        if -TRI_EPS_RAW < a0 && a0 < TRI_EPS_RAW {
            return ShapeIntersection::Missed;
        }

        let sx: i128 = ray.ori.x as i128 - v0.x as i128;
        let sy: i128 = ray.ori.y as i128 - v0.y as i128;
        let sz: i128 = ray.ori.z as i128 - v0.z as i128;
        proof {
            let sb: int = 5_000_000_000;
            let hb: int = 400_000_000_000_000_000;
            lemma_mul_bound(sx as int, hx as int, sb, hb);
            lemma_mul_bound(sy as int, hy as int, sb, hb);
            lemma_mul_bound(sz as int, hz as int, sb, hb);
        }
        let sh: i128 = sx * hx + sy * hy + sz * hz;
        let u_ok = if a0 > 0 { 0 <= sh && sh <= a0 } else { a0 <= sh && sh <= 0 };
        if !u_ok {
            return ShapeIntersection::Missed;
        }

        proof {
            let sb: int = 5_000_000_000;
            let eb: int = 2_000_000_000;
            lemma_mul_bound(sy as int, e1z as int, sb, eb);
            lemma_mul_bound(sz as int, e1y as int, sb, eb);
            lemma_mul_bound(sz as int, e1x as int, sb, eb);
            lemma_mul_bound(sx as int, e1z as int, sb, eb);
            lemma_mul_bound(sx as int, e1y as int, sb, eb);
            lemma_mul_bound(sy as int, e1x as int, sb, eb);
        }
        let qx: i128 = sy * e1z - sz * e1y;
        let qy: i128 = sz * e1x - sx * e1z;
        let qz: i128 = sx * e1y - sy * e1x;
        proof {
            let db: int = 100_000_000;
            let qb: int = 20_000_000_000_000_000_000;
            lemma_mul_bound(dx as int, qx as int, db, qb);
            lemma_mul_bound(dy as int, qy as int, db, qb);
            lemma_mul_bound(dz as int, qz as int, db, qb);
        }
        let dq: i128 = dx * qx + dy * qy + dz * qz;
        let v_ok = if a0 > 0 { 0 <= dq && sh + dq <= a0 } else { dq <= 0 && sh + dq >= a0 };
        if !v_ok {
            return ShapeIntersection::Missed;
        }

        proof {
            let eb: int = 2_000_000_000;
            let qb: int = 20_000_000_000_000_000_000;
            lemma_mul_bound(e2x as int, qx as int, eb, qb);
            lemma_mul_bound(e2y as int, qy as int, eb, qb);
            lemma_mul_bound(e2z as int, qz as int, eb, qb);
        }
        let tn: i128 = e2x * qx + e2y * qy + e2z * qz;
        let t_ok = if a0 > 0 { tn * 10_000_000 > a0 } else { tn * 10_000_000 < a0 };
        if !t_ok {
            return ShapeIntersection::Missed;
        }

        proof {
            lemma_tri_t_bound(tn as int, a0 as int);
            if a0 > 0 {
                crate::fixed::lemma_rdiv_nonneg(tn as int * (UNIT as int), a0 as int);
            } else {
                crate::fixed::lemma_rdiv_nonneg(-(tn as int) * (UNIT as int), -(a0 as int));
            }
        }
        let t: i128 = if a0 > 0 {
            div_round(tn * 1_000_000, a0)
        } else {
            div_round(-tn * 1_000_000, -a0)
        };
        if t > T_MAX as i128 || t < 0 {
            ShapeIntersection::Missed
        } else {
            ShapeIntersection::Hit(t as i64)
        }
    }

    pub fn get_material(&self) -> (m: Material)
        requires
            self.materials.len() >= 1,
        ensures
            m == self.materials[0],
    {
        self.materials[0]
    }

    /// The barycentric weights of `point`, clamped; see `weights_spec`.
    fn weighted_areas(&self, point: Vec3) -> (r: (i64, i64, i64))
        requires
            self.wf(),
            in_range(point, ORIMAX as int),
        ensures
            (r.0 as int, r.1 as int, r.2 as int) == weights_spec(
                self.vertices[0].position,
                self.vertices[1].position,
                self.vertices[2].position,
                point,
            ),
            0 <= r.0 <= UNIT && 0 <= r.1 <= UNIT && 0 <= r.2 <= UNIT,
    {
        let v0 = self.vertices[0].position;
        let v1 = self.vertices[1].position;
        let v2 = self.vertices[2].position;
        let area = Vec3::get_area(v0, v1, v2);
        if area == 0 {
            (UNIT, 0, 0)
        } else {
            let a0 = Vec3::get_area(v0, v1, point);
            let a1 = Vec3::get_area(v2, v0, point);
            let a2 = Vec3::get_area(v1, v2, point);
            (
                clamp_weight(a0, area),
                clamp_weight(a1, area),
                clamp_weight(a2, area),
            )
        }
    }

    /// Diffuse colour interpolated over the vertex materials, indices
    /// clamped to the materials actually present.
    fn interpolated_color(&self, point: Vec3) -> (c: Color)
        requires
            self.wf(),
            in_range(point, ORIMAX as int),
        ensures
            ({
                let w = weights_spec(
                    self.vertices[0].position,
                    self.vertices[1].position,
                    self.vertices[2].position,
                    point,
                );
                let m0 = self.materials[0].diffuse;
                let m1 = self.materials[min2(1, self.materials.len() - 1)].diffuse;
                let m2 = self.materials[min2(2, self.materials.len() - 1)].diffuse;
                c.r_spec() == interp_channel(m0.r_spec(), m1.r_spec(), m2.r_spec(), w.0, w.1, w.2)
                    && c.g_spec() == interp_channel(m0.g_spec(), m1.g_spec(), m2.g_spec(), w.0, w.1, w.2)
                    && c.b_spec() == interp_channel(m0.b_spec(), m1.b_spec(), m2.b_spec(), w.0, w.1, w.2)
            }),
    {
        let (w0, w1, w2) = self.weighted_areas(point);
        let i1 = if self.materials.len() > 1 { 1 } else { self.materials.len() - 1 };
        let i2 = if self.materials.len() > 2 { 2 } else { self.materials.len() - 1 };
        let c0 = self.materials[0].diffuse.mult(w2);
        let c1 = self.materials[i1].diffuse.mult(w1);
        let c2 = self.materials[i2].diffuse.mult(w0);
        c0.add(&c1).add(&c2)
    }

    /// The unnormalised face normal.
    fn static_normal(&self) -> (n: Vec3)
        requires
            self.wf(),
        ensures
            n == cross_spec(
                sub_spec(self.vertices[1].position, self.vertices[0].position),
                sub_spec(self.vertices[2].position, self.vertices[0].position),
            ),
            in_range(n, 8_000_000_000_000int),
    {
        let v = self.vertices[1].position.sub(self.vertices[0].position);
        let w = self.vertices[2].position.sub(self.vertices[0].position);
        proof {
            let m: int = 2_000_000_000;
            lemma_mul_bound(v.y as int, w.z as int, m, m);
            lemma_mul_bound(v.z as int, w.y as int, m, m);
            lemma_mul_bound(v.z as int, w.x as int, m, m);
            lemma_mul_bound(v.x as int, w.z as int, m, m);
            lemma_mul_bound(v.x as int, w.y as int, m, m);
            lemma_mul_bound(v.y as int, w.x as int, m, m);
            lemma_rdiv_bound(v.y * w.z - v.z * w.y, UNIT as int, 8_000_000_000_000);
            lemma_rdiv_bound(v.z * w.x - v.x * w.z, UNIT as int, 8_000_000_000_000);
            lemma_rdiv_bound(v.x * w.y - v.y * w.x, UNIT as int, 8_000_000_000_000);
        }
        v.cross(w)
    }

    /// The barycentric blend of the vertex normals.
    fn interpolated_normal(&self, point: Vec3) -> (n: Vec3)
        requires
            self.wf(),
            in_range(point, ORIMAX as int),
        ensures
            ({
                let w = weights_spec(
                    self.vertices[0].position,
                    self.vertices[1].position,
                    self.vertices[2].position,
                    point,
                );
                n == add_spec(
                    add_spec(
                        mult_spec(self.vertices[0].normal, w.2),
                        mult_spec(self.vertices[1].normal, w.1),
                    ),
                    mult_spec(self.vertices[2].normal, w.0),
                )
            }),
            in_range(n, 4_000_000_000int),
    {
        let (w0, w1, w2) = self.weighted_areas(point);
        proof {
            lemma_scaled_normal_bound(self.vertices[0].normal, w2 as int);
            lemma_scaled_normal_bound(self.vertices[1].normal, w1 as int);
            lemma_scaled_normal_bound(self.vertices[2].normal, w0 as int);
        }
        let n0 = self.vertices[0].normal.mult(w2);
        let n1 = self.vertices[1].normal.mult(w1);
        let n2 = self.vertices[2].normal.mult(w0);
        n0.add(n1).add(n2)
    }

    /// What `surface_normal` returns: the face or interpolated normal,
    /// normalised, flipped to oppose the incoming direction.
    pub open spec fn normal_spec(self, direction: Vec3, point: Vec3) -> Vec3 {
        let base = if self.vertex_normal {
            let w = weights_spec(
                self.vertices[0].position,
                self.vertices[1].position,
                self.vertices[2].position,
                point,
            );
            add_spec(
                add_spec(
                    mult_spec(self.vertices[0].normal, w.2),
                    mult_spec(self.vertices[1].normal, w.1),
                ),
                mult_spec(self.vertices[2].normal, w.0),
            )
        } else {
            cross_spec(
                sub_spec(self.vertices[1].position, self.vertices[0].position),
                sub_spec(self.vertices[2].position, self.vertices[0].position),
            )
        };
        let nrm = normalize_spec(base);
        if dot_spec(nrm, direction) > 0 {
            Vec3 { x: (-nrm.x) as i64, y: (-nrm.y) as i64, z: (-nrm.z) as i64 }
        } else {
            nrm
        }
    }

    /// Unit normal at `point`, opposing `direction`.
    pub fn surface_normal(&self, direction: Vec3, point: Vec3) -> (n: Vec3)
        requires
            self.wf(),
            in_range(direction, DIRMAX as int),
            in_range(point, ORIMAX as int),
        ensures
            n == self.normal_spec(direction, point),
            in_range(n, UNIT as int),
    {
        let mut normal = if self.vertex_normal {
            self.interpolated_normal(point)
        } else {
            self.static_normal()
        };
        proof {
            if sq_norm(normal) == 0 {
                crate::fixed::lemma_sq(normal.x as int);
                crate::fixed::lemma_sq(normal.y as int);
                crate::fixed::lemma_sq(normal.z as int);
                lemma_mul_bound(normal.x as int, normal.x as int, 8_000_000_000_000, 8_000_000_000_000);
                lemma_mul_bound(normal.y as int, normal.y as int, 8_000_000_000_000, 8_000_000_000_000);
                lemma_mul_bound(normal.z as int, normal.z as int, 8_000_000_000_000, 8_000_000_000_000);
            }
        }
        normal.normalize();
        if normal.dot(direction) > 0 {
            normal.invert()
        } else {
            normal
        }
    }

    /// Diffuse colour at `point`: the interpolated blend when the
    /// polygon binds materials per vertex, the leading material
    /// otherwise.
    pub fn diffuse_color(&self, point: Vec3) -> (c: Color)
        requires
            self.wf(),
            in_range(point, ORIMAX as int),
        ensures
            !self.vertex_material ==> c == self.materials[0].diffuse,
            self.vertex_material ==> ({
                let w = weights_spec(
                    self.vertices[0].position,
                    self.vertices[1].position,
                    self.vertices[2].position,
                    point,
                );
                let m0 = self.materials[0].diffuse;
                let m1 = self.materials[min2(1, self.materials.len() - 1)].diffuse;
                let m2 = self.materials[min2(2, self.materials.len() - 1)].diffuse;
                c.r_spec() == interp_channel(m0.r_spec(), m1.r_spec(), m2.r_spec(), w.0, w.1, w.2)
                    && c.g_spec() == interp_channel(m0.g_spec(), m1.g_spec(), m2.g_spec(), w.0, w.1, w.2)
                    && c.b_spec() == interp_channel(m0.b_spec(), m1.b_spec(), m2.b_spec(), w.0, w.1, w.2)
            }),
    {
        if self.vertex_material {
            self.interpolated_color(point)
        } else {
            self.materials[0].diffuse
        }
    }
}

fn min3(a: i64, b: i64, c: i64) -> (r: i64)
    ensures
        r as int == min2(a as int, min2(b as int, c as int)),
{
    let bc = if b <= c { b } else { c };
    if a <= bc { a } else { bc }
}

fn max3(a: i64, b: i64, c: i64) -> (r: i64)
    ensures
        r as int == max2(a as int, max2(b as int, c as int)),
{
    let bc = if b <= c { c } else { b };
    if a <= bc { bc } else { a }
}

/// `UNIT * num / den` rounded, clamped into `[0, UNIT]`.
fn clamp_weight(num: i64, den: i64) -> (r: i64)
    requires
        0 <= num <= 2_000_000_000_000_000_000,
        0 < den <= 2_000_000_000_000_000_000,
    ensures
        r == clamp_channel(rdiv(num * (UNIT as int), den as int)),
        0 <= r <= UNIT,
{
    proof {
        lemma_mul_bound(num as int, UNIT as int, 2_000_000_000_000_000_000, UNIT as int);
        lemma_rdiv_bound(
            num * (UNIT as int),
            den as int,
            2_000_000_000_000_000_000_000_000,
        );
        assert((den as int) * 2_000_000_000_000_000_000_000_000 >= (num as int) * (UNIT as int))
            by (nonlinear_arith)
            requires
                den as int >= 1,
                0 <= (num as int) * (UNIT as int) <= 2_000_000_000_000_000_000_000_000,
        ;
        assert(rdiv(num as int * (UNIT as int), den as int) >= 0) by {
            assert(num as int * (UNIT as int) >= 0);
            assert((num as int * (UNIT as int)) + (den as int) / 2 >= 0);
        }
    }
    let w = div_round((num as i128) * 1_000_000, den as i128);
    if w > UNIT as i128 {
        UNIT
    } else if w < 0 {
        0
    } else {
        w as i64
    }
}

/// A scaled normal stays within a third of the additive budget.
proof fn lemma_scaled_normal_bound(n: Vec3, w: int)
    requires
        in_range(n, PMAX as int),
        0 <= w <= UNIT,
    ensures
        in_range(mult_spec(n, w), 1_100_000_000int),
{
    lemma_mul_bound(n.x as int, w, PMAX as int, UNIT as int);
    lemma_mul_bound(n.y as int, w, PMAX as int, UNIT as int);
    lemma_mul_bound(n.z as int, w, PMAX as int, UNIT as int);
    lemma_rdiv_bound(n.x * w, UNIT as int, 1_000_000_000);
    lemma_rdiv_bound(n.y * w, UNIT as int, 1_000_000_000);
    lemma_rdiv_bound(n.z * w, UNIT as int, 1_000_000_000);
}

/// The reported distance is a bounded rounded quotient.
proof fn lemma_tri_t_bound(tn: int, a0: int)
    requires
        -120_000_000_000_000_000_000_000_000_000 <= tn <= 120_000_000_000_000_000_000_000_000_000,
        a0 >= TRI_EPS_RAW as int || a0 <= -(TRI_EPS_RAW as int),
    ensures
        a0 > 0 ==> -2_000_000_000_000_000_000_000_000_000
            <= rdiv(tn * (UNIT as int), a0)
            <= 2_000_000_000_000_000_000_000_000_000,
        a0 < 0 ==> -2_000_000_000_000_000_000_000_000_000
            <= rdiv(-tn * (UNIT as int), -a0)
            <= 2_000_000_000_000_000_000_000_000_000,
        -0x40000000000000000000000000000000 < tn * (UNIT as int)
            < 0x40000000000000000000000000000000,
{
    lemma_mul_bound(tn, UNIT as int, 120_000_000_000_000_000_000_000_000_000, UNIT as int);
    let c: int = 2_000_000_000_000_000_000_000_000_000;
    if a0 > 0 {
        assert(a0 * c >= tn * (UNIT as int) && -(a0 * c) <= tn * (UNIT as int))
            by (nonlinear_arith)
            requires
                a0 >= 100_000_000_000,
                -120_000_000_000_000_000_000_000_000_000_000_000
                    <= tn * (1_000_000int)
                    <= 120_000_000_000_000_000_000_000_000_000_000_000,
                c == 2_000_000_000_000_000_000_000_000_000int,
        ;
        lemma_rdiv_bound(tn * (UNIT as int), a0, c);
    } else {
        assert((-a0) * c >= -tn * (UNIT as int) && -((-a0) * c) <= -tn * (UNIT as int))
            by (nonlinear_arith)
            requires
                -a0 >= 100_000_000_000,
                -120_000_000_000_000_000_000_000_000_000_000_000
                    <= tn * (1_000_000int)
                    <= 120_000_000_000_000_000_000_000_000_000_000_000,
                c == 2_000_000_000_000_000_000_000_000_000int,
        ;
        lemma_rdiv_bound(-tn * (UNIT as int), -a0, c);
    }
}

} // verus!
