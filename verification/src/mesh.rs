//! Triangle meshes: de-duplicated pools of vertices, normals and
//! materials, with triangles referring into the pools by index.

use vstd::prelude::*;
use crate::color::Material;
use crate::vec3::{Vec3, in_range, PMAX};

verus! {

/// One triangle corner as indices into the owning mesh's pools.
pub type VertexIndex = (usize, Option<usize>, Option<usize>);

/// One triangle as three corner index triples.
pub type PolyIndex = (VertexIndex, VertexIndex, VertexIndex);

/// A resolved mesh corner.
#[derive(Clone, Copy, Debug, PartialEq, Eq, Structural)]
pub struct PolyVertex {
    pub position: Vec3,
    pub normal: Option<Vec3>,
    pub material: Material,
}

/// A resolved mesh triangle.
#[derive(Clone, Copy, Debug, PartialEq, Eq, Structural)]
pub struct MeshPoly {
    pub x: PolyVertex,
    pub y: PolyVertex,
    pub z: PolyVertex,
}

pub struct Mesh {
    pub vertices: Vec<Vec3>,
    pub normals: Vec<Vec3>,
    pub materials: Vec<Material>,
    pub polys: Vec<PolyIndex>,
}

/// All indices of one corner point into the pools.
pub open spec fn vi_wf(vi: VertexIndex, m: Mesh) -> bool {
    &&& vi.0 < m.vertices@.len()
    &&& (vi.1 matches Some(i) ==> i < m.normals@.len())
    &&& (vi.2 matches Some(i) ==> i < m.materials@.len())
}

/// All indices of one corner against pool sizes.
pub open spec fn vi_ok_spec(vi: VertexIndex, vlen: nat, nlen: nat, mlen: nat) -> bool {
    &&& vi.0 < vlen
    &&& (vi.1 matches Some(i) ==> i < nlen)
    &&& (vi.2 matches Some(i) ==> i < mlen)
}

/// All three corners of one triangle against pool sizes.
pub open spec fn poly_index_ok(p: PolyIndex, vlen: nat, nlen: nat, mlen: nat) -> bool {
    vi_ok_spec(p.0, vlen, nlen, mlen) && vi_ok_spec(p.1, vlen, nlen, mlen)
        && vi_ok_spec(p.2, vlen, nlen, mlen)
}

impl Mesh {
    /// Every triangle refers into the pools, there is a material to
    /// fall back on, and the pool values are in budget.
    pub open spec fn wf(self) -> bool {
        &&& self.materials@.len() >= 1
        &&& forall|i: int| 0 <= i < self.polys@.len() ==> {
            &&& vi_wf((#[trigger] self.polys@[i]).0, self)
            &&& vi_wf(self.polys@[i].1, self)
            &&& vi_wf(self.polys@[i].2, self)
        }
        &&& forall|i: int| 0 <= i < self.vertices@.len()
            ==> in_range(#[trigger] self.vertices@[i], PMAX as int)
        &&& forall|i: int| 0 <= i < self.normals@.len()
            ==> in_range(#[trigger] self.normals@[i], PMAX as int)
        &&& forall|i: int| 0 <= i < self.materials@.len()
            ==> (#[trigger] self.materials@[i]).wf()
    }

    pub fn new() -> (m: Mesh)
        ensures
            m.vertices@.len() == 0,
            m.normals@.len() == 0,
            m.materials@.len() == 0,
            m.polys@.len() == 0,
    {
        Mesh {
            vertices: Vec::new(),
            normals: Vec::new(),
            materials: Vec::new(),
            polys: Vec::new(),
        }
    }

    /// One corner resolved against the pools; a missing material
    /// index falls back to the leading material.
    fn resolve(&self, vi: VertexIndex) -> (v: PolyVertex)
        requires
            self.wf(),
            vi_wf(vi, *self),
        ensures
            v.position == self.vertices@[vi.0 as int],
            v.normal == (match vi.1 {
                Some(i) => Some(self.normals@[i as int]),
                None => None::<Vec3>,
            }),
            v.material == (match vi.2 {
                Some(i) => self.materials@[i as int],
                None => self.materials@[0],
            }),
    {
        let position = self.vertices[vi.0];
        let normal = match vi.1 {
            Some(i) => Some(self.normals[i]),
            None => None,
        };
        let material = match vi.2 {
            Some(i) => self.materials[i],
            None => self.materials[0],
        };
        PolyVertex { position, normal, material }
    }

    /// The triangle at `index`, resolved against the pools.
    pub fn poly(&self, index: usize) -> (p: MeshPoly)
        requires
            self.wf(),
            index < self.polys@.len(),
        ensures
            p.x.position == self.vertices@[self.polys@[index as int].0.0 as int],
            p.y.position == self.vertices@[self.polys@[index as int].1.0 as int],
            p.z.position == self.vertices@[self.polys@[index as int].2.0 as int],
            p.x.normal == (match self.polys@[index as int].0.1 {
                Some(i) => Some(self.normals@[i as int]),
                None => None::<Vec3>,
            }),
            p.x.material == (match self.polys@[index as int].0.2 {
                Some(i) => self.materials@[i as int],
                None => self.materials@[0],
            }),
            p.y.normal == (match self.polys@[index as int].1.1 {
                Some(i) => Some(self.normals@[i as int]),
                None => None::<Vec3>,
            }),
            p.y.material == (match self.polys@[index as int].1.2 {
                Some(i) => self.materials@[i as int],
                None => self.materials@[0],
            }),
            p.z.normal == (match self.polys@[index as int].2.1 {
                Some(i) => Some(self.normals@[i as int]),
                None => None::<Vec3>,
            }),
            p.z.material == (match self.polys@[index as int].2.2 {
                Some(i) => self.materials@[i as int],
                None => self.materials@[0],
            }),
    {
        let pi = self.polys[index];
        MeshPoly {
            x: self.resolve(pi.0),
            y: self.resolve(pi.1),
            z: self.resolve(pi.2),
        }
    }

    /// Build a mesh from pools and index triples, keeping only the
    /// triangles whose indices all point into the pools.
    pub fn from_data(
        vertices: Vec<Vec3>,
        normals: Vec<Vec3>,
        materials: Vec<Material>,
        polys: Vec<PolyIndex>,
    ) -> (m: Mesh)
        requires
            materials@.len() >= 1,
            forall|i: int| 0 <= i < vertices@.len()
                ==> in_range(#[trigger] vertices@[i], PMAX as int),
            forall|i: int| 0 <= i < normals@.len()
                ==> in_range(#[trigger] normals@[i], PMAX as int),
            forall|i: int| 0 <= i < materials@.len() ==> (#[trigger] materials@[i]).wf(),
        ensures
            m.wf(),
            m.vertices@ == vertices@,
            m.normals@ == normals@,
            m.materials@ == materials@,
            m.polys@ == polys@.filter(
                |p: PolyIndex| poly_index_ok(p, vertices@.len(), normals@.len(), materials@.len()),
            ),
    {
        let mut mesh = Mesh {
            vertices,
            normals,
            materials,
            polys: Vec::new(),
        };
        mesh.build_polys(polys);
        mesh
    }

    /// Install the index triples, dropping any triple with an index
    /// outside the pools.
    pub fn build_polys(&mut self, poly_indices: Vec<PolyIndex>)
        requires
            old(self).materials@.len() >= 1,
            forall|i: int| 0 <= i < old(self).vertices@.len()
                ==> in_range(#[trigger] old(self).vertices@[i], PMAX as int),
            forall|i: int| 0 <= i < old(self).normals@.len()
                ==> in_range(#[trigger] old(self).normals@[i], PMAX as int),
            forall|i: int| 0 <= i < old(self).materials@.len()
                ==> (#[trigger] old(self).materials@[i]).wf(),
        ensures
            final(self).wf(),
            final(self).vertices@ == old(self).vertices@,
            final(self).normals@ == old(self).normals@,
            final(self).materials@ == old(self).materials@,
            final(self).polys@ == poly_indices@.filter(
                |p: PolyIndex| poly_index_ok(
                    p,
                    old(self).vertices@.len(),
                    old(self).normals@.len(),
                    old(self).materials@.len(),
                ),
            ),
    {
        let ghost vlen = self.vertices@.len();
        let ghost nlen = self.normals@.len();
        let ghost mlen = self.materials@.len();
        let ghost keep = |p: PolyIndex| poly_index_ok(p, vlen, nlen, mlen);
        self.polys = Vec::new();
        proof {
            reveal(Seq::filter);
            assert(poly_indices@.subrange(0, 0) =~= Seq::<PolyIndex>::empty());
        }
        let mut k: usize = 0;
        while k < poly_indices.len()
            invariant
                0 <= k <= poly_indices@.len(),
                self.materials@.len() >= 1,
                vlen == self.vertices@.len(),
                nlen == self.normals@.len(),
                mlen == self.materials@.len(),
                keep == (|p: PolyIndex| poly_index_ok(p, vlen, nlen, mlen)),
                self.vertices@ == old(self).vertices@,
                self.normals@ == old(self).normals@,
                self.materials@ == old(self).materials@,
                self.polys@ == poly_indices@.subrange(0, k as int).filter(keep),
                forall|i: int| 0 <= i < self.vertices@.len()
                    ==> in_range(#[trigger] self.vertices@[i], PMAX as int),
                forall|i: int| 0 <= i < self.normals@.len()
                    ==> in_range(#[trigger] self.normals@[i], PMAX as int),
                forall|i: int| 0 <= i < self.materials@.len()
                    ==> (#[trigger] self.materials@[i]).wf(),
                forall|i: int| 0 <= i < self.polys@.len() ==> {
                    &&& vi_wf((#[trigger] self.polys@[i]).0, *self)
                    &&& vi_wf(self.polys@[i].1, *self)
                    &&& vi_wf(self.polys@[i].2, *self)
                },
            decreases poly_indices@.len() - k,
        {
            let ghost pre = poly_indices@.subrange(0, k as int);
            let p = poly_indices[k];
            if self.vi_ok(p.0) && self.vi_ok(p.1) && self.vi_ok(p.2) {
                self.polys.push(p);
            }
            proof {
                reveal(Seq::filter);
                let post = poly_indices@.subrange(0, k as int + 1);
                assert(post.drop_last() =~= pre);
                assert(post.last() == poly_indices@[k as int]);
                assert(keep(p) == (self.vi_ok_spec_at(p)));
                if keep(p) {
                    assert(self.polys@ =~= pre.filter(keep).push(p));
                }
            }
            k += 1;
        }
        proof {
            assert(poly_indices@.subrange(0, poly_indices@.len() as int) =~= poly_indices@);
        }
    }

    /// Whether all three corners of `p` point into this mesh's pools.
    pub open spec fn vi_ok_spec_at(self, p: PolyIndex) -> bool {
        vi_wf(p.0, self) && vi_wf(p.1, self) && vi_wf(p.2, self)
    }

    fn vi_ok(&self, vi: VertexIndex) -> (r: bool)
        ensures
            r == vi_wf(vi, *self),
    {
        if vi.0 >= self.vertices.len() {
            return false;
        }
        if let Some(i) = vi.1 {
            if i >= self.normals.len() {
                return false;
            }
        }
        if let Some(i) = vi.2 {
            if i >= self.materials.len() {
                return false;
            }
        }
        true
    }

    /// Linear scan over the triangles: the nearest hit and the index
    /// of the triangle attaining it, replaced only by a strictly
    /// nearer one.
    pub fn intersects(&self, ray: &crate::ray::Ray) -> (r: (crate::shapes::ShapeIntersection, usize))
        requires
            self.wf(),
            in_range(ray.ori, crate::vec3::ORIMAX as int),
            in_range(ray.dir, crate::vec3::DIRMAX as int),
        ensures
            match r.0 {
                crate::shapes::ShapeIntersection::Hit(t) => r.1 < self.polys@.len()
                    && mesh_tri_hit(*self, r.1 as int, *ray) == Some(t as int)
                    && (forall|i: int| 0 <= i < self.polys@.len()
                        && mesh_tri_hit(*self, i, *ray) is Some
                        ==> mesh_tri_hit(*self, i, *ray).unwrap() >= t)
                    && (forall|i: int| 0 <= i < r.1
                        && mesh_tri_hit(*self, i, *ray) is Some
                        ==> mesh_tri_hit(*self, i, *ray).unwrap() > t),
                crate::shapes::ShapeIntersection::Missed => r.1 == 0 && (forall|i: int|
                    0 <= i < self.polys@.len()
                    ==> mesh_tri_hit(*self, i, *ray) is None),
            },
    {
        let mut point: i64 = 0;
        let mut index: usize = 0;
        let mut has_intersected = false;
        let n = self.polys.len();
        let mut i: usize = 0;
        while i < n
            invariant
                self.wf(),
                in_range(ray.ori, crate::vec3::ORIMAX as int),
                in_range(ray.dir, crate::vec3::DIRMAX as int),
                n == self.polys@.len(),
                0 <= i <= n,
                !has_intersected ==> index == 0 && (forall|j: int| 0 <= j < i
                    ==> mesh_tri_hit(*self, j, *ray) is None),
                has_intersected ==> index < i
                    && mesh_tri_hit(*self, index as int, *ray) == Some(point as int)
                    && (forall|j: int| 0 <= j < i && mesh_tri_hit(*self, j, *ray) is Some
                        ==> mesh_tri_hit(*self, j, *ray).unwrap() >= point)
                    && (forall|j: int| 0 <= j < index && mesh_tri_hit(*self, j, *ray) is Some
                        ==> mesh_tri_hit(*self, j, *ray).unwrap() > point),
            decreases n - i,
        {
            let pi = self.polys[i];
            let v0 = self.vertices[pi.0.0];
            let v1 = self.vertices[pi.1.0];
            let v2 = self.vertices[pi.2.0];
            let mut tri = crate::poly::Poly::init();
            tri.vertices = [
                crate::poly::Vertex::init(v0),
                crate::poly::Vertex::init(v1),
                crate::poly::Vertex::init(v2),
            ];
            match tri.intersects(ray) {
                crate::shapes::ShapeIntersection::Hit(pt) => {
                    if !has_intersected {
                        point = pt;
                        index = i;
                        has_intersected = true;
                    } else if pt < point {
                        point = pt;
                        index = i;
                    }
                },
                crate::shapes::ShapeIntersection::Missed => {},
            }
            i += 1;
        }
        if has_intersected {
            (crate::shapes::ShapeIntersection::Hit(point), index)
        } else {
            (crate::shapes::ShapeIntersection::Missed, index)
        }
    }
}

/// The exact hit distance of a ray against the mesh triangle at `i`.
pub open spec fn mesh_tri_hit(m: Mesh, i: int, ray: crate::ray::Ray) -> Option<int> {
    crate::poly::poly_hit(
        m.vertices@[m.polys@[i].0.0 as int],
        m.vertices@[m.polys@[i].1.0 as int],
        m.vertices@[m.polys@[i].2.0 as int],
        ray,
    )
}

} // verus!
