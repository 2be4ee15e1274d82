//! Scenes: camera, lights, and primitives under one of two
//! interchangeable nearest-intersection strategies.
//!
//! The linear strategy scans every primitive and keeps the first hit,
//! replacing it only by a strictly nearer one; its result is specified
//! exactly by `linear_hit`. The accelerated strategy delegates to the
//! bounding-volume hierarchy. Area lights draw uniform sample points
//! from their rectangular extent; everything proved about them holds
//! for every draw.

use vstd::prelude::*;
use rand::RngExt;
use crate::color::Color;
use crate::vec3::{
    Vec3, in_range, sub_spec, normalize_spec, sq_norm, PMAX, DIRMAX, ORIMAX,
};
use crate::ray::Ray;
use crate::bbox::{min2, max2};
use crate::shapes::{Primitive, ShapeIntersection, prim_hit};
use crate::intersection::Intersection;
use crate::bvh::{
    Tree, Node, NodeIntersection, node_wf, node_prims, node_hit, prune_safe,
    lemma_node_hit_sound, lemma_node_hit_complete,
};
use crate::fixed::{rdiv, UNIT, div_round, lemma_rdiv_bound, lemma_mul_bound, lemma_rdiv_nonneg};

verus! {

/// Relies on `rand::rng` and `rand::RngExt::random_range`: a draw from
/// the inclusive integer range, uniform over it; nothing is assumed
/// beyond the range itself.
#[verifier::external_body]
fn sample_unit() -> (r: i64)
    ensures
        0 <= r <= UNIT,
{
    let mut rng = rand::rng();
    rng.random_range(0..=1_000_000i64)
}

/// A uniform draw between two bounds.
fn sample_between(a: i64, b: i64) -> (r: i64)
    requires
        -PMAX <= a <= PMAX,
        -PMAX <= b <= PMAX,
    ensures
        min2(a as int, b as int) <= r <= max2(a as int, b as int),
{
    let rx = sample_unit();
    let d: i128 = b as i128 - a as i128;
    proof {
        let rxi = rx as int;
        let di = d as int;
        lemma_mul_bound(rxi, di, UNIT as int, 2 * PMAX as int);
        lemma_rdiv_bound(rxi * di, UNIT as int, 2 * PMAX as int);
        if di >= 0 {
            lemma_rdiv_nonneg(rxi * di, UNIT as int);
            assert(rxi * di <= (UNIT as int) * di) by (nonlinear_arith)
                requires 0 <= rxi, rxi <= 1_000_000int, di >= 0,
            ;
            lemma_rdiv_bound(rxi * di, UNIT as int, di);
        } else {
            lemma_rdiv_nonneg(rxi * (-di), UNIT as int);
            assert(rxi * (-di) <= (UNIT as int) * (-di)) by (nonlinear_arith)
                requires 0 <= rxi, rxi <= 1_000_000int, di < 0,
            ;
            lemma_rdiv_bound(rxi * (-di), UNIT as int, -di);
            assert(rdiv(rxi * di, UNIT as int) == -rdiv(rxi * (-di), UNIT as int)) by {
                assert(rxi * di == -(rxi * (-di))) by (nonlinear_arith);
            }
        }
    }
    let off = div_round((rx as i128) * d, 1_000_000);
    (a as i128 + off) as i64
}

#[derive(Clone, Copy, Debug, PartialEq, Eq, Structural)]
pub struct PointLight {
    pub pos: Vec3,
    pub intensity: Color,
}

impl PointLight {
    pub fn new() -> (l: PointLight)
        ensures
            l.pos == (Vec3 { x: 0, y: 0, z: 0 }),
            l.intensity == crate::color::black(),
    {
        PointLight { pos: Vec3::new(), intensity: Color::new() }
    }
}

#[derive(Clone, Copy, Debug, PartialEq, Eq, Structural)]
pub struct AreaLight {
    pub min: Vec3,
    pub max: Vec3,
    pub intensity: Color,
}

/// `p` lies within the axis-aligned extent spanned by `min` and `max`.
pub open spec fn in_extent(p: Vec3, min: Vec3, max: Vec3) -> bool {
    &&& min2(min.x as int, max.x as int) <= p.x <= max2(min.x as int, max.x as int)
    &&& min2(min.y as int, max.y as int) <= p.y <= max2(min.y as int, max.y as int)
    &&& min2(min.z as int, max.z as int) <= p.z <= max2(min.z as int, max.z as int)
}

impl AreaLight {
    pub fn new() -> (l: AreaLight)
        ensures
            l.min == (Vec3 { x: 0, y: 0, z: 0 }),
            l.max == (Vec3 { x: 0, y: 0, z: 0 }),
            l.intensity == crate::color::black(),
    {
        AreaLight { min: Vec3::new(), max: Vec3::new(), intensity: Color::new() }
    }

    /// A uniformly sampled point of the light's extent. Whatever the
    /// draw, the point lies within the extent.
    pub fn sample_point(&self) -> (p: Vec3)
        requires
            in_range(self.min, PMAX as int),
            in_range(self.max, PMAX as int),
        ensures
            in_extent(p, self.min, self.max),
            in_range(p, PMAX as int),
    {
        Vec3 {
            x: sample_between(self.min.x, self.max.x),
            y: sample_between(self.min.y, self.max.y),
            z: sample_between(self.min.z, self.max.z),
        }
    }
}

#[derive(Clone, Copy, Debug, PartialEq, Eq, Structural)]
pub struct DirectionalLight {
    pub dir: Vec3,
    pub intensity: Color,
}

impl DirectionalLight {
    pub fn new() -> (l: DirectionalLight)
        ensures
            l.dir == (Vec3 { x: 0, y: 0, z: 0 }),
            l.intensity == crate::color::black(),
    {
        DirectionalLight { dir: Vec3::new(), intensity: Color::new() }
    }
}

#[derive(Clone, Copy, Debug, PartialEq, Eq, Structural)]
pub enum Light {
    Point(PointLight),
    Area(AreaLight),
    Directional(DirectionalLight),
}

impl Light {
    /// Positions within the coordinate budget; directional directions
    /// within the direction budget.
    pub open spec fn wf(self) -> bool {
        match self {
            Light::Point(l) => in_range(l.pos, PMAX as int),
            Light::Area(l) => in_range(l.min, PMAX as int) && in_range(l.max, PMAX as int),
            Light::Directional(l) => in_range(l.dir, DIRMAX as int),
        }
    }

    pub fn intensity(&self) -> (c: Color)
        ensures
            c == self.intensity_spec(),
    {
        match self {
            Light::Point(light) => light.intensity,
            Light::Area(light) => light.intensity,
            Light::Directional(light) => light.intensity,
        }
    }

    pub open spec fn intensity_spec(self) -> Color {
        match self {
            Light::Point(l) => l.intensity,
            Light::Area(l) => l.intensity,
            Light::Directional(l) => l.intensity,
        }
    }

    /// A representative position: the point light's position, a fresh
    /// sample of an area light's extent, the origin for a directional
    /// light.
    pub fn position(&self) -> (p: Vec3)
        requires
            self.wf(),
        ensures
            match *self {
                Light::Point(l) => p == l.pos,
                Light::Area(l) => in_extent(p, l.min, l.max),
                Light::Directional(_) => p == (Vec3 { x: 0, y: 0, z: 0 }),
            },
            in_range(p, PMAX as int),
    {
        match self {
            Light::Point(light) => light.pos,
            Light::Area(light) => light.sample_point(),
            Light::Directional(_) => Vec3::new(),
        }
    }

    /// The direction from `point` toward the light: the inverted beam
    /// for a directional light, otherwise the normalised offset to the
    /// light's (possibly sampled) position.
    pub fn get_dir(&self, point: Vec3) -> (d: Vec3)
        requires
            self.wf(),
            in_range(point, ORIMAX as int),
        ensures
            match *self {
                Light::Directional(l) => d == (Vec3 {
                    x: (-l.dir.x) as i64,
                    y: (-l.dir.y) as i64,
                    z: (-l.dir.z) as i64,
                }),
                Light::Point(l) => d == normalize_spec(sub_spec(l.pos, point)),
                Light::Area(l) => exists|s: Vec3| in_extent(s, l.min, l.max)
                    && d == normalize_spec(sub_spec(s, point)),
            },
            in_range(d, DIRMAX as int),
    {
        match self {
            Light::Directional(light) => light.dir.invert(),
            Light::Point(light) => {
                let mut dir = light.pos.sub(point);
                proof { lemma_zero_vec(dir); }
                dir.normalize();
                dir
            },
            Light::Area(light) => {
                let s = light.sample_point();
                let mut dir = s.sub(point);
                proof { lemma_zero_vec(dir); }
                dir.normalize();
                dir
            },
        }
    }
}

/// A zero squared norm means the zero vector.
proof fn lemma_zero_vec(v: Vec3)
    requires
        in_range(v, 8_000_000_000int),
    ensures
        sq_norm(v) == 0 ==> v == (Vec3 { x: 0, y: 0, z: 0 }),
{
    if sq_norm(v) == 0 {
        crate::fixed::lemma_sq(v.x as int);
        crate::fixed::lemma_sq(v.y as int);
        crate::fixed::lemma_sq(v.z as int);
        lemma_mul_bound(v.x as int, v.x as int, 8_000_000_000int, 8_000_000_000int);
        lemma_mul_bound(v.y as int, v.y as int, 8_000_000_000int, 8_000_000_000int);
        lemma_mul_bound(v.z as int, v.z as int, 8_000_000_000int, 8_000_000_000int);
    }
}

#[derive(Clone, Copy, Debug, PartialEq, Eq, Structural)]
pub struct Camera {
    pub pos: Vec3,
    pub view_dir: Vec3,
    pub focal_dist: i64,
    pub ortho_up: Vec3,
    pub vertical_fov: i64,
}

impl Camera {
    /// Coordinates in budget and a field of view below a full turn.
    pub open spec fn wf(self) -> bool {
        &&& in_range(self.pos, PMAX as int)
        &&& in_range(self.view_dir, PMAX as int)
        &&& in_range(self.ortho_up, PMAX as int)
        &&& 0 <= self.vertical_fov <= 6_300_000
    }

    pub fn new() -> (c: Camera)
        ensures
            c == (Camera {
                pos: Vec3 { x: 0, y: 0, z: 0 },
                view_dir: Vec3 { x: 0, y: 0, z: 0 },
                focal_dist: 0,
                ortho_up: Vec3 { x: 0, y: 0, z: 0 },
                vertical_fov: 0,
            }),
            c.wf(),
    {
        Camera {
            pos: Vec3::new(),
            view_dir: Vec3::new(),
            focal_dist: 0,
            ortho_up: Vec3::new(),
            vertical_fov: 0,
        }
    }
}

/// Outcome of a scene query.
pub enum SceneIntersection<'a> {
    Intersected(Intersection<'a>),
    Missed,
}

/// What the linear scan computes over a primitive list: the first hit
/// establishes the baseline and a later primitive replaces it only
/// with a strictly smaller distance, so the result is the first
/// primitive attaining the minimal hit distance.
pub open spec fn linear_hit(s: Seq<Primitive>, ray: Ray) -> Option<(int, int)>
    decreases s.len(),
{
    if s.len() == 0 {
        None
    } else {
        let prev = linear_hit(s.drop_last(), ray);
        match prim_hit(s.last(), ray) {
            Some(t2) => match prev {
                Some((i, t)) => if t2 < t {
                    Some((s.len() - 1, t2))
                } else {
                    Some((i, t))
                },
                None => Some((s.len() - 1, t2)),
            },
            None => prev,
        }
    }
}

/// The linear scan misses exactly when every primitive misses, and a
/// hit names a primitive that attains the minimal hit distance.
pub proof fn lemma_linear_hit_characterization(s: Seq<Primitive>, ray: Ray)
    ensures
        match linear_hit(s, ray) {
            None => forall|i: int| 0 <= i < s.len() ==> prim_hit(#[trigger] s[i], ray) is None,
            Some((i, t)) => {
                &&& 0 <= i < s.len()
                &&& prim_hit(s[i], ray) == Some(t)
                &&& forall|j: int| 0 <= j < s.len() && prim_hit(#[trigger] s[j], ray) is Some
                    ==> prim_hit(s[j], ray).unwrap() >= t
            },
        },
    decreases s.len(),
{
    if s.len() > 0 {
        lemma_linear_hit_characterization(s.drop_last(), ray);
        assert(forall|j: int| 0 <= j < s.len() - 1 ==> #[trigger] s[j] == s.drop_last()[j]);
        assert(s.last() == s[s.len() - 1]);
    }
}

/// Law: for any primitive list and any ray, the linear scan and a
/// hierarchy built over the same primitives agree on whether the ray
/// hits and, when it does, on the nearest hit distance — whenever the
/// slab test pruned no subtree containing a hit (`prune_safe`), the
/// precise form of "not exactly tangent to a boundary". The chosen
/// primitive may differ only between primitives at exactly equal
/// distance, as the two strategies break such ties differently.
pub proof fn lemma_nearest_hit_agreement(prims: Seq<Primitive>, root: Node, ray: Ray)
    requires
        node_wf(root),
        node_prims(root).to_multiset() == prims.to_multiset(),
        prune_safe(root, ray),
    ensures
        match (node_hit(root, ray), linear_hit(prims, ray)) {
            (None, None) => true,
            (Some((p, t)), Some((i, u))) => t == u,
            _ => false,
        },
{
    broadcast use vstd::seq_lib::group_to_multiset_ensures;

    let nps = node_prims(root);
    lemma_linear_hit_characterization(prims, ray);
    lemma_node_hit_sound(root, ray);
    lemma_node_hit_complete(root, ray);
    match (node_hit(root, ray), linear_hit(prims, ray)) {
        (None, None) => {},
        (None, Some((i, u))) => {
            assert(prims.contains(prims[i]));
            assert(nps.to_multiset().count(prims[i]) > 0);
            assert(nps.contains(prims[i]));
            let j = choose|j: int| 0 <= j < nps.len() && nps[j] == prims[i];
            assert(prim_hit(nps[j], ray) is None);
            assert(false);
        },
        (Some((p, t)), None) => {
            let j = choose|j: int| 0 <= j < nps.len() && #[trigger] nps[j] == p
                && prim_hit(p, ray) == Some(t);
            assert(nps.contains(nps[j]));
            assert(prims.to_multiset().count(nps[j]) > 0);
            assert(prims.contains(nps[j]));
            let i = choose|i: int| 0 <= i < prims.len() && prims[i] == nps[j];
            assert(prim_hit(prims[i], ray) is None);
            assert(false);
        },
        (Some((p, t)), Some((i, u))) => {
            let j = choose|j: int| 0 <= j < nps.len() && #[trigger] nps[j] == p
                && prim_hit(p, ray) == Some(t);
            assert(nps.contains(nps[j]));
            assert(prims.to_multiset().count(nps[j]) > 0);
            assert(prims.contains(nps[j]));
            let i2 = choose|i2: int| 0 <= i2 < prims.len() && prims[i2] == nps[j];
            assert(prim_hit(prims[i2], ray) == Some(t));
            assert(u <= t);
            assert(prims.contains(prims[i]));
            assert(nps.to_multiset().count(prims[i]) > 0);
            assert(nps.contains(prims[i]));
            let j2 = choose|j2: int| 0 <= j2 < nps.len() && nps[j2] == prims[i];
            assert(prim_hit(nps[j2], ray) == Some(u));
            assert(u >= t);
        },
    }
}

/// A scene strategy: a camera, lights, and a nearest-intersection
/// query whose answer is fixed by the strategy's own `hit_spec` and
/// is always a genuine hit of one of the scene's primitives.
pub trait IntersectableScene {
    spec fn wf(&self) -> bool;

    spec fn prims(&self) -> Seq<Primitive>;

    spec fn camera_spec(&self) -> Camera;

    spec fn lights_spec(&self) -> Seq<Light>;

    /// What the strategy's query returns: the chosen primitive and its
    /// hit distance, or nothing.
    spec fn hit_spec(&self, ray: Ray) -> Option<(Primitive, int)>;

    /// Lights and primitives of a well-formed scene are well formed.
    proof fn lemma_wf(&self)
        requires
            self.wf(),
        ensures
            forall|i: int| 0 <= i < self.prims().len() ==> (#[trigger] self.prims()[i]).wf(),
            forall|i: int| 0 <= i < self.lights_spec().len()
                ==> (#[trigger] self.lights_spec()[i]).wf(),
            self.camera_spec().wf(),
    ;

    fn get_camera(&self) -> (c: &Camera)
        ensures
            *c == self.camera_spec(),
    ;

    fn get_lights(&self) -> (l: &Vec<Light>)
        ensures
            l@ == self.lights_spec(),
    ;

    fn intersects<'b>(&'b self, ray: &Ray) -> (r: SceneIntersection<'b>)
        requires
            self.wf(),
            in_range(ray.ori, ORIMAX as int),
            in_range(ray.dir, DIRMAX as int),
        ensures
            match r {
                SceneIntersection::Intersected(it) => {
                    &&& it.wf()
                    &&& it.ray == *ray
                    &&& self.hit_spec(*ray) == Some((*it.shape, it.dist as int))
                    &&& exists|i: int| 0 <= i < self.prims().len()
                        && *it.shape == #[trigger] self.prims()[i]
                        && prim_hit(self.prims()[i], *ray) == Some(it.dist as int)
                },
                SceneIntersection::Missed => self.hit_spec(*ray) is None,
            },
    ;
}

/// The linear-scan scene.
pub struct Scene {
    pub camera: Camera,
    pub lights: Vec<Light>,
    pub primitives: Vec<Primitive>,
}

impl Scene {
    pub fn new() -> (s: Scene)
        ensures
            s.lights@.len() == 0,
            s.primitives@.len() == 0,
            s.camera == Camera::new_spec(),
            s.wf(),
    {
        Scene { camera: Camera::new(), lights: Vec::new(), primitives: Vec::new() }
    }
}

impl Camera {
    /// The value `Camera::new` returns.
    pub open spec fn new_spec() -> Camera {
        Camera {
            pos: Vec3 { x: 0, y: 0, z: 0 },
            view_dir: Vec3 { x: 0, y: 0, z: 0 },
            focal_dist: 0,
            ortho_up: Vec3 { x: 0, y: 0, z: 0 },
            vertical_fov: 0,
        }
    }
}

impl IntersectableScene for Scene {
    open spec fn wf(&self) -> bool {
        &&& forall|i: int| 0 <= i < self.primitives@.len()
            ==> (#[trigger] self.primitives@[i]).wf()
        &&& forall|i: int| 0 <= i < self.lights@.len() ==> (#[trigger] self.lights@[i]).wf()
        &&& self.camera.wf()
    }

    open spec fn prims(&self) -> Seq<Primitive> {
        self.primitives@
    }

    open spec fn camera_spec(&self) -> Camera {
        self.camera
    }

    open spec fn lights_spec(&self) -> Seq<Light> {
        self.lights@
    }

    open spec fn hit_spec(&self, ray: Ray) -> Option<(Primitive, int)> {
        match linear_hit(self.primitives@, ray) {
            Some((i, t)) => Some((self.primitives@[i], t)),
            None => None,
        }
    }

    proof fn lemma_wf(&self) {
    }

    fn get_camera(&self) -> (c: &Camera) {
        &self.camera
    }

    fn get_lights(&self) -> (l: &Vec<Light>) {
        &self.lights
    }

    /// Linear scan; the result follows `linear_hit` exactly.
    fn intersects<'b>(&'b self, ray: &Ray) -> (r: SceneIntersection<'b>)
        ensures
            match linear_hit(self.prims(), *ray) {
                Some((i, t)) => r matches SceneIntersection::Intersected(it)
                    && it.dist == t && *it.shape == self.prims()[i]
                    && it.ray == *ray,
                None => r is Missed,
            },
    {
        let mut best_dist: i64 = 0;
        let mut best_idx: usize = 0;
        let mut has_hit = false;
        let n = self.primitives.len();
        let mut k: usize = 0;
        while k < n
            invariant
                n == self.primitives@.len(),
                0 <= k <= n,
                self.wf(),
                in_range(ray.ori, ORIMAX as int),
                in_range(ray.dir, DIRMAX as int),
                match linear_hit(self.primitives@.subrange(0, k as int), *ray) {
                    Some((i, t)) => has_hit && best_idx == i && best_dist == t
                        && 0 <= best_idx < n,
                    None => !has_hit,
                },
            decreases n - k,
        {
            let ghost pre = self.primitives@.subrange(0, k as int);
            match self.primitives[k].intersects(ray) {
                ShapeIntersection::Hit(new_dist) => {
                    if !has_hit {
                        has_hit = true;
                        best_dist = new_dist;
                        best_idx = k;
                    } else if new_dist < best_dist {
                        best_dist = new_dist;
                        best_idx = k;
                    }
                },
                ShapeIntersection::Missed => {},
            }
            proof {
                let post = self.primitives@.subrange(0, k as int + 1);
                assert(post.drop_last() =~= pre);
                assert(post.last() == self.primitives@[k as int]);
            }
            k += 1;
        }
        proof {
            assert(self.primitives@.subrange(0, n as int) =~= self.primitives@);
        }
        proof {
            lemma_linear_hit_characterization(self.primitives@, *ray);
        }
        if has_hit {
            SceneIntersection::Intersected(Intersection::new(
                best_dist,
                *ray,
                &self.primitives[best_idx],
            ))
        } else {
            SceneIntersection::Missed
        }
    }
}

/// The hierarchy-accelerated scene.
pub struct BvhScene {
    pub camera: Camera,
    pub lights: Vec<Light>,
    pub tree: Tree,
}

impl BvhScene {
    pub fn new() -> (s: BvhScene)
        ensures
            s.lights@.len() == 0,
            s.tree.root is Empty,
            s.camera == Camera::new_spec(),
    {
        BvhScene { camera: Camera::new(), lights: Vec::new(), tree: Tree::new() }
    }

    /// Build the accelerated scene: same camera and lights, and a
    /// hierarchy holding exactly the primitives of the given scene.
    pub fn from_scene(scene: Scene) -> (s: BvhScene)
        requires
            scene.wf(),
        ensures
            s.camera == scene.camera,
            s.lights@ == scene.lights@,
            node_wf(s.tree.root),
            node_prims(s.tree.root).to_multiset() == scene.primitives@.to_multiset(),
            node_prims(s.tree.root).len() == scene.primitives@.len(),
            scene.primitives@.len() >= 1 ==> crate::bvh::is_union_of(
                crate::bvh::node_bbox(s.tree.root),
                node_prims(s.tree.root),
            ),
            s.wf(),
    {
        let mut bvh_scene = BvhScene::new();
        bvh_scene.camera = scene.camera;
        bvh_scene.lights = scene.lights;
        bvh_scene.tree.init(scene.primitives);
        proof {
            crate::bvh::lemma_node_wf_prims(bvh_scene.tree.root);
        }
        bvh_scene
    }
}

impl IntersectableScene for BvhScene {
    open spec fn wf(&self) -> bool {
        &&& node_wf(self.tree.root)
        &&& forall|i: int| 0 <= i < self.lights@.len() ==> (#[trigger] self.lights@[i]).wf()
        &&& self.camera.wf()
    }

    open spec fn prims(&self) -> Seq<Primitive> {
        node_prims(self.tree.root)
    }

    open spec fn camera_spec(&self) -> Camera {
        self.camera
    }

    open spec fn lights_spec(&self) -> Seq<Light> {
        self.lights@
    }

    open spec fn hit_spec(&self, ray: Ray) -> Option<(Primitive, int)> {
        node_hit(self.tree.root, ray)
    }

    proof fn lemma_wf(&self) {
        crate::bvh::lemma_node_wf_prims(self.tree.root);
    }

    fn get_camera(&self) -> (c: &Camera) {
        &self.camera
    }

    fn get_lights(&self) -> (l: &Vec<Light>) {
        &self.lights
    }

    /// Hierarchy traversal; the result follows `node_hit` exactly.
    fn intersects<'b>(&'b self, ray: &Ray) -> (r: SceneIntersection<'b>)
        ensures
            match node_hit(self.tree.root, *ray) {
                Some((p, t)) => r matches SceneIntersection::Intersected(it)
                    && it.dist == t && *it.shape == p && it.ray == *ray,
                None => r is Missed,
            },
    {
        let intersection = self.tree.intersects(ray);
        match intersection {
            NodeIntersection::Hit(node, dist) => {
                proof {
                    lemma_node_hit_sound(self.tree.root, *ray);
                    crate::bvh::lemma_node_wf_prims(self.tree.root);
                    let (p, t) = node_hit(self.tree.root, *ray).unwrap();
                    let i = choose|i: int| 0 <= i < node_prims(self.tree.root).len()
                        && #[trigger] node_prims(self.tree.root)[i] == p
                        && prim_hit(p, *ray) == Some(t);
                    assert(self.prims()[i] == p);
                    assert(prim_hit(self.prims()[i], *ray) == Some(t));
                }
                SceneIntersection::Intersected(Intersection::new(dist, *ray, node.get_shape()))
            },
            NodeIntersection::Missed => SceneIntersection::Missed,
        }
    }
}

} // verus!
