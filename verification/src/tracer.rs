//! The renderer: camera ray generation and the recursive Whitted
//! shading engine.
//!
//! The camera's trigonometry is computed by fixed truncated series at
//! a resolution of one trillionth; the contracts state those series
//! exactly. Shading is the classic sum of ambient,
//! direct (with shadow rays and distance attenuation), reflective and
//! refractive contributions; recursion is bounded by an explicit
//! depth, and a depth of zero yields black outright. Where a light
//! samples its extent at random, the contracts state what holds of
//! every draw.

use vstd::prelude::*;
use crate::color::{Color, Material, black, clamp_channel};
use crate::vec3::{
    Vec3, in_range, add_spec, sub_spec, mult_spec, dot_spec, normalize_spec, distance_spec,
    sq_norm, PMAX, DIRMAX, ORIMAX,
};
use crate::ray::Ray;
use crate::scene::{IntersectableScene, SceneIntersection, Light, Camera, in_extent};
use crate::intersection::{Intersection, SURFACE_EPS, hit_point_spec};
use crate::fixed::{
    rdiv, UNIT, div_round, lemma_mul_bound, lemma_rdiv_bound, lemma_rdiv_nonneg,
};

verus! {

/// One full scale unit in the camera-plane construction.
pub const SCALE: i64 = 10_000_000_000;

/// Fixed-point pi.
pub const PI_FX: i64 = 3_141_593;

/// Fixed-point pi over two.
pub const HALF_PI_FX: i64 = 1_570_796;

/// Picoscale unit: the finer scale the trigonometric series run at.
pub const PICO: i128 = 1_000_000_000_000;

/// The truncated sine series at picoscale, for arguments in
/// `[0, pi/2]`: `x (1 - x^2/6 (1 - x^2/20 (... (1 - x^2/156))))`.
pub open spec fn sin_series(xp: int) -> int {
    let x2 = rdiv(xp * xp, PICO as int);
    let h6 = (PICO as int) - rdiv(x2, 156);
    let h5 = (PICO as int) - rdiv(x2 * h6, 110 * (PICO as int));
    let h4 = (PICO as int) - rdiv(x2 * h5, 72 * (PICO as int));
    let h3 = (PICO as int) - rdiv(x2 * h4, 42 * (PICO as int));
    let h2 = (PICO as int) - rdiv(x2 * h3, 20 * (PICO as int));
    let h1 = (PICO as int) - rdiv(x2 * h2, 6 * (PICO as int));
    rdiv(xp * h1, PICO as int)
}

/// The truncated cosine series at picoscale, for arguments in
/// `[0, pi/2]`.
pub open spec fn cos_series(xp: int) -> int {
    let x2 = rdiv(xp * xp, PICO as int);
    let h7 = (PICO as int) - rdiv(x2, 182);
    let h6 = (PICO as int) - rdiv(x2 * h7, 132 * (PICO as int));
    let h5 = (PICO as int) - rdiv(x2 * h6, 90 * (PICO as int));
    let h4 = (PICO as int) - rdiv(x2 * h5, 56 * (PICO as int));
    let h3 = (PICO as int) - rdiv(x2 * h4, 30 * (PICO as int));
    let h2 = (PICO as int) - rdiv(x2 * h3, 12 * (PICO as int));
    rdiv((PICO as int) * ((PICO as int) - rdiv(x2 * h2, 2 * (PICO as int))), PICO as int)
}

/// What `tan_half` returns: the tangent of half the angle, through the
/// two series, reduced about pi/2, capped into `[-SCALE/100, SCALE/100]`.
pub open spec fn tan_half_spec(fov: int) -> int {
    let half = if rdiv(fov, 2) > PI_FX { PI_FX as int } else { rdiv(fov, 2) };
    let xr = if half <= HALF_PI_FX { half } else { PI_FX - half };
    let xp = xr * UNIT;
    let s = sin_series(xp);
    let c0 = cos_series(xp);
    let c = if half <= HALF_PI_FX { c0 } else { -c0 };
    if c == 0 {
        100_000_000int
    } else {
        let t = if c > 0 { rdiv(s * (UNIT as int), c) } else { -rdiv(s * (UNIT as int), -c) };
        if t > 100_000_000 {
            100_000_000int
        } else if t < -100_000_000 {
            -100_000_000int
        } else {
            t
        }
    }
}

/// Bounds for one nesting level of the series.
proof fn lemma_series_step(x2: int, h: int)
    requires
        0 <= x2 <= 2_600_000_000_000,
        -(PICO as int) <= h <= 2 * PICO as int,
    ensures
        -6 * (PICO as int) * (PICO as int) <= x2 * h <= 6 * (PICO as int) * (PICO as int),
{
    lemma_mul_bound(x2, h, 2_600_000_000_000, 2 * PICO as int);
}

/// The sine series at picoscale; exec mirror of `sin_series`.
fn sin_series_exec(xp: i128) -> (r: i128)
    requires
        0 <= xp <= 1_600_000_000_000,
    ensures
        r == sin_series(xp as int),
        -4 * PICO <= r <= 4 * PICO,
{
    proof {
        lemma_mul_bound(xp as int, xp as int, 1_600_000_000_000, 1_600_000_000_000);
        lemma_rdiv_bound(xp as int * xp as int, PICO as int, 2_600_000_000_000);
        lemma_rdiv_nonneg(xp as int * xp as int, PICO as int);
    }
    let x2: i128 = div_round(xp * xp, PICO);
    proof { lemma_series_step(x2 as int, PICO as int); lemma_rdiv_bound(x2 as int, 156, 17_000_000_000); }
    let h6: i128 = PICO - div_round(x2, 156);
    proof { lemma_series_step(x2 as int, h6 as int); lemma_rdiv_bound(x2 as int * h6 as int, 110 * PICO as int, PICO as int); }
    let h5: i128 = PICO - div_round(x2 * h6, 110 * PICO);
    proof { lemma_series_step(x2 as int, h5 as int); lemma_rdiv_bound(x2 as int * h5 as int, 72 * PICO as int, PICO as int); }
    let h4: i128 = PICO - div_round(x2 * h5, 72 * PICO);
    proof { lemma_series_step(x2 as int, h4 as int); lemma_rdiv_bound(x2 as int * h4 as int, 42 * PICO as int, PICO as int); }
    let h3: i128 = PICO - div_round(x2 * h4, 42 * PICO);
    proof { lemma_series_step(x2 as int, h3 as int); lemma_rdiv_bound(x2 as int * h3 as int, 20 * PICO as int, PICO as int); }
    let h2: i128 = PICO - div_round(x2 * h3, 20 * PICO);
    proof { lemma_series_step(x2 as int, h2 as int); lemma_rdiv_bound(x2 as int * h2 as int, 6 * PICO as int, PICO as int); }
    let h1: i128 = PICO - div_round(x2 * h2, 6 * PICO);
    proof {
        lemma_mul_bound(xp as int, h1 as int, 1_600_000_000_000, 2 * PICO as int);
        lemma_rdiv_bound(xp as int * h1 as int, PICO as int, 4 * PICO as int);
    }
    div_round(xp * h1, PICO)
}

/// The cosine series at picoscale; exec mirror of `cos_series`.
fn cos_series_exec(xp: i128) -> (r: i128)
    requires
        0 <= xp <= 1_600_000_000_000,
    ensures
        r == cos_series(xp as int),
        -4 * PICO <= r <= 4 * PICO,
{
    proof {
        lemma_mul_bound(xp as int, xp as int, 1_600_000_000_000, 1_600_000_000_000);
        lemma_rdiv_bound(xp as int * xp as int, PICO as int, 2_600_000_000_000);
        lemma_rdiv_nonneg(xp as int * xp as int, PICO as int);
    }
    let x2: i128 = div_round(xp * xp, PICO);
    proof { lemma_series_step(x2 as int, PICO as int); lemma_rdiv_bound(x2 as int, 182, 17_000_000_000); }
    let h7: i128 = PICO - div_round(x2, 182);
    proof { lemma_series_step(x2 as int, h7 as int); lemma_rdiv_bound(x2 as int * h7 as int, 132 * PICO as int, PICO as int); }
    let h6: i128 = PICO - div_round(x2 * h7, 132 * PICO);
    proof { lemma_series_step(x2 as int, h6 as int); lemma_rdiv_bound(x2 as int * h6 as int, 90 * PICO as int, PICO as int); }
    let h5: i128 = PICO - div_round(x2 * h6, 90 * PICO);
    proof { lemma_series_step(x2 as int, h5 as int); lemma_rdiv_bound(x2 as int * h5 as int, 56 * PICO as int, PICO as int); }
    let h4: i128 = PICO - div_round(x2 * h5, 56 * PICO);
    proof { lemma_series_step(x2 as int, h4 as int); lemma_rdiv_bound(x2 as int * h4 as int, 30 * PICO as int, PICO as int); }
    let h3: i128 = PICO - div_round(x2 * h4, 30 * PICO);
    proof { lemma_series_step(x2 as int, h3 as int); lemma_rdiv_bound(x2 as int * h3 as int, 12 * PICO as int, PICO as int); }
    let h2: i128 = PICO - div_round(x2 * h3, 12 * PICO);
    proof { lemma_series_step(x2 as int, h2 as int); lemma_rdiv_bound(x2 as int * h2 as int, 2 * PICO as int, 3 * PICO as int); }
    let inner: i128 = PICO - div_round(x2 * h2, 2 * PICO);
    proof {
        lemma_mul_bound(PICO as int, inner as int, PICO as int, 4 * PICO as int);
        lemma_rdiv_bound(PICO as int * inner as int, PICO as int, 4 * PICO as int);
    }
    div_round(PICO * inner, PICO)
}

/// The tangent of half the angle; see `tan_half_spec`.
pub fn tan_half(fov: i64) -> (r: i64)
    requires
        0 <= fov <= 6_300_000,
    ensures
        r == tan_half_spec(fov as int),
        -100_000_000 <= r <= 100_000_000,
{
    let h0 = div_round(fov as i128, 2) as i64;
    let half = if h0 > PI_FX { PI_FX } else { h0 };
    proof {
        lemma_rdiv_bound(fov as int, 2, 6_300_000);
        lemma_rdiv_nonneg(fov as int, 2);
    }
    let xr = if half <= HALF_PI_FX { half } else { PI_FX - half };
    let xp: i128 = (xr as i128) * 1_000_000;
    let s = sin_series_exec(xp);
    let c0 = cos_series_exec(xp);
    let c = if half <= HALF_PI_FX { c0 } else { -c0 };
    if c == 0 {
        100_000_000
    } else {
        proof {
            lemma_mul_bound(s as int, UNIT as int, 4 * PICO as int, UNIT as int);
            if c > 0 {
                lemma_abs_rdiv_cap(s as int * (UNIT as int), c as int);
            } else {
                lemma_abs_rdiv_cap(s as int * (UNIT as int), -(c as int));
            }
        }
        let t = if c > 0 {
            div_round(s * 1_000_000, c)
        } else {
            -div_round(s * 1_000_000, -c)
        };
        if t > 100_000_000 {
            100_000_000
        } else if t < -100_000_000 {
            -100_000_000
        } else {
            t as i64
        }
    }
}

/// The quotient is bounded when the divisor is at least one.
proof fn lemma_abs_rdiv_cap(num: int, den: int)
    requires
        den >= 1,
        -4_000_000_000_000_000_000 <= num <= 4_000_000_000_000_000_000,
    ensures
        -4_000_000_000_000_000_000 <= rdiv(num, den) <= 4_000_000_000_000_000_000,
{
    assert(den * 4_000_000_000_000_000_000 >= num && -(den * 4_000_000_000_000_000_000) <= num)
        by (nonlinear_arith)
        requires den >= 1, -4_000_000_000_000_000_000 <= num <= 4_000_000_000_000_000_000,
    ;
    lemma_rdiv_bound(num, den, 4_000_000_000_000_000_000);
}

/// The fixed-point power `b^n` for a base in `[0, 1]`:
/// `pow_fx(b, 0) = 1` and `pow_fx(b, n) = b * pow_fx(b, n-1)`.
pub open spec fn pow_fx(b: int, n: nat) -> int
    decreases n,
{
    if n == 0 {
        UNIT as int
    } else {
        rdiv(b * pow_fx(b, (n - 1) as nat), UNIT as int)
    }
}

/// A power of a base in `[0, 1]` stays in `[0, 1]`.
pub proof fn lemma_pow_fx_range(b: int, n: nat)
    requires
        0 <= b <= UNIT,
    ensures
        0 <= pow_fx(b, n) <= UNIT,
    decreases n,
{
    if n > 0 {
        lemma_pow_fx_range(b, (n - 1) as nat);
        lemma_mul_bound(b, pow_fx(b, (n - 1) as nat), UNIT as int, UNIT as int);
        lemma_rdiv_bound(b * pow_fx(b, (n - 1) as nat), UNIT as int, UNIT as int);
        assert(b * pow_fx(b, (n - 1) as nat) >= 0) by (nonlinear_arith)
            requires b >= 0, pow_fx(b, (n - 1) as nat) >= 0,
        ;
        lemma_rdiv_nonneg(b * pow_fx(b, (n - 1) as nat), UNIT as int);
    }
}

/// Fixed-point power by iterated scaling; see `pow_fx`.
fn pow_fx_exec(b: i64, n: u64) -> (r: i64)
    requires
        0 <= b <= UNIT,
    ensures
        r == pow_fx(b as int, n as nat),
        0 <= r <= UNIT,
{
    let mut acc: i64 = UNIT;
    let mut k: u64 = 0;
    proof { lemma_pow_fx_range(b as int, 0); }
    while k < n
        invariant
            0 <= b <= UNIT,
            0 <= k <= n,
            acc == pow_fx(b as int, k as nat),
            0 <= acc <= UNIT,
        decreases n - k,
    {
        proof {
            lemma_mul_bound(b as int, acc as int, UNIT as int, UNIT as int);
            lemma_pow_fx_range(b as int, (k + 1) as nat);
        }
        acc = div_round((b as i128) * (acc as i128), 1_000_000) as i64;
        k += 1;
    }
    acc
}

/// Distance attenuation for a point at distance `d` from the light:
/// `min(1, 1 / (0.25 + 0.1 d + 0.01 d^2))` in fixed point.
pub open spec fn fatt_spec(d: int) -> int {
    let denom = 250_000 + rdiv(d, 10) + rdiv(d * d, 100 * (UNIT as int));
    let inv = rdiv((UNIT as int) * (UNIT as int), denom);
    if inv > UNIT { UNIT as int } else { inv }
}

/// One channel of the ambient term: the diffuse and ambient channels
/// multiplied, scaled by the opacity `1 - kt`.
pub open spec fn ambient_channel(kt: int, ka: int, cd: int) -> int {
    crate::color::scale_channel(rdiv(cd * ka, UNIT as int), (UNIT as int) - kt)
}

/// The shadow portion of an opaque occluder: fully shadowed,
/// unless the occluder lies farther from the shadow origin than the
/// light itself does, which counts as unshadowed. A directional light
/// is infinitely far, so any opaque occluder shadows it.
pub open spec fn opaque_shadow_spec(d_occ: int, d_light: int, directional: bool) -> int {
    if directional {
        0
    } else if d_occ > d_light {
        UNIT as int
    } else {
        0
    }
}

/// Law: moving an opaque occluder from inside the light's reach to
/// beyond the light flips a point-light shadow test from fully
/// shadowed to fully lit.
pub proof fn lemma_shadow_monotonicity(d_occ_near: int, d_occ_far: int, d_light: int)
    requires
        d_occ_near <= d_light,
        d_occ_far > d_light,
    ensures
        opaque_shadow_spec(d_occ_near, d_light, false) == 0,
        opaque_shadow_spec(d_occ_far, d_light, false) == UNIT,
{
}

/// The shadow portion of an opaque occluder; see
/// `opaque_shadow_spec`.
pub fn opaque_shadow_value(d_occ: i64, d_light: i64, directional: bool) -> (r: i64)
    ensures
        r == opaque_shadow_spec(d_occ as int, d_light as int, directional),
{
    if directional {
        0
    } else if d_occ > d_light {
        UNIT
    } else {
        0
    }
}

/// A rendered image: row-major 8-bit pixels.
pub struct Raster {
    pub width: u32,
    pub height: u32,
    pub pixels: Vec<(u8, u8, u8)>,
}

pub struct RayTracer<S: IntersectableScene> {
    pub width: u32,
    pub height: u32,
    pub num_samples: usize,
    pub depth: usize,
    pub center: Vec3,
    pub camera_pos: Vec3,
    pub parallel_up: Vec3,
    pub parallel_right: Vec3,
    pub vertical_fov: i64,
    pub horizontal_fov: i64,
    pub scene: Option<S>,
}

impl<S: IntersectableScene> RayTracer<S> {
    /// Cached camera frame within bounds, and a well-formed scene when
    /// one is set.
    pub open spec fn wf(self) -> bool {
        &&& in_range(self.camera_pos, PMAX as int)
        &&& in_range(self.parallel_up, UNIT as int)
        &&& in_range(self.parallel_right, UNIT as int)
        &&& in_range(self.center, 20_000_000_000_000int)
        &&& 0 <= self.vertical_fov <= 6_300_000
        &&& 0 <= self.horizontal_fov <= 6_300_000
        &&& match self.scene {
            Some(sc) => sc.wf(),
            None => true,
        }
    }

    pub fn new() -> (rt: RayTracer<S>)
        ensures
            rt.width == 0 && rt.height == 0,
            rt.num_samples == 1,
            rt.depth == 0,
            rt.scene is None,
            rt.wf(),
    {
        RayTracer {
            width: 0,
            height: 0,
            num_samples: 1,
            depth: 0,
            center: Vec3::new(),
            camera_pos: Vec3::new(),
            parallel_up: Vec3::new(),
            parallel_right: Vec3::new(),
            vertical_fov: 0,
            horizontal_fov: 0,
            scene: None,
        }
    }

    pub fn init(width: u32, height: u32, depth: usize, num_samples: usize) -> (rt: RayTracer<S>)
        ensures
            rt.width == width && rt.height == height,
            rt.depth == depth && rt.num_samples == num_samples,
            rt.scene is None,
            rt.wf(),
    {
        let mut raytracer = RayTracer::new();
        raytracer.width = width;
        raytracer.height = height;
        raytracer.depth = depth;
        raytracer.num_samples = num_samples;
        raytracer
    }

    /// Install a scene and derive the camera frame from its camera.
    pub fn set_scene(&mut self, scene: S)
        requires
            scene.wf(),
            old(self).height >= 1,
        ensures
            final(self).wf(),
            final(self).scene == Some(scene),
            final(self).width == old(self).width,
            final(self).height == old(self).height,
            final(self).depth == old(self).depth,
            final(self).num_samples == old(self).num_samples,
            final(self).camera_pos == scene.camera_spec().pos,
            ({
                let cam = scene.camera_spec();
                let right = crate::vec3::cross_spec(cam.view_dir, cam.ortho_up);
                &&& final(self).parallel_right == normalize_spec(right)
                &&& final(self).parallel_up == normalize_spec(
                    crate::vec3::cross_spec(right, cam.view_dir),
                )
                &&& final(self).center == add_spec(cam.pos, mult_spec(cam.view_dir, SCALE as int))
                &&& final(self).vertical_fov == cam.vertical_fov
                &&& final(self).horizontal_fov == ({
                    let hf = (cam.vertical_fov * old(self).width) / (old(self).height as int);
                    if hf > 6_300_000 { 6_300_000int } else { hf }
                })
            }),
    {
        proof { scene.lemma_wf(); }
        let cam = *scene.get_camera();
        let mut parallel_right = cam.view_dir.cross(cam.ortho_up);
        proof {
            crate::vec3::lemma_cross_range(
                cam.view_dir, cam.ortho_up, PMAX as int, PMAX as int, 2_000_000_000_000int,
            );
            lemma_zero3(parallel_right);
        }
        let mut parallel_up = parallel_right.cross(cam.view_dir);
        proof {
            crate::vec3::lemma_cross_range(
                parallel_right, cam.view_dir, 2_000_000_000_000int, PMAX as int,
                4_000_000_000_000_000int,
            );
            lemma_zero3(parallel_up);
        }
        parallel_right.normalize();
        parallel_up.normalize();
        self.parallel_right = parallel_right;
        self.parallel_up = parallel_up;
        self.vertical_fov = cam.vertical_fov;
        proof {
            let vf = cam.vertical_fov as int;
            let wd = self.width as int;
            assert(vf * wd <= 6_300_000 * 0x1_0000_0000) by (nonlinear_arith)
                requires 0 <= vf, vf <= 6_300_000int, 0 <= wd, wd < 0x1_0000_0000,
            ;
            assert(vf * wd >= 0) by (nonlinear_arith)
                requires 0 <= vf, 0 <= wd,
            ;
        }
        let hf: i128 = (cam.vertical_fov as i128) * (self.width as i128) / (self.height as i128);
        self.horizontal_fov = if hf > 6_300_000 { 6_300_000 } else { hf as i64 };
        self.camera_pos = cam.pos;
        self.center = cam.pos.add(cam.view_dir.mult(SCALE));
        self.scene = Some(scene);
    }

    /// Half the vertical frustum, scaled onto the camera's up vector.
    pub fn vertical_plane(&self) -> (p: Vec3)
        requires
            self.wf(),
        ensures
            p == mult_spec(self.parallel_up, rdiv(tan_half_spec(self.vertical_fov as int) * (SCALE as int), UNIT as int)),
            in_range(p, 1_000_000_000_000int),
    {
        let t = tan_half(self.vertical_fov);
        proof {
            lemma_mul_bound(t as int, SCALE as int, 100_000_000, SCALE as int);
            lemma_rdiv_bound(t as int * SCALE as int, UNIT as int, 1_000_000_000_000);
            crate::vec3::lemma_mult_range(
                self.parallel_up,
                rdiv(t as int * SCALE as int, UNIT as int),
                UNIT as int,
                1_000_000_000_000,
                1_000_000_000_000,
            );
        }
        let f = div_round((t as i128) * (SCALE as i128), 1_000_000) as i64;
        self.parallel_up.mult(f)
    }

    /// Half the horizontal frustum, scaled onto the camera's right
    /// vector.
    pub fn horizontal_plane(&self) -> (p: Vec3)
        requires
            self.wf(),
        ensures
            p == mult_spec(self.parallel_right, rdiv(tan_half_spec(self.horizontal_fov as int) * (SCALE as int), UNIT as int)),
            in_range(p, 1_000_000_000_000int),
    {
        let t = tan_half(self.horizontal_fov);
        proof {
            lemma_mul_bound(t as int, SCALE as int, 100_000_000, SCALE as int);
            lemma_rdiv_bound(t as int * SCALE as int, UNIT as int, 1_000_000_000_000);
            crate::vec3::lemma_mult_range(
                self.parallel_right,
                rdiv(t as int * SCALE as int, UNIT as int),
                UNIT as int,
                1_000_000_000_000,
                1_000_000_000_000,
            );
        }
        let f = div_round((t as i128) * (SCALE as i128), 1_000_000) as i64;
        self.parallel_right.mult(f)
    }

    /// The primary ray through the pixel at normalised coordinates
    /// `(x / width, y / height)`: the normalised offset from the
    /// camera position to the point of the view plane.
    pub open spec fn camera_ray_spec(&self, x: int, y: int) -> Ray {
        let xn = rdiv(x * (UNIT as int), self.width as int);
        let yn = rdiv(y * (UNIT as int), self.height as int);
        let hp = mult_spec(self.parallel_right, rdiv(tan_half_spec(self.horizontal_fov as int) * (SCALE as int), UNIT as int));
        let vp = mult_spec(self.parallel_up, rdiv(tan_half_spec(self.vertical_fov as int) * (SCALE as int), UNIT as int));
        let dx = mult_spec(hp, 2 * xn - UNIT);
        let dy = mult_spec(vp, 2 * yn - UNIT);
        let d0 = sub_spec(add_spec(add_spec(self.center, dx), dy), self.camera_pos);
        Ray { ori: self.camera_pos, dir: normalize_spec(d0), vacuum: true }
    }

    /// Compute the primary ray; exactly `camera_ray_spec`.
    pub fn compute_ray(&self, x: u32, y: u32) -> (r: Ray)
        requires
            self.wf(),
            self.width >= 1,
            self.height >= 1,
            x <= self.width,
            y <= self.height,
        ensures
            r == self.camera_ray_spec(x as int, y as int),
            r.ori == self.camera_pos,
            r.in_vacuum_spec(),
            in_range(r.dir, UNIT as int),
    {
        proof {
            lemma_mul_bound(x as int, UNIT as int, 0x1_0000_0000, UNIT as int);
            lemma_mul_bound(y as int, UNIT as int, 0x1_0000_0000, UNIT as int);
            lemma_frac_range(x as int, self.width as int);
            lemma_frac_range(y as int, self.height as int);
        }
        let xn = div_round((x as i128) * 1_000_000, self.width as i128) as i64;
        let yn = div_round((y as i128) * 1_000_000, self.height as i128) as i64;
        let hp = self.horizontal_plane();
        let vp = self.vertical_plane();
        proof {
            crate::vec3::lemma_mult_range(hp, 2 * (xn as int) - UNIT, 1_000_000_000_000, UNIT as int, 1_000_000_000_000);
            crate::vec3::lemma_mult_range(vp, 2 * (yn as int) - UNIT, 1_000_000_000_000, UNIT as int, 1_000_000_000_000);
        }
        let dx = hp.mult(2 * xn - UNIT);
        let dy = vp.mult(2 * yn - UNIT);
        let mut dir = self.center.add(dx).add(dy).sub(self.camera_pos);
        proof { lemma_zero3(dir); }
        dir.normalize();
        Ray::init(self.camera_pos, dir)
    }
}

/// A pixel fraction stays within one unit.
proof fn lemma_frac_range(x: int, w: int)
    requires
        w >= 1,
        0 <= x <= w,
        x * (UNIT as int) >= 0,
    ensures
        0 <= rdiv(x * (UNIT as int), w) <= UNIT,
{
    assert(x * (UNIT as int) <= w * (UNIT as int)) by (nonlinear_arith)
        requires 0 <= x <= w,
    ;
    lemma_rdiv_bound(x * (UNIT as int), w, UNIT as int);
    lemma_rdiv_nonneg(x * (UNIT as int), w);
}

/// A vector with zero squared norm has zero components.
proof fn lemma_zero3(v: Vec3)
    requires
        in_range(v, 100_000_000_000_000_000int),
    ensures
        sq_norm(v) == 0 ==> v == (Vec3 { x: 0, y: 0, z: 0 }),
{
    if sq_norm(v) == 0 {
        crate::fixed::lemma_sq(v.x as int);
        crate::fixed::lemma_sq(v.y as int);
        crate::fixed::lemma_sq(v.z as int);
        lemma_mul_bound(v.x as int, v.x as int, 100_000_000_000_000_000int, 100_000_000_000_000_000int);
        lemma_mul_bound(v.y as int, v.y as int, 100_000_000_000_000_000int, 100_000_000_000_000_000int);
        lemma_mul_bound(v.z as int, v.z as int, 100_000_000_000_000_000int, 100_000_000_000_000_000int);
    }
}

/// The direction toward a deterministic light: the point light's
/// normalised offset, or the inverted directional beam. Area lights
/// sample their direction at random and have no fixed one.
pub open spec fn light_dir_spec(light: Light, point: Vec3) -> Vec3 {
    match light {
        Light::Point(l) => normalize_spec(sub_spec(l.pos, point)),
        Light::Directional(l) => Vec3 {
            x: (-l.dir.x) as i64,
            y: (-l.dir.y) as i64,
            z: (-l.dir.z) as i64,
        },
        Light::Area(_) => Vec3 { x: 0, y: 0, z: 0 },
    }
}

/// One direct-lighting sample along the light direction `dir`,
/// channel by channel against the shadow channels `sjr sjg sjb`: the
/// shadowed, attenuated intensity times the sum of the diffuse and
/// specular terms, scaled down by the sample count.
pub open spec fn direct_sample_chan(
    light: Light,
    shape: crate::shapes::Primitive,
    ray: Ray,
    dist: int,
    sjr: int,
    sjg: int,
    sjb: int,
    fattj: int,
    n: int,
    dir: Vec3,
) -> (int, int, int) {
    let point = hit_point_spec(ray, dist);
    let m = shape.material_spec();
    let kt = m.transparency as int;
    let nexp0 = rdiv(m.shininess * 128, UNIT as int);
    let nexp = (if nexp0 >= 0 { nexp0 } else { 0 }) as nat;
    let iv = light.intensity_spec();
    let dlr = crate::color::scale_channel(rdiv(iv.r_spec() * sjr, UNIT as int), fattj);
    let dlg = crate::color::scale_channel(rdiv(iv.g_spec() * sjg, UNIT as int), fattj);
    let dlb = crate::color::scale_channel(rdiv(iv.b_spec() * sjb, UNIT as int), fattj);
    let normal = crate::shapes::prim_normal_spec(shape, ray.dir, point);
    let bterm = if dot_spec(normal, dir) > 0 { dot_spec(normal, dir) } else { 0 };
    let mdiff = rdiv(((UNIT as int) - kt) * bterm, UNIT as int);
    let diffr = crate::color::scale_channel(m.diffuse.r_spec(), mdiff);
    let diffg = crate::color::scale_channel(m.diffuse.g_spec(), mdiff);
    let diffb = crate::color::scale_channel(m.diffuse.b_spec(), mdiff);
    let t = dot_spec(normal, dir);
    let rj = sub_spec(mult_spec(mult_spec(normal, t), 2 * UNIT as int), dir);
    let vv = Vec3 { x: (-ray.dir.x) as i64, y: (-ray.dir.y) as i64, z: (-ray.dir.z) as i64 };
    let t2 = dot_spec(rj, vv);
    let base = if t2 < 0 { 0int } else if t2 > UNIT { UNIT as int } else { t2 };
    let p = pow_fx(base, nexp);
    let specr = crate::color::scale_channel(m.specular.r_spec(), p);
    let specg = crate::color::scale_channel(m.specular.g_spec(), p);
    let specb = crate::color::scale_channel(m.specular.b_spec(), p);
    let sumr = crate::color::clamp_channel(diffr + specr);
    let sumg = crate::color::clamp_channel(diffg + specg);
    let sumb = crate::color::clamp_channel(diffb + specb);
    (
        crate::color::clamp_channel(rdiv(rdiv(dlr * sumr, UNIT as int), n)),
        crate::color::clamp_channel(rdiv(rdiv(dlg * sumg, UNIT as int), n)),
        crate::color::clamp_channel(rdiv(rdiv(dlb * sumb, UNIT as int), n)),
    )
}

/// One direct-lighting sample along `dir` against a shadow colour.
pub open spec fn direct_sample_dir_rgb(
    light: Light,
    shape: crate::shapes::Primitive,
    ray: Ray,
    dist: int,
    sj: Color,
    fattj: int,
    n: int,
    dir: Vec3,
) -> (int, int, int) {
    direct_sample_chan(
        light, shape, ray, dist, sj.r_spec(), sj.g_spec(), sj.b_spec(), fattj, n, dir,
    )
}

/// One direct-lighting sample of a deterministic light: the sample
/// along its fixed direction.
pub open spec fn direct_sample_rgb(
    light: Light,
    shape: crate::shapes::Primitive,
    ray: Ray,
    dist: int,
    sj: Color,
    fattj: int,
    n: int,
) -> (int, int, int) {
    direct_sample_dir_rgb(
        light, shape, ray, dist, sj, fattj, n,
        light_dir_spec(light, hit_point_spec(ray, dist)),
    )
}

/// The clamped accumulation of one direct-lighting sample per
/// direction in `dirs`.
pub open spec fn direct_area_acc(
    light: Light,
    shape: crate::shapes::Primitive,
    ray: Ray,
    dist: int,
    sj: Color,
    fattj: int,
    n: int,
    dirs: Seq<Vec3>,
) -> (int, int, int)
    decreases dirs.len(),
{
    if dirs.len() == 0 {
        (0, 0, 0)
    } else {
        let p = direct_area_acc(light, shape, ray, dist, sj, fattj, n, dirs.drop_last());
        let sm = direct_sample_dir_rgb(light, shape, ray, dist, sj, fattj, n, dirs.last());
        (
            crate::color::clamp_channel(p.0 + sm.0),
            crate::color::clamp_channel(p.1 + sm.1),
            crate::color::clamp_channel(p.2 + sm.2),
        )
    }
}

/// The whole direct term over a run of point and directional lights,
/// folded with clamped adds exactly as the shading loop accumulates
/// it: each light contributes its one-sample direct lighting under
/// its own attenuation and its deterministic shadow visibility.
pub open spec fn direct_total_spec<S: IntersectableScene>(
    scene: &S,
    lights: Seq<Light>,
    shape: crate::shapes::Primitive,
    ray: Ray,
    dist: int,
    depth: nat,
) -> (int, int, int)
    decreases lights.len(),
{
    if lights.len() == 0 {
        (0, 0, 0)
    } else {
        let p = direct_total_spec(scene, lights.drop_last(), shape, ray, dist, depth);
        let light = lights.last();
        let point = hit_point_spec(ray, dist);
        let fattj = match light {
            Light::Directional(_) => UNIT as int,
            Light::Point(l) => fatt_spec(distance_spec(point, l.pos)),
            Light::Area(_) => 0int,
        };
        let sjv = shadow_scalar_spec(scene, light, shape, ray, dist, 1, depth);
        let sm = rep_acc(
            direct_sample_chan(
                light, shape, ray, dist, sjv, sjv, sjv, fattj, 1,
                light_dir_spec(light, point),
            ),
            1,
        );
        (
            crate::color::clamp_channel(p.0 + sm.0),
            crate::color::clamp_channel(p.1 + sm.1),
            crate::color::clamp_channel(p.2 + sm.2),
        )
    }
}

/// `k` clamped additions of the same sample onto black.
pub open spec fn rep_acc(s: (int, int, int), k: nat) -> (int, int, int)
    decreases k,
{
    if k == 0 {
        (0, 0, 0)
    } else {
        let p = rep_acc(s, (k - 1) as nat);
        (
            crate::color::clamp_channel(p.0 + s.0),
            crate::color::clamp_channel(p.1 + s.1),
            crate::color::clamp_channel(p.2 + s.2),
        )
    }
}

/// The point a shadow probe starts from: the hit point nudged along
/// the surface normal.
pub open spec fn shadow_origin_spec(shape: crate::shapes::Primitive, ray: Ray, dist: int) -> Vec3 {
    let point = hit_point_spec(ray, dist);
    let normal = crate::shapes::prim_normal_spec(shape, ray.dir, point);
    add_spec(point, mult_spec(normal, SURFACE_EPS as int))
}

/// The reference position of a deterministic light: the point light's
/// position, the origin otherwise.
pub open spec fn light_pos_spec(light: Light) -> Vec3 {
    match light {
        Light::Point(l) => l.pos,
        _ => Vec3 { x: 0, y: 0, z: 0 },
    }
}

/// One shadow probe from `ori` along `dir`: fully lit on a scene
/// miss; the opaque-occluder rule against the light position `lp` on
/// an opaque hit; the occluder's transparency times the recursive
/// visibility `sub` on a transparent hit.
pub open spec fn shadow_probe_spec<S: IntersectableScene>(
    scene: &S,
    directional: bool,
    ori: Vec3,
    dir: Vec3,
    lp: Vec3,
    sub: int,
) -> int {
    let sray = Ray { ori, dir, vacuum: true };
    match scene.hit_spec(sray) {
        None => UNIT as int,
        Some((p, t)) => {
            let m = p.material_spec();
            if m.transparency == 0 {
                opaque_shadow_spec(
                    distance_spec(ori, hit_point_spec(sray, t)),
                    distance_spec(ori, lp),
                    directional,
                )
            } else {
                rdiv((m.transparency as int) * sub, UNIT as int)
            }
        },
    }
}

/// One deterministic-light shadow probe from `ori`, recursing through
/// transparent occluders one level shallower.
pub open spec fn shadow_one_spec<S: IntersectableScene>(
    scene: &S,
    light: Light,
    ori: Vec3,
    n: int,
    depth: nat,
) -> int
    decreases depth, 0nat,
{
    if depth == 0 {
        0
    } else {
        let dir = light_dir_spec(light, ori);
        let sray = Ray { ori, dir, vacuum: true };
        let sub = match scene.hit_spec(sray) {
            Some((p, t)) => shadow_scalar_spec(scene, light, p, sray, t, n, (depth - 1) as nat),
            None => 0int,
        };
        shadow_probe_spec(scene, light is Directional, ori, dir, light_pos_spec(light), sub)
    }
}

/// The shadow visibility of a hit under a point or directional light,
/// exactly as the sampler computes it: all `n` probes take the same
/// deterministic direction, and an exhausted depth is fully shadowed.
pub open spec fn shadow_scalar_spec<S: IntersectableScene>(
    scene: &S,
    light: Light,
    shape: crate::shapes::Primitive,
    ray: Ray,
    dist: int,
    n: int,
    depth: nat,
) -> int
    decreases depth, 1nat,
{
    if depth == 0 {
        0
    } else {
        rdiv(n * shadow_one_spec(scene, light, shadow_origin_spec(shape, ray, dist), n, depth), n)
    }
}

/// One admissible area-light probe record: a direction toward some
/// sampled point of the extent, a sampled light position, and a
/// recursive visibility within range.
pub open spec fn area_pick_ok(l: crate::scene::AreaLight, ori: Vec3, pk: (Vec3, Vec3, int)) -> bool {
    &&& exists|s: Vec3| in_extent(s, l.min, l.max)
        && pk.0 == #[trigger] normalize_spec(sub_spec(s, ori))
    &&& in_extent(pk.1, l.min, l.max)
    &&& 0 <= pk.2 <= UNIT
}

/// The summed outcomes of a run of area-light probes.
pub open spec fn shadow_area_total<S: IntersectableScene>(
    scene: &S,
    ori: Vec3,
    picks: Seq<(Vec3, Vec3, int)>,
) -> int
    decreases picks.len(),
{
    if picks.len() == 0 {
        0
    } else {
        shadow_area_total(scene, ori, picks.drop_last()) + shadow_probe_spec(
            scene,
            false,
            ori,
            picks.last().0,
            picks.last().1,
            picks.last().2,
        )
    }
}

/// The distance attenuation factor; see `fatt_spec`.
pub fn calculate_fattj_value(d: i64) -> (r: i64)
    requires
        0 <= d <= 10_000_000_000,
    ensures
        r == fatt_spec(d as int),
        1 <= r <= UNIT,
{
    proof {
        lemma_mul_bound(d as int, d as int, 10_000_000_000, 10_000_000_000);
        lemma_rdiv_bound(d as int * d as int, 100 * UNIT as int, 1_000_000_000_000_000);
        lemma_rdiv_nonneg(d as int * d as int, 100 * UNIT as int);
        lemma_rdiv_nonneg(d as int, 10);
        lemma_rdiv_bound(d as int, 10, 1_000_000_000);
        lemma_rdiv_nonneg((UNIT as int) * (UNIT as int), 250_000 + rdiv(d as int, 10) + rdiv(d as int * d as int, 100 * UNIT as int));
        lemma_abs_rdiv_cap((UNIT as int) * (UNIT as int), 250_000 + rdiv(d as int, 10) + rdiv(d as int * d as int, 100 * UNIT as int));
    }
    let denom: i128 = 250_000 + div_round(d as i128, 10) + div_round((d as i128) * (d as i128), 100_000_000);
    proof {
        assert((1_000_000_000_000 + (denom as int) / 2) / (denom as int) >= 1)
            by (nonlinear_arith)
            requires 1 <= denom as int, 2 * 1_000_000_000_000 >= denom as int + 1,
        ;
    }
    let inv = div_round(1_000_000_000_000, denom);
    if inv > UNIT as i128 {
        UNIT
    } else {
        inv as i64
    }
}

impl<S: IntersectableScene> RayTracer<S> {
    /// Distance attenuation for a hit point under a light: one for a
    /// directional light, `fatt_spec` of the distance to the light's
    /// (possibly sampled) position otherwise.
    pub fn calculate_fattj(light: &Light, point: Vec3) -> (r: i64)
        requires
            light.wf(),
            in_range(point, crate::intersection::POINT_MAX as int),
        ensures
            1 <= r <= UNIT,
            light is Directional ==> r == UNIT,
            match *light {
                Light::Point(l) => r == fatt_spec(distance_spec(point, l.pos)),
                Light::Area(l) => exists|s: Vec3| in_extent(s, l.min, l.max)
                    && r == fatt_spec(distance_spec(point, s)),
                Light::Directional(_) => r == UNIT,
            },
    {
        match light {
            Light::Directional(_) => UNIT,
            _ => {
                let lp = light.position();
                let d = point.distance(lp);
                proof {
                    lemma_dist_cap(point, lp);
                }
                calculate_fattj_value(d)
            },
        }
    }

    /// The ambient term: diffuse times ambient colour, scaled by the
    /// opacity.
    pub fn ambient_lightning(kt: i64, ka: Color, cd: Color) -> (c: Color)
        requires
            0 <= kt <= UNIT,
        ensures
            c.r_spec() == ambient_channel(kt as int, ka.r_spec(), cd.r_spec()),
            c.g_spec() == ambient_channel(kt as int, ka.g_spec(), cd.g_spec()),
            c.b_spec() == ambient_channel(kt as int, ka.b_spec(), cd.b_spec()),
    {
        cd.mul(&ka).mult(UNIT - kt)
    }

    /// The diffuse term: the diffuse colour scaled by opacity times
    /// the clamped cosine of the light angle.
    pub fn diffuse_lightning(kt: i64, cd: Color, normal: Vec3, dj: Vec3) -> (c: Color)
        requires
            0 <= kt <= UNIT,
            in_range(normal, UNIT as int),
            in_range(dj, DIRMAX as int),
        ensures
            ({
                let b = if dot_spec(normal, dj) > 0 { dot_spec(normal, dj) } else { 0 };
                let m = rdiv(((UNIT as int) - kt) * b, UNIT as int);
                c.r_spec() == crate::color::scale_channel(cd.r_spec(), m)
                    && c.g_spec() == crate::color::scale_channel(cd.g_spec(), m)
                    && c.b_spec() == crate::color::scale_channel(cd.b_spec(), m)
            }),
    {
        proof {
            lemma_dot_small2(normal, dj);
        }
        let a: i64 = UNIT - kt;
        let d = normal.dot(dj);
        let b: i64 = if d > 0 { d } else { 0 };
        proof {
            lemma_mul_bound(a as int, b as int, UNIT as int, 300_000_000);
            lemma_rdiv_bound(a as int * b as int, UNIT as int, 300_000_000_000);
        }
        let m = div_round((a as i128) * (b as i128), 1_000_000) as i64;
        cd.mult(m)
    }

    /// The specular term: the specular colour scaled by the clamped
    /// highlight cosine raised to the integer exponent `nexp`.
    pub fn specular_lightning(nexp: u64, ks: Color, normal: Vec3, dj: Vec3, v: Vec3) -> (c: Color)
        requires
            in_range(normal, UNIT as int),
            in_range(dj, DIRMAX as int),
            in_range(v, DIRMAX as int),
        ensures
            ({
                let t = dot_spec(normal, dj);
                let rj = sub_spec(mult_spec(mult_spec(normal, t), 2 * UNIT), dj);
                let t2 = dot_spec(rj, v);
                let base = if t2 < 0 { 0int } else if t2 > UNIT { UNIT as int } else { t2 };
                let p = pow_fx(base, nexp as nat);
                c.r_spec() == crate::color::scale_channel(ks.r_spec(), p)
                    && c.g_spec() == crate::color::scale_channel(ks.g_spec(), p)
                    && c.b_spec() == crate::color::scale_channel(ks.b_spec(), p)
            }),
    {
        proof {
            lemma_dot_small2(normal, dj);
        }
        let t = normal.dot(dj);
        proof {
            crate::vec3::lemma_mult_range(normal, t as int, UNIT as int, 300_000_000, 300_000_000);
            crate::vec3::lemma_mult_range(
                mult_spec(normal, t as int), 2 * UNIT as int, 300_000_000, 2 * UNIT as int,
                600_000_000,
            );
        }
        let rj = normal.mult(t).mult(2 * UNIT).sub(dj);
        proof {
            lemma_mul_bound(rj.x as int, v.x as int, 700_000_000, DIRMAX as int);
            lemma_mul_bound(rj.y as int, v.y as int, 700_000_000, DIRMAX as int);
            lemma_mul_bound(rj.z as int, v.z as int, 700_000_000, DIRMAX as int);
            lemma_rdiv_bound(crate::vec3::dot_raw(rj, v), UNIT as int, 300_000_000_000);
        }
        let t2 = rj.dot(v);
        let base: i64 = if t2 < 0 { 0 } else if t2 > UNIT { UNIT } else { t2 };
        let p = pow_fx_exec(base, nexp);
        ks.mult(p)
    }
}

/// The row-major pixel at column `xi` of row `yi`.
pub open spec fn pixel_at(pixels: Seq<(u8, u8, u8)>, width: int, xi: int, yi: int) -> (u8, u8, u8) {
    pixels[yi * width + xi]
}

/// Row-major indices of earlier pixels come before the next write.
proof fn lemma_row_major_lt(xi: int, yi: int, x: int, y: int, w: int)
    by (nonlinear_arith)
    requires
        0 <= xi < w,
        0 <= yi,
        yi < y || (yi == y && xi < x),
        0 <= x,
        0 <= y,
    ensures
        0 <= yi * w + xi,
        yi * w + xi < y * w + x,
{
}

/// A clamped sum of non-negative terms never falls below the ambient
/// term.
proof fn lemma_clamped_sum_floor(d: int, a: int, rl: int, rf: int)
    requires
        0 <= a <= UNIT,
        d >= 0,
        rl >= 0,
        rf >= 0,
    ensures
        clamp_channel(clamp_channel(clamp_channel(d + a) + rl) + rf) >= a,
{
}

/// Zero times anything is zero.
proof fn lemma_zero_times(x: int)
    by (nonlinear_arith)
    ensures
        0 * x == 0,
        x * 0 == 0,
{
}

/// The rounded quotient of zero is zero.
proof fn lemma_zero_rdiv(den: int)
    requires
        den > 0,
    ensures
        rdiv(0, den) == 0,
{
    assert((0 + den / 2) / den == 0) by (nonlinear_arith)
        requires den > 0,
    ;
}

/// A dot of two direction-budget vectors, one of unit size, is small.
proof fn lemma_dot_small2(a: Vec3, b: Vec3)
    requires
        in_range(a, UNIT as int),
        in_range(b, DIRMAX as int),
    ensures
        -300_000_000 <= dot_spec(a, b) <= 300_000_000,
{
    lemma_mul_bound(a.x as int, b.x as int, UNIT as int, DIRMAX as int);
    lemma_mul_bound(a.y as int, b.y as int, UNIT as int, DIRMAX as int);
    lemma_mul_bound(a.z as int, b.z as int, UNIT as int, DIRMAX as int);
    lemma_rdiv_bound(crate::vec3::dot_raw(a, b), UNIT as int, 300_000_000);
}

/// Distances between in-budget points stay within the attenuation
/// range.
proof fn lemma_dist_cap(a: Vec3, b: Vec3)
    requires
        in_range(a, crate::intersection::POINT_MAX as int),
        in_range(b, PMAX as int),
    ensures
        0 <= distance_spec(a, b) <= 10_000_000_000,
{
    let d = sub_spec(a, b);
    crate::fixed::lemma_sq(d.x as int);
    crate::fixed::lemma_sq(d.y as int);
    crate::fixed::lemma_sq(d.z as int);
    lemma_mul_bound(d.x as int, d.x as int, 4_000_000_000, 4_000_000_000);
    lemma_mul_bound(d.y as int, d.y as int, 4_000_000_000, 4_000_000_000);
    lemma_mul_bound(d.z as int, d.z as int, 4_000_000_000, 4_000_000_000);
    crate::fixed::lemma_sqrt_floor_bounds(sq_norm(d));
    let r = distance_spec(a, b);
    assert(r <= 10_000_000_000) by {
        if r > 10_000_000_000 {
            assert(r * r > 100_000_000_000_000_000_000) by (nonlinear_arith)
                requires r > 10_000_000_000,
            ;
        }
    }
}

impl<S: IntersectableScene> RayTracer<S> {
    /// The averaged shadow visibility of a surface point under one
    /// light: each sample casts a shadow ray toward the light and
    /// contributes fully lit on a miss, the opaque-occluder rule on an
    /// opaque hit, and the occluder's transparency times a recursive
    /// test on a transparent hit. The result is a grey colour; an
    /// exhausted recursion depth counts as fully shadowed.
    #[verifier::rlimit(100)]
    pub fn shadow_scalar(scene: &S, light: &Light, intersection: &Intersection<'_>, n: usize, depth: usize) -> (c: Color)
        requires
            scene.wf(),
            light.wf(),
            intersection.wf(),
            n >= 1,
        ensures
            c.r_spec() == c.g_spec() && c.g_spec() == c.b_spec(),
            0 <= c.r_spec() <= UNIT,
            depth == 0 ==> c == black(),
            depth > 0 && !(light is Area) ==> c.r_spec() == shadow_scalar_spec(
                scene,
                *light,
                *intersection.shape,
                intersection.ray,
                intersection.dist as int,
                n as int,
                depth as nat,
            ),
            depth > 0 ==> (match *light {
                Light::Area(al) => exists|picks: Seq<(Vec3, Vec3, int)>|
                    #![trigger picks.len()]
                {
                    let sori = shadow_origin_spec(
                        *intersection.shape,
                        intersection.ray,
                        intersection.dist as int,
                    );
                    &&& picks.len() == n
                    &&& (forall|j: int| 0 <= j < picks.len()
                        ==> area_pick_ok(al, sori, #[trigger] picks[j]))
                    &&& c.r_spec() == rdiv(shadow_area_total(scene, sori, picks), n as int)
                },
                _ => true,
            }),
        decreases depth,
    {
        if depth == 0 {
            return Color::new();
        }

        let normal = intersection.surface_normal();
        proof {
            crate::vec3::lemma_mult_range(normal, SURFACE_EPS as int, UNIT as int, 100, 100);
        }
        let p = intersection.point();
        let ori = p.add(normal.mult(SURFACE_EPS));
        proof {
            assert(ori == shadow_origin_spec(
                *intersection.shape,
                intersection.ray,
                intersection.dist as int,
            ));
        }
        let ghost one = shadow_one_spec(scene, *light, ori, n as int, depth as nat);

        let mut total: i128 = 0;
        let ghost mut picks: Seq<(Vec3, Vec3, int)> = Seq::empty();
        let mut k: usize = 0;
        while k < n
            invariant
                scene.wf(),
                light.wf(),
                intersection.wf(),
                n >= 1,
                depth >= 1,
                0 <= k <= n,
                0 <= total <= (k as int) * (UNIT as int),
                in_range(ori, ORIMAX as int),
                one == shadow_one_spec(scene, *light, ori, n as int, depth as nat),
                !(light is Area) ==> total == (k as int) * one,
                light is Area ==> picks.len() == k
                    && total == shadow_area_total(scene, ori, picks)
                    && (match *light {
                        Light::Area(al) => forall|j: int| 0 <= j < picks.len()
                            ==> area_pick_ok(al, ori, #[trigger] picks[j]),
                        _ => true,
                    }),
            decreases n - k,
        {
            let dir = light.get_dir(ori);
            let shadow = Ray::init(ori, dir);
            proof {
                assert(shadow == (Ray { ori, dir, vacuum: true }));
            }
            let ghost mut lp_pick: Vec3 = Vec3 { x: 0, y: 0, z: 0 };
            let ghost mut sub_pick: int = 0;
            let part: i64 = match scene.intersects(&shadow) {
                SceneIntersection::Intersected(it2) => {
                    let material = it2.material();
                    if material.transparency == 0 {
                        match light {
                            Light::Directional(_) => 0,
                            _ => {
                                let p2 = it2.point();
                                let lp = light.position();
                                proof { lp_pick = lp; }
                                opaque_shadow_value(
                                    ori.distance(p2),
                                    ori.distance(lp),
                                    false,
                                )
                            },
                        }
                    } else {
                        let sub = Self::shadow_scalar(scene, light, &it2, n, depth - 1);
                        let sr = sub.r_val();
                        proof {
                            sub_pick = sr as int;
                            crate::color::lemma_black();
                            lemma_mul_bound(material.transparency as int, sr as int, UNIT as int, UNIT as int);
                            lemma_rdiv_bound(material.transparency as int * sr as int, UNIT as int, UNIT as int);
                            assert(material.transparency as int * sr as int >= 0) by (nonlinear_arith)
                                requires material.transparency as int >= 0, sr as int >= 0,
                            ;
                            lemma_rdiv_nonneg(material.transparency as int * sr as int, UNIT as int);
                        }
                        div_round((material.transparency as i128) * (sr as i128), 1_000_000) as i64
                    }
                },
                SceneIntersection::Missed => UNIT,
            };
            proof {
                assert((k as int) * (UNIT as int) + UNIT <= ((k + 1) as int) * (UNIT as int))
                    by (nonlinear_arith)
                    requires k as int >= 0,
                ;
                if !(light is Area) {
                    assert(dir == light_dir_spec(*light, ori));
                    let srayg = Ray { ori, dir, vacuum: true };
                    assert(part == shadow_probe_spec(
                        scene,
                        light is Directional,
                        ori,
                        dir,
                        light_pos_spec(*light),
                        match scene.hit_spec(srayg) {
                            Some((pz, tz)) => shadow_scalar_spec(
                                scene, *light, pz, srayg, tz, n as int, (depth - 1) as nat,
                            ),
                            None => 0int,
                        },
                    ));
                    assert(part == one);
                    assert(total + part == ((k + 1) as int) * one) by (nonlinear_arith)
                        requires total == (k as int) * one, part == one,
                    ;
                } else {
                    match *light {
                        Light::Area(al) => {
                            let lp2 = if in_extent(lp_pick, al.min, al.max) { lp_pick } else { al.min };
                            let pk = (dir, lp2, sub_pick);
                            assert(in_extent(al.min, al.min, al.max));
                            assert(part == shadow_probe_spec(scene, false, ori, pk.0, pk.1, pk.2));
                            assert(area_pick_ok(al, ori, pk));
                            let picks2 = picks.push(pk);
                            assert(picks2.drop_last() =~= picks);
                            assert(picks2.last() == pk);
                            picks = picks2;
                        },
                        _ => {},
                    }
                }
            }
            total = total + part as i128;
            k += 1;
        }
        proof {
            assert(total <= (n as int) * (UNIT as int));
            lemma_rdiv_bound(total as int, n as int, UNIT as int);
            lemma_rdiv_nonneg(total as int, n as int);
        }
        let shade = div_round(total, n as i128) as i64;
        Color::init(shade, shade, shade)
    }

    /// Direct lighting under one light, averaged over `n` samples of
    /// the light direction: each sample adds the light's intensity,
    /// shadowed and attenuated, times the diffuse and specular terms.
    /// A black light contributes nothing.
    #[verifier::rlimit(100)]
    pub fn direct_lightning(light: &Light, intersection: &Intersection<'_>, sj: Color, fattj: i64, n: usize) -> (c: Color)
        requires
            light.wf(),
            intersection.wf(),
            0 <= fattj <= UNIT,
            n >= 1,
        ensures
            light.intensity_spec() == black() ==> c == black(),
            !(light is Area) ==> (c.r_spec(), c.g_spec(), c.b_spec()) == rep_acc(
                direct_sample_rgb(
                    *light,
                    *intersection.shape,
                    intersection.ray,
                    intersection.dist as int,
                    sj,
                    fattj as int,
                    n as int,
                ),
                n as nat,
            ),
            (match *light {
                Light::Area(al) => exists|dirs: Seq<Vec3>|
                    #![trigger dirs.len()]
                {
                    let point = hit_point_spec(intersection.ray, intersection.dist as int);
                    &&& dirs.len() == n
                    &&& (forall|k: int| 0 <= k < dirs.len() ==> exists|sp: Vec3|
                        in_extent(sp, al.min, al.max)
                        && #[trigger] dirs[k] == normalize_spec(sub_spec(sp, point)))
                    &&& (c.r_spec(), c.g_spec(), c.b_spec()) == direct_area_acc(
                        *light,
                        *intersection.shape,
                        intersection.ray,
                        intersection.dist as int,
                        sj,
                        fattj as int,
                        n as int,
                        dirs,
                    )
                },
                _ => true,
            }),
    {
        let point = intersection.point();
        let material = intersection.material();
        proof { crate::shapes::lemma_material_wf(*intersection.shape); }
        let kt = material.transparency;
        let cd = intersection.color();
        let ks = material.specular;
        proof {
            lemma_rdiv_nonneg(material.shininess as int * 128, UNIT as int);
            lemma_rdiv_bound(material.shininess as int * 128, UNIT as int, 128_000_000_000_000);
        }
        let q: i64 = material.shininess * 128;
        let nexp = div_round(q as i128, 1_000_000) as u64;

        let intensity = light.intensity();
        let direct_light = intensity.mul(&sj).mult(fattj);
        proof {
            crate::shapes::lemma_material_wf(*intersection.shape);
            if light.intensity_spec() == black() {
                crate::color::lemma_black();
                lemma_zero_times(sj.r_spec());
                lemma_zero_times(sj.g_spec());
                lemma_zero_times(sj.b_spec());
                lemma_zero_rdiv(UNIT as int);
                lemma_zero_times(fattj as int);
                assert(direct_light.r_spec() == 0 && direct_light.g_spec() == 0
                    && direct_light.b_spec() == 0);
            }
        }

        let mut lightning = Color::new();
        let ghost mut dirs: Seq<Vec3> = Seq::empty();
        let mut k: usize = 0;
        while k < n
            invariant
                light.wf(),
                intersection.wf(),
                n >= 1,
                0 <= k <= n,
                nexp <= 128_000_000,
                0 <= kt <= UNIT,
                light is Area ==> dirs.len() == k
                    && (lightning.r_spec(), lightning.g_spec(), lightning.b_spec())
                        == direct_area_acc(
                        *light,
                        *intersection.shape,
                        intersection.ray,
                        intersection.dist as int,
                        sj,
                        fattj as int,
                        n as int,
                        dirs,
                    )
                    && (match *light {
                        Light::Area(al) => forall|j: int| 0 <= j < dirs.len() ==> exists|sp: Vec3|
                            in_extent(sp, al.min, al.max)
                            && #[trigger] dirs[j] == normalize_spec(sub_spec(sp, point)),
                        _ => true,
                    }),
                nexp as int == ({
                    let e0 = rdiv(intersection.shape.material_spec().shininess * 128, UNIT as int);
                    if e0 >= 0 { e0 } else { 0 }
                }),
                kt == intersection.shape.material_spec().transparency,
                cd == intersection.shape.material_spec().diffuse,
                ks == intersection.shape.material_spec().specular,
                0 <= fattj <= UNIT,
                point == hit_point_spec(intersection.ray, intersection.dist as int),
                direct_light.r_spec() == crate::color::scale_channel(
                    rdiv(light.intensity_spec().r_spec() * sj.r_spec(), UNIT as int), fattj as int),
                direct_light.g_spec() == crate::color::scale_channel(
                    rdiv(light.intensity_spec().g_spec() * sj.g_spec(), UNIT as int), fattj as int),
                direct_light.b_spec() == crate::color::scale_channel(
                    rdiv(light.intensity_spec().b_spec() * sj.b_spec(), UNIT as int), fattj as int),
                !(light is Area) ==> (lightning.r_spec(), lightning.g_spec(), lightning.b_spec())
                    == rep_acc(
                    direct_sample_rgb(
                        *light,
                        *intersection.shape,
                        intersection.ray,
                        intersection.dist as int,
                        sj,
                        fattj as int,
                        n as int,
                    ),
                    k as nat,
                ),
                light.intensity_spec() == black() ==> lightning == black(),
                light.intensity_spec() == black() ==> direct_light.r_spec() == 0
                    && direct_light.g_spec() == 0 && direct_light.b_spec() == 0,
                in_range(point, crate::intersection::POINT_MAX as int),
            decreases n - k,
        {
            let dir = light.get_dir(point);
            let normal = intersection.surface_normal();
            let diffuse_light = Self::diffuse_lightning(kt, cd, normal, dir);
            let v = intersection.direction().invert();
            let specular_light = Self::specular_lightning(nexp, ks, normal, dir, v);
            let dsum = diffuse_light.add(&specular_light);
            let sample = direct_light.mul(&dsum);
            let sr = sample.r_val();
            let sg = sample.g_val();
            let sb = sample.b_val();
            proof {
                lemma_rdiv_bound(sr as int, n as int, UNIT as int);
                lemma_rdiv_bound(sg as int, n as int, UNIT as int);
                lemma_rdiv_bound(sb as int, n as int, UNIT as int);
                if light.intensity_spec() == black() {
                    crate::color::lemma_black();
                    lemma_zero_times(dsum.r_spec());
                    lemma_zero_times(dsum.g_spec());
                    lemma_zero_times(dsum.b_spec());
                    lemma_zero_rdiv(UNIT as int);
                    assert(sample.r_spec() == 0 && sample.g_spec() == 0 && sample.b_spec() == 0);
                    lemma_zero_rdiv(n as int);
                }
            }
            let scaled = Color::init(
                div_round(sr as i128, n as i128) as i64,
                div_round(sg as i128, n as i128) as i64,
                div_round(sb as i128, n as i128) as i64,
            );
            let next = lightning.add(&scaled);
            proof {
                if light.intensity_spec() == black() {
                    crate::color::lemma_black();
                    crate::color::lemma_color_eq(next, black());
                }
                if light is Area {
                    let dirs2 = dirs.push(dir);
                    assert(dirs2.drop_last() =~= dirs);
                    assert(dirs2.last() == dir);
                    dirs = dirs2;
                }
            }
            lightning = next;
            k += 1;
        }
        lightning
    }

    /// The direct contribution of one light at one hit: attenuation,
    /// the (sampled) shadow visibility, then the averaged per-sample
    /// lighting. For a point or directional light the result is the
    /// exact one-sample fold over the deterministic shadow value.
    fn direct_for_light(scene: &S, light: &Light, intersection: &Intersection<'_>, num_samples: usize, depth: usize) -> (c: Color)
        requires
            scene.wf(),
            light.wf(),
            intersection.wf(),
            num_samples >= 1,
            depth >= 1,
        ensures
            !(light is Area) ==> (c.r_spec(), c.g_spec(), c.b_spec()) == ({
                let point = hit_point_spec(intersection.ray, intersection.dist as int);
                let fattj = match *light {
                    Light::Directional(_) => UNIT as int,
                    Light::Point(l) => fatt_spec(distance_spec(point, l.pos)),
                    Light::Area(_) => 0int,
                };
                let sjv = shadow_scalar_spec(
                    scene,
                    *light,
                    *intersection.shape,
                    intersection.ray,
                    intersection.dist as int,
                    1,
                    depth as nat,
                );
                rep_acc(
                    direct_sample_chan(
                        *light,
                        *intersection.shape,
                        intersection.ray,
                        intersection.dist as int,
                        sjv,
                        sjv,
                        sjv,
                        fattj,
                        1,
                        light_dir_spec(*light, point),
                    ),
                    1,
                )
            }),
        decreases depth, 0nat,
    {
        let p = intersection.point();
        let fattj = Self::calculate_fattj(light, p);
        if fattj > 0 {
            let n = match light {
                Light::Area(_) => num_samples,
                _ => 1,
            };
            let shadow = Self::shadow_scalar(scene, light, intersection, n, depth);
            Self::direct_lightning(light, intersection, shadow, fattj, n)
        } else {
            unreached()
        }
    }

    /// The reflective term: the specular colour times the shade, one
    /// level shallower, of the nearest hit along the reflected ray;
    /// black for a non-reflective material or a reflected miss.
    fn reflective_contribution(scene: &S, intersection: &Intersection<'_>, num_samples: usize, depth: usize) -> (c: Color)
        requires
            scene.wf(),
            intersection.wf(),
            num_samples >= 1,
            depth >= 1,
        ensures
            intersection.shape.material_spec().specular == black() ==> c == black(),
            !(intersection.shape.material_spec().specular == black())
                && scene.hit_spec(intersection.reflective_ray_spec()) is None ==> c == black(),
        decreases depth, 0nat,
    {
        let material = intersection.material();
        let ks = material.specular;
        proof {
            if intersection.shape.material_spec().specular == black() {
                crate::color::lemma_black();
            }
        }
        if ks.scalar() > 0 {
            let ray = intersection.reflective_ray();
            match scene.intersects(&ray) {
                SceneIntersection::Intersected(it2) => {
                    let sub = Self::shade_intersection(scene, &it2, num_samples, depth - 1);
                    ks.mul(&sub)
                },
                SceneIntersection::Missed => Color::new(),
            }
        } else {
            Color::new()
        }
    }

    /// The refractive term: the shade, one level shallower, of the
    /// nearest hit along the transmitted ray, scaled by the
    /// transparency; black for an opaque material, under total
    /// internal reflection, or on a transmitted miss.
    fn refractive_contribution(scene: &S, intersection: &Intersection<'_>, num_samples: usize, depth: usize) -> (c: Color)
        requires
            scene.wf(),
            intersection.wf(),
            num_samples >= 1,
            depth >= 1,
        ensures
            intersection.shape.material_spec().transparency == 0 ==> c == black(),
            intersection.refractive_ray_spec() is None ==> c == black(),
            ({
                let rropt = intersection.refractive_ray_spec();
                rropt is Some && scene.hit_spec(rropt.unwrap()) is None ==> c == black()
            }),
        decreases depth, 0nat,
    {
        let material = intersection.material();
        let kt = material.transparency;
        proof { crate::shapes::lemma_material_wf(*intersection.shape); }
        if kt > 0 {
            match intersection.refractive_ray() {
                Some(ray) => match scene.intersects(&ray) {
                    SceneIntersection::Intersected(it2) => {
                        let sub = Self::shade_intersection(scene, &it2, num_samples, depth - 1);
                        sub.mult(kt)
                    },
                    SceneIntersection::Missed => Color::new(),
                },
                None => Color::new(),
            }
        } else {
            Color::new()
        }
    }

    /// The recursive Whitted sum for one hit: ambient, direct over all
    /// lights, and the reflected and refracted contributions one level
    /// deeper. An exhausted depth returns black regardless of the
    /// material; the reflected term is black for a non-reflective
    /// material and the refracted term is black for an opaque material
    /// or under total internal reflection.
    #[verifier::rlimit(100)]
    pub fn shade_intersection(scene: &S, intersection: &Intersection<'_>, num_samples: usize, depth: usize) -> (c: Color)
        requires
            scene.wf(),
            intersection.wf(),
            num_samples >= 1,
        ensures
            depth == 0 ==> c == black(),
            depth > 0 ==> ({
                let m = intersection.shape.material_spec();
                &&& c.r_spec() >= ambient_channel(m.transparency as int, m.ambient.r_spec(), m.diffuse.r_spec())
                &&& c.g_spec() >= ambient_channel(m.transparency as int, m.ambient.g_spec(), m.diffuse.g_spec())
                &&& c.b_spec() >= ambient_channel(m.transparency as int, m.ambient.b_spec(), m.diffuse.b_spec())
            }),
            depth > 0 ==> exists|direct: Color, refl: Color, refr: Color|
                #![trigger direct.r_spec(), refl.r_spec(), refr.r_spec()]
            {
                let m = intersection.shape.material_spec();
                &&& (c.r_spec() == clamp_channel(clamp_channel(clamp_channel(
                        direct.r_spec() + ambient_channel(m.transparency as int, m.ambient.r_spec(), m.diffuse.r_spec()))
                        + refl.r_spec()) + refr.r_spec()))
                &&& (c.g_spec() == clamp_channel(clamp_channel(clamp_channel(
                        direct.g_spec() + ambient_channel(m.transparency as int, m.ambient.g_spec(), m.diffuse.g_spec()))
                        + refl.g_spec()) + refr.g_spec()))
                &&& (c.b_spec() == clamp_channel(clamp_channel(clamp_channel(
                        direct.b_spec() + ambient_channel(m.transparency as int, m.ambient.b_spec(), m.diffuse.b_spec()))
                        + refl.b_spec()) + refr.b_spec()))
                &&& (scene.lights_spec().len() == 0 ==> direct == black())
                &&& ((forall|i: int| 0 <= i < scene.lights_spec().len()
                        ==> !((#[trigger] scene.lights_spec()[i]) is Area))
                    ==> (direct.r_spec(), direct.g_spec(), direct.b_spec())
                        == direct_total_spec(
                        scene,
                        scene.lights_spec(),
                        *intersection.shape,
                        intersection.ray,
                        intersection.dist as int,
                        depth as nat,
                    ))
                &&& (m.specular == black() ==> refl == black())
                &&& (!(m.specular == black())
                    && scene.hit_spec(intersection.reflective_ray_spec()) is None
                    ==> refl == black())
                &&& (m.transparency == 0 ==> refr == black())
                &&& (intersection.refractive_ray_spec() is None ==> refr == black())
                &&& ({
                    let rropt = intersection.refractive_ray_spec();
                    rropt is Some && scene.hit_spec(rropt.unwrap()) is None ==> refr == black()
                })
            },
        decreases depth, 1nat,
    {
        if depth == 0 {
            return Color::new();
        }

        let material = intersection.material();
        let kt = material.transparency;
        let ks = material.specular;
        let ka = material.ambient;
        let cd = intersection.color();

        let ambient_light = Self::ambient_lightning(kt, ka, cd);

        let mut direct_light = Color::new();
        let lights = scene.get_lights();
        let nlights = lights.len();
        let mut li: usize = 0;
        proof { scene.lemma_wf(); }
        let p = intersection.point();
        while li < nlights
            invariant
                scene.wf(),
                intersection.wf(),
                num_samples >= 1,
                depth >= 1,
                0 <= li <= nlights,
                nlights == 0 ==> direct_light == black(),
                nlights == scene.lights_spec().len(),
                lights@ == scene.lights_spec(),
                forall|i: int| 0 <= i < scene.lights_spec().len()
                    ==> (#[trigger] scene.lights_spec()[i]).wf(),
                in_range(p, crate::intersection::POINT_MAX as int),
                p == hit_point_spec(intersection.ray, intersection.dist as int),
                (forall|i: int| 0 <= i < scene.lights_spec().len()
                    ==> !((#[trigger] scene.lights_spec()[i]) is Area))
                    ==> (direct_light.r_spec(), direct_light.g_spec(), direct_light.b_spec())
                        == direct_total_spec(
                        scene,
                        scene.lights_spec().take(li as int),
                        *intersection.shape,
                        intersection.ray,
                        intersection.dist as int,
                        depth as nat,
                    ),
            decreases nlights - li,
        {
            let ghost pre_take = scene.lights_spec().take(li as int);
            let light = &lights[li];
            let portion = Self::direct_for_light(scene, light, intersection, num_samples, depth);
            proof {
                let post_take = scene.lights_spec().take(li as int + 1);
                assert(post_take.drop_last() =~= pre_take);
                assert(post_take.last() == scene.lights_spec()[li as int]);
            }
            direct_light = direct_light.add(&portion);
            li += 1;
        }
        proof {
            assert(scene.lights_spec().take(nlights as int) =~= scene.lights_spec());
        }

        let reflective_light = Self::reflective_contribution(scene, intersection, num_samples, depth);
        let refractive_light = Self::refractive_contribution(scene, intersection, num_samples, depth);

        let c = direct_light.add(&ambient_light).add(&reflective_light).add(&refractive_light);
        proof {
            let m = intersection.shape.material_spec();
            assert((m.specular == black() ==> reflective_light == black())
                && (m.transparency == 0 ==> refractive_light == black())
                && (intersection.refractive_ray_spec() is None ==> refractive_light == black()));
            use_type_invariant(direct_light);
            use_type_invariant(ambient_light);
            use_type_invariant(reflective_light);
            use_type_invariant(refractive_light);
            crate::color::lemma_inv_channels(direct_light);
            crate::color::lemma_inv_channels(ambient_light);
            crate::color::lemma_inv_channels(reflective_light);
            crate::color::lemma_inv_channels(refractive_light);
            let ar = ambient_channel(m.transparency as int, m.ambient.r_spec(), m.diffuse.r_spec());
            let ag = ambient_channel(m.transparency as int, m.ambient.g_spec(), m.diffuse.g_spec());
            let ab = ambient_channel(m.transparency as int, m.ambient.b_spec(), m.diffuse.b_spec());
            assert(ambient_light.r_spec() == ar);
            assert(ambient_light.g_spec() == ag);
            assert(ambient_light.b_spec() == ab);
            lemma_clamped_sum_floor(direct_light.r_spec(), ar, reflective_light.r_spec(), refractive_light.r_spec());
            lemma_clamped_sum_floor(direct_light.g_spec(), ag, reflective_light.g_spec(), refractive_light.g_spec());
            lemma_clamped_sum_floor(direct_light.b_spec(), ab, reflective_light.b_spec(), refractive_light.b_spec());
        }
        c
    }

    /// What the renderer owes the pixel at `(xi, yi)`: black when the
    /// primary ray through it misses the scene, and at least the hit
    /// material's packed ambient term when it hits and the recursion
    /// budget allows shading.
    pub open spec fn pixel_ok(&self, pixels: Seq<(u8, u8, u8)>, xi: int, yi: int) -> bool {
        let ray = self.camera_ray_spec(xi, self.height - 1 - yi);
        let px = pixel_at(pixels, self.width as int, xi, yi);
        let hit = match self.scene {
            Some(sc) => sc.hit_spec(ray),
            None => None,
        };
        &&& (hit is None ==> px == (0u8, 0u8, 0u8))
        &&& (hit is Some && self.depth >= 1 ==> {
            let m = hit.unwrap().0.material_spec();
            &&& px.0 >= ambient_channel(m.transparency as int, m.ambient.r_spec(), m.diffuse.r_spec()) * 255 / (UNIT as int)
            &&& px.1 >= ambient_channel(m.transparency as int, m.ambient.g_spec(), m.diffuse.g_spec()) * 255 / (UNIT as int)
            &&& px.2 >= ambient_channel(m.transparency as int, m.ambient.b_spec(), m.diffuse.b_spec()) * 255 / (UNIT as int)
        })
    }

    /// Render the image: one primary ray per pixel, shaded on a hit,
    /// black on a miss; see `pixel_ok`.
    pub fn trace_rays(&self) -> (img: Raster)
        requires
            self.wf(),
            self.scene is Some,
            1 <= self.width,
            1 <= self.height,
            self.width as int * self.height as int <= 100_000_000,
            self.num_samples >= 1,
        ensures
            img.width == self.width,
            img.height == self.height,
            img.pixels@.len() == self.width as int * self.height as int,
            forall|xi: int, yi: int| 0 <= xi < self.width && 0 <= yi < self.height
                ==> #[trigger] self.pixel_ok(img.pixels@, xi, yi),
    {
        let scene = match &self.scene {
            Some(scene) => scene,
            None => unreached(),
        };
        let mut pixels: Vec<(u8, u8, u8)> = Vec::new();
        let mut y: u32 = 0;
        while y < self.height
            invariant
                self.wf(),
                self.scene == Some(*scene),
                scene.wf(),
                1 <= self.width,
                1 <= self.height,
                self.width as int * self.height as int <= 100_000_000,
                self.num_samples >= 1,
                0 <= y <= self.height,
                pixels@.len() == y as int * self.width as int,
                forall|xi: int, yi: int| 0 <= xi < self.width && 0 <= yi < y
                    ==> #[trigger] self.pixel_ok(pixels@, xi, yi),
            decreases self.height - y,
        {
            let mut x: u32 = 0;
            while x < self.width
                invariant
                    self.wf(),
                    self.scene == Some(*scene),
                    scene.wf(),
                    1 <= self.width,
                    1 <= self.height,
                    self.width as int * self.height as int <= 100_000_000,
                    self.num_samples >= 1,
                    0 <= y < self.height,
                    0 <= x <= self.width,
                    pixels@.len() == y as int * self.width as int + x as int,
                    forall|xi: int, yi: int| 0 <= xi < self.width && 0 <= yi < y
                        ==> #[trigger] self.pixel_ok(pixels@, xi, yi),
                    forall|xi: int| 0 <= xi < x
                        ==> #[trigger] self.pixel_ok(pixels@, xi, y as int),
                decreases self.width - x,
            {
                proof {
                    let yi = y as int;
                    let wi = self.width as int;
                    let hi = self.height as int;
                    assert(yi * wi + wi <= hi * wi) by (nonlinear_arith)
                        requires 0 <= yi, yi < hi, wi >= 1,
                    ;
                    assert(hi * wi <= 100_000_000) by (nonlinear_arith)
                        requires wi * hi <= 100_000_000,
                    ;
                }
                let ray = self.compute_ray(x, self.height - 1 - y);
                let pix = match scene.intersects(&ray) {
                    SceneIntersection::Intersected(intersection) => {
                        let color = Self::shade_intersection(
                            scene,
                            &intersection,
                            self.num_samples,
                            self.depth,
                        );
                        proof {
                            if self.depth >= 1 {
                                let m = intersection.shape.material_spec();
                                broadcast use vstd::arithmetic::div_mod::lemma_div_is_ordered;

                                assert(ambient_channel(m.transparency as int, m.ambient.r_spec(), m.diffuse.r_spec()) * 255
                                    <= color.r_spec() * 255);
                                assert(ambient_channel(m.transparency as int, m.ambient.g_spec(), m.diffuse.g_spec()) * 255
                                    <= color.g_spec() * 255);
                                assert(ambient_channel(m.transparency as int, m.ambient.b_spec(), m.diffuse.b_spec()) * 255
                                    <= color.b_spec() * 255);
                            }
                        }
                        color.as_pixel()
                    },
                    SceneIntersection::Missed => (0u8, 0u8, 0u8),
                };
                let ghost pre = pixels@;
                pixels.push(pix);
                proof {
                    assert(self.pixel_ok(pixels@, x as int, y as int)) by {
                        assert(pixel_at(pixels@, self.width as int, x as int, y as int) == pix);
                    }
                    assert forall|xi: int, yi: int| 0 <= xi < self.width
                        && (yi == y as int && xi < x as int || 0 <= yi < y as int)
                        implies self.pixel_ok(pixels@, xi, yi) by {
                        lemma_row_major_lt(xi, yi, x as int, y as int, self.width as int);
                        assert(pixel_at(pixels@, self.width as int, xi, yi)
                            == pixel_at(pre, self.width as int, xi, yi));
                        if yi < y as int {
                            assert(self.pixel_ok(pre, xi, yi));
                        } else {
                            assert(self.pixel_ok(pre, xi, yi));
                        }
                    }
                }
                x += 1;
            }
            proof {
                assert((y as int) * (self.width as int) + self.width as int
                    == ((y + 1) as int) * (self.width as int)) by (nonlinear_arith);
            }
            y += 1;
        }
        proof {
            assert((self.height as int) * (self.width as int)
                == (self.width as int) * (self.height as int)) by (nonlinear_arith);
        }
        Raster { width: self.width, height: self.height, pixels }
    }
}

} // verus!
