//! Clamped RGB colour algebra and materials.
//!
//! A channel is a fixed-point scalar in `[0, UNIT]`; every operation that
//! produces a colour clamps each channel back into that range, so a
//! `Color` value always denotes a displayable colour.

use vstd::prelude::*;
use crate::fixed::{sqrt_floor, isqrt, rdiv, UNIT};

verus! {

/// Clamp an arbitrary scalar into a colour channel.
pub open spec fn clamp_channel(v: int) -> int {
    if v < 0 {
        0
    } else if v > UNIT {
        UNIT as int
    } else {
        v
    }
}

/// One channel scaled by a fixed-point weight, clamped.
pub open spec fn scale_channel(v: int, w: int) -> int {
    clamp_channel(rdiv(v * w, UNIT as int))
}

/// The clamped three-way blend of one channel of three colours, as the
/// colour operations compute it: two clamped sums of clamped scalings.
pub open spec fn interp_channel(m0: int, m1: int, m2: int, w0: int, w1: int, w2: int) -> int {
    clamp_channel(clamp_channel(scale_channel(m0, w2) + scale_channel(m1, w1)) + scale_channel(m2, w0))
}

/// An RGB colour; each channel is a fixed-point value in `[0, UNIT]`.
#[derive(Clone, Copy, Debug, PartialEq, Eq, Structural)]
pub struct Color {
    r: i64,
    g: i64,
    b: i64,
}

impl Color {
    #[verifier::type_invariant]
    pub closed spec fn inv(self) -> bool {
        0 <= self.r <= UNIT && 0 <= self.g <= UNIT && 0 <= self.b <= UNIT
    }

    pub closed spec fn r_spec(self) -> int {
        self.r as int
    }

    pub closed spec fn g_spec(self) -> int {
        self.g as int
    }

    pub closed spec fn b_spec(self) -> int {
        self.b as int
    }

    /// Black.
    pub fn new() -> (c: Color)
        ensures
            c == black(),
            c.r_spec() == 0 && c.g_spec() == 0 && c.b_spec() == 0,
    {
        Color { r: 0, g: 0, b: 0 }
    }

    pub fn init(r: i64, g: i64, b: i64) -> (c: Color)
        ensures
            c.r_spec() == clamp_channel(r as int),
            c.g_spec() == clamp_channel(g as int),
            c.b_spec() == clamp_channel(b as int),
    {
        let mut c = Color::new();
        c.r(r);
        c.g(g);
        c.b(b);
        c
    }

    pub fn r(&mut self, r: i64)
        ensures
            final(self).r_spec() == clamp_channel(r as int),
            final(self).g_spec() == old(self).g_spec(),
            final(self).b_spec() == old(self).b_spec(),
    {
        proof { use_type_invariant(*self); }
        let v: i64 = if r < 0 { 0 } else if r > UNIT { UNIT } else { r };
        self.r = v;
    }

    pub fn g(&mut self, g: i64)
        ensures
            final(self).g_spec() == clamp_channel(g as int),
            final(self).r_spec() == old(self).r_spec(),
            final(self).b_spec() == old(self).b_spec(),
    {
        proof { use_type_invariant(*self); }
        let v: i64 = if g < 0 { 0 } else if g > UNIT { UNIT } else { g };
        self.g = v;
    }

    pub fn b(&mut self, b: i64)
        ensures
            final(self).b_spec() == clamp_channel(b as int),
            final(self).r_spec() == old(self).r_spec(),
            final(self).g_spec() == old(self).g_spec(),
    {
        proof { use_type_invariant(*self); }
        let v: i64 = if b < 0 { 0 } else if b > UNIT { UNIT } else { b };
        self.b = v;
    }

    pub fn r_val(&self) -> (v: i64)
        ensures
            v == self.r_spec(),
            0 <= v <= UNIT,
    {
        proof { use_type_invariant(*self); }
        self.r
    }

    pub fn g_val(&self) -> (v: i64)
        ensures
            v == self.g_spec(),
            0 <= v <= UNIT,
    {
        proof { use_type_invariant(*self); }
        self.g
    }

    pub fn b_val(&self) -> (v: i64)
        ensures
            v == self.b_spec(),
            0 <= v <= UNIT,
    {
        proof { use_type_invariant(*self); }
        self.b
    }

    /// Euclidean norm of the channel triple, used as the "non-black" test.
    pub fn scalar(&self) -> (v: i64)
        ensures
            v == sqrt_floor(
                self.r_spec() * self.r_spec() + self.g_spec() * self.g_spec()
                    + self.b_spec() * self.b_spec(),
            ),
            v == 0 <==> self.r_spec() == 0 && self.g_spec() == 0 && self.b_spec() == 0,
            0 <= v <= 2 * UNIT,
    {
        proof {
            use_type_invariant(*self);
            crate::fixed::lemma_mul_bound(self.r as int, self.r as int, UNIT as int, UNIT as int);
            crate::fixed::lemma_mul_bound(self.g as int, self.g as int, UNIT as int, UNIT as int);
            crate::fixed::lemma_mul_bound(self.b as int, self.b as int, UNIT as int, UNIT as int);
            lemma_square_nonneg(self.r as int);
            lemma_square_nonneg(self.g as int);
            lemma_square_nonneg(self.b as int);
        }
        let s: u128 = (self.r * self.r + self.g * self.g + self.b * self.b) as u128;
        let v = isqrt(s);
        proof {
            crate::fixed::lemma_sqrt_zero_iff(s as int, v as int);
            if self.r == 0 && self.g == 0 && self.b == 0 {
                assert(s == 0);
            }
            if v == 0 {
                assert(s == 0);
                lemma_square_zero(self.r as int);
                lemma_square_zero(self.g as int);
                lemma_square_zero(self.b as int);
            }
            assert(v <= 2 * UNIT) by {
                if v > 2 * UNIT {
                    assert((v as int) * (v as int) > (2 * UNIT) * (2 * UNIT)) by (nonlinear_arith)
                        requires v as int > 2 * (UNIT as int), UNIT == 1_000_000int,
                    ;
                }
            }
        }
        v as i64
    }

    /// The colour packed for an 8-bit raster: each channel scaled to 255
    /// and truncated.
    pub fn as_pixel(&self) -> (p: (u8, u8, u8))
        ensures
            p.0 == self.r_spec() * 255 / (UNIT as int),
            p.1 == self.g_spec() * 255 / (UNIT as int),
            p.2 == self.b_spec() * 255 / (UNIT as int),
    {
        proof { use_type_invariant(*self); }
        (
            (self.r * 255 / UNIT) as u8,
            (self.g * 255 / UNIT) as u8,
            (self.b * 255 / UNIT) as u8,
        )
    }

    /// Scale every channel by the fixed-point factor `num`, clamping.
    pub fn mult(&self, num: i64) -> (c: Color)
        requires
            -0x4000_0000_0000 <= num <= 0x4000_0000_0000,
        ensures
            c.r_spec() == clamp_channel(rdiv(self.r_spec() * num, UNIT as int)),
            c.g_spec() == clamp_channel(rdiv(self.g_spec() * num, UNIT as int)),
            c.b_spec() == clamp_channel(rdiv(self.b_spec() * num, UNIT as int)),
    {
        proof {
            use_type_invariant(*self);
            crate::fixed::lemma_mul_bound(self.r as int, num as int, UNIT as int, 0x4000_0000_0000);
            crate::fixed::lemma_mul_bound(self.g as int, num as int, UNIT as int, 0x4000_0000_0000);
            crate::fixed::lemma_mul_bound(self.b as int, num as int, UNIT as int, 0x4000_0000_0000);
        }
        let r = crate::fixed::div_round((self.r as i128) * (num as i128), 1_000_000);
        let g = crate::fixed::div_round((self.g as i128) * (num as i128), 1_000_000);
        let b = crate::fixed::div_round((self.b as i128) * (num as i128), 1_000_000);
        Color::init(
            clamp_to_i64(r),
            clamp_to_i64(g),
            clamp_to_i64(b),
        )
    }

    /// Componentwise product of two colours, at fixed-point scale.
    pub fn mul(&self, col: &Color) -> (c: Color)
        ensures
            c.r_spec() == rdiv(self.r_spec() * col.r_spec(), UNIT as int),
            c.g_spec() == rdiv(self.g_spec() * col.g_spec(), UNIT as int),
            c.b_spec() == rdiv(self.b_spec() * col.b_spec(), UNIT as int),
    {
        proof {
            use_type_invariant(*self);
            use_type_invariant(*col);
            crate::fixed::lemma_mul_bound(self.r as int, col.r as int, UNIT as int, UNIT as int);
            crate::fixed::lemma_mul_bound(self.g as int, col.g as int, UNIT as int, UNIT as int);
            crate::fixed::lemma_mul_bound(self.b as int, col.b as int, UNIT as int, UNIT as int);
            lemma_unit_product_range(self.r as int, col.r as int);
            lemma_unit_product_range(self.g as int, col.g as int);
            lemma_unit_product_range(self.b as int, col.b as int);
        }
        let r = crate::fixed::div_round((self.r as i128) * (col.r as i128), 1_000_000);
        let g = crate::fixed::div_round((self.g as i128) * (col.g as i128), 1_000_000);
        let b = crate::fixed::div_round((self.b as i128) * (col.b as i128), 1_000_000);
        Color { r: r as i64, g: g as i64, b: b as i64 }
    }

    /// Componentwise sum of two colours, clamped.
    pub fn add(&self, col: &Color) -> (c: Color)
        ensures
            c.r_spec() == clamp_channel(self.r_spec() + col.r_spec()),
            c.g_spec() == clamp_channel(self.g_spec() + col.g_spec()),
            c.b_spec() == clamp_channel(self.b_spec() + col.b_spec()),
    {
        proof {
            use_type_invariant(*self);
            use_type_invariant(*col);
        }
        Color::init(self.r + col.r, self.g + col.g, self.b + col.b)
    }
}

/// Clamp a wide scalar into `i64` range before narrowing; the colour
/// clamp to `[0, UNIT]` makes any value beyond `UNIT` equivalent.
fn clamp_to_i64(v: i128) -> (r: i64)
    ensures
        v > UNIT ==> r as int == UNIT + 1,
        v < 0 ==> r == -1,
        0 <= v <= UNIT ==> r as int == v as int,
        clamp_channel(r as int) == clamp_channel(v as int),
{
    if v > UNIT as i128 {
        UNIT + 1
    } else if v < 0 {
        -1
    } else {
        v as i64
    }
}

/// A square is never negative.
proof fn lemma_square_nonneg(a: int)
    by (nonlinear_arith)
    ensures
        a * a >= 0,
{
}

/// Only zero squares to zero.
proof fn lemma_square_zero(a: int)
    by (nonlinear_arith)
    ensures
        a * a == 0 ==> a == 0,
{
}

/// The rounded product of two channels in `[0, UNIT]` stays in `[0, UNIT]`.
proof fn lemma_unit_product_range(a: int, b: int)
    requires
        0 <= a <= UNIT,
        0 <= b <= UNIT,
    ensures
        0 <= rdiv(a * b, UNIT as int) <= UNIT,
        clamp_channel(rdiv(a * b, UNIT as int)) == rdiv(a * b, UNIT as int),
{
    assert(a * b <= UNIT * UNIT) by (nonlinear_arith)
        requires 0 <= a <= UNIT, 0 <= b <= UNIT,
    ;
    assert(a * b >= 0) by (nonlinear_arith)
        requires 0 <= a, 0 <= b,
    ;
    crate::fixed::lemma_rdiv_bound(a * b, UNIT as int, UNIT as int);
}

/// The black colour.
pub closed spec fn black() -> Color {
    Color { r: 0, g: 0, b: 0 }
}

/// What `black()` is, channel by channel.
pub proof fn lemma_black()
    ensures
        black().r_spec() == 0,
        black().g_spec() == 0,
        black().b_spec() == 0,
{
}

/// The all-default material: black colours, zero shininess, opaque.
pub open spec fn default_material() -> Material {
    Material {
        diffuse: black(),
        ambient: black(),
        specular: black(),
        emissive: black(),
        shininess: 0,
        transparency: 0,
    }
}

/// A colour satisfying its invariant has all channels in `[0, UNIT]`.
pub proof fn lemma_inv_channels(c: Color)
    requires
        c.inv(),
    ensures
        0 <= c.r_spec() <= UNIT,
        0 <= c.g_spec() <= UNIT,
        0 <= c.b_spec() <= UNIT,
{
}

/// Colours with equal channels are equal.
pub proof fn lemma_color_eq(a: Color, b: Color)
    requires
        a.r_spec() == b.r_spec(),
        a.g_spec() == b.g_spec(),
        a.b_spec() == b.b_spec(),
    ensures
        a == b,
{
}

/// Surface material: Phong colours, shininess and transparency, all in
/// fixed-point scale.
#[derive(Clone, Copy, Debug, PartialEq, Eq, Structural)]
pub struct Material {
    pub diffuse: Color,
    pub ambient: Color,
    pub specular: Color,
    pub emissive: Color,
    pub shininess: i64,
    pub transparency: i64,
}

impl Material {
    /// Shininess and transparency as stored are non-negative, and
    /// transparency never exceeds full (`UNIT`).
    pub open spec fn wf(self) -> bool {
        0 <= self.shininess <= UNIT * UNIT && 0 <= self.transparency <= UNIT
    }

    pub fn new() -> (m: Material)
        ensures
            m == default_material(),
            m.diffuse.r_spec() == 0 && m.diffuse.g_spec() == 0 && m.diffuse.b_spec() == 0,
            m.ambient.r_spec() == 0 && m.ambient.g_spec() == 0 && m.ambient.b_spec() == 0,
            m.specular.r_spec() == 0 && m.specular.g_spec() == 0 && m.specular.b_spec() == 0,
            m.emissive.r_spec() == 0 && m.emissive.g_spec() == 0 && m.emissive.b_spec() == 0,
            m.wf(),
    {
        Material {
            diffuse: Color::new(),
            ambient: Color::new(),
            specular: Color::new(),
            emissive: Color::new(),
            shininess: 0,
            transparency: 0,
        }
    }

    pub fn init(diffuse: Color) -> (m: Material)
        ensures
            m == (Material { diffuse, ..default_material() }),
            m.specular.r_spec() == 0 && m.specular.g_spec() == 0 && m.specular.b_spec() == 0,
            m.shininess == 0,
            m.transparency == 0,
            m.wf(),
    {
        let mut material = Material::new();
        material.diffuse = diffuse;
        material
    }

    /// A material reflects light exactly when its specular colour is
    /// not black.
    pub fn is_reflective(&self) -> (r: bool)
        ensures
            r <==> !(self.specular.r_spec() == 0 && self.specular.g_spec() == 0
                && self.specular.b_spec() == 0),
    {
        self.specular.scalar() > 0
    }

    /// A material refracts light exactly when it is at all transparent.
    pub fn is_refractive(&self) -> (r: bool)
        ensures
            r <==> self.transparency > 0,
    {
        self.transparency > 0
    }
}

} // verus!
