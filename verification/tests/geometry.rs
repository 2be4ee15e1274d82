use rstracer::vec3::Vec3;
use rstracer::color::{Color, Material};
use rstracer::ray::Ray;
use rstracer::fixed::fx_from_bits;

fn v(x: f64, y: f64, z: f64) -> Vec3 {
    Vec3 {
        x: (x * 1e6).round() as i64,
        y: (y * 1e6).round() as i64,
        z: (z * 1e6).round() as i64,
    }
}

fn fx(x: f64) -> i64 {
    (x * 1e6).round() as i64
}

#[test]
fn vec3_can_be_addded() {
    let a = v(0.0, 1.0, 2.0);
    let b = v(0.0, 1.0, 2.0);
    let c = a.add(b);
    assert_eq!(c.x, fx(0.0));
    assert_eq!(c.y, fx(2.0));
    assert_eq!(c.z, fx(4.0));
}

#[test]
fn vec3_can_be_subtracted() {
    let a = v(0.0, 1.0, 2.0);
    let b = v(0.0, 1.0, 2.0);
    let c = a.sub(b);
    assert_eq!(c.x, 0);
    assert_eq!(c.y, 0);
    assert_eq!(c.z, 0);
}

#[test]
fn vec3_can_be_multiplied() {
    let a = v(0.0, 1.0, 2.0);
    let b = v(0.0, 1.0, 2.0);
    let c = a.mul(b);
    assert_eq!(c.x, fx(0.0));
    assert_eq!(c.y, fx(1.0));
    assert_eq!(c.z, fx(4.0));
}

#[test]
fn vec3_can_be_scaled() {
    let a = v(0.0, 1.0, 2.0);
    let c = a.mult(fx(2.0));
    assert_eq!(c.x, fx(0.0));
    assert_eq!(c.y, fx(2.0));
    assert_eq!(c.z, fx(4.0));
}

#[test]
fn vec3_can_be_equal() {
    let a = v(1.2, 2.2, 3.2);
    let b = v(1.2, 2.2, 3.2);
    assert_eq!(a.x, b.x);
    assert_eq!(a.y, b.y);
    assert_eq!(a.z, b.z);
}

#[test]
fn vec3_has_length() {
    let a = v(1.2, 2.2, 3.2);
    let x = (a.length() as f64) / 1e6;
    // the fixed-point length rounds down onto the lower bound itself
    assert!(x - 4.06448 >= 0.0);
    assert!(x - 4.06449 < 0.0);
}

#[test]
fn vec3_can_be_normalized() {
    let mut w = v(3.0, 4.0, 5.0);
    w.normalize();
    let x = (w.x as f64) / 1e6;
    assert!(x - 0.424264 > 0.0 || x == 0.424264);
    assert!(x - 0.424265 < 0.0);
}

#[test]
fn vec3_has_crossproduct() {
    let x = v(1.0, 2.0, 3.0);
    let y = v(3.0, 4.0, 5.0);
    let z = x.cross(y);
    assert_eq!(z.x, fx(-2.0));
    assert_eq!(z.y, fx(4.0));
    assert_eq!(z.z, fx(-2.0));
}

#[test]
fn vec3_has_components() {
    let x = v(1.0, 2.0, 3.0);
    assert_eq!(x.x, fx(1.0));
    assert_eq!(x.y, fx(2.0));
    assert_eq!(x.z, fx(3.0));
}

#[test]
fn color_is_0() {
    let c = Color::new();
    assert!(c.r_val() == 0);
    assert!(c.g_val() == 0);
    assert!(c.b_val() == 0);
}

#[test]
fn color_is_between_0_and_1() {
    let mut c = Color::new();
    c.r(fx(2.0));
    c.g(fx(0.5));
    c.b(fx(-1.0));
    assert!(c.r_val() == fx(1.0));
    assert!(c.g_val() == fx(0.5));
    assert!(c.b_val() == 0);
}

#[test]
fn material_is_reflective() {
    let mut mat = Material::new();
    let mut s = mat.specular;
    s.r(fx(0.5));
    mat.specular = s;
    assert!(mat.is_reflective());
}

#[test]
fn material_is_refractive() {
    let mut mat = Material::new();
    mat.transparency = fx(0.5);
    assert!(mat.is_refractive());
}

#[test]
fn can_init_ray() {
    let r = Ray::init(v(0.0, 1.0, 2.0), v(2.0, 1.0, 0.0));
    assert_eq!(r.ori.z, fx(2.0));
    assert_eq!(r.dir.z, fx(0.0));
    assert!(r.in_vacuum());
}

#[test]
fn bits_decode_to_fixed_point() {
    assert_eq!(fx_from_bits(1.0f64.to_bits()), 1_000_000);
    assert_eq!(fx_from_bits(0.5f64.to_bits()), 500_000);
    assert_eq!(fx_from_bits((-2.25f64).to_bits()), -2_250_000);
    assert_eq!(fx_from_bits(0.0f64.to_bits()), 0);
    assert_eq!(fx_from_bits(1e20f64.to_bits()), 1_000_000_000);
    assert_eq!(fx_from_bits((-1e20f64).to_bits()), -1_000_000_000);
    assert_eq!(fx_from_bits(f64::NAN.to_bits()), 0);
    assert_eq!(fx_from_bits(f64::INFINITY.to_bits()), 1_000_000_000);
    assert_eq!(fx_from_bits(1e-12f64.to_bits()), 0);
    assert_eq!(fx_from_bits(0.640000f64.to_bits()), 640_000);
}
