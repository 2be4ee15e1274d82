use rstracer::vec3::Vec3;
use rstracer::ray::Ray;
use rstracer::sphere::Sphere;
use rstracer::poly::{Poly, Vertex};
use rstracer::bbox::BoundingBox;
use rstracer::shapes::ShapeIntersection;

fn v(x: f64, y: f64, z: f64) -> Vec3 {
    Vec3 {
        x: (x * 1e6).round() as i64,
        y: (y * 1e6).round() as i64,
        z: (z * 1e6).round() as i64,
    }
}

fn assert_approx_eq(a: f64, b: f64) {
    assert!((a - b).abs() < 1.0e-6, "{} is not approximately equal to {}", a, b);
}

#[test]
fn can_init_sphere() {
    let s = Sphere::new();
    assert_eq!(s.radius, 0);
}

#[test]
fn can_intersect_sphere() {
    let shp = Sphere::init(v(0.0, 0.0, -5.0), 1_000_000);
    let ray = Ray::init(v(0.0, 0.0, 0.0), v(0.0, 0.0, -1.0));
    let res = shp.intersects(&ray);

    match res {
        ShapeIntersection::Hit(point) => assert_eq!(point, 4_000_000),
        _ => panic!("Ray did not intersect sphere"),
    }
}

#[test]
fn can_init_vertex() {
    let vx = Vertex::new();
    assert_eq!(vx.mat_index, 0);
}

#[test]
fn can_init_polygon() {
    let p = Poly::new();
    assert_eq!(p.vertex_material, false);
}

#[test]
fn can_intersect_poly() {
    let sin_pi_4: f64 = 0.7071067812;
    let mut poly = Poly::init();
    poly.vertices[0].position = v(2.0, 0.0, -3.0);
    poly.vertices[1].position = v(-2.0, 0.0, -3.0);
    poly.vertices[2].position = v(0.0, 2.0, -1.0);
    let ray = Ray::init(v(0.0, sin_pi_4, 0.0), v(0.0, 0.0, -1.0));

    match poly.intersects(&ray) {
        ShapeIntersection::Hit(point) => assert_approx_eq((point as f64) / 1e6, 2.292893),
        _ => panic!("Ray should have intersected at {}", 2.292893),
    }
}

#[test]
fn can_create_boundingbox_from_sphere() {
    let s = Sphere::init(v(1.0, 1.0, 1.0), 2_000_000);
    let bbox = s.get_bbox();
    assert_eq!(v(-1.0, -1.0, -1.0), bbox.min);
    assert_eq!(v(3.0, 3.0, 3.0), bbox.max);
}

#[test]
fn can_intersect_bbox() {
    let s = Sphere::init(v(1.0, 1.0, 1.0), 2_000_000);
    let bbox = s.get_bbox();
    let ray = Ray::init(v(0.0, 0.0, -2.0), v(0.0, 0.0, -1.0));
    assert!(bbox.intersects(&ray));
}

#[test]
fn can_compare_bbox_based_on_centroid() {
    let b0 = BoundingBox::init(v(-1.0, 0.0, 0.0), v(0.0, 1.0, 1.0));
    let b1 = BoundingBox::init(v(0.0, 0.0, 0.0), v(0.0, 1.0, 1.0));
    assert!(b0.centroid().x < b1.centroid().x);
}
