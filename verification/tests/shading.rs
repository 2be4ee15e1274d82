use rstracer::vec3::Vec3;
use rstracer::ray::Ray;
use rstracer::sphere::Sphere;
use rstracer::shapes::Primitive;
use rstracer::scene::{Scene, Light, PointLight, Camera};
use rstracer::color::{Color, Material};
use rstracer::intersection::Intersection;
use rstracer::tracer::{RayTracer, opaque_shadow_value, calculate_fattj_value};

fn v(x: f64, y: f64, z: f64) -> Vec3 {
    Vec3 {
        x: (x * 1e6).round() as i64,
        y: (y * 1e6).round() as i64,
        z: (z * 1e6).round() as i64,
    }
}

fn assert_approx_eq(a: f64, b: f64) {
    assert!((a - b).abs() < 1.0e-6, "{} is not approximately equal to {}", a, b);
}

fn get_raytraer() -> RayTracer<Scene> {
    let mut scene = Scene::new();
    scene.camera = Camera::new();
    scene.camera.view_dir = v(0.0, 0.0, -1.0);
    scene.camera.ortho_up = v(0.0, 1.0, 0.0);
    let pi = std::f32::consts::PI;
    scene.camera.vertical_fov = (((pi / 2.0) as f64) * 1e6).round() as i64;
    let mut rt = RayTracer::init(2, 2, 2, 1);
    rt.set_scene(scene);
    rt
}

#[test]
fn can_init_raytracer() {
    let rt = get_raytraer();
    assert_eq!(rt.width, 2);
    assert_eq!(rt.height, 2);
    assert_eq!(rt.depth, 2);
}

#[test]
fn can_compute_ray() {
    let rt = get_raytraer();
    let r = rt.compute_ray(0, 0);

    assert_approx_eq(0.0, (r.ori.x as f64) / 1e6);
    assert_approx_eq(0.0, (r.ori.y as f64) / 1e6);
    assert_approx_eq(0.0, (r.ori.z as f64) / 1e6);

    assert_approx_eq(-0.57735, (r.dir.x as f64) / 1e6);
    assert_approx_eq(-0.57735, (r.dir.y as f64) / 1e6);
    assert_approx_eq(-0.57735, (r.dir.z as f64) / 1e6);
}

#[test]
fn shadow_flips_when_occluder_passes_the_light() {
    // an opaque occluder nearer than the light fully shadows it
    assert_eq!(opaque_shadow_value(2_000_000, 5_000_000, false), 0);
    // the same occluder moved beyond the light leaves the point lit
    assert_eq!(opaque_shadow_value(6_000_000, 5_000_000, false), 1_000_000);
    // a directional light is infinitely far: always shadowed
    assert_eq!(opaque_shadow_value(6_000_000, 5_000_000, true), 0);
}

#[test]
fn shadow_flip_is_visible_in_a_scene() {
    // a wall at z = -10 lit from z = -4; an opaque occluder sits on
    // the shadow path, first between wall and light, then beyond the
    // light
    let make_scene = |occluder_z: f64| {
        let mut wall = rstracer::poly::Poly::init();
        wall.vertices[0].position = v(-5.0, -5.0, -10.0);
        wall.vertices[1].position = v(5.0, -5.0, -10.0);
        wall.vertices[2].position = v(0.0, 5.0, -10.0);
        wall.materials[0] = Material::init(Color::init(1_000_000, 1_000_000, 1_000_000));
        let mut occ = Sphere::init(v(0.0, 0.0, occluder_z), 500_000);
        occ.materials[0] = Material::init(Color::init(1_000_000, 0, 0));
        let mut scene = Scene::new();
        scene.primitives.push(Primitive::Poly(wall));
        scene.primitives.push(Primitive::Sphere(occ));
        scene.lights.push(Light::Point(PointLight {
            pos: v(0.0, 0.0, -4.0),
            intensity: Color::init(1_000_000, 1_000_000, 1_000_000),
        }));
        scene
    };

    let shadow_at_wall = |scene: &Scene| {
        let ray = Ray::init(v(0.0, 0.0, -9.0), v(0.0, 0.0, -1.0));
        match rstracer::scene::IntersectableScene::intersects(scene, &ray) {
            rstracer::scene::SceneIntersection::Intersected(it) => {
                assert_eq!(it.dist, 1_000_000); // the wall is one unit away
                RayTracer::<Scene>::shadow_scalar(scene, &scene.lights[0], &it, 1, 4).r_val()
            },
            _ => panic!("ray should reach the wall"),
        }
    };

    // occluder between the wall and the light: fully shadowed
    let blocked = make_scene(-6.0);
    assert_eq!(shadow_at_wall(&blocked), 0);

    // occluder beyond the light: the hit lies farther than the light,
    // so the wall point counts as lit
    let open = make_scene(-2.0);
    assert_eq!(shadow_at_wall(&open), 1_000_000);
}

#[test]
fn total_internal_reflection_yields_no_ray() {
    let mut glass = Sphere::init(v(0.0, 0.0, 0.0), 1_000_000);
    let mut m = Material::new();
    m.transparency = 1_000_000;
    glass.materials[0] = m;
    let prim = Primitive::Sphere(glass);

    // a ray inside the glass, striking the boundary beyond the
    // critical angle (cosine of incidence 0.6, angle ~53 degrees)
    let ray = Ray::init(v(0.0, 0.8, 0.0), v(1.0, 0.0, 0.0)).switch_medium();
    assert!(!ray.in_vacuum());
    let it = Intersection::new(600_000, ray, &prim);
    assert!(it.refractive_ray().is_none());

    // the same geometry at a shallow angle refracts
    let ray2 = Ray::init(v(0.0, 0.0, 0.0), v(1.0, 0.0, 0.0)).switch_medium();
    let it2 = Intersection::new(1_000_000, ray2, &prim);
    let out = it2.refractive_ray().expect("a head-on ray crosses the boundary");
    assert!(out.in_vacuum());
}

#[test]
fn shading_at_depth_zero_is_black() {
    // a bright red sphere under a bright light still shades to black
    // when the recursion budget is zero
    let mut sphere = Sphere::init(v(0.0, 0.0, -5.0), 4_500_000);
    sphere.materials[0] = Material::init(Color::init(1_000_000, 0, 0));
    let mut scene = Scene::new();
    scene.primitives.push(Primitive::Sphere(sphere));
    scene.lights.push(Light::Point(PointLight {
        pos: v(0.0, 0.0, 0.0),
        intensity: Color::init(1_000_000, 1_000_000, 1_000_000),
    }));
    scene.camera.view_dir = v(0.0, 0.0, -1.0);
    scene.camera.ortho_up = v(0.0, 1.0, 0.0);
    scene.camera.vertical_fov = 1_570_796;

    let mut rt0: RayTracer<Scene> = RayTracer::init(2, 2, 0, 1);
    rt0.set_scene(scene);
    let img = rt0.trace_rays();
    assert_eq!(img.pixels.len(), 4);
    for p in &img.pixels {
        assert_eq!(*p, (0, 0, 0));
    }
}

#[test]
fn shading_with_depth_lights_the_sphere() {
    let mut sphere = Sphere::init(v(0.0, 0.0, -5.0), 4_500_000);
    sphere.materials[0] = Material::init(Color::init(1_000_000, 0, 0));
    let mut scene = Scene::new();
    scene.primitives.push(Primitive::Sphere(sphere));
    scene.lights.push(Light::Point(PointLight {
        pos: v(0.0, 0.0, 0.0),
        intensity: Color::init(1_000_000, 1_000_000, 1_000_000),
    }));
    scene.camera.view_dir = v(0.0, 0.0, -1.0);
    scene.camera.ortho_up = v(0.0, 1.0, 0.0);
    scene.camera.vertical_fov = 1_570_796;

    let mut rt: RayTracer<Scene> = RayTracer::init(2, 2, 2, 1);
    rt.set_scene(scene);
    let img = rt.trace_rays();
    assert_eq!(img.width, 2);
    assert_eq!(img.height, 2);
    assert!(img.pixels.iter().any(|p| p.0 > 0), "the lit sphere should show red");
    assert!(img.pixels.iter().all(|p| p.1 == 0 && p.2 == 0));
}

#[test]
fn attenuation_follows_the_formula() {
    // at distance zero: 1 / 0.25 caps at one
    assert_eq!(calculate_fattj_value(0), 1_000_000);
    // at distance ten: 1 / (0.25 + 1 + 1) = 0.444444..
    assert_eq!(calculate_fattj_value(10_000_000), 444_444);
    // far away the light fades
    assert!(calculate_fattj_value(1_000_000_000) < 10_000);
}
