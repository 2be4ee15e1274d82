use rstracer::vec3::Vec3;
use rstracer::ray::Ray;
use rstracer::sphere::Sphere;
use rstracer::shapes::{Primitive, ShapeIntersection};
use rstracer::bvh;
use rstracer::bbox::BoundingBox;
use rstracer::scene::{IntersectableScene, Scene, SceneIntersection};
use rstracer::color::{Color, Material};
use rstracer::mesh::Mesh;

fn v(x: f64, y: f64, z: f64) -> Vec3 {
    Vec3 {
        x: (x * 1e6).round() as i64,
        y: (y * 1e6).round() as i64,
        z: (z * 1e6).round() as i64,
    }
}

fn create_shape(pos: Vec3) -> Primitive {
    let sphere = Sphere::init(pos, 1_000_000);
    Primitive::Sphere(sphere)
}

fn sphere_origin(p: &Primitive) -> Vec3 {
    match p {
        Primitive::Sphere(s) => s.origin,
        _ => panic!("Primitive is not a sphere"),
    }
}

#[test]
fn can_init_tree_of_size_1() {
    let shapes = vec![create_shape(v(0.0, 0.0, -5.0))];
    let mut tree = bvh::Tree::new();
    tree.init(shapes);

    match tree.root {
        bvh::Node::Leaf(n) => assert_eq!(n.bbox.centroid(), v(0.0, 0.0, -5.0)),
        _ => panic!("Tree should have one Leaf-node"),
    }
}

#[test]
fn can_intersect_tree_of_size_1() {
    let shapes = vec![create_shape(v(0.0, 0.0, -5.0))];
    let mut tree = bvh::Tree::new();
    tree.init(shapes);

    let intersection = tree.intersects(&Ray::init(v(0.0, 0.0, 0.0), v(0.0, 0.0, -1.0)));

    match intersection {
        bvh::NodeIntersection::Hit(_, p) => assert_eq!(p, 4_000_000),
        _ => panic!("Should have intersected with tree"),
    }
}

#[test]
fn can_build_tree_of_size_4() {
    let shapes = vec![
        create_shape(v(0.0, 0.0, 0.0)),
        create_shape(v(-1.0, 2.0, 1.0)),
        create_shape(v(-2.0, -2.0, 2.0)),
        create_shape(v(2.0, 2.0, -1.0)),
    ];

    let mut tree = bvh::Tree::new();
    tree.init(shapes);

    let root = match &tree.root {
        bvh::Node::Member(node) => node,
        _ => panic!("Node should be a member"),
    };
    assert_eq!(BoundingBox::init(v(-3.0, -3.0, -2.0), v(3.0, 3.0, 3.0)), root.bbox);

    let left = match &root.left {
        bvh::Node::Member(node) => node,
        _ => panic!("Node should be a member"),
    };
    assert_eq!(BoundingBox::init(v(-3.0, -3.0, 0.0), v(0.0, 3.0, 3.0)), left.bbox);

    let right = match &root.right {
        bvh::Node::Member(node) => node,
        _ => panic!("Node should be a member"),
    };
    assert_eq!(BoundingBox::init(v(-1.0, -1.0, -2.0), v(3.0, 3.0, 1.0)), right.bbox);

    let assert_leafnode = |node: &bvh::Node, pos: Vec3| match node {
        bvh::Node::Leaf(n) => match &n.shape {
            Some(prim) => assert_eq!(sphere_origin(prim), pos),
            None => panic!("Leaf should hold a primitive"),
        },
        _ => panic!("Node should be a Leaf"),
    };

    assert_leafnode(&left.left, v(-2.0, -2.0, 2.0));
    assert_leafnode(&left.right, v(-1.0, 2.0, 1.0));
    assert_leafnode(&right.left, v(0.0, 0.0, 0.0));
    assert_leafnode(&right.right, v(2.0, 2.0, -1.0));
}

#[test]
fn can_intersect_tree_of_size_4() {
    let shapes = vec![
        create_shape(v(0.0, 0.0, 0.0)),
        create_shape(v(-1.0, 2.0, 1.0)),
        create_shape(v(-2.0, -2.0, 2.0)),
        create_shape(v(2.0, 2.0, -1.0)),
    ];

    let mut tree = bvh::Tree::new();
    tree.init(shapes);

    let intersect_tree = |ray: Ray, pos: Vec3| match tree.intersects(&ray) {
        bvh::NodeIntersection::Hit(node, _) => {
            assert_eq!(sphere_origin(node.get_shape()), pos);
        },
        _ => panic!("Ray should have intersected tree"),
    };

    intersect_tree(
        Ray::init(v(2.0, 2.0, 2.0), v(0.0, 0.0, -1.0)),
        v(2.0, 2.0, -1.0),
    );
    intersect_tree(
        Ray::init(v(-1.0, -1.0, 1.0), v(-1.0, -1.0, 1.0)),
        v(-2.0, -2.0, 2.0),
    );
    let intersection = tree.intersects(&Ray::init(v(-1.0, -1.0, 1.0), v(0.0, 0.0, 1.0)));
    assert!(matches!(intersection, bvh::NodeIntersection::Missed));
}

fn create_scene() -> Scene {
    let mut sphere = Sphere::init(v(0.0, 0.0, -5.0), 1_000_000);
    sphere.materials[0] = Material::init(Color::init(1_000_000, 0, 0));
    let mut scene = Scene::new();
    scene.primitives.push(Primitive::Sphere(sphere));
    scene
}

#[test]
fn can_init_scene() {
    let scene = Scene::new();
    assert!(scene.lights.len() == 0);
    assert!(scene.primitives.len() == 0);
}

#[test]
fn can_intersect_scene() {
    let scene = create_scene();

    match scene.intersects(&Ray::init(v(0.0, 0.0, 0.0), v(0.0, 0.0, -1.0))) {
        SceneIntersection::Intersected(intersection) => {
            let color = intersection.color();
            assert_eq!(Color::init(1_000_000, 0, 0), color)
        },
        _ => panic!("Ray did not intersect scene"),
    }
}

#[test]
fn linear_and_tree_agree_on_nearest_hit() {
    let shapes = vec![
        create_shape(v(0.0, 0.0, -3.0)),
        create_shape(v(0.0, 0.0, -7.0)),
        create_shape(v(3.0, 0.0, -5.0)),
        create_shape(v(-3.0, 1.0, -4.0)),
    ];
    let mut scene = Scene::new();
    for s in &shapes {
        scene.primitives.push(create_shape(sphere_origin(s)));
    }
    let mut tree = bvh::Tree::new();
    tree.init(shapes);

    let rays = vec![
        Ray::init(v(0.0, 0.0, 0.0), v(0.0, 0.0, -1.0)),
        Ray::init(v(0.25, 0.5, 0.0), v(0.0, 0.0, -1.0)),
        Ray::init(v(3.0, 0.0, 0.0), v(0.0, 0.0, -1.0)),
        Ray::init(v(0.0, 0.0, 0.0), v(0.0, 1.0, 0.0)),
    ];
    for ray in rays {
        let linear = match scene.intersects(&ray) {
            SceneIntersection::Intersected(it) => Some(it.dist),
            SceneIntersection::Missed => None,
        };
        let accel = match tree.intersects(&ray) {
            bvh::NodeIntersection::Hit(_, t) => Some(t),
            bvh::NodeIntersection::Missed => None,
        };
        assert_eq!(linear, accel);
    }
}

fn create_mesh() -> Mesh {
    let vertices = vec![
        v(0.0, 0.0, 0.0),
        v(2.0, 0.0, 0.0),
        v(0.0, 2.0, 0.0),
        v(0.0, 0.0, -2.0),
        v(4.0, 0.0, -2.0),
        v(0.0, 4.0, -2.0),
        v(0.0, 0.0, -1.0),
        v(2.0, 0.0, -1.0),
        v(0.0, 2.0, -1.0),
        v(0.0, 0.0, -3.0),
        v(6.0, 0.0, -3.0),
        v(0.0, 6.0, -3.0),
    ];
    let polys = vec![
        ((0, None, None), (1, None, None), (2, None, None)),
        ((3, None, None), (4, None, None), (5, None, None)),
        ((6, None, None), (7, None, None), (8, None, None)),
        ((9, None, None), (10, None, None), (11, None, None)),
    ];
    Mesh::from_data(vertices, Vec::new(), vec![Material::new()], polys)
}

#[test]
fn create_poly_from_polymesh() {
    let mesh = create_mesh();
    let p = mesh.poly(0);

    assert_eq!(mesh.vertices[0], p.x.position);
    assert_eq!(mesh.vertices[1], p.y.position);
    assert_eq!(mesh.vertices[2], p.z.position);
}

#[test]
fn can_intersect_polymesh() {
    let mesh = create_mesh();

    let ray = Ray::init(v(-1.5, 1.0, 1.0), v(1.0, 0.0, -1.0));
    match mesh.intersects(&ray) {
        (ShapeIntersection::Hit(pt), i) => {
            assert_eq!(pt, 2_000_000);
            assert_eq!(i, 2);
        },
        (ShapeIntersection::Missed, _) => panic!("Missed mesh"),
    }
}

#[test]
fn area_light_samples_stay_in_extent() {
    let light = rstracer::scene::AreaLight {
        min: v(-1.0, 2.0, -3.0),
        max: v(1.0, 4.0, -2.0),
        intensity: Color::init(1_000_000, 1_000_000, 1_000_000),
    };
    for _ in 0..50 {
        let p = light.sample_point();
        assert!(light.min.x <= p.x && p.x <= light.max.x);
        assert!(light.min.y <= p.y && p.y <= light.max.y);
        assert!(light.min.z <= p.z && p.z <= light.max.z);
    }
}
