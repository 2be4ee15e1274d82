use wavefront_obj::{mtl, obj};

const OBJ_FILE: &str = r#"
# Blender v2.71 (sub 0) OBJ File: 'cube.blend'
# www.blender.org
mtllib cube.mtl
o Cube
v 1.000000 -1.000000 -1.000000
v 1.000000 -1.000000 1.000000
v -1.000000 -1.000000 1.000000
v -1.000000 -1.000000 -1.000000
v 1.000000 1.000000 -0.999999
v 0.999999 1.000000 1.000001
v -1.000000 1.000000 1.000000
v -1.000000 1.000000 -1.000000
vt 1.004952 0.498633
vt 0.754996 0.498236
vt 0.755393 0.248279
vt 1.005349 0.248677
vt 0.255083 0.497442
vt 0.255480 0.247485
vt 0.505437 0.247882
vt 0.505039 0.497839
vt 0.754598 0.748193
vt 0.504642 0.747795
vt 0.505834 -0.002074
vt 0.755790 -0.001677
vt 0.005127 0.497044
vt 0.005524 0.247088
usemtl Material
s off
f 1/1 2/2 3/3 4/4
f 5/5 8/6 7/7 6/8
f 1/9 5/10 6/8 2/2
f 2/2 6/8 7/7 3/3
f 3/3 7/7 8/11 4/12
f 5/5 1/13 4/14 8/6
"#;

const MTL_FILE: &str = r#"
# Blender MTL File: 'None'
# Material Count: 2

# name
newmtl Material
# Phong specular coefficient
Ns 96.078431
# ambient color (weighted)
Ka 0.000000 0.000000 0.000000
# diffuse color (weighted)
Kd 0.640000 0.640000 0.640000
# dissolve factor (weighted)
Ks 0.500000 0.500000 0.500000
# optical density (refraction)
Ni 1.000000
# alpha
d 1.000000
# illumination: 0=ambient, 1=ambient+diffuse, 2=ambient+diffuse+specular
illum 2

newmtl None
Ns 0
# ambient
Ka 0.000000 0.000000 0.000000
# diffuse
Kd 0.8 0.8 0.8
# specular
Ks 0.8 0.8 0.8
d 1
illum 2

"#;

const SCENE_FILE: &str = "Composer format 2.1 ascii
camera {
  position 0 0 0
  viewDirection 0 0 -1
  focalDistance 12
  orthoUp 0 1 0
  verticalFOV 1.5707963
}
point_light {
  position 0 4 0
  color 1 1 1
}
";

#[test]
fn test_parse_returns_error() {
    let e = obj::parse(String::from("no_obj"));

    match e {
        Ok(_) => panic!("There should be no file with name no_obj"),
        Err(_) => (),
    }
}

#[test]
fn test_parse_obj_scene() {
    let obj = obj::parse(OBJ_FILE.to_owned());
    match obj {
        Ok(obj) => {
            assert_eq!(obj.material_library.as_deref(), Some("cube.mtl"));
            assert_eq!(obj.objects.len(), 1);
        },
        Err(e) => panic!("{}", e),
    }

    let mtl = mtl::parse(MTL_FILE.to_owned());
    match mtl {
        Ok(mtl) => assert_eq!(mtl.materials.len(), 2),
        Err(e) => panic!("{}", e),
    }
}

#[test]
fn parse_mtl_file() {
    let mtl = rstracer::from_obj::parse_mtl(MTL_FILE).expect("material library should parse");
    assert_eq!(mtl.materials.len(), 2)
}

#[test]
fn parse_obj_file() {
    let obj = rstracer::from_obj::parse_obj(OBJ_FILE).expect("wavefront file should parse");
    assert_eq!(obj.material_library.as_deref(), Some("cube.mtl"));
    assert_eq!(obj.objects.len(), 1)
}

#[test]
fn parse_and_convert_mtl() {
}

#[test]
fn imported_scene_is_built() {
    let scene = rstracer::from_obj::parse_obj_scene(SCENE_FILE, OBJ_FILE, MTL_FILE)
        .expect("the imported scene should build");
    assert_eq!(scene.lights.len(), 1);
    // the cube's twelve triangles end up in the hierarchy
    match &scene.tree.root {
        rstracer::bvh::Node::Empty => panic!("the hierarchy should hold the cube"),
        _ => (),
    }
    // coordinates decoded from the wavefront doubles: a corner vertex
    let b = (1.0f64).to_bits();
    assert_eq!(rstracer::fixed::fx_from_bits(b), 1_000_000);
}

#[test]
fn unknown_material_is_reported() {
    let bad_mtl = "newmtl Other\nNs 0\nKa 0 0 0\nKd 0.8 0.8 0.8\nKs 0 0 0\nd 1\nillum 2\n";
    assert!(rstracer::from_obj::parse_obj_scene(SCENE_FILE, OBJ_FILE, bad_mtl).is_none());
}

#[test]
fn oversized_negative_indices_are_rejected() {
    // an index token near the machine minimum would overflow the
    // wavefront parser's face-index arithmetic; the guarded parser
    // turns such a file away instead
    let bad = "v 0 0 0\nv 1 0 0\nv 0 1 0\nf -9223372036854775808 2 3\n";
    assert!(rstracer::from_obj::parse_obj(bad).is_none());
    // an ordinary file is untouched by the guard
    let ok = "v 0 0 0\nv 1 0 0\nv 0 1 0\nf 1 2 3\n";
    assert!(rstracer::from_obj::parse_obj(ok).is_some());
}
