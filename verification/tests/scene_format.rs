use rstracer::parser::SceneParser;
use rstracer::scene::Light;

const LIGHT_TEXT: &str = "\
point_light {
  position -1 0 2
  color 1 0 0.5
}
area_light {
  position 0 0 0
  position 200 10 10
  color 0 1 1
}
directional_light {
  direction 0.5 -1 0
  color 0.5 0.5 0.5
}
";

fn material_text(diff: &str) -> String {
    format!(
        "material {{
  diffColor {}
  ambColor 0.2 0.2 0.2
  specColor 0 0 0
  emisColor 0 0 0
  shininess 0.2
  ktran 0.5
}}
",
        diff
    )
}

fn plain_poly_text(x0: &str, x1: &str, x2: &str) -> String {
    format!(
        "poly {{
  numVertices 3
  pos {} 0 0
  pos {} 1 0
  pos {} 0 0
}}
",
        x0, x1, x2
    )
}

fn polyset_text() -> String {
    let mut t = String::from(
        "poly_set {
  name a
  numMaterials 1
",
    );
    t.push_str(&material_text("0.56 0.5 0.4"));
    t.push_str(
        "  type POLYSET_TRI_MESH
  normType PER_FACE_NORMAL
  materialBinding PER_OBJECT
  hasTextureCoords FALSE
  rowSize 0
  numPolys 12
",
    );
    for _ in 0..12 {
        t.push_str(&plain_poly_text("0", "0.5", "10"));
    }
    t.push_str("}\n");
    t
}

fn per_vertex_vertex(px: i32, n: i32, mi: u32) -> String {
    format!(
        "  pos {} 0 0
  norm 0 {} 1
  materialIndex {}
",
        px, n, mi
    )
}

fn per_vertex_polyset_text() -> String {
    let mut t = String::from(
        "poly_set {
  name a
  numMaterials 6
",
    );
    t.push_str(&material_text("0 0 0"));
    t.push_str(&material_text("0 0 1"));
    t.push_str(&material_text("0 1 0"));
    t.push_str(&material_text("0 1 1"));
    t.push_str(&material_text("1 0 0"));
    t.push_str(&material_text("1 0 1"));
    t.push_str(
        "  type POLYSET_TRI_MESH
  normType PER_VERTEX_NORMAL
  materialBinding PER_VERTEX_MATERIAL
  hasTextureCoords FALSE
  rowSize 0
  numPolys 3
",
    );
    // polygon one: materials 0 1 2
    t.push_str("poly {\n  numVertices 3\n");
    t.push_str(&per_vertex_vertex(1, 1, 0));
    t.push_str(&per_vertex_vertex(2, 2, 1));
    t.push_str(&per_vertex_vertex(3, 3, 2));
    t.push_str("}\n");
    // polygon two: materials 3 3 4
    t.push_str("poly {\n  numVertices 3\n");
    t.push_str(&per_vertex_vertex(4, 4, 3));
    t.push_str(&per_vertex_vertex(5, 5, 3));
    t.push_str(&per_vertex_vertex(6, 6, 4));
    t.push_str("}\n");
    // polygon three: materials 5 4 5
    t.push_str("poly {\n  numVertices 3\n");
    t.push_str(&per_vertex_vertex(7, 7, 5));
    t.push_str(&per_vertex_vertex(8, 8, 4));
    t.push_str(&per_vertex_vertex(9, 9, 5));
    t.push_str("}\n");
    t.push_str("}\n");
    t
}

fn sphere_text() -> String {
    let mut t = String::from(
        "sphere {
  name s
  numMaterials 1
",
    );
    t.push_str(&material_text("0.56 0.5 0.4"));
    t.push_str(
        "  origin 1 -0.5 2
  radius 1.5
  xaxis 1 0 0
  xlength 1
  yaxis 0 1 0
  ylength 1
  zaxis 0 0 1
  zlength 1
}
",
    );
    t
}

fn camera_text() -> &'static str {
    "camera {
  position 1 0 0
  viewDirection -1 0 0
  focalDistance 12
  orthoUp 2 0 0
  verticalFOV 0.5
}
"
}

fn scene_parser(text: &str) -> SceneParser {
    SceneParser::new(text.as_bytes().to_vec())
}

#[test]
fn can_parse_tokens() {
    let mut parser = scene_parser(LIGHT_TEXT);

    let fst = parser.next_token();
    assert_eq!(b"point_light".to_vec(), fst);

    let snd = parser.next_token();
    assert_eq!(b"{".to_vec(), snd);

    let thrd = parser.next_token();
    assert_eq!(b"position".to_vec(), thrd);

    let frth = parser.next_token();
    assert_eq!(b"-1".to_vec(), frth);

    let mut tkn = Vec::new();
    while parser.has_next_token() {
        let t = parser.next_token();
        if !t.is_empty() {
            tkn = t;
        }
    }
    assert_eq!(b"}".to_vec(), tkn);
}

#[test]
fn can_peak_at_next_token() {
    let mut parser = scene_parser(LIGHT_TEXT);

    let tkn = parser.next_token();
    assert_eq!(b"point_light".to_vec(), tkn);

    let tkn = parser.peak();
    assert_eq!(b"{".to_vec(), tkn);

    let tkn = parser.peak();
    assert_eq!(b"{".to_vec(), tkn);

    let tkn = parser.next_token();
    assert_eq!(b"{".to_vec(), tkn);

    let tkn = parser.next_token();
    assert_eq!(b"position".to_vec(), tkn);
}

#[test]
fn can_parse_f32() {
    let mut parser = scene_parser("1.5 -0.5");
    let fst = parser.next_num().unwrap();
    assert_eq!(1_500_000, fst);

    let snd = parser.next_num().unwrap();
    assert_eq!(-500_000, snd);
}

#[test]
fn number_grammar_is_enforced() {
    assert!(rstracer::parser::parse_fixed(&b"12.25".to_vec()).unwrap() == 12_250_000);
    assert!(rstracer::parser::parse_fixed(&b"+3".to_vec()).unwrap() == 3_000_000);
    assert!(rstracer::parser::parse_fixed(&b".5".to_vec()).unwrap() == 500_000);
    assert!(rstracer::parser::parse_fixed(&b"0.1234567".to_vec()).unwrap() == 123_456);
    assert!(rstracer::parser::parse_fixed(&b"abc".to_vec()).is_err());
    assert!(rstracer::parser::parse_fixed(&b"".to_vec()).is_err());
    assert!(rstracer::parser::parse_fixed(&b"1.2.3".to_vec()).is_err());
    assert!(rstracer::parser::parse_fixed(&b"-".to_vec()).is_err());
}

#[test]
fn can_parse_position() {
    let mut parser = scene_parser("position -1 0 2");
    let pos = parser.parse_vec3("position".as_bytes(), 1_000_000_000).unwrap();
    assert_eq!(-1_000_000, pos.x);
    assert_eq!(0, pos.y);
    assert_eq!(2_000_000, pos.z);
}

#[test]
fn can_parse_color() {
    let mut parser = scene_parser("color 1 0 0.5");
    let color = parser.parse_color("color".as_bytes()).unwrap();
    assert_eq!(1_000_000, color.r_val());
    assert_eq!(0, color.g_val());
    assert_eq!(500_000, color.b_val());
}

#[test]
fn can_parse_light() {
    let mut parser = scene_parser(LIGHT_TEXT);

    match parser.parse_light().unwrap() {
        Light::Point(p_light) => {
            assert_eq!(p_light.pos.x, -1_000_000);
            assert_eq!(p_light.intensity.r_val(), 1_000_000);
        },
        _ => panic!("first light should be a point light"),
    }

    match parser.parse_light().unwrap() {
        Light::Area(a_light) => {
            assert_eq!(a_light.min.x, 0);
            assert_eq!(a_light.max.x, 200_000_000);
            assert_eq!(a_light.intensity.r_val(), 0);
        },
        _ => panic!("second light should be an area light"),
    }

    match parser.parse_light().unwrap() {
        Light::Directional(d_light) => {
            assert_eq!(d_light.dir.x, 500_000);
            assert_eq!(d_light.intensity.r_val(), 500_000);
        },
        _ => panic!("third light should be a directional light"),
    }
}

#[test]
fn can_parse_material() {
    let mut parser = scene_parser(&material_text("0.56 0.5 0.4"));
    let material = parser.parse_material().unwrap();
    assert_eq!(material.diffuse.r_val(), 560_000);
    assert_eq!(material.ambient.r_val(), 200_000);
    assert_eq!(material.shininess, 200_000);
    assert_eq!(material.transparency, 500_000);
}

#[test]
fn can_parse_sphere() {
    let mut parser = scene_parser(&sphere_text());
    let sphere = parser.parse_sphere().unwrap();
    assert_eq!(sphere.materials.len(), 1);
    assert_eq!(sphere.origin.y, -500_000);
    assert_eq!(sphere.radius, 1_500_000);
}

#[test]
fn can_parse_poly() {
    let mut parser = scene_parser(&plain_poly_text("0", "0.5", "10"));
    let poly = parser.parse_poly(false, false).unwrap();
    assert_eq!(poly.vertices[0].position.x, 0);
    assert_eq!(poly.vertices[1].position.x, 500_000);
    assert_eq!(poly.vertices[2].position.x, 10_000_000);
}

#[test]
fn can_parse_polyset() {
    let mut parser = scene_parser(&polyset_text());
    let polyset = parser.parse_polyset().unwrap();
    assert_eq!(polyset.len(), 12);

    let poly0 = &polyset[0];
    assert_eq!(poly0.vertex_material, false);
    assert_eq!(poly0.vertex_normal, false);
    assert_eq!(poly0.materials.len(), 1);
}

#[test]
fn can_parse_per_vertex_polyset() {
    let mut parser = scene_parser(&per_vertex_polyset_text());
    let polyset = parser.parse_polyset().unwrap();
    assert_eq!(polyset.len(), 3);

    let c = |r: i64, g: i64, b: i64| rstracer::color::Color::init(r, g, b);

    let poly0 = &polyset[0];
    assert_eq!(poly0.vertex_material, true);
    assert_eq!(poly0.vertex_normal, true);
    assert_eq!(poly0.materials.len(), 3);
    assert_eq!(poly0.materials[0].diffuse, c(0, 0, 0));
    assert_eq!(poly0.vertices[0].mat_index, 0);
    assert_eq!(poly0.materials[1].diffuse, c(0, 0, 1_000_000));
    assert_eq!(poly0.vertices[1].mat_index, 1);
    assert_eq!(poly0.materials[2].diffuse, c(0, 1_000_000, 0));
    assert_eq!(poly0.vertices[2].mat_index, 2);

    let poly1 = &polyset[1];
    assert_eq!(poly1.vertex_material, true);
    assert_eq!(poly1.vertex_normal, true);
    assert_eq!(poly1.materials.len(), 2);
    assert_eq!(poly1.materials[0].diffuse, c(0, 1_000_000, 1_000_000));
    assert_eq!(poly1.vertices[0].mat_index, 0);
    assert_eq!(poly1.vertices[1].mat_index, 0);
    assert_eq!(poly1.materials[1].diffuse, c(1_000_000, 0, 0));
    assert_eq!(poly1.vertices[2].mat_index, 1);

    let poly2 = &polyset[2];
    assert_eq!(poly2.vertex_material, true);
    assert_eq!(poly2.vertex_normal, true);
    assert_eq!(poly2.materials.len(), 2);
    assert_eq!(poly2.materials[0].diffuse, c(1_000_000, 0, 1_000_000));
    assert_eq!(poly2.vertices[0].mat_index, 0);
    assert_eq!(poly2.materials[1].diffuse, c(1_000_000, 0, 0));
    assert_eq!(poly2.vertices[1].mat_index, 1);
    assert_eq!(poly2.vertices[2].mat_index, 0);
}

#[test]
fn can_parse_camera() {
    let mut parser = scene_parser(camera_text());
    let camera = parser.parse_camera().unwrap();
    assert_eq!(camera.pos.x, 1_000_000);
    assert_eq!(camera.view_dir.x, -1_000_000);
    assert_eq!(camera.focal_dist, 12_000_000);
    assert_eq!(camera.ortho_up.x, 2_000_000);
    assert_eq!(camera.vertical_fov, 500_000);
}

#[test]
fn can_parse_scene() {
    let mut text = String::from("Composer format 2.1 ascii\n");
    text.push_str(camera_text());
    text.push_str(&sphere_text());
    text.push_str(&polyset_text());
    text.push_str(LIGHT_TEXT);

    let mut parser = scene_parser(&text);
    let scene = parser.parse_scene().unwrap();
    assert_eq!(scene.lights.len(), 3);
    assert_eq!(scene.primitives.len(), 13);
}

#[test]
fn malformed_scene_is_rejected() {
    let mut parser = scene_parser("Composer format 2.1 ascii\nwhatever { }");
    assert!(parser.parse_scene().is_err());

    let mut parser = scene_parser("not_a_header");
    assert!(parser.parse_scene().is_err());

    let mut parser = scene_parser("camera { position 1 0");
    assert!(parser.parse_camera().is_err());
}

#[test]
fn can_parse_mesh() {
    let mut parser = scene_parser(&per_vertex_polyset_text());
    let mesh = parser.parse_mesh().unwrap();
    assert_eq!(mesh.vertices.len(), 9);
    assert_eq!(mesh.normals.len(), 9);
    assert_eq!(mesh.materials.len(), 6);
    assert_eq!(mesh.polys.len(), 3);

    let poly0 = mesh.poly(0);
    match poly0.x.normal {
        Some(n) => assert_eq!(n, mesh.normals[0]),
        None => panic!("Should have normal"),
    }
    assert_eq!(poly0.x.material, mesh.materials[0]);
    match poly0.y.normal {
        Some(n) => assert_eq!(n, mesh.normals[1]),
        None => panic!("Should have normal"),
    }
    assert_eq!(poly0.y.material, mesh.materials[1]);
    match poly0.z.normal {
        Some(n) => assert_eq!(n, mesh.normals[2]),
        None => panic!("Should have normal"),
    }
    assert_eq!(poly0.z.material, mesh.materials[2]);

    let poly1 = mesh.poly(1);
    assert_eq!(poly1.x.material, mesh.materials[3]);
    assert_eq!(poly1.y.material, mesh.materials[3]);
    assert_eq!(poly1.z.material, mesh.materials[4]);

    let poly2 = mesh.poly(2);
    match poly2.x.normal {
        Some(n) => assert_eq!(n, mesh.normals[6]),
        None => panic!("Should have normal"),
    }
    assert_eq!(poly2.x.material, mesh.materials[5]);
    match poly2.y.normal {
        Some(n) => assert_eq!(n, mesh.normals[7]),
        None => panic!("Should have normal"),
    }
    assert_eq!(poly2.y.material, mesh.materials[4]);
    match poly2.z.normal {
        Some(n) => assert_eq!(n, mesh.normals[8]),
        None => panic!("Should have normal"),
    }
    assert_eq!(poly2.z.material, mesh.materials[5]);
}
