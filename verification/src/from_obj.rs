//! Importing wavefront geometry.
//!
//! The outside crate parses `.obj` and `.mtl` text; its types are
//! declared opaque here, and thin trusted accessors hand their
//! contents over as plain values — coordinates as IEEE bit patterns,
//! triangles as index triples, materials as named channel patterns.
//! Everything after that handover is verified: bit patterns decode
//! through `fx_of_bits`, indices are checked against the pools, and
//! the resulting polygons and scene are well formed by construction.

use vstd::prelude::*;
use crate::color::{Color, Material, clamp_channel};
use crate::vec3::{Vec3, in_range, PMAX};
use crate::poly::{Poly, Vertex};
use crate::shapes::Primitive;
use crate::scene::BvhScene;
use crate::parser::{SceneParser, bytes_eq};
use crate::fixed::{fx_of_bits, fx_from_bits, UNIT};
use vstd::string::StringSliceAdditionalSpecFns;

verus! {

#[verifier::external_type_specification]
#[verifier::external_body]
pub struct ExObjSet(wavefront_obj::obj::ObjSet);

#[verifier::external_type_specification]
#[verifier::external_body]
pub struct ExObject(wavefront_obj::obj::Object);

#[verifier::external_type_specification]
#[verifier::external_body]
pub struct ExGeometry(wavefront_obj::obj::Geometry);

#[verifier::external_type_specification]
#[verifier::external_body]
pub struct ExMtlSet(wavefront_obj::mtl::MtlSet);

/// One corner reference of a wavefront shape: vertex index, optional
/// texture index, optional normal index.
pub type VtIndex = (usize, Option<usize>, Option<usize>);

/// The vertex pool of a parsed object, each coordinate as the IEEE
/// bit pattern of the stored double.
pub uninterp spec fn object_vertices_model(o: wavefront_obj::obj::Object) -> Seq<(u64, u64, u64)>;

/// The normal pool of a parsed object, as bit patterns.
pub uninterp spec fn object_normals_model(o: wavefront_obj::obj::Object) -> Seq<(u64, u64, u64)>;

/// The material name a geometry group refers to.
pub uninterp spec fn geometry_material_model(g: wavefront_obj::obj::Geometry) -> Option<Seq<char>>;

/// The shapes of a geometry group: a corner triple for each triangle,
/// nothing for points and lines.
pub uninterp spec fn geometry_triangles_model(g: wavefront_obj::obj::Geometry) -> Seq<
    Option<(VtIndex, VtIndex, VtIndex)>,
>;

/// The materials of a parsed material library: name, ambient,
/// diffuse and specular colours as bit-pattern triples, then the
/// specular coefficient and alpha as bit patterns.
pub uninterp spec fn mtlset_model(m: wavefront_obj::mtl::MtlSet) -> Seq<
    (Seq<char>, (u64, u64, u64), (u64, u64, u64), (u64, u64, u64), u64, u64),
>;

/// A minus sign followed by ten consecutive digits starts at `i`.
pub open spec fn huge_negative_at(s: Seq<u8>, i: int) -> bool {
    &&& 0 <= i
    &&& i + 10 < s.len()
    &&& s[i] == 45
    &&& forall|j: int| i < j <= i + 10 ==> 48 <= #[trigger] s[j] <= 57
}

/// Whether the ten bytes after `i` are all decimal digits.
fn ten_digits_after(bytes: &[u8], i: usize) -> (r: bool)
    requires
        i < bytes@.len(),
        bytes@.len() - i >= 11,
    ensures
        r == (forall|j: int| i < j <= i + 10 ==> 48 <= #[trigger] bytes@[j] <= 57),
{
    let n = bytes.len();
    let mut j: usize = 1;
    while j <= 10
        invariant
            1 <= j <= 11,
            n == bytes@.len(),
            i < n,
            n - i >= 11,
            forall|k: int| i < k < i + j ==> 48 <= #[trigger] bytes@[k] <= 57,
        decreases 11 - j,
    {
        let c = bytes[i + j];
        if c < 48 || c > 57 {
            return false;
        }
        j += 1;
    }
    true
}

/// Whether the text holds a negative number of ten or more digits
/// anywhere.
fn has_huge_negative(bytes: &[u8]) -> (r: bool)
    ensures
        r == exists|i: int| huge_negative_at(bytes@, i),
{
    let n = bytes.len();
    let mut i: usize = 0;
    while i < n
        invariant
            0 <= i <= n,
            n == bytes@.len(),
            forall|k: int| 0 <= k < i ==> !huge_negative_at(bytes@, k),
        decreases n - i,
    {
        if bytes[i] == 45 && n - i >= 11 {
            if ten_digits_after(bytes, i) {
                proof {
                    assert(huge_negative_at(bytes@, i as int));
                }
                return true;
            }
        }
        proof {
            assert(!huge_negative_at(bytes@, i as int));
        }
        i += 1;
    }
    false
}

/// The wavefront text parser, guarded: a text holding a negative
/// number of ten or more digits is rejected outright, since such an
/// index would drive the parser's index arithmetic out of range, and
/// no coordinate the geometry budget admits needs that many digits.
pub fn parse_obj(src: &str) -> (r: Option<wavefront_obj::obj::ObjSet>) {
    let bytes = src.as_bytes();
    if has_huge_negative(bytes) {
        return None;
    }
    obj_parse_raw(src)
}

/// Relies on `wavefront_obj::obj::parse`: the wavefront text parser;
/// a failed parse is handed back as `None`. Texts holding a negative
/// number of ten or more digits are excluded: on such an index token
/// the parser's face-index arithmetic can overflow.
#[verifier::external_body]
fn obj_parse_raw(src: &str) -> (r: Option<wavefront_obj::obj::ObjSet>)
    requires
        !exists|i: int| huge_negative_at(src.spec_bytes(), i),
{
    wavefront_obj::obj::parse(src).ok()
}

/// Relies on `wavefront_obj::mtl::parse`: the material library
/// parser; a failed parse is handed back as `None`.
#[verifier::external_body]
pub fn parse_mtl(src: &str) -> (r: Option<wavefront_obj::mtl::MtlSet>) {
    wavefront_obj::mtl::parse(src).ok()
}

/// Relies on `ObjSet::objects`: the parsed objects, cloned out.
#[verifier::external_body]
fn objset_objects(o: &wavefront_obj::obj::ObjSet) -> (r: Vec<wavefront_obj::obj::Object>) {
    o.objects.clone()
}

/// Relies on `Object::vertices`: each stored `f64` coordinate handed
/// over as its bit pattern.
#[verifier::external_body]
fn object_vertices(o: &wavefront_obj::obj::Object) -> (r: Vec<(u64, u64, u64)>)
    ensures
        r@ == object_vertices_model(*o),
{
    o.vertices.iter().map(|v| (v.x.to_bits(), v.y.to_bits(), v.z.to_bits())).collect()
}

/// Relies on `Object::normals`: each stored `f64` coordinate handed
/// over as its bit pattern.
#[verifier::external_body]
fn object_normals(o: &wavefront_obj::obj::Object) -> (r: Vec<(u64, u64, u64)>)
    ensures
        r@ == object_normals_model(*o),
{
    o.normals.iter().map(|v| (v.x.to_bits(), v.y.to_bits(), v.z.to_bits())).collect()
}

/// Relies on `Object::geometry`: the geometry groups, cloned out.
#[verifier::external_body]
fn object_geometries(o: &wavefront_obj::obj::Object) -> (r: Vec<wavefront_obj::obj::Geometry>) {
    o.geometry.clone()
}

/// Relies on `Geometry::material_name`.
#[verifier::external_body]
fn geometry_material_name(g: &wavefront_obj::obj::Geometry) -> (r: Option<String>)
    ensures
        match r {
            Some(s) => geometry_material_model(*g) == Some(s@),
            None => geometry_material_model(*g) is None,
        },
{
    g.material_name.clone()
}

/// Relies on `Geometry::shapes` and `Primitive::Triangle`: each
/// triangle's corner indices, one arm per shape kind.
#[verifier::external_body]
fn geometry_triangles(g: &wavefront_obj::obj::Geometry) -> (r: Vec<Option<(VtIndex, VtIndex, VtIndex)>>)
    ensures
        r@ == geometry_triangles_model(*g),
{
    g.shapes.iter().map(|s| match s.primitive {
        wavefront_obj::obj::Primitive::Triangle(a, b, c) => Some((a, b, c)),
        _ => None,
    }).collect()
}

/// Relies on the `mtl::Material` fields: each material's name,
/// colours and scalars handed over as plain values and bit patterns.
#[verifier::external_body]
fn mtl_materials(m: &wavefront_obj::mtl::MtlSet) -> (r: Vec<
    (String, (u64, u64, u64), (u64, u64, u64), (u64, u64, u64), u64, u64),
>)
    ensures
        r@.len() == mtlset_model(*m).len(),
        forall|i: int| 0 <= i < r@.len() ==> {
            let e = mtlset_model(*m)[i];
            (#[trigger] r@[i]).0@ == e.0 && r@[i].1 == e.1 && r@[i].2 == e.2
                && r@[i].3 == e.3 && r@[i].4 == e.4 && r@[i].5 == e.5
        },
{
    m.materials.iter().map(|mm| (
        mm.name.clone(),
        (mm.color_ambient.r.to_bits(), mm.color_ambient.g.to_bits(), mm.color_ambient.b.to_bits()),
        (mm.color_diffuse.r.to_bits(), mm.color_diffuse.g.to_bits(), mm.color_diffuse.b.to_bits()),
        (mm.color_specular.r.to_bits(), mm.color_specular.g.to_bits(), mm.color_specular.b.to_bits()),
        mm.specular_coefficient.to_bits(),
        mm.alpha.to_bits(),
    )).collect()
}

/// A colour from three channel bit patterns.
pub open spec fn color_of_bits_spec(c: (u64, u64, u64)) -> (int, int, int) {
    (
        clamp_channel(fx_of_bits(c.0)),
        clamp_channel(fx_of_bits(c.1)),
        clamp_channel(fx_of_bits(c.2)),
    )
}

/// Decode a colour from channel bit patterns.
fn convert_color(c: (u64, u64, u64)) -> (r: Color)
    ensures
        (r.r_spec(), r.g_spec(), r.b_spec()) == color_of_bits_spec(c),
{
    Color::init(fx_from_bits(c.0), fx_from_bits(c.1), fx_from_bits(c.2))
}

/// Decode one material from its handed-over patterns.
fn convert_material(
    ka: (u64, u64, u64),
    kd: (u64, u64, u64),
    ks: (u64, u64, u64),
    ns: u64,
    alpha: u64,
) -> (m: Material)
    ensures
        m.wf(),
        (m.ambient.r_spec(), m.ambient.g_spec(), m.ambient.b_spec()) == color_of_bits_spec(ka),
        (m.diffuse.r_spec(), m.diffuse.g_spec(), m.diffuse.b_spec()) == color_of_bits_spec(kd),
        (m.specular.r_spec(), m.specular.g_spec(), m.specular.b_spec()) == color_of_bits_spec(ks),
        m.shininess == (if fx_of_bits(ns) < 0 { 0int } else { fx_of_bits(ns) }),
        m.transparency == clamp_channel(fx_of_bits(alpha)),
{
    let mut m = Material::new();
    m.diffuse = convert_color(kd);
    m.ambient = convert_color(ka);
    m.specular = convert_color(ks);
    let sh = fx_from_bits(ns);
    m.shininess = if sh < 0 { 0 } else { sh };
    let al = fx_from_bits(alpha);
    m.transparency = if al < 0 { 0 } else if al > UNIT { UNIT } else { al };
    m
}

/// Decode the whole material library into named materials.
fn convert_materials(mtl_set: &wavefront_obj::mtl::MtlSet) -> (r: Vec<(String, Material)>)
    ensures
        r@.len() == mtlset_model(*mtl_set).len(),
        forall|i: int| 0 <= i < r@.len() ==> (#[trigger] r@[i]).1.wf()
            && r@[i].0@ == mtlset_model(*mtl_set)[i].0,
{
    let raw = mtl_materials(mtl_set);
    let mut out: Vec<(String, Material)> = Vec::new();
    let n = raw.len();
    let mut i: usize = 0;
    while i < n
        invariant
            n == raw@.len(),
            0 <= i <= n,
            raw@.len() == mtlset_model(*mtl_set).len(),
            forall|j: int| 0 <= j < raw@.len() ==> {
                let e = mtlset_model(*mtl_set)[j];
                (#[trigger] raw@[j]).0@ == e.0
            },
            out@.len() == i,
            forall|j: int| 0 <= j < out@.len() ==> (#[trigger] out@[j]).1.wf()
                && out@[j].0@ == mtlset_model(*mtl_set)[j].0,
        decreases n - i,
    {
        let entry = &raw[i];
        let m = convert_material(entry.1, entry.2, entry.3, entry.4, entry.5);
        let name = clone_string(&entry.0);
        out.push((name, m));
        i += 1;
    }
    out
}

/// Relies on `String::clone`.
#[verifier::external_body]
fn clone_string(s: &String) -> (r: String)
    ensures
        r@ == s@,
{
    s.clone()
}

/// Whether one corner's indices resolve against the pools.
pub open spec fn vt_resolves(vt: VtIndex, verts: Seq<(u64, u64, u64)>, norms: Seq<(u64, u64, u64)>) -> bool {
    vt.0 < verts.len() && (vt.2 matches Some(ni) ==> ni < norms.len())
}

/// The corner a resolving index triple decodes to: the bit patterns
/// of its pooled position and optional normal read as fixed-point
/// coordinates.
pub open spec fn vertex_of_vt(vt: VtIndex, verts: Seq<(u64, u64, u64)>, norms: Seq<(u64, u64, u64)>) -> Vertex {
    let b = verts[vt.0 as int];
    Vertex {
        mat_index: 0,
        has_normal: vt.2 is Some,
        position: Vec3 {
            x: fx_of_bits(b.0) as i64,
            y: fx_of_bits(b.1) as i64,
            z: fx_of_bits(b.2) as i64,
        },
        normal: match vt.2 {
            Some(ni) => Vec3 {
                x: fx_of_bits(norms[ni as int].0) as i64,
                y: fx_of_bits(norms[ni as int].1) as i64,
                z: fx_of_bits(norms[ni as int].2) as i64,
            },
            None => Vec3 { x: 0, y: 0, z: 0 },
        },
    }
}

/// One corner resolved against the handed-over pools: the decoded
/// position, and the decoded normal when the corner names one.
pub fn convert_vtindex(
    vt: VtIndex,
    verts: &Vec<(u64, u64, u64)>,
    norms: &Vec<(u64, u64, u64)>,
) -> (r: Option<Vertex>)
    ensures
        r is Some <==> vt_resolves(vt, verts@, norms@),
        r matches Some(v) ==> {
            &&& v == vertex_of_vt(vt, verts@, norms@)
            &&& in_range(v.position, PMAX as int)
            &&& in_range(v.normal, PMAX as int)
        },
{
    if vt.0 >= verts.len() {
        return None;
    }
    let b = verts[vt.0];
    let mut vertex = Vertex::init(Vec3 {
        x: fx_from_bits(b.0),
        y: fx_from_bits(b.1),
        z: fx_from_bits(b.2),
    });
    match vt.2 {
        Some(i) => {
            if i >= norms.len() {
                return None;
            }
            let nb = norms[i];
            vertex.normal = Vec3 {
                x: fx_from_bits(nb.0),
                y: fx_from_bits(nb.1),
                z: fx_from_bits(nb.2),
            };
            vertex.has_normal = true;
        },
        None => {},
    }
    Some(vertex)
}

/// One handed-over shape as a polygon: triangles whose corner indices
/// all resolve become polygons, each corner decoded by `vertex_of_vt`
/// and the per-vertex-normal flag set exactly when the first corner
/// names a normal; points, lines and dangling references yield
/// nothing.
pub fn convert_shape(
    shp: &Option<(VtIndex, VtIndex, VtIndex)>,
    verts: &Vec<(u64, u64, u64)>,
    norms: &Vec<(u64, u64, u64)>,
) -> (r: Option<Poly>)
    ensures
        r is Some <==> (shp matches Some(t) && vt_resolves(t.0, verts@, norms@)
            && vt_resolves(t.1, verts@, norms@) && vt_resolves(t.2, verts@, norms@)),
        r matches Some(p) ==> {
            &&& p.materials@.len() == 0
            &&& !p.vertex_material
            &&& shp matches Some(t) && {
                &&& p.vertices[0] == vertex_of_vt(t.0, verts@, norms@)
                &&& p.vertices[1] == vertex_of_vt(t.1, verts@, norms@)
                &&& p.vertices[2] == vertex_of_vt(t.2, verts@, norms@)
                &&& p.vertex_normal == (t.0.2 is Some)
            }
            &&& in_range(p.vertices[0].position, PMAX as int)
            &&& in_range(p.vertices[1].position, PMAX as int)
            &&& in_range(p.vertices[2].position, PMAX as int)
            &&& in_range(p.vertices[0].normal, PMAX as int)
            &&& in_range(p.vertices[1].normal, PMAX as int)
            &&& in_range(p.vertices[2].normal, PMAX as int)
        },
        shp is None ==> r is None,
{
    match shp {
        Some((vx, vy, vz)) => {
            let v0 = match convert_vtindex(*vx, verts, norms) {
                Some(v) => v,
                None => { return None; },
            };
            let v1 = match convert_vtindex(*vy, verts, norms) {
                Some(v) => v,
                None => { return None; },
            };
            let v2 = match convert_vtindex(*vz, verts, norms) {
                Some(v) => v,
                None => { return None; },
            };
            let vertex_normal = vx.2.is_some();
            Some(Poly {
                materials: Vec::new(),
                vertices: [v0, v1, v2],
                vertex_material: false,
                vertex_normal,
            })
        },
        None => None,
    }
}

/// Find a named material.
fn find_material(mtls: &Vec<(String, Material)>, name: &String) -> (r: Option<usize>)
    ensures
        r matches Some(i) ==> i < mtls@.len(),
{
    let n = mtls.len();
    let mut i: usize = 0;
    while i < n
        invariant
            n == mtls@.len(),
            0 <= i <= n,
        decreases n - i,
    {
        if bytes_eq(mtls[i].0.as_str().as_bytes(), name.as_str().as_bytes()) {
            return Some(i);
        }
        i += 1;
    }
    None
}

/// One geometry group as polygons, each given the group's material;
/// a group with no or an unknown material name yields nothing.
fn convert_geometry(
    geometry: &wavefront_obj::obj::Geometry,
    verts: &Vec<(u64, u64, u64)>,
    norms: &Vec<(u64, u64, u64)>,
    mtls: &Vec<(String, Material)>,
) -> (r: Option<Vec<Poly>>)
    requires
        forall|i: int| 0 <= i < mtls@.len() ==> (#[trigger] mtls@[i]).1.wf(),
    ensures
        r matches Some(polys) ==> forall|i: int| 0 <= i < polys@.len()
            ==> (#[trigger] polys@[i]).wf(),
{
    let name = match geometry_material_name(geometry) {
        Some(n) => n,
        None => { return None; },
    };
    let mi = match find_material(mtls, &name) {
        Some(i) => i,
        None => { return None; },
    };
    let m = mtls[mi].1;

    let shapes = geometry_triangles(geometry);
    let mut polys: Vec<Poly> = Vec::new();
    let n = shapes.len();
    let mut k: usize = 0;
    while k < n
        invariant
            n == shapes@.len(),
            0 <= k <= n,
            m.wf(),
            forall|i: int| 0 <= i < polys@.len() ==> (#[trigger] polys@[i]).wf(),
        decreases n - k,
    {
        match convert_shape(&shapes[k], verts, norms) {
            Some(mut poly) => {
                poly.materials.push(m);
                polys.push(poly);
            },
            None => {},
        }
        k += 1;
    }
    Some(polys)
}

/// One parsed object as polygons.
fn convert_object(
    object: &wavefront_obj::obj::Object,
    mtls: &Vec<(String, Material)>,
) -> (r: Option<Vec<Poly>>)
    requires
        forall|i: int| 0 <= i < mtls@.len() ==> (#[trigger] mtls@[i]).1.wf(),
    ensures
        r matches Some(polys) ==> forall|i: int| 0 <= i < polys@.len()
            ==> (#[trigger] polys@[i]).wf(),
{
    let verts = object_vertices(object);
    let norms = object_normals(object);
    let geoms = object_geometries(object);
    let mut polys: Vec<Poly> = Vec::new();
    let n = geoms.len();
    let mut g: usize = 0;
    while g < n
        invariant
            n == geoms@.len(),
            0 <= g <= n,
            forall|i: int| 0 <= i < mtls@.len() ==> (#[trigger] mtls@[i]).1.wf(),
            forall|i: int| 0 <= i < polys@.len() ==> (#[trigger] polys@[i]).wf(),
        decreases n - g,
    {
        let mut ps = match convert_geometry(&geoms[g], &verts, &norms, mtls) {
            Some(ps) => ps,
            None => { return None; },
        };
        let mut j = ps.len();
        while j > 0
            invariant
                j == ps@.len(),
                forall|i: int| 0 <= i < ps@.len() ==> (#[trigger] ps@[i]).wf(),
                forall|i: int| 0 <= i < polys@.len() ==> (#[trigger] polys@[i]).wf(),
            decreases j,
        {
            match ps.pop() {
                Some(p) => {
                    polys.push(p);
                },
                None => {},
            }
            j = ps.len();
        }
        g += 1;
    }
    Some(polys)
}

/// All parsed objects as polygons.
fn convert_objects(
    objects: &Vec<wavefront_obj::obj::Object>,
    mtls: &Vec<(String, Material)>,
) -> (r: Option<Vec<Poly>>)
    requires
        forall|i: int| 0 <= i < mtls@.len() ==> (#[trigger] mtls@[i]).1.wf(),
    ensures
        r matches Some(polys) ==> forall|i: int| 0 <= i < polys@.len()
            ==> (#[trigger] polys@[i]).wf(),
{
    let mut polys: Vec<Poly> = Vec::new();
    let n = objects.len();
    let mut o: usize = 0;
    while o < n
        invariant
            n == objects@.len(),
            0 <= o <= n,
            forall|i: int| 0 <= i < mtls@.len() ==> (#[trigger] mtls@[i]).1.wf(),
            forall|i: int| 0 <= i < polys@.len() ==> (#[trigger] polys@[i]).wf(),
        decreases n - o,
    {
        let mut ps = match convert_object(&objects[o], mtls) {
            Some(ps) => ps,
            None => { return None; },
        };
        let mut j = ps.len();
        while j > 0
            invariant
                j == ps@.len(),
                forall|i: int| 0 <= i < ps@.len() ==> (#[trigger] ps@[i]).wf(),
                forall|i: int| 0 <= i < polys@.len() ==> (#[trigger] polys@[i]).wf(),
            decreases j,
        {
            match ps.pop() {
                Some(p) => {
                    polys.push(p);
                },
                None => {},
            }
            j = ps.len();
        }
        o += 1;
    }
    Some(polys)
}

/// A whole accelerated scene from three texts: the scene description,
/// the wavefront object file, and its material library. The imported
/// polygons join the scene's own primitives under one hierarchy;
/// `None` reports any parse failure or unknown material.
pub fn parse_obj_scene(scene_src: &str, obj_src: &str, mtl_src: &str) -> (r: Option<BvhScene>)
    ensures
        r matches Some(s) ==> crate::scene::IntersectableScene::wf(&s),
        r matches Some(s) ==> exists|s0: crate::scene::Scene, imported: Seq<Poly>|
            #![trigger s0.primitives@, imported.len()]
        {
            &&& crate::scene::IntersectableScene::wf(&s0)
            &&& s.camera == s0.camera
            &&& s.lights@ == s0.lights@
            &&& (forall|i: int| 0 <= i < imported.len() ==> (#[trigger] imported[i]).wf())
            &&& crate::bvh::node_prims(s.tree.root).to_multiset()
                == s0.primitives@.to_multiset().add(
                    imported.map_values(|p: Poly| Primitive::Poly(p)).to_multiset(),
                )
        },
{
    let objset = match parse_obj(obj_src) {
        Some(o) => o,
        None => { return None; },
    };
    let mtllib = match parse_mtl(mtl_src) {
        Some(m) => m,
        None => { return None; },
    };

    let materials = convert_materials(&mtllib);
    let objects = objset_objects(&objset);
    let mut polys = match convert_objects(&objects, &materials) {
        Some(p) => p,
        None => { return None; },
    };

    let mut parser = SceneParser::new(str_to_bytes(scene_src));
    let mut scene = match parser.parse_scene() {
        Ok(s) => s,
        Err(_) => { return None; },
    };
    let ghost s0 = scene;
    let ghost mut imported: Seq<Poly> = Seq::empty();
    proof {
        assert(imported.map_values(|p: Poly| Primitive::Poly(p)) =~= Seq::<Primitive>::empty());
        assert(scene.primitives@ =~= s0.primitives@
            + imported.map_values(|p: Poly| Primitive::Poly(p)));
    }
    let mut j = polys.len();
    while j > 0
        invariant
            j == polys@.len(),
            forall|i: int| 0 <= i < polys@.len() ==> (#[trigger] polys@[i]).wf(),
            crate::scene::IntersectableScene::wf(&scene),
            crate::scene::IntersectableScene::wf(&s0),
            scene.camera == s0.camera,
            scene.lights@ == s0.lights@,
            forall|i: int| 0 <= i < imported.len() ==> (#[trigger] imported[i]).wf(),
            scene.primitives@ == s0.primitives@
                + imported.map_values(|p: Poly| Primitive::Poly(p)),
        decreases j,
    {
        match polys.pop() {
            Some(p) => {
                proof {
                    let imported2 = imported.push(p);
                    assert(imported2.map_values(|q: Poly| Primitive::Poly(q))
                        =~= imported.map_values(|q: Poly| Primitive::Poly(q)).push(Primitive::Poly(p)));
                    assert(scene.primitives@.push(Primitive::Poly(p))
                        =~= s0.primitives@ + imported2.map_values(|q: Poly| Primitive::Poly(q)));
                    imported = imported2;
                }
                scene.primitives.push(Primitive::Poly(p));
            },
            None => {},
        }
        j = polys.len();
    }
    proof {
        vstd::seq_lib::lemma_multiset_commutative(
            s0.primitives@,
            imported.map_values(|p: Poly| Primitive::Poly(p)),
        );
    }
    Some(BvhScene::from_scene(scene))
}

/// Relies on `str::as_bytes` and `slice::to_vec`: the text's bytes,
/// owned.
#[verifier::external_body]
fn str_to_bytes(s: &str) -> (r: Vec<u8>)
    ensures
        r@ == s.spec_bytes(),
{
    s.as_bytes().to_vec()
}

} // verus!
