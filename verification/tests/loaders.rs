use std::io::Write;

use mesh_viewer::loader::fbx::FbxPart;
use mesh_viewer::loader::gltf_layout::{gltf_check, percent_decode};
use mesh_viewer::loader::obj::parse_mtl;
use mesh_viewer::loader::threemf::ColorTables;
use mesh_viewer::loader::{
    extension_is, starts_with_bytes, FbxLoader, GltfLoader, LoaderKind, LoaderRegistry, ObjLoader,
    StlLoader, ThreemfLoader,
};
use mesh_viewer::mesh::{compute_stats, ColorValue, MeshData, ModelStats, Rgba8, Scalar};

fn cv(s: &str) -> Vec<char> {
    s.chars().collect()
}

fn rgba(r: u8, g: u8, b: u8, a: u8) -> Rgba8 {
    Rgba8 { r, g, b, a }
}

fn value(m: &MeshData, s: Scalar) -> f32 {
    match s {
        Scalar::Bits(b) => f32::from_bits(b),
        Scalar::Literal { index, negated } => {
            let text: String = m.literals[index].iter().collect();
            let v: f32 = text.parse().unwrap();
            if negated {
                -v
            } else {
                v
            }
        }
    }
}

fn row(m: &MeshData, r: [Scalar; 3]) -> [f32; 3] {
    [value(m, r[0]), value(m, r[1]), value(m, r[2])]
}

fn rows(m: &MeshData, rs: &[[Scalar; 3]]) -> Vec<[f32; 3]> {
    rs.iter().map(|r| row(m, *r)).collect()
}

fn registry() -> LoaderRegistry {
    let mut r = LoaderRegistry::new();
    r.register(LoaderKind::Stl);
    r.register(LoaderKind::Threemf);
    r.register(LoaderKind::Obj);
    r.register(LoaderKind::Gltf);
    r.register(LoaderKind::Fbx);
    r
}

#[test]
fn registry_picks_first_taker() {
    let r = registry();
    assert_eq!(r.loaders().len(), 5);
    assert_eq!(r.select("model.STL", b""), Ok(LoaderKind::Stl));
    assert_eq!(r.select("data.bin", b"solid cube"), Ok(LoaderKind::Stl));
    assert_eq!(r.select("part.3MF", b""), Ok(LoaderKind::Threemf));
    assert_eq!(r.select("archive", b"PK\x03\x04"), Ok(LoaderKind::Threemf));
    assert_eq!(r.select("mesh.obj", b"# obj"), Ok(LoaderKind::Obj));
    assert_eq!(r.select("scene.gltf", b"{"), Ok(LoaderKind::Gltf));
    assert_eq!(r.select("scene.GLB", b""), Ok(LoaderKind::Gltf));
    assert_eq!(r.select("scene", b"glTF\x02\x00"), Ok(LoaderKind::Gltf));
    assert_eq!(r.select("rig.fbx", b""), Ok(LoaderKind::Fbx));
    assert_eq!(r.select("rig", b"Kaydara FBX Binary  \x00"), Ok(LoaderKind::Fbx));
    // an OBJ file whose text begins with "solid" goes to the STL loader, registered first
    assert_eq!(r.select("mesh.obj", b"solid"), Ok(LoaderKind::Stl));
    assert_eq!(r.select("notes.txt", b"hello"), Err("no suitable loader".to_string()));
    assert_eq!(LoaderRegistry::new().select("a.stl", b""), Err("no suitable loader".to_string()));
    assert_eq!(r.select(".stl", b""), Err("no suitable loader".to_string()));
}

#[test]
fn loader_names_and_checks() {
    assert_eq!(StlLoader {}.name(), "stl");
    assert_eq!(ThreemfLoader {}.name(), "3mf");
    assert_eq!(ObjLoader {}.name(), "obj");
    assert_eq!(GltfLoader {}.name(), "gltf");
    assert_eq!(FbxLoader {}.name(), "fbx");
    assert_eq!(LoaderKind::Threemf.name(), "3mf");
    assert!(StlLoader {}.can_load("/a/b/c.Stl", b""));
    assert!(!StlLoader {}.can_load("c.stl.gz", b"soli"));
    assert!(!ObjLoader {}.can_load("obj", b""));
    assert!(ThreemfLoader {}.can_load("x", b"PK"));
    assert!(!ThreemfLoader {}.can_load("x", b"P"));
    assert!(FbxLoader {}.can_load("dir.fbx/model.FBX", b""));
    assert!(!GltfLoader {}.can_load("model.gltf.txt", b"glT"));
    assert!(extension_is("/tmp/x.tar.GZ", "gz"));
    assert!(extension_is("/tmp/x.", ""));
    assert!(!extension_is("/tmp/.stl", "stl"));
    assert!(starts_with_bytes(b"abc", b""));
    assert!(!starts_with_bytes(b"ab", b"abc"));
}

const ASCII_STL: &str = "solid t
facet normal 0 0 1
outer loop
vertex 0 0 0
vertex 1 0 0
vertex 0 1 0
endloop
endfacet
endsolid t
";

#[test]
fn stl_ascii_triangle() {
    let m = StlLoader {}.load("t.stl", ASCII_STL.as_bytes()).unwrap();
    assert_eq!(m.positions.len(), 3);
    assert_eq!(m.indices.len(), 1);
    assert!(m.normals.is_empty());
    assert_eq!(m.submeshes.len(), 1);
    let sub = &m.submeshes[0];
    assert!(sub.color.is_none());
    assert_eq!(sub.indices, vec![[0, 1, 2]]);
    assert_eq!(rows(&m, &sub.normals), vec![[0.0, 0.0, 1.0]; 3]);
    let t = m.indices[0];
    let corners: Vec<[f32; 3]> = t.iter().map(|&i| row(&m, m.positions[i as usize])).collect();
    assert_eq!(rows(&m, &sub.positions), corners);
    assert_eq!(corners, vec![[0.0, 0.0, 0.0], [1.0, 0.0, 0.0], [0.0, 1.0, 0.0]]);
}

#[test]
fn stl_binary_shares_vertices() {
    let mut data = vec![0u8; 80];
    data.extend_from_slice(&2u32.to_le_bytes());
    let tris = [
        [[0.0f32, 0.0, 0.0], [1.0, 0.0, 0.0], [1.0, 1.0, 0.0]],
        [[0.0f32, 0.0, 0.0], [1.0, 1.0, 0.0], [0.0, 1.0, 0.0]],
    ];
    for t in tris {
        for c in [0.0f32, 0.0, 1.0] {
            data.extend_from_slice(&c.to_le_bytes());
        }
        for v in t {
            for c in v {
                data.extend_from_slice(&c.to_le_bytes());
            }
        }
        data.extend_from_slice(&[0, 0]);
    }
    let m = StlLoader {}.load("q.stl", &data).unwrap();
    assert_eq!(m.positions.len(), 4);
    assert_eq!(m.indices.len(), 2);
    assert_eq!(m.submeshes[0].positions.len(), 6);
    assert_eq!(m.submeshes[0].indices, vec![[0, 1, 2], [3, 4, 5]]);
    assert_eq!(compute_stats(&m), ModelStats { vertices: 4, lines: 5, faces: 2 });
}

#[test]
fn stl_error_is_prefixed() {
    let e = StlLoader {}.load("bad.stl", b"\x01\x02").err().unwrap();
    assert!(e.starts_with("stl parse error: "), "{}", e);
    assert!(e.len() > "stl parse error: ".len());
}

const OBJ_TEXT: &str = "# a quad and a triangle
mtllib colors.mtl
v 0 0 0
v 1.5 0 0
v 1.5 0 2
v 0 0 2
vn 0 1 0
usemtl red
f 1 2 3 4
usemtl missing
f -1 -2 -3
  f 1/1/1 2//1 3
";

#[test]
fn obj_model_with_materials() {
    let loader = ObjLoader {};
    let libs = loader.material_libraries(OBJ_TEXT.as_bytes());
    assert_eq!(libs, vec![cv("colors.mtl")]);
    let tables = vec![vec![(cv("red"), rgba(255, 0, 0, 255))]];
    let m = loader.load("m.obj", OBJ_TEXT.as_bytes(), &tables).unwrap();
    assert_eq!(
        rows(&m, &m.positions),
        vec![[0.0, 0.0, 0.0], [1.5, 0.0, 0.0], [1.5, -2.0, 0.0], [0.0, -2.0, 0.0]]
    );
    assert_eq!(rows(&m, &m.normals), vec![[0.0, 0.0, 1.0]]);
    assert_eq!(m.indices, vec![[0, 1, 2], [0, 2, 3], [3, 2, 1], [0, 1, 2]]);
    assert_eq!(m.submeshes.len(), 2);
    let red = m.submeshes.iter().find(|s| matches!(s.color, Some(ColorValue::Quantized(c)) if c == rgba(255, 0, 0, 255))).unwrap();
    assert_eq!(red.indices, vec![[0, 1, 2], [0, 2, 3]]);
    let plain = m.submeshes.iter().find(|s| s.color.is_none()).unwrap();
    assert_eq!(plain.indices, vec![[3, 2, 1], [0, 1, 2]]);
    assert_eq!(plain.positions.len(), 4);
    assert_eq!(compute_stats(&m), ModelStats { vertices: 4, lines: 6, faces: 4 });
}

#[test]
fn obj_without_faces_keeps_one_part() {
    let m = ObjLoader {}.load("p.obj", b"v 1 2 3\nv nan x\n", &vec![]).unwrap();
    assert_eq!(m.positions.len(), 2);
    assert!(m.indices.is_empty());
    assert_eq!(m.submeshes.len(), 1);
    assert!(m.submeshes[0].color.is_none());
    assert_eq!(row(&m, m.positions[0]), [1.0, -3.0, 2.0]);
    let second = row(&m, m.positions[1]);
    assert!(second[0].is_nan());
    assert_eq!(second[1], 0.0);
    assert_eq!(second[2], 0.0);
    assert_eq!(compute_stats(&m), ModelStats { vertices: 2, lines: 0, faces: 0 });
}

#[test]
fn obj_rejects_invalid_utf8() {
    let e = ObjLoader {}.load("bad.obj", b"v 0 0 0\n\xff\xfe\n", &vec![]).err().unwrap();
    assert_eq!(e, "read obj: stream did not contain valid UTF-8");
}

#[test]
fn mtl_entries() {
    let entries = parse_mtl(b"newmtl red\nKd 1 0 0\nnewmtl\nKd 0.5 x\nKd 0 0 1 extra\n");
    assert_eq!(entries.len(), 3);
    assert_eq!(entries[0].name, cv("red"));
    assert_eq!(entries[0].kd, vec![Some(cv("1")), Some(cv("0")), Some(cv("0"))]);
    assert_eq!(entries[1].kd, vec![Some(cv("0.5")), None, None]);
    assert_eq!(entries[2].kd, vec![Some(cv("0")), Some(cv("0")), Some(cv("1"))]);
    assert!(parse_mtl(b"Kd 1 1 1\n").is_empty());
}

fn base64(data: &[u8]) -> String {
    let table = b"ABCDEFGHIJKLMNOPQRSTUVWXYZabcdefghijklmnopqrstuvwxyz0123456789+/";
    let mut out = String::new();
    for chunk in data.chunks(3) {
        let b = [chunk[0], *chunk.get(1).unwrap_or(&0), *chunk.get(2).unwrap_or(&0)];
        let n = ((b[0] as u32) << 16) | ((b[1] as u32) << 8) | b[2] as u32;
        for i in 0..4 {
            if i <= chunk.len() {
                out.push(table[((n >> (18 - 6 * i)) & 63) as usize] as char);
            } else {
                out.push('=');
            }
        }
    }
    out
}

fn gltf_triangle(indexed: bool) -> Vec<u8> {
    let mut buf = Vec::new();
    for v in [[0.0f32, 0.0, 0.0], [1.0, 0.0, 0.0], [0.0, 2.0, 3.0]] {
        for c in v {
            buf.extend_from_slice(&c.to_le_bytes());
        }
    }
    for i in [0u16, 2, 1] {
        buf.extend_from_slice(&i.to_le_bytes());
    }
    buf.extend_from_slice(&[0, 0]);
    let indices = if indexed { ",\"indices\":1" } else { "" };
    format!(
        "{{\"asset\":{{\"version\":\"2.0\"}},\
\"buffers\":[{{\"byteLength\":{},\"uri\":\"data:application/octet-stream;base64,{}\"}}],\
\"bufferViews\":[{{\"buffer\":0,\"byteOffset\":0,\"byteLength\":36}},{{\"buffer\":0,\"byteOffset\":36,\"byteLength\":6}}],\
\"accessors\":[{{\"bufferView\":0,\"componentType\":5126,\"count\":3,\"type\":\"VEC3\",\"min\":[0,0,0],\"max\":[1,2,3]}},\
{{\"bufferView\":1,\"componentType\":5123,\"count\":3,\"type\":\"SCALAR\"}}],\
\"materials\":[{{\"pbrMetallicRoughness\":{{\"baseColorFactor\":[0.5,0.25,1.0,1.0]}}}}],\
\"meshes\":[{{\"primitives\":[{{\"attributes\":{{\"POSITION\":0}},\"material\":0{}}}]}}]}}",
        buf.len(),
        base64(&buf),
        indices
    )
    .into_bytes()
}

#[test]
fn gltf_triangle_turned_to_z_up() {
    let m = GltfLoader {}.load("t.gltf", &gltf_triangle(true)).unwrap();
    assert_eq!(
        rows(&m, &m.positions),
        vec![[0.0, 0.0, 0.0], [1.0, 0.0, 0.0], [0.0, -3.0, 2.0]]
    );
    assert!(m.normals.is_empty());
    assert_eq!(m.indices, vec![[0, 2, 1]]);
    assert_eq!(m.submeshes.len(), 1);
    match m.submeshes[0].color {
        Some(ColorValue::Bits(c)) => {
            assert_eq!(c.map(f32::from_bits), [0.5, 0.25, 1.0, 1.0]);
        }
        _ => panic!("expected the base colour factor"),
    }
    let unindexed = GltfLoader {}.load("t.gltf", &gltf_triangle(false)).unwrap();
    assert_eq!(unindexed.indices, vec![[0, 1, 2]]);
}

#[test]
fn gltf_layouts_the_decoder_cannot_read_are_refused() {
    let narrow = String::from_utf8(gltf_triangle(true))
        .unwrap()
        .replace("\"byteOffset\":0,\"byteLength\":36}", "\"byteOffset\":0,\"byteLength\":36,\"byteStride\":4}");
    assert!(narrow.contains("byteStride"));
    let e = GltfLoader {}.load("n.gltf", narrow.as_bytes()).err().unwrap();
    assert_eq!(e, "gltf parse error: unsupported buffer or accessor layout");
    let relative = r#"{"asset":{"version":"2.0"},"buffers":[{"byteLength":4,"uri":"data%FF.bin"}]}"#;
    let e = GltfLoader {}.load("r.gltf", relative.as_bytes()).err().unwrap();
    assert_eq!(e, "gltf parse error: unsupported buffer or accessor layout");
    let no_mime = String::from_utf8(gltf_triangle(true)).unwrap().replace(
        "\"materials\"",
        "\"images\":[{\"bufferView\":0}],\"materials\"",
    );
    assert!(no_mime.contains("images"));
    assert_eq!(gltf_check(no_mime.as_bytes()), Ok((true, true)));
    let e = GltfLoader {}.load("i.gltf", no_mime.as_bytes()).err().unwrap();
    assert_eq!(e, "gltf parse error: unsupported buffer or accessor layout");
}

#[test]
fn gltf_import_errors_are_the_decoders_own() {
    let relative = r#"{"asset":{"version":"2.0"},"buffers":[{"byteLength":4,"uri":"model%20one.bin"}]}"#;
    assert_eq!(gltf_check(relative.as_bytes()), Ok((true, true)));
    let e = GltfLoader {}.load("r.gltf", relative.as_bytes()).err().unwrap();
    assert_eq!(e, "gltf parse error: external reference in slice only import");
    let other = r#"{"asset":{"version":"2.0"},"buffers":[{"byteLength":4,"uri":"http://host/a.bin"}]}"#;
    let e = GltfLoader {}.load("h.gltf", other.as_bytes()).err().unwrap();
    assert_eq!(e, "gltf parse error: unsupported URI scheme");
    let narrow = String::from_utf8(gltf_triangle(true))
        .unwrap()
        .replace("\"byteOffset\":0,\"byteLength\":36}", "\"byteOffset\":0,\"byteLength\":36,\"byteStride\":4}");
    assert_eq!(gltf_check(narrow.as_bytes()), Ok((true, false)));
    assert_eq!(gltf_check(&gltf_triangle(true)), Ok((true, true)));
    assert_eq!(gltf_check(r#"{"asset":{"version":"2.0"},"buffers":[{"byteLength":4,"uri":"a%FF"}]}"#.as_bytes()), Ok((false, true)));
}

#[test]
fn gltf_image_sources_are_checked_against_the_imported_data() {
    let with_image = |image: &str| {
        String::from_utf8(gltf_triangle(true))
            .unwrap()
            .replace("\"byteLength\":44,", "\"byteLength\":20,")
            .replace("\"materials\"", &format!("\"images\":[{}],\"materials\"", image))
    };
    let shorter = with_image("{\"bufferView\":0,\"mimeType\":\"image/gif\"}");
    assert!(shorter.contains("\"byteLength\":20,"));
    let e = GltfLoader {}.load("s.gltf", shorter.as_bytes()).err().unwrap();
    assert_eq!(e, "gltf parse error: unsupported image encoding");
    let linked = with_image("{\"uri\":\"texture.png\"}");
    let e = GltfLoader {}.load("l.gltf", linked.as_bytes()).err().unwrap();
    assert_eq!(e, "gltf parse error: external reference in slice only import");
    let unnamed = with_image("{}");
    let e = GltfLoader {}.load("u.gltf", unnamed.as_bytes()).err().unwrap();
    assert_eq!(e, "gltf parse error: unsupported buffer or accessor layout");
    let unnamed_after_linked = with_image("{\"uri\":\"texture.png\"},{}");
    let e = GltfLoader {}.load("v.gltf", unnamed_after_linked.as_bytes()).err().unwrap();
    assert_eq!(e, "gltf parse error: external reference in slice only import");
}

#[test]
fn gltf_buffers_after_a_refused_one_are_never_looked_at() {
    let after = r#"{"asset":{"version":"2.0"},"buffers":[{"byteLength":4,"uri":"model.bin"},{"byteLength":4,"uri":"a%FF"}]}"#;
    assert_eq!(gltf_check(after.as_bytes()), Ok((true, true)));
    let e = GltfLoader {}.load("a.gltf", after.as_bytes()).err().unwrap();
    assert_eq!(e, "gltf parse error: external reference in slice only import");
    let before = r#"{"asset":{"version":"2.0"},"buffers":[{"byteLength":4,"uri":"a%FF"},{"byteLength":4,"uri":"model.bin"}]}"#;
    assert_eq!(gltf_check(before.as_bytes()), Ok((false, true)));
    let data_first = r#"{"asset":{"version":"2.0"},"buffers":[{"byteLength":4,"uri":"data:application/octet-stream;base64,AAAAAA=="},{"byteLength":4,"uri":"a%FF"}]}"#;
    assert_eq!(gltf_check(data_first.as_bytes()), Ok((false, true)));
}

#[test]
fn percent_decoding_follows_urlencoding() {
    assert_eq!(percent_decode(&b"a%41%4g%%2f%".to_vec()), b"aA%4g%/%".to_vec());
    assert_eq!(percent_decode(&b"model%20one.bin".to_vec()), b"model one.bin".to_vec());
    assert_eq!(percent_decode(&b"%FF%fe".to_vec()), vec![0xff, 0xfe]);
    assert_eq!(percent_decode(&b"%4".to_vec()), b"%4".to_vec());
    assert_eq!(percent_decode(&Vec::new()), Vec::<u8>::new());
}

#[test]
fn gltf_error_is_prefixed() {
    let e = GltfLoader {}.load("x.gltf", b"{ not json").err().unwrap();
    assert!(e.starts_with("gltf parse error: "), "{}", e);
}

fn srgb_to_linear(c: f32) -> f32 {
    if c <= 0.04045 {
        c / 12.92
    } else {
        ((c + 0.055) / 1.055).powf(2.4)
    }
}

fn color_tables() -> ColorTables {
    let linear = (0..=255u32).map(|b| (srgb_to_linear(b as f32 / 255.0).clamp(0.0, 1.0) * 255.0) as u8).collect();
    let alpha = (0..=255u32).map(|b| ((b as f32 / 255.0).clamp(0.0, 1.0) * 255.0) as u8).collect();
    ColorTables { linear, alpha }
}

fn zip_of(files: &[(&str, &str)]) -> Vec<u8> {
    let mut w = zip::ZipWriter::new(std::io::Cursor::new(Vec::new()));
    let opts = zip::write::SimpleFileOptions::default().compression_method(zip::CompressionMethod::Stored);
    for (name, body) in files {
        w.start_file(*name, opts).unwrap();
        w.write_all(body.as_bytes()).unwrap();
    }
    w.finish().unwrap().into_inner()
}

const MODEL_XML: &str = r##"<?xml version="1.0" encoding="UTF-8"?>
<model unit="millimeter" xmlns="http://schemas.microsoft.com/3dmanufacturing/core/2015/02">
 <resources>
  <basematerials id="1"><base name="red" displaycolor="#FF0000"/><base name="blue" displaycolor="#0000FF80"/></basematerials>
  <object id="2" type="model" pid="1" pindex="0">
   <mesh>
    <vertices>
     <vertex x="0" y="0" z="0"/>
     <vertex x="10" y="0" z="0"/>
     <vertex x="0" y="10" z="0"/>
     <vertex x="0" y="0" z="10"/>
    </vertices>
    <triangles>
     <triangle v1="0" v2="1" v3="2"/>
     <triangle v1="0" v2="1" v3="3" pid="1" p1="1"/>
    </triangles>
   </mesh>
  </object>
 </resources>
 <build><item objectid="2"/></build>
</model>
"##;

#[test]
fn threemf_colours_by_material() {
    let data = zip_of(&[("3D/3dmodel.model", MODEL_XML)]);
    let m = ThreemfLoader {}.load("a.3mf", &data, &color_tables()).unwrap();
    assert_eq!(m.positions.len(), 4);
    assert_eq!(row(&m, m.positions[1]), [10.0, 0.0, 0.0]);
    assert_eq!(m.indices, vec![[0, 1, 2], [0, 1, 3]]);
    assert!(m.normals.is_empty());
    let keys: Vec<Option<Rgba8>> = m
        .submeshes
        .iter()
        .map(|s| match s.color {
            Some(ColorValue::Quantized(c)) => Some(c),
            _ => None,
        })
        .collect();
    assert!(keys.contains(&Some(rgba(255, 0, 0, 255))), "{:?}", keys);
    let half = color_tables().alpha[128];
    assert!(keys.contains(&Some(rgba(0, 0, 255, half))), "{:?}", keys);
    assert_eq!(m.submeshes.len(), 2);
    assert_eq!(compute_stats(&m), ModelStats { vertices: 4, lines: 5, faces: 2 });
}

#[test]
fn threemf_errors() {
    let tables = color_tables();
    let e = ThreemfLoader {}.load("a.3mf", b"PK not really", &tables).err().unwrap();
    assert!(e.starts_with("zip open: "), "{}", e);
    let data = zip_of(&[("readme.txt", "hi")]);
    let e = ThreemfLoader {}.load("a.3mf", &data, &tables).err().unwrap();
    assert_eq!(e, "3mf: no .model file found in archive");
}

fn quad_part(materials: Vec<Rgba8>) -> FbxPart {
    let bits = |v: [f32; 3]| [v[0].to_bits(), v[1].to_bits(), v[2].to_bits()];
    FbxPart {
        positions: vec![bits([0.0, 0.0, 0.0]), bits([1.0, 0.0, 0.0]), bits([1.0, 1.0, 0.0]), bits([0.0, 1.0, 0.0])],
        normals: vec![],
        faces: vec![(0, 4), (4, 2)],
        vertex_indices: vec![0, 1, 2, 3, 0, 1],
        face_material: vec![0],
        node_materials: materials,
        mesh_materials: vec![],
    }
}

#[test]
fn fbx_parts_are_triangulated_and_grouped() {
    let red = rgba(255, 0, 0, 255);
    let parts = vec![quad_part(vec![red]), quad_part(vec![])];
    let m = FbxLoader {}.assemble(&parts).unwrap();
    assert_eq!(m.positions.len(), 8);
    assert_eq!(m.indices, vec![[0, 1, 2], [0, 2, 3], [4, 5, 6], [4, 6, 7]]);
    assert_eq!(m.submeshes.len(), 2);
    assert!(matches!(m.submeshes[0].color, Some(ColorValue::Quantized(c)) if c == red));
    assert_eq!(m.submeshes[0].indices, vec![[0, 1, 2], [0, 2, 3]]);
    assert!(m.submeshes[1].color.is_none());
    assert_eq!(m.submeshes[1].indices, vec![[0, 1, 2], [0, 2, 3]]);
    assert_eq!(rows(&m, &m.submeshes[1].positions)[2], [1.0, 1.0, 0.0]);
}

#[test]
fn fbx_without_vertices_is_refused() {
    let e = FbxLoader {}.assemble(&vec![]).err().unwrap();
    assert_eq!(e, "fbx: no positions found in model");
}

#[test]
fn stats_of_unindexed_meshes() {
    let m = MeshData {
        literals: vec![],
        positions: vec![[Scalar::Bits(0); 3]; 7],
        normals: vec![],
        indices: vec![],
        submeshes: vec![],
    };
    assert_eq!(compute_stats(&m), ModelStats { vertices: 7, lines: 6, faces: 2 });
    let degenerate = MeshData {
        literals: vec![],
        positions: vec![],
        normals: vec![],
        indices: vec![[1, 1, 2], [2, 1, 1]],
        submeshes: vec![],
    };
    assert_eq!(compute_stats(&degenerate), ModelStats { vertices: 0, lines: 1, faces: 2 });
}

const ESCAPED_XML: &str = r##"<?xml version="1.0"?>
<model xmlns="http://schemas.microsoft.com/3dmanufacturing/core/2015/02">
 <resources>
  <basematerials id="7"><base name="green" displaycolor="&#35;00FF00"/></basematerials>
  <object id="1" pid="7" pindex="0">
   <mesh>
    <vertices><vertex x="0" y="0" z="0"/><vertex x="1" y="0" z="0"/><vertex x="0" y="1" z="0"/></vertices>
    <triangles><triangle v1="0" v2="1" v3="2"/></triangles>
   </mesh>
  </object>
 </resources>
</model>
"##;

#[test]
fn threemf_attribute_values_are_unescaped() {
    let data = zip_of(&[("3D/3dmodel.model", ESCAPED_XML)]);
    let m = ThreemfLoader {}.load("g.3mf", &data, &color_tables()).unwrap();
    assert_eq!(m.submeshes.len(), 1);
    assert!(matches!(m.submeshes[0].color, Some(ColorValue::Quantized(c)) if c == rgba(0, 255, 0, 255)));
    assert_eq!(m.indices, vec![[0, 1, 2]]);
}
