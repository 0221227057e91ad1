//! FBX models. The scene is read with `ufbx` outside the library, which
//! hands over each mesh's vertices (transformed to world space, as single
//! precision bit patterns), its polygons, and the colour keys of its
//! materials; the library triangulates and groups them.

use vstd::prelude::*;

use super::{bytes_start_with, extension_is, has_extension, starts_with_bytes};
use crate::loader::obj::{
    add_to_group, add_to_group_exec, append_tris, copy_rows, grouped_triangles, groups_view, in_group,
    lemma_add_to_group_keeps_triangles, lemma_add_to_group_places, one_group_per_colour,
};
use crate::mesh::{rows_refer_within, scalar_refers_within, ColorValue, MeshData, Rgba8, Scalar, SubMesh};
use vstd::string::StringExecFns;

verus! {

/// The loader of FBX files.
pub struct FbxLoader {}

/// One mesh of an FBX scene, as the library reads it.
pub struct FbxPart {
    /// Vertex positions, as bit patterns.
    pub positions: Vec<[u32; 3]>,
    /// Vertex normals, as bit patterns (empty when the mesh has none).
    pub normals: Vec<[u32; 3]>,
    /// Per polygon: the index of its first corner in `vertex_indices`, and
    /// its number of corners.
    pub faces: Vec<(u32, u32)>,
    /// The vertex of each polygon corner.
    pub vertex_indices: Vec<u32>,
    /// The material slot of each polygon (missing ones read as 0).
    pub face_material: Vec<u32>,
    /// Colour keys of the materials attached to the scene node.
    pub node_materials: Vec<Rgba8>,
    /// Colour keys of the materials attached to the mesh.
    pub mesh_materials: Vec<Rgba8>,
}

/// The polygons of a part lie within its corner list.
pub open spec fn part_in_range(p: FbxPart) -> bool {
    &&& p.vertex_indices@.len() <= u32::MAX
    &&& forall|f: int| 0 <= f < p.faces@.len() ==> (#[trigger] p.faces@[f]).0 + p.faces@[f].1
        <= p.vertex_indices@.len()
}

/// The colour key of material slot `idx`: the node's material, else the
/// mesh's, else the node's first, else the mesh's first.
pub open spec fn slot_key(node: Seq<Rgba8>, mesh: Seq<Rgba8>, idx: int) -> Option<Rgba8> {
    if 0 <= idx < node.len() {
        Some(node[idx])
    } else if 0 <= idx < mesh.len() {
        Some(mesh[idx])
    } else if node.len() > 0 {
        Some(node[0])
    } else if mesh.len() > 0 {
        Some(mesh[0])
    } else {
        None
    }
}

/// The colour key of polygon `f`.
pub open spec fn face_key(p: FbxPart, f: int) -> Option<Rgba8> {
    let slot = if f < p.face_material@.len() {
        p.face_material@[f] as int
    } else {
        0
    };
    slot_key(p.node_materials@, p.mesh_materials@, slot)
}

/// The triangle fan of polygon `f`.
pub open spec fn face_fan(p: FbxPart, f: int) -> Seq<[u32; 3]> {
    let (begin, n) = p.faces@[f];
    if n >= 3 {
        Seq::new((n - 2) as nat, |t: int| [
            p.vertex_indices@[begin as int],
            p.vertex_indices@[begin + t + 1],
            p.vertex_indices@[begin + t + 2],
        ])
    } else {
        Seq::empty()
    }
}

/// The first `k` polygons of a part: its triangles in order, and by colour.
pub open spec fn part_triangles(p: FbxPart, k: int) -> (Seq<[u32; 3]>, Seq<(Option<Rgba8>, Seq<[u32; 3]>)>)
    decreases k,
{
    if k <= 0 {
        (Seq::empty(), Seq::empty())
    } else {
        let (tris, groups) = part_triangles(p, k - 1);
        let fan = face_fan(p, k - 1);
        if fan.len() > 0 {
            (tris + fan, add_to_group(groups, face_key(p, k - 1), fan))
        } else {
            (tris, groups)
        }
    }
}

/// The colour groups of a part hold exactly its triangles, each once, and
/// no colour has two groups.
pub proof fn lemma_part_groups_hold_the_triangles(p: FbxPart, k: int)
    ensures
        grouped_triangles(part_triangles(p, k).1).to_multiset() == part_triangles(p, k).0.to_multiset(),
        one_group_per_colour(part_triangles(p, k).1),
    decreases k,
{
    broadcast use vstd::seq_lib::lemma_multiset_commutative;

    if k <= 0 {
        assert(grouped_triangles(part_triangles(p, k).1) =~= part_triangles(p, k).0);
    } else {
        lemma_part_groups_hold_the_triangles(p, k - 1);
        let (tris, groups) = part_triangles(p, k - 1);
        let fan = face_fan(p, k - 1);
        lemma_add_to_group_keeps_triangles(groups, face_key(p, k - 1), fan);
        assert((tris + fan).to_multiset() =~= tris.to_multiset().add(fan.to_multiset()));
    }
}

/// Every triangle of polygon `f` is grouped under the colour of that
/// polygon's own material slot `face_material[f]`: the node's material of
/// that slot when there is one, else as `slot_key` falls back; never under
/// the slot of another polygon. A polygon past the end of `face_material`
/// reads slot 0.
pub proof fn lemma_polygon_grouped_by_its_slot(p: FbxPart, k: int, f: int, t: [u32; 3])
    requires
        0 <= f < k,
        face_fan(p, f).contains(t),
    ensures
        f >= p.face_material@.len() ==> in_group(part_triangles(p, k).1, slot_key(p.node_materials@, p.mesh_materials@, 0), t),
        f < p.face_material@.len() ==> in_group(
            part_triangles(p, k).1,
            slot_key(p.node_materials@, p.mesh_materials@, p.face_material@[f] as int),
            t,
        ),
        f < p.face_material@.len() && (p.face_material@[f] as int) < p.node_materials@.len() ==> in_group(
            part_triangles(p, k).1,
            Some(p.node_materials@[p.face_material@[f] as int]),
            t,
        ),
    decreases k,
{
    let (tris, groups) = part_triangles(p, k - 1);
    let fan = face_fan(p, k - 1);
    lemma_add_to_group_places(groups, face_key(p, k - 1), fan);
    if f < k - 1 {
        lemma_polygon_grouped_by_its_slot(p, k - 1, f, t);
    }
}

/// Vertex rows as bit-pattern scalars.
pub open spec fn bit_rows(v: Seq<[u32; 3]>) -> Seq<[Scalar; 3]> {
    v.map_values(|x: [u32; 3]| [Scalar::Bits(x[0]), Scalar::Bits(x[1]), Scalar::Bits(x[2])])
}

/// Triangles moved by `base`, wrapping as `u32` does.
pub open spec fn shifted(tris: Seq<[u32; 3]>, base: u32) -> Seq<[u32; 3]> {
    tris.map_values(|t: [u32; 3]| [
        vstd::wrapping::u32_specs::wrapping_add(t[0], base),
        vstd::wrapping::u32_specs::wrapping_add(t[1], base),
        vstd::wrapping::u32_specs::wrapping_add(t[2], base),
    ])
}

/// The mesh of the first `k` parts: all positions and normals, all
/// triangles moved past the positions of the parts before, and per part
/// one coloured part for each colour group.
pub open spec fn fbx_mesh(parts: Seq<FbxPart>, k: int) -> (
    Seq<[Scalar; 3]>,
    Seq<[Scalar; 3]>,
    Seq<[u32; 3]>,
    Seq<(Seq<[Scalar; 3]>, Seq<[Scalar; 3]>, Seq<[u32; 3]>, Option<Rgba8>)>,
)
    decreases k,
{
    if k <= 0 {
        (Seq::empty(), Seq::empty(), Seq::empty(), Seq::empty())
    } else {
        let (pos, nor, ind, subs) = fbx_mesh(parts, k - 1);
        let p = parts[k - 1];
        let base = (pos.len() as int) as u32;
        let (tris, groups) = part_triangles(p, p.faces@.len() as int);
        let sp = bit_rows(p.positions@);
        let sn = bit_rows(p.normals@);
        (
            pos + sp,
            nor + sn,
            ind + shifted(tris, base),
            subs + groups.map_values(|g: (Option<Rgba8>, Seq<[u32; 3]>)| (sp, sn, g.1, g.0)),
        )
    }
}

/// The mesh matches the assembly of the parts.
pub open spec fn fbx_mesh_matches(m: MeshData, parts: Seq<FbxPart>) -> bool {
    let (pos, nor, ind, subs) = fbx_mesh(parts, parts.len() as int);
    &&& m.literals@.len() == 0
    &&& m.positions@ == pos
    &&& m.normals@ == nor
    &&& m.indices@ == ind
    &&& m.submeshes@.len() == subs.len()
    &&& forall|j: int| 0 <= j < subs.len() ==> {
        &&& (#[trigger] m.submeshes@[j]).positions@ == subs[j].0
        &&& m.submeshes@[j].normals@ == subs[j].1
        &&& m.submeshes@[j].indices@ == subs[j].2
        &&& m.submeshes@[j].color == match subs[j].3 {
            Some(c) => Some(ColorValue::Quantized(c)),
            None => None::<ColorValue>,
        }
    }
}

/// The bytes `Kaydara FBX Binary`, with which binary FBX files begin.
pub open spec fn fbx_magic() -> Seq<u8> {
    seq![
        0x4bu8, 0x61u8, 0x79u8, 0x64u8, 0x61u8, 0x72u8, 0x61u8, 0x20u8, 0x46u8, 0x42u8, 0x58u8,
        0x20u8, 0x42u8, 0x69u8, 0x6eu8, 0x61u8, 0x72u8, 0x79u8,
    ]
}

fn slot_key_exec(node: &Vec<Rgba8>, mesh: &Vec<Rgba8>, idx: u32) -> (res: Option<Rgba8>)
    ensures
        res == slot_key(node@, mesh@, idx as int),
{
    let i = idx as usize;
    if i < node.len() {
        Some(node[i])
    } else if i < mesh.len() {
        Some(mesh[i])
    } else if node.len() > 0 {
        Some(node[0])
    } else if mesh.len() > 0 {
        Some(mesh[0])
    } else {
        None
    }
}

fn push_bit_rows(src: &Vec<[u32; 3]>, dst: &mut Vec<[Scalar; 3]>, own: &mut Vec<[Scalar; 3]>)
    ensures
        final(dst)@ == old(dst)@ + bit_rows(src@),
        final(own)@ == old(own)@ + bit_rows(src@),
{
    let mut i: usize = 0;
    while i < src.len()
        invariant
            i <= src.len(),
            dst@ == old(dst)@ + bit_rows(src@.subrange(0, i as int)),
            own@ == old(own)@ + bit_rows(src@.subrange(0, i as int)),
        decreases src.len() - i,
    {
        let x = src[i];
        let r = [Scalar::Bits(x[0]), Scalar::Bits(x[1]), Scalar::Bits(x[2])];
        dst.push(r);
        own.push(r);
        assert(bit_rows(src@.subrange(0, i + 1)) =~= bit_rows(src@.subrange(0, i as int)).push(r));
        assert(dst@ =~= old(dst)@ + bit_rows(src@.subrange(0, i + 1)));
        assert(own@ =~= old(own)@ + bit_rows(src@.subrange(0, i + 1)));
        i = i + 1;
    }
    assert(src@.subrange(0, src.len() as int) =~= src@);
}

/// The triangles of a part, in order and by colour.
fn triangulate_part(p: &FbxPart) -> (res: (Vec<[u32; 3]>, Vec<(Option<Rgba8>, Vec<[u32; 3]>)>))
    requires
        part_in_range(*p),
    ensures
        (res.0@, groups_view(res.1@)) == part_triangles(*p, p.faces@.len() as int),
{
    let mut tris: Vec<[u32; 3]> = Vec::new();
    let mut groups: Vec<(Option<Rgba8>, Vec<[u32; 3]>)> = Vec::new();
    let mut f: usize = 0;
    assert(groups_view(groups@) =~= Seq::<(Option<Rgba8>, Seq<[u32; 3]>)>::empty());
    while f < p.faces.len()
        invariant
            f <= p.faces.len(),
            part_in_range(*p),
            (tris@, groups_view(groups@)) == part_triangles(*p, f as int),
        decreases p.faces.len() - f,
    {
        let (begin, n) = p.faces[f];
        assert(p.faces@[f as int].0 + p.faces@[f as int].1 <= p.vertex_indices@.len());
        let slot: u32 = if f < p.face_material.len() {
            p.face_material[f]
        } else {
            0
        };
        let key = slot_key_exec(&p.node_materials, &p.mesh_materials, slot);
        if n >= 3 {
            let mut fan: Vec<[u32; 3]> = Vec::new();
            let mut t: u32 = 0;
            while t < n - 2
                invariant
                    n >= 3,
                    (begin, n) == p.faces@[f as int],
                    begin + n <= p.vertex_indices@.len(),
                    p.vertex_indices@.len() <= u32::MAX,
                    t <= n - 2,
                    fan@ == face_fan(*p, f as int).subrange(0, t as int),
                decreases n - 2 - t,
            {
                let tri = [
                    p.vertex_indices[begin as usize],
                    p.vertex_indices[(begin + t + 1) as usize],
                    p.vertex_indices[(begin + t + 2) as usize],
                ];
                fan.push(tri);
                assert(fan@ =~= face_fan(*p, f as int).subrange(0, t + 1));
                t = t + 1;
            }
            assert(fan@ =~= face_fan(*p, f as int));
            append_tris(&mut tris, &fan);
            add_to_group_exec(&mut groups, key, &fan);
        } else {
            assert(face_fan(*p, f as int).len() == 0);
        }
        f = f + 1;
    }
    (tris, groups)
}

impl FbxLoader {
    /// The name of the format.
    pub fn name(&self) -> (res: &'static str)
        ensures
            res@ == "fbx"@,
    {
        "fbx"
    }

    /// An FBX file is one named `*.fbx` (any case) or one that begins with
    /// `Kaydara FBX Binary`.
    pub fn can_load(&self, path: &str, header: &[u8]) -> (res: bool)
        ensures
            res == (has_extension(path@, "fbx"@) || bytes_start_with(header@, fbx_magic())),
    {
        if extension_is(path, "fbx") {
            return true;
        }
        let magic: [u8; 18] = [
            0x4b, 0x61, 0x79, 0x64, 0x61, 0x72, 0x61, 0x20, 0x46, 0x42, 0x58, 0x20, 0x42, 0x69,
            0x6e, 0x61, 0x72, 0x79,
        ];
        assert(magic@ =~= fbx_magic());
        starts_with_bytes(header, magic.as_slice())
    }

    /// Builds the mesh of an FBX scene from its meshes: those of the scene
    /// nodes, or, when no node has one, the scene's meshes. A scene without
    /// any vertex is refused.
    pub fn assemble(&self, parts: &Vec<FbxPart>) -> (res: Result<MeshData, String>)
        requires
            forall|k: int| 0 <= k < parts@.len() ==> part_in_range(#[trigger] parts@[k]),
        ensures
            fbx_mesh(parts@, parts@.len() as int).0.len() == 0 ==> (res matches Err(e) && e@
                == "fbx: no positions found in model"@),
            fbx_mesh(parts@, parts@.len() as int).0.len() > 0 ==> (res matches Ok(m)
                && fbx_mesh_matches(m, parts@) && m.well_formed()),
    {
        let mut positions: Vec<[Scalar; 3]> = Vec::new();
        let mut normals: Vec<[Scalar; 3]> = Vec::new();
        let mut indices: Vec<[u32; 3]> = Vec::new();
        let mut submeshes: Vec<SubMesh> = Vec::new();
        let mut k: usize = 0;
        while k < parts.len()
            invariant
                k <= parts.len(),
                forall|q: int| 0 <= q < parts@.len() ==> part_in_range(#[trigger] parts@[q]),
                ({
                    let (pos, nor, ind, subs) = fbx_mesh(parts@, k as int);
                    &&& positions@ == pos
                    &&& normals@ == nor
                    &&& indices@ == ind
                    &&& submeshes@.len() == subs.len()
                    &&& forall|j: int| 0 <= j < subs.len() ==> {
                        &&& (#[trigger] submeshes@[j]).positions@ == subs[j].0
                        &&& submeshes@[j].normals@ == subs[j].1
                        &&& submeshes@[j].indices@ == subs[j].2
                        &&& submeshes@[j].color == match subs[j].3 {
                            Some(c) => Some(ColorValue::Quantized(c)),
                            None => None::<ColorValue>,
                        }
                    }
                }),
            decreases parts.len() - k,
        {
            let p = &parts[k];
            let ghost (pos0, nor0, ind0, subs0) = fbx_mesh(parts@, k as int);
            let base: u32 = #[verifier::truncate] (positions.len() as u32);
            let mut sp: Vec<[Scalar; 3]> = Vec::new();
            let mut sn: Vec<[Scalar; 3]> = Vec::new();
            push_bit_rows(&p.positions, &mut positions, &mut sp);
            push_bit_rows(&p.normals, &mut normals, &mut sn);
            assert(sp@ =~= bit_rows(p.positions@));
            assert(sn@ =~= bit_rows(p.normals@));
            assert(part_in_range(parts@[k as int]));
            let (tris, groups) = triangulate_part(p);
            let mut i: usize = 0;
            let ghost ind_start = indices@;
            while i < tris.len()
                invariant
                    i <= tris.len(),
                    indices@ == ind_start + shifted(tris@.subrange(0, i as int), base),
                decreases tris.len() - i,
            {
                let t = tris[i];
                indices.push([t[0].wrapping_add(base), t[1].wrapping_add(base), t[2].wrapping_add(base)]);
                assert(shifted(tris@.subrange(0, i + 1), base) =~= shifted(tris@.subrange(0, i as int), base).push(
                    [
                        vstd::wrapping::u32_specs::wrapping_add(t[0], base),
                        vstd::wrapping::u32_specs::wrapping_add(t[1], base),
                        vstd::wrapping::u32_specs::wrapping_add(t[2], base),
                    ],
                ));
                assert(indices@ =~= ind_start + shifted(tris@.subrange(0, i + 1), base));
                i = i + 1;
            }
            assert(tris@.subrange(0, tris@.len() as int) =~= tris@);
            let ghost gv = groups_view(groups@);
            let ghost sm0 = submeshes@;
            let mut g: usize = 0;
            while g < groups.len()
                invariant
                    g <= groups.len(),
                    gv == groups_view(groups@),
                    sp@ == bit_rows(p.positions@),
                    sn@ == bit_rows(p.normals@),
                    submeshes@.len() == sm0.len() + g,
                    forall|j: int| 0 <= j < sm0.len() ==> #[trigger] submeshes@[j] == sm0[j],
                    forall|j: int| 0 <= j < g ==> {
                        &&& (#[trigger] submeshes@[sm0.len() + j]).positions@ == sp@
                        &&& submeshes@[sm0.len() + j].normals@ == sn@
                        &&& submeshes@[sm0.len() + j].indices@ == gv[j].1
                        &&& submeshes@[sm0.len() + j].color == match gv[j].0 {
                            Some(c) => Some(ColorValue::Quantized(c)),
                            None => None::<ColorValue>,
                        }
                    },
                decreases groups.len() - g,
            {
                let mut ind: Vec<[u32; 3]> = Vec::new();
                append_tris(&mut ind, &groups[g].1);
                let color = match groups[g].0 {
                    Some(c) => Some(ColorValue::Quantized(c)),
                    None => None,
                };
                submeshes.push(SubMesh { positions: copy_rows(&sp), normals: copy_rows(&sn), indices: ind, color });
                g = g + 1;
            }
            proof {
                assert(base == (pos0.len() as int) as u32);
                let (pos1, nor1, ind1, subs1) = fbx_mesh(parts@, k + 1);
                let added = gv.map_values(|gg: (Option<Rgba8>, Seq<[u32; 3]>)| (bit_rows(p.positions@), bit_rows(p.normals@), gg.1, gg.0));
                assert(subs1 == subs0 + added);
                assert forall|j: int| 0 <= j < subs1.len() implies {
                    &&& (#[trigger] submeshes@[j]).positions@ == subs1[j].0
                    &&& submeshes@[j].normals@ == subs1[j].1
                    &&& submeshes@[j].indices@ == subs1[j].2
                    &&& submeshes@[j].color == match subs1[j].3 {
                        Some(c) => Some(ColorValue::Quantized(c)),
                        None => None::<ColorValue>,
                    }
                } by {
                    if j >= sm0.len() {
                        assert(submeshes@[sm0.len() + (j - sm0.len())] == submeshes@[j]);
                    }
                }
            }
            k = k + 1;
        }
        if positions.len() == 0 {
            return Err(String::from_str("fbx: no positions found in model"));
        }
        let m = MeshData { literals: Vec::new(), positions, normals, indices, submeshes };
        proof {
            lemma_bits_refer(parts@, parts@.len() as int);
        }
        Ok(m)
    }
}

/// Whether every polygon of the part lies within its corner list, as
/// `assemble` needs.
pub fn part_fits(p: &FbxPart) -> (res: bool)
    ensures
        res == part_in_range(*p),
{
    if p.vertex_indices.len() > 0xffff_ffff {
        return false;
    }
    let n = p.vertex_indices.len();
    let mut f: usize = 0;
    while f < p.faces.len()
        invariant
            f <= p.faces@.len(),
            n == p.vertex_indices@.len(),
            n <= u32::MAX,
            forall|g: int| 0 <= g < f ==> (#[trigger] p.faces@[g]).0 + p.faces@[g].1 <= n,
        decreases p.faces.len() - f,
    {
        let (begin, count) = p.faces[f];
        if begin as usize > n || count as usize > n - begin as usize {
            return false;
        }
        f = f + 1;
    }
    true
}

impl FbxLoader {
    /// Builds the mesh of an FBX scene: from the meshes of its nodes
    /// (placed in the world), or, when no node has a mesh, from the scene's
    /// meshes as they are (see `assemble`).
    pub fn assemble_scene(&self, node_parts: &Vec<FbxPart>, scene_parts: &Vec<FbxPart>) -> (res: Result<MeshData, String>)
        requires
            forall|k: int| 0 <= k < node_parts@.len() ==> part_in_range(#[trigger] node_parts@[k]),
            forall|k: int| 0 <= k < scene_parts@.len() ==> part_in_range(#[trigger] scene_parts@[k]),
        ensures
            ({
                let parts = if node_parts@.len() > 0 {
                    node_parts@
                } else {
                    scene_parts@
                };
                &&& fbx_mesh(parts, parts.len() as int).0.len() == 0 ==> (res matches Err(e) && e@
                    == "fbx: no positions found in model"@)
                &&& fbx_mesh(parts, parts.len() as int).0.len() > 0 ==> (res matches Ok(m)
                    && fbx_mesh_matches(m, parts) && m.well_formed())
            }),
    {
        if node_parts.len() > 0 {
            self.assemble(node_parts)
        } else {
            self.assemble(scene_parts)
        }
    }
}

proof fn lemma_bit_rows_refer(v: Seq<[u32; 3]>)
    ensures
        rows_refer_within(bit_rows(v), 0),
{
}

proof fn lemma_bits_refer(parts: Seq<FbxPart>, k: int)
    ensures
        rows_refer_within(fbx_mesh(parts, k).0, 0),
        rows_refer_within(fbx_mesh(parts, k).1, 0),
        forall|j: int| 0 <= j < fbx_mesh(parts, k).3.len() ==> rows_refer_within(
            (#[trigger] fbx_mesh(parts, k).3[j]).0,
            0,
        ) && rows_refer_within(fbx_mesh(parts, k).3[j].1, 0),
    decreases k,
{
    if k > 0 {
        lemma_bits_refer(parts, k - 1);
        let (pos, nor, ind, subs) = fbx_mesh(parts, k - 1);
        let p = parts[k - 1];
        let (pos1, nor1, ind1, subs1) = fbx_mesh(parts, k);
        assert forall|i: int, c: int| 0 <= i < pos1.len() && 0 <= c < 3 implies scalar_refers_within(
            #[trigger] pos1[i][c],
            0,
        ) by {
            if i >= pos.len() {
                assert(pos1[i] == bit_rows(p.positions@)[i - pos.len()]);
            }
        }
        assert forall|i: int, c: int| 0 <= i < nor1.len() && 0 <= c < 3 implies scalar_refers_within(
            #[trigger] nor1[i][c],
            0,
        ) by {
            if i >= nor.len() {
                assert(nor1[i] == bit_rows(p.normals@)[i - nor.len()]);
            }
        }
        assert forall|j: int| 0 <= j < subs1.len() implies rows_refer_within(
            (#[trigger] subs1[j]).0,
            0,
        ) && rows_refer_within(subs1[j].1, 0) by {
            if j >= subs.len() {
                lemma_bit_rows_refer(p.positions@);
                lemma_bit_rows_refer(p.normals@);
            }
        }
    }
}

} // verus!
