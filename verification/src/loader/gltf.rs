//! glTF models, as JSON with embedded or binary buffers (`.gltf`, `.glb`).

use vstd::prelude::*;

use super::{bytes_start_with, extension_is, has_extension, starts_with_bytes};
use super::gltf_layout::{
    buffers_importable, gltf_buffer_lengths, gltf_check, gltf_images_check, gltf_importable, gltf_layout,
    gltf_primitives_readable, gltf_readable, images_importable,
};
use crate::mesh::{rows_refer_within, scalar_refers_within, ColorValue, MeshData, Scalar, SubMesh};
use vstd::string::StringExecFns;

verus! {

/// The loader of glTF files.
pub struct GltfLoader {}

/// One primitive of a glTF mesh, with floats as bit patterns: its
/// vertex attributes (positions first, normals second) when it has them,
/// its indices when it has them, and the base colour factor of its
/// material.
pub struct GltfPrimitive {
    pub attributes: [Option<Vec<[u32; 3]>>; 2],
    pub indices: Option<Vec<u32>>,
    pub base_color: [u32; 4],
}

/// A primitive as plain values.
pub open spec fn primitive_view(p: GltfPrimitive) -> (
    Option<Seq<[u32; 3]>>,
    Option<Seq<[u32; 3]>>,
    Option<Seq<u32>>,
    [u32; 4],
) {
    (
        match p.attributes[0] {
            Some(v) => Some(v@),
            None => None,
        },
        match p.attributes[1] {
            Some(v) => Some(v@),
            None => None,
        },
        match p.indices {
            Some(v) => Some(v@),
            None => None,
        },
        p.base_color,
    )
}

/// What `gltf::import_slice` makes of a file: the primitives of all its
/// meshes in order (positions, normals, indices read as `u32`, base colour
/// factor), or the text of its error.
pub uninterp spec fn gltf_decode(bytes: Seq<u8>) -> Result<
    Seq<(Option<Seq<[u32; 3]>>, Option<Seq<[u32; 3]>>, Option<Seq<u32>>, [u32; 4])>,
    Seq<char>,
>;

/// Calls `gltf::import_slice` alone, for its outcome: the error's text, which
/// is the one `gltf_decode` names, or success, after which the primitives are
/// read. On other files than the importable ones the crate's own code can
/// fail (a relative buffer URI that does not percent-decode to UTF-8, an
/// image without its MIME type or URI, an image view past its buffer's
/// data), so those are left out. On success the document is imported a
/// second time by `read_gltf`.
#[verifier::external_body]
pub(crate) fn gltf_import(bytes: &[u8]) -> (res: Result<(), String>)
    requires
        gltf_importable(bytes@),
    ensures
        match res {
            Ok(_) => gltf_decode(bytes@) is Ok,
            Err(e) => gltf_decode(bytes@) == Err::<Seq<(Option<Seq<[u32; 3]>>, Option<Seq<[u32; 3]>>, Option<Seq<u32>>, [u32; 4])>, _>(e@),
        },
{
    gltf::import_slice(bytes).map(|_| ()).map_err(|e| e.to_string())
}

/// Calls `gltf::import_slice` and reads each primitive of each mesh with
/// its reader, floats taken as bit patterns. Depends on the bytes alone;
/// named, not written out. On other layouts than the readable ones the
/// crate's own code can fail (besides the import's cases, an item wider
/// than its stride or a range it cannot compute), so those are left out.
#[verifier::external_body]
pub(crate) fn read_gltf(bytes: &[u8]) -> (res: Result<Vec<GltfPrimitive>, String>)
    requires
        gltf_readable(bytes@),
    ensures
        match res {
            Ok(v) => gltf_decode(bytes@) == Ok::<_, Seq<char>>(v@.map_values(|p: GltfPrimitive| primitive_view(p))),
            Err(e) => gltf_decode(bytes@) == Err::<Seq<(Option<Seq<[u32; 3]>>, Option<Seq<[u32; 3]>>, Option<Seq<u32>>, [u32; 4])>, _>(e@),
        },
{
    let (doc, bufs, _) = gltf::import_slice(bytes).map_err(|e| e.to_string())?;
    Ok(doc.meshes().flat_map(|m| m.primitives()).map(|p| {
        let r = p.reader(|b| Some(&bufs[b.index()]));
        GltfPrimitive {
            attributes: [r.read_positions(), r.read_normals()].map(|o| o.map(|i| i.map(|v| v.map(|c| c.to_bits())).collect())),
            indices: r.read_indices().map(|i| i.into_u32().collect()),
            base_color: p.material().pbr_metallic_roughness().base_color_factor().map(|c| c.to_bits()),
        }
    }).collect())
}

/// The sign bit of a single-precision float.
pub open spec fn negate_bits(b: u32) -> u32 {
    b ^ 0x8000_0000u32
}

/// A glTF vector `(x, y, z)` in the viewer's axes: `(x, -z, y)`.
pub open spec fn gltf_axes(v: [u32; 3]) -> [Scalar; 3] {
    [Scalar::Bits(v[0]), Scalar::Bits(negate_bits(v[2])), Scalar::Bits(v[1])]
}

/// The rows of an optional vector list, converted to the viewer's axes.
pub open spec fn gltf_rows(v: Option<Seq<[u32; 3]>>) -> Seq<[Scalar; 3]> {
    match v {
        Some(s) => s.map_values(|x: [u32; 3]| gltf_axes(x)),
        None => Seq::empty(),
    }
}

/// The triangles of an index list: its complete triples, in order.
pub open spec fn index_triples(idx: Seq<u32>) -> Seq<[u32; 3]> {
    Seq::new(idx.len() / 3, |j: int| [idx[3 * j], idx[3 * j + 1], idx[3 * j + 2]])
}

/// The triangles of an unindexed primitive with `count` vertices:
/// consecutive triples.
pub open spec fn consecutive_triples(count: u32) -> Seq<[u32; 3]> {
    Seq::new((count / 3) as nat, |j: int| [(3 * j) as u32, (3 * j + 1) as u32, (3 * j + 2) as u32])
}

/// The triangles of a primitive, in its own vertex numbering.
pub open spec fn primitive_triangles(p: (Option<Seq<[u32; 3]>>, Option<Seq<[u32; 3]>>, Option<Seq<u32>>, [u32; 4])) -> Seq<[u32; 3]> {
    match p.2 {
        Some(idx) => index_triples(idx),
        None => consecutive_triples((gltf_rows(p.0).len() as int) as u32),
    }
}

/// Triangles moved by `base`, wrapping as `u32` does.
pub open spec fn moved(tris: Seq<[u32; 3]>, base: u32) -> Seq<[u32; 3]> {
    tris.map_values(|t: [u32; 3]| [
        vstd::wrapping::u32_specs::wrapping_add(t[0], base),
        vstd::wrapping::u32_specs::wrapping_add(t[1], base),
        vstd::wrapping::u32_specs::wrapping_add(t[2], base),
    ])
}

/// The mesh of the first `k` primitives: positions and normals of all of
/// them, triangles moved past the positions before them, and one part per
/// primitive coloured by its base colour factor.
pub open spec fn gltf_mesh(prims: Seq<(Option<Seq<[u32; 3]>>, Option<Seq<[u32; 3]>>, Option<Seq<u32>>, [u32; 4])>, k: int) -> (
    Seq<[Scalar; 3]>,
    Seq<[Scalar; 3]>,
    Seq<[u32; 3]>,
    Seq<(Seq<[Scalar; 3]>, Seq<[Scalar; 3]>, Seq<[u32; 3]>, [u32; 4])>,
)
    decreases k,
{
    if k <= 0 {
        (Seq::empty(), Seq::empty(), Seq::empty(), Seq::empty())
    } else {
        let (pos, nor, ind, parts) = gltf_mesh(prims, k - 1);
        let p = prims[k - 1];
        let base = (pos.len() as int) as u32;
        let tris = primitive_triangles(p);
        (
            pos + gltf_rows(p.0),
            nor + gltf_rows(p.1),
            ind + moved(tris, base),
            parts.push((gltf_rows(p.0), gltf_rows(p.1), tris, p.3)),
        )
    }
}

/// The mesh matches the assembly of the primitives.
pub open spec fn gltf_mesh_matches(m: MeshData, prims: Seq<(Option<Seq<[u32; 3]>>, Option<Seq<[u32; 3]>>, Option<Seq<u32>>, [u32; 4])>) -> bool {
    let (pos, nor, ind, parts) = gltf_mesh(prims, prims.len() as int);
    &&& m.literals@.len() == 0
    &&& m.positions@ == pos
    &&& m.normals@ == nor
    &&& m.indices@ == ind
    &&& m.submeshes@.len() == parts.len()
    &&& forall|j: int| 0 <= j < parts.len() ==> {
        &&& (#[trigger] m.submeshes@[j]).positions@ == parts[j].0
        &&& m.submeshes@[j].normals@ == parts[j].1
        &&& m.submeshes@[j].indices@ == parts[j].2
        &&& m.submeshes@[j].color == Some(ColorValue::Bits(parts[j].3))
    }
}

/// How many vertices the first `k` parts have.
pub open spec fn rows_before(subs: Seq<SubMesh>, k: int) -> nat
    decreases k,
{
    if k <= 0 {
        0
    } else {
        rows_before(subs, k - 1) + subs[k - 1].positions@.len()
    }
}

/// How many triangles the first `k` parts have.
pub open spec fn triangles_before(subs: Seq<SubMesh>, k: int) -> nat
    decreases k,
{
    if k <= 0 {
        0
    } else {
        triangles_before(subs, k - 1) + subs[k - 1].indices@.len()
    }
}

/// How many vertices the first `k` parts of an assembly have.
pub open spec fn part_rows(parts: Seq<(Seq<[Scalar; 3]>, Seq<[Scalar; 3]>, Seq<[u32; 3]>, [u32; 4])>, k: int) -> nat
    decreases k,
{
    if k <= 0 {
        0
    } else {
        part_rows(parts, k - 1) + parts[k - 1].0.len()
    }
}

/// How many triangles the first `k` parts of an assembly have.
pub open spec fn part_tris(parts: Seq<(Seq<[Scalar; 3]>, Seq<[Scalar; 3]>, Seq<[u32; 3]>, [u32; 4])>, k: int) -> nat
    decreases k,
{
    if k <= 0 {
        0
    } else {
        part_tris(parts, k - 1) + parts[k - 1].2.len()
    }
}

proof fn lemma_part_counts_push(
    parts: Seq<(Seq<[Scalar; 3]>, Seq<[Scalar; 3]>, Seq<[u32; 3]>, [u32; 4])>,
    x: (Seq<[Scalar; 3]>, Seq<[Scalar; 3]>, Seq<[u32; 3]>, [u32; 4]),
    k: int,
)
    requires
        k <= parts.len(),
    ensures
        part_rows(parts.push(x), k) == part_rows(parts, k),
        part_tris(parts.push(x), k) == part_tris(parts, k),
    decreases k,
{
    if k > 0 {
        lemma_part_counts_push(parts, x, k - 1);
        assert(parts.push(x)[k - 1] == parts[k - 1]);
    }
}

proof fn lemma_part_counts_monotone(parts: Seq<(Seq<[Scalar; 3]>, Seq<[Scalar; 3]>, Seq<[u32; 3]>, [u32; 4])>, a: int, b: int)
    requires
        0 <= a <= b <= parts.len(),
    ensures
        part_rows(parts, a) + (if a < b { parts[a].0.len() as int } else { 0 }) <= part_rows(parts, b),
        part_tris(parts, a) + (if a < b { parts[a].2.len() as int } else { 0 }) <= part_tris(parts, b),
    decreases b - a,
{
    if a < b {
        lemma_part_counts_monotone(parts, a + 1, b);
    }
}

/// The assembly of the first `k` primitives lays each primitive's vertices
/// and triangles one after another: primitive `j`'s vertices sit in the
/// positions after those of the primitives before it, and each of its
/// triangles sits after theirs, its corners moved by the number of their
/// vertices.
proof fn lemma_gltf_mesh_layout(
    prims: Seq<(Option<Seq<[u32; 3]>>, Option<Seq<[u32; 3]>>, Option<Seq<u32>>, [u32; 4])>,
    k: int,
)
    requires
        0 <= k <= prims.len(),
    ensures
        ({
            let (pos, nor, ind, parts) = gltf_mesh(prims, k);
            &&& parts.len() == k
            &&& pos.len() == part_rows(parts, k)
            &&& ind.len() == part_tris(parts, k)
            &&& forall|j: int, i: int| 0 <= j < k && 0 <= i < parts[j].0.len() ==> pos[part_rows(parts, j) + i]
                == #[trigger] parts[j].0[i]
            &&& forall|j: int, i: int, c: int| 0 <= j < k && 0 <= i < parts[j].2.len() && 0 <= c < 3 ==> ind[part_tris(parts, j) + i][c]
                == vstd::wrapping::u32_specs::wrapping_add(#[trigger] parts[j].2[i][c], (part_rows(parts, j) as int) as u32)
        }),
    decreases k,
{
    if k > 0 {
        lemma_gltf_mesh_layout(prims, k - 1);
        let (pos0, nor0, ind0, parts0) = gltf_mesh(prims, k - 1);
        let (pos, nor, ind, parts) = gltf_mesh(prims, k);
        let x = parts[k - 1];
        assert(parts == parts0.push(x));
        lemma_part_counts_push(parts0, x, k - 1);
        assert forall|j: int, i: int| 0 <= j < k && 0 <= i < parts[j].0.len() implies pos[part_rows(parts, j) + i]
            == #[trigger] parts[j].0[i] by {
            if j < k - 1 {
                lemma_part_counts_push(parts0, x, j);
                lemma_part_counts_monotone(parts0, j, k - 1);
                assert(parts[j] == parts0[j]);
            }
        }
        assert forall|j: int, i: int, c: int| 0 <= j < k && 0 <= i < parts[j].2.len() && 0 <= c < 3 implies ind[part_tris(parts, j) + i][c]
            == vstd::wrapping::u32_specs::wrapping_add(#[trigger] parts[j].2[i][c], (part_rows(parts, j) as int) as u32) by {
            if j < k - 1 {
                lemma_part_counts_push(parts0, x, j);
                lemma_part_counts_monotone(parts0, j, k - 1);
                assert(parts[j] == parts0[j]);
            }
        }
    }
}

proof fn lemma_sub_counts(
    m: MeshData,
    parts: Seq<(Seq<[Scalar; 3]>, Seq<[Scalar; 3]>, Seq<[u32; 3]>, [u32; 4])>,
    k: int,
)
    requires
        0 <= k <= parts.len(),
        m.submeshes@.len() == parts.len(),
        forall|j: int| 0 <= j < parts.len() ==> {
            &&& (#[trigger] m.submeshes@[j]).positions@ == parts[j].0
            &&& m.submeshes@[j].indices@ == parts[j].2
        },
    ensures
        rows_before(m.submeshes@, k) == part_rows(parts, k),
        triangles_before(m.submeshes@, k) == part_tris(parts, k),
    decreases k,
{
    if k > 0 {
        lemma_sub_counts(m, parts, k - 1);
        assert(m.submeshes@[k - 1].positions@ == parts[k - 1].0);
    }
}

/// In an assembled glTF mesh the parts (one per primitive) follow one
/// another: part `j`'s vertices are the positions after those of the parts
/// before it, and each of its triangles is, in the mesh's triangle list
/// after theirs, its own triangle with every corner moved by the number of
/// vertices before it; so every corner of part `j` addresses one of part
/// `j`'s own vertices.
pub proof fn lemma_gltf_parts_follow_one_another(
    m: MeshData,
    prims: Seq<(Option<Seq<[u32; 3]>>, Option<Seq<[u32; 3]>>, Option<Seq<u32>>, [u32; 4])>,
)
    requires
        gltf_mesh_matches(m, prims),
    ensures
        m.positions@.len() == rows_before(m.submeshes@, m.submeshes@.len() as int),
        m.indices@.len() == triangles_before(m.submeshes@, m.submeshes@.len() as int),
        forall|j: int, i: int| 0 <= j < m.submeshes@.len() && 0 <= i < m.submeshes@[j].positions@.len()
            ==> m.positions@[rows_before(m.submeshes@, j) + i] == #[trigger] m.submeshes@[j].positions@[i],
        forall|j: int, i: int, c: int| 0 <= j < m.submeshes@.len() && 0 <= i < m.submeshes@[j].indices@.len() && 0 <= c < 3
            ==> m.indices@[triangles_before(m.submeshes@, j) + i][c] == vstd::wrapping::u32_specs::wrapping_add(
            #[trigger] m.submeshes@[j].indices@[i][c],
            (rows_before(m.submeshes@, j) as int) as u32,
        ),
{
    let n = prims.len() as int;
    lemma_gltf_mesh_layout(prims, n);
    let (pos, nor, ind, parts) = gltf_mesh(prims, n);
    lemma_sub_counts(m, parts, n);
    assert forall|j: int, i: int| 0 <= j < m.submeshes@.len() && 0 <= i < m.submeshes@[j].positions@.len()
        implies m.positions@[rows_before(m.submeshes@, j) + i] == #[trigger] m.submeshes@[j].positions@[i] by {
        lemma_sub_counts(m, parts, j);
        assert(m.submeshes@[j].positions@ == parts[j].0);
        assert(pos[part_rows(parts, j) + i] == parts[j].0[i]);
    }
    assert forall|j: int, i: int, c: int| 0 <= j < m.submeshes@.len() && 0 <= i < m.submeshes@[j].indices@.len() && 0 <= c < 3
        implies m.indices@[triangles_before(m.submeshes@, j) + i][c] == vstd::wrapping::u32_specs::wrapping_add(
        #[trigger] m.submeshes@[j].indices@[i][c],
        (rows_before(m.submeshes@, j) as int) as u32,
    ) by {
        lemma_sub_counts(m, parts, j);
        assert(m.submeshes@[j].indices@ == parts[j].2);
        assert(ind[part_tris(parts, j) + i][c] == vstd::wrapping::u32_specs::wrapping_add(
            parts[j].2[i][c],
            (part_rows(parts, j) as int) as u32,
        ));
    }
}

/// The bytes `glTF`, with which binary glTF files begin.
pub open spec fn gltf_magic() -> Seq<u8> {
    seq![0x67u8, 0x6cu8, 0x54u8, 0x46u8]
}

fn axes_rows(v: &Option<Vec<[u32; 3]>>, dst: &mut Vec<[Scalar; 3]>, sub: &mut Vec<[Scalar; 3]>)
    ensures
        ({
            let rows = gltf_rows(match v {
                Some(x) => Some(x@),
                None => None,
            });
            &&& final(dst)@ == old(dst)@ + rows
            &&& final(sub)@ == old(sub)@ + rows
        }),
{
    match v {
        Some(list) => {
            let ghost rows = list@.map_values(|x: [u32; 3]| gltf_axes(x));
            let mut i: usize = 0;
            while i < list.len()
                invariant
                    i <= list.len(),
                    rows == list@.map_values(|x: [u32; 3]| gltf_axes(x)),
                    dst@ == old(dst)@ + rows.subrange(0, i as int),
                    sub@ == old(sub)@ + rows.subrange(0, i as int),
                decreases list.len() - i,
            {
                let x = list[i];
                let r = [Scalar::Bits(x[0]), Scalar::Bits(x[2] ^ 0x8000_0000u32), Scalar::Bits(x[1])];
                assert(r == gltf_axes(x));
                dst.push(r);
                sub.push(r);
                assert(dst@ =~= old(dst)@ + rows.subrange(0, i + 1));
                assert(sub@ =~= old(sub)@ + rows.subrange(0, i + 1));
                i = i + 1;
            }
            assert(rows.subrange(0, list.len() as int) =~= rows);
        },
        None => {
            assert(dst@ =~= old(dst)@ + Seq::<[Scalar; 3]>::empty());
            assert(sub@ =~= old(sub)@ + Seq::<[Scalar; 3]>::empty());
        },
    }
}

fn push_tri(ind: &mut Vec<[u32; 3]>, sub: &mut Vec<[u32; 3]>, t: [u32; 3], base: u32)
    ensures
        final(sub)@ == old(sub)@.push(t),
        final(ind)@ == old(ind)@ + moved(seq![t], base),
{
    sub.push(t);
    ind.push([t[0].wrapping_add(base), t[1].wrapping_add(base), t[2].wrapping_add(base)]);
    assert(ind@ =~= old(ind)@ + moved(seq![t], base));
}

proof fn lemma_moved_push(tris: Seq<[u32; 3]>, t: [u32; 3], base: u32)
    ensures
        moved(tris.push(t), base) == moved(tris, base) + moved(seq![t], base),
{
    assert(moved(tris.push(t), base) =~= moved(tris, base) + moved(seq![t], base));
}

/// Assembles the mesh of decoded primitives.
pub fn gltf_mesh_data(prims: &Vec<GltfPrimitive>) -> (res: MeshData)
    ensures
        gltf_mesh_matches(res, prims@.map_values(|p: GltfPrimitive| primitive_view(p))),
        res.well_formed(),
{
    let ghost pv = prims@.map_values(|p: GltfPrimitive| primitive_view(p));
    let mut positions: Vec<[Scalar; 3]> = Vec::new();
    let mut normals: Vec<[Scalar; 3]> = Vec::new();
    let mut indices: Vec<[u32; 3]> = Vec::new();
    let mut submeshes: Vec<SubMesh> = Vec::new();
    let mut k: usize = 0;
    while k < prims.len()
        invariant
            k <= prims.len(),
            pv == prims@.map_values(|p: GltfPrimitive| primitive_view(p)),
            ({
                let (pos, nor, ind, parts) = gltf_mesh(pv, k as int);
                &&& positions@ == pos
                &&& normals@ == nor
                &&& indices@ == ind
                &&& submeshes@.len() == parts.len()
                &&& forall|j: int| 0 <= j < parts.len() ==> {
                    &&& (#[trigger] submeshes@[j]).positions@ == parts[j].0
                    &&& submeshes@[j].normals@ == parts[j].1
                    &&& submeshes@[j].indices@ == parts[j].2
                    &&& submeshes@[j].color == Some(ColorValue::Bits(parts[j].3))
                }
            }),
            forall|i: int, c: int| 0 <= i < positions@.len() && 0 <= c < 3 ==> (#[trigger] positions@[i][c]) is Bits,
            forall|i: int, c: int| 0 <= i < normals@.len() && 0 <= c < 3 ==> (#[trigger] normals@[i][c]) is Bits,
            forall|j: int, i: int, c: int| 0 <= j < submeshes@.len() && 0 <= i < submeshes@[j].positions@.len() && 0 <= c < 3 ==> (#[trigger] submeshes@[j].positions@[i][c]) is Bits,
            forall|j: int, i: int, c: int| 0 <= j < submeshes@.len() && 0 <= i < submeshes@[j].normals@.len() && 0 <= c < 3 ==> (#[trigger] submeshes@[j].normals@[i][c]) is Bits,
        decreases prims.len() - k,
    {
        let p = &prims[k];
        assert(pv[k as int] == primitive_view(prims@[k as int]));
        let base: u32 = #[verifier::truncate] (positions.len() as u32);
        let ghost (pos0, nor0, ind0, parts0) = gltf_mesh(pv, k as int);
        let mut sub_positions: Vec<[Scalar; 3]> = Vec::new();
        let mut sub_normals: Vec<[Scalar; 3]> = Vec::new();
        let mut sub_indices: Vec<[u32; 3]> = Vec::new();
        axes_rows(&p.attributes[0], &mut positions, &mut sub_positions);
        axes_rows(&p.attributes[1], &mut normals, &mut sub_normals);
        assert(sub_positions@ =~= gltf_rows(pv[k as int].0));
        assert(sub_normals@ =~= gltf_rows(pv[k as int].1));
        let ghost ind_start = indices@;
        match &p.indices {
            Some(list) => {
                let total = list.len();
                let n3 = total / 3;
                let mut j: usize = 0;
                while j < n3
                    invariant
                        total == list@.len(),
                        n3 == list@.len() / 3,
                        j <= n3,
                        sub_indices@ == index_triples(list@).subrange(0, j as int),
                        indices@ == ind_start + moved(sub_indices@, base),
                    decreases n3 - j,
                {
                    assert(3 * j + 2 < total) by (nonlinear_arith)
                        requires
                            j < n3,
                            n3 == total / 3,
                    ;
                    let i3: usize = 3 * j;
                    let t = [list[i3], list[i3 + 1], list[i3 + 2]];
                    proof {
                        lemma_moved_push(sub_indices@, t, base);
                    }
                    push_tri(&mut indices, &mut sub_indices, t, base);
                    assert(sub_indices@ =~= index_triples(list@).subrange(0, j + 1));
                    j = j + 1;
                }
                assert(index_triples(list@).subrange(0, n3 as int) =~= index_triples(list@));
            },
            None => {
                let count: u32 = #[verifier::truncate] (sub_positions.len() as u32);
                assert(count == (gltf_rows(pv[k as int].0).len() as int) as u32);
                let n3 = count / 3;
                let mut j: u32 = 0;
                while j < n3
                    invariant
                        n3 == count / 3,
                        j <= n3,
                        sub_indices@ == consecutive_triples(count).subrange(0, j as int),
                        indices@ == ind_start + moved(sub_indices@, base),
                    decreases n3 - j,
                {
                    let i = 3 * j;
                    let t = [i, i + 1, i + 2];
                    proof {
                        lemma_moved_push(sub_indices@, t, base);
                    }
                    push_tri(&mut indices, &mut sub_indices, t, base);
                    assert(sub_indices@ =~= consecutive_triples(count).subrange(0, j + 1));
                    j = j + 1;
                }
                assert(consecutive_triples(count).subrange(0, n3 as int) =~= consecutive_triples(count));
            },
        }
        let ghost sp = sub_positions@;
        let ghost sn = sub_normals@;
        let ghost si = sub_indices@;
        let ghost sm0 = submeshes@;
        submeshes.push(SubMesh {
            positions: sub_positions,
            normals: sub_normals,
            indices: sub_indices,
            color: Some(ColorValue::Bits(p.base_color)),
        });
        proof {
            assert(base == (pos0.len() as int) as u32);
            let (pos1, nor1, ind1, parts1) = gltf_mesh(pv, k + 1);
            assert(parts1 == parts0.push((sp, sn, si, pv[k as int].3)));
            assert forall|j: int| 0 <= j < parts1.len() implies {
                &&& (#[trigger] submeshes@[j]).positions@ == parts1[j].0
                &&& submeshes@[j].normals@ == parts1[j].1
                &&& submeshes@[j].indices@ == parts1[j].2
                &&& submeshes@[j].color == Some(ColorValue::Bits(parts1[j].3))
            } by {
                if j < parts0.len() {
                    assert(submeshes@[j] == sm0[j]);
                }
            }
        }
        k = k + 1;
    }
    let m = MeshData { literals: Vec::new(), positions, normals, indices, submeshes };
    proof {
        assert(pv.len() == prims@.len());
        assert forall|j: int| 0 <= j < m.submeshes@.len() implies {
            &&& rows_refer_within(#[trigger] m.submeshes@[j].positions@, 0)
            &&& rows_refer_within(m.submeshes@[j].normals@, 0)
        } by {
            assert forall|i: int, c: int| 0 <= i < m.submeshes@[j].positions@.len() && 0 <= c < 3 implies scalar_refers_within(
                #[trigger] m.submeshes@[j].positions@[i][c],
                0,
            ) by {}
            assert forall|i: int, c: int| 0 <= i < m.submeshes@[j].normals@.len() && 0 <= c < 3 implies scalar_refers_within(
                #[trigger] m.submeshes@[j].normals@[i][c],
                0,
            ) by {}
        }
    }
    m
}

impl GltfLoader {
    /// The name of the format.
    pub fn name(&self) -> (res: &'static str)
        ensures
            res@ == "gltf"@,
    {
        "gltf"
    }

    /// A glTF file is one named `*.gltf` or `*.glb` (any case), or one
    /// that begins with `glTF`.
    pub fn can_load(&self, path: &str, header: &[u8]) -> (res: bool)
        ensures
            res == (has_extension(path@, "gltf"@) || has_extension(path@, "glb"@) || bytes_start_with(
                header@,
                gltf_magic(),
            )),
    {
        if extension_is(path, "gltf") || extension_is(path, "glb") {
            return true;
        }
        let magic: [u8; 4] = [0x67, 0x6c, 0x54, 0x46];
        assert(magic@ =~= gltf_magic());
        starts_with_bytes(header, magic.as_slice())
    }

    /// Decodes a glTF file; a file that does not decode gives the decoder's
    /// error after `gltf parse error: `. A file on which the decoder would
    /// fail inside its own code is refused: one with a buffer URI it cannot
    /// look at, before the import; one whose images do not name their
    /// sources within the imported buffers, after the buffers imported; one
    /// whose primitives its readers cannot read, after the import succeeded.
    pub fn load(&self, _path: &str, data: &[u8]) -> (res: Result<MeshData, String>)
        ensures
            match gltf_layout(data@) {
                Err(e) => res matches Err(msg) && msg@ == "gltf parse error: "@ + e,
                Ok(l) => if !buffers_importable(l) {
                    res matches Err(msg) && msg@ == "gltf parse error: unsupported buffer or accessor layout"@
                } else {
                    match gltf_buffer_lengths(data@) {
                        Err(e) => res matches Err(msg) && msg@ == "gltf parse error: "@ + e,
                        Ok(lengths) => if !images_importable(l, lengths) {
                            res matches Err(msg) && msg@ == "gltf parse error: unsupported buffer or accessor layout"@
                        } else {
                            match gltf_decode(data@) {
                                Err(e) => res matches Err(msg) && msg@ == "gltf parse error: "@ + e,
                                Ok(prims) => if gltf_primitives_readable(l) {
                                    res matches Ok(m) && gltf_mesh_matches(m, prims) && m.well_formed()
                                } else {
                                    res matches Err(msg) && msg@
                                        == "gltf parse error: unsupported buffer or accessor layout"@
                                },
                            }
                        },
                    }
                },
            },
    {
        let (importable, readable) = match gltf_check(data) {
            Err(e) => {
                let mut msg = String::from_str("gltf parse error: ");
                msg.append(e.as_str());
                return Err(msg);
            },
            Ok(flags) => flags,
        };
        if !importable {
            return Err(String::from_str("gltf parse error: unsupported buffer or accessor layout"));
        }
        match gltf_images_check(data) {
            Err(e) => {
                let mut msg = String::from_str("gltf parse error: ");
                msg.append(e.as_str());
                return Err(msg);
            },
            Ok(false) => {
                return Err(String::from_str("gltf parse error: unsupported buffer or accessor layout"));
            },
            Ok(true) => {},
        }
        if let Err(e) = gltf_import(data) {
            let mut msg = String::from_str("gltf parse error: ");
            msg.append(e.as_str());
            return Err(msg);
        }
        if !readable {
            return Err(String::from_str("gltf parse error: unsupported buffer or accessor layout"));
        }
        match read_gltf(data) {
            Ok(prims) => Ok(gltf_mesh_data(&prims)),
            Err(e) => {
                let mut msg = String::from_str("gltf parse error: ");
                msg.append(e.as_str());
                Err(msg)
            },
        }
    }
}

} // verus!
