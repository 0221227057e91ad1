//! STL models, ASCII or binary.

use vstd::prelude::*;

use super::{bytes_start_with, extension_is, has_extension, starts_with_bytes};
use crate::mesh::{rows_refer_within, scalar_refers_within, MeshData, Scalar, SubMesh};
use vstd::string::StringExecFns;

verus! {

/// The loader of STL files.
pub struct StlLoader {}

/// A decoded STL file: its distinct vertices, and per facet the normal and
/// the indices of the three corners; coordinates as float bit patterns.
pub struct StlMesh {
    pub vertices: Vec<[u32; 3]>,
    pub faces: Vec<([u32; 3], [usize; 3])>,
}

/// What `stl_io::read_stl` makes of a file: the mesh, or the text of the
/// error it reports.
pub uninterp spec fn stl_decode(bytes: Seq<u8>) -> Result<(Seq<[u32; 3]>, Seq<([u32; 3], [usize; 3])>), Seq<char>>;

/// Calls `stl_io::read_stl` on the bytes, with coordinates taken as bit
/// patterns. Its result depends on the bytes alone; it is named, not
/// written out.
#[verifier::external_body]
pub(crate) fn read_stl(bytes: &[u8]) -> (res: Result<StlMesh, String>)
    ensures
        match res {
            Ok(m) => stl_decode(bytes@) == Ok::<_, Seq<char>>((m.vertices@, m.faces@)),
            Err(e) => stl_decode(bytes@) == Err::<(Seq<[u32; 3]>, Seq<([u32; 3], [usize; 3])>), _>(e@),
        },
{
    let mut cursor = std::io::Cursor::new(bytes);
    match stl_io::read_stl(&mut cursor) {
        Ok(im) => Ok(StlMesh {
            vertices: im.vertices.iter().map(|v| [v[0].to_bits(), v[1].to_bits(), v[2].to_bits()]).collect(),
            faces: im.faces.iter().map(|f| ([f.normal[0].to_bits(), f.normal[1].to_bits(), f.normal[2].to_bits()], f.vertices)).collect(),
        }),
        Err(e) => Err(e.to_string()),
    }
}

/// Three coordinates given by their bit patterns.
pub open spec fn bits3(v: [u32; 3]) -> [Scalar; 3] {
    [Scalar::Bits(v[0]), Scalar::Bits(v[1]), Scalar::Bits(v[2])]
}

/// The face's corners, as `u32` indices.
pub open spec fn face_indices(f: ([u32; 3], [usize; 3])) -> [u32; 3] {
    [f.1[0] as u32, f.1[1] as u32, f.1[2] as u32]
}

/// A face whose three corners are vertices of the mesh.
pub open spec fn face_in_range(f: ([u32; 3], [usize; 3]), n: nat) -> bool {
    f.1[0] < n && f.1[1] < n && f.1[2] < n
}

/// Unrolling the first `k` faces into a mesh where each face has three
/// vertices of its own: positions, normals (the face normal, thrice) and
/// triangles; faces with a corner out of range are left out.
pub open spec fn unrolled(vertices: Seq<[u32; 3]>, faces: Seq<([u32; 3], [usize; 3])>, k: int) -> (
    Seq<[Scalar; 3]>,
    Seq<[Scalar; 3]>,
    Seq<[u32; 3]>,
)
    decreases k,
{
    if k <= 0 {
        (Seq::empty(), Seq::empty(), Seq::empty())
    } else {
        let (p, n, t) = unrolled(vertices, faces, k - 1);
        let f = faces[k - 1];
        if face_in_range(f, vertices.len()) {
            let base = (p.len() as int) as u32;
            (
                p.push(bits3(vertices[f.1[0] as int])).push(bits3(vertices[f.1[1] as int])).push(
                    bits3(vertices[f.1[2] as int]),
                ),
                n.push(bits3(f.0)).push(bits3(f.0)).push(bits3(f.0)),
                t.push(
                    [
                        base,
                        vstd::wrapping::u32_specs::wrapping_add(base, 1),
                        vstd::wrapping::u32_specs::wrapping_add(base, 2),
                    ],
                ),
            )
        } else {
            (p, n, t)
        }
    }
}

/// The mesh of a decoded STL file: its vertices and triangles as decoded,
/// no normals, and one uncoloured part with every valid face unrolled.
pub open spec fn stl_mesh_matches(m: MeshData, vertices: Seq<[u32; 3]>, faces: Seq<([u32; 3], [usize; 3])>) -> bool {
    let (p, n, t) = unrolled(vertices, faces, faces.len() as int);
    &&& m.literals@.len() == 0
    &&& m.positions@ == vertices.map_values(|v: [u32; 3]| bits3(v))
    &&& m.normals@.len() == 0
    &&& m.indices@ == faces.map_values(|f: ([u32; 3], [usize; 3])| face_indices(f))
    &&& m.submeshes@.len() == 1
    &&& m.submeshes@[0].positions@ == p
    &&& m.submeshes@[0].normals@ == n
    &&& m.submeshes@[0].indices@ == t
    &&& m.submeshes@[0].color is None
}

/// The bytes `solid`, with which ASCII STL files begin.
pub open spec fn solid_magic() -> Seq<u8> {
    seq![0x73u8, 0x6fu8, 0x6cu8, 0x69u8, 0x64u8]
}

fn bits_of(v: [u32; 3]) -> (res: [Scalar; 3])
    ensures
        res == bits3(v),
{
    [Scalar::Bits(v[0]), Scalar::Bits(v[1]), Scalar::Bits(v[2])]
}

proof fn lemma_unrolled_bits(vertices: Seq<[u32; 3]>, faces: Seq<([u32; 3], [usize; 3])>, k: int)
    ensures
        rows_refer_within(unrolled(vertices, faces, k).0, 0),
        rows_refer_within(unrolled(vertices, faces, k).1, 0),
    decreases k,
{
    if k > 0 {
        lemma_unrolled_bits(vertices, faces, k - 1);
    }
}

/// Builds the mesh of a decoded STL file.
pub fn stl_mesh_data(m: &StlMesh) -> (res: MeshData)
    ensures
        stl_mesh_matches(res, m.vertices@, m.faces@),
        res.well_formed(),
{
    let nv = m.vertices.len();
    let mut positions: Vec<[Scalar; 3]> = Vec::new();
    let mut i: usize = 0;
    while i < nv
        invariant
            nv == m.vertices@.len(),
            i <= nv,
            positions@ == m.vertices@.subrange(0, i as int).map_values(|v: [u32; 3]| bits3(v)),
        decreases nv - i,
    {
        positions.push(bits_of(m.vertices[i]));
        assert(positions@ =~= m.vertices@.subrange(0, i + 1).map_values(|v: [u32; 3]| bits3(v)));
        i = i + 1;
    }
    assert(m.vertices@.subrange(0, nv as int) =~= m.vertices@);
    let nf = m.faces.len();
    let mut indices: Vec<[u32; 3]> = Vec::new();
    let mut sub_positions: Vec<[Scalar; 3]> = Vec::new();
    let mut sub_normals: Vec<[Scalar; 3]> = Vec::new();
    let mut sub_indices: Vec<[u32; 3]> = Vec::new();
    let mut k: usize = 0;
    while k < nf
        invariant
            nf == m.faces@.len(),
            nv == m.vertices@.len(),
            k <= nf,
            indices@ == m.faces@.subrange(0, k as int).map_values(
                |f: ([u32; 3], [usize; 3])| face_indices(f),
            ),
            (sub_positions@, sub_normals@, sub_indices@) == unrolled(
                m.vertices@,
                m.faces@,
                k as int,
            ),
        decreases nf - k,
    {
        let f = m.faces[k];
        let (normal, corners) = f;
        let tri: [u32; 3] = [
            #[verifier::truncate] (corners[0] as u32),
            #[verifier::truncate] (corners[1] as u32),
            #[verifier::truncate] (corners[2] as u32),
        ];
        indices.push(tri);
        assert(indices@ =~= m.faces@.subrange(0, k + 1).map_values(
            |f: ([u32; 3], [usize; 3])| face_indices(f),
        ));
        let ia = corners[0];
        let ib = corners[1];
        let ic = corners[2];
        if ia < nv && ib < nv && ic < nv {
            let base: u32 = #[verifier::truncate] (sub_positions.len() as u32);
            sub_positions.push(bits_of(m.vertices[ia]));
            sub_positions.push(bits_of(m.vertices[ib]));
            sub_positions.push(bits_of(m.vertices[ic]));
            sub_normals.push(bits_of(normal));
            sub_normals.push(bits_of(normal));
            sub_normals.push(bits_of(normal));
            sub_indices.push([base, base.wrapping_add(1), base.wrapping_add(2)]);
        }
        k = k + 1;
    }
    assert(m.faces@.subrange(0, nf as int) =~= m.faces@);
    let sub = SubMesh {
        positions: sub_positions,
        normals: sub_normals,
        indices: sub_indices,
        color: None,
    };
    let mut submeshes: Vec<SubMesh> = Vec::new();
    submeshes.push(sub);
    proof {
        lemma_unrolled_bits(m.vertices@, m.faces@, nf as int);
        assert forall|i: int, c: int| 0 <= i < positions@.len() && 0 <= c < 3 implies scalar_refers_within(
            #[trigger] positions@[i][c],
            0,
        ) by {
            assert(positions@[i] == bits3(m.vertices@[i]));
        }
    }
    MeshData { literals: Vec::new(), positions, normals: Vec::new(), indices, submeshes }
}

impl StlLoader {
    /// The name of the format.
    pub fn name(&self) -> (res: &'static str)
        ensures
            res@ == "stl"@,
    {
        "stl"
    }

    /// An STL file is one named `*.stl` (any case) or one that begins with `solid`.
    pub fn can_load(&self, path: &str, header: &[u8]) -> (res: bool)
        ensures
            res == (has_extension(path@, "stl"@) || bytes_start_with(header@, solid_magic())),
    {
        if extension_is(path, "stl") {
            return true;
        }
        let magic: [u8; 5] = [0x73, 0x6f, 0x6c, 0x69, 0x64];
        assert(magic@ =~= solid_magic());
        starts_with_bytes(header, magic.as_slice())
    }

    /// Decodes an STL file; a file that does not decode gives the decoder's
    /// error after `stl parse error: `.
    pub fn load(&self, _path: &str, data: &[u8]) -> (res: Result<MeshData, String>)
        ensures
            match stl_decode(data@) {
                Ok((v, f)) => res matches Ok(m) && stl_mesh_matches(m, v, f) && m.well_formed(),
                Err(e) => res matches Err(msg) && msg@ == "stl parse error: "@ + e,
            },
    {
        match read_stl(data) {
            Ok(m) => Ok(stl_mesh_data(&m)),
            Err(e) => {
                let mut msg = String::from_str("stl parse error: ");
                msg.append(e.as_str());
                Err(msg)
            },
        }
    }
}

} // verus!
