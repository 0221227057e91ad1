//! The mesh that every loader produces, and the statistics that the viewer
//! shows of it.
//!
//! Coordinates and colour components are single-precision floats in the
//! viewer. The library carries each of them exactly, without arithmetic:
//! either as the bit pattern of the float, or as a decimal literal of the
//! model file (kept once in `MeshData::literals`) together with a sign flip.

use vstd::prelude::*;
use vstd::std_specs::hash::group_hash_axioms;
use vstd::set_lib::lemma_map_size;
use std::collections::HashSet;

use crate::numbers::is_float_literal;

verus! {

/// One coordinate or colour component of the mesh.
#[derive(Clone, Copy, Debug)]
pub enum Scalar {
    /// The single-precision float with this bit pattern.
    Bits(u32),
    /// The value of the decimal literal `literals[index]` of the mesh,
    /// negated when `negated` holds.
    Literal { index: usize, negated: bool },
}

/// A colour with one byte per component, red, green, blue and alpha.
#[derive(Clone, Copy, Debug, PartialEq, Eq, Structural)]
pub struct Rgba8 {
    pub r: u8,
    pub g: u8,
    pub b: u8,
    pub a: u8,
}

/// The colour of a part of the mesh, red, green, blue and alpha.
#[derive(Clone, Copy, Debug)]
pub enum ColorValue {
    /// Each component is the byte divided by 255.
    Quantized(Rgba8),
    /// Each component is the single-precision float with this bit pattern.
    Bits([u32; 4]),
}

/// A part of the mesh drawn in one colour.
pub struct SubMesh {
    pub positions: Vec<[Scalar; 3]>,
    pub normals: Vec<[Scalar; 3]>,
    pub indices: Vec<[u32; 3]>,
    pub color: Option<ColorValue>,
}

/// A loaded model: its vertices, normals and triangles, and the same
/// geometry split by colour.
pub struct MeshData {
    /// The decimal literals that `Scalar::Literal` refers to.
    pub literals: Vec<Vec<char>>,
    pub positions: Vec<[Scalar; 3]>,
    pub normals: Vec<[Scalar; 3]>,
    pub indices: Vec<[u32; 3]>,
    pub submeshes: Vec<SubMesh>,
}

/// The counts shown in the details overlay.
#[derive(Clone, Copy, Debug, PartialEq, Eq, Structural)]
pub struct ModelStats {
    pub vertices: usize,
    pub lines: usize,
    pub faces: usize,
}

/// What a scalar stands for, read apart from the literal table: a bit
/// pattern, or a decimal text with a sign flip.
pub enum Coord {
    Bits(u32),
    Text(Seq<char>, bool),
}

/// The value of a scalar, with its literal looked up.
pub open spec fn scalar_value(lits: Seq<Vec<char>>, s: Scalar) -> Coord {
    match s {
        Scalar::Bits(b) => Coord::Bits(b),
        Scalar::Literal { index, negated } => Coord::Text(lits[index as int]@, negated),
    }
}

/// The value of a row of three scalars.
pub open spec fn row_value(lits: Seq<Vec<char>>, r: [Scalar; 3]) -> [Coord; 3] {
    [scalar_value(lits, r[0]), scalar_value(lits, r[1]), scalar_value(lits, r[2])]
}

/// The values of rows of scalars.
pub open spec fn rows_value(lits: Seq<Vec<char>>, rows: Seq<[Scalar; 3]>) -> Seq<[Coord; 3]> {
    rows.map_values(|r: [Scalar; 3]| row_value(lits, r))
}

/// Adding a literal to the table leaves the values of rows that refer to
/// the old table alone.
pub proof fn lemma_rows_value_push(lits: Seq<Vec<char>>, x: Vec<char>, rows: Seq<[Scalar; 3]>)
    requires
        rows_refer_within(rows, lits.len()),
    ensures
        rows_value(lits.push(x), rows) == rows_value(lits, rows),
{
    assert forall|i: int| 0 <= i < rows.len() implies #[trigger] row_value(lits.push(x), rows[i])
        == row_value(lits, rows[i]) by {
        assert(scalar_refers_within(rows[i][0], lits.len()));
        assert(scalar_refers_within(rows[i][1], lits.len()));
        assert(scalar_refers_within(rows[i][2], lits.len()));
    }
    assert(rows_value(lits.push(x), rows) =~= rows_value(lits, rows));
}

/// A scalar whose literal, if any, is one of `n` literals.
pub open spec fn scalar_refers_within(s: Scalar, n: nat) -> bool {
    match s {
        Scalar::Bits(_) => true,
        Scalar::Literal { index, .. } => index < n,
    }
}

/// All scalars of the rows refer to one of `n` literals.
pub open spec fn rows_refer_within(rows: Seq<[Scalar; 3]>, n: nat) -> bool {
    forall|i: int, k: int|
        0 <= i < rows.len() && 0 <= k < 3 ==> scalar_refers_within(#[trigger] rows[i][k], n)
}

impl MeshData {
    /// Every literal is one that `f32::from_str` accepts, and every scalar
    /// refers to an existing literal.
    pub open spec fn well_formed(&self) -> bool {
        &&& forall|i: int| 0 <= i < self.literals@.len() ==> is_float_literal(
            #[trigger] self.literals@[i]@,
        )
        &&& rows_refer_within(self.positions@, self.literals@.len())
        &&& rows_refer_within(self.normals@, self.literals@.len())
        &&& forall|j: int| 0 <= j < self.submeshes@.len() ==> {
            &&& rows_refer_within(#[trigger] self.submeshes@[j].positions@, self.literals@.len())
            &&& rows_refer_within(self.submeshes@[j].normals@, self.literals@.len())
        }
    }
}

/// An edge between two vertices as `compute_stats` records it, encoded in
/// one integer.
pub open spec fn pair_key(a: u32, b: u32) -> u64 {
    ((a as u64) << 32u64) | (b as u64)
}

/// The edge of two distinct vertices, smaller index first.
pub open spec fn undirected(a: u32, b: u32) -> (u32, u32) {
    if a < b {
        (a, b)
    } else {
        (b, a)
    }
}

/// The undirected edges of a triangle between distinct corners.
pub open spec fn triangle_edges(t: [u32; 3]) -> Set<(u32, u32)> {
    let (a, b, c) = (t[0], t[1], t[2]);
    let e1 = if a != b {
        set![undirected(a, b)]
    } else {
        Set::empty()
    };
    let e2 = if b != c {
        set![undirected(b, c)]
    } else {
        Set::empty()
    };
    let e3 = if c != a {
        set![undirected(c, a)]
    } else {
        Set::empty()
    };
    e1.union(e2).union(e3)
}

/// All undirected edges of the triangles.
pub open spec fn mesh_edges(tris: Seq<[u32; 3]>) -> Set<(u32, u32)>
    decreases tris.len(),
{
    if tris.len() == 0 {
        Set::empty()
    } else {
        mesh_edges(tris.drop_last()).union(triangle_edges(tris.last()))
    }
}

/// The directed edges `(i, i+1)`, `(i+1, i+2)`, `(i+2, i)` of the
/// consecutive vertex triples of an unindexed mesh with `count` vertices,
/// the first `n` triples counted; indices are taken as `u32`.
pub open spec fn strip_edges(count: nat, n: nat) -> Set<(u32, u32)>
    decreases n,
{
    if n == 0 {
        Set::empty()
    } else {
        let i = 3 * (n - 1);
        let prev = strip_edges(count, (n - 1) as nat);
        if i + 2 < count {
            prev.insert((i as u32, (i + 1) as u32)).insert(((i + 1) as u32, (i + 2) as u32)).insert(
                ((i + 2) as u32, i as u32),
            )
        } else {
            prev
        }
    }
}

/// What the details overlay shows of a mesh.
pub open spec fn mesh_stats(positions: nat, indices: Seq<[u32; 3]>) -> (nat, nat, nat) {
    if indices.len() > 0 {
        (positions, mesh_edges(indices).len(), indices.len())
    } else {
        (positions, strip_edges(positions, ((positions + 2) / 3) as nat).len(), positions / 3)
    }
}

/// The key of an edge.
pub open spec fn edge_key(e: (u32, u32)) -> u64 {
    pair_key(e.0, e.1)
}

/// Encoding an edge as its key, as a function value.
pub open spec fn key_fn() -> spec_fn((u32, u32)) -> u64 {
    |e: (u32, u32)| edge_key(e)
}

proof fn lemma_pair_key_injective()
    ensures
        injective_on_all(),
{
    assert forall|a: u32, b: u32, c: u32, d: u32|
        pair_key(a, b) == pair_key(c, d) implies a == c && b == d by {
        assert(((a as u64) << 32u64) | (b as u64) == ((c as u64) << 32u64) | (d as u64) ==> a
            == c && b == d) by (bit_vector);
    }
}

/// `pair_key` tells pairs apart.
pub open spec fn injective_on_all() -> bool {
    forall|a: u32, b: u32, c: u32, d: u32| #[trigger]
        pair_key(a, b) == #[trigger] pair_key(c, d) ==> a == c && b == d
}

proof fn lemma_keys_count(s: Set<(u32, u32)>, keys: Set<u64>)
    requires
        s.finite(),
        s.map(key_fn()) == keys,
    ensures
        keys.finite(),
        keys.len() == s.len(),
{
    lemma_pair_key_injective();
    let f = key_fn();
    assert(vstd::relations::injective_on(f, s)) by {
        assert forall|x: (u32, u32), y: (u32, u32)|
            s.contains(x) && s.contains(y) && #[trigger] f(x) == #[trigger] f(y) implies x == y by {
            assert(pair_key(x.0, x.1) == pair_key(y.0, y.1));
        }
    }
    lemma_map_size(s, keys, f);
}

proof fn lemma_triangle_edges_few(t: [u32; 3])
    ensures
        triangle_edges(t).finite(),
        triangle_edges(t).len() <= 3,
{
    let (a, b, c) = (t[0], t[1], t[2]);
    let e1 = if a != b {
        set![undirected(a, b)]
    } else {
        Set::empty()
    };
    let e2 = if b != c {
        set![undirected(b, c)]
    } else {
        Set::empty()
    };
    let e3 = if c != a {
        set![undirected(c, a)]
    } else {
        Set::empty()
    };
    assert(e1.finite() && e1.len() <= 1);
    assert(e2.finite() && e2.len() <= 1);
    assert(e3.finite() && e3.len() <= 1);
    vstd::set_lib::lemma_len_union(e1, e2);
    vstd::set_lib::lemma_len_union(e1.union(e2), e3);
}

/// A mesh has at most three edges per triangle.
pub proof fn lemma_edges_at_most_three_per_face(tris: Seq<[u32; 3]>)
    ensures
        mesh_edges(tris).finite(),
        mesh_edges(tris).len() <= 3 * tris.len(),
    decreases tris.len(),
{
    if tris.len() > 0 {
        lemma_edges_at_most_three_per_face(tris.drop_last());
        lemma_triangle_edges_few(tris.last());
        vstd::set_lib::lemma_len_union(mesh_edges(tris.drop_last()), triangle_edges(tris.last()));
    }
}

proof fn lemma_strip_edges_finite(count: nat, n: nat)
    ensures
        strip_edges(count, n).finite(),
    decreases n,
{
    if n > 0 {
        lemma_strip_edges_finite(count, (n - 1) as nat);
    }
}

proof fn lemma_map_insert(s: Set<(u32, u32)>, e: (u32, u32))
    ensures
        s.insert(e).map(key_fn()) =~= s.map(key_fn()).insert(
            edge_key(e),
        ),
{
    let f = key_fn();
    assert forall|k: u64| #[trigger] s.insert(e).map(f).contains(k) implies s.map(f).insert(
        edge_key(e),
    ).contains(k) by {
        let x = choose|x: (u32, u32)| s.insert(e).contains(x) && f(x) == k;
        if x != e {
            assert(s.contains(x));
        }
    }
    assert forall|k: u64| #[trigger] s.map(f).insert(edge_key(e)).contains(k) implies s.insert(
        e,
    ).map(f).contains(k) by {
        if k == edge_key(e) {
            assert(s.insert(e).contains(e) && f(e) == k);
        } else {
            let x = choose|x: (u32, u32)| s.contains(x) && f(x) == k;
            assert(s.insert(e).contains(x));
        }
    }
}

/// Adds the key of an edge to the set, and the edge to its ghost model.
fn add_edge(edges: &mut HashSet<u64>, Ghost(model): Ghost<Set<(u32, u32)>>, a: u32, b: u32)
    requires
        old(edges)@ == model.map(key_fn()),
    ensures
        final(edges)@ == model.insert((a, b)).map(key_fn()),
{
    broadcast use group_hash_axioms;

    proof {
        lemma_map_insert(model, (a, b));
    }
    edges.insert(((a as u64) << 32u64) | (b as u64));
}

/// The number of vertices, distinct edges and faces of a mesh. For a mesh
/// without indices the vertices are read as consecutive triangles.
pub fn compute_stats(mesh: &MeshData) -> (res: ModelStats)
    ensures
        (res.vertices as nat, res.lines as nat, res.faces as nat) == mesh_stats(
            mesh.positions@.len(),
            mesh.indices@,
        ),
{
    broadcast use group_hash_axioms;

    let vertices = mesh.positions.len();
    if mesh.indices.len() > 0 {
        let faces = mesh.indices.len();
        let mut edges: HashSet<u64> = HashSet::new();
        let mut i: usize = 0;
        let ghost mut model: Set<(u32, u32)> = Set::empty();
        assert(edges@ =~= model.map(key_fn()));
        while i < faces
            invariant
                faces == mesh.indices@.len(),
                i <= faces,
                model == mesh_edges(mesh.indices@.subrange(0, i as int)),
                edges@ == model.map(key_fn()),
            decreases faces - i,
        {
            let tri = mesh.indices[i];
            let (a, b, c) = (tri[0], tri[1], tri[2]);
            let ghost pre = mesh.indices@.subrange(0, i as int);
            let ghost next = mesh.indices@.subrange(0, i + 1);
            assert(next.drop_last() =~= pre);
            assert(next.last() == tri);
            let ghost m0 = model;
            if a != b {
                let (x, y) = if a < b { (a, b) } else { (b, a) };
                add_edge(&mut edges, Ghost(model), x, y);
                proof { model = model.insert((x, y)); }
            }
            if b != c {
                let (x, y) = if b < c { (b, c) } else { (c, b) };
                add_edge(&mut edges, Ghost(model), x, y);
                proof { model = model.insert((x, y)); }
            }
            if c != a {
                let (x, y) = if c < a { (c, a) } else { (a, c) };
                add_edge(&mut edges, Ghost(model), x, y);
                proof { model = model.insert((x, y)); }
            }
            assert(model =~= m0.union(triangle_edges(tri)));
            i = i + 1;
        }
        proof {
            assert(mesh.indices@.subrange(0, faces as int) =~= mesh.indices@);
            lemma_edges_at_most_three_per_face(mesh.indices@);
            lemma_keys_count(mesh_edges(mesh.indices@), edges@);
        }
        ModelStats { vertices, lines: edges.len(), faces }
    } else {
        let count = mesh.positions.len();
        let faces = count / 3;
        let total: usize = if count % 3 != 0 { count / 3 + 1 } else { count / 3 };
        assert(total == (count + 2) / 3);
        let mut edges: HashSet<u64> = HashSet::new();
        let mut n: usize = 0;
        let ghost mut model: Set<(u32, u32)> = Set::empty();
        assert(edges@ =~= model.map(key_fn()));
        while n < total
            invariant
                count == mesh.positions@.len(),
                total == (count + 2) / 3,
                n <= total,
                model == strip_edges(count as nat, n as nat),
                edges@ == model.map(key_fn()),
            decreases total - n,
        {
            let i: usize = 3 * n;
            if count - i > 2 {
                let a = #[verifier::truncate] (i as u32);
                let b = #[verifier::truncate] ((i + 1) as u32);
                let c = #[verifier::truncate] ((i + 2) as u32);
                add_edge(&mut edges, Ghost(model), a, b);
                proof { model = model.insert((a, b)); }
                add_edge(&mut edges, Ghost(model), b, c);
                proof { model = model.insert((b, c)); }
                add_edge(&mut edges, Ghost(model), c, a);
                proof { model = model.insert((c, a)); }
            }
            n = n + 1;
        }
        proof {
            lemma_strip_edges_finite(count as nat, n as nat);
            lemma_keys_count(strip_edges(count as nat, n as nat), edges@);
        }
        ModelStats { vertices, lines: edges.len(), faces }
    }
}

} // verus!
