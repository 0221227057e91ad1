//! Wavefront OBJ models, with the diffuse colours of their MTL material
//! libraries.
//!
//! Reading an OBJ file takes two passes: `material_libraries` names the
//! material files that the model refers to; the caller reads each of them
//! and gives `load` the colour table of each (see `parse_mtl`), in the
//! order of the references.

use vstd::prelude::*;

use super::{extension_is, has_extension};
use crate::mesh::{
    lemma_rows_value_push, rows_refer_within, rows_value, scalar_refers_within, ColorValue, Coord,
    MeshData, Rgba8, Scalar, SubMesh,
};
use crate::numbers::{is_float_literal, is_float_text, parse_i32, parse_i32_spec};
use crate::text::{
    byte_rows, byte_lines, char_rows, copy_chars, decode_utf8_chars, eq_chars, split_lines,
    split_words, trim, trim_white, words,
};
use vstd::utf8::{decode_utf8, valid_utf8};

verus! {

/// The loader of Wavefront OBJ files.
pub struct ObjLoader {}

/// The state of the OBJ reader after some lines.
pub struct ObjState {
    pub positions: Seq<[Coord; 3]>,
    pub normals: Seq<[Coord; 3]>,
    pub indices: Seq<[u32; 3]>,
    /// The triangles by colour, in the order in which each colour first occurs.
    pub groups: Seq<(Option<Rgba8>, Seq<[u32; 3]>)>,
    /// Material names and colours, in the order they were read; a later
    /// entry of a name hides earlier ones.
    pub materials: Seq<(Seq<char>, Rgba8)>,
    pub current: Option<Rgba8>,
    /// How many material library references were met.
    pub libraries: nat,
}

/// The reader's state before the first line.
pub open spec fn obj_start() -> ObjState {
    ObjState {
        positions: Seq::empty(),
        normals: Seq::empty(),
        indices: Seq::empty(),
        groups: Seq::empty(),
        materials: Seq::empty(),
        current: None,
        libraries: 0,
    }
}

/// The `i`-th word as a coordinate: its literal when it reads as a float,
/// zero otherwise; negated when `neg`.
pub open spec fn coord_at(w: Seq<Seq<char>>, i: int, neg: bool) -> Coord {
    if i < w.len() && is_float_literal(w[i]) {
        Coord::Text(w[i], neg)
    } else {
        Coord::Bits(if neg { 0x8000_0000u32 } else { 0u32 })
    }
}

/// A `v` or `vn` line: `(x, y, z)` becomes `(x, -z, y)`, turning the
/// file's y-up axes into the viewer's z-up axes.
pub open spec fn obj_vector(w: Seq<Seq<char>>) -> [Coord; 3] {
    [coord_at(w, 1, false), coord_at(w, 3, true), coord_at(w, 2, false)]
}

/// Index of the first `/` in a word, or its length.
pub open spec fn slash_position(t: Seq<char>) -> int
    decreases t.len(),
{
    if t.len() == 0 {
        0
    } else if t[0] == '/' {
        0
    } else {
        1 + slash_position(t.drop_first())
    }
}

/// The vertex part of a face corner such as `7/2/5`.
pub open spec fn vertex_part(t: Seq<char>) -> Seq<char> {
    t.subrange(0, slash_position(t))
}

/// A face corner's vertex number as a zero-based position index, given
/// the number of positions read so far: `k > 0` is the `k`-th position,
/// `k < 0` counts back from the last, `0` is read as the first.
pub open spec fn obj_index(k: i32, n: nat) -> u32 {
    if k > 0 {
        (k - 1) as u32
    } else if k < 0 {
        vstd::wrapping::i32_specs::wrapping_add(n as i32, k) as u32
    } else {
        0
    }
}

/// A face's vertex number `k` addresses the `n` positions read so far: `1`
/// to `n` are the first to the last, `-1` to `-n` the last back to the
/// first.
pub proof fn lemma_face_index_addresses_positions(k: i32, n: nat)
    requires
        n <= i32::MAX,
    ensures
        1 <= k <= n ==> obj_index(k, n) == k - 1,
        -(n as int) <= k <= -1 ==> obj_index(k, n) == n + k,
        (1 <= k <= n || -(n as int) <= k <= -1) ==> obj_index(k, n) < n,
{
    if k < 0 && -(n as int) <= k {
        assert(vstd::wrapping::i32_specs::wrapping_add(n as i32, k) == n + k);
    }
}

/// The corners of a face line (its words after the first) whose vertex
/// part reads as a number.
pub open spec fn face_corners(toks: Seq<Seq<char>>, n: nat) -> Seq<u32>
    decreases toks.len(),
{
    if toks.len() == 0 {
        Seq::empty()
    } else {
        let prev = face_corners(toks.drop_last(), n);
        match parse_i32_spec(vertex_part(toks.last())) {
            Some(k) => prev.push(obj_index(k, n)),
            None => prev,
        }
    }
}

/// The triangle fan of a polygon: `(p0, p1, p2)`, `(p0, p2, p3)`, ...
pub open spec fn fan(p: Seq<u32>) -> Seq<[u32; 3]> {
    Seq::new((p.len() - 2) as nat, |j: int| [p[0], p[j + 1], p[j + 2]])
}

/// The colour of the last material of that name.
pub open spec fn last_material(mats: Seq<(Seq<char>, Rgba8)>, name: Seq<char>) -> Option<Rgba8>
    decreases mats.len(),
{
    if mats.len() == 0 {
        None
    } else if mats.last().0 == name {
        Some(mats.last().1)
    } else {
        last_material(mats.drop_last(), name)
    }
}

/// The index of the group of that colour, or the number of groups.
pub open spec fn group_position(groups: Seq<(Option<Rgba8>, Seq<[u32; 3]>)>, key: Option<Rgba8>) -> int
    decreases groups.len(),
{
    if groups.len() == 0 {
        0
    } else if groups[0].0 == key {
        0
    } else {
        1 + group_position(groups.drop_first(), key)
    }
}

/// The groups with triangles added to the group of their colour, a new
/// group at the end when the colour is new.
pub open spec fn add_to_group(
    groups: Seq<(Option<Rgba8>, Seq<[u32; 3]>)>,
    key: Option<Rgba8>,
    tris: Seq<[u32; 3]>,
) -> Seq<(Option<Rgba8>, Seq<[u32; 3]>)> {
    let g = group_position(groups, key);
    if g < groups.len() {
        groups.update(g, (key, groups[g].1 + tris))
    } else {
        groups.push((key, tris))
    }
}

/// All triangles of the groups, group after group.
pub open spec fn grouped_triangles(groups: Seq<(Option<Rgba8>, Seq<[u32; 3]>)>) -> Seq<[u32; 3]>
    decreases groups.len(),
{
    if groups.len() == 0 {
        Seq::empty()
    } else {
        grouped_triangles(groups.drop_last()) + groups.last().1
    }
}

/// No two groups share a colour.
pub open spec fn one_group_per_colour(groups: Seq<(Option<Rgba8>, Seq<[u32; 3]>)>) -> bool {
    forall|i: int, j: int| 0 <= i < j < groups.len() ==> #[trigger] groups[i].0 != #[trigger] groups[j].0
}

proof fn lemma_group_position_found(groups: Seq<(Option<Rgba8>, Seq<[u32; 3]>)>, key: Option<Rgba8>)
    ensures
        0 <= group_position(groups, key) <= groups.len(),
        group_position(groups, key) < groups.len() ==> groups[group_position(groups, key)].0 == key,
        forall|i: int| 0 <= i < group_position(groups, key) ==> #[trigger] groups[i].0 != key,
    decreases groups.len(),
{
    if groups.len() > 0 && groups[0].0 != key {
        let rest = groups.drop_first();
        lemma_group_position_found(rest, key);
        assert forall|i: int| 0 <= i < group_position(groups, key) implies #[trigger] groups[i].0 != key by {
            if i > 0 {
                assert(groups[i] == rest[i - 1]);
            }
        }
    }
}

proof fn lemma_grouped_update(groups: Seq<(Option<Rgba8>, Seq<[u32; 3]>)>, g: int, extra: Seq<[u32; 3]>)
    requires
        0 <= g < groups.len(),
    ensures
        grouped_triangles(groups.update(g, (groups[g].0, groups[g].1 + extra))).to_multiset()
            =~= grouped_triangles(groups).to_multiset().add(extra.to_multiset()),
    decreases groups.len(),
{
    broadcast use vstd::seq_lib::lemma_multiset_commutative;

    let u = groups.update(g, (groups[g].0, groups[g].1 + extra));
    let front = grouped_triangles(groups.drop_last());
    if g == groups.len() - 1 {
        assert(u.drop_last() =~= groups.drop_last());
        assert(grouped_triangles(u) == front + (groups[g].1 + extra));
        assert((front + (groups[g].1 + extra)).to_multiset() =~= front.to_multiset().add(
            groups[g].1.to_multiset(),
        ).add(extra.to_multiset()));
    } else {
        lemma_grouped_update(groups.drop_last(), g, extra);
        assert(u.drop_last() =~= groups.drop_last().update(g, (groups[g].0, groups[g].1 + extra)));
        let front_u = grouped_triangles(u.drop_last());
        assert(grouped_triangles(u) == front_u + groups.last().1);
        assert((front_u + groups.last().1).to_multiset() =~= front_u.to_multiset().add(
            groups.last().1.to_multiset(),
        ));
    }
}

/// Putting triangles into the group of their colour keeps every triangle,
/// once, and keeps one group per colour.
pub proof fn lemma_add_to_group_keeps_triangles(
    groups: Seq<(Option<Rgba8>, Seq<[u32; 3]>)>,
    key: Option<Rgba8>,
    tris: Seq<[u32; 3]>,
)
    requires
        one_group_per_colour(groups),
    ensures
        grouped_triangles(add_to_group(groups, key, tris)).to_multiset() =~= grouped_triangles(
            groups,
        ).to_multiset().add(tris.to_multiset()),
        one_group_per_colour(add_to_group(groups, key, tris)),
{
    broadcast use vstd::seq_lib::lemma_multiset_commutative;

    lemma_group_position_found(groups, key);
    let g = group_position(groups, key);
    if g < groups.len() {
        lemma_grouped_update(groups, g, tris);
    } else {
        let n = add_to_group(groups, key, tris);
        assert(n.drop_last() =~= groups);
        assert forall|i: int, j: int| 0 <= i < j < n.len() implies #[trigger] n[i].0 != #[trigger] n[j].0 by {
            if j == groups.len() {
                assert(groups[i].0 != key);
            }
        }
    }
}

/// A triangle lies in a group of colour `key`.
pub open spec fn in_group(groups: Seq<(Option<Rgba8>, Seq<[u32; 3]>)>, key: Option<Rgba8>, t: [u32; 3]) -> bool {
    exists|g: int| 0 <= g < groups.len() && groups[g].0 == key && (#[trigger] groups[g]).1.contains(t)
}

/// Putting triangles into the group of their colour puts each of them in a
/// group of that colour, and every triangle already grouped stays in a
/// group of its colour.
pub proof fn lemma_add_to_group_places(
    groups: Seq<(Option<Rgba8>, Seq<[u32; 3]>)>,
    key: Option<Rgba8>,
    tris: Seq<[u32; 3]>,
)
    ensures
        forall|t: [u32; 3]| #[trigger] tris.contains(t) ==> in_group(add_to_group(groups, key, tris), key, t),
        forall|k: Option<Rgba8>, t: [u32; 3]| #[trigger] in_group(groups, k, t) ==> in_group(
            add_to_group(groups, key, tris),
            k,
            t,
        ),
{
    lemma_group_position_found(groups, key);
    let g = group_position(groups, key);
    let n = add_to_group(groups, key, tris);
    assert forall|t: [u32; 3]| #[trigger] tris.contains(t) implies in_group(n, key, t) by {
        let i = choose|i: int| 0 <= i < tris.len() && tris[i] == t;
        if g < groups.len() {
            let c = groups[g].1 + tris;
            assert(c[groups[g].1.len() + i] == t);
            assert(n[g].1.contains(t));
        } else {
            assert(n[groups.len() as int].1.contains(t));
        }
    }
    assert forall|k: Option<Rgba8>, t: [u32; 3]| #[trigger] in_group(groups, k, t) implies in_group(n, k, t) by {
        let h = choose|h: int| 0 <= h < groups.len() && groups[h].0 == k && (#[trigger] groups[h]).1.contains(t);
        let i = choose|i: int| 0 <= i < groups[h].1.len() && groups[h].1[i] == t;
        if g < groups.len() && h == g {
            let c = groups[g].1 + tris;
            assert(c[i] == t);
            assert(n[h].1.contains(t));
        } else {
            assert(n[h] == groups[h]);
        }
    }
}

/// The effect of one line on the reader. Blank lines and comments are
/// skipped; `v`, `vn`, `mtllib`, `usemtl` and `f` are read; other lines
/// are ignored.
pub open spec fn obj_step(st: ObjState, line: Seq<char>, tables: Seq<Seq<(Seq<char>, Rgba8)>>) -> ObjState {
    let t = trim(line);
    let w = words(t);
    if t.len() == 0 || t[0] == '#' {
        st
    } else if w[0] == "v"@ {
        ObjState { positions: st.positions.push(obj_vector(w)), ..st }
    } else if w[0] == "vn"@ {
        ObjState { normals: st.normals.push(obj_vector(w)), ..st }
    } else if w[0] == "mtllib"@ {
        if w.len() > 1 {
            let table = if st.libraries < tables.len() {
                tables[st.libraries as int]
            } else {
                Seq::empty()
            };
            ObjState { materials: st.materials + table, libraries: st.libraries + 1, ..st }
        } else {
            st
        }
    } else if w[0] == "usemtl"@ {
        if w.len() > 1 {
            ObjState { current: last_material(st.materials, w[1]), ..st }
        } else {
            st
        }
    } else if w[0] == "f"@ {
        let p = face_corners(w.drop_first(), st.positions.len());
        if p.len() >= 3 {
            ObjState {
                indices: st.indices + fan(p),
                groups: add_to_group(st.groups, st.current, fan(p)),
                ..st
            }
        } else {
            st
        }
    } else {
        st
    }
}

/// The reader's state after the first `k` lines, or `None` when one of
/// them is not valid UTF-8.
pub open spec fn obj_run(lines: Seq<Seq<u8>>, tables: Seq<Seq<(Seq<char>, Rgba8)>>, k: int) -> Option<ObjState>
    decreases k,
{
    if k <= 0 {
        Some(obj_start())
    } else {
        match obj_run(lines, tables, k - 1) {
            Some(st) => if valid_utf8(lines[k - 1]) {
                Some(obj_step(st, decode_utf8(lines[k - 1]), tables))
            } else {
                None
            },
            None => None,
        }
    }
}

/// While an OBJ file is read, the colour groups hold exactly the
/// triangles of the mesh, each once, and no colour has two groups.
pub proof fn lemma_obj_groups_hold_the_triangles(
    lines: Seq<Seq<u8>>,
    tables: Seq<Seq<(Seq<char>, Rgba8)>>,
    k: int,
)
    ensures
        obj_run(lines, tables, k) matches Some(st) ==> {
            &&& grouped_triangles(st.groups).to_multiset() == st.indices.to_multiset()
            &&& one_group_per_colour(st.groups)
        },
    decreases k,
{
    broadcast use vstd::seq_lib::lemma_multiset_commutative;

    if k <= 0 {
        assert(grouped_triangles(obj_start().groups) =~= obj_start().indices);
    } else {
        lemma_obj_groups_hold_the_triangles(lines, tables, k - 1);
        if let Some(st) = obj_run(lines, tables, k - 1) {
            let w = words(trim(decode_utf8(lines[k - 1])));
            let p = face_corners(w.drop_first(), st.positions.len());
            lemma_add_to_group_keeps_triangles(st.groups, st.current, fan(p));
            assert((st.indices + fan(p)).to_multiset() =~= st.indices.to_multiset().add(
                fan(p).to_multiset(),
            ));
        }
    }
}

/// The first word of a line, if it has one.
pub open spec fn first_word(line: Seq<char>) -> Option<Seq<char>> {
    let w = words(trim(line));
    if w.len() > 0 {
        Some(w[0])
    } else {
        None
    }
}

/// How many of the first `k` lines are UTF-8 and have `v` as their first
/// word.
pub open spec fn vertex_line_count(lines: Seq<Seq<u8>>, k: int) -> nat
    decreases k,
{
    if k <= 0 {
        0
    } else {
        vertex_line_count(lines, k - 1) + if valid_utf8(lines[k - 1]) && first_word(decode_utf8(lines[k - 1]))
            == Some("v"@) {
            1nat
        } else {
            0nat
        }
    }
}

/// A line adds one position, after those before, exactly when its first
/// word is `v` (not `vt`, `vn` or any other word that begins with `v`), and
/// one normal exactly when it is `vn`; only an `f` line adds triangles; a
/// line with no word, or whose first word is none of `v`, `vn`, `mtllib`,
/// `usemtl` and `f` (such as `vt`, `vp`, `o`, `g` or `s`), changes nothing.
pub proof fn lemma_line_keywords(st: ObjState, line: Seq<char>, tables: Seq<Seq<(Seq<char>, Rgba8)>>)
    ensures
        obj_step(st, line, tables).positions.len() == st.positions.len() + if first_word(line) == Some("v"@) {
            1int
        } else {
            0int
        },
        obj_step(st, line, tables).positions.subrange(0, st.positions.len() as int) == st.positions,
        obj_step(st, line, tables).normals.len() == st.normals.len() + if first_word(line) == Some("vn"@) {
            1int
        } else {
            0int
        },
        first_word(line) != Some("f"@) ==> obj_step(st, line, tables).indices == st.indices
            && obj_step(st, line, tables).groups == st.groups,
        (match first_word(line) {
            None => true,
            Some(w) => w != "v"@ && w != "vn"@ && w != "mtllib"@ && w != "usemtl"@ && w != "f"@,
        }) ==> obj_step(st, line, tables) == st,
{
    reveal_strlit("v");
    reveal_strlit("vn");
    reveal_strlit("mtllib");
    reveal_strlit("usemtl");
    reveal_strlit("f");
    let t = trim(line);
    crate::text::lemma_trim_first(line);
    if t.len() > 0 {
        crate::text::lemma_words_nonempty(t);
    }
    assert(st.positions.subrange(0, st.positions.len() as int) =~= st.positions);
    let n = obj_step(st, line, tables).positions;
    if n.len() == st.positions.len() + 1 {
        assert(n.subrange(0, st.positions.len() as int) =~= st.positions);
    }
}

/// After the first `k` lines, there are as many positions as there were
/// lines whose first word is `v`.
pub proof fn lemma_positions_count_vertex_lines(lines: Seq<Seq<u8>>, tables: Seq<Seq<(Seq<char>, Rgba8)>>, k: int)
    ensures
        obj_run(lines, tables, k) matches Some(st) ==> st.positions.len() == vertex_line_count(lines, k),
    decreases k,
{
    if k > 0 {
        lemma_positions_count_vertex_lines(lines, tables, k - 1);
        if let Some(st) = obj_run(lines, tables, k - 1) {
            lemma_line_keywords(st, decode_utf8(lines[k - 1]), tables);
        }
    }
}

/// Material entries as sequences.
pub open spec fn mats_view(v: Seq<(Vec<char>, Rgba8)>) -> Seq<(Seq<char>, Rgba8)> {
    v.map_values(|e: (Vec<char>, Rgba8)| (e.0@, e.1))
}

/// Colour groups as sequences.
pub open spec fn groups_view(v: Seq<(Option<Rgba8>, Vec<[u32; 3]>)>) -> Seq<(Option<Rgba8>, Seq<[u32; 3]>)> {
    v.map_values(|g: (Option<Rgba8>, Vec<[u32; 3]>)| (g.0, g.1@))
}

/// The material tables as sequences.
pub open spec fn tables_view(tables: Seq<Vec<(Vec<char>, Rgba8)>>) -> Seq<Seq<(Seq<char>, Rgba8)>> {
    tables.map_values(|t: Vec<(Vec<char>, Rgba8)>| mats_view(t@))
}

/// The mesh built from the final state: one part per colour group, each
/// with all positions and normals; one uncoloured part with every triangle
/// when there is no face.
pub open spec fn obj_mesh_matches(m: MeshData, st: ObjState) -> bool {
    &&& rows_value(m.literals@, m.positions@) == st.positions
    &&& rows_value(m.literals@, m.normals@) == st.normals
    &&& m.indices@ == st.indices
    &&& if st.groups.len() == 0 {
        &&& m.submeshes@.len() == 1
        &&& rows_value(m.literals@, m.submeshes@[0].positions@) == st.positions
        &&& rows_value(m.literals@, m.submeshes@[0].normals@) == st.normals
        &&& m.submeshes@[0].indices@ == st.indices
        &&& m.submeshes@[0].color is None
    } else {
        &&& m.submeshes@.len() == st.groups.len()
        &&& forall|j: int| 0 <= j < st.groups.len() ==> {
            &&& rows_value(m.literals@, #[trigger] m.submeshes@[j].positions@) == st.positions
            &&& rows_value(m.literals@, m.submeshes@[j].normals@) == st.normals
            &&& m.submeshes@[j].indices@ == st.groups[j].1
            &&& m.submeshes@[j].color == match st.groups[j].0 {
                Some(c) => Some(ColorValue::Quantized(c)),
                None => None::<ColorValue>,
            }
        }
    }
}

/// The message of a file that is not valid UTF-8.
pub open spec fn invalid_utf8_message() -> Seq<char> {
    "read obj: stream did not contain valid UTF-8"@
}

/// The exec state of the reader.
struct ObjBuilder {
    literals: Vec<Vec<char>>,
    positions: Vec<[Scalar; 3]>,
    normals: Vec<[Scalar; 3]>,
    indices: Vec<[u32; 3]>,
    groups: Vec<(Option<Rgba8>, Vec<[u32; 3]>)>,
    materials: Vec<(Vec<char>, Rgba8)>,
    current: Option<Rgba8>,
    libraries: usize,
}

impl ObjBuilder {
    spec fn view(&self) -> ObjState {
        ObjState {
            positions: rows_value(self.literals@, self.positions@),
            normals: rows_value(self.literals@, self.normals@),
            indices: self.indices@,
            groups: groups_view(self.groups@),
            materials: mats_view(self.materials@),
            current: self.current,
            libraries: self.libraries as nat,
        }
    }

    spec fn wf(&self) -> bool {
        &&& forall|i: int| 0 <= i < self.literals@.len() ==> is_float_literal(
            #[trigger] self.literals@[i]@,
        )
        &&& rows_refer_within(self.positions@, self.literals@.len())
        &&& rows_refer_within(self.normals@, self.literals@.len())
    }
}

/// The scalar for word `i`, adding its literal to the table when it has one.
fn coord_scalar(lits: &mut Vec<Vec<char>>, w: &Vec<Vec<char>>, i: usize, neg: bool) -> (res: Scalar)
    requires
        forall|j: int| 0 <= j < old(lits)@.len() ==> is_float_literal(#[trigger] old(lits)@[j]@),
    ensures
        forall|j: int| 0 <= j < final(lits)@.len() ==> is_float_literal(#[trigger] final(lits)@[j]@),
        final(lits)@.len() >= old(lits)@.len(),
        final(lits)@.subrange(0, old(lits)@.len() as int) == old(lits)@,
        scalar_refers_within(res, final(lits)@.len()),
        crate::mesh::scalar_value(final(lits)@, res) == coord_at(char_rows(w@), i as int, neg),
{
    if i < w.len() && is_float_text(&w[i]) {
        let idx = lits.len();
        let ghost before = lits@;
        lits.push(copy_chars(&w[i]));
        assert(lits@.subrange(0, before.len() as int) =~= before);
        Scalar::Literal { index: idx, negated: neg }
    } else {
        assert(lits@.subrange(0, lits@.len() as int) =~= lits@);
        Scalar::Bits(if neg { 0x8000_0000u32 } else { 0u32 })
    }
}

pub proof fn lemma_rows_value_extend(lits: Seq<Vec<char>>, more: Seq<Vec<char>>, rows: Seq<[Scalar; 3]>)
    requires
        rows_refer_within(rows, lits.len()),
        more.len() >= lits.len(),
        more.subrange(0, lits.len() as int) == lits,
    ensures
        rows_value(more, rows) == rows_value(lits, rows),
        rows_refer_within(rows, more.len()),
{
    assert forall|i: int| 0 <= i < rows.len() implies #[trigger] crate::mesh::row_value(more, rows[i])
        == crate::mesh::row_value(lits, rows[i]) by {
        assert(scalar_refers_within(rows[i][0], lits.len()));
        assert(scalar_refers_within(rows[i][1], lits.len()));
        assert(scalar_refers_within(rows[i][2], lits.len()));
        if let Scalar::Literal { index, .. } = rows[i][0] {
            assert(more.subrange(0, lits.len() as int)[index as int] == more[index as int]);
        }
        if let Scalar::Literal { index, .. } = rows[i][1] {
            assert(more.subrange(0, lits.len() as int)[index as int] == more[index as int]);
        }
        if let Scalar::Literal { index, .. } = rows[i][2] {
            assert(more.subrange(0, lits.len() as int)[index as int] == more[index as int]);
        }
    }
    assert(rows_value(more, rows) =~= rows_value(lits, rows));
}

/// The row of a `v` or `vn` line.
fn obj_row(lits: &mut Vec<Vec<char>>, w: &Vec<Vec<char>>) -> (res: [Scalar; 3])
    requires
        forall|j: int| 0 <= j < old(lits)@.len() ==> is_float_literal(#[trigger] old(lits)@[j]@),
    ensures
        forall|j: int| 0 <= j < final(lits)@.len() ==> is_float_literal(#[trigger] final(lits)@[j]@),
        final(lits)@.len() >= old(lits)@.len(),
        final(lits)@.subrange(0, old(lits)@.len() as int) == old(lits)@,
        forall|k: int| 0 <= k < 3 ==> scalar_refers_within(#[trigger] res[k], final(lits)@.len()),
        crate::mesh::row_value(final(lits)@, res) == obj_vector(char_rows(w@)),
{
    let ghost l0 = lits@;
    let x = coord_scalar(lits, w, 1, false);
    let ghost l1 = lits@;
    let y = coord_scalar(lits, w, 3, true);
    let ghost l2 = lits@;
    let z = coord_scalar(lits, w, 2, false);
    let ghost l3 = lits@;
    assert(l3.subrange(0, l0.len() as int) =~= l0) by {
        assert(l3.subrange(0, l1.len() as int) == l1);
        assert(l2.subrange(0, l1.len() as int) == l1);
    }
    proof {
        if let Scalar::Literal { index, .. } = x {
            assert(l3[index as int] == l1[index as int]) by {
                assert(l3.subrange(0, l2.len() as int)[index as int] == l3[index as int]);
                assert(l2.subrange(0, l1.len() as int)[index as int] == l2[index as int]);
            }
        }
        if let Scalar::Literal { index, .. } = y {
            assert(l3[index as int] == l2[index as int]) by {
                assert(l3.subrange(0, l2.len() as int)[index as int] == l3[index as int]);
            }
        }
    }
    [x, y, z]
}

/// The vertex part of a word: up to its first `/`.
fn vertex_part_of(t: &Vec<char>) -> (res: Vec<char>)
    ensures
        res@ == vertex_part(t@),
{
    let mut out: Vec<char> = Vec::new();
    let mut i: usize = 0;
    while i < t.len() && t[i] != '/'
        invariant
            i <= t.len(),
            out@ == t@.subrange(0, i as int),
            forall|j: int| 0 <= j < i ==> t@[j] != '/',
        decreases t.len() - i,
    {
        out.push(t[i]);
        assert(out@ =~= t@.subrange(0, i + 1));
        i = i + 1;
    }
    proof {
        lemma_slash_position(t@, i as int);
    }
    out
}

proof fn lemma_slash_position(t: Seq<char>, k: int)
    requires
        0 <= k <= t.len(),
        forall|j: int| 0 <= j < k ==> t[j] != '/',
        k < t.len() ==> t[k] == '/',
    ensures
        slash_position(t) == k,
    decreases t.len(),
{
    if t.len() > 0 && t[0] != '/' {
        assert forall|j: int| 0 <= j < k - 1 implies t.drop_first()[j] != '/' by {
            assert(t.drop_first()[j] == t[j + 1]);
        }
        lemma_slash_position(t.drop_first(), k - 1);
    }
}

/// A face corner as a position index.
fn obj_index_of(k: i32, n: usize) -> (res: u32)
    ensures
        res == obj_index(k, n as nat),
{
    if k > 0 {
        (k - 1) as u32
    } else if k < 0 {
        let base: i32 = #[verifier::truncate] (n as i32);
        #[verifier::truncate] (base.wrapping_add(k) as u32)
    } else {
        0
    }
}

/// The corners of a face line.
fn face_corners_of(w: &Vec<Vec<char>>, n: usize) -> (res: Vec<u32>)
    requires
        w.len() >= 1,
    ensures
        res@ == face_corners(char_rows(w@).drop_first(), n as nat),
{
    let mut out: Vec<u32> = Vec::new();
    let mut i: usize = 1;
    while i < w.len()
        invariant
            1 <= i <= w.len(),
            out@ == face_corners(char_rows(w@).subrange(1, i as int), n as nat),
        decreases w.len() - i,
    {
        let part = vertex_part_of(&w[i]);
        let ghost toks = char_rows(w@).subrange(1, i + 1);
        assert(toks.drop_last() =~= char_rows(w@).subrange(1, i as int));
        assert(toks.last() == w@[i as int]@);
        match parse_i32(&part) {
            Some(k) => {
                out.push(obj_index_of(k, n));
            },
            None => {},
        }
        i = i + 1;
    }
    assert(char_rows(w@).subrange(1, w.len() as int) =~= char_rows(w@).drop_first());
    out
}

/// The triangle fan of a polygon.
fn fan_of(p: &Vec<u32>) -> (res: Vec<[u32; 3]>)
    requires
        p.len() >= 3,
    ensures
        res@ == fan(p@),
{
    let mut out: Vec<[u32; 3]> = Vec::new();
    let mut i: usize = 1;
    while i < p.len() - 1
        invariant
            p.len() >= 3,
            1 <= i <= p.len() - 1,
            out@ == Seq::new((i - 1) as nat, |j: int| [p@[0], p@[j + 1], p@[j + 2]]),
        decreases p.len() - 1 - i,
    {
        out.push([p[0], p[i], p[i + 1]]);
        assert(out@ =~= Seq::new(i as nat, |j: int| [p@[0], p@[j + 1], p@[j + 2]]));
        i = i + 1;
    }
    out
}

/// The colour of the last material of that name.
fn find_material(mats: &Vec<(Vec<char>, Rgba8)>, name: &Vec<char>) -> (res: Option<Rgba8>)
    ensures
        res == last_material(mats_view(mats@), name@),
{
    let ghost mv = mats_view(mats@);
    let mut i: usize = mats.len();
    assert(mv.subrange(0, i as int) =~= mv);
    while i > 0
        invariant
            i <= mats.len(),
            mv == mats_view(mats@),
            last_material(mv, name@) == last_material(mv.subrange(0, i as int), name@),
        decreases i,
    {
        let ghost pre = mv.subrange(0, i as int);
        assert(pre.drop_last() =~= mv.subrange(0, i - 1));
        assert(pre.last() == (mats@[i - 1].0@, mats@[i - 1].1));
        if same_chars(&mats[i - 1].0, name) {
            return Some(mats[i - 1].1);
        }
        i = i - 1;
    }
    None
}

/// Equality of character vectors.
fn same_chars(a: &Vec<char>, b: &Vec<char>) -> (res: bool)
    ensures
        res == (a@ == b@),
{
    if a.len() != b.len() {
        return false;
    }
    let mut i: usize = 0;
    while i < a.len()
        invariant
            a.len() == b.len(),
            i <= a.len(),
            forall|j: int| 0 <= j < i ==> a@[j] == b@[j],
        decreases a.len() - i,
    {
        if a[i] != b[i] {
            return false;
        }
        i = i + 1;
    }
    assert(a@ =~= b@);
    true
}

proof fn lemma_group_position(groups: Seq<(Option<Rgba8>, Seq<[u32; 3]>)>, key: Option<Rgba8>, k: int)
    requires
        0 <= k <= groups.len(),
        forall|j: int| 0 <= j < k ==> groups[j].0 != key,
        k < groups.len() ==> groups[k].0 == key,
    ensures
        group_position(groups, key) == k,
    decreases groups.len(),
{
    if groups.len() > 0 && groups[0].0 != key {
        assert forall|j: int| 0 <= j < k - 1 implies groups.drop_first()[j].0 != key by {
            assert(groups.drop_first()[j] == groups[j + 1]);
        }
        lemma_group_position(groups.drop_first(), key, k - 1);
    }
}

/// Appends triangles to a vector.
pub fn append_tris(dst: &mut Vec<[u32; 3]>, src: &Vec<[u32; 3]>)
    ensures
        final(dst)@ == old(dst)@ + src@,
{
    let mut i: usize = 0;
    while i < src.len()
        invariant
            i <= src.len(),
            dst@ == old(dst)@ + src@.subrange(0, i as int),
        decreases src.len() - i,
    {
        dst.push(src[i]);
        assert(dst@ =~= old(dst)@ + src@.subrange(0, i + 1));
        i = i + 1;
    }
    assert(src@.subrange(0, src.len() as int) =~= src@);
}

/// Adds triangles to the group of their colour.
pub fn add_to_group_exec(groups: &mut Vec<(Option<Rgba8>, Vec<[u32; 3]>)>, key: Option<Rgba8>, tris: &Vec<[u32; 3]>)
    ensures
        groups_view(final(groups)@) == add_to_group(
            groups_view(old(groups)@),
            key,
            tris@,
        ),
{
    let ghost gv = groups_view(old(groups)@);
    let mut i: usize = 0;
    while i < groups.len()
        invariant
            i <= groups.len(),
            groups@ == old(groups)@,
            gv == groups_view(old(groups)@),
            forall|j: int| 0 <= j < i ==> gv[j].0 != key,
        decreases groups.len() - i,
    {
        if groups[i].0 == key {
            proof {
                lemma_group_position(gv, key, i as int);
            }
            let mut g = groups.remove(i);
            append_tris(&mut g.1, tris);
            groups.insert(i, g);
            assert(groups_view(groups@) =~= gv.update(
                i as int,
                (key, gv[i as int].1 + tris@),
            ));
            return;
        }
        i = i + 1;
    }
    proof {
        lemma_group_position(gv, key, i as int);
    }
    let mut fresh: Vec<[u32; 3]> = Vec::new();
    append_tris(&mut fresh, tris);
    groups.push((key, fresh));
    assert(groups_view(groups@) =~= gv.push(
        (key, tris@),
    ));
}

/// Appends a material table to the materials.
fn append_table(mats: &mut Vec<(Vec<char>, Rgba8)>, table: &Vec<(Vec<char>, Rgba8)>)
    ensures
        final(mats)@.map_values(|e: (Vec<char>, Rgba8)| (e.0@, e.1)) == mats_view(old(mats)@) + mats_view(table@),
{
    let mut i: usize = 0;
    while i < table.len()
        invariant
            i <= table.len(),
            mats_view(mats@) == mats_view(old(mats)@) + mats_view(table@.subrange(0, i as int)),
        decreases table.len() - i,
    {
        let ghost before = mats@;
        mats.push((copy_chars(&table[i].0), table[i].1));
        assert(mats_view(mats@) =~= mats_view(before).push((table@[i as int].0@, table@[i as int].1)));
        assert(mats_view(table@.subrange(0, i + 1)) =~= mats_view(table@.subrange(0, i as int)).push(
            (table@[i as int].0@, table@[i as int].1),
        ));
        assert(mats_view(mats@) =~= mats_view(old(mats)@) + mats_view(table@.subrange(0, i + 1)));
        i = i + 1;
    }
    assert(table@.subrange(0, table.len() as int) =~= table@);
}

/// Applies one line to the reader.
fn obj_apply_line(b: &mut ObjBuilder, line: &Vec<char>, tables: &Vec<Vec<(Vec<char>, Rgba8)>>)
    requires
        old(b).wf(),
        old(b).libraries < usize::MAX,
    ensures
        final(b).wf(),
        final(b).libraries <= old(b).libraries + 1,
        final(b).view() == obj_step(old(b).view(), line@, tables_view(tables@)),
{
    let t = trim_white(line);
    let w = split_words(&t);
    let ghost wv = char_rows(w@);
    if t.len() == 0 || t[0] == '#' {
        return;
    }
    assert(wv.len() > 0) by {
        crate::text::lemma_trim_first(line@);
        crate::text::lemma_words_nonempty(t@);
    }
    assert(wv[0] == w@[0]@);
    if eq_chars(&w[0], "v") {
        let ghost lits0 = b.literals@;
        let row = obj_row(&mut b.literals, &w);
        proof {
            lemma_rows_value_extend(lits0, b.literals@, b.positions@);
            lemma_rows_value_extend(lits0, b.literals@, b.normals@);
        }
        let ghost p0 = b.positions@;
        b.positions.push(row);
        assert(b.positions@ == p0.push(row));
        assert(rows_value(b.literals@, b.positions@) =~= rows_value(b.literals@, p0).push(
            crate::mesh::row_value(b.literals@, row),
        ));
    } else if eq_chars(&w[0], "vn") {
        let ghost lits0 = b.literals@;
        let row = obj_row(&mut b.literals, &w);
        proof {
            lemma_rows_value_extend(lits0, b.literals@, b.positions@);
            lemma_rows_value_extend(lits0, b.literals@, b.normals@);
        }
        let ghost n0 = b.normals@;
        b.normals.push(row);
        assert(rows_value(b.literals@, b.normals@) =~= rows_value(b.literals@, n0).push(
            crate::mesh::row_value(b.literals@, row),
        ));
    } else if eq_chars(&w[0], "mtllib") {
        if w.len() > 1 {
            if b.libraries < tables.len() {
                append_table(&mut b.materials, &tables[b.libraries]);
            }
            assert(b.libraries < tables.len() ==> tables_view(tables@)[b.libraries as int]
                == mats_view(tables@[b.libraries as int]@));
            assert(b.libraries >= tables.len() ==> mats_view(b.materials@) =~= old(b).view().materials + Seq::empty());
            b.libraries = b.libraries + 1;
        }
    } else if eq_chars(&w[0], "usemtl") {
        if w.len() > 1 {
            b.current = find_material(&b.materials, &w[1]);
        }
    } else if eq_chars(&w[0], "f") {
        let p = face_corners_of(&w, b.positions.len());
        proof {
            assert(rows_value(b.literals@, b.positions@).len() == b.positions@.len());
        }
        if p.len() >= 3 {
            let tris = fan_of(&p);
            append_tris(&mut b.indices, &tris);
            add_to_group_exec(&mut b.groups, b.current, &tris);
        }
    }
}


impl ObjBuilder {
    fn new() -> (res: ObjBuilder)
        ensures
            res.wf(),
            res.view() == obj_start(),
            res.libraries == 0,
    {
        let b = ObjBuilder {
            literals: Vec::new(),
            positions: Vec::new(),
            normals: Vec::new(),
            indices: Vec::new(),
            groups: Vec::new(),
            materials: Vec::new(),
            current: None,
            libraries: 0,
        };
        assert(b.view().positions =~= Seq::<[Coord; 3]>::empty());
        assert(b.view().normals =~= Seq::<[Coord; 3]>::empty());
        assert(b.view().groups =~= Seq::<(Option<Rgba8>, Seq<[u32; 3]>)>::empty());
        assert(b.view().materials =~= Seq::<(Seq<char>, Rgba8)>::empty());
        b
    }
}

/// A copy of rows of scalars.
pub fn copy_rows(v: &Vec<[Scalar; 3]>) -> (res: Vec<[Scalar; 3]>)
    ensures
        res@ == v@,
{
    let mut out: Vec<[Scalar; 3]> = Vec::new();
    let mut i: usize = 0;
    while i < v.len()
        invariant
            i <= v.len(),
            out@ == v@.subrange(0, i as int),
        decreases v.len() - i,
    {
        out.push(v[i]);
        assert(out@ =~= v@.subrange(0, i + 1));
        i = i + 1;
    }
    assert(out@ =~= v@);
    out
}

/// The mesh of the reader's final state.
fn obj_finish(b: ObjBuilder) -> (res: MeshData)
    requires
        b.wf(),
    ensures
        obj_mesh_matches(res, b.view()),
        res.well_formed(),
{
    let mut submeshes: Vec<SubMesh> = Vec::new();
    let ng = b.groups.len();
    if ng == 0 {
        let mut ind: Vec<[u32; 3]> = Vec::new();
        append_tris(&mut ind, &b.indices);
        submeshes.push(SubMesh {
            positions: copy_rows(&b.positions),
            normals: copy_rows(&b.normals),
            indices: ind,
            color: None,
        });
    } else {
        let mut j: usize = 0;
        while j < ng
            invariant
                ng == b.groups@.len(),
                j <= ng,
                submeshes@.len() == j,
                forall|k: int| 0 <= k < j ==> {
                    &&& (#[trigger] submeshes@[k]).positions@ == b.positions@
                    &&& submeshes@[k].normals@ == b.normals@
                    &&& submeshes@[k].indices@ == b.groups@[k].1@
                    &&& submeshes@[k].color == match b.groups@[k].0 {
                        Some(c) => Some(ColorValue::Quantized(c)),
                        None => None::<ColorValue>,
                    }
                },
            decreases ng - j,
        {
            let mut ind: Vec<[u32; 3]> = Vec::new();
            append_tris(&mut ind, &b.groups[j].1);
            let color = match b.groups[j].0 {
                Some(c) => Some(ColorValue::Quantized(c)),
                None => None,
            };
            submeshes.push(SubMesh {
                positions: copy_rows(&b.positions),
                normals: copy_rows(&b.normals),
                indices: ind,
                color,
            });
            j = j + 1;
        }
    }
    let ghost lits = b.literals@;
    let m = MeshData {
        literals: b.literals,
        positions: b.positions,
        normals: b.normals,
        indices: b.indices,
        submeshes,
    };
    assert(groups_view(b.groups@).len() == ng);
    assert forall|j: int| 0 <= j < groups_view(b.groups@).len() implies groups_view(b.groups@)[j] == (
        b.groups@[j].0,
        b.groups@[j].1@,
    ) by {}
    m
}

/// The names of the material libraries that `mtllib` lines name, in
/// order, as far as the file reads as UTF-8.
pub open spec fn obj_libraries(lines: Seq<Seq<u8>>) -> Seq<Seq<char>>
    decreases lines.len(),
{
    if lines.len() == 0 || !valid_utf8(lines[0]) {
        Seq::empty()
    } else {
        let t = trim(decode_utf8(lines[0]));
        let w = words(t);
        let here = if t.len() > 0 && t[0] != '#' && w[0] == "mtllib"@ && w.len() > 1 {
            seq![w[1]]
        } else {
            Seq::empty()
        };
        here + obj_libraries(lines.drop_first())
    }
}

/// One entry of a material library: a material's name and its diffuse
/// colour words; a word that does not read as a float is `None`, read as
/// 0.8.
pub struct MtlEntry {
    pub name: Vec<char>,
    pub kd: Vec<Option<Vec<char>>>,
}

/// A `Kd` component: the `i`-th word when it reads as a float.
pub open spec fn kd_word(w: Seq<Seq<char>>, i: int) -> Option<Seq<char>> {
    if i < w.len() && is_float_literal(w[i]) {
        Some(w[i])
    } else {
        None
    }
}

/// An MTL entry as plain sequences.
pub open spec fn mtl_entry_view(e: MtlEntry) -> (Seq<char>, Seq<Option<Seq<char>>>) {
    (e.name@, e.kd@.map_values(|o: Option<Vec<char>>| match o {
        Some(v) => Some(v@),
        None => None::<Seq<char>>,
    }))
}

/// Reading a material library, as far as it reads as UTF-8: `newmtl`
/// names the current material, `Kd` gives it a colour; the state is the
/// entries so far and the current name.
pub open spec fn mtl_run(lines: Seq<Seq<u8>>, k: int) -> (Seq<(Seq<char>, Seq<Option<Seq<char>>>)>, Seq<char>, bool)
    decreases k,
{
    if k <= 0 {
        (Seq::empty(), Seq::empty(), true)
    } else {
        let (entries, cur, ok) = mtl_run(lines, k - 1);
        if !ok || !valid_utf8(lines[k - 1]) {
            (entries, cur, false)
        } else {
            let w = words(trim(decode_utf8(lines[k - 1])));
            if w.len() > 0 && w[0] == "newmtl"@ {
                if w.len() > 1 {
                    (entries, w[1], true)
                } else {
                    (entries, cur, true)
                }
            } else if w.len() > 0 && w[0] == "Kd"@ && cur.len() > 0 {
                (entries.push((cur, seq![kd_word(w, 1), kd_word(w, 2), kd_word(w, 3)])), cur, true)
            } else {
                (entries, cur, true)
            }
        }
    }
}

fn kd_word_of(w: &Vec<Vec<char>>, i: usize) -> (res: Option<Vec<char>>)
    ensures
        match res {
            Some(v) => kd_word(char_rows(w@), i as int) == Some(v@),
            None => kd_word(char_rows(w@), i as int) is None,
        },
{
    if i < w.len() && is_float_text(&w[i]) {
        Some(copy_chars(&w[i]))
    } else {
        None
    }
}

impl ObjLoader {
    /// The name of the format.
    pub fn name(&self) -> (res: &'static str)
        ensures
            res@ == "obj"@,
    {
        "obj"
    }

    /// An OBJ file is one named `*.obj`, in any case.
    pub fn can_load(&self, path: &str, _header: &[u8]) -> (res: bool)
        ensures
            res == has_extension(path@, "obj"@),
    {
        extension_is(path, "obj")
    }

    /// The material libraries that the model names, in order.
    pub fn material_libraries(&self, data: &[u8]) -> (res: Vec<Vec<char>>)
        ensures
            char_rows(res@) == obj_libraries(byte_lines(data@)),
    {
        let lines = split_lines(data);
        let ghost lv = byte_rows(lines@);
        let mut out: Vec<Vec<char>> = Vec::new();
        let mut i: usize = 0;
        assert(lv.subrange(0, lv.len() as int) =~= lv);
        while i < lines.len()
            invariant
                i <= lines.len(),
                lv == byte_rows(lines@),
                lv == byte_lines(data@),
                obj_libraries(lv) == char_rows(out@) + obj_libraries(lv.subrange(i as int, lv.len() as int)),
            decreases lines.len() - i,
        {
            let ghost rest = lv.subrange(i as int, lv.len() as int);
            assert(rest[0] == lines@[i as int]@);
            assert(rest.drop_first() =~= lv.subrange(i + 1, lv.len() as int));
            match decode_utf8_chars(lines[i].as_slice()) {
                None => {
                    assert(char_rows(out@) + Seq::<Seq<char>>::empty() =~= char_rows(out@));
                    return out;
                },
                Some(chars) => {
                    let t = trim_white(&chars);
                    let w = split_words(&t);
                    proof {
                        crate::text::lemma_trim_first(chars@);
                        if t@.len() > 0 {
                            crate::text::lemma_words_nonempty(t@);
                        }
                    }
                    let ghost before = out@;
                    if t.len() > 0 && t[0] != '#' && eq_chars(&w[0], "mtllib") && w.len() > 1 {
                        out.push(copy_chars(&w[1]));
                        assert(char_rows(out@) =~= char_rows(before) + seq![char_rows(w@)[1]]);
                    } else {
                        assert(char_rows(out@) =~= char_rows(before) + Seq::<Seq<char>>::empty());
                    }
                },
            }
            i = i + 1;
        }
        assert(char_rows(out@) + Seq::<Seq<char>>::empty() =~= char_rows(out@));
        out
    }

    /// Reads an OBJ model. `tables[i]` is the colour table of the material
    /// library that the `i`-th `mtllib` line names (empty when it could not
    /// be read); a later entry of a name hides earlier ones. A file that is
    /// not valid UTF-8 is refused.
    pub fn load(&self, _path: &str, data: &[u8], tables: &Vec<Vec<(Vec<char>, Rgba8)>>) -> (res: Result<MeshData, String>)
        ensures
            match obj_run(byte_lines(data@), tables_view(tables@), byte_lines(data@).len() as int) {
                Some(st) => res matches Ok(m) && obj_mesh_matches(m, st) && m.well_formed(),
                None => res matches Err(e) && e@ == invalid_utf8_message(),
            },
    {
        let lines = split_lines(data);
        let ghost lv = byte_rows(lines@);
        let ghost tv = tables_view(tables@);
        let mut b = ObjBuilder::new();
        let mut i: usize = 0;
        while i < lines.len()
            invariant
                i <= lines.len(),
                lv == byte_rows(lines@),
                lv == byte_lines(data@),
                tv == tables_view(tables@),
                b.wf(),
                b.libraries <= i,
                obj_run(lv, tv, i as int) == Some(b.view()),
            decreases lines.len() - i,
        {
            assert(lv[i as int] == lines@[i as int]@);
            match decode_utf8_chars(lines[i].as_slice()) {
                None => {
                    proof {
                        lemma_obj_run_fails(lv, tv, i as int + 1, lv.len() as int);
                    }
                    return Err(String::from_str("read obj: stream did not contain valid UTF-8"));
                },
                Some(chars) => {
                    obj_apply_line(&mut b, &chars, tables);
                },
            }
            i = i + 1;
        }
        Ok(obj_finish(b))
    }
}

proof fn lemma_obj_run_fails(lines: Seq<Seq<u8>>, tables: Seq<Seq<(Seq<char>, Rgba8)>>, k: int, n: int)
    requires
        1 <= k <= n,
        obj_run(lines, tables, k) is None,
    ensures
        obj_run(lines, tables, n) is None,
    decreases n - k,
{
    if k < n {
        lemma_obj_run_fails(lines, tables, k + 1, n);
    }
}

/// Reads a material library: its entries in order (see `mtl_run`).
pub fn parse_mtl(data: &[u8]) -> (res: Vec<MtlEntry>)
    ensures
        res@.map_values(|e: MtlEntry| mtl_entry_view(e)) == mtl_run(
            byte_lines(data@),
            byte_lines(data@).len() as int,
        ).0,
{
    let lines = split_lines(data);
    let ghost lv = byte_rows(lines@);
    let mut out: Vec<MtlEntry> = Vec::new();
    let mut cur: Vec<char> = Vec::new();
    let mut i: usize = 0;
    while i < lines.len()
        invariant
            i <= lines.len(),
            lv == byte_rows(lines@),
            lv == byte_lines(data@),
            mtl_run(lv, i as int) == (out@.map_values(|e: MtlEntry| mtl_entry_view(e)), cur@, true),
        decreases lines.len() - i,
    {
        assert(lv[i as int] == lines@[i as int]@);
        match decode_utf8_chars(lines[i].as_slice()) {
            None => {
                proof {
                    lemma_mtl_run_stops(lv, i as int + 1, lv.len() as int);
                }
                return out;
            },
            Some(chars) => {
                let t = trim_white(&chars);
                let w = split_words(&t);
                let ghost before = out@;
                if w.len() > 0 && eq_chars(&w[0], "newmtl") {
                    if w.len() > 1 {
                        cur = copy_chars(&w[1]);
                    }
                } else if w.len() > 0 && eq_chars(&w[0], "Kd") && cur.len() > 0 {
                    let mut kd: Vec<Option<Vec<char>>> = Vec::new();
                    let r = kd_word_of(&w, 1);
                    let g = kd_word_of(&w, 2);
                    let bl = kd_word_of(&w, 3);
                    kd.push(r);
                    kd.push(g);
                    kd.push(bl);
                    let e = MtlEntry { name: copy_chars(&cur), kd };
                    let ghost ev = mtl_entry_view(e);
                    assert(ev.1 =~= seq![
                        kd_word(char_rows(w@), 1),
                        kd_word(char_rows(w@), 2),
                        kd_word(char_rows(w@), 3),
                    ]);
                    out.push(e);
                    assert(out@.map_values(|e: MtlEntry| mtl_entry_view(e)) =~= before.map_values(
                        |e: MtlEntry| mtl_entry_view(e),
                    ).push(ev));
                }
            },
        }
        i = i + 1;
    }
    out
}

proof fn lemma_mtl_run_stops(lines: Seq<Seq<u8>>, k: int, n: int)
    requires
        1 <= k <= n,
        !mtl_run(lines, k).2,
    ensures
        mtl_run(lines, n).0 == mtl_run(lines, k).0,
        !mtl_run(lines, n).2,
    decreases n - k,
{
    if k < n {
        lemma_mtl_run_stops(lines, k + 1, n);
    }
}

} // verus!
