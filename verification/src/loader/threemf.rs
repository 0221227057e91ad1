//! 3MF models: a zip archive of XML model parts, with the colours of
//! material resources, painted triangles and the filament colours of the
//! slicer's project settings.

use vstd::prelude::*;

use super::{bytes_start_with, extension_is, has_extension, starts_with_bytes};
use crate::color::{hex_color, paint_color, parse_hex_color, resolve_paint_color};
use crate::mesh::{
    rows_refer_within, rows_value, scalar_refers_within, ColorValue, Coord, MeshData, Rgba8,
    Scalar, SubMesh,
};
use crate::numbers::{is_float_literal, is_float_text, parse_u32, parse_u32_spec};
use crate::text::{copy_chars, to_lowercase, unicode_lowercase};
use quick_xml::events::Event;
use std::io::Read;
use crate::text::{chars_of, find_chars, find_first, seq_ends_with, ends_with_chars, occurs_at, find_from, trim, trim_char, trim_white, trim_matching, decode_utf8_chars, split_lines};
use crate::loader::obj::{
    add_to_group, add_to_group_exec, append_tris, copy_rows, groups_view, group_position, in_group,
    lemma_add_to_group_keeps_triangles, lemma_add_to_group_places, lemma_rows_value_extend,
    one_group_per_colour,
};
use vstd::string::StringExecFns;

verus! {

/// The loader of 3MF archives.
pub struct ThreemfLoader {}

/// The kind of an XML event that the reader tells apart.
#[derive(Clone, Copy, Debug, PartialEq, Eq, Structural)]
pub enum XmlKind {
    Start,
    Empty,
    End,
    /// Text, comments, declarations, and errors of the XML reader.
    Other,
}

/// An attribute of an XML tag: its qualified name and its unescaped value,
/// `None` when the value does not unescape.
pub struct XmlAttr {
    pub key: Vec<u8>,
    pub value: Option<Vec<char>>,
}

/// One event of the XML reader: its kind, the tag's qualified name, and
/// the tag's attributes (start and empty tags only).
pub struct XmlEvent {
    pub kind: XmlKind,
    pub name: Vec<u8>,
    pub attrs: Vec<XmlAttr>,
}

/// An attribute as plain sequences.
pub open spec fn attr_view(a: XmlAttr) -> (Seq<u8>, Option<Seq<char>>) {
    (a.key@, match a.value {
        Some(v) => Some(v@),
        None => None::<Seq<char>>,
    })
}

/// An event as plain sequences.
pub open spec fn event_view(e: XmlEvent) -> (XmlKind, Seq<u8>, Seq<(Seq<u8>, Option<Seq<char>>)>) {
    (e.kind, e.name@, e.attrs@.map_values(|a: XmlAttr| attr_view(a)))
}

/// Events as plain sequences.
pub open spec fn events_view(v: Seq<XmlEvent>) -> Seq<(XmlKind, Seq<u8>, Seq<(Seq<u8>, Option<Seq<char>>)>)> {
    v.map_values(|e: XmlEvent| event_view(e))
}

/// An XML event as the reader yields it: its kind, the tag's qualified
/// name, and per attribute its key and raw value, or `None` for an
/// attribute that does not parse.
pub type RawXmlEvent = (XmlKind, Vec<u8>, Vec<Option<(Vec<u8>, Vec<u8>)>>);

/// The attributes of a raw event as plain sequences.
pub open spec fn raw_attrs_view(v: Seq<Option<(Vec<u8>, Vec<u8>)>>) -> Seq<Option<(Seq<u8>, Seq<u8>)>> {
    v.map_values(|o: Option<(Vec<u8>, Vec<u8>)>| match o {
        Some(a) => Some((a.0@, a.1@)),
        None => None::<(Seq<u8>, Seq<u8>)>,
    })
}

/// A raw event as plain sequences.
pub open spec fn raw_view(e: RawXmlEvent) -> (XmlKind, Seq<u8>, Seq<Option<(Seq<u8>, Seq<u8>)>>) {
    (e.0, e.1@, raw_attrs_view(e.2@))
}

/// `quick_xml::Reader`, which reads a document one event at a time.
#[verifier::external_type_specification]
#[verifier::external_body]
#[verifier::reject_recursive_types(R)]
pub struct ExXmlReader<R>(quick_xml::Reader<R>);

/// The events that `quick_xml::Reader::read_event` yields for a document,
/// with text trimmed and attributes read without checks, up to its end (a
/// reading error is yielded as one `Other` event, after which the reader
/// is at the end).
pub uninterp spec fn xml_raw(bytes: Seq<u8>) -> Seq<(XmlKind, Seq<u8>, Seq<Option<(Seq<u8>, Seq<u8>)>>)>;

/// The events that a reader has still to yield before the end.
pub uninterp spec fn xml_pending(r: quick_xml::Reader<&[u8]>) -> Seq<(XmlKind, Seq<u8>, Seq<Option<(Seq<u8>, Seq<u8>)>>)>;

/// What `Attribute::unescape_value` makes of a raw value: the value read
/// as UTF-8 with its character and entity references replaced, or `None`
/// when either step fails.
pub uninterp spec fn attr_unescaped(raw: Seq<u8>) -> Option<Seq<char>>;

/// Calls `quick_xml::Reader::from_reader` on the bytes and sets it to trim
/// text: the new reader has every event of the document still to yield.
#[verifier::external_body]
fn xml_reader(bytes: &[u8]) -> (res: quick_xml::Reader<&[u8]>)
    ensures
        xml_pending(res) == xml_raw(bytes@),
{
    let mut r = quick_xml::Reader::from_reader(bytes);
    r.trim_text(true);
    r
}

/// Calls `Reader::read_event` once and converts the event: `None` at the
/// end of the document, else the next pending event, which the reader no
/// longer has to yield.
#[verifier::external_body]
fn xml_next<'a>(r: &mut quick_xml::Reader<&'a [u8]>) -> (res: Option<RawXmlEvent>)
    ensures
        match res {
            None => xml_pending(*old(r)).len() == 0,
            Some(e) => xml_pending(*old(r)).len() > 0 && raw_view(e) == xml_pending(*old(r))[0]
                && xml_pending(*final(r)) == xml_pending(*old(r)).drop_first(),
        },
{
    let (kind, e) = match r.read_event() {
        Ok(Event::Eof) => return None,
        Ok(Event::Start(e)) => (XmlKind::Start, e),
        Ok(Event::Empty(e)) => (XmlKind::Empty, e),
        Ok(Event::End(e)) => return Some((XmlKind::End, e.name().0.to_vec(), vec![])),
        _ => return Some((XmlKind::Other, vec![], vec![])),
    };
    let attrs = e.attributes().with_checks(false).map(|a| a.ok().map(|a| (a.key.0.to_vec(), a.value.to_vec()))).collect();
    Some((kind, e.name().0.to_vec(), attrs))
}

/// Calls `Attribute::unescape_value` on an attribute with this raw value.
#[verifier::external_body]
fn xml_unescape(raw: &[u8]) -> (res: Option<Vec<char>>)
    ensures
        match res {
            Some(v) => attr_unescaped(raw@) == Some(v@),
            None => attr_unescaped(raw@) is None,
        },
{
    let a = quick_xml::events::attributes::Attribute { key: quick_xml::name::QName(b""), value: raw.into() };
    a.unescape_value().ok().map(|v| v.chars().collect())
}

/// The attributes of a raw event as the loader reads them: malformed ones
/// left out, values unescaped.
pub open spec fn cook_attrs(raw: Seq<Option<(Seq<u8>, Seq<u8>)>>) -> Seq<(Seq<u8>, Option<Seq<char>>)>
    decreases raw.len(),
{
    if raw.len() == 0 {
        Seq::empty()
    } else {
        cook_attrs(raw.drop_last()) + match raw.last() {
            Some(a) => seq![(a.0, attr_unescaped(a.1))],
            None => Seq::empty(),
        }
    }
}

/// Raw events as the loader reads them.
pub open spec fn cook_events(raw: Seq<(XmlKind, Seq<u8>, Seq<Option<(Seq<u8>, Seq<u8>)>>)>) -> Seq<(XmlKind, Seq<u8>, Seq<(Seq<u8>, Option<Seq<char>>)>)> {
    raw.map_values(|e: (XmlKind, Seq<u8>, Seq<Option<(Seq<u8>, Seq<u8>)>>)| (e.0, e.1, cook_attrs(e.2)))
}

/// The events of a document, as the loader reads them.
pub open spec fn xml_parse(bytes: Seq<u8>) -> Seq<(XmlKind, Seq<u8>, Seq<(Seq<u8>, Option<Seq<char>>)>)> {
    cook_events(xml_raw(bytes))
}

fn cook_event(raw: &RawXmlEvent) -> (res: XmlEvent)
    ensures
        event_view(res) == cook_events(seq![raw_view(*raw)])[0],
{
    let mut attrs: Vec<XmlAttr> = Vec::new();
    let mut i: usize = 0;
    let ghost rv = raw_attrs_view(raw.2@);
    while i < raw.2.len()
        invariant
            i <= raw.2@.len(),
            rv == raw_attrs_view(raw.2@),
            attrs@.map_values(|a: XmlAttr| attr_view(a)) == cook_attrs(rv.subrange(0, i as int)),
        decreases raw.2.len() - i,
    {
        assert(rv.subrange(0, i + 1).drop_last() =~= rv.subrange(0, i as int));
        let ghost before = attrs@;
        match &raw.2[i] {
            Some(a) => {
                let value = xml_unescape(a.1.as_slice());
                let mut key: Vec<u8> = Vec::new();
                let mut j: usize = 0;
                while j < a.0.len()
                    invariant
                        j <= a.0@.len(),
                        key@ == a.0@.subrange(0, j as int),
                    decreases a.0.len() - j,
                {
                    key.push(a.0[j]);
                    assert(key@ =~= a.0@.subrange(0, j + 1));
                    j = j + 1;
                }
                assert(a.0@.subrange(0, a.0@.len() as int) =~= a.0@);
                let x = XmlAttr { key, value };
                attrs.push(x);
                assert(attrs@.map_values(|a: XmlAttr| attr_view(a)) =~= before.map_values(
                    |a: XmlAttr| attr_view(a),
                ) + seq![attr_view(x)]);
            },
            None => {
                assert(before.map_values(|a: XmlAttr| attr_view(a)) + Seq::<(Seq<u8>, Option<Seq<char>>)>::empty()
                    =~= before.map_values(|a: XmlAttr| attr_view(a)));
            },
        }
        i = i + 1;
    }
    assert(rv.subrange(0, rv.len() as int) =~= rv);
    let mut name: Vec<u8> = Vec::new();
    let mut j: usize = 0;
    while j < raw.1.len()
        invariant
            j <= raw.1@.len(),
            name@ == raw.1@.subrange(0, j as int),
        decreases raw.1.len() - j,
    {
        name.push(raw.1[j]);
        assert(name@ =~= raw.1@.subrange(0, j + 1));
        j = j + 1;
    }
    assert(raw.1@.subrange(0, raw.1@.len() as int) =~= raw.1@);
    XmlEvent { kind: raw.0, name, attrs }
}

/// Reads all events of a document (see `xml_parse`).
pub(crate) fn xml_events(bytes: &[u8]) -> (res: Vec<XmlEvent>)
    ensures
        events_view(res@) == xml_parse(bytes@),
{
    let mut r = xml_reader(bytes);
    let mut out: Vec<XmlEvent> = Vec::new();
    let ghost mut seen: Seq<(XmlKind, Seq<u8>, Seq<Option<(Seq<u8>, Seq<u8>)>>)> = Seq::empty();
    loop
        invariant
            seen + xml_pending(r) == xml_raw(bytes@),
            events_view(out@) == cook_events(seen),
        decreases xml_pending(r).len(),
    {
        match xml_next(&mut r) {
            None => {
                assert(seen =~= xml_raw(bytes@));
                return out;
            },
            Some(e) => {
                let ghost p = xml_pending(r);
                let c = cook_event(&e);
                out.push(c);
                proof {
                    assert(cook_events(seen.push(raw_view(e))) =~= cook_events(seen).push(
                        cook_events(seq![raw_view(e)])[0],
                    ));
                    seen = seen.push(raw_view(e));
                }
                assert(events_view(out@) =~= cook_events(seen));
            },
        }
    }
}

/// How many entries `zip::ZipArchive::new` finds in an archive, or the
/// text of the error it reports.
pub uninterp spec fn zip_entry_count(bytes: Seq<u8>) -> Result<nat, Seq<char>>;

/// The name of entry `i` as `ZipArchive::by_index` reads it, when it can.
pub uninterp spec fn zip_entry_name(bytes: Seq<u8>, i: nat) -> Option<Seq<char>>;

/// The contents of entry `i`, when `by_index` and `read_to_end` succeed.
pub uninterp spec fn zip_entry_data(bytes: Seq<u8>, i: nat) -> Option<Seq<u8>>;

/// Calls `zip::ZipArchive::new` on the bytes and returns the number of
/// entries (`len`) or the error's text. Depends on the bytes alone; named.
#[verifier::external_body]
fn zip_open(bytes: &[u8]) -> (res: Result<usize, String>)
    ensures
        match res {
            Ok(n) => zip_entry_count(bytes@) == Ok::<nat, Seq<char>>(n as nat),
            Err(e) => zip_entry_count(bytes@) == Err::<nat, Seq<char>>(e@),
        },
{
    zip::ZipArchive::new(std::io::Cursor::new(bytes)).map(|a| a.len()).map_err(|e| e.to_string())
}

/// Calls `ZipArchive::by_index(i)` on the archive and returns the entry's
/// name. Depends on the bytes and the index alone; named.
#[verifier::external_body]
fn zip_name(bytes: &[u8], i: usize) -> (res: Option<String>)
    ensures
        match res {
            Some(n) => zip_entry_name(bytes@, i as nat) == Some(n@),
            None => zip_entry_name(bytes@, i as nat) is None,
        },
{
    zip::ZipArchive::new(std::io::Cursor::new(bytes)).ok()?.by_index(i).ok().map(|f| f.name().to_string())
}

/// Calls `ZipArchive::by_index(i)` and `read_to_end` on the entry, and
/// returns its contents when both succeed. Depends on the bytes and the
/// index alone; named.
#[verifier::external_body]
fn zip_data(bytes: &[u8], i: usize) -> (res: Option<Vec<u8>>)
    ensures
        match res {
            Some(d) => zip_entry_data(bytes@, i as nat) == Some(d@),
            None => zip_entry_data(bytes@, i as nat) is None,
        },
{
    let mut archive = zip::ZipArchive::new(std::io::Cursor::new(bytes)).ok()?;
    let mut file = archive.by_index(i).ok()?;
    let mut v = Vec::new();
    file.read_to_end(&mut v).ok()?;
    Some(v)
}

/// The entry name marks a model part.
pub open spec fn is_model_part(lower: Seq<char>) -> bool {
    seq_ends_with(lower, ".model"@)
}

/// The entry name marks a slicer settings file.
pub open spec fn is_settings_part(lower: Seq<char>) -> bool {
    find_first(lower, "project_settings.config"@) is Some || find_first(
        lower,
        "model_settings.config"@,
    ) is Some
}

/// The model parts and the settings files of the first `k` entries. A
/// model part whose name ends in `3dmodel.model` goes first, any other at
/// the end; entries whose contents cannot be read are left out.
pub open spec fn archive_parts(bytes: Seq<u8>, k: int) -> (Seq<Seq<u8>>, Seq<Seq<u8>>)
    decreases k,
{
    if k <= 0 {
        (Seq::empty(), Seq::empty())
    } else {
        let (models, configs) = archive_parts(bytes, k - 1);
        match zip_entry_name(bytes, (k - 1) as nat) {
            None => (models, configs),
            Some(name) => {
                let lower = unicode_lowercase(name);
                if is_model_part(lower) {
                    match zip_entry_data(bytes, (k - 1) as nat) {
                        Some(d) => if seq_ends_with(lower, "3dmodel.model"@) {
                            (seq![d] + models, configs)
                        } else {
                            (models.push(d), configs)
                        },
                        None => (models, configs),
                    }
                } else if is_settings_part(lower) {
                    match zip_entry_data(bytes, (k - 1) as nat) {
                        Some(d) => (models, configs.push(d)),
                        None => (models, configs),
                    }
                } else {
                    (models, configs)
                }
            },
        }
    }
}

/// The views of byte vectors.
pub open spec fn data_rows(v: Seq<Vec<u8>>) -> Seq<Seq<u8>> {
    v.map_values(|d: Vec<u8>| d@)
}

/// Sorts the first `n` entries of an archive into model parts and settings.
fn collect_parts(bytes: &[u8], n: usize) -> (res: (Vec<Vec<u8>>, Vec<Vec<u8>>))
    ensures
        (data_rows(res.0@), data_rows(res.1@)) == archive_parts(bytes@, n as int),
{
    let mut models: Vec<Vec<u8>> = Vec::new();
    let mut configs: Vec<Vec<u8>> = Vec::new();
    let mut i: usize = 0;
    while i < n
        invariant
            i <= n,
            (data_rows(models@), data_rows(configs@)) == archive_parts(bytes@, i as int),
        decreases n - i,
    {
        if let Some(name) = zip_name(bytes, i) {
            let lower_s = to_lowercase(name.as_str());
            let lower = chars_of(lower_s.as_str());
            if ends_with_chars(&lower, ".model") {
                if let Some(d) = zip_data(bytes, i) {
                    let ghost before = models@;
                    if ends_with_chars(&lower, "3dmodel.model") {
                        models.insert(0, d);
                        assert(data_rows(models@) =~= seq![d@] + data_rows(before));
                    } else {
                        models.push(d);
                        assert(data_rows(models@) =~= data_rows(before).push(d@));
                    }
                }
            } else if find_chars(&lower, "project_settings.config").is_some() || find_chars(
                &lower,
                "model_settings.config",
            ).is_some() {
                if let Some(d) = zip_data(bytes, i) {
                    let ghost before = configs@;
                    configs.push(d);
                    assert(data_rows(configs@) =~= data_rows(before).push(d@));
                }
            }
        }
        i = i + 1;
    }
    (models, configs)
}

/// The colours that the pieces of a filament colour array give, piece by
/// piece as `str::lines` splits it (a piece is trimmed, then stripped of
/// commas and quotes; pieces that are not colours are skipped). Splitting
/// at every newline gives the same colours: `lines` only drops a final
/// empty piece and trailing carriage returns, which trimming removes.
pub open spec fn piece_colors(arr: Seq<char>, k: int, cur: Seq<char>) -> Seq<Rgba8>
    decreases arr.len() - k,
{
    if k < 0 || k >= arr.len() {
        piece_color(cur)
    } else if arr[k] == '\n' {
        piece_color(cur) + piece_colors(arr, k + 1, Seq::empty())
    } else {
        piece_colors(arr, k + 1, cur.push(arr[k]))
    }
}

/// The colour of one piece of the array, if it is one.
pub open spec fn piece_color(piece: Seq<char>) -> Seq<Rgba8> {
    match hex_color(trim_char(trim_char(trim(piece), ','), '"')) {
        Some(c) => seq![c],
        None => Seq::empty(),
    }
}

/// The filament colours of a settings file: the array that follows the
/// first `"filament_colour":`, up to its first `]`.
pub open spec fn settings_filaments(txt: Seq<char>) -> Seq<Rgba8> {
    match find_first(txt, "\"filament_colour\":"@) {
        None => Seq::empty(),
        Some(idx) => {
            let slice = txt.subrange(idx, txt.len() as int);
            match find_first(slice, "["@) {
                None => Seq::empty(),
                Some(a) => match find_first(slice.subrange(a, slice.len() as int), "]"@) {
                    None => Seq::empty(),
                    Some(e) => piece_colors(slice.subrange(a, a + e + 1), 0, Seq::empty()),
                },
            }
        },
    }
}

/// The filament colours of all settings files, in order; files that are
/// not UTF-8 give none.
pub open spec fn all_filaments(configs: Seq<Seq<u8>>) -> Seq<Rgba8>
    decreases configs.len(),
{
    if configs.len() == 0 {
        Seq::empty()
    } else {
        all_filaments(configs.drop_last()) + if vstd::utf8::valid_utf8(configs.last()) {
            settings_filaments(vstd::utf8::decode_utf8(configs.last()))
        } else {
            Seq::empty()
        }
    }
}

fn sub_vec(s: &Vec<char>, from: usize, to: usize) -> (res: Vec<char>)
    requires
        from <= to <= s.len(),
    ensures
        res@ == s@.subrange(from as int, to as int),
{
    let mut out: Vec<char> = Vec::new();
    let mut i: usize = from;
    while i < to
        invariant
            from <= i <= to <= s.len(),
            out@ == s@.subrange(from as int, i as int),
        decreases to - i,
    {
        out.push(s[i]);
        assert(out@ =~= s@.subrange(from as int, i + 1));
        i = i + 1;
    }
    out
}

fn piece_color_of(piece: &Vec<char>, out: &mut Vec<Rgba8>)
    ensures
        final(out)@ == old(out)@ + piece_color(piece@),
{
    let a = trim_white(piece);
    let b = trim_matching(&a, ',');
    let c = trim_matching(&b, '"');
    match parse_hex_color(&c) {
        Some(col) => {
            out.push(col);
            assert(out@ =~= old(out)@ + seq![col]);
        },
        None => {
            assert(out@ =~= old(out)@ + Seq::<Rgba8>::empty());
        },
    }
}

fn array_colors(arr: &Vec<char>, out: &mut Vec<Rgba8>)
    ensures
        final(out)@ == old(out)@ + piece_colors(arr@, 0, Seq::empty()),
{
    let mut cur: Vec<char> = Vec::new();
    let mut k: usize = 0;
    while k < arr.len()
        invariant
            k <= arr.len(),
            old(out)@ + piece_colors(arr@, 0, Seq::empty()) == out@ + piece_colors(arr@, k as int, cur@),
        decreases arr.len() - k,
    {
        if arr[k] == '\n' {
            let ghost before = out@;
            piece_color_of(&cur, out);
            assert(before + (piece_color(cur@) + piece_colors(arr@, k + 1, Seq::empty())) =~= out@ + piece_colors(arr@, k + 1, Seq::empty()));
            cur = Vec::new();
        } else {
            cur.push(arr[k]);
        }
        k = k + 1;
    }
    let ghost before = out@;
    piece_color_of(&cur, out);
    assert(before + piece_colors(arr@, k as int, cur@) =~= out@);
}

/// The filament colours of one settings file.
fn filaments_of(txt: &Vec<char>, out: &mut Vec<Rgba8>)
    ensures
        final(out)@ == old(out)@ + settings_filaments(txt@),
{
    match find_chars(txt, "\"filament_colour\":") {
        None => {
            assert(out@ =~= old(out)@ + Seq::<Rgba8>::empty());
        },
        Some(idx) => {
            let slice = sub_vec(txt, idx, txt.len());
            match find_chars(&slice, "[") {
                None => {
                    assert(out@ =~= old(out)@ + Seq::<Rgba8>::empty());
                },
                Some(a) => {
                    let tail = sub_vec(&slice, a, slice.len());
                    match find_chars(&tail, "]") {
                        None => {
                            assert(out@ =~= old(out)@ + Seq::<Rgba8>::empty());
                        },
                        Some(e) => {
                            proof {
                                reveal_strlit("]");
                                assert(tail@ =~= slice@.subrange(a as int, slice@.len() as int));
                            }
                            let arr = sub_vec(&slice, a, a + e + 1);
                            assert(settings_filaments(txt@) == piece_colors(arr@, 0, Seq::empty()));
                            array_colors(&arr, out);
                        },
                    }
                },
            }
        },
    }
}

/// The filament colours of all settings files.
fn collect_filaments(configs: &Vec<Vec<u8>>) -> (res: Vec<Rgba8>)
    ensures
        res@ == all_filaments(data_rows(configs@)),
{
    let mut out: Vec<Rgba8> = Vec::new();
    let mut i: usize = 0;
    while i < configs.len()
        invariant
            i <= configs.len(),
            out@ == all_filaments(data_rows(configs@).subrange(0, i as int)),
        decreases configs.len() - i,
    {
        let ghost pre = data_rows(configs@).subrange(0, i + 1);
        assert(pre.drop_last() =~= data_rows(configs@).subrange(0, i as int));
        assert(pre.last() == configs@[i as int]@);
        match decode_utf8_chars(configs[i].as_slice()) {
            Some(txt) => {
                filaments_of(&txt, &mut out);
            },
            None => {
                assert(out@ =~= out@ + Seq::<Rgba8>::empty());
            },
        }
        i = i + 1;
    }
    assert(data_rows(configs@).subrange(0, configs.len() as int) =~= data_rows(configs@));
    out
}


/// The bytes of an ASCII text.
pub open spec fn ascii_bytes(s: Seq<char>) -> Seq<u8> {
    s.map_values(|c: char| c as u8)
}

/// A tag or attribute name ends with the ASCII text `suffix`.
pub open spec fn name_ends(name: Seq<u8>, suffix: Seq<char>) -> bool {
    let b = ascii_bytes(suffix);
    b.len() <= name.len() && name.subrange(name.len() - b.len(), name.len() as int) == b
}

/// Whether a name ends with an ASCII suffix.
pub fn name_ends_with(name: &Vec<u8>, suffix: &str) -> (res: bool)
    ensures
        res == name_ends(name@, suffix@),
{
    let p = chars_of(suffix);
    if p.len() > name.len() {
        return false;
    }
    let off = name.len() - p.len();
    let ghost b = ascii_bytes(suffix@);
    let mut i: usize = 0;
    while i < p.len()
        invariant
            p@ == suffix@,
            b == ascii_bytes(suffix@),
            off == name.len() - p.len(),
            p.len() <= name.len(),
            i <= p.len(),
            forall|k: int| 0 <= k < i ==> name@[off + k] == b[k],
        decreases p.len() - i,
    {
        if name[off + i] != (p[i] as u8) {
            assert(name@.subrange(off as int, name@.len() as int)[i as int] != b[i as int]);
            return false;
        }
        i = i + 1;
    }
    assert(name@.subrange(off as int, name@.len() as int) =~= b);
    true
}

/// The attributes of an event, as plain sequences.
pub open spec fn attrs_of(e: XmlEvent) -> Seq<(Seq<u8>, Option<Seq<char>>)> {
    e.attrs@.map_values(|a: XmlAttr| attr_view(a))
}

/// The resource id that the first `k` attributes of a material group set:
/// each attribute whose name ends in `id` and whose value unescapes sets
/// it to its value read as `u32` (`None` when that fails).
pub open spec fn resource_id(attrs: Seq<(Seq<u8>, Option<Seq<char>>)>, k: int, cur: Option<u32>) -> Option<u32>
    decreases k,
{
    if k <= 0 {
        cur
    } else {
        let prev = resource_id(attrs, k - 1, cur);
        let (key, v) = attrs[k - 1];
        if name_ends(key, "id"@) && v is Some {
            parse_u32_spec(v->0)
        } else {
            prev
        }
    }
}

/// The colour text of a material or colour element: the value of its last
/// attribute whose name ends in `color` (which `displaycolor` does).
pub open spec fn color_text(attrs: Seq<(Seq<u8>, Option<Seq<char>>)>, k: int) -> Option<Seq<char>>
    decreases k,
{
    if k <= 0 {
        None
    } else {
        let prev = color_text(attrs, k - 1);
        let (key, v) = attrs[k - 1];
        if (name_ends(key, "displaycolor"@) || name_ends(key, "color"@)) && v is Some {
            v
        } else {
            prev
        }
    }
}

/// Where the colours of a resource id are listed, or the list's length.
pub open spec fn resource_position(colors: Seq<(u32, Seq<Rgba8>)>, id: u32) -> int
    decreases colors.len(),
{
    if colors.len() == 0 {
        0
    } else if colors[0].0 == id {
        0
    } else {
        1 + resource_position(colors.drop_first(), id)
    }
}

/// The colours with one more colour for a resource id.
pub open spec fn add_resource_color(colors: Seq<(u32, Seq<Rgba8>)>, id: u32, c: Rgba8) -> Seq<(u32, Seq<Rgba8>)> {
    let g = resource_position(colors, id);
    if g < colors.len() {
        colors.update(g, (id, colors[g].1.push(c)))
    } else {
        colors.push((id, seq![c]))
    }
}

/// The state of the first pass: the material group being read, and the
/// colours of each resource id in the order met.
pub struct ResState {
    pub current: Option<u32>,
    pub colors: Seq<(u32, Seq<Rgba8>)>,
}

/// The effect of one event on the first pass.
pub open spec fn res_step(st: ResState, ev: (XmlKind, Seq<u8>, Seq<(Seq<u8>, Option<Seq<char>>)>)) -> ResState {
    let (kind, name, attrs) = ev;
    if kind == XmlKind::Start || kind == XmlKind::Empty {
        if name_ends(name, "basematerials"@) || name_ends(name, "colorgroup"@) {
            ResState { current: resource_id(attrs, attrs.len() as int, st.current), ..st }
        } else if name_ends(name, "base"@) || name_ends(name, "color"@) {
            match (st.current, color_text(attrs, attrs.len() as int)) {
                (Some(id), Some(t)) => match hex_color(t) {
                    Some(c) => ResState { colors: add_resource_color(st.colors, id, c), ..st },
                    None => st,
                },
                _ => st,
            }
        } else {
            st
        }
    } else if kind == XmlKind::End {
        if name_ends(name, "basematerials"@) || name_ends(name, "colorgroup"@) {
            ResState { current: None, ..st }
        } else {
            st
        }
    } else {
        st
    }
}

/// The first pass over the first `k` events of one model part.
pub open spec fn res_run(evs: Seq<(XmlKind, Seq<u8>, Seq<(Seq<u8>, Option<Seq<char>>)>)>, k: int, st: ResState) -> ResState
    decreases k,
{
    if k <= 0 {
        st
    } else {
        res_step(res_run(evs, k - 1, st), evs[k - 1])
    }
}

/// The resource colours of the first `k` model parts.
pub open spec fn resource_colors(models: Seq<Seq<u8>>, k: int) -> Seq<(u32, Seq<Rgba8>)>
    decreases k,
{
    if k <= 0 {
        Seq::empty()
    } else {
        let evs = xml_parse(models[k - 1]);
        res_run(evs, evs.len() as int, ResState { current: None, colors: resource_colors(models, k - 1) }).colors
    }
}

fn attr_value_copy(v: &Option<Vec<char>>) -> (res: Option<Vec<char>>)
    ensures
        match v {
            Some(x) => res matches Some(y) && y@ == x@,
            None => res is None,
        },
{
    match v {
        Some(x) => Some(copy_chars(x)),
        None => None,
    }
}

fn add_resource_color_exec(colors: &mut Vec<(u32, Vec<Rgba8>)>, id: u32, c: Rgba8)
    ensures
        res_view(final(colors)@) == add_resource_color(res_view(old(colors)@), id, c),
{
    let ghost cv = res_view(old(colors)@);
    let mut i: usize = 0;
    while i < colors.len()
        invariant
            i <= colors.len(),
            colors@ == old(colors)@,
            cv == res_view(old(colors)@),
            forall|j: int| 0 <= j < i ==> cv[j].0 != id,
        decreases colors.len() - i,
    {
        if colors[i].0 == id {
            proof {
                lemma_resource_position(cv, id, i as int);
            }
            let mut g = colors.remove(i);
            g.1.push(c);
            colors.insert(i, g);
            assert(res_view(colors@) =~= cv.update(i as int, (id, cv[i as int].1.push(c))));
            return;
        }
        i = i + 1;
    }
    proof {
        lemma_resource_position(cv, id, i as int);
    }
    let mut fresh: Vec<Rgba8> = Vec::new();
    fresh.push(c);
    colors.push((id, fresh));
    assert(res_view(colors@) =~= cv.push((id, seq![c])));
}

proof fn lemma_resource_position(colors: Seq<(u32, Seq<Rgba8>)>, id: u32, k: int)
    requires
        0 <= k <= colors.len(),
        forall|j: int| 0 <= j < k ==> colors[j].0 != id,
        k < colors.len() ==> colors[k].0 == id,
    ensures
        resource_position(colors, id) == k,
    decreases colors.len(),
{
    if colors.len() > 0 && colors[0].0 != id {
        assert forall|j: int| 0 <= j < k - 1 implies colors.drop_first()[j].0 != id by {
            assert(colors.drop_first()[j] == colors[j + 1]);
        }
        lemma_resource_position(colors.drop_first(), id, k - 1);
    }
}

/// Resource colours as sequences.
pub open spec fn res_view(v: Seq<(u32, Vec<Rgba8>)>) -> Seq<(u32, Seq<Rgba8>)> {
    v.map_values(|g: (u32, Vec<Rgba8>)| (g.0, g.1@))
}

/// Applies one event to the first pass.
fn res_apply(current: &mut Option<u32>, colors: &mut Vec<(u32, Vec<Rgba8>)>, ev: &XmlEvent)
    ensures
        ({
            let st = res_step(ResState { current: *old(current), colors: res_view(old(colors)@) }, event_view(*ev));
            *final(current) == st.current && res_view(final(colors)@) == st.colors
        }),
{
    let ghost attrs = attrs_of(*ev);
    if ev.kind == XmlKind::Start || ev.kind == XmlKind::Empty {
        if name_ends_with(&ev.name, "basematerials") || name_ends_with(&ev.name, "colorgroup") {
            let mut i: usize = 0;
            while i < ev.attrs.len()
                invariant
                    i <= ev.attrs.len(),
                    attrs == attrs_of(*ev),
                    *current == resource_id(attrs, i as int, *old(current)),
                decreases ev.attrs.len() - i,
            {
                assert(attrs[i as int] == attr_view(ev.attrs@[i as int]));
                if name_ends_with(&ev.attrs[i].key, "id") {
                    match &ev.attrs[i].value {
                        Some(v) => {
                            *current = parse_u32(v);
                        },
                        None => {},
                    }
                }
                i = i + 1;
            }
        } else if name_ends_with(&ev.name, "base") || name_ends_with(&ev.name, "color") {
            let mut text: Option<Vec<char>> = None;
            let mut i: usize = 0;
            while i < ev.attrs.len()
                invariant
                    i <= ev.attrs.len(),
                    attrs == attrs_of(*ev),
                    match text {
                        Some(t) => color_text(attrs, i as int) == Some(t@),
                        None => color_text(attrs, i as int) is None,
                    },
                decreases ev.attrs.len() - i,
            {
                assert(attrs[i as int] == attr_view(ev.attrs@[i as int]));
                if name_ends_with(&ev.attrs[i].key, "displaycolor") || name_ends_with(&ev.attrs[i].key, "color") {
                    if ev.attrs[i].value.is_some() {
                        text = attr_value_copy(&ev.attrs[i].value);
                    }
                }
                i = i + 1;
            }
            match (*current, &text) {
                (Some(id), Some(t)) => {
                    match parse_hex_color(t) {
                        Some(c) => add_resource_color_exec(colors, id, c),
                        None => {},
                    }
                },
                _ => {},
            }
        }
    } else if ev.kind == XmlKind::End {
        if name_ends_with(&ev.name, "basematerials") || name_ends_with(&ev.name, "colorgroup") {
            *current = None;
        }
    }
}

/// The first pass: the colours of material resources over all model parts.
fn resource_pass(models: &Vec<Vec<u8>>) -> (res: Vec<(u32, Vec<Rgba8>)>)
    ensures
        res_view(res@) == resource_colors(data_rows(models@), models@.len() as int),
{
    let mut colors: Vec<(u32, Vec<Rgba8>)> = Vec::new();
    let mut m: usize = 0;
    assert(res_view(colors@) =~= Seq::<(u32, Seq<Rgba8>)>::empty());
    while m < models.len()
        invariant
            m <= models.len(),
            res_view(colors@) == resource_colors(data_rows(models@), m as int),
        decreases models.len() - m,
    {
        let evs = xml_events(models[m].as_slice());
        assert(data_rows(models@)[m as int] == models@[m as int]@);
        let ghost ev = events_view(evs@);
        let ghost start = ResState { current: None, colors: res_view(colors@) };
        let mut current: Option<u32> = None;
        let mut k: usize = 0;
        while k < evs.len()
            invariant
                k <= evs.len(),
                ev == events_view(evs@),
                res_run(ev, k as int, start) == (ResState { current, colors: res_view(colors@) }),
            decreases evs.len() - k,
        {
            assert(ev[k as int] == event_view(evs@[k as int]));
            res_apply(&mut current, &mut colors, &evs[k]);
            k = k + 1;
        }
        m = m + 1;
    }
    colors
}


/// A colour turned into the key that groups triangles: each colour
/// component through `linear` (its linearised value, quantised), alpha
/// through `alpha` (quantised); both tables have 256 entries.
pub open spec fn quantize(linear: Seq<u8>, alpha: Seq<u8>, c: Rgba8) -> Rgba8 {
    Rgba8 {
        r: linear[c.r as int],
        g: linear[c.g as int],
        b: linear[c.b as int],
        a: alpha[c.a as int],
    }
}

/// What the second pass needs besides the events.
pub struct GeoEnv {
    pub filaments: Seq<Rgba8>,
    pub colors: Seq<(u32, Seq<Rgba8>)>,
    pub linear: Seq<u8>,
    pub alpha: Seq<u8>,
}

/// The state of the second pass: the object being read (its material
/// reference, vertices and triangles by colour) and the geometry so far.
pub struct GeoState {
    pub pid: Option<u32>,
    pub pindex: Option<u32>,
    pub obj_positions: Seq<[Coord; 3]>,
    pub obj_groups: Seq<(Option<Rgba8>, Seq<[u32; 3]>)>,
    pub positions: Seq<[Coord; 3]>,
    pub indices: Seq<[u32; 3]>,
    /// Per coloured part: its vertices, its triangles and its colour key.
    pub parts: Seq<(Seq<[Coord; 3]>, Seq<[u32; 3]>, Option<Rgba8>)>,
}

/// The material reference of an object's first `k` attributes: `pid`,
/// and `pindex` or `p1`.
pub open spec fn object_ref(attrs: Seq<(Seq<u8>, Option<Seq<char>>)>, k: int) -> (Option<u32>, Option<u32>)
    decreases k,
{
    if k <= 0 {
        (None, None)
    } else {
        let (pid, pindex) = object_ref(attrs, k - 1);
        let (key, v) = attrs[k - 1];
        if v is None {
            (pid, pindex)
        } else if name_ends(key, "pid"@) {
            (parse_u32_spec(v->0), pindex)
        } else if name_ends(key, "pindex"@) || name_ends(key, "p1"@) {
            (pid, parse_u32_spec(v->0))
        } else {
            (pid, pindex)
        }
    }
}

/// A coordinate text, when `f32::from_str` accepts it.
pub open spec fn float_word(v: Seq<char>) -> Option<Seq<char>> {
    if is_float_literal(v) {
        Some(v)
    } else {
        None
    }
}

/// The coordinates of a vertex's first `k` attributes, by the last letter
/// of their names (`x`, else `y`, else `z`).
pub open spec fn vertex_coords(attrs: Seq<(Seq<u8>, Option<Seq<char>>)>, k: int) -> (
    Option<Seq<char>>,
    Option<Seq<char>>,
    Option<Seq<char>>,
)
    decreases k,
{
    if k <= 0 {
        (None, None, None)
    } else {
        let (x, y, z) = vertex_coords(attrs, k - 1);
        let (key, v) = attrs[k - 1];
        if v is None {
            (x, y, z)
        } else if name_ends(key, "x"@) {
            (float_word(v->0), y, z)
        } else if name_ends(key, "y"@) {
            (x, float_word(v->0), z)
        } else if name_ends(key, "z"@) {
            (x, y, float_word(v->0))
        } else {
            (x, y, z)
        }
    }
}

/// What a triangle's attributes say.
pub struct TriAttrs {
    pub v1: Option<u32>,
    pub v2: Option<u32>,
    pub v3: Option<u32>,
    pub pid: Option<u32>,
    pub pindex: Option<u32>,
    pub paint: Option<Seq<char>>,
}

/// The first `k` attributes of a triangle read over `init`.
pub open spec fn triangle_attrs(attrs: Seq<(Seq<u8>, Option<Seq<char>>)>, k: int, init: TriAttrs) -> TriAttrs
    decreases k,
{
    if k <= 0 {
        init
    } else {
        let t = triangle_attrs(attrs, k - 1, init);
        let (key, v) = attrs[k - 1];
        if v is None {
            t
        } else if name_ends(key, "v1"@) {
            TriAttrs { v1: parse_u32_spec(v->0), ..t }
        } else if name_ends(key, "v2"@) {
            TriAttrs { v2: parse_u32_spec(v->0), ..t }
        } else if name_ends(key, "v3"@) {
            TriAttrs { v3: parse_u32_spec(v->0), ..t }
        } else if name_ends(key, "pid"@) {
            TriAttrs { pid: parse_u32_spec(v->0), ..t }
        } else if name_ends(key, "p1"@) || name_ends(key, "pindex"@) {
            TriAttrs { pindex: parse_u32_spec(v->0), ..t }
        } else if name_ends(key, "paint_color"@) || name_ends(key, "segment"@) {
            TriAttrs { paint: v, ..t }
        } else {
            t
        }
    }
}

/// Colour `idx` of resource `pid`, if there is one.
pub open spec fn resource_color(colors: Seq<(u32, Seq<Rgba8>)>, pid: u32, idx: nat) -> Option<Rgba8> {
    let g = resource_position(colors, pid);
    if g < colors.len() && idx < colors[g].1.len() {
        Some(colors[g].1[idx as int])
    } else {
        None
    }
}

/// The colour of a triangle: its paint, else its material reference.
pub open spec fn triangle_color(t: TriAttrs, env: GeoEnv) -> Option<Rgba8> {
    let painted = match t.paint {
        Some(p) => paint_color(p, env.filaments),
        None => None,
    };
    if painted is Some {
        painted
    } else {
        match t.pid {
            Some(pid) => resource_color(
                env.colors,
                pid,
                match t.pindex {
                    Some(i) => i as nat,
                    None => 0,
                },
            ),
            None => None,
        }
    }
}

/// A triangle's corners moved by `base`, wrapping as `u32` does.
pub open spec fn offset_tri(t: [u32; 3], base: u32) -> [u32; 3] {
    [
        vstd::wrapping::u32_specs::wrapping_add(t[0], base),
        vstd::wrapping::u32_specs::wrapping_add(t[1], base),
        vstd::wrapping::u32_specs::wrapping_add(t[2], base),
    ]
}

/// The triangles of the groups, in order, moved by `base`.
pub open spec fn offset_groups(groups: Seq<(Option<Rgba8>, Seq<[u32; 3]>)>, base: u32) -> Seq<[u32; 3]>
    decreases groups.len(),
{
    if groups.len() == 0 {
        Seq::empty()
    } else {
        offset_groups(groups.drop_last(), base) + groups.last().1.map_values(
            |t: [u32; 3]| offset_tri(t, base),
        )
    }
}

/// The parts of an object: one per colour group, each with all the
/// object's vertices.
pub open spec fn object_parts(groups: Seq<(Option<Rgba8>, Seq<[u32; 3]>)>, pos: Seq<[Coord; 3]>) -> Seq<
    (Seq<[Coord; 3]>, Seq<[u32; 3]>, Option<Rgba8>),
> {
    groups.map_values(|g: (Option<Rgba8>, Seq<[u32; 3]>)| (pos, g.1, g.0))
}

/// The effect of one event on the second pass. An `object` start resets
/// the object; a `vertex` with three coordinates adds a vertex; a
/// `triangle` with three corners adds a triangle to the group of its colour
/// key; an `object` end adds the object, when it has vertices and
/// triangles, to the geometry, its triangles moved past the vertices
/// already there.
pub open spec fn geo_step(st: GeoState, ev: (XmlKind, Seq<u8>, Seq<(Seq<u8>, Option<Seq<char>>)>), env: GeoEnv) -> GeoState {
    let (kind, name, attrs) = ev;
    if kind == XmlKind::Start || kind == XmlKind::Empty {
        if name_ends(name, "object"@) {
            let (pid, pindex) = object_ref(attrs, attrs.len() as int);
            GeoState { pid, pindex, obj_positions: Seq::empty(), obj_groups: Seq::empty(), ..st }
        } else if name_ends(name, "vertex"@) {
            match vertex_coords(attrs, attrs.len() as int) {
                (Some(x), Some(y), Some(z)) => GeoState {
                    obj_positions: st.obj_positions.push(
                        [Coord::Text(x, false), Coord::Text(y, false), Coord::Text(z, false)],
                    ),
                    ..st
                },
                _ => st,
            }
        } else if name_ends(name, "triangle"@) {
            let t = triangle_attrs(
                attrs,
                attrs.len() as int,
                TriAttrs { v1: None, v2: None, v3: None, pid: st.pid, pindex: st.pindex, paint: None },
            );
            match (t.v1, t.v2, t.v3) {
                (Some(a), Some(b), Some(c)) => {
                    let key = match triangle_color(t, env) {
                        Some(col) => Some(quantize(env.linear, env.alpha, col)),
                        None => None,
                    };
                    GeoState { obj_groups: add_to_group(st.obj_groups, key, seq![[a, b, c]]), ..st }
                },
                _ => st,
            }
        } else {
            st
        }
    } else if kind == XmlKind::End && name_ends(name, "object"@) {
        if st.obj_positions.len() > 0 && st.obj_groups.len() > 0 {
            let base = (st.positions.len() as int) as u32;
            GeoState {
                positions: st.positions + st.obj_positions,
                indices: st.indices + offset_groups(st.obj_groups, base),
                parts: st.parts + object_parts(st.obj_groups, st.obj_positions),
                ..st
            }
        } else {
            st
        }
    } else {
        st
    }
}

/// The second pass over the first `k` events of one model part.
pub open spec fn geo_run(evs: Seq<(XmlKind, Seq<u8>, Seq<(Seq<u8>, Option<Seq<char>>)>)>, k: int, st: GeoState, env: GeoEnv) -> GeoState
    decreases k,
{
    if k <= 0 {
        st
    } else {
        geo_step(geo_run(evs, k - 1, st, env), evs[k - 1], env)
    }
}

/// While an object is read, each colour of its triangles has one group.
pub proof fn lemma_object_groups_one_per_colour(
    evs: Seq<(XmlKind, Seq<u8>, Seq<(Seq<u8>, Option<Seq<char>>)>)>,
    k: int,
    st: GeoState,
    env: GeoEnv,
)
    requires
        one_group_per_colour(st.obj_groups),
    ensures
        one_group_per_colour(geo_run(evs, k, st, env).obj_groups),
    decreases k,
{
    if k > 0 {
        lemma_object_groups_one_per_colour(evs, k - 1, st, env);
        let prev = geo_run(evs, k - 1, st, env);
        let (kind, name, attrs) = evs[k - 1];
        let t = triangle_attrs(
            attrs,
            attrs.len() as int,
            TriAttrs { v1: None, v2: None, v3: None, pid: prev.pid, pindex: prev.pindex, paint: None },
        );
        let key = match triangle_color(t, env) {
            Some(col) => Some(quantize(env.linear, env.alpha, col)),
            None => None,
        };
        if t.v1 is Some && t.v2 is Some && t.v3 is Some {
            lemma_add_to_group_keeps_triangles(
                prev.obj_groups,
                key,
                seq![[t.v1->0, t.v2->0, t.v3->0]],
            );
        }
    }
}

/// A triangle with no attribute read yet.
pub open spec fn no_triangle_attrs() -> TriAttrs {
    TriAttrs { v1: None, v2: None, v3: None, pid: None, pindex: None, paint: None }
}

/// An attribute name that names no material (`pid`, `p1`, `pindex`) and no
/// paint (`paint_color`, `segment`).
pub open spec fn names_no_material(key: Seq<u8>) -> bool {
    &&& !name_ends(key, "pid"@)
    &&& !name_ends(key, "p1"@)
    &&& !name_ends(key, "pindex"@)
    &&& !name_ends(key, "paint_color"@)
    &&& !name_ends(key, "segment"@)
}

proof fn lemma_bare_triangle_attrs(attrs: Seq<(Seq<u8>, Option<Seq<char>>)>, k: int, init: TriAttrs)
    requires
        k <= attrs.len(),
        init.v1 is None && init.v2 is None && init.v3 is None,
        forall|j: int| 0 <= j < attrs.len() ==> names_no_material(#[trigger] attrs[j].0),
    ensures
        triangle_attrs(attrs, k, init) == (TriAttrs {
            pid: init.pid,
            pindex: init.pindex,
            paint: init.paint,
            ..triangle_attrs(attrs, k, no_triangle_attrs())
        }),
    decreases k,
{
    if k > 0 {
        lemma_bare_triangle_attrs(attrs, k - 1, init);
        assert(names_no_material(attrs[k - 1].0));
    }
}

/// A triangle that names no material and no paint of its own takes its
/// object's material: when the object refers to resource `pid` and its
/// colour `pindex`, the triangle is grouped under that colour (quantised),
/// not under the resource's first colour.
pub proof fn lemma_bare_triangle_takes_object_material(
    st: GeoState,
    kind: XmlKind,
    name: Seq<u8>,
    attrs: Seq<(Seq<u8>, Option<Seq<char>>)>,
    env: GeoEnv,
    pid: u32,
    pindex: u32,
    c: Rgba8,
)
    requires
        kind == XmlKind::Start || kind == XmlKind::Empty,
        name_ends(name, "triangle"@),
        !name_ends(name, "object"@),
        !name_ends(name, "vertex"@),
        forall|j: int| 0 <= j < attrs.len() ==> names_no_material(#[trigger] attrs[j].0),
        st.pid == Some(pid),
        st.pindex == Some(pindex),
        resource_color(env.colors, pid, pindex as nat) == Some(c),
    ensures
        ({
            let t = triangle_attrs(attrs, attrs.len() as int, no_triangle_attrs());
            t.v1 is Some && t.v2 is Some && t.v3 is Some ==> in_group(
                geo_step(st, (kind, name, attrs), env).obj_groups,
                Some(quantize(env.linear, env.alpha, c)),
                [t.v1->0, t.v2->0, t.v3->0],
            )
        }),
{
    let init = TriAttrs { v1: None, v2: None, v3: None, pid: st.pid, pindex: st.pindex, paint: None };
    lemma_bare_triangle_attrs(attrs, attrs.len() as int, init);
    let t = triangle_attrs(attrs, attrs.len() as int, no_triangle_attrs());
    if t.v1 is Some && t.v2 is Some && t.v3 is Some {
        let tri = [t.v1->0, t.v2->0, t.v3->0];
        let key = Some(quantize(env.linear, env.alpha, c));
        lemma_add_to_group_places(st.obj_groups, key, seq![tri]);
        assert(seq![tri][0] == tri);
        assert(seq![tri].contains(tri));
    }
}

/// An object's material reaches the triangles read after it: after an
/// `object` tag whose `pid` and `pindex` (or `p1`) name colour `pindex` of
/// resource `pid`, a triangle that names no material of its own is grouped
/// under that colour.
pub proof fn lemma_object_material_reaches_its_triangles(
    st: GeoState,
    object_kind: XmlKind,
    object_name: Seq<u8>,
    object_attrs: Seq<(Seq<u8>, Option<Seq<char>>)>,
    kind: XmlKind,
    name: Seq<u8>,
    attrs: Seq<(Seq<u8>, Option<Seq<char>>)>,
    env: GeoEnv,
    pid: u32,
    pindex: u32,
    c: Rgba8,
)
    requires
        object_kind == XmlKind::Start || object_kind == XmlKind::Empty,
        name_ends(object_name, "object"@),
        object_ref(object_attrs, object_attrs.len() as int) == (Some(pid), Some(pindex)),
        kind == XmlKind::Start || kind == XmlKind::Empty,
        name_ends(name, "triangle"@),
        !name_ends(name, "object"@),
        !name_ends(name, "vertex"@),
        forall|j: int| 0 <= j < attrs.len() ==> names_no_material(#[trigger] attrs[j].0),
        resource_color(env.colors, pid, pindex as nat) == Some(c),
    ensures
        ({
            let t = triangle_attrs(attrs, attrs.len() as int, no_triangle_attrs());
            let after_object = geo_step(st, (object_kind, object_name, object_attrs), env);
            t.v1 is Some && t.v2 is Some && t.v3 is Some ==> in_group(
                geo_step(after_object, (kind, name, attrs), env).obj_groups,
                Some(quantize(env.linear, env.alpha, c)),
                [t.v1->0, t.v2->0, t.v3->0],
            )
        }),
{
    let after_object = geo_step(st, (object_kind, object_name, object_attrs), env);
    assert(after_object.pid == Some(pid) && after_object.pindex == Some(pindex));
    lemma_bare_triangle_takes_object_material(after_object, kind, name, attrs, env, pid, pindex, c);
}

/// The state in which the second pass starts a model part: the object
/// cleared, the geometry kept.
pub open spec fn fresh_part(st: GeoState) -> GeoState {
    GeoState { pid: None, pindex: None, obj_positions: Seq::empty(), obj_groups: Seq::empty(), ..st }
}

/// The second pass over the first `k` model parts.
pub open spec fn geo_models(models: Seq<Seq<u8>>, k: int, env: GeoEnv) -> GeoState
    decreases k,
{
    if k <= 0 {
        GeoState {
            pid: None,
            pindex: None,
            obj_positions: Seq::empty(),
            obj_groups: Seq::empty(),
            positions: Seq::empty(),
            indices: Seq::empty(),
            parts: Seq::empty(),
        }
    } else {
        let evs = xml_parse(models[k - 1]);
        geo_run(evs, evs.len() as int, fresh_part(geo_models(models, k - 1, env)), env)
    }
}

/// The exec state of the second pass.
struct GeoBuilder {
    literals: Vec<Vec<char>>,
    pid: Option<u32>,
    pindex: Option<u32>,
    obj_positions: Vec<[Scalar; 3]>,
    obj_groups: Vec<(Option<Rgba8>, Vec<[u32; 3]>)>,
    positions: Vec<[Scalar; 3]>,
    indices: Vec<[u32; 3]>,
    parts: Vec<SubMesh>,
}

/// Parts as plain sequences.
pub open spec fn parts_view(lits: Seq<Vec<char>>, parts: Seq<SubMesh>) -> Seq<(Seq<[Coord; 3]>, Seq<[u32; 3]>, Option<Rgba8>)> {
    parts.map_values(|p: SubMesh| (rows_value(lits, p.positions@), p.indices@, match p.color {
        Some(ColorValue::Quantized(c)) => Some(c),
        _ => None::<Rgba8>,
    }))
}

impl GeoBuilder {
    spec fn view(&self) -> GeoState {
        GeoState {
            pid: self.pid,
            pindex: self.pindex,
            obj_positions: rows_value(self.literals@, self.obj_positions@),
            obj_groups: crate::loader::obj::groups_view(self.obj_groups@),
            positions: rows_value(self.literals@, self.positions@),
            indices: self.indices@,
            parts: parts_view(self.literals@, self.parts@),
        }
    }

    spec fn wf(&self) -> bool {
        &&& forall|i: int| 0 <= i < self.literals@.len() ==> is_float_literal(
            #[trigger] self.literals@[i]@,
        )
        &&& rows_refer_within(self.obj_positions@, self.literals@.len())
        &&& rows_refer_within(self.positions@, self.literals@.len())
        &&& forall|j: int| 0 <= j < self.parts@.len() ==> {
            &&& rows_refer_within(#[trigger] self.parts@[j].positions@, self.literals@.len())
            &&& self.parts@[j].normals@.len() == 0
            &&& (self.parts@[j].color matches Some(c) ==> c is Quantized)
        }
    }
}


fn float_word_of(v: &Vec<char>) -> (res: Option<Vec<char>>)
    ensures
        match res {
            Some(w) => float_word(v@) == Some(w@) && is_float_literal(w@),
            None => float_word(v@) is None,
        },
{
    if is_float_text(v) {
        Some(copy_chars(v))
    } else {
        None
    }
}

/// Pushes a literal and returns the scalar that stands for it.
fn push_literal(lits: &mut Vec<Vec<char>>, text: Vec<char>) -> (res: Scalar)
    requires
        is_float_literal(text@),
    ensures
        final(lits)@ == old(lits)@.push(text),
        res matches Scalar::Literal { index, negated } && index == old(lits)@.len() && !negated,
{
    let i = lits.len();
    lits.push(text);
    Scalar::Literal { index: i, negated: false }
}

fn lookup_resource_color(colors: &Vec<(u32, Vec<Rgba8>)>, pid: u32, idx: u32) -> (res: Option<Rgba8>)
    ensures
        res == resource_color(res_view(colors@), pid, idx as nat),
{
    let ghost cv = res_view(colors@);
    let mut i: usize = 0;
    while i < colors.len()
        invariant
            i <= colors.len(),
            cv == res_view(colors@),
            forall|j: int| 0 <= j < i ==> cv[j].0 != pid,
        decreases colors.len() - i,
    {
        if colors[i].0 == pid {
            proof {
                lemma_resource_position(cv, pid, i as int);
            }
            let list = &colors[i].1;
            if (idx as usize) < list.len() {
                return Some(list[idx as usize]);
            } else {
                return None;
            }
        }
        i = i + 1;
    }
    proof {
        lemma_resource_position(cv, pid, i as int);
    }
    None
}

fn quantize_exec(linear: &Vec<u8>, alpha: &Vec<u8>, c: Rgba8) -> (res: Rgba8)
    requires
        linear@.len() == 256,
        alpha@.len() == 256,
    ensures
        res == quantize(linear@, alpha@, c),
{
    Rgba8 { r: linear[c.r as usize], g: linear[c.g as usize], b: linear[c.b as usize], a: alpha[c.a as usize] }
}

/// Applies a `vertex` event to the second pass.
fn geo_vertex(b: &mut GeoBuilder, ev: &XmlEvent)
    requires
        old(b).wf(),
    ensures
        final(b).wf(),
        final(b).view() == ({
            let st = old(b).view();
            match vertex_coords(attrs_of(*ev), attrs_of(*ev).len() as int) {
                (Some(x), Some(y), Some(z)) => GeoState {
                    obj_positions: st.obj_positions.push(
                        [Coord::Text(x, false), Coord::Text(y, false), Coord::Text(z, false)],
                    ),
                    ..st
                },
                _ => st,
            }
        }),
{
    let ghost attrs = attrs_of(*ev);
    let mut x: Option<Vec<char>> = None;
    let mut y: Option<Vec<char>> = None;
    let mut z: Option<Vec<char>> = None;
    let mut i: usize = 0;
    while i < ev.attrs.len()
        invariant
            i <= ev.attrs.len(),
            attrs == attrs_of(*ev),
            ({
                let (sx, sy, sz) = vertex_coords(attrs, i as int);
                &&& (match x { Some(w) => sx == Some(w@), None => sx is None })
                &&& (match y { Some(w) => sy == Some(w@), None => sy is None })
                &&& (match z { Some(w) => sz == Some(w@), None => sz is None })
            }),
            x matches Some(w) ==> is_float_literal(w@),
            y matches Some(w) ==> is_float_literal(w@),
            z matches Some(w) ==> is_float_literal(w@),
        decreases ev.attrs.len() - i,
    {
        assert(attrs[i as int] == attr_view(ev.attrs@[i as int]));
        match &ev.attrs[i].value {
            Some(v) => {
                if name_ends_with(&ev.attrs[i].key, "x") {
                    x = float_word_of(v);
                } else if name_ends_with(&ev.attrs[i].key, "y") {
                    y = float_word_of(v);
                } else if name_ends_with(&ev.attrs[i].key, "z") {
                    z = float_word_of(v);
                }
            },
            None => {},
        }
        i = i + 1;
    }
    match (x, y, z) {
        (Some(xw), Some(yw), Some(zw)) => {
            let ghost l0 = b.literals@;
            let ghost (xv, yv, zv) = (xw@, yw@, zw@);
            let sx = push_literal(&mut b.literals, xw);
            let sy = push_literal(&mut b.literals, yw);
            let sz = push_literal(&mut b.literals, zw);
            let ghost l3 = b.literals@;
            proof {
                assert(l3.subrange(0, l0.len() as int) =~= l0);
                lemma_rows_value_extend(l0, l3, b.obj_positions@);
                lemma_rows_value_extend(l0, l3, b.positions@);
                lemma_parts_extend(l0, l3, b.parts@);
            }
            let row = [sx, sy, sz];
            assert(l3[l0.len() as int]@ == xv);
            assert(l3[l0.len() as int + 1]@ == yv);
            assert(l3[l0.len() as int + 2]@ == zv);
            assert(crate::mesh::scalar_value(l3, sx) == Coord::Text(xv, false));
            assert(crate::mesh::scalar_value(l3, sy) == Coord::Text(yv, false));
            assert(crate::mesh::scalar_value(l3, sz) == Coord::Text(zv, false));
            assert(crate::mesh::row_value(l3, row) =~= [Coord::Text(xv, false), Coord::Text(yv, false), Coord::Text(zv, false)]);
            let ghost op = b.obj_positions@;
            b.obj_positions.push(row);
            proof {
                assert forall|k: int| 0 <= k < 3 implies scalar_refers_within(#[trigger] row[k], l3.len()) by {}
                assert forall|i2: int, k: int| 0 <= i2 < b.obj_positions@.len() && 0 <= k < 3 implies scalar_refers_within(
                    #[trigger] b.obj_positions@[i2][k],
                    l3.len(),
                ) by {
                    if i2 < op.len() {
                        assert(b.obj_positions@[i2] == op[i2]);
                    }
                }
                assert forall|i2: int| 0 <= i2 < l3.len() implies is_float_literal(#[trigger] l3[i2]@) by {
                    if i2 < l0.len() {
                        assert(l3[i2] == l0[i2]);
                    }
                }
            }
            assert(rows_value(b.literals@, b.obj_positions@) =~= rows_value(b.literals@, op).push(
                [Coord::Text(xv, false), Coord::Text(yv, false), Coord::Text(zv, false)],
            ));
        },
        _ => {},
    }
}

/// Applies one event to the second pass.
fn geo_apply(
    b: &mut GeoBuilder,
    ev: &XmlEvent,
    filaments: &Vec<Rgba8>,
    colors: &Vec<(u32, Vec<Rgba8>)>,
    linear: &Vec<u8>,
    alpha: &Vec<u8>,
)
    requires
        old(b).wf(),
        linear@.len() == 256,
        alpha@.len() == 256,
    ensures
        final(b).wf(),
        final(b).view() == geo_step(
            old(b).view(),
            event_view(*ev),
            GeoEnv { filaments: filaments@, colors: res_view(colors@), linear: linear@, alpha: alpha@ },
        ),
{
    let ghost attrs = attrs_of(*ev);
    let ghost env = GeoEnv { filaments: filaments@, colors: res_view(colors@), linear: linear@, alpha: alpha@ };
    if ev.kind == XmlKind::Start || ev.kind == XmlKind::Empty {
        if name_ends_with(&ev.name, "object") {
            let mut pid: Option<u32> = None;
            let mut pindex: Option<u32> = None;
            let mut i: usize = 0;
            while i < ev.attrs.len()
                invariant
                    i <= ev.attrs.len(),
                    attrs == attrs_of(*ev),
                    (pid, pindex) == object_ref(attrs, i as int),
                decreases ev.attrs.len() - i,
            {
                assert(attrs[i as int] == attr_view(ev.attrs@[i as int]));
                match &ev.attrs[i].value {
                    Some(v) => {
                        if name_ends_with(&ev.attrs[i].key, "pid") {
                            pid = parse_u32(v);
                        } else if name_ends_with(&ev.attrs[i].key, "pindex") || name_ends_with(&ev.attrs[i].key, "p1") {
                            pindex = parse_u32(v);
                        }
                    },
                    None => {},
                }
                i = i + 1;
            }
            b.pid = pid;
            b.pindex = pindex;
            b.obj_positions = Vec::new();
            b.obj_groups = Vec::new();
            assert(b.view().obj_positions =~= Seq::<[Coord; 3]>::empty());
            assert(b.view().obj_groups =~= Seq::<(Option<Rgba8>, Seq<[u32; 3]>)>::empty());
        } else if name_ends_with(&ev.name, "vertex") {
            geo_vertex(b, ev);
        } else if name_ends_with(&ev.name, "triangle") {
            let mut v1: Option<u32> = None;
            let mut v2: Option<u32> = None;
            let mut v3: Option<u32> = None;
            let mut tpid: Option<u32> = b.pid;
            let mut tpindex: Option<u32> = b.pindex;
            let mut paint: Option<Vec<char>> = None;
            let ghost init = TriAttrs { v1: None, v2: None, v3: None, pid: b.pid, pindex: b.pindex, paint: None };
            let mut i: usize = 0;
            while i < ev.attrs.len()
                invariant
                    i <= ev.attrs.len(),
                    attrs == attrs_of(*ev),
                    ({
                        let t = triangle_attrs(attrs, i as int, init);
                        &&& t.v1 == v1 && t.v2 == v2 && t.v3 == v3
                        &&& t.pid == tpid && t.pindex == tpindex
                        &&& (match paint { Some(w) => t.paint == Some(w@), None => t.paint is None })
                    }),
                decreases ev.attrs.len() - i,
            {
                assert(attrs[i as int] == attr_view(ev.attrs@[i as int]));
                match &ev.attrs[i].value {
                    Some(v) => {
                        let key = &ev.attrs[i].key;
                        if name_ends_with(key, "v1") {
                            v1 = parse_u32(v);
                        } else if name_ends_with(key, "v2") {
                            v2 = parse_u32(v);
                        } else if name_ends_with(key, "v3") {
                            v3 = parse_u32(v);
                        } else if name_ends_with(key, "pid") {
                            tpid = parse_u32(v);
                        } else if name_ends_with(key, "p1") || name_ends_with(key, "pindex") {
                            tpindex = parse_u32(v);
                        } else if name_ends_with(key, "paint_color") || name_ends_with(key, "segment") {
                            paint = Some(copy_chars(v));
                        }
                    },
                    None => {},
                }
                i = i + 1;
            }
            let ghost t = triangle_attrs(attrs, attrs.len() as int, init);
            match (v1, v2, v3) {
                (Some(a), Some(bb), Some(c)) => {
                    let mut color: Option<Rgba8> = match &paint {
                        Some(p) => resolve_paint_color(p, filaments),
                        None => None,
                    };
                    if color.is_none() {
                        match tpid {
                            Some(pid) => {
                                let pidx: u32 = match tpindex {
                                    Some(ix) => ix,
                                    None => 0,
                                };
                                color = lookup_resource_color(colors, pid, pidx);
                            },
                            None => {},
                        }
                    }
                    assert(color == triangle_color(t, env));
                    let key: Option<Rgba8> = match color {
                        Some(col) => Some(quantize_exec(linear, alpha, col)),
                        None => None,
                    };
                    let mut tris: Vec<[u32; 3]> = Vec::new();
                    tris.push([a, bb, c]);
                    assert(tris@ =~= seq![[a, bb, c]]);
                    add_to_group_exec(&mut b.obj_groups, key, &tris);
                },
                _ => {},
            }
        }
    } else if ev.kind == XmlKind::End && name_ends_with(&ev.name, "object") {
        if b.obj_positions.len() > 0 && b.obj_groups.len() > 0 {
            geo_flush(b);
        }
    }
}

proof fn lemma_parts_extend(lits: Seq<Vec<char>>, more: Seq<Vec<char>>, parts: Seq<SubMesh>)
    requires
        forall|j: int| 0 <= j < parts.len() ==> rows_refer_within(#[trigger] parts[j].positions@, lits.len()),
        more.len() >= lits.len(),
        more.subrange(0, lits.len() as int) == lits,
    ensures
        parts_view(more, parts) == parts_view(lits, parts),
        forall|j: int| 0 <= j < parts.len() ==> rows_refer_within(#[trigger] parts[j].positions@, more.len()),
{
    assert forall|j: int| 0 <= j < parts.len() implies rows_value(more, #[trigger] parts[j].positions@)
        == rows_value(lits, parts[j].positions@) && rows_refer_within(parts[j].positions@, more.len()) by {
        lemma_rows_value_extend(lits, more, parts[j].positions@);
    }
    assert(parts_view(more, parts) =~= parts_view(lits, parts));
}

fn offset_append(dst: &mut Vec<[u32; 3]>, tris: &Vec<[u32; 3]>, base: u32)
    ensures
        final(dst)@ == old(dst)@ + tris@.map_values(|t: [u32; 3]| offset_tri(t, base)),
{
    let mut i: usize = 0;
    while i < tris.len()
        invariant
            i <= tris.len(),
            dst@ == old(dst)@ + tris@.subrange(0, i as int).map_values(|t: [u32; 3]| offset_tri(t, base)),
        decreases tris.len() - i,
    {
        let t = tris[i];
        dst.push([t[0].wrapping_add(base), t[1].wrapping_add(base), t[2].wrapping_add(base)]);
        assert(dst@ =~= old(dst)@ + tris@.subrange(0, i + 1).map_values(|t: [u32; 3]| offset_tri(t, base)));
        i = i + 1;
    }
    assert(tris@.subrange(0, tris.len() as int) =~= tris@);
}

/// Adds the current object to the geometry.
fn geo_flush(b: &mut GeoBuilder)
    requires
        old(b).wf(),
    ensures
        final(b).wf(),
        final(b).view() == ({
            let st = old(b).view();
            let base = (st.positions.len() as int) as u32;
            GeoState {
                positions: st.positions + st.obj_positions,
                indices: st.indices + offset_groups(st.obj_groups, base),
                parts: st.parts + object_parts(st.obj_groups, st.obj_positions),
                ..st
            }
        }),
{
    let ghost st = b.view();
    let ghost lits = b.literals@;
    let base: u32 = #[verifier::truncate] (b.positions.len() as u32);
    let ghost p0 = b.positions@;
    let mut i: usize = 0;
    while i < b.obj_positions.len()
        invariant
            i <= b.obj_positions.len(),
            b.literals@ == lits,
            b.positions@ == p0 + b.obj_positions@.subrange(0, i as int),
            b.obj_positions@ == old(b).obj_positions@,
            b.obj_groups@ == old(b).obj_groups@,
            b.indices@ == old(b).indices@,
            b.parts@ == old(b).parts@,
            b.pid == old(b).pid,
            b.pindex == old(b).pindex,
        decreases b.obj_positions.len() - i,
    {
        let r = b.obj_positions[i];
        b.positions.push(r);
        assert(b.positions@ =~= p0 + b.obj_positions@.subrange(0, i + 1));
        i = i + 1;
    }
    assert(b.obj_positions@.subrange(0, b.obj_positions@.len() as int) =~= b.obj_positions@);
    let ng = b.obj_groups.len();
    let mut g: usize = 0;
    while g < ng
        invariant
            g <= ng,
            ng == b.obj_groups@.len(),
            b.literals@ == lits,
            b.positions@ == p0 + old(b).obj_positions@,
            b.obj_positions@ == old(b).obj_positions@,
            rows_refer_within(b.obj_positions@, lits.len()),
            b.obj_groups@ == old(b).obj_groups@,
            b.pid == old(b).pid,
            b.pindex == old(b).pindex,
            b.indices@ == old(b).indices@ + offset_groups(groups_view(b.obj_groups@).subrange(0, g as int), base),
            parts_view(lits, b.parts@) == parts_view(lits, old(b).parts@) + object_parts(
                groups_view(b.obj_groups@).subrange(0, g as int),
                rows_value(lits, b.obj_positions@),
            ),
            b.parts@.len() >= old(b).parts@.len(),
            forall|j: int| 0 <= j < b.parts@.len() ==> {
                &&& rows_refer_within(#[trigger] b.parts@[j].positions@, lits.len())
                &&& b.parts@[j].normals@.len() == 0
                &&& (b.parts@[j].color matches Some(c) ==> c is Quantized)
            },
        decreases ng - g,
    {
        let ghost gv = groups_view(b.obj_groups@);
        let ghost pre = gv.subrange(0, g as int);
        let ghost next = gv.subrange(0, g + 1);
        assert(next.drop_last() =~= pre);
        assert(next.last() == gv[g as int]);
        let ghost i0 = b.indices@;
        offset_append(&mut b.indices, &b.obj_groups[g].1, base);
        let mut ind: Vec<[u32; 3]> = Vec::new();
        append_tris(&mut ind, &b.obj_groups[g].1);
        let color = match b.obj_groups[g].0 {
            Some(c) => Some(ColorValue::Quantized(c)),
            None => None,
        };
        let part = SubMesh { positions: copy_rows(&b.obj_positions), normals: Vec::new(), indices: ind, color };
        let ghost pv0 = b.parts@;
        b.parts.push(part);
        proof {
            assert forall|j: int| 0 <= j < b.parts@.len() implies {
                &&& rows_refer_within(#[trigger] b.parts@[j].positions@, lits.len())
                &&& b.parts@[j].normals@.len() == 0
                &&& (b.parts@[j].color matches Some(c) ==> c is Quantized)
            } by {
                if j < pv0.len() {
                    assert(b.parts@[j] == pv0[j]);
                }
            }
        }
        assert(parts_view(lits, b.parts@) =~= parts_view(lits, pv0).push(
            (rows_value(lits, b.obj_positions@), gv[g as int].1, gv[g as int].0),
        ));
        assert(object_parts(next, rows_value(lits, b.obj_positions@)) =~= object_parts(
            pre,
            rows_value(lits, b.obj_positions@),
        ).push((rows_value(lits, b.obj_positions@), gv[g as int].1, gv[g as int].0)));
        g = g + 1;
    }
    assert(groups_view(b.obj_groups@).subrange(0, ng as int) =~= groups_view(b.obj_groups@));
    assert(rows_value(lits, b.positions@) =~= rows_value(lits, p0) + rows_value(lits, old(b).obj_positions@));
}


/// What reading a 3MF archive gives: the final state of the second pass,
/// or the message of the first error.
pub open spec fn threemf_run(data: Seq<u8>, linear: Seq<u8>, alpha: Seq<u8>) -> Result<GeoState, Seq<char>> {
    match zip_entry_count(data) {
        Err(e) => Err("zip open: "@ + e),
        Ok(n) => {
            let (models, configs) = archive_parts(data, n as int);
            if models.len() == 0 {
                Err("3mf: no .model file found in archive"@)
            } else {
                let env = GeoEnv {
                    filaments: all_filaments(configs),
                    colors: resource_colors(models, models.len() as int),
                    linear,
                    alpha,
                };
                let st = geo_models(models, models.len() as int, env);
                if st.positions.len() == 0 || st.indices.len() == 0 {
                    Err("3mf: no geometry (vertices/triangles) found"@)
                } else {
                    Ok(st)
                }
            }
        },
    }
}

/// The mesh of a final state: all objects' vertices and moved triangles,
/// no normals, and one part per object and colour.
pub open spec fn threemf_mesh_matches(m: MeshData, st: GeoState) -> bool {
    &&& rows_value(m.literals@, m.positions@) == st.positions
    &&& m.normals@.len() == 0
    &&& m.indices@ == st.indices
    &&& parts_view(m.literals@, m.submeshes@) == st.parts
    &&& forall|j: int| 0 <= j < m.submeshes@.len() ==> {
        &&& (#[trigger] m.submeshes@[j]).normals@.len() == 0
        &&& (m.submeshes@[j].color matches Some(c) ==> c is Quantized)
    }
}

/// The tables that turn colour bytes into grouping keys: `linear[b]` is the
/// byte `b` read as sRGB, linearised and quantised; `alpha[b]` is the byte
/// `b` read as alpha and quantised. The float arithmetic that fills them
/// happens outside the library.
pub struct ColorTables {
    pub linear: Vec<u8>,
    pub alpha: Vec<u8>,
}

impl ThreemfLoader {
    /// The name of the format.
    pub fn name(&self) -> (res: &'static str)
        ensures
            res@ == "3mf"@,
    {
        "3mf"
    }

    /// A 3MF file is one named `*.3mf` (any case) or one that begins like a
    /// zip archive, with `PK`.
    pub fn can_load(&self, path: &str, header: &[u8]) -> (res: bool)
        ensures
            res == (has_extension(path@, "3mf"@) || bytes_start_with(header@, seq![0x50u8, 0x4bu8])),
    {
        if extension_is(path, "3mf") {
            return true;
        }
        let magic: [u8; 2] = [0x50, 0x4b];
        assert(magic@ =~= seq![0x50u8, 0x4bu8]);
        starts_with_bytes(header, magic.as_slice())
    }

    /// Reads a 3MF archive (see `threemf_run`).
    pub fn load(&self, _path: &str, data: &[u8], tables: &ColorTables) -> (res: Result<MeshData, String>)
        requires
            tables.linear@.len() == 256,
            tables.alpha@.len() == 256,
        ensures
            match threemf_run(data@, tables.linear@, tables.alpha@) {
                Ok(st) => res matches Ok(m) && threemf_mesh_matches(m, st) && m.well_formed(),
                Err(e) => res matches Err(msg) && msg@ == e,
            },
    {
        let n = match zip_open(data) {
            Ok(n) => n,
            Err(e) => {
                let mut msg = String::from_str("zip open: ");
                msg.append(e.as_str());
                return Err(msg);
            },
        };
        let (models, configs) = collect_parts(data, n);
        if models.len() == 0 {
            return Err(String::from_str("3mf: no .model file found in archive"));
        }
        let filaments = collect_filaments(&configs);
        let colors = resource_pass(&models);
        let ghost env = GeoEnv {
            filaments: filaments@,
            colors: res_view(colors@),
            linear: tables.linear@,
            alpha: tables.alpha@,
        };
        let mut b = GeoBuilder {
            literals: Vec::new(),
            pid: None,
            pindex: None,
            obj_positions: Vec::new(),
            obj_groups: Vec::new(),
            positions: Vec::new(),
            indices: Vec::new(),
            parts: Vec::new(),
        };
        assert(b.view() =~= geo_models(data_rows(models@), 0, env)) by {
            assert(b.view().obj_positions =~= Seq::<[Coord; 3]>::empty());
            assert(b.view().positions =~= Seq::<[Coord; 3]>::empty());
            assert(b.view().obj_groups =~= Seq::<(Option<Rgba8>, Seq<[u32; 3]>)>::empty());
            assert(b.view().parts =~= Seq::<(Seq<[Coord; 3]>, Seq<[u32; 3]>, Option<Rgba8>)>::empty());
        }
        let mut m: usize = 0;
        while m < models.len()
            invariant
                m <= models.len(),
                b.wf(),
                tables.linear@.len() == 256,
                tables.alpha@.len() == 256,
                env == (GeoEnv {
                    filaments: filaments@,
                    colors: res_view(colors@),
                    linear: tables.linear@,
                    alpha: tables.alpha@,
                }),
                b.view() == geo_models(data_rows(models@), m as int, env),
            decreases models.len() - m,
        {
            let evs = xml_events(models[m].as_slice());
            assert(data_rows(models@)[m as int] == models@[m as int]@);
            let ghost ev = events_view(evs@);
            b.pid = None;
            b.pindex = None;
            b.obj_positions = Vec::new();
            b.obj_groups = Vec::new();
            let ghost start = b.view();
            assert(start == fresh_part(geo_models(data_rows(models@), m as int, env))) by {
                assert(start.obj_positions =~= Seq::<[Coord; 3]>::empty());
                assert(start.obj_groups =~= Seq::<(Option<Rgba8>, Seq<[u32; 3]>)>::empty());
            }
            let mut k: usize = 0;
            while k < evs.len()
                invariant
                    k <= evs.len(),
                    ev == events_view(evs@),
                    b.wf(),
                    tables.linear@.len() == 256,
                    tables.alpha@.len() == 256,
                    env == (GeoEnv {
                        filaments: filaments@,
                        colors: res_view(colors@),
                        linear: tables.linear@,
                        alpha: tables.alpha@,
                    }),
                    b.view() == geo_run(ev, k as int, start, env),
                decreases evs.len() - k,
            {
                assert(ev[k as int] == event_view(evs@[k as int]));
                geo_apply(&mut b, &evs[k], &filaments, &colors, &tables.linear, &tables.alpha);
                k = k + 1;
            }
            m = m + 1;
        }
        if b.positions.len() == 0 || b.indices.len() == 0 {
            return Err(String::from_str("3mf: no geometry (vertices/triangles) found"));
        }
        let ghost st = b.view();
        let ghost lits = b.literals@;
        let mesh = MeshData {
            literals: b.literals,
            positions: b.positions,
            normals: Vec::new(),
            indices: b.indices,
            submeshes: b.parts,
        };
        proof {
            assert(st == geo_models(data_rows(models@), models@.len() as int, env));
            assert forall|j: int| 0 <= j < mesh.submeshes@.len() implies {
                &&& (#[trigger] mesh.submeshes@[j]).normals@.len() == 0
                &&& (mesh.submeshes@[j].color matches Some(c) ==> c is Quantized)
            } by {
                assert(rows_refer_within(mesh.submeshes@[j].positions@, lits.len()));
            }
            assert(threemf_mesh_matches(mesh, st));
            assert(rows_refer_within(mesh.normals@, lits.len()));
        }
        Ok(mesh)
    }
}

} // verus!
