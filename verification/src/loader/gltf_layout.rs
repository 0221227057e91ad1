//! The layout of a glTF document: its buffers, views, images, accessors and
//! primitives, read before the data itself; the layouts whose buffers and
//! images the `gltf` crate imports without failing inside its own code, and
//! those whose primitives its readers then read.

use vstd::prelude::*;

use super::gltf::gltf_decode;

verus! {

/// A buffer view: its buffer, byte range, and stride when it gives one.
#[derive(Clone, Copy, Debug)]
pub struct ViewLayout {
    pub buffer: usize,
    pub offset: usize,
    pub length: usize,
    pub stride: Option<usize>,
}

/// The sparse part of an accessor: how many values it replaces, and where
/// their indices (each `index_size` bytes) and values lie.
#[derive(Clone, Copy, Debug)]
pub struct SparseLayout {
    pub count: usize,
    pub index_view: usize,
    pub index_offset: usize,
    pub index_size: usize,
    pub value_view: usize,
    pub value_offset: usize,
}

/// An accessor: its element count, byte offset, component type (as its GL
/// code), element size in bytes, view, and sparse part.
#[derive(Clone, Copy, Debug)]
pub struct AccessorLayout {
    pub count: usize,
    pub offset: usize,
    pub component: u32,
    pub size: usize,
    pub view: Option<usize>,
    pub sparse: Option<SparseLayout>,
}

/// An image: its view, its MIME type and its URI, when given.
pub struct ImageLayout {
    pub view: Option<usize>,
    pub mime_type: Option<Vec<char>>,
    pub uri: Option<Vec<char>>,
}

/// A document's layout as plain values.
pub struct GltfLayout {
    /// Per buffer: the bytes of its URI when it names one, and its declared length.
    pub buffers: Seq<(Option<Seq<u8>>, usize)>,
    pub views: Seq<ViewLayout>,
    /// Per image: its view, whether it gives a MIME type, whether it gives a URI.
    pub images: Seq<(Option<usize>, bool, bool)>,
    pub accessors: Seq<AccessorLayout>,
    /// Per primitive of each mesh, in order: its position, normal and index accessors.
    pub primitives: Seq<[Option<usize>; 3]>,
}

/// An image as plain values.
pub open spec fn image_view(i: ImageLayout) -> (Option<usize>, bool, bool) {
    (i.view, i.mime_type is Some, i.uri is Some)
}

/// Images as plain values.
pub open spec fn images_view(images: Seq<ImageLayout>) -> Seq<(Option<usize>, bool, bool)> {
    images.map_values(|i: ImageLayout| image_view(i))
}

/// Buffers as plain values.
pub open spec fn buffers_view(b: Seq<(Option<Vec<u8>>, usize)>) -> Seq<(Option<Seq<u8>>, usize)> {
    b.map_values(|x: (Option<Vec<u8>>, usize)| (match x.0 {
        Some(u) => Some(u@),
        None => None::<Seq<u8>>,
    }, x.1))
}

/// What `gltf::Gltf::from_slice` makes of a file: the layout of the
/// document, or the text of its error.
pub uninterp spec fn gltf_layout(bytes: Seq<u8>) -> Result<GltfLayout, Seq<char>>;

/// A relative URI: one without a colon, so without a scheme; `gltf`
/// percent-decodes it before it looks any further.
pub open spec fn is_relative(uri: Seq<u8>) -> bool {
    !uri.contains(0x3au8)
}

/// The value of a hexadecimal digit (either case).
pub open spec fn hex_value(b: u8) -> Option<int> {
    if 0x30 <= b <= 0x39 {
        Some(b - 0x30)
    } else if 0x41 <= b <= 0x46 {
        Some(b - 0x41 + 10)
    } else if 0x61 <= b <= 0x66 {
        Some(b - 0x61 + 10)
    } else {
        None
    }
}

/// Percent-decoding from byte `i` on: `%` and two hexadecimal digits give
/// the byte they spell; every other byte, a `%` among them, stands for
/// itself.
pub open spec fn percent_decoded_from(s: Seq<u8>, i: int) -> Seq<u8>
    decreases s.len() - i,
{
    if i < 0 || i >= s.len() {
        Seq::empty()
    } else if s[i] == 0x25 && i + 2 < s.len() && hex_value(s[i + 1]) is Some && hex_value(s[i + 2]) is Some {
        seq![(16 * hex_value(s[i + 1])->0 + hex_value(s[i + 2])->0) as u8] + percent_decoded_from(s, i + 3)
    } else {
        seq![s[i]] + percent_decoded_from(s, i + 1)
    }
}

/// The percent-decoding of a URI, as `urlencoding` decodes it.
pub open spec fn percent_decoded(s: Seq<u8>) -> Seq<u8> {
    percent_decoded_from(s, 0)
}

/// The stride at which view `v` is read for items of `item` bytes.
pub open spec fn stride_of(views: Seq<ViewLayout>, v: int, item: int) -> int {
    match views[v].stride {
        Some(s) => s as int,
        None => item,
    }
}

/// Reading `count` items of `item` bytes from `offset` in view `v`: the
/// view exists, its range and the items' range do not overflow, the count
/// is not zero, and the stride is not smaller than an item.
pub open spec fn items_ok(views: Seq<ViewLayout>, v: int, offset: int, count: int, item: int) -> bool {
    &&& 0 <= v < views.len()
    &&& views[v].offset + views[v].length <= usize::MAX
    &&& stride_of(views, v, item) >= item
    &&& count >= 1
    &&& offset + stride_of(views, v, item) * (count - 1) + item <= usize::MAX
}

/// Reading an accessor as items of `item` bytes.
pub open spec fn accessor_ok(views: Seq<ViewLayout>, acc: AccessorLayout, item: int) -> bool {
    &&& (acc.view matches Some(v) ==> items_ok(views, v as int, acc.offset as int, acc.count as int, item))
    &&& match acc.sparse {
        None => acc.size == item,
        Some(sp) => {
            &&& acc.count <= u32::MAX
            &&& items_ok(views, sp.index_view as int, sp.index_offset as int, sp.count as int, sp.index_size as int)
            &&& items_ok(views, sp.value_view as int, sp.value_offset as int, sp.count as int, item)
        },
    }
}

/// The size of an index of this GL component type, when it is one that
/// indices may have.
pub open spec fn index_item(component: u32) -> Option<int> {
    if component == 5121 {
        Some(1)
    } else if component == 5123 {
        Some(2)
    } else if component == 5125 {
        Some(4)
    } else {
        None
    }
}

/// Reading accessor `a` as items of `item` bytes, or as indices when
/// `item` is `None`.
pub open spec fn read_ok(accessors: Seq<AccessorLayout>, views: Seq<ViewLayout>, a: int, item: Option<int>) -> bool {
    &&& 0 <= a < accessors.len()
    &&& match item {
        Some(n) => accessor_ok(views, accessors[a], n),
        None => match index_item(accessors[a].component) {
            Some(n) => accessor_ok(views, accessors[a], n),
            None => false,
        },
    }
}

/// An image names its source fully, and a source view lies within the data
/// imported for its buffer (`lengths`, per buffer).
pub open spec fn image_ok(lengths: Seq<usize>, views: Seq<ViewLayout>, img: (Option<usize>, bool, bool)) -> bool {
    match img.0 {
        Some(v) => {
            &&& img.1
            &&& v < views.len()
            &&& views[v as int].buffer < lengths.len()
            &&& views[v as int].offset + views[v as int].length <= lengths[views[v as int].buffer as int]
        },
        None => img.2,
    }
}

/// A primitive's positions and normals read as three floats, its indices
/// as indices.
pub open spec fn primitive_ok(accessors: Seq<AccessorLayout>, views: Seq<ViewLayout>, prim: [Option<usize>; 3]) -> bool {
    &&& (prim[0] matches Some(a) ==> read_ok(accessors, views, a as int, Some(12)))
    &&& (prim[1] matches Some(a) ==> read_ok(accessors, views, a as int, Some(12)))
    &&& (prim[2] matches Some(a) ==> read_ok(accessors, views, a as int, None))
}

/// A buffer URI that `gltf` can look at: one that is not relative, or
/// whose percent-decoding is UTF-8 (on any other it panics).
pub open spec fn uri_ok(uri: Seq<u8>) -> bool {
    is_relative(uri) ==> vstd::utf8::valid_utf8(percent_decoded(uri))
}

/// A URI that begins with `data:`, whose data `gltf` decodes from base64.
pub open spec fn is_data_uri(uri: Seq<u8>) -> bool {
    uri.len() >= 5 && uri.subrange(0, 5) == seq![0x64u8, 0x61u8, 0x74u8, 0x61u8, 0x3au8]
}

/// A buffer that a slice import always refuses with an error of its own: one
/// whose URI `gltf` can look at and that does not hold its data.
pub open spec fn buffer_refused(b: (Option<Seq<u8>>, usize)) -> bool {
    b.0 matches Some(u) && uri_ok(u) && !is_data_uri(u)
}

/// `gltf` imports the buffers in order and stops at the first error, so it
/// looks at every buffer URI up to the first buffer it always refuses: each
/// of those is one it can look at.
pub open spec fn buffer_uris_ok(buffers: Seq<(Option<Seq<u8>>, usize)>) -> bool {
    forall|j: int| 0 <= j < buffers.len() && ((#[trigger] buffers[j]).0 matches Some(u) && !uri_ok(u))
        ==> exists|i: int| 0 <= i < j && buffer_refused(#[trigger] buffers[i])
}

/// The buffers of a layout, as `buffer_uris_ok` says.
pub open spec fn buffers_importable(l: GltfLayout) -> bool {
    buffer_uris_ok(l.buffers)
}

/// An image that a slice import always refuses with an error of its own:
/// one given by a URI.
pub open spec fn image_refused(img: (Option<usize>, bool, bool)) -> bool {
    img.0 is None && img.2
}

/// `gltf` imports the images in order and stops at the first error, so it
/// looks at every image up to the first one it always refuses: each of
/// those names its source fully, a source view within the data imported
/// for its buffer.
pub open spec fn image_sources_ok(lengths: Seq<usize>, views: Seq<ViewLayout>, images: Seq<(Option<usize>, bool, bool)>) -> bool {
    forall|j: int| 0 <= j < images.len() && !image_ok(lengths, views, #[trigger] images[j])
        ==> exists|i: int| 0 <= i < j && image_refused(#[trigger] images[i])
}

/// The images of a layout, as `image_sources_ok` says.
pub open spec fn images_importable(l: GltfLayout, lengths: Seq<usize>) -> bool {
    image_sources_ok(lengths, l.views, l.images)
}

/// What `gltf::import_buffers` makes of the document of a file (with no
/// base path and the file's own binary chunk): the length of the data of
/// each buffer, or the text of its error.
pub uninterp spec fn gltf_buffer_lengths(bytes: Seq<u8>) -> Result<Seq<usize>, Seq<char>>;

/// The files whose buffers and images `gltf::import_slice` imports, or
/// refuses with an error of its own, without failing inside its own code:
/// the document parses, every buffer URI is one it can look at, and, when
/// the buffers import, every image names its source fully within the data
/// imported for its buffer.
pub open spec fn gltf_importable(bytes: Seq<u8>) -> bool {
    &&& gltf_layout(bytes) matches Ok(l)
    &&& buffers_importable(l)
    &&& gltf_buffer_lengths(bytes) matches Ok(lengths) ==> images_importable(l, lengths)
}

/// The layouts whose primitives the readers read without failing inside
/// their own code: every accessor read is one whose range the reader can
/// compute and whose items fit their stride.
pub open spec fn gltf_primitives_readable(l: GltfLayout) -> bool {
    forall|p: int| 0 <= p < l.primitives.len() ==> primitive_ok(l.accessors, l.views, #[trigger] l.primitives[p])
}

/// The files that are imported and then read as a whole.
pub open spec fn gltf_readable(bytes: Seq<u8>) -> bool {
    &&& gltf_importable(bytes)
    &&& gltf_layout(bytes) matches Ok(l) && gltf_primitives_readable(l)
}

/// Calls `gltf::Gltf::from_slice` and returns the bytes of each buffer's
/// URI (when it names one) and its declared length, or the error's text. `import_slice`
/// reads the document in the same way first, so it fails with that error.
#[verifier::external_body]
pub(crate) fn gltf_buffers(bytes: &[u8]) -> (res: Result<Vec<(Option<Vec<u8>>, usize)>, String>)
    ensures
        match res {
            Ok(b) => gltf_layout(bytes@) matches Ok(l) && l.buffers == buffers_view(b@),
            Err(e) => gltf_layout(bytes@) == Err::<GltfLayout, Seq<char>>(e@) && gltf_decode(bytes@)
                == Err::<Seq<(Option<Seq<[u32; 3]>>, Option<Seq<[u32; 3]>>, Option<Seq<u32>>, [u32; 4])>, Seq<char>>(e@),
        },
{
    let g = gltf::Gltf::from_slice(bytes).map_err(|e| e.to_string())?;
    Ok(g.buffers().map(|b| (match b.source() {
        gltf::buffer::Source::Uri(u) => Some(u.as_bytes().to_vec()),
        gltf::buffer::Source::Bin => None,
    }, b.length())).collect())
}

/// Calls `gltf::Gltf::from_slice` and returns the document's buffer views.
#[verifier::external_body]
pub(crate) fn gltf_views(bytes: &[u8]) -> (res: Vec<ViewLayout>)
    ensures
        gltf_layout(bytes@) matches Ok(l) ==> res@ == l.views,
{
    gltf::Gltf::from_slice(bytes).map(|g| g.views().map(|v| ViewLayout {
        buffer: v.buffer().index(),
        offset: v.offset(),
        length: v.length(),
        stride: v.stride(),
    }).collect()).unwrap_or_default()
}

/// Calls `gltf::Gltf::from_slice` and returns each image's view, MIME type
/// and URI as the document writes them.
#[verifier::external_body]
pub(crate) fn gltf_images(bytes: &[u8]) -> (res: Vec<ImageLayout>)
    ensures
        gltf_layout(bytes@) matches Ok(l) ==> images_view(res@) == l.images,
{
    gltf::Gltf::from_slice(bytes).map(|g| g.as_json().images.iter().map(|i| ImageLayout {
        view: i.buffer_view.map(|v| v.value()),
        mime_type: i.mime_type.as_ref().map(|m| m.0.chars().collect()),
        uri: i.uri.as_ref().map(|u| u.chars().collect()),
    }).collect()).unwrap_or_default()
}

/// Calls `gltf::Gltf::from_slice` and returns the document's accessors.
#[verifier::external_body]
pub(crate) fn gltf_accessors(bytes: &[u8]) -> (res: Vec<AccessorLayout>)
    ensures
        gltf_layout(bytes@) matches Ok(l) ==> res@ == l.accessors,
{
    gltf::Gltf::from_slice(bytes).map(|g| g.accessors().map(|a| AccessorLayout {
        count: a.count(),
        offset: a.offset(),
        component: a.data_type().as_gl_enum(),
        size: a.size(),
        view: a.view().map(|v| v.index()),
        sparse: a.sparse().map(|s| SparseLayout {
            count: s.count(),
            index_view: s.indices().view().index(),
            index_offset: s.indices().offset(),
            index_size: s.indices().index_type().size(),
            value_view: s.values().view().index(),
            value_offset: s.values().offset(),
        }),
    }).collect()).unwrap_or_default()
}

/// Calls `gltf::Gltf::from_slice` and returns, for each primitive of each
/// mesh in order, its position, normal and index accessors.
#[verifier::external_body]
pub(crate) fn gltf_primitives(bytes: &[u8]) -> (res: Vec<[Option<usize>; 3]>)
    ensures
        gltf_layout(bytes@) matches Ok(l) ==> res@ == l.primitives,
{
    gltf::Gltf::from_slice(bytes).map(|g| g.meshes().flat_map(|m| m.primitives()).map(|p| [
        p.get(&gltf::Semantic::Positions),
        p.get(&gltf::Semantic::Normals),
        p.indices(),
    ].map(|a| a.map(|a| a.index()))).collect()).unwrap_or_default()
}

/// Calls `gltf::import_buffers` on the document that `gltf::Gltf::from_slice`
/// reads, with no base path and the file's binary chunk, and returns the
/// length of each buffer's data, or the error's text. `import_slice`
/// imports the buffers in the same way first, so it fails with that error.
#[verifier::external_body]
pub(crate) fn gltf_import_buffers(bytes: &[u8]) -> (res: Result<Vec<usize>, String>)
    requires
        gltf_layout(bytes@) matches Ok(l) && buffers_importable(l),
    ensures
        match res {
            Ok(v) => gltf_buffer_lengths(bytes@) == Ok::<Seq<usize>, Seq<char>>(v@),
            Err(e) => gltf_buffer_lengths(bytes@) == Err::<Seq<usize>, Seq<char>>(e@) && gltf_decode(bytes@)
                == Err::<Seq<(Option<Seq<[u32; 3]>>, Option<Seq<[u32; 3]>>, Option<Seq<u32>>, [u32; 4])>, Seq<char>>(e@),
        },
{
    let g = gltf::Gltf::from_slice(bytes).map_err(|e| e.to_string())?;
    let data = gltf::import_buffers(&g.document, None, g.blob).map_err(|e| e.to_string())?;
    Ok(data.iter().map(|d| d.len()).collect())
}

fn has_colon(u: &Vec<u8>) -> (res: bool)
    ensures
        res == u@.contains(0x3au8),
{
    let mut i: usize = 0;
    while i < u.len()
        invariant
            i <= u@.len(),
            forall|j: int| 0 <= j < i ==> u@[j] != 0x3au8,
        decreases u.len() - i,
    {
        if u[i] == 0x3a {
            assert(u@[i as int] == 0x3au8);
            return true;
        }
        i = i + 1;
    }
    false
}

fn hex_digit(b: u8) -> (res: Option<u8>)
    ensures
        match hex_value(b) {
            Some(v) => res == Some(v as u8),
            None => res is None,
        },
{
    if 0x30 <= b && b <= 0x39 {
        Some(b - 0x30)
    } else if 0x41 <= b && b <= 0x46 {
        Some(b - 0x41 + 10)
    } else if 0x61 <= b && b <= 0x66 {
        Some(b - 0x61 + 10)
    } else {
        None
    }
}

/// Percent-decodes a URI as `urlencoding` does.
pub fn percent_decode(u: &Vec<u8>) -> (res: Vec<u8>)
    ensures
        res@ == percent_decoded(u@),
{
    let mut out: Vec<u8> = Vec::new();
    let mut i: usize = 0;
    while i < u.len()
        invariant
            i <= u@.len(),
            out@ + percent_decoded_from(u@, i as int) == percent_decoded(u@),
        decreases u.len() - i,
    {
        let ghost before = out@;
        let mut step: usize = 1;
        let mut byte: u8 = u[i];
        if u[i] == 0x25 && u.len() - i > 2 {
            if let Some(h) = hex_digit(u[i + 1]) {
                if let Some(l) = hex_digit(u[i + 2]) {
                    byte = h * 16 + l;
                    step = 3;
                }
            }
        }
        out.push(byte);
        assert(percent_decoded_from(u@, i as int) == seq![byte] + percent_decoded_from(u@, i + step));
        assert(out@ + percent_decoded_from(u@, i + step) =~= before + percent_decoded_from(u@, i as int));
        i = i + step;
    }
    assert(percent_decoded_from(u@, i as int) =~= Seq::<u8>::empty());
    assert(out@ + Seq::<u8>::empty() =~= out@);
    out
}

fn uri_fits(u: &Vec<u8>) -> (res: bool)
    ensures
        res == uri_ok(u@),
{
    if has_colon(u) {
        return true;
    }
    let d = percent_decode(u);
    crate::text::decode_utf8_chars(d.as_slice()).is_some()
}

fn items_fit(views: &Vec<ViewLayout>, v: usize, offset: usize, count: usize, item: usize) -> (res: bool)
    ensures
        res == items_ok(views@, v as int, offset as int, count as int, item as int),
{
    if v >= views.len() {
        return false;
    }
    let view = views[v];
    if view.offset as u128 + view.length as u128 > usize::MAX as u128 {
        return false;
    }
    let stride = match view.stride {
        Some(s) => s,
        None => item,
    };
    if stride < item || count == 0 {
        return false;
    }
    assert(stride * (count - 1) <= 0xffff_ffff_ffff_fffe_0000_0000_0000_0001) by (nonlinear_arith)
        requires
            0 <= stride <= usize::MAX,
            0 <= count - 1 <= usize::MAX,
            usize::MAX <= 0xffff_ffff_ffff_ffff,
    ;
    let span: u128 = (stride as u128) * ((count - 1) as u128);
    offset as u128 + span + item as u128 <= usize::MAX as u128
}

fn accessor_fits(views: &Vec<ViewLayout>, acc: AccessorLayout, item: usize) -> (res: bool)
    ensures
        res == accessor_ok(views@, acc, item as int),
{
    if let Some(v) = acc.view {
        if !items_fit(views, v, acc.offset, acc.count, item) {
            return false;
        }
    }
    match acc.sparse {
        None => acc.size == item,
        Some(sp) => acc.count <= 0xffff_ffff && items_fit(views, sp.index_view, sp.index_offset, sp.count, sp.index_size)
            && items_fit(views, sp.value_view, sp.value_offset, sp.count, item),
    }
}

fn read_fits(accessors: &Vec<AccessorLayout>, views: &Vec<ViewLayout>, a: usize, item: Option<usize>) -> (res: bool)
    ensures
        res == read_ok(accessors@, views@, a as int, match item {
            Some(n) => Some(n as int),
            None => None::<int>,
        }),
{
    if a >= accessors.len() {
        return false;
    }
    let acc = accessors[a];
    match item {
        Some(n) => accessor_fits(views, acc, n),
        None => {
            let c = acc.component;
            if c == 5121 {
                accessor_fits(views, acc, 1)
            } else if c == 5123 {
                accessor_fits(views, acc, 2)
            } else if c == 5125 {
                accessor_fits(views, acc, 4)
            } else {
                false
            }
        },
    }
}

fn data_uri(u: &Vec<u8>) -> (res: bool)
    ensures
        res == is_data_uri(u@),
{
    let ok = u.len() >= 5 && u[0] == 0x64 && u[1] == 0x61 && u[2] == 0x74 && u[3] == 0x61 && u[4] == 0x3a;
    proof {
        if u@.len() >= 5 {
            if ok {
                assert(u@.subrange(0, 5) =~= seq![0x64u8, 0x61u8, 0x74u8, 0x61u8, 0x3au8]);
            } else {
                assert(u@.subrange(0, 5)[0] == u@[0] && u@.subrange(0, 5)[1] == u@[1] && u@.subrange(0, 5)[2]
                    == u@[2] && u@.subrange(0, 5)[3] == u@[3] && u@.subrange(0, 5)[4] == u@[4]);
            }
        }
    }
    ok
}

fn buffers_fit(buffers: &Vec<(Option<Vec<u8>>, usize)>) -> (res: bool)
    ensures
        res == buffer_uris_ok(buffers_view(buffers@)),
{
    let ghost bv = buffers_view(buffers@);
    let mut i: usize = 0;
    while i < buffers.len()
        invariant
            i <= buffers@.len(),
            bv == buffers_view(buffers@),
            forall|j: int| 0 <= j < i ==> ((#[trigger] bv[j]).0 matches Some(u) ==> uri_ok(u)),
            forall|j: int| 0 <= j < i ==> !buffer_refused(#[trigger] bv[j]),
        decreases buffers.len() - i,
    {
        if let Some(u) = &buffers[i].0 {
            assert(bv[i as int].0 == Some(u@));
            if !uri_fits(u) {
                assert(!buffer_uris_ok(bv)) by {
                    if exists|k: int| 0 <= k < i && buffer_refused(#[trigger] bv[k]) {
                        let k = choose|k: int| 0 <= k < i && buffer_refused(#[trigger] bv[k]);
                        assert(!buffer_refused(bv[k]));
                    }
                }
                return false;
            }
            if !data_uri(u) {
                assert(buffer_refused(bv[i as int]));
                assert forall|j: int| 0 <= j < bv.len() && ((#[trigger] bv[j]).0 matches Some(v) && !uri_ok(v))
                    implies exists|k: int| 0 <= k < j && buffer_refused(#[trigger] bv[k]) by {
                    assert(j > i);
                    assert(buffer_refused(bv[i as int]));
                }
                return true;
            }
        }
        assert(!buffer_refused(bv[i as int]));
        i = i + 1;
    }
    true
}

fn images_fit(images: &Vec<ImageLayout>, views: &Vec<ViewLayout>, lengths: &Vec<usize>) -> (res: bool)
    ensures
        res == image_sources_ok(lengths@, views@, images_view(images@)),
{
    let ghost iv = images_view(images@);
    let mut k: usize = 0;
    while k < images.len()
        invariant
            k <= images@.len(),
            iv == images_view(images@),
            forall|j: int| 0 <= j < k ==> image_ok(lengths@, views@, #[trigger] iv[j]),
            forall|j: int| 0 <= j < k ==> !image_refused(#[trigger] iv[j]),
        decreases images.len() - k,
    {
        assert(iv[k as int] == image_view(images@[k as int]));
        let ok = match images[k].view {
            Some(v) => {
                if images[k].mime_type.is_some() && v < views.len() && views[v].buffer < lengths.len() {
                    (views[v].offset as u128) + (views[v].length as u128) <= (lengths[views[v].buffer] as u128)
                } else {
                    false
                }
            },
            None => images[k].uri.is_some(),
        };
        if !ok {
            assert(!image_ok(lengths@, views@, iv[k as int]));
            assert(!image_sources_ok(lengths@, views@, iv)) by {
                if exists|m: int| 0 <= m < k && image_refused(#[trigger] iv[m]) {
                    let m = choose|m: int| 0 <= m < k && image_refused(#[trigger] iv[m]);
                    assert(!image_refused(iv[m]));
                }
            }
            return false;
        }
        if images[k].view.is_none() {
            assert(image_refused(iv[k as int]));
            assert forall|j: int| 0 <= j < iv.len() && !image_ok(lengths@, views@, #[trigger] iv[j])
                implies exists|m: int| 0 <= m < j && image_refused(#[trigger] iv[m]) by {
                assert(j > k);
                assert(image_refused(iv[k as int]));
            }
            return true;
        }
        k = k + 1;
    }
    true
}

fn primitives_fit(prims: &Vec<[Option<usize>; 3]>, accessors: &Vec<AccessorLayout>, views: &Vec<ViewLayout>) -> (res: bool)
    ensures
        res == forall|j: int| 0 <= j < prims@.len() ==> primitive_ok(accessors@, views@, #[trigger] prims@[j]),
{
    let mut p: usize = 0;
    while p < prims.len()
        invariant
            p <= prims@.len(),
            forall|j: int| 0 <= j < p ==> primitive_ok(accessors@, views@, #[trigger] prims@[j]),
        decreases prims.len() - p,
    {
        let prim = prims[p];
        let pos_ok = match prim[0] {
            Some(a) => read_fits(accessors, views, a, Some(12)),
            None => true,
        };
        let nor_ok = match prim[1] {
            Some(a) => read_fits(accessors, views, a, Some(12)),
            None => true,
        };
        let ind_ok = match prim[2] {
            Some(a) => read_fits(accessors, views, a, None),
            None => true,
        };
        if !(pos_ok && nor_ok && ind_ok) {
            assert(!primitive_ok(accessors@, views@, prims@[p as int]));
            return false;
        }
        p = p + 1;
    }
    true
}

/// Reads the layout of the document of these bytes and says whether every
/// buffer URI is one that `gltf` can look at (see `buffers_importable`), and
/// whether the readers read its primitives without failing inside their own
/// code (see `gltf_primitives_readable`); the parse error's text when the
/// document does not parse.
pub fn gltf_check(bytes: &[u8]) -> (res: Result<(bool, bool), String>)
    ensures
        match gltf_layout(bytes@) {
            Ok(l) => res == Ok::<(bool, bool), String>((buffers_importable(l), gltf_primitives_readable(l))),
            Err(e) => res matches Err(m) && m@ == e,
        },
{
    let buffers = match gltf_buffers(bytes) {
        Ok(b) => b,
        Err(e) => return Err(e),
    };
    let views = gltf_views(bytes);
    let accessors = gltf_accessors(bytes);
    let prims = gltf_primitives(bytes);
    let importable = buffers_fit(&buffers);
    let readable = primitives_fit(&prims, &accessors, &views);
    Ok((importable, readable))
}

/// Imports the buffers of a document whose buffer URIs `gltf` can look at,
/// and says whether its images then name their sources fully within the
/// imported data (see `images_importable`); the import's error text when
/// the buffers do not import.
pub(crate) fn gltf_images_check(bytes: &[u8]) -> (res: Result<bool, String>)
    requires
        gltf_layout(bytes@) matches Ok(l) && buffers_importable(l),
    ensures
        match gltf_buffer_lengths(bytes@) {
            Ok(lengths) => res == Ok::<bool, String>(images_importable(gltf_layout(bytes@)->Ok_0, lengths)),
            Err(e) => res matches Err(m) && m@ == e && gltf_decode(bytes@) == Err::<Seq<(Option<Seq<[u32; 3]>>, Option<Seq<[u32; 3]>>, Option<Seq<u32>>, [u32; 4])>, Seq<char>>(e),
        },
{
    let lengths = match gltf_import_buffers(bytes) {
        Ok(v) => v,
        Err(e) => return Err(e),
    };
    let views = gltf_views(bytes);
    let images = gltf_images(bytes);
    Ok(images_fit(&images, &views, &lengths))
}

} // verus!
