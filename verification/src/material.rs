//! Materials, textures and their media: which `Material`, `Texture` and
//! `Video` elements a document holds, how they are connected, where each
//! texture's pixels come from, and the media type of a texture path.

use vstd::prelude::*;
use vstd::string::StringSliceAdditionalSpecFns;
use vstd::utf8::{encode_utf8, valid_utf8};
use crate::bytes::bytes_eq;
use crate::kinds::objects_of;
use crate::objects::{
    append_to_list, connection_link, connections_of, contains_id, find_keyed, get_link, insert_keyed,
    keyed, keyed_ids, link, lists_view, obj_id, object_id, set_link, append_entry,
};
use crate::model::{
    first_named, lemma_nodes_view_len, node_view, nodes_view, prop_as_i64, FbxDocument, FbxNode,
    FbxProperty, NodeV, PropV,
};
use crate::names::{element_name, spec_element_name};

verus! {

pub open spec fn ascii_lower(b: u8) -> u8 {
    if 0x41 <= b <= 0x5a { (b + 32) as u8 } else { b }
}

/// Index of the last `.` in `b`, or `-1`.
pub open spec fn last_dot(b: Seq<u8>, end: int) -> int
    decreases end,
{
    if end <= 0 { -1 } else if b[end - 1] == 0x2e { end - 1 } else { last_dot(b, end - 1) }
}

/// The lowercased text after the last `.` (all of it without one).
pub open spec fn extension_of(path: Seq<u8>) -> Seq<u8> {
    path.subrange(last_dot(path, path.len() as int) + 1, path.len() as int).map_values(|b: u8| ascii_lower(b))
}

/// The media type for an extension the exporters emit.
pub open spec fn mime_for(ext: Seq<u8>) -> Option<Seq<char>> {
    if ext == seq![0x70u8, 0x6e, 0x67] {
        Some("image/png"@)
    } else if ext == seq![0x6au8, 0x70, 0x67] || ext == seq![0x6au8, 0x70, 0x65, 0x67] {
        Some("image/jpeg"@)
    } else if ext == seq![0x74u8, 0x67, 0x61] {
        Some("image/x-targa"@)
    } else if ext == seq![0x62u8, 0x6d, 0x70] {
        Some("image/bmp"@)
    } else if ext == seq![0x74u8, 0x69, 0x66] || ext == seq![0x74u8, 0x69, 0x66, 0x66] {
        Some("image/tiff"@)
    } else if ext == seq![0x65u8, 0x78, 0x72] {
        Some("image/x-exr"@)
    } else if ext == seq![0x68u8, 0x64, 0x72] {
        Some("image/vnd.radiance"@)
    } else if ext == seq![0x67u8, 0x69, 0x66] {
        Some("image/gif"@)
    } else if ext == seq![0x77u8, 0x65, 0x62, 0x70] {
        Some("image/webp"@)
    } else {
        None
    }
}

proof fn lemma_last_dot(b: Seq<u8>, end: int)
    requires 0 <= end <= b.len(),
    ensures -1 <= last_dot(b, end) < end,
    decreases end,
{
    if end > 0 && b[end - 1] != 0x2e {
        lemma_last_dot(b, end - 1);
    }
}

/// The media type of a texture path by its extension (case-insensitive);
/// `None` for extensions outside PNG, JPEG, TGA, BMP, TIFF, EXR, HDR,
/// GIF and WebP.
pub fn guess_mime_from_path(path: &str) -> (r: Option<String>)
    ensures
        match r {
            Some(s) => mime_for(extension_of(path.spec_bytes())) == Some(s@),
            None => mime_for(extension_of(path.spec_bytes())) is None,
        },
{
    let b = path.as_bytes();
    let n = b.len();
    let mut j: usize = n;
    while j > 0 && b[j - 1] != 0x2e
        invariant
            j <= n == b@.len(),
            last_dot(b@, n as int) == last_dot(b@, j as int),
        decreases j,
    {
        j -= 1;
    }
    let start: usize = j;
    assert(start as int == last_dot(b@, n as int) + 1);
    let mut ext: Vec<u8> = Vec::new();
    let mut i = start;
    while i < n
        invariant
            start <= i <= n == b@.len(),
            ext@ == b@.subrange(start as int, i as int).map_values(|x: u8| ascii_lower(x)),
        decreases n - i,
    {
        let x = b[i];
        ext.push(if 0x41 <= x && x <= 0x5a { x + 32 } else { x });
        i += 1;
        assert(ext@ =~= b@.subrange(start as int, i as int).map_values(|x: u8| ascii_lower(x)));
    }
    let e = ext.as_slice();
    let png: [u8; 3] = [0x70, 0x6e, 0x67];
    let jpg: [u8; 3] = [0x6a, 0x70, 0x67];
    let jpeg: [u8; 4] = [0x6a, 0x70, 0x65, 0x67];
    let tga: [u8; 3] = [0x74, 0x67, 0x61];
    let bmp: [u8; 3] = [0x62, 0x6d, 0x70];
    let tif: [u8; 3] = [0x74, 0x69, 0x66];
    let tiff: [u8; 4] = [0x74, 0x69, 0x66, 0x66];
    let exr: [u8; 3] = [0x65, 0x78, 0x72];
    let hdr: [u8; 3] = [0x68, 0x64, 0x72];
    let gif: [u8; 3] = [0x67, 0x69, 0x66];
    let webp: [u8; 4] = [0x77, 0x65, 0x62, 0x70];
    assert(png@ =~= seq![0x70u8, 0x6e, 0x67]);
    assert(jpg@ =~= seq![0x6au8, 0x70, 0x67]);
    assert(jpeg@ =~= seq![0x6au8, 0x70, 0x65, 0x67]);
    assert(tga@ =~= seq![0x74u8, 0x67, 0x61]);
    assert(bmp@ =~= seq![0x62u8, 0x6d, 0x70]);
    assert(tif@ =~= seq![0x74u8, 0x69, 0x66]);
    assert(tiff@ =~= seq![0x74u8, 0x69, 0x66, 0x66]);
    assert(exr@ =~= seq![0x65u8, 0x78, 0x72]);
    assert(hdr@ =~= seq![0x68u8, 0x64, 0x72]);
    assert(gif@ =~= seq![0x67u8, 0x69, 0x66]);
    assert(webp@ =~= seq![0x77u8, 0x65, 0x62, 0x70]);
    if bytes_eq(e, &png) {
        Some("image/png".to_owned())
    } else if bytes_eq(e, &jpg) || bytes_eq(e, &jpeg) {
        Some("image/jpeg".to_owned())
    } else if bytes_eq(e, &tga) {
        Some("image/x-targa".to_owned())
    } else if bytes_eq(e, &bmp) {
        Some("image/bmp".to_owned())
    } else if bytes_eq(e, &tif) || bytes_eq(e, &tiff) {
        Some("image/tiff".to_owned())
    } else if bytes_eq(e, &exr) {
        Some("image/x-exr".to_owned())
    } else if bytes_eq(e, &hdr) {
        Some("image/vnd.radiance".to_owned())
    } else if bytes_eq(e, &gif) {
        Some("image/gif".to_owned())
    } else if bytes_eq(e, &webp) {
        Some("image/webp".to_owned())
    } else {
        None
    }
}

// ---------------------------------------------------------------------
// Texture media
// ---------------------------------------------------------------------

/// The string of the first property of the first child named `name`,
/// when it is UTF-8.
pub open spec fn string_child(n: NodeV, name: Seq<u8>) -> Option<Seq<u8>> {
    match first_named(n.children, name) {
        Some(c) => if c.properties.len() > 0 && (c.properties[0] matches PropV::Str(b) && valid_utf8(b)) {
            Some(c.properties[0]->Str_0)
        } else {
            None
        },
        None => None,
    }
}

/// The non-empty blob (`R`, or `S` as some exporters tag it) of a
/// node's `Content` child.
pub open spec fn content_blob(n: NodeV) -> Option<Seq<u8>> {
    match first_named(n.children, "Content".spec_bytes()) {
        Some(c) => if c.properties.len() > 0 {
            match c.properties[0] {
                PropV::Raw(b) => if b.len() > 0 { Some(b) } else { None },
                PropV::Str(b) => if b.len() > 0 { Some(b) } else { None },
                _ => None,
            }
        } else {
            None
        },
        None => None,
    }
}

pub open spec fn or_else(a: Option<Seq<u8>>, b: Option<Seq<u8>>) -> Option<Seq<u8>> {
    if a is Some { a } else { b }
}

/// Where a texture's pixels come from, by view.
pub enum SourceV {
    /// Media type (characters) and the embedded bytes.
    Embedded(Seq<char>, Seq<u8>),
    /// The UTF-8 bytes of a path.
    Uri(Seq<u8>),
}

/// The source of a texture backed by `video`: the video's embedded
/// content, typed by the extension of its `Filename` (else
/// `RelativeFilename`) path; otherwise the first path among the
/// texture's `RelativeFilename`, `FileName`, `Filename` and the video's
/// `RelativeFilename`, `FileName` (empty when there is none).
pub open spec fn texture_source(tex: NodeV, video: Option<NodeV>) -> SourceV {
    let embedded = match video {
        Some(v) => content_blob(v),
        None => None,
    };
    match embedded {
        Some(bytes) => {
            let v = video->Some_0;
            let path = or_else(string_child(v, "Filename".spec_bytes()), string_child(v, "RelativeFilename".spec_bytes()));
            let mime = match path {
                Some(p) => match mime_for(extension_of(p)) {
                    Some(m) => m,
                    None => "application/octet-stream"@,
                },
                None => "application/octet-stream"@,
            };
            SourceV::Embedded(mime, bytes)
        },
        None => {
            let from_video = match video {
                Some(v) => or_else(string_child(v, "RelativeFilename".spec_bytes()), string_child(v, "FileName".spec_bytes())),
                None => None,
            };
            let uri = or_else(string_child(tex, "RelativeFilename".spec_bytes()),
                or_else(string_child(tex, "FileName".spec_bytes()),
                or_else(string_child(tex, "Filename".spec_bytes()), from_video)));
            SourceV::Uri(match uri {
                Some(u) => u,
                None => Seq::empty(),
            })
        },
    }
}

/// Where a texture's pixels come from.
#[derive(Debug)]
pub enum TextureSource {
    /// Media embedded in the file, with its media type.
    Embedded { mime: String, content: Vec<u8> },
    /// A path to an external file (empty when the file names none).
    Uri(String),
}

pub open spec fn source_view(s: TextureSource) -> SourceV {
    match s {
        TextureSource::Embedded { mime, content } => SourceV::Embedded(mime@, content@),
        TextureSource::Uri(u) => SourceV::Uri(encode_utf8(u@)),
    }
}

/// The string of the first property of `parent`'s first child named
/// `name`, when it is a UTF-8 string.
pub fn read_string_child(parent: &FbxNode, name: &str) -> (r: Option<String>)
    ensures
        match r {
            Some(s) => string_child(node_view(*parent), name.spec_bytes()) == Some(encode_utf8(s@)),
            None => string_child(node_view(*parent), name.spec_bytes()) is None,
        },
{
    let c = match parent.child(name) {
        Some(c) => c,
        None => { return None; }
    };
    if c.properties.len() == 0 {
        return None;
    }
    proof { crate::ascii::lemma_props_view_index(c.properties@, 0); }
    match &c.properties[0] {
        FbxProperty::String(b) => crate::text::string_from_utf8(b.as_slice()),
        _ => None,
    }
}

/// The non-empty blob of a node's `Content` child (an `R` blob, or an
/// `S` string as some exporters tag it).
pub fn read_content_blob(node: &FbxNode) -> (r: Option<Vec<u8>>)
    ensures
        match r {
            Some(v) => content_blob(node_view(*node)) == Some(v@),
            None => content_blob(node_view(*node)) is None,
        },
{
    let c = match node.child("Content") {
        Some(c) => c,
        None => { return None; }
    };
    if c.properties.len() == 0 {
        return None;
    }
    proof { crate::ascii::lemma_props_view_index(c.properties@, 0); }
    match &c.properties[0] {
        FbxProperty::Raw(b) | FbxProperty::String(b) => {
            if b.len() == 0 {
                None
            } else {
                Some(crate::bytes::copy_range(b.as_slice(), 0, b.len()))
            }
        }
        _ => None,
    }
}

fn first_of(a: Option<String>, b: Option<String>) -> (r: Option<String>)
    ensures r == (if a is Some { a } else { b }),
{
    match a {
        Some(x) => Some(x),
        None => b,
    }
}

proof fn lemma_or_else_view(a: Option<String>, b: Option<String>)
    ensures
        (match (if a is Some { a } else { b }) {
            Some(s) => Some(encode_utf8(s@)),
            None => None::<Seq<u8>>,
        }) == or_else(
            match a { Some(s) => Some(encode_utf8(s@)), None => None },
            match b { Some(s) => Some(encode_utf8(s@)), None => None },
        ),
{
}

pub open spec fn opt_bytes(s: Option<String>) -> Option<Seq<u8>> {
    match s {
        Some(x) => Some(encode_utf8(x@)),
        None => None,
    }
}

/// The source of a texture element backed by an optional video element
/// (see [`texture_source`]).
pub fn resolve_texture_source(tex: &FbxNode, video: Option<&FbxNode>) -> (r: TextureSource)
    ensures
        source_view(r) == texture_source(node_view(*tex), match video {
            Some(v) => Some(node_view(*v)),
            None => None,
        }),
{
    let embedded = match video {
        Some(v) => read_content_blob(v),
        None => None,
    };
    match embedded {
        Some(bytes) => {
            let v = video.unwrap();
            let a = read_string_child(v, "Filename");
            let b = read_string_child(v, "RelativeFilename");
            proof { lemma_or_else_view(a, b); }
            let path = first_of(a, b);
            let guessed = match &path {
                Some(p) => guess_mime_from_path(p.as_str()),
                None => None,
            };
            let mime = match guessed {
                Some(m) => m,
                None => "application/octet-stream".to_owned(),
            };
            TextureSource::Embedded { mime, content: bytes }
        }
        None => {
            let (vr, vf) = match video {
                Some(v) => (read_string_child(v, "RelativeFilename"), read_string_child(v, "FileName")),
                None => (None, None),
            };
            proof { lemma_or_else_view(vr, vf); }
            let from_video = first_of(vr, vf);
            let tf = read_string_child(tex, "Filename");
            proof { lemma_or_else_view(tf, from_video); }
            let c3 = first_of(tf, from_video);
            let tn = read_string_child(tex, "FileName");
            proof { lemma_or_else_view(tn, c3); }
            let c2 = first_of(tn, c3);
            let tr = read_string_child(tex, "RelativeFilename");
            proof { lemma_or_else_view(tr, c2); }
            let uri = first_of(tr, c2);
            match uri {
                Some(u) => TextureSource::Uri(u),
                None => {
                    let empty = String::new();
                    proof { assert(empty@ =~= Seq::<char>::empty()); assert(encode_utf8(Seq::<char>::empty()) =~= Seq::<u8>::empty()); }
                    TextureSource::Uri(empty)
                }
            }
        }
    }
}

// ---------------------------------------------------------------------
// Materials, textures and their connections
// ---------------------------------------------------------------------

/// A material channel a texture can be bound to.
#[derive(Clone, Copy, Debug, PartialEq, Eq, Structural)]
pub enum TextureSlot {
    BaseColor,
    Normal,
    Emissive,
    MetallicRoughness,
    Occlusion,
}

/// The channel an `OP` connection's property name binds, for the names
/// the common exporters write.
pub open spec fn slot_for(b: Seq<u8>) -> Option<TextureSlot> {
    if b == "DiffuseColor".spec_bytes() || b == "Maya|TEX_color_map".spec_bytes()
        || b == "Maya|baseColor".spec_bytes() || b == "3dsMax|main|base_color_map".spec_bytes() {
        Some(TextureSlot::BaseColor)
    } else if b == "NormalMap".spec_bytes() || b == "Maya|TEX_normal_map".spec_bytes()
        || b == "3dsMax|main|norm_map".spec_bytes() {
        Some(TextureSlot::Normal)
    } else if b == "EmissiveColor".spec_bytes() || b == "Maya|TEX_emissive_map".spec_bytes()
        || b == "Maya|emissionColor".spec_bytes() || b == "3dsMax|main|emit_color_map".spec_bytes() {
        Some(TextureSlot::Emissive)
    } else if b == "Maya|TEX_metallic_map".spec_bytes() || b == "3dsMax|main|metalness_map".spec_bytes() {
        Some(TextureSlot::MetallicRoughness)
    } else if b == "Maya|TEX_ao_map".spec_bytes() || b == "AmbientOcclusion".spec_bytes() {
        Some(TextureSlot::Occlusion)
    } else {
        None
    }
}

/// The elements named `cls` among the first `i` objects, by id; a later
/// element with an id replaces an earlier one.
pub open spec fn elements_by_id(objs: Seq<NodeV>, cls: Seq<u8>, i: int) -> Map<i64, NodeV>
    decreases i,
{
    if i <= 0 {
        Map::empty()
    } else {
        let m = elements_by_id(objs, cls, i - 1);
        let n = objs[i - 1];
        if n.name == cls && obj_id(n) is Some { m.insert(obj_id(n)->Some_0, n) } else { m }
    }
}

/// Texture id to the id of the video backing it, from the `OO`
/// video-to-texture links among the first `i` records (a later link
/// replaces an earlier one).
pub open spec fn video_links(cs: Seq<NodeV>, i: int, tex: Map<i64, NodeV>, vid: Map<i64, NodeV>) -> Map<i64, i64>
    decreases i,
{
    if i <= 0 {
        Map::empty()
    } else {
        let m = video_links(cs, i - 1, tex, vid);
        match link(cs[i - 1]) {
            Some((k, ch, pa)) => if k == "OO".spec_bytes() && vid.dom().contains(ch) && tex.dom().contains(pa) {
                m.insert(pa, ch)
            } else {
                m
            },
            None => m,
        }
    }
}

/// The materials `OO`-connected to each model with a mesh, in connection
/// order, from the first `i` records (a link that is a video-to-texture
/// link is not also a material link).
pub open spec fn model_materials(
    cs: Seq<NodeV>,
    i: int,
    tex: Map<i64, NodeV>,
    vid: Map<i64, NodeV>,
    mats: Map<i64, NodeV>,
    meshes: Seq<i64>,
) -> Seq<(i64, Seq<i64>)>
    decreases i,
{
    if i <= 0 {
        Seq::empty()
    } else {
        let prev = model_materials(cs, i - 1, tex, vid, mats, meshes);
        match link(cs[i - 1]) {
            Some((k, ch, pa)) => if k == "OO".spec_bytes() && !(vid.dom().contains(ch) && tex.dom().contains(pa))
                && mats.dom().contains(ch) && meshes.contains(pa) {
                append_entry(prev, pa, ch)
            } else {
                prev
            },
            None => prev,
        }
    }
}

/// The `(texture, material, channel)` bindings of the `OP` texture-to-
/// material links among the first `i` records whose property name (the
/// fourth property) names a known channel, in order.
pub open spec fn texture_bindings(cs: Seq<NodeV>, i: int, tex: Map<i64, NodeV>, mats: Map<i64, NodeV>) -> Seq<(i64, i64, TextureSlot)>
    decreases i,
{
    if i <= 0 {
        Seq::empty()
    } else {
        let prev = texture_bindings(cs, i - 1, tex, mats);
        let c = cs[i - 1];
        match link(c) {
            Some((k, ch, pa)) => if k == "OP".spec_bytes() && tex.dom().contains(ch) && mats.dom().contains(pa)
                && c.properties.len() > 3 && (c.properties[3] matches PropV::Str(b) && slot_for(b) is Some) {
                prev.push((ch, pa, slot_for(c.properties[3]->Str_0)->Some_0))
            } else {
                prev
            },
            None => prev,
        }
    }
}

/// A texture element: its id, element name and pixel source.
#[derive(Debug)]
pub struct TextureEntry {
    pub id: i64,
    pub name: Option<String>,
    pub source: TextureSource,
}

/// A material element: its id and element name.
#[derive(Debug)]
pub struct MaterialEntry {
    pub id: i64,
    pub name: Option<String>,
}

/// The materials and textures of a document and how they are wired.
#[derive(Debug)]
pub struct MaterialSurfacing {
    /// One entry per texture id, by increasing id.
    pub textures: Vec<TextureEntry>,
    /// One entry per material id, by increasing id.
    pub materials: Vec<MaterialEntry>,
    /// `(texture id, material id, channel)`, in connection order; a later
    /// binding of a channel replaces an earlier one.
    pub texture_bindings: Vec<(i64, i64, TextureSlot)>,
    /// `(model id, material ids)` for each model with a mesh that has
    /// materials: its slot list in connection order.
    pub model_materials: Vec<(i64, Vec<i64>)>,
}

/// `r` is the surfacing of a document root, given the models that carry
/// a mesh.
pub open spec fn surfaced(r: MaterialSurfacing, root: NodeV, meshes: Seq<i64>) -> bool {
    let objs = objects_of(root);
    let n = objs.len() as int;
    let tex = elements_by_id(objs, "Texture".spec_bytes(), n);
    let vid = elements_by_id(objs, "Video".spec_bytes(), n);
    let mats = elements_by_id(objs, "Material".spec_bytes(), n);
    let cs = connections_of(root);
    let vt = video_links(cs, cs.len() as int, tex, vid);
    &&& forall|a: int, b: int| 0 <= a < b < r.textures@.len() ==> #[trigger] r.textures@[a].id < #[trigger] r.textures@[b].id
    &&& forall|id: i64| tex.dom().contains(id) <==> exists|a: int| 0 <= a < r.textures@.len() && #[trigger] r.textures@[a].id == id
    &&& forall|a: int| 0 <= a < r.textures@.len() ==> {
        let t = #[trigger] r.textures@[a];
        &&& opt_bytes(t.name) == spec_element_name(tex[t.id].properties)
        &&& source_view(t.source) == texture_source(tex[t.id], if vt.dom().contains(t.id) { Some(vid[vt[t.id]]) } else { None })
    }
    &&& forall|a: int, b: int| 0 <= a < b < r.materials@.len() ==> #[trigger] r.materials@[a].id < #[trigger] r.materials@[b].id
    &&& forall|id: i64| mats.dom().contains(id) <==> exists|a: int| 0 <= a < r.materials@.len() && #[trigger] r.materials@[a].id == id
    &&& forall|a: int| 0 <= a < r.materials@.len() ==> opt_bytes((#[trigger] r.materials@[a]).name) == spec_element_name(mats[r.materials@[a].id].properties)
    &&& r.texture_bindings@ == texture_bindings(cs, cs.len() as int, tex, mats)
    &&& lists_view(r.model_materials@) == model_materials(cs, cs.len() as int, tex, vid, mats, meshes)
}

/// The channel a texture-binding property name selects.
pub fn texture_slot(b: &[u8]) -> (r: Option<TextureSlot>)
    ensures r == slot_for(b@),
{
    let eq = |name: &str| -> (e: bool)
        ensures e == (b@ == name.spec_bytes()),
    { bytes_eq(b, name.as_bytes()) };
    if eq("DiffuseColor") || eq("Maya|TEX_color_map") || eq("Maya|baseColor") || eq("3dsMax|main|base_color_map") {
        Some(TextureSlot::BaseColor)
    } else if eq("NormalMap") || eq("Maya|TEX_normal_map") || eq("3dsMax|main|norm_map") {
        Some(TextureSlot::Normal)
    } else if eq("EmissiveColor") || eq("Maya|TEX_emissive_map") || eq("Maya|emissionColor") || eq("3dsMax|main|emit_color_map") {
        Some(TextureSlot::Emissive)
    } else if eq("Maya|TEX_metallic_map") || eq("3dsMax|main|metalness_map") {
        Some(TextureSlot::MetallicRoughness)
    } else if eq("Maya|TEX_ao_map") || eq("AmbientOcclusion") {
        Some(TextureSlot::Occlusion)
    } else {
        None
    }
}

proof fn lemma_video_links_in(cs: Seq<NodeV>, i: int, tex: Map<i64, NodeV>, vid: Map<i64, NodeV>)
    ensures
        forall|k: i64| #[trigger] video_links(cs, i, tex, vid).dom().contains(k) ==> vid.dom().contains(video_links(cs, i, tex, vid)[k]),
    decreases i,
{
    if i > 0 {
        lemma_video_links_in(cs, i - 1, tex, vid);
        let m = video_links(cs, i - 1, tex, vid);
        match link(cs[i - 1]) {
            Some((k, ch, pa)) => {
                if k == "OO".spec_bytes() && vid.dom().contains(ch) && tex.dom().contains(pa) {
                    assert forall|q: i64| #[trigger] m.insert(pa, ch).dom().contains(q) implies vid.dom().contains(m.insert(pa, ch)[q]) by {
                        if q != pa {
                            assert(m.dom().contains(q));
                        }
                    }
                }
            }
            None => {}
        }
    }
}

/// The `Material`, `Texture` and `Video` elements of a document's
/// `Objects`, by id (a later element with an id replaces an earlier one).
fn index_objects<'a>(root: &'a FbxNode) -> (r: (Vec<(i64, &'a FbxNode)>, Vec<(i64, &'a FbxNode)>, Vec<(i64, &'a FbxNode)>))
    ensures
        ({
            let objs = objects_of(node_view(*root));
            let n = objs.len() as int;
            &&& keyed(r.0@, elements_by_id(objs, "Texture".spec_bytes(), n))
            &&& keyed(r.1@, elements_by_id(objs, "Video".spec_bytes(), n))
            &&& keyed(r.2@, elements_by_id(objs, "Material".spec_bytes(), n))
        }),
{
    let mut texl: Vec<(i64, &'a FbxNode)> = Vec::new();
    let mut vidl: Vec<(i64, &'a FbxNode)> = Vec::new();
    let mut matl: Vec<(i64, &'a FbxNode)> = Vec::new();
    match root.child("Objects") {
        Some(o) => {
            let ghost ov = nodes_view(o.children@);
            proof { lemma_nodes_view_len(o.children@); }
            let mut i: usize = 0;
            while i < o.children.len()
                invariant
                    i <= o.children@.len(),
                    ov == nodes_view(o.children@),
                    ov.len() == o.children@.len(),
                    forall|k: int| 0 <= k < ov.len() ==> #[trigger] ov[k] == node_view(o.children@[k]),
                    keyed(texl@, elements_by_id(ov, "Texture".spec_bytes(), i as int)),
                    keyed(vidl@, elements_by_id(ov, "Video".spec_bytes(), i as int)),
                    keyed(matl@, elements_by_id(ov, "Material".spec_bytes(), i as int)),
                decreases o.children@.len() - i,
            {
                let c = &o.children[i];
                match object_id(c) {
                    Some(id) => {
                        let nm = c.name.as_str().as_bytes();
                        if bytes_eq(nm, "Texture".as_bytes()) {
                            insert_keyed(&mut texl, id, c, Ghost(elements_by_id(ov, "Texture".spec_bytes(), i as int)));
                        }
                        if bytes_eq(nm, "Video".as_bytes()) {
                            insert_keyed(&mut vidl, id, c, Ghost(elements_by_id(ov, "Video".spec_bytes(), i as int)));
                        }
                        if bytes_eq(nm, "Material".as_bytes()) {
                            insert_keyed(&mut matl, id, c, Ghost(elements_by_id(ov, "Material".spec_bytes(), i as int)));
                        }
                    }
                    None => {}
                }
                i += 1;
            }
            (texl, vidl, matl)
        }
        None => {
            proof {
                let objs = objects_of(node_view(*root));
                assert(objs.len() == 0);
                assert(elements_by_id(objs, "Texture".spec_bytes(), 0) =~= Map::<i64, NodeV>::empty());
                assert(elements_by_id(objs, "Video".spec_bytes(), 0) =~= Map::<i64, NodeV>::empty());
                assert(elements_by_id(objs, "Material".spec_bytes(), 0) =~= Map::<i64, NodeV>::empty());
            }
            (texl, vidl, matl)
        }
    }
}

/// The connections of a document: the video links, the texture bindings
/// and the materials of each model with a mesh.
#[verifier::rlimit(30)]
fn walk_connections<'a>(
    root: &FbxNode,
    texl: &Vec<(i64, &'a FbxNode)>,
    vidl: &Vec<(i64, &'a FbxNode)>,
    matl: &Vec<(i64, &'a FbxNode)>,
    mesh_models: &[i64],
    Ghost(tex): Ghost<Map<i64, NodeV>>,
    Ghost(vid): Ghost<Map<i64, NodeV>>,
    Ghost(mats): Ghost<Map<i64, NodeV>>,
) -> (r: (Vec<(i64, i64)>, Vec<(i64, i64, TextureSlot)>, Vec<(i64, Vec<i64>)>))
    requires
        keyed(texl@, tex),
        keyed(vidl@, vid),
        keyed(matl@, mats),
    ensures
        ({
            let cs = connections_of(node_view(*root));
            let m = cs.len() as int;
            &&& keyed_ids(r.0@, video_links(cs, m, tex, vid))
            &&& r.1@ == texture_bindings(cs, m, tex, mats)
            &&& lists_view(r.2@) == model_materials(cs, m, tex, vid, mats, mesh_models@)
        }),
{
    let mut vtl: Vec<(i64, i64)> = Vec::new();
    let mut bindings: Vec<(i64, i64, TextureSlot)> = Vec::new();
    let mut mml: Vec<(i64, Vec<i64>)> = Vec::new();
    match root.child("Connections") {
        Some(conns) => {
            let ghost cv = nodes_view(conns.children@);
            proof {
                lemma_nodes_view_len(conns.children@);
                assert(lists_view(mml@) =~= Seq::<(i64, Seq<i64>)>::empty());
            }
            let mut i: usize = 0;
            while i < conns.children.len()
                invariant
                    i <= conns.children@.len(),
                    cv == nodes_view(conns.children@),
                    cv.len() == conns.children@.len(),
                    forall|k: int| 0 <= k < cv.len() ==> #[trigger] cv[k] == node_view(conns.children@[k]),
                    keyed(texl@, tex),
                    keyed(vidl@, vid),
                    keyed(matl@, mats),
                    keyed_ids(vtl@, video_links(cv, i as int, tex, vid)),
                    bindings@ == texture_bindings(cv, i as int, tex, mats),
                    lists_view(mml@) == model_materials(cv, i as int, tex, vid, mats, mesh_models@),
                decreases conns.children@.len() - i,
            {
                let c = &conns.children[i];
                let ghost cn = cv[i as int];
                match connection_link(c) {
                    Some((k, ch, pa)) => {
                        if k == 0 {
                            let is_video = find_keyed(vidl, ch, Ghost(vid)).is_some()
                                && find_keyed(texl, pa, Ghost(tex)).is_some();
                            if is_video {
                                set_link(&mut vtl, pa, ch, Ghost(video_links(cv, i as int, tex, vid)));
                            } else if find_keyed(matl, ch, Ghost(mats)).is_some() && contains_id(mesh_models, pa) {
                                append_to_list(&mut mml, pa, ch);
                            }
                        } else if k == 1 {
                            if find_keyed(texl, ch, Ghost(tex)).is_some() && find_keyed(matl, pa, Ghost(mats)).is_some()
                                && c.properties.len() > 3
                            {
                                proof { crate::ascii::lemma_props_view_index(c.properties@, 3); }
                                let slot = match &c.properties[3] {
                                    FbxProperty::String(b) => texture_slot(b.as_slice()),
                                    _ => None,
                                };
                                match slot {
                                    Some(sl) => { bindings.push((ch, pa, sl)); }
                                    None => {}
                                }
                            }
                        }
                    }
                    None => {}
                }
                i += 1;
            }
            (vtl, bindings, mml)
        }
        None => {
            proof {
                let cs = connections_of(node_view(*root));
                assert(cs.len() == 0);
                assert(video_links(cs, 0, tex, vid) =~= Map::<i64, i64>::empty());
                assert(lists_view(mml@) =~= Seq::<(i64, Seq<i64>)>::empty());
            }
            (vtl, bindings, mml)
        }
    }
}

/// The materials and textures of a document and how they are wired
/// (see [`surfaced`]); `mesh_models` are the ids of the models that
/// carry a mesh.
pub fn surface_materials(doc: &FbxDocument, mesh_models: &[i64]) -> (r: MaterialSurfacing)
    ensures surfaced(r, node_view(doc.root), mesh_models@),
{
    let root = &doc.root;
    let ghost rv = node_view(*root);
    let ghost objs = objects_of(rv);
    let ghost n = objs.len() as int;
    let ghost tex = elements_by_id(objs, "Texture".spec_bytes(), n);
    let ghost vid = elements_by_id(objs, "Video".spec_bytes(), n);
    let ghost mats = elements_by_id(objs, "Material".spec_bytes(), n);
    let (texl, vidl, matl) = index_objects(root);
    let (vtl, texture_bindings, model_materials) =
        walk_connections(root, &texl, &vidl, &matl, mesh_models, Ghost(tex), Ghost(vid), Ghost(mats));
    let ghost cs = connections_of(rv);
    let ghost vt = video_links(cs, cs.len() as int, tex, vid);
    proof { lemma_video_links_in(cs, cs.len() as int, tex, vid); }

    let mut textures: Vec<TextureEntry> = Vec::new();
    let mut a: usize = 0;
    while a < texl.len()
        invariant
            a <= texl@.len(),
            textures@.len() == a,
            keyed(texl@, tex),
            keyed(vidl@, vid),
            keyed_ids(vtl@, vt),
            forall|k: i64| #[trigger] vt.dom().contains(k) ==> vid.dom().contains(vt[k]),
            forall|q: int| 0 <= q < a ==> {
                let t = #[trigger] textures@[q];
                &&& t.id == texl@[q].0
                &&& opt_bytes(t.name) == spec_element_name(tex[t.id].properties)
                &&& source_view(t.source) == texture_source(tex[t.id], if vt.dom().contains(t.id) { Some(vid[vt[t.id]]) } else { None })
            },
        decreases texl@.len() - a,
    {
        let (id, tnode) = texl[a];
        assert(texl@[a as int].0 == id);
        let video = match get_link(&vtl, id, Ghost(vt)) {
            Some(v) => find_keyed(&vidl, v, Ghost(vid)),
            None => None,
        };
        let name = element_name(tnode);
        let source = resolve_texture_source(tnode, video);
        textures.push(TextureEntry { id, name, source });
        a += 1;
    }

    let mut materials: Vec<MaterialEntry> = Vec::new();
    let mut b: usize = 0;
    while b < matl.len()
        invariant
            b <= matl@.len(),
            materials@.len() == b,
            keyed(matl@, mats),
            forall|q: int| 0 <= q < b ==> {
                let t = #[trigger] materials@[q];
                &&& t.id == matl@[q].0
                &&& opt_bytes(t.name) == spec_element_name(mats[t.id].properties)
            },
        decreases matl@.len() - b,
    {
        let (id, mnode) = matl[b];
        assert(matl@[b as int].0 == id);
        let name = element_name(mnode);
        materials.push(MaterialEntry { id, name });
        b += 1;
    }
    let r = MaterialSurfacing { textures, materials, texture_bindings, model_materials };
    proof {
        assert forall|a: int, b: int| 0 <= a < b < r.textures@.len() implies #[trigger] r.textures@[a].id < #[trigger] r.textures@[b].id by {
            assert(texl@[a].0 < texl@[b].0);
        }
        assert forall|id: i64| tex.dom().contains(id) <==> exists|a: int| 0 <= a < r.textures@.len() && #[trigger] r.textures@[a].id == id by {
            if tex.dom().contains(id) {
                let a = choose|a: int| 0 <= a < texl@.len() && #[trigger] texl@[a].0 == id;
                assert(r.textures@[a].id == id);
            }
            if exists|a: int| 0 <= a < r.textures@.len() && #[trigger] r.textures@[a].id == id {
                let a = choose|a: int| 0 <= a < r.textures@.len() && #[trigger] r.textures@[a].id == id;
                assert(texl@[a].0 == id);
            }
        }
        assert forall|a: int, b: int| 0 <= a < b < r.materials@.len() implies #[trigger] r.materials@[a].id < #[trigger] r.materials@[b].id by {
            assert(matl@[a].0 < matl@[b].0);
        }
        assert forall|id: i64| mats.dom().contains(id) <==> exists|a: int| 0 <= a < r.materials@.len() && #[trigger] r.materials@[a].id == id by {
            if mats.dom().contains(id) {
                let a = choose|a: int| 0 <= a < matl@.len() && #[trigger] matl@[a].0 == id;
                assert(r.materials@[a].id == id);
            }
            if exists|a: int| 0 <= a < r.materials@.len() && #[trigger] r.materials@[a].id == id {
                let a = choose|a: int| 0 <= a < r.materials@.len() && #[trigger] r.materials@[a].id == id;
                assert(matl@[a].0 == id);
            }
        }
    }
    r
}


// ---------------------------------------------------------------------
// Media types
// ---------------------------------------------------------------------

/// Each image extension the exporters emit names its own media type:
/// PNG, JPEG (`jpg` and `jpeg`), Targa, BMP, TIFF (`tif` and `tiff`),
/// OpenEXR, Radiance HDR, GIF and WebP; an extension in any letter case
/// names the same type.
pub proof fn lemma_media_type_per_extension()
    ensures
        mime_for("png".spec_bytes()) == Some("image/png"@),
        mime_for("jpg".spec_bytes()) == Some("image/jpeg"@),
        mime_for("jpeg".spec_bytes()) == Some("image/jpeg"@),
        mime_for("tga".spec_bytes()) == Some("image/x-targa"@),
        mime_for("bmp".spec_bytes()) == Some("image/bmp"@),
        mime_for("tif".spec_bytes()) == Some("image/tiff"@),
        mime_for("tiff".spec_bytes()) == Some("image/tiff"@),
        mime_for("exr".spec_bytes()) == Some("image/x-exr"@),
        mime_for("hdr".spec_bytes()) == Some("image/vnd.radiance"@),
        mime_for("gif".spec_bytes()) == Some("image/gif"@),
        mime_for("webp".spec_bytes()) == Some("image/webp"@),
{
    reveal_strlit("png");
    reveal_strlit("jpg");
    reveal_strlit("jpeg");
    reveal_strlit("tga");
    reveal_strlit("bmp");
    reveal_strlit("tif");
    reveal_strlit("tiff");
    reveal_strlit("exr");
    reveal_strlit("hdr");
    reveal_strlit("gif");
    reveal_strlit("webp");
    crate::ascii::lemma_ascii_literal("png");
    crate::ascii::lemma_ascii_literal("jpg");
    crate::ascii::lemma_ascii_literal("jpeg");
    crate::ascii::lemma_ascii_literal("tga");
    crate::ascii::lemma_ascii_literal("bmp");
    crate::ascii::lemma_ascii_literal("tif");
    crate::ascii::lemma_ascii_literal("tiff");
    crate::ascii::lemma_ascii_literal("exr");
    crate::ascii::lemma_ascii_literal("hdr");
    crate::ascii::lemma_ascii_literal("gif");
    crate::ascii::lemma_ascii_literal("webp");
    assert("png".spec_bytes() =~= seq![0x70u8, 0x6e, 0x67]);
    assert("jpg".spec_bytes() =~= seq![0x6au8, 0x70, 0x67]);
    assert("jpeg".spec_bytes() =~= seq![0x6au8, 0x70, 0x65, 0x67]);
    assert("tga".spec_bytes() =~= seq![0x74u8, 0x67, 0x61]);
    assert("bmp".spec_bytes() =~= seq![0x62u8, 0x6d, 0x70]);
    assert("tif".spec_bytes() =~= seq![0x74u8, 0x69, 0x66]);
    assert("tiff".spec_bytes() =~= seq![0x74u8, 0x69, 0x66, 0x66]);
    assert("exr".spec_bytes() =~= seq![0x65u8, 0x78, 0x72]);
    assert("hdr".spec_bytes() =~= seq![0x68u8, 0x64, 0x72]);
    assert("gif".spec_bytes() =~= seq![0x67u8, 0x69, 0x66]);
    assert("webp".spec_bytes() =~= seq![0x77u8, 0x65, 0x62, 0x70]);
}

/// The media types of distinct image formats differ.
pub proof fn lemma_media_types_distinct()
    ensures
        ({
            let ts = seq!["image/png"@, "image/jpeg"@, "image/x-targa"@, "image/bmp"@, "image/tiff"@,
                "image/x-exr"@, "image/vnd.radiance"@, "image/gif"@, "image/webp"@];
            forall|i: int, j: int| 0 <= i < j < ts.len() ==> ts[i] != ts[j]
        }),
{
    reveal_strlit("image/png");
    reveal_strlit("image/jpeg");
    reveal_strlit("image/x-targa");
    reveal_strlit("image/bmp");
    reveal_strlit("image/tiff");
    reveal_strlit("image/x-exr");
    reveal_strlit("image/vnd.radiance");
    reveal_strlit("image/gif");
    reveal_strlit("image/webp");
    let ts = seq!["image/png"@, "image/jpeg"@, "image/x-targa"@, "image/bmp"@, "image/tiff"@,
        "image/x-exr"@, "image/vnd.radiance"@, "image/gif"@, "image/webp"@];
    assert forall|i: int, j: int| 0 <= i < j < ts.len() implies ts[i] != ts[j] by {
        if ts[i].len() == ts[j].len() {
            // Same length: they differ at the seventh character.
            assert(ts[i][6] != ts[j][6]);
        }
    }
}

/// The text after the last `.` of a path, lowercased, decides its media
/// type: a path ending in `.tga` (in any case) is a Targa image, one
/// ending in `.bmp` a BMP image, whatever comes before.
pub proof fn lemma_path_media_type(stem: Seq<u8>)
    ensures
        mime_for(extension_of(stem + "tga".spec_bytes().insert(0, 0x2eu8))) == Some("image/x-targa"@),
        mime_for(extension_of(stem + "TGA".spec_bytes().insert(0, 0x2eu8))) == Some("image/x-targa"@),
        mime_for(extension_of(stem + "bmp".spec_bytes().insert(0, 0x2eu8))) == Some("image/bmp"@),
        mime_for(extension_of(stem + "png".spec_bytes().insert(0, 0x2eu8))) == Some("image/png"@),
{
    reveal_strlit("tga");
    reveal_strlit("TGA");
    reveal_strlit("bmp");
    reveal_strlit("png");
    crate::ascii::lemma_ascii_literal("tga");
    crate::ascii::lemma_ascii_literal("TGA");
    crate::ascii::lemma_ascii_literal("bmp");
    crate::ascii::lemma_ascii_literal("png");
    lemma_media_type_per_extension();
    lemma_extension_after_stem(stem, "tga".spec_bytes());
    lemma_extension_after_stem(stem, "TGA".spec_bytes());
    lemma_extension_after_stem(stem, "bmp".spec_bytes());
    lemma_extension_after_stem(stem, "png".spec_bytes());
    assert("TGA".spec_bytes().map_values(|b: u8| ascii_lower(b)) =~= "tga".spec_bytes());
    assert("tga".spec_bytes().map_values(|b: u8| ascii_lower(b)) =~= "tga".spec_bytes());
    assert("bmp".spec_bytes().map_values(|b: u8| ascii_lower(b)) =~= "bmp".spec_bytes());
    assert("png".spec_bytes().map_values(|b: u8| ascii_lower(b)) =~= "png".spec_bytes());
}

proof fn lemma_extension_after_stem(stem: Seq<u8>, ext: Seq<u8>)
    requires forall|k: int| 0 <= k < ext.len() ==> #[trigger] ext[k] != 0x2eu8,
    ensures extension_of(stem + ext.insert(0, 0x2eu8)) == ext.map_values(|b: u8| ascii_lower(b)),
{
    let p = stem + ext.insert(0, 0x2eu8);
    let n = p.len() as int;
    assert forall|e: int| stem.len() + 1 <= e <= n implies last_dot(p, e) == stem.len() by {
        lemma_last_dot_tail(p, stem.len() as int, e);
    }
    assert(p.subrange(stem.len() + 1int, n) =~= ext);
}

proof fn lemma_last_dot_tail(p: Seq<u8>, d: int, e: int)
    requires
        0 <= d < e <= p.len(),
        p[d] == 0x2eu8,
        forall|k: int| d < k < e ==> #[trigger] p[k] != 0x2eu8,
    ensures last_dot(p, e) == d,
    decreases e,
{
    if e - 1 > d {
        lemma_last_dot_tail(p, d, e - 1);
    }
}


/// The standard material properties name their texture slots: a
/// texture bound to `DiffuseColor` is the base colour, to `NormalMap`
/// the normal map, to `EmissiveColor` the emissive map and to
/// `AmbientOcclusion` the occlusion map.
pub proof fn lemma_standard_slots()
    ensures
        slot_for("DiffuseColor".spec_bytes()) == Some(TextureSlot::BaseColor),
        slot_for("NormalMap".spec_bytes()) == Some(TextureSlot::Normal),
        slot_for("EmissiveColor".spec_bytes()) == Some(TextureSlot::Emissive),
        slot_for("AmbientOcclusion".spec_bytes()) == Some(TextureSlot::Occlusion),
{
    reveal_strlit("DiffuseColor");
    crate::ascii::lemma_ascii_literal("DiffuseColor");
    assert("DiffuseColor".spec_bytes().len() == 12);
    reveal_strlit("Maya|TEX_color_map");
    crate::ascii::lemma_ascii_literal("Maya|TEX_color_map");
    assert("Maya|TEX_color_map".spec_bytes().len() == 18);
    reveal_strlit("Maya|baseColor");
    crate::ascii::lemma_ascii_literal("Maya|baseColor");
    assert("Maya|baseColor".spec_bytes().len() == 14);
    reveal_strlit("3dsMax|main|base_color_map");
    crate::ascii::lemma_ascii_literal("3dsMax|main|base_color_map");
    assert("3dsMax|main|base_color_map".spec_bytes().len() == 26);
    reveal_strlit("NormalMap");
    crate::ascii::lemma_ascii_literal("NormalMap");
    assert("NormalMap".spec_bytes().len() == 9);
    reveal_strlit("Maya|TEX_normal_map");
    crate::ascii::lemma_ascii_literal("Maya|TEX_normal_map");
    assert("Maya|TEX_normal_map".spec_bytes().len() == 19);
    reveal_strlit("3dsMax|main|norm_map");
    crate::ascii::lemma_ascii_literal("3dsMax|main|norm_map");
    assert("3dsMax|main|norm_map".spec_bytes().len() == 20);
    reveal_strlit("EmissiveColor");
    crate::ascii::lemma_ascii_literal("EmissiveColor");
    assert("EmissiveColor".spec_bytes().len() == 13);
    reveal_strlit("Maya|TEX_emissive_map");
    crate::ascii::lemma_ascii_literal("Maya|TEX_emissive_map");
    assert("Maya|TEX_emissive_map".spec_bytes().len() == 21);
    reveal_strlit("Maya|emissionColor");
    crate::ascii::lemma_ascii_literal("Maya|emissionColor");
    assert("Maya|emissionColor".spec_bytes().len() == 18);
    reveal_strlit("3dsMax|main|emit_color_map");
    crate::ascii::lemma_ascii_literal("3dsMax|main|emit_color_map");
    assert("3dsMax|main|emit_color_map".spec_bytes().len() == 26);
    reveal_strlit("Maya|TEX_metallic_map");
    crate::ascii::lemma_ascii_literal("Maya|TEX_metallic_map");
    assert("Maya|TEX_metallic_map".spec_bytes().len() == 21);
    reveal_strlit("3dsMax|main|metalness_map");
    crate::ascii::lemma_ascii_literal("3dsMax|main|metalness_map");
    assert("3dsMax|main|metalness_map".spec_bytes().len() == 25);
    reveal_strlit("Maya|TEX_ao_map");
    crate::ascii::lemma_ascii_literal("Maya|TEX_ao_map");
    assert("Maya|TEX_ao_map".spec_bytes().len() == 15);
    reveal_strlit("AmbientOcclusion");
    crate::ascii::lemma_ascii_literal("AmbientOcclusion");
    assert("AmbientOcclusion".spec_bytes().len() == 16);
}

} // verus!
