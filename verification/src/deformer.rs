//! The deformer graph of a document: which skin deforms which geometry
//! through which clusters bound to which bones, and which blend shape
//! deforms which geometry through which channels and their target
//! shapes.
//!
//! ```text
//! Deformer "Skin"              --OO-->  Geometry
//! Deformer "Cluster"           --OO-->  Deformer "Skin"
//! Deformer "Cluster"           --OO-->  Model (the bone)
//! Deformer "BlendShape"        --OO-->  Geometry
//! Deformer "BlendShapeChannel" --OO-->  Deformer "BlendShape"
//! Geometry "Shape"             --OO-->  Deformer "BlendShapeChannel"
//! ```
//!
//! The weights, bind matrices and shape deltas these elements carry are
//! floating-point payloads that the caller reads from the element nodes.

use vstd::prelude::*;
use vstd::string::StringSliceAdditionalSpecFns;
use crate::bytes::bytes_eq;
use crate::kinds::objects_of;
use crate::model::{lemma_nodes_view_len, node_view, nodes_view, FbxDocument, FbxNode, FbxProperty, NodeV};
use crate::objects::{
    append_entry, append_to_list, connection_link, connections_of, contains_id, find_keyed, insert_keyed,
    keyed, lemma_entry_index, link, lists_view, obj_id, object_id, entry_index,
};

verus! {

/// The subtype string of an element (its third property).
pub open spec fn subtype_of(n: NodeV) -> Option<Seq<u8>> {
    if n.properties.len() > 2 && n.properties[2] is Str { Some(n.properties[2]->Str_0) } else { None }
}

/// The elements of class `cls` and subtype `sub` among the first `i`
/// objects, by id; a later element with an id replaces an earlier one.
pub open spec fn classified_by_id(objs: Seq<NodeV>, cls: Seq<u8>, sub: Seq<u8>, i: int) -> Map<i64, NodeV>
    decreases i,
{
    if i <= 0 {
        Map::empty()
    } else {
        let m = classified_by_id(objs, cls, sub, i - 1);
        let n = objs[i - 1];
        if n.name == cls && subtype_of(n) == Some(sub) && obj_id(n) is Some { m.insert(obj_id(n)->Some_0, n) } else { m }
    }
}

/// Index of the first pair for `k` at or after `j` (or the length).
pub open spec fn pair_index(s: Seq<(i64, i64)>, k: i64, j: int) -> int
    decreases s.len() - j,
{
    if 0 <= j < s.len() && s[j].0 != k { pair_index(s, k, j + 1) } else { j }
}

/// The value of the first pair for `k`.
pub open spec fn assoc_get(s: Seq<(i64, i64)>, k: i64) -> Option<i64> {
    let j = pair_index(s, k, 0);
    if j < s.len() { Some(s[j].1) } else { None }
}

/// `s` with the pair for `k` set to `v` (added at the end when absent).
pub open spec fn assoc_put(s: Seq<(i64, i64)>, k: i64, v: i64) -> Seq<(i64, i64)> {
    let j = pair_index(s, k, 0);
    if j < s.len() { s.update(j, (k, v)) } else { s.push((k, v)) }
}

/// The list of the first entry for `k`.
pub open spec fn list_get(s: Seq<(i64, Seq<i64>)>, k: i64) -> Option<Seq<i64>> {
    let j = entry_index(s, k, 0);
    if j < s.len() { Some(s[j].1) } else { None }
}

/// The deformer elements of a document, by id.
pub struct DeformerElements {
    pub skins: Map<i64, NodeV>,
    pub clusters: Map<i64, NodeV>,
    pub blends: Map<i64, NodeV>,
    pub channels: Map<i64, NodeV>,
    pub shapes: Map<i64, NodeV>,
}

pub open spec fn deformer_elements(root: NodeV) -> DeformerElements {
    let objs = objects_of(root);
    let n = objs.len() as int;
    let d = "Deformer".spec_bytes();
    DeformerElements {
        skins: classified_by_id(objs, d, "Skin".spec_bytes(), n),
        clusters: classified_by_id(objs, d, "Cluster".spec_bytes(), n),
        blends: classified_by_id(objs, d, "BlendShape".spec_bytes(), n),
        channels: classified_by_id(objs, d, "BlendShapeChannel".spec_bytes(), n),
        shapes: classified_by_id(objs, "Geometry".spec_bytes(), "Shape".spec_bytes(), n),
    }
}

/// The links of the deformer graph, in first-link order.
pub struct DeformerLinks {
    /// Skin to geometry (a later link replaces an earlier one).
    pub skin_geometry: Seq<(i64, i64)>,
    /// Skin to its clusters.
    pub skin_clusters: Seq<(i64, Seq<i64>)>,
    /// Cluster to bone (a later link replaces an earlier one).
    pub cluster_bone: Seq<(i64, i64)>,
    /// Blend shape to geometry (a later link replaces an earlier one).
    pub blend_geometry: Seq<(i64, i64)>,
    /// Blend shape to its channels.
    pub blend_channels: Seq<(i64, Seq<i64>)>,
    /// Channel to its shapes.
    pub channel_shapes: Seq<(i64, Seq<i64>)>,
}

/// The links the first `i` connection records give: each `OO` record is
/// the first of these that fits it, checked in order — skin to a
/// geometry with a mesh, cluster to skin, cluster to a model, blend
/// shape to a geometry with a mesh, channel to blend shape, shape to
/// channel.
pub open spec fn deformer_links(
    cs: Seq<NodeV>,
    i: int,
    e: DeformerElements,
    geometries: Seq<i64>,
    models: Seq<i64>,
) -> DeformerLinks
    decreases i,
{
    if i <= 0 {
        DeformerLinks {
            skin_geometry: Seq::empty(),
            skin_clusters: Seq::empty(),
            cluster_bone: Seq::empty(),
            blend_geometry: Seq::empty(),
            blend_channels: Seq::empty(),
            channel_shapes: Seq::empty(),
        }
    } else {
        let l = deformer_links(cs, i - 1, e, geometries, models);
        match link(cs[i - 1]) {
            Some((k, ch, pa)) => if k != "OO".spec_bytes() {
                l
            } else if e.skins.dom().contains(ch) && geometries.contains(pa) {
                DeformerLinks { skin_geometry: assoc_put(l.skin_geometry, ch, pa), ..l }
            } else if e.clusters.dom().contains(ch) && e.skins.dom().contains(pa) {
                DeformerLinks { skin_clusters: append_entry(l.skin_clusters, pa, ch), ..l }
            } else if e.clusters.dom().contains(ch) && models.contains(pa) {
                DeformerLinks { cluster_bone: assoc_put(l.cluster_bone, ch, pa), ..l }
            } else if e.blends.dom().contains(ch) && geometries.contains(pa) {
                DeformerLinks { blend_geometry: assoc_put(l.blend_geometry, ch, pa), ..l }
            } else if e.channels.dom().contains(ch) && e.blends.dom().contains(pa) {
                DeformerLinks { blend_channels: append_entry(l.blend_channels, pa, ch), ..l }
            } else if e.shapes.dom().contains(ch) && e.channels.dom().contains(pa) {
                DeformerLinks { channel_shapes: append_entry(l.channel_shapes, pa, ch), ..l }
            } else {
                l
            },
            None => l,
        }
    }
}

/// The joints of a skin from the first `j` of its clusters: the
/// cluster's position in the skin's list (its joint index), the cluster
/// element and its bone; a cluster without a bone has no joint.
pub open spec fn skin_joints(ids: Seq<i64>, clusters: Map<i64, NodeV>, cluster_bone: Seq<(i64, i64)>, j: int) -> Seq<(usize, NodeV, i64)>
    decreases j,
{
    if j <= 0 {
        Seq::empty()
    } else {
        let prev = skin_joints(ids, clusters, cluster_bone, j - 1);
        let c = ids[j - 1];
        if clusters.dom().contains(c) && assoc_get(cluster_bone, c) is Some {
            prev.push(((j - 1) as usize, clusters[c], assoc_get(cluster_bone, c)->Some_0))
        } else {
            prev
        }
    }
}

/// View of a [`SkinBinding`].
pub struct SkinV {
    pub skin: i64,
    pub geometry: i64,
    pub joints: Seq<(usize, NodeV, i64)>,
}

/// The skins of the first `k` skin-to-geometry links that have at least
/// one joint.
pub open spec fn skins_fold(l: DeformerLinks, clusters: Map<i64, NodeV>, k: int) -> Seq<SkinV>
    decreases k,
{
    if k <= 0 {
        Seq::empty()
    } else {
        let prev = skins_fold(l, clusters, k - 1);
        let (s, g) = l.skin_geometry[k - 1];
        match list_get(l.skin_clusters, s) {
            Some(ids) => {
                let js = skin_joints(ids, clusters, l.cluster_bone, ids.len() as int);
                if js.len() > 0 { prev.push(SkinV { skin: s, geometry: g, joints: js }) } else { prev }
            },
            None => prev,
        }
    }
}

/// The channels of a blend shape from the first `j` of its channel ids
/// that have a shape: each with its last shape.
pub open spec fn blend_targets(ids: Seq<i64>, l: DeformerLinks, shapes: Map<i64, NodeV>, j: int) -> Seq<(i64, NodeV)>
    decreases j,
{
    if j <= 0 {
        Seq::empty()
    } else {
        let prev = blend_targets(ids, l, shapes, j - 1);
        let c = ids[j - 1];
        match list_get(l.channel_shapes, c) {
            Some(ss) => if ss.len() > 0 && shapes.dom().contains(ss.last()) {
                prev.push((c, shapes[ss.last()]))
            } else {
                prev
            },
            None => prev,
        }
    }
}

/// View of a [`BlendBinding`].
pub struct BlendV {
    pub blend: i64,
    pub geometry: i64,
    pub channels: Seq<(i64, NodeV)>,
}

/// The blend shapes of the first `k` blend-to-geometry links that have a
/// channel list.
pub open spec fn blends_fold(l: DeformerLinks, shapes: Map<i64, NodeV>, k: int) -> Seq<BlendV>
    decreases k,
{
    if k <= 0 {
        Seq::empty()
    } else {
        let prev = blends_fold(l, shapes, k - 1);
        let (b, g) = l.blend_geometry[k - 1];
        match list_get(l.blend_channels, b) {
            Some(ids) => prev.push(BlendV { blend: b, geometry: g, channels: blend_targets(ids, l, shapes, ids.len() as int) }),
            None => prev,
        }
    }
}

/// A skin bound to a geometry: its joints, each the joint index, the
/// cluster element (with its `Indexes`, `Weights`, `Transform` and
/// `TransformLink`) and the bone model's id.
#[derive(Debug)]
pub struct SkinBinding<'a> {
    pub skin: i64,
    pub geometry: i64,
    pub joints: Vec<(usize, &'a FbxNode, i64)>,
}

/// A blend shape bound to a geometry: its channels, each with the shape
/// geometry (its `Indexes`, `Vertices` and `Normals` deltas) it targets.
#[derive(Debug)]
pub struct BlendBinding<'a> {
    pub blend: i64,
    pub geometry: i64,
    pub channels: Vec<(i64, &'a FbxNode)>,
}

/// The deformer graph of a document.
#[derive(Debug)]
pub struct DeformerGraph<'a> {
    pub skins: Vec<SkinBinding<'a>>,
    pub blends: Vec<BlendBinding<'a>>,
}

pub open spec fn skin_view(s: SkinBinding) -> SkinV {
    SkinV { skin: s.skin, geometry: s.geometry, joints: s.joints@.map_values(|j: (usize, &FbxNode, i64)| (j.0, node_view(*j.1), j.2)) }
}

pub open spec fn blend_view(b: BlendBinding) -> BlendV {
    BlendV { blend: b.blend, geometry: b.geometry, channels: b.channels@.map_values(|c: (i64, &FbxNode)| (c.0, node_view(*c.1))) }
}

/// The deformer graph of a document root, given the geometries that
/// carry a mesh and the models that are scene nodes.
pub open spec fn spec_deformer_graph(root: NodeV, geometries: Seq<i64>, models: Seq<i64>) -> (Seq<SkinV>, Seq<BlendV>) {
    let e = deformer_elements(root);
    let cs = connections_of(root);
    let l = deformer_links(cs, cs.len() as int, e, geometries, models);
    (skins_fold(l, e.clusters, l.skin_geometry.len() as int), blends_fold(l, e.shapes, l.blend_geometry.len() as int))
}

pub(crate) proof fn lemma_pair_index(s: Seq<(i64, i64)>, k: i64, j: int)
    requires 0 <= j <= s.len(),
    ensures
        j <= pair_index(s, k, j) <= s.len(),
        pair_index(s, k, j) < s.len() ==> s[pair_index(s, k, j)].0 == k,
    decreases s.len() - j,
{
    if j < s.len() && s[j].0 != k {
        lemma_pair_index(s, k, j + 1);
    }
}

fn find_pair(l: &Vec<(i64, i64)>, k: i64) -> (r: usize)
    ensures r == pair_index(l@, k, 0),
{
    let mut j: usize = 0;
    while j < l.len() && l[j].0 != k
        invariant
            j <= l@.len(),
            pair_index(l@, k, 0) == pair_index(l@, k, j as int),
        decreases l@.len() - j,
    {
        j += 1;
    }
    j
}

fn get_pair(l: &Vec<(i64, i64)>, k: i64) -> (r: Option<i64>)
    ensures r == assoc_get(l@, k),
{
    let j = find_pair(l, k);
    proof { lemma_pair_index(l@, k, 0); }
    if j < l.len() { Some(l[j].1) } else { None }
}

fn put_pair(l: &mut Vec<(i64, i64)>, k: i64, v: i64)
    ensures final(l)@ == assoc_put(old(l)@, k, v),
{
    let j = find_pair(l, k);
    proof { lemma_pair_index(l@, k, 0); }
    if j < l.len() {
        l[j] = (k, v);
    } else {
        l.push((k, v));
    }
}

fn get_list<'b>(l: &'b Vec<(i64, Vec<i64>)>, k: i64) -> (r: Option<&'b Vec<i64>>)
    ensures
        match r {
            Some(v) => list_get(lists_view(l@), k) == Some(v@),
            None => list_get(lists_view(l@), k) is None,
        },
{
    let ghost lv = lists_view(l@);
    let mut j: usize = 0;
    while j < l.len() && l[j].0 != k
        invariant
            j <= l@.len(),
            lv == lists_view(l@),
            entry_index(lv, k, 0) == entry_index(lv, k, j as int),
        decreases l@.len() - j,
    {
        j += 1;
    }
    proof { lemma_entry_index(lv, k, 0); }
    if j < l.len() { Some(&l[j].1) } else { None }
}

fn subtype_bytes(n: &FbxNode) -> (r: Option<&[u8]>)
    ensures
        match r {
            Some(b) => subtype_of(node_view(*n)) == Some(b@),
            None => subtype_of(node_view(*n)) is None,
        },
{
    if n.properties.len() <= 2 {
        return None;
    }
    proof { crate::ascii::lemma_props_view_index(n.properties@, 2); }
    match &n.properties[2] {
        FbxProperty::String(b) => Some(b.as_slice()),
        _ => None,
    }
}

fn opt_eq(o: Option<&[u8]>, lit: &str) -> (r: bool)
    ensures r == (match o { Some(b) => Some(b@), None => None::<Seq<u8>> } == Some(lit.spec_bytes())),
{
    match o {
        Some(b) => bytes_eq(b, lit.as_bytes()),
        None => false,
    }
}

/// The five deformer element tables of a document, by id.
struct Tables<'a> {
    skins: Vec<(i64, &'a FbxNode)>,
    clusters: Vec<(i64, &'a FbxNode)>,
    blends: Vec<(i64, &'a FbxNode)>,
    channels: Vec<(i64, &'a FbxNode)>,
    shapes: Vec<(i64, &'a FbxNode)>,
}

spec fn tables_hold<'a>(t: Tables<'a>, e: DeformerElements) -> bool {
    &&& keyed(t.skins@, e.skins)
    &&& keyed(t.clusters@, e.clusters)
    &&& keyed(t.blends@, e.blends)
    &&& keyed(t.channels@, e.channels)
    &&& keyed(t.shapes@, e.shapes)
}

spec fn elements_at(ov: Seq<NodeV>, i: int) -> DeformerElements {
    let d = "Deformer".spec_bytes();
    DeformerElements {
        skins: classified_by_id(ov, d, "Skin".spec_bytes(), i),
        clusters: classified_by_id(ov, d, "Cluster".spec_bytes(), i),
        blends: classified_by_id(ov, d, "BlendShape".spec_bytes(), i),
        channels: classified_by_id(ov, d, "BlendShapeChannel".spec_bytes(), i),
        shapes: classified_by_id(ov, "Geometry".spec_bytes(), "Shape".spec_bytes(), i),
    }
}

fn index_deformers<'a>(root: &'a FbxNode) -> (t: Tables<'a>)
    ensures tables_hold(t, deformer_elements(node_view(*root))),
{
    let mut t = Tables { skins: Vec::new(), clusters: Vec::new(), blends: Vec::new(), channels: Vec::new(), shapes: Vec::new() };
    match root.child("Objects") {
        Some(o) => {
            let ghost ov = nodes_view(o.children@);
            proof { lemma_nodes_view_len(o.children@); }
            let mut i: usize = 0;
            while i < o.children.len()
                invariant
                    i <= o.children@.len(),
                    ov == nodes_view(o.children@),
                    ov.len() == o.children@.len(),
                    forall|k: int| 0 <= k < ov.len() ==> #[trigger] ov[k] == node_view(o.children@[k]),
                    tables_hold(t, elements_at(ov, i as int)),
                decreases o.children@.len() - i,
            {
                let c = &o.children[i];
                let ghost e = elements_at(ov, i as int);
                match object_id(c) {
                    Some(id) => {
                        let nm = c.name.as_str().as_bytes();
                        let sub = subtype_bytes(c);
                        if bytes_eq(nm, "Deformer".as_bytes()) {
                            if opt_eq(sub, "Skin") {
                                insert_keyed(&mut t.skins, id, c, Ghost(e.skins));
                            }
                            if opt_eq(sub, "Cluster") {
                                insert_keyed(&mut t.clusters, id, c, Ghost(e.clusters));
                            }
                            if opt_eq(sub, "BlendShape") {
                                insert_keyed(&mut t.blends, id, c, Ghost(e.blends));
                            }
                            if opt_eq(sub, "BlendShapeChannel") {
                                insert_keyed(&mut t.channels, id, c, Ghost(e.channels));
                            }
                        }
                        if bytes_eq(nm, "Geometry".as_bytes()) && opt_eq(sub, "Shape") {
                            insert_keyed(&mut t.shapes, id, c, Ghost(e.shapes));
                        }
                    }
                    None => {}
                }
                i += 1;
            }
            t
        }
        None => {
            proof {
                let objs = objects_of(node_view(*root));
                assert(objs.len() == 0);
                let e = deformer_elements(node_view(*root));
                assert(e.skins =~= Map::<i64, NodeV>::empty());
                assert(e.clusters =~= Map::<i64, NodeV>::empty());
                assert(e.blends =~= Map::<i64, NodeV>::empty());
                assert(e.channels =~= Map::<i64, NodeV>::empty());
                assert(e.shapes =~= Map::<i64, NodeV>::empty());
            }
            t
        }
    }
}

struct Links {
    skin_geometry: Vec<(i64, i64)>,
    skin_clusters: Vec<(i64, Vec<i64>)>,
    cluster_bone: Vec<(i64, i64)>,
    blend_geometry: Vec<(i64, i64)>,
    blend_channels: Vec<(i64, Vec<i64>)>,
    channel_shapes: Vec<(i64, Vec<i64>)>,
}

spec fn links_view(l: Links) -> DeformerLinks {
    DeformerLinks {
        skin_geometry: l.skin_geometry@,
        skin_clusters: lists_view(l.skin_clusters@),
        cluster_bone: l.cluster_bone@,
        blend_geometry: l.blend_geometry@,
        blend_channels: lists_view(l.blend_channels@),
        channel_shapes: lists_view(l.channel_shapes@),
    }
}

#[verifier::rlimit(40)]
fn walk_deformer_links<'a>(
    root: &FbxNode,
    t: &Tables<'a>,
    geometries: &[i64],
    models: &[i64],
    Ghost(e): Ghost<DeformerElements>,
) -> (l: Links)
    requires tables_hold(*t, e),
    ensures
        ({
            let cs = connections_of(node_view(*root));
            links_view(l) == deformer_links(cs, cs.len() as int, e, geometries@, models@)
        }),
{
    let mut l = Links {
        skin_geometry: Vec::new(),
        skin_clusters: Vec::new(),
        cluster_bone: Vec::new(),
        blend_geometry: Vec::new(),
        blend_channels: Vec::new(),
        channel_shapes: Vec::new(),
    };
    proof {
        assert(lists_view(l.skin_clusters@) =~= Seq::<(i64, Seq<i64>)>::empty());
        assert(lists_view(l.blend_channels@) =~= Seq::<(i64, Seq<i64>)>::empty());
        assert(lists_view(l.channel_shapes@) =~= Seq::<(i64, Seq<i64>)>::empty());
    }
    match root.child("Connections") {
        Some(conns) => {
            let ghost cv = nodes_view(conns.children@);
            proof { lemma_nodes_view_len(conns.children@); }
            let mut i: usize = 0;
            while i < conns.children.len()
                invariant
                    i <= conns.children@.len(),
                    cv == nodes_view(conns.children@),
                    cv.len() == conns.children@.len(),
                    forall|k: int| 0 <= k < cv.len() ==> #[trigger] cv[k] == node_view(conns.children@[k]),
                    tables_hold(*t, e),
                    links_view(l) == deformer_links(cv, i as int, e, geometries@, models@),
                decreases conns.children@.len() - i,
            {
                let c = &conns.children[i];
                match connection_link(c) {
                    Some((k, ch, pa)) => {
                        if k == 0 {
                            if find_keyed(&t.skins, ch, Ghost(e.skins)).is_some() && contains_id(geometries, pa) {
                                put_pair(&mut l.skin_geometry, ch, pa);
                            } else if find_keyed(&t.clusters, ch, Ghost(e.clusters)).is_some()
                                && find_keyed(&t.skins, pa, Ghost(e.skins)).is_some() {
                                append_to_list(&mut l.skin_clusters, pa, ch);
                            } else if find_keyed(&t.clusters, ch, Ghost(e.clusters)).is_some() && contains_id(models, pa) {
                                put_pair(&mut l.cluster_bone, ch, pa);
                            } else if find_keyed(&t.blends, ch, Ghost(e.blends)).is_some() && contains_id(geometries, pa) {
                                put_pair(&mut l.blend_geometry, ch, pa);
                            } else if find_keyed(&t.channels, ch, Ghost(e.channels)).is_some()
                                && find_keyed(&t.blends, pa, Ghost(e.blends)).is_some() {
                                append_to_list(&mut l.blend_channels, pa, ch);
                            } else if find_keyed(&t.shapes, ch, Ghost(e.shapes)).is_some()
                                && find_keyed(&t.channels, pa, Ghost(e.channels)).is_some() {
                                append_to_list(&mut l.channel_shapes, pa, ch);
                            }
                        }
                    }
                    None => {}
                }
                i += 1;
            }
            l
        }
        None => l,
    }
}

spec fn joints_view<'a>(js: Seq<(usize, &'a FbxNode, i64)>) -> Seq<(usize, NodeV, i64)> {
    js.map_values(|j: (usize, &'a FbxNode, i64)| (j.0, node_view(*j.1), j.2))
}

spec fn channels_view<'a>(cs: Seq<(i64, &'a FbxNode)>) -> Seq<(i64, NodeV)> {
    cs.map_values(|c: (i64, &'a FbxNode)| (c.0, node_view(*c.1)))
}

fn resolve_joints<'a>(ids: &Vec<i64>, t: &Tables<'a>, cluster_bone: &Vec<(i64, i64)>, Ghost(e): Ghost<DeformerElements>)
    -> (r: Vec<(usize, &'a FbxNode, i64)>)
    requires tables_hold(*t, e),
    ensures joints_view(r@) == skin_joints(ids@, e.clusters, cluster_bone@, ids@.len() as int),
{
    let mut out: Vec<(usize, &'a FbxNode, i64)> = Vec::new();
    let mut j: usize = 0;
    while j < ids.len()
        invariant
            j <= ids@.len(),
            tables_hold(*t, e),
            joints_view(out@) == skin_joints(ids@, e.clusters, cluster_bone@, j as int),
        decreases ids@.len() - j,
    {
        let c = ids[j];
        match find_keyed(&t.clusters, c, Ghost(e.clusters)) {
            Some(node) => match get_pair(cluster_bone, c) {
                Some(bone) => {
                    let ghost before = out@;
                    out.push((j, node, bone));
                    proof {
                        assert(joints_view(out@) =~= joints_view(before).push((j, node_view(*node), bone)));
                    }
                }
                None => {}
            },
            None => {}
        }
        j += 1;
    }
    out
}

fn resolve_channels<'a>(ids: &Vec<i64>, t: &Tables<'a>, channel_shapes: &Vec<(i64, Vec<i64>)>, Ghost(e): Ghost<DeformerElements>, Ghost(l): Ghost<DeformerLinks>)
    -> (r: Vec<(i64, &'a FbxNode)>)
    requires
        tables_hold(*t, e),
        l.channel_shapes == lists_view(channel_shapes@),
    ensures channels_view(r@) == blend_targets(ids@, l, e.shapes, ids@.len() as int),
{
    let mut out: Vec<(i64, &'a FbxNode)> = Vec::new();
    let mut j: usize = 0;
    while j < ids.len()
        invariant
            j <= ids@.len(),
            tables_hold(*t, e),
            l.channel_shapes == lists_view(channel_shapes@),
            channels_view(out@) == blend_targets(ids@, l, e.shapes, j as int),
        decreases ids@.len() - j,
    {
        let c = ids[j];
        match get_list(channel_shapes, c) {
            Some(ss) => {
                if ss.len() > 0 {
                    let last = ss[ss.len() - 1];
                    assert(last == ss@.last());
                    match find_keyed(&t.shapes, last, Ghost(e.shapes)) {
                        Some(node) => {
                            let ghost before = out@;
                            out.push((c, node));
                            proof {
                                assert(channels_view(out@) =~= channels_view(before).push((c, node_view(*node))));
                            }
                        }
                        None => {}
                    }
                }
            }
            None => {}
        }
        j += 1;
    }
    out
}

/// The deformer graph of a document (see [`spec_deformer_graph`]):
/// `geometries` are the ids of the geometries that carry a mesh,
/// `models` the ids of the models that are scene nodes.
pub fn deformer_graph<'a>(doc: &'a FbxDocument, geometries: &[i64], models: &[i64]) -> (g: DeformerGraph<'a>)
    ensures
        g.skins@.map_values(|s: SkinBinding<'a>| skin_view(s)) == spec_deformer_graph(node_view(doc.root), geometries@, models@).0,
        g.blends@.map_values(|b: BlendBinding<'a>| blend_view(b)) == spec_deformer_graph(node_view(doc.root), geometries@, models@).1,
{
    let root = &doc.root;
    let ghost e = deformer_elements(node_view(*root));
    let t = index_deformers(root);
    let l = walk_deformer_links(root, &t, geometries, models, Ghost(e));
    let ghost lv = links_view(l);

    let mut skins: Vec<SkinBinding<'a>> = Vec::new();
    let mut k: usize = 0;
    while k < l.skin_geometry.len()
        invariant
            k <= l.skin_geometry@.len(),
            tables_hold(t, e),
            lv == links_view(l),
            skins@.map_values(|s: SkinBinding<'a>| skin_view(s)) == skins_fold(lv, e.clusters, k as int),
        decreases l.skin_geometry@.len() - k,
    {
        let (sk, geo) = l.skin_geometry[k];
        match get_list(&l.skin_clusters, sk) {
            Some(ids) => {
                let joints = resolve_joints(ids, &t, &l.cluster_bone, Ghost(e));
                if joints.len() > 0 {
                    let ghost before = skins@;
                    let b = SkinBinding { skin: sk, geometry: geo, joints };
                    skins.push(b);
                    proof {
                        assert(skins@.map_values(|s: SkinBinding<'a>| skin_view(s))
                            =~= before.map_values(|s: SkinBinding<'a>| skin_view(s)).push(skin_view(b)));
                    }
                }
            }
            None => {}
        }
        k += 1;
    }

    let mut blends: Vec<BlendBinding<'a>> = Vec::new();
    let mut m: usize = 0;
    while m < l.blend_geometry.len()
        invariant
            m <= l.blend_geometry@.len(),
            tables_hold(t, e),
            lv == links_view(l),
            blends@.map_values(|b: BlendBinding<'a>| blend_view(b)) == blends_fold(lv, e.shapes, m as int),
        decreases l.blend_geometry@.len() - m,
    {
        let (bl, geo) = l.blend_geometry[m];
        match get_list(&l.blend_channels, bl) {
            Some(ids) => {
                let channels = resolve_channels(ids, &t, &l.channel_shapes, Ghost(e), Ghost(lv));
                let ghost before = blends@;
                let b = BlendBinding { blend: bl, geometry: geo, channels };
                blends.push(b);
                proof {
                    assert(blends@.map_values(|b: BlendBinding<'a>| blend_view(b))
                        =~= before.map_values(|b: BlendBinding<'a>| blend_view(b)).push(blend_view(b)));
                }
            }
            None => {}
        }
        m += 1;
    }
    DeformerGraph { skins, blends }
}

} // verus!
