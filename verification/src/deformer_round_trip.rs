//! Reading back written deformers: the deformer graph of a document
//! whose `Objects` and `Connections` hold what [`crate::deformer_writer`]
//! writes for one skin binds that skin to its geometry with one joint
//! per cluster, in cluster order, each bound to its bone; for one blend
//! shape, it binds the blend shape to its geometry with its channels in
//! order, each with its shape.

use vstd::prelude::*;
use vstd::string::StringSliceAdditionalSpecFns;
use vstd::utf8::encode_utf8;
use crate::anim_writer::oo_v;
use crate::deformer::{
    assoc_get, classified_by_id, deformer_elements, deformer_links, list_get, pair_index, skin_joints, skins_fold,
    spec_deformer_graph, subtype_of, DeformerElements, DeformerLinks, SkinV,
};
use crate::deformer::{blend_targets, blends_fold, BlendV};
use crate::deformer_writer::{
    blend_connections, blend_objects, cluster_links, cluster_v, shape_v, skin_connections, skin_objects, target_links,
    target_objects, typed_element_v, BlendEmit, ClusterEmit, SkinEmit, TargetEmit,
};
use crate::model::{root_v, NodeV};
use crate::objects::{entry_index, link, obj_id};

verus! {

/// A document holding one skin's elements under `Objects` and its
/// connections under `Connections`.
pub open spec fn skin_document(s: SkinEmit) -> NodeV {
    root_v(seq![
        NodeV { name: "Objects".spec_bytes(), properties: Seq::empty(), children: skin_objects(s) },
        NodeV { name: "Connections".spec_bytes(), properties: Seq::empty(), children: skin_connections(s) },
    ])
}

/// The joints a skin's clusters give: the joint index, the cluster
/// element and its bone, in cluster order.
pub open spec fn written_joints(cs: Seq<ClusterEmit>) -> Seq<(usize, NodeV, i64)> {
    Seq::new(cs.len(), |j: int| (j as usize, cluster_v(cs[j]), cs[j].bone))
}

/// The ids of the first `k` clusters.
pub open spec fn cluster_ids(cs: Seq<ClusterEmit>, k: int) -> Seq<i64> {
    Seq::new(k as nat, |j: int| cs[j].id)
}

/// The cluster-to-bone pairs of the first `k` clusters.
pub open spec fn cluster_bones(cs: Seq<ClusterEmit>, k: int) -> Seq<(i64, i64)> {
    Seq::new(k as nat, |j: int| (cs[j].id, cs[j].bone))
}

/// Fresh ids: the skin's and its clusters' are pairwise distinct, and no
/// bone is the skin.
pub open spec fn fresh_skin(s: SkinEmit) -> bool {
    let cs = s.clusters@;
    &&& forall|k: int| 0 <= k < cs.len() ==> (#[trigger] cs[k]).id != s.id && cs[k].bone != s.id
    &&& forall|k: int, l: int| 0 <= k < cs.len() && 0 <= l < cs.len() && k != l ==> (#[trigger] cs[k]).id != (#[trigger] cs[l]).id
}

proof fn lemma_cluster_links_shape(cs: Seq<ClusterEmit>, i: int, sid: i64)
    requires 0 <= i <= cs.len(),
    ensures
        cluster_links(cs, i, sid).len() == 2 * i,
        forall|j: int| 0 <= j < i ==> #[trigger] cluster_links(cs, i, sid)[2 * j] == oo_v(cs[j].id, sid)
            && cluster_links(cs, i, sid)[2 * j + 1] == oo_v(cs[j].id, cs[j].bone),
    decreases i,
{
    if i > 0 {
        lemma_cluster_links_shape(cs, i - 1, sid);
        let prev = cluster_links(cs, i - 1, sid);
        let cur = cluster_links(cs, i, sid);
        assert forall|j: int| 0 <= j < i implies #[trigger] cur[2 * j] == oo_v(cs[j].id, sid)
            && cur[2 * j + 1] == oo_v(cs[j].id, cs[j].bone) by {
            if j < i - 1 {
                assert(cur[2 * j] == prev[2 * j]);
                assert(cur[2 * j + 1] == prev[2 * j + 1]);
            }
        }
    }
}

proof fn lemma_skin_map(s: SkinEmit, i: int)
    requires 1 <= i <= s.clusters@.len() + 1,
    ensures
        classified_by_id(skin_objects(s), "Deformer".spec_bytes(), "Skin".spec_bytes(), i)
            == Map::<i64, NodeV>::empty().insert(s.id, skin_objects(s)[0]),
    decreases i,
{
    let objs = skin_objects(s);
    reveal_strlit("Skin");
    reveal_strlit("Cluster");
    if i > 1 {
        lemma_skin_map(s, i - 1);
        assert(objs[i - 1] == cluster_v(s.clusters@[i - 2]));
        assert(subtype_of(objs[i - 1]) == Some("Cluster".spec_bytes()));
        assert("Cluster".spec_bytes() != "Skin".spec_bytes()) by {
            crate::ascii::lemma_ascii_literal("Cluster");
            crate::ascii::lemma_ascii_literal("Skin");
            assert("Cluster".spec_bytes().len() == 7);
            assert("Skin".spec_bytes().len() == 4);
        }
    } else {
        assert(classified_by_id(objs, "Deformer".spec_bytes(), "Skin".spec_bytes(), 0) == Map::<i64, NodeV>::empty());
        assert(obj_id(objs[0]) == Some(s.id));
    }
}

proof fn lemma_cluster_map(s: SkinEmit, i: int)
    requires 1 <= i <= s.clusters@.len() + 1, fresh_skin(s),
    ensures
        forall|x: i64| #[trigger] classified_by_id(skin_objects(s), "Deformer".spec_bytes(), "Cluster".spec_bytes(), i).dom().contains(x)
            <==> exists|k: int| 0 <= k < i - 1 && #[trigger] s.clusters@[k].id == x,
        forall|k: int| 0 <= k < i - 1 ==>
            #[trigger] classified_by_id(skin_objects(s), "Deformer".spec_bytes(), "Cluster".spec_bytes(), i)[s.clusters@[k].id]
                == cluster_v(s.clusters@[k]),
    decreases i,
{
    let objs = skin_objects(s);
    let cs = s.clusters@;
    let d = "Deformer".spec_bytes();
    let cl = "Cluster".spec_bytes();
    reveal_strlit("Skin");
    reveal_strlit("Cluster");
    if i > 1 {
        lemma_cluster_map(s, i - 1);
        let m0 = classified_by_id(objs, d, cl, i - 1);
        let m = classified_by_id(objs, d, cl, i);
        let c = cs[i - 2];
        assert(objs[i - 1] == cluster_v(c));
        assert(obj_id(cluster_v(c)) == Some(c.id));
        assert(m == m0.insert(c.id, cluster_v(c)));
        assert forall|x: i64| #[trigger] m.dom().contains(x) <==> exists|k: int| 0 <= k < i - 1 && #[trigger] cs[k].id == x by {
            if m.dom().contains(x) && x != c.id {
                assert(m0.dom().contains(x));
                let k = choose|k: int| 0 <= k < i - 2 && #[trigger] cs[k].id == x;
                assert(cs[k].id == x);
            }
            if exists|k: int| 0 <= k < i - 1 && #[trigger] cs[k].id == x {
                let k = choose|k: int| 0 <= k < i - 1 && #[trigger] cs[k].id == x;
                if k < i - 2 {
                    assert(m0.dom().contains(cs[k].id));
                }
            }
        }
        assert forall|k: int| 0 <= k < i - 1 implies #[trigger] m[cs[k].id] == cluster_v(cs[k]) by {
            if k < i - 2 {
                assert(cs[k].id != c.id);
            }
        }
    } else {
        assert(subtype_of(objs[0]) == Some("Skin".spec_bytes()));
        assert("Cluster".spec_bytes() != "Skin".spec_bytes()) by {
            crate::ascii::lemma_ascii_literal("Cluster");
            crate::ascii::lemma_ascii_literal("Skin");
            assert("Cluster".spec_bytes().len() == 7);
            assert("Skin".spec_bytes().len() == 4);
        }
        assert(classified_by_id(objs, d, cl, 0) == Map::<i64, NodeV>::empty());
        assert(classified_by_id(objs, d, cl, 1) == Map::<i64, NodeV>::empty());
    }
}

/// The links the first `1 + 2k` connections give.
pub open spec fn links_after(s: SkinEmit, k: int) -> DeformerLinks {
    DeformerLinks {
        skin_geometry: seq![(s.id, s.geometry)],
        skin_clusters: if k == 0 { Seq::empty() } else { seq![(s.id, cluster_ids(s.clusters@, k))] },
        cluster_bone: cluster_bones(s.clusters@, k),
        blend_geometry: Seq::empty(),
        blend_channels: Seq::empty(),
        channel_shapes: Seq::empty(),
    }
}

proof fn lemma_pair_index_absent(p: Seq<(i64, i64)>, key: i64, j: int)
    requires
        0 <= j <= p.len(),
        forall|t: int| j <= t < p.len() ==> (#[trigger] p[t]).0 != key,
    ensures pair_index(p, key, j) == p.len(),
    decreases p.len() - j,
{
    if j < p.len() {
        lemma_pair_index_absent(p, key, j + 1);
    }
}

proof fn lemma_pair_index_at(p: Seq<(i64, i64)>, key: i64, j: int, t: int)
    requires
        0 <= j <= t < p.len(),
        p[t].0 == key,
        forall|u: int| j <= u < t ==> (#[trigger] p[u]).0 != key,
    ensures pair_index(p, key, j) == t,
    decreases t - j,
{
    if j < t {
        lemma_pair_index_at(p, key, j + 1, t);
    }
}

proof fn lemma_links_step(s: SkinEmit, e: DeformerElements, geometries: Seq<i64>, models: Seq<i64>, k: int)
    requires
        fresh_skin(s),
        0 <= k <= s.clusters@.len(),
        geometries.contains(s.geometry),
        forall|j: int| 0 <= j < s.clusters@.len() ==> models.contains(#[trigger] s.clusters@[j].bone),
        forall|x: i64| #[trigger] e.skins.dom().contains(x) <==> x == s.id,
        forall|x: i64| #[trigger] e.clusters.dom().contains(x) <==> exists|j: int| 0 <= j < s.clusters@.len() && #[trigger] s.clusters@[j].id == x,
    ensures
        deformer_links(skin_connections(s), 1 + 2 * k, e, geometries, models) == links_after(s, k),
    decreases k,
{
    let cs = s.clusters@;
    let n = cs.len() as int;
    let conns = skin_connections(s);
    let sid = s.id;
    lemma_cluster_links_shape(cs, n, sid);
    let tail = cluster_links(cs, n, sid);
    assert(conns.len() == 1 + 2 * n);
    if k == 0 {
        assert(conns[0] == oo_v(sid, s.geometry));
        assert(link(oo_v(sid, s.geometry)) == Some(("OO".spec_bytes(), sid, s.geometry)));
        assert(e.skins.dom().contains(sid));
        let l0 = deformer_links(conns, 0, e, geometries, models);
        assert(l0.skin_geometry == Seq::<(i64, i64)>::empty());
        assert(pair_index(l0.skin_geometry, sid, 0) == 0);
        assert(crate::deformer::assoc_put(l0.skin_geometry, sid, s.geometry) =~= seq![(sid, s.geometry)]);
        assert(cluster_bones(cs, 0) =~= Seq::<(i64, i64)>::empty());
        assert(deformer_links(conns, 1, e, geometries, models) == links_after(s, 0));
    } else {
        lemma_links_step(s, e, geometries, models, k - 1);
        let c = cs[k - 1];
        assert(conns[2 * (k - 1) + 1] == tail[2 * (k - 1)]);
        assert(conns[2 * (k - 1) + 2] == tail[2 * (k - 1) + 1]);
        assert(conns[2 * k - 1] == oo_v(c.id, sid));
        assert(conns[2 * k] == oo_v(c.id, c.bone));
        assert(!e.skins.dom().contains(c.id));
        assert(e.clusters.dom().contains(c.id));
        assert(!e.skins.dom().contains(c.bone));
        assert(models.contains(c.bone));
        let l0 = links_after(s, k - 1);
        // cluster to skin
        let l1 = deformer_links(conns, 2 * k, e, geometries, models);
        assert(link(oo_v(c.id, sid)) == Some(("OO".spec_bytes(), c.id, sid)));
        let sc0 = l0.skin_clusters;
        assert(entry_index(sc0, sid, 0) == 0);
        assert(cluster_ids(cs, k) =~= if k - 1 == 0 { seq![c.id] } else { cluster_ids(cs, k - 1).push(c.id) });
        assert(crate::objects::append_entry(sc0, sid, c.id) =~= seq![(sid, cluster_ids(cs, k))]);
        assert(l1.skin_clusters =~= seq![(sid, cluster_ids(cs, k))]);
        assert(l1 == DeformerLinks { skin_clusters: seq![(sid, cluster_ids(cs, k))], ..l0 });
        // cluster to bone
        let l2 = deformer_links(conns, 2 * k + 1, e, geometries, models);
        assert(link(oo_v(c.id, c.bone)) == Some(("OO".spec_bytes(), c.id, c.bone)));
        let cb0 = l0.cluster_bone;
        assert forall|t: int| 0 <= t < cb0.len() implies (#[trigger] cb0[t]).0 != c.id by {
            assert(cb0[t].0 == cs[t].id);
        }
        lemma_pair_index_absent(cb0, c.id, 0);
        assert(crate::deformer::assoc_put(cb0, c.id, c.bone) =~= cluster_bones(cs, k));
        assert(l2.cluster_bone =~= cluster_bones(cs, k));
        assert(l2 == links_after(s, k));
    }
}

proof fn lemma_joints(s: SkinEmit, clusters: Map<i64, NodeV>, j: int)
    requires
        fresh_skin(s),
        0 <= j <= s.clusters@.len(),
        s.clusters@.len() <= usize::MAX,
        forall|k: int| 0 <= k < s.clusters@.len() ==> #[trigger] clusters.dom().contains(s.clusters@[k].id),
        forall|k: int| 0 <= k < s.clusters@.len() ==> #[trigger] clusters[s.clusters@[k].id] == cluster_v(s.clusters@[k]),
    ensures
        skin_joints(cluster_ids(s.clusters@, s.clusters@.len() as int), clusters, cluster_bones(s.clusters@, s.clusters@.len() as int), j)
            == written_joints(s.clusters@).subrange(0, j),
    decreases j,
{
    let cs = s.clusters@;
    let n = cs.len() as int;
    let ids = cluster_ids(cs, n);
    let cb = cluster_bones(cs, n);
    if j > 0 {
        lemma_joints(s, clusters, j - 1);
        let c = cs[j - 1];
        assert(ids[j - 1] == c.id);
        assert forall|u: int| 0 <= u < j - 1 implies (#[trigger] cb[u]).0 != c.id by {
            assert(cb[u].0 == cs[u].id);
        }
        lemma_pair_index_at(cb, c.id, 0, j - 1);
        assert(assoc_get(cb, c.id) == Some(c.bone));
        assert(clusters.dom().contains(c.id));
        assert(written_joints(cs).subrange(0, j) =~= written_joints(cs).subrange(0, j - 1).push(((j - 1) as usize, cluster_v(c), c.bone)));
    } else {
        assert(written_joints(cs).subrange(0, 0) =~= Seq::<(usize, NodeV, i64)>::empty());
    }
}

/// What the deformer graph reads of a document holding one written
/// skin with at least one cluster: that skin, bound to its geometry,
/// with one joint per cluster in cluster order — the joint index, the
/// cluster element and its bone — when the geometry is one with a mesh,
/// every bone is a scene model, and the ids are fresh.
pub proof fn lemma_written_skin_reads_back(s: SkinEmit, geometries: Seq<i64>, models: Seq<i64>)
    requires
        fresh_skin(s),
        0 < s.clusters@.len() <= usize::MAX,
        geometries.contains(s.geometry),
        forall|j: int| 0 <= j < s.clusters@.len() ==> models.contains(#[trigger] s.clusters@[j].bone),
    ensures
        spec_deformer_graph(skin_document(s), geometries, models).0
            == seq![SkinV { skin: s.id, geometry: s.geometry, joints: written_joints(s.clusters@) }],
{
    let root = skin_document(s);
    let cs = s.clusters@;
    let n = cs.len() as int;
    reveal_strlit("Objects");
    reveal_strlit("Connections");
    crate::ascii::lemma_ascii_literal("Objects");
    crate::ascii::lemma_ascii_literal("Connections");
    assert("Objects".spec_bytes().len() == 7);
    assert("Connections".spec_bytes().len() == 11);
    assert(crate::kinds::objects_of(root) == skin_objects(s));
    let rc = root.children;
    assert(rc.drop_first() =~= seq![rc[1]]);
    assert(crate::model::first_named(rc.drop_first(), "Connections".spec_bytes()) == Some(rc[1]));
    assert(crate::objects::connections_of(root) == skin_connections(s));
    let e = deformer_elements(root);
    let objs = skin_objects(s);
    assert(objs.len() == n + 1);
    lemma_skin_map(s, n + 1);
    lemma_cluster_map(s, n + 1);
    assert forall|x: i64| #[trigger] e.skins.dom().contains(x) <==> x == s.id by {}
    assert forall|x: i64| #[trigger] e.clusters.dom().contains(x) <==> exists|j: int| 0 <= j < n && #[trigger] cs[j].id == x by {}
    lemma_links_step(s, e, geometries, models, n);
    lemma_cluster_links_shape(cs, n, s.id);
    let l = links_after(s, n);
    assert(skin_connections(s).len() == 1 + 2 * n);
    assert forall|k: int| 0 <= k < n implies #[trigger] e.clusters.dom().contains(cs[k].id) by {}
    assert forall|k: int| 0 <= k < n implies #[trigger] e.clusters[cs[k].id] == cluster_v(cs[k]) by {}
    lemma_joints(s, e.clusters, n);
    assert(written_joints(cs).subrange(0, n) =~= written_joints(cs));
    assert(entry_index(l.skin_clusters, s.id, 0) == 0);
    assert(list_get(l.skin_clusters, s.id) == Some(cluster_ids(cs, n)));
    assert(written_joints(cs).len() > 0);
    assert(skins_fold(l, e.clusters, 0) == Seq::<SkinV>::empty());
}


// ---------------------------------------------------------------------
// Blend shapes
// ---------------------------------------------------------------------

/// A document holding one blend shape's elements under `Objects` and
/// its connections under `Connections`.
pub open spec fn blend_document(b: BlendEmit) -> NodeV {
    root_v(seq![
        NodeV { name: "Objects".spec_bytes(), properties: Seq::empty(), children: blend_objects(b) },
        NodeV { name: "Connections".spec_bytes(), properties: Seq::empty(), children: blend_connections(b) },
    ])
}

/// The channels a blend shape's targets give: each channel id with its
/// shape element, in target order.
pub open spec fn written_channels(ts: Seq<TargetEmit>) -> Seq<(i64, NodeV)> {
    Seq::new(ts.len(), |k: int| (ts[k].channel_id, shape_v(ts[k])))
}

/// Fresh ids: the blend shape's, its channels' and its shapes' are
/// pairwise distinct.
pub open spec fn fresh_blend(b: BlendEmit) -> bool {
    let ts = b.targets@;
    &&& forall|k: int| 0 <= k < ts.len() ==> (#[trigger] ts[k]).channel_id != b.id && ts[k].shape_id != b.id
        && ts[k].channel_id != ts[k].shape_id
    &&& forall|k: int, l: int| 0 <= k < ts.len() && 0 <= l < ts.len() && k != l ==> {
        &&& (#[trigger] ts[k]).channel_id != (#[trigger] ts[l]).channel_id
        &&& ts[k].shape_id != ts[l].shape_id
        &&& ts[k].channel_id != ts[l].shape_id
    }
}

proof fn lemma_target_objects_shape(ts: Seq<TargetEmit>, i: int)
    requires 0 <= i <= ts.len(),
    ensures
        target_objects(ts, i).len() == 2 * i,
        forall|j: int| 0 <= j < i ==> #[trigger] target_objects(ts, i)[2 * j]
            == typed_element_v("Deformer".spec_bytes(), ts[j].channel_id, encode_utf8(ts[j].name@), "BlendShapeChannel".spec_bytes(), Seq::empty())
            && target_objects(ts, i)[2 * j + 1] == shape_v(ts[j]),
    decreases i,
{
    if i > 0 {
        lemma_target_objects_shape(ts, i - 1);
        let prev = target_objects(ts, i - 1);
        let cur = target_objects(ts, i);
        assert forall|j: int| 0 <= j < i implies #[trigger] cur[2 * j]
            == typed_element_v("Deformer".spec_bytes(), ts[j].channel_id, encode_utf8(ts[j].name@), "BlendShapeChannel".spec_bytes(), Seq::empty())
            && cur[2 * j + 1] == shape_v(ts[j]) by {
            if j < i - 1 {
                assert(cur[2 * j] == prev[2 * j]);
                assert(cur[2 * j + 1] == prev[2 * j + 1]);
            }
        }
    }
}

proof fn lemma_target_links_shape(ts: Seq<TargetEmit>, i: int, bid: i64)
    requires 0 <= i <= ts.len(),
    ensures
        target_links(ts, i, bid).len() == 2 * i,
        forall|j: int| 0 <= j < i ==> #[trigger] target_links(ts, i, bid)[2 * j] == oo_v(ts[j].channel_id, bid)
            && target_links(ts, i, bid)[2 * j + 1] == oo_v(ts[j].shape_id, ts[j].channel_id),
    decreases i,
{
    if i > 0 {
        lemma_target_links_shape(ts, i - 1, bid);
        let prev = target_links(ts, i - 1, bid);
        let cur = target_links(ts, i, bid);
        assert forall|j: int| 0 <= j < i implies #[trigger] cur[2 * j] == oo_v(ts[j].channel_id, bid)
            && cur[2 * j + 1] == oo_v(ts[j].shape_id, ts[j].channel_id) by {
            if j < i - 1 {
                assert(cur[2 * j] == prev[2 * j]);
                assert(cur[2 * j + 1] == prev[2 * j + 1]);
            }
        }
    }
}

/// The channel ids of the first `k` targets.
pub open spec fn channel_ids(ts: Seq<TargetEmit>, k: int) -> Seq<i64> {
    Seq::new(k as nat, |j: int| ts[j].channel_id)
}

/// The channel-to-shapes lists of the first `k` targets.
pub open spec fn channel_shape_lists(ts: Seq<TargetEmit>, k: int) -> Seq<(i64, Seq<i64>)> {
    Seq::new(k as nat, |j: int| (ts[j].channel_id, seq![ts[j].shape_id]))
}

/// The links the first `1 + 2k` blend connections give.
pub open spec fn blend_links_after(b: BlendEmit, k: int) -> DeformerLinks {
    DeformerLinks {
        skin_geometry: Seq::empty(),
        skin_clusters: Seq::empty(),
        cluster_bone: Seq::empty(),
        blend_geometry: seq![(b.id, b.geometry)],
        blend_channels: if k == 0 { Seq::empty() } else { seq![(b.id, channel_ids(b.targets@, k))] },
        channel_shapes: channel_shape_lists(b.targets@, k),
    }
}

proof fn lemma_entry_index_absent(p: Seq<(i64, Seq<i64>)>, key: i64, j: int)
    requires
        0 <= j <= p.len(),
        forall|t: int| j <= t < p.len() ==> (#[trigger] p[t]).0 != key,
    ensures entry_index(p, key, j) == p.len(),
    decreases p.len() - j,
{
    if j < p.len() {
        lemma_entry_index_absent(p, key, j + 1);
    }
}

proof fn lemma_entry_index_at(p: Seq<(i64, Seq<i64>)>, key: i64, j: int, t: int)
    requires
        0 <= j <= t < p.len(),
        p[t].0 == key,
        forall|u: int| j <= u < t ==> (#[trigger] p[u]).0 != key,
    ensures entry_index(p, key, j) == t,
    decreases t - j,
{
    if j < t {
        lemma_entry_index_at(p, key, j + 1, t);
    }
}


proof fn lemma_subtypes()
    ensures
        "Skin".spec_bytes().len() == 4,
        "Cluster".spec_bytes().len() == 7,
        "BlendShape".spec_bytes().len() == 10,
        "BlendShapeChannel".spec_bytes().len() == 17,
        "Shape".spec_bytes().len() == 5,
{
    reveal_strlit("Skin");
    reveal_strlit("Cluster");
    reveal_strlit("BlendShape");
    reveal_strlit("BlendShapeChannel");
    reveal_strlit("Shape");
    crate::ascii::lemma_ascii_literal("Skin");
    crate::ascii::lemma_ascii_literal("Cluster");
    crate::ascii::lemma_ascii_literal("BlendShape");
    crate::ascii::lemma_ascii_literal("BlendShapeChannel");
    crate::ascii::lemma_ascii_literal("Shape");
}

/// The element maps of a written blend shape's first `1 + 2k` elements.
proof fn lemma_blend_maps(b: BlendEmit, k: int)
    requires fresh_blend(b), 0 <= k <= b.targets@.len(),
    ensures ({
        let objs = blend_objects(b);
        let ts = b.targets@;
        let i = 1 + 2 * k;
        let d = "Deformer".spec_bytes();
        &&& classified_by_id(objs, d, "Skin".spec_bytes(), i) == Map::<i64, NodeV>::empty()
        &&& classified_by_id(objs, d, "Cluster".spec_bytes(), i) == Map::<i64, NodeV>::empty()
        &&& classified_by_id(objs, d, "BlendShape".spec_bytes(), i) == Map::<i64, NodeV>::empty().insert(b.id, objs[0])
        &&& forall|x: i64| #[trigger] classified_by_id(objs, d, "BlendShapeChannel".spec_bytes(), i).dom().contains(x)
            <==> exists|j: int| 0 <= j < k && #[trigger] ts[j].channel_id == x
        &&& forall|x: i64| #[trigger] classified_by_id(objs, "Geometry".spec_bytes(), "Shape".spec_bytes(), i).dom().contains(x)
            <==> exists|j: int| 0 <= j < k && #[trigger] ts[j].shape_id == x
        &&& forall|j: int| 0 <= j < k ==> #[trigger] classified_by_id(objs, "Geometry".spec_bytes(), "Shape".spec_bytes(), i)[ts[j].shape_id]
            == shape_v(ts[j])
    }),
    decreases k,
{
    let objs = blend_objects(b);
    let ts = b.targets@;
    let n = ts.len() as int;
    let d = "Deformer".spec_bytes();
    let g = "Geometry".spec_bytes();
    let sk = "Skin".spec_bytes();
    let cl = "Cluster".spec_bytes();
    let bs = "BlendShape".spec_bytes();
    let ch = "BlendShapeChannel".spec_bytes();
    let sh = "Shape".spec_bytes();
    lemma_subtypes();
    lemma_target_objects_shape(ts, n);
    assert(objs.len() == 1 + 2 * n);
    if k == 0 {
        assert(objs[0] == typed_element_v(d, b.id, Seq::empty(), bs, Seq::empty()));
        assert(subtype_of(objs[0]) == Some(bs));
        assert(obj_id(objs[0]) == Some(b.id));
        assert(bs != sk && bs != cl && bs != ch && bs != sh);
        assert(classified_by_id(objs, d, bs, 0) == Map::<i64, NodeV>::empty());
        assert(classified_by_id(objs, d, sk, 0) == Map::<i64, NodeV>::empty());
        assert(classified_by_id(objs, d, cl, 0) == Map::<i64, NodeV>::empty());
        assert(classified_by_id(objs, d, ch, 0) == Map::<i64, NodeV>::empty());
        assert(classified_by_id(objs, g, sh, 0) == Map::<i64, NodeV>::empty());
        assert(classified_by_id(objs, d, sk, 1) == Map::<i64, NodeV>::empty());
        assert(classified_by_id(objs, d, cl, 1) == Map::<i64, NodeV>::empty());
        assert(classified_by_id(objs, d, bs, 1) == Map::<i64, NodeV>::empty().insert(b.id, objs[0]));
        assert(classified_by_id(objs, d, ch, 1) == Map::<i64, NodeV>::empty());
        assert(classified_by_id(objs, g, sh, 1) == Map::<i64, NodeV>::empty());
    } else {
        lemma_blend_maps(b, k - 1);
        let t = ts[k - 1];
        let i0 = 2 * k - 1;
        assert(objs[i0] == target_objects(ts, n)[2 * (k - 1)]);
        assert(objs[i0 + 1] == target_objects(ts, n)[2 * (k - 1) + 1]);
        let ce = objs[i0];
        let se = objs[i0 + 1];
        assert(ce == typed_element_v(d, t.channel_id, encode_utf8(t.name@), ch, Seq::empty()));
        assert(se == shape_v(t));
        assert(subtype_of(ce) == Some(ch));
        assert(subtype_of(se) == Some(sh));
        assert(obj_id(ce) == Some(t.channel_id));
        assert(obj_id(se) == Some(t.shape_id));
        assert(ch != sk && ch != cl && ch != bs && ch != sh);
        assert(sh != sk && sh != cl && sh != bs);
        assert(classified_by_id(objs, d, sk, i0 + 1) == classified_by_id(objs, d, sk, i0));
        assert(classified_by_id(objs, d, sk, i0 + 2) == classified_by_id(objs, d, sk, i0 + 1));
        assert(classified_by_id(objs, d, cl, i0 + 1) == classified_by_id(objs, d, cl, i0));
        assert(classified_by_id(objs, d, cl, i0 + 2) == classified_by_id(objs, d, cl, i0 + 1));
        assert(classified_by_id(objs, d, bs, i0 + 1) == classified_by_id(objs, d, bs, i0));
        assert(classified_by_id(objs, d, bs, i0 + 2) == classified_by_id(objs, d, bs, i0 + 1));
        let mc0 = classified_by_id(objs, d, ch, i0);
        let mc = classified_by_id(objs, d, ch, i0 + 2);
        assert(classified_by_id(objs, d, ch, i0 + 1) == mc0.insert(t.channel_id, ce));
        assert(mc == mc0.insert(t.channel_id, ce));
        assert forall|x: i64| #[trigger] mc.dom().contains(x) <==> exists|j: int| 0 <= j < k && #[trigger] ts[j].channel_id == x by {
            if mc.dom().contains(x) && x != t.channel_id {
                assert(mc0.dom().contains(x));
                let j = choose|j: int| 0 <= j < k - 1 && #[trigger] ts[j].channel_id == x;
                assert(ts[j].channel_id == x);
            }
            if exists|j: int| 0 <= j < k && #[trigger] ts[j].channel_id == x {
                let j = choose|j: int| 0 <= j < k && #[trigger] ts[j].channel_id == x;
                if j < k - 1 {
                    assert(mc0.dom().contains(ts[j].channel_id));
                }
            }
        }
        let ms0 = classified_by_id(objs, g, sh, i0);
        let ms = classified_by_id(objs, g, sh, i0 + 2);
        assert(classified_by_id(objs, g, sh, i0 + 1) == ms0);
        assert(ms == ms0.insert(t.shape_id, se));
        assert forall|x: i64| #[trigger] ms.dom().contains(x) <==> exists|j: int| 0 <= j < k && #[trigger] ts[j].shape_id == x by {
            if ms.dom().contains(x) && x != t.shape_id {
                assert(ms0.dom().contains(x));
                let j = choose|j: int| 0 <= j < k - 1 && #[trigger] ts[j].shape_id == x;
                assert(ts[j].shape_id == x);
            }
            if exists|j: int| 0 <= j < k && #[trigger] ts[j].shape_id == x {
                let j = choose|j: int| 0 <= j < k && #[trigger] ts[j].shape_id == x;
                if j < k - 1 {
                    assert(ms0.dom().contains(ts[j].shape_id));
                }
            }
        }
        assert forall|j: int| 0 <= j < k implies #[trigger] ms[ts[j].shape_id] == shape_v(ts[j]) by {
            if j < k - 1 {
                assert(ts[j].shape_id != t.shape_id);
            }
        }
    }
}

proof fn lemma_blend_links_step(b: BlendEmit, e: DeformerElements, geometries: Seq<i64>, models: Seq<i64>, k: int)
    requires
        fresh_blend(b),
        0 <= k <= b.targets@.len(),
        geometries.contains(b.geometry),
        forall|x: i64| !(#[trigger] e.skins.dom().contains(x)),
        forall|x: i64| !(#[trigger] e.clusters.dom().contains(x)),
        forall|x: i64| #[trigger] e.blends.dom().contains(x) <==> x == b.id,
        forall|x: i64| #[trigger] e.channels.dom().contains(x) <==> exists|j: int| 0 <= j < b.targets@.len() && #[trigger] b.targets@[j].channel_id == x,
        forall|x: i64| #[trigger] e.shapes.dom().contains(x) <==> exists|j: int| 0 <= j < b.targets@.len() && #[trigger] b.targets@[j].shape_id == x,
    ensures
        deformer_links(blend_connections(b), 1 + 2 * k, e, geometries, models) == blend_links_after(b, k),
    decreases k,
{
    let ts = b.targets@;
    let n = ts.len() as int;
    let conns = blend_connections(b);
    let bid = b.id;
    lemma_target_links_shape(ts, n, bid);
    let tail = target_links(ts, n, bid);
    assert(conns.len() == 1 + 2 * n);
    if k == 0 {
        assert(conns[0] == oo_v(bid, b.geometry));
        assert(link(oo_v(bid, b.geometry)) == Some(("OO".spec_bytes(), bid, b.geometry)));
        assert(e.blends.dom().contains(bid));
        assert(!e.skins.dom().contains(bid));
        assert(!e.clusters.dom().contains(bid));
        let l0 = deformer_links(conns, 0, e, geometries, models);
        assert(pair_index(l0.blend_geometry, bid, 0) == 0);
        assert(crate::deformer::assoc_put(l0.blend_geometry, bid, b.geometry) =~= seq![(bid, b.geometry)]);
        assert(channel_shape_lists(ts, 0) =~= Seq::<(i64, Seq<i64>)>::empty());
        assert(deformer_links(conns, 1, e, geometries, models) == blend_links_after(b, 0));
    } else {
        lemma_blend_links_step(b, e, geometries, models, k - 1);
        let t = ts[k - 1];
        assert(conns[2 * k - 1] == tail[2 * (k - 1)]);
        assert(conns[2 * k] == tail[2 * (k - 1) + 1]);
        assert(conns[2 * k - 1] == oo_v(t.channel_id, bid));
        assert(conns[2 * k] == oo_v(t.shape_id, t.channel_id));
        assert(!e.skins.dom().contains(t.channel_id));
        assert(!e.clusters.dom().contains(t.channel_id));
        assert(!e.blends.dom().contains(t.channel_id));
        assert(e.channels.dom().contains(t.channel_id));
        assert(!e.skins.dom().contains(t.shape_id));
        assert(!e.clusters.dom().contains(t.shape_id));
        assert(!e.blends.dom().contains(t.shape_id));
        assert(!e.channels.dom().contains(t.shape_id)) by {
            if e.channels.dom().contains(t.shape_id) {
                let j = choose|j: int| 0 <= j < n && #[trigger] ts[j].channel_id == t.shape_id;
                if j != k - 1 {
                    assert(ts[j].channel_id != ts[k - 1].shape_id);
                }
            }
        }
        assert(e.shapes.dom().contains(t.shape_id));
        let l0 = blend_links_after(b, k - 1);
        let l1 = deformer_links(conns, 2 * k, e, geometries, models);
        assert(link(oo_v(t.channel_id, bid)) == Some(("OO".spec_bytes(), t.channel_id, bid)));
        assert(entry_index(l0.blend_channels, bid, 0) == 0);
        assert(channel_ids(ts, k) =~= if k - 1 == 0 { seq![t.channel_id] } else { channel_ids(ts, k - 1).push(t.channel_id) });
        assert(crate::objects::append_entry(l0.blend_channels, bid, t.channel_id) =~= seq![(bid, channel_ids(ts, k))]);
        assert(l1 == DeformerLinks { blend_channels: seq![(bid, channel_ids(ts, k))], ..l0 });
        let l2 = deformer_links(conns, 2 * k + 1, e, geometries, models);
        assert(link(oo_v(t.shape_id, t.channel_id)) == Some(("OO".spec_bytes(), t.shape_id, t.channel_id)));
        let cs0 = l0.channel_shapes;
        assert forall|u: int| 0 <= u < cs0.len() implies (#[trigger] cs0[u]).0 != t.channel_id by {
            assert(cs0[u].0 == ts[u].channel_id);
        }
        lemma_entry_index_absent(cs0, t.channel_id, 0);
        assert(crate::objects::append_entry(cs0, t.channel_id, t.shape_id) =~= channel_shape_lists(ts, k));
        assert(l2 == blend_links_after(b, k));
    }
}

proof fn lemma_channels(b: BlendEmit, l: DeformerLinks, shapes: Map<i64, NodeV>, j: int)
    requires
        fresh_blend(b),
        0 <= j <= b.targets@.len(),
        l.channel_shapes == channel_shape_lists(b.targets@, b.targets@.len() as int),
        forall|k: int| 0 <= k < b.targets@.len() ==> #[trigger] shapes.dom().contains(b.targets@[k].shape_id),
        forall|k: int| 0 <= k < b.targets@.len() ==> #[trigger] shapes[b.targets@[k].shape_id] == shape_v(b.targets@[k]),
    ensures
        blend_targets(channel_ids(b.targets@, b.targets@.len() as int), l, shapes, j) == written_channels(b.targets@).subrange(0, j),
    decreases j,
{
    let ts = b.targets@;
    let n = ts.len() as int;
    let ids = channel_ids(ts, n);
    let csl = l.channel_shapes;
    if j > 0 {
        lemma_channels(b, l, shapes, j - 1);
        let t = ts[j - 1];
        assert(ids[j - 1] == t.channel_id);
        assert forall|u: int| 0 <= u < j - 1 implies (#[trigger] csl[u]).0 != t.channel_id by {
            assert(csl[u].0 == ts[u].channel_id);
        }
        lemma_entry_index_at(csl, t.channel_id, 0, j - 1);
        assert(list_get(csl, t.channel_id) == Some(seq![t.shape_id]));
        assert(seq![t.shape_id].last() == t.shape_id);
        assert(shapes.dom().contains(t.shape_id));
        assert(written_channels(ts).subrange(0, j) =~= written_channels(ts).subrange(0, j - 1).push((t.channel_id, shape_v(t))));
    } else {
        assert(written_channels(ts).subrange(0, 0) =~= Seq::<(i64, NodeV)>::empty());
    }
}

/// What the deformer graph reads of a document holding one written
/// blend shape with at least one target: that blend shape, bound to its
/// geometry, with its channels in target order, each with its shape
/// element — when the geometry is one with a mesh and the ids are fresh.
pub proof fn lemma_written_blend_reads_back(b: BlendEmit, geometries: Seq<i64>, models: Seq<i64>)
    requires
        fresh_blend(b),
        0 < b.targets@.len(),
        geometries.contains(b.geometry),
    ensures
        spec_deformer_graph(blend_document(b), geometries, models).1
            == seq![BlendV { blend: b.id, geometry: b.geometry, channels: written_channels(b.targets@) }],
{
    let root = blend_document(b);
    let ts = b.targets@;
    let n = ts.len() as int;
    reveal_strlit("Objects");
    reveal_strlit("Connections");
    crate::ascii::lemma_ascii_literal("Objects");
    crate::ascii::lemma_ascii_literal("Connections");
    assert("Objects".spec_bytes().len() == 7);
    assert("Connections".spec_bytes().len() == 11);
    assert(crate::kinds::objects_of(root) == blend_objects(b));
    let rc = root.children;
    assert(rc.drop_first() =~= seq![rc[1]]);
    assert(crate::model::first_named(rc.drop_first(), "Connections".spec_bytes()) == Some(rc[1]));
    assert(crate::objects::connections_of(root) == blend_connections(b));
    let objs = blend_objects(b);
    lemma_target_objects_shape(ts, n);
    assert(objs.len() == 1 + 2 * n);
    lemma_blend_maps(b, n);
    let e = deformer_elements(root);
    assert(e.skins == Map::<i64, NodeV>::empty());
    assert(e.clusters == Map::<i64, NodeV>::empty());
    assert forall|x: i64| #[trigger] e.blends.dom().contains(x) <==> x == b.id by {}
    assert forall|x: i64| !(#[trigger] e.skins.dom().contains(x)) by {}
    assert forall|x: i64| !(#[trigger] e.clusters.dom().contains(x)) by {}
    lemma_blend_links_step(b, e, geometries, models, n);
    let l = blend_links_after(b, n);
    lemma_target_links_shape(ts, n, b.id);
    assert(blend_connections(b).len() == 1 + 2 * n);
    assert forall|k: int| 0 <= k < n implies #[trigger] e.shapes.dom().contains(ts[k].shape_id) by {}
    lemma_channels(b, l, e.shapes, n);
    assert(written_channels(ts).subrange(0, n) =~= written_channels(ts));
    assert(entry_index(l.blend_channels, b.id, 0) == 0);
    assert(list_get(l.blend_channels, b.id) == Some(channel_ids(ts, n)));
    assert(blends_fold(l, e.shapes, 0) == Seq::<BlendV>::empty());
}

} // verus!
