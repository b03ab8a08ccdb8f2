//! The deformer trees written out: `Deformer` `Skin` with its
//! `Cluster`s bound to their bones, and `Deformer` `BlendShape` with its
//! `BlendShapeChannel`s and their `Geometry` `Shape`s, with the `OO`
//! connections the deformer graph reads.

use vstd::prelude::*;
use vstd::string::StringSliceAdditionalSpecFns;
use vstd::utf8::encode_utf8;
use crate::anim_writer::{leaf_v, oo_v};
use crate::model::{node_view, nodes_view, props_view, reals_view, FbxNode, FbxProperty, FbxReal, NodeV, PropV};

verus! {

/// A cluster to write: its id and name, its bone's id, the vertex
/// indexes and weights it binds, and its `Transform` and `TransformLink`
/// matrices (sixteen doubles each).
#[derive(Debug)]
pub struct ClusterEmit {
    pub id: i64,
    pub name: String,
    pub bone: i64,
    pub indexes: Vec<i32>,
    pub weights: Vec<FbxReal>,
    pub transform: Vec<FbxReal>,
    pub transform_link: Vec<FbxReal>,
}

/// A skin to write: its id, the geometry it deforms, and its clusters
/// in joint order.
#[derive(Debug)]
pub struct SkinEmit {
    pub id: i64,
    pub geometry: i64,
    pub clusters: Vec<ClusterEmit>,
}

/// A blend-shape target to write: its channel's id and name, and its
/// shape's id with the sparse vertex indexes and position (and, when
/// present, normal) deltas.
#[derive(Debug)]
pub struct TargetEmit {
    pub channel_id: i64,
    pub name: String,
    pub shape_id: i64,
    pub indexes: Vec<i32>,
    pub vertices: Vec<FbxReal>,
    pub normals: Option<Vec<FbxReal>>,
}

/// A blend shape to write: its id, the geometry it deforms, and its
/// targets in order.
#[derive(Debug)]
pub struct BlendEmit {
    pub id: i64,
    pub geometry: i64,
    pub targets: Vec<TargetEmit>,
}

/// The deformers of one mesh node: a skin, a blend shape, or both.
#[derive(Debug)]
pub struct MeshDeformers {
    pub skin: Option<SkinEmit>,
    pub blend: Option<BlendEmit>,
}

/// An element `class: id, "name\x00\x01class", "subtype"` with
/// `children`.
pub open spec fn typed_element_v(class: Seq<u8>, id: i64, name: Seq<u8>, subtype: Seq<u8>, children: Seq<NodeV>) -> NodeV {
    NodeV {
        name: class,
        properties: seq![PropV::I64(id), PropV::Str(name + seq![0x00u8, 0x01u8] + class), PropV::Str(subtype)],
        children,
    }
}

/// The `Cluster` element of a cluster.
pub open spec fn cluster_v(c: ClusterEmit) -> NodeV {
    typed_element_v("Deformer".spec_bytes(), c.id, encode_utf8(c.name@), "Cluster".spec_bytes(), seq![
        leaf_v("Indexes".spec_bytes(), PropV::I32Array(c.indexes@)),
        leaf_v("Weights".spec_bytes(), PropV::F64Array(reals_view(c.weights@))),
        leaf_v("Transform".spec_bytes(), PropV::F64Array(reals_view(c.transform@))),
        leaf_v("TransformLink".spec_bytes(), PropV::F64Array(reals_view(c.transform_link@))),
    ])
}

/// The elements a skin writes: the skin, then its clusters.
pub open spec fn skin_objects(s: SkinEmit) -> Seq<NodeV> {
    seq![typed_element_v("Deformer".spec_bytes(), s.id, Seq::empty(), "Skin".spec_bytes(), Seq::empty())]
        + s.clusters@.map_values(|c: ClusterEmit| cluster_v(c))
}

/// The connections a skin writes: skin to geometry, then for each
/// cluster, cluster to skin and cluster to bone.
pub open spec fn skin_connections(s: SkinEmit) -> Seq<NodeV> {
    seq![oo_v(s.id, s.geometry)] + cluster_links(s.clusters@, s.clusters@.len() as int, s.id)
}

pub open spec fn cluster_links(cs: Seq<ClusterEmit>, i: int, skin: i64) -> Seq<NodeV>
    decreases i,
{
    if i <= 0 { Seq::empty() } else { cluster_links(cs, i - 1, skin) + seq![oo_v(cs[i - 1].id, skin), oo_v(cs[i - 1].id, cs[i - 1].bone)] }
}

/// The `Shape` geometry of a target.
pub open spec fn shape_v(t: TargetEmit) -> NodeV {
    typed_element_v("Geometry".spec_bytes(), t.shape_id, encode_utf8(t.name@), "Shape".spec_bytes(), seq![
        leaf_v("Indexes".spec_bytes(), PropV::I32Array(t.indexes@)),
        leaf_v("Vertices".spec_bytes(), PropV::F64Array(reals_view(t.vertices@))),
    ] + match t.normals {
        Some(n) => seq![leaf_v("Normals".spec_bytes(), PropV::F64Array(reals_view(n@)))],
        None => Seq::empty(),
    })
}

/// The elements the first `i` targets write: each channel, then its
/// shape.
pub open spec fn target_objects(ts: Seq<TargetEmit>, i: int) -> Seq<NodeV>
    decreases i,
{
    if i <= 0 {
        Seq::empty()
    } else {
        target_objects(ts, i - 1) + seq![
            typed_element_v("Deformer".spec_bytes(), ts[i - 1].channel_id, encode_utf8(ts[i - 1].name@), "BlendShapeChannel".spec_bytes(), Seq::empty()),
            shape_v(ts[i - 1]),
        ]
    }
}

/// The connections the first `i` targets write: channel to blend shape,
/// then shape to channel.
pub open spec fn target_links(ts: Seq<TargetEmit>, i: int, blend: i64) -> Seq<NodeV>
    decreases i,
{
    if i <= 0 {
        Seq::empty()
    } else {
        target_links(ts, i - 1, blend) + seq![oo_v(ts[i - 1].channel_id, blend), oo_v(ts[i - 1].shape_id, ts[i - 1].channel_id)]
    }
}

/// The elements a blend shape writes.
pub open spec fn blend_objects(b: BlendEmit) -> Seq<NodeV> {
    seq![typed_element_v("Deformer".spec_bytes(), b.id, Seq::empty(), "BlendShape".spec_bytes(), Seq::empty())]
        + target_objects(b.targets@, b.targets@.len() as int)
}

/// The connections a blend shape writes: blend shape to geometry, then
/// its targets'.
pub open spec fn blend_connections(b: BlendEmit) -> Seq<NodeV> {
    seq![oo_v(b.id, b.geometry)] + target_links(b.targets@, b.targets@.len() as int, b.id)
}

/// The elements of the first `i` meshes' deformers: skin first.
pub open spec fn deformer_objects(ms: Seq<MeshDeformers>, i: int) -> Seq<NodeV>
    decreases i,
{
    if i <= 0 {
        Seq::empty()
    } else {
        let m = ms[i - 1];
        deformer_objects(ms, i - 1)
            + (match m.skin { Some(s) => skin_objects(s), None => Seq::empty() })
            + (match m.blend { Some(b) => blend_objects(b), None => Seq::empty() })
    }
}

/// The connections of the first `i` meshes' deformers: skin first.
pub open spec fn deformer_connections(ms: Seq<MeshDeformers>, i: int) -> Seq<NodeV>
    decreases i,
{
    if i <= 0 {
        Seq::empty()
    } else {
        let m = ms[i - 1];
        deformer_connections(ms, i - 1)
            + (match m.skin { Some(s) => skin_connections(s), None => Seq::empty() })
            + (match m.blend { Some(b) => blend_connections(b), None => Seq::empty() })
    }
}

fn push_node(v: &mut Vec<FbxNode>, n: FbxNode)
    ensures nodes_view(final(v)@) == nodes_view(old(v)@).push(node_view(n)),
{
    let ghost before = v@;
    v.push(n);
    proof { crate::model::lemma_nodes_view_push(before, n); }
}

fn leaf(name: &str, p: FbxProperty) -> (n: FbxNode)
    ensures node_view(n) == leaf_v(name.spec_bytes(), p.view_prop()),
{
    let mut ps: Vec<FbxProperty> = Vec::new();
    ps.push(p);
    let n = FbxNode { name: name.to_string(), properties: ps, children: Vec::new() };
    assert(props_view(n.properties@) =~= seq![p.view_prop()]);
    assert(nodes_view(n.children@) =~= Seq::<NodeV>::empty());
    n
}

fn element(class: &str, id: i64, name: &str, subtype: &str, children: Vec<FbxNode>) -> (n: FbxNode)
    ensures node_view(n) == typed_element_v(class.spec_bytes(), id, name.spec_bytes(), subtype.spec_bytes(), nodes_view(children@)),
{
    let mut ps: Vec<FbxProperty> = Vec::new();
    ps.push(FbxProperty::I64(id));
    ps.push(FbxProperty::String(crate::names::name_class(name, class)));
    let sb = subtype.as_bytes();
    let sv = crate::bytes::copy_range(sb, 0, sb.len());
    assert(sb@.subrange(0, sb@.len() as int) =~= sb@);
    ps.push(FbxProperty::String(sv));
    let n = FbxNode { name: class.to_string(), properties: ps, children };
    assert(props_view(n.properties@) =~= typed_element_v(class.spec_bytes(), id, name.spec_bytes(), subtype.spec_bytes(), nodes_view(children@)).properties);
    n
}

fn conn_oo(child: i64, parent: i64) -> (n: FbxNode)
    ensures node_view(n) == oo_v(child, parent),
{
    let mut ps: Vec<FbxProperty> = Vec::new();
    let b = "OO".as_bytes();
    let v = crate::bytes::copy_range(b, 0, b.len());
    assert(b@.subrange(0, b@.len() as int) =~= b@);
    ps.push(FbxProperty::String(v));
    ps.push(FbxProperty::I64(child));
    ps.push(FbxProperty::I64(parent));
    let n = FbxNode { name: "C".to_string(), properties: ps, children: Vec::new() };
    assert(props_view(n.properties@) =~= oo_v(child, parent).properties);
    assert(nodes_view(n.children@) =~= Seq::<NodeV>::empty());
    n
}

fn copy_i32s(a: &Vec<i32>) -> (r: Vec<i32>)
    ensures r@ == a@,
{
    let mut out: Vec<i32> = Vec::new();
    let mut i: usize = 0;
    while i < a.len()
        invariant
            i <= a@.len(),
            out@ == a@.subrange(0, i as int),
        decreases a@.len() - i,
    {
        out.push(a[i]);
        i += 1;
        assert(out@ =~= a@.subrange(0, i as int));
    }
    assert(a@.subrange(0, i as int) =~= a@);
    out
}

fn children4(a: FbxNode, b: FbxNode, c: FbxNode, d: FbxNode) -> (v: Vec<FbxNode>)
    ensures nodes_view(v@) == seq![node_view(a), node_view(b), node_view(c), node_view(d)],
{
    let mut v: Vec<FbxNode> = Vec::new();
    push_node(&mut v, a);
    push_node(&mut v, b);
    push_node(&mut v, c);
    push_node(&mut v, d);
    proof {
        assert(nodes_view(Seq::<FbxNode>::empty()) =~= Seq::<NodeV>::empty());
        assert(nodes_view(v@) =~= seq![node_view(a), node_view(b), node_view(c), node_view(d)]);
    }
    v
}

fn build_cluster(c: &ClusterEmit) -> (n: FbxNode)
    ensures node_view(n) == cluster_v(*c),
{
    let ch = children4(
        leaf("Indexes", FbxProperty::I32Array(copy_i32s(&c.indexes))),
        leaf("Weights", FbxProperty::F64Array(crate::model::clone_reals(&c.weights))),
        leaf("Transform", FbxProperty::F64Array(crate::model::clone_reals(&c.transform))),
        leaf("TransformLink", FbxProperty::F64Array(crate::model::clone_reals(&c.transform_link))),
    );
    element("Deformer", c.id, c.name.as_str(), "Cluster", ch)
}

fn build_shape(t: &TargetEmit) -> (n: FbxNode)
    ensures node_view(n) == shape_v(*t),
{
    let mut ch: Vec<FbxNode> = Vec::new();
    push_node(&mut ch, leaf("Indexes", FbxProperty::I32Array(copy_i32s(&t.indexes))));
    push_node(&mut ch, leaf("Vertices", FbxProperty::F64Array(crate::model::clone_reals(&t.vertices))));
    match &t.normals {
        Some(nv) => { push_node(&mut ch, leaf("Normals", FbxProperty::F64Array(crate::model::clone_reals(nv)))); }
        None => {}
    }
    proof {
        assert(nodes_view(Seq::<FbxNode>::empty()) =~= Seq::<NodeV>::empty());
        assert(nodes_view(ch@) =~= shape_v(*t).children);
    }
    element("Geometry", t.shape_id, t.name.as_str(), "Shape", ch)
}

fn write_skin(objects: &mut Vec<FbxNode>, connections: &mut Vec<FbxNode>, s: &SkinEmit)
    ensures
        nodes_view(final(objects)@) == nodes_view(old(objects)@) + skin_objects(*s),
        nodes_view(final(connections)@) == nodes_view(old(connections)@) + skin_connections(*s),
{
    let ghost o0 = nodes_view(objects@);
    let ghost c0 = nodes_view(connections@);
    proof {
        reveal_strlit("");
        assert("".spec_bytes() =~= Seq::<u8>::empty()) by { crate::ascii::lemma_ascii_literal(""); }
        assert(nodes_view(Seq::<FbxNode>::empty()) =~= Seq::<NodeV>::empty());
    }
    push_node(objects, element("Deformer", s.id, "", "Skin", Vec::new()));
    push_node(connections, conn_oo(s.id, s.geometry));
    let ghost o1 = nodes_view(objects@);
    let ghost c1 = nodes_view(connections@);
    let mut j: usize = 0;
    while j < s.clusters.len()
        invariant
            j <= s.clusters@.len(),
            nodes_view(objects@) == o1 + s.clusters@.subrange(0, j as int).map_values(|c: ClusterEmit| cluster_v(c)),
            nodes_view(connections@) == c1 + cluster_links(s.clusters@, j as int, s.id),
        decreases s.clusters@.len() - j,
    {
        let c = &s.clusters[j];
        push_node(objects, build_cluster(c));
        push_node(connections, conn_oo(c.id, s.id));
        push_node(connections, conn_oo(c.id, c.bone));
        j += 1;
        proof {
            assert(s.clusters@.subrange(0, j as int).map_values(|c: ClusterEmit| cluster_v(c))
                =~= s.clusters@.subrange(0, j - 1).map_values(|c: ClusterEmit| cluster_v(c)).push(cluster_v(s.clusters@[j - 1])));
            assert(nodes_view(objects@) =~= o1 + s.clusters@.subrange(0, j as int).map_values(|c: ClusterEmit| cluster_v(c)));
            assert(nodes_view(connections@) =~= c1 + cluster_links(s.clusters@, j as int, s.id));
        }
    }
    proof {
        assert(s.clusters@.subrange(0, j as int) =~= s.clusters@);
        assert(nodes_view(objects@) =~= o0 + skin_objects(*s));
        assert(nodes_view(connections@) =~= c0 + skin_connections(*s));
    }
}

fn write_blend(objects: &mut Vec<FbxNode>, connections: &mut Vec<FbxNode>, b: &BlendEmit)
    ensures
        nodes_view(final(objects)@) == nodes_view(old(objects)@) + blend_objects(*b),
        nodes_view(final(connections)@) == nodes_view(old(connections)@) + blend_connections(*b),
{
    let ghost o0 = nodes_view(objects@);
    let ghost c0 = nodes_view(connections@);
    proof {
        reveal_strlit("");
        assert("".spec_bytes() =~= Seq::<u8>::empty()) by { crate::ascii::lemma_ascii_literal(""); }
        assert(nodes_view(Seq::<FbxNode>::empty()) =~= Seq::<NodeV>::empty());
    }
    push_node(objects, element("Deformer", b.id, "", "BlendShape", Vec::new()));
    push_node(connections, conn_oo(b.id, b.geometry));
    let ghost o1 = nodes_view(objects@);
    let ghost c1 = nodes_view(connections@);
    let mut j: usize = 0;
    while j < b.targets.len()
        invariant
            j <= b.targets@.len(),
            nodes_view(Seq::<FbxNode>::empty()) == Seq::<NodeV>::empty(),
            nodes_view(objects@) == o1 + target_objects(b.targets@, j as int),
            nodes_view(connections@) == c1 + target_links(b.targets@, j as int, b.id),
        decreases b.targets@.len() - j,
    {
        let t = &b.targets[j];
        push_node(objects, element("Deformer", t.channel_id, t.name.as_str(), "BlendShapeChannel", Vec::new()));
        push_node(connections, conn_oo(t.channel_id, b.id));
        push_node(objects, build_shape(t));
        push_node(connections, conn_oo(t.shape_id, t.channel_id));
        j += 1;
        proof {
            assert(nodes_view(objects@) =~= o1 + target_objects(b.targets@, j as int));
            assert(nodes_view(connections@) =~= c1 + target_links(b.targets@, j as int, b.id));
        }
    }
    proof {
        assert(nodes_view(objects@) =~= o0 + blend_objects(*b));
        assert(nodes_view(connections@) =~= c0 + blend_connections(*b));
    }
}

/// The elements and connections that write the deformers of each mesh
/// node in turn (see [`deformer_objects`] and [`deformer_connections`]).
pub fn build_deformer_objects(meshes: &[MeshDeformers]) -> (r: (Vec<FbxNode>, Vec<FbxNode>))
    ensures
        nodes_view(r.0@) == deformer_objects(meshes@, meshes@.len() as int),
        nodes_view(r.1@) == deformer_connections(meshes@, meshes@.len() as int),
{
    let mut objects: Vec<FbxNode> = Vec::new();
    let mut connections: Vec<FbxNode> = Vec::new();
    proof {
        assert(nodes_view(objects@) =~= Seq::<NodeV>::empty());
        assert(nodes_view(connections@) =~= Seq::<NodeV>::empty());
    }
    let mut i: usize = 0;
    while i < meshes.len()
        invariant
            i <= meshes@.len(),
            nodes_view(objects@) == deformer_objects(meshes@, i as int),
            nodes_view(connections@) == deformer_connections(meshes@, i as int),
        decreases meshes@.len() - i,
    {
        let m = &meshes[i];
        let ghost o0 = nodes_view(objects@);
        let ghost c0 = nodes_view(connections@);
        match &m.skin {
            Some(s) => { write_skin(&mut objects, &mut connections, s); }
            None => {}
        }
        let ghost o1 = nodes_view(objects@);
        let ghost c1 = nodes_view(connections@);
        match &m.blend {
            Some(b) => { write_blend(&mut objects, &mut connections, b); }
            None => {}
        }
        i += 1;
        proof {
            let so: Seq<NodeV> = if m.skin is Some { skin_objects(m.skin->Some_0) } else { Seq::empty() };
            let sc: Seq<NodeV> = if m.skin is Some { skin_connections(m.skin->Some_0) } else { Seq::empty() };
            let bo: Seq<NodeV> = if m.blend is Some { blend_objects(m.blend->Some_0) } else { Seq::empty() };
            let bc: Seq<NodeV> = if m.blend is Some { blend_connections(m.blend->Some_0) } else { Seq::empty() };
            assert(o1 =~= o0 + so);
            assert(c1 =~= c0 + sc);
            assert(nodes_view(objects@) =~= o1 + bo);
            assert(nodes_view(connections@) =~= c1 + bc);
            assert(nodes_view(objects@) =~= deformer_objects(meshes@, i as int));
            assert(nodes_view(connections@) =~= deformer_connections(meshes@, i as int));
        }
    }
    (objects, connections)
}


/// The leaf named `name` among a node's children holds exactly `p`.
pub open spec fn leaf_holds(n: NodeV, name: Seq<u8>, p: PropV) -> bool {
    match crate::model::first_named(n.children, name) {
        Some(c) => c.properties == seq![p] && c.children.len() == 0,
        None => false,
    }
}

/// A written cluster element carries the cluster's data under the names
/// a reader looks them up by: `Indexes` the vertex indexes, `Weights`
/// the weights, `Transform` the cluster's `transform` matrix and
/// `TransformLink` its `transform_link` matrix; its id is the cluster's
/// and it is a `Deformer` of subtype `Cluster`.
pub proof fn lemma_cluster_carries_its_data(c: ClusterEmit)
    ensures
        cluster_v(c).name == "Deformer".spec_bytes(),
        crate::objects::obj_id(cluster_v(c)) == Some(c.id),
        crate::deformer::subtype_of(cluster_v(c)) == Some("Cluster".spec_bytes()),
        leaf_holds(cluster_v(c), "Indexes".spec_bytes(), PropV::I32Array(c.indexes@)),
        leaf_holds(cluster_v(c), "Weights".spec_bytes(), PropV::F64Array(reals_view(c.weights@))),
        leaf_holds(cluster_v(c), "Transform".spec_bytes(), PropV::F64Array(reals_view(c.transform@))),
        leaf_holds(cluster_v(c), "TransformLink".spec_bytes(), PropV::F64Array(reals_view(c.transform_link@))),
{
    reveal_strlit("Indexes");
    reveal_strlit("Weights");
    reveal_strlit("Transform");
    reveal_strlit("TransformLink");
    crate::ascii::lemma_ascii_literal("Indexes");
    crate::ascii::lemma_ascii_literal("Weights");
    crate::ascii::lemma_ascii_literal("Transform");
    crate::ascii::lemma_ascii_literal("TransformLink");
    let ix = "Indexes".spec_bytes();
    let w = "Weights".spec_bytes();
    let t = "Transform".spec_bytes();
    let tl = "TransformLink".spec_bytes();
    assert(ix.len() == 7 && w.len() == 7 && t.len() == 9 && tl.len() == 13);
    assert(ix[0] != w[0]);
    let cs = cluster_v(c).children;
    assert(cs.drop_first() =~= seq![cs[1], cs[2], cs[3]]);
    assert(cs.drop_first().drop_first() =~= seq![cs[2], cs[3]]);
    assert(cs.drop_first().drop_first().drop_first() =~= seq![cs[3]]);
    assert(ix != w);
    assert(ix != t && w != t && ix != tl && w != tl && t != tl);
    assert(cs[0].name == ix && cs[1].name == w && cs[2].name == t && cs[3].name == tl);
    let d1 = cs.drop_first();
    let d2 = d1.drop_first();
    let d3 = d2.drop_first();
    assert(crate::model::first_named(cs, ix) == Some(cs[0]));
    assert(crate::model::first_named(cs, w) == crate::model::first_named(d1, w));
    assert(crate::model::first_named(d1, w) == Some(cs[1]));
    assert(crate::model::first_named(cs, t) == crate::model::first_named(d1, t));
    assert(crate::model::first_named(d1, t) == crate::model::first_named(d2, t));
    assert(crate::model::first_named(d2, t) == Some(cs[2]));
    assert(crate::model::first_named(cs, tl) == crate::model::first_named(d1, tl));
    assert(crate::model::first_named(d1, tl) == crate::model::first_named(d2, tl));
    assert(crate::model::first_named(d2, tl) == crate::model::first_named(d3, tl));
    assert(crate::model::first_named(d3, tl) == Some(cs[3]));
}


/// A written shape element carries the target's data under the names a
/// reader looks them up by: `Indexes` the vertex indexes, `Vertices` the
/// position deltas and, exactly when the target has them, `Normals` the
/// normal deltas; its id is the shape's and it is a `Geometry` of
/// subtype `Shape`.
pub proof fn lemma_shape_carries_its_data(t: TargetEmit)
    ensures
        shape_v(t).name == "Geometry".spec_bytes(),
        crate::objects::obj_id(shape_v(t)) == Some(t.shape_id),
        crate::deformer::subtype_of(shape_v(t)) == Some("Shape".spec_bytes()),
        leaf_holds(shape_v(t), "Indexes".spec_bytes(), PropV::I32Array(t.indexes@)),
        leaf_holds(shape_v(t), "Vertices".spec_bytes(), PropV::F64Array(reals_view(t.vertices@))),
        match t.normals {
            Some(n) => leaf_holds(shape_v(t), "Normals".spec_bytes(), PropV::F64Array(reals_view(n@))),
            None => crate::model::first_named(shape_v(t).children, "Normals".spec_bytes()) is None,
        },
{
    reveal_strlit("Indexes");
    reveal_strlit("Vertices");
    reveal_strlit("Normals");
    crate::ascii::lemma_ascii_literal("Indexes");
    crate::ascii::lemma_ascii_literal("Vertices");
    crate::ascii::lemma_ascii_literal("Normals");
    let ix = "Indexes".spec_bytes();
    let vx = "Vertices".spec_bytes();
    let nm = "Normals".spec_bytes();
    assert(ix.len() == 7 && vx.len() == 8 && nm.len() == 7);
    assert(ix[0] != nm[0]);
    assert(ix != vx && ix != nm && vx != nm);
    let cs = shape_v(t).children;
    let d1 = cs.drop_first();
    let d2 = d1.drop_first();
    assert(cs[0].name == ix && cs[1].name == vx);
    assert(crate::model::first_named(cs, ix) == Some(cs[0]));
    assert(crate::model::first_named(cs, vx) == crate::model::first_named(d1, vx));
    assert(crate::model::first_named(d1, vx) == Some(cs[1]));
    assert(crate::model::first_named(cs, nm) == crate::model::first_named(d1, nm));
    assert(crate::model::first_named(d1, nm) == crate::model::first_named(d2, nm));
    match t.normals {
        Some(n) => {
            assert(d2 =~= seq![cs[2]]);
            assert(cs[2].name == nm);
            assert(crate::model::first_named(d2, nm) == Some(cs[2]));
        }
        None => {
            assert(d2 =~= Seq::<NodeV>::empty());
        }
    }
}

} // verus!
