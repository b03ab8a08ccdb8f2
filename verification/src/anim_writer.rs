//! The animation graph written out: `AnimationStack`, `AnimationLayer`,
//! `AnimationCurveNode` and `AnimationCurve` elements with the `OO` /
//! `OP` connections that chain them (the shape [`crate::animation`]
//! reads).

use vstd::prelude::*;
use vstd::string::StringSliceAdditionalSpecFns;
use vstd::utf8::encode_utf8;
use crate::animation::curve_keys_of;
use crate::objects::obj_id;
use crate::model::{first_named, node_view, nodes_view, props_view, FbxNode, FbxProperty, NodeV, PropV};

verus! {

/// One curve to write: its id, the component it drives (`d|X`, ...),
/// its key times in ticks and its key values as `f32` bit patterns.
#[derive(Debug)]
pub struct CurveEmit {
    pub id: i64,
    pub axis: String,
    pub times: Vec<i64>,
    pub values: Vec<u32>,
}

/// One curve node to write: its id, the element and property it drives
/// (the property also names the node), and its curves.
#[derive(Debug)]
pub struct CurveNodeEmit {
    pub id: i64,
    pub target: i64,
    pub property: String,
    pub curves: Vec<CurveEmit>,
}

/// One stack to write, with its single layer and its curve nodes.
#[derive(Debug)]
pub struct StackEmit {
    pub id: i64,
    pub name: String,
    pub layer_id: i64,
    pub curve_nodes: Vec<CurveNodeEmit>,
}

/// An element `class: id, "name\x00\x01class", ""` with `children`.
pub open spec fn element_v(class: Seq<u8>, id: i64, name: Seq<u8>, children: Seq<NodeV>) -> NodeV {
    NodeV {
        name: class,
        properties: seq![PropV::I64(id), PropV::Str(name + seq![0x00u8, 0x01u8] + class), PropV::Str(Seq::empty())],
        children,
    }
}

/// A leaf holding one property.
pub open spec fn leaf_v(name: Seq<u8>, p: PropV) -> NodeV {
    NodeV { name, properties: seq![p], children: Seq::empty() }
}

/// The `AnimationCurve` element of a curve: its `KeyTime` ticks and its
/// `KeyValueFloat` values.
pub open spec fn curve_v(c: CurveEmit) -> NodeV {
    NodeV {
        name: "AnimationCurve".spec_bytes(),
        properties: seq![
            PropV::I64(c.id),
            PropV::Str(seq![0x00u8, 0x01u8] + "AnimCurve".spec_bytes()),
            PropV::Str(Seq::empty()),
        ],
        children: seq![
            leaf_v("KeyTime".spec_bytes(), PropV::I64Array(c.times@)),
            leaf_v("KeyValueFloat".spec_bytes(), PropV::F32Array(c.values@)),
        ],
    }
}

/// `C: "OO", child, parent`.
pub open spec fn oo_v(child: i64, parent: i64) -> NodeV {
    NodeV { name: "C".spec_bytes(), properties: seq![PropV::Str("OO".spec_bytes()), PropV::I64(child), PropV::I64(parent)], children: Seq::empty() }
}

/// `C: "OP", child, parent, "property"`.
pub open spec fn op_v(child: i64, parent: i64, property: Seq<u8>) -> NodeV {
    NodeV {
        name: "C".spec_bytes(),
        properties: seq![PropV::Str("OP".spec_bytes()), PropV::I64(child), PropV::I64(parent), PropV::Str(property)],
        children: Seq::empty(),
    }
}

/// The elements a curve node writes: the node, then its curves.
pub open spec fn node_objects(n: CurveNodeEmit) -> Seq<NodeV> {
    seq![element_v("AnimationCurveNode".spec_bytes(), n.id, encode_utf8(n.property@), Seq::empty())]
        + n.curves@.map_values(|c: CurveEmit| curve_v(c))
}

/// The connections a curve node writes: node to target under its
/// property name, node to layer, then each curve to the node under its
/// component name.
pub open spec fn node_connections(n: CurveNodeEmit, layer: i64) -> Seq<NodeV> {
    seq![op_v(n.id, n.target, encode_utf8(n.property@)), oo_v(n.id, layer)]
        + n.curves@.map_values(|c: CurveEmit| op_v(c.id, n.id, encode_utf8(c.axis@)))
}

/// The elements the first `i` curve nodes write.
pub open spec fn nodes_objects(ns: Seq<CurveNodeEmit>, i: int) -> Seq<NodeV>
    decreases i,
{
    if i <= 0 { Seq::empty() } else { nodes_objects(ns, i - 1) + node_objects(ns[i - 1]) }
}

/// The connections the first `i` curve nodes write.
pub open spec fn nodes_connections(ns: Seq<CurveNodeEmit>, i: int, layer: i64) -> Seq<NodeV>
    decreases i,
{
    if i <= 0 { Seq::empty() } else { nodes_connections(ns, i - 1, layer) + node_connections(ns[i - 1], layer) }
}

/// The elements a stack writes: the stack, its `BaseLayer`, then its
/// curve nodes'.
pub open spec fn stack_objects(s: StackEmit) -> Seq<NodeV> {
    seq![
        element_v("AnimationStack".spec_bytes(), s.id, encode_utf8(s.name@), Seq::empty()),
        element_v("AnimationLayer".spec_bytes(), s.layer_id, "BaseLayer".spec_bytes(), Seq::empty()),
    ] + nodes_objects(s.curve_nodes@, s.curve_nodes@.len() as int)
}

/// The connections a stack writes: layer to stack, then its curve
/// nodes'.
pub open spec fn stack_connections(s: StackEmit) -> Seq<NodeV> {
    seq![oo_v(s.layer_id, s.id)] + nodes_connections(s.curve_nodes@, s.curve_nodes@.len() as int, s.layer_id)
}

/// The elements the first `i` stacks write.
pub open spec fn stacks_objects(ss: Seq<StackEmit>, i: int) -> Seq<NodeV>
    decreases i,
{
    if i <= 0 { Seq::empty() } else { stacks_objects(ss, i - 1) + stack_objects(ss[i - 1]) }
}

/// The connections the first `i` stacks write.
pub open spec fn stacks_connections(ss: Seq<StackEmit>, i: int) -> Seq<NodeV>
    decreases i,
{
    if i <= 0 { Seq::empty() } else { stacks_connections(ss, i - 1) + stack_connections(ss[i - 1]) }
}

fn str_bytes(s: &str) -> (v: Vec<u8>)
    ensures v@ == s.spec_bytes(),
{
    let b = s.as_bytes();
    let v = crate::bytes::copy_range(b, 0, b.len());
    assert(b@.subrange(0, b@.len() as int) =~= b@);
    v
}

fn leaf(name: &str, p: FbxProperty) -> (n: FbxNode)
    ensures node_view(n) == leaf_v(name.spec_bytes(), p.view_prop()),
{
    let mut ps: Vec<FbxProperty> = Vec::new();
    ps.push(p);
    let n = FbxNode { name: name.to_string(), properties: ps, children: Vec::new() };
    assert(props_view(n.properties@) =~= seq![p.view_prop()]);
    assert(nodes_view(n.children@) =~= Seq::<NodeV>::empty());
    n
}

fn element(class: &str, id: i64, name: &str) -> (n: FbxNode)
    ensures node_view(n) == element_v(class.spec_bytes(), id, name.spec_bytes(), Seq::empty()),
{
    let mut ps: Vec<FbxProperty> = Vec::new();
    ps.push(FbxProperty::I64(id));
    ps.push(FbxProperty::String(crate::names::name_class(name, class)));
    ps.push(FbxProperty::String(Vec::new()));
    let n = FbxNode { name: class.to_string(), properties: ps, children: Vec::new() };
    assert(props_view(n.properties@) =~= element_v(class.spec_bytes(), id, name.spec_bytes(), Seq::empty()).properties);
    assert(nodes_view(n.children@) =~= Seq::<NodeV>::empty());
    n
}

fn conn_oo(child: i64, parent: i64) -> (n: FbxNode)
    ensures node_view(n) == oo_v(child, parent),
{
    let mut ps: Vec<FbxProperty> = Vec::new();
    ps.push(FbxProperty::String(str_bytes("OO")));
    ps.push(FbxProperty::I64(child));
    ps.push(FbxProperty::I64(parent));
    let n = FbxNode { name: "C".to_string(), properties: ps, children: Vec::new() };
    assert(props_view(n.properties@) =~= oo_v(child, parent).properties);
    assert(nodes_view(n.children@) =~= Seq::<NodeV>::empty());
    n
}

fn conn_op(child: i64, parent: i64, property: &str) -> (n: FbxNode)
    ensures node_view(n) == op_v(child, parent, property.spec_bytes()),
{
    let mut ps: Vec<FbxProperty> = Vec::new();
    ps.push(FbxProperty::String(str_bytes("OP")));
    ps.push(FbxProperty::I64(child));
    ps.push(FbxProperty::I64(parent));
    ps.push(FbxProperty::String(str_bytes(property)));
    let n = FbxNode { name: "C".to_string(), properties: ps, children: Vec::new() };
    assert(props_view(n.properties@) =~= op_v(child, parent, property.spec_bytes()).properties);
    assert(nodes_view(n.children@) =~= Seq::<NodeV>::empty());
    n
}

fn copy_i64s(a: &Vec<i64>) -> (r: Vec<i64>)
    ensures r@ == a@,
{
    let mut out: Vec<i64> = Vec::new();
    let mut i: usize = 0;
    while i < a.len()
        invariant
            i <= a@.len(),
            out@ == a@.subrange(0, i as int),
        decreases a@.len() - i,
    {
        out.push(a[i]);
        i += 1;
        assert(out@ =~= a@.subrange(0, i as int));
    }
    assert(a@.subrange(0, i as int) =~= a@);
    out
}

fn copy_u32s(a: &Vec<u32>) -> (r: Vec<u32>)
    ensures r@ == a@,
{
    let mut out: Vec<u32> = Vec::new();
    let mut i: usize = 0;
    while i < a.len()
        invariant
            i <= a@.len(),
            out@ == a@.subrange(0, i as int),
        decreases a@.len() - i,
    {
        out.push(a[i]);
        i += 1;
        assert(out@ =~= a@.subrange(0, i as int));
    }
    assert(a@.subrange(0, i as int) =~= a@);
    out
}

/// The `AnimationCurve` element of a curve (see [`curve_v`]).
pub fn build_curve(c: &CurveEmit) -> (n: FbxNode)
    ensures node_view(n) == curve_v(*c),
{
    let mut ps: Vec<FbxProperty> = Vec::new();
    ps.push(FbxProperty::I64(c.id));
    ps.push(FbxProperty::String(crate::names::name_class("", "AnimCurve")));
    ps.push(FbxProperty::String(Vec::new()));
    let t = leaf("KeyTime", FbxProperty::I64Array(copy_i64s(&c.times)));
    let v = leaf("KeyValueFloat", FbxProperty::F32Array(copy_u32s(&c.values)));
    let mut children: Vec<FbxNode> = Vec::new();
    children.push(t);
    children.push(v);
    proof {
        reveal_strlit("");
        assert("".spec_bytes() =~= Seq::<u8>::empty()) by { crate::ascii::lemma_ascii_literal(""); }
        crate::model::lemma_nodes_view_push(Seq::empty(), t);
        crate::model::lemma_nodes_view_push(seq![t], v);
        assert(seq![t].push(v) =~= children@);
    }
    let n = FbxNode { name: "AnimationCurve".to_string(), properties: ps, children };
    assert(props_view(n.properties@) =~= curve_v(*c).properties);
    assert(nodes_view(n.children@) =~= curve_v(*c).children);
    n
}

/// The elements and connections of the given stacks (see
/// [`stacks_objects`] and [`stacks_connections`]).
pub fn build_animation_objects(stacks: &[StackEmit]) -> (r: (Vec<FbxNode>, Vec<FbxNode>))
    ensures
        nodes_view(r.0@) == stacks_objects(stacks@, stacks@.len() as int),
        nodes_view(r.1@) == stacks_connections(stacks@, stacks@.len() as int),
{
    let mut objects: Vec<FbxNode> = Vec::new();
    let mut connections: Vec<FbxNode> = Vec::new();
    let mut i: usize = 0;
    proof {
        assert(nodes_view(objects@) =~= Seq::<NodeV>::empty());
        assert(nodes_view(connections@) =~= Seq::<NodeV>::empty());
    }
    while i < stacks.len()
        invariant
            i <= stacks@.len(),
            nodes_view(objects@) == stacks_objects(stacks@, i as int),
            nodes_view(connections@) == stacks_connections(stacks@, i as int),
        decreases stacks@.len() - i,
    {
        let s = &stacks[i];
        let ghost obase = nodes_view(objects@);
        let ghost cbase = nodes_view(connections@);
        push_node(&mut objects, element("AnimationStack", s.id, s.name.as_str()));
        push_node(&mut objects, element("AnimationLayer", s.layer_id, "BaseLayer"));
        push_node(&mut connections, conn_oo(s.layer_id, s.id));
        let ghost obase2 = nodes_view(objects@);
        let ghost cbase2 = nodes_view(connections@);
        let mut j: usize = 0;
        while j < s.curve_nodes.len()
            invariant
                j <= s.curve_nodes@.len(),
                nodes_view(objects@) == obase2 + nodes_objects(s.curve_nodes@, j as int),
                nodes_view(connections@) == cbase2 + nodes_connections(s.curve_nodes@, j as int, s.layer_id),
            decreases s.curve_nodes@.len() - j,
        {
            let cn = &s.curve_nodes[j];
            let ghost ob = nodes_view(objects@);
            let ghost cb = nodes_view(connections@);
            push_node(&mut objects, element("AnimationCurveNode", cn.id, cn.property.as_str()));
            push_node(&mut connections, conn_op(cn.id, cn.target, cn.property.as_str()));
            push_node(&mut connections, conn_oo(cn.id, s.layer_id));
            let ghost ob2 = nodes_view(objects@);
            let ghost cb2 = nodes_view(connections@);
            let mut k: usize = 0;
            while k < cn.curves.len()
                invariant
                    k <= cn.curves@.len(),
                    nodes_view(objects@) == ob2 + cn.curves@.subrange(0, k as int).map_values(|c: CurveEmit| curve_v(c)),
                    nodes_view(connections@) == cb2 + cn.curves@.subrange(0, k as int).map_values(|c: CurveEmit| op_v(c.id, cn.id, encode_utf8(c.axis@))),
                decreases cn.curves@.len() - k,
            {
                let c = &cn.curves[k];
                let ghost o3 = nodes_view(objects@);
                let ghost c3 = nodes_view(connections@);
                push_node(&mut objects, build_curve(c));
                push_node(&mut connections, conn_op(c.id, cn.id, c.axis.as_str()));
                k += 1;
                proof {
                    assert(cn.curves@.subrange(0, k as int).map_values(|c: CurveEmit| curve_v(c))
                        =~= cn.curves@.subrange(0, k - 1).map_values(|c: CurveEmit| curve_v(c)).push(curve_v(cn.curves@[k - 1])));
                    assert(cn.curves@.subrange(0, k as int).map_values(|c: CurveEmit| op_v(c.id, cn.id, encode_utf8(c.axis@)))
                        =~= cn.curves@.subrange(0, k - 1).map_values(|c: CurveEmit| op_v(c.id, cn.id, encode_utf8(c.axis@)))
                            .push(op_v(cn.curves@[k - 1].id, cn.id, encode_utf8(cn.curves@[k - 1].axis@))));
                    assert(nodes_view(objects@) =~= ob2 + cn.curves@.subrange(0, k as int).map_values(|c: CurveEmit| curve_v(c)));
                    assert(nodes_view(connections@) =~= cb2 + cn.curves@.subrange(0, k as int).map_values(|c: CurveEmit| op_v(c.id, cn.id, encode_utf8(c.axis@))));
                }
            }
            j += 1;
            proof {
                assert(cn.curves@.subrange(0, k as int) =~= cn.curves@);
                assert(nodes_view(objects@) =~= obase2 + nodes_objects(s.curve_nodes@, j as int));
                assert(nodes_view(connections@) =~= cbase2 + nodes_connections(s.curve_nodes@, j as int, s.layer_id));
            }
        }
        i += 1;
        proof {
            assert(nodes_view(objects@) =~= stacks_objects(stacks@, i as int));
            assert(nodes_view(connections@) =~= stacks_connections(stacks@, i as int));
        }
    }
    (objects, connections)
}

fn push_node(v: &mut Vec<FbxNode>, n: FbxNode)
    ensures nodes_view(final(v)@) == nodes_view(old(v)@).push(node_view(n)),
{
    let ghost before = v@;
    v.push(n);
    proof { crate::model::lemma_nodes_view_push(before, n); }
}

/// A written curve reads back with its id and, when it has one value
/// per time, exactly its key times and values.
pub proof fn lemma_curve_keys_round_trip(c: CurveEmit)
    ensures
        obj_id(curve_v(c)) == Some(c.id),
        c.times@.len() == c.values@.len() ==> curve_keys_of(curve_v(c)) == Some((c.times@, PropV::F32Array(c.values@))),
        c.times@.len() != c.values@.len() ==> curve_keys_of(curve_v(c)) is None,
{
    let n = curve_v(c);
    reveal_strlit("KeyTime");
    reveal_strlit("KeyValueFloat");
    crate::ascii::lemma_ascii_literal("KeyTime");
    crate::ascii::lemma_ascii_literal("KeyValueFloat");
    assert("KeyTime".spec_bytes().len() == 7);
    assert("KeyValueFloat".spec_bytes().len() == 13);
    assert(n.children[0].name != "KeyValueFloat".spec_bytes());
    assert(n.children.drop_first() =~= seq![n.children[1]]);
    assert(first_named(n.children, "KeyTime".spec_bytes()) == Some(n.children[0]));
    assert(first_named(n.children.drop_first(), "KeyValueFloat".spec_bytes()) == Some(n.children[1]));
    assert(first_named(n.children, "KeyValueFloat".spec_bytes()) == Some(n.children[1]));
}

} // verus!
