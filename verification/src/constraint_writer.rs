//! Constraint records written back: `P` records from their tagged
//! form, `Constraint` elements with their `OP` target edges, and the
//! per-kind `PropertyTemplate` blocks.

use vstd::prelude::*;
use vstd::string::StringSliceAdditionalSpecFns;
use vstd::utf8::encode_utf8;
use crate::constraint::{
    name_of, op_targets, TargetV, kind_string, own_records, records_fold, template_of, template_view, p_record_of, p_record_view, records_view, tag_of, tag_view, tags_fold, ConstraintTemplate, PRecord,
    PRecordV, TagV, TaggedValue,
};
use crate::model::{first_named, clone_real, node_view, nodes_view, props_view, FbxNode, FbxProperty, NodeV, PropV};
use crate::definitions::leaf_int;
use crate::material::{opt_bytes, string_child};
use crate::names::{find_byte, spec_element_name};
use crate::objects::obj_id;

verus! {

/// The property a tagged value is written as: an integer as `I` when it
/// fits `i32` and as `L` otherwise, text as its UTF-8 bytes, the rest as
/// they are.
pub open spec fn tag_prop(t: TagV) -> PropV {
    match t {
        TagV::Bool(b) => PropV::Bool(b),
        TagV::Int(n) => if i32::MIN <= n <= i32::MAX { PropV::I32(n as i32) } else { PropV::I64(n) },
        TagV::Float32(x) => PropV::F32(x),
        TagV::Float64(r) => PropV::F64(r),
        TagV::Text(s) => PropV::Str(encode_utf8(s)),
    }
}

/// The properties of a written `P` record: its four strings, then its
/// values.
pub open spec fn p_record_props(r: PRecordV) -> Seq<PropV> {
    seq![
        PropV::Str(encode_utf8(r.name)),
        PropV::Str(encode_utf8(r.record_type)),
        PropV::Str(encode_utf8(r.label)),
        PropV::Str(encode_utf8(r.flags)),
    ] + r.values.map_values(|t: TagV| tag_prop(t))
}

/// The `P` node a record is written as.
pub open spec fn p_record_node_v(r: PRecordV) -> NodeV {
    NodeV { name: "P".spec_bytes(), properties: p_record_props(r), children: Seq::empty() }
}

/// The bytes of a string.
fn string_bytes(s: &String) -> (v: Vec<u8>)
    ensures v@ == encode_utf8(s@),
{
    let b = s.as_str().as_bytes();
    let v = crate::bytes::copy_range(b, 0, b.len());
    assert(b@.subrange(0, b@.len() as int) =~= b@);
    v
}

fn tag_property(t: &TaggedValue) -> (p: FbxProperty)
    ensures p.view_prop() == tag_prop(tag_view(*t)),
{
    match t {
        TaggedValue::Bool(b) => FbxProperty::Bool(*b),
        TaggedValue::Int(n) => {
            if -2147483648i64 <= *n && *n <= 2147483647i64 {
                FbxProperty::I32(*n as i32)
            } else {
                FbxProperty::I64(*n)
            }
        }
        TaggedValue::Float32(x) => FbxProperty::F32(*x),
        TaggedValue::Float64(r) => FbxProperty::F64(clone_real(r)),
        TaggedValue::Text(s) => FbxProperty::String(string_bytes(s)),
    }
}

/// The `P` node of a record (see [`p_record_node_v`]).
pub fn p_record_node(r: &PRecord) -> (n: FbxNode)
    ensures node_view(n) == p_record_node_v(p_record_view(*r)),
{
    let mut properties: Vec<FbxProperty> = Vec::new();
    properties.push(FbxProperty::String(string_bytes(&r.name)));
    properties.push(FbxProperty::String(string_bytes(&r.record_type)));
    properties.push(FbxProperty::String(string_bytes(&r.label)));
    properties.push(FbxProperty::String(string_bytes(&r.flags)));
    let ghost head = props_view(properties@);
    let ghost vals = r.values@.map_values(|t: TaggedValue| tag_view(t));
    assert(head =~= p_record_props(p_record_view(*r)).subrange(0, 4));
    let mut i: usize = 0;
    while i < r.values.len()
        invariant
            i <= r.values@.len(),
            vals == r.values@.map_values(|t: TaggedValue| tag_view(t)),
            head == p_record_props(p_record_view(*r)).subrange(0, 4),
            props_view(properties@) == head + vals.subrange(0, i as int).map_values(|t: TagV| tag_prop(t)),
        decreases r.values@.len() - i,
    {
        let p = tag_property(&r.values[i]);
        let ghost before = properties@;
        properties.push(p);
        i += 1;
        proof {
            assert(props_view(properties@) =~= props_view(before).push(p.view_prop()));
            assert(vals.subrange(0, i as int).map_values(|t: TagV| tag_prop(t))
                =~= vals.subrange(0, i - 1).map_values(|t: TagV| tag_prop(t)).push(tag_prop(vals[i - 1])));
        }
    }
    proof {
        assert(vals.subrange(0, i as int) =~= vals);
        assert(props_view(properties@) =~= p_record_props(p_record_view(*r)));
        assert(nodes_view(Seq::<FbxNode>::empty()) =~= Seq::<NodeV>::empty());
    }
    FbxNode { name: "P".to_string(), properties, children: Vec::new() }
}

proof fn lemma_tags_of_written(vals: Seq<TagV>, i: int)
    requires 0 <= i <= vals.len(),
    ensures
        ({
            let ps = seq![PropV::Bool(false), PropV::Bool(false), PropV::Bool(false), PropV::Bool(false)]
                + vals.map_values(|t: TagV| tag_prop(t));
            tags_fold(ps, i + 4) == vals.subrange(0, i)
        }),
    decreases i,
{
    let ps = seq![PropV::Bool(false), PropV::Bool(false), PropV::Bool(false), PropV::Bool(false)]
        + vals.map_values(|t: TagV| tag_prop(t));
    if i == 0 {
        assert(vals.subrange(0, 0) =~= Seq::<TagV>::empty());
    } else {
        lemma_tags_of_written(vals, i - 1);
        let t = vals[i - 1];
        assert(ps[i + 3] == tag_prop(t));
        match t {
            TagV::Text(s) => {
                vstd::utf8::encode_utf8_valid_utf8(s);
                vstd::utf8::encode_utf8_decode_utf8(s);
            }
            _ => {}
        }
        assert(tag_of(tag_prop(t)) == Some(t));
        assert(vals.subrange(0, i) =~= vals.subrange(0, i - 1).push(t));
    }
}

proof fn lemma_tags_fold_prefix_free(a: Seq<PropV>, b: Seq<PropV>, i: int)
    requires
        a.len() == b.len(),
        a.len() >= 4,
        a.subrange(4, a.len() as int) == b.subrange(4, b.len() as int),
        i <= a.len(),
    ensures tags_fold(a, i) == tags_fold(b, i),
    decreases i,
{
    if i > 4 {
        lemma_tags_fold_prefix_free(a, b, i - 1);
        assert(a[i - 1] == a.subrange(4, a.len() as int)[i - 5]);
        assert(b[i - 1] == b.subrange(4, b.len() as int)[i - 5]);
    }
}

/// A written `P` record reads back as the record it was written from:
/// strings, values and value kinds all survive (integers re-read as
/// integers whether written as `I` or `L`).
pub proof fn lemma_p_record_round_trip(r: PRecordV)
    ensures p_record_of(p_record_node_v(r)) == Some(r),
{
    let ps = p_record_props(r);
    let filler = seq![PropV::Bool(false), PropV::Bool(false), PropV::Bool(false), PropV::Bool(false)]
        + r.values.map_values(|t: TagV| tag_prop(t));
    lemma_tags_of_written(r.values, r.values.len() as int);
    assert(ps.subrange(4, ps.len() as int) =~= filler.subrange(4, filler.len() as int));
    lemma_tags_fold_prefix_free(ps, filler, ps.len() as int);
    assert(r.values.subrange(0, r.values.len() as int) =~= r.values);
    vstd::utf8::encode_utf8_valid_utf8(r.name);
    vstd::utf8::encode_utf8_decode_utf8(r.name);
    vstd::utf8::encode_utf8_valid_utf8(r.record_type);
    vstd::utf8::encode_utf8_decode_utf8(r.record_type);
    vstd::utf8::encode_utf8_valid_utf8(r.label);
    vstd::utf8::encode_utf8_decode_utf8(r.label);
    vstd::utf8::encode_utf8_valid_utf8(r.flags);
    vstd::utf8::encode_utf8_decode_utf8(r.flags);
    assert(ps[0] == PropV::Str(encode_utf8(r.name)));
    assert(ps[1] == PropV::Str(encode_utf8(r.record_type)));
    assert(ps[2] == PropV::Str(encode_utf8(r.label)));
    assert(ps[3] == PropV::Str(encode_utf8(r.flags)));
}

// ---------------------------------------------------------------------
// Constraint elements and templates
// ---------------------------------------------------------------------

/// A target slot of a constraint to write: the slot name and, when the
/// scene holds the source, the index of its scene node.
#[derive(Debug)]
pub struct SlotTarget {
    pub slot: String,
    pub node: Option<usize>,
}

/// A constraint as a scene carries it, to be written back: element
/// name, kind display string, `Type` and `MultiLayer` leaves, own `P`
/// records and target slots.
#[derive(Debug)]
pub struct ConstraintRecord {
    pub name: String,
    pub kind: String,
    pub kind_leaf: Option<String>,
    pub multi_layer: Option<i64>,
    pub properties: Vec<PRecord>,
    pub targets: Vec<SlotTarget>,
}

/// A leaf holding one string.
pub open spec fn str_leaf_v(name: Seq<u8>, s: Seq<char>) -> NodeV {
    NodeV { name, properties: seq![PropV::Str(encode_utf8(s))], children: Seq::empty() }
}

/// A `Properties70` block holding the written records.
pub open spec fn p70_v(records: Seq<PRecordV>) -> NodeV {
    NodeV {
        name: "Properties70".spec_bytes(),
        properties: Seq::empty(),
        children: records.map_values(|r: PRecordV| p_record_node_v(r)),
    }
}

/// The `MultiLayer` leaf: the flag written as `I` (truncated to 32 bits).
pub open spec fn multi_layer_v(ml: i64) -> NodeV {
    NodeV { name: "MultiLayer".spec_bytes(), properties: seq![PropV::I32(ml as i32)], children: Seq::empty() }
}

/// The children of a written constraint: its `Type` leaf, its
/// `MultiLayer` leaf, and its `Properties70` block when it has records.
pub open spec fn constraint_children(r: ConstraintRecord) -> Seq<NodeV> {
    let t = match r.kind_leaf {
        Some(s) => seq![str_leaf_v("Type".spec_bytes(), s@)],
        None => Seq::empty(),
    };
    let m = match r.multi_layer {
        Some(ml) => seq![multi_layer_v(ml)],
        None => Seq::empty(),
    };
    let p = if r.properties@.len() > 0 { seq![p70_v(records_view(r.properties@))] } else { Seq::empty() };
    t + m + p
}

/// The binary display name of a constraint: `name\x00\x01Constraint`.
pub open spec fn display_bytes(name: Seq<char>) -> Seq<u8> {
    encode_utf8(name) + seq![0x00u8, 0x01u8] + "Constraint".spec_bytes()
}

/// The `Constraint` element written for `r` under id `id`.
pub open spec fn constraint_node_v(r: ConstraintRecord, id: i64) -> NodeV {
    NodeV {
        name: "Constraint".spec_bytes(),
        properties: seq![PropV::I64(id), PropV::Str(display_bytes(r.name@)), PropV::Str(encode_utf8(r.kind@))],
        children: constraint_children(r),
    }
}

/// The FBX id of scene node `node`, when the table gives it one.
pub open spec fn fbx_id_of(node_ids: Seq<Option<i64>>, node: usize) -> Option<i64> {
    if node < node_ids.len() { node_ids[node as int] } else { None }
}

/// The connection `C: "OP", source, id, "slot"`.
pub open spec fn op_edge_v(source: i64, id: i64, slot: Seq<char>) -> NodeV {
    NodeV {
        name: "C".spec_bytes(),
        properties: seq![PropV::Str("OP".spec_bytes()), PropV::I64(source), PropV::I64(id), PropV::Str(encode_utf8(slot))],
        children: Seq::empty(),
    }
}

/// The edges of the first `i` targets of constraint `id`: one for each
/// target whose scene node has an FBX id.
pub open spec fn target_edges(ts: Seq<SlotTarget>, i: int, id: i64, node_ids: Seq<Option<i64>>) -> Seq<NodeV>
    decreases i,
{
    if i <= 0 {
        Seq::empty()
    } else {
        let prev = target_edges(ts, i - 1, id, node_ids);
        match ts[i - 1].node {
            Some(ni) => match fbx_id_of(node_ids, ni) {
                Some(src) => prev.push(op_edge_v(src, id, ts[i - 1].slot@)),
                None => prev,
            },
            None => prev,
        }
    }
}

/// The edges of the first `i` constraints, the `k`-th under id `ids[k]`.
pub open spec fn constraint_edges(rs: Seq<ConstraintRecord>, i: int, ids: Seq<i64>, node_ids: Seq<Option<i64>>) -> Seq<NodeV>
    decreases i,
{
    if i <= 0 {
        Seq::empty()
    } else {
        constraint_edges(rs, i - 1, ids, node_ids)
            + target_edges(rs[i - 1].targets@, rs[i - 1].targets@.len() as int, ids[i - 1], node_ids)
    }
}

/// The bytes of a string slice.
fn str_bytes(s: &str) -> (v: Vec<u8>)
    ensures v@ == s.spec_bytes(),
{
    let b = s.as_bytes();
    let v = crate::bytes::copy_range(b, 0, b.len());
    assert(b@.subrange(0, b@.len() as int) =~= b@);
    v
}

fn leaf_node(name: &str, properties: Vec<FbxProperty>) -> (n: FbxNode)
    ensures node_view(n) == (NodeV { name: name.spec_bytes(), properties: props_view(properties@), children: Seq::empty() }),
{
    let n = FbxNode { name: name.to_string(), properties, children: Vec::new() };
    assert(nodes_view(n.children@) =~= Seq::<NodeV>::empty());
    n
}

fn str_leaf(name: &str, s: &String) -> (n: FbxNode)
    ensures node_view(n) == str_leaf_v(name.spec_bytes(), s@),
{
    let mut ps: Vec<FbxProperty> = Vec::new();
    ps.push(FbxProperty::String(string_bytes(s)));
    let n = leaf_node(name, ps);
    assert(node_view(n).properties =~= seq![PropV::Str(encode_utf8(s@))]);
    n
}

pub(crate) fn p70_node(records: &Vec<PRecord>) -> (n: FbxNode)
    ensures node_view(n) == p70_v(records_view(records@)),
{
    let ghost rv = records_view(records@);
    let mut children: Vec<FbxNode> = Vec::new();
    let mut i: usize = 0;
    while i < records.len()
        invariant
            i <= records@.len(),
            rv == records_view(records@),
            nodes_view(children@) == rv.subrange(0, i as int).map_values(|r: PRecordV| p_record_node_v(r)),
        decreases records@.len() - i,
    {
        let c = p_record_node(&records[i]);
        let ghost before = children@;
        children.push(c);
        i += 1;
        proof {
            crate::model::lemma_nodes_view_push(before, c);
            assert(rv.subrange(0, i as int).map_values(|r: PRecordV| p_record_node_v(r))
                =~= rv.subrange(0, i - 1).map_values(|r: PRecordV| p_record_node_v(r)).push(p_record_node_v(rv[i - 1])));
        }
    }
    proof { assert(rv.subrange(0, i as int) =~= rv); }
    let n = FbxNode { name: "Properties70".to_string(), properties: Vec::new(), children };
    assert(props_view(n.properties@) =~= Seq::<PropV>::empty());
    n
}

/// The `Constraint` element of `r` under id `id` (see
/// [`constraint_node_v`]).
pub fn constraint_node(r: &ConstraintRecord, id: i64) -> (n: FbxNode)
    ensures node_view(n) == constraint_node_v(*r, id),
{
    let mut children: Vec<FbxNode> = Vec::new();
    let ghost t = if r.kind_leaf is Some { seq![str_leaf_v("Type".spec_bytes(), r.kind_leaf->Some_0@)] } else { Seq::<NodeV>::empty() };
    let ghost m = if r.multi_layer is Some { seq![multi_layer_v(r.multi_layer->Some_0)] } else { Seq::<NodeV>::empty() };
    match &r.kind_leaf {
        Some(s) => {
            let c = str_leaf("Type", s);
            children.push(c);
            proof { crate::model::lemma_nodes_view_push(Seq::empty(), c); }
        }
        None => {}
    }
    assert(nodes_view(children@) =~= t);
    match r.multi_layer {
        Some(ml) => {
            let mut ps: Vec<FbxProperty> = Vec::new();
            ps.push(FbxProperty::I32(ml as i32));
            let c = leaf_node("MultiLayer", ps);
            let ghost before = children@;
            children.push(c);
            proof {
                crate::model::lemma_nodes_view_push(before, c);
                assert(node_view(c).properties =~= seq![PropV::I32(ml as i32)]);
            }
        }
        None => {}
    }
    assert(nodes_view(children@) =~= t + m);
    if r.properties.len() > 0 {
        let c = p70_node(&r.properties);
        let ghost before = children@;
        children.push(c);
        proof { crate::model::lemma_nodes_view_push(before, c); }
    }
    assert(nodes_view(children@) =~= constraint_children(*r));
    let mut properties: Vec<FbxProperty> = Vec::new();
    properties.push(FbxProperty::I64(id));
    properties.push(FbxProperty::String(crate::names::name_class(r.name.as_str(), "Constraint")));
    properties.push(FbxProperty::String(string_bytes(&r.kind)));
    let n = FbxNode { name: "Constraint".to_string(), properties, children };
    assert(props_view(n.properties@) =~= constraint_node_v(*r, id).properties);
    n
}

fn op_edge(source: i64, id: i64, slot: &String) -> (n: FbxNode)
    ensures node_view(n) == op_edge_v(source, id, slot@),
{
    let mut ps: Vec<FbxProperty> = Vec::new();
    ps.push(FbxProperty::String(str_bytes("OP")));
    ps.push(FbxProperty::I64(source));
    ps.push(FbxProperty::I64(id));
    ps.push(FbxProperty::String(string_bytes(slot)));
    let n = leaf_node("C", ps);
    assert(node_view(n).properties =~= op_edge_v(source, id, slot@).properties);
    n
}

fn lookup_node(node_ids: &[Option<i64>], node: usize) -> (r: Option<i64>)
    ensures r == fbx_id_of(node_ids@, node),
{
    if node < node_ids.len() { node_ids[node] } else { None }
}

/// The `Constraint` elements and `OP` connections that write `records`
/// back, the `k`-th constraint under the fresh id `ids[k]`; a target
/// whose scene node has no FBX id in `node_ids` writes no connection.
pub fn build_constraint_objects(records: &[ConstraintRecord], node_ids: &[Option<i64>], ids: &[i64])
    -> (r: (Vec<FbxNode>, Vec<FbxNode>))
    requires ids@.len() == records@.len(),
    ensures
        nodes_view(r.0@) == Seq::new(records@.len(), |k: int| constraint_node_v(records@[k], ids@[k])),
        nodes_view(r.1@) == constraint_edges(records@, records@.len() as int, ids@, node_ids@),
{
    let mut objects: Vec<FbxNode> = Vec::new();
    let mut connections: Vec<FbxNode> = Vec::new();
    let mut i: usize = 0;
    while i < records.len()
        invariant
            i <= records@.len(),
            ids@.len() == records@.len(),
            nodes_view(objects@) == Seq::new(i as nat, |k: int| constraint_node_v(records@[k], ids@[k])),
            nodes_view(connections@) == constraint_edges(records@, i as int, ids@, node_ids@),
        decreases records@.len() - i,
    {
        let rec = &records[i];
        let id = ids[i];
        let o = constraint_node(rec, id);
        let ghost before_o = objects@;
        objects.push(o);
        proof {
            crate::model::lemma_nodes_view_push(before_o, o);
            assert(nodes_view(objects@) =~= Seq::new((i + 1) as nat, |k: int| constraint_node_v(records@[k], ids@[k])));
        }
        let ghost base = nodes_view(connections@);
        let mut j: usize = 0;
        while j < rec.targets.len()
            invariant
                j <= rec.targets@.len(),
                nodes_view(connections@) == base + target_edges(rec.targets@, j as int, id, node_ids@),
            decreases rec.targets@.len() - j,
        {
            let t = &rec.targets[j];
            match t.node {
                Some(ni) => match lookup_node(node_ids, ni) {
                    Some(src) => {
                        let c = op_edge(src, id, &t.slot);
                        let ghost before = connections@;
                        connections.push(c);
                        proof {
                            crate::model::lemma_nodes_view_push(before, c);
                            assert(nodes_view(connections@) =~= base + target_edges(rec.targets@, j + 1, id, node_ids@));
                        }
                    }
                    None => {}
                },
                None => {}
            }
            j += 1;
        }
        i += 1;
    }
    (objects, connections)
}

/// The `PropertyTemplate` block written for a template: its name, and
/// a `Properties70` block holding its records.
pub open spec fn template_node_v(t: ConstraintTemplate) -> NodeV {
    NodeV {
        name: "PropertyTemplate".spec_bytes(),
        properties: seq![PropV::Str(encode_utf8(t.name@))],
        children: seq![p70_v(records_view(t.properties@))],
    }
}

/// The `PropertyTemplate` blocks of the `Constraint` class, one per
/// template, in order.
pub fn constraint_template_nodes(templates: &[ConstraintTemplate]) -> (r: Vec<FbxNode>)
    ensures nodes_view(r@) == templates@.map_values(|t: ConstraintTemplate| template_node_v(t)),
{
    let mut out: Vec<FbxNode> = Vec::new();
    let mut i: usize = 0;
    while i < templates.len()
        invariant
            i <= templates@.len(),
            nodes_view(out@) == templates@.subrange(0, i as int).map_values(|t: ConstraintTemplate| template_node_v(t)),
        decreases templates@.len() - i,
    {
        let t = &templates[i];
        let mut ps: Vec<FbxProperty> = Vec::new();
        ps.push(FbxProperty::String(string_bytes(&t.name)));
        let p70 = p70_node(&t.properties);
        let mut children: Vec<FbxNode> = Vec::new();
        children.push(p70);
        proof { crate::model::lemma_nodes_view_push(Seq::empty(), p70); }
        let n = FbxNode { name: "PropertyTemplate".to_string(), properties: ps, children };
        assert(node_view(n) =~= template_node_v(*t)) by {
            assert(props_view(n.properties@) =~= seq![PropV::Str(encode_utf8(t.name@))]);
            assert(nodes_view(n.children@) =~= seq![p70_v(records_view(t.properties@))]);
        }
        let ghost before = out@;
        out.push(n);
        i += 1;
        proof {
            crate::model::lemma_nodes_view_push(before, n);
            assert(templates@.subrange(0, i as int).map_values(|t: ConstraintTemplate| template_node_v(t))
                =~= templates@.subrange(0, i - 1).map_values(|t: ConstraintTemplate| template_node_v(t)).push(template_node_v(templates@[i - 1])));
        }
    }
    proof { assert(templates@.subrange(0, i as int) =~= templates@); }
    out
}

// ---------------------------------------------------------------------
// Reading back what was written
// ---------------------------------------------------------------------

proof fn lemma_records_of_written(rs: Seq<PRecordV>, i: int)
    requires 0 <= i <= rs.len(),
    ensures records_fold(rs.map_values(|r: PRecordV| p_record_node_v(r)), i) == rs.subrange(0, i),
    decreases i,
{
    if i > 0 {
        lemma_records_of_written(rs, i - 1);
        lemma_p_record_round_trip(rs[i - 1]);
        assert(rs.subrange(0, i) =~= rs.subrange(0, i - 1).push(rs[i - 1]));
    }
}

pub(crate) proof fn lemma_p70_records(rs: Seq<PRecordV>)
    ensures records_fold(p70_v(rs).children, p70_v(rs).children.len() as int) == rs,
{
    lemma_records_of_written(rs, rs.len() as int);
    assert(rs.subrange(0, rs.len() as int) =~= rs);
}

/// A written template reads back as the template it was written from:
/// its name and its records.
pub proof fn lemma_template_round_trip(t: ConstraintTemplate)
    ensures template_of(template_node_v(t)) == template_view(t),
{
    let rs = records_view(t.properties@);
    lemma_p70_records(rs);
    vstd::utf8::encode_utf8_valid_utf8(t.name@);
    let n = template_node_v(t);
    assert(first_named(n.children, "Properties70".spec_bytes()) == Some(p70_v(rs)));
}

pub(crate) proof fn lemma_find_byte_at(b: Seq<u8>, x: u8, i: int, j: int)
    requires
        0 <= i <= j < b.len(),
        b[j] == x,
        forall|k: int| i <= k < j ==> b[k] != x,
    ensures find_byte(b, x, i) == j,
    decreases j - i,
{
    if i < j {
        lemma_find_byte_at(b, x, i + 1, j);
    }
}

/// A written constraint reads back with the id, element name, kind,
/// `Type` leaf and own records it was written with, and with its
/// `MultiLayer` flag truncated to 32 bits. (A name whose UTF-8 holds a
/// NUL byte reads back cut at that byte.)
pub proof fn lemma_constraint_round_trip(r: ConstraintRecord, id: i64)
    requires forall|k: int| 0 <= k < encode_utf8(r.name@).len() ==> encode_utf8(r.name@)[k] != 0u8,
    ensures
        obj_id(constraint_node_v(r, id)) == Some(id),
        spec_element_name(constraint_node_v(r, id).properties) == Some(encode_utf8(r.name@)),
        kind_string(constraint_node_v(r, id)) == encode_utf8(r.kind@),
        string_child(constraint_node_v(r, id), "Type".spec_bytes()) == opt_bytes(r.kind_leaf),
        leaf_int(constraint_node_v(r, id), "MultiLayer".spec_bytes()) == (match r.multi_layer {
            Some(ml) => Some((ml as i32) as i64),
            None => None,
        }),
        own_records(constraint_node_v(r, id)) == records_view(r.properties@),
{
    let n = constraint_node_v(r, id);
    let nm = encode_utf8(r.name@);
    let d = display_bytes(r.name@);
    reveal_strlit("Type");
    reveal_strlit("MultiLayer");
    reveal_strlit("Properties70");
    reveal_strlit("Constraint");
    crate::ascii::lemma_ascii_literal("Type");
    crate::ascii::lemma_ascii_literal("MultiLayer");
    crate::ascii::lemma_ascii_literal("Properties70");
    crate::ascii::lemma_ascii_literal("Constraint");
    assert(d[nm.len() as int] == 0u8);
    lemma_find_byte_at(d, 0u8, 0, nm.len() as int);
    assert(d.subrange(0, nm.len() as int) =~= nm);
    vstd::utf8::encode_utf8_valid_utf8(r.name@);
    vstd::utf8::encode_utf8_valid_utf8(r.kind@);
    let rs = records_view(r.properties@);
    lemma_p70_records(rs);
    let t: Seq<NodeV> = if r.kind_leaf is Some { seq![str_leaf_v("Type".spec_bytes(), r.kind_leaf->Some_0@)] } else { Seq::empty() };
    let m: Seq<NodeV> = if r.multi_layer is Some { seq![multi_layer_v(r.multi_layer->Some_0)] } else { Seq::empty() };
    let p: Seq<NodeV> = if r.properties@.len() > 0 { seq![p70_v(rs)] } else { Seq::empty() };
    let cs = n.children;
    assert(cs == t + m + p);
    assert("Type".spec_bytes().len() == 4);
    assert("MultiLayer".spec_bytes().len() == 10);
    assert("Properties70".spec_bytes().len() == 12);
    assert("Type".spec_bytes() != "MultiLayer".spec_bytes());
    assert("Type".spec_bytes() != "Properties70".spec_bytes());
    assert("MultiLayer".spec_bytes() != "Properties70".spec_bytes());
    if r.kind_leaf is Some {
        vstd::utf8::encode_utf8_valid_utf8(r.kind_leaf->Some_0@);
        assert(first_named(cs, "Type".spec_bytes()) == Some(cs[0]));
    }
    // Past the `Type` leaf, the rest of the children.
    assert(first_named(cs, "MultiLayer".spec_bytes()) == first_named(m + p, "MultiLayer".spec_bytes())) by {
        if r.kind_leaf is Some {
            assert(cs.drop_first() =~= m + p);
        } else {
            assert(cs =~= m + p);
        }
    }
    assert(first_named(cs, "Properties70".spec_bytes()) == first_named(m + p, "Properties70".spec_bytes())) by {
        if r.kind_leaf is Some {
            assert(cs.drop_first() =~= m + p);
        } else {
            assert(cs =~= m + p);
        }
    }
    assert(first_named(m + p, "Properties70".spec_bytes()) == first_named(p, "Properties70".spec_bytes())) by {
        if r.multi_layer is Some {
            assert((m + p).drop_first() =~= p);
        } else {
            assert(m + p =~= p);
        }
    }
    if r.kind_leaf is None {
        assert(first_named(cs, "Type".spec_bytes()) == first_named(m + p, "Type".spec_bytes()));
        assert(first_named(m + p, "Type".spec_bytes()) == first_named(p, "Type".spec_bytes())) by {
            if r.multi_layer is Some {
                assert((m + p).drop_first() =~= p);
            } else {
                assert(m + p =~= p);
            }
        }
        if r.properties@.len() > 0 {
            assert(p.drop_first() =~= Seq::<NodeV>::empty());
        }
    }
    if r.multi_layer is Some {
        assert(first_named(m + p, "MultiLayer".spec_bytes()) == Some(multi_layer_v(r.multi_layer->Some_0)));
    } else {
        assert(m + p =~= p);
        if r.properties@.len() > 0 {
            assert(p.drop_first() =~= Seq::<NodeV>::empty());
        }
    }
    if r.properties@.len() == 0 {
        assert(rs =~= Seq::<PRecordV>::empty());
        assert(p =~= Seq::<NodeV>::empty());
    } else {
        assert(p[0].name == "Properties70".spec_bytes());
        assert(p.drop_first() =~= Seq::<NodeV>::empty());
        assert(first_named(p.drop_first(), "Type".spec_bytes()) is None);
        assert(first_named(p.drop_first(), "MultiLayer".spec_bytes()) is None);
    }
    assert(first_named(p, "Type".spec_bytes()) is None);
    assert(first_named(p, "MultiLayer".spec_bytes()) is None);
    match r.kind_leaf {
        Some(s) => {
            assert(cs[0] == str_leaf_v("Type".spec_bytes(), s@));
            assert(string_child(n, "Type".spec_bytes()) == Some(encode_utf8(s@)));
        }
        None => {
            assert(string_child(n, "Type".spec_bytes()) is None);
        }
    }
    match r.multi_layer {
        Some(ml) => {
            assert((m + p)[0] == multi_layer_v(ml));
            assert(leaf_int(n, "MultiLayer".spec_bytes()) == Some((ml as i32) as i64));
        }
        None => {
            assert(leaf_int(n, "MultiLayer".spec_bytes()) is None);
        }
    }
}

// ---------------------------------------------------------------------
// Targets read back from the written connections
// ---------------------------------------------------------------------

/// The targets the first `i` slot targets of a written constraint read
/// back as: one for each target whose scene node has an FBX id, with
/// its slot name, its source id, and the source's element name in
/// `names`.
pub open spec fn written_targets(ts: Seq<SlotTarget>, i: int, node_ids: Seq<Option<i64>>, names: Map<i64, NodeV>) -> Seq<TargetV>
    decreases i,
{
    if i <= 0 {
        Seq::empty()
    } else {
        let prev = written_targets(ts, i - 1, node_ids, names);
        match ts[i - 1].node {
            Some(ni) => match fbx_id_of(node_ids, ni) {
                Some(src) => prev.push(TargetV { slot: encode_utf8(ts[i - 1].slot@), source: src, source_name: name_of(names, src) }),
                None => prev,
            },
            None => prev,
        }
    }
}

proof fn lemma_op_targets_prefix(a: Seq<NodeV>, b: Seq<NodeV>, i: int, cid: i64, names: Map<i64, NodeV>)
    requires 0 <= i <= a.len(),
    ensures op_targets(a + b, i, cid, names) == op_targets(a, i, cid, names),
    decreases i,
{
    if i > 0 {
        lemma_op_targets_prefix(a, b, i - 1, cid, names);
        assert((a + b)[i - 1] == a[i - 1]);
    }
}

proof fn lemma_op_targets_concat(a: Seq<NodeV>, b: Seq<NodeV>, j: int, cid: i64, names: Map<i64, NodeV>)
    requires 0 <= j <= b.len(),
    ensures op_targets(a + b, a.len() + j, cid, names) == op_targets(a, a.len() as int, cid, names) + op_targets(b, j, cid, names),
    decreases j,
{
    if j == 0 {
        lemma_op_targets_prefix(a, b, a.len() as int, cid, names);
        assert(op_targets(a, a.len() as int, cid, names) + Seq::<TargetV>::empty() =~= op_targets(a, a.len() as int, cid, names));
    } else {
        lemma_op_targets_concat(a, b, j - 1, cid, names);
        assert((a + b)[a.len() + j - 1] == b[j - 1]);
        let pa = op_targets(a, a.len() as int, cid, names);
        let pb = op_targets(b, j - 1, cid, names);
        assert forall|t: TargetV| (pa + pb).push(t) =~= pa + pb.push(t) by {}
    }
}

/// The op targets of the edges of one written constraint.
proof fn lemma_own_edges(ts: Seq<SlotTarget>, m: int, id: i64, cid: i64, node_ids: Seq<Option<i64>>, names: Map<i64, NodeV>)
    requires 0 <= m <= ts.len(),
    ensures
        ({
            let es = target_edges(ts, m, id, node_ids);
            &&& id == cid ==> op_targets(es, es.len() as int, cid, names) == written_targets(ts, m, node_ids, names)
            &&& id != cid ==> op_targets(es, es.len() as int, cid, names) == Seq::<TargetV>::empty()
        }),
    decreases m,
{
    if m > 0 {
        lemma_own_edges(ts, m - 1, id, cid, node_ids, names);
        let prev = target_edges(ts, m - 1, id, node_ids);
        let t = ts[m - 1];
        match t.node {
            Some(ni) => match fbx_id_of(node_ids, ni) {
                Some(src) => {
                    let e = op_edge_v(src, id, t.slot@);
                    lemma_op_targets_concat(prev, seq![e], 1, cid, names);
                    assert(prev.push(e) =~= prev + seq![e]);
                    assert(seq![e][0] == e);
                    reveal_strlit("OP");
                    vstd::utf8::encode_utf8_valid_utf8(t.slot@);
                    assert(op_targets(seq![e], 0, cid, names) =~= Seq::<TargetV>::empty());
                    if id != cid {
                        assert(op_targets(seq![e], 1, cid, names) =~= Seq::<TargetV>::empty());
                        assert(op_targets(prev, prev.len() as int, cid, names) + Seq::<TargetV>::empty()
                            =~= op_targets(prev, prev.len() as int, cid, names));
                    }
                }
                None => {}
            },
            None => {}
        }
    }
}

/// The targets the written connections give constraint `k`: with fresh
/// ids for the written constraints, exactly its own resolvable targets,
/// in order, each with its slot name and source id.
pub proof fn lemma_written_targets_read_back(
    rs: Seq<ConstraintRecord>,
    ids: Seq<i64>,
    node_ids: Seq<Option<i64>>,
    names: Map<i64, NodeV>,
    k: int,
)
    requires
        ids.len() == rs.len(),
        ids.no_duplicates(),
        0 <= k < rs.len(),
    ensures
        ({
            let cs = constraint_edges(rs, rs.len() as int, ids, node_ids);
            op_targets(cs, cs.len() as int, ids[k], names)
                == written_targets(rs[k].targets@, rs[k].targets@.len() as int, node_ids, names)
        }),
{
    lemma_edges_targets(rs, rs.len() as int, ids, node_ids, names, k);
}

proof fn lemma_edges_targets(
    rs: Seq<ConstraintRecord>,
    i: int,
    ids: Seq<i64>,
    node_ids: Seq<Option<i64>>,
    names: Map<i64, NodeV>,
    k: int,
)
    requires
        ids.len() == rs.len(),
        ids.no_duplicates(),
        0 <= k < rs.len(),
        0 <= i <= rs.len(),
    ensures
        ({
            let cs = constraint_edges(rs, i, ids, node_ids);
            &&& k < i ==> op_targets(cs, cs.len() as int, ids[k], names)
                == written_targets(rs[k].targets@, rs[k].targets@.len() as int, node_ids, names)
            &&& k >= i ==> op_targets(cs, cs.len() as int, ids[k], names) == Seq::<TargetV>::empty()
        }),
    decreases i,
{
    if i > 0 {
        lemma_edges_targets(rs, i - 1, ids, node_ids, names, k);
        let prev = constraint_edges(rs, i - 1, ids, node_ids);
        let ts = rs[i - 1].targets@;
        let own = target_edges(ts, ts.len() as int, ids[i - 1], node_ids);
        lemma_op_targets_concat(prev, own, own.len() as int, ids[k], names);
        lemma_own_edges(ts, ts.len() as int, ids[i - 1], ids[k], node_ids, names);
        if k == i - 1 {
            assert(Seq::<TargetV>::empty() + written_targets(ts, ts.len() as int, node_ids, names)
                =~= written_targets(ts, ts.len() as int, node_ids, names));
        } else {
            assert(ids[i - 1] != ids[k]);
            let pt = op_targets(prev, prev.len() as int, ids[k], names);
            assert(pt + Seq::<TargetV>::empty() =~= pt);
        }
    }
}

} // verus!
