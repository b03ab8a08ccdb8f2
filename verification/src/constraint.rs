//! Constraint template class names.

use vstd::prelude::*;
use vstd::string::StringSliceAdditionalSpecFns;
use vstd::utf8::{encode_utf8, valid_utf8};
use crate::model::{first_named, lemma_nodes_view_len, node_view, nodes_view, FbxDocument, FbxNode, FbxProperty, FbxReal, NodeV, PropV, RealV};
use crate::text::{str_chars, string_from_chars, string_from_utf8, string_from_utf8_lossy, lossy_text};
use crate::definitions::{leaf_i64, leaf_int};
use crate::kinds::objects_of;
use crate::material::{opt_bytes, read_string_child, string_child};
use crate::names::{element_name, spec_element_name};
use crate::objects::{connection_link, connections_of, find_keyed, insert_keyed, keyed, link, obj_id, object_id};

verus! {

/// `char::is_whitespace`: the Unicode `White_Space` characters.
pub open spec fn is_unicode_space(c: char) -> bool {
    ('\u{9}' <= c && c <= '\u{d}') || c == ' ' || c == '\u{85}' || c == '\u{a0}' || c == '\u{1680}'
        || ('\u{2000}' <= c && c <= '\u{200a}') || c == '\u{2028}' || c == '\u{2029}' || c == '\u{202f}'
        || c == '\u{205f}' || c == '\u{3000}'
}

fn is_space(c: char) -> (r: bool)
    ensures r == is_unicode_space(c),
{
    ('\u{9}' <= c && c <= '\u{d}') || c == ' ' || c == '\u{85}' || c == '\u{a0}' || c == '\u{1680}'
        || ('\u{2000}' <= c && c <= '\u{200a}') || c == '\u{2028}' || c == '\u{2029}' || c == '\u{202f}'
        || c == '\u{205f}' || c == '\u{3000}'
}

/// `cs` with its whitespace characters removed (the words of
/// `split_whitespace`, joined).
pub open spec fn strip_spaces(cs: Seq<char>) -> Seq<char>
    decreases cs.len(),
{
    if cs.len() == 0 {
        Seq::empty()
    } else if is_unicode_space(cs.last()) {
        strip_spaces(cs.drop_last())
    } else {
        strip_spaces(cs.drop_last()).push(cs.last())
    }
}

pub open spec fn fbx_constraint_prefix() -> Seq<char> {
    seq!['F', 'b', 'x', 'C', 'o', 'n', 's', 't', 'r', 'a', 'i', 'n', 't']
}

/// The template class of a constraint kind: `FbxConstraint` followed by
/// the display string with its whitespace removed (`"Single Chain IK"`
/// gives `FbxConstraintSingleChainIK`).
pub fn template_class_for_kind(kind: &str) -> (r: String)
    ensures r@ == fbx_constraint_prefix() + strip_spaces(kind@),
{
    let cs = str_chars(kind);
    let mut out: Vec<char> = vec!['F', 'b', 'x', 'C', 'o', 'n', 's', 't', 'r', 'a', 'i', 'n', 't'];
    assert(out@ =~= fbx_constraint_prefix());
    let mut i: usize = 0;
    while i < cs.len()
        invariant
            i <= cs@.len(),
            out@ == fbx_constraint_prefix() + strip_spaces(cs@.subrange(0, i as int)),
        decreases cs@.len() - i,
    {
        let c = cs[i];
        assert(cs@.subrange(0, i + 1).drop_last() =~= cs@.subrange(0, i as int));
        if !is_space(c) {
            out.push(c);
        }
        i += 1;
        assert(out@ =~= fbx_constraint_prefix() + strip_spaces(cs@.subrange(0, i as int)));
    }
    assert(cs@.subrange(0, cs@.len() as int) =~= cs@);
    string_from_chars(out.as_slice())
}

// ---------------------------------------------------------------------
// Raw `P` records
// ---------------------------------------------------------------------

/// A `P` record value with its width dropped: every integer is an
/// `Int`, every float keeps its wire form.
#[derive(Debug)]
pub enum TaggedValue {
    Bool(bool),
    Int(i64),
    Float32(u32),
    Float64(FbxReal),
    Text(String),
}

/// View of a [`TaggedValue`].
pub enum TagV {
    Bool(bool),
    Int(i64),
    Float32(u32),
    Float64(RealV),
    Text(Seq<char>),
}

pub open spec fn tag_view(t: TaggedValue) -> TagV {
    match t {
        TaggedValue::Bool(b) => TagV::Bool(b),
        TaggedValue::Int(n) => TagV::Int(n),
        TaggedValue::Float32(x) => TagV::Float32(x),
        TaggedValue::Float64(r) => TagV::Float64(r.view_real()),
        TaggedValue::Text(s) => TagV::Text(s@),
    }
}

/// The tagged form of a scalar value; `None` for arrays and blobs.
pub open spec fn tag_of(p: PropV) -> Option<TagV> {
    match p {
        PropV::Bool(b) => Some(TagV::Bool(b)),
        PropV::I16(n) => Some(TagV::Int(n as i64)),
        PropV::I32(n) => Some(TagV::Int(n as i64)),
        PropV::I64(n) => Some(TagV::Int(n)),
        PropV::F32(x) => Some(TagV::Float32(x)),
        PropV::F64(r) => Some(TagV::Float64(r)),
        PropV::Str(b) => Some(TagV::Text(lossy_text(b))),
        _ => None,
    }
}

/// The tagged values among properties `4..i`.
pub open spec fn tags_fold(ps: Seq<PropV>, i: int) -> Seq<TagV>
    decreases i,
{
    if i <= 4 {
        Seq::empty()
    } else {
        let prev = tags_fold(ps, i - 1);
        match tag_of(ps[i - 1]) {
            Some(t) => prev.push(t),
            None => prev,
        }
    }
}

/// A raw `P` record: its four leading strings (lossily decoded) and its
/// tagged values.
#[derive(Debug)]
pub struct PRecord {
    pub name: String,
    pub record_type: String,
    pub label: String,
    pub flags: String,
    pub values: Vec<TaggedValue>,
}

/// View of a [`PRecord`].
pub struct PRecordV {
    pub name: Seq<char>,
    pub record_type: Seq<char>,
    pub label: Seq<char>,
    pub flags: Seq<char>,
    pub values: Seq<TagV>,
}

pub open spec fn p_record_view(r: PRecord) -> PRecordV {
    PRecordV {
        name: r.name@,
        record_type: r.record_type@,
        label: r.label@,
        flags: r.flags@,
        values: r.values@.map_values(|t: TaggedValue| tag_view(t)),
    }
}

/// The record a `P` node holds: `None` unless its first four properties
/// are strings.
pub open spec fn p_record_of(n: NodeV) -> Option<PRecordV> {
    let ps = n.properties;
    if ps.len() >= 4 && ps[0] is Str && ps[1] is Str && ps[2] is Str && ps[3] is Str {
        Some(PRecordV {
            name: lossy_text(ps[0]->Str_0),
            record_type: lossy_text(ps[1]->Str_0),
            label: lossy_text(ps[2]->Str_0),
            flags: lossy_text(ps[3]->Str_0),
            values: tags_fold(ps, ps.len() as int),
        })
    } else {
        None
    }
}

fn tagged(p: &FbxProperty) -> (r: Option<TaggedValue>)
    ensures
        match r {
            Some(t) => tag_of(p.view_prop()) == Some(tag_view(t)),
            None => tag_of(p.view_prop()) is None,
        },
{
    match p {
        FbxProperty::Bool(b) => Some(TaggedValue::Bool(*b)),
        FbxProperty::I16(n) => Some(TaggedValue::Int(*n as i64)),
        FbxProperty::I32(n) => Some(TaggedValue::Int(*n as i64)),
        FbxProperty::I64(n) => Some(TaggedValue::Int(*n)),
        FbxProperty::F32(x) => Some(TaggedValue::Float32(*x)),
        FbxProperty::F64(r) => Some(TaggedValue::Float64(crate::model::clone_real(r))),
        FbxProperty::String(b) => Some(TaggedValue::Text(string_from_utf8_lossy(b.as_slice()))),
        _ => None,
    }
}

fn lossy_string(p: &FbxProperty) -> (r: Option<String>)
    ensures
        match r {
            Some(s) => p.view_prop() is Str && s@ == lossy_text(p.view_prop()->Str_0),
            None => !(p.view_prop() is Str),
        },
{
    match p {
        FbxProperty::String(b) => Some(string_from_utf8_lossy(b.as_slice())),
        _ => None,
    }
}

/// The record of a `P` node (see [`p_record_of`]).
pub fn read_p_record(p: &FbxNode) -> (r: Option<PRecord>)
    ensures
        match r {
            Some(rec) => p_record_of(node_view(*p)) == Some(p_record_view(rec)),
            None => p_record_of(node_view(*p)) is None,
        },
{
    let ghost ps = node_view(*p).properties;
    if p.properties.len() < 4 {
        return None;
    }
    proof {
        crate::ascii::lemma_props_view_index(p.properties@, 0);
        crate::ascii::lemma_props_view_index(p.properties@, 1);
        crate::ascii::lemma_props_view_index(p.properties@, 2);
        crate::ascii::lemma_props_view_index(p.properties@, 3);
    }
    let name = match lossy_string(&p.properties[0]) { Some(s) => s, None => { return None; } };
    let record_type = match lossy_string(&p.properties[1]) { Some(s) => s, None => { return None; } };
    let label = match lossy_string(&p.properties[2]) { Some(s) => s, None => { return None; } };
    let flags = match lossy_string(&p.properties[3]) { Some(s) => s, None => { return None; } };
    let mut values: Vec<TaggedValue> = Vec::new();
    let mut i: usize = 4;
    while i < p.properties.len()
        invariant
            4 <= i <= p.properties@.len(),
            ps == node_view(*p).properties,
            ps.len() == p.properties@.len(),
            values@.map_values(|t: TaggedValue| tag_view(t)) == tags_fold(ps, i as int),
        decreases p.properties@.len() - i,
    {
        proof { crate::ascii::lemma_props_view_index(p.properties@, i as int); }
        match tagged(&p.properties[i]) {
            Some(t) => {
                let ghost before = values@;
                values.push(t);
                proof {
                    assert(values@.map_values(|t: TaggedValue| tag_view(t))
                        =~= before.map_values(|t: TaggedValue| tag_view(t)).push(tag_view(t)));
                }
            }
            None => {}
        }
        i += 1;
    }
    Some(PRecord { name, record_type, label, flags, values })
}

/// The records of the `P` nodes among the first `i` of `ps`.
pub open spec fn records_fold(ps: Seq<NodeV>, i: int) -> Seq<PRecordV>
    decreases i,
{
    if i <= 0 {
        Seq::empty()
    } else {
        let prev = records_fold(ps, i - 1);
        let p = ps[i - 1];
        if p.name == "P".spec_bytes() && p_record_of(p) is Some { prev.push(p_record_of(p)->Some_0) } else { prev }
    }
}

/// The records of a node's own `Properties70` block (its first).
pub open spec fn own_records(n: NodeV) -> Seq<PRecordV> {
    match first_named(n.children, "Properties70".spec_bytes()) {
        Some(p) => records_fold(p.children, p.children.len() as int),
        None => Seq::empty(),
    }
}

pub open spec fn records_view(v: Seq<PRecord>) -> Seq<PRecordV> {
    v.map_values(|r: PRecord| p_record_view(r))
}

/// The records of a node's own `Properties70` block.
pub fn read_own_records(n: &FbxNode) -> (r: Vec<PRecord>)
    ensures records_view(r@) == own_records(node_view(*n)),
{
    let mut out: Vec<PRecord> = Vec::new();
    match n.child("Properties70") {
        Some(p70) => {
            let ghost pv = nodes_view(p70.children@);
            proof { lemma_nodes_view_len(p70.children@); }
            let mut i: usize = 0;
            while i < p70.children.len()
                invariant
                    i <= p70.children@.len(),
                    pv == nodes_view(p70.children@),
                    pv.len() == p70.children@.len(),
                    forall|k: int| 0 <= k < pv.len() ==> #[trigger] pv[k] == node_view(p70.children@[k]),
                    records_view(out@) == records_fold(pv, i as int),
                decreases p70.children@.len() - i,
            {
                let c = &p70.children[i];
                if crate::bytes::bytes_eq(c.name.as_str().as_bytes(), "P".as_bytes()) {
                    match read_p_record(c) {
                        Some(rec) => {
                            let ghost before = out@;
                            out.push(rec);
                            proof { assert(records_view(out@) =~= records_view(before).push(p_record_view(rec))); }
                        }
                        None => {}
                    }
                }
                i += 1;
            }
            out
        }
        None => out,
    }
}

// ---------------------------------------------------------------------
// The constraint catalogue
// ---------------------------------------------------------------------

/// The elements with an element name among the first `i` objects, by id
/// (a later element replaces an earlier one).
pub open spec fn named_by_id(objs: Seq<NodeV>, i: int) -> Map<i64, NodeV>
    decreases i,
{
    if i <= 0 {
        Map::empty()
    } else {
        let m = named_by_id(objs, i - 1);
        let n = objs[i - 1];
        if obj_id(n) is Some && spec_element_name(n.properties) is Some { m.insert(obj_id(n)->Some_0, n) } else { m }
    }
}

/// The element name of the element with id `id`.
pub open spec fn name_of(names: Map<i64, NodeV>, id: i64) -> Option<Seq<u8>> {
    if names.dom().contains(id) { spec_element_name(names[id].properties) } else { None }
}

/// View of a [`ConstraintTarget`].
pub struct TargetV {
    pub slot: Seq<u8>,
    pub source: i64,
    pub source_name: Option<Seq<u8>>,
}

/// The targets the first `i` connection records give constraint `cid`:
/// each `OP` record into it with a string slot name.
pub open spec fn op_targets(cs: Seq<NodeV>, i: int, cid: i64, names: Map<i64, NodeV>) -> Seq<TargetV>
    decreases i,
{
    if i <= 0 {
        Seq::empty()
    } else {
        let prev = op_targets(cs, i - 1, cid, names);
        let c = cs[i - 1];
        match link(c) {
            Some((k, ch, pa)) => if k == "OP".spec_bytes() && pa == cid && c.properties.len() > 3
                && (c.properties[3] matches PropV::Str(b) && valid_utf8(b)) {
                prev.push(TargetV { slot: c.properties[3]->Str_0, source: ch, source_name: name_of(names, ch) })
            } else {
                prev
            },
            None => prev,
        }
    }
}

/// View of a [`ConstraintEntry`].
pub struct ConstraintV {
    pub id: i64,
    pub name: Seq<u8>,
    pub kind: Seq<u8>,
    pub kind_leaf: Option<Seq<u8>>,
    pub multi_layer: Option<i64>,
    pub properties: Seq<PRecordV>,
    pub targets: Seq<TargetV>,
}

/// The third property of an element when it is a UTF-8 string; empty
/// otherwise.
pub open spec fn kind_string(n: NodeV) -> Seq<u8> {
    if n.properties.len() > 2 && (n.properties[2] matches PropV::Str(b) && valid_utf8(b)) {
        n.properties[2]->Str_0
    } else {
        Seq::empty()
    }
}

/// The catalogue entry of the constraint element `n` with id `id`.
pub open spec fn constraint_of(n: NodeV, id: i64, names: Map<i64, NodeV>, cs: Seq<NodeV>) -> ConstraintV {
    ConstraintV {
        id,
        name: match name_of(names, id) {
            Some(b) => b,
            None => Seq::empty(),
        },
        kind: kind_string(n),
        kind_leaf: string_child(n, "Type".spec_bytes()),
        multi_layer: leaf_int(n, "MultiLayer".spec_bytes()),
        properties: own_records(n),
        targets: op_targets(cs, cs.len() as int, id, names),
    }
}

/// The entries of the `Constraint` elements with an id among the first
/// `i` objects, in document order.
pub open spec fn constraints_fold(objs: Seq<NodeV>, i: int, names: Map<i64, NodeV>, cs: Seq<NodeV>) -> Seq<ConstraintV>
    decreases i,
{
    if i <= 0 {
        Seq::empty()
    } else {
        let prev = constraints_fold(objs, i - 1, names, cs);
        let n = objs[i - 1];
        if obj_id(n) is Some && n.name == "Constraint".spec_bytes() {
            prev.push(constraint_of(n, obj_id(n)->Some_0, names, cs))
        } else {
            prev
        }
    }
}

/// View of a [`ConstraintTemplate`].
pub struct TemplateV {
    pub name: Seq<u8>,
    pub properties: Seq<PRecordV>,
}

/// The name (first property, when a UTF-8 string; empty otherwise) and
/// records of a `PropertyTemplate`.
pub open spec fn template_of(t: NodeV) -> TemplateV {
    TemplateV {
        name: if t.properties.len() > 0 && (t.properties[0] matches PropV::Str(b) && valid_utf8(b)) {
            t.properties[0]->Str_0
        } else {
            Seq::empty()
        },
        properties: own_records(t),
    }
}

/// The `PropertyTemplate` children among the first `j` of `cs`.
pub open spec fn ot_templates(cs: Seq<NodeV>, j: int) -> Seq<TemplateV>
    decreases j,
{
    if j <= 0 {
        Seq::empty()
    } else {
        let prev = ot_templates(cs, j - 1);
        if cs[j - 1].name == "PropertyTemplate".spec_bytes() { prev.push(template_of(cs[j - 1])) } else { prev }
    }
}

/// An `ObjectType: "Constraint"` block.
pub open spec fn is_constraint_type(ot: NodeV) -> bool {
    ot.name == "ObjectType".spec_bytes() && ot.properties.len() > 0
        && ot.properties[0] == PropV::Str("Constraint".spec_bytes())
}

/// The templates of the constraint blocks among the first `i` of `ds`.
pub open spec fn templates_fold(ds: Seq<NodeV>, i: int) -> Seq<TemplateV>
    decreases i,
{
    if i <= 0 {
        Seq::empty()
    } else {
        let prev = templates_fold(ds, i - 1);
        let d = ds[i - 1];
        if is_constraint_type(d) { prev + ot_templates(d.children, d.children.len() as int) } else { prev }
    }
}

/// The catalogue of a document root: its constraints, and the templates
/// its `Definitions` declare for the `Constraint` class.
pub open spec fn spec_constraint_catalogue(root: NodeV) -> (Seq<ConstraintV>, Seq<TemplateV>) {
    let objs = objects_of(root);
    let names = named_by_id(objs, objs.len() as int);
    let cs = connections_of(root);
    let templates = match first_named(root.children, "Definitions".spec_bytes()) {
        Some(d) => templates_fold(d.children, d.children.len() as int),
        None => Seq::empty(),
    };
    (constraints_fold(objs, objs.len() as int, names, cs), templates)
}

/// A target slot of a constraint, filled by the source element; the
/// source's element name when it has one.
#[derive(Debug)]
pub struct ConstraintTarget {
    pub slot: String,
    pub source: i64,
    pub source_name: Option<String>,
}

/// One `Constraint` element: id, element name, kind (the display string
/// of its third property), its `Type` and `MultiLayer` leaves, its own
/// `P` records and its targets.
#[derive(Debug)]
pub struct ConstraintEntry {
    pub id: i64,
    pub name: String,
    pub kind: String,
    pub kind_leaf: Option<String>,
    pub multi_layer: Option<i64>,
    pub properties: Vec<PRecord>,
    pub targets: Vec<ConstraintTarget>,
}

/// A `PropertyTemplate` of the `Constraint` class.
#[derive(Debug)]
pub struct ConstraintTemplate {
    pub name: String,
    pub properties: Vec<PRecord>,
}

/// The constraints of a document and the templates of their class.
#[derive(Debug)]
pub struct ConstraintCatalogue {
    pub constraints: Vec<ConstraintEntry>,
    pub templates: Vec<ConstraintTemplate>,
}

pub open spec fn target_view(t: ConstraintTarget) -> TargetV {
    TargetV { slot: encode_utf8(t.slot@), source: t.source, source_name: opt_bytes(t.source_name) }
}

pub open spec fn targets_view(s: Seq<ConstraintTarget>) -> Seq<TargetV> {
    s.map_values(|t: ConstraintTarget| target_view(t))
}

pub open spec fn entry_view(e: ConstraintEntry) -> ConstraintV {
    ConstraintV {
        id: e.id,
        name: encode_utf8(e.name@),
        kind: encode_utf8(e.kind@),
        kind_leaf: opt_bytes(e.kind_leaf),
        multi_layer: e.multi_layer,
        properties: records_view(e.properties@),
        targets: targets_view(e.targets@),
    }
}

pub open spec fn template_view(t: ConstraintTemplate) -> TemplateV {
    TemplateV { name: encode_utf8(t.name@), properties: records_view(t.properties@) }
}

pub open spec fn entries_view(s: Seq<ConstraintEntry>) -> Seq<ConstraintV> {
    s.map_values(|e: ConstraintEntry| entry_view(e))
}

pub open spec fn templates_view(s: Seq<ConstraintTemplate>) -> Seq<TemplateV> {
    s.map_values(|t: ConstraintTemplate| template_view(t))
}

proof fn lemma_empty_string(s: String)
    requires s@ == Seq::<char>::empty(),
    ensures encode_utf8(s@) == Seq::<u8>::empty(),
{
    assert(encode_utf8(Seq::<char>::empty()) =~= Seq::<u8>::empty());
}

/// The UTF-8 string of a property when it is one; empty otherwise.
fn string_or_empty(p: Option<&FbxProperty>) -> (r: String)
    ensures
        encode_utf8(r@) == (match p {
            Some(q) => if q.view_prop() matches PropV::Str(b) && valid_utf8(b) { q.view_prop()->Str_0 } else { Seq::empty() },
            None => Seq::empty(),
        }),
{
    let got = match p {
        Some(FbxProperty::String(b)) => string_from_utf8(b.as_slice()),
        _ => None,
    };
    match got {
        Some(s) => s,
        None => {
            let e = String::new();
            proof { lemma_empty_string(e); }
            e
        }
    }
}

fn lookup_name<'a>(names: &Vec<(i64, &'a FbxNode)>, id: i64, Ghost(m): Ghost<Map<i64, NodeV>>) -> (r: Option<String>)
    requires
        keyed(names@, m),
        forall|k: i64| #[trigger] m.dom().contains(k) ==> spec_element_name(m[k].properties) is Some,
    ensures opt_bytes(r) == name_of(m, id),
{
    match find_keyed(names, id, Ghost(m)) {
        Some(n) => element_name(n),
        None => None,
    }
}

proof fn lemma_named_have_names(objs: Seq<NodeV>, i: int)
    ensures
        forall|k: i64| #[trigger] named_by_id(objs, i).dom().contains(k) ==> spec_element_name(named_by_id(objs, i)[k].properties) is Some,
    decreases i,
{
    if i > 0 {
        lemma_named_have_names(objs, i - 1);
    }
}

fn index_names<'a>(root: &'a FbxNode) -> (names: Vec<(i64, &'a FbxNode)>)
    ensures
        ({
            let objs = objects_of(node_view(*root));
            keyed(names@, named_by_id(objs, objs.len() as int))
        }),
{
    let mut names: Vec<(i64, &'a FbxNode)> = Vec::new();
    match root.child("Objects") {
        Some(o) => {
            let ghost ov = nodes_view(o.children@);
            proof { lemma_nodes_view_len(o.children@); }
            let mut i: usize = 0;
            while i < o.children.len()
                invariant
                    i <= o.children@.len(),
                    ov == nodes_view(o.children@),
                    ov.len() == o.children@.len(),
                    forall|k: int| 0 <= k < ov.len() ==> #[trigger] ov[k] == node_view(o.children@[k]),
                    keyed(names@, named_by_id(ov, i as int)),
                decreases o.children@.len() - i,
            {
                let c = &o.children[i];
                match object_id(c) {
                    Some(id) => {
                        if element_name(c).is_some() {
                            insert_keyed(&mut names, id, c, Ghost(named_by_id(ov, i as int)));
                        }
                    }
                    None => {}
                }
                i += 1;
            }
            names
        }
        None => {
            proof {
                let objs = objects_of(node_view(*root));
                assert(named_by_id(objs, 0) =~= Map::<i64, NodeV>::empty());
            }
            names
        }
    }
}

fn collect_targets<'a>(root: &FbxNode, cid: i64, names: &Vec<(i64, &'a FbxNode)>, Ghost(m): Ghost<Map<i64, NodeV>>)
    -> (r: Vec<ConstraintTarget>)
    requires
        keyed(names@, m),
        forall|k: i64| #[trigger] m.dom().contains(k) ==> spec_element_name(m[k].properties) is Some,
    ensures
        ({
            let cs = connections_of(node_view(*root));
            targets_view(r@) == op_targets(cs, cs.len() as int, cid, m)
        }),
{
    let mut out: Vec<ConstraintTarget> = Vec::new();
    match root.child("Connections") {
        Some(conns) => {
            let ghost cv = nodes_view(conns.children@);
            proof { lemma_nodes_view_len(conns.children@); }
            let mut i: usize = 0;
            while i < conns.children.len()
                invariant
                    i <= conns.children@.len(),
                    cv == nodes_view(conns.children@),
                    cv.len() == conns.children@.len(),
                    forall|k: int| 0 <= k < cv.len() ==> #[trigger] cv[k] == node_view(conns.children@[k]),
                    keyed(names@, m),
                    forall|k: i64| #[trigger] m.dom().contains(k) ==> spec_element_name(m[k].properties) is Some,
                    targets_view(out@) == op_targets(cv, i as int, cid, m),
                decreases conns.children@.len() - i,
            {
                let c = &conns.children[i];
                match connection_link(c) {
                    Some((k, ch, pa)) => {
                        if k == 1 && pa == cid && c.properties.len() > 3 {
                            proof { crate::ascii::lemma_props_view_index(c.properties@, 3); }
                            let slot = match &c.properties[3] {
                                FbxProperty::String(b) => string_from_utf8(b.as_slice()),
                                _ => None,
                            };
                            match slot {
                                Some(sl) => {
                                    let source_name = lookup_name(names, ch, Ghost(m));
                                    let t = ConstraintTarget { slot: sl, source: ch, source_name };
                                    let ghost before = out@;
                                    out.push(t);
                                    proof {
                                        assert(targets_view(out@) =~= targets_view(before).push(target_view(t)));
                                    }
                                }
                                None => {}
                            }
                        }
                    }
                    None => {}
                }
                i += 1;
            }
            out
        }
        None => out,
    }
}

fn third_property(n: &FbxNode) -> (r: Option<&FbxProperty>)
    ensures
        match r {
            Some(p) => node_view(*n).properties.len() > 2 && p.view_prop() == node_view(*n).properties[2],
            None => node_view(*n).properties.len() <= 2,
        },
{
    if n.properties.len() > 2 {
        proof { crate::ascii::lemma_props_view_index(n.properties@, 2); }
        Some(&n.properties[2])
    } else {
        None
    }
}

fn first_property(n: &FbxNode) -> (r: Option<&FbxProperty>)
    ensures
        match r {
            Some(p) => node_view(*n).properties.len() > 0 && p.view_prop() == node_view(*n).properties[0],
            None => node_view(*n).properties.len() == 0,
        },
{
    if n.properties.len() > 0 {
        proof { crate::ascii::lemma_props_view_index(n.properties@, 0); }
        Some(&n.properties[0])
    } else {
        None
    }
}

fn read_templates(root: &FbxNode) -> (r: Vec<ConstraintTemplate>)
    ensures
        templates_view(r@) == match first_named(node_view(*root).children, "Definitions".spec_bytes()) {
            Some(d) => templates_fold(d.children, d.children.len() as int),
            None => Seq::empty(),
        },
{
    let mut out: Vec<ConstraintTemplate> = Vec::new();
    match root.child("Definitions") {
        Some(defs) => {
            let ghost dv = nodes_view(defs.children@);
            proof { lemma_nodes_view_len(defs.children@); }
            let mut i: usize = 0;
            while i < defs.children.len()
                invariant
                    i <= defs.children@.len(),
                    dv == nodes_view(defs.children@),
                    dv.len() == defs.children@.len(),
                    forall|k: int| 0 <= k < dv.len() ==> #[trigger] dv[k] == node_view(defs.children@[k]),
                    templates_view(out@) == templates_fold(dv, i as int),
                decreases defs.children@.len() - i,
            {
                let ot = &defs.children[i];
                let is_ot = crate::bytes::bytes_eq(ot.name.as_str().as_bytes(), "ObjectType".as_bytes());
                let is_constraint = match first_property(ot) {
                    Some(FbxProperty::String(b)) => crate::bytes::bytes_eq(b.as_slice(), "Constraint".as_bytes()),
                    _ => false,
                };
                if is_ot && is_constraint {
                    let ghost base = templates_view(out@);
                    let ghost cv = nodes_view(ot.children@);
                    proof { lemma_nodes_view_len(ot.children@); }
                    let mut j: usize = 0;
                    while j < ot.children.len()
                        invariant
                            j <= ot.children@.len(),
                            cv == nodes_view(ot.children@),
                            cv.len() == ot.children@.len(),
                            forall|k: int| 0 <= k < cv.len() ==> #[trigger] cv[k] == node_view(ot.children@[k]),
                            templates_view(out@) == base + ot_templates(cv, j as int),
                        decreases ot.children@.len() - j,
                    {
                        let t = &ot.children[j];
                        if crate::bytes::bytes_eq(t.name.as_str().as_bytes(), "PropertyTemplate".as_bytes()) {
                            let name = string_or_empty(first_property(t));
                            let properties = read_own_records(t);
                            let entry = ConstraintTemplate { name, properties };
                            let ghost before = out@;
                            out.push(entry);
                            proof {
                                assert(templates_view(out@)
                                    =~= templates_view(before).push(template_view(entry)));
                            }
                        }
                        j += 1;
                    }
                } else {
                    proof {
                        if is_constraint_type(dv[i as int]) {
                            assert(is_ot);
                        }
                    }
                }
                i += 1;
            }
            out
        }
        None => out,
    }
}

fn build_entry<'a>(root: &FbxNode, c: &FbxNode, id: i64, names: &Vec<(i64, &'a FbxNode)>, Ghost(m): Ghost<Map<i64, NodeV>>)
    -> (e: ConstraintEntry)
    requires
        keyed(names@, m),
        forall|k: i64| #[trigger] m.dom().contains(k) ==> spec_element_name(m[k].properties) is Some,
    ensures entry_view(e) == constraint_of(node_view(*c), id, m, connections_of(node_view(*root))),
{
    let name = match lookup_name(names, id, Ghost(m)) {
        Some(s) => s,
        None => {
            let e = String::new();
            proof { lemma_empty_string(e); }
            e
        }
    };
    let kind = string_or_empty(third_property(c));
    let kind_leaf = read_string_child(c, "Type");
    let multi_layer = leaf_i64(c, "MultiLayer");
    let properties = read_own_records(c);
    let targets = collect_targets(root, id, names, Ghost(m));
    ConstraintEntry { id, name, kind, kind_leaf, multi_layer, properties, targets }
}

/// The constraint catalogue of a document (see
/// [`spec_constraint_catalogue`]).
pub fn constraint_catalogue(doc: &FbxDocument) -> (r: ConstraintCatalogue)
    ensures
        entries_view(r.constraints@) == spec_constraint_catalogue(node_view(doc.root)).0,
        templates_view(r.templates@) == spec_constraint_catalogue(node_view(doc.root)).1,
{
    let root = &doc.root;
    let ghost objs = objects_of(node_view(*root));
    let ghost m = named_by_id(objs, objs.len() as int);
    let ghost cs = connections_of(node_view(*root));
    let names = index_names(root);
    proof { lemma_named_have_names(objs, objs.len() as int); }
    let mut constraints: Vec<ConstraintEntry> = Vec::new();
    match root.child("Objects") {
        Some(o) => {
            let ghost ov = nodes_view(o.children@);
            proof { lemma_nodes_view_len(o.children@); }
            let mut i: usize = 0;
            while i < o.children.len()
                invariant
                    i <= o.children@.len(),
                    ov == nodes_view(o.children@),
                    ov == objs,
                    cs == connections_of(node_view(*root)),
                    ov.len() == o.children@.len(),
                    forall|k: int| 0 <= k < ov.len() ==> #[trigger] ov[k] == node_view(o.children@[k]),
                    keyed(names@, m),
                    forall|k: i64| #[trigger] m.dom().contains(k) ==> spec_element_name(m[k].properties) is Some,
                    entries_view(constraints@) == constraints_fold(ov, i as int, m, cs),
                decreases o.children@.len() - i,
            {
                let c = &o.children[i];
                match object_id(c) {
                    Some(id) => {
                        if crate::bytes::bytes_eq(c.name.as_str().as_bytes(), "Constraint".as_bytes()) {
                            let entry = build_entry(root, c, id, &names, Ghost(m));
                            let ghost before = constraints@;
                            constraints.push(entry);
                            proof {
                                assert(entries_view(constraints@)
                                    =~= entries_view(before).push(entry_view(entry)));
                            }
                        }
                    }
                    None => {}
                }
                i += 1;
            }
        }
        None => {}
    }
    let templates = read_templates(root);
    ConstraintCatalogue { constraints, templates }
}

} // verus!
