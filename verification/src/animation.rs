//! The animation graph of a document: which `AnimationCurve` drives
//! which component of which property of which element, in which
//! `AnimationStack`.
//!
//! ```text
//! AnimationCurve     --OP "d|X" / "d|Y" / "d|Z" / "d|DeformPercent"-->  AnimationCurveNode
//! AnimationCurveNode --OP "Lcl Translation" / "Lcl Rotation" / ...-->  Model (or Deformer)
//! AnimationCurveNode --OO-->  AnimationLayer
//! AnimationLayer     --OO-->  AnimationStack
//! ```
//!
//! Key times are integer `KTime` ticks; key values are floating-point
//! payloads that the caller reads from the curve's `KeyValueFloat`
//! property.

use vstd::prelude::*;
use vstd::string::StringSliceAdditionalSpecFns;
use vstd::utf8::{encode_utf8, valid_utf8};
use crate::bytes::bytes_eq;
use crate::kinds::objects_of;
use crate::model::{first_named, lemma_nodes_view_len, node_view, nodes_view, FbxDocument, FbxNode, FbxProperty, NodeV, PropV};
use crate::names::{element_name, spec_element_name};
use crate::objects::{connection_link, connections_of, find_keyed, get_link, insert_keyed, keyed, keyed_ids, link, obj_id, object_id, set_link};

verus! {

/// FBX `KTime` ticks per second: `KeyTime` values are seconds times
/// this constant.
pub const KTIME_TICKS_PER_SECOND: i64 = 46_186_158_000;

// ---------------------------------------------------------------------
// Curve keys
// ---------------------------------------------------------------------

/// The key times an array property holds: an `l` array as it is, an `i`
/// array widened; `None` for anything else.
pub open spec fn key_times(p: PropV) -> Option<Seq<i64>> {
    match p {
        PropV::I64Array(a) => Some(a),
        PropV::I32Array(a) => Some(a.map_values(|x: i32| x as i64)),
        _ => None,
    }
}

/// The number of key values a float array property holds; `None` for
/// anything else.
pub open spec fn key_value_count(p: PropV) -> Option<nat> {
    match p {
        PropV::F32Array(a) => Some(a.len()),
        PropV::F64Array(a) => Some(a.len()),
        _ => None,
    }
}

/// The keys of an `AnimationCurve`: the times of its `KeyTime` child and
/// the float array of its `KeyValueFloat` child, when both are there and
/// have the same length.
pub open spec fn curve_keys_of(n: NodeV) -> Option<(Seq<i64>, PropV)> {
    match (first_named(n.children, "KeyTime".spec_bytes()), first_named(n.children, "KeyValueFloat".spec_bytes())) {
        (Some(t), Some(v)) => if t.properties.len() > 0 && v.properties.len() > 0
            && key_times(t.properties[0]) is Some && key_value_count(v.properties[0]) is Some
            && key_times(t.properties[0])->Some_0.len() == key_value_count(v.properties[0])->Some_0
        {
            Some((key_times(t.properties[0])->Some_0, v.properties[0]))
        } else {
            None
        },
        _ => None,
    }
}

/// The keys of a curve: integer tick times and the (float array)
/// property holding one value per time.
#[derive(Debug)]
pub struct CurveKeys<'a> {
    pub times: Vec<i64>,
    pub values: &'a FbxProperty,
}

fn first_prop(n: &FbxNode) -> (r: Option<&FbxProperty>)
    ensures
        match r {
            Some(p) => node_view(*n).properties.len() > 0 && p.view_prop() == node_view(*n).properties[0],
            None => node_view(*n).properties.len() == 0,
        },
{
    if n.properties.len() > 0 {
        proof { crate::ascii::lemma_props_view_index(n.properties@, 0); }
        Some(&n.properties[0])
    } else {
        None
    }
}

fn widen_times(a: &Vec<i32>) -> (r: Vec<i64>)
    ensures r@ == a@.map_values(|x: i32| x as i64),
{
    let mut out: Vec<i64> = Vec::new();
    let mut i: usize = 0;
    while i < a.len()
        invariant
            i <= a@.len(),
            out@ == a@.subrange(0, i as int).map_values(|x: i32| x as i64),
        decreases a@.len() - i,
    {
        out.push(a[i] as i64);
        i += 1;
        assert(out@ =~= a@.subrange(0, i as int).map_values(|x: i32| x as i64));
    }
    assert(a@.subrange(0, i as int) =~= a@);
    out
}

fn copy_i64s(a: &Vec<i64>) -> (r: Vec<i64>)
    ensures r@ == a@,
{
    let mut out: Vec<i64> = Vec::new();
    let mut i: usize = 0;
    while i < a.len()
        invariant
            i <= a@.len(),
            out@ == a@.subrange(0, i as int),
        decreases a@.len() - i,
    {
        out.push(a[i]);
        i += 1;
        assert(out@ =~= a@.subrange(0, i as int));
    }
    assert(a@.subrange(0, i as int) =~= a@);
    out
}

/// The keys of an `AnimationCurve` element (see [`curve_keys_of`]).
pub fn curve_keys<'a>(n: &'a FbxNode) -> (r: Option<CurveKeys<'a>>)
    ensures
        match r {
            Some(k) => curve_keys_of(node_view(*n)) == Some((k.times@, k.values.view_prop())),
            None => curve_keys_of(node_view(*n)) is None,
        },
{
    let t = match n.child("KeyTime") {
        Some(t) => t,
        None => { return None; }
    };
    let v = match n.child("KeyValueFloat") {
        Some(v) => v,
        None => { return None; }
    };
    let tp = match first_prop(t) {
        Some(p) => p,
        None => { return None; }
    };
    let vp = match first_prop(v) {
        Some(p) => p,
        None => { return None; }
    };
    let times = match tp {
        FbxProperty::I64Array(a) => copy_i64s(a),
        FbxProperty::I32Array(a) => widen_times(a),
        _ => { return None; }
    };
    let count = match vp {
        FbxProperty::F32Array(a) => a.len(),
        FbxProperty::F64Array(a) => a.len(),
        _ => { return None; }
    };
    if times.len() != count {
        return None;
    }
    Some(CurveKeys { times, values: vp })
}

// ---------------------------------------------------------------------
// Elements and links
// ---------------------------------------------------------------------

/// The elements named `cls` with an id among the first `i` objects, by
/// id (a later element replaces an earlier one); with `need_keys`, only
/// those with curve keys.
pub open spec fn anim_class_by_id(objs: Seq<NodeV>, cls: Seq<u8>, need_keys: bool, i: int) -> Map<i64, NodeV>
    decreases i,
{
    if i <= 0 {
        Map::empty()
    } else {
        let m = anim_class_by_id(objs, cls, need_keys, i - 1);
        let n = objs[i - 1];
        if n.name == cls && obj_id(n) is Some && (!need_keys || curve_keys_of(n) is Some) {
            m.insert(obj_id(n)->Some_0, n)
        } else {
            m
        }
    }
}

/// The animation elements of a document, by id.
pub struct AnimElements {
    pub stacks: Map<i64, NodeV>,
    pub layers: Map<i64, NodeV>,
    pub curve_nodes: Map<i64, NodeV>,
    pub curves: Map<i64, NodeV>,
}

pub open spec fn anim_elements(root: NodeV) -> AnimElements {
    let objs = objects_of(root);
    let n = objs.len() as int;
    AnimElements {
        stacks: anim_class_by_id(objs, "AnimationStack".spec_bytes(), false, n),
        layers: anim_class_by_id(objs, "AnimationLayer".spec_bytes(), false, n),
        curve_nodes: anim_class_by_id(objs, "AnimationCurveNode".spec_bytes(), false, n),
        curves: anim_class_by_id(objs, "AnimationCurve".spec_bytes(), true, n),
    }
}

/// The property name an `OP` record carries as its fourth property,
/// when that is a UTF-8 string.
pub open spec fn op_property(c: NodeV) -> Option<Seq<u8>> {
    if c.properties.len() > 3 && (c.properties[3] matches PropV::Str(b) && valid_utf8(b)) {
        Some(c.properties[3]->Str_0)
    } else {
        None
    }
}

/// The links of the animation graph (a later link replaces an earlier
/// one).
pub struct AnimLinks {
    /// Curve to its curve node and the component it drives (`d|X`, ...).
    pub curve_node: Map<i64, (i64, Seq<u8>)>,
    /// Curve node to its target element and the property it drives.
    pub node_target: Map<i64, (i64, Seq<u8>)>,
    /// Curve node to its layer.
    pub node_layer: Map<i64, i64>,
    /// Layer to its stack.
    pub layer_stack: Map<i64, i64>,
}

/// The links the first `i` connection records give: an `OP` record with
/// a property name binds a curve to a curve node, or else a curve node
/// to its target; an `OO` record puts a curve node in a layer, or else a
/// layer in a stack.
pub open spec fn anim_links(cs: Seq<NodeV>, i: int, e: AnimElements) -> AnimLinks
    decreases i,
{
    if i <= 0 {
        AnimLinks { curve_node: Map::empty(), node_target: Map::empty(), node_layer: Map::empty(), layer_stack: Map::empty() }
    } else {
        let l = anim_links(cs, i - 1, e);
        let c = cs[i - 1];
        match link(c) {
            Some((k, ch, pa)) => if k == "OP".spec_bytes() && op_property(c) is Some {
                let p = op_property(c)->Some_0;
                if e.curves.dom().contains(ch) && e.curve_nodes.dom().contains(pa) {
                    AnimLinks { curve_node: l.curve_node.insert(ch, (pa, p)), node_target: l.node_target, node_layer: l.node_layer, layer_stack: l.layer_stack }
                } else if e.curve_nodes.dom().contains(ch) {
                    AnimLinks { curve_node: l.curve_node, node_target: l.node_target.insert(ch, (pa, p)), node_layer: l.node_layer, layer_stack: l.layer_stack }
                } else {
                    l
                }
            } else if k == "OO".spec_bytes() {
                if e.curve_nodes.dom().contains(ch) && e.layers.dom().contains(pa) {
                    AnimLinks { curve_node: l.curve_node, node_target: l.node_target, node_layer: l.node_layer.insert(ch, pa), layer_stack: l.layer_stack }
                } else if e.layers.dom().contains(ch) && e.stacks.dom().contains(pa) {
                    AnimLinks { curve_node: l.curve_node, node_target: l.node_target, node_layer: l.node_layer, layer_stack: l.layer_stack.insert(ch, pa) }
                } else {
                    l
                }
            } else {
                l
            },
            None => l,
        }
    }
}

/// `l` lists the entries of `m`, each key once.
pub open spec fn keyed_named(l: Seq<(i64, i64, Vec<u8>)>, m: Map<i64, (i64, Seq<u8>)>) -> bool {
    &&& forall|a: int, b: int| 0 <= a < b < l.len() ==> #[trigger] l[a].0 != #[trigger] l[b].0
    &&& forall|a: int| 0 <= a < l.len() ==> m.dom().contains(#[trigger] l[a].0) && m[l[a].0] == (l[a].1, l[a].2@)
    &&& forall|k: i64| m.dom().contains(k) ==> exists|a: int| 0 <= a < l.len() && #[trigger] l[a].0 == k
}

fn set_named(l: &mut Vec<(i64, i64, Vec<u8>)>, k: i64, v: i64, p: Vec<u8>, Ghost(m): Ghost<Map<i64, (i64, Seq<u8>)>>)
    requires keyed_named(old(l)@, m),
    ensures keyed_named(final(l)@, m.insert(k, (v, p@))),
{
    let mut j: usize = 0;
    while j < l.len() && l[j].0 != k
        invariant
            j <= l@.len(),
            forall|a: int| 0 <= a < j ==> #[trigger] l@[a].0 != k,
        decreases l@.len() - j,
    {
        j += 1;
    }
    let ghost old_l = l@;
    let ghost pv = p@;
    let ghost m2 = m.insert(k, (v, p@));
    if j < l.len() {
        l.set(j, (k, v, p));
        proof {
            assert(l@ == old_l.update(j as int, (k, v, l@[j as int].2)));
            assert forall|q: i64| m2.dom().contains(q) implies exists|a: int| 0 <= a < l@.len() && #[trigger] l@[a].0 == q by {
                if q == k {
                    assert(l@[j as int].0 == q);
                } else {
                    let a = choose|a: int| 0 <= a < old_l.len() && #[trigger] old_l[a].0 == q;
                    assert(l@[a].0 == q);
                }
            }
            assert forall|a: int, b: int| 0 <= a < b < l@.len() implies #[trigger] l@[a].0 != #[trigger] l@[b].0 by {
                assert(old_l[a].0 != old_l[b].0);
            }
            assert forall|a: int| 0 <= a < l@.len() implies m2.dom().contains(#[trigger] l@[a].0) && m2[l@[a].0] == (l@[a].1, l@[a].2@) by {
                if a != j as int {
                    if a < j as int {
                        assert(old_l[a].0 != old_l[j as int].0);
                    } else {
                        assert(old_l[j as int].0 != old_l[a].0);
                    }
                }
            }
        }
    } else {
        l.push((k, v, p));
        proof {
            assert forall|q: i64| m2.dom().contains(q) implies exists|a: int| 0 <= a < l@.len() && #[trigger] l@[a].0 == q by {
                if q == k {
                    assert(l@[old_l.len() as int].0 == q);
                } else {
                    let a = choose|a: int| 0 <= a < old_l.len() && #[trigger] old_l[a].0 == q;
                    assert(l@[a].0 == q);
                }
            }
            assert forall|a: int, b: int| 0 <= a < b < l@.len() implies #[trigger] l@[a].0 != #[trigger] l@[b].0 by {
                if b == old_l.len() {
                    assert(l@[a] == old_l[a]);
                } else {
                    assert(old_l[a].0 != old_l[b].0);
                }
            }
            assert forall|a: int| 0 <= a < l@.len() implies m2.dom().contains(#[trigger] l@[a].0) && m2[l@[a].0] == (l@[a].1, l@[a].2@) by {
                if a < old_l.len() {
                    assert(l@[a] == old_l[a]);
                }
            }
        }
    }
}

fn get_named<'b>(l: &'b Vec<(i64, i64, Vec<u8>)>, k: i64, Ghost(m): Ghost<Map<i64, (i64, Seq<u8>)>>) -> (r: Option<(i64, &'b Vec<u8>)>)
    requires keyed_named(l@, m),
    ensures
        match r {
            Some((v, p)) => m.dom().contains(k) && m[k] == (v, p@),
            None => !m.dom().contains(k),
        },
{
    let mut i: usize = 0;
    while i < l.len()
        invariant
            i <= l@.len(),
            keyed_named(l@, m),
            forall|a: int| 0 <= a < i ==> #[trigger] l@[a].0 != k,
        decreases l@.len() - i,
    {
        if l[i].0 == k {
            assert(l@[i as int].0 == k);
            return Some((l[i].1, &l[i].2));
        }
        i += 1;
    }
    None
}

// ---------------------------------------------------------------------
// The graph
// ---------------------------------------------------------------------

/// The element name of a stack, or empty when it has none.
pub open spec fn stack_name(n: NodeV) -> Seq<u8> {
    match spec_element_name(n.properties) {
        Some(b) => b,
        None => Seq::empty(),
    }
}

/// View of a [`CurveBinding`].
pub struct BindingV {
    pub curve: i64,
    pub curve_node: i64,
    pub axis: Seq<u8>,
    pub target: i64,
    pub target_property: Seq<u8>,
    pub layer: i64,
    pub stack: i64,
    pub times: Seq<i64>,
    pub values: PropV,
}

/// What curve `id` drives, when the whole chain curve → curve node →
/// (target, layer) → stack is linked.
pub open spec fn binding_of(e: AnimElements, l: AnimLinks, id: i64) -> Option<BindingV> {
    if e.curves.dom().contains(id) && l.curve_node.dom().contains(id) {
        let cn = l.curve_node[id].0;
        let axis = l.curve_node[id].1;
        if l.node_target.dom().contains(cn) && l.node_layer.dom().contains(cn)
            && l.layer_stack.dom().contains(l.node_layer[cn])
        {
            let keys = curve_keys_of(e.curves[id])->Some_0;
            Some(BindingV {
                curve: id,
                curve_node: cn,
                axis,
                target: l.node_target[cn].0,
                target_property: l.node_target[cn].1,
                layer: l.node_layer[cn],
                stack: l.layer_stack[l.node_layer[cn]],
                times: keys.0,
                values: keys.1,
            })
        } else {
            None
        }
    } else {
        None
    }
}

/// The links of a document root.
pub open spec fn root_anim_links(root: NodeV) -> AnimLinks {
    let cs = connections_of(root);
    anim_links(cs, cs.len() as int, anim_elements(root))
}

/// An `AnimationStack`: its id and element name.
#[derive(Debug)]
pub struct AnimationStackEntry {
    pub id: i64,
    pub name: String,
}

/// One curve and what it drives: the component (`axis`, such as `d|X`)
/// of the property `target_property` of element `target`, through curve
/// node `curve_node` in layer `layer` of stack `stack`.
#[derive(Debug)]
pub struct CurveBinding<'a> {
    pub curve: i64,
    pub curve_node: i64,
    pub axis: String,
    pub target: i64,
    pub target_property: String,
    pub layer: i64,
    pub stack: i64,
    pub keys: CurveKeys<'a>,
}

pub open spec fn binding_view(b: CurveBinding) -> BindingV {
    BindingV {
        curve: b.curve,
        curve_node: b.curve_node,
        axis: encode_utf8(b.axis@),
        target: b.target,
        target_property: encode_utf8(b.target_property@),
        layer: b.layer,
        stack: b.stack,
        times: b.keys.times@,
        values: b.keys.values.view_prop(),
    }
}

/// The stacks of a document and the curves bound into them.
#[derive(Debug)]
pub struct AnimationGraph<'a> {
    /// Every stack, once, by increasing id.
    pub stacks: Vec<AnimationStackEntry>,
    /// Every curve whose chain reaches a stack, once, by increasing
    /// curve id.
    pub bindings: Vec<CurveBinding<'a>>,
}

struct AnimTables<'a> {
    stacks: Vec<(i64, &'a FbxNode)>,
    layers: Vec<(i64, &'a FbxNode)>,
    curve_nodes: Vec<(i64, &'a FbxNode)>,
    curves: Vec<(i64, &'a FbxNode)>,
}

fn index_animation<'a>(root: &'a FbxNode) -> (t: AnimTables<'a>)
    ensures
        keyed(t.stacks@, anim_elements(node_view(*root)).stacks),
        keyed(t.layers@, anim_elements(node_view(*root)).layers),
        keyed(t.curve_nodes@, anim_elements(node_view(*root)).curve_nodes),
        keyed(t.curves@, anim_elements(node_view(*root)).curves),
{
    let mut t = AnimTables { stacks: Vec::new(), layers: Vec::new(), curve_nodes: Vec::new(), curves: Vec::new() };
    let ghost sb = "AnimationStack".spec_bytes();
    let ghost lb = "AnimationLayer".spec_bytes();
    let ghost nb = "AnimationCurveNode".spec_bytes();
    let ghost cb = "AnimationCurve".spec_bytes();
    match root.child("Objects") {
        Some(o) => {
            let ghost ov = nodes_view(o.children@);
            proof { lemma_nodes_view_len(o.children@); }
            let mut i: usize = 0;
            while i < o.children.len()
                invariant
                    i <= o.children@.len(),
                    ov == nodes_view(o.children@),
                    ov == objects_of(node_view(*root)),
                    ov.len() == o.children@.len(),
                    forall|k: int| 0 <= k < ov.len() ==> #[trigger] ov[k] == node_view(o.children@[k]),
                    sb == "AnimationStack".spec_bytes(),
                    lb == "AnimationLayer".spec_bytes(),
                    nb == "AnimationCurveNode".spec_bytes(),
                    cb == "AnimationCurve".spec_bytes(),
                    keyed(t.stacks@, anim_class_by_id(ov, sb, false, i as int)),
                    keyed(t.layers@, anim_class_by_id(ov, lb, false, i as int)),
                    keyed(t.curve_nodes@, anim_class_by_id(ov, nb, false, i as int)),
                    keyed(t.curves@, anim_class_by_id(ov, cb, true, i as int)),
                decreases o.children@.len() - i,
            {
                let c = &o.children[i];
                match object_id(c) {
                    Some(id) => {
                        let name = c.name.as_str().as_bytes();
                        if bytes_eq(name, "AnimationStack".as_bytes()) {
                            insert_keyed(&mut t.stacks, id, c, Ghost(anim_class_by_id(ov, sb, false, i as int)));
                        }
                        if bytes_eq(name, "AnimationLayer".as_bytes()) {
                            insert_keyed(&mut t.layers, id, c, Ghost(anim_class_by_id(ov, lb, false, i as int)));
                        }
                        if bytes_eq(name, "AnimationCurveNode".as_bytes()) {
                            insert_keyed(&mut t.curve_nodes, id, c, Ghost(anim_class_by_id(ov, nb, false, i as int)));
                        }
                        if bytes_eq(name, "AnimationCurve".as_bytes()) && curve_keys(c).is_some() {
                            insert_keyed(&mut t.curves, id, c, Ghost(anim_class_by_id(ov, cb, true, i as int)));
                        }
                    }
                    None => {}
                }
                i += 1;
            }
            t
        }
        None => {
            proof {
                let objs = objects_of(node_view(*root));
                assert(anim_class_by_id(objs, sb, false, 0) =~= Map::<i64, NodeV>::empty());
                assert(anim_class_by_id(objs, lb, false, 0) =~= Map::<i64, NodeV>::empty());
                assert(anim_class_by_id(objs, nb, false, 0) =~= Map::<i64, NodeV>::empty());
                assert(anim_class_by_id(objs, cb, true, 0) =~= Map::<i64, NodeV>::empty());
            }
            t
        }
    }
}

struct LinkTables {
    curve_node: Vec<(i64, i64, Vec<u8>)>,
    node_target: Vec<(i64, i64, Vec<u8>)>,
    node_layer: Vec<(i64, i64)>,
    layer_stack: Vec<(i64, i64)>,
}

spec fn tables_hold(t: AnimTables, e: AnimElements) -> bool {
    &&& keyed(t.stacks@, e.stacks)
    &&& keyed(t.layers@, e.layers)
    &&& keyed(t.curve_nodes@, e.curve_nodes)
    &&& keyed(t.curves@, e.curves)
}

spec fn links_hold(lt: LinkTables, l: AnimLinks) -> bool {
    &&& keyed_named(lt.curve_node@, l.curve_node)
    &&& keyed_named(lt.node_target@, l.node_target)
    &&& keyed_ids(lt.node_layer@, l.node_layer)
    &&& keyed_ids(lt.layer_stack@, l.layer_stack)
}

fn has_key<'a>(l: &Vec<(i64, &'a FbxNode)>, id: i64, Ghost(m): Ghost<Map<i64, NodeV>>) -> (r: bool)
    requires keyed(l@, m),
    ensures r == m.dom().contains(id),
{
    find_keyed(l, id, Ghost(m)).is_some()
}

/// The property name of an `OP` record (see [`op_property`]).
fn op_property_bytes(c: &FbxNode) -> (r: Option<Vec<u8>>)
    ensures
        match r {
            Some(b) => op_property(node_view(*c)) == Some(b@),
            None => op_property(node_view(*c)) is None,
        },
{
    if c.properties.len() <= 3 {
        return None;
    }
    proof { crate::ascii::lemma_props_view_index(c.properties@, 3); }
    match &c.properties[3] {
        FbxProperty::String(b) => {
            match crate::text::str_from_utf8(b.as_slice()) {
                Some(_) => {
                    let v = crate::bytes::copy_range(b.as_slice(), 0, b.len());
                    assert(b@.subrange(0, b@.len() as int) =~= b@);
                    Some(v)
                }
                None => None,
            }
        }
        _ => None,
    }
}

fn walk_anim_links<'a>(root: &FbxNode, t: &AnimTables<'a>, Ghost(e): Ghost<AnimElements>) -> (lt: LinkTables)
    requires tables_hold(*t, e),
    ensures links_hold(lt, anim_links(connections_of(node_view(*root)), connections_of(node_view(*root)).len() as int, e)),
{
    let mut lt = LinkTables { curve_node: Vec::new(), node_target: Vec::new(), node_layer: Vec::new(), layer_stack: Vec::new() };
    let ghost cs = connections_of(node_view(*root));
    proof {
        let l0 = anim_links(cs, 0, e);
        assert(l0.curve_node =~= Map::<i64, (i64, Seq<u8>)>::empty());
        assert(l0.node_target =~= Map::<i64, (i64, Seq<u8>)>::empty());
        assert(l0.node_layer =~= Map::<i64, i64>::empty());
        assert(l0.layer_stack =~= Map::<i64, i64>::empty());
    }
    match root.child("Connections") {
        Some(conns) => {
            let ghost cv = nodes_view(conns.children@);
            proof { lemma_nodes_view_len(conns.children@); }
            let mut i: usize = 0;
            while i < conns.children.len()
                invariant
                    i <= conns.children@.len(),
                    cv == nodes_view(conns.children@),
                    cv == cs,
                    cv.len() == conns.children@.len(),
                    forall|k: int| 0 <= k < cv.len() ==> #[trigger] cv[k] == node_view(conns.children@[k]),
                    tables_hold(*t, e),
                    links_hold(lt, anim_links(cv, i as int, e)),
                decreases conns.children@.len() - i,
            {
                let c = &conns.children[i];
                let ghost l = anim_links(cv, i as int, e);
                match connection_link(c) {
                    Some((k, ch, pa)) => {
                        if k == 1 {
                            match op_property_bytes(c) {
                                Some(p) => {
                                    if has_key(&t.curves, ch, Ghost(e.curves)) && has_key(&t.curve_nodes, pa, Ghost(e.curve_nodes)) {
                                        set_named(&mut lt.curve_node, ch, pa, p, Ghost(l.curve_node));
                                    } else if has_key(&t.curve_nodes, ch, Ghost(e.curve_nodes)) {
                                        set_named(&mut lt.node_target, ch, pa, p, Ghost(l.node_target));
                                    }
                                }
                                None => {}
                            }
                        } else if k == 0 {
                            proof { crate::objects::lemma_oo_op(); }
                            if has_key(&t.curve_nodes, ch, Ghost(e.curve_nodes)) && has_key(&t.layers, pa, Ghost(e.layers)) {
                                set_link(&mut lt.node_layer, ch, pa, Ghost(l.node_layer));
                            } else if has_key(&t.layers, ch, Ghost(e.layers)) && has_key(&t.stacks, pa, Ghost(e.stacks)) {
                                set_link(&mut lt.layer_stack, ch, pa, Ghost(l.layer_stack));
                            }
                        }
                    }
                    None => {}
                }
                i += 1;
            }
            lt
        }
        None => lt,
    }
}

fn bytes_string(b: &Vec<u8>) -> (r: String)
    requires valid_utf8(b@),
    ensures encode_utf8(r@) == b@,
{
    match crate::text::string_from_utf8(b.as_slice()) {
        Some(s) => s,
        None => String::new(),
    }
}

fn resolve_binding<'a>(id: i64, curve: &'a FbxNode, lt: &LinkTables, Ghost(e): Ghost<AnimElements>, Ghost(l): Ghost<AnimLinks>)
    -> (r: Option<CurveBinding<'a>>)
    requires
        links_hold(*lt, l),
        e.curves.dom().contains(id),
        e.curves[id] == node_view(*curve),
        curve_keys_of(node_view(*curve)) is Some,
        forall|k: i64| #[trigger] l.curve_node.dom().contains(k) ==> valid_utf8(l.curve_node[k].1),
        forall|k: i64| #[trigger] l.node_target.dom().contains(k) ==> valid_utf8(l.node_target[k].1),
    ensures
        match r {
            Some(b) => b.curve == id && binding_of(e, l, id) == Some(binding_view(b)),
            None => binding_of(e, l, id) is None,
        },
{
    let (cn, axis) = match get_named(&lt.curve_node, id, Ghost(l.curve_node)) {
        Some(x) => x,
        None => { return None; }
    };
    let (target, prop) = match get_named(&lt.node_target, cn, Ghost(l.node_target)) {
        Some(x) => x,
        None => { return None; }
    };
    let layer = match get_link(&lt.node_layer, cn, Ghost(l.node_layer)) {
        Some(x) => x,
        None => { return None; }
    };
    let stack = match get_link(&lt.layer_stack, layer, Ghost(l.layer_stack)) {
        Some(x) => x,
        None => { return None; }
    };
    let keys = match curve_keys(curve) {
        Some(k) => k,
        None => { return None; }
    };
    let axis = bytes_string(axis);
    let target_property = bytes_string(prop);
    Some(CurveBinding { curve: id, curve_node: cn, axis, target, target_property, layer, stack, keys })
}

proof fn lemma_link_names_valid(cs: Seq<NodeV>, i: int, e: AnimElements)
    ensures
        forall|k: i64| #[trigger] anim_links(cs, i, e).curve_node.dom().contains(k) ==> valid_utf8(anim_links(cs, i, e).curve_node[k].1),
        forall|k: i64| #[trigger] anim_links(cs, i, e).node_target.dom().contains(k) ==> valid_utf8(anim_links(cs, i, e).node_target[k].1),
    decreases i,
{
    if i > 0 {
        lemma_link_names_valid(cs, i - 1, e);
        let prev = anim_links(cs, i - 1, e);
        let cur = anim_links(cs, i, e);
        assert forall|k: i64| #[trigger] cur.curve_node.dom().contains(k) implies valid_utf8(cur.curve_node[k].1) by {
            if prev.curve_node.dom().contains(k) {
                assert(valid_utf8(prev.curve_node[k].1));
            }
        }
        assert forall|k: i64| #[trigger] cur.node_target.dom().contains(k) implies valid_utf8(cur.node_target[k].1) by {
            if prev.node_target.dom().contains(k) {
                assert(valid_utf8(prev.node_target[k].1));
            }
        }
    }
}

proof fn lemma_curves_have_keys(objs: Seq<NodeV>, i: int)
    ensures
        forall|k: i64| #[trigger] anim_class_by_id(objs, "AnimationCurve".spec_bytes(), true, i).dom().contains(k)
            ==> curve_keys_of(anim_class_by_id(objs, "AnimationCurve".spec_bytes(), true, i)[k]) is Some,
    decreases i,
{
    if i > 0 {
        lemma_curves_have_keys(objs, i - 1);
    }
}

/// The animation graph of a document: its stacks, and each curve whose
/// chain curve → curve node → (target, layer) → stack is linked, with
/// what it drives.
#[verifier::loop_isolation(false)]
pub fn animation_graph<'a>(doc: &'a FbxDocument) -> (g: AnimationGraph<'a>)
    ensures
        forall|a: int, b: int| 0 <= a < b < g.stacks@.len() ==> #[trigger] g.stacks@[a].id < #[trigger] g.stacks@[b].id,
        forall|a: int| 0 <= a < g.stacks@.len() ==> {
            let st = #[trigger] g.stacks@[a];
            anim_elements(node_view(doc.root)).stacks.dom().contains(st.id)
                && encode_utf8(st.name@) == stack_name(anim_elements(node_view(doc.root)).stacks[st.id])
        },
        forall|k: i64| #[trigger] anim_elements(node_view(doc.root)).stacks.dom().contains(k)
            ==> exists|a: int| 0 <= a < g.stacks@.len() && #[trigger] g.stacks@[a].id == k,
        forall|a: int, b: int| 0 <= a < b < g.bindings@.len() ==> #[trigger] g.bindings@[a].curve < #[trigger] g.bindings@[b].curve,
        forall|a: int| 0 <= a < g.bindings@.len() ==> binding_of(anim_elements(node_view(doc.root)), root_anim_links(node_view(doc.root)),
            #[trigger] g.bindings@[a].curve) == Some(binding_view(g.bindings@[a])),
        forall|k: i64| #[trigger] binding_of(anim_elements(node_view(doc.root)), root_anim_links(node_view(doc.root)), k) is Some
            ==> exists|a: int| 0 <= a < g.bindings@.len() && #[trigger] g.bindings@[a].curve == k,
{
    let root = &doc.root;
    let ghost e = anim_elements(node_view(*root));
    let ghost l = root_anim_links(node_view(*root));
    let t = index_animation(root);
    let lt = walk_anim_links(root, &t, Ghost(e));
    proof {
        let cs = connections_of(node_view(*root));
        lemma_link_names_valid(cs, cs.len() as int, e);
        let objs = objects_of(node_view(*root));
        lemma_curves_have_keys(objs, objs.len() as int);
    }
    let mut stacks: Vec<AnimationStackEntry> = Vec::new();
    let mut i: usize = 0;
    while i < t.stacks.len()
        invariant
            i <= t.stacks@.len(),
            keyed(t.stacks@, e.stacks),
            stacks@.len() == i,
            forall|a: int| 0 <= a < i ==> #[trigger] stacks@[a].id == t.stacks@[a].0,
            forall|a: int| 0 <= a < i ==> encode_utf8(#[trigger] stacks@[a].name@) == stack_name(e.stacks[t.stacks@[a].0]),
        decreases t.stacks@.len() - i,
    {
        let (id, n) = t.stacks[i];
        let name = match element_name(n) {
            Some(s) => s,
            None => {
                let s = String::new();
                proof { assert(encode_utf8(s@) =~= Seq::<u8>::empty()) by { assert(s@ =~= Seq::<char>::empty()); } }
                s
            }
        };
        stacks.push(AnimationStackEntry { id, name });
        i += 1;
    }
    let mut bindings: Vec<CurveBinding<'a>> = Vec::new();
    let mut j: usize = 0;
    while j < t.curves.len()
        invariant
            j <= t.curves@.len(),
            keyed(t.curves@, e.curves),
            links_hold(lt, l),
            forall|k: i64| #[trigger] l.curve_node.dom().contains(k) ==> valid_utf8(l.curve_node[k].1),
            forall|k: i64| #[trigger] l.node_target.dom().contains(k) ==> valid_utf8(l.node_target[k].1),
            forall|k: i64| #[trigger] e.curves.dom().contains(k) ==> curve_keys_of(e.curves[k]) is Some,
            forall|a: int| 0 <= a < bindings@.len() ==> exists|c: int| 0 <= c < j && #[trigger] bindings@[a].curve == t.curves@[c].0,
            forall|a: int, b: int| 0 <= a < b < bindings@.len() ==> #[trigger] bindings@[a].curve < #[trigger] bindings@[b].curve,
            forall|a: int| 0 <= a < bindings@.len() ==> binding_of(e, l, #[trigger] bindings@[a].curve) == Some(binding_view(bindings@[a])),
            forall|c: int| 0 <= c < j && #[trigger] binding_of(e, l, t.curves@[c].0) is Some
                ==> exists|a: int| 0 <= a < bindings@.len() && #[trigger] bindings@[a].curve == t.curves@[c].0,
        decreases t.curves@.len() - j,
    {
        let (id, n) = t.curves[j];
        let ghost before = bindings@;
        match resolve_binding(id, n, &lt, Ghost(e), Ghost(l)) {
            Some(b) => {
                bindings.push(b);
                proof {
                    assert forall|a: int, b2: int| 0 <= a < b2 < bindings@.len() implies #[trigger] bindings@[a].curve < #[trigger] bindings@[b2].curve by {
                        if b2 == bindings@.len() - 1 {
                            let c = choose|c: int| 0 <= c < j && #[trigger] before[a].curve == t.curves@[c].0;
                            assert(t.curves@[c].0 < t.curves@[j as int].0);
                        }
                    }
                    assert forall|a: int| 0 <= a < bindings@.len() implies exists|c: int| 0 <= c < j + 1 && #[trigger] bindings@[a].curve == t.curves@[c].0 by {
                        if a < before.len() {
                            let c = choose|c: int| 0 <= c < j && #[trigger] before[a].curve == t.curves@[c].0;
                            assert(bindings@[a].curve == t.curves@[c].0);
                        } else {
                            assert(bindings@[a].curve == t.curves@[j as int].0);
                        }
                    }
                    assert forall|c: int| 0 <= c < j + 1 && #[trigger] binding_of(e, l, t.curves@[c].0) is Some
                        implies exists|a: int| 0 <= a < bindings@.len() && #[trigger] bindings@[a].curve == t.curves@[c].0 by {
                        if c == j as int {
                            assert(bindings@[before.len() as int].curve == t.curves@[c].0);
                        } else {
                            let a = choose|a: int| 0 <= a < before.len() && #[trigger] before[a].curve == t.curves@[c].0;
                            assert(bindings@[a].curve == t.curves@[c].0);
                        }
                    }
                }
            }
            None => {}
        }
        j += 1;
    }
    proof {
        assert forall|k: i64| #[trigger] binding_of(e, l, k) is Some
            implies exists|a: int| 0 <= a < bindings@.len() && #[trigger] bindings@[a].curve == k by {
            assert(e.curves.dom().contains(k));
            let c = choose|c: int| 0 <= c < t.curves@.len() && #[trigger] t.curves@[c].0 == k;
            assert(binding_of(e, l, t.curves@[c].0) is Some);
        }
    }
    proof {
        assert forall|k: i64| #[trigger] e.stacks.dom().contains(k) implies exists|a: int| 0 <= a < stacks@.len() && #[trigger] stacks@[a].id == k by {
            let a = choose|a: int| 0 <= a < t.stacks@.len() && #[trigger] t.stacks@[a].0 == k;
            assert(stacks@[a].id == k);
        }
    }
    let ghost sv = stacks@;
    let g = AnimationGraph { stacks, bindings };
    assert(g.stacks@ == sv);
    assert(forall|k: i64| #[trigger] anim_elements(node_view(doc.root)).stacks.dom().contains(k)
            ==> exists|a: int| 0 <= a < g.stacks@.len() && #[trigger] g.stacks@[a].id == k);
    g
}

// ---------------------------------------------------------------------
// What a curve drives
// ---------------------------------------------------------------------

/// A node-transform property an animation channel drives.
#[derive(Clone, Copy, Debug, PartialEq, Eq, Structural)]
pub enum AnimatedProperty {
    Translation,
    Rotation,
    Scale,
}

/// The transform property a curve node's target property name names:
/// `Lcl Translation`, `Lcl Rotation` or `Lcl Scaling`.
pub open spec fn spec_property_for(name: Seq<u8>) -> Option<AnimatedProperty> {
    if name == "Lcl Translation".spec_bytes() {
        Some(AnimatedProperty::Translation)
    } else if name == "Lcl Rotation".spec_bytes() {
        Some(AnimatedProperty::Rotation)
    } else if name == "Lcl Scaling".spec_bytes() {
        Some(AnimatedProperty::Scale)
    } else {
        None
    }
}

/// The transform property named `name` (see [`spec_property_for`]).
pub fn property_for(name: &str) -> (r: Option<AnimatedProperty>)
    ensures r == spec_property_for(name.spec_bytes()),
{
    let b = name.as_bytes();
    if bytes_eq(b, "Lcl Translation".as_bytes()) {
        Some(AnimatedProperty::Translation)
    } else if bytes_eq(b, "Lcl Rotation".as_bytes()) {
        Some(AnimatedProperty::Rotation)
    } else if bytes_eq(b, "Lcl Scaling".as_bytes()) {
        Some(AnimatedProperty::Scale)
    } else {
        None
    }
}

/// What a bound curve contributes.
#[derive(Clone, Copy, Debug, PartialEq, Eq, Structural)]
pub enum CurveRole {
    /// A component of a transform property: `0`, `1`, `2` for the `d|X`,
    /// `d|Y`, `d|Z` curves, `None` for another component name.
    Component(AnimatedProperty, Option<u8>),
    /// The weight of a blend-shape channel (`d|DeformPercent` of
    /// `DeformPercent`).
    MorphWeight,
    /// Nothing this library surfaces.
    Unused,
}

/// The component index a curve's component name gives.
pub open spec fn spec_axis_index(axis: Seq<u8>) -> Option<u8> {
    if axis == "d|X".spec_bytes() {
        Some(0u8)
    } else if axis == "d|Y".spec_bytes() {
        Some(1u8)
    } else if axis == "d|Z".spec_bytes() {
        Some(2u8)
    } else {
        None
    }
}

/// The role of a curve that drives component `axis` of the target
/// property `target_property`.
pub open spec fn spec_curve_role(target_property: Seq<u8>, axis: Seq<u8>) -> CurveRole {
    match spec_property_for(target_property) {
        Some(p) => CurveRole::Component(p, spec_axis_index(axis)),
        None => if target_property == "DeformPercent".spec_bytes() && axis == "d|DeformPercent".spec_bytes() {
            CurveRole::MorphWeight
        } else {
            CurveRole::Unused
        },
    }
}

/// The role of a curve (see [`spec_curve_role`]).
pub fn curve_role(target_property: &str, axis: &str) -> (r: CurveRole)
    ensures r == spec_curve_role(target_property.spec_bytes(), axis.spec_bytes()),
{
    let a = axis.as_bytes();
    match property_for(target_property) {
        Some(p) => {
            let i = if bytes_eq(a, "d|X".as_bytes()) {
                Some(0u8)
            } else if bytes_eq(a, "d|Y".as_bytes()) {
                Some(1u8)
            } else if bytes_eq(a, "d|Z".as_bytes()) {
                Some(2u8)
            } else {
                None
            };
            CurveRole::Component(p, i)
        }
        None => {
            if bytes_eq(target_property.as_bytes(), "DeformPercent".as_bytes()) && bytes_eq(a, "d|DeformPercent".as_bytes()) {
                CurveRole::MorphWeight
            } else {
                CurveRole::Unused
            }
        }
    }
}


/// Curve nodes are named by the transform property they drive and
/// curves by the component: `Lcl Translation`, `Lcl Rotation` and
/// `Lcl Scaling` name translation, rotation and scale; `d|X`, `d|Y` and
/// `d|Z` name components `0`, `1` and `2`; a `d|DeformPercent` curve of
/// a `DeformPercent` node is a blend-shape weight.
pub proof fn lemma_curve_roles_by_name()
    ensures
        spec_curve_role("Lcl Translation".spec_bytes(), "d|X".spec_bytes()) == CurveRole::Component(AnimatedProperty::Translation, Some(0u8)),
        spec_curve_role("Lcl Rotation".spec_bytes(), "d|Y".spec_bytes()) == CurveRole::Component(AnimatedProperty::Rotation, Some(1u8)),
        spec_curve_role("Lcl Scaling".spec_bytes(), "d|Z".spec_bytes()) == CurveRole::Component(AnimatedProperty::Scale, Some(2u8)),
        spec_curve_role("Lcl Translation".spec_bytes(), "d|Z".spec_bytes()) == CurveRole::Component(AnimatedProperty::Translation, Some(2u8)),
        spec_curve_role("Lcl Scaling".spec_bytes(), "d|X".spec_bytes()) == CurveRole::Component(AnimatedProperty::Scale, Some(0u8)),
        spec_curve_role("DeformPercent".spec_bytes(), "d|DeformPercent".spec_bytes()) == CurveRole::MorphWeight,
{
    reveal_strlit("Lcl Translation");
    reveal_strlit("Lcl Rotation");
    reveal_strlit("Lcl Scaling");
    reveal_strlit("DeformPercent");
    reveal_strlit("d|X");
    reveal_strlit("d|Y");
    reveal_strlit("d|Z");
    reveal_strlit("d|DeformPercent");
    crate::ascii::lemma_ascii_literal("Lcl Translation");
    crate::ascii::lemma_ascii_literal("Lcl Rotation");
    crate::ascii::lemma_ascii_literal("Lcl Scaling");
    crate::ascii::lemma_ascii_literal("DeformPercent");
    crate::ascii::lemma_ascii_literal("d|X");
    crate::ascii::lemma_ascii_literal("d|Y");
    crate::ascii::lemma_ascii_literal("d|Z");
    crate::ascii::lemma_ascii_literal("d|DeformPercent");
    let t = "Lcl Translation".spec_bytes();
    let r = "Lcl Rotation".spec_bytes();
    let s = "Lcl Scaling".spec_bytes();
    let dp = "DeformPercent".spec_bytes();
    let x = "d|X".spec_bytes();
    let y = "d|Y".spec_bytes();
    let z = "d|Z".spec_bytes();
    assert(t.len() == 15 && r.len() == 12 && s.len() == 11 && dp.len() == 13);
    assert(x.len() == 3 && y.len() == 3 && z.len() == 3);
    assert(x[2] != y[2] && x[2] != z[2] && y[2] != z[2]);
    assert(t != r && t != s && r != s && dp != t && dp != r && dp != s);
    assert(x != y && x != z && y != z);
}

} // verus!
