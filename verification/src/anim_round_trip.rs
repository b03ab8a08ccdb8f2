//! Reading back a written animation: the graph of a document holding
//! the elements and connections [`crate::anim_writer`] writes binds
//! every written curve to its curve node, target property, layer and
//! stack.

use vstd::prelude::*;
use vstd::string::StringSliceAdditionalSpecFns;
use vstd::utf8::encode_utf8;
use crate::anim_writer::{
    curve_v, element_v, node_connections, node_objects, nodes_connections, nodes_objects, oo_v, op_v,
    stack_connections, stack_objects, stacks_connections, stacks_objects, CurveEmit, CurveNodeEmit, StackEmit,
};
use crate::animation::{stack_name, anim_class_by_id, anim_elements, anim_links, binding_of, curve_keys_of, op_property, root_anim_links, AnimElements, BindingV};
use crate::kinds::objects_of;
use crate::objects::connections_of;
use vstd::utf8::valid_utf8;
use crate::model::{first_named, root_v, NodeV, PropV};
use crate::objects::{link, obj_id};

verus! {

broadcast use vstd::seq_lib::lemma_seq_concat_contains_all_elements;

/// A place in a list of stacks to write: a stack, its layer, one of its
/// curve nodes, or one of a curve node's curves.
pub enum Slot {
    Stack(int),
    Layer(int),
    Node(int, int),
    Curve(int, int, int),
}

pub open spec fn valid_slot(ss: Seq<StackEmit>, t: Slot) -> bool {
    match t {
        Slot::Stack(a) => 0 <= a < ss.len(),
        Slot::Layer(a) => 0 <= a < ss.len(),
        Slot::Node(a, b) => 0 <= a < ss.len() && 0 <= b < ss[a].curve_nodes@.len(),
        Slot::Curve(a, b, k) => 0 <= a < ss.len() && 0 <= b < ss[a].curve_nodes@.len()
            && 0 <= k < ss[a].curve_nodes@[b].curves@.len(),
    }
}

/// The stack a slot belongs to.
pub open spec fn slot_stack(t: Slot) -> int {
    match t {
        Slot::Stack(a) => a,
        Slot::Layer(a) => a,
        Slot::Node(a, _) => a,
        Slot::Curve(a, _, _) => a,
    }
}

/// The id written for a slot.
pub open spec fn slot_id(ss: Seq<StackEmit>, t: Slot) -> i64 {
    match t {
        Slot::Stack(a) => ss[a].id,
        Slot::Layer(a) => ss[a].layer_id,
        Slot::Node(a, b) => ss[a].curve_nodes@[b].id,
        Slot::Curve(a, b, k) => ss[a].curve_nodes@[b].curves@[k].id,
    }
}

/// The element written for a slot.
pub open spec fn slot_object(ss: Seq<StackEmit>, t: Slot) -> NodeV {
    match t {
        Slot::Stack(a) => element_v("AnimationStack".spec_bytes(), ss[a].id, encode_utf8(ss[a].name@), Seq::empty()),
        Slot::Layer(a) => element_v("AnimationLayer".spec_bytes(), ss[a].layer_id, "BaseLayer".spec_bytes(), Seq::empty()),
        Slot::Node(a, b) => element_v(
            "AnimationCurveNode".spec_bytes(),
            ss[a].curve_nodes@[b].id,
            encode_utf8(ss[a].curve_nodes@[b].property@),
            Seq::empty(),
        ),
        Slot::Curve(a, b, k) => curve_v(ss[a].curve_nodes@[b].curves@[k]),
    }
}

/// The connections written for a slot.
pub open spec fn slot_connections(ss: Seq<StackEmit>, t: Slot) -> Seq<NodeV> {
    match t {
        Slot::Stack(a) => Seq::empty(),
        Slot::Layer(a) => seq![oo_v(ss[a].layer_id, ss[a].id)],
        Slot::Node(a, b) => {
            let n = ss[a].curve_nodes@[b];
            seq![op_v(n.id, n.target, encode_utf8(n.property@)), oo_v(n.id, ss[a].layer_id)]
        },
        Slot::Curve(a, b, k) => {
            let n = ss[a].curve_nodes@[b];
            seq![op_v(n.curves@[k].id, n.id, encode_utf8(n.curves@[k].axis@))]
        },
    }
}

proof fn lemma_node_objects_members(ss: Seq<StackEmit>, a: int, m: int)
    requires 0 <= a < ss.len(), 0 <= m <= ss[a].curve_nodes@.len(),
    ensures
        forall|t: Slot| valid_slot(ss, t) && slot_stack(t) == a && (t matches Slot::Node(_, b) && b < m)
            ==> nodes_objects(ss[a].curve_nodes@, m).contains(#[trigger] slot_object(ss, t)),
        forall|t: Slot| valid_slot(ss, t) && slot_stack(t) == a && (t matches Slot::Curve(_, b, _) && b < m)
            ==> nodes_objects(ss[a].curve_nodes@, m).contains(#[trigger] slot_object(ss, t)),
        forall|x: NodeV| #[trigger] nodes_objects(ss[a].curve_nodes@, m).contains(x) ==> exists|t: Slot| valid_slot(ss, t)
            && slot_stack(t) == a && ((t matches Slot::Node(_, b) && b < m) || (t matches Slot::Curve(_, b, _) && b < m))
            && #[trigger] slot_object(ss, t) == x,
    decreases m,
{
    let ns = ss[a].curve_nodes@;
    if m > 0 {
        lemma_node_objects_members(ss, a, m - 1);
        let n = ns[m - 1];
        let prev = nodes_objects(ns, m - 1);
        let cur = node_objects(n);
        assert(nodes_objects(ns, m) == prev + cur);
        assert(cur[0] == slot_object(ss, Slot::Node(a, m - 1)));
        assert forall|k: int| 0 <= k < n.curves@.len() implies cur.contains(#[trigger] slot_object(ss, Slot::Curve(a, m - 1, k))) by {
            assert(cur[k + 1] == curve_v(n.curves@[k]));
        }
        assert forall|t: Slot| valid_slot(ss, t) && slot_stack(t) == a && (t matches Slot::Node(_, b) && b < m)
            implies nodes_objects(ns, m).contains(#[trigger] slot_object(ss, t)) by {
            if let Slot::Node(_, b) = t {
                if b == m - 1 {
                    assert(cur.contains(slot_object(ss, t)));
                } else {
                    assert(prev.contains(slot_object(ss, t)));
                }
            }
        }
        assert forall|t: Slot| valid_slot(ss, t) && slot_stack(t) == a && (t matches Slot::Curve(_, b, _) && b < m)
            implies nodes_objects(ns, m).contains(#[trigger] slot_object(ss, t)) by {
            if let Slot::Curve(_, b, k) = t {
                if b == m - 1 {
                    assert(cur.contains(slot_object(ss, Slot::Curve(a, m - 1, k))));
                } else {
                    assert(prev.contains(slot_object(ss, t)));
                }
            }
        }
        assert forall|x: NodeV| #[trigger] nodes_objects(ns, m).contains(x) implies exists|t: Slot| valid_slot(ss, t)
            && slot_stack(t) == a && ((t matches Slot::Node(_, b) && b < m) || (t matches Slot::Curve(_, b, _) && b < m))
            && #[trigger] slot_object(ss, t) == x by {
            if prev.contains(x) {
                let t = choose|t: Slot| valid_slot(ss, t)
                    && slot_stack(t) == a && ((t matches Slot::Node(_, b) && b < m - 1) || (t matches Slot::Curve(_, b, _) && b < m - 1))
                    && #[trigger] slot_object(ss, t) == x;
                assert(valid_slot(ss, t) && slot_object(ss, t) == x);
            } else {
                assert(cur.contains(x));
                let i = choose|i: int| 0 <= i < cur.len() && cur[i] == x;
                if i == 0 {
                    assert(slot_object(ss, Slot::Node(a, m - 1)) == x);
                } else {
                    assert(cur[i] == curve_v(n.curves@[i - 1]));
                    assert(slot_object(ss, Slot::Curve(a, m - 1, i - 1)) == x);
                }
            }
        }
    }
}

proof fn lemma_stack_objects_members(ss: Seq<StackEmit>, i: int)
    requires 0 <= i <= ss.len(),
    ensures
        forall|t: Slot| valid_slot(ss, t) && slot_stack(t) < i ==> stacks_objects(ss, i).contains(#[trigger] slot_object(ss, t)),
        forall|x: NodeV| #[trigger] stacks_objects(ss, i).contains(x) ==> exists|t: Slot| valid_slot(ss, t)
            && slot_stack(t) < i && #[trigger] slot_object(ss, t) == x,
    decreases i,
{
    if i > 0 {
        lemma_stack_objects_members(ss, i - 1);
        let a = i - 1;
        let s = ss[a];
        let m = s.curve_nodes@.len() as int;
        lemma_node_objects_members(ss, a, m);
        let prev = stacks_objects(ss, i - 1);
        let head = seq![
            element_v("AnimationStack".spec_bytes(), s.id, encode_utf8(s.name@), Seq::empty()),
            element_v("AnimationLayer".spec_bytes(), s.layer_id, "BaseLayer".spec_bytes(), Seq::empty()),
        ];
        let rest = nodes_objects(s.curve_nodes@, m);
        assert(stack_objects(s) == head + rest);
        assert(stacks_objects(ss, i) == prev + (head + rest));
        assert(head[0] == slot_object(ss, Slot::Stack(a)));
        assert(head[1] == slot_object(ss, Slot::Layer(a)));
        assert forall|t: Slot| valid_slot(ss, t) && slot_stack(t) < i implies stacks_objects(ss, i).contains(#[trigger] slot_object(ss, t)) by {
            if slot_stack(t) < a {
                assert(prev.contains(slot_object(ss, t)));
            } else {
                match t {
                    Slot::Stack(_) => { assert(head.contains(slot_object(ss, t))); }
                    Slot::Layer(_) => { assert(head.contains(slot_object(ss, t))); }
                    Slot::Node(_, b) => { assert(rest.contains(slot_object(ss, t))); }
                    Slot::Curve(_, b, _) => { assert(rest.contains(slot_object(ss, t))); }
                }
            }
        }
        assert forall|x: NodeV| #[trigger] stacks_objects(ss, i).contains(x) implies exists|t: Slot| valid_slot(ss, t)
            && slot_stack(t) < i && #[trigger] slot_object(ss, t) == x by {
            if prev.contains(x) {
                let t = choose|t: Slot| valid_slot(ss, t) && slot_stack(t) < i - 1 && #[trigger] slot_object(ss, t) == x;
                assert(valid_slot(ss, t) && slot_object(ss, t) == x);
            } else if head.contains(x) {
                let j = choose|j: int| 0 <= j < head.len() && head[j] == x;
                if j == 0 {
                    assert(slot_object(ss, Slot::Stack(a)) == x);
                } else {
                    assert(slot_object(ss, Slot::Layer(a)) == x);
                }
            } else {
                assert(rest.contains(x));
                let t = choose|t: Slot| valid_slot(ss, t)
                    && slot_stack(t) == a && ((t matches Slot::Node(_, b) && b < m) || (t matches Slot::Curve(_, b, _) && b < m))
                    && #[trigger] slot_object(ss, t) == x;
                assert(valid_slot(ss, t) && slot_object(ss, t) == x);
            }
        }
    }
}

proof fn lemma_node_connections_members(ss: Seq<StackEmit>, a: int, m: int)
    requires 0 <= a < ss.len(), 0 <= m <= ss[a].curve_nodes@.len(),
    ensures
        forall|t: Slot, y: NodeV| valid_slot(ss, t) && slot_stack(t) == a
            && ((t matches Slot::Node(_, b) && b < m) || (t matches Slot::Curve(_, b, _) && b < m))
            && #[trigger] slot_connections(ss, t).contains(y)
            ==> #[trigger] nodes_connections(ss[a].curve_nodes@, m, ss[a].layer_id).contains(y),
        forall|x: NodeV| #[trigger] nodes_connections(ss[a].curve_nodes@, m, ss[a].layer_id).contains(x) ==> exists|t: Slot| valid_slot(ss, t)
            && slot_stack(t) == a && ((t matches Slot::Node(_, b) && b < m) || (t matches Slot::Curve(_, b, _) && b < m))
            && #[trigger] slot_connections(ss, t).contains(x),
    decreases m,
{
    let ns = ss[a].curve_nodes@;
    let layer = ss[a].layer_id;
    if m > 0 {
        lemma_node_connections_members(ss, a, m - 1);
        let n = ns[m - 1];
        let prev = nodes_connections(ns, m - 1, layer);
        let cur = node_connections(n, layer);
        assert(nodes_connections(ns, m, layer) == prev + cur);
        assert forall|t: Slot, y: NodeV| valid_slot(ss, t) && slot_stack(t) == a
            && ((t matches Slot::Node(_, b) && b < m) || (t matches Slot::Curve(_, b, _) && b < m))
            && #[trigger] slot_connections(ss, t).contains(y)
            implies #[trigger] nodes_connections(ns, m, layer).contains(y) by {
            let sc = slot_connections(ss, t);
            let j = choose|j: int| 0 <= j < sc.len() && sc[j] == y;
            match t {
                Slot::Node(_, b) => {
                    if b == m - 1 {
                        assert(cur[j] == y);
                        assert(cur.contains(y));
                    } else {
                        assert(prev.contains(y));
                    }
                }
                Slot::Curve(_, b, k) => {
                    if b == m - 1 {
                        assert(cur[k + 2] == y);
                        assert(cur.contains(y));
                    } else {
                        assert(prev.contains(y));
                    }
                }
                _ => {}
            }
        }
        assert forall|x: NodeV| #[trigger] nodes_connections(ns, m, layer).contains(x) implies exists|t: Slot| valid_slot(ss, t)
            && slot_stack(t) == a && ((t matches Slot::Node(_, b) && b < m) || (t matches Slot::Curve(_, b, _) && b < m))
            && #[trigger] slot_connections(ss, t).contains(x) by {
            if prev.contains(x) {
                let t = choose|t: Slot| valid_slot(ss, t)
                    && slot_stack(t) == a && ((t matches Slot::Node(_, b) && b < m - 1) || (t matches Slot::Curve(_, b, _) && b < m - 1))
                    && #[trigger] slot_connections(ss, t).contains(x);
                assert(valid_slot(ss, t) && slot_connections(ss, t).contains(x));
            } else {
                assert(cur.contains(x));
                let i = choose|i: int| 0 <= i < cur.len() && cur[i] == x;
                if i < 2 {
                    assert(slot_connections(ss, Slot::Node(a, m - 1))[i] == x);
                    assert(slot_connections(ss, Slot::Node(a, m - 1)).contains(x));
                } else {
                    assert(slot_connections(ss, Slot::Curve(a, m - 1, i - 2))[0] == x);
                    assert(slot_connections(ss, Slot::Curve(a, m - 1, i - 2)).contains(x));
                }
            }
        }
    }
}

proof fn lemma_stack_connections_members(ss: Seq<StackEmit>, i: int)
    requires 0 <= i <= ss.len(),
    ensures
        forall|t: Slot, y: NodeV| valid_slot(ss, t) && slot_stack(t) < i && #[trigger] slot_connections(ss, t).contains(y)
            ==> #[trigger] stacks_connections(ss, i).contains(y),
        forall|x: NodeV| #[trigger] stacks_connections(ss, i).contains(x) ==> exists|t: Slot| valid_slot(ss, t)
            && slot_stack(t) < i && #[trigger] slot_connections(ss, t).contains(x),
    decreases i,
{
    if i > 0 {
        lemma_stack_connections_members(ss, i - 1);
        let a = i - 1;
        let s = ss[a];
        let m = s.curve_nodes@.len() as int;
        lemma_node_connections_members(ss, a, m);
        let prev = stacks_connections(ss, i - 1);
        let head = seq![oo_v(s.layer_id, s.id)];
        let rest = nodes_connections(s.curve_nodes@, m, s.layer_id);
        assert(stack_connections(s) == head + rest);
        assert(stacks_connections(ss, i) == prev + (head + rest));
        assert forall|t: Slot, y: NodeV| valid_slot(ss, t) && slot_stack(t) < i && #[trigger] slot_connections(ss, t).contains(y)
            implies #[trigger] stacks_connections(ss, i).contains(y) by {
            if slot_stack(t) < a {
                assert(prev.contains(y));
            } else {
                match t {
                    Slot::Stack(_) => {}
                    Slot::Layer(_) => { assert(head.contains(y)); }
                    Slot::Node(_, b) => { assert(rest.contains(y)); }
                    Slot::Curve(_, b, _) => { assert(rest.contains(y)); }
                }
            }
        }
        assert forall|x: NodeV| #[trigger] stacks_connections(ss, i).contains(x) implies exists|t: Slot| valid_slot(ss, t)
            && slot_stack(t) < i && #[trigger] slot_connections(ss, t).contains(x) by {
            if prev.contains(x) {
                let t = choose|t: Slot| valid_slot(ss, t) && slot_stack(t) < i - 1 && #[trigger] slot_connections(ss, t).contains(x);
                assert(valid_slot(ss, t) && slot_connections(ss, t).contains(x));
            } else if head.contains(x) {
                assert(slot_connections(ss, Slot::Layer(a))[0] == x);
                assert(slot_connections(ss, Slot::Layer(a)).contains(x));
            } else {
                assert(rest.contains(x));
                let t = choose|t: Slot| valid_slot(ss, t)
                    && slot_stack(t) == a && ((t matches Slot::Node(_, b) && b < m) || (t matches Slot::Curve(_, b, _) && b < m))
                    && #[trigger] slot_connections(ss, t).contains(x);
                assert(valid_slot(ss, t) && slot_connections(ss, t).contains(x));
            }
        }
    }
}

// ---------------------------------------------------------------------
// Elements and links of a sequence, one key at a time
// ---------------------------------------------------------------------

/// Whether `y` is an element of class `cls` with id `id` (and, with
/// `need_keys`, curve keys).
pub open spec fn qualifies(y: NodeV, cls: Seq<u8>, need_keys: bool, id: i64) -> bool {
    y.name == cls && obj_id(y) == Some(id) && (!need_keys || curve_keys_of(y) is Some)
}

proof fn lemma_class_dom(objs: Seq<NodeV>, cls: Seq<u8>, nk: bool, i: int, id: i64)
    requires 0 <= i <= objs.len(),
    ensures anim_class_by_id(objs, cls, nk, i).dom().contains(id) <==> exists|j: int| 0 <= j < i && qualifies(objs[j], cls, nk, id),
    decreases i,
{
    if i > 0 {
        lemma_class_dom(objs, cls, nk, i - 1, id);
        if !qualifies(objs[i - 1], cls, nk, id) {
            assert forall|j: int| 0 <= j < i && qualifies(objs[j], cls, nk, id) implies 0 <= j < i - 1 by {}
        }
    }
}

proof fn lemma_class_lookup(objs: Seq<NodeV>, cls: Seq<u8>, nk: bool, i: int, id: i64, x: NodeV)
    requires
        0 <= i <= objs.len(),
        forall|j: int| 0 <= j < i && qualifies(objs[j], cls, nk, id) ==> objs[j] == x,
    ensures
        anim_class_by_id(objs, cls, nk, i).dom().contains(id) <==> exists|j: int| 0 <= j < i && qualifies(objs[j], cls, nk, id),
        anim_class_by_id(objs, cls, nk, i).dom().contains(id) ==> anim_class_by_id(objs, cls, nk, i)[id] == x,
    decreases i,
{
    if i > 0 {
        lemma_class_lookup(objs, cls, nk, i - 1, id, x);
        if qualifies(objs[i - 1], cls, nk, id) {
            assert(anim_class_by_id(objs, cls, nk, i).dom().contains(id));
        } else {
            assert forall|j: int| 0 <= j < i && qualifies(objs[j], cls, nk, id) implies 0 <= j < i - 1 by {}
        }
    }
}

/// The `(curve, (curve node, component))` entry a connection records.
pub open spec fn fires_curve_node(c: NodeV, e: AnimElements) -> Option<(i64, (i64, Seq<u8>))> {
    match link(c) {
        Some((k, ch, pa)) => if k == "OP".spec_bytes() && op_property(c) is Some
            && e.curves.dom().contains(ch) && e.curve_nodes.dom().contains(pa)
        {
            Some((ch, (pa, op_property(c)->Some_0)))
        } else {
            None
        },
        None => None,
    }
}

/// The `(curve node, (target, property))` entry a connection records.
pub open spec fn fires_node_target(c: NodeV, e: AnimElements) -> Option<(i64, (i64, Seq<u8>))> {
    match link(c) {
        Some((k, ch, pa)) => if k == "OP".spec_bytes() && op_property(c) is Some
            && !(e.curves.dom().contains(ch) && e.curve_nodes.dom().contains(pa)) && e.curve_nodes.dom().contains(ch)
        {
            Some((ch, (pa, op_property(c)->Some_0)))
        } else {
            None
        },
        None => None,
    }
}

/// The `(curve node, layer)` entry a connection records.
pub open spec fn fires_node_layer(c: NodeV, e: AnimElements) -> Option<(i64, i64)> {
    match link(c) {
        Some((k, ch, pa)) => if k == "OO".spec_bytes() && e.curve_nodes.dom().contains(ch) && e.layers.dom().contains(pa) {
            Some((ch, pa))
        } else {
            None
        },
        None => None,
    }
}

/// The `(layer, stack)` entry a connection records.
pub open spec fn fires_layer_stack(c: NodeV, e: AnimElements) -> Option<(i64, i64)> {
    match link(c) {
        Some((k, ch, pa)) => if k == "OO".spec_bytes() && !(e.curve_nodes.dom().contains(ch) && e.layers.dom().contains(pa))
            && e.layers.dom().contains(ch) && e.stacks.dom().contains(pa)
        {
            Some((ch, pa))
        } else {
            None
        },
        None => None,
    }
}

proof fn lemma_links_step(cs: Seq<NodeV>, i: int, e: AnimElements)
    requires 0 < i <= cs.len(),
    ensures
        ({
            let prev = anim_links(cs, i - 1, e);
            let cur = anim_links(cs, i, e);
            let c = cs[i - 1];
            &&& cur.curve_node == (match fires_curve_node(c, e) { Some((k, v)) => prev.curve_node.insert(k, v), None => prev.curve_node })
            &&& cur.node_target == (match fires_node_target(c, e) { Some((k, v)) => prev.node_target.insert(k, v), None => prev.node_target })
            &&& cur.node_layer == (match fires_node_layer(c, e) { Some((k, v)) => prev.node_layer.insert(k, v), None => prev.node_layer })
            &&& cur.layer_stack == (match fires_layer_stack(c, e) { Some((k, v)) => prev.layer_stack.insert(k, v), None => prev.layer_stack })
        }),
{
    crate::objects::lemma_oo_op();
}

proof fn lemma_curve_node_entry(cs: Seq<NodeV>, i: int, e: AnimElements, key: i64, v: (i64, Seq<u8>))
    requires
        0 <= i <= cs.len(),
        forall|j: int| 0 <= j < i && (fires_curve_node(cs[j], e) matches Some((k2, _)) && k2 == key)
            ==> fires_curve_node(cs[j], e) == Some((key, v)),
    ensures
        anim_links(cs, i, e).curve_node.dom().contains(key) ==> anim_links(cs, i, e).curve_node[key] == v,
        (exists|j: int| 0 <= j < i && fires_curve_node(cs[j], e) == Some((key, v))) ==> anim_links(cs, i, e).curve_node.dom().contains(key),
    decreases i,
{
    if i > 0 {
        lemma_curve_node_entry(cs, i - 1, e, key, v);
        lemma_links_step(cs, i, e);
    }
}

proof fn lemma_node_target_entry(cs: Seq<NodeV>, i: int, e: AnimElements, key: i64, v: (i64, Seq<u8>))
    requires
        0 <= i <= cs.len(),
        forall|j: int| 0 <= j < i && (fires_node_target(cs[j], e) matches Some((k2, _)) && k2 == key)
            ==> fires_node_target(cs[j], e) == Some((key, v)),
    ensures
        anim_links(cs, i, e).node_target.dom().contains(key) ==> anim_links(cs, i, e).node_target[key] == v,
        (exists|j: int| 0 <= j < i && fires_node_target(cs[j], e) == Some((key, v))) ==> anim_links(cs, i, e).node_target.dom().contains(key),
    decreases i,
{
    if i > 0 {
        lemma_node_target_entry(cs, i - 1, e, key, v);
        lemma_links_step(cs, i, e);
    }
}

proof fn lemma_node_layer_entry(cs: Seq<NodeV>, i: int, e: AnimElements, key: i64, v: i64)
    requires
        0 <= i <= cs.len(),
        forall|j: int| 0 <= j < i && (fires_node_layer(cs[j], e) matches Some((k2, _)) && k2 == key)
            ==> fires_node_layer(cs[j], e) == Some((key, v)),
    ensures
        anim_links(cs, i, e).node_layer.dom().contains(key) ==> anim_links(cs, i, e).node_layer[key] == v,
        (exists|j: int| 0 <= j < i && fires_node_layer(cs[j], e) == Some((key, v))) ==> anim_links(cs, i, e).node_layer.dom().contains(key),
    decreases i,
{
    if i > 0 {
        lemma_node_layer_entry(cs, i - 1, e, key, v);
        lemma_links_step(cs, i, e);
    }
}

proof fn lemma_layer_stack_entry(cs: Seq<NodeV>, i: int, e: AnimElements, key: i64, v: i64)
    requires
        0 <= i <= cs.len(),
        forall|j: int| 0 <= j < i && (fires_layer_stack(cs[j], e) matches Some((k2, _)) && k2 == key)
            ==> fires_layer_stack(cs[j], e) == Some((key, v)),
    ensures
        anim_links(cs, i, e).layer_stack.dom().contains(key) ==> anim_links(cs, i, e).layer_stack[key] == v,
        (exists|j: int| 0 <= j < i && fires_layer_stack(cs[j], e) == Some((key, v))) ==> anim_links(cs, i, e).layer_stack.dom().contains(key),
    decreases i,
{
    if i > 0 {
        lemma_layer_stack_entry(cs, i - 1, e, key, v);
        lemma_links_step(cs, i, e);
    }
}

// ---------------------------------------------------------------------
// What the written document reads back as
// ---------------------------------------------------------------------

/// The document holding what `ss` writes: its elements under `Objects`
/// and its connections under `Connections`.
pub open spec fn written_root(ss: Seq<StackEmit>) -> NodeV {
    root_v(seq![
        NodeV { name: "Objects".spec_bytes(), properties: Seq::empty(), children: stacks_objects(ss, ss.len() as int) },
        NodeV { name: "Connections".spec_bytes(), properties: Seq::empty(), children: stacks_connections(ss, ss.len() as int) },
    ])
}

/// Every written element has an id of its own.
pub open spec fn fresh_ids(ss: Seq<StackEmit>) -> bool {
    forall|t1: Slot, t2: Slot| valid_slot(ss, t1) && valid_slot(ss, t2) && #[trigger] slot_id(ss, t1) == #[trigger] slot_id(ss, t2)
        ==> t1 == t2
}

/// The class an element of a slot is written under.
pub open spec fn slot_class(t: Slot) -> Seq<u8> {
    match t {
        Slot::Stack(_) => "AnimationStack".spec_bytes(),
        Slot::Layer(_) => "AnimationLayer".spec_bytes(),
        Slot::Node(_, _) => "AnimationCurveNode".spec_bytes(),
        Slot::Curve(_, _, _) => "AnimationCurve".spec_bytes(),
    }
}

/// The four classes differ, so an element's class tells its kind of
/// slot.
proof fn lemma_slot_classes(t1: Slot, t2: Slot)
    ensures
        slot_class(t1) == slot_class(t2) ==> (
            (t1 is Stack && t2 is Stack) || (t1 is Layer && t2 is Layer) || (t1 is Node && t2 is Node) || (t1 is Curve && t2 is Curve)
        ),
{
    reveal_strlit("AnimationStack");
    reveal_strlit("AnimationLayer");
    reveal_strlit("AnimationCurveNode");
    reveal_strlit("AnimationCurve");
    crate::ascii::lemma_ascii_literal("AnimationStack");
    crate::ascii::lemma_ascii_literal("AnimationLayer");
    crate::ascii::lemma_ascii_literal("AnimationCurveNode");
    crate::ascii::lemma_ascii_literal("AnimationCurve");
    assert("AnimationStack".spec_bytes()[9] == 83u8);
    assert("AnimationLayer".spec_bytes()[9] == 76u8);
    assert("AnimationCurve".spec_bytes()[9] == 67u8);
    assert("AnimationCurveNode".spec_bytes().len() == 18);
    assert("AnimationStack".spec_bytes().len() == 14);
    assert("AnimationLayer".spec_bytes().len() == 14);
    assert("AnimationCurve".spec_bytes().len() == 14);
}

proof fn lemma_slot_object_facts(ss: Seq<StackEmit>, t: Slot)
    requires valid_slot(ss, t),
    ensures
        slot_object(ss, t).name == slot_class(t),
        obj_id(slot_object(ss, t)) == Some(slot_id(ss, t)),
{
}

/// Among the written elements, the only one of `t`'s class with `t`'s
/// id is `t`'s own.
proof fn lemma_only_object(ss: Seq<StackEmit>, t: Slot, nk: bool)
    requires fresh_ids(ss), valid_slot(ss, t),
    ensures
        forall|j: int| 0 <= j < stacks_objects(ss, ss.len() as int).len()
            && qualifies(#[trigger] stacks_objects(ss, ss.len() as int)[j], slot_class(t), nk, slot_id(ss, t))
            ==> stacks_objects(ss, ss.len() as int)[j] == slot_object(ss, t),
{
    let objs = stacks_objects(ss, ss.len() as int);
    lemma_stack_objects_members(ss, ss.len() as int);
    assert forall|j: int| 0 <= j < objs.len() && qualifies(#[trigger] objs[j], slot_class(t), nk, slot_id(ss, t))
        implies objs[j] == slot_object(ss, t) by {
        assert(objs.contains(objs[j]));
        let t2 = choose|t2: Slot| valid_slot(ss, t2) && slot_stack(t2) < ss.len() && #[trigger] slot_object(ss, t2) == objs[j];
        lemma_slot_object_facts(ss, t2);
        assert(slot_id(ss, t2) == slot_id(ss, t));
    }
}

/// No written element of `cls`'s kind carries the id of a slot of
/// another kind.
proof fn lemma_no_object(ss: Seq<StackEmit>, t: Slot, u: Slot, nk: bool)
    requires
        fresh_ids(ss),
        valid_slot(ss, t),
        !((t is Stack && u is Stack) || (t is Layer && u is Layer) || (t is Node && u is Node) || (t is Curve && u is Curve)),
    ensures
        forall|j: int| 0 <= j < stacks_objects(ss, ss.len() as int).len()
            ==> !qualifies(#[trigger] stacks_objects(ss, ss.len() as int)[j], slot_class(u), nk, slot_id(ss, t)),
{
    let objs = stacks_objects(ss, ss.len() as int);
    lemma_stack_objects_members(ss, ss.len() as int);
    assert forall|j: int| 0 <= j < objs.len() implies !qualifies(#[trigger] objs[j], slot_class(u), nk, slot_id(ss, t)) by {
        assert(objs.contains(objs[j]));
        let t2 = choose|t2: Slot| valid_slot(ss, t2) && slot_stack(t2) < ss.len() && #[trigger] slot_object(ss, t2) == objs[j];
        lemma_slot_object_facts(ss, t2);
        lemma_slot_classes(t2, u);
        if qualifies(objs[j], slot_class(u), nk, slot_id(ss, t)) {
            assert(slot_id(ss, t2) == slot_id(ss, t));
        }
    }
}

proof fn lemma_written_root_parts(ss: Seq<StackEmit>)
    ensures
        objects_of(written_root(ss)) == stacks_objects(ss, ss.len() as int),
        connections_of(written_root(ss)) == stacks_connections(ss, ss.len() as int),
{
    reveal_strlit("Objects");
    reveal_strlit("Connections");
    crate::ascii::lemma_ascii_literal("Objects");
    crate::ascii::lemma_ascii_literal("Connections");
    assert("Objects".spec_bytes().len() == 7);
    assert("Connections".spec_bytes().len() == 11);
    let cs = written_root(ss).children;
    assert(cs.drop_first() =~= seq![cs[1]]);
    assert(first_named(cs.drop_first(), "Connections".spec_bytes()) == Some(cs[1]));
}

proof fn lemma_kinds()
    ensures
        "OO".spec_bytes() != "OP".spec_bytes(),
        valid_utf8("OO".spec_bytes()),
        valid_utf8("OP".spec_bytes()),
{
    crate::objects::lemma_oo_op();
    vstd::utf8::encode_utf8_valid_utf8("OO"@);
    vstd::utf8::encode_utf8_valid_utf8("OP"@);
}

/// The elements the written document holds for a curve's chain.
pub open spec fn chain_elements(ss: Seq<StackEmit>, a: int, b: int, k: int, e: AnimElements) -> bool {
    let st = ss[a];
    let n = st.curve_nodes@[b];
    let c = n.curves@[k];
    &&& e.curves.dom().contains(c.id) && e.curves[c.id] == curve_v(c)
    &&& e.curve_nodes.dom().contains(n.id)
    &&& e.layers.dom().contains(st.layer_id)
    &&& e.stacks.dom().contains(st.id)
    &&& !e.curves.dom().contains(n.id)
    &&& !e.curve_nodes.dom().contains(st.layer_id)
}

#[verifier::spinoff_prover]
proof fn lemma_chain_elements(ss: Seq<StackEmit>, a: int, b: int, k: int)
    requires
        fresh_ids(ss),
        valid_slot(ss, Slot::Curve(a, b, k)),
        ss[a].curve_nodes@[b].curves@[k].times@.len() == ss[a].curve_nodes@[b].curves@[k].values@.len(),
    ensures chain_elements(ss, a, b, k, anim_elements(written_root(ss))),
{
    let root = written_root(ss);
    let objs = stacks_objects(ss, ss.len() as int);
    let st = ss[a];
    let n = st.curve_nodes@[b];
    let c = n.curves@[k];
    let tc = Slot::Curve(a, b, k);
    let tn = Slot::Node(a, b);
    let tl = Slot::Layer(a);
    let ts = Slot::Stack(a);
    lemma_written_root_parts(ss);
    lemma_stack_objects_members(ss, ss.len() as int);
    crate::anim_writer::lemma_curve_keys_round_trip(c);
    let e = anim_elements(root);
    let no = objs.len() as int;

    lemma_only_object(ss, tc, true);
    lemma_class_lookup(objs, slot_class(tc), true, no, c.id, curve_v(c));
    assert(objs.contains(slot_object(ss, tc)));
    let jc = objs.index_of(curve_v(c));
    assert(qualifies(objs[jc], slot_class(tc), true, c.id));

    lemma_only_object(ss, tn, false);
    lemma_class_lookup(objs, slot_class(tn), false, no, n.id, slot_object(ss, tn));
    assert(objs.contains(slot_object(ss, tn)));
    let jn = objs.index_of(slot_object(ss, tn));
    assert(qualifies(objs[jn], slot_class(tn), false, n.id));

    lemma_only_object(ss, tl, false);
    lemma_class_lookup(objs, slot_class(tl), false, no, st.layer_id, slot_object(ss, tl));
    assert(objs.contains(slot_object(ss, tl)));
    let jl = objs.index_of(slot_object(ss, tl));
    assert(qualifies(objs[jl], slot_class(tl), false, st.layer_id));

    lemma_only_object(ss, ts, false);
    lemma_class_lookup(objs, slot_class(ts), false, no, st.id, slot_object(ss, ts));
    assert(objs.contains(slot_object(ss, ts)));
    let js = objs.index_of(slot_object(ss, ts));
    assert(qualifies(objs[js], slot_class(ts), false, st.id));

    lemma_no_object(ss, tn, tc, true);
    lemma_class_lookup(objs, slot_class(tc), true, no, n.id, curve_v(c));
    lemma_no_object(ss, tl, tn, false);
    lemma_class_lookup(objs, slot_class(tn), false, no, st.layer_id, curve_v(c));
}

proof fn lemma_connection_slot(ss: Seq<StackEmit>, j: int) -> (t: Slot)
    requires 0 <= j < stacks_connections(ss, ss.len() as int).len(),
    ensures
        valid_slot(ss, t),
        slot_connections(ss, t).contains(stacks_connections(ss, ss.len() as int)[j]),
{
    let cs = stacks_connections(ss, ss.len() as int);
    lemma_stack_connections_members(ss, ss.len() as int);
    assert(cs.contains(cs[j]));
    choose|t: Slot| valid_slot(ss, t) && slot_stack(t) < ss.len() && #[trigger] slot_connections(ss, t).contains(cs[j])
}

#[verifier::spinoff_prover]
proof fn lemma_unique_curve_node(ss: Seq<StackEmit>, a: int, b: int, k: int, e: AnimElements)
    requires fresh_ids(ss), valid_slot(ss, Slot::Curve(a, b, k)),
    ensures
        ({
            let n = ss[a].curve_nodes@[b];
            let c = n.curves@[k];
            let cs = stacks_connections(ss, ss.len() as int);
            forall|j: int| 0 <= j < cs.len() && (fires_curve_node(cs[j], e) matches Some((k2, _)) && k2 == c.id)
                ==> fires_curve_node(cs[j], e) == Some((c.id, (n.id, encode_utf8(c.axis@))))
        }),
{
    let n = ss[a].curve_nodes@[b];
    let c = n.curves@[k];
    let cs = stacks_connections(ss, ss.len() as int);
    let tc = Slot::Curve(a, b, k);
    lemma_kinds();
    assert forall|j: int| 0 <= j < cs.len() && (fires_curve_node(cs[j], e) matches Some((k2, _)) && k2 == c.id)
        implies fires_curve_node(cs[j], e) == Some((c.id, (n.id, encode_utf8(c.axis@)))) by {
        let t = lemma_connection_slot(ss, j);
        let sc = slot_connections(ss, t);
        let i = choose|i: int| 0 <= i < sc.len() && sc[i] == cs[j];
        match t {
            Slot::Node(_, _) => { assert(slot_id(ss, t) == slot_id(ss, tc)); }
            Slot::Curve(_, _, _) => { assert(slot_id(ss, t) == slot_id(ss, tc)); }
            _ => {}
        }
    }
}

#[verifier::spinoff_prover]
proof fn lemma_unique_node_target(ss: Seq<StackEmit>, a: int, b: int, e: AnimElements)
    requires fresh_ids(ss), valid_slot(ss, Slot::Node(a, b)),
    ensures
        ({
            let n = ss[a].curve_nodes@[b];
            let cs = stacks_connections(ss, ss.len() as int);
            forall|j: int| 0 <= j < cs.len() && (fires_node_target(cs[j], e) matches Some((k2, _)) && k2 == n.id)
                ==> fires_node_target(cs[j], e) == Some((n.id, (n.target, encode_utf8(n.property@))))
        }),
{
    let n = ss[a].curve_nodes@[b];
    let cs = stacks_connections(ss, ss.len() as int);
    let tn = Slot::Node(a, b);
    lemma_kinds();
    assert forall|j: int| 0 <= j < cs.len() && (fires_node_target(cs[j], e) matches Some((k2, _)) && k2 == n.id)
        implies fires_node_target(cs[j], e) == Some((n.id, (n.target, encode_utf8(n.property@)))) by {
        let t = lemma_connection_slot(ss, j);
        let sc = slot_connections(ss, t);
        let i = choose|i: int| 0 <= i < sc.len() && sc[i] == cs[j];
        match t {
            Slot::Node(_, _) => { assert(slot_id(ss, t) == slot_id(ss, tn)); }
            Slot::Curve(_, _, _) => { assert(slot_id(ss, t) == slot_id(ss, tn)); }
            _ => {}
        }
    }
}

#[verifier::spinoff_prover]
proof fn lemma_unique_node_layer(ss: Seq<StackEmit>, a: int, b: int, e: AnimElements)
    requires fresh_ids(ss), valid_slot(ss, Slot::Node(a, b)),
    ensures
        ({
            let n = ss[a].curve_nodes@[b];
            let cs = stacks_connections(ss, ss.len() as int);
            forall|j: int| 0 <= j < cs.len() && (fires_node_layer(cs[j], e) matches Some((k2, _)) && k2 == n.id)
                ==> fires_node_layer(cs[j], e) == Some((n.id, ss[a].layer_id))
        }),
{
    let n = ss[a].curve_nodes@[b];
    let cs = stacks_connections(ss, ss.len() as int);
    let tn = Slot::Node(a, b);
    lemma_kinds();
    assert forall|j: int| 0 <= j < cs.len() && (fires_node_layer(cs[j], e) matches Some((k2, _)) && k2 == n.id)
        implies fires_node_layer(cs[j], e) == Some((n.id, ss[a].layer_id)) by {
        let t = lemma_connection_slot(ss, j);
        let sc = slot_connections(ss, t);
        let i = choose|i: int| 0 <= i < sc.len() && sc[i] == cs[j];
        match t {
            Slot::Layer(_) => { assert(slot_id(ss, t) == slot_id(ss, tn)); }
            Slot::Node(_, _) => { assert(slot_id(ss, t) == slot_id(ss, tn)); }
            _ => {}
        }
    }
}

#[verifier::spinoff_prover]
proof fn lemma_unique_layer_stack(ss: Seq<StackEmit>, a: int, e: AnimElements)
    requires fresh_ids(ss), valid_slot(ss, Slot::Layer(a)),
    ensures
        ({
            let cs = stacks_connections(ss, ss.len() as int);
            forall|j: int| 0 <= j < cs.len() && (fires_layer_stack(cs[j], e) matches Some((k2, _)) && k2 == ss[a].layer_id)
                ==> fires_layer_stack(cs[j], e) == Some((ss[a].layer_id, ss[a].id))
        }),
{
    let cs = stacks_connections(ss, ss.len() as int);
    let tl = Slot::Layer(a);
    lemma_kinds();
    assert forall|j: int| 0 <= j < cs.len() && (fires_layer_stack(cs[j], e) matches Some((k2, _)) && k2 == ss[a].layer_id)
        implies fires_layer_stack(cs[j], e) == Some((ss[a].layer_id, ss[a].id)) by {
        let t = lemma_connection_slot(ss, j);
        let sc = slot_connections(ss, t);
        let i = choose|i: int| 0 <= i < sc.len() && sc[i] == cs[j];
        match t {
            Slot::Layer(_) => { assert(slot_id(ss, t) == slot_id(ss, tl)); }
            Slot::Node(_, _) => { assert(slot_id(ss, t) == slot_id(ss, tl)); }
            _ => {}
        }
    }
}

#[verifier::spinoff_prover]
proof fn lemma_chain_connections(ss: Seq<StackEmit>, a: int, b: int, k: int, e: AnimElements)
    requires
        valid_slot(ss, Slot::Curve(a, b, k)),
        chain_elements(ss, a, b, k, e),
    ensures
        ({
            let cs = stacks_connections(ss, ss.len() as int);
            let st = ss[a];
            let n = st.curve_nodes@[b];
            let c = n.curves@[k];
            &&& exists|j: int| 0 <= j < cs.len() && fires_curve_node(cs[j], e) == Some((c.id, (n.id, encode_utf8(c.axis@))))
            &&& exists|j: int| 0 <= j < cs.len() && fires_node_target(cs[j], e) == Some((n.id, (n.target, encode_utf8(n.property@))))
            &&& exists|j: int| 0 <= j < cs.len() && fires_node_layer(cs[j], e) == Some((n.id, st.layer_id))
            &&& exists|j: int| 0 <= j < cs.len() && fires_layer_stack(cs[j], e) == Some((st.layer_id, st.id))
        }),
{
    let cs = stacks_connections(ss, ss.len() as int);
    let st = ss[a];
    let n = st.curve_nodes@[b];
    let c = n.curves@[k];
    lemma_stack_connections_members(ss, ss.len() as int);
    lemma_kinds();
    let axis = encode_utf8(c.axis@);
    let prop = encode_utf8(n.property@);
    vstd::utf8::encode_utf8_valid_utf8(c.axis@);
    vstd::utf8::encode_utf8_valid_utf8(n.property@);
    let e_cn = op_v(c.id, n.id, axis);
    let e_nt = op_v(n.id, n.target, prop);
    let e_nl = oo_v(n.id, st.layer_id);
    let e_ls = oo_v(st.layer_id, st.id);
    assert(slot_connections(ss, Slot::Curve(a, b, k))[0] == e_cn);
    assert(slot_connections(ss, Slot::Node(a, b))[0] == e_nt);
    assert(slot_connections(ss, Slot::Node(a, b))[1] == e_nl);
    assert(slot_connections(ss, Slot::Layer(a))[0] == e_ls);
    assert(slot_connections(ss, Slot::Curve(a, b, k)).contains(e_cn));
    assert(slot_connections(ss, Slot::Node(a, b)).contains(e_nt));
    assert(slot_connections(ss, Slot::Node(a, b)).contains(e_nl));
    assert(slot_connections(ss, Slot::Layer(a)).contains(e_ls));
    assert(cs.contains(e_cn));
    assert(cs.contains(e_nt));
    assert(cs.contains(e_nl));
    assert(cs.contains(e_ls));
    assert(op_property(e_cn) == Some(axis));
    assert(op_property(e_nt) == Some(prop));
    let j1 = cs.index_of(e_cn);
    let j2 = cs.index_of(e_nt);
    let j3 = cs.index_of(e_nl);
    let j4 = cs.index_of(e_ls);
    assert(fires_curve_node(cs[j1], e) == Some((c.id, (n.id, axis))));
    assert(fires_node_target(cs[j2], e) == Some((n.id, (n.target, prop))));
    assert(fires_node_layer(cs[j3], e) == Some((n.id, st.layer_id)));
    assert(fires_layer_stack(cs[j4], e) == Some((st.layer_id, st.id)));
}

/// A written curve whose keys have one value per time reads back, in
/// the document holding what `ss` writes, bound to its curve node and
/// component, to its curve node's target and property, and to its
/// stack's layer and stack, with exactly its key times and values;
/// every written element must carry an id of its own.
#[verifier::spinoff_prover]
pub proof fn lemma_written_curve_binds(ss: Seq<StackEmit>, a: int, b: int, k: int)
    requires
        fresh_ids(ss),
        valid_slot(ss, Slot::Curve(a, b, k)),
        ss[a].curve_nodes@[b].curves@[k].times@.len() == ss[a].curve_nodes@[b].curves@[k].values@.len(),
    ensures
        binding_of(anim_elements(written_root(ss)), root_anim_links(written_root(ss)), ss[a].curve_nodes@[b].curves@[k].id)
            == Some(BindingV {
                curve: ss[a].curve_nodes@[b].curves@[k].id,
                curve_node: ss[a].curve_nodes@[b].id,
                axis: encode_utf8(ss[a].curve_nodes@[b].curves@[k].axis@),
                target: ss[a].curve_nodes@[b].target,
                target_property: encode_utf8(ss[a].curve_nodes@[b].property@),
                layer: ss[a].layer_id,
                stack: ss[a].id,
                times: ss[a].curve_nodes@[b].curves@[k].times@,
                values: PropV::F32Array(ss[a].curve_nodes@[b].curves@[k].values@),
            }),
{
    let root = written_root(ss);
    let cs = stacks_connections(ss, ss.len() as int);
    let st = ss[a];
    let n = st.curve_nodes@[b];
    let c = n.curves@[k];
    let e = anim_elements(root);
    lemma_written_root_parts(ss);
    lemma_chain_elements(ss, a, b, k);
    lemma_chain_connections(ss, a, b, k, e);
    crate::anim_writer::lemma_curve_keys_round_trip(c);
    let axis = encode_utf8(c.axis@);
    let prop = encode_utf8(n.property@);
    lemma_unique_curve_node(ss, a, b, k, e);
    lemma_unique_node_target(ss, a, b, e);
    lemma_unique_node_layer(ss, a, b, e);
    lemma_unique_layer_stack(ss, a, e);
    let nc = cs.len() as int;
    lemma_curve_node_entry(cs, nc, e, c.id, (n.id, axis));
    lemma_node_target_entry(cs, nc, e, n.id, (n.target, prop));
    lemma_node_layer_entry(cs, nc, e, n.id, st.layer_id);
    lemma_layer_stack_entry(cs, nc, e, st.layer_id, st.id);
    let l = root_anim_links(root);
    assert(l == anim_links(cs, nc, e));
}

/// A written stack reads back, in the document holding what `ss`
/// writes, as a stack under its id with its name (a name whose UTF-8
/// holds a NUL byte reads back cut at that byte); every written element
/// must carry an id of its own.
pub proof fn lemma_written_stack(ss: Seq<StackEmit>, a: int)
    requires
        fresh_ids(ss),
        0 <= a < ss.len(),
        forall|i: int| 0 <= i < encode_utf8(ss[a].name@).len() ==> encode_utf8(ss[a].name@)[i] != 0u8,
    ensures
        anim_elements(written_root(ss)).stacks.dom().contains(ss[a].id),
        stack_name(anim_elements(written_root(ss)).stacks[ss[a].id]) == encode_utf8(ss[a].name@),
{
    let objs = stacks_objects(ss, ss.len() as int);
    let ts = Slot::Stack(a);
    lemma_written_root_parts(ss);
    lemma_stack_objects_members(ss, ss.len() as int);
    lemma_only_object(ss, ts, false);
    lemma_class_lookup(objs, slot_class(ts), false, objs.len() as int, ss[a].id, slot_object(ss, ts));
    assert(objs.contains(slot_object(ss, ts)));
    let js = objs.index_of(slot_object(ss, ts));
    assert(qualifies(objs[js], slot_class(ts), false, ss[a].id));
    let nm = encode_utf8(ss[a].name@);
    let d = nm + seq![0x00u8, 0x01u8] + "AnimationStack".spec_bytes();
    assert(d[nm.len() as int] == 0u8);
    crate::constraint_writer::lemma_find_byte_at(d, 0u8, 0, nm.len() as int);
    assert(d.subrange(0, nm.len() as int) =~= nm);
    vstd::utf8::encode_utf8_valid_utf8(ss[a].name@);
}

/// In the document holding what `ss` writes, only written curves are
/// bound: a curve id the graph binds is the id of a written curve.
pub proof fn lemma_only_written_curves_bind(ss: Seq<StackEmit>, id: i64)
    requires binding_of(anim_elements(written_root(ss)), root_anim_links(written_root(ss)), id) is Some,
    ensures exists|t: Slot| valid_slot(ss, t) && t is Curve && #[trigger] slot_id(ss, t) == id,
{
    let objs = stacks_objects(ss, ss.len() as int);
    lemma_written_root_parts(ss);
    lemma_stack_objects_members(ss, ss.len() as int);
    let cls = "AnimationCurve".spec_bytes();
    lemma_class_dom(objs, cls, true, objs.len() as int, id);
    let j = choose|j: int| 0 <= j < objs.len() && qualifies(objs[j], cls, true, id);
    assert(objs.contains(objs[j]));
    let t = choose|t: Slot| valid_slot(ss, t) && slot_stack(t) < ss.len() && #[trigger] slot_object(ss, t) == objs[j];
    lemma_slot_object_facts(ss, t);
    lemma_slot_classes(t, Slot::Curve(0, 0, 0));
}

} // verus!
