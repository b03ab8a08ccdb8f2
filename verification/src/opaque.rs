//! Elements of classes this library gives no typed home (display
//! layers and whatever else a producer writes), with the connections
//! that touch them, so that they can be carried through unchanged.

use vstd::prelude::*;
use vstd::string::StringSliceAdditionalSpecFns;
use vstd::utf8::{decode_utf8, encode_utf8, valid_utf8};
use crate::bytes::bytes_eq;
use crate::kinds::objects_of;
use crate::constraint::{own_records, records_fold, records_view, PRecord, PRecordV};
use crate::constraint_writer::p70_v;
use crate::model::{first_named, lemma_nodes_view_len, node_view, nodes_view, FbxDocument, FbxNode, FbxProperty, NodeV, PropV};
use crate::names::{display_name, raw_name, spec_display_name};
use crate::objects::{connections_of, contains_id, find_keyed, insert_keyed, keyed, link, obj_id, object_id};

verus! {

/// The classes the rest of this library decodes.
pub open spec fn typed_class(name: Seq<u8>) -> bool {
    name == "Geometry".spec_bytes() || name == "Model".spec_bytes() || name == "Material".spec_bytes()
        || name == "Texture".spec_bytes() || name == "Video".spec_bytes() || name == "NodeAttribute".spec_bytes()
        || name == "Deformer".spec_bytes() || name == "Pose".spec_bytes() || name == "AnimationStack".spec_bytes()
        || name == "AnimationLayer".spec_bytes() || name == "AnimationCurveNode".spec_bytes()
        || name == "AnimationCurve".spec_bytes() || name == "Constraint".spec_bytes()
}

/// Whether a class is one the rest of this library decodes.
pub fn is_typed_class(name: &str) -> (r: bool)
    ensures r == typed_class(name.spec_bytes()),
{
    let b = name.as_bytes();
    bytes_eq(b, "Geometry".as_bytes()) || bytes_eq(b, "Model".as_bytes()) || bytes_eq(b, "Material".as_bytes())
        || bytes_eq(b, "Texture".as_bytes()) || bytes_eq(b, "Video".as_bytes()) || bytes_eq(b, "NodeAttribute".as_bytes())
        || bytes_eq(b, "Deformer".as_bytes()) || bytes_eq(b, "Pose".as_bytes()) || bytes_eq(b, "AnimationStack".as_bytes())
        || bytes_eq(b, "AnimationLayer".as_bytes()) || bytes_eq(b, "AnimationCurveNode".as_bytes())
        || bytes_eq(b, "AnimationCurve".as_bytes()) || bytes_eq(b, "Constraint".as_bytes())
}

/// The objects with an id among the first `i`, by id (a later one
/// replaces an earlier one).
pub open spec fn objects_by_id(objs: Seq<NodeV>, i: int) -> Map<i64, NodeV>
    decreases i,
{
    if i <= 0 {
        Map::empty()
    } else {
        let m = objects_by_id(objs, i - 1);
        let n = objs[i - 1];
        if obj_id(n) is Some { m.insert(obj_id(n)->Some_0, n) } else { m }
    }
}

/// The display name of an object (see [`spec_display_name`]).
pub open spec fn object_name(n: NodeV) -> Seq<char> {
    spec_display_name(decode_utf8(raw_name(n.properties)))
}

/// The display name of the object with id `id`; empty when there is
/// none.
pub open spec fn name_by_id(by_id: Map<i64, NodeV>, id: i64) -> Seq<char> {
    if by_id.dom().contains(id) { object_name(by_id[id]) } else { Seq::empty() }
}

/// View of an [`OpaqueLink`].
pub struct LinkV {
    pub kind: Seq<u8>,
    pub as_parent: bool,
    pub peer: i64,
    pub peer_name: Seq<char>,
    pub property: Option<Seq<u8>>,
}

/// The fourth property of a connection when it is a UTF-8 string.
pub open spec fn link_property(c: NodeV) -> Option<Seq<u8>> {
    if c.properties.len() > 3 && (c.properties[3] matches PropV::Str(b) && valid_utf8(b)) {
        Some(c.properties[3]->Str_0)
    } else {
        None
    }
}

/// The links the first `i` connection records give element `id`: a
/// record whose kind is UTF-8 gives a link as child (to its parent) when
/// `id` is its child, then one as parent (to its child) when `id` is its
/// parent.
pub open spec fn links_for(cs: Seq<NodeV>, i: int, id: i64, by_id: Map<i64, NodeV>) -> Seq<LinkV>
    decreases i,
{
    if i <= 0 {
        Seq::empty()
    } else {
        let prev = links_for(cs, i - 1, id, by_id);
        let c = cs[i - 1];
        match link(c) {
            Some((k, ch, pa)) => if valid_utf8(k) {
                let p = link_property(c);
                let a = if ch == id {
                    prev.push(LinkV { kind: k, as_parent: false, peer: pa, peer_name: name_by_id(by_id, pa), property: p })
                } else {
                    prev
                };
                if pa == id {
                    a.push(LinkV { kind: k, as_parent: true, peer: ch, peer_name: name_by_id(by_id, ch), property: p })
                } else {
                    a
                }
            } else {
                prev
            },
            None => prev,
        }
    }
}

/// Whether one of the first `i` objects is an untyped element with id
/// `id`.
pub open spec fn seen_untyped(objs: Seq<NodeV>, i: int, id: i64) -> bool
    decreases i,
{
    if i <= 0 {
        false
    } else {
        seen_untyped(objs, i - 1, id) || (obj_id(objs[i - 1]) == Some(id) && !typed_class(objs[i - 1].name))
    }
}

/// The subtype of an element: its third property when that is a UTF-8
/// string, else empty.
pub open spec fn subtype_text(n: NodeV) -> Seq<u8> {
    if n.properties.len() > 2 && (n.properties[2] matches PropV::Str(b) && valid_utf8(b)) {
        n.properties[2]->Str_0
    } else {
        Seq::empty()
    }
}

/// View of an [`OpaqueObject`].
pub struct OpaqueV {
    pub id: i64,
    pub node: NodeV,
    pub name: Seq<char>,
    pub subtype: Seq<u8>,
    pub links: Seq<LinkV>,
}

/// The untyped elements with an id among the first `i` objects, in
/// document order: each with its display name (of the last object with
/// its id), its subtype and its links (the first element with an id
/// takes them; a later one with the same id has none).
pub open spec fn opaque_fold(objs: Seq<NodeV>, i: int, by_id: Map<i64, NodeV>, cs: Seq<NodeV>) -> Seq<OpaqueV>
    decreases i,
{
    if i <= 0 {
        Seq::empty()
    } else {
        let prev = opaque_fold(objs, i - 1, by_id, cs);
        let n = objs[i - 1];
        if obj_id(n) is Some && !typed_class(n.name) {
            let id = obj_id(n)->Some_0;
            prev.push(OpaqueV {
                id,
                node: n,
                name: name_by_id(by_id, id),
                subtype: subtype_text(n),
                links: if seen_untyped(objs, i - 1, id) { Seq::empty() } else { links_for(cs, cs.len() as int, id, by_id) },
            })
        } else {
            prev
        }
    }
}

/// The untyped elements of a document root (see [`opaque_fold`]).
pub open spec fn spec_opaque_objects(root: NodeV) -> Seq<OpaqueV> {
    let objs = objects_of(root);
    opaque_fold(objs, objs.len() as int, objects_by_id(objs, objs.len() as int), connections_of(root))
}

/// One connection that touches an untyped element: its kind, whether
/// the element is the parent, the other end (`0` is the document root)
/// and that end's display name, and the property name of an `OP`
/// connection.
#[derive(Debug)]
pub struct OpaqueLink {
    pub kind: String,
    pub as_parent: bool,
    pub peer: i64,
    pub peer_name: String,
    pub property: Option<String>,
}

/// An element of a class this library gives no typed home.
#[derive(Debug)]
pub struct OpaqueObject<'a> {
    pub id: i64,
    pub node: &'a FbxNode,
    pub name: String,
    pub subtype: String,
    pub links: Vec<OpaqueLink>,
}

pub open spec fn opt_text(s: Option<String>) -> Option<Seq<u8>> {
    match s {
        Some(x) => Some(encode_utf8(x@)),
        None => None,
    }
}

pub open spec fn link_view(l: OpaqueLink) -> LinkV {
    LinkV { kind: encode_utf8(l.kind@), as_parent: l.as_parent, peer: l.peer, peer_name: l.peer_name@, property: opt_text(l.property) }
}

pub open spec fn links_view(s: Seq<OpaqueLink>) -> Seq<LinkV> {
    s.map_values(|l: OpaqueLink| link_view(l))
}

pub open spec fn opaque_view(o: OpaqueObject) -> OpaqueV {
    OpaqueV { id: o.id, node: node_view(*o.node), name: o.name@, subtype: encode_utf8(o.subtype@), links: links_view(o.links@) }
}

fn index_objects<'a>(root: &'a FbxNode) -> (l: Vec<(i64, &'a FbxNode)>)
    ensures
        ({
            let objs = objects_of(node_view(*root));
            keyed(l@, objects_by_id(objs, objs.len() as int))
        }),
{
    let mut l: Vec<(i64, &'a FbxNode)> = Vec::new();
    match root.child("Objects") {
        Some(o) => {
            let ghost ov = nodes_view(o.children@);
            proof { lemma_nodes_view_len(o.children@); }
            let mut i: usize = 0;
            while i < o.children.len()
                invariant
                    i <= o.children@.len(),
                    ov == nodes_view(o.children@),
                    ov.len() == o.children@.len(),
                    forall|k: int| 0 <= k < ov.len() ==> #[trigger] ov[k] == node_view(o.children@[k]),
                    keyed(l@, objects_by_id(ov, i as int)),
                decreases o.children@.len() - i,
            {
                let c = &o.children[i];
                match object_id(c) {
                    Some(id) => { insert_keyed(&mut l, id, c, Ghost(objects_by_id(ov, i as int))); }
                    None => {}
                }
                i += 1;
            }
            l
        }
        None => {
            proof {
                let objs = objects_of(node_view(*root));
                assert(objects_by_id(objs, 0) =~= Map::<i64, NodeV>::empty());
            }
            l
        }
    }
}

fn name_of_id<'a>(l: &Vec<(i64, &'a FbxNode)>, id: i64, Ghost(m): Ghost<Map<i64, NodeV>>) -> (r: String)
    requires keyed(l@, m),
    ensures r@ == name_by_id(m, id),
{
    match find_keyed(l, id, Ghost(m)) {
        Some(n) => display_name(n),
        None => {
            let s = String::new();
            proof { assert(s@ =~= Seq::<char>::empty()); }
            s
        }
    }
}

fn utf8_string(b: &Vec<u8>) -> (r: Option<String>)
    ensures
        match r {
            Some(s) => valid_utf8(b@) && encode_utf8(s@) == b@,
            None => !valid_utf8(b@),
        },
{
    crate::text::string_from_utf8(b.as_slice())
}

fn link_parts(c: &FbxNode) -> (r: Option<(String, i64, i64)>)
    ensures
        match r {
            Some((k, ch, pa)) => link(node_view(*c)) matches Some((b, c2, p2))
                && valid_utf8(b) && b == encode_utf8(k@) && c2 == ch && p2 == pa,
            None => !(link(node_view(*c)) matches Some((b, _, _)) && valid_utf8(b)),
        },
{
    if !bytes_eq(c.name.as_str().as_bytes(), "C".as_bytes()) || c.properties.len() <= 2 {
        return None;
    }
    proof {
        crate::ascii::lemma_props_view_index(c.properties@, 0);
        crate::ascii::lemma_props_view_index(c.properties@, 1);
        crate::ascii::lemma_props_view_index(c.properties@, 2);
    }
    let k = match &c.properties[0] {
        FbxProperty::String(b) => match utf8_string(b) {
            Some(k) => k,
            None => { return None; }
        },
        _ => { return None; }
    };
    match (c.properties[1].as_i64(), c.properties[2].as_i64()) {
        (Some(ch), Some(pa)) => Some((k, ch, pa)),
        _ => None,
    }
}

fn link_property_string(c: &FbxNode) -> (r: Option<String>)
    ensures opt_text(r) == link_property(node_view(*c)),
{
    if c.properties.len() <= 3 {
        return None;
    }
    proof { crate::ascii::lemma_props_view_index(c.properties@, 3); }
    match &c.properties[3] {
        FbxProperty::String(b) => utf8_string(b),
        _ => None,
    }
}

fn collect_links<'a>(root: &FbxNode, id: i64, l: &Vec<(i64, &'a FbxNode)>, Ghost(m): Ghost<Map<i64, NodeV>>) -> (r: Vec<OpaqueLink>)
    requires keyed(l@, m),
    ensures
        ({
            let cs = connections_of(node_view(*root));
            links_view(r@) == links_for(cs, cs.len() as int, id, m)
        }),
{
    let mut out: Vec<OpaqueLink> = Vec::new();
    match root.child("Connections") {
        Some(conns) => {
            let ghost cv = nodes_view(conns.children@);
            proof { lemma_nodes_view_len(conns.children@); }
            let mut i: usize = 0;
            while i < conns.children.len()
                invariant
                    i <= conns.children@.len(),
                    cv == nodes_view(conns.children@),
                    cv.len() == conns.children@.len(),
                    forall|k: int| 0 <= k < cv.len() ==> #[trigger] cv[k] == node_view(conns.children@[k]),
                    keyed(l@, m),
                    links_view(out@) == links_for(cv, i as int, id, m),
                decreases conns.children@.len() - i,
            {
                let c = &conns.children[i];
                match link_parts(c) {
                    Some((k, ch, pa)) => {
                        let p = link_property_string(c);
                        let ghost before = out@;
                        if ch == id {
                            let lk = OpaqueLink { kind: k.clone(), as_parent: false, peer: pa, peer_name: name_of_id(l, pa, Ghost(m)), property: p.clone() };
                            out.push(lk);
                            proof { assert(links_view(out@) =~= links_view(before).push(link_view(lk))); }
                        }
                        let ghost mid = out@;
                        if pa == id {
                            let lk = OpaqueLink { kind: k, as_parent: true, peer: ch, peer_name: name_of_id(l, ch, Ghost(m)), property: p };
                            out.push(lk);
                            proof { assert(links_view(out@) =~= links_view(mid).push(link_view(lk))); }
                        }
                    }
                    None => {}
                }
                i += 1;
            }
            out
        }
        None => {
            proof { assert(links_view(out@) =~= Seq::<LinkV>::empty()); }
            out
        }
    }
}

fn subtype_string(n: &FbxNode) -> (r: String)
    ensures encode_utf8(r@) == subtype_text(node_view(*n)),
{
    if n.properties.len() > 2 {
        proof { crate::ascii::lemma_props_view_index(n.properties@, 2); }
        match &n.properties[2] {
            FbxProperty::String(b) => match utf8_string(b) {
                Some(s) => { return s; }
                None => {}
            },
            _ => {}
        }
    }
    let s = String::new();
    proof {
        assert(s@ =~= Seq::<char>::empty());
        assert(encode_utf8(Seq::<char>::empty()) =~= Seq::<u8>::empty());
    }
    s
}

fn opaque_entry<'a>(root: &FbxNode, c: &'a FbxNode, id: i64, seen: bool, l: &Vec<(i64, &'a FbxNode)>, Ghost(m): Ghost<Map<i64, NodeV>>)
    -> (r: OpaqueObject<'a>)
    requires keyed(l@, m),
    ensures
        opaque_view(r) == (OpaqueV {
            id,
            node: node_view(*c),
            name: name_by_id(m, id),
            subtype: subtype_text(node_view(*c)),
            links: if seen {
                Seq::<LinkV>::empty()
            } else {
                links_for(connections_of(node_view(*root)), connections_of(node_view(*root)).len() as int, id, m)
            },
        }),
{
    let links = if seen { Vec::new() } else { collect_links(root, id, l, Ghost(m)) };
    proof {
        if seen {
            assert(links_view(links@) =~= Seq::<LinkV>::empty());
        }
    }
    OpaqueObject { id, node: c, name: name_of_id(l, id, Ghost(m)), subtype: subtype_string(c), links }
}

proof fn lemma_seen_step(ov: Seq<NodeV>, i: int, seen0: Seq<i64>, seen1: Seq<i64>, id: i64)
    requires
        0 <= i < ov.len(),
        forall|q: i64| seen0.contains(q) <==> #[trigger] seen_untyped(ov, i, q),
        obj_id(ov[i]) == Some(id) && !typed_class(ov[i].name),
        seen1 == seen0.push(id),
    ensures forall|q: i64| seen1.contains(q) <==> #[trigger] seen_untyped(ov, i + 1, q),
{
    assert forall|q: i64| seen1.contains(q) <==> #[trigger] seen_untyped(ov, i + 1, q) by {
        assert(seen_untyped(ov, i + 1, q) == (seen_untyped(ov, i, q) || (obj_id(ov[i]) == Some(q) && !typed_class(ov[i].name))));
        if q == id {
            assert(seen1[seen0.len() as int] == q);
        }
        if seen0.contains(q) {
            let j = choose|j: int| 0 <= j < seen0.len() && seen0[j] == q;
            assert(seen1[j] == q);
        }
        if seen1.contains(q) && q != id {
            let j = choose|j: int| 0 <= j < seen1.len() && seen1[j] == q;
            assert(seen0[j] == q);
        }
    }
}

proof fn lemma_seen_skip(ov: Seq<NodeV>, i: int, seen0: Seq<i64>)
    requires
        0 <= i < ov.len(),
        forall|q: i64| seen0.contains(q) <==> #[trigger] seen_untyped(ov, i, q),
        !(obj_id(ov[i]) is Some && !typed_class(ov[i].name)),
    ensures forall|q: i64| seen0.contains(q) <==> #[trigger] seen_untyped(ov, i + 1, q),
{
    assert forall|q: i64| seen0.contains(q) <==> #[trigger] seen_untyped(ov, i + 1, q) by {
        assert(seen_untyped(ov, i + 1, q) == (seen_untyped(ov, i, q) || (obj_id(ov[i]) == Some(q) && !typed_class(ov[i].name))));
    }
}

/// The untyped elements of a document (see [`spec_opaque_objects`]).
#[verifier::rlimit(30)]
pub fn opaque_objects<'a>(doc: &'a FbxDocument) -> (r: Vec<OpaqueObject<'a>>)
    ensures r@.map_values(|o: OpaqueObject<'a>| opaque_view(o)) == spec_opaque_objects(node_view(doc.root)),
{
    let root = &doc.root;
    let ghost objs = objects_of(node_view(*root));
    let ghost m = objects_by_id(objs, objs.len() as int);
    let ghost cs = connections_of(node_view(*root));
    let l = index_objects(root);
    let mut out: Vec<OpaqueObject<'a>> = Vec::new();
    match root.child("Objects") {
        Some(o) => {
            let ghost ov = nodes_view(o.children@);
            proof { lemma_nodes_view_len(o.children@); }
            let mut seen: Vec<i64> = Vec::new();
            let mut i: usize = 0;
            while i < o.children.len()
                invariant
                    i <= o.children@.len(),
                    ov == nodes_view(o.children@),
                    ov == objs,
                    ov.len() == o.children@.len(),
                    m == objects_by_id(objs, objs.len() as int),
                    cs == connections_of(node_view(*root)),
                    forall|k: int| 0 <= k < ov.len() ==> #[trigger] ov[k] == node_view(o.children@[k]),
                    keyed(l@, m),
                    forall|id: i64| seen@.contains(id) <==> #[trigger] seen_untyped(ov, i as int, id),
                    out@.map_values(|o: OpaqueObject<'a>| opaque_view(o)) == opaque_fold(ov, i as int, m, cs),
                decreases o.children@.len() - i,
            {
                let c = &o.children[i];
                let ghost before = out@;
                let ghost seen0 = seen@;
                let mut taken = false;
                match object_id(c) {
                    Some(id) => {
                        if !is_typed_class(c.name.as_str()) {
                            let was = contains_id(seen.as_slice(), id);
                            let obj = opaque_entry(root, c, id, was, &l, Ghost(m));
                            out.push(obj);
                            seen.push(id);
                            taken = true;
                            proof {
                                lemma_seen_step(ov, i as int, seen0, seen@, id);
                                assert(out@.map_values(|o: OpaqueObject<'a>| opaque_view(o))
                                    =~= before.map_values(|o: OpaqueObject<'a>| opaque_view(o)).push(opaque_view(obj)));
                            }
                        }
                    }
                    None => {}
                }
                proof {
                    if !taken {
                        lemma_seen_skip(ov, i as int, seen0);
                    }
                }
                i += 1;
            }
            out
        }
        None => {
            proof { assert(out@.map_values(|o: OpaqueObject<'a>| opaque_view(o)) =~= Seq::<OpaqueV>::empty()); }
            out
        }
    }
}

// ---------------------------------------------------------------------
// Writing untyped elements back
// ---------------------------------------------------------------------

/// A connection of an untyped element to write: its kind, whether the
/// element is the parent, the other end's id (`None`: an end that has
/// no id in the document being written, so nothing is written) and the
/// property name of an `OP` connection.
#[derive(Debug)]
pub struct OpaqueLinkEmit {
    pub kind: String,
    pub as_parent: bool,
    pub peer: Option<i64>,
    pub property: Option<String>,
}

/// An untyped element to write: its fresh id, class, name and subtype,
/// its own `P` records, the other children it carries, and its
/// connections.
#[derive(Debug)]
pub struct OpaqueEmit {
    pub id: i64,
    pub class: String,
    pub name: String,
    pub subtype: String,
    pub records: Vec<PRecord>,
    pub body: Vec<FbxNode>,
    pub links: Vec<OpaqueLinkEmit>,
}

/// The element written for an untyped element: `class: id,
/// "name\x00\x01class", "subtype"`, holding a `Properties70` block when
/// it has records, then its other children.
pub open spec fn opaque_element_v(e: OpaqueEmit) -> NodeV {
    NodeV {
        name: encode_utf8(e.class@),
        properties: seq![
            PropV::I64(e.id),
            PropV::Str(encode_utf8(e.name@) + seq![0x00u8, 0x01u8] + encode_utf8(e.class@)),
            PropV::Str(encode_utf8(e.subtype@)),
        ],
        children: (if e.records@.len() > 0 { seq![p70_v(records_view(e.records@))] } else { Seq::empty() })
            + nodes_view(e.body@),
    }
}

/// The connection written for a link of element `id` to `peer`.
pub open spec fn opaque_link_v(id: i64, l: OpaqueLinkEmit, peer: i64) -> NodeV {
    NodeV {
        name: "C".spec_bytes(),
        properties: seq![
            PropV::Str(encode_utf8(l.kind@)),
            PropV::I64(if l.as_parent { peer } else { id }),
            PropV::I64(if l.as_parent { id } else { peer }),
        ] + match l.property {
            Some(p) => seq![PropV::Str(encode_utf8(p@))],
            None => Seq::empty(),
        },
        children: Seq::empty(),
    }
}

/// The connections the first `i` links of element `id` write: one per
/// link with a peer.
pub open spec fn link_edges(ls: Seq<OpaqueLinkEmit>, i: int, id: i64) -> Seq<NodeV>
    decreases i,
{
    if i <= 0 {
        Seq::empty()
    } else {
        let prev = link_edges(ls, i - 1, id);
        match ls[i - 1].peer {
            Some(p) => prev.push(opaque_link_v(id, ls[i - 1], p)),
            None => prev,
        }
    }
}

/// The connections the first `i` untyped elements write.
pub open spec fn opaque_edges(es: Seq<OpaqueEmit>, i: int) -> Seq<NodeV>
    decreases i,
{
    if i <= 0 { Seq::empty() } else { opaque_edges(es, i - 1) + link_edges(es[i - 1].links@, es[i - 1].links@.len() as int, es[i - 1].id) }
}

fn string_bytes(s: &String) -> (v: Vec<u8>)
    ensures v@ == encode_utf8(s@),
{
    let b = s.as_str().as_bytes();
    let v = crate::bytes::copy_range(b, 0, b.len());
    assert(b@.subrange(0, b@.len() as int) =~= b@);
    v
}

fn opaque_element(e: &OpaqueEmit) -> (n: FbxNode)
    ensures node_view(n) == opaque_element_v(*e),
{
    let mut children: Vec<FbxNode> = Vec::new();
    if e.records.len() > 0 {
        let p = crate::constraint_writer::p70_node(&e.records);
        children.push(p);
        proof { crate::model::lemma_nodes_view_push(Seq::empty(), p); }
    }
    let ghost head = nodes_view(children@);
    proof {
        if e.records@.len() == 0 {
            assert(head =~= Seq::<NodeV>::empty());
        }
    }
    let mut i: usize = 0;
    proof { lemma_nodes_view_len(e.body@); }
    while i < e.body.len()
        invariant
            i <= e.body@.len(),
            nodes_view(e.body@).len() == e.body@.len(),
            forall|k: int| 0 <= k < e.body@.len() ==> #[trigger] nodes_view(e.body@)[k] == node_view(e.body@[k]),
            nodes_view(children@) == head + nodes_view(e.body@).subrange(0, i as int),
        decreases e.body@.len() - i,
    {
        let c = e.body[i].clone_node();
        let ghost before = children@;
        children.push(c);
        i += 1;
        proof {
            crate::model::lemma_nodes_view_push(before, c);
            assert(nodes_view(children@) =~= head + nodes_view(e.body@).subrange(0, i as int));
        }
    }
    proof { assert(nodes_view(e.body@).subrange(0, i as int) =~= nodes_view(e.body@)); }
    let mut ps: Vec<FbxProperty> = Vec::new();
    ps.push(FbxProperty::I64(e.id));
    ps.push(FbxProperty::String(crate::names::name_class(e.name.as_str(), e.class.as_str())));
    ps.push(FbxProperty::String(string_bytes(&e.subtype)));
    let n = FbxNode { name: e.class.clone(), properties: ps, children };
    assert(crate::model::props_view(n.properties@) =~= opaque_element_v(*e).properties);
    n
}

fn opaque_link(id: i64, l: &OpaqueLinkEmit, peer: i64) -> (n: FbxNode)
    ensures node_view(n) == opaque_link_v(id, *l, peer),
{
    let (child, parent) = if l.as_parent { (peer, id) } else { (id, peer) };
    let mut ps: Vec<FbxProperty> = Vec::new();
    ps.push(FbxProperty::String(string_bytes(&l.kind)));
    ps.push(FbxProperty::I64(child));
    ps.push(FbxProperty::I64(parent));
    match &l.property {
        Some(p) => { ps.push(FbxProperty::String(string_bytes(p))); }
        None => {}
    }
    let n = FbxNode { name: "C".to_string(), properties: ps, children: Vec::new() };
    assert(crate::model::props_view(n.properties@) =~= opaque_link_v(id, *l, peer).properties);
    assert(nodes_view(n.children@) =~= Seq::<NodeV>::empty());
    n
}

/// The elements and connections that write untyped elements back (see
/// [`opaque_element_v`] and [`opaque_edges`]).
pub fn build_opaque_objects(entries: &[OpaqueEmit]) -> (r: (Vec<FbxNode>, Vec<FbxNode>))
    ensures
        nodes_view(r.0@) == entries@.map_values(|e: OpaqueEmit| opaque_element_v(e)),
        nodes_view(r.1@) == opaque_edges(entries@, entries@.len() as int),
{
    let mut objects: Vec<FbxNode> = Vec::new();
    let mut connections: Vec<FbxNode> = Vec::new();
    proof {
        assert(nodes_view(objects@) =~= Seq::<NodeV>::empty());
        assert(nodes_view(connections@) =~= Seq::<NodeV>::empty());
    }
    let mut i: usize = 0;
    while i < entries.len()
        invariant
            i <= entries@.len(),
            nodes_view(objects@) == entries@.subrange(0, i as int).map_values(|e: OpaqueEmit| opaque_element_v(e)),
            nodes_view(connections@) == opaque_edges(entries@, i as int),
        decreases entries@.len() - i,
    {
        let e = &entries[i];
        let o = opaque_element(e);
        let ghost before = objects@;
        objects.push(o);
        proof {
            crate::model::lemma_nodes_view_push(before, o);
            assert(entries@.subrange(0, i + 1).map_values(|e: OpaqueEmit| opaque_element_v(e))
                =~= entries@.subrange(0, i as int).map_values(|e: OpaqueEmit| opaque_element_v(e)).push(opaque_element_v(*e)));
        }
        let ghost base = nodes_view(connections@);
        let mut j: usize = 0;
        while j < e.links.len()
            invariant
                j <= e.links@.len(),
                nodes_view(connections@) == base + link_edges(e.links@, j as int, e.id),
            decreases e.links@.len() - j,
        {
            let l = &e.links[j];
            match l.peer {
                Some(p) => {
                    let c = opaque_link(e.id, l, p);
                    let ghost b2 = connections@;
                    connections.push(c);
                    proof {
                        crate::model::lemma_nodes_view_push(b2, c);
                        assert(nodes_view(connections@) =~= base + link_edges(e.links@, j + 1, e.id));
                    }
                }
                None => {}
            }
            j += 1;
        }
        i += 1;
    }
    proof { assert(entries@.subrange(0, i as int) =~= entries@); }
    (objects, connections)
}

/// A written untyped element reads back with its id, class, subtype,
/// own records and other children, when none of those children is
/// itself a `Properties70` block.
pub proof fn lemma_opaque_element_round_trip(e: OpaqueEmit)
    requires forall|k: int| 0 <= k < e.body@.len() ==> encode_utf8((#[trigger] e.body@[k]).name@) != "Properties70".spec_bytes(),
    ensures
        obj_id(opaque_element_v(e)) == Some(e.id),
        opaque_element_v(e).name == encode_utf8(e.class@),
        subtype_text(opaque_element_v(e)) == encode_utf8(e.subtype@),
        own_records(opaque_element_v(e)) == records_view(e.records@),
        opaque_element_v(e).children.subrange(
            opaque_element_v(e).children.len() - e.body@.len(),
            opaque_element_v(e).children.len() as int,
        ) == nodes_view(e.body@),
{
    let n = opaque_element_v(e);
    let rs = records_view(e.records@);
    let head: Seq<NodeV> = if e.records@.len() > 0 { seq![p70_v(rs)] } else { Seq::empty() };
    let bv = nodes_view(e.body@);
    lemma_nodes_view_len(e.body@);
    vstd::utf8::encode_utf8_valid_utf8(e.subtype@);
    assert(n.children == head + bv);
    assert(n.children.subrange(n.children.len() - bv.len(), n.children.len() as int) =~= bv);
    crate::constraint_writer::lemma_p70_records(rs);
    if e.records@.len() > 0 {
        reveal_strlit("Properties70");
        assert(first_named(n.children, "Properties70".spec_bytes()) == Some(p70_v(rs)));
    } else {
        assert(rs =~= Seq::<PRecordV>::empty());
        assert(n.children =~= bv);
        lemma_no_p70(bv);
        assert(records_fold(Seq::<NodeV>::empty(), 0) =~= Seq::<PRecordV>::empty());
    }
}

proof fn lemma_no_p70(cs: Seq<NodeV>)
    requires forall|k: int| 0 <= k < cs.len() ==> (#[trigger] cs[k]).name != "Properties70".spec_bytes(),
    ensures first_named(cs, "Properties70".spec_bytes()) is None,
    decreases cs.len(),
{
    if cs.len() > 0 {
        assert forall|k: int| 0 <= k < cs.drop_first().len() implies (#[trigger] cs.drop_first()[k]).name != "Properties70".spec_bytes() by {
            assert(cs.drop_first()[k] == cs[k + 1]);
        }
        lemma_no_p70(cs.drop_first());
    }
}

} // verus!
