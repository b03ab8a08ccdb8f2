//! Subtype discriminators of the `Geometry` and `NodeAttribute` elements
//! that have no typed decoder of their own, and the `Model`s they are
//! attached to.
//!
//! A non-mesh `Geometry` (`NurbsCurve`, `NurbsSurface`, `Boundary`,
//! `TrimNurbsSurface`, `Line`) or a `LimbNode` / `Null` `NodeAttribute`
//! is tagged onto the `Model` it is `OO`-connected to. `Mesh` and
//! `Shape` geometries, and `Light` / `Camera` attributes, have typed
//! decoders elsewhere and are never tagged here.

use vstd::prelude::*;
use vstd::string::StringSliceAdditionalSpecFns;
use crate::model::{
    first_named, lemma_nodes_view_len, node_view, nodes_view, prop_as_i64, FbxDocument, FbxNode,
    FbxProperty, NodeV, PropV,
};

verus! {

/// A subtype discriminator that is surfaced as a tag on its model.
#[derive(Clone, Copy, Debug, PartialEq, Eq, Structural)]
pub enum AttachedKind {
    NurbsCurve,
    NurbsSurface,
    Boundary,
    TrimNurbsSurface,
    Line,
    LimbNode,
    Null,
}

/// The element class whose subtypes are tagged.
#[derive(Clone, Copy, Debug, PartialEq, Eq, Structural)]
pub enum ElementClass {
    Geometry,
    NodeAttribute,
}

pub open spec fn kind_bytes(k: AttachedKind) -> Seq<u8> {
    match k {
        AttachedKind::NurbsCurve => "NurbsCurve".spec_bytes(),
        AttachedKind::NurbsSurface => "NurbsSurface".spec_bytes(),
        AttachedKind::Boundary => "Boundary".spec_bytes(),
        AttachedKind::TrimNurbsSurface => "TrimNurbsSurface".spec_bytes(),
        AttachedKind::Line => "Line".spec_bytes(),
        AttachedKind::LimbNode => "LimbNode".spec_bytes(),
        AttachedKind::Null => "Null".spec_bytes(),
    }
}

/// The class a kind belongs to.
pub open spec fn kind_class(k: AttachedKind) -> ElementClass {
    match k {
        AttachedKind::LimbNode | AttachedKind::Null => ElementClass::NodeAttribute,
        _ => ElementClass::Geometry,
    }
}

impl AttachedKind {
    /// The subtype string, as the file spells it.
    pub fn name(self) -> (r: &'static str)
        ensures r.spec_bytes() == kind_bytes(self),
    {
        match self {
            AttachedKind::NurbsCurve => "NurbsCurve",
            AttachedKind::NurbsSurface => "NurbsSurface",
            AttachedKind::Boundary => "Boundary",
            AttachedKind::TrimNurbsSurface => "TrimNurbsSurface",
            AttachedKind::Line => "Line",
            AttachedKind::LimbNode => "LimbNode",
            AttachedKind::Null => "Null",
        }
    }
}

pub open spec fn class_bytes(c: ElementClass) -> Seq<u8> {
    match c {
        ElementClass::Geometry => "Geometry".spec_bytes(),
        ElementClass::NodeAttribute => "NodeAttribute".spec_bytes(),
    }
}

/// The tagged kind a subtype string names within a class, if any.
pub open spec fn subtype_kind(c: ElementClass, b: Seq<u8>) -> Option<AttachedKind> {
    match c {
        ElementClass::Geometry => {
            if b == kind_bytes(AttachedKind::NurbsCurve) {
                Some(AttachedKind::NurbsCurve)
            } else if b == kind_bytes(AttachedKind::NurbsSurface) {
                Some(AttachedKind::NurbsSurface)
            } else if b == kind_bytes(AttachedKind::Boundary) {
                Some(AttachedKind::Boundary)
            } else if b == kind_bytes(AttachedKind::TrimNurbsSurface) {
                Some(AttachedKind::TrimNurbsSurface)
            } else if b == kind_bytes(AttachedKind::Line) {
                Some(AttachedKind::Line)
            } else {
                None
            }
        },
        ElementClass::NodeAttribute => {
            if b == kind_bytes(AttachedKind::LimbNode) {
                Some(AttachedKind::LimbNode)
            } else if b == kind_bytes(AttachedKind::Null) {
                Some(AttachedKind::Null)
            } else {
                None
            }
        },
    }
}

/// The id and kind of an element of class `c` whose first property is
/// an integer id and whose third is a tagged subtype string.
pub open spec fn elem_kind(c: ElementClass, n: NodeV) -> Option<(i64, AttachedKind)> {
    if n.name == class_bytes(c) && n.properties.len() > 2 && prop_as_i64(n.properties[0]) is Some
        && (n.properties[2] matches PropV::Str(b) && subtype_kind(c, b) is Some)
    {
        Some((prop_as_i64(n.properties[0])->Some_0, subtype_kind(c, n.properties[2]->Str_0)->Some_0))
    } else {
        None
    }
}

/// The tagged elements among the first `i` objects, in order.
pub open spec fn kind_table(c: ElementClass, objs: Seq<NodeV>, i: int) -> Seq<(i64, AttachedKind)>
    decreases i,
{
    if i <= 0 {
        Seq::empty()
    } else {
        let t = kind_table(c, objs, i - 1);
        match elem_kind(c, objs[i - 1]) {
            Some(e) => t.push(e),
            None => t,
        }
    }
}

/// The kind of the last of the first `j` entries with id `id` (a later
/// element with the same id replaces an earlier one).
pub open spec fn lookup_last(t: Seq<(i64, AttachedKind)>, j: int, id: i64) -> Option<AttachedKind>
    decreases j,
{
    if j <= 0 {
        None
    } else if t[j - 1].0 == id {
        Some(t[j - 1].1)
    } else {
        lookup_last(t, j - 1, id)
    }
}

/// The `(child, parent)` ids of a connection record `"OO", child, parent`.
pub open spec fn oo_link(n: NodeV) -> Option<(i64, i64)> {
    if n.properties.len() > 2 && (n.properties[0] matches PropV::Str(b) && b == "OO".spec_bytes())
        && prop_as_i64(n.properties[1]) is Some && prop_as_i64(n.properties[2]) is Some
    {
        Some((prop_as_i64(n.properties[1])->Some_0, prop_as_i64(n.properties[2])->Some_0))
    } else {
        None
    }
}

/// Whether a model already carries a tag.
pub open spec fn tagged(s: Seq<(i64, AttachedKind)>, id: i64) -> bool {
    exists|k: int| 0 <= k < s.len() && #[trigger] s[k].0 == id
}

/// The tags the first `i` connection records give: each `OO` link from a
/// tagged element to a model tags that model, the first tag of a model
/// winning.
pub open spec fn tags_fold(t: Seq<(i64, AttachedKind)>, cs: Seq<NodeV>, i: int) -> Seq<(i64, AttachedKind)>
    decreases i,
{
    if i <= 0 {
        Seq::empty()
    } else {
        let prev = tags_fold(t, cs, i - 1);
        let c = cs[i - 1];
        if c.name == "C".spec_bytes() {
            match oo_link(c) {
                Some((child, parent)) => match lookup_last(t, t.len() as int, child) {
                    Some(k) => if tagged(prev, parent) { prev } else { prev.push((parent, k)) },
                    None => prev,
                },
                None => prev,
            }
        } else {
            prev
        }
    }
}

/// The children of the root's first `Objects` record.
pub open spec fn objects_of(root: NodeV) -> Seq<NodeV> {
    match first_named(root.children, "Objects".spec_bytes()) {
        Some(o) => o.children,
        None => Seq::empty(),
    }
}

/// The `(model id, kind)` tags of a document root for class `c`, in
/// connection order.
pub open spec fn spec_kind_tags(c: ElementClass, root: NodeV) -> Seq<(i64, AttachedKind)> {
    let objs = objects_of(root);
    match first_named(root.children, "Connections".spec_bytes()) {
        Some(conns) => tags_fold(kind_table(c, objs, objs.len() as int), conns.children, conns.children.len() as int),
        None => Seq::empty(),
    }
}

/// No model occurs twice among `s`.
pub open spec fn distinct_models(s: Seq<(i64, AttachedKind)>) -> bool {
    forall|i: int, j: int| 0 <= i < j < s.len() ==> #[trigger] s[i].0 != #[trigger] s[j].0
}

/// Every kind in `s` belongs to class `c`.
pub open spec fn kinds_of_class(s: Seq<(i64, AttachedKind)>, c: ElementClass) -> bool {
    forall|i: int| 0 <= i < s.len() ==> kind_class(#[trigger] s[i].1) == c
}

proof fn lemma_subtype_class(c: ElementClass, b: Seq<u8>)
    ensures subtype_kind(c, b) matches Some(k) ==> kind_class(k) == c,
{
}

proof fn lemma_table_class(c: ElementClass, objs: Seq<NodeV>, i: int)
    ensures kinds_of_class(kind_table(c, objs, i), c),
    decreases i,
{
    if i > 0 {
        lemma_table_class(c, objs, i - 1);
        let t = kind_table(c, objs, i - 1);
        match elem_kind(c, objs[i - 1]) {
            Some(e) => {
                lemma_subtype_class(c, objs[i - 1].properties[2]->Str_0);
                assert forall|q: int| 0 <= q < t.push(e).len() implies kind_class(#[trigger] t.push(e)[q].1) == c by {
                    if q < t.len() {
                        assert(t.push(e)[q] == t[q]);
                    }
                }
            }
            None => {}
        }
    }
}

proof fn lemma_lookup_class(t: Seq<(i64, AttachedKind)>, j: int, id: i64, c: ElementClass)
    requires kinds_of_class(t, c), j <= t.len(),
    ensures lookup_last(t, j, id) matches Some(k) ==> kind_class(k) == c,
    decreases j,
{
    if j > 0 && t[j - 1].0 != id {
        lemma_lookup_class(t, j - 1, id, c);
    }
}

proof fn lemma_fold_tags(t: Seq<(i64, AttachedKind)>, cs: Seq<NodeV>, i: int, c: ElementClass)
    requires kinds_of_class(t, c),
    ensures
        distinct_models(tags_fold(t, cs, i)),
        kinds_of_class(tags_fold(t, cs, i), c),
    decreases i,
{
    if i > 0 {
        lemma_fold_tags(t, cs, i - 1, c);
        let prev = tags_fold(t, cs, i - 1);
        let cn = cs[i - 1];
        if cn.name == "C".spec_bytes() {
            match oo_link(cn) {
                Some((child, parent)) => {
                    lemma_lookup_class(t, t.len() as int, child, c);
                    match lookup_last(t, t.len() as int, child) {
                        Some(k) => {
                            if !tagged(prev, parent) {
                                let nxt = prev.push((parent, k));
                                assert forall|a: int, b: int| 0 <= a < b < nxt.len() implies #[trigger] nxt[a].0 != #[trigger] nxt[b].0 by {
                                    if b == prev.len() {
                                        assert(nxt[a] == prev[a]);
                                        if prev[a].0 == parent {
                                            assert(tagged(prev, parent));
                                        }
                                    } else {
                                        assert(nxt[a] == prev[a] && nxt[b] == prev[b]);
                                    }
                                }
                                assert forall|q: int| 0 <= q < nxt.len() implies kind_class(#[trigger] nxt[q].1) == c by {
                                    if q < prev.len() {
                                        assert(nxt[q] == prev[q]);
                                    }
                                }
                            }
                        }
                        None => {}
                    }
                }
                None => {}
            }
        }
    }
}

/// The tags of a root name each model at most once (the first link to a
/// model wins), and only with subtypes of the class asked for.
pub proof fn lemma_kind_tags_shape(c: ElementClass, root: NodeV)
    ensures
        distinct_models(spec_kind_tags(c, root)),
        kinds_of_class(spec_kind_tags(c, root), c),
{
    let objs = objects_of(root);
    lemma_table_class(c, objs, objs.len() as int);
    match first_named(root.children, "Connections".spec_bytes()) {
        Some(conns) => {
            lemma_fold_tags(kind_table(c, objs, objs.len() as int), conns.children, conns.children.len() as int, c);
        }
        None => {}
    }
}

fn class_name(c: ElementClass) -> (r: &'static str)
    ensures r.spec_bytes() == class_bytes(c),
{
    match c {
        ElementClass::Geometry => "Geometry",
        ElementClass::NodeAttribute => "NodeAttribute",
    }
}

fn subtype_kind_exec(c: ElementClass, b: &[u8]) -> (r: Option<AttachedKind>)
    ensures r == subtype_kind(c, b@),
{
    let eq = |name: &str| -> (e: bool)
        ensures e == (b@ == name.spec_bytes()),
    { crate::bytes::bytes_eq(b, name.as_bytes()) };
    match c {
        ElementClass::Geometry => {
            if eq("NurbsCurve") {
                Some(AttachedKind::NurbsCurve)
            } else if eq("NurbsSurface") {
                Some(AttachedKind::NurbsSurface)
            } else if eq("Boundary") {
                Some(AttachedKind::Boundary)
            } else if eq("TrimNurbsSurface") {
                Some(AttachedKind::TrimNurbsSurface)
            } else if eq("Line") {
                Some(AttachedKind::Line)
            } else {
                None
            }
        },
        ElementClass::NodeAttribute => {
            if eq("LimbNode") {
                Some(AttachedKind::LimbNode)
            } else if eq("Null") {
                Some(AttachedKind::Null)
            } else {
                None
            }
        },
    }
}

fn element_kind(c: ElementClass, n: &FbxNode) -> (r: Option<(i64, AttachedKind)>)
    ensures r == elem_kind(c, node_view(*n)),
{
    if !crate::bytes::bytes_eq(n.name.as_str().as_bytes(), class_name(c).as_bytes()) {
        return None;
    }
    if n.properties.len() <= 2 {
        return None;
    }
    proof {
        crate::ascii::lemma_props_view_index(n.properties@, 0);
        crate::ascii::lemma_props_view_index(n.properties@, 2);
    }
    let id = match n.properties[0].as_i64() {
        Some(v) => v,
        None => { return None; }
    };
    let kind = match &n.properties[2] {
        FbxProperty::String(b) => subtype_kind_exec(c, b.as_slice()),
        _ => None,
    };
    match kind {
        Some(k) => Some((id, k)),
        None => None,
    }
}

fn connection_link(n: &FbxNode) -> (r: Option<(i64, i64)>)
    ensures r == oo_link(node_view(*n)),
{
    if n.properties.len() <= 2 {
        return None;
    }
    proof {
        crate::ascii::lemma_props_view_index(n.properties@, 0);
        crate::ascii::lemma_props_view_index(n.properties@, 1);
        crate::ascii::lemma_props_view_index(n.properties@, 2);
    }
    let is_oo = match &n.properties[0] {
        FbxProperty::String(b) => crate::bytes::bytes_eq(b.as_slice(), "OO".as_bytes()),
        _ => false,
    };
    if !is_oo {
        return None;
    }
    match (n.properties[1].as_i64(), n.properties[2].as_i64()) {
        (Some(child), Some(parent)) => Some((child, parent)),
        _ => None,
    }
}

fn lookup_kind(t: &Vec<(i64, AttachedKind)>, id: i64) -> (r: Option<AttachedKind>)
    ensures r == lookup_last(t@, t@.len() as int, id),
{
    let mut j: usize = t.len();
    while j > 0
        invariant
            j <= t@.len(),
            lookup_last(t@, t@.len() as int, id) == lookup_last(t@, j as int, id),
        decreases j,
    {
        if t[j - 1].0 == id {
            return Some(t[j - 1].1);
        }
        j -= 1;
    }
    None
}

fn is_tagged(s: &Vec<(i64, AttachedKind)>, id: i64) -> (r: bool)
    ensures r == tagged(s@, id),
{
    let mut k: usize = 0;
    while k < s.len()
        invariant
            k <= s@.len(),
            forall|q: int| 0 <= q < k ==> #[trigger] s@[q].0 != id,
        decreases s@.len() - k,
    {
        if s[k].0 == id {
            return true;
        }
        k += 1;
    }
    false
}

/// The tagged elements of the document's `Objects` record, in order.
fn build_table(c: ElementClass, root: &FbxNode) -> (t: Vec<(i64, AttachedKind)>)
    ensures
        ({
            let objs = objects_of(node_view(*root));
            t@ == kind_table(c, objs, objs.len() as int)
        }),
{
    let mut t: Vec<(i64, AttachedKind)> = Vec::new();
    match root.child("Objects") {
        Some(o) => {
            let ghost ov = nodes_view(o.children@);
            proof { lemma_nodes_view_len(o.children@); }
            let mut i: usize = 0;
            while i < o.children.len()
                invariant
                    i <= o.children@.len(),
                    ov == nodes_view(o.children@),
                    ov.len() == o.children@.len(),
                    forall|k: int| 0 <= k < ov.len() ==> #[trigger] ov[k] == node_view(o.children@[k]),
                    t@ == kind_table(c, ov, i as int),
                decreases o.children@.len() - i,
            {
                match element_kind(c, &o.children[i]) {
                    Some(e) => { t.push(e); }
                    None => {}
                }
                i += 1;
            }
            t
        }
        None => t,
    }
}

/// The `(model id, kind)` tags of class `c` under a document root, one
/// per tagged model, in connection order.
fn kind_tags(c: ElementClass, root: &FbxNode) -> (r: Vec<(i64, AttachedKind)>)
    ensures r@ == spec_kind_tags(c, node_view(*root)),
{
    let t = build_table(c, root);
    let mut out: Vec<(i64, AttachedKind)> = Vec::new();
    match root.child("Connections") {
        Some(conns) => {
            let ghost cv = nodes_view(conns.children@);
            proof { lemma_nodes_view_len(conns.children@); }
            let mut i: usize = 0;
            while i < conns.children.len()
                invariant
                    i <= conns.children@.len(),
                    cv == nodes_view(conns.children@),
                    cv.len() == conns.children@.len(),
                    forall|k: int| 0 <= k < cv.len() ==> #[trigger] cv[k] == node_view(conns.children@[k]),
                    out@ == tags_fold(t@, cv, i as int),
                decreases conns.children@.len() - i,
            {
                let cn = &conns.children[i];
                if crate::bytes::bytes_eq(cn.name.as_str().as_bytes(), "C".as_bytes()) {
                    match connection_link(cn) {
                        Some((child, parent)) => match lookup_kind(&t, child) {
                            Some(k) => {
                                if !is_tagged(&out, parent) {
                                    out.push((parent, k));
                                }
                            }
                            None => {}
                        },
                        None => {}
                    }
                }
                i += 1;
            }
            out
        }
        None => out,
    }
}

/// The tags of the non-mesh `Geometry` elements: for every `OO` link
/// from such a geometry to a model, `(model id, subtype)`; a model keeps
/// the first tag it receives.
pub fn geometry_kind_tags(doc: &FbxDocument) -> (r: Vec<(i64, AttachedKind)>)
    ensures
        r@ == spec_kind_tags(ElementClass::Geometry, node_view(doc.root)),
        distinct_models(r@),
        kinds_of_class(r@, ElementClass::Geometry),
{
    proof { lemma_kind_tags_shape(ElementClass::Geometry, node_view(doc.root)); }
    kind_tags(ElementClass::Geometry, &doc.root)
}

/// The tags of the `LimbNode` / `Null` `NodeAttribute` elements: for
/// every `OO` link from such an attribute to a model, `(model id,
/// subtype)`; a model keeps the first tag it receives.
pub fn node_attribute_kind_tags(doc: &FbxDocument) -> (r: Vec<(i64, AttachedKind)>)
    ensures
        r@ == spec_kind_tags(ElementClass::NodeAttribute, node_view(doc.root)),
        distinct_models(r@),
        kinds_of_class(r@, ElementClass::NodeAttribute),
{
    proof { lemma_kind_tags_shape(ElementClass::NodeAttribute, node_view(doc.root)); }
    kind_tags(ElementClass::NodeAttribute, &doc.root)
}

} // verus!
