//! The `Definitions` section: the document's per-class instance counts
//! and `PropertyTemplate` blocks.
//!
//! ```text
//! Definitions:  {
//!     Version: 100
//!     Count: 13
//!     ObjectType: "Geometry" {
//!         Count: 4
//!         PropertyTemplate: "FbxMesh" { Properties70:  { P: ... } }
//!     }
//!     ...
//! }
//! ```
//!
//! The ASCII and binary forms render the same node tree, so one walker
//! serves both. A repeated class name keeps its last block.

use vstd::prelude::*;
use vstd::string::StringSliceAdditionalSpecFns;
use vstd::utf8::{encode_utf8, valid_utf8};
use crate::model::{
    first_named, lemma_nodes_view_len, name_bytes, node_view, nodes_view, prop_as_i64, props_view,
    FbxDocument, FbxNode, FbxProperty, NodeV, PropV,
};

verus! {

/// One `ObjectType` block.
#[derive(Debug)]
pub struct ObjectTypeDefinition {
    /// The class name (the block's string property).
    pub object_type: String,
    /// The declared instance count (the inner `Count` leaf).
    pub count: Option<i64>,
    /// The `PropertyTemplate: "<name>"` string.
    pub template_name: Option<String>,
    /// The `PropertyTemplate` node holding the class's default
    /// `Properties70` block; `None` when the class has none.
    pub template: Option<FbxNode>,
}

/// View of an [`ObjectTypeDefinition`] (strings as UTF-8 bytes).
pub struct DefV {
    pub count: Option<i64>,
    pub template_name: Option<Seq<u8>>,
    pub template: Option<NodeV>,
}

pub open spec fn opt_string_view(s: Option<String>) -> Option<Seq<u8>> {
    match s {
        Some(x) => Some(encode_utf8(x@)),
        None => None,
    }
}

pub open spec fn opt_node_view(n: Option<FbxNode>) -> Option<NodeV> {
    match n {
        Some(x) => Some(node_view(x)),
        None => None,
    }
}

pub open spec fn def_view(d: ObjectTypeDefinition) -> DefV {
    DefV {
        count: d.count,
        template_name: opt_string_view(d.template_name),
        template: opt_node_view(d.template),
    }
}

/// The decoded `Definitions` section.
#[derive(Debug)]
pub struct Definitions {
    /// The section's `Version` leaf.
    pub version: Option<i64>,
    /// The section's `Count` leaf: the total object count.
    pub total_count: Option<i64>,
    /// The class blocks, one per class name (see [`Definitions::wf`]).
    pub types: Vec<ObjectTypeDefinition>,
}

// ---------------------------------------------------------------------
// The decoded value of a node tree
// ---------------------------------------------------------------------

pub open spec fn definitions_name() -> Seq<u8> {
    seq![0x44u8, 0x65, 0x66, 0x69, 0x6e, 0x69, 0x74, 0x69, 0x6f, 0x6e, 0x73]
}

pub open spec fn version_name() -> Seq<u8> {
    seq![0x56u8, 0x65, 0x72, 0x73, 0x69, 0x6f, 0x6e]
}

pub open spec fn count_name() -> Seq<u8> {
    seq![0x43u8, 0x6f, 0x75, 0x6e, 0x74]
}

pub open spec fn object_type_name() -> Seq<u8> {
    seq![0x4fu8, 0x62, 0x6a, 0x65, 0x63, 0x74, 0x54, 0x79, 0x70, 0x65]
}

pub open spec fn property_template_name() -> Seq<u8> {
    seq![0x50u8, 0x72, 0x6f, 0x70, 0x65, 0x72, 0x74, 0x79, 0x54, 0x65, 0x6d, 0x70, 0x6c, 0x61, 0x74, 0x65]
}

/// The first property of a leaf child named `name`, as an integer.
pub open spec fn leaf_int(n: NodeV, name: Seq<u8>) -> Option<i64> {
    match first_named(n.children, name) {
        Some(c) => if c.properties.len() > 0 { prop_as_i64(c.properties[0]) } else { None },
        None => None,
    }
}

/// The first property of a node when it is a UTF-8 string.
pub open spec fn first_string(n: NodeV) -> Option<Seq<u8>> {
    if n.properties.len() > 0 && (n.properties[0] matches PropV::Str(b) && valid_utf8(b)) {
        Some(n.properties[0]->Str_0)
    } else {
        None
    }
}

/// The definition an `ObjectType` block declares.
pub open spec fn def_of(ot: NodeV) -> DefV {
    let tpl = first_named(ot.children, property_template_name());
    DefV {
        count: leaf_int(ot, count_name()),
        template_name: match tpl {
            Some(t) => first_string(t),
            None => None,
        },
        template: tpl,
    }
}

/// The classes declared by the first `i` children, a later block of a
/// class replacing an earlier one; blocks without a class string are
/// skipped.
pub open spec fn defs_fold(cs: Seq<NodeV>, i: int) -> Map<Seq<u8>, DefV>
    decreases i,
{
    if i <= 0 {
        Map::empty()
    } else {
        let m = defs_fold(cs, i - 1);
        let c = cs[i - 1];
        if c.name == object_type_name() && first_string(c) is Some {
            m.insert(first_string(c)->Some_0, def_of(c))
        } else {
            m
        }
    }
}

/// The decoded section of a document root: version, total count and
/// classes; all empty without a `Definitions` child.
pub open spec fn spec_definitions(root: NodeV) -> (Option<i64>, Option<i64>, Map<Seq<u8>, DefV>) {
    match first_named(root.children, definitions_name()) {
        None => (None, None, Map::empty()),
        Some(d) => (leaf_int(d, version_name()), leaf_int(d, count_name()), defs_fold(d.children, d.children.len() as int)),
    }
}

/// The classes held in a list of definitions.
pub open spec fn types_map(v: Seq<ObjectTypeDefinition>) -> Map<Seq<u8>, DefV>
    decreases v.len(),
{
    if v.len() == 0 {
        Map::empty()
    } else {
        types_map(v.drop_last()).insert(encode_utf8(v.last().object_type@), def_view(v.last()))
    }
}

pub open spec fn class_key(d: ObjectTypeDefinition) -> Seq<u8> {
    encode_utf8(d.object_type@)
}

/// No class occurs twice.
pub open spec fn distinct_classes(v: Seq<ObjectTypeDefinition>) -> bool {
    forall|i: int, j: int| 0 <= i < j < v.len() ==> class_key(#[trigger] v[i]) != class_key(#[trigger] v[j])
}

impl Definitions {
    /// The classes, by UTF-8 name.
    pub open spec fn types_view(&self) -> Map<Seq<u8>, DefV> {
        types_map(self.types@)
    }

    /// The decoded section: version, total count and classes.
    pub open spec fn view_parts(&self) -> (Option<i64>, Option<i64>, Map<Seq<u8>, DefV>) {
        (self.version, self.total_count, types_map(self.types@))
    }

    /// No class name occurs twice.
    pub open spec fn wf(&self) -> bool {
        distinct_classes(self.types@)
    }
}

proof fn lemma_types_map_lookup(v: Seq<ObjectTypeDefinition>, k: Seq<u8>)
    requires distinct_classes(v),
    ensures
        types_map(v).dom().contains(k) <==> exists|i: int| 0 <= i < v.len() && class_key(#[trigger] v[i]) == k,
        forall|i: int| 0 <= i < v.len() && class_key(#[trigger] v[i]) == k ==> types_map(v)[k] == def_view(v[i]),
    decreases v.len(),
{
    if v.len() > 0 {
        let init = v.drop_last();
        assert(distinct_classes(init)) by {
            assert forall|i: int, j: int| 0 <= i < j < init.len() implies class_key(#[trigger] init[i]) != class_key(#[trigger] init[j]) by {
                assert(init[i] == v[i] && init[j] == v[j]);
            }
        }
        lemma_types_map_lookup(init, k);
        if class_key(v.last()) != k {
            assert forall|i: int| 0 <= i < v.len() && class_key(#[trigger] v[i]) == k implies types_map(v)[k] == def_view(v[i]) by {
                assert(i < v.len() - 1);
                assert(init[i] == v[i]);
            }
            if types_map(v).dom().contains(k) {
                let i = choose|i: int| 0 <= i < init.len() && class_key(#[trigger] init[i]) == k;
                assert(v[i] == init[i]);
            }
            if exists|i: int| 0 <= i < v.len() && class_key(#[trigger] v[i]) == k {
                let i = choose|i: int| 0 <= i < v.len() && class_key(#[trigger] v[i]) == k;
                assert(init[i] == v[i]);
            }
        } else {
            assert forall|i: int| 0 <= i < v.len() && class_key(#[trigger] v[i]) == k implies types_map(v)[k] == def_view(v[i]) by {
                if i < v.len() - 1 {
                    assert(class_key(v[i]) != class_key(v[v.len() - 1]));
                }
            }
            assert(class_key(v[v.len() - 1]) == k);
        }
    }
}

proof fn lemma_types_map_push(v: Seq<ObjectTypeDefinition>, x: ObjectTypeDefinition)
    ensures types_map(v.push(x)) == types_map(v).insert(class_key(x), def_view(x)),
{
    assert(v.push(x).drop_last() =~= v);
}

/// Removing a class's unique entry removes the key.
proof fn lemma_types_map_remove(v: Seq<ObjectTypeDefinition>, j: int)
    requires distinct_classes(v), 0 <= j < v.len(),
    ensures
        types_map(v.remove(j)) == types_map(v).remove(class_key(v[j])),
        distinct_classes(v.remove(j)),
    decreases v.len(),
{
    let w = v.remove(j);
    let k = class_key(v[j]);
    assert(distinct_classes(w)) by {
        assert forall|a: int, b: int| 0 <= a < b < w.len() implies class_key(#[trigger] w[a]) != class_key(#[trigger] w[b]) by {
            let a2 = if a < j { a } else { a + 1 };
            let b2 = if b < j { b } else { b + 1 };
            assert(w[a] == v[a2] && w[b] == v[b2]);
        }
    }
    lemma_types_map_lookup(v, k);
    assert forall|key: Seq<u8>| #[trigger] types_map(w).dom().contains(key) <==> types_map(v).remove(k).dom().contains(key) by {
        lemma_types_map_lookup(v, key);
        lemma_types_map_lookup(w, key);
        if types_map(w).dom().contains(key) {
            let i = choose|i: int| 0 <= i < w.len() && class_key(#[trigger] w[i]) == key;
            let i2 = if i < j { i } else { i + 1 };
            assert(w[i] == v[i2]);
            assert(i2 != j);
        }
        if types_map(v).remove(k).dom().contains(key) {
            let i = choose|i: int| 0 <= i < v.len() && class_key(#[trigger] v[i]) == key;
            assert(i != j);
            let i2 = if i < j { i } else { i - 1 };
            assert(w[i2] == v[i]);
        }
    }
    assert forall|key: Seq<u8>| types_map(w).dom().contains(key) implies #[trigger] types_map(w)[key] == types_map(v).remove(k)[key] by {
        lemma_types_map_lookup(v, key);
        lemma_types_map_lookup(w, key);
        let i = choose|i: int| 0 <= i < w.len() && class_key(#[trigger] w[i]) == key;
        let i2 = if i < j { i } else { i + 1 };
        assert(w[i] == v[i2]);
    }
    assert(types_map(w) =~= types_map(v).remove(k));
}

// ---------------------------------------------------------------------
// Decoding
// ---------------------------------------------------------------------

fn first_string_of(n: &FbxNode) -> (r: Option<String>)
    ensures opt_string_view(r) == first_string(node_view(*n)),
{
    if n.properties.len() == 0 {
        return None;
    }
    proof { crate::ascii::lemma_props_view_index(n.properties@, 0); }
    match &n.properties[0] {
        FbxProperty::String(b) => crate::text::string_from_utf8(b.as_slice()),
        _ => None,
    }
}

/// The first property of the child named `name`, read as an integer.
pub(crate) fn leaf_i64(parent: &FbxNode, name: &str) -> (r: Option<i64>)
    ensures r == leaf_int(node_view(*parent), name.spec_bytes()),
{
    match parent.child(name) {
        Some(c) => {
            if c.properties.len() == 0 {
                None
            } else {
                proof { crate::ascii::lemma_props_view_index(c.properties@, 0); }
                c.properties[0].as_i64()
            }
        }
        None => None,
    }
}

fn decode_object_type(ot: &FbxNode) -> (d: ObjectTypeDefinition)
    requires first_string(node_view(*ot)) is Some,
    ensures
        class_key(d) == first_string(node_view(*ot))->Some_0,
        def_view(d) == def_of(node_view(*ot)),
{
    proof {
        reveal_strlit("Count");
        reveal_strlit("PropertyTemplate");
        assert("Count".spec_bytes() =~= count_name()) by { crate::ascii::lemma_ascii_literal("Count"); }
        assert("PropertyTemplate".spec_bytes() =~= property_template_name()) by { crate::ascii::lemma_ascii_literal("PropertyTemplate"); }
    }
    let class = first_string_of(ot);
    let object_type = match class {
        Some(c) => c,
        None => String::new(),
    };
    let tpl = ot.child("PropertyTemplate");
    let template_name = match tpl {
        Some(t) => first_string_of(t),
        None => None,
    };
    let template = match tpl {
        Some(t) => Some(t.clone_node()),
        None => None,
    };
    ObjectTypeDefinition { object_type, count: leaf_i64(ot, "Count"), template_name, template }
}

impl Definitions {
    /// The `Definitions` section of a parsed document.
    pub fn from_document(doc: &FbxDocument) -> (d: Self)
        ensures
            d.wf(),
            d.view_parts() == spec_definitions(node_view(doc.root)),
            d.version == spec_definitions(node_view(doc.root)).0,
            d.total_count == spec_definitions(node_view(doc.root)).1,
            d.types_view() == spec_definitions(node_view(doc.root)).2,
    {
        Self::from_root(&doc.root)
    }

    /// The `Definitions` section under a document root; empty when the
    /// root has none.
    pub fn from_root(root: &FbxNode) -> (d: Self)
        ensures
            d.wf(),
            d.view_parts() == spec_definitions(node_view(*root)),
            d.version == spec_definitions(node_view(*root)).0,
            d.total_count == spec_definitions(node_view(*root)).1,
            d.types_view() == spec_definitions(node_view(*root)).2,
    {
        proof {
            reveal_strlit("Definitions");
            reveal_strlit("Version");
            reveal_strlit("Count");
            reveal_strlit("ObjectType");
            assert("Definitions".spec_bytes() =~= definitions_name()) by { crate::ascii::lemma_ascii_literal("Definitions"); }
            assert("Version".spec_bytes() =~= version_name()) by { crate::ascii::lemma_ascii_literal("Version"); }
            assert("Count".spec_bytes() =~= count_name()) by { crate::ascii::lemma_ascii_literal("Count"); }
            assert("ObjectType".spec_bytes() =~= object_type_name()) by { crate::ascii::lemma_ascii_literal("ObjectType"); }
        }
        let defs = match root.child("Definitions") {
            Some(d) => d,
            None => {
                let empty: Vec<ObjectTypeDefinition> = Vec::new();
                assert(types_map(empty@) =~= Map::<Seq<u8>, DefV>::empty());
                return Definitions { version: None, total_count: None, types: empty };
            }
        };
        let version = leaf_i64(defs, "Version");
        let total_count = leaf_i64(defs, "Count");
        let ghost cs = nodes_view(defs.children@);
        proof { lemma_nodes_view_len(defs.children@); }
        let mut types: Vec<ObjectTypeDefinition> = Vec::new();
        let mut i: usize = 0;
        assert(types_map(types@) =~= defs_fold(cs, 0));
        while i < defs.children.len()
            invariant
                i <= defs.children@.len(),
                cs == nodes_view(defs.children@),
                cs.len() == defs.children@.len(),
                forall|k: int| 0 <= k < cs.len() ==> #[trigger] cs[k] == node_view(defs.children@[k]),
                distinct_classes(types@),
                types_map(types@) == defs_fold(cs, i as int),
                object_type_name() == "ObjectType".spec_bytes(),
            decreases defs.children@.len() - i,
        {
            let c = &defs.children[i];
            let want = "ObjectType".as_bytes();
            let is_ot = crate::bytes::bytes_eq(c.name.as_str().as_bytes(), want);
            let class = if is_ot { first_string_of(c) } else { None };
            match class {
                Some(name) => {
                    let d = decode_object_type(c);
                    let key = name.as_str().as_bytes();
                    // Drop an earlier block of the same class: last wins.
                    let mut j: usize = 0;
                    let mut found = false;
                    while j < types.len() && !found
                        invariant
                            j <= types@.len(),
                            found ==> j < types@.len() && class_key(types@[j as int]) == key@,
                            !found ==> forall|k: int| 0 <= k < j ==> class_key(#[trigger] types@[k]) != key@,
                        decreases types@.len() - j, (if found { 0int } else { 1int }),
                    {
                        if crate::bytes::bytes_eq(types[j].object_type.as_str().as_bytes(), key) {
                            found = true;
                        } else {
                            j += 1;
                        }
                    }
                    let ghost before = types@;
                    if j < types.len() {
                        proof { lemma_types_map_remove(before, j as int); }
                        types.remove(j);
                    }
                    proof {
                        if j >= before.len() {
                            lemma_types_map_lookup(before, key@);
                        }
                        assert(distinct_classes(types@)) by {
                            if j < before.len() {
                                lemma_types_map_remove(before, j as int);
                            }
                        }
                        assert(types_map(types@) == types_map(before).remove(key@)) by {
                            if j < before.len() {
                                lemma_types_map_remove(before, j as int);
                            } else {
                                assert(types_map(before).remove(key@) =~= types_map(before));
                            }
                        }
                        assert forall|k: int| 0 <= k < types@.len() implies class_key(#[trigger] types@[k]) != key@ by {
                            if j < before.len() {
                                let k2 = if k < j { k } else { k + 1 };
                                assert(types@[k] == before[k2]);
                                if k2 > j as int {
                                    assert(class_key(before[j as int]) != class_key(before[k2]));
                                } else {
                                    assert(class_key(before[k2]) != class_key(before[j as int]));
                                }
                            } else {
                                assert(types@[k] == before[k]);
                            }
                        }
                    }
                    let ghost mid = types@;
                    types.push(d);
                    proof {
                        lemma_types_map_push(mid, d);
                        assert(types_map(types@) =~= types_map(before).insert(key@, def_view(d)));
                        assert forall|a: int, b: int| 0 <= a < b < types@.len() implies class_key(#[trigger] types@[a]) != class_key(#[trigger] types@[b]) by {
                            if b == types@.len() - 1 {
                                assert(types@[a] == mid[a]);
                            } else {
                                assert(types@[a] == mid[a] && types@[b] == mid[b]);
                            }
                        }
                    }
                }
                None => {}
            }
            i += 1;
        }
        Definitions { version, total_count, types }
    }

    /// The block of a class, by name.
    pub fn get(&self, object_type: &str) -> (r: Option<&ObjectTypeDefinition>)
        requires self.wf(),
        ensures
            match r {
                Some(d) => self.types_view().dom().contains(object_type.spec_bytes())
                    && def_view(*d) == self.types_view()[object_type.spec_bytes()]
                    && class_key(*d) == object_type.spec_bytes(),
                None => !self.types_view().dom().contains(object_type.spec_bytes()),
            },
    {
        let key = object_type.as_bytes();
        proof { lemma_types_map_lookup(self.types@, key@); }
        let mut j: usize = 0;
        while j < self.types.len()
            invariant
                j <= self.types@.len(),
                key@ == object_type.spec_bytes(),
                distinct_classes(self.types@),
                forall|k: int| 0 <= k < j ==> class_key(#[trigger] self.types@[k]) != key@,
            decreases self.types@.len() - j,
        {
            if crate::bytes::bytes_eq(self.types[j].object_type.as_str().as_bytes(), key) {
                proof { lemma_types_map_lookup(self.types@, key@); }
                return Some(&self.types[j]);
            }
            j += 1;
        }
        None
    }

    /// The `PropertyTemplate` node of a class; `None` when the class is
    /// absent or has no template.
    pub fn template_for(&self, object_type: &str) -> (r: Option<&FbxNode>)
        requires self.wf(),
        ensures
            match r {
                Some(t) => self.types_view().dom().contains(object_type.spec_bytes())
                    && self.types_view()[object_type.spec_bytes()].template == Some(node_view(*t)),
                None => !self.types_view().dom().contains(object_type.spec_bytes())
                    || self.types_view()[object_type.spec_bytes()].template is None,
            },
    {
        match self.get(object_type) {
            Some(d) => match &d.template {
                Some(t) => Some(t),
                None => None,
            },
            None => None,
        }
    }

    /// The number of classes.
    pub fn len(&self) -> (n: usize)
        requires self.wf(),
        ensures n as nat == self.types_view().dom().len(),
    {
        proof { lemma_types_map_len(self.types@); }
        self.types.len()
    }

    /// Whether no class is declared.
    pub fn is_empty(&self) -> (r: bool)
        requires self.wf(),
        ensures r == (self.types_view().dom().len() == 0),
    {
        proof { lemma_types_map_len(self.types@); }
        self.types.len() == 0
    }
}

proof fn lemma_types_map_len(v: Seq<ObjectTypeDefinition>)
    requires distinct_classes(v),
    ensures types_map(v).dom().finite(), types_map(v).dom().len() == v.len(),
    decreases v.len(),
{
    if v.len() > 0 {
        let init = v.drop_last();
        assert(distinct_classes(init)) by {
            assert forall|i: int, j: int| 0 <= i < j < init.len() implies class_key(#[trigger] init[i]) != class_key(#[trigger] init[j]) by {
                assert(init[i] == v[i] && init[j] == v[j]);
            }
        }
        lemma_types_map_len(init);
        lemma_types_map_lookup(init, class_key(v.last()));
        assert(!types_map(init).dom().contains(class_key(v.last()))) by {
            if types_map(init).dom().contains(class_key(v.last())) {
                let i = choose|i: int| 0 <= i < init.len() && class_key(#[trigger] init[i]) == class_key(v.last());
                assert(init[i] == v[i]);
            }
        }
    }
}

// ---------------------------------------------------------------------
// Byte-lexicographic order of class names
// ---------------------------------------------------------------------

/// `a` sorts before `b` byte by byte (a proper prefix sorts first), the
/// order of `str`.
pub open spec fn bytes_lt(a: Seq<u8>, b: Seq<u8>) -> bool
    decreases a.len(),
{
    if a.len() == 0 {
        b.len() > 0
    } else if b.len() == 0 {
        false
    } else if a[0] != b[0] {
        a[0] < b[0]
    } else {
        bytes_lt(a.drop_first(), b.drop_first())
    }
}

pub proof fn lemma_bytes_lt_irrefl(a: Seq<u8>)
    ensures !bytes_lt(a, a),
    decreases a.len(),
{
    if a.len() > 0 {
        lemma_bytes_lt_irrefl(a.drop_first());
    }
}

pub proof fn lemma_bytes_lt_trans(a: Seq<u8>, b: Seq<u8>, c: Seq<u8>)
    requires bytes_lt(a, b), bytes_lt(b, c),
    ensures bytes_lt(a, c),
    decreases a.len(),
{
    if a.len() > 0 && b.len() > 0 && c.len() > 0 && a[0] == b[0] && b[0] == c[0] {
        lemma_bytes_lt_trans(a.drop_first(), b.drop_first(), c.drop_first());
    }
}

pub proof fn lemma_bytes_lt_total(a: Seq<u8>, b: Seq<u8>)
    requires a != b,
    ensures bytes_lt(a, b) || bytes_lt(b, a),
    decreases a.len(),
{
    if a.len() > 0 && b.len() > 0 && a[0] == b[0] {
        if a.drop_first() == b.drop_first() {
            assert(a =~= seq![a[0]] + a.drop_first());
            assert(b =~= seq![b[0]] + b.drop_first());
        }
        lemma_bytes_lt_total(a.drop_first(), b.drop_first());
    } else if a.len() == 0 && b.len() == 0 {
        assert(a =~= b);
    }
}

fn bytes_lt_exec(a: &[u8], b: &[u8]) -> (r: bool)
    ensures r == bytes_lt(a@, b@),
{
    let mut i: usize = 0;
    assert(a@.subrange(0, a@.len() as int) =~= a@);
    assert(b@.subrange(0, b@.len() as int) =~= b@);
    while i < a.len() && i < b.len() && a[i] == b[i]
        invariant
            i <= a@.len(), i <= b@.len(),
            bytes_lt(a@, b@) == bytes_lt(a@.subrange(i as int, a@.len() as int), b@.subrange(i as int, b@.len() as int)),
        decreases a@.len() - i,
    {
        let ghost sa = a@.subrange(i as int, a@.len() as int);
        let ghost sb = b@.subrange(i as int, b@.len() as int);
        assert(sa.drop_first() =~= a@.subrange(i + 1, a@.len() as int));
        assert(sb.drop_first() =~= b@.subrange(i + 1, b@.len() as int));
        i += 1;
    }
    proof {
        assert(a@.subrange(0, a@.len() as int) =~= a@);
        assert(b@.subrange(0, b@.len() as int) =~= b@);
    }
    if i == a.len() {
        i < b.len()
    } else if i == b.len() {
        false
    } else {
        a[i] < b[i]
    }
}

pub open spec fn str_key(s: &str) -> Seq<u8> {
    s.spec_bytes()
}

/// One of the first `n` definitions has class `k`.
pub open spec fn has_class(v: Seq<ObjectTypeDefinition>, n: int, k: Seq<u8>) -> bool {
    exists|m: int| 0 <= m < n && class_key(#[trigger] v[m]) == k
}

/// One of the names is `k`.
pub open spec fn has_name(out: Seq<&str>, k: Seq<u8>) -> bool {
    exists|q: int| 0 <= q < out.len() && str_key(#[trigger] out[q]) == k
}

impl Definitions {
    /// Every declared class name, each once, in byte order.
    pub fn object_types(&self) -> (r: Vec<&str>)
        requires self.wf(),
        ensures
            r@.len() == self.types_view().dom().len(),
            forall|i: int, j: int| 0 <= i < j < r@.len() ==> bytes_lt(str_key(#[trigger] r@[i]), str_key(#[trigger] r@[j])),
            forall|k: Seq<u8>| self.types_view().dom().contains(k) <==> #[trigger] has_name(r@, k),
    {
        proof { lemma_types_map_len(self.types@); }
        let mut out: Vec<&str> = Vec::new();
        let mut i: usize = 0;
        while i < self.types.len()
            invariant
                i <= self.types@.len(),
                distinct_classes(self.types@),
                out@.len() == i,
                forall|a: int, b: int| 0 <= a < b < out@.len() ==> bytes_lt(str_key(#[trigger] out@[a]), str_key(#[trigger] out@[b])),
                forall|k: Seq<u8>| #![trigger has_class(self.types@, i as int, k)] #![trigger has_name(out@, k)]
                    has_class(self.types@, i as int, k) <==> has_name(out@, k),
            decreases self.types@.len() - i,
        {
            let x: &str = self.types[i].object_type.as_str();
            let ghost xk = str_key(x);
            assert(xk == class_key(self.types@[i as int]));
            // `x` is new: no earlier class has its name.
            assert forall|q: int| 0 <= q < out@.len() implies str_key(#[trigger] out@[q]) != xk by {
                if str_key(out@[q]) == xk {
                    assert(has_name(out@, xk));
                    assert(has_class(self.types@, i as int, xk));
                    let m = choose|m: int| 0 <= m < i && class_key(#[trigger] self.types@[m]) == xk;
                    assert(class_key(self.types@[m]) != class_key(self.types@[i as int]));
                }
            }
            let mut p: usize = 0;
            while p < out.len() && bytes_lt_exec(out[p].as_bytes(), x.as_bytes())
                invariant
                    p <= out@.len(),
                    forall|q: int| 0 <= q < p ==> bytes_lt(str_key(#[trigger] out@[q]), xk),
                    xk == x.spec_bytes(),
                decreases out@.len() - p,
            {
                p += 1;
            }
            let ghost old_out = out@;
            proof {
                if p < old_out.len() {
                    assert(!bytes_lt(str_key(old_out[p as int]), xk));
                    assert(str_key(old_out[p as int]) != xk);
                    lemma_bytes_lt_total(str_key(old_out[p as int]), xk);
                }
            }
            out.insert(p, x);
            proof {
                assert forall|a: int, b: int| 0 <= a < b < out@.len() implies bytes_lt(str_key(#[trigger] out@[a]), str_key(#[trigger] out@[b])) by {
                    if b < p {
                        assert(out@[a] == old_out[a] && out@[b] == old_out[b]);
                    } else if b == p {
                        assert(out@[a] == old_out[a]);
                    } else if a < p {
                        assert(out@[a] == old_out[a] && out@[b] == old_out[b - 1]);
                        lemma_bytes_lt_trans(str_key(old_out[a]), xk, str_key(old_out[p as int]));
                        if b - 1 > p {
                            lemma_bytes_lt_trans(str_key(old_out[a]), str_key(old_out[p as int]), str_key(old_out[b - 1]));
                        }
                    } else if a == p {
                        assert(out@[b] == old_out[b - 1]);
                        if b - 1 > p {
                            lemma_bytes_lt_trans(xk, str_key(old_out[p as int]), str_key(old_out[b - 1]));
                        }
                    } else {
                        assert(out@[a] == old_out[a - 1] && out@[b] == old_out[b - 1]);
                    }
                }
                assert forall|k: Seq<u8>| has_class(self.types@, i + 1, k) <==> #[trigger] has_name(out@, k) by {
                    if has_class(self.types@, i + 1, k) {
                        let m = choose|m: int| 0 <= m < i + 1 && class_key(#[trigger] self.types@[m]) == k;
                        if m == i {
                            assert(str_key(out@[p as int]) == k);
                        } else {
                            assert(has_class(self.types@, i as int, k));
                            assert(has_name(old_out, k));
                            let q = choose|q: int| 0 <= q < old_out.len() && str_key(#[trigger] old_out[q]) == k;
                            if q < p {
                                assert(out@[q] == old_out[q]);
                            } else {
                                assert(out@[q + 1] == old_out[q]);
                            }
                        }
                    }
                    if has_name(out@, k) {
                        let q = choose|q: int| 0 <= q < out@.len() && str_key(#[trigger] out@[q]) == k;
                        if q == p {
                            assert(class_key(self.types@[i as int]) == k);
                        } else {
                            let q2 = if q < p { q } else { q - 1 };
                            assert(out@[q] == old_out[q2]);
                            assert(has_name(old_out, k));
                            assert(has_class(self.types@, i as int, k));
                            let m = choose|m: int| 0 <= m < i && class_key(#[trigger] self.types@[m]) == k;
                            assert(0 <= m < i + 1);
                        }
                    }
                }
            }
            i += 1;
        }
        proof {
            assert forall|k: Seq<u8>| self.types_view().dom().contains(k) <==> #[trigger] has_name(out@, k) by {
                lemma_types_map_lookup(self.types@, k);
                assert(has_class(self.types@, self.types@.len() as int, k) <==> has_name(out@, k));
                if self.types_view().dom().contains(k) {
                    let m = choose|m: int| 0 <= m < self.types@.len() && class_key(#[trigger] self.types@[m]) == k;
                    assert(has_class(self.types@, self.types@.len() as int, k));
                }
            }
        }
        out
    }
}

} // verus!
