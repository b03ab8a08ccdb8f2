//! The typed FBX node tree shared by the binary and ASCII front-ends,
//! and its mathematical view.
//!
//! Floating-point payloads are carried exactly as the container holds
//! them: binary `F` / `D` records keep their IEEE-754 bit pattern, and
//! ASCII float tokens keep their decimal lexeme ([`FbxReal`]). Turning
//! either into a machine float is left to the caller.

use vstd::prelude::*;
use vstd::string::StringSliceAdditionalSpecFns;
use vstd::utf8::{encode_utf8, valid_utf8};
use crate::trunc::{decimal_trunc, f32_bits_trunc, f64_bits_trunc};

verus! {

/// A 64-bit floating-point value as the container carries it: the
/// IEEE-754 bit pattern read from a binary record, or the decimal text
/// of an ASCII float token.
#[derive(Clone, Debug, PartialEq)]
pub enum FbxReal {
    Bits(u64),
    Text(Vec<u8>),
}

/// View of an [`FbxReal`].
pub enum RealV {
    Bits(u64),
    Text(Seq<u8>),
}

impl FbxReal {
    pub open spec fn view_real(self) -> RealV {
        match self {
            FbxReal::Bits(b) => RealV::Bits(b),
            FbxReal::Text(t) => RealV::Text(t@),
        }
    }
}

pub open spec fn reals_view(s: Seq<FbxReal>) -> Seq<RealV> {
    s.map_values(|r: FbxReal| r.view_real())
}

/// One property of an FBX node. Variants are one-to-one with the
/// binary property type codes.
#[derive(Clone, Debug, PartialEq)]
pub enum FbxProperty {
    /// `Y` — 2-byte signed integer.
    I16(i16),
    /// `C` — one-byte boolean.
    Bool(bool),
    /// `I` — 4-byte signed integer.
    I32(i32),
    /// `F` — 32-bit IEEE-754 single, as its bit pattern.
    F32(u32),
    /// `D` — 64-bit double.
    F64(FbxReal),
    /// `L` — 8-byte signed integer.
    I64(i64),
    /// `f` — array of singles, as bit patterns.
    F32Array(Vec<u32>),
    /// `d` — array of doubles.
    F64Array(Vec<FbxReal>),
    /// `l` — array of i64.
    I64Array(Vec<i64>),
    /// `i` — array of i32.
    I32Array(Vec<i32>),
    /// `b` — array of booleans (one byte each).
    BoolArray(Vec<bool>),
    /// `c` — array of raw bytes (one byte each).
    ByteArray(Vec<u8>),
    /// `S` — length-prefixed string bytes (not NUL-terminated).
    String(Vec<u8>),
    /// `R` — length-prefixed raw binary blob.
    Raw(Vec<u8>),
}

/// View of an [`FbxProperty`].
pub enum PropV {
    I16(i16),
    Bool(bool),
    I32(i32),
    F32(u32),
    F64(RealV),
    I64(i64),
    F32Array(Seq<u32>),
    F64Array(Seq<RealV>),
    I64Array(Seq<i64>),
    I32Array(Seq<i32>),
    BoolArray(Seq<bool>),
    ByteArray(Seq<u8>),
    Str(Seq<u8>),
    Raw(Seq<u8>),
}

impl FbxProperty {
    pub open spec fn view_prop(self) -> PropV {
        match self {
            FbxProperty::I16(v) => PropV::I16(v),
            FbxProperty::Bool(v) => PropV::Bool(v),
            FbxProperty::I32(v) => PropV::I32(v),
            FbxProperty::F32(v) => PropV::F32(v),
            FbxProperty::F64(v) => PropV::F64(v.view_real()),
            FbxProperty::I64(v) => PropV::I64(v),
            FbxProperty::F32Array(v) => PropV::F32Array(v@),
            FbxProperty::F64Array(v) => PropV::F64Array(reals_view(v@)),
            FbxProperty::I64Array(v) => PropV::I64Array(v@),
            FbxProperty::I32Array(v) => PropV::I32Array(v@),
            FbxProperty::BoolArray(v) => PropV::BoolArray(v@),
            FbxProperty::ByteArray(v) => PropV::ByteArray(v@),
            FbxProperty::String(v) => PropV::Str(v@),
            FbxProperty::Raw(v) => PropV::Raw(v@),
        }
    }
}

pub open spec fn props_view(s: Seq<FbxProperty>) -> Seq<PropV> {
    s.map_values(|p: FbxProperty| p.view_prop())
}

/// View of an [`FbxNode`]: the name as its UTF-8 bytes, the property
/// views, and the child views, in order.
pub struct NodeV {
    pub name: Seq<u8>,
    pub properties: Seq<PropV>,
    pub children: Seq<NodeV>,
}

/// One Node Record: a name, a flat property list, and nested children.
#[derive(Debug)]
pub struct FbxNode {
    pub name: String,
    pub properties: Vec<FbxProperty>,
    pub children: Vec<FbxNode>,
}

pub open spec fn node_view(n: FbxNode) -> NodeV
    decreases n, 1int,
{
    NodeV {
        name: encode_utf8(n.name@),
        properties: props_view(n.properties@),
        children: nodes_view(n.children@),
    }
}

pub open spec fn nodes_view(s: Seq<FbxNode>) -> Seq<NodeV>
    decreases s, 0int,
{
    if s.len() == 0 {
        Seq::empty()
    } else {
        seq![node_view(s[0])] + nodes_view(s.drop_first())
    }
}

/// A parsed document: the file-format version and a synthetic root
/// (empty name, no properties) whose children are the top-level
/// records.
#[derive(Debug)]
pub struct FbxDocument {
    pub version: u32,
    pub root: FbxNode,
}

pub struct DocV {
    pub version: u32,
    pub root: NodeV,
}

pub open spec fn doc_view(d: FbxDocument) -> DocV {
    DocV { version: d.version, root: node_view(d.root) }
}

/// The view of a synthetic root holding `children`.
pub open spec fn root_v(children: Seq<NodeV>) -> NodeV {
    NodeV { name: Seq::empty(), properties: Seq::empty(), children }
}

pub proof fn lemma_nodes_view_len(s: Seq<FbxNode>)
    ensures
        nodes_view(s).len() == s.len(),
        forall|i: int| 0 <= i < s.len() ==> #[trigger] nodes_view(s)[i] == node_view(s[i]),
    decreases s.len(),
{
    if s.len() > 0 {
        lemma_nodes_view_len(s.drop_first());
        assert forall|i: int| 0 <= i < s.len() implies #[trigger] nodes_view(s)[i] == node_view(s[i]) by {
            if i > 0 {
                assert(s.drop_first()[i - 1] == s[i]);
            }
        }
    }
}

pub proof fn lemma_nodes_view_push(s: Seq<FbxNode>, n: FbxNode)
    ensures
        nodes_view(s.push(n)) == nodes_view(s).push(node_view(n)),
{
    lemma_nodes_view_len(s);
    lemma_nodes_view_len(s.push(n));
    assert(nodes_view(s.push(n)) =~= nodes_view(s).push(node_view(n)));
}

/// Helper: the view of a node assembled from its parts.
pub open spec fn make_node_v(name: Seq<u8>, props: Seq<PropV>, children: Seq<NodeV>) -> NodeV {
    NodeV { name, properties: props, children }
}

/// A numeric scalar property as `i64`: integers and booleans exactly,
/// floats truncated toward zero (saturating, NaN to zero); `None` for
/// strings, blobs and arrays.
pub open spec fn prop_as_i64(p: PropV) -> Option<i64> {
    match p {
        PropV::I16(v) => Some(v as i64),
        PropV::I32(v) => Some(v as i64),
        PropV::I64(v) => Some(v),
        PropV::F32(b) => Some(f32_bits_trunc(b)),
        PropV::F64(RealV::Bits(b)) => Some(f64_bits_trunc(b)),
        PropV::F64(RealV::Text(t)) => Some(decimal_trunc(t)),
        PropV::Bool(v) => Some(if v { 1i64 } else { 0i64 }),
        _ => None,
    }
}

impl FbxProperty {
    /// The bytes of an `S` property as a string slice; `None` for other
    /// variants or bytes that are not UTF-8.
    pub fn as_str(&self) -> (r: Option<&str>)
        ensures
            r is Some <==> (self.view_prop() matches PropV::Str(b) && valid_utf8(b)),
            r matches Some(s) ==> self.view_prop() == PropV::Str(s.spec_bytes()),
    {
        match self {
            FbxProperty::String(bytes) => crate::text::str_from_utf8(bytes.as_slice()),
            _ => None,
        }
    }

    /// A numeric scalar as `i64` (floats truncate toward zero).
    pub fn as_i64(&self) -> (r: Option<i64>)
        ensures r == prop_as_i64(self.view_prop()),
    {
        match self {
            FbxProperty::I16(v) => Some(*v as i64),
            FbxProperty::I32(v) => Some(*v as i64),
            FbxProperty::I64(v) => Some(*v),
            FbxProperty::F32(b) => Some(crate::trunc::f32_bits_to_i64(*b)),
            FbxProperty::F64(FbxReal::Bits(b)) => Some(crate::trunc::f64_bits_to_i64(*b)),
            FbxProperty::F64(FbxReal::Text(t)) => Some(crate::trunc::decimal_to_i64(t.as_slice())),
            FbxProperty::Bool(v) => Some(if *v { 1 } else { 0 }),
            _ => None,
        }
    }
}

/// The UTF-8 bytes of a node's name.
pub open spec fn name_bytes(n: FbxNode) -> Seq<u8> {
    encode_utf8(n.name@)
}

/// The nodes of `cs` named `name`, in order.
pub open spec fn named(cs: Seq<FbxNode>, name: Seq<u8>) -> Seq<FbxNode>
    decreases cs.len(),
{
    if cs.len() == 0 {
        Seq::empty()
    } else if name_bytes(cs.last()) == name {
        named(cs.drop_last(), name).push(cs.last())
    } else {
        named(cs.drop_last(), name)
    }
}

/// The first node view in `cs` named `name`.
pub open spec fn first_named(cs: Seq<NodeV>, name: Seq<u8>) -> Option<NodeV>
    decreases cs.len(),
{
    if cs.len() == 0 {
        None
    } else if cs[0].name == name {
        Some(cs[0])
    } else {
        first_named(cs.drop_first(), name)
    }
}

pub proof fn lemma_first_named(cs: Seq<FbxNode>, name: Seq<u8>, i: int)
    requires
        0 <= i <= cs.len(),
        forall|j: int| 0 <= j < i ==> name_bytes(#[trigger] cs[j]) != name,
    ensures
        i < cs.len() && name_bytes(cs[i]) == name ==> first_named(nodes_view(cs), name) == Some(node_view(cs[i])),
        i == cs.len() ==> first_named(nodes_view(cs), name) is None,
    decreases i,
{
    lemma_nodes_view_len(cs);
    if i > 0 {
        let t = cs.drop_first();
        assert forall|j: int| 0 <= j < i - 1 implies name_bytes(#[trigger] t[j]) != name by {
            assert(t[j] == cs[j + 1]);
        }
        lemma_first_named(t, name, i - 1);
        assert(nodes_view(cs).drop_first() =~= nodes_view(t)) by {
            lemma_nodes_view_len(t);
        }
        assert(name_bytes(cs[0]) != name);
        assert(nodes_view(cs)[0].name == name_bytes(cs[0]));
        if i < cs.len() {
            assert(t[i - 1] == cs[i]);
        }
    } else if cs.len() > 0 {
        assert(nodes_view(cs)[0] == node_view(cs[0]));
    }
}

impl FbxNode {
    /// The first direct child named `name`.
    pub fn child(&self, name: &str) -> (r: Option<&FbxNode>)
        ensures
            match r {
                Some(c) => exists|i: int| 0 <= i < self.children@.len()
                    && *c == self.children@[i]
                    && name_bytes(self.children@[i]) == name.spec_bytes()
                    && forall|j: int| 0 <= j < i ==> name_bytes(#[trigger] self.children@[j]) != name.spec_bytes(),
                None => forall|j: int| 0 <= j < self.children@.len() ==> name_bytes(#[trigger] self.children@[j]) != name.spec_bytes(),
            },
            match r {
                Some(c) => first_named(nodes_view(self.children@), name.spec_bytes()) == Some(node_view(*c)),
                None => first_named(nodes_view(self.children@), name.spec_bytes()) is None,
            },
    {
        let want = name.as_bytes();
        let mut i: usize = 0;
        while i < self.children.len()
            invariant
                i <= self.children@.len(),
                want@ == name.spec_bytes(),
                forall|j: int| 0 <= j < i ==> name_bytes(#[trigger] self.children@[j]) != name.spec_bytes(),
            decreases self.children@.len() - i,
        {
            let c = &self.children[i];
            if crate::bytes::bytes_eq(c.name.as_str().as_bytes(), want) {
                proof { lemma_first_named(self.children@, name.spec_bytes(), i as int); }
                return Some(c);
            }
            i += 1;
        }
        proof { lemma_first_named(self.children@, name.spec_bytes(), i as int); }
        None
    }

    /// All direct children named `name`, in order.
    pub fn children_named(&self, name: &str) -> (r: Vec<&FbxNode>)
        ensures
            r@.len() == named(self.children@, name.spec_bytes()).len(),
            forall|k: int| 0 <= k < r@.len() ==> *r@[k] == #[trigger] named(self.children@, name.spec_bytes())[k],
    {
        let want = name.as_bytes();
        let ghost nb = name.spec_bytes();
        let mut out: Vec<&FbxNode> = Vec::new();
        let mut i: usize = 0;
        while i < self.children.len()
            invariant
                i <= self.children@.len(),
                want@ == nb,
                nb == name.spec_bytes(),
                out@.len() == named(self.children@.subrange(0, i as int), nb).len(),
                forall|k: int| 0 <= k < out@.len() ==> *out@[k] == #[trigger] named(self.children@.subrange(0, i as int), nb)[k],
            decreases self.children@.len() - i,
        {
            let c = &self.children[i];
            let ghost pre = self.children@.subrange(0, i as int);
            assert(self.children@.subrange(0, i + 1).drop_last() =~= pre);
            if crate::bytes::bytes_eq(c.name.as_str().as_bytes(), want) {
                out.push(c);
            }
            i += 1;
        }
        assert(self.children@.subrange(0, i as int) =~= self.children@);
        out
    }
}

fn clone_bytes(v: &Vec<u8>) -> (r: Vec<u8>)
    ensures r@ == v@,
{
    let r = v.clone();
    assert(r@ =~= v@);
    r
}

/// A copy of a double.
pub fn clone_real(r: &FbxReal) -> (c: FbxReal)
    ensures c.view_real() == r.view_real(),
{
    match r {
        FbxReal::Bits(b) => FbxReal::Bits(*b),
        FbxReal::Text(t) => FbxReal::Text(clone_bytes(t)),
    }
}

pub(crate) fn clone_reals(v: &Vec<FbxReal>) -> (r: Vec<FbxReal>)
    ensures reals_view(r@) == reals_view(v@),
{
    let mut out: Vec<FbxReal> = Vec::new();
    let mut i: usize = 0;
    while i < v.len()
        invariant
            i <= v@.len(),
            reals_view(out@) =~= reals_view(v@.subrange(0, i as int)),
        decreases v@.len() - i,
    {
        let x = match &v[i] {
            FbxReal::Bits(b) => FbxReal::Bits(*b),
            FbxReal::Text(t) => FbxReal::Text(clone_bytes(t)),
        };
        let ghost pre = out@;
        out.push(x);
        i += 1;
        assert(reals_view(out@) =~= reals_view(pre).push(x.view_real()));
        assert(v@.subrange(0, i as int) =~= v@.subrange(0, i - 1).push(v@[i - 1]));
    }
    assert(v@.subrange(0, v@.len() as int) =~= v@);
    out
}

impl FbxProperty {
    /// A copy of this property.
    pub fn clone_prop(&self) -> (r: FbxProperty)
        ensures r.view_prop() == self.view_prop(),
    {
        match self {
            FbxProperty::I16(v) => FbxProperty::I16(*v),
            FbxProperty::Bool(v) => FbxProperty::Bool(*v),
            FbxProperty::I32(v) => FbxProperty::I32(*v),
            FbxProperty::F32(v) => FbxProperty::F32(*v),
            FbxProperty::F64(FbxReal::Bits(b)) => FbxProperty::F64(FbxReal::Bits(*b)),
            FbxProperty::F64(FbxReal::Text(t)) => FbxProperty::F64(FbxReal::Text(clone_bytes(t))),
            FbxProperty::I64(v) => FbxProperty::I64(*v),
            FbxProperty::F32Array(v) => {
                let r = v.clone();
                assert(r@ =~= v@);
                FbxProperty::F32Array(r)
            }
            FbxProperty::F64Array(v) => FbxProperty::F64Array(clone_reals(v)),
            FbxProperty::I64Array(v) => {
                let r = v.clone();
                assert(r@ =~= v@);
                FbxProperty::I64Array(r)
            }
            FbxProperty::I32Array(v) => {
                let r = v.clone();
                assert(r@ =~= v@);
                FbxProperty::I32Array(r)
            }
            FbxProperty::BoolArray(v) => {
                let r = v.clone();
                assert(r@ =~= v@);
                FbxProperty::BoolArray(r)
            }
            FbxProperty::ByteArray(v) => FbxProperty::ByteArray(clone_bytes(v)),
            FbxProperty::String(v) => FbxProperty::String(clone_bytes(v)),
            FbxProperty::Raw(v) => FbxProperty::Raw(clone_bytes(v)),
        }
    }
}

impl FbxNode {
    /// A deep copy of this node.
    pub fn clone_node(&self) -> (r: FbxNode)
        ensures node_view(r) == node_view(*self),
        decreases self,
    {
        let mut props: Vec<FbxProperty> = Vec::new();
        let mut i: usize = 0;
        while i < self.properties.len()
            invariant
                i <= self.properties@.len(),
                props_view(props@) =~= props_view(self.properties@.subrange(0, i as int)),
            decreases self.properties@.len() - i,
        {
            let p = self.properties[i].clone_prop();
            let ghost pre = props@;
            props.push(p);
            i += 1;
            assert(props_view(props@) =~= props_view(pre).push(p.view_prop()));
            assert(self.properties@.subrange(0, i as int) =~= self.properties@.subrange(0, i - 1).push(self.properties@[i - 1]));
        }
        assert(self.properties@.subrange(0, self.properties@.len() as int) =~= self.properties@);
        let mut children: Vec<FbxNode> = Vec::new();
        let mut j: usize = 0;
        proof { assert(nodes_view(children@) =~= nodes_view(self.children@.subrange(0, 0))); }
        while j < self.children.len()
            invariant
                j <= self.children@.len(),
                nodes_view(children@) == nodes_view(self.children@.subrange(0, j as int)),
            decreases self.children@.len() - j,
        {
            proof { assert(decreases_to!(self => self.children@[j as int])); }
            let c = self.children[j].clone_node();
            let ghost pre = children@;
            children.push(c);
            proof {
                lemma_nodes_view_push(pre, c);
                lemma_nodes_view_push(self.children@.subrange(0, j as int), self.children@[j as int]);
                assert(self.children@.subrange(0, j + 1) =~= self.children@.subrange(0, j as int).push(self.children@[j as int]));
            }
            j += 1;
        }
        assert(self.children@.subrange(0, self.children@.len() as int) =~= self.children@);
        let name = self.name.clone();
        FbxNode { name, properties: props, children }
    }
}

} // verus!
