//! Object names as the container stores them: `Name\x00\x01Class` in the
//! binary form, `Class::Name` in the ASCII form.

use vstd::prelude::*;
use vstd::string::StringSliceAdditionalSpecFns;
use vstd::utf8::{decode_utf8, encode_utf8, valid_utf8};
use crate::model::{FbxNode, FbxProperty, PropV};
use crate::text::{str_chars, string_from_chars, string_from_utf8};

verus! {

/// `name`, the separator bytes `0x00 0x01`, then `class`.
pub fn name_class(name: &str, class: &str) -> (v: Vec<u8>)
    ensures v@ == name.spec_bytes() + seq![0x00u8, 0x01] + class.spec_bytes(),
{
    let nb = name.as_bytes();
    let mut v = crate::bytes::copy_range(nb, 0, nb.len());
    assert(nb@.subrange(0, nb@.len() as int) =~= nb@);
    v.push(0x00);
    v.push(0x01);
    let c = class.as_bytes();
    let mut i: usize = 0;
    let ghost base = v@;
    while i < c.len()
        invariant
            i <= c@.len(),
            v@ == base + c@.subrange(0, i as int),
        decreases c@.len() - i,
    {
        v.push(c[i]);
        i += 1;
        assert(v@ =~= base + c@.subrange(0, i as int));
    }
    assert(c@.subrange(0, c@.len() as int) =~= c@);
    v
}

/// Index of the first `x` in `b` at or after `i` (or its length).
pub open spec fn find_byte(b: Seq<u8>, x: u8, i: int) -> int
    decreases b.len() - i,
{
    if 0 <= i < b.len() && b[i] != x { find_byte(b, x, i + 1) } else { i }
}

proof fn lemma_find_byte(b: Seq<u8>, x: u8, i: int)
    requires 0 <= i <= b.len(),
    ensures
        i <= find_byte(b, x, i) <= b.len(),
        find_byte(b, x, i) < b.len() ==> b[find_byte(b, x, i)] == x,
        forall|k: int| i <= k < find_byte(b, x, i) ==> b[k] != x,
    decreases b.len() - i,
{
    if i < b.len() && b[i] != x {
        lemma_find_byte(b, x, i + 1);
    }
}

fn find_byte_exec(b: &[u8], x: u8) -> (r: usize)
    ensures r == find_byte(b@, x, 0),
{
    let mut i: usize = 0;
    while i < b.len() && b[i] != x
        invariant
            i <= b@.len(),
            find_byte(b@, x, 0) == find_byte(b@, x, i as int),
        decreases b@.len() - i,
    {
        i += 1;
    }
    i
}

/// The element name of a node: the bytes of its second property (a
/// string) up to the first `0x00`, when they are UTF-8.
pub open spec fn spec_element_name(n: Seq<PropV>) -> Option<Seq<u8>> {
    if n.len() < 2 {
        None
    } else {
        match n[1] {
            PropV::Str(b) => {
                let pre = b.subrange(0, find_byte(b, 0x00, 0));
                if valid_utf8(pre) { Some(pre) } else { None }
            },
            _ => None,
        }
    }
}

/// The element name of a node: its second property, a string, up to
/// the first NUL byte; `None` when there is no such string or the
/// bytes are not UTF-8.
pub fn element_name(n: &FbxNode) -> (r: Option<String>)
    ensures
        match r {
            Some(s) => spec_element_name(crate::model::props_view(n.properties@)) == Some(encode_utf8(s@)),
            None => spec_element_name(crate::model::props_view(n.properties@)) is None,
        },
{
    if n.properties.len() < 2 {
        return None;
    }
    proof { crate::ascii::lemma_props_view_index(n.properties@, 1); }
    match &n.properties[1] {
        FbxProperty::String(b) => {
            let sep = find_byte_exec(b.as_slice(), 0x00);
            proof { lemma_find_byte(b@, 0x00, 0); }
            let pre = crate::bytes::copy_range(b.as_slice(), 0, sep);
            string_from_utf8(pre.as_slice())
        }
        _ => None,
    }
}

/// Index of the first `c` in `cs` (or its length).
pub open spec fn find_char(cs: Seq<char>, c: char, i: int) -> int
    decreases cs.len() - i,
{
    if 0 <= i < cs.len() && cs[i] != c { find_char(cs, c, i + 1) } else { i }
}

/// Index of the first `::` in `cs` (or its length).
pub open spec fn find_colons(cs: Seq<char>, i: int) -> int
    decreases cs.len() - i,
{
    if 0 <= i && i + 1 < cs.len() && !(cs[i] == ':' && cs[i + 1] == ':') {
        find_colons(cs, i + 1)
    } else if 0 <= i && i + 1 < cs.len() {
        i
    } else {
        cs.len() as int
    }
}

proof fn lemma_find_char(cs: Seq<char>, c: char, i: int)
    requires 0 <= i <= cs.len(),
    ensures i <= find_char(cs, c, i) <= cs.len(),
    decreases cs.len() - i,
{
    if i < cs.len() && cs[i] != c {
        lemma_find_char(cs, c, i + 1);
    }
}

proof fn lemma_find_colons(cs: Seq<char>, i: int)
    requires 0 <= i <= cs.len(),
    ensures
        i <= find_colons(cs, i) <= cs.len(),
        find_colons(cs, i) < cs.len() ==> find_colons(cs, i) + 2 <= cs.len(),
    decreases cs.len() - i,
{
    if i + 1 < cs.len() && !(cs[i] == ':' && cs[i + 1] == ':') {
        lemma_find_colons(cs, i + 1);
    }
}

/// The display name in a raw name: before a NUL (binary form), else
/// after the first `::` (ASCII form), else all of it.
pub open spec fn spec_display_name(raw: Seq<char>) -> Seq<char> {
    let z = find_char(raw, '\0', 0);
    if z < raw.len() {
        raw.subrange(0, z)
    } else {
        let k = find_colons(raw, 0);
        if k < raw.len() { raw.subrange(k + 2, raw.len() as int) } else { raw }
    }
}

/// The raw name string of a node: its second property when that is a
/// UTF-8 string, else empty.
pub open spec fn raw_name(ps: Seq<PropV>) -> Seq<u8> {
    if ps.len() >= 2 && (ps[1] matches PropV::Str(b) && valid_utf8(b)) {
        ps[1]->Str_0
    } else {
        Seq::empty()
    }
}

/// The name shown for a node: `Name\x00\x01Class` gives `Name`,
/// `Class::Name` gives `Name`.
pub fn display_name(node: &FbxNode) -> (r: String)
    ensures r@ == spec_display_name(decode_utf8(raw_name(crate::model::props_view(node.properties@)))),
{
    proof { reveal_strlit(""); }
    let raw: &str = if node.properties.len() >= 2 {
        proof { crate::ascii::lemma_props_view_index(node.properties@, 1); }
        match node.properties[1].as_str() {
            Some(s) => s,
            None => "",
        }
    } else {
        ""
    };
    proof {
        vstd::utf8::encode_utf8_decode_utf8(raw@);
        assert(encode_utf8(raw@) == raw_name(crate::model::props_view(node.properties@))) by {
            if !(node.properties.len() >= 2 && (crate::model::props_view(node.properties@)[1] matches PropV::Str(b) && valid_utf8(b))) {
                assert(raw@ =~= Seq::<char>::empty());
                assert(encode_utf8(Seq::<char>::empty()) =~= Seq::<u8>::empty());
            }
        }
    }
    let cs = str_chars(raw);
    let mut z: usize = 0;
    while z < cs.len() && cs[z] != '\0'
        invariant
            z <= cs@.len(),
            find_char(cs@, '\0', 0) == find_char(cs@, '\0', z as int),
        decreases cs@.len() - z,
    {
        z += 1;
    }
    let out: Vec<char>;
    if z < cs.len() {
        out = copy_chars(&cs, 0, z);
    } else {
        let mut k: usize = 0;
        while k < cs.len() && k + 1 < cs.len() && !(cs[k] == ':' && cs[k + 1] == ':')
            invariant
                k <= cs@.len(),
                find_colons(cs@, 0) == find_colons(cs@, k as int),
            decreases cs@.len() - k,
        {
            k += 1;
        }
        proof { lemma_find_colons(cs@, k as int); }
        if k < cs.len() && k + 1 < cs.len() {
            out = copy_chars(&cs, k + 2, cs.len());
        } else {
            out = copy_chars(&cs, 0, cs.len());
            assert(cs@.subrange(0, cs@.len() as int) =~= cs@);
        }
    }
    string_from_chars(out.as_slice())
}

fn copy_chars(cs: &Vec<char>, a: usize, b: usize) -> (r: Vec<char>)
    requires a <= b <= cs@.len(),
    ensures r@ == cs@.subrange(a as int, b as int),
{
    let mut out: Vec<char> = Vec::new();
    let mut i = a;
    while i < b
        invariant
            a <= i <= b <= cs@.len(),
            out@ == cs@.subrange(a as int, i as int),
        decreases b - i,
    {
        out.push(cs[i]);
        i += 1;
        assert(out@ =~= cs@.subrange(a as int, i as int));
    }
    out
}

} // verus!
