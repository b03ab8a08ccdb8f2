//! The ASCII writer emits UTF-8: when every node name, string property
//! and decimal double text of a document is UTF-8, so is everything the
//! writer prints for it.

use vstd::prelude::*;
use vstd::utf8::{partial_valid_utf8, partial_valid_utf8_extend_ascii_block, valid_utf8, valid_utf8_concat};
use crate::ascii_writer::{
    array_head, array_len, array_node_text, array_tail, banner_text, children_text, doc_text, elem_text, elems_text,
    is_array_prop, list_text, node_text, scalar_text, tabs, values_text,
};
use crate::decimal::{dec_digits, dec_int, lemma_dec_digits_ascii};
use crate::model::{DocV, NodeV, PropV, RealV};

verus! {

proof fn cat(a: Seq<u8>, b: Seq<u8>)
    requires valid_utf8(a), valid_utf8(b),
    ensures valid_utf8(a + b),
{
    valid_utf8_concat(a, b);
}

/// A double whose decimal text, if it has one, is UTF-8.
pub open spec fn real_ok(r: RealV) -> bool {
    r matches RealV::Text(t) ==> valid_utf8(t)
}

/// A property whose text parts are UTF-8.
pub open spec fn prop_ok(p: PropV) -> bool {
    match p {
        PropV::Str(b) => valid_utf8(b),
        PropV::F64(r) => real_ok(r),
        PropV::F64Array(v) => forall|i: int| 0 <= i < v.len() ==> real_ok(#[trigger] v[i]),
        _ => true,
    }
}

/// A node whose name, and every text part below it, is UTF-8.
pub open spec fn node_ok(n: NodeV) -> bool
    decreases n,
{
    &&& valid_utf8(n.name)
    &&& forall|i: int| 0 <= i < n.properties.len() ==> prop_ok(#[trigger] n.properties[i])
    &&& forall|i: int| 0 <= i < n.children.len() ==> node_ok(#[trigger] n.children[i])
}

proof fn lemma_ascii_valid(b: Seq<u8>)
    requires forall|i: int| 0 <= i < b.len() ==> #[trigger] b[i] <= 0x7f,
    ensures valid_utf8(b),
{
    assert(b.subrange(0, 0) =~= Seq::<u8>::empty());
    assert(partial_valid_utf8(b, 0));
    partial_valid_utf8_extend_ascii_block(b, 0, b.len() as int);
    assert(b.subrange(0, b.len() as int) =~= b);
}

proof fn lemma_dec_int_valid(n: int)
    ensures valid_utf8(dec_int(n)),
{
    let m: nat = if n < 0 { (-n) as nat } else { n as nat };
    lemma_dec_digits_ascii(m);
    lemma_ascii_valid(dec_digits(m));
    lemma_ascii_valid(seq![0x2du8]);
    cat(seq![0x2du8], dec_digits(m));
}

proof fn lemma_tabs_valid(d: nat)
    ensures valid_utf8(tabs(d)),
{
    lemma_ascii_valid(tabs(d));
}

proof fn lemma_banner_valid(v: u32)
    ensures valid_utf8(banner_text(v)),
{
    lemma_dec_digits_ascii((v / 1000) as nat);
    lemma_dec_digits_ascii(((v / 100) % 10) as nat);
    lemma_dec_digits_ascii((v % 100) as nat);
    lemma_ascii_valid(dec_digits((v / 1000) as nat));
    lemma_ascii_valid(dec_digits(((v / 100) % 10) as nat));
    lemma_ascii_valid(dec_digits((v % 100) as nat));
    lemma_ascii_valid(seq![0x3bu8, 0x20, 0x46, 0x42, 0x58, 0x20]);
    lemma_ascii_valid(seq![0x2eu8]);
    lemma_ascii_valid(seq![0x20u8, 0x70, 0x72, 0x6f, 0x6a, 0x65, 0x63, 0x74, 0x20, 0x66, 0x69, 0x6c, 0x65, 0x0a]);
    lemma_ascii_valid(seq![0x3bu8, 0x20]);
    lemma_ascii_valid(Seq::new(52, |i: int| 0x2du8));
    lemma_ascii_valid(seq![0x0au8]);
    let a = seq![0x3bu8, 0x20, 0x46, 0x42, 0x58, 0x20] + dec_digits((v / 1000) as nat);
    cat(seq![0x3bu8, 0x20, 0x46, 0x42, 0x58, 0x20], dec_digits((v / 1000) as nat));
    cat(a, seq![0x2eu8]);
    let b = a + seq![0x2eu8] + dec_digits(((v / 100) % 10) as nat);
    cat(a + seq![0x2eu8], dec_digits(((v / 100) % 10) as nat));
    cat(b, seq![0x2eu8]);
    let c = b + seq![0x2eu8] + dec_digits((v % 100) as nat);
    cat(b + seq![0x2eu8], dec_digits((v % 100) as nat));
    let tail = seq![0x20u8, 0x70, 0x72, 0x6f, 0x6a, 0x65, 0x63, 0x74, 0x20, 0x66, 0x69, 0x6c, 0x65, 0x0a];
    cat(c, tail);
    cat(c + tail, seq![0x3bu8, 0x20]);
    cat(c + tail + seq![0x3bu8, 0x20], Seq::new(52, |i: int| 0x2du8));
    cat(c + tail + seq![0x3bu8, 0x20] + Seq::new(52, |i: int| 0x2du8), seq![0x0au8]);
}

proof fn lemma_scalar_valid(p: PropV)
    requires prop_ok(p),
    ensures scalar_text(p) matches Ok(t) ==> valid_utf8(t),
{
    lemma_ascii_valid(seq![0x22u8]);
    lemma_ascii_valid(seq![0x54u8]);
    lemma_ascii_valid(seq![0x46u8]);
    match p {
        PropV::I16(v) => lemma_dec_int_valid(v as int),
        PropV::I32(v) => lemma_dec_int_valid(v as int),
        PropV::I64(v) => lemma_dec_int_valid(v as int),
        PropV::Str(b) => {
            cat(seq![0x22u8], b);
            cat(seq![0x22u8] + b, seq![0x22u8]);
        }
        _ => {}
    }
}

proof fn lemma_list_valid(ps: Seq<PropV>)
    requires forall|i: int| 0 <= i < ps.len() ==> prop_ok(#[trigger] ps[i]),
    ensures list_text(ps) matches Ok(t) ==> valid_utf8(t),
    decreases ps.len(),
{
    if ps.len() > 0 {
        let init = ps.drop_last();
        assert forall|i: int| 0 <= i < init.len() implies prop_ok(#[trigger] init[i]) by {
            assert(init[i] == ps[i]);
        }
        lemma_list_valid(init);
        assert(prop_ok(ps[ps.len() - 1]));
        lemma_scalar_valid(ps.last());
        lemma_ascii_valid(seq![0x2cu8, 0x20]);
        match list_text(init) {
            Ok(a) => match scalar_text(ps.last()) {
                Ok(t) => {
                    cat(a, seq![0x2cu8, 0x20]);
                    cat(a + seq![0x2cu8, 0x20], t);
                }
                Err(_) => {}
            },
            Err(_) => {}
        }
    } else {
        assert(valid_utf8(Seq::<u8>::empty()));
    }
}

proof fn lemma_elems_valid(p: PropV, n: nat)
    requires prop_ok(p), n <= array_len(p),
    ensures elems_text(p, n) matches Ok(t) ==> valid_utf8(t),
    decreases n,
{
    if n > 0 {
        lemma_elems_valid(p, (n - 1) as nat);
        lemma_ascii_valid(seq![0x2cu8]);
        lemma_ascii_valid(seq![0x31u8]);
        lemma_ascii_valid(seq![0x30u8]);
        match p {
            PropV::I32Array(v) => lemma_dec_int_valid(v[n - 1] as int),
            PropV::I64Array(v) => lemma_dec_int_valid(v[n - 1] as int),
            PropV::F64Array(v) => assert(real_ok(v[n - 1])),
            _ => {}
        }
        match elems_text(p, (n - 1) as nat) {
            Ok(a) => match elem_text(p, n - 1) {
                Ok(t) => {
                    cat(a, seq![0x2cu8]);
                    cat(a + seq![0x2cu8], t);
                }
                Err(_) => {}
            },
            Err(_) => {}
        }
    } else {
        assert(valid_utf8(Seq::<u8>::empty()));
    }
}

proof fn lemma_array_node_valid(n: NodeV, d: nat)
    requires node_ok(n), n.properties.len() == 1,
    ensures array_node_text(n, d) matches Ok(t) ==> valid_utf8(t),
{
    let p = n.properties[0];
    assert(prop_ok(p));
    let len = array_len(p);
    lemma_elems_valid(p, len);
    lemma_tabs_valid(d);
    lemma_tabs_valid(d + 1);
    lemma_dec_digits_ascii(len);
    lemma_ascii_valid(dec_digits(len));
    lemma_ascii_valid(seq![0x3au8, 0x20, 0x2a]);
    lemma_ascii_valid(seq![0x20u8, 0x7b, 0x0a]);
    lemma_ascii_valid(seq![0x61u8, 0x3a]);
    lemma_ascii_valid(seq![0x20u8]);
    lemma_ascii_valid(seq![0x0au8]);
    lemma_ascii_valid(seq![0x7du8, 0x0a]);
    assert(valid_utf8(Seq::<u8>::empty()));
    let name = n.name;
    let h1 = tabs(d) + name;
    cat(tabs(d), name);
    cat(h1, seq![0x3au8, 0x20, 0x2a]);
    cat(h1 + seq![0x3au8, 0x20, 0x2a], dec_digits(len));
    let h2 = h1 + seq![0x3au8, 0x20, 0x2a] + dec_digits(len);
    cat(h2, seq![0x20u8, 0x7b, 0x0a]);
    cat(h2 + seq![0x20u8, 0x7b, 0x0a], tabs(d + 1));
    cat(h2 + seq![0x20u8, 0x7b, 0x0a] + tabs(d + 1), seq![0x61u8, 0x3a]);
    assert(valid_utf8(array_head(name, len, d)));
    match elems_text(p, len) {
        Ok(body) => {
            cat(seq![0x20u8], body);
            let pre: Seq<u8> = if len > 0 { seq![0x20u8] + body } else { Seq::empty() };
            cat(pre, seq![0x0au8]);
            cat(pre + seq![0x0au8], tabs(d));
            cat(pre + seq![0x0au8] + tabs(d), seq![0x7du8, 0x0a]);
            assert(valid_utf8(array_tail(body, len, d)));
            cat(array_head(name, len, d), array_tail(body, len, d));
        }
        Err(_) => {}
    }
}

proof fn lemma_values_valid(ps: Seq<PropV>, has_body: bool)
    requires forall|i: int| 0 <= i < ps.len() ==> prop_ok(#[trigger] ps[i]),
    ensures values_text(ps, has_body) matches Ok(t) ==> valid_utf8(t),
{
    lemma_list_valid(ps);
    lemma_ascii_valid(seq![0x20u8, 0x20, 0x7b]);
    lemma_ascii_valid(seq![0x20u8, 0x7b]);
    lemma_ascii_valid(seq![0x20u8]);
    assert(valid_utf8(Seq::<u8>::empty()));
    match list_text(ps) {
        Ok(t) => {
            cat(seq![0x20u8], t);
            let tail: Seq<u8> = if has_body { seq![0x20u8, 0x7b] } else { Seq::empty() };
            cat(seq![0x20u8] + t, tail);
        }
        Err(_) => {}
    }
}

proof fn lemma_node_valid(n: NodeV, d: nat)
    requires node_ok(n),
    ensures node_text(n, d) matches Ok(t) ==> valid_utf8(t),
    decreases n, 1int,
{
    if n.children.len() == 0 && n.properties.len() == 1 && is_array_prop(n.properties[0]) {
        lemma_array_node_valid(n, d);
    } else {
        lemma_values_valid(n.properties, n.children.len() > 0);
        lemma_tabs_valid(d);
        lemma_ascii_valid(seq![0x3au8]);
        lemma_ascii_valid(seq![0x0au8]);
        lemma_ascii_valid(seq![0x7du8, 0x0a]);
        if n.children.len() > 0 {
            lemma_children_valid(n.children, d + 1);
        }
        match values_text(n.properties, n.children.len() > 0) {
            Ok(v) => {
                cat(tabs(d), n.name);
                cat(tabs(d) + n.name, seq![0x3au8]);
                cat(tabs(d) + n.name + seq![0x3au8], v);
                cat(tabs(d) + n.name + seq![0x3au8] + v, seq![0x0au8]);
                let head = tabs(d) + n.name + seq![0x3au8] + v + seq![0x0au8];
                if n.children.len() > 0 {
                    match children_text(n.children, d + 1) {
                        Ok(c) => {
                            cat(head, c);
                            cat(tabs(d), seq![0x7du8, 0x0a]);
                            cat(head + c, tabs(d) + seq![0x7du8, 0x0a]);
                        }
                        Err(_) => {}
                    }
                }
            }
            Err(_) => {}
        }
    }
}

proof fn lemma_children_valid(cs: Seq<NodeV>, d: nat)
    requires forall|i: int| 0 <= i < cs.len() ==> node_ok(#[trigger] cs[i]),
    ensures children_text(cs, d) matches Ok(t) ==> valid_utf8(t),
    decreases cs, 0int,
{
    if cs.len() > 0 {
        assert(node_ok(cs[0]));
        lemma_node_valid(cs[0], d);
        let rest = cs.drop_first();
        assert forall|i: int| 0 <= i < rest.len() implies node_ok(#[trigger] rest[i]) by {
            assert(rest[i] == cs[i + 1]);
        }
        lemma_children_valid(rest, d);
        match node_text(cs[0], d) {
            Ok(t) => match children_text(rest, d) {
                Ok(r) => cat(t, r),
                Err(_) => {}
            },
            Err(_) => {}
        }
    } else {
        assert(valid_utf8(Seq::<u8>::empty()));
    }
}

/// What the ASCII writer prints for a document is UTF-8 when the
/// document's node names, string properties and decimal double texts
/// are.
pub proof fn lemma_written_text_is_utf8(doc: DocV, banner: bool)
    requires forall|i: int| 0 <= i < doc.root.children.len() ==> node_ok(#[trigger] doc.root.children[i]),
    ensures doc_text(doc, banner) matches Ok(t) ==> valid_utf8(t),
{
    lemma_children_valid(doc.root.children, 0);
    lemma_banner_valid(doc.version);
    match children_text(doc.root.children, 0) {
        Ok(c) => cat(banner_text(doc.version), c),
        Err(_) => {}
    }
}

} // verus!
