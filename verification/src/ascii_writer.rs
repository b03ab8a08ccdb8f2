//! ASCII FBX writer: prints an [`FbxDocument`] in the text encoding that
//! [`crate::ascii::parse`] reads back.
//!
//! - An optional two-line banner comment, `; FBX <maj>.<min>.<patch>
//!   project file` and a `; ----` separator.
//! - One tab of indentation per nesting level.
//! - A node with children is printed in body form (`Key: v, ... {`,
//!   or `Key:  {` without values), any other node as a leaf.
//! - A childless node whose single property is a numeric array uses the
//!   typed-array shorthand `Key: *N {` / `a: v1,v2,...` / `}`.
//! - Integers in decimal, booleans as `T` / `F`, strings quoted with
//!   their bytes verbatim. Floats are printed from their decimal text,
//!   which must be a complete float token; a float held as an IEEE-754
//!   bit pattern must be rendered to decimal text by the caller first.
//! - Strings holding `"` or a line break, `R` blobs and `c` byte arrays
//!   have no ASCII form and are refused.

use vstd::prelude::*;
use vstd::string::StringSliceAdditionalSpecFns;
use crate::ascii::{
    digits_value_slice, exp_end, lemma_digits_end, num_a, num_b, num_c, num_d, num_has_dot, num_has_exp,
    num_neg, spec_numeric, NumTok,
};
use crate::trunc::scan_digits;
use crate::decimal::{dec_digits, dec_int};
use crate::error::FbxError;
use crate::model::{
    doc_view, lemma_nodes_view_len, node_view, nodes_view, props_view, reals_view, DocV, FbxDocument,
    FbxNode, FbxProperty, FbxReal, NodeV, PropV, RealV,
};

verus! {

/// Options of [`write_ascii_document_with_options`].
#[derive(Clone, Copy, Debug)]
pub struct AsciiWriterOptions {
    /// Prepend the two-line `; FBX <version>` banner (the ASCII sniffer
    /// [`crate::ascii::is_ascii_fbx`] looks for it). Default `true`.
    pub emit_banner: bool,
}

impl Default for AsciiWriterOptions {
    fn default() -> (o: Self)
        ensures o.emit_banner,
    {
        AsciiWriterOptions { emit_banner: true }
    }
}

impl AsciiWriterOptions {
    /// These options with the banner switched on or off.
    pub fn emit_banner(self, on: bool) -> (o: Self)
        ensures o.emit_banner == on,
    {
        AsciiWriterOptions { emit_banner: on }
    }
}

// ---------------------------------------------------------------------
// The printed form
// ---------------------------------------------------------------------

pub open spec fn tabs(n: nat) -> Seq<u8> {
    Seq::new(n, |i: int| 0x09u8)
}

/// `; FBX <v/1000>.<v/100 % 10>.<v % 100> project file` and the
/// separator comment line.
pub open spec fn banner_text(version: u32) -> Seq<u8> {
    seq![0x3bu8, 0x20, 0x46, 0x42, 0x58, 0x20]
        + dec_digits((version / 1000) as nat) + seq![0x2eu8]
        + dec_digits(((version / 100) % 10) as nat) + seq![0x2eu8]
        + dec_digits((version % 100) as nat)
        + seq![0x20u8, 0x70, 0x72, 0x6f, 0x6a, 0x65, 0x63, 0x74, 0x20, 0x66, 0x69, 0x6c, 0x65, 0x0a]
        + seq![0x3bu8, 0x20] + Seq::new(52, |i: int| 0x2du8) + seq![0x0au8]
}

/// `t` is exactly one float-shaped numeric token.
pub open spec fn is_float_token(t: Seq<u8>) -> bool {
    spec_numeric(t, 0) == Ok::<(NumTok, int), FbxError>((NumTok::Float(t), t.len() as int))
}

/// The decimal text of a double, when it has one.
pub open spec fn real_text(r: RealV) -> Result<Seq<u8>, FbxError> {
    match r {
        RealV::Text(t) => if is_float_token(t) { Ok(t) } else { Err(FbxError::FloatNotDecimal) },
        RealV::Bits(_) => Err(FbxError::FloatNotDecimal),
    }
}

/// The printed form of a string property.
pub open spec fn string_text(b: Seq<u8>) -> Result<Seq<u8>, FbxError> {
    if b.contains(0x22u8) {
        Err(FbxError::StringHasQuote)
    } else if b.contains(0x0au8) || b.contains(0x0du8) {
        Err(FbxError::StringHasNewline)
    } else {
        Ok(seq![0x22u8] + b + seq![0x22u8])
    }
}

/// The printed form of a scalar property.
pub open spec fn scalar_text(p: PropV) -> Result<Seq<u8>, FbxError> {
    match p {
        PropV::I16(v) => Ok(dec_int(v as int)),
        PropV::I32(v) => Ok(dec_int(v as int)),
        PropV::I64(v) => Ok(dec_int(v as int)),
        PropV::F32(_) => Err(FbxError::FloatNotDecimal),
        PropV::F64(r) => real_text(r),
        PropV::Bool(v) => Ok(if v { seq![0x54u8] } else { seq![0x46u8] }),
        PropV::Str(b) => string_text(b),
        PropV::Raw(_) => Err(FbxError::RawHasNoAsciiForm),
        PropV::ByteArray(_) => Err(FbxError::ByteArrayHasNoAsciiForm),
        _ => Err(FbxError::ArrayInScalarPosition),
    }
}

/// Values joined by `, `; the first error in order.
pub open spec fn list_text(ps: Seq<PropV>) -> Result<Seq<u8>, FbxError>
    decreases ps.len(),
{
    if ps.len() == 0 {
        Ok(Seq::empty())
    } else {
        match list_text(ps.drop_last()) {
            Err(e) => Err(e),
            Ok(init) => match scalar_text(ps.last()) {
                Err(e) => Err(e),
                Ok(t) => Ok(if ps.len() == 1 { t } else { init + seq![0x2cu8, 0x20] + t }),
            },
        }
    }
}

/// The variants printed in typed-array shorthand.
pub open spec fn is_array_prop(p: PropV) -> bool {
    p is F32Array || p is F64Array || p is I32Array || p is I64Array || p is BoolArray
}

pub open spec fn array_len(p: PropV) -> nat {
    match p {
        PropV::F32Array(v) => v.len(),
        PropV::F64Array(v) => v.len(),
        PropV::I32Array(v) => v.len(),
        PropV::I64Array(v) => v.len(),
        PropV::BoolArray(v) => v.len(),
        _ => 0,
    }
}

/// Element `i` of an array property as printed.
pub open spec fn elem_text(p: PropV, i: int) -> Result<Seq<u8>, FbxError> {
    match p {
        PropV::F32Array(_) => Err(FbxError::FloatNotDecimal),
        PropV::F64Array(v) => real_text(v[i]),
        PropV::I32Array(v) => Ok(dec_int(v[i] as int)),
        PropV::I64Array(v) => Ok(dec_int(v[i] as int)),
        PropV::BoolArray(v) => Ok(if v[i] { seq![0x31u8] } else { seq![0x30u8] }),
        _ => Err(FbxError::ArrayInScalarPosition),
    }
}

/// The first `n` elements of an array property joined by `,`.
pub open spec fn elems_text(p: PropV, n: nat) -> Result<Seq<u8>, FbxError>
    decreases n,
{
    if n == 0 {
        Ok(Seq::empty())
    } else {
        match elems_text(p, (n - 1) as nat) {
            Err(e) => Err(e),
            Ok(init) => match elem_text(p, n - 1) {
                Err(e) => Err(e),
                Ok(t) => Ok(if n == 1 { t } else { init + seq![0x2cu8] + t }),
            },
        }
    }
}

/// `<tabs>Key: *N {` and `<tabs+1>a:`.
pub open spec fn array_head(name: Seq<u8>, len: nat, d: nat) -> Seq<u8> {
    tabs(d) + name + seq![0x3au8, 0x20, 0x2a] + dec_digits(len) + seq![0x20u8, 0x7b, 0x0a]
        + tabs(d + 1) + seq![0x61u8, 0x3a]
}

/// ` v1,v2,...` (nothing for no elements), then the line end and
/// `<tabs>}`.
pub open spec fn array_tail(body: Seq<u8>, len: nat, d: nat) -> Seq<u8> {
    (if len > 0 { seq![0x20u8] + body } else { Seq::empty() }) + seq![0x0au8] + tabs(d) + seq![0x7du8, 0x0a]
}

/// `<tabs>Key: *N {` / `<tabs+1>a: v1,v2,...` / `<tabs>}`.
pub open spec fn array_node_text(n: NodeV, d: nat) -> Result<Seq<u8>, FbxError> {
    let p = n.properties[0];
    let len = array_len(p);
    match elems_text(p, len) {
        Err(e) => Err(e),
        Ok(body) => Ok(array_head(n.name, len, d) + array_tail(body, len, d)),
    }
}

/// The value part of a node's first line: ` v1, v2, ...`, then ` {`
/// when a body follows (`  {` when there are no values).
pub open spec fn values_text(ps: Seq<PropV>, has_body: bool) -> Result<Seq<u8>, FbxError> {
    if ps.len() == 0 {
        Ok(if has_body { seq![0x20u8, 0x20, 0x7b] } else { Seq::empty() })
    } else {
        match list_text(ps) {
            Err(e) => Err(e),
            Ok(t) => Ok(seq![0x20u8] + t + (if has_body { seq![0x20u8, 0x7b] } else { Seq::empty() })),
        }
    }
}

/// The printed form of a node at nesting depth `d`.
pub open spec fn node_text(n: NodeV, d: nat) -> Result<Seq<u8>, FbxError>
    decreases n, 1int,
{
    if n.children.len() == 0 && n.properties.len() == 1 && is_array_prop(n.properties[0]) {
        array_node_text(n, d)
    } else {
        let has_body = n.children.len() > 0;
        match values_text(n.properties, has_body) {
            Err(e) => Err(e),
            Ok(v) => {
                let head = tabs(d) + n.name + seq![0x3au8] + v + seq![0x0au8];
                if has_body {
                    match children_text(n.children, d + 1) {
                        Err(e) => Err(e),
                        Ok(c) => Ok(head + c + (tabs(d) + seq![0x7du8, 0x0a])),
                    }
                } else {
                    Ok(head)
                }
            },
        }
    }
}

/// The printed forms of nodes at depth `d`, concatenated.
pub open spec fn children_text(cs: Seq<NodeV>, d: nat) -> Result<Seq<u8>, FbxError>
    decreases cs, 0int,
{
    if cs.len() == 0 {
        Ok(Seq::empty())
    } else {
        match node_text(cs[0], d) {
            Err(e) => Err(e),
            Ok(t) => match children_text(cs.drop_first(), d) {
                Err(e) => Err(e),
                Ok(rest) => Ok(t + rest),
            },
        }
    }
}

/// The printed form of a document.
pub open spec fn doc_text(doc: DocV, banner: bool) -> Result<Seq<u8>, FbxError> {
    match children_text(doc.root.children, 0) {
        Err(e) => Err(e),
        Ok(c) => Ok(if banner { banner_text(doc.version) + c } else { c }),
    }
}

pub open spec fn out_res(r: Result<Vec<u8>, FbxError>) -> Result<Seq<u8>, FbxError> {
    match r {
        Ok(v) => Ok(v@),
        Err(e) => Err(e),
    }
}

// ---------------------------------------------------------------------
// Printing
// ---------------------------------------------------------------------

fn push_bytes(out: &mut Vec<u8>, b: &[u8])
    ensures final(out)@ == old(out)@ + b@,
{
    let ghost o = out@;
    let mut i: usize = 0;
    while i < b.len()
        invariant
            i <= b@.len(),
            out@ == o + b@.subrange(0, i as int),
        decreases b@.len() - i,
    {
        out.push(b[i]);
        i += 1;
        assert(out@ =~= o + b@.subrange(0, i as int));
    }
    assert(b@.subrange(0, b@.len() as int) =~= b@);
}

fn push_repeat(out: &mut Vec<u8>, byte: u8, n: usize)
    ensures final(out)@ == old(out)@ + Seq::new(n as nat, |i: int| byte),
{
    let ghost o = out@;
    let mut i: usize = 0;
    while i < n
        invariant
            i <= n,
            out@ == o + Seq::new(i as nat, |k: int| byte),
        decreases n - i,
    {
        out.push(byte);
        i += 1;
        assert(out@ =~= o + Seq::new(i as nat, |k: int| byte));
    }
}

fn indent(out: &mut Vec<u8>, depth: usize)
    ensures final(out)@ == old(out)@ + tabs(depth as nat),
{
    push_repeat(out, 0x09, depth);
}

fn write_banner(version: u32, out: &mut Vec<u8>)
    ensures final(out)@ == old(out)@ + banner_text(version),
{
    let ghost o = out@;
    let head: [u8; 6] = [0x3b, 0x20, 0x46, 0x42, 0x58, 0x20];
    push_bytes(out, &head);
    crate::decimal::push_u64_digits((version / 1000) as u64, out);
    out.push(0x2e);
    crate::decimal::push_u64_digits(((version / 100) % 10) as u64, out);
    out.push(0x2e);
    crate::decimal::push_u64_digits((version % 100) as u64, out);
    let tail: [u8; 14] = [0x20, 0x70, 0x72, 0x6f, 0x6a, 0x65, 0x63, 0x74, 0x20, 0x66, 0x69, 0x6c, 0x65, 0x0a];
    push_bytes(out, &tail);
    out.push(0x3b);
    out.push(0x20);
    push_repeat(out, 0x2d, 52);
    out.push(0x0a);
    assert(head@ =~= seq![0x3bu8, 0x20, 0x46, 0x42, 0x58, 0x20]);
    assert(tail@ =~= seq![0x20u8, 0x70, 0x72, 0x6f, 0x6a, 0x65, 0x63, 0x74, 0x20, 0x66, 0x69, 0x6c, 0x65, 0x0a]);
    assert(out@ =~= o + banner_text(version));
}

/// Whether `t` is exactly one float-shaped numeric token.
fn float_token_check(t: &[u8]) -> (r: bool)
    ensures r == is_float_token(t@),
{
    let ghost s = t@;
    let len = t.len();
    let neg = len > 0 && t[0] == 0x2d;
    let a: usize = if neg { 1 } else { 0 };
    let b = scan_digits(t, a);
    let has_dot = b < len && t[b] == 0x2e;
    let c = if has_dot { scan_digits(t, b + 1) } else { b };
    let has_exp = c < len && (t[c] == 0x65 || t[c] == 0x45);
    let mut d = c;
    let mut exp_digits = true;
    if has_exp {
        let c2: usize = if c + 1 < len && (t[c + 1] == 0x2b || t[c + 1] == 0x2d) { c + 2 } else { c + 1 };
        d = scan_digits(t, c2);
        exp_digits = d > c2;
    }
    assert(neg == num_neg(s, 0));
    assert(a as int == num_a(s, 0));
    assert(b as int == num_b(s, 0));
    assert(has_dot == num_has_dot(s, 0));
    assert(c as int == num_c(s, 0));
    assert(has_exp == num_has_exp(s, 0));
    assert(d as int == num_d(s, 0));
    assert(has_exp ==> exp_digits == exp_end(s, c as int).1);
    assert(s.subrange(0, len as int) =~= s);
    if d != len {
        return false;
    }
    if b == a && !has_dot {
        return false;
    }
    if has_dot || has_exp {
        return (b > a || c > b + 1) && (!has_exp || exp_digits);
    }
    proof { lemma_digits_end(s, a as int); }
    match digits_value_slice(t, a, b) {
        Some(v) => {
            if neg { v > 0x8000_0000_0000_0000 } else { v > 0x7fff_ffff_ffff_ffff }
        }
        None => true,
    }
}

fn write_real(r: &FbxReal, out: &mut Vec<u8>) -> (res: Result<(), FbxError>)
    ensures
        match (res, real_text(r.view_real())) {
            (Ok(()), Ok(t)) => final(out)@ == old(out)@ + t,
            (Err(e), Err(se)) => e == se,
            _ => false,
        },
{
    match r {
        FbxReal::Text(t) => {
            if float_token_check(t.as_slice()) {
                push_bytes(out, t.as_slice());
                Ok(())
            } else {
                Err(FbxError::FloatNotDecimal)
            }
        }
        FbxReal::Bits(_) => Err(FbxError::FloatNotDecimal),
    }
}

fn contains_byte(b: &[u8], x: u8) -> (r: bool)
    ensures r == b@.contains(x),
{
    let mut i: usize = 0;
    while i < b.len()
        invariant
            i <= b@.len(),
            forall|k: int| 0 <= k < i ==> b@[k] != x,
        decreases b@.len() - i,
    {
        if b[i] == x {
            assert(b@[i as int] == x);
            return true;
        }
        i += 1;
    }
    false
}

fn write_string(b: &[u8], out: &mut Vec<u8>) -> (res: Result<(), FbxError>)
    ensures
        match (res, string_text(b@)) {
            (Ok(()), Ok(t)) => final(out)@ == old(out)@ + t,
            (Err(e), Err(se)) => e == se,
            _ => false,
        },
{
    if contains_byte(b, 0x22) {
        return Err(FbxError::StringHasQuote);
    }
    if contains_byte(b, 0x0a) || contains_byte(b, 0x0d) {
        return Err(FbxError::StringHasNewline);
    }
    let ghost o = out@;
    out.push(0x22);
    push_bytes(out, b);
    out.push(0x22);
    assert(out@ =~= o + (seq![0x22u8] + b@ + seq![0x22u8]));
    Ok(())
}

fn write_scalar(p: &FbxProperty, out: &mut Vec<u8>) -> (res: Result<(), FbxError>)
    ensures
        match (res, scalar_text(p.view_prop())) {
            (Ok(()), Ok(t)) => final(out)@ == old(out)@ + t,
            (Err(e), Err(se)) => e == se,
            _ => false,
        },
{
    match p {
        FbxProperty::I16(v) => { crate::decimal::push_i64_decimal(*v as i64, out); Ok(()) }
        FbxProperty::I32(v) => { crate::decimal::push_i64_decimal(*v as i64, out); Ok(()) }
        FbxProperty::I64(v) => { crate::decimal::push_i64_decimal(*v, out); Ok(()) }
        FbxProperty::F32(_) => Err(FbxError::FloatNotDecimal),
        FbxProperty::F64(r) => write_real(r, out),
        FbxProperty::Bool(v) => {
            let ghost o = out@;
            out.push(if *v { 0x54 } else { 0x46 });
            assert(out@ =~= o + (if *v { seq![0x54u8] } else { seq![0x46u8] }));
            Ok(())
        }
        FbxProperty::String(b) => write_string(b.as_slice(), out),
        FbxProperty::Raw(_) => Err(FbxError::RawHasNoAsciiForm),
        FbxProperty::ByteArray(_) => Err(FbxError::ByteArrayHasNoAsciiForm),
        _ => Err(FbxError::ArrayInScalarPosition),
    }
}

fn write_list(ps: &Vec<FbxProperty>, out: &mut Vec<u8>) -> (res: Result<(), FbxError>)
    ensures
        match (res, list_text(props_view(ps@))) {
            (Ok(()), Ok(t)) => final(out)@ == old(out)@ + t,
            (Err(e), Err(se)) => e == se,
            _ => false,
        },
{
    let ghost o = out@;
    let ghost pv = props_view(ps@);
    let mut i: usize = 0;
    assert(pv.subrange(0, 0) =~= Seq::<PropV>::empty());
    while i < ps.len()
        invariant
            i <= ps@.len(),
            pv == props_view(ps@),
            pv.len() == ps@.len(),
            list_text(pv.subrange(0, i as int)) matches Ok(t) && out@ == o + t,
        decreases ps@.len() - i,
    {
        let ghost before = out@;
        assert(pv.subrange(0, i + 1).drop_last() =~= pv.subrange(0, i as int));
        assert(pv[i as int] == ps@[i as int].view_prop());
        if i > 0 {
            out.push(0x2c);
            out.push(0x20);
        }
        match write_scalar(&ps[i], out) {
            Ok(()) => {}
            Err(e) => {
                proof { lemma_list_text_err(pv, (i + 1) as int); }
                return Err(e);
            }
        }
        i += 1;
        proof {
            let t0 = list_text(pv.subrange(0, i - 1)).unwrap();
            assert(before == o + t0);
            if i == 1 {
                assert(out@ =~= o + scalar_text(pv[0]).unwrap());
            } else {
                assert(out@ =~= o + (t0 + seq![0x2cu8, 0x20] + scalar_text(pv[i - 1]).unwrap()));
            }
        }
    }
    assert(pv.subrange(0, ps@.len() as int) =~= pv);
    Ok(())
}

/// An error among the first `n` values is the list's error.
proof fn lemma_list_text_err(ps: Seq<PropV>, n: int)
    requires
        0 < n <= ps.len(),
        list_text(ps.subrange(0, n - 1)) is Ok,
        scalar_text(ps[n - 1]) is Err,
    ensures
        list_text(ps) == Err::<Seq<u8>, FbxError>(scalar_text(ps[n - 1])->Err_0),
    decreases ps.len() - n,
{
    if n == ps.len() {
        assert(ps.drop_last() =~= ps.subrange(0, n - 1));
    } else {
        assert(ps.drop_last().subrange(0, n - 1) =~= ps.subrange(0, n - 1));
        lemma_list_text_err(ps.drop_last(), n);
        assert(ps.drop_last()[n - 1] == ps[n - 1]);
    }
}

/// An error at element `n - 1` after `n - 1` printable elements is the
/// array's error.
proof fn lemma_elems_text_err(p: PropV, n: nat, len: nat)
    requires
        0 < n <= len,
        elems_text(p, (n - 1) as nat) is Ok,
        elem_text(p, n - 1) is Err,
    ensures
        elems_text(p, len) == Err::<Seq<u8>, FbxError>(elem_text(p, n - 1)->Err_0),
    decreases len - n,
{
    if n < len {
        lemma_elems_text_err(p, n, (len - 1) as nat);
    }
}

/// Print element `i` of an array property.
fn write_element(p: &FbxProperty, i: usize, out: &mut Vec<u8>) -> (r: Result<(), FbxError>)
    requires
        is_array_prop(p.view_prop()),
        i < array_len(p.view_prop()),
    ensures
        match (r, elem_text(p.view_prop(), i as int)) {
            (Ok(()), Ok(t)) => final(out)@ == old(out)@ + t,
            (Err(e), Err(se)) => e == se,
            _ => false,
        },
{
    match p {
        FbxProperty::F32Array(_) => Err(FbxError::FloatNotDecimal),
        FbxProperty::F64Array(v) => {
            assert(reals_view(v@)[i as int] == v@[i as int].view_real());
            write_real(&v[i], out)
        }
        FbxProperty::I32Array(v) => { crate::decimal::push_i64_decimal(v[i] as i64, out); Ok(()) }
        FbxProperty::I64Array(v) => { crate::decimal::push_i64_decimal(v[i], out); Ok(()) }
        FbxProperty::BoolArray(v) => {
            let ghost o2 = out@;
            out.push(if v[i] { 0x31 } else { 0x30 });
            assert(out@ =~= o2 + (if v@[i as int] { seq![0x31u8] } else { seq![0x30u8] }));
            Ok(())
        }
        _ => Err(FbxError::ArrayInScalarPosition),
    }
}

fn write_array_elements(p: &FbxProperty, out: &mut Vec<u8>) -> (res: Result<(), FbxError>)
    requires is_array_prop(p.view_prop()),
    ensures
        match (res, elems_text(p.view_prop(), array_len(p.view_prop()))) {
            (Ok(()), Ok(t)) => final(out)@ == old(out)@ + t,
            (Err(e), Err(se)) => e == se,
            _ => false,
        },
{
    let ghost o = out@;
    let ghost pv = p.view_prop();
    let n: usize = match p {
        FbxProperty::F32Array(v) => v.len(),
        FbxProperty::F64Array(v) => v.len(),
        FbxProperty::I32Array(v) => v.len(),
        FbxProperty::I64Array(v) => v.len(),
        FbxProperty::BoolArray(v) => v.len(),
        _ => 0,
    };
    proof {
        if let FbxProperty::F64Array(v) = p {
            assert(reals_view(v@).len() == v@.len());
        }
    }
    assert(n as nat == array_len(pv));
    let mut i: usize = 0;
    while i < n
        invariant
            i <= n,
            n as nat == array_len(pv),
            pv == p.view_prop(),
            is_array_prop(pv),
            elems_text(pv, i as nat) matches Ok(t) && out@ == o + t,
        decreases n - i,
    {
        let ghost before = out@;
        if i > 0 {
            out.push(0x2c);
        }
        let r = write_element(p, i, out);
        match r {
            Ok(()) => {}
            Err(e) => {
                proof { lemma_elems_text_err(pv, (i + 1) as nat, array_len(pv)); }
                return Err(e);
            }
        }
        i += 1;
        proof {
            let t0 = elems_text(pv, (i - 1) as nat).unwrap();
            assert(before == o + t0);
            if i == 1 {
                assert(out@ =~= o + elem_text(pv, 0).unwrap());
            } else {
                assert(out@ =~= o + (t0 + seq![0x2cu8] + elem_text(pv, i - 1).unwrap()));
            }
        }
    }
    Ok(())
}

fn is_array_property(p: &FbxProperty) -> (r: bool)
    ensures r == is_array_prop(p.view_prop()),
{
    match p {
        FbxProperty::F32Array(_) | FbxProperty::F64Array(_) | FbxProperty::I32Array(_)
        | FbxProperty::I64Array(_) | FbxProperty::BoolArray(_) => true,
        _ => false,
    }
}

fn array_length(p: &FbxProperty) -> (n: usize)
    ensures n as nat == array_len(p.view_prop()),
{
    match p {
        FbxProperty::F32Array(v) => v.len(),
        FbxProperty::F64Array(v) => {
            assert(reals_view(v@).len() == v@.len());
            v.len()
        }
        FbxProperty::I32Array(v) => v.len(),
        FbxProperty::I64Array(v) => v.len(),
        FbxProperty::BoolArray(v) => v.len(),
        _ => 0,
    }
}

fn write_array_head(name: &[u8], count: usize, depth: usize, out: &mut Vec<u8>)
    requires depth < usize::MAX,
    ensures final(out)@ == old(out)@ + array_head(name@, count as nat, depth as nat),
{
    let ghost o = out@;
    indent(out, depth);
    push_bytes(out, name);
    let ghost o1 = out@;
    out.push(0x3a);
    out.push(0x20);
    out.push(0x2a);
    assert(out@ =~= o1 + seq![0x3au8, 0x20, 0x2a]);
    let ghost o2 = out@;
    crate::decimal::push_u64_digits(count as u64, out);
    let ghost o3 = out@;
    out.push(0x20);
    out.push(0x7b);
    out.push(0x0a);
    assert(out@ =~= o3 + seq![0x20u8, 0x7b, 0x0a]);
    let ghost o4 = out@;
    indent(out, depth + 1);
    let ghost o5 = out@;
    out.push(0x61);
    out.push(0x3a);
    assert(out@ =~= o5 + seq![0x61u8, 0x3a]);
    assert(out@ =~= o + array_head(name@, count as nat, depth as nat));
}

fn write_array_node(node: &FbxNode, out: &mut Vec<u8>, depth: usize) -> (res: Result<(), FbxError>)
    requires
        depth < usize::MAX,
        node.properties@.len() == 1,
        node.children@.len() == 0,
        is_array_prop(node.properties@[0].view_prop()),
    ensures
        match (res, array_node_text(node_view(*node), depth as nat)) {
            (Ok(()), Ok(t)) => final(out)@ == old(out)@ + t,
            (Err(e), Err(se)) => e == se,
            _ => false,
        },
{
    let ghost o = out@;
    let ghost nv = node_view(*node);
    let p = &node.properties[0];
    assert(nv.properties[0] == p.view_prop());
    let count = array_length(p);
    write_array_head(node.name.as_str().as_bytes(), count, depth, out);
    let ghost mid = out@;
    if count > 0 {
        out.push(0x20);
        match write_array_elements(p, out) {
            Ok(()) => {}
            Err(e) => { return Err(e); }
        }
    }
    let ghost after = out@;
    out.push(0x0a);
    indent(out, depth);
    out.push(0x7d);
    out.push(0x0a);
    proof {
        let body = elems_text(p.view_prop(), array_len(p.view_prop())).unwrap();
        let tail = if count > 0 { seq![0x20u8] + body } else { Seq::<u8>::empty() };
        assert(after =~= mid + tail);
        assert(out@ =~= mid + array_tail(body, count as nat, depth as nat));
    }
    Ok(())
}

/// Nesting height of a node view (a leaf has height one).
pub open spec fn node_height(n: NodeV) -> nat
    decreases n, 1int,
{
    1 + children_height(n.children)
}

pub open spec fn children_height(cs: Seq<NodeV>) -> nat
    decreases cs, 0int,
{
    if cs.len() == 0 {
        0
    } else {
        let a = node_height(cs[0]);
        let b = children_height(cs.drop_first());
        if a >= b { a } else { b }
    }
}

proof fn lemma_children_height(cs: Seq<NodeV>, i: int)
    requires 0 <= i < cs.len(),
    ensures node_height(cs[i]) <= children_height(cs),
    decreases cs.len(),
{
    if i > 0 {
        lemma_children_height(cs.drop_first(), i - 1);
        assert(cs.drop_first()[i - 1] == cs[i]);
    }
}

fn write_values(ps: &Vec<FbxProperty>, has_body: bool, out: &mut Vec<u8>) -> (res: Result<(), FbxError>)
    ensures
        match (res, values_text(props_view(ps@), has_body)) {
            (Ok(()), Ok(t)) => final(out)@ == old(out)@ + t,
            (Err(e), Err(se)) => e == se,
            _ => false,
        },
{
    let ghost o = out@;
    if ps.len() == 0 {
        if has_body {
            out.push(0x20);
            out.push(0x20);
            out.push(0x7b);
        }
        assert(out@ =~= o + (if has_body { seq![0x20u8, 0x20, 0x7b] } else { Seq::<u8>::empty() }));
    } else {
        out.push(0x20);
        let ghost o1 = out@;
        match write_list(ps, out) {
            Ok(()) => {}
            Err(e) => { return Err(e); }
        }
        let ghost o2 = out@;
        if has_body {
            out.push(0x20);
            out.push(0x7b);
        }
        assert(out@ =~= o2 + (if has_body { seq![0x20u8, 0x7b] } else { Seq::<u8>::empty() }));
        assert(out@ =~= o + (seq![0x20u8] + list_text(props_view(ps@)).unwrap()
            + (if has_body { seq![0x20u8, 0x7b] } else { Seq::<u8>::empty() })));
    }
    Ok(())
}

fn write_node(node: &FbxNode, out: &mut Vec<u8>, depth: usize) -> (res: Result<(), FbxError>)
    requires
        depth + node_height(node_view(*node)) <= usize::MAX,
    ensures
        match (res, node_text(node_view(*node), depth as nat)) {
            (Ok(()), Ok(t)) => final(out)@ == old(out)@ + t,
            (Err(e), Err(se)) => e == se,
            _ => false,
        },
    decreases node, 1int,
{
    let ghost o = out@;
    let ghost nv = node_view(*node);
    proof { lemma_nodes_view_len(node.children@); }
    if node.children.len() == 0 && node.properties.len() == 1 && is_array_property(&node.properties[0]) {
        return write_array_node(node, out, depth);
    }
    let has_body = node.children.len() > 0;
    indent(out, depth);
    push_bytes(out, node.name.as_str().as_bytes());
    out.push(0x3a);
    let ghost head0 = out@;
    assert(head0 =~= o + (tabs(depth as nat) + nv.name + seq![0x3au8]));
    match write_values(&node.properties, has_body, out) {
        Ok(()) => {}
        Err(e) => { return Err(e); }
    }
    let ghost o1 = out@;
    out.push(0x0a);
    let ghost head = out@;
    proof {
        let v = values_text(nv.properties, has_body).unwrap();
        assert(head =~= o + (tabs(depth as nat) + nv.name + seq![0x3au8] + v + seq![0x0au8]));
    }
    if has_body {
        match write_children(node, out, depth + 1) {
            Ok(()) => {}
            Err(e) => { return Err(e); }
        }
        let ghost mid = out@;
        indent(out, depth);
        out.push(0x7d);
        out.push(0x0a);
        proof {
            let c = children_text(nv.children, depth as nat + 1).unwrap();
            assert(out@ =~= mid + (tabs(depth as nat) + seq![0x7du8, 0x0a]));
        }
    }
    Ok(())
}

/// Print the children of `parent` at `depth`.
fn write_children(parent: &FbxNode, out: &mut Vec<u8>, depth: usize) -> (res: Result<(), FbxError>)
    requires
        depth + children_height(nodes_view(parent.children@)) <= usize::MAX,
    ensures
        match (res, children_text(nodes_view(parent.children@), depth as nat)) {
            (Ok(()), Ok(t)) => final(out)@ == old(out)@ + t,
            (Err(e), Err(se)) => e == se,
            _ => false,
        },
    decreases parent, 0int,
{
    let ghost o = out@;
    let ghost cs = nodes_view(parent.children@);
    proof { lemma_nodes_view_len(parent.children@); }
    let mut i: usize = 0;
    let ghost mut w: Seq<u8> = Seq::empty();
    assert(cs.subrange(0, cs.len() as int) =~= cs);
    assert(w + Seq::<u8>::empty() =~= w);
    while i < parent.children.len()
        invariant
            i <= parent.children@.len(),
            cs == nodes_view(parent.children@),
            cs.len() == parent.children@.len(),
            forall|k: int| 0 <= k < cs.len() ==> #[trigger] cs[k] == node_view(parent.children@[k]),
            depth + children_height(cs) <= usize::MAX,
            out@ == o + w,
            children_text(cs, depth as nat) == prepend_text(w, children_text(cs.subrange(i as int, cs.len() as int), depth as nat)),
        decreases parent.children@.len() - i,
    {
        let c = &parent.children[i];
        proof {
            lemma_children_height(cs, i as int);
        }
        let ghost before = out@;
        let ghost rest = cs.subrange(i as int, cs.len() as int);
        assert(rest[0] == cs[i as int]);
        assert(rest.drop_first() =~= cs.subrange(i + 1, cs.len() as int));
        match write_node(c, out, depth) {
            Ok(()) => {}
            Err(e) => { return Err(e); }
        }
        i += 1;
        proof {
            let t = node_text(cs[i - 1], depth as nat).unwrap();
            match children_text(cs.subrange(i as int, cs.len() as int), depth as nat) {
                Ok(r) => {
                    assert(w + (t + r) =~= (w + t) + r);
                }
                Err(_) => {}
            }
            w = w + t;
            assert(out@ =~= o + w);
        }
    }
    proof {
        assert(cs.subrange(i as int, cs.len() as int) =~= Seq::<NodeV>::empty());
        assert(w + Seq::<u8>::empty() =~= w);
    }
    Ok(())
}

pub open spec fn prepend_text(w: Seq<u8>, r: Result<Seq<u8>, FbxError>) -> Result<Seq<u8>, FbxError> {
    match r {
        Ok(t) => Ok(w + t),
        Err(e) => Err(e),
    }
}

/// Print a document in ASCII form, with or without the banner.
/// (A tree deeper than `usize::MAX` levels cannot exist in memory.)
pub fn write_ascii_document_with_options(doc: &FbxDocument, opts: &AsciiWriterOptions) -> (r: Result<Vec<u8>, FbxError>)
    requires
        children_height(nodes_view(doc.root.children@)) <= usize::MAX,
    ensures
        out_res(r) == doc_text(doc_view(*doc), opts.emit_banner),
{
    let mut out: Vec<u8> = Vec::new();
    if opts.emit_banner {
        write_banner(doc.version, &mut out);
    }
    let ghost o = out@;
    match write_children(&doc.root, &mut out, 0) {
        Ok(()) => {}
        Err(e) => { return Err(e); }
    }
    proof {
        if !opts.emit_banner {
            assert(o =~= Seq::<u8>::empty());
            assert(out@ =~= children_text(nodes_view(doc.root.children@), 0).unwrap());
        }
    }
    Ok(out)
}

/// Print a document in ASCII form with the banner.
pub fn write_ascii_document(doc: &FbxDocument) -> (r: Result<Vec<u8>, FbxError>)
    requires
        children_height(nodes_view(doc.root.children@)) <= usize::MAX,
    ensures
        out_res(r) == doc_text(doc_view(*doc), true),
{
    let opts = AsciiWriterOptions::default();
    write_ascii_document_with_options(doc, &opts)
}


/// The `0` / `1` integers of booleans.
pub open spec fn bools_as_ints(v: Seq<bool>) -> Seq<i32> {
    v.map_values(|b: bool| if b { 1i32 } else { 0i32 })
}

/// A boolean array is printed exactly as the integer array holding `1`
/// for each true element and `0` for each false one, element by element.
pub proof fn lemma_bool_elems_as_ints(v: Seq<bool>, n: nat)
    requires n <= v.len(),
    ensures
        elems_text(PropV::BoolArray(v), n) == elems_text(PropV::I32Array(bools_as_ints(v)), n),
    decreases n,
{
    if n > 0 {
        lemma_bool_elems_as_ints(v, (n - 1) as nat);
        let k = n - 1;
        assert(bools_as_ints(v)[k] == if v[k] { 1i32 } else { 0i32 });
        assert(dec_digits(1) =~= seq![0x31u8]);
        assert(dec_digits(0) =~= seq![0x30u8]);
    }
}

/// A leaf holding a boolean array is written exactly as the same leaf
/// holding the `0` / `1` integer array: each true element prints as
/// `1` and each false one as `0`.
pub proof fn lemma_bool_array_written_as_zero_one(name: Seq<u8>, v: Seq<bool>, d: nat)
    ensures
        node_text(NodeV { name, properties: seq![PropV::BoolArray(v)], children: Seq::empty() }, d)
            == node_text(NodeV { name, properties: seq![PropV::I32Array(bools_as_ints(v))], children: Seq::empty() }, d),
{
    lemma_bool_elems_as_ints(v, v.len());
    assert(bools_as_ints(v).len() == v.len());
}

/// The printed text of element `i` of a boolean array is the single
/// digit `1` when the element is true and `0` when it is false.
pub proof fn lemma_bool_elem_digit(v: Seq<bool>, i: int)
    requires 0 <= i < v.len(),
    ensures elem_text(PropV::BoolArray(v), i) == Ok::<Seq<u8>, FbxError>(seq![if v[i] { 0x31u8 } else { 0x30u8 }]),
{
    let w = bools_as_ints(v);
    assert(w[i] == if v[i] { 1i32 } else { 0i32 });
    lemma_bool_elems_as_ints(v, (i + 1) as nat);
    lemma_bool_elems_as_ints(v, i as nat);
    assert(dec_digits(1) =~= seq![0x31u8]);
    assert(dec_digits(0) =~= seq![0x30u8]);
    assert(elem_text(PropV::I32Array(w), i) == Ok::<Seq<u8>, FbxError>(dec_int(w[i] as int)));
    assert(elem_text(PropV::BoolArray(v), i) == Ok::<Seq<u8>, FbxError>(if v[i] { seq![0x31u8] } else { seq![0x30u8] }));
}

} // verus!
