//! The ASCII reader reads back what the ASCII writer prints.
//!
//! A document in the reader's normal form (identifier names, `i64`
//! integers, booleans, one-line strings, doubles held as float tokens,
//! arrays only in the typed-array shorthand, bodies nested at most 128
//! deep, and the version its header declares) is printed without error
//! and parsed back to itself.

use vstd::prelude::*;
use crate::ascii::{
    lemma_ident_end, lemma_string_close, spec_unsigned, array_prop, spec_array, spec_elems, spec_identifier, spec_items, spec_node, spec_parse_ascii,
    spec_strip_bom, spec_top, tok_int, tok_real, declared_version, ends_value_list, fits_i32, lemma_scalar_progress, lemma_trivia_end_ge, max_depth, spec_scalar, spec_value_list, dec_value, digits_end, exp_end, ident_end, is_digit, lemma_digits_end, lemma_numeric_progress,
    num_a, num_b, num_c, num_d, num_float_ok, num_has_dot, num_has_exp, num_neg, spec_is_ident_continue,
    spec_is_ident_start, spec_numeric, string_close, trivia_end, NumTok,
};
use crate::ascii_writer::{
    banner_text, doc_text, children_text, node_text, values_text, array_len, elem_text, elems_text, is_array_prop, is_float_token, list_text, scalar_text, tabs,
};
use crate::model::{make_node_v, root_v, DocV, NodeV, PropV, RealV};
use crate::decimal::{dec_digits, dec_int, lemma_dec_digits_ascii};
use crate::error::FbxError;

verus! {

/// `t` occurs in `s` at offset `p`.
pub open spec fn embeds(s: Seq<u8>, p: int, t: Seq<u8>) -> bool {
    0 <= p && p + t.len() <= s.len() && forall|k: int| 0 <= k < t.len() ==> s[p + k] == #[trigger] t[k]
}

pub proof fn lemma_embeds_concat(s: Seq<u8>, p: int, a: Seq<u8>, b: Seq<u8>)
    requires embeds(s, p, a + b),
    ensures embeds(s, p, a), embeds(s, p + a.len(), b),
{
    assert forall|k: int| 0 <= k < a.len() implies s[p + k] == #[trigger] a[k] by {
        assert((a + b)[k] == a[k]);
    }
    assert forall|k: int| 0 <= k < b.len() implies s[p + a.len() + k] == #[trigger] b[k] by {
        assert((a + b)[a.len() + k] == b[k]);
    }
}

// ---------------------------------------------------------------------
// Trivia
// ---------------------------------------------------------------------

/// Skipping a run of whitespace (newlines too unless `inline`).
pub proof fn lemma_trivia_run(s: Seq<u8>, p: int, m: int, inline: bool)
    requires
        0 <= p, 0 <= m, p + m <= s.len(),
        forall|k: int| p <= k < p + m ==> (#[trigger] s[k] == 0x20 || s[k] == 0x09
            || (!inline && (s[k] == 0x0a || s[k] == 0x0d))),
    ensures trivia_end(s, p, false, inline) == trivia_end(s, p + m, false, inline),
    decreases m,
{
    if m > 0 {
        lemma_trivia_run(s, p + 1, m - 1, inline);
    }
}

/// Trivia stops at a byte that is neither whitespace nor `;`.
pub proof fn lemma_trivia_stop(s: Seq<u8>, p: int, inline: bool)
    requires
        0 <= p <= s.len(),
        p < s.len() ==> !(s[p] == 0x20 || s[p] == 0x09 || s[p] == 0x3b || (!inline && (s[p] == 0x0a || s[p] == 0x0d))),
    ensures trivia_end(s, p, false, inline) == p,
{
}

/// A `;` comment running to a newline is skipped with it.
pub proof fn lemma_trivia_comment(s: Seq<u8>, p: int, j: int)
    requires
        0 <= p < j < s.len(),
        s[p] == 0x3b,
        s[j] == 0x0a,
        forall|k: int| p < k < j ==> #[trigger] s[k] != 0x0a,
    ensures trivia_end(s, p, false, false) == trivia_end(s, j + 1, false, false),
{
    lemma_comment_body(s, p + 1, j);
}

proof fn lemma_comment_body(s: Seq<u8>, k: int, j: int)
    requires
        0 <= k <= j < s.len(),
        s[j] == 0x0a,
        forall|i: int| k <= i < j ==> #[trigger] s[i] != 0x0a,
    ensures trivia_end(s, k, true, false) == trivia_end(s, j + 1, false, false),
    decreases j - k,
{
    if k < j {
        lemma_comment_body(s, k + 1, j);
    } else {
        assert(trivia_end(s, j, false, false) == trivia_end(s, j + 1, false, false));
    }
}

/// Where trivia ends, no trivia starts.
pub proof fn lemma_trivia_end_stops(s: Seq<u8>, p: int, c: bool, inline: bool)
    requires 0 <= p <= s.len(),
    ensures
        ({
            let r = trivia_end(s, p, c, inline);
            r == s.len() || (0 <= r < s.len() && !(s[r] == 0x20 || s[r] == 0x09 || s[r] == 0x3b
                || (!inline && (s[r] == 0x0a || s[r] == 0x0d))))
        }),
    decreases s.len() - p, (if c { 1int } else { 0int }),
{
    if p < s.len() {
        if c {
            if s[p] == 0x0a { lemma_trivia_end_stops(s, p, false, inline); } else { lemma_trivia_end_stops(s, p + 1, true, inline); }
        } else if s[p] == 0x20 || s[p] == 0x09 || (!inline && (s[p] == 0x0d || s[p] == 0x0a)) {
            lemma_trivia_end_stops(s, p + 1, false, inline);
        } else if s[p] == 0x3b {
            lemma_trivia_end_stops(s, p + 1, true, inline);
        }
    }
}

pub proof fn lemma_trivia_idem(s: Seq<u8>, p: int, inline: bool)
    requires 0 <= p <= s.len(),
    ensures trivia_end(s, trivia_end(s, p, false, inline), false, inline) == trivia_end(s, p, false, inline),
{
    lemma_trivia_end_stops(s, p, false, inline);
    lemma_trivia_end_ge(s, p, false, inline);
    lemma_trivia_stop(s, trivia_end(s, p, false, inline), inline);
}

/// A value list read from `p` is the one read from where the leading
/// trivia ends.
pub proof fn lemma_value_list_skip(s: Seq<u8>, p: int)
    requires 0 <= p <= s.len(),
    ensures spec_value_list(s, p) == spec_value_list(s, trivia_end(s, p, false, true)),
{
    let q = trivia_end(s, p, false, true);
    lemma_trivia_idem(s, p, true);
    lemma_trivia_end_ge(s, p, false, true);
    if 0 <= q < s.len() && !ends_value_list(s[q]) {
        lemma_scalar_progress(s, q);
        if let Ok((v, r)) = spec_scalar(s, q) {
            lemma_trivia_end_ge(s, r, false, true);
        }
    }
}

// ---------------------------------------------------------------------
// Runs of digits and identifier bytes
// ---------------------------------------------------------------------

pub proof fn lemma_digits_run(s: Seq<u8>, p: int, m: int)
    requires
        0 <= p, 0 <= m, p + m <= s.len(),
        forall|k: int| p <= k < p + m ==> is_digit(#[trigger] s[k]),
        p + m == s.len() || !is_digit(s[p + m]),
    ensures digits_end(s, p) == p + m,
    decreases m,
{
    if m > 0 {
        lemma_digits_run(s, p + 1, m - 1);
    }
}

pub proof fn lemma_digits_end_stop(s: Seq<u8>, p: int)
    requires 0 <= p <= s.len(),
    ensures digits_end(s, p) == s.len() || !is_digit(s[digits_end(s, p)]),
    decreases s.len() - p,
{
    if p < s.len() && is_digit(s[p]) {
        lemma_digits_end_stop(s, p + 1);
    }
}

pub proof fn lemma_ident_run(s: Seq<u8>, p: int, m: int)
    requires
        0 <= p, 0 <= m, p + m <= s.len(),
        forall|k: int| p <= k < p + m ==> spec_is_ident_continue(#[trigger] s[k]),
        p + m == s.len() || !spec_is_ident_continue(s[p + m]),
    ensures ident_end(s, p) == p + m,
    decreases m,
{
    if m > 0 {
        lemma_ident_run(s, p + 1, m - 1);
    }
}

pub proof fn lemma_string_run(s: Seq<u8>, p: int, m: int)
    requires
        0 <= p, 0 <= m, p + m < s.len(),
        forall|k: int| p <= k < p + m ==> #[trigger] s[k] != 0x22 && s[k] != 0x0a,
        s[p + m] == 0x22,
    ensures string_close(s, p) == Ok::<int, FbxError>(p + m),
    decreases m,
{
    if m > 0 {
        lemma_string_run(s, p + 1, m - 1);
    }
}

proof fn lemma_dec_value_push(x: Seq<u8>, c: u8)
    ensures dec_value(x + seq![c]) == dec_value(x) * 10 + (c - 0x30),
{
    assert((x + seq![c]).drop_last() =~= x);
}

pub proof fn lemma_dec_value_digits(n: nat)
    ensures dec_value(dec_digits(n)) == n,
    decreases n,
{
    if n >= 10 {
        lemma_dec_value_digits(n / 10);
        lemma_dec_value_push(dec_digits(n / 10), (0x30 + n % 10) as u8);
        assert(n == (n / 10) * 10 + n % 10);
    } else {
        lemma_dec_value_push(Seq::empty(), (0x30 + n) as u8);
        assert(Seq::<u8>::empty() + seq![(0x30 + n) as u8] =~= dec_digits(n));
    }
}

// ---------------------------------------------------------------------
// Numeric tokens in context
// ---------------------------------------------------------------------

/// A byte that cannot continue a numeric token.
pub open spec fn ends_number(s: Seq<u8>, i: int) -> bool {
    i == s.len() || (0 <= i < s.len() && !is_digit(s[i]) && s[i] != 0x2e && s[i] != 0x65 && s[i] != 0x45)
}

/// The decimal text of an `i64` lexes back as that integer.
pub proof fn lemma_int_token(s: Seq<u8>, q: int, n: i64)
    requires
        embeds(s, q, dec_int(n as int)),
        ends_number(s, q + dec_int(n as int).len()),
    ensures
        spec_numeric(s, q) == Ok::<(NumTok, int), FbxError>((NumTok::Int(n), q + dec_int(n as int).len())),
{
    let t = dec_int(n as int);
    let m: nat = if n < 0 { (-n) as nat } else { n as nat };
    let ds = dec_digits(m);
    lemma_dec_digits_ascii(m);
    lemma_dec_value_digits(m);
    let a = if n < 0 { q + 1 } else { q };
    if n < 0 {
        assert(t[0] == 0x2d);
        assert forall|k: int| 0 <= k < ds.len() implies s[a + k] == #[trigger] ds[k] by {
            assert(t[1 + k] == ds[k]);
        }
    } else {
        assert(t == ds);
        assert(s[q] == t[0]);
        assert(is_digit(ds[0]));
    }
    assert forall|k: int| a <= k < a + ds.len() implies is_digit(#[trigger] s[k]) by {
        assert(s[k] == ds[k - a]);
    }
    assert(a + ds.len() == q + t.len());
    lemma_digits_run(s, a, ds.len() as int);
    assert(num_neg(s, q) == (n < 0));
    assert(num_a(s, q) == a);
    assert(num_b(s, q) == a + ds.len());
    assert(s.subrange(a, a + ds.len()) =~= ds);
    assert(!num_has_dot(s, q));
    assert(!num_has_exp(s, q));
}

/// Digits in `t` from `i` on end where they end in `s` at `q + i`.
proof fn lemma_digits_shift(s: Seq<u8>, t: Seq<u8>, q: int, i: int)
    requires
        embeds(s, q, t),
        0 <= i <= t.len(),
        q + t.len() == s.len() || !is_digit(s[q + t.len()]),
    ensures digits_end(s, q + i) == q + digits_end(t, i),
    decreases t.len() - i,
{
    if i < t.len() {
        assert(s[q + i] == t[i]);
        if is_digit(t[i]) {
            lemma_digits_shift(s, t, q, i + 1);
        }
    }
}

/// A float token lexes the same inside a larger input when the byte
/// after it cannot continue it.
#[verifier::spinoff_prover]
#[verifier::rlimit(50)]
pub proof fn lemma_float_token(s: Seq<u8>, q: int, t: Seq<u8>)
    requires
        is_float_token(t),
        embeds(s, q, t),
        ends_number(s, q + t.len()),
    ensures
        spec_numeric(s, q) == Ok::<(NumTok, int), FbxError>((NumTok::Float(t), q + t.len())),
{
    let n = t.len() as int;
    assert(n > 0) by {
        lemma_numeric_progress(t, 0);
    }
    assert(s[q] == t[0]);
    assert(num_neg(s, q) == num_neg(t, 0));
    assert(num_a(s, q) == q + num_a(t, 0));
    lemma_digits_end(t, num_a(t, 0));
    lemma_digits_shift(s, t, q, num_a(t, 0));
    let bt = num_b(t, 0);
    assert(num_b(s, q) == q + bt);
    if bt < n {
        assert(s[q + bt] == t[bt]);
    }
    assert(num_has_dot(s, q) == num_has_dot(t, 0));
    if num_has_dot(t, 0) {
        lemma_digits_end(t, bt + 1);
        lemma_digits_shift(s, t, q, bt + 1);
    }
    let ct = num_c(t, 0);
    assert(num_c(s, q) == q + ct);
    if ct < n {
        assert(s[q + ct] == t[ct]);
    }
    assert(num_has_exp(s, q) == num_has_exp(t, 0));
    if num_has_exp(t, 0) {
        if ct + 1 < n {
            assert(s[q + ct + 1] == t[ct + 1]);
        }
        let c2t = if ct + 1 < n && (t[ct + 1] == 0x2b || t[ct + 1] == 0x2d) { ct + 2 } else { ct + 1 };
        let c2s = if q + ct + 1 < s.len() && (s[q + ct + 1] == 0x2b || s[q + ct + 1] == 0x2d) { q + ct + 2 } else { q + ct + 1 };
        if ct + 1 >= n {
            // An exponent marker at the very end has no digits: no float token.
            assert(exp_end(t, ct).1 == false);
        }
        assert(ct + 1 < n);
        assert(c2s == q + c2t);
        lemma_digits_end(t, c2t);
        lemma_digits_shift(s, t, q, c2t);
    }
    assert(num_d(s, q) == q + num_d(t, 0));
    assert(num_d(t, 0) == n);
    assert(num_float_ok(s, q) == num_float_ok(t, 0));
    lemma_digits_end(t, num_a(t, 0));
    assert(s.subrange(num_a(s, q), num_b(s, q)) =~= t.subrange(num_a(t, 0), num_b(t, 0)));
    assert(s.subrange(q, q + n) =~= t);
    assert(t.subrange(0, n) =~= t);
}

// ---------------------------------------------------------------------
// Normal form
// ---------------------------------------------------------------------

/// A non-empty identifier: a letter or `_`, then letters, digits, `_`.
pub open spec fn is_identifier(b: Seq<u8>) -> bool {
    b.len() >= 1 && spec_is_ident_start(b[0]) && forall|k: int| 1 <= k < b.len() ==> spec_is_ident_continue(#[trigger] b[k])
}

/// A scalar as the reader produces it.
pub open spec fn normal_scalar(p: PropV) -> bool {
    match p {
        PropV::I64(_) => true,
        PropV::Bool(_) => true,
        PropV::Str(b) => !b.contains(0x22u8) && !b.contains(0x0au8) && !b.contains(0x0du8),
        PropV::F64(RealV::Text(t)) => is_float_token(t),
        _ => false,
    }
}

pub open spec fn normal_real(r: RealV) -> bool {
    match r {
        RealV::Text(t) => is_float_token(t),
        RealV::Bits(_) => false,
    }
}

/// A typed array as the reader produces it: `i32`s, `i64`s of which one
/// does not fit `i32`, or at least one double held as a float token.
pub open spec fn normal_array(p: PropV) -> bool {
    array_len(p) <= u64::MAX && match p {
        PropV::I32Array(_) => true,
        PropV::I64Array(v) => exists|i: int| 0 <= i < v.len() && !fits_i32(#[trigger] v[i]),
        PropV::F64Array(v) => v.len() > 0 && forall|i: int| 0 <= i < v.len() ==> normal_real(#[trigger] v[i]),
        _ => false,
    }
}

pub open spec fn array_form(n: NodeV) -> bool {
    n.children.len() == 0 && n.properties.len() == 1 && is_array_prop(n.properties[0])
}

/// A node as the reader produces it inside `d` enclosing bodies.
pub open spec fn normal_node(n: NodeV, d: nat) -> bool
    decreases n, 1int,
{
    &&& is_identifier(n.name)
    &&& if array_form(n) {
        normal_array(n.properties[0])
    } else {
        &&& forall|i: int| 0 <= i < n.properties.len() ==> normal_scalar(#[trigger] n.properties[i])
        &&& n.children.len() > 0 ==> d < max_depth() && normal_children(n.children, d + 1)
    }
}

pub open spec fn normal_children(cs: Seq<NodeV>, d: nat) -> bool
    decreases cs, 0int,
{
    cs.len() == 0 || (normal_node(cs[0], d) && normal_children(cs.drop_first(), d))
}

/// A document as the reader produces it.
pub open spec fn normal_doc(doc: DocV) -> bool {
    &&& doc.root == root_v(doc.root.children)
    &&& normal_children(doc.root.children, 0)
    &&& doc.version == match declared_version(doc.root) {
        Some(v) => v,
        None => 7400u32,
    }
}

// ---------------------------------------------------------------------
// Scalars and value lists
// ---------------------------------------------------------------------

/// What may follow a value on its line.
pub open spec fn after_value(s: Seq<u8>, i: int) -> bool {
    0 <= i < s.len() && (s[i] == 0x2c || s[i] == 0x20 || s[i] == 0x0a)
}

pub proof fn lemma_scalar_ok(p: PropV)
    requires normal_scalar(p),
    ensures
        scalar_text(p) is Ok,
        scalar_text(p)->Ok_0.len() >= 1,
{
    match p {
        PropV::I64(n) => {
            lemma_dec_digits_ascii(if n < 0 { (-n) as nat } else { n as nat });
        }
        PropV::F64(RealV::Text(t)) => {
            lemma_numeric_progress(t, 0);
        }
        _ => {}
    }
}

pub proof fn lemma_scalar_in_context(s: Seq<u8>, q: int, p: PropV)
    requires
        normal_scalar(p),
        scalar_text(p) is Ok,
        embeds(s, q, scalar_text(p)->Ok_0),
        after_value(s, q + scalar_text(p)->Ok_0.len()),
    ensures
        spec_scalar(s, q) == Ok::<(PropV, int), FbxError>((p, q + scalar_text(p)->Ok_0.len())),
{
    let t = scalar_text(p)->Ok_0;
    match p {
        PropV::I64(n) => {
            lemma_int_token(s, q, n);
            let m: nat = if n < 0 { (-n) as nat } else { n as nat };
            lemma_dec_digits_ascii(m);
            assert(s[q] == t[0]);
            if n >= 0 {
                assert(t[0] == dec_digits(m)[0]);
            }
        }
        PropV::Bool(v) => {
            assert(s[q] == t[0]);
        }
        PropV::Str(b) => {
            assert(t =~= seq![0x22u8] + b + seq![0x22u8]);
            assert(s[q] == t[0]);
            assert forall|k: int| q + 1 <= k < q + 1 + b.len() implies #[trigger] s[k] != 0x22 && s[k] != 0x0a by {
                assert(s[k] == t[k - q]);
                assert(t[k - q] == b[k - q - 1]);
                if s[k] == 0x22 { assert(b.contains(0x22u8)); }
                if s[k] == 0x0a { assert(b.contains(0x0au8)); }
            }
            let kq: int = 1 + b.len() as int;
            assert(t.len() == b.len() + 2);
            assert(t[kq] == 0x22);
            assert(s[q + kq] == t[kq]);
            lemma_string_run(s, q + 1, b.len() as int);
            assert forall|i: int| 0 <= i < b.len() implies s.subrange(q + 1, q + 1 + b.len())[i] == b[i] by {
                assert(s[q + 1 + i] == t[1 + i]);
            }
            assert(s.subrange(q + 1, q + 1 + b.len()) =~= b);
        }
        PropV::F64(RealV::Text(x)) => {
            lemma_float_token(s, q, x);
            assert(s[q] == x[0]);
            lemma_float_token_start(x);
        }
        _ => {}
    }
}

/// A float token starts with `-`, `.` or a digit.
pub proof fn lemma_float_token_start(t: Seq<u8>)
    requires is_float_token(t),
    ensures t.len() >= 1, t[0] == 0x2d || t[0] == 0x2e || is_digit(t[0]),
{
    lemma_numeric_progress(t, 0);
    lemma_digits_end(t, num_a(t, 0));
}

/// `list_text` read from the front.
pub proof fn lemma_list_text_front(ps: Seq<PropV>)
    requires
        ps.len() >= 2,
        list_text(ps) is Ok,
    ensures
        scalar_text(ps[0]) is Ok,
        list_text(ps.drop_first()) is Ok,
        list_text(ps)->Ok_0 == scalar_text(ps[0])->Ok_0 + seq![0x2cu8, 0x20] + list_text(ps.drop_first())->Ok_0,
    decreases ps.len(),
{
    let init = ps.drop_last();
    if ps.len() == 2 {
        assert(init.drop_last() =~= Seq::<PropV>::empty());
        assert(ps.drop_first().drop_last() =~= Seq::<PropV>::empty());
        assert(ps.drop_first().last() == ps.last());
        assert(init.last() == ps[0]);
    } else {
        lemma_list_text_front(init);
        assert(init.drop_first() =~= ps.drop_first().drop_last());
        assert(ps.drop_first().last() == ps.last());
        assert(init[0] == ps[0]);
        let a = scalar_text(ps[0])->Ok_0;
        let b = list_text(init.drop_first())->Ok_0;
        let c = scalar_text(ps.last())->Ok_0;
        assert((a + seq![0x2cu8, 0x20] + b) + seq![0x2cu8, 0x20] + c =~= a + seq![0x2cu8, 0x20] + (b + seq![0x2cu8, 0x20] + c));
    }
}

pub proof fn lemma_list_ok(ps: Seq<PropV>)
    requires forall|i: int| 0 <= i < ps.len() ==> normal_scalar(#[trigger] ps[i]),
    ensures list_text(ps) is Ok,
    decreases ps.len(),
{
    if ps.len() > 0 {
        lemma_list_ok(ps.drop_last());
        lemma_scalar_ok(ps.last());
    }
}

/// A printed non-empty value list, followed by ` {` or a newline,
/// reads back as its values.
#[verifier::spinoff_prover]
#[verifier::rlimit(60)]
pub proof fn lemma_list_in_context(s: Seq<u8>, q: int, ps: Seq<PropV>, body: bool)
    requires
        ps.len() >= 1,
        forall|i: int| 0 <= i < ps.len() ==> normal_scalar(#[trigger] ps[i]),
        list_text(ps) is Ok,
        embeds(s, q, list_text(ps)->Ok_0),
        body ==> embeds(s, q + list_text(ps)->Ok_0.len(), seq![0x20u8, 0x7b]),
        !body ==> embeds(s, q + list_text(ps)->Ok_0.len(), seq![0x0au8]),
    ensures
        spec_value_list(s, q) == Ok::<(Seq<PropV>, int), FbxError>((ps,
            q + list_text(ps)->Ok_0.len() + (if body { 1int } else { 0int }))),
    decreases ps.len(),
{
    let lt = list_text(ps)->Ok_0;
    let end = q + lt.len();
    lemma_scalar_ok(ps[0]);
    let t0 = scalar_text(ps[0])->Ok_0;
    assert(s[q] == lt[0]);
    if ps.len() == 1 {
        assert(ps.drop_last() =~= Seq::<PropV>::empty());
        assert(lt == t0);
        assert(after_value(s, end)) by {
            if body { assert(s[end] == seq![0x20u8, 0x7b][0]); } else { assert(s[end] == seq![0x0au8][0]); }
        }
        lemma_scalar_in_context(s, q, ps[0]);
        lemma_float_or_other_start(ps[0]);
        assert(s[q] == t0[0]);
        if body {
            assert(s[end] == 0x20);
            assert(s[end + 1] == 0x7b);
            lemma_trivia_run(s, end, 1, true);
            lemma_trivia_stop(s, end + 1, true);
        } else {
            assert(s[end] == 0x0a);
            lemma_trivia_stop(s, end, true);
        }
        lemma_trivia_stop(s, q, true);
        assert(seq![ps[0]] =~= ps);
    } else {
        lemma_list_text_front(ps);
        let rest = ps.drop_first();
        let rt = list_text(rest)->Ok_0;
        assert(lt =~= t0 + (seq![0x2cu8, 0x20] + rt));
        lemma_embeds_concat(s, q, t0, seq![0x2cu8, 0x20] + rt);
        lemma_embeds_concat(s, q + t0.len(), seq![0x2cu8, 0x20], rt);
        assert(s[q + t0.len()] == 0x2c);
        assert(s[q + t0.len() + 1] == 0x20);
        lemma_scalar_in_context(s, q, ps[0]);
        lemma_float_or_other_start(ps[0]);
        assert(s[q] == t0[0]);
        lemma_trivia_stop(s, q, true);
        lemma_trivia_stop(s, q + t0.len(), true);
        // The next value starts right after the comma and one space.
        lemma_trivia_run(s, q + t0.len() + 1, 1, true);
        assert(forall|i: int| 0 <= i < rest.len() ==> normal_scalar(#[trigger] rest[i])) by {
            assert forall|i: int| 0 <= i < rest.len() implies normal_scalar(#[trigger] rest[i]) by {
                assert(rest[i] == ps[i + 1]);
            }
        }
        assert(q + t0.len() + 2 + rt.len() == end);
        lemma_list_in_context(s, q + t0.len() + 2, rest, body);
        lemma_value_list_skip(s, q + t0.len() + 1);
        lemma_scalar_ok(rest[0]);
        lemma_float_or_other_start(rest[0]);
        assert(s[q + t0.len() + 2] == rt[0]);
        lemma_list_first(rest);
        lemma_trivia_stop(s, q + t0.len() + 2, true);
        assert(seq![ps[0]] + rest =~= ps);
    }
}

/// The printed list starts with its first value's text.
pub proof fn lemma_list_first(ps: Seq<PropV>)
    requires ps.len() >= 1, list_text(ps) is Ok,
    ensures
        scalar_text(ps[0]) is Ok,
        list_text(ps)->Ok_0.len() >= scalar_text(ps[0])->Ok_0.len(),
        forall|k: int| 0 <= k < scalar_text(ps[0])->Ok_0.len() ==> list_text(ps)->Ok_0[k] == #[trigger] scalar_text(ps[0])->Ok_0[k],
{
    if ps.len() == 1 {
        assert(ps.drop_last() =~= Seq::<PropV>::empty());
    } else {
        lemma_list_text_front(ps);
    }
}

/// A printed scalar starts with a byte that selects the right lexer and
/// is not trivia, `*`, or a value-list terminator.
pub proof fn lemma_float_or_other_start(p: PropV)
    requires normal_scalar(p), scalar_text(p) is Ok,
    ensures
        scalar_text(p)->Ok_0.len() >= 1,
        ({
            let c = scalar_text(p)->Ok_0[0];
            c == 0x22 || c == 0x2d || c == 0x2e || is_digit(c) || c == 0x54 || c == 0x46
        }),
{
    lemma_scalar_ok(p);
    match p {
        PropV::I64(n) => {
            let m: nat = if n < 0 { (-n) as nat } else { n as nat };
            lemma_dec_digits_ascii(m);
            if n >= 0 {
                assert(scalar_text(p)->Ok_0[0] == dec_digits(m)[0]);
            }
        }
        PropV::F64(RealV::Text(t)) => {
            lemma_float_token_start(t);
        }
        _ => {}
    }
}

// ---------------------------------------------------------------------
// Typed arrays
// ---------------------------------------------------------------------

/// The tokens the reader lexes from a printed array.
pub open spec fn array_toks(p: PropV) -> Seq<NumTok> {
    match p {
        PropV::I32Array(v) => v.map_values(|x: i32| NumTok::Int(x as i64)),
        PropV::I64Array(v) => v.map_values(|x: i64| NumTok::Int(x)),
        PropV::F64Array(v) => v.map_values(|r: RealV| match r {
            RealV::Text(t) => NumTok::Float(t),
            RealV::Bits(_) => NumTok::Float(Seq::empty()),
        }),
        _ => Seq::empty(),
    }
}

pub proof fn lemma_array_prop_back(p: PropV)
    requires normal_array(p),
    ensures
        array_toks(p).len() == array_len(p),
        array_prop(array_len(p) as u64, array_toks(p)) == Ok::<PropV, FbxError>(p),
{
    let toks = array_toks(p);
    match p {
        PropV::I32Array(v) => {
            assert forall|i: int| 0 <= i < toks.len() implies !(#[trigger] toks[i] is Float) by {}
            assert forall|i: int| 0 <= i < toks.len() implies fits_i32(tok_int(#[trigger] toks[i])) by {}
            assert(toks.map_values(|t: NumTok| tok_int(t) as i32) =~= v);
        }
        PropV::I64Array(v) => {
            assert forall|i: int| 0 <= i < toks.len() implies !(#[trigger] toks[i] is Float) by {}
            let i = choose|i: int| 0 <= i < v.len() && !fits_i32(#[trigger] v[i]);
            assert(!fits_i32(tok_int(toks[i])));
            assert(toks.map_values(|t: NumTok| tok_int(t)) =~= v);
        }
        PropV::F64Array(v) => {
            assert(normal_real(v[0]));
            assert(toks[0] is Float);
            let m = toks.map_values(|t: NumTok| tok_real(t));
            assert forall|i: int| 0 <= i < v.len() implies #[trigger] m[i] == v[i] by {
                assert(normal_real(v[i]));
            }
            assert(m =~= v);
        }
        _ => {}
    }
}

pub proof fn lemma_elem_ok(p: PropV, i: int)
    requires normal_array(p), 0 <= i < array_len(p),
    ensures
        elem_text(p, i) is Ok,
        embeds(elem_text(p, i)->Ok_0, 0, elem_text(p, i)->Ok_0),
        elem_text(p, i)->Ok_0.len() >= 1,
        ({
            let c = elem_text(p, i)->Ok_0[0];
            c == 0x2d || c == 0x2e || is_digit(c)
        }),
{
    match p {
        PropV::I32Array(v) => {
            let n = v[i] as int;
            lemma_dec_digits_ascii(if n < 0 { (-n) as nat } else { n as nat });
            if n >= 0 { assert(dec_int(n)[0] == dec_digits(n as nat)[0]); }
        }
        PropV::I64Array(v) => {
            let n = v[i] as int;
            lemma_dec_digits_ascii(if n < 0 { (-n) as nat } else { n as nat });
            if n >= 0 { assert(dec_int(n)[0] == dec_digits(n as nat)[0]); }
        }
        PropV::F64Array(v) => {
            assert(normal_real(v[i]));
            if let RealV::Text(t) = v[i] {
                lemma_float_token_start(t);
            }
        }
        _ => {}
    }
}

pub proof fn lemma_elems_ok(p: PropV, n: nat)
    requires normal_array(p), n <= array_len(p),
    ensures elems_text(p, n) is Ok,
    decreases n,
{
    if n > 0 {
        lemma_elems_ok(p, (n - 1) as nat);
        lemma_elem_ok(p, n - 1);
    }
}

/// The printed prefix of `j` elements begins the printed prefix of `n`.
pub proof fn lemma_elems_prefix(p: PropV, j: nat, n: nat)
    requires normal_array(p), j <= n <= array_len(p),
    ensures
        elems_text(p, j) is Ok, elems_text(p, n) is Ok,
        elems_text(p, j)->Ok_0.len() <= elems_text(p, n)->Ok_0.len(),
        forall|k: int| 0 <= k < elems_text(p, j)->Ok_0.len() ==>
            elems_text(p, n)->Ok_0[k] == #[trigger] elems_text(p, j)->Ok_0[k],
    decreases n,
{
    lemma_elems_ok(p, j);
    lemma_elems_ok(p, n);
    if j < n {
        lemma_elems_prefix(p, j, (n - 1) as nat);
        lemma_elem_ok(p, n - 1);
    }
}

/// The element token `k` of an array, lexed where it was printed.
pub proof fn lemma_elem_token(s: Seq<u8>, q: int, p: PropV, k: int)
    requires
        normal_array(p), 0 <= k < array_len(p),
        embeds(s, q, elem_text(p, k)->Ok_0),
        elem_text(p, k) is Ok,
        ends_number(s, q + elem_text(p, k)->Ok_0.len()),
    ensures
        spec_numeric(s, q) == Ok::<(NumTok, int), FbxError>((array_toks(p)[k], q + elem_text(p, k)->Ok_0.len())),
{
    match p {
        PropV::I32Array(v) => { lemma_int_token(s, q, v[k] as i64); }
        PropV::I64Array(v) => { lemma_int_token(s, q, v[k]); }
        PropV::F64Array(v) => {
            assert(normal_real(v[k]));
            if let RealV::Text(t) = v[k] {
                lemma_float_token(s, q, t);
            }
        }
        _ => {}
    }
}

/// Element `k` of a printed array sits right after the printed prefix
/// of `k` elements and its comma.
pub proof fn lemma_elem_at(s: Seq<u8>, q: int, p: PropV, k: nat)
    requires
        normal_array(p),
        k < array_len(p),
        embeds(s, q, elems_text(p, array_len(p))->Ok_0),
    ensures
        elem_text(p, k as int) is Ok,
        elems_text(p, (k + 1) as nat) is Ok,
        ({
            let start = if k == 0 { q } else { q + elems_text(p, k)->Ok_0.len() + 1 };
            &&& embeds(s, start, elem_text(p, k as int)->Ok_0)
            &&& start + elem_text(p, k as int)->Ok_0.len() == q + elems_text(p, (k + 1) as nat)->Ok_0.len()
        }),
{
    let n = array_len(p);
    let tt = elems_text(p, n)->Ok_0;
    let start = if k == 0 { q } else { q + elems_text(p, k)->Ok_0.len() + 1 };
    lemma_elem_ok(p, k as int);
    let ek = elem_text(p, k as int)->Ok_0;
    lemma_elems_prefix(p, (k + 1) as nat, n);
    let pre1 = elems_text(p, (k + 1) as nat)->Ok_0;
    if k == 0 {
        assert(elems_text(p, 0) == Ok::<Seq<u8>, FbxError>(Seq::empty()));
        assert(pre1 == ek);
    } else {
        lemma_elems_prefix(p, k, (k + 1) as nat);
        assert(pre1 =~= elems_text(p, k)->Ok_0 + seq![0x2cu8] + ek);
    }
    assert forall|i: int| 0 <= i < ek.len() implies s[start + i] == #[trigger] ek[i] by {
        let j = start - q + i;
        assert(pre1[j] == ek[i]);
        assert(tt[j] == pre1[j]);
    }
}

/// After element `k` (not the last) comes a comma, then element `k + 1`.
pub proof fn lemma_elem_next(s: Seq<u8>, q: int, p: PropV, k: nat)
    requires
        normal_array(p),
        k + 1 < array_len(p),
        embeds(s, q, elems_text(p, array_len(p))->Ok_0),
    ensures
        elems_text(p, (k + 1) as nat) is Ok,
        elems_text(p, (k + 1) as nat)->Ok_0.len() + 1 < elems_text(p, array_len(p))->Ok_0.len(),
        s[q + elems_text(p, (k + 1) as nat)->Ok_0.len()] == 0x2c,
        ({
            let c = s[q + elems_text(p, (k + 1) as nat)->Ok_0.len() + 1];
            c == 0x2d || c == 0x2e || is_digit(c)
        }),
{
    let n = array_len(p);
    let tt = elems_text(p, n)->Ok_0;
    lemma_elems_prefix(p, (k + 1) as nat, (k + 2) as nat);
    lemma_elems_prefix(p, (k + 2) as nat, n);
    lemma_elem_ok(p, k + 1 as int);
    let pre1 = elems_text(p, (k + 1) as nat)->Ok_0;
    let pre2 = elems_text(p, (k + 2) as nat)->Ok_0;
    assert(pre2 =~= pre1 + seq![0x2cu8] + elem_text(p, k + 1 as int)->Ok_0);
    assert(tt[pre1.len() as int] == pre2[pre1.len() as int]);
    assert(tt[pre1.len() + 1 as int] == pre2[pre1.len() + 1 as int]);
    assert(pre2[pre1.len() + 1 as int] == elem_text(p, k + 1 as int)->Ok_0[0]);
}

/// The elements from `k` on, printed at `q` followed by a newline,
/// `d` tabs and `}`, lex back as the remaining tokens.
#[verifier::spinoff_prover]
#[verifier::rlimit(80)]
pub proof fn lemma_elems_in_context(s: Seq<u8>, q: int, p: PropV, k: nat, d: nat)
    requires
        normal_array(p),
        k < array_len(p),
        elems_text(p, array_len(p)) is Ok,
        embeds(s, q, elems_text(p, array_len(p))->Ok_0),
        embeds(s, q + elems_text(p, array_len(p))->Ok_0.len(), seq![0x0au8] + tabs(d) + seq![0x7du8]),
    ensures
        ({
            let start = if k == 0 { q } else { q + elems_text(p, k)->Ok_0.len() + 1 };
            let close = q + elems_text(p, array_len(p))->Ok_0.len() + 1 + d;
            spec_elems(s, start) == Ok::<(Seq<NumTok>, int), FbxError>((array_toks(p).subrange(k as int, array_len(p) as int), close))
        }),
    decreases array_len(p) - k,
{
    let n = array_len(p);
    let tt = elems_text(p, n)->Ok_0;
    let start = if k == 0 { q } else { q + elems_text(p, k)->Ok_0.len() + 1 };
    lemma_elem_at(s, q, p, k);
    let after = q + elems_text(p, (k + 1) as nat)->Ok_0.len();
    let tail = seq![0x0au8] + tabs(d) + seq![0x7du8];
    let toks = array_toks(p);
    if k + 1 < n {
        lemma_elem_next(s, q, p, k);
        lemma_elem_token(s, start, p, k as int);
        lemma_trivia_stop(s, after, false);
        lemma_trivia_stop(s, after + 1, false);
        lemma_elems_in_context(s, q, p, (k + 1) as nat, d);
        assert(toks.subrange(k as int, n as int) =~= seq![toks[k as int]] + toks.subrange(k + 1 as int, n as int));
    } else {
        assert(elems_text(p, (k + 1) as nat) == elems_text(p, n));
        assert(s[after] == tail[0]);
        lemma_elem_token(s, start, p, k as int);
        assert forall|i: int| after <= i < after + 1 + d implies (#[trigger] s[i] == 0x20 || s[i] == 0x09
            || (s[i] == 0x0a || s[i] == 0x0d)) by {
            assert(s[i] == tail[i - after]);
        }
        assert(s[after + 1 + d] == tail[1 + d as int]);
        lemma_trivia_run(s, after, 1 + d as int, false);
        lemma_trivia_stop(s, after + 1 + d, false);
        assert(toks.subrange(k as int, n as int) =~= seq![toks[k as int]]);
    }
}

/// The line end, `d` tabs and `}` closing a printed typed array.
pub open spec fn array_close(d: nat) -> Seq<u8> {
    seq![0x0au8] + tabs(d) + seq![0x7du8]
}

/// The printed typed array from its `*` up to and including its `}`.
pub open spec fn array_payload(p: PropV, d: nat) -> Seq<u8> {
    let len = array_len(p);
    seq![0x2au8] + (dec_digits(len) + (seq![0x20u8, 0x7b, 0x0a] + (tabs(d + 1) + (seq![0x61u8, 0x3a]
        + ((if len > 0 { seq![0x20u8] + elems_text(p, len)->Ok_0 } else { Seq::empty() }) + array_close(d))))))
}

#[verifier::spinoff_prover]
#[verifier::rlimit(80)]
pub proof fn lemma_array_in_context(s: Seq<u8>, a0: int, p: PropV, d: nat)
    requires
        normal_array(p),
        embeds(s, a0, array_payload(p, d)),
    ensures
        spec_array(s, a0) == Ok::<(PropV, int), FbxError>((p, a0 + array_payload(p, d).len())),
{
    let len = array_len(p);
    lemma_elems_ok(p, len);
    let body = elems_text(p, len)->Ok_0;
    let x1 = dec_digits(len);
    let x2 = seq![0x20u8, 0x7b, 0x0a];
    let x3 = tabs(d + 1);
    let x4 = seq![0x61u8, 0x3a];
    let x5a = if len > 0 { seq![0x20u8] + body } else { Seq::<u8>::empty() };
    let x5b = array_close(d);
    let x5 = x5a + x5b;
    lemma_embeds_concat(s, a0, seq![0x2au8], x1 + (x2 + (x3 + (x4 + x5))));
    let p1 = a0 + 1;
    lemma_embeds_concat(s, p1, x1, x2 + (x3 + (x4 + x5)));
    let e1 = p1 + x1.len();
    lemma_embeds_concat(s, e1, x2, x3 + (x4 + x5));
    let p3 = e1 + 3;
    lemma_embeds_concat(s, p3, x3, x4 + x5);
    let p4 = p3 + x3.len();
    lemma_embeds_concat(s, p4, x4, x5);
    let p5 = p4 + 2;
    lemma_embeds_concat(s, p5, x5a, x5b);
    let p6 = p5 + x5a.len();
    // The count.
    lemma_dec_digits_ascii(len);
    lemma_dec_value_digits(len);
    assert forall|k: int| p1 <= k < p1 + x1.len() implies is_digit(#[trigger] s[k]) by {
        assert(s[k] == x1[k - p1]);
    }
    assert(s[e1] == x2[0]);
    lemma_digits_run(s, p1, x1.len() as int);
    assert(s.subrange(p1, e1) =~= x1);
    // ` {`, then the newline and tabs before `a:`.
    assert(s[e1 + 1] == x2[1]);
    lemma_trivia_run(s, e1, 1, true);
    lemma_trivia_stop(s, e1 + 1, true);
    assert(s[e1 + 2] == x2[2]);
    assert forall|k: int| e1 + 2 <= k < p4 implies (#[trigger] s[k] == 0x20 || s[k] == 0x09
        || (s[k] == 0x0a || s[k] == 0x0d)) by {
        if k > e1 + 2 { assert(s[k] == x3[k - p3]); }
    }
    assert(s[p4] == x4[0]);
    assert(s[p4 + 1] == x4[1]);
    lemma_trivia_run(s, e1 + 2, p4 - (e1 + 2), false);
    lemma_trivia_stop(s, p4, false);
    lemma_ident_run(s, p4 + 1, 0);
    assert(s.subrange(p4, p4 + 1) =~= seq![0x61u8]);
    lemma_trivia_stop(s, p4 + 1, true);
    lemma_array_prop_back(p);
    if len > 0 {
        assert(s[p5] == x5a[0]);
        lemma_embeds_concat(s, p5, seq![0x20u8], body);
        lemma_elem_at(s, p5 + 1, p, 0);
        lemma_elem_ok(p, 0);
        lemma_elems_prefix(p, 1, len);
        assert(s[p5 + 1] == body[0]);
        assert(body[0] == elems_text(p, 1)->Ok_0[0]);
        assert(elems_text(p, 0) == Ok::<Seq<u8>, FbxError>(Seq::empty()));
        assert(elems_text(p, 1)->Ok_0 == elem_text(p, 0)->Ok_0);
        lemma_trivia_run(s, p5, 1, false);
        lemma_trivia_stop(s, p5 + 1, false);
        lemma_elems_in_context(s, p5 + 1, p, 0, d);
        assert(array_toks(p).subrange(0, len as int) =~= array_toks(p));
    } else {
        assert(x5a.len() == 0);
        assert forall|k: int| p5 <= k < p5 + 1 + d implies (#[trigger] s[k] == 0x20 || s[k] == 0x09
            || (s[k] == 0x0a || s[k] == 0x0d)) by {
            assert(s[k] == x5b[k - p5]);
        }
        assert(s[p5 + 1 + d] == x5b[1 + d as int]);
        lemma_trivia_run(s, p5, 1 + d as int, false);
        lemma_trivia_stop(s, p5 + 1 + d, false);
        assert(array_toks(p) =~= Seq::<NumTok>::empty());
    }
}

// ---------------------------------------------------------------------
// Nodes and bodies
// ---------------------------------------------------------------------

/// What follows a node's name in its printed form.
pub open spec fn node_rest(n: NodeV, d: nat) -> Seq<u8> {
    if array_form(n) {
        seq![0x3au8, 0x20] + (array_payload(n.properties[0], d) + seq![0x0au8])
    } else if n.children.len() > 0 {
        seq![0x3au8] + (values_text(n.properties, true)->Ok_0 + (seq![0x0au8]
            + (children_text(n.children, d + 1)->Ok_0 + (tabs(d) + seq![0x7du8, 0x0a]))))
    } else {
        seq![0x3au8] + (values_text(n.properties, false)->Ok_0 + seq![0x0au8])
    }
}

#[verifier::spinoff_prover]
#[verifier::rlimit(40)]
pub proof fn lemma_node_shape(n: NodeV, d: nat)
    requires node_text(n, d) is Ok,
    ensures node_text(n, d)->Ok_0 == tabs(d) + (n.name + node_rest(n, d)),
{
    let t = node_text(n, d)->Ok_0;
    if array_form(n) {
        assert(t =~= tabs(d) + (n.name + node_rest(n, d)));
    } else if n.children.len() > 0 {
        assert(t =~= tabs(d) + (n.name + node_rest(n, d)));
    } else {
        assert(t =~= tabs(d) + (n.name + node_rest(n, d)));
    }
}

pub proof fn lemma_node_ok(n: NodeV, d: nat)
    requires normal_node(n, d),
    ensures
        node_text(n, d) is Ok,
        node_text(n, d)->Ok_0.len() >= d + 2,
        node_text(n, d)->Ok_0.last() == 0x0a,
        node_text(n, d)->Ok_0[d as int] == n.name[0],
        forall|k: int| 0 <= k < d ==> #[trigger] node_text(n, d)->Ok_0[k] == 0x09,
    decreases n, 1int,
{
    if array_form(n) {
        lemma_elems_ok(n.properties[0], array_len(n.properties[0]));
    } else {
        if n.properties.len() > 0 {
            lemma_list_ok(n.properties);
        }
        if n.children.len() > 0 {
            lemma_children_ok(n.children, d + 1);
        }
    }
    lemma_node_shape(n, d);
    let t = node_text(n, d)->Ok_0;
    let r = node_rest(n, d);
    assert(t[d as int] == (n.name + r)[0]);
    assert(r.last() == 0x0a);
    assert(t.last() == r.last());
    assert forall|k: int| 0 <= k < d implies #[trigger] t[k] == 0x09 by {
        assert(t[k] == tabs(d)[k]);
    }
}

pub proof fn lemma_children_ok(cs: Seq<NodeV>, d: nat)
    requires normal_children(cs, d),
    ensures children_text(cs, d) is Ok,
    decreases cs, 0int,
{
    if cs.len() > 0 {
        lemma_node_ok(cs[0], d);
        lemma_children_ok(cs.drop_first(), d);
    }
}

/// The name at `p`, followed by `:`, reads as an identifier.
proof fn lemma_name_in_context(s: Seq<u8>, p: int, name: Seq<u8>)
    requires
        is_identifier(name),
        embeds(s, p, name + seq![0x3au8]),
    ensures
        spec_identifier(s, p) == Ok::<(Seq<u8>, int), FbxError>((name, p + name.len())),
{
    let m = name.len() as int;
    let t = name + seq![0x3au8];
    assert(s[p] == t[0]);
    assert(s[p + m] == t[m]);
    assert forall|k: int| p + 1 <= k < p + m implies spec_is_ident_continue(#[trigger] s[k]) by {
        assert(s[k] == t[k - p]);
        assert(t[k - p] == name[k - p]);
    }
    lemma_ident_run(s, p + 1, m - 1);
    assert forall|k: int| 0 <= k < m implies s.subrange(p, p + m)[k] == name[k] by {
        assert(s[p + k] == t[k]);
    }
    assert(s.subrange(p, p + m) =~= name);
}

/// The value part of a node's line, printed at `v0` and followed by a
/// newline: the reader finds no `*`, reads the values, and stops at the
/// body's `{` or at the newline.
#[verifier::spinoff_prover]
#[verifier::rlimit(60)]
pub proof fn lemma_values_in_context(s: Seq<u8>, v0: int, ps: Seq<PropV>, has_body: bool)
    requires
        forall|i: int| 0 <= i < ps.len() ==> normal_scalar(#[trigger] ps[i]),
        values_text(ps, has_body) is Ok,
        embeds(s, v0, values_text(ps, has_body)->Ok_0 + seq![0x0au8]),
    ensures
        ({
            let v = values_text(ps, has_body)->Ok_0;
            let q2 = trivia_end(s, v0, false, true);
            let e3 = if has_body { v0 + v.len() - 1 } else { v0 + v.len() };
            &&& v0 <= q2 < s.len()
            &&& s[q2] != 0x2a
            &&& spec_value_list(s, q2) == Ok::<(Seq<PropV>, int), FbxError>((ps, e3))
            &&& trivia_end(s, e3, false, true) == e3
            &&& 0 <= e3 < s.len()
            &&& (has_body ==> s[e3] == 0x7b)
            &&& (!has_body ==> s[e3] == 0x0a)
        }),
{
    let v = values_text(ps, has_body)->Ok_0;
    let w = v + seq![0x0au8];
    lemma_embeds_concat(s, v0, v, seq![0x0au8]);
    assert(s[v0 + v.len()] == w[v.len() as int]);
    if ps.len() == 0 {
        assert(ps =~= Seq::<PropV>::empty());
        if has_body {
            assert(s[v0] == w[0] && s[v0 + 1] == w[1] && s[v0 + 2] == w[2]);
            lemma_trivia_run(s, v0, 2, true);
            lemma_trivia_stop(s, v0 + 2, true);
            assert(spec_value_list(s, v0 + 2) == Ok::<(Seq<PropV>, int), FbxError>((Seq::empty(), v0 + 2)));
        } else {
            lemma_trivia_stop(s, v0, true);
            assert(spec_value_list(s, v0) == Ok::<(Seq<PropV>, int), FbxError>((Seq::empty(), v0)));
        }
    } else {
        lemma_list_ok(ps);
        let lt = list_text(ps)->Ok_0;
        let tail = if has_body { seq![0x20u8, 0x7b] } else { Seq::<u8>::empty() };
        assert(v =~= seq![0x20u8] + (lt + tail));
        lemma_embeds_concat(s, v0, seq![0x20u8], lt + tail);
        lemma_embeds_concat(s, v0 + 1, lt, tail);
        lemma_list_first(ps);
        lemma_float_or_other_start(ps[0]);
        assert(s[v0] == seq![0x20u8][0]);
        assert(s[v0 + 1] == lt[0]);
        lemma_trivia_run(s, v0, 1, true);
        lemma_trivia_stop(s, v0 + 1, true);
        if has_body {
            lemma_list_in_context(s, v0 + 1, ps, true);
            assert(s[v0 + 1 + lt.len() + 1] == tail[1]);
        } else {
            assert(embeds(s, v0 + 1 + lt.len(), seq![0x0au8])) by {
                assert(s[v0 + 1 + lt.len()] == w[v.len() as int]);
            }
            lemma_list_in_context(s, v0 + 1, ps, false);
        }
        let e3 = if has_body { v0 + v.len() - 1 } else { v0 + v.len() };
        lemma_trivia_stop(s, e3, true);
    }
}

/// A node printed at `p` (tabs included) reads back as itself, ending
/// at its final newline.
#[verifier::spinoff_prover]
#[verifier::rlimit(60)]
pub proof fn lemma_node_in_context(s: Seq<u8>, p: int, n: NodeV, d: nat)
    requires
        normal_node(n, d),
        node_text(n, d) is Ok,
        embeds(s, p, node_text(n, d)->Ok_0),
    ensures
        spec_node(s, p + d, d as int) == Ok::<(NodeV, int), FbxError>((n, p + node_text(n, d)->Ok_0.len() - 1)),
    decreases n, 1int,
{
    let t = node_text(n, d)->Ok_0;
    let name = n.name;
    let q0 = p + d;
    let r = node_rest(n, d);
    lemma_node_shape(n, d);
    lemma_embeds_concat(s, p, tabs(d), name + r);
    lemma_embeds_concat(s, q0, name, r);
    let c = q0 + name.len();
    assert(s[c] == r[0]);
    assert(embeds(s, q0, name + seq![0x3au8])) by {
        assert forall|k: int| 0 <= k < (name + seq![0x3au8]).len() implies s[q0 + k] == #[trigger] (name + seq![0x3au8])[k] by {
            if k < name.len() { assert(s[q0 + k] == name[k]); }
        }
    }
    lemma_name_in_context(s, q0, name);
    lemma_trivia_stop(s, c, true);
    if array_form(n) {
        lemma_array_node_rest(s, c, n, d);
    } else {
        lemma_regular_node_rest(s, c, n, d);
    }
}

/// After the name of an array-form node: `: ` and the typed array.
#[verifier::spinoff_prover]
pub proof fn lemma_array_node_rest(s: Seq<u8>, c: int, n: NodeV, d: nat)
    requires
        array_form(n),
        normal_array(n.properties[0]),
        embeds(s, c, node_rest(n, d)),
    ensures
        ({
            let q2 = trivia_end(s, c + 1, false, true);
            &&& 0 <= q2 < s.len() && s[q2] == 0x2a
            &&& spec_array(s, q2) == Ok::<(PropV, int), FbxError>((n.properties[0], c + node_rest(n, d).len() - 1))
            &&& make_node_v(n.name, seq![n.properties[0]], Seq::empty()) == n
        }),
{
    let pr = n.properties[0];
    let pay = array_payload(pr, d);
    lemma_embeds_concat(s, c, seq![0x3au8, 0x20], pay + seq![0x0au8]);
    lemma_embeds_concat(s, c + 2, pay, seq![0x0au8]);
    assert(s[c + 1] == 0x20);
    assert(s[c + 2] == pay[0]);
    lemma_trivia_run(s, c + 1, 1, true);
    lemma_trivia_stop(s, c + 2, true);
    lemma_array_in_context(s, c + 2, pr, d);
    assert(n.properties =~= seq![pr]);
    assert(n.children =~= Seq::<NodeV>::empty());
}

/// After the name of a value-list node: `:`, the values, and the body.
#[verifier::spinoff_prover]
#[verifier::rlimit(60)]
pub proof fn lemma_regular_node_rest(s: Seq<u8>, c: int, n: NodeV, d: nat)
    requires
        !array_form(n),
        normal_node(n, d),
        node_text(n, d) is Ok,
        embeds(s, c, node_rest(n, d)),
        s[c] == 0x3a,
    ensures
        ({
            let q2 = trivia_end(s, c + 1, false, true);
            let has_body = n.children.len() > 0;
            let v = values_text(n.properties, has_body)->Ok_0;
            let e3 = if has_body { c + 1 + v.len() - 1 } else { c + 1 + v.len() };
            &&& 0 <= q2 < s.len() && s[q2] != 0x2a
            &&& spec_value_list(s, q2) == Ok::<(Seq<PropV>, int), FbxError>((n.properties, e3))
            &&& trivia_end(s, e3, false, true) == e3
            &&& 0 <= e3 < s.len()
            &&& (has_body ==> s[e3] == 0x7b && d < max_depth()
                && spec_items(s, e3 + 1, d + 1 as int) == Ok::<(Seq<NodeV>, int), FbxError>((n.children, c + node_rest(n, d).len() - 1))
                && make_node_v(n.name, n.properties, n.children) == n)
            &&& (!has_body ==> s[e3] != 0x7b && e3 == c + node_rest(n, d).len() - 1
                && make_node_v(n.name, n.properties, Seq::empty()) == n)
        }),
    decreases n, 0int,
{
    let has_body = n.children.len() > 0;
    let ps = n.properties;
    if ps.len() > 0 {
        lemma_list_ok(ps);
    }
    let v = values_text(ps, has_body)->Ok_0;
    if has_body {
        lemma_children_ok(n.children, d + 1);
        let cc = children_text(n.children, d + 1)->Ok_0;
        let after = cc + (tabs(d) + seq![0x7du8, 0x0a]);
        lemma_embeds_concat(s, c, seq![0x3au8], v + (seq![0x0au8] + after));
        lemma_embeds_concat(s, c + 1, v, seq![0x0au8] + after);
        lemma_embeds_concat(s, c + 1 + v.len(), seq![0x0au8], after);
        assert(embeds(s, c + 1, v + seq![0x0au8])) by {
            assert forall|k: int| 0 <= k < (v + seq![0x0au8]).len() implies s[c + 1 + k] == #[trigger] (v + seq![0x0au8])[k] by {
                if k < v.len() { assert(s[c + 1 + k] == v[k]); } else { assert(s[c + 1 + v.len()] == seq![0x0au8][0]); }
            }
        }
        lemma_values_in_context(s, c + 1, ps, true);
        let nl = c + 1 + v.len();
        assert(s[nl] == seq![0x0au8][0]);
        assert(embeds(s, nl + 1, cc + tabs(d) + seq![0x7du8])) by {
            assert forall|k: int| 0 <= k < (cc + tabs(d) + seq![0x7du8]).len() implies s[nl + 1 + k] == #[trigger] (cc + tabs(d) + seq![0x7du8])[k] by {
                assert(s[nl + 1 + k] == after[k]);
            }
        }
        lemma_items_in_context(s, nl, n.children, d + 1);
    } else {
        lemma_embeds_concat(s, c, seq![0x3au8], v + seq![0x0au8]);
        lemma_values_in_context(s, c + 1, ps, false);
        assert(n.children =~= Seq::<NodeV>::empty());
    }
}

/// The children printed after a newline at `p`, followed by `d1 - 1`
/// tabs and `}`, read back as themselves.
#[verifier::spinoff_prover]
#[verifier::rlimit(60)]
pub proof fn lemma_items_in_context(s: Seq<u8>, p: int, cs: Seq<NodeV>, d1: nat)
    requires
        d1 >= 1,
        normal_children(cs, d1),
        children_text(cs, d1) is Ok,
        0 <= p < s.len(),
        s[p] == 0x0a,
        embeds(s, p + 1, children_text(cs, d1)->Ok_0 + tabs((d1 - 1) as nat) + seq![0x7du8]),
    ensures
        spec_items(s, p, d1 as int) == Ok::<(Seq<NodeV>, int), FbxError>((cs, p + 1 + children_text(cs, d1)->Ok_0.len() + d1)),
    decreases cs, 0int,
{
    let c = children_text(cs, d1)->Ok_0;
    let rest = c + tabs((d1 - 1) as nat) + seq![0x7du8];
    if cs.len() == 0 {
        assert(c.len() == 0);
        assert forall|k: int| p <= k < p + d1 implies (#[trigger] s[k] == 0x20 || s[k] == 0x09
            || (s[k] == 0x0a || s[k] == 0x0d)) by {
            if k > p { assert(s[k] == rest[k - p - 1]); }
        }
        assert(s[p + d1] == rest[d1 - 1]);
        lemma_trivia_run(s, p, d1 as int, false);
        lemma_trivia_stop(s, p + d1, false);
        assert(cs =~= Seq::<NodeV>::empty());
    } else {
        assert(normal_node(cs[0], d1));
        lemma_node_ok(cs[0], d1);
        let t0 = node_text(cs[0], d1)->Ok_0;
        let tail = cs.drop_first();
        lemma_children_ok(tail, d1);
        let c2 = children_text(tail, d1)->Ok_0;
        assert(rest =~= t0 + (c2 + tabs((d1 - 1) as nat) + seq![0x7du8]));
        lemma_embeds_concat(s, p + 1, t0, c2 + tabs((d1 - 1) as nat) + seq![0x7du8]);
        assert forall|k: int| p <= k < p + 1 + d1 implies (#[trigger] s[k] == 0x20 || s[k] == 0x09
            || (s[k] == 0x0a || s[k] == 0x0d)) by {
            if k > p { assert(s[k] == t0[k - p - 1]); }
        }
        assert(s[p + 1 + d1] == t0[d1 as int]);
        assert(is_identifier(cs[0].name));
        lemma_trivia_run(s, p, 1 + d1 as int, false);
        lemma_trivia_stop(s, p + 1 + d1, false);
        lemma_node_in_context(s, p + 1, cs[0], d1);
        let e = p + t0.len();
        assert(s[e] == t0[t0.len() - 1]);
        lemma_items_in_context(s, e, tail, d1);
        assert(seq![cs[0]] + tail =~= cs);
        assert(c.len() == t0.len() + c2.len());
        assert(trivia_end(s, p, false, false) == p + 1 + d1);
        assert(spec_node(s, p + 1 + d1, d1 as int) == Ok::<(NodeV, int), FbxError>((cs[0], e)));
    }
}

// ---------------------------------------------------------------------
// Documents
// ---------------------------------------------------------------------

/// Top-level nodes printed after a newline at `e`, up to end of input.
#[verifier::spinoff_prover]
#[verifier::rlimit(60)]
pub proof fn lemma_top_in_context(s: Seq<u8>, e: int, cs: Seq<NodeV>)
    requires
        normal_children(cs, 0),
        children_text(cs, 0) is Ok,
        0 <= e < s.len(),
        s[e] == 0x0a,
        embeds(s, e + 1, children_text(cs, 0)->Ok_0),
        e + 1 + children_text(cs, 0)->Ok_0.len() == s.len(),
    ensures
        spec_top(s, e) == Ok::<Seq<NodeV>, FbxError>(cs),
    decreases cs.len(),
{
    let c = children_text(cs, 0)->Ok_0;
    lemma_trivia_run(s, e, 1, false);
    if cs.len() == 0 {
        assert(cs =~= Seq::<NodeV>::empty());
    } else {
        assert(normal_node(cs[0], 0));
        lemma_node_ok(cs[0], 0);
        let t0 = node_text(cs[0], 0)->Ok_0;
        let tail = cs.drop_first();
        lemma_children_ok(tail, 0);
        let c2 = children_text(tail, 0)->Ok_0;
        assert(c =~= t0 + c2);
        lemma_embeds_concat(s, e + 1, t0, c2);
        assert(s[e + 1] == t0[0]);
        assert(is_identifier(cs[0].name));
        lemma_trivia_stop(s, e + 1, false);
        lemma_node_in_context(s, e + 1, cs[0], 0);
        let e2 = e + t0.len();
        assert(s[e2] == t0[t0.len() - 1]);
        lemma_top_in_context(s, e2, tail);
        assert(seq![cs[0]] + tail =~= cs);
    }
}

/// The top-level nodes printed from `p`, up to end of input, after
/// trivia that ends at `p`.
pub proof fn lemma_top_from(s: Seq<u8>, p0: int, p: int, cs: Seq<NodeV>)
    requires
        normal_children(cs, 0),
        children_text(cs, 0) is Ok,
        0 <= p0 <= p,
        trivia_end(s, p0, false, false) == p,
        embeds(s, p, children_text(cs, 0)->Ok_0),
        p + children_text(cs, 0)->Ok_0.len() == s.len(),
    ensures
        spec_top(s, p0) == Ok::<Seq<NodeV>, FbxError>(cs),
{
    let c = children_text(cs, 0)->Ok_0;
    if cs.len() == 0 {
        assert(cs =~= Seq::<NodeV>::empty());
    } else {
        assert(normal_node(cs[0], 0));
        lemma_node_ok(cs[0], 0);
        let t0 = node_text(cs[0], 0)->Ok_0;
        let tail = cs.drop_first();
        lemma_children_ok(tail, 0);
        let c2 = children_text(tail, 0)->Ok_0;
        assert(c =~= t0 + c2);
        lemma_embeds_concat(s, p, t0, c2);
        lemma_node_in_context(s, p, cs[0], 0);
        let e2 = p + t0.len() - 1;
        assert(s[e2] == t0[t0.len() - 1]);
        lemma_embeds_concat(s, p, t0, c2);
        lemma_top_in_context(s, e2, tail);
        assert(seq![cs[0]] + tail =~= cs);
    }
}

/// The first banner line without its newline.
pub open spec fn banner_line(version: u32) -> Seq<u8> {
    seq![0x3bu8, 0x20, 0x46, 0x42, 0x58, 0x20]
        + dec_digits((version / 1000) as nat) + seq![0x2eu8]
        + dec_digits(((version / 100) % 10) as nat) + seq![0x2eu8]
        + dec_digits((version % 100) as nat)
        + seq![0x20u8, 0x70, 0x72, 0x6f, 0x6a, 0x65, 0x63, 0x74, 0x20, 0x66, 0x69, 0x6c, 0x65]
}

pub open spec fn rule_line() -> Seq<u8> {
    seq![0x3bu8, 0x20] + Seq::new(52, |i: int| 0x2du8)
}

/// The banner is two comment lines, skipped as trivia.
pub proof fn lemma_banner_trivia(s: Seq<u8>, version: u32)
    requires
        embeds(s, 0, banner_text(version)),
    ensures
        trivia_end(s, 0, false, false) == trivia_end(s, banner_text(version).len() as int, false, false),
{
    let l1 = banner_line(version);
    let l2 = rule_line();
    let b = banner_text(version);
    assert(b =~= l1 + seq![0x0au8] + l2 + seq![0x0au8]);
    lemma_dec_digits_ascii((version / 1000) as nat);
    lemma_dec_digits_ascii(((version / 100) % 10) as nat);
    lemma_dec_digits_ascii((version % 100) as nat);
    assert forall|k: int| 0 < k < l1.len() implies #[trigger] s[k] != 0x0a by {
        assert(s[k] == b[k]);
        assert(b[k] == l1[k]);
    }
    assert(s[0] == b[0]);
    assert(s[l1.len() as int] == b[l1.len() as int]);
    lemma_trivia_comment(s, 0, l1.len() as int);
    let o = l1.len() + 1;
    assert forall|k: int| o < k < o + l2.len() implies #[trigger] s[k] != 0x0a by {
        assert(s[k] == b[k]);
        assert(b[k] == l2[k - o]);
    }
    let oi = o as int;
    let ei = (o + l2.len()) as int;
    assert(s[oi] == b[oi]);
    assert(s[ei] == b[ei]);
    lemma_trivia_comment(s, oi, ei);
}

/// The first printed node starts with its name.
proof fn lemma_first_name(cs: Seq<NodeV>)
    requires normal_children(cs, 0), cs.len() > 0,
    ensures
        children_text(cs, 0) is Ok,
        children_text(cs, 0)->Ok_0.len() > 0,
        spec_is_ident_start(children_text(cs, 0)->Ok_0[0]),
{
    assert(normal_node(cs[0], 0));
    lemma_node_ok(cs[0], 0);
    lemma_children_ok(cs, 0);
    let t0 = node_text(cs[0], 0)->Ok_0;
    lemma_children_ok(cs.drop_first(), 0);
    assert(children_text(cs, 0)->Ok_0 =~= t0 + children_text(cs.drop_first(), 0)->Ok_0);
    assert(children_text(cs, 0)->Ok_0[0] == t0[0]);
    assert(is_identifier(cs[0].name));
}

/// Without a banner.
#[verifier::spinoff_prover]
proof fn lemma_doc_top_plain(cs: Seq<NodeV>)
    requires normal_children(cs, 0),
    ensures
        children_text(cs, 0) is Ok,
        spec_strip_bom(children_text(cs, 0)->Ok_0) == children_text(cs, 0)->Ok_0,
        spec_top(children_text(cs, 0)->Ok_0, 0) == Ok::<Seq<NodeV>, FbxError>(cs),
{
    lemma_children_ok(cs, 0);
    let c = children_text(cs, 0)->Ok_0;
    assert(embeds(c, 0, c));
    if cs.len() > 0 {
        lemma_first_name(cs);
    }
    lemma_trivia_stop(c, 0, false);
    lemma_top_from(c, 0, 0, cs);
}

/// With the banner.
#[verifier::spinoff_prover]
#[verifier::rlimit(40)]
proof fn lemma_doc_top_banner(cs: Seq<NodeV>, version: u32)
    requires normal_children(cs, 0),
    ensures
        children_text(cs, 0) is Ok,
        spec_strip_bom(banner_text(version) + children_text(cs, 0)->Ok_0) == banner_text(version) + children_text(cs, 0)->Ok_0,
        spec_top(banner_text(version) + children_text(cs, 0)->Ok_0, 0) == Ok::<Seq<NodeV>, FbxError>(cs),
{
    lemma_children_ok(cs, 0);
    let c = children_text(cs, 0)->Ok_0;
    let pre = banner_text(version);
    let t = pre + c;
    assert(embeds(t, 0, t));
    lemma_embeds_concat(t, 0, pre, c);
    lemma_banner_trivia(t, version);
    if cs.len() > 0 {
        lemma_first_name(cs);
        assert(t[pre.len() as int] == c[0]);
    }
    lemma_trivia_stop(t, pre.len() as int, false);
    lemma_top_from(t, 0, pre.len() as int, cs);
    assert(t[0] == pre[0]);
}

/// What the reader makes of the printed form of a normal document: the
/// document itself.
pub proof fn lemma_ascii_round_trip(doc: DocV, banner: bool)
    requires normal_doc(doc),
    ensures
        doc_text(doc, banner) is Ok,
        spec_parse_ascii(doc_text(doc, banner)->Ok_0) == Ok::<DocV, FbxError>(doc),
{
    let cs = doc.root.children;
    if banner {
        lemma_doc_top_banner(cs, doc.version);
    } else {
        lemma_doc_top_plain(cs);
    }
}

// ---------------------------------------------------------------------
// What the reader produces is in normal form
// ---------------------------------------------------------------------

/// An integer with a `.0` fraction is a float token.
pub proof fn lemma_int_dot_zero_token(n: i64)
    ensures is_float_token(dec_int(n as int) + seq![0x2eu8, 0x30]),
{
    let t = dec_int(n as int) + seq![0x2eu8, 0x30];
    let m: nat = if n < 0 { (-n) as nat } else { n as nat };
    let ds = dec_digits(m);
    lemma_dec_digits_ascii(m);
    let a: int = if n < 0 { 1 } else { 0 };
    assert(dec_int(n as int).len() == a + ds.len());
    if n < 0 {
        assert(t[0] == 0x2d);
    } else {
        assert(t[0] == ds[0]);
    }
    assert forall|k: int| a <= k < a + ds.len() implies is_digit(#[trigger] t[k]) by {
        assert(t[k] == dec_int(n as int)[k]);
        assert(dec_int(n as int)[k] == ds[k - a]);
    }
    let b = a + ds.len();
    assert(t[b] == 0x2e);
    assert(t[b + 1] == 0x30);
    lemma_digits_run(t, a, ds.len() as int);
    lemma_digits_run(t, b + 1, 1);
    assert(num_a(t, 0) == a);
    assert(num_b(t, 0) == b);
    assert(num_has_dot(t, 0));
    assert(num_c(t, 0) == b + 2);
    assert(!num_has_exp(t, 0));
    assert(t.subrange(0, t.len() as int) =~= t);
}

/// A float-shaped token cut out of its input is a float token.
#[verifier::spinoff_prover]
#[verifier::rlimit(50)]
pub proof fn lemma_float_cut(s: Seq<u8>, p: int)
    requires spec_numeric(s, p) matches Ok((NumTok::Float(_), _)),
    ensures
        spec_numeric(s, p) matches Ok((NumTok::Float(x), _)) && is_float_token(x),
{
    lemma_numeric_progress(s, p);
    let d = num_d(s, p);
    let t = s.subrange(p, d);
    let n = t.len() as int;
    assert(embeds(s, p, t));
    lemma_digits_end(s, num_a(s, p));
    let b = num_b(s, p);
    if num_has_dot(s, p) { lemma_digits_end(s, b + 1); }
    let c = num_c(s, p);
    if num_has_exp(s, p) {
        let c2 = if c + 1 < s.len() && (s[c + 1] == 0x2b || s[c + 1] == 0x2d) { c + 2 } else { c + 1 };
        lemma_digits_end(s, c2);
    }
    // The byte after the token is not a digit.
    if num_has_exp(s, p) {
        let c2 = if c + 1 < s.len() && (s[c + 1] == 0x2b || s[c + 1] == 0x2d) { c + 2 } else { c + 1 };
        lemma_digits_end_stop(s, c2);
    } else if num_has_dot(s, p) {
        lemma_digits_end_stop(s, b + 1);
    } else {
        lemma_digits_end_stop(s, num_a(s, p));
    }
    assert(p + n == s.len() || !is_digit(s[p + n]));
    assert(t[0] == s[p]);
    assert(num_neg(t, 0) == num_neg(s, p));
    assert(num_a(t, 0) == num_a(s, p) - p);
    lemma_digits_shift(s, t, p, num_a(t, 0));
    assert(num_b(t, 0) == b - p);
    if b < d { assert(t[b - p] == s[b]); }
    assert(num_has_dot(t, 0) == num_has_dot(s, p));
    if num_has_dot(s, p) {
        lemma_digits_shift(s, t, p, b - p + 1);
    }
    assert(num_c(t, 0) == c - p);
    if c < d { assert(t[c - p] == s[c]); }
    assert(num_has_exp(t, 0) == num_has_exp(s, p));
    if num_has_exp(s, p) {
        if c + 1 < d { assert(t[c - p + 1] == s[c + 1]); }
        let c2 = if c + 1 < s.len() && (s[c + 1] == 0x2b || s[c + 1] == 0x2d) { c + 2 } else { c + 1 };
        let c2t = if c - p + 1 < n && (t[c - p + 1] == 0x2b || t[c - p + 1] == 0x2d) { c - p + 2 } else { c - p + 1 };
        assert(c2t == c2 - p);
        lemma_digits_shift(s, t, p, c2 - p);
    }
    assert(num_d(t, 0) == n);
    assert(num_float_ok(t, 0) == num_float_ok(s, p));
    assert(t.subrange(num_a(t, 0), num_b(t, 0)) =~= s.subrange(num_a(s, p), num_b(s, p)));
    assert(t.subrange(0, n) =~= t);
}

pub proof fn lemma_string_cut(s: Seq<u8>, p: int)
    requires string_close(s, p) is Ok,
    ensures
        0 <= p <= string_close(s, p)->Ok_0,
        !s.subrange(p, string_close(s, p)->Ok_0).contains(0x22u8),
        !s.subrange(p, string_close(s, p)->Ok_0).contains(0x0au8),
    decreases s.len() - p,
{
    let q = string_close(s, p)->Ok_0;
    lemma_string_close(s, p);
    assert(0 <= p < s.len());
    if s[p] != 0x22 {
        assert(s[p] != 0x0a);
        assert(string_close(s, p + 1) == string_close(s, p));
        lemma_string_cut(s, p + 1);
        assert(string_close(s, p + 1)->Ok_0 == q);
        assert(p + 1 <= q);
        let b = s.subrange(p, q);
        let b1 = s.subrange(p + 1, q);
        assert(b.len() == b1.len() + 1);
        assert forall|i: int| 0 <= i < b.len() implies b[i] == (seq![s[p]] + b1)[i] by {
            if i > 0 { assert(b1[i - 1] == s[p + i]); }
        }
        assert(b =~= seq![s[p]] + b1);
        if b.contains(0x22u8) {
            let i = choose|i: int| 0 <= i < b.len() && b[i] == 0x22u8;
            if i > 0 { assert(b1[i - 1] == 0x22u8); }
        }
        if b.contains(0x0au8) {
            let i = choose|i: int| 0 <= i < b.len() && b[i] == 0x0au8;
            if i > 0 { assert(b1[i - 1] == 0x0au8); }
        }
    } else {
        assert(s.subrange(p, q).len() == 0);
    }
}

/// A string property holding a carriage return.
pub open spec fn str_has_cr(p: PropV) -> bool {
    p matches PropV::Str(b) && b.contains(0x0du8)
}

/// No string property of the node or its descendants holds a carriage
/// return (the writer refuses those).
pub open spec fn node_cr_free(n: NodeV) -> bool
    decreases n, 1int,
{
    (forall|i: int| 0 <= i < n.properties.len() ==> !str_has_cr(#[trigger] n.properties[i]))
        && children_cr_free(n.children)
}

pub open spec fn children_cr_free(cs: Seq<NodeV>) -> bool
    decreases cs, 0int,
{
    cs.len() == 0 || (node_cr_free(cs[0]) && children_cr_free(cs.drop_first()))
}

pub proof fn lemma_scalar_normal(s: Seq<u8>, p: int)
    requires spec_scalar(s, p) is Ok,
    ensures
        ({
            let v = spec_scalar(s, p)->Ok_0.0;
            !str_has_cr(v) ==> normal_scalar(v)
        }),
{
    if 0 <= p < s.len() {
        if s[p] == 0x22 {
            lemma_string_cut(s, p + 1);
        } else if s[p] == 0x2d || s[p] == 0x2e || is_digit(s[p]) {
            if let Ok((NumTok::Float(x), _)) = spec_numeric(s, p) {
                lemma_float_cut(s, p);
            }
        }
    }
}

pub proof fn lemma_value_list_normal(s: Seq<u8>, p: int)
    requires spec_value_list(s, p) is Ok,
    ensures
        ({
            let vs = spec_value_list(s, p)->Ok_0.0;
            forall|i: int| 0 <= i < vs.len() ==> (!str_has_cr(#[trigger] vs[i]) ==> normal_scalar(vs[i]))
        }),
    decreases s.len() - p,
{
    let q = trivia_end(s, p, false, true);
    if 0 <= q < s.len() && !ends_value_list(s[q]) {
        lemma_scalar_normal(s, q);
        let (v, r) = spec_scalar(s, q)->Ok_0;
        let t = trivia_end(s, r, false, true);
        if 0 <= t < s.len() && s[t] == 0x2c && !(t + 1 <= p || t + 1 > s.len()) {
            lemma_value_list_normal(s, t + 1);
            let vs = spec_value_list(s, t + 1)->Ok_0.0;
            assert forall|i: int| 0 <= i < (seq![v] + vs).len() && !str_has_cr(#[trigger] (seq![v] + vs)[i]) implies normal_scalar((seq![v] + vs)[i]) by {
                if i > 0 { assert((seq![v] + vs)[i] == vs[i - 1]); }
            }
        }
    }
}

/// Every float token lexed by the element reader is a float token on
/// its own.
pub proof fn lemma_elems_normal(s: Seq<u8>, p: int)
    requires spec_elems(s, p) is Ok,
    ensures
        ({
            let ts = spec_elems(s, p)->Ok_0.0;
            forall|i: int| 0 <= i < ts.len() ==> (#[trigger] ts[i] matches NumTok::Float(x) ==> is_float_token(x))
        }),
    decreases s.len() - p,
{
    let (t, d) = spec_numeric(s, p)->Ok_0;
    if t is Float {
        lemma_float_cut(s, p);
    }
    lemma_numeric_progress(s, p);
    let u = trivia_end(s, d, false, false);
    if 0 <= u < s.len() && s[u] == 0x2c {
        let w = trivia_end(s, u + 1, false, false);
        if !(0 <= w < s.len() && s[w] == 0x7d) {
            lemma_trivia_end_ge(s, d, false, false);
            lemma_trivia_end_ge(s, u + 1, false, false);
            lemma_elems_normal(s, w);
            let ts = spec_elems(s, w)->Ok_0.0;
            assert forall|i: int| 0 <= i < (seq![t] + ts).len() implies (#[trigger] (seq![t] + ts)[i] matches NumTok::Float(x) ==> is_float_token(x)) by {
                if i > 0 { assert((seq![t] + ts)[i] == ts[i - 1]); }
            }
        }
    }
}

pub proof fn lemma_array_normal(s: Seq<u8>, p: int)
    requires spec_array(s, p) is Ok,
    ensures
        normal_array(spec_array(s, p)->Ok_0.0),
        is_array_prop(spec_array(s, p)->Ok_0.0),
{
    let (count, e1) = spec_unsigned(s, p + 1)->Ok_0;
    let q = trivia_end(s, e1, false, true);
    let q2 = trivia_end(s, q + 1, false, false);
    let (name, e2) = spec_identifier(s, q2)->Ok_0;
    let q3 = trivia_end(s, e2, false, true);
    let q4 = trivia_end(s, q3 + 1, false, false);
    let toks = if 0 <= q4 < s.len() && s[q4] == 0x7d { Seq::<NumTok>::empty() } else {
        lemma_elems_normal(s, q4);
        spec_elems(s, q4)->Ok_0.0
    };
    assert(forall|i: int| 0 <= i < toks.len() ==> (#[trigger] toks[i] matches NumTok::Float(x) ==> is_float_token(x)));
    let v = array_prop(count, toks)->Ok_0;
    if exists|i: int| 0 <= i < toks.len() && #[trigger] toks[i] is Float {
        let reals = toks.map_values(|t: NumTok| tok_real(t));
        assert forall|i: int| 0 <= i < reals.len() implies normal_real(#[trigger] reals[i]) by {
            match toks[i] {
                NumTok::Int(n) => { lemma_int_dot_zero_token(n); }
                NumTok::Float(x) => {}
            }
        }
    } else if forall|i: int| 0 <= i < toks.len() ==> fits_i32(tok_int(#[trigger] toks[i])) {
    } else {
        let ints = toks.map_values(|t: NumTok| tok_int(t));
        let i = choose|i: int| !(0 <= i < toks.len() ==> fits_i32(tok_int(#[trigger] toks[i])));
        assert(!fits_i32(ints[i]));
    }
}

pub proof fn lemma_identifier_cut(s: Seq<u8>, p: int)
    requires spec_identifier(s, p) is Ok,
    ensures is_identifier(spec_identifier(s, p)->Ok_0.0),
{
    lemma_ident_end(s, p + 1);
    let name = spec_identifier(s, p)->Ok_0.0;
    assert(name[0] == s[p]);
    assert forall|k: int| 1 <= k < name.len() implies spec_is_ident_continue(#[trigger] name[k]) by {
        assert(name[k] == s[p + k]);
    }
}

/// A node the reader produces, its strings free of carriage returns, is
/// in normal form.
#[verifier::spinoff_prover]
#[verifier::rlimit(60)]
pub proof fn lemma_node_normal(s: Seq<u8>, p: int, d: int)
    requires
        0 <= d,
        spec_node(s, p, d) is Ok,
        node_cr_free(spec_node(s, p, d)->Ok_0.0),
    ensures
        normal_node(spec_node(s, p, d)->Ok_0.0, d as nat),
    decreases max_depth() - d, s.len() - p, 0int,
{
    let n = spec_node(s, p, d)->Ok_0.0;
    lemma_identifier_cut(s, p);
    let (name, e1) = spec_identifier(s, p)->Ok_0;
    let q = trivia_end(s, e1, false, true);
    let q2 = trivia_end(s, q + 1, false, true);
    if 0 <= q2 < s.len() && s[q2] == 0x2a {
        lemma_array_normal(s, q2);
        let v = spec_array(s, q2)->Ok_0.0;
        assert(n.properties =~= seq![v]);
        assert(array_form(n));
    } else {
        lemma_value_list_normal(s, q2);
        let (props, e3) = spec_value_list(s, q2)->Ok_0;
        assert(n.properties == props);
        assert forall|i: int| 0 <= i < props.len() implies normal_scalar(#[trigger] props[i]) by {
            assert(!str_has_cr(n.properties[i]));
        }
        if n.properties.len() == 1 {
            assert(normal_scalar(props[0]));
            assert(!is_array_prop(props[0]));
        }
        assert(!array_form(n));
        let q3 = trivia_end(s, e3, false, true);
        if 0 <= q3 < s.len() && s[q3] == 0x7b {
            lemma_items_normal(s, q3 + 1, d + 1);
        }
    }
}

pub proof fn lemma_items_normal(s: Seq<u8>, p: int, d: int)
    requires
        0 <= d,
        spec_items(s, p, d) is Ok,
        children_cr_free(spec_items(s, p, d)->Ok_0.0),
    ensures
        normal_children(spec_items(s, p, d)->Ok_0.0, d as nat),
    decreases max_depth() - d, s.len() - p, 1int,
{
    let q = trivia_end(s, p, false, false);
    if s[q] != 0x7d {
        if 0 <= p <= s.len() {
            lemma_trivia_end_ge(s, p, false, false);
        }
        let (n, e) = spec_node(s, q, d)->Ok_0;
        let cs = spec_items(s, e, d)->Ok_0.0;
        let all = seq![n] + cs;
        assert(all[0] == n);
        assert(all.drop_first() =~= cs);
        lemma_node_normal(s, q, d);
        lemma_items_normal(s, e, d);
    }
}

pub proof fn lemma_top_normal(s: Seq<u8>, p: int)
    requires
        spec_top(s, p) is Ok,
        children_cr_free(spec_top(s, p)->Ok_0),
    ensures
        normal_children(spec_top(s, p)->Ok_0, 0),
    decreases s.len() - p,
{
    let q = trivia_end(s, p, false, false);
    if 0 <= q < s.len() {
        let (n, e) = spec_node(s, q, 0)->Ok_0;
        let cs = spec_top(s, e)->Ok_0;
        let all = seq![n] + cs;
        assert(all[0] == n);
        assert(all.drop_first() =~= cs);
        lemma_node_normal(s, q, 0);
        lemma_top_normal(s, e);
    }
}

/// Parse, print and parse again: when the first parse succeeds and its
/// strings hold no carriage return, the printed text (with or without
/// the banner) parses to the same document.
pub proof fn lemma_parse_write_parse(src: Seq<u8>, banner: bool)
    requires
        spec_parse_ascii(src) is Ok,
        children_cr_free(spec_parse_ascii(src)->Ok_0.root.children),
    ensures
        doc_text(spec_parse_ascii(src)->Ok_0, banner) is Ok,
        spec_parse_ascii(doc_text(spec_parse_ascii(src)->Ok_0, banner)->Ok_0) == spec_parse_ascii(src),
{
    let doc = spec_parse_ascii(src)->Ok_0;
    lemma_top_normal(spec_strip_bom(src), 0);
    assert(normal_doc(doc));
    lemma_ascii_round_trip(doc, banner);
}

} // verus!
