//! ASCII FBX container reader.
//!
//! Parses the text encoding of FBX into the same typed [`FbxNode`] tree
//! the binary reader produces.
//!
//! - A `;` starts a comment that runs to end of line.
//! - Node shape: `Key: <value-list>? { <children> }` (body form) or
//!   `Key: <value-list>` (leaf form); values are comma-separated.
//! - Typed arrays: `Key: *N { a: v1,v2,... }`, an `F64Array` when any
//!   element is float-shaped (has `.`, `e` or `E`), otherwise an
//!   `I32Array` when every element fits in `i32`, else an `I64Array`.
//! - A lone `T` / `F` is a boolean.
//! - The version comes from `FBXHeaderExtension { FBXVersion: N }`,
//!   defaulting to 7400.

use vstd::prelude::*;
use crate::decimal::dec_int;
use crate::error::{AsciiErrorKind, FbxError};
use vstd::string::StringSliceAdditionalSpecFns;
use crate::binary::doc_res_view;
use crate::model::{
    first_named, lemma_nodes_view_len, lemma_nodes_view_push, prop_as_i64, make_node_v, node_view, nodes_view, props_view, reals_view, root_v, DocV, FbxDocument, FbxNode,
    FbxProperty, FbxReal, NodeV, PropV, RealV,
};

verus! {

// ---------------------------------------------------------------------
// Lexical structure
// ---------------------------------------------------------------------

pub open spec fn is_ws(b: u8) -> bool {
    b == 0x20 || b == 0x09 || b == 0x0d || b == 0x0a
}

pub open spec fn is_digit(b: u8) -> bool {
    0x30 <= b <= 0x39
}

pub open spec fn is_alpha(b: u8) -> bool {
    (0x41 <= b <= 0x5a) || (0x61 <= b <= 0x7a)
}

pub open spec fn spec_is_ident_start(b: u8) -> bool {
    is_alpha(b) || b == 0x5f
}

pub open spec fn spec_is_ident_continue(b: u8) -> bool {
    is_alpha(b) || is_digit(b) || b == 0x5f
}

fn is_ident_start(b: u8) -> (r: bool)
    ensures r == spec_is_ident_start(b),
{
    (0x41 <= b && b <= 0x5a) || (0x61 <= b && b <= 0x7a) || b == 0x5f
}

fn is_ident_continue(b: u8) -> (r: bool)
    ensures r == spec_is_ident_continue(b),
{
    (0x41 <= b && b <= 0x5a) || (0x61 <= b && b <= 0x7a) || (0x30 <= b && b <= 0x39) || b == 0x5f
}

/// The input with a leading UTF-8 byte-order mark removed.
pub open spec fn spec_strip_bom(b: Seq<u8>) -> Seq<u8> {
    if b.len() >= 3 && b[0] == 0xef && b[1] == 0xbb && b[2] == 0xbf {
        b.subrange(3, b.len() as int)
    } else {
        b
    }
}

fn strip_bom(bytes: &[u8]) -> (r: &[u8])
    ensures r@ == spec_strip_bom(bytes@),
{
    if bytes.len() >= 3 && bytes[0] == 0xef && bytes[1] == 0xbb && bytes[2] == 0xbf {
        &bytes[3..bytes.len()]
    } else {
        bytes
    }
}

/// End of the run of whitespace bytes starting at `i`.
pub open spec fn ws_end(s: Seq<u8>, i: int) -> int
    decreases s.len() - i,
{
    if 0 <= i < s.len() && is_ws(s[i]) { ws_end(s, i + 1) } else { i }
}

/// Index of the first newline at or after `j` (or the end of input).
pub open spec fn line_end(s: Seq<u8>, j: int) -> int
    decreases s.len() - j,
{
    if 0 <= j < s.len() && s[j] != 0x0a { line_end(s, j + 1) } else { j }
}

/// `s[i..j]` contains the case-sensitive marker `FBX`.
pub open spec fn has_fbx_marker(s: Seq<u8>, i: int, j: int) -> bool {
    exists|k: int| i <= k && k + 3 <= j && #[trigger] s[k] == 0x46 && s[k + 1] == 0x42 && s[k + 2] == 0x58
}

/// The input starts (after an optional BOM and whitespace) with a `;`
/// comment line holding `FBX`.
pub open spec fn spec_is_ascii_fbx(b: Seq<u8>) -> bool {
    let s = spec_strip_bom(b);
    let i = ws_end(s, 0);
    i < s.len() && s[i] == 0x3b && has_fbx_marker(s, i, line_end(s, i + 1))
}

/// `true` when `bytes` looks like an ASCII FBX file: it starts with the
/// `; FBX` banner comment, optionally after a UTF-8 BOM and whitespace.
pub fn is_ascii_fbx(bytes: &[u8]) -> (r: bool)
    ensures r == spec_is_ascii_fbx(bytes@),
{
    let s = strip_bom(bytes);
    let len = s.len();
    let mut i: usize = 0;
    while i < len && (s[i] == 0x20 || s[i] == 0x09 || s[i] == 0x0d || s[i] == 0x0a)
        invariant
            i <= len,
            len == s@.len(),
            ws_end(s@, 0) == ws_end(s@, i as int),
        decreases len - i,
    {
        i += 1;
    }
    assert(ws_end(s@, i as int) == i as int);
    if i >= len || s[i] != 0x3b {
        return false;
    }
    let mut j = i + 1;
    while j < len && s[j] != 0x0a
        invariant
            i < j <= len,
            len == s@.len(),
            line_end(s@, i + 1) == line_end(s@, j as int),
        decreases len - j,
    {
        j += 1;
    }
    assert(line_end(s@, j as int) == j as int);
    let mut k = i;
    while k < j && j - k >= 3
        invariant
            i <= k,
            j <= len,
            j == line_end(s@, i + 1),
            i as int == ws_end(s@, 0),
            i < len,
            s@[i as int] == 0x3b,
            s@ == spec_strip_bom(bytes@),
            len == s@.len(),
            forall|m: int| i <= m < k && m + 3 <= j ==> !(#[trigger] s@[m] == 0x46 && s@[m + 1] == 0x42 && s@[m + 2] == 0x58),
        decreases j - k,
    {
        if s[k] == 0x46 && s[k + 1] == 0x42 && s[k + 2] == 0x58 {
            assert(s@[k as int] == 0x46 && s@[k + 1] == 0x42 && s@[k + 2] == 0x58);
            assert(has_fbx_marker(s@, i as int, j as int));
            assert(i as int == ws_end(s@, 0));
            return true;
        }
        k += 1;
    }
    false
}

/// 1-based line and column of byte offset `p`.
pub open spec fn line_col(s: Seq<u8>, p: int) -> (int, int)
    decreases p,
{
    if p <= 0 {
        (1, 1)
    } else {
        let (l, c) = line_col(s, p - 1);
        if s[p - 1] == 0x0a { (l + 1, 1) } else { (l, c + 1) }
    }
}

pub proof fn lemma_line_col_bounds(s: Seq<u8>, p: int)
    requires 0 <= p,
    ensures 1 <= line_col(s, p).0 <= p + 1, 1 <= line_col(s, p).1 <= p + 1,
    decreases p,
{
    if p > 0 {
        lemma_line_col_bounds(s, p - 1);
    }
}

/// The syntax error `kind` reported at offset `p`.
pub open spec fn err_at(kind: AsciiErrorKind, s: Seq<u8>, p: int) -> FbxError {
    FbxError::Ascii(kind, line_col(s, p).0 as usize, line_col(s, p).1 as usize)
}

/// End of the trivia (whitespace and `;` comments) starting at `p`.
/// `c` means "inside a comment"; `inline` keeps newlines significant.
pub open spec fn trivia_end(s: Seq<u8>, p: int, c: bool, inline: bool) -> int
    decreases s.len() - p, (if c { 1int } else { 0int }),
{
    if p < 0 || p >= s.len() {
        p
    } else if c {
        if s[p] == 0x0a { trivia_end(s, p, false, inline) } else { trivia_end(s, p + 1, true, inline) }
    } else if s[p] == 0x20 || s[p] == 0x09 || (!inline && (s[p] == 0x0d || s[p] == 0x0a)) {
        trivia_end(s, p + 1, false, inline)
    } else if s[p] == 0x3b {
        trivia_end(s, p + 1, true, inline)
    } else {
        p
    }
}

pub proof fn lemma_trivia_end_ge(s: Seq<u8>, p: int, c: bool, inline: bool)
    requires 0 <= p <= s.len(),
    ensures p <= trivia_end(s, p, c, inline) <= s.len(),
    decreases s.len() - p, (if c { 1int } else { 0int }),
{
    if p < s.len() {
        if c {
            if s[p] == 0x0a { lemma_trivia_end_ge(s, p, false, inline); } else { lemma_trivia_end_ge(s, p + 1, true, inline); }
        } else if s[p] == 0x20 || s[p] == 0x09 || (!inline && (s[p] == 0x0d || s[p] == 0x0a)) {
            lemma_trivia_end_ge(s, p + 1, false, inline);
        } else if s[p] == 0x3b {
            lemma_trivia_end_ge(s, p + 1, true, inline);
        }
    }
}

/// End of the run of identifier-continue bytes starting at `p`.
pub open spec fn ident_end(s: Seq<u8>, p: int) -> int
    decreases s.len() - p,
{
    if 0 <= p < s.len() && spec_is_ident_continue(s[p]) { ident_end(s, p + 1) } else { p }
}

pub proof fn lemma_ident_end(s: Seq<u8>, p: int)
    requires 0 <= p <= s.len(),
    ensures
        p <= ident_end(s, p) <= s.len(),
        forall|k: int| p <= k < ident_end(s, p) ==> spec_is_ident_continue(#[trigger] s[k]),
    decreases s.len() - p,
{
    if p < s.len() && spec_is_ident_continue(s[p]) {
        lemma_ident_end(s, p + 1);
    }
}

/// End of the run of decimal digits starting at `p`.
pub open spec fn digits_end(s: Seq<u8>, p: int) -> int
    decreases s.len() - p,
{
    if 0 <= p < s.len() && is_digit(s[p]) { digits_end(s, p + 1) } else { p }
}

pub proof fn lemma_digits_end(s: Seq<u8>, p: int)
    requires 0 <= p <= s.len(),
    ensures
        p <= digits_end(s, p) <= s.len(),
        forall|k: int| p <= k < digits_end(s, p) ==> is_digit(#[trigger] s[k]),
    decreases s.len() - p,
{
    if p < s.len() && is_digit(s[p]) {
        lemma_digits_end(s, p + 1);
    }
}

/// Value of a run of decimal digits.
pub open spec fn dec_value(d: Seq<u8>) -> int
    decreases d.len(),
{
    if d.len() == 0 { 0 } else { dec_value(d.drop_last()) * 10 + (d.last() - 0x30) }
}

pub proof fn lemma_dec_value_nonneg(d: Seq<u8>)
    requires forall|k: int| 0 <= k < d.len() ==> is_digit(#[trigger] d[k]),
    ensures dec_value(d) >= 0,
    decreases d.len(),
{
    if d.len() > 0 {
        lemma_dec_value_nonneg(d.drop_last());
    }
}

pub proof fn lemma_dec_value_mono(d: Seq<u8>, n: int)
    requires
        0 <= n <= d.len(),
        forall|k: int| 0 <= k < d.len() ==> is_digit(#[trigger] d[k]),
    ensures dec_value(d.subrange(0, n)) <= dec_value(d),
    decreases d.len() - n,
{
    if n < d.len() {
        lemma_dec_value_mono(d, n + 1);
        assert(d.subrange(0, n + 1).drop_last() =~= d.subrange(0, n));
        lemma_dec_value_nonneg(d.subrange(0, n));
    } else {
        assert(d.subrange(0, n) =~= d);
    }
}

/// A lexed numeric token: an integer that fits `i64`, or the lexeme of
/// a float-shaped (or `i64`-overflowing) token.
pub enum NumTok {
    Int(i64),
    Float(Seq<u8>),
}

/// End of an exponent part (`e`/`E`, optional sign, digits) starting at
/// `c`, and whether it has at least one digit.
pub open spec fn exp_end(s: Seq<u8>, c: int) -> (int, bool) {
    let c2 = if c + 1 < s.len() && (s[c + 1] == 0x2b || s[c + 1] == 0x2d) { c + 2 } else { c + 1 };
    (digits_end(s, c2), digits_end(s, c2) > c2)
}

pub open spec fn num_neg(s: Seq<u8>, p: int) -> bool {
    0 <= p < s.len() && s[p] == 0x2d
}

pub open spec fn num_a(s: Seq<u8>, p: int) -> int {
    if num_neg(s, p) { p + 1 } else { p }
}

pub open spec fn num_b(s: Seq<u8>, p: int) -> int {
    digits_end(s, num_a(s, p))
}

pub open spec fn num_has_dot(s: Seq<u8>, p: int) -> bool {
    0 <= num_b(s, p) < s.len() && s[num_b(s, p)] == 0x2e
}

pub open spec fn num_c(s: Seq<u8>, p: int) -> int {
    if num_has_dot(s, p) { digits_end(s, num_b(s, p) + 1) } else { num_b(s, p) }
}

pub open spec fn num_has_exp(s: Seq<u8>, p: int) -> bool {
    0 <= num_c(s, p) < s.len() && (s[num_c(s, p)] == 0x65 || s[num_c(s, p)] == 0x45)
}

pub open spec fn num_d(s: Seq<u8>, p: int) -> int {
    if num_has_exp(s, p) { exp_end(s, num_c(s, p)).0 } else { num_c(s, p) }
}

/// The float-shaped token is a valid decimal float: it has a digit
/// before or after the point, and an exponent, when present, has digits.
pub open spec fn num_float_ok(s: Seq<u8>, p: int) -> bool {
    (num_b(s, p) > num_a(s, p) || num_c(s, p) > num_b(s, p) + 1)
        && (!num_has_exp(s, p) || exp_end(s, num_c(s, p)).1)
}

/// The numeric token at `p`: `-? digits? (. digits?)? ([eE] [+-]? digits?)?`.
pub open spec fn spec_numeric(s: Seq<u8>, p: int) -> Result<(NumTok, int), FbxError> {
    let d = num_d(s, p);
    if num_b(s, p) == num_a(s, p) && !num_has_dot(s, p) {
        Err(err_at(AsciiErrorKind::ExpectedNumericToken, s, d))
    } else if num_has_dot(s, p) || num_has_exp(s, p) {
        if num_float_ok(s, p) {
            Ok((NumTok::Float(s.subrange(p, d)), d))
        } else {
            Err(FbxError::AsciiBadFloat)
        }
    } else {
        let v = dec_value(s.subrange(num_a(s, p), num_b(s, p)));
        if num_neg(s, p) && v <= 0x8000_0000_0000_0000 {
            Ok((NumTok::Int((-v) as i64), d))
        } else if !num_neg(s, p) && v <= 0x7fff_ffff_ffff_ffff {
            Ok((NumTok::Int(v as i64), d))
        } else {
            Ok((NumTok::Float(s.subrange(p, d)), d))
        }
    }
}

/// The unsigned integer at `p` (the typed-array count).
pub open spec fn spec_unsigned(s: Seq<u8>, p: int) -> Result<(u64, int), FbxError> {
    let e = digits_end(s, p);
    if e == p {
        Err(err_at(AsciiErrorKind::ExpectedUnsignedInteger, s, p))
    } else if dec_value(s.subrange(p, e)) > u64::MAX {
        Err(FbxError::AsciiBadUnsignedInteger)
    } else {
        Ok((dec_value(s.subrange(p, e)) as u64, e))
    }
}

/// The identifier at `p`.
pub open spec fn spec_identifier(s: Seq<u8>, p: int) -> Result<(Seq<u8>, int), FbxError> {
    if 0 <= p < s.len() && spec_is_ident_start(s[p]) {
        Ok((s.subrange(p, ident_end(s, p + 1)), ident_end(s, p + 1)))
    } else {
        Err(err_at(AsciiErrorKind::ExpectedIdentifier, s, p))
    }
}

/// Offset of the closing quote of a string whose body starts at `p`.
pub open spec fn string_close(s: Seq<u8>, p: int) -> Result<int, FbxError>
    decreases s.len() - p,
{
    if p < 0 || p >= s.len() {
        Err(err_at(AsciiErrorKind::UnterminatedStringAtEof, s, p))
    } else if s[p] == 0x22 {
        Ok(p)
    } else if s[p] == 0x0a {
        Err(err_at(AsciiErrorKind::UnterminatedStringAtNewline, s, p))
    } else {
        string_close(s, p + 1)
    }
}

// ---------------------------------------------------------------------
// Character-level parser
// ---------------------------------------------------------------------

/// Streaming character-level parser tracking a 1-based line and column.
struct Parser<'a> {
    src: &'a [u8],
    pos: usize,
    line: usize,
    col: usize,
}

impl<'a> Parser<'a> {
    closed spec fn src_view(&self) -> Seq<u8> {
        self.src@
    }

    closed spec fn pos_view(&self) -> int {
        self.pos as int
    }

    closed spec fn wf(&self) -> bool {
        &&& self.pos <= self.src@.len()
        &&& self.src@.len() <= isize::MAX
        &&& line_col(self.src@, self.pos as int) == (self.line as int, self.col as int)
    }

    /// A parser at the start of `src`.
    fn new(src: &'a [u8]) -> (p: Self)
        requires src@.len() <= isize::MAX,
        ensures p.wf(), p.src_view() == src@, p.pos_view() == 0,
    {
        Parser { src, pos: 0, line: 1, col: 1 }
    }

    fn eof(&self) -> (r: bool)
        requires self.wf(),
        ensures r == (self.pos >= self.src@.len()),
    {
        self.pos >= self.src.len()
    }

    fn peek(&self) -> (r: Option<u8>)
        requires self.wf(),
        ensures r == (if self.pos < self.src@.len() { Some(self.src@[self.pos as int]) } else { None::<u8> }),
    {
        if self.pos < self.src.len() { Some(self.src[self.pos]) } else { None }
    }

    fn peek_at(&self, off: usize) -> (r: Option<u8>)
        requires self.wf(), off <= 1,
        ensures
            r == (if self.pos + off < self.src@.len() { Some(self.src@[self.pos + off]) } else { None::<u8> }),
    {
        if self.pos + off < self.src.len() { Some(self.src[self.pos + off]) } else { None }
    }

    fn bump(&mut self) -> (r: Option<u8>)
        requires old(self).wf(),
        ensures
            final(self).wf(),
            final(self).src_view() == old(self).src_view(),
            old(self).pos < old(self).src@.len() ==> r == Some(old(self).src@[old(self).pos as int])
                && final(self).pos == old(self).pos + 1,
            old(self).pos >= old(self).src@.len() ==> r is None && final(self).pos == old(self).pos,
    {
        if self.pos >= self.src.len() {
            return None;
        }
        let b = self.src[self.pos];
        proof { lemma_line_col_bounds(self.src@, self.pos as int); }
        self.pos += 1;
        if b == 0x0a {
            self.line += 1;
            self.col = 1;
        } else {
            self.col += 1;
        }
        Some(b)
    }

    /// The syntax error `kind` at the current position.
    fn err(&self, kind: AsciiErrorKind) -> (e: FbxError)
        requires self.wf(),
        ensures e == err_at(kind, self.src@, self.pos as int),
    {
        FbxError::Ascii(kind, self.line, self.col)
    }

    fn skip(&mut self, inline: bool)
        requires old(self).wf(),
        ensures
            final(self).wf(),
            final(self).src_view() == old(self).src_view(),
            final(self).pos == trivia_end(old(self).src@, old(self).pos as int, false, inline),
    {
        let mut in_comment = false;
        loop
            invariant
                self.wf(),
                self.src@ == old(self).src@,
                old(self).pos <= self.pos,
                trivia_end(self.src@, old(self).pos as int, false, inline)
                    == trivia_end(self.src@, self.pos as int, in_comment, inline),
            decreases self.src@.len() - self.pos, (if in_comment { 1int } else { 0int }),
        {
            match self.peek() {
                None => { return; }
                Some(b) => {
                    if in_comment {
                        if b == 0x0a {
                            in_comment = false;
                        } else {
                            self.bump();
                        }
                    } else if b == 0x20 || b == 0x09 || (!inline && (b == 0x0d || b == 0x0a)) {
                        self.bump();
                    } else if b == 0x3b {
                        self.bump();
                        in_comment = true;
                    } else {
                        return;
                    }
                }
            }
        }
    }

    /// Skip whitespace (newlines included) and `;` comments.
    fn skip_trivia(&mut self)
        requires old(self).wf(),
        ensures
            final(self).wf(),
            final(self).src_view() == old(self).src_view(),
            final(self).pos == trivia_end(old(self).src@, old(self).pos as int, false, false),
    {
        self.skip(false)
    }

    /// Skip spaces, tabs and `;` comments without crossing a newline.
    fn skip_inline_trivia(&mut self)
        requires old(self).wf(),
        ensures
            final(self).wf(),
            final(self).src_view() == old(self).src_view(),
            final(self).pos == trivia_end(old(self).src@, old(self).pos as int, false, true),
    {
        self.skip(true)
    }

    /// `true` when the byte after the current one is not part of a
    /// larger identifier (a lone `T` / `F` token).
    fn is_bare_letter(&self) -> (r: bool)
        requires self.wf(),
        ensures
            r == (self.pos + 1 >= self.src@.len() || !spec_is_ident_continue(self.src@[self.pos + 1])),
    {
        match self.peek_at(1) {
            None => true,
            Some(b) => !is_ident_continue(b),
        }
    }

    fn advance_while_digits(&mut self)
        requires old(self).wf(),
        ensures
            final(self).wf(),
            final(self).src_view() == old(self).src_view(),
            final(self).pos == digits_end(old(self).src@, old(self).pos as int),
    {
        loop
            invariant
                self.wf(),
                self.src@ == old(self).src@,
                old(self).pos <= self.pos,
                digits_end(self.src@, old(self).pos as int) == digits_end(self.src@, self.pos as int),
            decreases self.src@.len() - self.pos,
        {
            match self.peek() {
                Some(b) => {
                    if 0x30 <= b && b <= 0x39 {
                        self.bump();
                    } else {
                        return;
                    }
                }
                None => { return; }
            }
        }
    }

    fn parse_identifier(&mut self) -> (r: Result<String, FbxError>)
        requires old(self).wf(),
        ensures
            final(self).wf(),
            final(self).src_view() == old(self).src_view(),
            match (r, spec_identifier(old(self).src@, old(self).pos as int)) {
                (Ok(name), Ok((sname, e))) => vstd::utf8::encode_utf8(name@) == sname && final(self).pos == e
                    && old(self).pos < e,
                (Err(e), Err(se)) => e == se,
                _ => false,
            },
    {
        let start = self.pos;
        match self.peek() {
            Some(b) => {
                if !is_ident_start(b) {
                    return Err(self.err(AsciiErrorKind::ExpectedIdentifier));
                }
            }
            None => { return Err(self.err(AsciiErrorKind::ExpectedIdentifier)); }
        }
        self.bump();
        while self.pos < self.src.len() && is_ident_continue(self.src[self.pos])
            invariant
                self.wf(),
                self.src@ == old(self).src@,
                start < self.pos,
                start == old(self).pos,
                ident_end(self.src@, start + 1) == ident_end(self.src@, self.pos as int),
                forall|k: int| start < k < self.pos ==> spec_is_ident_continue(#[trigger] self.src@[k]),
                spec_is_ident_start(self.src@[start as int]),
            decreases self.src@.len() - self.pos,
        {
            self.bump();
        }
        assert(ident_end(self.src@, self.pos as int) == self.pos as int);
        let slice = &self.src[start..self.pos];
        proof {
            assert forall|k: int| 0 <= k < slice@.len() implies #[trigger] slice@[k] < 128 by {
                assert(slice@[k] == self.src@[start + k]);
            }
        }
        let name = ascii_string(slice);
        Ok(name)
    }

    /// Parse a `"..."` string into its raw bytes (no escapes).
    fn parse_string(&mut self) -> (r: Result<Vec<u8>, FbxError>)
        requires
            old(self).wf(),
            old(self).pos < old(self).src@.len(),
            old(self).src@[old(self).pos as int] == 0x22,
        ensures
            final(self).wf(),
            final(self).src_view() == old(self).src_view(),
            match (r, string_close(old(self).src@, old(self).pos + 1)) {
                (Ok(v), Ok(q)) => v@ == old(self).src@.subrange(old(self).pos + 1, q) && final(self).pos == q + 1
                    && old(self).pos < q + 1,
                (Err(e), Err(se)) => e == se,
                _ => false,
            },
    {
        self.bump();
        let start = self.pos;
        loop
            invariant
                self.wf(),
                self.src@ == old(self).src@,
                start == old(self).pos + 1,
                start <= self.pos,
                string_close(self.src@, start as int) == string_close(self.src@, self.pos as int),
            decreases self.src@.len() - self.pos,
        {
            match self.peek() {
                Some(b) => {
                    if b == 0x22 {
                        let bytes = crate::bytes::copy_range(self.src, start, self.pos - start);
                        self.bump();
                        return Ok(bytes);
                    }
                    if b == 0x0a {
                        return Err(self.err(AsciiErrorKind::UnterminatedStringAtNewline));
                    }
                    self.bump();
                }
                None => {
                    return Err(self.err(AsciiErrorKind::UnterminatedStringAtEof));
                }
            }
        }
    }
}

/// A lexed numeric token (executable form).
enum Num {
    Int(i64),
    Float(Vec<u8>),
}

spec fn num_view(n: Num) -> NumTok {
    match n {
        Num::Int(v) => NumTok::Int(v),
        Num::Float(t) => NumTok::Float(t@),
    }
}

spec fn num_res_view(r: Result<Num, FbxError>, pos: int) -> Result<(NumTok, int), FbxError> {
    match r {
        Ok(n) => Ok((num_view(n), pos)),
        Err(e) => Err(e),
    }
}

/// The value of `bytes[a..b]` (all digits) when it fits in `u64`.
pub fn digits_value_slice(bytes: &[u8], a: usize, b: usize) -> (r: Option<u64>)
    requires
        a <= b <= bytes@.len(),
        forall|k: int| a <= k < b ==> is_digit(#[trigger] bytes@[k]),
    ensures
        dec_value(bytes@.subrange(a as int, b as int)) >= 0,
        dec_value(bytes@.subrange(a as int, b as int)) <= u64::MAX ==> r == Some(dec_value(bytes@.subrange(a as int, b as int)) as u64),
        dec_value(bytes@.subrange(a as int, b as int)) > u64::MAX ==> r is None,
{
    let mut acc: u64 = 0;
    let mut i = a;
    proof {
        assert(bytes@.subrange(a as int, a as int) =~= Seq::<u8>::empty());
        lemma_dec_value_nonneg(bytes@.subrange(a as int, b as int));
    }
    while i < b
        invariant
            a <= i <= b,
            b <= bytes@.len(),
            forall|k: int| a <= k < b ==> is_digit(#[trigger] bytes@[k]),
            acc as int == dec_value(bytes@.subrange(a as int, i as int)),
        decreases b - i,
    {
        let d = (bytes[i] - 0x30) as u64;
        let ghost pre = bytes@.subrange(a as int, i as int);
        proof {
            assert(bytes@.subrange(a as int, i + 1).drop_last() =~= pre);
            assert(is_digit(bytes@[i as int]));
        }
        let next = match acc.checked_mul(10) {
            Some(x) => match x.checked_add(d) {
                Some(y) => y,
                None => {
                    proof {
                        lemma_dec_value_mono(bytes@.subrange(a as int, b as int), i + 1 - a);
                        assert(bytes@.subrange(a as int, b as int).subrange(0, i + 1 - a) =~= bytes@.subrange(a as int, i + 1));
                    }
                    return None;
                }
            },
            None => {
                proof {
                    lemma_dec_value_nonneg(pre);
                    lemma_dec_value_mono(bytes@.subrange(a as int, b as int), i + 1 - a);
                    assert(bytes@.subrange(a as int, b as int).subrange(0, i + 1 - a) =~= bytes@.subrange(a as int, i + 1));
                }
                return None;
            }
        };
        acc = next;
        i += 1;
    }
    Some(acc)
}

impl<'a> Parser<'a> {
    /// Lex a numeric token and classify it as an `i64` integer or a
    /// float lexeme by its shape.
    fn parse_numeric_token(&mut self) -> (r: Result<Num, FbxError>)
        requires old(self).wf(),
        ensures
            final(self).wf(),
            final(self).src_view() == old(self).src_view(),
            num_res_view(r, final(self).pos as int) == spec_numeric(old(self).src@, old(self).pos as int),
            r is Ok ==> old(self).pos < final(self).pos,
    {
        let ghost s = self.src@;
        let start = self.pos;
        let ghost p = start as int;
        let neg = self.peek() == Some(0x2du8);
        if neg {
            self.bump();
        }
        let a = self.pos;
        self.advance_while_digits();
        let b = self.pos;
        proof { lemma_digits_end(s, a as int); }
        let has_dot = self.peek() == Some(0x2eu8);
        if has_dot {
            self.bump();
            self.advance_while_digits();
            proof { lemma_digits_end(s, b + 1); }
        }
        let c = self.pos;
        let pk = self.peek();
        let has_exp = pk == Some(0x65u8) || pk == Some(0x45u8);
        let mut exp_digits = true;
        if has_exp {
            self.bump();
            let sg = self.peek();
            if sg == Some(0x2bu8) || sg == Some(0x2du8) {
                self.bump();
            }
            let c2 = self.pos;
            self.advance_while_digits();
            proof { lemma_digits_end(s, c2 as int); }
            exp_digits = self.pos > c2;
        }
        let d = self.pos;
        assert(neg == num_neg(s, p));
        assert(a as int == num_a(s, p));
        assert(b as int == num_b(s, p));
        assert(has_dot == num_has_dot(s, p));
        assert(c as int == num_c(s, p));
        assert(has_exp == num_has_exp(s, p));
        assert(d as int == num_d(s, p));
        if b == a && !has_dot {
            return Err(self.err(AsciiErrorKind::ExpectedNumericToken));
        }
        if has_dot || has_exp {
            if (b > a || c > b + 1) && (!has_exp || exp_digits) {
                let lexeme = crate::bytes::copy_range(self.src, start, d - start);
                return Ok(Num::Float(lexeme));
            } else {
                return Err(FbxError::AsciiBadFloat);
            }
        }
        let dv = digits_value_slice(self.src, a, b);
        let ghost sv = dec_value(s.subrange(a as int, b as int));
        assert(!num_has_dot(s, p) && !num_has_exp(s, p));
        assert(num_b(s, p) != num_a(s, p));
        match dv {
            Some(v) => {
                assert(v as int == sv);
                if neg && v <= 0x8000_0000_0000_0000 {
                    let n: i64 = if v == 0x8000_0000_0000_0000 { i64::MIN } else { -(v as i64) };
                    assert(n == (-sv) as i64);
                    assert(spec_numeric(s, p) == Ok::<(NumTok, int), FbxError>((NumTok::Int(n), d as int)));
                    Ok(Num::Int(n))
                } else if !neg && v <= 0x7fff_ffff_ffff_ffff {
                    Ok(Num::Int(v as i64))
                } else {
                    let lexeme = crate::bytes::copy_range(self.src, start, d - start);
                    Ok(Num::Float(lexeme))
                }
            }
            None => {
                let lexeme = crate::bytes::copy_range(self.src, start, d - start);
                Ok(Num::Float(lexeme))
            }
        }
    }

    /// Lex an unsigned integer (the typed-array count).
    fn parse_unsigned_integer(&mut self) -> (r: Result<u64, FbxError>)
        requires old(self).wf(),
        ensures
            final(self).wf(),
            final(self).src_view() == old(self).src_view(),
            match (r, spec_unsigned(old(self).src@, old(self).pos as int)) {
                (Ok(v), Ok((sv, e))) => v == sv && final(self).pos == e,
                (Err(e), Err(se)) => e == se,
                _ => false,
            },
    {
        let start = self.pos;
        self.advance_while_digits();
        proof { lemma_digits_end(self.src@, start as int); }
        if self.pos == start {
            return Err(self.err(AsciiErrorKind::ExpectedUnsignedInteger));
        }
        match digits_value_slice(self.src, start, self.pos) {
            Some(v) => Ok(v),
            None => Err(FbxError::AsciiBadUnsignedInteger),
        }
    }
}

// ---------------------------------------------------------------------
// Values
// ---------------------------------------------------------------------

/// `true` when the byte after `p` does not continue an identifier.
pub open spec fn bare_letter_at(s: Seq<u8>, p: int) -> bool {
    p + 1 >= s.len() || !spec_is_ident_continue(s[p + 1])
}

/// One scalar value at `p`: a quoted string, a number, or a bare
/// `T` / `F` boolean.
pub open spec fn spec_scalar(s: Seq<u8>, p: int) -> Result<(PropV, int), FbxError> {
    if p < 0 || p >= s.len() {
        Err(err_at(AsciiErrorKind::UnexpectedEofInScalar, s, p))
    } else if s[p] == 0x22 {
        match string_close(s, p + 1) {
            Err(e) => Err(e),
            Ok(q) => Ok((PropV::Str(s.subrange(p + 1, q)), q + 1)),
        }
    } else if s[p] == 0x2d || s[p] == 0x2e || is_digit(s[p]) {
        match spec_numeric(s, p) {
            Err(e) => Err(e),
            Ok((NumTok::Int(n), d)) => Ok((PropV::I64(n), d)),
            Ok((NumTok::Float(t), d)) => Ok((PropV::F64(RealV::Text(t)), d)),
        }
    } else if (s[p] == 0x54 || s[p] == 0x46) && bare_letter_at(s, p) {
        Ok((PropV::Bool(s[p] == 0x54), p + 1))
    } else {
        Err(err_at(AsciiErrorKind::UnexpectedScalarByte, s, p))
    }
}

/// `true` when a value list ends before byte `b`.
pub open spec fn ends_value_list(b: u8) -> bool {
    b == 0x0a || b == 0x0d || b == 0x7b || b == 0x7d
}

/// A comma-separated value list at `p` (possibly empty): the values and
/// the offset after the trailing inline trivia.
pub open spec fn spec_value_list(s: Seq<u8>, p: int) -> Result<(Seq<PropV>, int), FbxError>
    decreases s.len() - p,
{
    let q = trivia_end(s, p, false, true);
    if q < 0 || q >= s.len() || ends_value_list(s[q]) {
        Ok((Seq::empty(), q))
    } else {
        match spec_scalar(s, q) {
            Err(e) => Err(e),
            Ok((v, r)) => {
                let t = trivia_end(s, r, false, true);
                if 0 <= t < s.len() && s[t] == 0x2c {
                    if t + 1 <= p || t + 1 > s.len() {
                        Err(FbxError::AsciiBadFloat)
                    } else {
                        match spec_value_list(s, t + 1) {
                            Err(e) => Err(e),
                            Ok((vs, e2)) => Ok((seq![v] + vs, e2)),
                        }
                    }
                } else {
                    Ok((seq![v], t))
                }
            },
        }
    }
}

impl<'a> Parser<'a> {
    fn parse_scalar_value(&mut self) -> (r: Result<FbxProperty, FbxError>)
        requires old(self).wf(),
        ensures
            final(self).wf(),
            final(self).src_view() == old(self).src_view(),
            match (r, spec_scalar(old(self).src@, old(self).pos as int)) {
                (Ok(v), Ok((sv, e))) => v.view_prop() == sv && final(self).pos == e && old(self).pos < e,
                (Err(e), Err(se)) => e == se,
                _ => false,
            },
    {
        let ghost s = self.src@;
        let ghost p = self.pos as int;
        match self.peek() {
            Some(b) => {
                if b == 0x22 {
                    let r = self.parse_string();
                    match r {
                        Ok(v) => {
                            assert(spec_scalar(s, p) == match string_close(s, p + 1) {
                                Err(e) => Err(e),
                                Ok(q) => Ok((PropV::Str(s.subrange(p + 1, q)), q + 1)),
                            });
                            Ok(FbxProperty::String(v))
                        }
                        Err(e) => Err(e),
                    }
                } else if b == 0x2d || b == 0x2e || (0x30 <= b && b <= 0x39) {
                    let tok = self.parse_numeric_token();
                    match tok {
                        Ok(Num::Int(n)) => Ok(FbxProperty::I64(n)),
                        Ok(Num::Float(t)) => {
                            let r = FbxProperty::F64(FbxReal::Text(t));
                            assert(r.view_prop() == PropV::F64(RealV::Text(t@)));
                            Ok(r)
                        }
                        Err(e) => Err(e),
                    }
                } else if b == 0x54 && self.is_bare_letter() {
                    self.bump();
                    Ok(FbxProperty::Bool(true))
                } else if b == 0x46 && self.is_bare_letter() {
                    self.bump();
                    Ok(FbxProperty::Bool(false))
                } else {
                    Err(self.err(AsciiErrorKind::UnexpectedScalarByte))
                }
            }
            None => Err(self.err(AsciiErrorKind::UnexpectedEofInScalar)),
        }
    }

    /// Parse zero or more comma-separated scalar values.
    fn parse_value_list(&mut self) -> (r: Result<Vec<FbxProperty>, FbxError>)
        requires old(self).wf(),
        ensures
            final(self).wf(),
            final(self).src_view() == old(self).src_view(),
            match (r, spec_value_list(old(self).src@, old(self).pos as int)) {
                (Ok(vs), Ok((svs, e))) => props_view(vs@) == svs && final(self).pos == e,
                (Err(e), Err(se)) => e == se,
                _ => false,
            },
    {
        let ghost s = self.src@;
        let ghost p0 = self.pos as int;
        let mut out: Vec<FbxProperty> = Vec::new();
        proof { assert(props_view(out@) =~= Seq::<PropV>::empty()); }
        loop
            invariant
                self.wf(),
                self.src@ == s,
                p0 <= self.pos,
                s == old(self).src@,
                p0 == old(self).pos,
                spec_value_list(s, p0) == prepend_props_at(props_view(out@), spec_value_list(s, self.pos as int)),
            decreases s.len() - self.pos,
        {
            let ghost p = self.pos as int;
            self.skip_inline_trivia();
            proof { lemma_trivia_end_ge(s, p, false, true); }
            match self.peek() {
                None => {
                    proof { assert(props_view(out@) + Seq::<PropV>::empty() =~= props_view(out@)); }
                    return Ok(out);
                }
                Some(b) => {
                    if b == 0x0a || b == 0x0d || b == 0x7b || b == 0x7d {
                        proof { assert(props_view(out@) + Seq::<PropV>::empty() =~= props_view(out@)); }
                        return Ok(out);
                    }
                }
            }
            let v = match self.parse_scalar_value() {
                Ok(v) => v,
                Err(e) => { return Err(e); }
            };
            let ghost old_out = out@;
            out.push(v);
            proof { assert(props_view(out@) =~= props_view(old_out).push(v.view_prop())); }
            let ghost r = self.pos as int;
            self.skip_inline_trivia();
            proof { lemma_trivia_end_ge(s, r, false, true); }
            if self.peek() == Some(0x2cu8) {
                self.bump();
                proof {
                    match spec_value_list(s, self.pos as int) {
                        Ok((vs, e2)) => {
                            assert(props_view(old_out) + (seq![v.view_prop()] + vs) =~= props_view(out@) + vs);
                        }
                        Err(_) => {}
                    }
                }
            } else {
                proof {
                    assert(props_view(old_out) + seq![v.view_prop()] =~= props_view(out@));
                }
                return Ok(out);
            }
        }
    }
}

pub open spec fn prepend_props_at(acc: Seq<PropV>, r: Result<(Seq<PropV>, int), FbxError>) -> Result<(Seq<PropV>, int), FbxError> {
    match r {
        Ok((vs, e)) => Ok((acc + vs, e)),
        Err(e) => Err(e),
    }
}

/// A string made of ASCII bytes.
fn ascii_string(bytes: &[u8]) -> (s: String)
    requires forall|k: int| 0 <= k < bytes@.len() ==> #[trigger] bytes@[k] < 128,
    ensures vstd::utf8::encode_utf8(s@) == bytes@,
{
    let s = crate::text::string_from_bytes_latin(bytes);
    proof { lemma_ascii_encode(bytes@); }
    s
}

pub proof fn lemma_ascii_encode(b: Seq<u8>)
    requires forall|k: int| 0 <= k < b.len() ==> #[trigger] b[k] < 128,
    ensures vstd::utf8::encode_utf8(crate::text::chars_of_bytes(b)) == b,
{
    let cs = crate::text::chars_of_bytes(b);
    assert(vstd::utf8::is_ascii_chars(cs)) by {
        assert forall|i: int| 0 <= i < cs.len() implies '\0' <= #[trigger] cs[i] <= '\u{7f}' by {
            assert(b[i] < 128);
        }
    }
    vstd::utf8::is_ascii_chars_encode_utf8(cs);
    let e = vstd::utf8::encode_utf8(cs);
    assert forall|i: int| 0 <= i < b.len() implies e[i] == b[i] by {
        assert(cs[i] == b[i] as char);
    }
    assert(e =~= b);
}


// ---------------------------------------------------------------------
// Typed arrays: `*N { a: v1, v2, ... }`
// ---------------------------------------------------------------------

pub proof fn lemma_numeric_progress(s: Seq<u8>, p: int)
    ensures
        spec_numeric(s, p) matches Ok((_, d)) ==> 0 <= p < d <= s.len(),
{
    let a = num_a(s, p);
    if 0 <= p <= s.len() {
        lemma_digits_end(s, a);
        let b = num_b(s, p);
        if num_has_dot(s, p) {
            lemma_digits_end(s, b + 1);
        }
        let c = num_c(s, p);
        if num_has_exp(s, p) {
            let c2 = if c + 1 < s.len() && (s[c + 1] == 0x2b || s[c + 1] == 0x2d) { c + 2 } else { c + 1 };
            lemma_digits_end(s, c2);
        }
    }
}

/// The element tokens of a typed array starting at `p`, and the offset
/// of the closing `}` (a trailing comma before it is tolerated).
pub open spec fn spec_elems(s: Seq<u8>, p: int) -> Result<(Seq<NumTok>, int), FbxError>
    decreases s.len() - p,
{
    match spec_numeric(s, p) {
        Err(e) => Err(e),
        Ok((t, d)) => {
            let u = trivia_end(s, d, false, false);
            if u < 0 || u >= s.len() {
                Err(err_at(AsciiErrorKind::UnexpectedEofInArray, s, u))
            } else if s[u] == 0x2c {
                let w = trivia_end(s, u + 1, false, false);
                if 0 <= w < s.len() && s[w] == 0x7d {
                    Ok((seq![t], w))
                } else {
                    proof {
                        lemma_numeric_progress(s, p);
                        lemma_trivia_end_ge(s, d, false, false);
                        lemma_trivia_end_ge(s, u + 1, false, false);
                    }
                    match spec_elems(s, w) {
                        Err(e) => Err(e),
                        Ok((ts, e)) => Ok((seq![t] + ts, e)),
                    }
                }
            } else if s[u] == 0x7d {
                Ok((seq![t], u))
            } else {
                Err(err_at(AsciiErrorKind::ExpectedArraySeparator, s, u))
            }
        },
    }
}

/// An array element read as a double: a float keeps its lexeme, an
/// integer is written in decimal with a `.0` fraction.
pub open spec fn tok_real(t: NumTok) -> RealV {
    match t {
        NumTok::Int(n) => RealV::Text(dec_int(n as int) + seq![0x2eu8, 0x30]),
        NumTok::Float(x) => RealV::Text(x),
    }
}

pub open spec fn tok_int(t: NumTok) -> i64 {
    match t {
        NumTok::Int(n) => n,
        NumTok::Float(_) => 0,
    }
}

pub open spec fn fits_i32(n: i64) -> bool {
    i32::MIN <= n <= i32::MAX
}

/// The property a typed array with declared count `count` and element
/// tokens `toks` becomes: doubles when any element is float-shaped,
/// else `i32`s when every element fits, else `i64`s.
pub open spec fn array_prop(count: u64, toks: Seq<NumTok>) -> Result<PropV, FbxError> {
    if count != toks.len() {
        Err(FbxError::AsciiArrayCountMismatch)
    } else if exists|i: int| 0 <= i < toks.len() && #[trigger] toks[i] is Float {
        Ok(PropV::F64Array(toks.map_values(|t: NumTok| tok_real(t))))
    } else if forall|i: int| 0 <= i < toks.len() ==> fits_i32(tok_int(#[trigger] toks[i])) {
        Ok(PropV::I32Array(toks.map_values(|t: NumTok| tok_int(t) as i32)))
    } else {
        Ok(PropV::I64Array(toks.map_values(|t: NumTok| tok_int(t))))
    }
}

/// The typed array whose `*` is at `p`: the property and the offset
/// after its closing `}`.
pub open spec fn spec_array(s: Seq<u8>, p: int) -> Result<(PropV, int), FbxError> {
    match spec_unsigned(s, p + 1) {
        Err(e) => Err(e),
        Ok((count, e1)) => {
            let q = trivia_end(s, e1, false, true);
            if !(0 <= q < s.len() && s[q] == 0x7b) {
                Err(err_at(AsciiErrorKind::ExpectedArrayOpenBrace, s, q))
            } else {
                let q2 = trivia_end(s, q + 1, false, false);
                match spec_identifier(s, q2) {
                    Err(e) => Err(e),
                    Ok((name, e2)) => {
                        if name != seq![0x61u8] {
                            Err(err_at(AsciiErrorKind::ExpectedArrayName, s, e2))
                        } else {
                            let q3 = trivia_end(s, e2, false, true);
                            if !(0 <= q3 < s.len() && s[q3] == 0x3a) {
                                Err(err_at(AsciiErrorKind::ExpectedArrayColon, s, q3))
                            } else {
                                let q4 = trivia_end(s, q3 + 1, false, false);
                                let elems = if 0 <= q4 < s.len() && s[q4] == 0x7d {
                                    Ok((Seq::<NumTok>::empty(), q4))
                                } else {
                                    spec_elems(s, q4)
                                };
                                match elems {
                                    Err(e) => Err(e),
                                    Ok((toks, close)) => match array_prop(count, toks) {
                                        Err(e) => Err(e),
                                        Ok(v) => Ok((v, close + 1)),
                                    },
                                }
                            }
                        }
                    },
                }
            }
        },
    }
}

spec fn nums_view(v: Seq<Num>) -> Seq<NumTok> {
    v.map_values(|n: Num| num_view(n))
}

/// The typed-array property for a declared count and lexed elements.
fn array_from_tokens(count: u64, toks: Vec<Num>) -> (r: Result<FbxProperty, FbxError>)
    ensures
        match (r, array_prop(count, nums_view(toks@))) {
            (Ok(v), Ok(sv)) => v.view_prop() == sv,
            (Err(e), Err(se)) => e == se,
            _ => false,
        },
{
    let ghost tv = nums_view(toks@);
    let n = toks.len();
    if count != n as u64 {
        return Err(FbxError::AsciiArrayCountMismatch);
    }
    let mut any_float = false;
    let mut all_i32 = true;
    let mut i: usize = 0;
    while i < n
        invariant
            i <= n == toks@.len(),
            tv == nums_view(toks@),
            any_float == exists|k: int| 0 <= k < i && #[trigger] tv[k] is Float,
            !any_float ==> (all_i32 == forall|k: int| 0 <= k < i ==> fits_i32(tok_int(#[trigger] tv[k]))),
        decreases n - i,
    {
        assert(tv[i as int] == num_view(toks@[i as int]));
        match &toks[i] {
            Num::Float(_) => { any_float = true; }
            Num::Int(v) => {
                if *v < -2147483648 || *v > 2147483647 {
                    all_i32 = false;
                }
            }
        }
        i += 1;
        proof {
            if !any_float {
                assert forall|k: int| 0 <= k < i implies !(#[trigger] tv[k] is Float) by {}
            }
        }
    }
    if any_float {
        let mut out: Vec<FbxReal> = Vec::new();
        let mut j: usize = 0;
        while j < n
            invariant
                j <= n == toks@.len(),
                tv == nums_view(toks@),
                reals_view(out@) =~= tv.subrange(0, j as int).map_values(|t: NumTok| tok_real(t)),
            decreases n - j,
        {
            let x = match &toks[j] {
                Num::Float(t) => FbxReal::Text(t.clone()),
                Num::Int(v) => {
                    let mut text = crate::decimal::i64_decimal(*v);
                    text.push(0x2e);
                    text.push(0x30);
                    assert(text@ =~= dec_int(*v as int) + seq![0x2eu8, 0x30]);
                    FbxReal::Text(text)
                }
            };
            assert(x.view_real() == tok_real(tv[j as int]));
            let ghost pre = out@;
            out.push(x);
            j += 1;
            assert(reals_view(out@) =~= reals_view(pre).push(x.view_real()));
            assert(tv.subrange(0, j as int) =~= tv.subrange(0, j - 1).push(tv[j - 1]));
        }
        assert(tv.subrange(0, n as int) =~= tv);
        Ok(FbxProperty::F64Array(out))
    } else if all_i32 {
        let mut out: Vec<i32> = Vec::new();
        let mut j: usize = 0;
        while j < n
            invariant
                j <= n == toks@.len(),
                tv == nums_view(toks@),
                forall|k: int| 0 <= k < n ==> fits_i32(tok_int(#[trigger] tv[k])),
                out@ =~= tv.subrange(0, j as int).map_values(|t: NumTok| tok_int(t) as i32),
            decreases n - j,
        {
            assert(tv[j as int] == num_view(toks@[j as int]));
            let x: i32 = match &toks[j] {
                Num::Float(_) => 0,
                Num::Int(v) => {
                    assert(fits_i32(tok_int(tv[j as int])));
                    *v as i32
                }
            };
            out.push(x);
            j += 1;
            assert(tv.subrange(0, j as int) =~= tv.subrange(0, j - 1).push(tv[j - 1]));
        }
        assert(tv.subrange(0, n as int) =~= tv);
        Ok(FbxProperty::I32Array(out))
    } else {
        let mut out: Vec<i64> = Vec::new();
        let mut j: usize = 0;
        while j < n
            invariant
                j <= n == toks@.len(),
                tv == nums_view(toks@),
                out@ =~= tv.subrange(0, j as int).map_values(|t: NumTok| tok_int(t)),
            decreases n - j,
        {
            assert(tv[j as int] == num_view(toks@[j as int]));
            let x: i64 = match &toks[j] {
                Num::Float(_) => 0,
                Num::Int(v) => *v,
            };
            out.push(x);
            j += 1;
            assert(tv.subrange(0, j as int) =~= tv.subrange(0, j - 1).push(tv[j - 1]));
        }
        assert(tv.subrange(0, n as int) =~= tv);
        Ok(FbxProperty::I64Array(out))
    }
}

pub proof fn lemma_elems_close(s: Seq<u8>, p: int)
    ensures spec_elems(s, p) matches Ok((_, e)) ==> p < e < s.len() && s[e] == 0x7d,
    decreases s.len() - p,
{
    lemma_numeric_progress(s, p);
    if let Ok((t, d)) = spec_numeric(s, p) {
        lemma_trivia_end_ge(s, d, false, false);
        let u = trivia_end(s, d, false, false);
        if 0 <= u < s.len() && s[u] == 0x2c {
            lemma_trivia_end_ge(s, u + 1, false, false);
            let w = trivia_end(s, u + 1, false, false);
            if !(0 <= w < s.len() && s[w] == 0x7d) {
                lemma_elems_close(s, w);
            }
        }
    }
}

pub open spec fn prepend_toks(acc: Seq<NumTok>, r: Result<(Seq<NumTok>, int), FbxError>) -> Result<(Seq<NumTok>, int), FbxError> {
    match r {
        Ok((ts, e)) => Ok((acc + ts, e)),
        Err(e) => Err(e),
    }
}

impl<'a> Parser<'a> {
    /// Lex the elements of a typed array up to (not past) its `}`.
    fn parse_array_elems(&mut self) -> (r: Result<Vec<Num>, FbxError>)
        requires old(self).wf(),
        ensures
            final(self).wf(),
            final(self).src_view() == old(self).src_view(),
            match (r, spec_elems(old(self).src@, old(self).pos as int)) {
                (Ok(v), Ok((ts, e))) => nums_view(v@) == ts && final(self).pos == e,
                (Err(e), Err(se)) => e == se,
                _ => false,
            },
    {
        let ghost s = self.src@;
        let ghost p0 = self.pos as int;
        let mut out: Vec<Num> = Vec::new();
        proof { assert(nums_view(out@) =~= Seq::<NumTok>::empty()); }
        loop
            invariant
                self.wf(),
                self.src@ == s,
                s == old(self).src@,
                p0 == old(self).pos,
                spec_elems(s, p0) == prepend_toks(nums_view(out@), spec_elems(s, self.pos as int)),
            decreases s.len() - self.pos,
        {
            let ghost p = self.pos as int;
            let tok = match self.parse_numeric_token() {
                Ok(t) => t,
                Err(e) => { return Err(e); }
            };
            let ghost d = self.pos as int;
            let ghost old_out = out@;
            let ghost tv = num_view(tok);
            out.push(tok);
            proof { assert(nums_view(out@) =~= nums_view(old_out).push(tv)); }
            self.skip_trivia();
            proof { lemma_trivia_end_ge(s, d, false, false); }
            match self.peek() {
                Some(b) => {
                    if b == 0x2c {
                        self.bump();
                        let ghost u1 = self.pos as int;
                        self.skip_trivia();
                        proof { lemma_trivia_end_ge(s, u1, false, false); }
                        if self.peek() == Some(0x7du8) {
                            proof { assert(nums_view(old_out) + seq![tv] =~= nums_view(out@)); }
                            return Ok(out);
                        }
                        proof {
                            match spec_elems(s, self.pos as int) {
                                Ok((ts, e)) => {
                                    assert(nums_view(old_out) + (seq![tv] + ts) =~= nums_view(out@) + ts);
                                }
                                Err(_) => {}
                            }
                        }
                    } else if b == 0x7d {
                        proof { assert(nums_view(old_out) + seq![tv] =~= nums_view(out@)); }
                        return Ok(out);
                    } else {
                        return Err(self.err(AsciiErrorKind::ExpectedArraySeparator));
                    }
                }
                None => {
                    return Err(self.err(AsciiErrorKind::UnexpectedEofInArray));
                }
            }
        }
    }

    /// Parse `*N { a: v1, v2, ... }`; the current byte is the `*`.
    fn parse_array_payload(&mut self) -> (r: Result<FbxProperty, FbxError>)
        requires
            old(self).wf(),
            old(self).pos < old(self).src@.len(),
            old(self).src@[old(self).pos as int] == 0x2a,
        ensures
            final(self).wf(),
            final(self).src_view() == old(self).src_view(),
            match (r, spec_array(old(self).src@, old(self).pos as int)) {
                (Ok(v), Ok((sv, e))) => v.view_prop() == sv && final(self).pos == e && old(self).pos < e,
                (Err(e), Err(se)) => e == se,
                _ => false,
            },
    {
        let ghost s = self.src@;
        let ghost p = self.pos as int;
        self.bump();
        let count = match self.parse_unsigned_integer() {
            Ok(c) => c,
            Err(e) => { return Err(e); }
        };
        let ghost e1 = self.pos as int;
        proof { lemma_digits_end(s, p + 1); }
        self.skip_inline_trivia();
        proof { lemma_trivia_end_ge(s, e1, false, true); }
        if self.peek() != Some(0x7bu8) {
            return Err(self.err(AsciiErrorKind::ExpectedArrayOpenBrace));
        }
        self.bump();
        let ghost q1 = self.pos as int;
        self.skip_trivia();
        proof { lemma_trivia_end_ge(s, q1, false, false); }
        let start = self.pos;
        let _name = match self.parse_identifier() {
            Ok(n) => n,
            Err(e) => { return Err(e); }
        };
        if !(self.pos == start + 1 && self.src[start] == 0x61) {
            proof {
                let nm = s.subrange(start as int, self.pos as int);
                let a_name = seq![0x61u8];
                if self.pos == start + 1 {
                    assert(nm[0] == s[start as int]);
                    assert(a_name[0] == 0x61);
                    assert(nm != a_name);
                } else {
                    assert(nm.len() != a_name.len());
                }
            }
            return Err(self.err(AsciiErrorKind::ExpectedArrayName));
        }
        assert(s.subrange(start as int, self.pos as int) =~= seq![0x61u8]);
        let ghost e2 = self.pos as int;
        self.skip_inline_trivia();
        proof { lemma_trivia_end_ge(s, e2, false, true); }
        if self.peek() != Some(0x3au8) {
            return Err(self.err(AsciiErrorKind::ExpectedArrayColon));
        }
        self.bump();
        let ghost q3 = self.pos as int;
        self.skip_trivia();
        proof { lemma_trivia_end_ge(s, q3, false, false); }
        let ghost q4 = self.pos as int;
        let toks = if self.peek() == Some(0x7du8) {
            let v: Vec<Num> = Vec::new();
            proof { assert(nums_view(v@) =~= Seq::<NumTok>::empty()); }
            v
        } else {
            proof { lemma_elems_close(s, q4); }
            match self.parse_array_elems() {
                Ok(v) => v,
                Err(e) => { return Err(e); }
            }
        };
        let ghost close = self.pos as int;
        self.bump();
        assert(spec_unsigned(s, p + 1) == Ok::<(u64, int), FbxError>((count, e1)));
        assert(spec_array(s, p) == match array_prop(count, nums_view(toks@)) {
            Err(e) => Err(e),
            Ok(v) => Ok((v, close + 1)),
        });
        array_from_tokens(count, toks)
    }
}

// ---------------------------------------------------------------------
// Nodes
// ---------------------------------------------------------------------

/// `{ }` bodies may nest this deep, as in the binary reader.
pub open spec fn max_depth() -> int {
    crate::binary::MAX_NODE_DEPTH as int
}

/// The node whose key starts at `p`, read inside `d` enclosing bodies:
/// its view and the offset after it.
pub open spec fn spec_node(s: Seq<u8>, p: int, d: int) -> Result<(NodeV, int), FbxError>
    decreases max_depth() - d, s.len() - p, 0int,
{
    match spec_identifier(s, p) {
        Err(e) => Err(e),
        Ok((name, e1)) => {
            let q = trivia_end(s, e1, false, true);
            if !(0 <= q < s.len() && s[q] == 0x3a) {
                Err(err_at(AsciiErrorKind::ExpectedColon, s, q))
            } else {
                let q2 = trivia_end(s, q + 1, false, true);
                if 0 <= q2 < s.len() && s[q2] == 0x2a {
                    match spec_array(s, q2) {
                        Err(e) => Err(e),
                        Ok((v, e)) => Ok((make_node_v(name, seq![v], Seq::empty()), e)),
                    }
                } else {
                    match spec_value_list(s, q2) {
                        Err(e) => Err(e),
                        Ok((props, e3)) => {
                            let q3 = trivia_end(s, e3, false, true);
                            if 0 <= q3 < s.len() && s[q3] == 0x7b {
                                if d >= max_depth() {
                                    Err(err_at(AsciiErrorKind::NestingTooDeep, s, q3 + 1))
                                } else {
                                    match spec_items(s, q3 + 1, d + 1) {
                                        Err(e) => Err(e),
                                        Ok((cs, e4)) => Ok((make_node_v(name, props, cs), e4)),
                                    }
                                }
                            } else {
                                Ok((make_node_v(name, props, Seq::empty()), q3))
                            }
                        },
                    }
                }
            }
        },
    }
}

/// The nodes of a `{ }` body whose items start at `p`, read inside `d`
/// enclosing bodies: their views and the offset after the closing `}`.
/// (The branch on `e <= p` is never taken, see [`lemma_node_progress`];
/// it only bounds the recursion.)
pub open spec fn spec_items(s: Seq<u8>, p: int, d: int) -> Result<(Seq<NodeV>, int), FbxError>
    decreases max_depth() - d, s.len() - p, 1int,
{
    let q = trivia_end(s, p, false, false);
    if q < 0 || q >= s.len() {
        Err(err_at(AsciiErrorKind::UnexpectedEofInBody, s, q))
    } else if s[q] == 0x7d {
        Ok((Seq::empty(), q + 1))
    } else {
        proof {
            if 0 <= p <= s.len() {
                lemma_trivia_end_ge(s, p, false, false);
            }
        }
        match spec_node(s, q, d) {
            Err(e) => Err(e),
            Ok((n, e)) => {
                if e <= p || e > s.len() {
                    Err(err_at(AsciiErrorKind::UnexpectedEofInBody, s, e))
                } else {
                    match spec_items(s, e, d) {
                        Err(e2) => Err(e2),
                        Ok((cs, e2)) => Ok((seq![n] + cs, e2)),
                    }
                }
            },
        }
    }
}

/// The top-level nodes from `p` to end of input. (The branch on
/// `e <= p` is never taken; it only bounds the recursion.)
pub open spec fn spec_top(s: Seq<u8>, p: int) -> Result<Seq<NodeV>, FbxError>
    decreases s.len() - p,
{
    let q = trivia_end(s, p, false, false);
    if q < 0 || q >= s.len() {
        Ok(Seq::empty())
    } else {
        match spec_node(s, q, 0) {
            Err(e) => Err(e),
            Ok((n, e)) => {
                if e <= p || e > s.len() {
                    Err(err_at(AsciiErrorKind::UnexpectedEofInBody, s, e))
                } else {
                    match spec_top(s, e) {
                        Err(e2) => Err(e2),
                        Ok(cs) => Ok(seq![n] + cs),
                    }
                }
            },
        }
    }
}

/// A node read successfully ends after where it starts and within the
/// input; so does a body.
pub proof fn lemma_node_progress(s: Seq<u8>, p: int, d: int)
    ensures
        spec_node(s, p, d) matches Ok((_, e)) ==> 0 <= p < e <= s.len(),
    decreases max_depth() - d, s.len() - p, 0int,
{
    if let Ok((name, e1)) = spec_identifier(s, p) {
        lemma_ident_end(s, p + 1);
        lemma_trivia_end_ge(s, e1, false, true);
        let q = trivia_end(s, e1, false, true);
        if 0 <= q < s.len() && s[q] == 0x3a {
            lemma_trivia_end_ge(s, q + 1, false, true);
            let q2 = trivia_end(s, q + 1, false, true);
            if 0 <= q2 < s.len() && s[q2] == 0x2a {
                lemma_array_progress(s, q2);
            } else {
                lemma_value_list_progress(s, q2);
                if let Ok((props, e3)) = spec_value_list(s, q2) {
                    lemma_trivia_end_ge(s, e3, false, true);
                    let q3 = trivia_end(s, e3, false, true);
                    if 0 <= q3 < s.len() && s[q3] == 0x7b && d < max_depth() {
                        lemma_items_progress(s, q3 + 1, d + 1);
                    }
                }
            }
        }
    }
}

pub proof fn lemma_items_progress(s: Seq<u8>, p: int, d: int)
    ensures
        0 <= p <= s.len() ==> (spec_items(s, p, d) matches Ok((_, e)) ==> p < e <= s.len()),
    decreases max_depth() - d, s.len() - p, 1int,
{
    if 0 <= p <= s.len() {
        lemma_trivia_end_ge(s, p, false, false);
        let q = trivia_end(s, p, false, false);
        if 0 <= q < s.len() && s[q] != 0x7d {
            lemma_node_progress(s, q, d);
            if let Ok((n, e)) = spec_node(s, q, d) {
                if p < e <= s.len() {
                    lemma_items_progress(s, e, d);
                }
            }
        }
    }
}

pub proof fn lemma_value_list_progress(s: Seq<u8>, p: int)
    ensures
        0 <= p <= s.len() ==> (spec_value_list(s, p) matches Ok((_, e)) ==> p <= e <= s.len()),
    decreases s.len() - p,
{
    if 0 <= p <= s.len() {
        lemma_trivia_end_ge(s, p, false, true);
        let q = trivia_end(s, p, false, true);
        if 0 <= q < s.len() && !ends_value_list(s[q]) {
            lemma_scalar_progress(s, q);
            if let Ok((v, r)) = spec_scalar(s, q) {
                lemma_trivia_end_ge(s, r, false, true);
                let t = trivia_end(s, r, false, true);
                if 0 <= t < s.len() && s[t] == 0x2c && p < t + 1 <= s.len() {
                    lemma_value_list_progress(s, t + 1);
                }
            }
        }
    }
}

pub proof fn lemma_scalar_progress(s: Seq<u8>, p: int)
    ensures
        spec_scalar(s, p) matches Ok((_, e)) ==> 0 <= p < e <= s.len(),
{
    if 0 <= p < s.len() {
        if s[p] == 0x22 {
            lemma_string_close(s, p + 1);
        } else if s[p] == 0x2d || s[p] == 0x2e || is_digit(s[p]) {
            lemma_numeric_progress(s, p);
        }
    }
}

pub proof fn lemma_string_close(s: Seq<u8>, p: int)
    ensures
        string_close(s, p) matches Ok(q) ==> 0 <= p <= q < s.len() && s[q] == 0x22,
    decreases s.len() - p,
{
    if 0 <= p < s.len() && s[p] != 0x22 && s[p] != 0x0a {
        lemma_string_close(s, p + 1);
    }
}

pub proof fn lemma_array_progress(s: Seq<u8>, p: int)
    requires 0 <= p < s.len(),
    ensures
        spec_array(s, p) matches Ok((_, e)) ==> p < e <= s.len(),
{
    lemma_digits_end(s, p + 1);
    if let Ok((count, e1)) = spec_unsigned(s, p + 1) {
        lemma_trivia_end_ge(s, e1, false, true);
        let q = trivia_end(s, e1, false, true);
        if 0 <= q < s.len() && s[q] == 0x7b {
            lemma_trivia_end_ge(s, q + 1, false, false);
            let q2 = trivia_end(s, q + 1, false, false);
            if let Ok((name, e2)) = spec_identifier(s, q2) {
                lemma_ident_end(s, q2 + 1);
                lemma_trivia_end_ge(s, e2, false, true);
                let q3 = trivia_end(s, e2, false, true);
                if 0 <= q3 < s.len() && s[q3] == 0x3a {
                    lemma_trivia_end_ge(s, q3 + 1, false, false);
                    let q4 = trivia_end(s, q3 + 1, false, false);
                    if !(0 <= q4 < s.len() && s[q4] == 0x7d) {
                        lemma_elems_close(s, q4);
                    }
                }
            }
        }
    }
}

pub open spec fn prepend_items(acc: Seq<NodeV>, r: Result<(Seq<NodeV>, int), FbxError>) -> Result<(Seq<NodeV>, int), FbxError> {
    match r {
        Ok((cs, e)) => Ok((acc + cs, e)),
        Err(e) => Err(e),
    }
}

impl<'a> Parser<'a> {
    /// Parse one node (key, `:`, then a typed array or a value list and
    /// an optional `{ }` body) inside `depth` enclosing bodies.
    fn parse_node(&mut self, depth: usize) -> (r: Result<FbxNode, FbxError>)
        requires
            old(self).wf(),
            depth <= crate::binary::MAX_NODE_DEPTH,
        ensures
            final(self).wf(),
            final(self).src_view() == old(self).src_view(),
            match (r, spec_node(old(self).src@, old(self).pos as int, depth as int)) {
                (Ok(n), Ok((nv, e))) => node_view(n) == nv && final(self).pos == e,
                (Err(e), Err(se)) => e == se,
                _ => false,
            },
        decreases crate::binary::MAX_NODE_DEPTH - depth, 0int,
    {
        let ghost s = self.src@;
        let ghost p = self.pos as int;
        let name = match self.parse_identifier() {
            Ok(n) => n,
            Err(e) => { return Err(e); }
        };
        self.skip_inline_trivia();
        if self.peek() != Some(0x3au8) {
            return Err(self.err(AsciiErrorKind::ExpectedColon));
        }
        self.bump();
        self.skip_inline_trivia();
        if self.peek() == Some(0x2au8) {
            let prop = match self.parse_array_payload() {
                Ok(v) => v,
                Err(e) => { return Err(e); }
            };
            let ghost pv = prop.view_prop();
            let mut properties: Vec<FbxProperty> = Vec::new();
            properties.push(prop);
            let n = FbxNode { name, properties, children: Vec::new() };
            assert(props_view(n.properties@) =~= seq![pv]);
            assert(nodes_view(n.children@) =~= Seq::<NodeV>::empty());
            return Ok(n);
        }
        let properties = match self.parse_value_list() {
            Ok(v) => v,
            Err(e) => { return Err(e); }
        };
        self.skip_inline_trivia();
        if self.peek() == Some(0x7bu8) {
            self.bump();
            if depth >= crate::binary::MAX_NODE_DEPTH {
                return Err(self.err(AsciiErrorKind::NestingTooDeep));
            }
            let children = match self.parse_items(depth + 1) {
                Ok(c) => c,
                Err(e) => { return Err(e); }
            };
            Ok(FbxNode { name, properties, children })
        } else {
            let n = FbxNode { name, properties, children: Vec::new() };
            assert(nodes_view(n.children@) =~= Seq::<NodeV>::empty());
            Ok(n)
        }
    }

    /// Parse the nodes of a `{ }` body up to and including its `}`.
    fn parse_items(&mut self, depth: usize) -> (r: Result<Vec<FbxNode>, FbxError>)
        requires
            old(self).wf(),
            depth <= crate::binary::MAX_NODE_DEPTH,
        ensures
            final(self).wf(),
            final(self).src_view() == old(self).src_view(),
            match (r, spec_items(old(self).src@, old(self).pos as int, depth as int)) {
                (Ok(v), Ok((cs, e))) => nodes_view(v@) == cs && final(self).pos == e,
                (Err(e), Err(se)) => e == se,
                _ => false,
            },
        decreases crate::binary::MAX_NODE_DEPTH - depth, 1int,
    {
        let ghost s = self.src@;
        let ghost p0 = self.pos as int;
        let mut out: Vec<FbxNode> = Vec::new();
        proof { assert(nodes_view(out@) =~= Seq::<NodeV>::empty()); }
        loop
            invariant
                self.wf(),
                self.src@ == s,
                s == old(self).src@,
                p0 == old(self).pos,
                depth <= crate::binary::MAX_NODE_DEPTH,
                spec_items(s, p0, depth as int) == prepend_items(nodes_view(out@), spec_items(s, self.pos as int, depth as int)),
            decreases s.len() - self.pos,
        {
            let ghost p = self.pos as int;
            self.skip_trivia();
            proof { lemma_trivia_end_ge(s, p, false, false); }
            match self.peek() {
                None => {
                    return Err(self.err(AsciiErrorKind::UnexpectedEofInBody));
                }
                Some(b) => {
                    if b == 0x7d {
                        self.bump();
                        proof { assert(nodes_view(out@) + Seq::<NodeV>::empty() =~= nodes_view(out@)); }
                        return Ok(out);
                    }
                }
            }
            let ghost q = self.pos as int;
            proof { lemma_node_progress(s, q, depth as int); }
            let node = match self.parse_node(depth) {
                Ok(n) => n,
                Err(e) => { return Err(e); }
            };
            let ghost old_out = out@;
            let ghost nv = node_view(node);
            out.push(node);
            proof {
                lemma_nodes_view_push(old_out, node);
                match spec_items(s, self.pos as int, depth as int) {
                    Ok((cs, e2)) => {
                        assert(nodes_view(old_out) + (seq![nv] + cs) =~= nodes_view(out@) + cs);
                    }
                    Err(_) => {}
                }
            }
        }
    }
}

pub open spec fn prepend_top_nodes(acc: Seq<NodeV>, r: Result<Seq<NodeV>, FbxError>) -> Result<Seq<NodeV>, FbxError> {
    match r {
        Ok(cs) => Ok(acc + cs),
        Err(e) => Err(e),
    }
}

/// Bytes of `FBXHeaderExtension`.
pub open spec fn header_extension_name() -> Seq<u8> {
    seq![0x46u8, 0x42, 0x58, 0x48, 0x65, 0x61, 0x64, 0x65, 0x72, 0x45, 0x78, 0x74, 0x65, 0x6e, 0x73, 0x69, 0x6f, 0x6e]
}

/// Bytes of `FBXVersion`.
pub open spec fn fbx_version_name() -> Seq<u8> {
    seq![0x46u8, 0x42, 0x58, 0x56, 0x65, 0x72, 0x73, 0x69, 0x6f, 0x6e]
}

/// The version an ASCII document declares in
/// `FBXHeaderExtension { FBXVersion: N }`: the first property of the
/// first such node, read as an integer in the `u32` range.
pub open spec fn declared_version(root: NodeV) -> Option<u32> {
    match first_named(root.children, header_extension_name()) {
        None => None,
        Some(ext) => match first_named(ext.children, fbx_version_name()) {
            None => None,
            Some(v) => if v.properties.len() == 0 {
                None
            } else {
                match prop_as_i64(v.properties[0]) {
                    Some(n) => if 0 <= n <= u32::MAX { Some(n as u32) } else { None },
                    None => None,
                }
            },
        },
    }
}

/// The ASCII document that `b` encodes (after an optional UTF-8 byte
/// order mark), or the first error met. The version defaults to 7400.
pub open spec fn spec_parse_ascii(b: Seq<u8>) -> Result<DocV, FbxError> {
    match spec_top(spec_strip_bom(b), 0) {
        Err(e) => Err(e),
        Ok(cs) => Ok(DocV {
            version: match declared_version(root_v(cs)) {
                Some(v) => v,
                None => 7400,
            },
            root: root_v(cs),
        }),
    }
}

fn extract_version(root: &FbxNode) -> (r: Option<u32>)
    ensures r == declared_version(node_view(*root)),
{
    proof { lemma_nodes_view_len(root.children@); }
    let ext = match root.child("FBXHeaderExtension") {
        Some(e) => e,
        None => {
            proof { reveal_strlit("FBXHeaderExtension"); assert("FBXHeaderExtension".spec_bytes() =~= header_extension_name()) by { lemma_ascii_literal("FBXHeaderExtension"); } }
            return None;
        }
    };
    proof { reveal_strlit("FBXHeaderExtension"); assert("FBXHeaderExtension".spec_bytes() =~= header_extension_name()) by { lemma_ascii_literal("FBXHeaderExtension"); } }
    let v = match ext.child("FBXVersion") {
        Some(v) => v,
        None => {
            proof { reveal_strlit("FBXVersion"); assert("FBXVersion".spec_bytes() =~= fbx_version_name()) by { lemma_ascii_literal("FBXVersion"); } }
            return None;
        }
    };
    proof { reveal_strlit("FBXVersion"); assert("FBXVersion".spec_bytes() =~= fbx_version_name()) by { lemma_ascii_literal("FBXVersion"); } }
    if v.properties.len() == 0 {
        return None;
    }
    proof { lemma_props_view_index(v.properties@, 0); }
    let n = match v.properties[0].as_i64() {
        Some(n) => n,
        None => { return None; }
    };
    if n < 0 || n > 0xffff_ffff {
        return None;
    }
    Some(n as u32)
}

pub proof fn lemma_props_view_index(s: Seq<FbxProperty>, i: int)
    requires 0 <= i < s.len(),
    ensures props_view(s).len() == s.len(), props_view(s)[i] == s[i].view_prop(),
{
}

/// The UTF-8 bytes of an ASCII string literal are its characters' codes.
pub proof fn lemma_ascii_literal(x: &str)
    requires vstd::utf8::is_ascii_chars(x@),
    ensures x.spec_bytes() == x@.map_values(|c: char| c as u8),
{
    vstd::utf8::is_ascii_chars_encode_utf8(x@);
}

/// Parse an ASCII-FBX byte buffer into the same document shape the
/// binary reader produces.
pub fn parse(bytes: &[u8]) -> (r: Result<FbxDocument, FbxError>)
    requires bytes@.len() <= isize::MAX,
    ensures doc_res_view(r) == spec_parse_ascii(bytes@),
{
    let src = strip_bom(bytes);
    let ghost s = src@;
    let mut p = Parser::new(src);
    let mut children: Vec<FbxNode> = Vec::new();
    proof { assert(nodes_view(children@) =~= Seq::<NodeV>::empty()); }
    loop
        invariant
            p.wf(),
            p.src_view() == s,
            s == spec_strip_bom(bytes@),
            spec_top(s, 0) == prepend_top_nodes(nodes_view(children@), spec_top(s, p.pos_view())),
        ensures
            s == spec_strip_bom(bytes@),
            spec_top(s, 0) == Ok::<Seq<NodeV>, FbxError>(nodes_view(children@)),
        decreases s.len() - p.pos_view(),
    {
        let ghost q0 = p.pos_view();
        p.skip_trivia();
        proof { lemma_trivia_end_ge(s, q0, false, false); }
        if p.eof() {
            proof { assert(nodes_view(children@) + Seq::<NodeV>::empty() =~= nodes_view(children@)); }
            break;
        }
        let ghost q = p.pos_view();
        proof { lemma_node_progress(s, q, 0); }
        let node = match p.parse_node(0) {
            Ok(n) => n,
            Err(e) => { return Err(e); }
        };
        let ghost old_children = children@;
        let ghost nv = node_view(node);
        children.push(node);
        proof {
            lemma_nodes_view_push(old_children, node);
            match spec_top(s, p.pos_view()) {
                Ok(cs) => {
                    assert(nodes_view(old_children) + (seq![nv] + cs) =~= nodes_view(children@) + cs);
                }
                Err(_) => {}
            }
        }
    }
    let root = crate::binary::make_root(children);
    let version = match extract_version(&root) {
        Some(v) => v,
        None => 7400,
    };
    Ok(FbxDocument { version, root })
}

/// Whether a document's version selects the 64-bit record layout.
pub fn document_layout_is_64bit(doc: &FbxDocument) -> (r: bool)
    ensures r == (doc.version >= crate::binary::FBX_VERSION_64BIT_THRESHOLD),
{
    doc.version >= crate::binary::FBX_VERSION_64BIT_THRESHOLD
}

} // verus!
