//! The `FBXHeaderExtension` section: the header version, the creating
//! tool, the creation timestamp, the non-empty `MetaData` fields of the
//! `SceneInfo` object and its `Original|*` application provenance.

use vstd::prelude::*;
use vstd::string::StringSliceAdditionalSpecFns;
use vstd::utf8::encode_utf8;
use crate::constraint::{own_records, read_own_records, records_view, PRecord, PRecordV, TaggedValue};
use crate::decimal::{dec_digits, push_u64_digits};
use crate::definitions::{leaf_i64, leaf_int};
use crate::globals::lookup;
use crate::material::{read_string_child, string_child};
use crate::model::{first_named, node_view, FbxDocument, FbxNode, NodeV};
use crate::text::{chars_of_bytes, string_from_bytes_latin};

verus! {

// ---------------------------------------------------------------------
// The timestamp
// ---------------------------------------------------------------------

/// `d` left-padded with `0` to width `w`.
pub open spec fn zero_pad(d: Seq<u8>, w: int) -> Seq<u8> {
    if d.len() < w { Seq::new((w - d.len()) as nat, |i: int| 0x30u8) + d } else { d }
}

/// The decimal text of `n` zero-padded to width `w`, the sign counted in
/// the width (`-1` at width `4` is `-001`).
pub open spec fn padded_int(n: int, w: int) -> Seq<u8> {
    if n < 0 { seq![0x2du8] + zero_pad(dec_digits((-n) as nat), w - 1) } else { zero_pad(dec_digits(n as nat), w) }
}

/// A timestamp component: its leaf's integer, `0` when absent.
pub open spec fn stamp_part(ts: NodeV, name: Seq<u8>) -> int {
    match leaf_int(ts, name) {
        Some(v) => v as int,
        None => 0,
    }
}

/// Whether a timestamp node has any date or time leaf.
pub open spec fn has_stamp(ts: NodeV) -> bool {
    ||| first_named(ts.children, "Year".spec_bytes()) is Some
    ||| first_named(ts.children, "Month".spec_bytes()) is Some
    ||| first_named(ts.children, "Day".spec_bytes()) is Some
    ||| first_named(ts.children, "Hour".spec_bytes()) is Some
    ||| first_named(ts.children, "Minute".spec_bytes()) is Some
    ||| first_named(ts.children, "Second".spec_bytes()) is Some
}

/// `YYYY-MM-DDThh:mm:ss.mmm` of a timestamp node's leaves.
pub open spec fn stamp_text(ts: NodeV) -> Seq<u8> {
    padded_int(stamp_part(ts, "Year".spec_bytes()), 4) + seq![0x2du8]
        + padded_int(stamp_part(ts, "Month".spec_bytes()), 2) + seq![0x2du8]
        + padded_int(stamp_part(ts, "Day".spec_bytes()), 2) + seq![0x54u8]
        + padded_int(stamp_part(ts, "Hour".spec_bytes()), 2) + seq![0x3au8]
        + padded_int(stamp_part(ts, "Minute".spec_bytes()), 2) + seq![0x3au8]
        + padded_int(stamp_part(ts, "Second".spec_bytes()), 2) + seq![0x2eu8]
        + padded_int(stamp_part(ts, "Millisecond".spec_bytes()), 3)
}

// ---------------------------------------------------------------------
// Metadata and provenance
// ---------------------------------------------------------------------

/// The `MetaData` string fields and their extras keys.
pub open spec fn meta_field(i: int) -> (Seq<u8>, Seq<char>) {
    if i == 0 { ("Title".spec_bytes(), "fbx:meta_title"@) }
    else if i == 1 { ("Subject".spec_bytes(), "fbx:meta_subject"@) }
    else if i == 2 { ("Author".spec_bytes(), "fbx:meta_author"@) }
    else if i == 3 { ("Keywords".spec_bytes(), "fbx:meta_keywords"@) }
    else if i == 4 { ("Revision".spec_bytes(), "fbx:meta_revision"@) }
    else { ("Comment".spec_bytes(), "fbx:meta_comment"@) }
}

fn meta_field_exec(i: usize) -> (r: (&'static str, &'static str))
    requires i < 6,
    ensures r.0.spec_bytes() == meta_field(i as int).0, r.1@ == meta_field(i as int).1,
{
    if i == 0 { ("Title", "fbx:meta_title") }
    else if i == 1 { ("Subject", "fbx:meta_subject") }
    else if i == 2 { ("Author", "fbx:meta_author") }
    else if i == 3 { ("Keywords", "fbx:meta_keywords") }
    else if i == 4 { ("Revision", "fbx:meta_revision") }
    else { ("Comment", "fbx:meta_comment") }
}

/// The non-empty fields among the first `n` of a `MetaData` node, with
/// their keys.
pub open spec fn meta_fold(meta: NodeV, n: int) -> Seq<(Seq<char>, Seq<u8>)>
    decreases n,
{
    if n <= 0 {
        Seq::empty()
    } else {
        let prev = meta_fold(meta, n - 1);
        let (field, key) = meta_field(n - 1);
        match string_child(meta, field) {
            Some(b) => if b.len() > 0 { prev.push((key, b)) } else { prev },
            None => prev,
        }
    }
}

/// The provenance records and their extras keys.
pub open spec fn provenance_field(i: int) -> (Seq<char>, Seq<char>) {
    if i == 0 { ("Original|ApplicationName"@, "fbx:application_name"@) }
    else if i == 1 { ("Original|ApplicationVendor"@, "fbx:application_vendor"@) }
    else if i == 2 { ("Original|ApplicationVersion"@, "fbx:application_version"@) }
    else { ("DocumentUrl"@, "fbx:document_url"@) }
}

fn provenance_field_exec(i: usize) -> (r: (&'static str, &'static str))
    requires i < 4,
    ensures r.0@ == provenance_field(i as int).0, r.1@ == provenance_field(i as int).1,
{
    if i == 0 { ("Original|ApplicationName", "fbx:application_name") }
    else if i == 1 { ("Original|ApplicationVendor", "fbx:application_vendor") }
    else if i == 2 { ("Original|ApplicationVersion", "fbx:application_version") }
    else { ("DocumentUrl", "fbx:document_url") }
}

/// A record's string value, when its first value is a string.
pub open spec fn record_text(r: Option<PRecordV>) -> Option<Seq<char>> {
    match r {
        Some(rec) => if rec.values.len() > 0 && rec.values[0] is Text { Some(rec.values[0]->Text_0) } else { None },
        None => None,
    }
}

/// The non-empty provenance strings among the first `n` names, with
/// their keys.
pub open spec fn provenance_fold(rs: Seq<PRecordV>, n: int) -> Seq<(Seq<char>, Seq<char>)>
    decreases n,
{
    if n <= 0 {
        Seq::empty()
    } else {
        let prev = provenance_fold(rs, n - 1);
        let (name, key) = provenance_field(n - 1);
        match record_text(lookup(rs, name)) {
            Some(t) => if t.len() > 0 { prev.push((key, t)) } else { prev },
            None => prev,
        }
    }
}

// ---------------------------------------------------------------------
// The section
// ---------------------------------------------------------------------

pub struct HeaderInfoV {
    pub header_version: Option<i64>,
    pub creator: Option<Seq<u8>>,
    pub creation_time: Option<Seq<char>>,
    pub metadata: Seq<(Seq<char>, Seq<u8>)>,
    pub provenance: Seq<(Seq<char>, Seq<char>)>,
}

/// What a document's first `FBXHeaderExtension` holds: its
/// `FBXHeaderVersion` integer, its `Creator` string, its timestamp
/// (when the `CreationTimeStamp` node has any date or time leaf), and
/// the non-empty `MetaData` fields and provenance strings of its
/// `SceneInfo`.
pub open spec fn spec_header_info(root: NodeV) -> HeaderInfoV {
    match first_named(root.children, "FBXHeaderExtension".spec_bytes()) {
        None => HeaderInfoV { header_version: None, creator: None, creation_time: None, metadata: Seq::empty(), provenance: Seq::empty() },
        Some(e) => {
            let si = first_named(e.children, "SceneInfo".spec_bytes());
            HeaderInfoV {
                header_version: leaf_int(e, "FBXHeaderVersion".spec_bytes()),
                creator: string_child(e, "Creator".spec_bytes()),
                creation_time: match first_named(e.children, "CreationTimeStamp".spec_bytes()) {
                    Some(ts) => if has_stamp(ts) { Some(chars_of_bytes(stamp_text(ts))) } else { None },
                    None => None,
                },
                metadata: match si {
                    Some(s) => match first_named(s.children, "MetaData".spec_bytes()) {
                        Some(m) => meta_fold(m, 6),
                        None => Seq::empty(),
                    },
                    None => Seq::empty(),
                },
                provenance: match si {
                    Some(s) => if first_named(s.children, "Properties70".spec_bytes()) is Some {
                        provenance_fold(own_records(s), 4)
                    } else {
                        Seq::empty()
                    },
                    None => Seq::empty(),
                },
            }
        },
    }
}

/// What a document's `FBXHeaderExtension` holds (see
/// [`spec_header_info`]): each metadata and provenance entry is an
/// extras key with its string.
#[derive(Debug)]
pub struct HeaderInfo {
    pub header_version: Option<i64>,
    pub creator: Option<String>,
    pub creation_time: Option<String>,
    pub metadata: Vec<(String, String)>,
    pub provenance: Vec<(String, String)>,
}

pub open spec fn meta_view(v: Seq<(String, String)>) -> Seq<(Seq<char>, Seq<u8>)> {
    v.map_values(|e: (String, String)| (e.0@, encode_utf8(e.1@)))
}

pub open spec fn provenance_view(v: Seq<(String, String)>) -> Seq<(Seq<char>, Seq<char>)> {
    v.map_values(|e: (String, String)| (e.0@, e.1@))
}

impl HeaderInfo {
    pub open spec fn view(self) -> HeaderInfoV {
        HeaderInfoV {
            header_version: self.header_version,
            creator: match self.creator { Some(s) => Some(encode_utf8(s@)), None => None },
            creation_time: match self.creation_time { Some(s) => Some(s@), None => None },
            metadata: meta_view(self.metadata@),
            provenance: provenance_view(self.provenance@),
        }
    }
}

proof fn lemma_encode_nonempty(cs: Seq<char>)
    ensures (encode_utf8(cs).len() > 0) == (cs.len() > 0),
{
    if cs.len() > 0 {
        vstd::utf8::encode_utf8_first_scalar(cs);
    }
}

/// Append `n` zero-padded to width `w` (see [`padded_int`]).
fn push_padded(n: i64, w: usize, out: &mut Vec<u8>)
    requires 1 <= w <= 4,
    ensures final(out)@ == old(out)@ + padded_int(n as int, w as int),
{
    let m: u64 = if n == i64::MIN { 0x8000_0000_0000_0000 } else if n < 0 { (-n) as u64 } else { n as u64 };
    let mut d: Vec<u8> = Vec::new();
    push_u64_digits(m, &mut d);
    assert(d@ =~= dec_digits(m as nat));
    let width: usize = if n < 0 { out.push(0x2d); w - 1 } else { w };
    let ghost base = out@;
    let mut k: usize = d.len();
    while k < width
        invariant
            d.len() <= k <= width || (width <= d.len() && k == d.len()),
            out@ == base + Seq::new((k - d.len()) as nat, |i: int| 0x30u8),
        decreases width - k,
    {
        out.push(0x30);
        k += 1;
        assert(out@ =~= base + Seq::new((k - d.len()) as nat, |i: int| 0x30u8));
    }
    let ghost pad = out@;
    let mut j: usize = 0;
    while j < d.len()
        invariant
            j <= d@.len(),
            out@ == pad + d@.subrange(0, j as int),
        decreases d@.len() - j,
    {
        out.push(d[j]);
        j += 1;
        assert(out@ =~= pad + d@.subrange(0, j as int));
    }
    assert(d@.subrange(0, d@.len() as int) =~= d@);
    proof {
        if d@.len() < width {
            assert(zero_pad(d@, width as int) =~= Seq::new((width - d.len()) as nat, |i: int| 0x30u8) + d@);
        } else {
            assert(Seq::new((k - d.len()) as nat, |i: int| 0x30u8) =~= Seq::<u8>::empty());
        }
        assert(final(out)@ =~= old(out)@ + padded_int(n as int, w as int));
    }
}

fn stamp_part_exec(ts: &FbxNode, name: &str) -> (r: i64)
    ensures r as int == stamp_part(node_view(*ts), name.spec_bytes()),
{
    match leaf_i64(ts, name) {
        Some(v) => v,
        None => 0,
    }
}

/// The timestamp of a `CreationTimeStamp` node (see [`stamp_text`]).
fn creation_timestamp(ts: &FbxNode) -> (r: Option<String>)
    ensures
        match r {
            Some(s) => has_stamp(node_view(*ts)) && s@ == chars_of_bytes(stamp_text(node_view(*ts))),
            None => !has_stamp(node_view(*ts)),
        },
{
    let any = ts.child("Year").is_some() || ts.child("Month").is_some() || ts.child("Day").is_some()
        || ts.child("Hour").is_some() || ts.child("Minute").is_some() || ts.child("Second").is_some();
    if !any {
        return None;
    }
    let ghost tv = node_view(*ts);
    let mut out: Vec<u8> = Vec::new();
    push_padded(stamp_part_exec(ts, "Year"), 4, &mut out);
    out.push(0x2d);
    push_padded(stamp_part_exec(ts, "Month"), 2, &mut out);
    out.push(0x2d);
    push_padded(stamp_part_exec(ts, "Day"), 2, &mut out);
    out.push(0x54);
    push_padded(stamp_part_exec(ts, "Hour"), 2, &mut out);
    out.push(0x3a);
    push_padded(stamp_part_exec(ts, "Minute"), 2, &mut out);
    out.push(0x3a);
    push_padded(stamp_part_exec(ts, "Second"), 2, &mut out);
    out.push(0x2e);
    push_padded(stamp_part_exec(ts, "Millisecond"), 3, &mut out);
    assert(out@ =~= stamp_text(tv));
    Some(string_from_bytes_latin(out.as_slice()))
}

fn read_metadata(meta: &FbxNode) -> (r: Vec<(String, String)>)
    ensures meta_view(r@) == meta_fold(node_view(*meta), 6),
{
    let mut out: Vec<(String, String)> = Vec::new();
    let mut i: usize = 0;
    while i < 6
        invariant
            i <= 6,
            meta_view(out@) == meta_fold(node_view(*meta), i as int),
        decreases 6 - i,
    {
        let (field, key) = meta_field_exec(i);
        match read_string_child(meta, field) {
            Some(v) => {
                proof { lemma_encode_nonempty(v@); }
                if v.as_str().unicode_len() > 0 {
                    let e = (key.to_string(), v);
                    let ghost before = out@;
                    out.push(e);
                    proof {
                        assert(meta_view(out@) =~= meta_view(before).push((e.0@, encode_utf8(e.1@))));
                    }
                }
            }
            None => {}
        }
        i += 1;
    }
    out
}

fn first_text(rs: &Vec<PRecord>, name: &str) -> (r: Option<String>)
    ensures
        match r {
            Some(s) => record_text(lookup(records_view(rs@), name@)) == Some(s@),
            None => record_text(lookup(records_view(rs@), name@)) is None,
        },
{
    match crate::globals::lookup_index(rs, name) {
        Some(i) => {
            let rec = &rs[i];
            if rec.values.len() > 0 {
                assert(crate::constraint::p_record_view(*rec).values[0] == crate::constraint::tag_view(rec.values@[0]));
                match &rec.values[0] {
                    TaggedValue::Text(s) => Some(s.clone()),
                    _ => None,
                }
            } else {
                None
            }
        }
        None => None,
    }
}

fn read_provenance(rs: &Vec<PRecord>) -> (r: Vec<(String, String)>)
    ensures provenance_view(r@) == provenance_fold(records_view(rs@), 4),
{
    let mut out: Vec<(String, String)> = Vec::new();
    let mut i: usize = 0;
    while i < 4
        invariant
            i <= 4,
            provenance_view(out@) == provenance_fold(records_view(rs@), i as int),
        decreases 4 - i,
    {
        let (name, key) = provenance_field_exec(i);
        match first_text(rs, name) {
            Some(v) => {
                if v.as_str().unicode_len() > 0 {
                    let e = (key.to_string(), v);
                    let ghost before = out@;
                    out.push(e);
                    proof {
                        assert(provenance_view(out@) =~= provenance_view(before).push((e.0@, e.1@)));
                    }
                }
            }
            None => {}
        }
        i += 1;
    }
    out
}

/// The metadata of a document's `FBXHeaderExtension` (see
/// [`spec_header_info`]).
pub fn header_info(doc: &FbxDocument) -> (r: HeaderInfo)
    ensures r.view() == spec_header_info(node_view(doc.root)),
{
    let ext = match doc.root.child("FBXHeaderExtension") {
        Some(e) => e,
        None => {
            let r = HeaderInfo { header_version: None, creator: None, creation_time: None, metadata: Vec::new(), provenance: Vec::new() };
            assert(meta_view(r.metadata@) =~= Seq::<(Seq<char>, Seq<u8>)>::empty());
            assert(provenance_view(r.provenance@) =~= Seq::<(Seq<char>, Seq<char>)>::empty());
            return r;
        }
    };
    let header_version = leaf_i64(ext, "FBXHeaderVersion");
    let creator = read_string_child(ext, "Creator");
    let creation_time = match ext.child("CreationTimeStamp") {
        Some(ts) => creation_timestamp(ts),
        None => None,
    };
    let mut metadata: Vec<(String, String)> = Vec::new();
    let mut provenance: Vec<(String, String)> = Vec::new();
    assert(meta_view(metadata@) =~= Seq::<(Seq<char>, Seq<u8>)>::empty());
    assert(provenance_view(provenance@) =~= Seq::<(Seq<char>, Seq<char>)>::empty());
    match ext.child("SceneInfo") {
        Some(si) => {
            match si.child("MetaData") {
                Some(m) => { metadata = read_metadata(m); }
                None => {}
            }
            match si.child("Properties70") {
                Some(_) => {
                    let rs = read_own_records(si);
                    provenance = read_provenance(&rs);
                }
                None => {}
            }
        }
        None => {}
    }
    HeaderInfo { header_version, creator, creation_time, metadata, provenance }
}

} // verus!
