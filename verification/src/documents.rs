//! The `Documents` section: each `Document` record's name, subtype and
//! active animation stack, and the active stack of the whole file (the
//! first document's that names one).

use vstd::prelude::*;
use vstd::string::StringSliceAdditionalSpecFns;
use vstd::utf8::{encode_utf8, valid_utf8};
use crate::constraint::{own_records, read_own_records, records_view, p_record_view, tag_view, PRecord, PRecordV, TaggedValue};
use crate::globals::lookup;
use crate::model::{first_named, lemma_nodes_view_len, node_view, nodes_view, FbxDocument, FbxNode, NodeV, PropV};
use crate::names::{element_name, spec_element_name};

verus! {

/// The subtype of a document: its third property when it is a UTF-8
/// string, else empty.
pub open spec fn subtype_of(ps: Seq<PropV>) -> Seq<u8> {
    if ps.len() > 2 && (ps[2] matches PropV::Str(b) && valid_utf8(b)) { ps[2]->Str_0 } else { Seq::empty() }
}

/// A record's string when the record is a non-empty `KString`.
pub open spec fn kstring_of(r: Option<PRecordV>) -> Option<Seq<char>> {
    match r {
        Some(rec) => if rec.record_type == "KString"@ && rec.values.len() > 0 && rec.values[0] is Text
            && rec.values[0]->Text_0.len() > 0 {
            Some(rec.values[0]->Text_0)
        } else {
            None
        },
        None => None,
    }
}

pub struct DocumentV {
    pub name: Seq<u8>,
    pub subtype: Seq<u8>,
    pub active_anim_stack: Option<Seq<char>>,
}

/// What a `Document` record says: its element name (empty when it has
/// none), its subtype and its non-empty `ActiveAnimStackName`.
pub open spec fn document_v(d: NodeV) -> DocumentV {
    DocumentV {
        name: match spec_element_name(d.properties) { Some(b) => b, None => Seq::empty() },
        subtype: subtype_of(d.properties),
        active_anim_stack: kstring_of(lookup(own_records(d), "ActiveAnimStackName"@)),
    }
}

/// The `Document` records among the first `n` children.
pub open spec fn documents_fold(cs: Seq<NodeV>, n: int) -> Seq<DocumentV>
    decreases n,
{
    if n <= 0 {
        Seq::empty()
    } else {
        let prev = documents_fold(cs, n - 1);
        if cs[n - 1].name == "Document".spec_bytes() { prev.push(document_v(cs[n - 1])) } else { prev }
    }
}

/// The first active stack named among `ds`.
pub open spec fn first_active(ds: Seq<DocumentV>) -> Option<Seq<char>>
    decreases ds.len(),
{
    if ds.len() == 0 {
        None
    } else if ds[0].active_anim_stack is Some {
        ds[0].active_anim_stack
    } else {
        first_active(ds.drop_first())
    }
}

pub struct DocumentsV {
    pub documents: Seq<DocumentV>,
    pub active_anim_stack: Option<Seq<char>>,
}

/// The catalogue of a document's first `Documents` section.
pub open spec fn spec_documents(root: NodeV) -> DocumentsV {
    let ds = match first_named(root.children, "Documents".spec_bytes()) {
        Some(d) => documents_fold(d.children, d.children.len() as int),
        None => Seq::empty(),
    };
    DocumentsV { documents: ds, active_anim_stack: first_active(ds) }
}

/// One `Document` record (see [`document_v`]).
#[derive(Debug)]
pub struct DocumentEntry {
    pub name: String,
    pub subtype: String,
    pub active_anim_stack: Option<String>,
}

pub open spec fn entry_view(e: DocumentEntry) -> DocumentV {
    DocumentV {
        name: encode_utf8(e.name@),
        subtype: encode_utf8(e.subtype@),
        active_anim_stack: match e.active_anim_stack { Some(s) => Some(s@), None => None },
    }
}

/// The catalogue of the `Documents` section (see [`spec_documents`]).
#[derive(Debug)]
pub struct DocumentsCatalogue {
    pub documents: Vec<DocumentEntry>,
    pub active_anim_stack: Option<String>,
}

impl DocumentsCatalogue {
    pub open spec fn view(self) -> DocumentsV {
        DocumentsV {
            documents: self.documents@.map_values(|e: DocumentEntry| entry_view(e)),
            active_anim_stack: match self.active_anim_stack { Some(s) => Some(s@), None => None },
        }
    }
}

fn kstring(rs: &Vec<PRecord>, name: &str) -> (r: Option<String>)
    ensures
        match r {
            Some(s) => kstring_of(lookup(records_view(rs@), name@)) == Some(s@),
            None => kstring_of(lookup(records_view(rs@), name@)) is None,
        },
{
    match crate::globals::lookup_index(rs, name) {
        Some(i) => {
            let rec = &rs[i];
            proof { reveal_strlit("KString"); }
            let want = crate::text::str_chars("KString");
            let is_k = crate::globals::chars_match(rec.record_type.as_str(), &want);
            if is_k && rec.values.len() > 0 {
                assert(p_record_view(*rec).values[0] == tag_view(rec.values@[0]));
                match &rec.values[0] {
                    TaggedValue::Text(s) => if s.as_str().unicode_len() > 0 { Some(s.clone()) } else { None },
                    _ => None,
                }
            } else {
                None
            }
        }
        None => None,
    }
}

fn read_document(d: &FbxNode) -> (r: DocumentEntry)
    ensures entry_view(r) == document_v(node_view(*d)),
{
    let ghost ps = node_view(*d).properties;
    proof { reveal_strlit(""); }
    let name = match element_name(d) {
        Some(s) => s,
        None => String::new(),
    };
    let subtype = if d.properties.len() > 2 {
        proof { crate::ascii::lemma_props_view_index(d.properties@, 2); }
        match d.properties[2].as_str() {
            Some(s) => {
                proof { vstd::utf8::encode_utf8_decode_utf8(s@); }
                s.to_string()
            }
            None => String::new(),
        }
    } else {
        String::new()
    };
    let rs = read_own_records(d);
    let active_anim_stack = kstring(&rs, "ActiveAnimStackName");
    DocumentEntry { name, subtype, active_anim_stack }
}

/// The catalogue of a document's `Documents` section (see
/// [`spec_documents`]).
pub fn documents(doc: &FbxDocument) -> (r: DocumentsCatalogue)
    ensures r.view() == spec_documents(node_view(doc.root)),
{
    let mut out: Vec<DocumentEntry> = Vec::new();
    match doc.root.child("Documents") {
        Some(dn) => {
            let ghost cv = nodes_view(dn.children@);
            proof { lemma_nodes_view_len(dn.children@); }
            let mut i: usize = 0;
            while i < dn.children.len()
                invariant
                    i <= dn.children@.len(),
                    cv == nodes_view(dn.children@),
                    cv.len() == dn.children@.len(),
                    forall|k: int| 0 <= k < cv.len() ==> #[trigger] cv[k] == node_view(dn.children@[k]),
                    out@.map_values(|e: DocumentEntry| entry_view(e)) == documents_fold(cv, i as int),
                decreases dn.children@.len() - i,
            {
                let c = &dn.children[i];
                if crate::bytes::bytes_eq(c.name.as_str().as_bytes(), "Document".as_bytes()) {
                    let e = read_document(c);
                    let ghost before = out@;
                    out.push(e);
                    proof {
                        assert(out@.map_values(|e: DocumentEntry| entry_view(e))
                            =~= before.map_values(|e: DocumentEntry| entry_view(e)).push(entry_view(e)));
                    }
                }
                i += 1;
            }
        }
        None => {
            assert(out@.map_values(|e: DocumentEntry| entry_view(e)) =~= Seq::<DocumentV>::empty());
        }
    }
    let ghost ds = out@.map_values(|e: DocumentEntry| entry_view(e));
    let mut active: Option<String> = None;
    let mut j: usize = 0;
    assert(ds.subrange(0, ds.len() as int) =~= ds);
    while j < out.len()
        invariant
            j <= out@.len(),
            ds == out@.map_values(|e: DocumentEntry| entry_view(e)),
            first_active(ds) == (match active { Some(s) => Some(s@), None => first_active(ds.subrange(j as int, ds.len() as int)) }),
        decreases out@.len() - j,
    {
        let ghost rest = ds.subrange(j as int, ds.len() as int);
        assert(rest.drop_first() =~= ds.subrange(j + 1, ds.len() as int));
        assert(rest[0] == entry_view(out@[j as int]));
        if active.is_none() {
            match &out[j].active_anim_stack {
                Some(s) => { active = Some(s.clone()); }
                None => {}
            }
        }
        j += 1;
    }
    DocumentsCatalogue { documents: out, active_anim_stack: active }
}

} // verus!
