//! The `GlobalSettings` element: the scene-wide `P` records it holds,
//! which of them are recognised and how each is read, the up / front
//! axes with their coherence guard, and the extras keys the records
//! are surfaced under.

use vstd::prelude::*;
use vstd::string::StringSliceAdditionalSpecFns;
use crate::constraint::{own_records, p_record_view, read_own_records, records_view, tag_view, PRecord, PRecordV, TagV, TaggedValue};
use crate::model::{clone_real, first_named, node_view, FbxDocument, NodeV};
use crate::text::{str_chars, string_from_chars};

verus! {

/// A signed coordinate axis.
#[derive(Clone, Copy, Debug, PartialEq, Eq, Structural)]
pub enum Axis {
    PosX,
    NegX,
    PosY,
    NegY,
    PosZ,
    NegZ,
}

/// The `(axis, sign)` pair of an axis: `0 = X`, `1 = Y`, `2 = Z`, sign
/// `+1` / `-1`.
pub open spec fn axis_ints(a: Axis) -> (i32, i32) {
    match a {
        Axis::PosX => (0i32, 1i32),
        Axis::NegX => (0i32, -1i32),
        Axis::PosY => (1i32, 1i32),
        Axis::NegY => (1i32, -1i32),
        Axis::PosZ => (2i32, 1i32),
        Axis::NegZ => (2i32, -1i32),
    }
}

/// The axis an `(axis, sign)` pair names, if any.
pub open spec fn axis_of_ints(axis: i64, sign: i64) -> Option<Axis> {
    if axis == 0 && sign == 1 {
        Some(Axis::PosX)
    } else if axis == 0 && sign == -1 {
        Some(Axis::NegX)
    } else if axis == 1 && sign == 1 {
        Some(Axis::PosY)
    } else if axis == 1 && sign == -1 {
        Some(Axis::NegY)
    } else if axis == 2 && sign == 1 {
        Some(Axis::PosZ)
    } else if axis == 2 && sign == -1 {
        Some(Axis::NegZ)
    } else {
        None
    }
}

/// The axis an `(axis, sign)` pair names; `None` outside the table.
pub fn axis_from_ints(axis: i64, sign: i64) -> (r: Option<Axis>)
    ensures r == axis_of_ints(axis, sign),
{
    if axis == 0 && sign == 1 {
        Some(Axis::PosX)
    } else if axis == 0 && sign == -1 {
        Some(Axis::NegX)
    } else if axis == 1 && sign == 1 {
        Some(Axis::PosY)
    } else if axis == 1 && sign == -1 {
        Some(Axis::NegY)
    } else if axis == 2 && sign == 1 {
        Some(Axis::PosZ)
    } else if axis == 2 && sign == -1 {
        Some(Axis::NegZ)
    } else {
        None
    }
}

/// The `(axis, sign)` pair of an axis.
pub fn axis_to_ints(axis: Axis) -> (r: (i32, i32))
    ensures r == axis_ints(axis),
{
    match axis {
        Axis::PosX => (0, 1),
        Axis::NegX => (0, -1),
        Axis::PosY => (1, 1),
        Axis::NegY => (1, -1),
        Axis::PosZ => (2, 1),
        Axis::NegZ => (2, -1),
    }
}

/// An axis's pair names the axis again.
pub proof fn lemma_axis_round_trip(a: Axis)
    ensures axis_of_ints(axis_ints(a).0 as i64, axis_ints(a).1 as i64) == Some(a),
{
}

/// A pair that names an axis is that axis's pair.
pub proof fn lemma_axis_ints_round_trip(axis: i64, sign: i64)
    ensures
        axis_of_ints(axis, sign) matches Some(a) ==> axis_ints(a).0 == axis && axis_ints(a).1 == sign,
        axis_of_ints(axis, sign) is Some <==> (0 <= axis <= 2 && (sign == 1 || sign == -1)),
{
}

pub open spec fn is_upper(c: char) -> bool {
    'A' <= c && c <= 'Z'
}

pub open spec fn lower_of(c: char) -> char {
    ((c as u32) + 32) as char
}

/// The snake-case form of a CamelCase name, and whether its last
/// character was a lowercase letter or digit: an underscore goes before
/// an uppercase letter that follows one.
pub open spec fn snake(cs: Seq<char>) -> (Seq<char>, bool)
    decreases cs.len(),
{
    if cs.len() == 0 {
        (Seq::empty(), false)
    } else {
        let (out, prev_lower) = snake(cs.drop_last());
        let c = cs.last();
        if is_upper(c) {
            ((if prev_lower { out.push('_') } else { out }).push(lower_of(c)), false)
        } else {
            (out.push(c), ('a' <= c && c <= 'z') || ('0' <= c && c <= '9'))
        }
    }
}

pub open spec fn fbx_colon() -> Seq<char> {
    seq!['f', 'b', 'x', ':']
}

/// The extras key of a `P` record: `fbx:` and the snake-case name
/// (`UpAxisSign` gives `fbx:up_axis_sign`).
pub fn extras_key(p_record_name: &str) -> (r: String)
    ensures r@ == fbx_colon() + snake(p_record_name@).0,
{
    let cs = str_chars(p_record_name);
    let mut out: Vec<char> = vec!['f', 'b', 'x', ':'];
    let mut prev_lower = false;
    let mut i: usize = 0;
    assert(out@ =~= fbx_colon() + snake(cs@.subrange(0, 0)).0);
    while i < cs.len()
        invariant
            i <= cs@.len(),
            out@ == fbx_colon() + snake(cs@.subrange(0, i as int)).0,
            prev_lower == snake(cs@.subrange(0, i as int)).1,
        decreases cs@.len() - i,
    {
        let c = cs[i];
        assert(cs@.subrange(0, i + 1).drop_last() =~= cs@.subrange(0, i as int));
        if 'A' <= c && c <= 'Z' {
            if prev_lower {
                out.push('_');
            }
            let lo = ((c as u32) + 32) as u8 as char;
            assert(lo == lower_of(c));
            out.push(lo);
            prev_lower = false;
        } else {
            out.push(c);
            prev_lower = ('a' <= c && c <= 'z') || ('0' <= c && c <= '9');
        }
        i += 1;
        assert(out@ =~= fbx_colon() + snake(cs@.subrange(0, i as int)).0);
    }
    assert(cs@.subrange(0, cs@.len() as int) =~= cs@);
    string_from_chars(out.as_slice())
}


// ---------------------------------------------------------------------
// Recognised records
// ---------------------------------------------------------------------

/// How a recognised record's value is read.
#[derive(Clone, Copy, Debug, PartialEq, Eq, Structural)]
pub enum SettingKind {
    /// An integer in `i32` range (axis, sign and enum records).
    Int32,
    /// A `KTime` tick count, any `i64`.
    Ticks,
    /// A number: an integer or a float.
    Number,
    /// A string.
    Text,
    /// Three numbers (a colour or vector).
    Triple,
}

/// The number of recognised record names.
pub open spec fn settings_count() -> int {
    19
}

/// The recognised record names with their kinds, in surfacing order.
pub open spec fn setting_at(i: int) -> (Seq<char>, SettingKind) {
    if i == 0 { ("UpAxis"@, SettingKind::Int32) }
    else if i == 1 { ("UpAxisSign"@, SettingKind::Int32) }
    else if i == 2 { ("FrontAxis"@, SettingKind::Int32) }
    else if i == 3 { ("FrontAxisSign"@, SettingKind::Int32) }
    else if i == 4 { ("CoordAxis"@, SettingKind::Int32) }
    else if i == 5 { ("CoordAxisSign"@, SettingKind::Int32) }
    else if i == 6 { ("OriginalUpAxis"@, SettingKind::Int32) }
    else if i == 7 { ("OriginalUpAxisSign"@, SettingKind::Int32) }
    else if i == 8 { ("TimeMode"@, SettingKind::Int32) }
    else if i == 9 { ("TimeProtocol"@, SettingKind::Int32) }
    else if i == 10 { ("SnapOnFrameMode"@, SettingKind::Int32) }
    else if i == 11 { ("CurrentTimeMarker"@, SettingKind::Int32) }
    else if i == 12 { ("TimeSpanStart"@, SettingKind::Ticks) }
    else if i == 13 { ("TimeSpanStop"@, SettingKind::Ticks) }
    else if i == 14 { ("UnitScaleFactor"@, SettingKind::Number) }
    else if i == 15 { ("OriginalUnitScaleFactor"@, SettingKind::Number) }
    else if i == 16 { ("CustomFrameRate"@, SettingKind::Number) }
    else if i == 17 { ("DefaultCamera"@, SettingKind::Text) }
    else { ("AmbientColor"@, SettingKind::Triple) }
}

fn setting_at_exec(i: usize) -> (r: (&'static str, SettingKind))
    requires i < settings_count(),
    ensures r.0@ == setting_at(i as int).0, r.1 == setting_at(i as int).1,
{
    if i == 0 { ("UpAxis", SettingKind::Int32) }
    else if i == 1 { ("UpAxisSign", SettingKind::Int32) }
    else if i == 2 { ("FrontAxis", SettingKind::Int32) }
    else if i == 3 { ("FrontAxisSign", SettingKind::Int32) }
    else if i == 4 { ("CoordAxis", SettingKind::Int32) }
    else if i == 5 { ("CoordAxisSign", SettingKind::Int32) }
    else if i == 6 { ("OriginalUpAxis", SettingKind::Int32) }
    else if i == 7 { ("OriginalUpAxisSign", SettingKind::Int32) }
    else if i == 8 { ("TimeMode", SettingKind::Int32) }
    else if i == 9 { ("TimeProtocol", SettingKind::Int32) }
    else if i == 10 { ("SnapOnFrameMode", SettingKind::Int32) }
    else if i == 11 { ("CurrentTimeMarker", SettingKind::Int32) }
    else if i == 12 { ("TimeSpanStart", SettingKind::Ticks) }
    else if i == 13 { ("TimeSpanStop", SettingKind::Ticks) }
    else if i == 14 { ("UnitScaleFactor", SettingKind::Number) }
    else if i == 15 { ("OriginalUnitScaleFactor", SettingKind::Number) }
    else if i == 16 { ("CustomFrameRate", SettingKind::Number) }
    else if i == 17 { ("DefaultCamera", SettingKind::Text) }
    else { ("AmbientColor", SettingKind::Triple) }
}

/// The record a name resolves to: the last record of that name (a
/// repeated name overrides the earlier ones).
pub open spec fn lookup(rs: Seq<PRecordV>, name: Seq<char>) -> Option<PRecordV>
    decreases rs.len(),
{
    if rs.len() == 0 {
        None
    } else if rs.last().name == name {
        Some(rs.last())
    } else {
        lookup(rs.drop_last(), name)
    }
}

pub open spec fn is_number(t: TagV) -> bool {
    t is Int || t is Float32 || t is Float64
}

/// A recognised record's value.
pub enum SettingV {
    Int(i64),
    Number(TagV),
    Text(Seq<char>),
    Triple(TagV, TagV, TagV),
}

/// How a record reads under a kind; `None` where its first value does
/// not have that shape.
pub open spec fn setting_value(r: PRecordV, k: SettingKind) -> Option<SettingV> {
    let vs = r.values;
    match k {
        SettingKind::Int32 => if vs.len() > 0 && vs[0] is Int && i32::MIN <= vs[0]->Int_0 <= i32::MAX {
            Some(SettingV::Int(vs[0]->Int_0))
        } else {
            None
        },
        SettingKind::Ticks => if vs.len() > 0 && vs[0] is Int { Some(SettingV::Int(vs[0]->Int_0)) } else { None },
        SettingKind::Number => if vs.len() > 0 && is_number(vs[0]) { Some(SettingV::Number(vs[0])) } else { None },
        SettingKind::Text => if vs.len() > 0 && vs[0] is Text { Some(SettingV::Text(vs[0]->Text_0)) } else { None },
        SettingKind::Triple => if vs.len() >= 3 && is_number(vs[0]) && is_number(vs[1]) && is_number(vs[2]) {
            Some(SettingV::Triple(vs[0], vs[1], vs[2]))
        } else {
            None
        },
    }
}

pub open spec fn setting_of(rs: Seq<PRecordV>, name: Seq<char>, k: SettingKind) -> Option<SettingV> {
    match lookup(rs, name) {
        Some(r) => setting_value(r, k),
        None => None,
    }
}

/// A recognised record surfaced under its extras key.
pub struct GlobalSettingV {
    pub key: Seq<char>,
    pub value: SettingV,
}

/// The recognised records among the first `n` names of the table that
/// resolve and read under their kind, in table order.
pub open spec fn settings_fold(rs: Seq<PRecordV>, n: int) -> Seq<GlobalSettingV>
    decreases n,
{
    if n <= 0 {
        Seq::empty()
    } else {
        let prev = settings_fold(rs, n - 1);
        let (name, k) = setting_at(n - 1);
        match setting_of(rs, name, k) {
            Some(v) => prev.push(GlobalSettingV { key: fbx_colon() + snake(name).0, value: v }),
            None => prev,
        }
    }
}

// ---------------------------------------------------------------------
// Axes
// ---------------------------------------------------------------------

/// Why a declared axis convention was found incoherent.
#[derive(Clone, Copy, Debug, PartialEq, Eq, Structural)]
pub enum AxisConflict {
    /// `UpAxis` and `FrontAxis` name the same axis.
    UpFrontEqual,
    /// `CoordAxis` names the up or the front axis.
    CoordAxisCollision,
}

pub open spec fn int_setting(rs: Seq<PRecordV>, name: Seq<char>) -> Option<i64> {
    match setting_of(rs, name, SettingKind::Int32) {
        Some(SettingV::Int(n)) => Some(n),
        _ => None,
    }
}

/// An axis record's integer when it is `0`, `1` or `2`.
pub open spec fn in_table(rs: Seq<PRecordV>, name: Seq<char>) -> Option<i64> {
    match int_setting(rs, name) {
        Some(n) => if 0 <= n <= 2 { Some(n) } else { None },
        None => None,
    }
}

/// The axis an `(axis, sign)` record pair names; an absent sign record
/// counts as `+1`.
pub open spec fn typed_axis(rs: Seq<PRecordV>, axis_name: Seq<char>, sign_name: Seq<char>) -> Option<Axis> {
    match int_setting(rs, axis_name) {
        Some(a) => axis_of_ints(a, match int_setting(rs, sign_name) { Some(s) => s, None => 1 }),
        None => None,
    }
}

pub open spec fn up_front_clash(rs: Seq<PRecordV>) -> bool {
    in_table(rs, "UpAxis"@) is Some && in_table(rs, "UpAxis"@) == in_table(rs, "FrontAxis"@)
}

pub open spec fn axis_conflict_of(rs: Seq<PRecordV>) -> Option<AxisConflict> {
    let coord = in_table(rs, "CoordAxis"@);
    if up_front_clash(rs) {
        Some(AxisConflict::UpFrontEqual)
    } else if coord is Some && (coord == in_table(rs, "UpAxis"@) || coord == in_table(rs, "FrontAxis"@)) {
        Some(AxisConflict::CoordAxisCollision)
    } else {
        None
    }
}

// ---------------------------------------------------------------------
// The whole element
// ---------------------------------------------------------------------

/// The records of the first top-level `GlobalSettings` node.
pub open spec fn gs_records(root: NodeV) -> Seq<PRecordV> {
    match first_named(root.children, "GlobalSettings".spec_bytes()) {
        Some(g) => own_records(g),
        None => Seq::empty(),
    }
}

pub struct GlobalSettingsV {
    pub settings: Seq<GlobalSettingV>,
    pub recognised: nat,
    pub up_axis: Option<Axis>,
    pub front_axis: Option<Axis>,
    pub axis_conflict: Option<AxisConflict>,
    pub unit_scale_factor: Option<TagV>,
    pub records: Seq<PRecordV>,
}

/// What a document's `GlobalSettings` declares: the recognised records,
/// their count, the typed up / front axes (neither when up and front
/// coincide), the coherence marker, the unit scale factor and the
/// verbatim record set.
pub open spec fn spec_global_settings(root: NodeV) -> GlobalSettingsV {
    let rs = gs_records(root);
    let clash = up_front_clash(rs);
    GlobalSettingsV {
        settings: settings_fold(rs, settings_count()),
        recognised: settings_fold(rs, settings_count()).len(),
        up_axis: if clash { None } else { typed_axis(rs, "UpAxis"@, "UpAxisSign"@) },
        front_axis: if clash { None } else { typed_axis(rs, "FrontAxis"@, "FrontAxisSign"@) },
        axis_conflict: axis_conflict_of(rs),
        unit_scale_factor: match setting_of(rs, "UnitScaleFactor"@, SettingKind::Number) {
            Some(SettingV::Number(t)) => Some(t),
            _ => None,
        },
        records: rs,
    }
}

/// A recognised record's value.
#[derive(Debug)]
pub enum SettingValue {
    Int(i64),
    Number(TaggedValue),
    Text(String),
    Triple(TaggedValue, TaggedValue, TaggedValue),
}

pub open spec fn setting_view(v: SettingValue) -> SettingV {
    match v {
        SettingValue::Int(n) => SettingV::Int(n),
        SettingValue::Number(t) => SettingV::Number(tag_view(t)),
        SettingValue::Text(s) => SettingV::Text(s@),
        SettingValue::Triple(a, b, c) => SettingV::Triple(tag_view(a), tag_view(b), tag_view(c)),
    }
}

/// A recognised record under its extras key.
#[derive(Debug)]
pub struct GlobalSetting {
    pub key: String,
    pub value: SettingValue,
}

pub open spec fn global_setting_view(g: GlobalSetting) -> GlobalSettingV {
    GlobalSettingV { key: g.key@, value: setting_view(g.value) }
}

/// What a document's `GlobalSettings` declares (see
/// [`spec_global_settings`]).
#[derive(Debug)]
pub struct GlobalSettingsPlan {
    pub settings: Vec<GlobalSetting>,
    pub recognised: usize,
    pub up_axis: Option<Axis>,
    pub front_axis: Option<Axis>,
    pub axis_conflict: Option<AxisConflict>,
    pub unit_scale_factor: Option<TaggedValue>,
    pub records: Vec<PRecord>,
}

impl GlobalSettingsPlan {
    pub open spec fn view(self) -> GlobalSettingsV {
        GlobalSettingsV {
            settings: self.settings@.map_values(|g: GlobalSetting| global_setting_view(g)),
            recognised: self.recognised as nat,
            up_axis: self.up_axis,
            front_axis: self.front_axis,
            axis_conflict: self.axis_conflict,
            unit_scale_factor: match self.unit_scale_factor {
                Some(t) => Some(tag_view(t)),
                None => None,
            },
            records: records_view(self.records@),
        }
    }
}

/// Whether a string holds exactly the given characters.
pub(crate) fn chars_match(s: &str, cs: &Vec<char>) -> (r: bool)
    ensures r == (s@ == cs@),
{
    let v = str_chars(s);
    if v.len() != cs.len() {
        return false;
    }
    let mut i: usize = 0;
    while i < v.len()
        invariant
            i <= v@.len() == cs@.len(),
            v@ == s@,
            forall|k: int| 0 <= k < i ==> v@[k] == cs@[k],
        decreases v@.len() - i,
    {
        if v[i] != cs[i] {
            return false;
        }
        i += 1;
    }
    assert(v@ =~= cs@);
    true
}

/// The index of the record a name resolves to (see [`lookup`]).
pub(crate) fn lookup_index(rs: &Vec<PRecord>, name: &str) -> (r: Option<usize>)
    ensures
        match r {
            Some(i) => i < rs@.len() && lookup(records_view(rs@), name@) == Some(p_record_view(rs@[i as int])),
            None => lookup(records_view(rs@), name@) is None,
        },
{
    let ghost rv = records_view(rs@);
    let target = str_chars(name);
    let mut found: Option<usize> = None;
    let mut i: usize = 0;
    while i < rs.len()
        invariant
            i <= rs@.len(),
            rv == records_view(rs@),
            target@ == name@,
            match found {
                Some(j) => j < i && lookup(rv.subrange(0, i as int), name@) == Some(p_record_view(rs@[j as int])),
                None => lookup(rv.subrange(0, i as int), name@) is None,
            },
        decreases rs@.len() - i,
    {
        let ghost sub = rv.subrange(0, i + 1);
        assert(sub.drop_last() =~= rv.subrange(0, i as int));
        assert(sub.last() == p_record_view(rs@[i as int]));
        if chars_match(rs[i].name.as_str(), &target) {
            found = Some(i);
        }
        i += 1;
    }
    assert(rv.subrange(0, rs@.len() as int) =~= rv);
    found
}

fn clone_tagged(t: &TaggedValue) -> (r: TaggedValue)
    ensures tag_view(r) == tag_view(*t),
{
    match t {
        TaggedValue::Bool(b) => TaggedValue::Bool(*b),
        TaggedValue::Int(n) => TaggedValue::Int(*n),
        TaggedValue::Float32(x) => TaggedValue::Float32(*x),
        TaggedValue::Float64(r) => TaggedValue::Float64(clone_real(r)),
        TaggedValue::Text(s) => TaggedValue::Text(s.clone()),
    }
}

fn is_number_exec(t: &TaggedValue) -> (r: bool)
    ensures r == is_number(tag_view(*t)),
{
    match t {
        TaggedValue::Int(_) | TaggedValue::Float32(_) | TaggedValue::Float64(_) => true,
        _ => false,
    }
}

/// How a record reads under a kind (see [`setting_value`]).
fn read_setting(r: &PRecord, k: SettingKind) -> (v: Option<SettingValue>)
    ensures
        match v {
            Some(x) => setting_value(p_record_view(*r), k) == Some(setting_view(x)),
            None => setting_value(p_record_view(*r), k) is None,
        },
{
    let vs = &r.values;
    let ghost tv = p_record_view(*r).values;
    assert(tv.len() == vs@.len());
    match k {
        SettingKind::Int32 => {
            if vs.len() > 0 {
                assert(tv[0] == tag_view(vs@[0]));
                match &vs[0] {
                    TaggedValue::Int(n) => {
                        if i32::MIN as i64 <= *n && *n <= i32::MAX as i64 { Some(SettingValue::Int(*n)) } else { None }
                    }
                    _ => None,
                }
            } else {
                None
            }
        }
        SettingKind::Ticks => {
            if vs.len() > 0 {
                assert(tv[0] == tag_view(vs@[0]));
                match &vs[0] {
                    TaggedValue::Int(n) => Some(SettingValue::Int(*n)),
                    _ => None,
                }
            } else {
                None
            }
        }
        SettingKind::Number => {
            if vs.len() > 0 {
                assert(tv[0] == tag_view(vs@[0]));
                if is_number_exec(&vs[0]) { Some(SettingValue::Number(clone_tagged(&vs[0]))) } else { None }
            } else {
                None
            }
        }
        SettingKind::Text => {
            if vs.len() > 0 {
                assert(tv[0] == tag_view(vs@[0]));
                match &vs[0] {
                    TaggedValue::Text(s) => Some(SettingValue::Text(s.clone())),
                    _ => None,
                }
            } else {
                None
            }
        }
        SettingKind::Triple => {
            if vs.len() >= 3 {
                assert(tv[0] == tag_view(vs@[0]));
                assert(tv[1] == tag_view(vs@[1]));
                assert(tv[2] == tag_view(vs@[2]));
                if is_number_exec(&vs[0]) && is_number_exec(&vs[1]) && is_number_exec(&vs[2]) {
                    Some(SettingValue::Triple(clone_tagged(&vs[0]), clone_tagged(&vs[1]), clone_tagged(&vs[2])))
                } else {
                    None
                }
            } else {
                None
            }
        }
    }
}

/// The value a name resolves to under a kind (see [`setting_of`]).
fn read_named(rs: &Vec<PRecord>, name: &str, k: SettingKind) -> (v: Option<SettingValue>)
    ensures
        match v {
            Some(x) => setting_of(records_view(rs@), name@, k) == Some(setting_view(x)),
            None => setting_of(records_view(rs@), name@, k) is None,
        },
{
    match lookup_index(rs, name) {
        Some(i) => read_setting(&rs[i], k),
        None => None,
    }
}

fn read_int(rs: &Vec<PRecord>, name: &str) -> (v: Option<i64>)
    ensures v == int_setting(records_view(rs@), name@),
{
    match read_named(rs, name, SettingKind::Int32) {
        Some(SettingValue::Int(n)) => Some(n),
        Some(_) => {
            assert(false);
            None
        }
        None => None,
    }
}

fn read_in_table(rs: &Vec<PRecord>, name: &str) -> (v: Option<i64>)
    ensures v == in_table(records_view(rs@), name@),
{
    match read_int(rs, name) {
        Some(n) => if 0 <= n && n <= 2 { Some(n) } else { None },
        None => None,
    }
}

fn read_axis(rs: &Vec<PRecord>, axis_name: &str, sign_name: &str) -> (v: Option<Axis>)
    ensures v == typed_axis(records_view(rs@), axis_name@, sign_name@),
{
    match read_int(rs, axis_name) {
        Some(a) => {
            let s = match read_int(rs, sign_name) { Some(s) => s, None => 1 };
            axis_from_ints(a, s)
        }
        None => None,
    }
}

/// Decode a document's `GlobalSettings` (see [`spec_global_settings`]).
pub fn global_settings(doc: &FbxDocument) -> (r: GlobalSettingsPlan)
    ensures r.view() == spec_global_settings(doc_view_root(doc)),
{
    let records: Vec<PRecord> = match doc.root.child("GlobalSettings") {
        Some(g) => read_own_records(g),
        None => Vec::new(),
    };
    let ghost rs = records_view(records@);
    assert(rs == gs_records(doc_view_root(doc)));
    let mut settings: Vec<GlobalSetting> = Vec::new();
    let mut i: usize = 0;
    while i < 19
        invariant
            i <= settings_count(),
            rs == records_view(records@),
            settings@.map_values(|g: GlobalSetting| global_setting_view(g)) == settings_fold(rs, i as int),
        decreases 19 - i,
    {
        let (name, k) = setting_at_exec(i);
        match read_named(&records, name, k) {
            Some(v) => {
                let key = extras_key(name);
                let g = GlobalSetting { key, value: v };
                let ghost before = settings@;
                settings.push(g);
                proof {
                    assert(settings@.map_values(|g: GlobalSetting| global_setting_view(g))
                        =~= before.map_values(|g: GlobalSetting| global_setting_view(g)).push(global_setting_view(g)));
                }
            }
            None => {}
        }
        i += 1;
    }
    let up_i = read_in_table(&records, "UpAxis");
    let front_i = read_in_table(&records, "FrontAxis");
    let coord_i = read_in_table(&records, "CoordAxis");
    let clash = match (up_i, front_i) {
        (Some(a), Some(b)) => a == b,
        _ => false,
    };
    let (up_axis, front_axis, axis_conflict) = if clash {
        (None, None, Some(AxisConflict::UpFrontEqual))
    } else {
        let up = read_axis(&records, "UpAxis", "UpAxisSign");
        let front = read_axis(&records, "FrontAxis", "FrontAxisSign");
        let collide = match coord_i {
            Some(c) => (match up_i { Some(u) => c == u, None => false }) || (match front_i { Some(f) => c == f, None => false }),
            None => false,
        };
        (up, front, if collide { Some(AxisConflict::CoordAxisCollision) } else { None })
    };
    let unit_scale_factor = match read_named(&records, "UnitScaleFactor", SettingKind::Number) {
        Some(SettingValue::Number(t)) => Some(t),
        Some(_) => {
            assert(false);
            None
        }
        None => None,
    };
    let recognised = settings.len();
    GlobalSettingsPlan { settings, recognised, up_axis, front_axis, axis_conflict, unit_scale_factor, records }
}

/// The view of a document's root.
pub open spec fn doc_view_root(doc: &FbxDocument) -> NodeV {
    node_view(doc.root)
}


/// The axis integers: `0` is X, `1` is Y, `2` is Z, and the sign `+1`
/// or `-1` picks the direction.
pub proof fn lemma_axis_numbering()
    ensures
        axis_of_ints(0, 1) == Some(Axis::PosX),
        axis_of_ints(0, -1i64) == Some(Axis::NegX),
        axis_of_ints(1, 1) == Some(Axis::PosY),
        axis_of_ints(1, -1i64) == Some(Axis::NegY),
        axis_of_ints(2, 1) == Some(Axis::PosZ),
        axis_of_ints(2, -1i64) == Some(Axis::NegZ),
        axis_ints(Axis::PosX) == (0i32, 1i32),
        axis_ints(Axis::NegY) == (1i32, -1i32),
        axis_ints(Axis::PosZ) == (2i32, 1i32),
{
}

} // verus!
