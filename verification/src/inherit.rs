//! Parent-to-child transform inheritance modes (`InheritType`).

use vstd::prelude::*;

verus! {

/// The three documented `InheritType` propagation rules.
#[derive(Clone, Copy, Debug, PartialEq, Eq, Structural)]
pub enum InheritType {
    /// `0`, the default: parent scale applied after the child's local
    /// rotation (`P_R · L_R · P_S · L_S`).
    RrSs,
    /// `1`: parent scale applied in the parent world (`P_R · P_S · L_R · L_S`).
    RSrs,
    /// `2`: parent scale not propagated.
    Rrs,
}

impl Default for InheritType {
    fn default() -> (r: Self)
        ensures r == InheritType::RrSs,
    {
        InheritType::RrSs
    }
}

/// The stored integer of a mode.
pub open spec fn inherit_int(t: InheritType) -> i64 {
    match t {
        InheritType::RrSs => 0,
        InheritType::RSrs => 1,
        InheritType::Rrs => 2,
    }
}

/// The mode a stored integer names, if any.
pub open spec fn inherit_of_int(v: i64) -> Option<InheritType> {
    if v == 0 {
        Some(InheritType::RrSs)
    } else if v == 1 {
        Some(InheritType::RSrs)
    } else if v == 2 {
        Some(InheritType::Rrs)
    } else {
        None
    }
}

impl InheritType {
    /// The mode stored as `v`; `None` outside `0..=2`.
    pub fn from_enum_int(v: i64) -> (r: Option<Self>)
        ensures r == inherit_of_int(v),
    {
        if v == 0 {
            Some(InheritType::RrSs)
        } else if v == 1 {
            Some(InheritType::RSrs)
        } else if v == 2 {
            Some(InheritType::Rrs)
        } else {
            None
        }
    }

    /// The stored integer of this mode.
    pub fn to_enum_int(self) -> (v: i64)
        ensures v == inherit_int(self),
    {
        match self {
            InheritType::RrSs => 0,
            InheritType::RSrs => 1,
            InheritType::Rrs => 2,
        }
    }
}

/// The effective mode of a node whose extras hold `stored` under
/// `fbx:inherit_type` (when it is an integer): absent or out-of-table
/// values fall back to the default.
pub fn inherit_type_from_stored(stored: Option<i64>) -> (t: InheritType)
    ensures
        t == (match stored {
            Some(v) => match inherit_of_int(v) {
                Some(m) => m,
                None => InheritType::RrSs,
            },
            None => InheritType::RrSs,
        }),
{
    match stored {
        Some(v) => match InheritType::from_enum_int(v) {
            Some(t) => t,
            None => InheritType::default(),
        },
        None => InheritType::default(),
    }
}

/// A mode's stored integer names the mode again.
pub proof fn lemma_inherit_round_trip(t: InheritType)
    ensures inherit_of_int(inherit_int(t)) == Some(t),
{
}

/// Exactly the integers `0..=2` name a mode, and a named mode is stored
/// as that integer.
pub proof fn lemma_inherit_int_round_trip(v: i64)
    ensures
        inherit_of_int(v) is Some <==> 0 <= v <= 2,
        inherit_of_int(v) matches Some(t) ==> inherit_int(t) == v,
{
}


/// The stored `InheritType` integers: `0` is `RrSs`, `1` is `RSrs`, `2`
/// is `Rrs`.
pub proof fn lemma_inherit_numbering()
    ensures
        inherit_of_int(0) == Some(InheritType::RrSs),
        inherit_of_int(1) == Some(InheritType::RSrs),
        inherit_of_int(2) == Some(InheritType::Rrs),
        inherit_int(InheritType::RrSs) == 0,
        inherit_int(InheritType::RSrs) == 1,
        inherit_int(InheritType::Rrs) == 2,
{
}

} // verus!
