//! Euler rotation orders of the node transform chain.

use vstd::prelude::*;

verus! {

/// Euler rotation order, numbered `0..=6` as stored.
#[derive(Clone, Copy, Debug, PartialEq, Eq, Structural)]
pub enum RotationOrder {
    /// `0`: X, then Y, then Z (`R = Rz · Ry · Rx`); the default.
    Xyz,
    /// `1`: X, then Z, then Y.
    Xzy,
    /// `2`: Y, then Z, then X.
    Yzx,
    /// `3`: Y, then X, then Z.
    Yxz,
    /// `4`: Z, then X, then Y.
    Zxy,
    /// `5`: Z, then Y, then X.
    Zyx,
    /// `6`: spherical interpolation; its rest matrix is built as `XYZ`.
    SphericXyz,
}

/// The stored integer of an order.
pub open spec fn order_int(o: RotationOrder) -> i64 {
    match o {
        RotationOrder::Xyz => 0,
        RotationOrder::Xzy => 1,
        RotationOrder::Yzx => 2,
        RotationOrder::Yxz => 3,
        RotationOrder::Zxy => 4,
        RotationOrder::Zyx => 5,
        RotationOrder::SphericXyz => 6,
    }
}

/// The order a stored integer names, if any.
pub open spec fn order_of_int(v: i64) -> Option<RotationOrder> {
    if v == 0 {
        Some(RotationOrder::Xyz)
    } else if v == 1 {
        Some(RotationOrder::Xzy)
    } else if v == 2 {
        Some(RotationOrder::Yzx)
    } else if v == 3 {
        Some(RotationOrder::Yxz)
    } else if v == 4 {
        Some(RotationOrder::Zxy)
    } else if v == 5 {
        Some(RotationOrder::Zyx)
    } else if v == 6 {
        Some(RotationOrder::SphericXyz)
    } else {
        None
    }
}

/// Application-order axis indices (`0` = X, `1` = Y, `2` = Z).
pub open spec fn order_axes(o: RotationOrder) -> [usize; 3] {
    match o {
        RotationOrder::Xyz | RotationOrder::SphericXyz => [0, 1, 2],
        RotationOrder::Xzy => [0, 2, 1],
        RotationOrder::Yzx => [1, 2, 0],
        RotationOrder::Yxz => [1, 0, 2],
        RotationOrder::Zxy => [2, 0, 1],
        RotationOrder::Zyx => [2, 1, 0],
    }
}

impl RotationOrder {
    /// The order stored as `v`; `None` outside `0..=6`.
    pub fn from_enum_int(v: i64) -> (r: Option<Self>)
        ensures r == order_of_int(v),
    {
        if v == 0 {
            Some(RotationOrder::Xyz)
        } else if v == 1 {
            Some(RotationOrder::Xzy)
        } else if v == 2 {
            Some(RotationOrder::Yzx)
        } else if v == 3 {
            Some(RotationOrder::Yxz)
        } else if v == 4 {
            Some(RotationOrder::Zxy)
        } else if v == 5 {
            Some(RotationOrder::Zyx)
        } else if v == 6 {
            Some(RotationOrder::SphericXyz)
        } else {
            None
        }
    }

    /// The stored integer of this order.
    pub fn to_enum_int(self) -> (v: i64)
        ensures v == order_int(self),
    {
        match self {
            RotationOrder::Xyz => 0,
            RotationOrder::Xzy => 1,
            RotationOrder::Yzx => 2,
            RotationOrder::Yxz => 3,
            RotationOrder::Zxy => 4,
            RotationOrder::Zyx => 5,
            RotationOrder::SphericXyz => 6,
        }
    }

    /// The axes in the order they are applied; an order named `ABC`
    /// rotates about `A` first.
    pub fn application_axes(self) -> (r: [usize; 3])
        ensures r == order_axes(self),
    {
        match self {
            RotationOrder::Xyz | RotationOrder::SphericXyz => [0, 1, 2],
            RotationOrder::Xzy => [0, 2, 1],
            RotationOrder::Yzx => [1, 2, 0],
            RotationOrder::Yxz => [1, 0, 2],
            RotationOrder::Zxy => [2, 0, 1],
            RotationOrder::Zyx => [2, 1, 0],
        }
    }
}

/// An order's stored integer names the order again.
pub proof fn lemma_order_round_trip(o: RotationOrder)
    ensures order_of_int(order_int(o)) == Some(o),
{
}

/// Exactly the integers `0..=6` name an order, and a named order is
/// stored as that integer.
pub proof fn lemma_order_int_round_trip(v: i64)
    ensures
        order_of_int(v) is Some <==> 0 <= v <= 6,
        order_of_int(v) matches Some(o) ==> order_int(o) == v,
{
}

/// The application axes are a permutation of X, Y, Z.
pub proof fn lemma_axes_permutation(o: RotationOrder)
    ensures
        ({
            let a = order_axes(o);
            a[0] < 3 && a[1] < 3 && a[2] < 3 && a[0] != a[1] && a[1] != a[2] && a[0] != a[2]
        }),
{
}


/// The letters of the stored Euler order `v` (`0..=5`): `XYZ`, `XZY`,
/// `YZX`, `YXZ`, `ZXY`, `ZYX`.
pub open spec fn euler_letters(v: i64) -> Seq<char> {
    if v == 0 { seq!['X', 'Y', 'Z'] }
    else if v == 1 { seq!['X', 'Z', 'Y'] }
    else if v == 2 { seq!['Y', 'Z', 'X'] }
    else if v == 3 { seq!['Y', 'X', 'Z'] }
    else if v == 4 { seq!['Z', 'X', 'Y'] }
    else { seq!['Z', 'Y', 'X'] }
}

/// The index of an axis letter: `X` is `0`, `Y` is `1`, `Z` is `2`.
pub open spec fn axis_index(c: char) -> int {
    if c == 'X' { 0 } else if c == 'Y' { 1 } else { 2 }
}

/// A stored Euler order rotates about the axes its name spells, in
/// that order: order `2` (`YZX`) about Y, then Z, then X; order `3`
/// (`YXZ`) about Y, then X, then Z.
pub proof fn lemma_axes_spell_the_name(v: i64)
    requires 0 <= v <= 5,
    ensures
        order_of_int(v) is Some,
        forall|k: int| 0 <= k < 3 ==> #[trigger] order_axes(order_of_int(v)->Some_0)[k] as int == axis_index(euler_letters(v)[k]),
{
}

/// Spherical interpolation builds its rest rotation as `XYZ`.
pub proof fn lemma_spheric_axes()
    ensures
        order_axes(RotationOrder::SphericXyz)[0] == 0,
        order_axes(RotationOrder::SphericXyz)[1] == 1,
        order_axes(RotationOrder::SphericXyz)[2] == 2,
{
}

} // verus!
