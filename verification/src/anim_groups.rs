//! The channels of one animation stack: its bound curves grouped per
//! animated element and transform property (first-seen order, one curve
//! per component, a later curve replacing an earlier one), and its
//! blend-shape weight curves per channel element (first-seen order, a
//! later curve replacing an earlier one).

use vstd::prelude::*;
use crate::animation::{binding_view, curve_role, spec_curve_role, AnimatedProperty, BindingV, CurveBinding, CurveRole};

verus! {

/// One transform property of one element: the bindings (by index)
/// driving its `d|X`, `d|Y` and `d|Z` components.
#[derive(Clone, Copy, Debug, PartialEq, Eq, Structural)]
pub struct TransformGroup {
    pub target: i64,
    pub property: AnimatedProperty,
    pub x: Option<usize>,
    pub y: Option<usize>,
    pub z: Option<usize>,
}

/// The weight curve (a binding index) of one blend-shape channel.
#[derive(Clone, Copy, Debug, PartialEq, Eq, Structural)]
pub struct MorphCurve {
    pub target: i64,
    pub binding: usize,
}

/// The channels of a stack.
#[derive(Debug)]
pub struct StackChannels {
    pub transforms: Vec<TransformGroup>,
    pub morphs: Vec<MorphCurve>,
}

/// The index of the group of `(target, p)`, or the length.
pub open spec fn group_index(ts: Seq<TransformGroup>, target: i64, p: AnimatedProperty, j: int) -> int
    decreases ts.len() - j,
{
    if 0 <= j < ts.len() && !(ts[j].target == target && ts[j].property == p) { group_index(ts, target, p, j + 1) } else { j }
}

/// `g` with component `axis` (if any) set to binding `i`.
pub open spec fn set_component(g: TransformGroup, axis: Option<u8>, i: int) -> TransformGroup {
    match axis {
        Some(0) => TransformGroup { x: Some(i as usize), ..g },
        Some(1) => TransformGroup { y: Some(i as usize), ..g },
        Some(2) => TransformGroup { z: Some(i as usize), ..g },
        _ => g,
    }
}

/// `ts` with binding `i` put into the group of `(target, p)`, which is
/// added at the end when it is new.
pub open spec fn put_group(ts: Seq<TransformGroup>, target: i64, p: AnimatedProperty, axis: Option<u8>, i: int) -> Seq<TransformGroup> {
    let j = group_index(ts, target, p, 0);
    if j < ts.len() {
        ts.update(j, set_component(ts[j], axis, i))
    } else {
        ts.push(set_component(TransformGroup { target, property: p, x: None, y: None, z: None }, axis, i))
    }
}

/// The index of the weight curve of `target`, or the length.
pub open spec fn morph_index(ms: Seq<MorphCurve>, target: i64, j: int) -> int
    decreases ms.len() - j,
{
    if 0 <= j < ms.len() && ms[j].target != target { morph_index(ms, target, j + 1) } else { j }
}

/// `ms` with the weight curve of `target` set to binding `i`.
pub open spec fn put_morph(ms: Seq<MorphCurve>, target: i64, i: int) -> Seq<MorphCurve> {
    let j = morph_index(ms, target, 0);
    let m = MorphCurve { target, binding: i as usize };
    if j < ms.len() { ms.update(j, m) } else { ms.push(m) }
}

/// The channels of stack `stack` among the first `n` bindings: transform
/// components of elements in `models`, weights of channels in `morphs`.
pub open spec fn groups_fold(bs: Seq<BindingV>, stack: i64, models: Seq<i64>, morphs: Seq<i64>, n: int) -> (Seq<TransformGroup>, Seq<MorphCurve>)
    decreases n,
{
    if n <= 0 {
        (Seq::empty(), Seq::empty())
    } else {
        let (ts, ms) = groups_fold(bs, stack, models, morphs, n - 1);
        let b = bs[n - 1];
        if b.stack != stack {
            (ts, ms)
        } else {
            match spec_curve_role(b.target_property, b.axis) {
                CurveRole::Component(p, axis) => if models.contains(b.target) {
                    (put_group(ts, b.target, p, axis, n - 1), ms)
                } else {
                    (ts, ms)
                },
                CurveRole::MorphWeight => if morphs.contains(b.target) {
                    (ts, put_morph(ms, b.target, n - 1))
                } else {
                    (ts, ms)
                },
                CurveRole::Unused => (ts, ms),
            }
        }
    }
}

pub open spec fn bindings_view<'a>(bs: Seq<CurveBinding<'a>>) -> Seq<BindingV> {
    bs.map_values(|b: CurveBinding<'a>| binding_view(b))
}

fn contains_id(xs: &[i64], x: i64) -> (r: bool)
    ensures r == xs@.contains(x),
{
    let mut i: usize = 0;
    while i < xs.len()
        invariant
            i <= xs@.len(),
            forall|k: int| 0 <= k < i ==> xs@[k] != x,
        decreases xs@.len() - i,
    {
        if xs[i] == x {
            assert(xs@[i as int] == x);
            return true;
        }
        i += 1;
    }
    false
}

fn find_group(ts: &Vec<TransformGroup>, target: i64, p: AnimatedProperty) -> (r: usize)
    ensures r == group_index(ts@, target, p, 0), r <= ts@.len(),
{
    let mut j: usize = 0;
    while j < ts.len()
        invariant
            j <= ts@.len(),
            group_index(ts@, target, p, 0) == group_index(ts@, target, p, j as int),
        decreases ts@.len() - j,
    {
        if ts[j].target == target && ts[j].property == p {
            return j;
        }
        j += 1;
    }
    j
}

fn find_morph(ms: &Vec<MorphCurve>, target: i64) -> (r: usize)
    ensures r == morph_index(ms@, target, 0), r <= ms@.len(),
{
    let mut j: usize = 0;
    while j < ms.len()
        invariant
            j <= ms@.len(),
            morph_index(ms@, target, 0) == morph_index(ms@, target, j as int),
        decreases ms@.len() - j,
    {
        if ms[j].target == target {
            return j;
        }
        j += 1;
    }
    j
}

fn with_component(g: TransformGroup, axis: Option<u8>, i: usize) -> (r: TransformGroup)
    ensures r == set_component(g, axis, i as int),
{
    match axis {
        Some(0) => TransformGroup { x: Some(i), ..g },
        Some(1) => TransformGroup { y: Some(i), ..g },
        Some(2) => TransformGroup { z: Some(i), ..g },
        _ => g,
    }
}

/// The channels of stack `stack` (see [`groups_fold`]): bindings are
/// referred to by their index in `bindings`.
pub fn stack_channel_groups(bindings: &[CurveBinding], stack: i64, models: &[i64], morphs: &[i64]) -> (r: StackChannels)
    ensures
        (r.transforms@, r.morphs@) == groups_fold(bindings_view(bindings@), stack, models@, morphs@, bindings@.len() as int),
{
    let ghost bs = bindings_view(bindings@);
    let mut ts: Vec<TransformGroup> = Vec::new();
    let mut ms: Vec<MorphCurve> = Vec::new();
    let mut i: usize = 0;
    while i < bindings.len()
        invariant
            i <= bindings@.len(),
            bs == bindings_view(bindings@),
            (ts@, ms@) == groups_fold(bs, stack, models@, morphs@, i as int),
        decreases bindings@.len() - i,
    {
        let b = &bindings[i];
        assert(bs[i as int] == binding_view(*b));
        if b.stack == stack {
            match curve_role(b.target_property.as_str(), b.axis.as_str()) {
                CurveRole::Component(p, axis) => {
                    if contains_id(models, b.target) {
                        let j = find_group(&ts, b.target, p);
                        if j < ts.len() {
                            let g = with_component(ts[j], axis, i);
                            ts.set(j, g);
                        } else {
                            let g = with_component(TransformGroup { target: b.target, property: p, x: None, y: None, z: None }, axis, i);
                            ts.push(g);
                        }
                    }
                }
                CurveRole::MorphWeight => {
                    if contains_id(morphs, b.target) {
                        let j = find_morph(&ms, b.target);
                        let m = MorphCurve { target: b.target, binding: i };
                        if j < ms.len() {
                            ms.set(j, m);
                        } else {
                            ms.push(m);
                        }
                    }
                }
                CurveRole::Unused => {}
            }
        }
        i += 1;
    }
    StackChannels { transforms: ts, morphs: ms }
}

} // verus!
