//! Where the written animation graph puts each channel, and which ids
//! it draws: per animation a stack id and a layer id, then one curve
//! node and one `d|DeformPercent` curve per morph-target slot of each
//! blend-shape channel (in channel order), then one curve node with
//! `d|X` / `d|Y` / `d|Z` curves per animated node and transform slot
//! (nodes in first-seen order, slots translation, rotation, scale).
//! Ids are drawn consecutively.

use vstd::prelude::*;
use crate::anim_writer::{CurveEmit, CurveNodeEmit, StackEmit};

verus! {

/// The property an animation channel drives.
#[derive(Clone, Copy, Debug, PartialEq, Eq, Structural)]
pub enum ChannelKind {
    Translation,
    Rotation,
    Scale,
    MorphWeights,
}

/// What the layout needs of one channel: its scene node (an index),
/// the property it drives, for a blend-shape channel the number of
/// weights per key (`None` when its value table is malformed), and for
/// a transform channel whether its values split into three components.
#[derive(Clone, Copy, Debug)]
pub struct ChannelIn {
    pub node: usize,
    pub kind: ChannelKind,
    pub stride: Option<usize>,
    pub components_ok: bool,
}

/// One curve node to write: its id, its curves' ids, the channel whose
/// keys it carries, the slot (morph-target index, or `0` / `1` / `2`
/// for translation / rotation / scale), the element it drives, and
/// whether it is a `DeformPercent` node.
#[derive(Debug)]
pub struct CurveNodeLayout {
    pub node_id: i64,
    pub curve_ids: Vec<i64>,
    pub channel: usize,
    pub slot: usize,
    pub target: i64,
    pub morph: bool,
}

pub struct CurveNodeLayoutV {
    pub node_id: int,
    pub curve_ids: Seq<int>,
    pub channel: int,
    pub slot: int,
    pub target: int,
    pub morph: bool,
}

pub open spec fn ids_view(v: Seq<i64>) -> Seq<int> {
    v.map_values(|x: i64| x as int)
}

pub open spec fn curve_node_layout_view(c: CurveNodeLayout) -> CurveNodeLayoutV {
    CurveNodeLayoutV {
        node_id: c.node_id as int,
        curve_ids: ids_view(c.curve_ids@),
        channel: c.channel as int,
        slot: c.slot as int,
        target: c.target as int,
        morph: c.morph,
    }
}

/// The layout of one animation: its stack id, its layer id and its
/// curve nodes in writing order.
#[derive(Debug)]
pub struct AnimationLayout {
    pub stack_id: i64,
    pub layer_id: i64,
    pub curve_nodes: Vec<CurveNodeLayout>,
}

pub struct AnimationLayoutV {
    pub stack_id: int,
    pub layer_id: int,
    pub curve_nodes: Seq<CurveNodeLayoutV>,
}

pub open spec fn layouts_view(v: Seq<CurveNodeLayout>) -> Seq<CurveNodeLayoutV> {
    v.map_values(|c: CurveNodeLayout| curve_node_layout_view(c))
}

pub open spec fn animation_layout_view(a: AnimationLayout) -> AnimationLayoutV {
    AnimationLayoutV {
        stack_id: a.stack_id as int,
        layer_id: a.layer_id as int,
        curve_nodes: layouts_view(a.curve_nodes@),
    }
}

// ---------------------------------------------------------------------
// The layout as a function
// ---------------------------------------------------------------------

/// The blend-shape channel ids of a scene node (none when the node has
/// none or lies outside the table).
pub open spec fn ids_of(mids: Seq<Option<Vec<i64>>>, v: int) -> Seq<i64> {
    if 0 <= v < mids.len() && mids[v] is Some { mids[v]->Some_0@ } else { Seq::empty() }
}

/// The FBX id of a scene node's model, if it has one.
pub open spec fn model_of(nf: Seq<Option<i64>>, v: int) -> Option<i64> {
    if 0 <= v < nf.len() { nf[v] } else { None }
}

/// The number of morph-target slots a channel writes: the node's
/// blend-shape channels, at most its stride.
pub open spec fn morph_count(c: ChannelIn, mids: Seq<Option<Vec<i64>>>) -> int {
    if c.kind == ChannelKind::MorphWeights {
        match c.stride {
            Some(st) => if ids_of(mids, c.node as int).len() <= st { ids_of(mids, c.node as int).len() as int } else { st as int },
            None => 0,
        }
    } else {
        0
    }
}

pub open spec fn morph_node(c: ChannelIn, ci: int, mids: Seq<Option<Vec<i64>>>, nx: int, s: int) -> CurveNodeLayoutV {
    CurveNodeLayoutV {
        node_id: nx + 2 * s,
        curve_ids: seq![nx + 2 * s + 1],
        channel: ci,
        slot: s,
        target: ids_of(mids, c.node as int)[s] as int,
        morph: true,
    }
}

/// The first `k` morph curve nodes of channel `ci`, ids from `nx`.
pub open spec fn morph_nodes(c: ChannelIn, ci: int, mids: Seq<Option<Vec<i64>>>, nx: int, k: int) -> Seq<CurveNodeLayoutV> {
    Seq::new(k as nat, |s: int| morph_node(c, ci, mids, nx, s))
}

/// The morph curve nodes of the first `n` channels and the next free id.
pub open spec fn morph_fold(cs: Seq<ChannelIn>, mids: Seq<Option<Vec<i64>>>, n: int, first: int) -> (Seq<CurveNodeLayoutV>, int)
    decreases n,
{
    if n <= 0 {
        (Seq::empty(), first)
    } else {
        let (prev, nx) = morph_fold(cs, mids, n - 1, first);
        let k = morph_count(cs[n - 1], mids);
        (prev + morph_nodes(cs[n - 1], n - 1, mids, nx, k), nx + 2 * k)
    }
}

/// The transform slot of a kind (`-1` for blend-shape weights).
pub open spec fn slot_of(k: ChannelKind) -> int {
    match k {
        ChannelKind::Translation => 0,
        ChannelKind::Rotation => 1,
        ChannelKind::Scale => 2,
        ChannelKind::MorphWeights => -1,
    }
}

/// The nodes of the transform channels among the first `n`, in
/// first-seen order.
pub open spec fn trs_nodes(cs: Seq<ChannelIn>, n: int) -> Seq<usize>
    decreases n,
{
    if n <= 0 {
        Seq::empty()
    } else {
        let prev = trs_nodes(cs, n - 1);
        let c = cs[n - 1];
        if c.kind != ChannelKind::MorphWeights && !prev.contains(c.node) { prev.push(c.node) } else { prev }
    }
}

/// The last of the first `n` channels that drives slot `s` of node `v`.
pub open spec fn last_in_slot(cs: Seq<ChannelIn>, v: usize, s: int, n: int) -> Option<int>
    decreases n,
{
    if n <= 0 {
        None
    } else if cs[n - 1].node == v && slot_of(cs[n - 1].kind) == s {
        Some(n - 1)
    } else {
        last_in_slot(cs, v, s, n - 1)
    }
}

/// The curve nodes of the first `s` slots of node `v` (model `m`) and
/// the next free id.
pub open spec fn slot_fold(cs: Seq<ChannelIn>, v: usize, m: i64, s: int, nx: int) -> (Seq<CurveNodeLayoutV>, int)
    decreases s,
{
    if s <= 0 {
        (Seq::empty(), nx)
    } else {
        let (prev, n2) = slot_fold(cs, v, m, s - 1, nx);
        match last_in_slot(cs, v, s - 1, cs.len() as int) {
            Some(i) => if cs[i].components_ok {
                (prev.push(CurveNodeLayoutV {
                    node_id: n2,
                    curve_ids: seq![n2 + 1, n2 + 2, n2 + 3],
                    channel: i,
                    slot: s - 1,
                    target: m as int,
                    morph: false,
                }), n2 + 4)
            } else {
                (prev, n2)
            },
            None => (prev, n2),
        }
    }
}

/// The transform curve nodes of the first `g` of `nodes` (nodes without
/// a model write nothing) and the next free id.
pub open spec fn trs_fold(cs: Seq<ChannelIn>, nf: Seq<Option<i64>>, nodes: Seq<usize>, g: int, nx: int) -> (Seq<CurveNodeLayoutV>, int)
    decreases g,
{
    if g <= 0 {
        (Seq::empty(), nx)
    } else {
        let (prev, n2) = trs_fold(cs, nf, nodes, g - 1, nx);
        match model_of(nf, nodes[g - 1] as int) {
            Some(m) => {
                let (more, n3) = slot_fold(cs, nodes[g - 1], m, 3, n2);
                (prev + more, n3)
            },
            None => (prev, n2),
        }
    }
}

/// The layout of one animation whose ids start at `first`, and the next
/// free id.
pub open spec fn animation_layout(cs: Seq<ChannelIn>, nf: Seq<Option<i64>>, mids: Seq<Option<Vec<i64>>>, first: int) -> (AnimationLayoutV, int) {
    let (mp, n1) = morph_fold(cs, mids, cs.len() as int, first + 2);
    let nodes = trs_nodes(cs, cs.len() as int);
    let (tp, n2) = trs_fold(cs, nf, nodes, nodes.len() as int, n1);
    (AnimationLayoutV { stack_id: first, layer_id: first + 1, curve_nodes: mp + tp }, n2)
}

/// The layouts of the first `k` animations and the next free id.
pub open spec fn animations_layout(anims: Seq<Seq<ChannelIn>>, nf: Seq<Option<i64>>, mids: Seq<Option<Vec<i64>>>, k: int, first: int) -> (Seq<AnimationLayoutV>, int)
    decreases k,
{
    if k <= 0 {
        (Seq::empty(), first)
    } else {
        let (prev, nx) = animations_layout(anims, nf, mids, k - 1, first);
        let (a, n2) = animation_layout(anims[k - 1], nf, mids, nx);
        (prev.push(a), n2)
    }
}

// ---------------------------------------------------------------------
// Id budget
// ---------------------------------------------------------------------

/// An upper bound on the ids the first `n` channels draw.
pub open spec fn id_budget(cs: Seq<ChannelIn>, mids: Seq<Option<Vec<i64>>>, n: int) -> int
    decreases n,
{
    if n <= 0 {
        0
    } else {
        id_budget(cs, mids, n - 1) + if cs[n - 1].kind == ChannelKind::MorphWeights {
            2 * ids_of(mids, cs[n - 1].node as int).len()
        } else {
            12
        }
    }
}

/// An upper bound on the ids the first `k` animations draw.
pub open spec fn total_budget(anims: Seq<Seq<ChannelIn>>, mids: Seq<Option<Vec<i64>>>, k: int) -> int
    decreases k,
{
    if k <= 0 { 0 } else { total_budget(anims, mids, k - 1) + 2 + id_budget(anims[k - 1], mids, anims[k - 1].len() as int) }
}

pub open spec fn morph_budget(cs: Seq<ChannelIn>, mids: Seq<Option<Vec<i64>>>, n: int) -> int
    decreases n,
{
    if n <= 0 {
        0
    } else {
        morph_budget(cs, mids, n - 1) + if cs[n - 1].kind == ChannelKind::MorphWeights {
            2 * ids_of(mids, cs[n - 1].node as int).len()
        } else {
            0
        }
    }
}

pub open spec fn trs_count(cs: Seq<ChannelIn>, n: int) -> int
    decreases n,
{
    if n <= 0 { 0 } else { trs_count(cs, n - 1) + if cs[n - 1].kind != ChannelKind::MorphWeights { 1int } else { 0int } }
}

proof fn lemma_budget_split(cs: Seq<ChannelIn>, mids: Seq<Option<Vec<i64>>>, n: int)
    ensures
        id_budget(cs, mids, n) == morph_budget(cs, mids, n) + 12 * trs_count(cs, n),
        morph_budget(cs, mids, n) >= 0,
        trs_count(cs, n) >= 0,
    decreases n,
{
    if n > 0 {
        lemma_budget_split(cs, mids, n - 1);
    }
}

proof fn lemma_morph_budget_mono(cs: Seq<ChannelIn>, mids: Seq<Option<Vec<i64>>>, a: int, b: int)
    requires a <= b,
    ensures morph_budget(cs, mids, a) <= morph_budget(cs, mids, b),
    decreases b - a,
{
    if a < b {
        lemma_morph_budget_mono(cs, mids, a, b - 1);
    }
}

proof fn lemma_trs_count_mono(cs: Seq<ChannelIn>, a: int, b: int)
    requires a <= b,
    ensures trs_count(cs, a) <= trs_count(cs, b),
    decreases b - a,
{
    if a < b {
        lemma_trs_count_mono(cs, a, b - 1);
    }
}

proof fn lemma_morph_fold_bound(cs: Seq<ChannelIn>, mids: Seq<Option<Vec<i64>>>, n: int, first: int)
    ensures
        first <= morph_fold(cs, mids, n, first).1 <= first + morph_budget(cs, mids, n),
    decreases n,
{
    if n > 0 {
        lemma_morph_fold_bound(cs, mids, n - 1, first);
    }
}

proof fn lemma_trs_nodes_len(cs: Seq<ChannelIn>, n: int)
    ensures trs_nodes(cs, n).len() <= trs_count(cs, n),
    decreases n,
{
    if n > 0 {
        lemma_trs_nodes_len(cs, n - 1);
    }
}

proof fn lemma_slot_fold_bound(cs: Seq<ChannelIn>, v: usize, m: i64, s: int, nx: int)
    requires s >= 0,
    ensures nx <= slot_fold(cs, v, m, s, nx).1 <= nx + 4 * s,
    decreases s,
{
    if s > 0 {
        lemma_slot_fold_bound(cs, v, m, s - 1, nx);
    }
}

proof fn lemma_trs_fold_bound(cs: Seq<ChannelIn>, nf: Seq<Option<i64>>, nodes: Seq<usize>, g: int, nx: int)
    requires g >= 0,
    ensures nx <= trs_fold(cs, nf, nodes, g, nx).1 <= nx + 12 * g,
    decreases g,
{
    if g > 0 {
        lemma_trs_fold_bound(cs, nf, nodes, g - 1, nx);
        let n2 = trs_fold(cs, nf, nodes, g - 1, nx).1;
        match model_of(nf, nodes[g - 1] as int) {
            Some(m) => lemma_slot_fold_bound(cs, nodes[g - 1], m, 3, n2),
            None => {}
        }
    }
}

proof fn lemma_animation_bound(cs: Seq<ChannelIn>, nf: Seq<Option<i64>>, mids: Seq<Option<Vec<i64>>>, first: int)
    ensures
        first + 2 <= animation_layout(cs, nf, mids, first).1 <= first + 2 + id_budget(cs, mids, cs.len() as int),
{
    let n = cs.len() as int;
    lemma_morph_fold_bound(cs, mids, n, first + 2);
    lemma_trs_nodes_len(cs, n);
    let nodes = trs_nodes(cs, n);
    let n1 = morph_fold(cs, mids, n, first + 2).1;
    lemma_trs_fold_bound(cs, nf, nodes, nodes.len() as int, n1);
    lemma_budget_split(cs, mids, n);
}

proof fn lemma_total_budget_mono(anims: Seq<Seq<ChannelIn>>, mids: Seq<Option<Vec<i64>>>, a: int, b: int)
    requires a <= b,
    ensures total_budget(anims, mids, a) <= total_budget(anims, mids, b),
    decreases b - a,
{
    if a < b {
        lemma_total_budget_mono(anims, mids, a, b - 1);
        let c = anims[b - 1];
        lemma_budget_split(c, mids, c.len() as int);
    }
}

proof fn lemma_animations_bound(anims: Seq<Seq<ChannelIn>>, nf: Seq<Option<i64>>, mids: Seq<Option<Vec<i64>>>, k: int, first: int)
    ensures
        first <= animations_layout(anims, nf, mids, k, first).1 <= first + total_budget(anims, mids, k),
    decreases k,
{
    if k > 0 {
        lemma_animations_bound(anims, nf, mids, k - 1, first);
        let nx = animations_layout(anims, nf, mids, k - 1, first).1;
        lemma_animation_bound(anims[k - 1], nf, mids, nx);
    }
}

// ---------------------------------------------------------------------
// Executable layout
// ---------------------------------------------------------------------

fn morph_ids_len(mids: &[Option<Vec<i64>>], v: usize) -> (r: usize)
    ensures r == ids_of(mids@, v as int).len(),
{
    if v < mids.len() {
        match &mids[v] {
            Some(ids) => ids.len(),
            None => 0,
        }
    } else {
        0
    }
}

fn morph_id_at(mids: &[Option<Vec<i64>>], v: usize, s: usize) -> (r: i64)
    requires s < ids_of(mids@, v as int).len(),
    ensures r == ids_of(mids@, v as int)[s as int],
{
    match &mids[v] {
        Some(ids) => ids[s],
        None => 0,
    }
}

fn model_at(nf: &[Option<i64>], v: usize) -> (r: Option<i64>)
    ensures r == model_of(nf@, v as int),
{
    if v < nf.len() { nf[v] } else { None }
}

fn find_last_in_slot(cs: &[ChannelIn], v: usize, s: usize) -> (r: Option<usize>)
    requires s < 3,
    ensures
        match r {
            Some(i) => i < cs@.len() && last_in_slot(cs@, v, s as int, cs@.len() as int) == Some(i as int),
            None => last_in_slot(cs@, v, s as int, cs@.len() as int) is None,
        },
{
    let mut found: Option<usize> = None;
    let mut i: usize = 0;
    while i < cs.len()
        invariant
            i <= cs@.len(),
            s < 3,
            match found {
                Some(j) => j < i && last_in_slot(cs@, v, s as int, i as int) == Some(j as int),
                None => last_in_slot(cs@, v, s as int, i as int) is None,
            },
        decreases cs@.len() - i,
    {
        let c = cs[i];
        let slot: usize = match c.kind {
            ChannelKind::Translation => 0,
            ChannelKind::Rotation => 1,
            ChannelKind::Scale => 2,
            ChannelKind::MorphWeights => 3,
        };
        if c.node == v && slot == s {
            found = Some(i);
        }
        i += 1;
    }
    found
}

fn contains_node(xs: &Vec<usize>, v: usize) -> (r: bool)
    ensures r == xs@.contains(v),
{
    let mut i: usize = 0;
    while i < xs.len()
        invariant
            i <= xs@.len(),
            forall|k: int| 0 <= k < i ==> xs@[k] != v,
        decreases xs@.len() - i,
    {
        if xs[i] == v {
            assert(xs@[i as int] == v);
            return true;
        }
        i += 1;
    }
    false
}

/// The layout of one animation whose ids start at `next_id` (see
/// [`animation_layout`]), and the next free id. `node_fbx[v]` is the
/// model id of scene node `v` and `morph_ids[v]` its blend-shape
/// channel ids in morph-target order.
pub fn layout_animation(
    channels: &[ChannelIn],
    node_fbx: &[Option<i64>],
    morph_ids: &[Option<Vec<i64>>],
    next_id: i64,
) -> (r: (AnimationLayout, i64))
    requires
        next_id + 2 + id_budget(channels@, morph_ids@, channels@.len() as int) <= i64::MAX,
    ensures
        (animation_layout_view(r.0), r.1 as int) == animation_layout(channels@, node_fbx@, morph_ids@, next_id as int),
{
    let ghost cs = channels@;
    let ghost mids = morph_ids@;
    let ghost n = cs.len() as int;
    proof {
        lemma_budget_split(cs, mids, n);
        lemma_morph_fold_bound(cs, mids, n, next_id + 2);
    }
    let stack_id = next_id;
    let layer_id = next_id + 1;
    let mut nx: i64 = next_id + 2;
    let mut out: Vec<CurveNodeLayout> = Vec::new();
    let mut nodes: Vec<usize> = Vec::new();
    let mut i: usize = 0;
    while i < channels.len()
        invariant
            i <= n,
            n == cs.len(),
            cs == channels@,
            mids == morph_ids@,
            next_id + 2 + morph_budget(cs, mids, n) + 12 * trs_count(cs, n) <= i64::MAX,
            morph_budget(cs, mids, n) >= 0,
            trs_count(cs, n) >= 0,
            (layouts_view(out@), nx as int) == morph_fold(cs, mids, i as int, next_id + 2),
            nx <= next_id + 2 + morph_budget(cs, mids, i as int),
            nodes@ == trs_nodes(cs, i as int),
        decreases n - i,
    {
        let c = channels[i];
        proof {
            lemma_morph_budget_mono(cs, mids, i + 1, n);
        }
        if c.kind == ChannelKind::MorphWeights {
            let len = morph_ids_len(morph_ids, c.node);
            let k: usize = match c.stride {
                Some(st) => if len <= st { len } else { st },
                None => 0,
            };
            assert(k as int == morph_count(c, mids));
            let ghost prev = layouts_view(out@);
            let ghost nx0 = nx as int;
            let mut s: usize = 0;
            while s < k
                invariant
                    s <= k,
                    k as int == morph_count(c, mids),
                    k <= ids_of(mids, c.node as int).len(),
                    c == cs[i as int],
                    mids == morph_ids@,
                    nx as int == nx0 + 2 * s,
                    nx0 + 2 * k <= i64::MAX,
                    layouts_view(out@) == prev + morph_nodes(c, i as int, mids, nx0, s as int),
                decreases k - s,
            {
                let target = morph_id_at(morph_ids, c.node, s);
                let cn = CurveNodeLayout {
                    node_id: nx,
                    curve_ids: vec![nx + 1],
                    channel: i,
                    slot: s,
                    target,
                    morph: true,
                };
                let ghost before = out@;
                out.push(cn);
                proof {
                    assert(ids_view(cn.curve_ids@) =~= seq![nx0 + 2 * s + 1]);
                    assert(curve_node_layout_view(cn) == morph_node(c, i as int, mids, nx0, s as int));
                    assert(layouts_view(out@) =~= layouts_view(before).push(curve_node_layout_view(cn)));
                    assert(morph_nodes(c, i as int, mids, nx0, s + 1)
                        =~= morph_nodes(c, i as int, mids, nx0, s as int).push(morph_node(c, i as int, mids, nx0, s as int)));
                }
                nx = nx + 2;
                s += 1;
            }
        } else {
            proof {
                assert(morph_nodes(c, i as int, mids, nx as int, 0) =~= Seq::<CurveNodeLayoutV>::empty());
                assert(layouts_view(out@) + morph_nodes(c, i as int, mids, nx as int, 0) =~= layouts_view(out@));
            }
            if !contains_node(&nodes, c.node) {
                nodes.push(c.node);
            }
        }
        i += 1;
    }
    let ghost n1 = nx as int;
    let ghost tnodes = nodes@;
    proof {
        lemma_trs_nodes_len(cs, n);
        lemma_trs_fold_bound(cs, node_fbx@, tnodes, tnodes.len() as int, n1);
    }
    let ghost mp = layouts_view(out@);
    let mut g: usize = 0;
    while g < nodes.len()
        invariant
            g <= nodes@.len(),
            tnodes == nodes@,
            tnodes == trs_nodes(cs, n),
            cs == channels@,
            n == cs.len(),
            tnodes.len() <= trs_count(cs, n),
            n1 + 12 * trs_count(cs, n) <= i64::MAX,
            n1 <= nx,
            nx as int <= n1 + 12 * g,
            (layouts_view(out@), nx as int) == (mp + trs_fold(cs, node_fbx@, tnodes, g as int, n1).0, trs_fold(cs, node_fbx@, tnodes, g as int, n1).1),
        decreases tnodes.len() - g,
    {
        let v = nodes[g];
        proof { lemma_trs_fold_bound(cs, node_fbx@, tnodes, g + 1, n1); }
        match model_at(node_fbx, v) {
            Some(m) => {
                let ghost base = layouts_view(out@);
                let ghost n2 = nx as int;
                let mut s: usize = 0;
                while s < 3
                    invariant
                        s <= 3,
                        cs == channels@,
                        n2 + 12 <= i64::MAX,
                        (layouts_view(out@), nx as int) == (base + slot_fold(cs, v, m, s as int, n2).0, slot_fold(cs, v, m, s as int, n2).1),
                        n2 <= nx as int <= n2 + 4 * s,
                    decreases 3 - s,
                {
                    proof { lemma_slot_fold_bound(cs, v, m, s + 1, n2); }
                    match find_last_in_slot(channels, v, s) {
                        Some(ci) => {
                            if channels[ci].components_ok {
                                let cn = CurveNodeLayout {
                                    node_id: nx,
                                    curve_ids: vec![nx + 1, nx + 2, nx + 3],
                                    channel: ci,
                                    slot: s,
                                    target: m,
                                    morph: false,
                                };
                                let ghost before = out@;
                                out.push(cn);
                                proof {
                                    assert(ids_view(cn.curve_ids@) =~= seq![nx + 1, nx + 2, nx + 3]);
                                    assert(layouts_view(out@) =~= layouts_view(before).push(curve_node_layout_view(cn)));
                                }
                                nx = nx + 4;
                            }
                        }
                        None => {}
                    }
                    s += 1;
                }
                proof {
                    assert(base + slot_fold(cs, v, m, 3, n2).0 == mp + trs_fold(cs, node_fbx@, tnodes, g + 1, n1).0);
                }
            }
            None => {}
        }
        g += 1;
    }
    let layout = AnimationLayout { stack_id, layer_id, curve_nodes: out };
    (layout, nx)
}

/// The layouts of all animations, ids drawn consecutively from
/// `first_id` (see [`animations_layout`]), and the next free id.
pub fn layout_animations(
    animations: &[Vec<ChannelIn>],
    node_fbx: &[Option<i64>],
    morph_ids: &[Option<Vec<i64>>],
    first_id: i64,
) -> (r: (Vec<AnimationLayout>, i64))
    requires
        first_id + total_budget(animations@.map_values(|v: Vec<ChannelIn>| v@), morph_ids@, animations@.len() as int) <= i64::MAX,
    ensures
        (r.0@.map_values(|a: AnimationLayout| animation_layout_view(a)), r.1 as int)
            == animations_layout(animations@.map_values(|v: Vec<ChannelIn>| v@), node_fbx@, morph_ids@, animations@.len() as int, first_id as int),
{
    let ghost anims = animations@.map_values(|v: Vec<ChannelIn>| v@);
    let ghost k = animations@.len() as int;
    let mut out: Vec<AnimationLayout> = Vec::new();
    let mut nx: i64 = first_id;
    let mut i: usize = 0;
    while i < animations.len()
        invariant
            i <= k,
            k == animations@.len(),
            anims == animations@.map_values(|v: Vec<ChannelIn>| v@),
            first_id + total_budget(anims, morph_ids@, k) <= i64::MAX,
            (out@.map_values(|a: AnimationLayout| animation_layout_view(a)), nx as int)
                == animations_layout(anims, node_fbx@, morph_ids@, i as int, first_id as int),
        decreases k - i,
    {
        proof {
            lemma_animations_bound(anims, node_fbx@, morph_ids@, i as int, first_id as int);
            lemma_total_budget_mono(anims, morph_ids@, i + 1, k);
            assert(anims[i as int] == animations@[i as int]@);
        }
        let (a, n2) = layout_animation(animations[i].as_slice(), node_fbx, morph_ids, nx);
        let ghost before = out@;
        out.push(a);
        proof {
            assert(out@.map_values(|a: AnimationLayout| animation_layout_view(a))
                =~= before.map_values(|a: AnimationLayout| animation_layout_view(a)).push(animation_layout_view(a)));
        }
        nx = n2;
        i += 1;
    }
    (out, nx)
}


// ---------------------------------------------------------------------
// From a layout to what is written
// ---------------------------------------------------------------------

/// One curve's keys: times in ticks and values as `f32` bit patterns.
#[derive(Debug)]
pub struct CurveData {
    pub times: Vec<i64>,
    pub values: Vec<u32>,
}

/// The property a curve node drives: `DeformPercent` for a morph slot,
/// else `Lcl Translation` / `Lcl Rotation` / `Lcl Scaling` by slot.
pub open spec fn property_name(morph: bool, slot: int) -> Seq<char> {
    if morph {
        "DeformPercent"@
    } else if slot == 0 {
        "Lcl Translation"@
    } else if slot == 1 {
        "Lcl Rotation"@
    } else {
        "Lcl Scaling"@
    }
}

/// The component the `j`-th curve of a curve node drives.
pub open spec fn axis_name(morph: bool, j: int) -> Seq<char> {
    if morph {
        "d|DeformPercent"@
    } else if j == 0 {
        "d|X"@
    } else if j == 1 {
        "d|Y"@
    } else {
        "d|Z"@
    }
}

/// `e` writes curve node `cn` with the keys of `data`, curve by curve.
pub open spec fn writes_node(e: CurveNodeEmit, cn: CurveNodeLayout, data: Seq<CurveData>) -> bool {
    &&& e.id == cn.node_id
    &&& e.target == cn.target
    &&& e.property@ == property_name(cn.morph, cn.slot as int)
    &&& e.curves@.len() == cn.curve_ids@.len()
    &&& forall|j: int| 0 <= j < e.curves@.len() ==> {
        &&& (#[trigger] e.curves@[j]).id == cn.curve_ids@[j]
        &&& e.curves@[j].axis@ == axis_name(cn.morph, j)
        &&& e.curves@[j].times@ == data[j].times@
        &&& e.curves@[j].values@ == data[j].values@
    }
}

fn copy_i64s(v: &[i64]) -> (r: Vec<i64>)
    ensures r@ == v@,
{
    let mut out: Vec<i64> = Vec::new();
    let mut i: usize = 0;
    while i < v.len()
        invariant
            i <= v@.len(),
            out@ == v@.subrange(0, i as int),
        decreases v@.len() - i,
    {
        out.push(v[i]);
        i += 1;
        assert(out@ =~= v@.subrange(0, i as int));
    }
    assert(v@.subrange(0, v@.len() as int) =~= v@);
    out
}

fn copy_u32s(v: &[u32]) -> (r: Vec<u32>)
    ensures r@ == v@,
{
    let mut out: Vec<u32> = Vec::new();
    let mut i: usize = 0;
    while i < v.len()
        invariant
            i <= v@.len(),
            out@ == v@.subrange(0, i as int),
        decreases v@.len() - i,
    {
        out.push(v[i]);
        i += 1;
        assert(out@ =~= v@.subrange(0, i as int));
    }
    assert(v@.subrange(0, v@.len() as int) =~= v@);
    out
}

fn property_string(morph: bool, slot: usize) -> (r: String)
    ensures r@ == property_name(morph, slot as int),
{
    if morph {
        "DeformPercent".to_string()
    } else if slot == 0 {
        "Lcl Translation".to_string()
    } else if slot == 1 {
        "Lcl Rotation".to_string()
    } else {
        "Lcl Scaling".to_string()
    }
}

fn axis_string(morph: bool, j: usize) -> (r: String)
    ensures r@ == axis_name(morph, j as int),
{
    if morph {
        "d|DeformPercent".to_string()
    } else if j == 0 {
        "d|X".to_string()
    } else if j == 1 {
        "d|Y".to_string()
    } else {
        "d|Z".to_string()
    }
}

/// The curve node that writes `cn` with one entry of `data` per curve
/// (see [`writes_node`]).
pub fn curve_node_emit(cn: &CurveNodeLayout, data: &[CurveData]) -> (r: CurveNodeEmit)
    requires data@.len() == cn.curve_ids@.len(),
    ensures writes_node(r, *cn, data@),
{
    let mut curves: Vec<CurveEmit> = Vec::new();
    let mut j: usize = 0;
    while j < cn.curve_ids.len()
        invariant
            j <= cn.curve_ids@.len(),
            data@.len() == cn.curve_ids@.len(),
            curves@.len() == j,
            forall|k: int| 0 <= k < j ==> {
                &&& (#[trigger] curves@[k]).id == cn.curve_ids@[k]
                &&& curves@[k].axis@ == axis_name(cn.morph, k)
                &&& curves@[k].times@ == data@[k].times@
                &&& curves@[k].values@ == data@[k].values@
            },
        decreases cn.curve_ids@.len() - j,
    {
        let c = CurveEmit {
            id: cn.curve_ids[j],
            axis: axis_string(cn.morph, j),
            times: copy_i64s(data[j].times.as_slice()),
            values: copy_u32s(data[j].values.as_slice()),
        };
        curves.push(c);
        j += 1;
    }
    CurveNodeEmit { id: cn.node_id, target: cn.target, property: property_string(cn.morph, cn.slot), curves }
}

/// The stack that writes an animation's layout under `name`, with one
/// list of curve keys per curve node.
pub fn stack_emit(layout: &AnimationLayout, name: String, data: &[Vec<CurveData>]) -> (r: StackEmit)
    requires
        data@.len() == layout.curve_nodes@.len(),
        forall|i: int| 0 <= i < data@.len() ==> (#[trigger] data@[i])@.len() == layout.curve_nodes@[i].curve_ids@.len(),
    ensures
        r.id == layout.stack_id,
        r.layer_id == layout.layer_id,
        r.name@ == name@,
        r.curve_nodes@.len() == layout.curve_nodes@.len(),
        forall|i: int| 0 <= i < r.curve_nodes@.len() ==>
            writes_node(#[trigger] r.curve_nodes@[i], layout.curve_nodes@[i], data@[i]@),
{
    let mut nodes: Vec<CurveNodeEmit> = Vec::new();
    let mut i: usize = 0;
    while i < layout.curve_nodes.len()
        invariant
            i <= layout.curve_nodes@.len(),
            data@.len() == layout.curve_nodes@.len(),
            forall|k: int| 0 <= k < data@.len() ==> (#[trigger] data@[k])@.len() == layout.curve_nodes@[k].curve_ids@.len(),
            nodes@.len() == i,
            forall|k: int| 0 <= k < i ==> writes_node(#[trigger] nodes@[k], layout.curve_nodes@[k], data@[k]@),
        decreases layout.curve_nodes@.len() - i,
    {
        let e = curve_node_emit(&layout.curve_nodes[i], data[i].as_slice());
        nodes.push(e);
        i += 1;
    }
    StackEmit { id: layout.stack_id, name, layer_id: layout.layer_id, curve_nodes: nodes }
}


// ---------------------------------------------------------------------
// Laws
// ---------------------------------------------------------------------

/// No channel of `cs` can be written: blend-shape channels drive nodes
/// without blend-shape channels, transform channels nodes without a
/// model.
pub open spec fn writes_nothing(cs: Seq<ChannelIn>, nf: Seq<Option<i64>>, mids: Seq<Option<Vec<i64>>>) -> bool {
    forall|i: int| 0 <= i < cs.len() ==> {
        &&& (#[trigger] cs[i]).kind == ChannelKind::MorphWeights ==> ids_of(mids, cs[i].node as int).len() == 0
        &&& cs[i].kind != ChannelKind::MorphWeights ==> model_of(nf, cs[i].node as int) is None
    }
}

proof fn lemma_morph_fold_nothing(cs: Seq<ChannelIn>, nf: Seq<Option<i64>>, mids: Seq<Option<Vec<i64>>>, n: int, first: int)
    requires writes_nothing(cs, nf, mids), n <= cs.len(),
    ensures morph_fold(cs, mids, n, first) == (Seq::<CurveNodeLayoutV>::empty(), first),
    decreases n,
{
    if n > 0 {
        lemma_morph_fold_nothing(cs, nf, mids, n - 1, first);
        assert(morph_count(cs[n - 1], mids) == 0);
        assert(morph_nodes(cs[n - 1], n - 1, mids, first, 0) =~= Seq::<CurveNodeLayoutV>::empty());
        assert(Seq::<CurveNodeLayoutV>::empty() + Seq::<CurveNodeLayoutV>::empty() =~= Seq::<CurveNodeLayoutV>::empty());
    }
}

proof fn lemma_trs_nodes_from_channels(cs: Seq<ChannelIn>, n: int)
    requires n <= cs.len(),
    ensures
        forall|j: int| 0 <= j < trs_nodes(cs, n).len() ==> exists|i: int|
            0 <= i < n && #[trigger] cs[i].node == #[trigger] trs_nodes(cs, n)[j] && cs[i].kind != ChannelKind::MorphWeights,
    decreases n,
{
    if n > 0 {
        lemma_trs_nodes_from_channels(cs, n - 1);
        let prev = trs_nodes(cs, n - 1);
        assert forall|j: int| 0 <= j < trs_nodes(cs, n).len() implies exists|i: int|
            0 <= i < n && #[trigger] cs[i].node == #[trigger] trs_nodes(cs, n)[j] && cs[i].kind != ChannelKind::MorphWeights by {
            if j < prev.len() {
                assert(trs_nodes(cs, n)[j] == prev[j]);
                let i = choose|i: int| 0 <= i < n - 1 && #[trigger] cs[i].node == prev[j] && cs[i].kind != ChannelKind::MorphWeights;
                assert(cs[i].node == trs_nodes(cs, n)[j]);
            } else {
                assert(cs[n - 1].node == trs_nodes(cs, n)[j]);
            }
        }
    }
}

proof fn lemma_trs_fold_nothing(cs: Seq<ChannelIn>, nf: Seq<Option<i64>>, nodes: Seq<usize>, g: int, nx: int)
    requires
        g <= nodes.len(),
        forall|j: int| 0 <= j < nodes.len() ==> model_of(nf, #[trigger] nodes[j] as int) is None,
    ensures trs_fold(cs, nf, nodes, g, nx) == (Seq::<CurveNodeLayoutV>::empty(), nx),
    decreases g,
{
    if g > 0 {
        lemma_trs_fold_nothing(cs, nf, nodes, g - 1, nx);
        assert(model_of(nf, nodes[g - 1] as int) is None);
    }
}

/// An animation none of whose channels can be written draws exactly
/// two ids, its stack's and its layer's, and writes no curve node.
pub proof fn lemma_unwritable_animation_draws_two_ids(cs: Seq<ChannelIn>, nf: Seq<Option<i64>>, mids: Seq<Option<Vec<i64>>>, first: int)
    requires writes_nothing(cs, nf, mids),
    ensures
        animation_layout(cs, nf, mids, first) == (AnimationLayoutV { stack_id: first, layer_id: first + 1, curve_nodes: Seq::empty() }, first + 2),
{
    let n = cs.len() as int;
    lemma_morph_fold_nothing(cs, nf, mids, n, first + 2);
    lemma_trs_nodes_from_channels(cs, n);
    let nodes = trs_nodes(cs, n);
    assert forall|j: int| 0 <= j < nodes.len() implies model_of(nf, #[trigger] nodes[j] as int) is None by {
        let i = choose|i: int| 0 <= i < n && #[trigger] cs[i].node == nodes[j] && cs[i].kind != ChannelKind::MorphWeights;
        assert(model_of(nf, cs[i].node as int) is None);
    }
    lemma_trs_fold_nothing(cs, nf, nodes, nodes.len() as int, first + 2);
    assert(Seq::<CurveNodeLayoutV>::empty() + Seq::<CurveNodeLayoutV>::empty() =~= Seq::<CurveNodeLayoutV>::empty());
}

/// `k` animations none of whose channels can be written draw `2k` ids:
/// the `a`-th animation's stack takes `first + 2a` and its layer the
/// next, and no curve node is written.
pub proof fn lemma_unwritable_animations_draw_two_ids_each(
    anims: Seq<Seq<ChannelIn>>,
    nf: Seq<Option<i64>>,
    mids: Seq<Option<Vec<i64>>>,
    k: int,
    first: int,
)
    requires
        0 <= k <= anims.len(),
        forall|a: int| 0 <= a < k ==> writes_nothing(#[trigger] anims[a], nf, mids),
    ensures
        animations_layout(anims, nf, mids, k, first).1 == first + 2 * k,
        animations_layout(anims, nf, mids, k, first).0.len() == k,
        forall|a: int| 0 <= a < k ==> #[trigger] animations_layout(anims, nf, mids, k, first).0[a]
            == (AnimationLayoutV { stack_id: first + 2 * a, layer_id: first + 2 * a + 1, curve_nodes: Seq::empty() }),
    decreases k,
{
    if k > 0 {
        lemma_unwritable_animations_draw_two_ids_each(anims, nf, mids, k - 1, first);
        assert(writes_nothing(anims[k - 1], nf, mids));
        lemma_unwritable_animation_draws_two_ids(anims[k - 1], nf, mids, first + 2 * (k - 1));
        let prev = animations_layout(anims, nf, mids, k - 1, first).0;
        let cur = animations_layout(anims, nf, mids, k, first).0;
        assert forall|a: int| 0 <= a < k implies #[trigger] cur[a]
            == (AnimationLayoutV { stack_id: first + 2 * a, layer_id: first + 2 * a + 1, curve_nodes: Seq::empty() }) by {
            if a < k - 1 {
                assert(cur[a] == prev[a]);
            }
        }
    }
}


/// The ids of a curve node in writing order: the node's, then its
/// curves'.
pub open spec fn node_ids(c: CurveNodeLayoutV) -> Seq<int> {
    seq![c.node_id] + c.curve_ids
}

/// The ids of curve nodes in writing order.
pub open spec fn nodes_ids(ns: Seq<CurveNodeLayoutV>) -> Seq<int>
    decreases ns.len(),
{
    if ns.len() == 0 { Seq::empty() } else { nodes_ids(ns.drop_last()) + node_ids(ns.last()) }
}

/// The ids of an animation's layout in writing order: stack, layer,
/// then its curve nodes'.
pub open spec fn layout_ids(a: AnimationLayoutV) -> Seq<int> {
    seq![a.stack_id, a.layer_id] + nodes_ids(a.curve_nodes)
}

/// The ids of layouts in writing order.
pub open spec fn layouts_ids(ls: Seq<AnimationLayoutV>) -> Seq<int>
    decreases ls.len(),
{
    if ls.len() == 0 { Seq::empty() } else { layouts_ids(ls.drop_last()) + layout_ids(ls.last()) }
}

/// `a, a + 1, ..., b - 1`.
pub open spec fn id_range(a: int, b: int) -> Seq<int> {
    Seq::new((b - a) as nat, |i: int| a + i)
}

proof fn lemma_range_join(a: int, b: int, c: int)
    requires a <= b <= c,
    ensures id_range(a, b) + id_range(b, c) == id_range(a, c),
{
    assert(id_range(a, b) + id_range(b, c) =~= id_range(a, c));
}

proof fn lemma_nodes_ids_concat(p: Seq<CurveNodeLayoutV>, q: Seq<CurveNodeLayoutV>)
    ensures nodes_ids(p + q) == nodes_ids(p) + nodes_ids(q),
    decreases q.len(),
{
    if q.len() == 0 {
        assert(p + q =~= p);
        assert(nodes_ids(p) + nodes_ids(q) =~= nodes_ids(p));
    } else {
        lemma_nodes_ids_concat(p, q.drop_last());
        assert((p + q).drop_last() =~= p + q.drop_last());
        assert((p + q).last() == q.last());
        assert(nodes_ids(p + q) =~= nodes_ids(p) + nodes_ids(q));
    }
}

proof fn lemma_morph_nodes_ids(c: ChannelIn, ci: int, mids: Seq<Option<Vec<i64>>>, nx: int, k: int)
    requires k >= 0,
    ensures nodes_ids(morph_nodes(c, ci, mids, nx, k)) == id_range(nx, nx + 2 * k),
    decreases k,
{
    if k > 0 {
        lemma_morph_nodes_ids(c, ci, mids, nx, k - 1);
        let ns = morph_nodes(c, ci, mids, nx, k);
        assert(ns.drop_last() =~= morph_nodes(c, ci, mids, nx, k - 1));
        assert(node_ids(ns.last()) =~= id_range(nx + 2 * (k - 1), nx + 2 * k));
        lemma_range_join(nx, nx + 2 * (k - 1), nx + 2 * k);
    } else {
        assert(morph_nodes(c, ci, mids, nx, 0) =~= Seq::<CurveNodeLayoutV>::empty());
        assert(id_range(nx, nx) =~= Seq::<int>::empty());
    }
}

proof fn lemma_morph_fold_ids(cs: Seq<ChannelIn>, mids: Seq<Option<Vec<i64>>>, n: int, first: int)
    ensures
        first <= morph_fold(cs, mids, n, first).1,
        nodes_ids(morph_fold(cs, mids, n, first).0) == id_range(first, morph_fold(cs, mids, n, first).1),
    decreases n,
{
    if n > 0 {
        lemma_morph_fold_ids(cs, mids, n - 1, first);
        let (prev, nx) = morph_fold(cs, mids, n - 1, first);
        let k = morph_count(cs[n - 1], mids);
        lemma_morph_nodes_ids(cs[n - 1], n - 1, mids, nx, k);
        lemma_nodes_ids_concat(prev, morph_nodes(cs[n - 1], n - 1, mids, nx, k));
        lemma_range_join(first, nx, nx + 2 * k);
    } else {
        assert(id_range(first, first) =~= Seq::<int>::empty());
    }
}

proof fn lemma_slot_fold_ids(cs: Seq<ChannelIn>, v: usize, m: i64, s: int, nx: int)
    ensures
        nx <= slot_fold(cs, v, m, s, nx).1,
        nodes_ids(slot_fold(cs, v, m, s, nx).0) == id_range(nx, slot_fold(cs, v, m, s, nx).1),
    decreases s,
{
    if s > 0 {
        lemma_slot_fold_ids(cs, v, m, s - 1, nx);
        let (prev, n2) = slot_fold(cs, v, m, s - 1, nx);
        match last_in_slot(cs, v, s - 1, cs.len() as int) {
            Some(i) => if cs[i].components_ok {
                let c = CurveNodeLayoutV { node_id: n2, curve_ids: seq![n2 + 1, n2 + 2, n2 + 3], channel: i, slot: s - 1, target: m as int, morph: false };
                assert(prev.push(c).drop_last() =~= prev);
                assert(node_ids(c) =~= id_range(n2, n2 + 4));
                lemma_range_join(nx, n2, n2 + 4);
            },
            None => {}
        }
    } else {
        assert(id_range(nx, nx) =~= Seq::<int>::empty());
    }
}

proof fn lemma_trs_fold_ids(cs: Seq<ChannelIn>, nf: Seq<Option<i64>>, nodes: Seq<usize>, g: int, nx: int)
    ensures
        nx <= trs_fold(cs, nf, nodes, g, nx).1,
        nodes_ids(trs_fold(cs, nf, nodes, g, nx).0) == id_range(nx, trs_fold(cs, nf, nodes, g, nx).1),
    decreases g,
{
    if g > 0 {
        lemma_trs_fold_ids(cs, nf, nodes, g - 1, nx);
        let (prev, n2) = trs_fold(cs, nf, nodes, g - 1, nx);
        match model_of(nf, nodes[g - 1] as int) {
            Some(m) => {
                lemma_slot_fold_ids(cs, nodes[g - 1], m, 3, n2);
                let (more, n3) = slot_fold(cs, nodes[g - 1], m, 3, n2);
                lemma_nodes_ids_concat(prev, more);
                lemma_range_join(nx, n2, n3);
            },
            None => {}
        }
    } else {
        assert(id_range(nx, nx) =~= Seq::<int>::empty());
    }
}

/// The ids an animation's layout draws, in writing order (stack, layer,
/// then each curve node followed by its curves), are exactly `first`,
/// `first + 1`, ..., up to the next free id: consecutive, none twice.
pub proof fn lemma_layout_ids_consecutive(cs: Seq<ChannelIn>, nf: Seq<Option<i64>>, mids: Seq<Option<Vec<i64>>>, first: int)
    ensures
        first + 2 <= animation_layout(cs, nf, mids, first).1,
        layout_ids(animation_layout(cs, nf, mids, first).0) == id_range(first, animation_layout(cs, nf, mids, first).1),
{
    let n = cs.len() as int;
    lemma_morph_fold_ids(cs, mids, n, first + 2);
    let (mp, n1) = morph_fold(cs, mids, n, first + 2);
    let nodes = trs_nodes(cs, n);
    lemma_trs_fold_ids(cs, nf, nodes, nodes.len() as int, n1);
    let (tp, n2) = trs_fold(cs, nf, nodes, nodes.len() as int, n1);
    lemma_nodes_ids_concat(mp, tp);
    lemma_range_join(first + 2, n1, n2);
    assert(seq![first, first + 1] =~= id_range(first, first + 2));
    lemma_range_join(first, first + 2, n2);
}

/// The ids all animations' layouts draw, in writing order, are exactly
/// `first`, `first + 1`, ..., up to the next free id.
pub proof fn lemma_layouts_ids_consecutive(
    anims: Seq<Seq<ChannelIn>>,
    nf: Seq<Option<i64>>,
    mids: Seq<Option<Vec<i64>>>,
    k: int,
    first: int,
)
    requires 0 <= k <= anims.len(),
    ensures
        first <= animations_layout(anims, nf, mids, k, first).1,
        layouts_ids(animations_layout(anims, nf, mids, k, first).0) == id_range(first, animations_layout(anims, nf, mids, k, first).1),
    decreases k,
{
    if k > 0 {
        lemma_layouts_ids_consecutive(anims, nf, mids, k - 1, first);
        let (prev, nx) = animations_layout(anims, nf, mids, k - 1, first);
        lemma_layout_ids_consecutive(anims[k - 1], nf, mids, nx);
        let (a, n2) = animation_layout(anims[k - 1], nf, mids, nx);
        assert(prev.push(a).drop_last() =~= prev);
        lemma_range_join(first, nx, n2);
    } else {
        assert(id_range(first, first) =~= Seq::<int>::empty());
    }
}

} // verus!
