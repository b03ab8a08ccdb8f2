//! Id-indexed tables of `Objects` elements and the `C` connection
//! records between them.

use vstd::prelude::*;
use vstd::string::StringSliceAdditionalSpecFns;
use crate::bytes::bytes_eq;
use crate::model::{first_named, node_view, prop_as_i64, FbxNode, FbxProperty, NodeV};

verus! {

/// The integer id an element carries as its first property.
pub open spec fn obj_id(n: NodeV) -> Option<i64> {
    if n.properties.len() > 0 { prop_as_i64(n.properties[0]) } else { None }
}

/// The children of the root's first `Connections` record.
pub open spec fn connections_of(root: NodeV) -> Seq<NodeV> {
    match first_named(root.children, "Connections".spec_bytes()) {
        Some(c) => c.children,
        None => Seq::empty(),
    }
}

/// The `(kind, child, parent)` of a connection record `C: kind, child,
/// parent, ...`.
pub open spec fn link(n: NodeV) -> Option<(Seq<u8>, i64, i64)> {
    if n.name == "C".spec_bytes() && n.properties.len() > 2 && n.properties[0] is Str
        && prop_as_i64(n.properties[1]) is Some && prop_as_i64(n.properties[2]) is Some
    {
        Some((n.properties[0]->Str_0, prop_as_i64(n.properties[1])->Some_0, prop_as_i64(n.properties[2])->Some_0))
    } else {
        None
    }
}

/// Index of the first entry for `key` at or after `k` (or the length).
pub open spec fn entry_index(s: Seq<(i64, Seq<i64>)>, key: i64, k: int) -> int
    decreases s.len() - k,
{
    if 0 <= k < s.len() && s[k].0 != key { entry_index(s, key, k + 1) } else { k }
}

/// `x` appended to the list of `key`, which is added at the end when
/// it has none yet.
pub open spec fn append_entry(s: Seq<(i64, Seq<i64>)>, key: i64, x: i64) -> Seq<(i64, Seq<i64>)> {
    let k = entry_index(s, key, 0);
    if k < s.len() { s.update(k, (key, s[k].1.push(x))) } else { s.push((key, seq![x])) }
}

/// The view of a list of `(key, values)` entries.
pub open spec fn lists_view(s: Seq<(i64, Vec<i64>)>) -> Seq<(i64, Seq<i64>)> {
    s.map_values(|e: (i64, Vec<i64>)| (e.0, e.1@))
}

/// `l` lists the entries of `m` by increasing id.
pub open spec fn keyed<'a>(l: Seq<(i64, &'a FbxNode)>, m: Map<i64, NodeV>) -> bool {
    &&& forall|a: int, b: int| 0 <= a < b < l.len() ==> #[trigger] l[a].0 < #[trigger] l[b].0
    &&& forall|a: int| 0 <= a < l.len() ==> m.dom().contains(#[trigger] l[a].0) && m[l[a].0] == node_view(*l[a].1)
    &&& forall|k: i64| m.dom().contains(k) ==> exists|a: int| 0 <= a < l.len() && #[trigger] l[a].0 == k
}

pub(crate) fn insert_keyed<'a>(l: &mut Vec<(i64, &'a FbxNode)>, id: i64, n: &'a FbxNode, Ghost(m): Ghost<Map<i64, NodeV>>)
    requires keyed(old(l)@, m),
    ensures keyed(final(l)@, m.insert(id, node_view(*n))),
{
    let mut p: usize = 0;
    while p < l.len() && l[p].0 < id
        invariant
            p <= l@.len(),
            forall|a: int| 0 <= a < p ==> #[trigger] l@[a].0 < id,
        decreases l@.len() - p,
    {
        p += 1;
    }
    let ghost old_l = l@;
    let ghost m2 = m.insert(id, node_view(*n));
    if p < l.len() && l[p].0 == id {
        l[p] = (id, n);
        proof {
            assert(l@ == old_l.update(p as int, (id, n)));
            assert forall|k: i64| m2.dom().contains(k) implies exists|a: int| 0 <= a < l@.len() && #[trigger] l@[a].0 == k by {
                if k == id {
                    assert(l@[p as int].0 == k);
                } else {
                    let a = choose|a: int| 0 <= a < old_l.len() && #[trigger] old_l[a].0 == k;
                    assert(l@[a].0 == k);
                }
            }
            assert forall|a: int, b: int| 0 <= a < b < l@.len() implies #[trigger] l@[a].0 < #[trigger] l@[b].0 by {
                assert(old_l[a].0 < old_l[b].0);
            }
            assert forall|a: int| 0 <= a < l@.len() implies m2.dom().contains(#[trigger] l@[a].0) && m2[l@[a].0] == node_view(*l@[a].1) by {
                if a != p as int {
                    assert(old_l[a].0 != id) by {
                        if a < p as int { } else { assert(old_l[p as int].0 < old_l[a].0); }
                    }
                }
            }
        }
    } else {
        l.insert(p, (id, n));
        proof {
            assert(l@ == old_l.insert(p as int, (id, n)));
            assert forall|k: i64| m2.dom().contains(k) implies exists|a: int| 0 <= a < l@.len() && #[trigger] l@[a].0 == k by {
                if k == id {
                    assert(l@[p as int].0 == k);
                } else {
                    let a = choose|a: int| 0 <= a < old_l.len() && #[trigger] old_l[a].0 == k;
                    if a < p as int {
                        assert(l@[a].0 == k);
                    } else {
                        assert(l@[a + 1].0 == k);
                    }
                }
            }
            assert forall|a: int, b: int| 0 <= a < b < l@.len() implies #[trigger] l@[a].0 < #[trigger] l@[b].0 by {
                if b < p as int {
                    assert(old_l[a].0 < old_l[b].0);
                } else if b == p as int {
                    assert(l@[a] == old_l[a]);
                } else if a < p as int {
                    assert(l@[b] == old_l[b - 1]);
                    assert(l@[a] == old_l[a]);
                    if p as int <= b - 1 && a < p as int {
                        assert(old_l[a].0 < id);
                        assert(old_l[p as int].0 >= id);
                        if b - 1 > p as int {
                            assert(old_l[p as int].0 < old_l[b - 1].0);
                        }
                    }
                } else if a == p as int {
                    assert(l@[b] == old_l[b - 1]);
                    assert(old_l[p as int].0 >= id && old_l[p as int].0 != id);
                    if b - 1 > p as int {
                        assert(old_l[p as int].0 < old_l[b - 1].0);
                    }
                } else {
                    assert(l@[a] == old_l[a - 1] && l@[b] == old_l[b - 1]);
                    assert(old_l[a - 1].0 < old_l[b - 1].0);
                }
            }
            assert forall|a: int| 0 <= a < l@.len() implies m2.dom().contains(#[trigger] l@[a].0) && m2[l@[a].0] == node_view(*l@[a].1) by {
                if a < p as int {
                    assert(l@[a] == old_l[a]);
                    assert(old_l[a].0 < id);
                } else if a > p as int {
                    assert(l@[a] == old_l[a - 1]);
                    assert(old_l[p as int].0 >= id && old_l[p as int].0 != id);
                    if a - 1 > p as int {
                        assert(old_l[p as int].0 < old_l[a - 1].0);
                    }
                }
            }
        }
    }
}

pub(crate) fn find_keyed<'a>(l: &Vec<(i64, &'a FbxNode)>, id: i64, Ghost(m): Ghost<Map<i64, NodeV>>) -> (r: Option<&'a FbxNode>)
    requires keyed(l@, m),
    ensures
        match r {
            Some(n) => m.dom().contains(id) && m[id] == node_view(*n),
            None => !m.dom().contains(id),
        },
{
    let mut i: usize = 0;
    while i < l.len()
        invariant
            i <= l@.len(),
            keyed(l@, m),
            forall|a: int| 0 <= a < i ==> #[trigger] l@[a].0 != id,
        decreases l@.len() - i,
    {
        if l[i].0 == id {
            assert(l@[i as int].0 == id);
            return Some(l[i].1);
        }
        i += 1;
    }
    None
}

/// `l` lists the entries of `m`, each key once.
pub open spec fn keyed_ids(l: Seq<(i64, i64)>, m: Map<i64, i64>) -> bool {
    &&& forall|a: int, b: int| 0 <= a < b < l.len() ==> #[trigger] l[a].0 != #[trigger] l[b].0
    &&& forall|a: int| 0 <= a < l.len() ==> m.dom().contains(#[trigger] l[a].0) && m[l[a].0] == l[a].1
    &&& forall|k: i64| m.dom().contains(k) ==> exists|a: int| 0 <= a < l.len() && #[trigger] l[a].0 == k
}

pub(crate) fn set_link(l: &mut Vec<(i64, i64)>, k: i64, v: i64, Ghost(m): Ghost<Map<i64, i64>>)
    requires keyed_ids(old(l)@, m),
    ensures keyed_ids(final(l)@, m.insert(k, v)),
{
    let mut j: usize = 0;
    while j < l.len() && l[j].0 != k
        invariant
            j <= l@.len(),
            forall|a: int| 0 <= a < j ==> #[trigger] l@[a].0 != k,
        decreases l@.len() - j,
    {
        j += 1;
    }
    let ghost old_l = l@;
    let ghost m2 = m.insert(k, v);
    if j < l.len() {
        l[j] = (k, v);
        proof {
            assert(l@ == old_l.update(j as int, (k, v)));
            assert forall|q: i64| m2.dom().contains(q) implies exists|a: int| 0 <= a < l@.len() && #[trigger] l@[a].0 == q by {
                if q == k {
                    assert(l@[j as int].0 == q);
                } else {
                    let a = choose|a: int| 0 <= a < old_l.len() && #[trigger] old_l[a].0 == q;
                    assert(l@[a].0 == q);
                }
            }
            assert forall|a: int, b: int| 0 <= a < b < l@.len() implies #[trigger] l@[a].0 != #[trigger] l@[b].0 by {
                assert(old_l[a].0 != old_l[b].0);
            }
            assert forall|a: int| 0 <= a < l@.len() implies m2.dom().contains(#[trigger] l@[a].0) && m2[l@[a].0] == l@[a].1 by {
                if a != j as int {
                    if a < j as int {
                        assert(old_l[a].0 != old_l[j as int].0);
                    } else {
                        assert(old_l[j as int].0 != old_l[a].0);
                    }
                }
            }
        }
    } else {
        l.push((k, v));
        proof {
            assert(l@ == old_l.push((k, v)));
            assert forall|q: i64| m2.dom().contains(q) implies exists|a: int| 0 <= a < l@.len() && #[trigger] l@[a].0 == q by {
                if q == k {
                    assert(l@[old_l.len() as int].0 == q);
                } else {
                    let a = choose|a: int| 0 <= a < old_l.len() && #[trigger] old_l[a].0 == q;
                    assert(l@[a].0 == q);
                }
            }
            assert forall|a: int, b: int| 0 <= a < b < l@.len() implies #[trigger] l@[a].0 != #[trigger] l@[b].0 by {
                if b == old_l.len() {
                    assert(l@[a] == old_l[a]);
                } else {
                    assert(old_l[a].0 != old_l[b].0);
                }
            }
            assert forall|a: int| 0 <= a < l@.len() implies m2.dom().contains(#[trigger] l@[a].0) && m2[l@[a].0] == l@[a].1 by {
                if a < old_l.len() {
                    assert(l@[a] == old_l[a]);
                }
            }
        }
    }
}

pub(crate) fn get_link(l: &Vec<(i64, i64)>, k: i64, Ghost(m): Ghost<Map<i64, i64>>) -> (r: Option<i64>)
    requires keyed_ids(l@, m),
    ensures r == (if m.dom().contains(k) { Some(m[k]) } else { None::<i64> }),
{
    let mut i: usize = 0;
    while i < l.len()
        invariant
            i <= l@.len(),
            keyed_ids(l@, m),
            forall|a: int| 0 <= a < i ==> #[trigger] l@[a].0 != k,
        decreases l@.len() - i,
    {
        if l[i].0 == k {
            assert(l@[i as int].0 == k);
            return Some(l[i].1);
        }
        i += 1;
    }
    None
}

pub proof fn lemma_entry_index(s: Seq<(i64, Seq<i64>)>, key: i64, k: int)
    requires 0 <= k <= s.len(),
    ensures
        k <= entry_index(s, key, k) <= s.len(),
        entry_index(s, key, k) < s.len() ==> s[entry_index(s, key, k)].0 == key,
    decreases s.len() - k,
{
    if k < s.len() && s[k].0 != key {
        lemma_entry_index(s, key, k + 1);
    }
}

pub(crate) fn append_to_list(l: &mut Vec<(i64, Vec<i64>)>, key: i64, x: i64)
    ensures lists_view(final(l)@) == append_entry(lists_view(old(l)@), key, x),
{
    let ghost v0 = lists_view(l@);
    let mut j: usize = 0;
    while j < l.len() && l[j].0 != key
        invariant
            j <= l@.len(),
            v0 == lists_view(l@),
            entry_index(v0, key, 0) == entry_index(v0, key, j as int),
        decreases l@.len() - j,
    {
        j += 1;
    }
    proof { lemma_entry_index(v0, key, 0); }
    if j < l.len() {
        let ghost old_l = l@;
        let (mk, mut v) = l.remove(j);
        v.push(x);
        l.insert(j, (mk, v));
        proof {
            assert(lists_view(l@) =~= v0.update(j as int, (key, v0[j as int].1.push(x))));
        }
    } else {
        let mut v: Vec<i64> = Vec::new();
        v.push(x);
        l.push((key, v));
        proof {
            assert(v@ =~= seq![x]);
            assert(lists_view(l@) =~= v0.push((key, seq![x])));
        }
    }
}

pub(crate) fn object_id(n: &FbxNode) -> (r: Option<i64>)
    ensures r == obj_id(node_view(*n)),
{
    if n.properties.len() == 0 {
        return None;
    }
    proof { crate::ascii::lemma_props_view_index(n.properties@, 0); }
    n.properties[0].as_i64()
}

pub proof fn lemma_oo_op()
    ensures "OO".spec_bytes() != "OP".spec_bytes(),
{
    reveal_strlit("OO");
    reveal_strlit("OP");
    crate::ascii::lemma_ascii_literal("OO");
    crate::ascii::lemma_ascii_literal("OP");
    assert("OO".spec_bytes()[1] != "OP".spec_bytes()[1]);
}

/// `0` for `OO`, `1` for `OP`, `2` for another kind.
pub(crate) fn connection_link(c: &FbxNode) -> (r: Option<(u8, i64, i64)>)
    ensures
        match r {
            Some((k, ch, pa)) => link(node_view(*c)) matches Some((b, c2, p2)) && c2 == ch && p2 == pa
                && (k == 0 <==> b == "OO".spec_bytes()) && (k == 1 <==> b == "OP".spec_bytes()),
            None => link(node_view(*c)) is None,
        },
{
    if !bytes_eq(c.name.as_str().as_bytes(), "C".as_bytes()) || c.properties.len() <= 2 {
        return None;
    }
    proof {
        crate::ascii::lemma_props_view_index(c.properties@, 0);
        crate::ascii::lemma_props_view_index(c.properties@, 1);
        crate::ascii::lemma_props_view_index(c.properties@, 2);
    }
    let k: u8 = match &c.properties[0] {
        FbxProperty::String(b) => {
            if bytes_eq(b.as_slice(), "OO".as_bytes()) {
                0
            } else if bytes_eq(b.as_slice(), "OP".as_bytes()) {
                1
            } else {
                2
            }
        }
        _ => { return None; }
    };
    proof { lemma_oo_op(); }
    let ch = c.properties[1].as_i64();
    let pa = c.properties[2].as_i64();
    match (ch, pa) {
        (Some(ch), Some(pa)) => Some((k, ch, pa)),
        _ => None,
    }
}

pub(crate) fn contains_id(ms: &[i64], id: i64) -> (r: bool)
    ensures r == ms@.contains(id),
{
    let mut i: usize = 0;
    while i < ms.len()
        invariant
            i <= ms@.len(),
            forall|a: int| 0 <= a < i ==> ms@[a] != id,
        decreases ms@.len() - i,
    {
        if ms[i] == id {
            assert(ms@[i as int] == id);
            return true;
        }
        i += 1;
    }
    false
}

} // verus!
