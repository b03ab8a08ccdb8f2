//! `PolygonVertexIndex` decoding and fan triangulation.

use vstd::prelude::*;
use vstd::string::StringSliceAdditionalSpecFns;
use crate::error::FbxError;
use crate::material::{read_string_child, string_child};
use crate::model::{first_named, node_view, FbxNode, FbxProperty, NodeV, PropV};

verus! {

/// A `PolygonVertexIndex` entry's vertex index: a negative entry marks
/// the last corner of a polygon and stores `!index`.
pub open spec fn pvi_vertex(raw: i32) -> u32 {
    if raw < 0 { (-(raw as int) - 1) as u32 } else { raw as u32 }
}

/// The vertex index of a `PolygonVertexIndex` entry.
pub fn decode_pvi(raw: i32) -> (r: u32)
    ensures r == pvi_vertex(raw),
{
    if raw < 0 {
        (-(raw as i64) - 1) as u32
    } else {
        raw as u32
    }
}

/// Fan triangulation of a polygon list.
#[derive(Clone, Debug)]
pub struct Triangulation {
    /// Three vertex indices per triangle.
    pub corner_indices: Vec<u32>,
    /// For each corner, its position in `PolygonVertexIndex`.
    pub corner_pvi_index: Vec<u32>,
    /// For each triangle, the polygon it was fanned from.
    pub tri_polygon_index: Vec<u32>,
    /// The number of polygons.
    pub polygon_count: u32,
}

/// Position in `PolygonVertexIndex` of corner `k` of the fan of a
/// polygon starting at `start`: triangle `k / 3` is
/// `(start, start + k/3 + 1, start + k/3 + 2)`.
pub open spec fn fan_pos(start: int, k: int) -> int {
    if k % 3 == 0 { start } else { start + k / 3 + k % 3 }
}

/// What has been read of `PolygonVertexIndex` so far: the start of the
/// open polygon, the closed polygons, and the triangulation.
pub struct TriState {
    pub start: int,
    pub count: nat,
    pub corners: Seq<u32>,
    pub pvis: Seq<u32>,
    pub polys: Seq<u32>,
}

/// The triangulation state after the first `i` entries.
pub open spec fn tri_fold(pvi: Seq<i32>, i: int) -> Result<TriState, FbxError>
    decreases i,
{
    if i <= 0 {
        Ok(TriState { start: 0, count: 0, corners: Seq::empty(), pvis: Seq::empty(), polys: Seq::empty() })
    } else {
        match tri_fold(pvi, i - 1) {
            Err(e) => Err(e),
            Ok(st) => if pvi[i - 1] < 0 {
                let n = i - st.start;
                if n < 3 {
                    Err(FbxError::PolygonTooFewCorners(st.start as usize, (i - 1) as usize))
                } else {
                    Ok(TriState {
                        start: i,
                        count: st.count + 1,
                        corners: st.corners + Seq::new((3 * (n - 2)) as nat, |k: int| pvi_vertex(pvi[fan_pos(st.start, k)])),
                        pvis: st.pvis + Seq::new((3 * (n - 2)) as nat, |k: int| fan_pos(st.start, k) as u32),
                        polys: st.polys + Seq::new((n - 2) as nat, |t: int| st.count as u32),
                    })
                }
            } else {
                Ok(st)
            },
        }
    }
}

/// The triangulation of `PolygonVertexIndex`, or the first malformed
/// polygon.
pub open spec fn spec_triangulate(pvi: Seq<i32>) -> Result<TriState, FbxError> {
    match tri_fold(pvi, pvi.len() as int) {
        Err(e) => Err(e),
        Ok(st) => if st.start != pvi.len() { Err(FbxError::PolygonNotClosed) } else { Ok(st) },
    }
}

proof fn lemma_tri_fold_err(pvi: Seq<i32>, j: int, k: int)
    requires 0 <= j <= k, tri_fold(pvi, j) is Err,
    ensures tri_fold(pvi, k) == tri_fold(pvi, j),
    decreases k - j,
{
    if k > j {
        lemma_tri_fold_err(pvi, j, k - 1);
    }
}

proof fn lemma_tri_fold_bounds(pvi: Seq<i32>, i: int)
    requires 0 <= i <= pvi.len(),
    ensures tri_fold(pvi, i) matches Ok(st) ==> 0 <= st.start <= i && st.count <= i,
    decreases i,
{
    if i > 0 {
        lemma_tri_fold_bounds(pvi, i - 1);
    }
}

/// Fan-triangulate `PolygonVertexIndex`: each polygon (closed by a
/// negative entry) becomes triangles sharing its first corner. Fails on
/// a polygon with fewer than three corners or a trailing open polygon.
/// (Indices are reported as `u32`, so the array has at most `u32::MAX`
/// entries.)
pub fn triangulate(pvi: &[i32]) -> (r: Result<Triangulation, FbxError>)
    requires pvi@.len() <= u32::MAX,
    ensures
        match (r, spec_triangulate(pvi@)) {
            (Ok(t), Ok(st)) => t.corner_indices@ == st.corners && t.corner_pvi_index@ == st.pvis
                && t.tri_polygon_index@ == st.polys && t.polygon_count as nat == st.count,
            (Err(e), Err(se)) => e == se,
            _ => false,
        },
{
    let ghost s = pvi@;
    let n = pvi.len();
    let mut corner_indices: Vec<u32> = Vec::new();
    let mut corner_pvi_index: Vec<u32> = Vec::new();
    let mut tri_polygon_index: Vec<u32> = Vec::new();
    let mut polygon_start: usize = 0;
    let mut polygon_count: u32 = 0;
    let mut i: usize = 0;
    while i < n
        invariant
            i <= n == s.len() <= u32::MAX,
            s == pvi@,
            tri_fold(s, i as int) matches Ok(st) && st.start == polygon_start && st.count == polygon_count
                && st.corners == corner_indices@ && st.pvis == corner_pvi_index@ && st.polys == tri_polygon_index@,
        decreases n - i,
    {
        proof { lemma_tri_fold_bounds(s, i as int); }
        let raw = pvi[i];
        if raw < 0 {
            let cnt = i - polygon_start + 1;
            if cnt < 3 {
                proof { lemma_tri_fold_err(s, (i + 1) as int, n as int); }
                return Err(FbxError::PolygonTooFewCorners(polygon_start, i));
            }
            let ghost c0 = corner_indices@;
            let ghost p0 = corner_pvi_index@;
            let ghost t0 = tri_polygon_index@;
            let ghost st0 = polygon_start as int;
            let mut tri: usize = 1;
            while tri < cnt - 1
                invariant
                    1 <= tri <= cnt - 1,
                    cnt == i - polygon_start + 1,
                    i < n == s.len() <= u32::MAX,
                    s == pvi@,
                    st0 == polygon_start,
                    corner_indices@ == c0 + Seq::new((3 * (tri - 1)) as nat, |k: int| pvi_vertex(s[fan_pos(st0, k)])),
                    corner_pvi_index@ == p0 + Seq::new((3 * (tri - 1)) as nat, |k: int| fan_pos(st0, k) as u32),
                    tri_polygon_index@ == t0 + Seq::new((tri - 1) as nat, |t: int| polygon_count as u32),
                decreases cnt - 1 - tri,
            {
                let a = polygon_start;
                let b = polygon_start + tri;
                let c = polygon_start + tri + 1;
                corner_pvi_index.push(a as u32);
                corner_pvi_index.push(b as u32);
                corner_pvi_index.push(c as u32);
                corner_indices.push(decode_pvi(pvi[a]));
                corner_indices.push(decode_pvi(pvi[b]));
                corner_indices.push(decode_pvi(pvi[c]));
                tri_polygon_index.push(polygon_count);
                let ghost k0 = 3 * (tri - 1);
                assert(k0 % 3 == 0 && (k0 + 1) % 3 == 1 && (k0 + 1) / 3 == tri - 1
                    && (k0 + 2) % 3 == 2 && (k0 + 2) / 3 == tri - 1) by (nonlinear_arith)
                    requires k0 == 3 * (tri - 1), tri >= 1;
                assert(fan_pos(st0, k0) == a);
                assert(fan_pos(st0, k0 + 1) == b);
                assert(fan_pos(st0, k0 + 2) == c);
                tri += 1;
                proof {
                    let f1 = Seq::new((3 * (tri - 1)) as nat, |k: int| pvi_vertex(s[fan_pos(st0, k)]));
                    let f2 = Seq::new((3 * (tri - 1)) as nat, |k: int| fan_pos(st0, k) as u32);
                    assert forall|k: int| 0 <= k < f1.len() implies #[trigger] corner_indices@[c0.len() + k] == f1[k] by {
                        if k == k0 { assert(f1[k] == pvi_vertex(s[a as int])); }
                        else if k == k0 + 1 { assert(f1[k] == pvi_vertex(s[b as int])); }
                        else if k == k0 + 2 { assert(f1[k] == pvi_vertex(s[c as int])); }
                    }
                    assert forall|k: int| 0 <= k < f2.len() implies #[trigger] corner_pvi_index@[p0.len() + k] == f2[k] by {
                        if k == k0 { assert(f2[k] == a as u32); }
                        else if k == k0 + 1 { assert(f2[k] == b as u32); }
                        else if k == k0 + 2 { assert(f2[k] == c as u32); }
                    }
                }
                assert(corner_indices@ =~= c0 + Seq::new((3 * (tri - 1)) as nat, |k: int| pvi_vertex(s[fan_pos(st0, k)])));
                assert(corner_pvi_index@ =~= p0 + Seq::new((3 * (tri - 1)) as nat, |k: int| fan_pos(st0, k) as u32));
                assert(tri_polygon_index@ =~= t0 + Seq::new((tri - 1) as nat, |t: int| polygon_count as u32));
            }
            polygon_count += 1;
            polygon_start = i + 1;
        }
        i += 1;
    }
    if polygon_start != n {
        return Err(FbxError::PolygonNotClosed);
    }
    Ok(Triangulation { corner_indices, corner_pvi_index, tri_polygon_index, polygon_count })
}

/// The fan of a triangulation has three corners, each with a position
/// in `PolygonVertexIndex`, per triangle.
pub proof fn lemma_tri_fold_lengths(pvi: Seq<i32>, i: int)
    ensures
        tri_fold(pvi, i) matches Ok(st) ==> st.corners.len() == st.pvis.len() && st.corners.len() == 3 * st.polys.len(),
    decreases i,
{
    if i > 0 {
        lemma_tri_fold_lengths(pvi, i - 1);
        match tri_fold(pvi, i - 1) {
            Ok(st) => {
                if pvi[i - 1] < 0 {
                    let n = i - st.start;
                    if n >= 3 {
                        assert(3 * (n - 2) == 3 * (n - 2));
                    }
                }
            }
            Err(_) => {}
        }
    }
}

// ---------------------------------------------------------------------
// Layer elements: which data element each triangle corner takes
// ---------------------------------------------------------------------

pub open spec fn opt_str(o: Option<&str>) -> Option<Seq<u8>> {
    match o {
        Some(s) => Some(s.spec_bytes()),
        None => None,
    }
}

/// `ByVertex` (or its `ByVertice` spelling): one element per shared vertex.
pub open spec fn maps_by_vertex(mapping: Option<Seq<u8>>) -> bool {
    mapping == Some("ByVertex".spec_bytes()) || mapping == Some("ByVertice".spec_bytes())
}

/// `ByPolygonVertex`: one element per polygon corner.
pub open spec fn maps_by_polygon_vertex(mapping: Option<Seq<u8>>) -> bool {
    mapping == Some("ByPolygonVertex".spec_bytes())
}

/// No reference type, or `Direct`: the data is addressed directly.
pub open spec fn is_direct(reference: Option<Seq<u8>>) -> bool {
    reference is None || reference == Some("Direct".spec_bytes())
}

/// The element corner `c` takes: its shared vertex (`ByVertex`) or its
/// position in `PolygonVertexIndex`, looked up through the index array
/// unless the layer is direct; an error for a negative or missing index
/// or an element past `count`.
pub open spec fn corner_element(
    by_vertex: bool,
    direct: bool,
    index: Option<Seq<i32>>,
    count: nat,
    corners: Seq<u32>,
    pvis: Seq<u32>,
    c: int,
) -> Result<u32, FbxError> {
    let lookup: int = if by_vertex { corners[c] as int } else { pvis[c] as int };
    let ix: Result<int, FbxError> = if direct {
        Ok(lookup)
    } else {
        match index {
            Some(a) => {
                let i: int = if 0 <= lookup < a.len() { a[lookup] as int } else { -1 };
                if i < 0 { Err(FbxError::LayerIndexNegative(i as i32)) } else { Ok(i) }
            },
            None => Err(FbxError::LayerIndexMissing),
        }
    };
    match ix {
        Err(e) => Err(e),
        Ok(j) => if j >= count { Err(FbxError::LayerElementOutOfRange(j as usize, count as usize)) } else { Ok(j as u32) },
    }
}

/// The elements of the first `n` corners, or the first error.
pub open spec fn layer_fold(
    by_vertex: bool,
    direct: bool,
    index: Option<Seq<i32>>,
    count: nat,
    corners: Seq<u32>,
    pvis: Seq<u32>,
    n: int,
) -> Result<Seq<u32>, FbxError>
    decreases n,
{
    if n <= 0 {
        Ok(Seq::empty())
    } else {
        match layer_fold(by_vertex, direct, index, count, corners, pvis, n - 1) {
            Err(e) => Err(e),
            Ok(s) => match corner_element(by_vertex, direct, index, count, corners, pvis, n - 1) {
                Err(e) => Err(e),
                Ok(x) => Ok(s.push(x)),
            },
        }
    }
}

/// The per-corner elements of a layer with `count` elements; `None` for a
/// mapping mode other than by-vertex or by-polygon-vertex.
pub open spec fn spec_layer_elements(
    mapping: Option<Seq<u8>>,
    reference: Option<Seq<u8>>,
    index: Option<Seq<i32>>,
    count: nat,
    corners: Seq<u32>,
    pvis: Seq<u32>,
) -> Result<Option<Seq<u32>>, FbxError> {
    if !maps_by_vertex(mapping) && !maps_by_polygon_vertex(mapping) {
        Ok(None)
    } else {
        match layer_fold(maps_by_vertex(mapping), is_direct(reference), index, count, corners, pvis, corners.len() as int) {
            Ok(s) => Ok(Some(s)),
            Err(e) => Err(e),
        }
    }
}

fn bytes_opt_eq(o: Option<&str>, lit: &str) -> (r: bool)
    ensures r == (opt_str(o) == Some(lit.spec_bytes())),
{
    match o {
        Some(s) => crate::bytes::bytes_eq(s.as_bytes(), lit.as_bytes()),
        None => false,
    }
}

/// For each triangle corner, the element of a layer's data (of `count`
/// elements) it takes; `None` when the mapping mode is neither
/// `ByVertex` / `ByVertice` nor `ByPolygonVertex`.
pub fn layer_corner_elements(
    mapping: Option<&str>,
    reference: Option<&str>,
    index: Option<&[i32]>,
    count: usize,
    triangles: &Triangulation,
) -> (r: Result<Option<Vec<u32>>, FbxError>)
    requires triangles.corner_pvi_index@.len() == triangles.corner_indices@.len(),
    ensures
        match (r, spec_layer_elements(opt_str(mapping), opt_str(reference),
            match index { Some(a) => Some(a@), None => None }, count as nat,
            triangles.corner_indices@, triangles.corner_pvi_index@)) {
            (Ok(Some(v)), Ok(Some(s))) => v@ == s,
            (Ok(None), Ok(None)) => true,
            (Err(e), Err(se)) => e == se,
            _ => false,
        },
{
    let by_vertex = bytes_opt_eq(mapping, "ByVertex") || bytes_opt_eq(mapping, "ByVertice");
    let by_pv = bytes_opt_eq(mapping, "ByPolygonVertex");
    if !by_vertex && !by_pv {
        return Ok(None);
    }
    let direct = match reference {
        None => true,
        Some(_) => bytes_opt_eq(reference, "Direct"),
    };
    let ghost ix = match index { Some(a) => Some(a@), None => None::<Seq<i32>> };
    let ghost corners = triangles.corner_indices@;
    let ghost pvis = triangles.corner_pvi_index@;
    let n = triangles.corner_indices.len();
    let mut out: Vec<u32> = Vec::new();
    let mut c: usize = 0;
    while c < n
        invariant
            c <= n == corners.len() == pvis.len(),
            corners == triangles.corner_indices@,
            pvis == triangles.corner_pvi_index@,
            ix == match index { Some(a) => Some(a@), None => None::<Seq<i32>> },
            by_vertex == maps_by_vertex(opt_str(mapping)),
            by_vertex || maps_by_polygon_vertex(opt_str(mapping)),
            direct == is_direct(opt_str(reference)),
            layer_fold(by_vertex, direct, ix, count as nat, corners, pvis, c as int) == Ok::<Seq<u32>, FbxError>(out@),
        decreases n - c,
    {
        let lookup: u32 = if by_vertex { triangles.corner_indices[c] } else { triangles.corner_pvi_index[c] };
        assert(lookup as int == (if by_vertex { corners[c as int] as int } else { pvis[c as int] as int }));
        let j: u64 = if direct {
            lookup as u64
        } else {
            match index {
                Some(a) => {
                    let i: i32 = if (lookup as usize) < a.len() { a[lookup as usize] } else { -1 };
                    if i < 0 {
                        assert(corner_element(by_vertex, direct, ix, count as nat, corners, pvis, c as int)
                            == Err::<u32, FbxError>(FbxError::LayerIndexNegative(i)));
                        proof { lemma_layer_fold_err(by_vertex, direct, ix, count as nat, corners, pvis, c as int + 1, n as int); }
                        return Err(FbxError::LayerIndexNegative(i));
                    }
                    i as u64
                }
                None => {
                    proof { lemma_layer_fold_err(by_vertex, direct, ix, count as nat, corners, pvis, c as int + 1, n as int); }
                    return Err(FbxError::LayerIndexMissing);
                }
            }
        };
        if j >= count as u64 {
            proof { lemma_layer_fold_err(by_vertex, direct, ix, count as nat, corners, pvis, c as int + 1, n as int); }
            return Err(FbxError::LayerElementOutOfRange(j as usize, count));
        }
        out.push(j as u32);
        c += 1;
    }
    Ok(Some(out))
}

proof fn lemma_layer_fold_err(
    by_vertex: bool,
    direct: bool,
    index: Option<Seq<i32>>,
    count: nat,
    corners: Seq<u32>,
    pvis: Seq<u32>,
    j: int,
    k: int,
)
    requires 0 <= j <= k, layer_fold(by_vertex, direct, index, count, corners, pvis, j) is Err,
    ensures layer_fold(by_vertex, direct, index, count, corners, pvis, k) == layer_fold(by_vertex, direct, index, count, corners, pvis, j),
    decreases k - j,
{
    if k > j {
        lemma_layer_fold_err(by_vertex, direct, index, count, corners, pvis, j, k - 1);
    }
}

/// The length of a float array property.
pub open spec fn float_array_len(p: PropV) -> Option<nat> {
    match p {
        PropV::F64Array(a) => Some(a.len()),
        PropV::F32Array(a) => Some(a.len()),
        _ => None,
    }
}

/// The `i32` array of the first property of the first child named `name`.
pub open spec fn i32_array_child(n: NodeV, name: Seq<u8>) -> Option<Seq<i32>> {
    match first_named(n.children, name) {
        Some(x) => if x.properties.len() > 0 && x.properties[0] is I32Array { Some(x.properties[0]->I32Array_0) } else { None },
        None => None,
    }
}

/// The per-corner elements of a layer node whose data child `data` is a
/// float array of `width`-wide elements, addressed through the optional
/// `index_name` array; `None` without such data or for other mapping
/// modes.
pub open spec fn spec_pull_layer(
    layer: NodeV,
    data: Seq<u8>,
    index_name: Seq<u8>,
    width: nat,
    corners: Seq<u32>,
    pvis: Seq<u32>,
) -> Result<Option<Seq<u32>>, FbxError> {
    let mapping = string_child(layer, "MappingInformationType".spec_bytes());
    let reference = string_child(layer, "ReferenceInformationType".spec_bytes());
    match first_named(layer.children, data) {
        None => Ok(None),
        Some(d) => if d.properties.len() > 0 && float_array_len(d.properties[0]) is Some {
            let len = float_array_len(d.properties[0])->Some_0;
            if len % width != 0 {
                Err(FbxError::LayerLengthNotMultiple(len as usize, width as usize))
            } else {
                spec_layer_elements(mapping, reference, i32_array_child(layer, index_name), len / width, corners, pvis)
            }
        } else {
            Ok(None)
        },
    }
}

fn opt_as_str(o: &Option<String>) -> (r: Option<&str>)
    ensures
        opt_str(r) == match o {
            Some(s) => Some(vstd::utf8::encode_utf8(s@)),
            None => None,
        },
{
    match o {
        Some(s) => Some(s.as_str()),
        None => None,
    }
}

/// For each triangle corner, the element of the layer's `data_name`
/// float array (of `width`-wide elements) it takes, through the layer's
/// `index_name` array when the layer is indexed.
pub fn pull_layer(
    layer: &FbxNode,
    data_name: &str,
    index_name: &str,
    width: usize,
    triangles: &Triangulation,
) -> (r: Result<Option<Vec<u32>>, FbxError>)
    requires
        width > 0,
        triangles.corner_pvi_index@.len() == triangles.corner_indices@.len(),
    ensures
        match (r, spec_pull_layer(node_view(*layer), data_name.spec_bytes(), index_name.spec_bytes(), width as nat,
            triangles.corner_indices@, triangles.corner_pvi_index@)) {
            (Ok(Some(v)), Ok(Some(s))) => v@ == s,
            (Ok(None), Ok(None)) => true,
            (Err(e), Err(se)) => e == se,
            _ => false,
        },
{
    let mapping = read_string_child(layer, "MappingInformationType");
    let reference = read_string_child(layer, "ReferenceInformationType");
    let d = match layer.child(data_name) {
        Some(d) => d,
        None => { return Ok(None); }
    };
    if d.properties.len() == 0 {
        return Ok(None);
    }
    proof { crate::ascii::lemma_props_view_index(d.properties@, 0); }
    let len = match &d.properties[0] {
        FbxProperty::F64Array(a) => {
            assert(crate::model::reals_view(a@).len() == a@.len());
            a.len()
        }
        FbxProperty::F32Array(a) => a.len(),
        _ => { return Ok(None); }
    };
    if len % width != 0 {
        return Err(FbxError::LayerLengthNotMultiple(len, width));
    }
    let index: Option<&[i32]> = match layer.child(index_name) {
        Some(x) => {
            if x.properties.len() > 0 {
                proof { crate::ascii::lemma_props_view_index(x.properties@, 0); }
                match &x.properties[0] {
                    FbxProperty::I32Array(a) => Some(a.as_slice()),
                    _ => None,
                }
            } else {
                None
            }
        }
        None => None,
    };
    layer_corner_elements(opt_as_str(&mapping), opt_as_str(&reference), index, len / width, triangles)
}

pub open spec fn clamp_slot(x: i32) -> u32 {
    if x < 0 { 0 } else { x as u32 }
}

/// The material slot indices of a `Materials` property, `i64` entries
/// truncated to `i32`.
pub open spec fn slot_array(p: PropV) -> Option<Seq<i32>> {
    match p {
        PropV::I32Array(a) => Some(a),
        PropV::I64Array(a) => Some(a.map_values(|v: i64| v as i32)),
        _ => None,
    }
}

/// The per-corner material slots of a `LayerElementMaterial` node:
/// `AllSame` (or a single entry) gives every corner the first slot,
/// `ByPolygon` gives each triangle's corners its polygon's slot (an error
/// when the slot count is not the polygon count); negative slots count as
/// slot 0; `None` without slots or for other mapping modes.
pub open spec fn spec_material_slots(layer: NodeV, n_corners: nat, tri_polys: Seq<u32>, polygon_count: u32) -> Result<Option<Seq<u32>>, FbxError> {
    let mapping = string_child(layer, "MappingInformationType".spec_bytes());
    match first_named(layer.children, "Materials".spec_bytes()) {
        None => Ok(None),
        Some(d) => if d.properties.len() > 0 && slot_array(d.properties[0]) is Some {
            let raw = slot_array(d.properties[0])->Some_0;
            if raw.len() == 0 {
                Ok(None)
            } else if mapping == Some("AllSame".spec_bytes()) || raw.len() == 1 {
                Ok(Some(Seq::new(n_corners, |k: int| clamp_slot(raw[0]))))
            } else if mapping == Some("ByPolygon".spec_bytes()) {
                if raw.len() != polygon_count as nat {
                    Err(FbxError::MaterialsLengthMismatch(raw.len() as usize, polygon_count))
                } else {
                    Ok(Some(Seq::new(3 * tri_polys.len(), |k: int|
                        clamp_slot(if (tri_polys[k / 3] as int) < raw.len() { raw[tri_polys[k / 3] as int] } else { 0i32 }))))
                }
            } else {
                Ok(None)
            }
        } else {
            Ok(None)
        },
    }
}

fn slots_of(p: &FbxProperty) -> (r: Option<Vec<i32>>)
    ensures
        match r {
            Some(v) => slot_array(p.view_prop()) == Some(v@),
            None => slot_array(p.view_prop()) is None,
        },
{
    match p {
        FbxProperty::I32Array(a) => {
            let mut v: Vec<i32> = Vec::new();
            let mut i: usize = 0;
            while i < a.len()
                invariant
                    i <= a@.len(),
                    v@ == a@.subrange(0, i as int),
                decreases a@.len() - i,
            {
                v.push(a[i]);
                i += 1;
                assert(v@ =~= a@.subrange(0, i as int));
            }
            assert(a@.subrange(0, a@.len() as int) =~= a@);
            Some(v)
        }
        FbxProperty::I64Array(a) => {
            let mut v: Vec<i32> = Vec::new();
            let mut i: usize = 0;
            while i < a.len()
                invariant
                    i <= a@.len(),
                    v@ == a@.subrange(0, i as int).map_values(|x: i64| x as i32),
                decreases a@.len() - i,
            {
                #[verifier::truncate]
                let x = a[i] as i32;
                v.push(x);
                i += 1;
                assert(v@ =~= a@.subrange(0, i as int).map_values(|x: i64| x as i32));
            }
            assert(a@.subrange(0, a@.len() as int) =~= a@);
            Some(v)
        }
        _ => None,
    }
}

fn clamp(x: i32) -> (r: u32)
    ensures r == clamp_slot(x),
{
    if x < 0 { 0 } else { x as u32 }
}

/// The per-corner material slots of a `LayerElementMaterial` node (see
/// [`spec_material_slots`]).
pub fn pull_layer_material_slots(layer: &FbxNode, triangles: &Triangulation) -> (r: Result<Option<Vec<u32>>, FbxError>)
    ensures
        match (r, spec_material_slots(node_view(*layer), triangles.corner_indices@.len(), triangles.tri_polygon_index@, triangles.polygon_count)) {
            (Ok(Some(v)), Ok(Some(s))) => v@ == s,
            (Ok(None), Ok(None)) => true,
            (Err(e), Err(se)) => e == se,
            _ => false,
        },
{
    let mapping = read_string_child(layer, "MappingInformationType");
    let d = match layer.child("Materials") {
        Some(d) => d,
        None => { return Ok(None); }
    };
    if d.properties.len() == 0 {
        return Ok(None);
    }
    proof { crate::ascii::lemma_props_view_index(d.properties@, 0); }
    let raw = match slots_of(&d.properties[0]) {
        Some(v) => v,
        None => { return Ok(None); }
    };
    if raw.len() == 0 {
        return Ok(None);
    }
    let m = opt_as_str(&mapping);
    let all_same = bytes_opt_eq(m, "AllSame") || raw.len() == 1;
    let by_polygon = bytes_opt_eq(m, "ByPolygon");
    if all_same {
        let slot = clamp(raw[0]);
        let n = triangles.corner_indices.len();
        let mut out: Vec<u32> = Vec::new();
        let mut k: usize = 0;
        while k < n
            invariant
                k <= n,
                out@ == Seq::new(k as nat, |q: int| slot),
            decreases n - k,
        {
            out.push(slot);
            k += 1;
            assert(out@ =~= Seq::new(k as nat, |q: int| slot));
        }
        return Ok(Some(out));
    }
    if by_polygon {
        if raw.len() != triangles.polygon_count as usize {
            return Err(FbxError::MaterialsLengthMismatch(raw.len(), triangles.polygon_count));
        }
        let ghost polys = triangles.tri_polygon_index@;
        let ghost f = |k: int| clamp_slot(if (polys[k / 3] as int) < raw@.len() { raw@[polys[k / 3] as int] } else { 0i32 });
        let n = triangles.tri_polygon_index.len();
        let mut out: Vec<u32> = Vec::new();
        let mut t: usize = 0;
        while t < n
            invariant
                t <= n == polys.len(),
                polys == triangles.tri_polygon_index@,
                f == (|k: int| clamp_slot(if (polys[k / 3] as int) < raw@.len() { raw@[polys[k / 3] as int] } else { 0i32 })),
                out@ == Seq::new(3 * t as nat, f),
            decreases n - t,
        {
            let p = triangles.tri_polygon_index[t];
            let sv: i32 = if (p as usize) < raw.len() { raw[p as usize] } else { 0 };
            let sl = clamp(sv);
            let ghost k0 = 3 * t as int;
            assert(k0 / 3 == t && (k0 + 1) / 3 == t && (k0 + 2) / 3 == t) by (nonlinear_arith)
                requires k0 == 3 * t;
            out.push(sl);
            out.push(sl);
            out.push(sl);
            t += 1;
            assert(out@ =~= Seq::new(3 * t as nat, f));
        }
        return Ok(Some(out));
    }
    Ok(None)
}

// ---------------------------------------------------------------------
// A whole Geometry
// ---------------------------------------------------------------------

/// The number of coordinate values in a geometry's `Vertices` (a float
/// array whose length is a multiple of three).
pub open spec fn vertices_len(g: NodeV) -> Result<nat, FbxError> {
    match first_named(g.children, "Vertices".spec_bytes()) {
        None => Err(FbxError::MissingVertices),
        Some(v) => if v.properties.len() > 0 && float_array_len(v.properties[0]) is Some {
            let n = float_array_len(v.properties[0])->Some_0;
            if n % 3 != 0 { Err(FbxError::VerticesLengthNotTriple(n as usize)) } else { Ok(n) }
        } else {
            Err(FbxError::VerticesNotFloatArray)
        },
    }
}

/// A geometry's `PolygonVertexIndex` array.
pub open spec fn polygon_vertex_index(g: NodeV) -> Result<Seq<i32>, FbxError> {
    match first_named(g.children, "PolygonVertexIndex".spec_bytes()) {
        None => Err(FbxError::MissingPolygonVertexIndex),
        Some(p) => if p.properties.len() > 0 && p.properties[0] is I32Array {
            Ok(p.properties[0]->I32Array_0)
        } else {
            Err(FbxError::PolygonVertexIndexNotI32Array)
        },
    }
}

/// The first of the first `n` corners whose vertex lies past `vlen`
/// coordinate values, as an error.
pub open spec fn corners_fold(corners: Seq<u32>, vlen: nat, n: int) -> Result<(), FbxError>
    decreases n,
{
    if n <= 0 {
        Ok(())
    } else {
        match corners_fold(corners, vlen, n - 1) {
            Err(e) => Err(e),
            Ok(_) => if corners[n - 1] * 3 + 2 >= vlen {
                Err(FbxError::VertexIndexOutOfRange(corners[n - 1], (vlen / 3) as usize))
            } else {
                Ok(())
            },
        }
    }
}

/// View of a [`GeometryLayout`].
pub struct LayoutV {
    pub vertex_values: nat,
    pub tri: TriState,
    pub normals: Option<Seq<u32>>,
    pub uvs: Option<Seq<u32>>,
    pub material_slots: Option<Seq<u32>>,
    pub material_mapping: Option<Seq<u8>>,
}

/// The layout of a `Geometry` node: its vertex data, triangulation, the
/// per-corner normal and UV elements of its first normal and UV layers,
/// and the per-corner material slots of its first material layer; the
/// first error in that order.
pub open spec fn spec_geometry_layout(g: NodeV) -> Result<LayoutV, FbxError> {
    match vertices_len(g) {
        Err(e) => Err(e),
        Ok(vlen) => match polygon_vertex_index(g) {
            Err(e) => Err(e),
            Ok(pvi) => match spec_triangulate(pvi) {
                Err(e) => Err(e),
                Ok(st) => match corners_fold(st.corners, vlen, st.corners.len() as int) {
                    Err(e) => Err(e),
                    Ok(_) => {
                        let normals = match first_named(g.children, "LayerElementNormal".spec_bytes()) {
                            Some(l) => spec_pull_layer(l, "Normals".spec_bytes(), "NormalsIndex".spec_bytes(), 3, st.corners, st.pvis),
                            None => Ok(None),
                        };
                        let uvs = match first_named(g.children, "LayerElementUV".spec_bytes()) {
                            Some(l) => spec_pull_layer(l, "UV".spec_bytes(), "UVIndex".spec_bytes(), 2, st.corners, st.pvis),
                            None => Ok(None),
                        };
                        let ml = first_named(g.children, "LayerElementMaterial".spec_bytes());
                        let slots = match ml {
                            Some(l) => spec_material_slots(l, st.corners.len(), st.polys, st.count as u32),
                            None => Ok(None),
                        };
                        match (normals, uvs, slots) {
                            (Err(e), _, _) => Err(e),
                            (Ok(_), Err(e), _) => Err(e),
                            (Ok(_), Ok(_), Err(e)) => Err(e),
                            (Ok(nv), Ok(uv), Ok(sl)) => Ok(LayoutV {
                                vertex_values: vlen,
                                tri: st,
                                normals: nv,
                                uvs: uv,
                                material_slots: sl,
                                material_mapping: match ml {
                                    Some(l) => string_child(l, "MappingInformationType".spec_bytes()),
                                    None => None,
                                },
                            }),
                        }
                    },
                },
            },
        },
    }
}

/// Everything of a `Geometry` but its floating-point payloads: how many
/// coordinate values `Vertices` holds, the fan triangulation, and for
/// each triangle corner the normal, UV and material-slot elements it
/// takes.
#[derive(Debug)]
pub struct GeometryLayout {
    /// The length of `Vertices` (three values per vertex).
    pub vertex_values: usize,
    pub triangles: Triangulation,
    /// Per corner, the element of the first normal layer's data.
    pub normal_elements: Option<Vec<u32>>,
    /// Per corner, the element of the first UV layer's data.
    pub uv_elements: Option<Vec<u32>>,
    /// Per corner, the material slot of the first material layer.
    pub material_slots: Option<Vec<u32>>,
    /// The mapping mode of the first material layer.
    pub material_mapping: Option<String>,
}

pub open spec fn opt_vec_view(o: Option<Vec<u32>>) -> Option<Seq<u32>> {
    match o {
        Some(v) => Some(v@),
        None => None,
    }
}

pub open spec fn layout_matches(l: GeometryLayout, lv: LayoutV) -> bool {
    &&& l.vertex_values as nat == lv.vertex_values
    &&& l.triangles.corner_indices@ == lv.tri.corners
    &&& l.triangles.corner_pvi_index@ == lv.tri.pvis
    &&& l.triangles.tri_polygon_index@ == lv.tri.polys
    &&& l.triangles.polygon_count as nat == lv.tri.count
    &&& opt_vec_view(l.normal_elements) == lv.normals
    &&& opt_vec_view(l.uv_elements) == lv.uvs
    &&& opt_vec_view(l.material_slots) == lv.material_slots
    &&& crate::material::opt_bytes(l.material_mapping) == lv.material_mapping
}

/// The layout of a `Geometry` node (see [`spec_geometry_layout`]).
/// (Corner positions are reported as `u32`, so `PolygonVertexIndex` has
/// at most `u32::MAX` entries.)
#[verifier::loop_isolation(false)]
pub fn geometry_layout(geom: &FbxNode) -> (r: Result<GeometryLayout, FbxError>)
    requires
        polygon_vertex_index(node_view(*geom)) matches Ok(p) ==> p.len() <= u32::MAX,
    ensures
        match (r, spec_geometry_layout(node_view(*geom))) {
            (Ok(l), Ok(lv)) => layout_matches(l, lv),
            (Err(e), Err(se)) => e == se,
            _ => false,
        },
{
    let v = match geom.child("Vertices") {
        Some(v) => v,
        None => { return Err(FbxError::MissingVertices); }
    };
    if v.properties.len() == 0 {
        return Err(FbxError::VerticesNotFloatArray);
    }
    proof { crate::ascii::lemma_props_view_index(v.properties@, 0); }
    let vlen = match &v.properties[0] {
        FbxProperty::F64Array(a) => {
            assert(crate::model::reals_view(a@).len() == a@.len());
            a.len()
        }
        FbxProperty::F32Array(a) => a.len(),
        _ => { return Err(FbxError::VerticesNotFloatArray); }
    };
    if vlen % 3 != 0 {
        return Err(FbxError::VerticesLengthNotTriple(vlen));
    }
    let p = match geom.child("PolygonVertexIndex") {
        Some(p) => p,
        None => { return Err(FbxError::MissingPolygonVertexIndex); }
    };
    if p.properties.len() == 0 {
        return Err(FbxError::PolygonVertexIndexNotI32Array);
    }
    proof { crate::ascii::lemma_props_view_index(p.properties@, 0); }
    let pvi: &[i32] = match &p.properties[0] {
        FbxProperty::I32Array(a) => a.as_slice(),
        _ => { return Err(FbxError::PolygonVertexIndexNotI32Array); }
    };
    let triangles = match triangulate(pvi) {
        Ok(t) => t,
        Err(e) => { return Err(e); }
    };
    let ghost st = spec_triangulate(pvi@)->Ok_0;
    proof { lemma_tri_fold_lengths(pvi@, pvi@.len() as int); }
    let n = triangles.corner_indices.len();
    let mut c: usize = 0;
    while c < n
        invariant
            c <= n == triangles.corner_indices@.len(),
            corners_fold(triangles.corner_indices@, vlen as nat, c as int) == Ok::<(), FbxError>(()),
        decreases n - c,
    {
        let ix = triangles.corner_indices[c];
        if (ix as u64) * 3 + 2 >= vlen as u64 {
            proof { lemma_corners_fold_err(triangles.corner_indices@, vlen as nat, c as int + 1, n as int); }
            return Err(FbxError::VertexIndexOutOfRange(ix, vlen / 3));
        }
        c += 1;
    }
    let normal_elements = match geom.child("LayerElementNormal") {
        Some(l) => match pull_layer(l, "Normals", "NormalsIndex", 3, &triangles) {
            Ok(x) => x,
            Err(e) => { return Err(e); }
        },
        None => None,
    };
    let uv_elements = match geom.child("LayerElementUV") {
        Some(l) => match pull_layer(l, "UV", "UVIndex", 2, &triangles) {
            Ok(x) => x,
            Err(e) => { return Err(e); }
        },
        None => None,
    };
    let (material_slots, material_mapping) = match geom.child("LayerElementMaterial") {
        Some(l) => match pull_layer_material_slots(l, &triangles) {
            Ok(x) => (x, read_string_child(l, "MappingInformationType")),
            Err(e) => { return Err(e); }
        },
        None => (None, None),
    };
    Ok(GeometryLayout { vertex_values: vlen, triangles, normal_elements, uv_elements, material_slots, material_mapping })
}

proof fn lemma_corners_fold_err(corners: Seq<u32>, vlen: nat, j: int, k: int)
    requires 0 <= j <= k, corners_fold(corners, vlen, j) is Err,
    ensures corners_fold(corners, vlen, k) == corners_fold(corners, vlen, j),
    decreases k - j,
{
    if k > j {
        lemma_corners_fold_err(corners, vlen, j, k - 1);
    }
}

} // verus!
