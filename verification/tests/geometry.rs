use oxideav_fbx::error::FbxError;
use oxideav_fbx::geometry::{decode_pvi, triangulate};

#[test]
fn pvi_decodes_end_marker() {
    assert_eq!(decode_pvi(-5), 4);
    assert_eq!(decode_pvi(0), 0);
    assert_eq!(decode_pvi(7), 7);
    assert_eq!(decode_pvi(-1), 0);
}

#[test]
fn fan_triangulates_quad() {
    let pvi = vec![0, 1, 2, -4];
    let tris = triangulate(&pvi).unwrap();
    assert_eq!(tris.corner_indices, vec![0, 1, 2, 0, 2, 3]);
}

#[test]
fn fan_triangulates_triangle() {
    let pvi = vec![5, 6, -8];
    let tris = triangulate(&pvi).unwrap();
    assert_eq!(tris.corner_indices, vec![5, 6, 7]);
}

#[test]
fn rejects_polygon_with_too_few_vertices() {
    let pvi = vec![0, -2];
    assert!(triangulate(&pvi).is_err());
}

#[test]
fn triangulation_tracks_polygon_index() {
    let pvi = vec![0, 1, -3, 4, 5, -7, 8, 9, 10, -12, 13, 14, -16];
    let tris = triangulate(&pvi).unwrap();
    assert_eq!(tris.polygon_count, 4);
    assert_eq!(tris.tri_polygon_index, vec![0, 1, 2, 2, 3]);
    assert_eq!(tris.corner_indices.len(), 5 * 3);
}

#[test]
fn extreme_markers_decode() {
    assert_eq!(decode_pvi(i32::MIN), i32::MAX as u32);
    assert_eq!(decode_pvi(i32::MAX), i32::MAX as u32);
}

#[test]
fn corner_positions_follow_the_fan() {
    let tris = triangulate(&[3, 1, 4, 1, -6]).unwrap();
    assert_eq!(tris.corner_indices, vec![3, 1, 4, 3, 4, 1, 3, 1, 5]);
    assert_eq!(tris.corner_pvi_index, vec![0, 1, 2, 0, 2, 3, 0, 3, 4]);
    assert_eq!(tris.tri_polygon_index, vec![0, 0, 0]);
    assert_eq!(tris.polygon_count, 1);
}

#[test]
fn triangulation_errors() {
    assert_eq!(triangulate(&[0, 1, -3, 7, -9]).unwrap_err(), FbxError::PolygonTooFewCorners(3, 4));
    assert_eq!(triangulate(&[0, 1, 2]).unwrap_err(), FbxError::PolygonNotClosed);
    let empty = triangulate(&[]).unwrap();
    assert_eq!(empty.polygon_count, 0);
    assert!(empty.corner_indices.is_empty());
}

// ----- Layer elements -----

use oxideav_fbx::geometry::{geometry_layout, layer_corner_elements, pull_layer, pull_layer_material_slots};
use oxideav_fbx::model::{FbxNode, FbxProperty, FbxReal};

fn leaf(name: &str, p: FbxProperty) -> FbxNode {
    FbxNode { name: name.to_string(), properties: vec![p], children: Vec::new() }
}

fn text(s: &str) -> FbxProperty {
    FbxProperty::String(s.as_bytes().to_vec())
}

fn make_layer_material_node(materials_arr: Vec<i32>, mapping: Option<&str>) -> FbxNode {
    let mut layer = FbxNode {
        name: "LayerElementMaterial".to_string(),
        properties: vec![FbxProperty::I32(0)],
        children: Vec::new(),
    };
    if let Some(m) = mapping {
        layer.children.push(leaf("MappingInformationType", text(m)));
        layer.children.push(leaf("ReferenceInformationType", text("IndexToDirect")));
    }
    layer.children.push(leaf("Materials", FbxProperty::I32Array(materials_arr)));
    layer
}

#[test]
fn layer_material_all_same_broadcasts_single_slot() {
    let tris = triangulate(&[0, 1, -3, 4, 5, -7]).unwrap();
    assert_eq!(tris.polygon_count, 2);
    let layer = make_layer_material_node(vec![3], Some("AllSame"));
    let slots = pull_layer_material_slots(&layer, &tris).unwrap().unwrap();
    assert_eq!(slots, vec![3, 3, 3, 3, 3, 3]);
}

#[test]
fn layer_material_by_polygon_per_polygon_payload() {
    let tris = triangulate(&[0, 1, -3, 4, 5, 6, -8, 9, 10, -12]).unwrap();
    assert_eq!(tris.polygon_count, 3);
    let layer = make_layer_material_node(vec![0, 1, 0], Some("ByPolygon"));
    let slots = pull_layer_material_slots(&layer, &tris).unwrap().unwrap();
    assert_eq!(slots, vec![0, 0, 0, 1, 1, 1, 1, 1, 1, 0, 0, 0]);
}

#[test]
fn layer_material_by_polygon_length_mismatch_errors() {
    let tris = triangulate(&[0, 1, -3, 4, 5, -7]).unwrap();
    let layer = make_layer_material_node(vec![0, 1, 0], Some("ByPolygon"));
    let err = pull_layer_material_slots(&layer, &tris).unwrap_err();
    let msg = err.message();
    assert!(msg.contains("ByPolygon"), "expected ByPolygon length mismatch error, got: {msg}");
    assert_eq!(err, FbxError::MaterialsLengthMismatch(3, 2));
}

#[test]
fn layer_material_single_entry_treated_as_all_same() {
    let tris = triangulate(&[0, 1, -3, 4, 5, -7]).unwrap();
    let layer = make_layer_material_node(vec![2], None);
    let slots = pull_layer_material_slots(&layer, &tris).unwrap().unwrap();
    assert_eq!(slots, vec![2; 6]);
}

#[test]
fn layer_material_unknown_mapping_returns_none() {
    let tris = triangulate(&[0, 1, -3]).unwrap();
    let layer = make_layer_material_node(vec![0, 1, 2], Some("ByVertex"));
    assert!(pull_layer_material_slots(&layer, &tris).unwrap().is_none());
}

#[test]
fn layer_material_negative_and_wide_slots() {
    let tris = triangulate(&[0, 1, -3, 4, 5, -7]).unwrap();
    let layer = make_layer_material_node(vec![-4, 7], Some("ByPolygon"));
    assert_eq!(pull_layer_material_slots(&layer, &tris).unwrap().unwrap(), vec![0, 0, 0, 7, 7, 7]);
    let mut wide = make_layer_material_node(vec![], Some("AllSame"));
    wide.children[2] = leaf("Materials", FbxProperty::I64Array(vec![(1i64 << 32) + 5]));
    assert_eq!(pull_layer_material_slots(&wide, &tris).unwrap().unwrap(), vec![5; 6]);
    let empty = make_layer_material_node(vec![], Some("AllSame"));
    assert!(pull_layer_material_slots(&empty, &tris).unwrap().is_none());
}

#[test]
fn layer_elements_by_mapping_and_reference() {
    let tris = triangulate(&[0, 1, 2, -4]).unwrap();
    // corners: [0,1,2,0,2,3]; positions in PolygonVertexIndex: [0,1,2,0,2,3]
    assert_eq!(
        layer_corner_elements(Some("ByPolygonVertex"), Some("Direct"), None, 4, &tris).unwrap(),
        Some(vec![0, 1, 2, 0, 2, 3])
    );
    assert_eq!(
        layer_corner_elements(Some("ByVertice"), Some("IndexToDirect"), Some(&[3, 2, 1, 0]), 4, &tris).unwrap(),
        Some(vec![3, 2, 1, 3, 1, 0])
    );
    assert_eq!(layer_corner_elements(Some("AllSame"), None, None, 4, &tris).unwrap(), None);
    assert_eq!(
        layer_corner_elements(Some("ByVertex"), Some("IndexToDirect"), None, 4, &tris).unwrap_err(),
        FbxError::LayerIndexMissing
    );
    assert_eq!(
        layer_corner_elements(Some("ByVertex"), Some("IndexToDirect"), Some(&[0, -2, 0, 0]), 4, &tris).unwrap_err(),
        FbxError::LayerIndexNegative(-2)
    );
    assert_eq!(
        layer_corner_elements(Some("ByVertex"), Some("IndexToDirect"), Some(&[0, 1]), 4, &tris).unwrap_err(),
        FbxError::LayerIndexNegative(-1)
    );
    assert_eq!(
        layer_corner_elements(Some("ByVertex"), None, None, 3, &tris).unwrap_err(),
        FbxError::LayerElementOutOfRange(3, 3)
    );
}

fn reals(n: usize) -> FbxProperty {
    FbxProperty::F64Array((0..n).map(|i| FbxReal::Bits((i as f64).to_bits())).collect())
}

fn normal_layer(mapping: &str, data: FbxProperty) -> FbxNode {
    FbxNode {
        name: "LayerElementNormal".to_string(),
        properties: vec![FbxProperty::I32(0)],
        children: vec![
            leaf("MappingInformationType", text(mapping)),
            leaf("ReferenceInformationType", text("Direct")),
            leaf("Normals", data),
        ],
    }
}

#[test]
fn layer_node_reading() {
    let tris = triangulate(&[0, 1, -3]).unwrap();
    let layer = normal_layer("ByPolygonVertex", reals(9));
    assert_eq!(pull_layer(&layer, "Normals", "NormalsIndex", 3, &tris).unwrap(), Some(vec![0, 1, 2]));
    let bad = normal_layer("ByPolygonVertex", reals(8));
    assert_eq!(
        pull_layer(&bad, "Normals", "NormalsIndex", 3, &tris).unwrap_err(),
        FbxError::LayerLengthNotMultiple(8, 3)
    );
    let not_floats = normal_layer("ByPolygonVertex", FbxProperty::I32Array(vec![0; 9]));
    assert_eq!(pull_layer(&not_floats, "Normals", "NormalsIndex", 3, &tris).unwrap(), None);
    assert_eq!(pull_layer(&layer, "Binormals", "BinormalsIndex", 3, &tris).unwrap(), None);
}

fn quad_geometry(vertex_values: usize, extra: Vec<FbxNode>) -> FbxNode {
    let mut children = vec![
        leaf("Vertices", reals(vertex_values)),
        leaf("PolygonVertexIndex", FbxProperty::I32Array(vec![0, 1, 2, -4])),
    ];
    children.extend(extra);
    FbxNode { name: "Geometry".to_string(), properties: vec![], children }
}

#[test]
fn geometry_layout_of_a_quad() {
    let uv = FbxNode {
        name: "LayerElementUV".to_string(),
        properties: vec![],
        children: vec![
            leaf("MappingInformationType", text("ByPolygonVertex")),
            leaf("ReferenceInformationType", text("IndexToDirect")),
            leaf("UV", FbxProperty::F32Array(vec![0; 4])),
            leaf("UVIndex", FbxProperty::I32Array(vec![0, 1, 1, 0])),
        ],
    };
    let geom = quad_geometry(12, vec![normal_layer("ByVertex", reals(12)), uv, make_layer_material_node(vec![1], Some("AllSame"))]);
    let l = geometry_layout(&geom).unwrap();
    assert_eq!(l.vertex_values, 12);
    assert_eq!(l.triangles.corner_indices, vec![0, 1, 2, 0, 2, 3]);
    assert_eq!(l.normal_elements, Some(vec![0, 1, 2, 0, 2, 3]));
    assert_eq!(l.uv_elements, Some(vec![0, 1, 1, 0, 1, 0]));
    assert_eq!(l.material_slots, Some(vec![1; 6]));
    assert_eq!(l.material_mapping.as_deref(), Some("AllSame"));
}

#[test]
fn geometry_layout_errors_in_order() {
    let mut none = quad_geometry(12, vec![]);
    none.children.remove(0);
    assert_eq!(geometry_layout(&none).unwrap_err(), FbxError::MissingVertices);
    let mut ints = quad_geometry(12, vec![]);
    ints.children[0] = leaf("Vertices", FbxProperty::I32Array(vec![0; 12]));
    assert_eq!(geometry_layout(&ints).unwrap_err(), FbxError::VerticesNotFloatArray);
    assert_eq!(geometry_layout(&quad_geometry(10, vec![])).unwrap_err(), FbxError::VerticesLengthNotTriple(10));
    let mut no_pvi = quad_geometry(12, vec![]);
    no_pvi.children.remove(1);
    assert_eq!(geometry_layout(&no_pvi).unwrap_err(), FbxError::MissingPolygonVertexIndex);
    let mut pvi64 = quad_geometry(12, vec![]);
    pvi64.children[1] = leaf("PolygonVertexIndex", FbxProperty::I64Array(vec![0, 1, -3]));
    assert_eq!(geometry_layout(&pvi64).unwrap_err(), FbxError::PolygonVertexIndexNotI32Array);
    assert_eq!(geometry_layout(&quad_geometry(9, vec![])).unwrap_err(), FbxError::VertexIndexOutOfRange(3, 3));
    let bad_normals = quad_geometry(12, vec![normal_layer("ByVertex", reals(6))]);
    assert_eq!(geometry_layout(&bad_normals).unwrap_err(), FbxError::LayerElementOutOfRange(2, 2));
}
