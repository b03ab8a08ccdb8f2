use std::collections::HashMap;

use oxideav_fbx::kinds::{geometry_kind_tags, node_attribute_kind_tags, AttachedKind};
use oxideav_fbx::model::{FbxDocument, FbxNode, FbxProperty};
use oxideav_mesh3d::{NodeId, Scene3D};
use serde_json::Value;

fn s(b: &[u8]) -> FbxProperty {
    FbxProperty::String(b.to_vec())
}

fn element(class: &str, id: i64, subtype: &str) -> FbxNode {
    FbxNode {
        name: class.into(),
        properties: vec![
            FbxProperty::I64(id),
            s(format!("{class}\x00\x01{class}").as_bytes()),
            s(subtype.as_bytes()),
        ],
        children: Vec::new(),
    }
}

fn geometry(id: i64, subtype: &str) -> FbxNode {
    element("Geometry", id, subtype)
}

fn node_attribute(id: i64, subtype: &str) -> FbxNode {
    element("NodeAttribute", id, subtype)
}

fn model_node(id: i64, name: &str, subtype: &str) -> FbxNode {
    let display = format!("{name}\x00\x01Model");
    FbxNode {
        name: "Model".into(),
        properties: vec![FbxProperty::I64(id), FbxProperty::String(display.into_bytes()), s(subtype.as_bytes())],
        children: Vec::new(),
    }
}

fn c_oo(child: i64, parent: i64) -> FbxNode {
    FbxNode {
        name: "C".into(),
        properties: vec![s(b"OO"), FbxProperty::I64(child), FbxProperty::I64(parent)],
        children: Vec::new(),
    }
}

fn build_doc(objects: Vec<FbxNode>, conns: Vec<FbxNode>) -> FbxDocument {
    let root = FbxNode {
        name: String::new(),
        properties: Vec::new(),
        children: vec![
            FbxNode { name: "Objects".into(), properties: Vec::new(), children: objects },
            FbxNode { name: "Connections".into(), properties: Vec::new(), children: conns },
        ],
    };
    FbxDocument { version: 7500, root }
}

/// Write tags onto the scene nodes of their models, keeping any entry
/// already present.
fn apply(
    scene: &mut Scene3D,
    model_nodes: &HashMap<i64, NodeId>,
    tags: &[(i64, AttachedKind)],
    key: &str,
) {
    for (model, kind) in tags {
        if let Some(nid) = model_nodes.get(model) {
            if let Some(n) = scene.nodes.get_mut(nid.0 as usize) {
                n.extras
                    .entry(key.to_string())
                    .or_insert_with(|| Value::String(kind.name().to_string()));
            }
        }
    }
}

fn make_scene(model_fid: i64) -> (Scene3D, HashMap<i64, NodeId>) {
    let mut scene = Scene3D::new();
    let mut model_nodes = HashMap::new();
    let nid = scene.add_node(oxideav_mesh3d::Node::new());
    model_nodes.insert(model_fid, nid);
    (scene, model_nodes)
}

fn geometry_kind_on(doc: &FbxDocument, model: i64) -> Option<Value> {
    let (mut scene, model_nodes) = make_scene(model);
    apply(&mut scene, &model_nodes, &geometry_kind_tags(doc), "fbx:geometry_kind");
    scene.nodes[model_nodes[&model].0 as usize].extras.get("fbx:geometry_kind").cloned()
}

fn attribute_kind_on(doc: &FbxDocument, model: i64) -> Option<Value> {
    let (mut scene, model_nodes) = make_scene(model);
    apply(&mut scene, &model_nodes, &node_attribute_kind_tags(doc), "fbx:node_attribute_kind");
    scene.nodes[model_nodes[&model].0 as usize]
        .extras
        .get("fbx:node_attribute_kind")
        .cloned()
}

// ----- Geometry subtypes -----

#[test]
fn nurbs_curve_lands_on_owning_model_extras() {
    let doc = build_doc(vec![geometry(700, "NurbsCurve"), model_node(800, "Curve1", "Null")], vec![c_oo(700, 800)]);
    assert_eq!(geometry_kind_on(&doc, 800), Some(Value::String("NurbsCurve".into())));
    assert_eq!(geometry_kind_tags(&doc), vec![(800, AttachedKind::NurbsCurve)]);
}

#[test]
fn every_documented_subtype_surfaces() {
    for (i, st) in ["NurbsCurve", "NurbsSurface", "Boundary", "TrimNurbsSurface", "Line"].iter().enumerate() {
        let gid = 900 + i as i64;
        let mid = 1000 + i as i64;
        let doc = build_doc(vec![geometry(gid, st), model_node(mid, "M", "Null")], vec![c_oo(gid, mid)]);
        assert_eq!(
            geometry_kind_on(&doc, mid),
            Some(Value::String((*st).to_string())),
            "subtype {st} should surface"
        );
    }
}

#[test]
fn mesh_subtype_is_not_tagged() {
    let doc = build_doc(vec![geometry(701, "Mesh"), model_node(801, "M", "Null")], vec![c_oo(701, 801)]);
    assert_eq!(geometry_kind_on(&doc, 801), None);
}

#[test]
fn shape_subtype_is_not_tagged() {
    let doc = build_doc(vec![geometry(702, "Shape"), model_node(802, "M", "Null")], vec![c_oo(702, 802)]);
    assert_eq!(geometry_kind_on(&doc, 802), None);
}

#[test]
fn geometry_without_owning_model_is_skipped() {
    let doc = build_doc(vec![geometry(703, "Line")], vec![]);
    let mut scene = Scene3D::new();
    let model_nodes: HashMap<i64, NodeId> = HashMap::new();
    apply(&mut scene, &model_nodes, &geometry_kind_tags(&doc), "fbx:geometry_kind");
    assert!(scene.nodes.is_empty());
    assert!(geometry_kind_tags(&doc).is_empty());
}

#[test]
fn geometry_kind_non_oo_connections_are_ignored() {
    let mut c = c_oo(704, 804);
    c.properties[0] = s(b"OP");
    let doc = build_doc(vec![geometry(704, "NurbsSurface"), model_node(804, "M", "Null")], vec![c]);
    assert_eq!(geometry_kind_on(&doc, 804), None);
}

#[test]
fn does_not_collide_with_node_attribute_kind_key() {
    let doc = build_doc(vec![geometry(705, "Boundary"), model_node(805, "M", "Null")], vec![c_oo(705, 805)]);
    let mut scene = Scene3D::new();
    let mut model_nodes = HashMap::new();
    let mut prefilled = oxideav_mesh3d::Node::new();
    prefilled.extras.insert("fbx:node_attribute_kind".into(), Value::String("LimbNode".into()));
    let nid = scene.add_node(prefilled);
    model_nodes.insert(805, nid);
    apply(&mut scene, &model_nodes, &geometry_kind_tags(&doc), "fbx:geometry_kind");
    let node = &scene.nodes[nid.0 as usize];
    assert_eq!(node.extras.get("fbx:node_attribute_kind"), Some(&Value::String("LimbNode".into())));
    assert_eq!(node.extras.get("fbx:geometry_kind"), Some(&Value::String("Boundary".into())));
}

#[test]
fn geometry_kind_unknown_subtype_does_not_emit_kind() {
    let doc = build_doc(vec![geometry(706, "SomeFutureKind"), model_node(806, "M", "Null")], vec![c_oo(706, 806)]);
    assert_eq!(geometry_kind_on(&doc, 806), None);
}

#[test]
fn geometry_kind_first_kind_wins_on_repeated_oo_to_same_model() {
    let doc = build_doc(
        vec![geometry(720, "NurbsCurve"), geometry(721, "Line"), model_node(820, "M", "Null")],
        vec![c_oo(720, 820), c_oo(721, 820)],
    );
    let val = geometry_kind_on(&doc, 820).expect("kind tag");
    assert!(matches!(val.as_str(), Some("NurbsCurve") | Some("Line")));
    assert_eq!(geometry_kind_tags(&doc), vec![(820, AttachedKind::NurbsCurve)]);
}

// ----- NodeAttribute subtypes -----

#[test]
fn limbnode_subtype_lands_on_owning_model_extras() {
    let doc = build_doc(vec![node_attribute(400, "LimbNode"), model_node(500, "Bone1", "LimbNode")], vec![c_oo(400, 500)]);
    assert_eq!(attribute_kind_on(&doc, 500), Some(Value::String("LimbNode".into())));
}

#[test]
fn null_subtype_lands_on_owning_model_extras() {
    let doc = build_doc(vec![node_attribute(401, "Null"), model_node(501, "Locator", "Null")], vec![c_oo(401, 501)]);
    assert_eq!(attribute_kind_on(&doc, 501), Some(Value::String("Null".into())));
}

#[test]
fn node_attribute_unknown_subtype_does_not_emit_kind() {
    let doc = build_doc(vec![node_attribute(402, "Marker"), model_node(502, "M", "")], vec![c_oo(402, 502)]);
    assert_eq!(attribute_kind_on(&doc, 502), None);
}

#[test]
fn node_attribute_without_owning_model_is_skipped() {
    let doc = build_doc(vec![node_attribute(403, "LimbNode")], vec![]);
    let mut scene = Scene3D::new();
    let model_nodes: HashMap<i64, NodeId> = HashMap::new();
    apply(&mut scene, &model_nodes, &node_attribute_kind_tags(&doc), "fbx:node_attribute_kind");
    assert!(scene.nodes.is_empty());
}

#[test]
fn limbnode_does_not_collide_with_light_type_key() {
    let doc = build_doc(vec![node_attribute(410, "LimbNode"), model_node(510, "Bone", "LimbNode")], vec![c_oo(410, 510)]);
    let mut scene = Scene3D::new();
    let mut model_nodes = HashMap::new();
    let mut prefilled = oxideav_mesh3d::Node::new();
    prefilled.extras.insert("fbx:light_type".into(), Value::String("Area".into()));
    let nid = scene.add_node(prefilled);
    model_nodes.insert(510, nid);
    apply(&mut scene, &model_nodes, &node_attribute_kind_tags(&doc), "fbx:node_attribute_kind");
    let node = &scene.nodes[nid.0 as usize];
    assert_eq!(node.extras.get("fbx:light_type"), Some(&Value::String("Area".into())));
    assert_eq!(node.extras.get("fbx:node_attribute_kind"), Some(&Value::String("LimbNode".into())));
}

#[test]
fn node_attribute_first_kind_wins_on_repeated_oo_to_same_model() {
    let doc = build_doc(
        vec![node_attribute(420, "LimbNode"), node_attribute(421, "Null"), model_node(520, "M", "")],
        vec![c_oo(420, 520), c_oo(421, 520)],
    );
    let val = attribute_kind_on(&doc, 520).expect("kind tag");
    assert!(matches!(val.as_str(), Some("LimbNode") | Some("Null")));
}

#[test]
fn node_attribute_non_oo_connections_are_ignored() {
    let mut c = c_oo(430, 530);
    c.properties[0] = s(b"OP");
    let doc = build_doc(vec![node_attribute(430, "LimbNode"), model_node(530, "Bone", "LimbNode")], vec![c]);
    assert_eq!(attribute_kind_on(&doc, 530), None);
}

// ----- Further cases -----

#[test]
fn classes_do_not_mix() {
    let doc = build_doc(
        vec![geometry(1, "Null"), node_attribute(2, "Line"), node_attribute(3, "Null")],
        vec![c_oo(1, 10), c_oo(2, 20), c_oo(3, 30)],
    );
    assert!(geometry_kind_tags(&doc).is_empty());
    assert_eq!(node_attribute_kind_tags(&doc), vec![(30, AttachedKind::Null)]);
}

#[test]
fn later_element_with_same_id_replaces_earlier() {
    let doc = build_doc(
        vec![geometry(5, "Line"), geometry(5, "NurbsSurface"), geometry(5, "Mesh")],
        vec![c_oo(5, 50), c_oo(5, 51)],
    );
    assert_eq!(
        geometry_kind_tags(&doc),
        vec![(50, AttachedKind::NurbsSurface), (51, AttachedKind::NurbsSurface)]
    );
    assert_eq!(AttachedKind::TrimNurbsSurface.name(), "TrimNurbsSurface");
}

#[test]
fn malformed_connections_are_skipped() {
    let short = FbxNode { name: "C".into(), properties: vec![s(b"OO"), FbxProperty::I64(7)], children: vec![] };
    let named_other = FbxNode { name: "D".into(), properties: c_oo(7, 70).properties, children: vec![] };
    let string_parent = FbxNode {
        name: "C".into(),
        properties: vec![s(b"OO"), FbxProperty::I64(7), s(b"70")],
        children: vec![],
    };
    let doc = build_doc(vec![geometry(7, "Line")], vec![short, named_other, string_parent, c_oo(7, 71)]);
    assert_eq!(geometry_kind_tags(&doc), vec![(71, AttachedKind::Line)]);
}
