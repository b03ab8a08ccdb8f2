use oxideav_fbx::deformer::deformer_graph;
use oxideav_fbx::model::{FbxDocument, FbxNode, FbxProperty};

fn s(b: &str) -> FbxProperty {
    FbxProperty::String(b.as_bytes().to_vec())
}

fn element(class: &str, id: i64, subtype: &str) -> FbxNode {
    FbxNode {
        name: class.into(),
        properties: vec![FbxProperty::I64(id), s(&format!("E{id}\x00\x01{class}")), s(subtype)],
        children: vec![],
    }
}

fn oo(child: i64, parent: i64) -> FbxNode {
    FbxNode { name: "C".into(), properties: vec![s("OO"), FbxProperty::I64(child), FbxProperty::I64(parent)], children: vec![] }
}

fn doc(objects: Vec<FbxNode>, conns: Vec<FbxNode>) -> FbxDocument {
    FbxDocument {
        version: 7400,
        root: FbxNode {
            name: String::new(),
            properties: vec![],
            children: vec![
                FbxNode { name: "Objects".into(), properties: vec![], children: objects },
                FbxNode { name: "Connections".into(), properties: vec![], children: conns },
            ],
        },
    }
}

#[test]
fn skin_with_clusters_and_bones() {
    let d = doc(
        vec![
            element("Deformer", 10, "Skin"),
            element("Deformer", 11, "Cluster"),
            element("Deformer", 12, "Cluster"),
            element("Deformer", 13, "Cluster"),
        ],
        vec![oo(10, 100), oo(11, 10), oo(12, 10), oo(13, 10), oo(11, 200), oo(13, 201)],
    );
    let g = deformer_graph(&d, &[100], &[200, 201]);
    assert_eq!(g.skins.len(), 1);
    let sk = &g.skins[0];
    assert_eq!((sk.skin, sk.geometry), (10, 100));
    let joints: Vec<(usize, i64, i64)> =
        sk.joints.iter().map(|(j, n, b)| (*j, n.properties[0].as_i64().unwrap(), *b)).collect();
    // Cluster 12 has no bone: it keeps its joint index slot but has no joint.
    assert_eq!(joints, vec![(0, 11, 200), (2, 13, 201)]);
    assert!(g.blends.is_empty());
}

#[test]
fn skin_without_bones_or_mesh_is_dropped() {
    let d = doc(
        vec![element("Deformer", 10, "Skin"), element("Deformer", 11, "Cluster")],
        vec![oo(10, 100), oo(11, 10)],
    );
    assert!(deformer_graph(&d, &[100], &[]).skins.is_empty());
    let d2 = doc(
        vec![element("Deformer", 10, "Skin"), element("Deformer", 11, "Cluster")],
        vec![oo(10, 100), oo(11, 10), oo(11, 5)],
    );
    assert!(deformer_graph(&d2, &[], &[5]).skins.is_empty());
    assert_eq!(deformer_graph(&d2, &[100], &[5]).skins.len(), 1);
}

#[test]
fn blend_shape_channels_take_their_last_shape() {
    let d = doc(
        vec![
            element("Deformer", 20, "BlendShape"),
            element("Deformer", 21, "BlendShapeChannel"),
            element("Deformer", 22, "BlendShapeChannel"),
            element("Geometry", 30, "Shape"),
            element("Geometry", 31, "Shape"),
            element("Geometry", 32, "Mesh"),
        ],
        vec![oo(20, 100), oo(21, 20), oo(22, 20), oo(30, 21), oo(31, 21), oo(32, 22)],
    );
    let g = deformer_graph(&d, &[100], &[]);
    assert_eq!(g.blends.len(), 1);
    let b = &g.blends[0];
    assert_eq!((b.blend, b.geometry), (20, 100));
    let chans: Vec<(i64, i64)> =
        b.channels.iter().map(|(c, n)| (*c, n.properties[0].as_i64().unwrap())).collect();
    assert_eq!(chans, vec![(21, 31)]);
}

#[test]
fn first_matching_rule_wins_and_later_geometry_link_replaces() {
    // A skin linked to two geometries keeps the later one, at the first
    // link's position; a non-OO link does nothing.
    let mut op = oo(11, 10);
    op.properties[0] = s("OP");
    let d = doc(
        vec![element("Deformer", 10, "Skin"), element("Deformer", 11, "Cluster"), element("Deformer", 40, "Skin")],
        vec![oo(10, 100), oo(40, 100), op, oo(10, 101), oo(11, 10), oo(11, 300)],
    );
    let g = deformer_graph(&d, &[100, 101], &[300]);
    let pairs: Vec<(i64, i64)> = g.skins.iter().map(|s| (s.skin, s.geometry)).collect();
    assert_eq!(pairs, vec![(10, 101)]);
}
