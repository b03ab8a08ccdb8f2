use oxideav_fbx::deformer::deformer_graph;
use oxideav_fbx::deformer_writer::{build_deformer_objects, BlendEmit, ClusterEmit, MeshDeformers, SkinEmit, TargetEmit};
use oxideav_fbx::model::{FbxDocument, FbxNode, FbxProperty, FbxReal};

fn s(b: &str) -> FbxProperty {
    FbxProperty::String(b.as_bytes().to_vec())
}

fn bits(v: f64) -> FbxReal {
    FbxReal::Bits(v.to_bits())
}

fn identity() -> Vec<FbxReal> {
    (0..16).map(|i| bits(if i % 5 == 0 { 1.0 } else { 0.0 })).collect()
}

fn cluster(id: i64, j: usize, bone: i64) -> ClusterEmit {
    ClusterEmit {
        id,
        name: format!("Joint{j}"),
        bone,
        indexes: vec![0, 2],
        weights: vec![bits(1.0), bits(0.5)],
        transform: identity(),
        transform_link: identity(),
    }
}

fn meshes() -> Vec<MeshDeformers> {
    vec![MeshDeformers {
        skin: Some(SkinEmit { id: 10, geometry: 100, clusters: vec![cluster(11, 0, 200), cluster(12, 1, 201)] }),
        blend: Some(BlendEmit {
            id: 20,
            geometry: 100,
            targets: vec![TargetEmit {
                channel_id: 21,
                name: "Target0".into(),
                shape_id: 22,
                indexes: vec![1],
                vertices: vec![bits(0.0), bits(1.0), bits(0.0)],
                normals: None,
            }],
        }),
    }]
}

#[test]
fn deformer_trees_write_in_order() {
    let (objects, connections) = build_deformer_objects(&meshes());
    let heads: Vec<(&str, i64, FbxProperty)> = objects
        .iter()
        .map(|o| (o.name.as_str(), o.properties[0].as_i64().unwrap(), o.properties[2].clone()))
        .collect();
    assert_eq!(
        heads,
        vec![
            ("Deformer", 10, s("Skin")),
            ("Deformer", 11, s("Cluster")),
            ("Deformer", 12, s("Cluster")),
            ("Deformer", 20, s("BlendShape")),
            ("Deformer", 21, s("BlendShapeChannel")),
            ("Geometry", 22, s("Shape")),
        ]
    );
    assert_eq!(objects[1].properties[1], s("Joint0\x00\x01Deformer"));
    let names: Vec<&str> = objects[1].children.iter().map(|c| c.name.as_str()).collect();
    assert_eq!(names, vec!["Indexes", "Weights", "Transform", "TransformLink"]);
    assert_eq!(objects[5].children.len(), 2);
    let pairs: Vec<(i64, i64)> = connections
        .iter()
        .map(|c| (c.properties[1].as_i64().unwrap(), c.properties[2].as_i64().unwrap()))
        .collect();
    assert_eq!(pairs, vec![(10, 100), (11, 10), (11, 200), (12, 10), (12, 201), (20, 100), (21, 20), (22, 21)]);
}

#[test]
fn written_deformers_read_back_through_the_graph() {
    let (mut objects, connections) = build_deformer_objects(&meshes());
    objects.push(FbxNode {
        name: "Geometry".into(),
        properties: vec![FbxProperty::I64(100), s("Mesh\x00\x01Geometry"), s("Mesh")],
        children: vec![],
    });
    let doc = FbxDocument {
        version: 7400,
        root: FbxNode {
            name: String::new(),
            properties: vec![],
            children: vec![
                FbxNode { name: "Objects".into(), properties: vec![], children: objects },
                FbxNode { name: "Connections".into(), properties: vec![], children: connections },
            ],
        },
    };
    let g = deformer_graph(&doc, &[100], &[200, 201]);
    assert_eq!(g.skins.len(), 1);
    let joints: Vec<(usize, i64, i64)> =
        g.skins[0].joints.iter().map(|(j, n, b)| (*j, n.properties[0].as_i64().unwrap(), *b)).collect();
    assert_eq!(joints, vec![(0, 11, 200), (1, 12, 201)]);
    assert_eq!(g.blends.len(), 1);
    let chans: Vec<(i64, i64)> =
        g.blends[0].channels.iter().map(|(c, n)| (*c, n.properties[0].as_i64().unwrap())).collect();
    assert_eq!(chans, vec![(21, 22)]);
}

#[test]
fn meshes_without_deformers_write_nothing() {
    let (objects, connections) = build_deformer_objects(&[MeshDeformers { skin: None, blend: None }]);
    assert!(objects.is_empty());
    assert!(connections.is_empty());
}

#[test]
fn written_skin_reads_back_with_joints_in_cluster_order() {
    let cluster = |id: i64, bone: i64| ClusterEmit {
        id,
        name: format!("c{id}"),
        bone,
        indexes: vec![0, 1],
        weights: vec![],
        transform: vec![],
        transform_link: vec![],
    };
    let skin = SkinEmit { id: 10, geometry: 1, clusters: vec![cluster(11, 101), cluster(12, 102)] };
    let (objects, connections) = build_deformer_objects(&[MeshDeformers { skin: Some(skin), blend: None }]);
    let doc = FbxDocument {
        version: 7500,
        root: FbxNode {
            name: String::new(),
            properties: vec![],
            children: vec![
                FbxNode { name: "Objects".to_string(), properties: vec![], children: objects },
                FbxNode { name: "Connections".to_string(), properties: vec![], children: connections },
            ],
        },
    };
    let g = deformer_graph(&doc, &[1], &[101, 102]);
    assert_eq!(g.skins.len(), 1);
    let s = &g.skins[0];
    assert_eq!((s.skin, s.geometry), (10, 1));
    let joints: Vec<(usize, i64)> = s.joints.iter().map(|(j, _, bone)| (*j, *bone)).collect();
    assert_eq!(joints, vec![(0, 101), (1, 102)]);
}

#[test]
fn written_blend_shape_reads_back_with_channels_in_order() {
    let target = |channel_id: i64, shape_id: i64| TargetEmit {
        channel_id,
        name: format!("t{channel_id}"),
        shape_id,
        indexes: vec![0],
        vertices: vec![],
        normals: None,
    };
    let blend = BlendEmit { id: 20, geometry: 1, targets: vec![target(21, 31), target(22, 32)] };
    let (objects, connections) = build_deformer_objects(&[MeshDeformers { skin: None, blend: Some(blend) }]);
    let doc = FbxDocument {
        version: 7500,
        root: FbxNode {
            name: String::new(),
            properties: vec![],
            children: vec![
                FbxNode { name: "Objects".to_string(), properties: vec![], children: objects },
                FbxNode { name: "Connections".to_string(), properties: vec![], children: connections },
            ],
        },
    };
    let g = deformer_graph(&doc, &[1], &[]);
    assert!(g.skins.is_empty());
    assert_eq!(g.blends.len(), 1);
    let b = &g.blends[0];
    assert_eq!((b.blend, b.geometry), (20, 1));
    let channels: Vec<i64> = b.channels.iter().map(|(c, _)| *c).collect();
    assert_eq!(channels, vec![21, 22]);
    assert_eq!(b.channels[1].1.properties[0], FbxProperty::I64(32));
}
