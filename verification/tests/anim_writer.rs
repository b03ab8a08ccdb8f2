use oxideav_fbx::anim_writer::{build_animation_objects, build_curve, CurveEmit, CurveNodeEmit, StackEmit};
use oxideav_fbx::animation::{animation_graph, curve_keys};
use oxideav_fbx::model::{FbxDocument, FbxNode, FbxProperty};

fn s(b: &str) -> FbxProperty {
    FbxProperty::String(b.as_bytes().to_vec())
}

fn curve(id: i64, axis: &str, v: f32) -> CurveEmit {
    CurveEmit { id, axis: axis.into(), times: vec![0, 46_186_158_000], values: vec![0f32.to_bits(), v.to_bits()] }
}

fn one_stack() -> StackEmit {
    StackEmit {
        id: 1,
        name: "Walk".into(),
        layer_id: 2,
        curve_nodes: vec![
            CurveNodeEmit {
                id: 3,
                target: 100,
                property: "Lcl Translation".into(),
                curves: vec![curve(4, "d|X", 1.0), curve(5, "d|Y", 2.0), curve(6, "d|Z", 3.0)],
            },
            CurveNodeEmit {
                id: 7,
                target: 200,
                property: "DeformPercent".into(),
                curves: vec![curve(8, "d|DeformPercent", 50.0)],
            },
        ],
    }
}

#[test]
fn curve_element_carries_ticks_and_values() {
    let c = curve(9, "d|X", 4.0);
    let n = build_curve(&c);
    assert_eq!(n.name, "AnimationCurve");
    assert_eq!(n.properties, vec![FbxProperty::I64(9), s("\x00\x01AnimCurve"), s("")]);
    let keys = curve_keys(&n).unwrap();
    assert_eq!(keys.times, c.times);
    assert_eq!(keys.values, &FbxProperty::F32Array(c.values.clone()));
}

#[test]
fn stack_writes_elements_and_connections_in_order() {
    let (objects, connections) = build_animation_objects(&[one_stack()]);
    let names: Vec<(&str, i64)> = objects
        .iter()
        .map(|o| (o.name.as_str(), o.properties[0].as_i64().unwrap()))
        .collect();
    assert_eq!(
        names,
        vec![
            ("AnimationStack", 1),
            ("AnimationLayer", 2),
            ("AnimationCurveNode", 3),
            ("AnimationCurve", 4),
            ("AnimationCurve", 5),
            ("AnimationCurve", 6),
            ("AnimationCurveNode", 7),
            ("AnimationCurve", 8),
        ]
    );
    assert_eq!(objects[0].properties[1], s("Walk\x00\x01AnimationStack"));
    assert_eq!(objects[1].properties[1], s("BaseLayer\x00\x01AnimationLayer"));
    assert_eq!(objects[2].properties[1], s("Lcl Translation\x00\x01AnimationCurveNode"));
    let conns: Vec<Vec<FbxProperty>> = connections.iter().map(|c| c.properties.clone()).collect();
    assert_eq!(conns[0], vec![s("OO"), FbxProperty::I64(2), FbxProperty::I64(1)]);
    assert_eq!(conns[1], vec![s("OP"), FbxProperty::I64(3), FbxProperty::I64(100), s("Lcl Translation")]);
    assert_eq!(conns[2], vec![s("OO"), FbxProperty::I64(3), FbxProperty::I64(2)]);
    assert_eq!(conns[3], vec![s("OP"), FbxProperty::I64(4), FbxProperty::I64(3), s("d|X")]);
    assert_eq!(conns[6], vec![s("OP"), FbxProperty::I64(7), FbxProperty::I64(200), s("DeformPercent")]);
    assert_eq!(conns.len(), 9);
}

#[test]
fn written_animation_reads_back_through_the_graph() {
    let (objects, connections) = build_animation_objects(&[one_stack()]);
    let doc = FbxDocument {
        version: 7400,
        root: FbxNode {
            name: String::new(),
            properties: vec![],
            children: vec![
                FbxNode { name: "Objects".into(), properties: vec![], children: objects },
                FbxNode { name: "Connections".into(), properties: vec![], children: connections },
            ],
        },
    };
    let g = animation_graph(&doc);
    assert_eq!(g.stacks.len(), 1);
    assert_eq!((g.stacks[0].id, g.stacks[0].name.as_str()), (1, "Walk"));
    let got: Vec<(i64, &str, i64, &str, i64)> = g
        .bindings
        .iter()
        .map(|b| (b.curve, b.axis.as_str(), b.target, b.target_property.as_str(), b.stack))
        .collect();
    assert_eq!(
        got,
        vec![
            (4, "d|X", 100, "Lcl Translation", 1),
            (5, "d|Y", 100, "Lcl Translation", 1),
            (6, "d|Z", 100, "Lcl Translation", 1),
            (8, "d|DeformPercent", 200, "DeformPercent", 1),
        ]
    );
}

#[test]
fn no_stacks_write_nothing() {
    let (objects, connections) = build_animation_objects(&[]);
    assert!(objects.is_empty());
    assert!(connections.is_empty());
}
