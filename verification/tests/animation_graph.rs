use oxideav_fbx::anim_groups::{stack_channel_groups, MorphCurve, TransformGroup};
use oxideav_fbx::animation::{animation_graph, curve_keys, curve_role, property_for, AnimatedProperty, CurveRole};
use oxideav_fbx::model::{FbxDocument, FbxNode, FbxProperty, FbxReal};

fn s(b: &str) -> FbxProperty {
    FbxProperty::String(b.as_bytes().to_vec())
}

fn node(name: &str, properties: Vec<FbxProperty>, children: Vec<FbxNode>) -> FbxNode {
    FbxNode { name: name.into(), properties, children }
}

fn element(class: &str, id: i64, name: &str) -> FbxNode {
    node(class, vec![FbxProperty::I64(id), s(&format!("{name}\x00\x01{class}")), s("")], vec![])
}

fn curve(id: i64, times: Vec<i64>, values: Vec<f32>) -> FbxNode {
    node(
        "AnimationCurve",
        vec![FbxProperty::I64(id), s("\x00\x01AnimCurve"), s("")],
        vec![
            node("KeyTime", vec![FbxProperty::I64Array(times)], vec![]),
            node("KeyValueFloat", vec![FbxProperty::F32Array(values.iter().map(|v| v.to_bits()).collect())], vec![]),
        ],
    )
}

fn oo(child: i64, parent: i64) -> FbxNode {
    node("C", vec![s("OO"), FbxProperty::I64(child), FbxProperty::I64(parent)], vec![])
}

fn op(child: i64, parent: i64, prop: &str) -> FbxNode {
    node("C", vec![s("OP"), FbxProperty::I64(child), FbxProperty::I64(parent), s(prop)], vec![])
}

fn doc(objects: Vec<FbxNode>, conns: Vec<FbxNode>) -> FbxDocument {
    FbxDocument {
        version: 7400,
        root: node("", vec![], vec![node("Objects", vec![], objects), node("Connections", vec![], conns)]),
    }
}

#[test]
fn property_mapping() {
    assert_eq!(property_for("Lcl Translation"), Some(AnimatedProperty::Translation));
    assert_eq!(property_for("Lcl Rotation"), Some(AnimatedProperty::Rotation));
    assert_eq!(property_for("Lcl Scaling"), Some(AnimatedProperty::Scale));
    assert_eq!(property_for("Visibility"), None);
}

#[test]
fn curve_roles() {
    assert_eq!(curve_role("Lcl Rotation", "d|Y"), CurveRole::Component(AnimatedProperty::Rotation, Some(1)));
    assert_eq!(curve_role("Lcl Scaling", "d|W"), CurveRole::Component(AnimatedProperty::Scale, None));
    assert_eq!(curve_role("DeformPercent", "d|DeformPercent"), CurveRole::MorphWeight);
    assert_eq!(curve_role("DeformPercent", "d|X"), CurveRole::Unused);
    assert_eq!(curve_role("Visibility", "d|Visibility"), CurveRole::Unused);
}

#[test]
fn curve_keys_need_matching_arrays() {
    let c = curve(1, vec![0, 46_186_158_000], vec![1.0, 2.0]);
    let k = curve_keys(&c).unwrap();
    assert_eq!(k.times, vec![0, 46_186_158_000]);
    assert_eq!(k.values, &FbxProperty::F32Array(vec![1.0f32.to_bits(), 2.0f32.to_bits()]));
    // Mismatched lengths, a missing child, or a non-array payload give no keys.
    assert!(curve_keys(&curve(2, vec![0], vec![1.0, 2.0])).is_none());
    assert!(curve_keys(&node("AnimationCurve", vec![FbxProperty::I64(3)], vec![])).is_none());
    let i32_times = node(
        "AnimationCurve",
        vec![FbxProperty::I64(4)],
        vec![
            node("KeyTime", vec![FbxProperty::I32Array(vec![5, -7])], vec![]),
            node("KeyValueFloat", vec![FbxProperty::F64Array(vec![FbxReal::Bits(0), FbxReal::Bits(0)])], vec![]),
        ],
    );
    assert_eq!(curve_keys(&i32_times).unwrap().times, vec![5, -7]);
    let scalar_times = node(
        "AnimationCurve",
        vec![FbxProperty::I64(5)],
        vec![node("KeyTime", vec![FbxProperty::I64(0)], vec![]), node("KeyValueFloat", vec![FbxProperty::F32Array(vec![0])], vec![])],
    );
    assert!(curve_keys(&scalar_times).is_none());
}

#[test]
fn graph_binds_curves_through_layers_to_stacks() {
    let d = doc(
        vec![
            element("AnimationStack", 1, "Take 001"),
            element("AnimationLayer", 2, "BaseLayer"),
            element("AnimationCurveNode", 3, "T"),
            curve(12, vec![0, 10], vec![0.0, 1.0]),
            curve(11, vec![0], vec![5.0]),
            curve(13, vec![0], vec![7.0]),
            // A curve without keys is not an element of the graph.
            node("AnimationCurve", vec![FbxProperty::I64(14), s("\x00\x01AnimCurve"), s("")], vec![]),
            element("Model", 100, "Cube"),
        ],
        vec![
            op(11, 3, "d|X"),
            op(12, 3, "d|Y"),
            op(14, 3, "d|Z"),
            op(3, 100, "Lcl Translation"),
            oo(3, 2),
            oo(2, 1),
            // Curve 13 hangs off nothing.
            op(13, 999, "d|Z"),
        ],
    );
    let g = animation_graph(&d);
    assert_eq!(g.stacks.len(), 1);
    assert_eq!((g.stacks[0].id, g.stacks[0].name.as_str()), (1, "Take 001"));
    let got: Vec<(i64, &str, i64, &str, i64, i64)> = g
        .bindings
        .iter()
        .map(|b| (b.curve, b.axis.as_str(), b.target, b.target_property.as_str(), b.layer, b.stack))
        .collect();
    assert_eq!(
        got,
        vec![(11, "d|X", 100, "Lcl Translation", 2, 1), (12, "d|Y", 100, "Lcl Translation", 2, 1)]
    );
    assert_eq!(g.bindings[1].keys.times, vec![0, 10]);
}

#[test]
fn graph_without_stack_binds_nothing() {
    let d = doc(
        vec![element("AnimationLayer", 2, "L"), element("AnimationCurveNode", 3, "T"), curve(11, vec![0], vec![1.0])],
        vec![op(11, 3, "d|X"), op(3, 100, "Lcl Rotation"), oo(3, 2)],
    );
    let g = animation_graph(&d);
    assert!(g.stacks.is_empty());
    assert!(g.bindings.is_empty());
}

#[test]
fn graph_lists_stacks_by_id_and_later_links_win() {
    let d = doc(
        vec![
            element("AnimationStack", 9, "Second"),
            element("AnimationStack", 4, "First"),
            element("AnimationLayer", 2, "L"),
            element("AnimationCurveNode", 3, "R"),
            curve(11, vec![0], vec![1.0]),
        ],
        vec![op(11, 3, "d|X"), op(11, 3, "d|Z"), op(3, 100, "Lcl Rotation"), oo(3, 2), oo(2, 4), oo(2, 9)],
    );
    let g = animation_graph(&d);
    let ids: Vec<i64> = g.stacks.iter().map(|s| s.id).collect();
    assert_eq!(ids, vec![4, 9]);
    assert_eq!(g.bindings.len(), 1);
    assert_eq!((g.bindings[0].axis.as_str(), g.bindings[0].stack), ("d|Z", 9));
}

#[test]
fn stack_channels_group_components_per_element_and_property() {
    // Stack 1, layer 2; curve nodes 10 (T of model 100), 11 (R of model
    // 100), 12 (T of model 999, not a scene model), 13 (DeformPercent of
    // channel 300).
    let objects = vec![
        element("AnimationStack", 1, "Take"),
        element("AnimationLayer", 2, "BaseLayer"),
        element("AnimationCurveNode", 10, "T"),
        element("AnimationCurveNode", 11, "R"),
        element("AnimationCurveNode", 12, "T"),
        element("AnimationCurveNode", 13, "DeformPercent"),
        curve(20, vec![0], vec![1.0]),
        curve(21, vec![0], vec![2.0]),
        curve(22, vec![0], vec![3.0]),
        curve(23, vec![0], vec![4.0]),
        curve(24, vec![0], vec![5.0]),
    ];
    let conns = vec![
        oo(2, 1),
        oo(10, 2),
        oo(11, 2),
        oo(12, 2),
        oo(13, 2),
        op(10, 100, "Lcl Translation"),
        op(11, 100, "Lcl Rotation"),
        op(12, 999, "Lcl Translation"),
        op(13, 300, "DeformPercent"),
        op(20, 10, "d|X"),
        op(21, 10, "d|Z"),
        op(22, 11, "d|Y"),
        op(23, 12, "d|X"),
        op(24, 13, "d|DeformPercent"),
    ];
    let d = doc(objects, conns);
    let g = animation_graph(&d);
    let ch = stack_channel_groups(&g.bindings, 1, &[100], &[300]);
    let idx = |curve: i64| g.bindings.iter().position(|b| b.curve == curve);
    assert_eq!(
        ch.transforms,
        vec![
            TransformGroup { target: 100, property: AnimatedProperty::Translation, x: idx(20), y: None, z: idx(21) },
            TransformGroup { target: 100, property: AnimatedProperty::Rotation, x: None, y: idx(22), z: None },
        ]
    );
    assert_eq!(ch.morphs, vec![MorphCurve { target: 300, binding: idx(24).unwrap() }]);
    let other = stack_channel_groups(&g.bindings, 7, &[100], &[300]);
    assert!(other.transforms.is_empty() && other.morphs.is_empty());
}
