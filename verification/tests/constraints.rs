use oxideav_fbx::constraint::{constraint_catalogue, read_own_records, read_p_record, TaggedValue};
use oxideav_fbx::constraint_writer::{
    build_constraint_objects, constraint_node, constraint_template_nodes, p_record_node, ConstraintRecord, SlotTarget,
};
use oxideav_fbx::model::{FbxDocument, FbxNode, FbxProperty, FbxReal};

fn s(b: &str) -> FbxProperty {
    FbxProperty::String(b.as_bytes().to_vec())
}

fn node(name: &str, properties: Vec<FbxProperty>, children: Vec<FbxNode>) -> FbxNode {
    FbxNode { name: name.into(), properties, children }
}

fn doc(children: Vec<FbxNode>) -> FbxDocument {
    FbxDocument { version: 7500, root: node("", vec![], children) }
}

fn ik_constraint() -> FbxNode {
    node(
        "Constraint",
        vec![FbxProperty::I64(500), s("Chain\x00\x01Constraint"), s("Single Chain IK")],
        vec![
            node("Type", vec![s("Single Chain IK")], vec![]),
            node("MultiLayer", vec![FbxProperty::I32(0)], vec![]),
            node(
                "Properties70",
                vec![],
                vec![
                    node("P", vec![s("Weight"), s("Weight"), s(""), s("A"), FbxProperty::F64(FbxReal::Bits(100f64.to_bits()))], vec![]),
                    node("P", vec![s("First Joint"), s("object"), s(""), s("")], vec![]),
                ],
            ),
        ],
    )
}

#[test]
fn p_record_reads_width_normalised_values() {
    let p = node(
        "P",
        vec![
            s("Mixed"),
            s("enum"),
            s("label"),
            s("AU"),
            FbxProperty::I16(-3),
            FbxProperty::Bool(true),
            FbxProperty::I32(7),
            FbxProperty::I64(1 << 40),
            FbxProperty::String(b"text".to_vec()),
        ],
        vec![],
    );
    let r = read_p_record(&p).unwrap();
    assert_eq!((r.name.as_str(), r.record_type.as_str(), r.label.as_str(), r.flags.as_str()), ("Mixed", "enum", "label", "AU"));
    assert_eq!(r.values.len(), 5);
    assert!(matches!(r.values[0], TaggedValue::Int(-3)));
    assert!(matches!(r.values[1], TaggedValue::Bool(true)));
    assert!(matches!(r.values[2], TaggedValue::Int(7)));
    assert!(matches!(r.values[3], TaggedValue::Int(n) if n == 1 << 40));
    assert!(matches!(&r.values[4], TaggedValue::Text(t) if t == "text"));
}

#[test]
fn p_record_rewrites_integers_by_width() {
    let p = node(
        "P",
        vec![
            s("Mixed"),
            s("enum"),
            s("label"),
            s("AU"),
            FbxProperty::I16(-3),
            FbxProperty::Bool(true),
            FbxProperty::I32(7),
            FbxProperty::I64(1 << 40),
            FbxProperty::I64(5),
            FbxProperty::F64(FbxReal::Bits((-0.125f64).to_bits())),
            s("text"),
        ],
        vec![],
    );
    let back = p_record_node(&read_p_record(&p).unwrap());
    assert_eq!(back.name, "P");
    assert_eq!(
        back.properties[4..],
        [
            FbxProperty::I32(-3),
            FbxProperty::Bool(true),
            FbxProperty::I32(7),
            FbxProperty::I64(1 << 40),
            FbxProperty::I32(5),
            FbxProperty::F64(FbxReal::Bits((-0.125f64).to_bits())),
            s("text"),
        ]
    );
    // The rewritten form is a fixed point.
    let twice = p_record_node(&read_p_record(&back).unwrap());
    assert_eq!(twice.properties, back.properties);
}

#[test]
fn vector_record_round_trips_verbatim() {
    let p = node(
        "P",
        vec![
            s("PoleVector"),
            s("Vector"),
            s(""),
            s("A"),
            FbxProperty::F64(FbxReal::Bits(0f64.to_bits())),
            FbxProperty::F64(FbxReal::Bits(1f64.to_bits())),
            FbxProperty::F64(FbxReal::Bits(0.5f64.to_bits())),
        ],
        vec![],
    );
    let back = p_record_node(&read_p_record(&p).unwrap());
    assert_eq!(back.properties, p.properties);
}

#[test]
fn value_less_slot_record_round_trips() {
    let p = node("P", vec![s("First Joint"), s("object"), s(""), s("")], vec![]);
    let r = read_p_record(&p).unwrap();
    assert_eq!(r.name, "First Joint");
    assert!(r.values.is_empty());
    assert_eq!(p_record_node(&r).properties, p.properties);
}

#[test]
fn p_record_needs_four_leading_strings() {
    assert!(read_p_record(&node("P", vec![s("a"), s("b"), s("c")], vec![])).is_none());
    assert!(read_p_record(&node("P", vec![s("a"), s("b"), FbxProperty::I32(1), s("d")], vec![])).is_none());
}

#[test]
fn p_record_skips_array_values_and_decodes_lossily() {
    let p = node(
        "P",
        vec![
            FbxProperty::String(vec![b'a', 0xff]),
            s("t"),
            s(""),
            s(""),
            FbxProperty::I32Array(vec![1, 2]),
            FbxProperty::I32(9),
        ],
        vec![],
    );
    let r = read_p_record(&p).unwrap();
    assert_eq!(r.name, "a\u{fffd}");
    assert_eq!(r.values.len(), 1);
    assert!(matches!(r.values[0], TaggedValue::Int(9)));
}

#[test]
fn own_records_read_only_p_children_of_properties70() {
    let c = ik_constraint();
    let records = read_own_records(&c);
    assert_eq!(records.len(), 2);
    assert_eq!(records[0].name, "Weight");
    assert_eq!(records[1].record_type, "object");
    assert!(read_own_records(&node("Constraint", vec![], vec![])).is_empty());
}

#[test]
fn catalogue_resolves_constraints_targets_and_templates() {
    let d = doc(vec![
        node(
            "Definitions",
            vec![],
            vec![node(
                "ObjectType",
                vec![s("Constraint")],
                vec![node(
                    "PropertyTemplate",
                    vec![s("FbxConstraintSingleChainIK")],
                    vec![node("Properties70", vec![], vec![node("P", vec![s("Weight"), s("Weight"), s(""), s("A"), FbxProperty::I32(100)], vec![])])],
                )],
            )],
        ),
        node(
            "Objects",
            vec![],
            vec![
                node("Model", vec![FbxProperty::I64(10), s("Hip\x00\x01Model"), s("LimbNode")], vec![]),
                node("Model", vec![FbxProperty::I64(11), s("Foot\x00\x01Model"), s("LimbNode")], vec![]),
                ik_constraint(),
            ],
        ),
        node(
            "Connections",
            vec![],
            vec![
                node("C", vec![s("OO"), FbxProperty::I64(11), FbxProperty::I64(10)], vec![]),
                node("C", vec![s("OP"), FbxProperty::I64(10), FbxProperty::I64(500), s("First Joint")], vec![]),
                node("C", vec![s("OP"), FbxProperty::I64(11), FbxProperty::I64(500), s("Effector")], vec![]),
                node("C", vec![s("OP"), FbxProperty::I64(99), FbxProperty::I64(500), s("Pole Vector Object")], vec![]),
                node("C", vec![s("OP"), FbxProperty::I64(11), FbxProperty::I64(77), s("Other")], vec![]),
            ],
        ),
    ]);
    let cat = constraint_catalogue(&d);
    assert_eq!(cat.constraints.len(), 1);
    let c = &cat.constraints[0];
    assert_eq!(c.id, 500);
    assert_eq!(c.name, "Chain");
    assert_eq!(c.kind, "Single Chain IK");
    assert_eq!(c.kind_leaf.as_deref(), Some("Single Chain IK"));
    assert_eq!(c.multi_layer, Some(0));
    assert_eq!(c.properties.len(), 2);
    let targets: Vec<(&str, i64, Option<&str>)> =
        c.targets.iter().map(|t| (t.slot.as_str(), t.source, t.source_name.as_deref())).collect();
    assert_eq!(
        targets,
        vec![("First Joint", 10, Some("Hip")), ("Effector", 11, Some("Foot")), ("Pole Vector Object", 99, None)]
    );
    assert_eq!(cat.templates.len(), 1);
    assert_eq!(cat.templates[0].name, "FbxConstraintSingleChainIK");
    assert_eq!(cat.templates[0].properties.len(), 1);
}

#[test]
fn catalogue_of_document_without_constraints_is_empty() {
    let d = doc(vec![node("Objects", vec![], vec![node("Model", vec![FbxProperty::I64(1), s("M\x00\x01Model"), s("Mesh")], vec![])])]);
    let cat = constraint_catalogue(&d);
    assert!(cat.constraints.is_empty());
    assert!(cat.templates.is_empty());
}

#[test]
fn written_constraint_reads_back() {
    let authored = read_own_records(&ik_constraint());
    let rec = ConstraintRecord {
        name: "Chain".into(),
        kind: "Single Chain IK".into(),
        kind_leaf: Some("Single Chain IK".into()),
        multi_layer: Some(0),
        properties: authored,
        targets: vec![
            SlotTarget { slot: "First Joint".into(), node: Some(0) },
            SlotTarget { slot: "Effector".into(), node: Some(1) },
            SlotTarget { slot: "Pole Vector Object".into(), node: None },
            SlotTarget { slot: "Unmapped".into(), node: Some(7) },
        ],
    };
    let (objects, connections) = build_constraint_objects(&[rec], &[Some(10), Some(11)], &[900]);
    assert_eq!(objects.len(), 1);
    let o = &objects[0];
    assert_eq!(o.name, "Constraint");
    assert_eq!(o.properties, vec![FbxProperty::I64(900), s("Chain\x00\x01Constraint"), s("Single Chain IK")]);
    let names: Vec<&str> = o.children.iter().map(|c| c.name.as_str()).collect();
    assert_eq!(names, vec!["Type", "MultiLayer", "Properties70"]);
    assert_eq!(o.children[1].properties, vec![FbxProperty::I32(0)]);
    // Unresolved targets write no connection.
    assert_eq!(connections.len(), 2);
    assert_eq!(connections[0].properties, vec![s("OP"), FbxProperty::I64(10), FbxProperty::I64(900), s("First Joint")]);
    assert_eq!(connections[1].properties, vec![s("OP"), FbxProperty::I64(11), FbxProperty::I64(900), s("Effector")]);

    let d = doc(vec![
        node(
            "Objects",
            vec![],
            vec![
                node("Model", vec![FbxProperty::I64(10), s("Hip\x00\x01Model"), s("LimbNode")], vec![]),
                node("Model", vec![FbxProperty::I64(11), s("Foot\x00\x01Model"), s("LimbNode")], vec![]),
                objects.into_iter().next().unwrap(),
            ],
        ),
        node("Connections", vec![], connections),
    ]);
    let cat = constraint_catalogue(&d);
    let c = &cat.constraints[0];
    assert_eq!((c.id, c.name.as_str(), c.kind.as_str()), (900, "Chain", "Single Chain IK"));
    assert_eq!(c.kind_leaf.as_deref(), Some("Single Chain IK"));
    assert_eq!(c.multi_layer, Some(0));
    assert_eq!(c.properties.len(), 2);
    assert_eq!(c.properties[0].name, "Weight");
    assert_eq!(c.targets.len(), 2);
    assert_eq!((c.targets[1].slot.as_str(), c.targets[1].source_name.as_deref()), ("Effector", Some("Foot")));
}

#[test]
fn constraint_without_records_or_leaves_has_no_children() {
    let rec = ConstraintRecord {
        name: "Aim1".into(),
        kind: "Aim".into(),
        kind_leaf: None,
        multi_layer: None,
        properties: vec![],
        targets: vec![],
    };
    let n = constraint_node(&rec, 42);
    assert!(n.children.is_empty());
    assert_eq!(n.properties[1], s("Aim1\x00\x01Constraint"));
}

#[test]
fn multi_layer_flag_writes_truncated_to_i32() {
    let rec = ConstraintRecord {
        name: "P".into(),
        kind: "Parent".into(),
        kind_leaf: None,
        multi_layer: Some((1i64 << 32) + 1),
        properties: vec![],
        targets: vec![],
    };
    let n = constraint_node(&rec, 1);
    assert_eq!(n.children[0].name, "MultiLayer");
    assert_eq!(n.children[0].properties, vec![FbxProperty::I32(1)]);
}

#[test]
fn template_nodes_hold_name_and_records() {
    let cat = constraint_catalogue(&doc(vec![node(
        "Definitions",
        vec![],
        vec![
            node("ObjectType", vec![s("Model")], vec![node("PropertyTemplate", vec![s("FbxNode")], vec![])]),
            node(
                "ObjectType",
                vec![s("Constraint")],
                vec![
                    node(
                        "PropertyTemplate",
                        vec![s("FbxConstraintAim")],
                        vec![node("Properties70", vec![], vec![node("P", vec![s("Active"), s("bool"), s(""), s(""), FbxProperty::I32(1)], vec![])])],
                    ),
                    node("PropertyTemplate", vec![s("FbxConstraintParent")], vec![]),
                ],
            ),
        ],
    )]));
    assert_eq!(cat.templates.len(), 2);
    let nodes = constraint_template_nodes(&cat.templates);
    assert_eq!(nodes.len(), 2);
    assert_eq!(nodes[0].name, "PropertyTemplate");
    assert_eq!(nodes[0].properties, vec![s("FbxConstraintAim")]);
    assert_eq!(nodes[0].children[0].name, "Properties70");
    assert_eq!(nodes[0].children[0].children[0].properties, vec![s("Active"), s("bool"), s(""), s(""), FbxProperty::I32(1)]);
    // A template without records still writes an (empty) block.
    assert_eq!(nodes[1].children.len(), 1);
    assert!(nodes[1].children[0].children.is_empty());
}
