use oxideav_fbx::model::{FbxDocument, FbxNode, FbxProperty};
use oxideav_fbx::opaque::{build_opaque_objects, is_typed_class, opaque_objects, OpaqueEmit, OpaqueLinkEmit};

fn s(b: &str) -> FbxProperty {
    FbxProperty::String(b.as_bytes().to_vec())
}

fn node(name: &str, properties: Vec<FbxProperty>, children: Vec<FbxNode>) -> FbxNode {
    FbxNode { name: name.into(), properties, children }
}

fn conn(kind: &str, child: i64, parent: i64, prop: Option<&str>) -> FbxNode {
    let mut ps = vec![s(kind), FbxProperty::I64(child), FbxProperty::I64(parent)];
    if let Some(p) = prop {
        ps.push(s(p));
    }
    node("C", ps, vec![])
}

fn doc(objects: Vec<FbxNode>, conns: Vec<FbxNode>) -> FbxDocument {
    FbxDocument {
        version: 7400,
        root: node("", vec![], vec![node("Objects", vec![], objects), node("Connections", vec![], conns)]),
    }
}

#[test]
fn typed_classes_are_not_opaque() {
    assert!(is_typed_class("Model"));
    assert!(is_typed_class("AnimationCurveNode"));
    assert!(is_typed_class("Constraint"));
    assert!(!is_typed_class("CollectionExclusive"));
    assert!(!is_typed_class("model"));
}

#[test]
fn untyped_elements_surface_with_names_and_links() {
    let d = doc(
        vec![
            node("Model", vec![FbxProperty::I64(10), s("Cube\x00\x01Model"), s("Mesh")], vec![]),
            node(
                "CollectionExclusive",
                vec![FbxProperty::I64(20), s("Layer1\x00\x01DisplayLayer"), s("DisplayLayer")],
                vec![node("Properties70", vec![], vec![node("P", vec![s("Show"), s("bool"), s(""), s(""), FbxProperty::I32(1)], vec![])])],
            ),
            node("Thing", vec![FbxProperty::I64(30), s("Thing::Widget"), s("")], vec![]),
        ],
        vec![
            conn("OO", 10, 20, None),
            conn("OO", 20, 0, None),
            conn("OP", 30, 10, Some("Lcl Translation")),
            conn("OO", 10, 0, None),
        ],
    );
    let objs = opaque_objects(&d);
    assert_eq!(objs.len(), 2);
    let a = &objs[0];
    assert_eq!((a.id, a.node.name.as_str(), a.name.as_str(), a.subtype.as_str()), (20, "CollectionExclusive", "Layer1", "DisplayLayer"));
    let links: Vec<(&str, bool, i64, &str)> = a.links.iter().map(|l| (l.kind.as_str(), l.as_parent, l.peer, l.peer_name.as_str())).collect();
    assert_eq!(links, vec![("OO", true, 10, "Cube"), ("OO", false, 0, "")]);
    let b = &objs[1];
    assert_eq!((b.id, b.name.as_str(), b.subtype.as_str()), (30, "Widget", ""));
    assert_eq!(b.links.len(), 1);
    assert_eq!(b.links[0].property.as_deref(), Some("Lcl Translation"));
    assert!(!b.links[0].as_parent);
}

#[test]
fn a_repeated_id_takes_its_links_once() {
    let d = doc(
        vec![
            node("Thing", vec![FbxProperty::I64(5), s("First\x00\x01Thing"), s("")], vec![]),
            node("Thing", vec![FbxProperty::I64(5), s("Second\x00\x01Thing"), s("")], vec![]),
        ],
        vec![conn("OO", 5, 0, None)],
    );
    let objs = opaque_objects(&d);
    assert_eq!(objs.len(), 2);
    // Both carry the name of the last element with the id.
    assert_eq!(objs[0].name, "Second");
    assert_eq!(objs[1].name, "Second");
    assert_eq!(objs[0].links.len(), 1);
    assert!(objs[1].links.is_empty());
}

#[test]
fn written_untyped_element_and_its_connections() {
    let body = node("Version", vec![FbxProperty::I32(100)], vec![]);
    let e = OpaqueEmit {
        id: 77,
        class: "CollectionExclusive".into(),
        name: "Layer1".into(),
        subtype: "DisplayLayer".into(),
        records: vec![],
        body: vec![body],
        links: vec![
            OpaqueLinkEmit { kind: "OO".into(), as_parent: true, peer: Some(10), property: None },
            OpaqueLinkEmit { kind: "OO".into(), as_parent: false, peer: Some(0), property: None },
            OpaqueLinkEmit { kind: "OP".into(), as_parent: false, peer: Some(11), property: Some("Visibility".into()) },
            OpaqueLinkEmit { kind: "OO".into(), as_parent: false, peer: None, property: None },
        ],
    };
    let (objects, connections) = build_opaque_objects(&[e]);
    assert_eq!(objects.len(), 1);
    let o = &objects[0];
    assert_eq!(o.name, "CollectionExclusive");
    assert_eq!(o.properties, vec![FbxProperty::I64(77), s("Layer1\x00\x01CollectionExclusive"), s("DisplayLayer")]);
    assert_eq!(o.children.len(), 1);
    assert_eq!(o.children[0].name, "Version");
    let cs: Vec<Vec<FbxProperty>> = connections.iter().map(|c| c.properties.clone()).collect();
    assert_eq!(
        cs,
        vec![
            vec![s("OO"), FbxProperty::I64(10), FbxProperty::I64(77)],
            vec![s("OO"), FbxProperty::I64(77), FbxProperty::I64(0)],
            vec![s("OP"), FbxProperty::I64(77), FbxProperty::I64(11), s("Visibility")],
        ]
    );
}

#[test]
fn written_untyped_element_reads_back() {
    let e = OpaqueEmit {
        id: 42,
        class: "Thing".into(),
        name: "Gadget".into(),
        subtype: "Sub".into(),
        records: vec![],
        body: vec![],
        links: vec![OpaqueLinkEmit { kind: "OO".into(), as_parent: false, peer: Some(0), property: None }],
    };
    let (objects, connections) = build_opaque_objects(&[e]);
    let d = doc(objects, connections);
    let objs = opaque_objects(&d);
    assert_eq!(objs.len(), 1);
    assert_eq!((objs[0].id, objs[0].name.as_str(), objs[0].subtype.as_str()), (42, "Gadget", "Sub"));
    assert_eq!(objs[0].links.len(), 1);
    assert_eq!((objs[0].links[0].peer, objs[0].links[0].as_parent), (0, false));
}
