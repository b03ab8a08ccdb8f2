use oxideav_fbx::documents::documents;
use oxideav_fbx::model::{FbxDocument, FbxNode, FbxProperty};

fn s(text: &str) -> FbxProperty {
    FbxProperty::String(text.as_bytes().to_vec())
}

fn leaf(name: &str, props: Vec<FbxProperty>) -> FbxNode {
    FbxNode { name: name.to_owned(), properties: props, children: Vec::new() }
}

fn p_record(name: &str, record_type: &str, values: Vec<FbxProperty>) -> FbxNode {
    let mut props = vec![s(name), s(record_type), s(""), s("")];
    props.extend(values);
    leaf("P", props)
}

fn fixture_documents() -> FbxNode {
    let props70 = FbxNode {
        name: "Properties70".to_owned(),
        properties: Vec::new(),
        children: vec![
            p_record("SourceObject", "object", Vec::new()),
            p_record("ActiveAnimStackName", "KString", vec![s("Take 001")]),
        ],
    };
    let document = FbxNode {
        name: "Document".to_owned(),
        properties: vec![FbxProperty::I64(2359325563280), s(""), s("Scene")],
        children: vec![props70, leaf("RootNode", vec![FbxProperty::I64(0)])],
    };
    FbxNode {
        name: "Documents".to_owned(),
        properties: Vec::new(),
        children: vec![leaf("Count", vec![FbxProperty::I32(1)]), document],
    }
}

fn doc_with(documents: FbxNode) -> FbxDocument {
    FbxDocument { version: 7500, root: FbxNode { name: String::new(), properties: Vec::new(), children: vec![documents] } }
}

#[test]
fn surfaces_fixture_document_catalogue() {
    let c = documents(&doc_with(fixture_documents()));
    assert_eq!(c.documents.len(), 1);
    assert_eq!(c.active_anim_stack.as_deref(), Some("Take 001"));
    let d = &c.documents[0];
    assert_eq!(d.name, "");
    assert_eq!(d.subtype, "Scene");
    assert_eq!(d.active_anim_stack.as_deref(), Some("Take 001"));
}

#[test]
fn active_stack_matches_takes_current_join_key() {
    let c = documents(&doc_with(fixture_documents()));
    assert_eq!(c.active_anim_stack.as_deref(), Some("Take 001"));
}

#[test]
fn no_documents_node_surfaces_nothing() {
    let doc = FbxDocument { version: 7500, root: FbxNode { name: String::new(), properties: Vec::new(), children: Vec::new() } };
    let c = documents(&doc);
    assert!(c.documents.is_empty());
    assert!(c.active_anim_stack.is_none());
}

#[test]
fn document_without_stack_name_omits_key() {
    let document = FbxNode {
        name: "Document".to_owned(),
        properties: vec![FbxProperty::I64(7), s(""), s("Scene")],
        children: vec![leaf("RootNode", vec![FbxProperty::I64(0)])],
    };
    let documents_node = FbxNode { name: "Documents".to_owned(), properties: Vec::new(), children: vec![document] };
    let c = documents(&doc_with(documents_node));
    assert_eq!(c.documents.len(), 1);
    assert!(c.active_anim_stack.is_none());
    assert!(c.documents[0].active_anim_stack.is_none());
}

#[test]
fn empty_active_stack_name_treated_as_absent() {
    let props70 = FbxNode {
        name: "Properties70".to_owned(),
        properties: Vec::new(),
        children: vec![p_record("ActiveAnimStackName", "KString", vec![s("")])],
    };
    let document = FbxNode {
        name: "Document".to_owned(),
        properties: vec![FbxProperty::I64(7), s(""), s("Scene")],
        children: vec![props70],
    };
    let documents_node = FbxNode { name: "Documents".to_owned(), properties: Vec::new(), children: vec![document] };
    let c = documents(&doc_with(documents_node));
    assert!(c.active_anim_stack.is_none());
}

#[test]
fn first_document_wins_active_stack() {
    let make_doc = |name: &str, stack: Option<&str>| {
        let mut children = Vec::new();
        if let Some(st) = stack {
            children.push(FbxNode {
                name: "Properties70".to_owned(),
                properties: Vec::new(),
                children: vec![p_record("ActiveAnimStackName", "KString", vec![s(st)])],
            });
        }
        FbxNode { name: "Document".to_owned(), properties: vec![FbxProperty::I64(1), s(name), s("Scene")], children }
    };
    let documents_node = FbxNode {
        name: "Documents".to_owned(),
        properties: Vec::new(),
        children: vec![make_doc("A", None), make_doc("B", Some("Walk")), make_doc("C", Some("Run"))],
    };
    let c = documents(&doc_with(documents_node));
    assert_eq!(c.documents.len(), 3);
    assert_eq!(c.active_anim_stack.as_deref(), Some("Walk"));
    assert_eq!(c.documents[0].name, "A");
    assert_eq!(c.documents[2].active_anim_stack.as_deref(), Some("Run"));
}

#[test]
fn binary_name_classtag_split() {
    let mut raw = b"MyDoc".to_vec();
    raw.push(0x00);
    raw.push(0x01);
    raw.extend_from_slice(b"Document");
    let document = FbxNode {
        name: "Document".to_owned(),
        properties: vec![FbxProperty::I64(9), FbxProperty::String(raw), s("Scene")],
        children: Vec::new(),
    };
    let documents_node = FbxNode { name: "Documents".to_owned(), properties: Vec::new(), children: vec![document] };
    let c = documents(&doc_with(documents_node));
    assert_eq!(c.documents[0].name, "MyDoc");
}

#[test]
fn stack_name_of_another_type_is_ignored() {
    let props70 = FbxNode {
        name: "Properties70".to_owned(),
        properties: Vec::new(),
        children: vec![p_record("ActiveAnimStackName", "object", vec![s("Take 001")])],
    };
    let document = FbxNode {
        name: "Document".to_owned(),
        properties: vec![FbxProperty::I64(7), s(""), s("Scene")],
        children: vec![props70],
    };
    let documents_node = FbxNode { name: "Documents".to_owned(), properties: Vec::new(), children: vec![document] };
    let c = documents(&doc_with(documents_node));
    assert!(c.active_anim_stack.is_none());
}
