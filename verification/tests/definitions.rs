use oxideav_fbx::definitions::Definitions;
use oxideav_fbx::model::{FbxDocument, FbxNode, FbxProperty, FbxReal};

fn s(b: &str) -> FbxProperty {
    FbxProperty::String(b.as_bytes().to_vec())
}

fn f(v: &str) -> FbxProperty {
    FbxProperty::F64(FbxReal::Text(v.as_bytes().to_vec()))
}

fn leaf_i32(name: &str, v: i32) -> FbxNode {
    FbxNode { name: name.into(), properties: vec![FbxProperty::I32(v)], children: Vec::new() }
}

fn p_record(name: &str, ty: &str, label: &str, flags: &str, vals: Vec<FbxProperty>) -> FbxNode {
    let mut props = vec![s(name), s(ty), s(label), s(flags)];
    props.extend(vals);
    FbxNode { name: "P".into(), properties: props, children: Vec::new() }
}

fn property_template(name: &str, records: Vec<FbxNode>) -> FbxNode {
    FbxNode {
        name: "PropertyTemplate".into(),
        properties: vec![s(name)],
        children: vec![FbxNode {
            name: "Properties70".into(),
            properties: Vec::new(),
            children: records,
        }],
    }
}

fn object_type(class: &str, count: i32, template: Option<FbxNode>) -> FbxNode {
    let mut children = vec![leaf_i32("Count", count)];
    children.extend(template);
    FbxNode { name: "ObjectType".into(), properties: vec![s(class)], children }
}

fn empty_root() -> FbxNode {
    FbxNode { name: String::new(), properties: Vec::new(), children: Vec::new() }
}

fn root_with_definitions(children: Vec<FbxNode>) -> FbxNode {
    FbxNode {
        name: String::new(),
        properties: Vec::new(),
        children: vec![FbxNode { name: "Definitions".into(), properties: Vec::new(), children }],
    }
}

fn sample_root() -> FbxNode {
    root_with_definitions(vec![
        leaf_i32("Version", 100),
        leaf_i32("Count", 13),
        object_type("GlobalSettings", 1, None),
        object_type(
            "Material",
            2,
            Some(property_template(
                "FbxSurfaceLambert",
                vec![
                    p_record("ShadingModel", "KString", "", "", vec![s("Lambert")]),
                    p_record("DiffuseColor", "Color", "", "A", vec![f("0.8"), f("0.8"), f("0.8")]),
                    p_record("DiffuseFactor", "Number", "", "A", vec![f("1.0")]),
                ],
            )),
        ),
    ])
}

/// The `P` records of a template's `Properties70` block.
fn records(tpl: &FbxNode) -> Vec<&FbxNode> {
    tpl.child("Properties70").map(|p| p.children_named("P")).unwrap_or_default()
}

fn record<'a>(tpl: &'a FbxNode, name: &str) -> Option<&'a FbxNode> {
    records(tpl).into_iter().find(|p| p.properties[0].as_str() == Some(name))
}

fn double(p: &FbxProperty) -> f64 {
    match p {
        FbxProperty::F64(FbxReal::Text(t)) => std::str::from_utf8(t).unwrap().parse().unwrap(),
        FbxProperty::F64(FbxReal::Bits(b)) => f64::from_bits(*b),
        other => panic!("not a double: {other:?}"),
    }
}

#[test]
fn decodes_version_and_total_count() {
    let defs = Definitions::from_root(&sample_root());
    assert_eq!(defs.version, Some(100));
    assert_eq!(defs.total_count, Some(13));
    assert_eq!(defs.len(), 2);
    assert!(!defs.is_empty());
}

#[test]
fn class_with_template_decodes_name_and_records() {
    let defs = Definitions::from_root(&sample_root());
    let mat = defs.get("Material").expect("Material class decoded");
    assert_eq!(mat.object_type, "Material");
    assert_eq!(mat.count, Some(2));
    assert_eq!(mat.template_name.as_deref(), Some("FbxSurfaceLambert"));
    let tpl = defs.template_for("Material").expect("Material template");
    assert_eq!(records(tpl).len(), 3);
    let color = record(tpl, "DiffuseColor").unwrap();
    let rgb: Vec<f64> = color.properties[4..].iter().map(double).collect();
    assert_eq!(rgb, vec![0.8, 0.8, 0.8]);
    assert_eq!(double(&record(tpl, "DiffuseFactor").unwrap().properties[4]), 1.0);
    assert_eq!(
        record(tpl, "ShadingModel").unwrap().properties[4].as_str(),
        Some("Lambert")
    );
}

#[test]
fn class_without_template_has_count_only() {
    let defs = Definitions::from_root(&sample_root());
    let gs = defs.get("GlobalSettings").expect("GlobalSettings class");
    assert_eq!(gs.count, Some(1));
    assert_eq!(gs.template_name, None);
    assert!(gs.template.is_none());
    assert!(defs.template_for("GlobalSettings").is_none());
}

#[test]
fn missing_definitions_section_is_empty() {
    let root = empty_root();
    let defs = Definitions::from_root(&root);
    assert!(defs.is_empty());
    assert_eq!(defs.version, None);
    assert_eq!(defs.total_count, None);
    assert!(defs.get("Material").is_none());
    assert!(defs.template_for("Material").is_none());
}

#[test]
fn unknown_class_lookup_returns_none() {
    let defs = Definitions::from_root(&sample_root());
    assert!(defs.get("Texture").is_none());
    assert!(defs.template_for("Texture").is_none());
}

#[test]
fn object_type_without_class_name_is_skipped() {
    let root = root_with_definitions(vec![FbxNode {
        name: "ObjectType".into(),
        properties: Vec::new(),
        children: vec![leaf_i32("Count", 1)],
    }]);
    let defs = Definitions::from_root(&root);
    assert!(defs.is_empty());
}

#[test]
fn repeated_class_name_is_last_wins() {
    let root = root_with_definitions(vec![
        object_type("Material", 1, None),
        object_type("Material", 2, Some(property_template("FbxSurfaceLambert", Vec::new()))),
    ]);
    let defs = Definitions::from_root(&root);
    assert_eq!(defs.len(), 1);
    let mat = defs.get("Material").unwrap();
    assert_eq!(mat.count, Some(2));
    assert_eq!(mat.template_name.as_deref(), Some("FbxSurfaceLambert"));
}

#[test]
fn object_types_iteration_is_sorted() {
    let defs = Definitions::from_root(&sample_root());
    assert_eq!(defs.object_types(), vec!["GlobalSettings", "Material"]);
}

#[test]
fn empty_template_block_is_some_empty_map() {
    let root = root_with_definitions(vec![object_type(
        "Texture",
        1,
        Some(property_template("FbxFileTexture", Vec::new())),
    )]);
    let defs = Definitions::from_root(&root);
    let tex = defs.get("Texture").unwrap();
    assert_eq!(tex.template_name.as_deref(), Some("FbxFileTexture"));
    let tpl = tex.template.as_ref().expect("template map exists");
    assert!(records(tpl).is_empty());
}

#[test]
fn from_document_reads_the_root() {
    let doc = FbxDocument { version: 7400, root: sample_root() };
    let defs = Definitions::from_document(&doc);
    assert_eq!(defs.len(), 2);
    let unsorted = root_with_definitions(vec![
        object_type("Zeta", 1, None),
        object_type("Alpha", 1, None),
        object_type("Mid", 1, None),
    ]);
    assert_eq!(
        Definitions::from_root(&unsorted).object_types(),
        vec!["Alpha", "Mid", "Zeta"]
    );
}
