use oxideav_fbx::header_info::{header_info, HeaderInfo};
use oxideav_fbx::model::{FbxDocument, FbxNode, FbxProperty};

fn s(text: &str) -> FbxProperty {
    FbxProperty::String(text.as_bytes().to_vec())
}

fn leaf(name: &str, props: Vec<FbxProperty>) -> FbxNode {
    FbxNode { name: name.to_string(), properties: props, children: vec![] }
}

fn int_leaf(name: &str, v: i64) -> FbxNode {
    leaf(name, vec![FbxProperty::I64(v)])
}

fn p_str(name: &str, record_type: &str, value: &str) -> FbxNode {
    leaf("P", vec![s(name), s(record_type), s(""), s(""), s(value)])
}

fn doc_with_header(ext: FbxNode) -> FbxDocument {
    FbxDocument { version: 7500, root: FbxNode { name: "__root__".to_string(), properties: vec![], children: vec![ext] } }
}

fn fixture_header() -> FbxNode {
    let timestamp = FbxNode {
        name: "CreationTimeStamp".to_string(),
        properties: vec![],
        children: vec![
            int_leaf("Version", 1000),
            int_leaf("Year", 2019),
            int_leaf("Month", 1),
            int_leaf("Day", 7),
            int_leaf("Hour", 16),
            int_leaf("Minute", 17),
            int_leaf("Second", 31),
            int_leaf("Millisecond", 730),
        ],
    };
    let metadata = FbxNode {
        name: "MetaData".to_string(),
        properties: vec![],
        children: vec![
            int_leaf("Version", 100),
            leaf("Title", vec![s("")]),
            leaf("Subject", vec![s("My Subject")]),
            leaf("Author", vec![s("Mark")]),
            leaf("Keywords", vec![s("")]),
            leaf("Revision", vec![s("")]),
            leaf("Comment", vec![s("")]),
        ],
    };
    let props70 = FbxNode {
        name: "Properties70".to_string(),
        properties: vec![],
        children: vec![
            p_str("DocumentUrl", "KString", "U:\\Some\\Path\\cubes.fbx"),
            p_str("Original|ApplicationVendor", "KString", "Autodesk"),
            p_str("Original|ApplicationName", "KString", "Maya"),
            p_str("Original|ApplicationVersion", "KString", "201800"),
            p_str("Original|DateTime_GMT", "DateTime", "07/01/2019 16:17:31.730"),
            p_str("LastSaved|ApplicationName", "KString", "MotionBuilder"),
        ],
    };
    let scene_info = FbxNode {
        name: "SceneInfo".to_string(),
        properties: vec![s("SceneInfo::GlobalInfo"), s("UserData")],
        children: vec![leaf("Type", vec![s("UserData")]), int_leaf("Version", 100), metadata, props70],
    };
    FbxNode {
        name: "FBXHeaderExtension".to_string(),
        properties: vec![],
        children: vec![
            int_leaf("FBXHeaderVersion", 1003),
            int_leaf("FBXVersion", 7500),
            timestamp,
            leaf("Creator", vec![s("FBX SDK/FBX Plugins version 2018.1.1")]),
            scene_info,
        ],
    }
}

fn entry<'a>(v: &'a [(String, String)], key: &str) -> Option<&'a str> {
    v.iter().find(|(k, _)| k == key).map(|(_, v)| v.as_str())
}

fn count(h: &HeaderInfo) -> usize {
    h.header_version.is_some() as usize
        + h.creator.is_some() as usize
        + h.creation_time.is_some() as usize
        + h.metadata.len()
        + h.provenance.len()
}

#[test]
fn surfaces_creator_and_header_version() {
    let h = header_info(&doc_with_header(fixture_header()));
    assert!(count(&h) > 0);
    assert_eq!(h.creator.as_deref(), Some("FBX SDK/FBX Plugins version 2018.1.1"));
    assert_eq!(h.header_version, Some(1003));
}

#[test]
fn composes_creation_timestamp() {
    let h = header_info(&doc_with_header(fixture_header()));
    assert_eq!(h.creation_time.as_deref(), Some("2019-01-07T16:17:31.730"));
}

#[test]
fn surfaces_only_nonempty_metadata() {
    let h = header_info(&doc_with_header(fixture_header()));
    assert_eq!(entry(&h.metadata, "fbx:meta_author"), Some("Mark"));
    assert_eq!(entry(&h.metadata, "fbx:meta_subject"), Some("My Subject"));
    assert!(entry(&h.metadata, "fbx:meta_title").is_none());
    assert!(entry(&h.metadata, "fbx:meta_keywords").is_none());
    assert!(entry(&h.metadata, "fbx:meta_comment").is_none());
    assert_eq!(h.metadata.len(), 2);
}

#[test]
fn surfaces_original_application_provenance() {
    let h = header_info(&doc_with_header(fixture_header()));
    assert_eq!(entry(&h.provenance, "fbx:application_name"), Some("Maya"));
    assert_eq!(entry(&h.provenance, "fbx:application_vendor"), Some("Autodesk"));
    assert_eq!(entry(&h.provenance, "fbx:application_version"), Some("201800"));
    assert_eq!(entry(&h.provenance, "fbx:document_url"), Some("U:\\Some\\Path\\cubes.fbx"));
    assert_eq!(h.provenance.len(), 4);
}

#[test]
fn missing_header_returns_zero() {
    let doc = FbxDocument { version: 7400, root: FbxNode { name: "__root__".to_string(), properties: vec![], children: vec![] } };
    let h = header_info(&doc);
    assert_eq!(count(&h), 0);
}

#[test]
fn timestamp_absent_when_no_date_leaves() {
    let ts = FbxNode { name: "CreationTimeStamp".to_string(), properties: vec![], children: vec![int_leaf("Version", 1000)] };
    let ext = FbxNode { name: "FBXHeaderExtension".to_string(), properties: vec![], children: vec![ts] };
    let h = header_info(&doc_with_header(ext));
    assert!(h.creation_time.is_none());
}

#[test]
fn timestamp_pads_and_defaults_missing_parts() {
    let ts = FbxNode {
        name: "CreationTimeStamp".to_string(),
        properties: vec![],
        children: vec![int_leaf("Year", 7), int_leaf("Second", -1)],
    };
    let ext = FbxNode { name: "FBXHeaderExtension".to_string(), properties: vec![], children: vec![ts] };
    let h = header_info(&doc_with_header(ext));
    assert_eq!(h.creation_time.as_deref(), Some("0007-00-00T00:00:-1.000"));
}
