use oxideav_fbx::material::{
    read_content_blob, read_string_child, resolve_texture_source, surface_materials, texture_slot,
    MaterialSurfacing, TextureSlot, TextureSource,
};
use oxideav_fbx::model::{FbxDocument, FbxNode, FbxProperty};

fn make_doc(objects: Vec<FbxNode>, connections: Vec<FbxNode>) -> FbxDocument {
    FbxDocument {
        version: 7400,
        root: FbxNode {
            name: String::new(),
            properties: Vec::new(),
            children: vec![
                FbxNode { name: "Objects".into(), properties: Vec::new(), children: objects },
                FbxNode { name: "Connections".into(), properties: Vec::new(), children: connections },
            ],
        },
    }
}

fn leaf(name: &str, p: FbxProperty) -> FbxNode {
    FbxNode { name: name.into(), properties: vec![p], children: Vec::new() }
}

fn element(class: &str, id: i64, name: &str, children: Vec<FbxNode>) -> FbxNode {
    let mut concat = name.as_bytes().to_vec();
    concat.extend_from_slice(b"\x00\x01");
    concat.extend_from_slice(class.as_bytes());
    FbxNode {
        name: class.into(),
        properties: vec![FbxProperty::I64(id), FbxProperty::String(concat), FbxProperty::String(b"".to_vec())],
        children,
    }
}

fn material_elem(id: i64, name: &str) -> FbxNode {
    element("Material", id, name, Vec::new())
}

fn texture_elem(id: i64, name: &str, relative_filename: Option<&str>) -> FbxNode {
    let children = relative_filename
        .map(|rf| vec![leaf("RelativeFilename", FbxProperty::String(rf.as_bytes().to_vec()))])
        .unwrap_or_default();
    element("Texture", id, name, children)
}

fn video_elem(id: i64, name: &str, filename: Option<&str>, content: Option<&[u8]>) -> FbxNode {
    let mut children = Vec::new();
    if let Some(f) = filename {
        children.push(leaf("Filename", FbxProperty::String(f.as_bytes().to_vec())));
    }
    if let Some(c) = content {
        children.push(leaf("Content", FbxProperty::Raw(c.to_vec())));
    }
    element("Video", id, name, children)
}

fn conn_oo(child: i64, parent: i64) -> FbxNode {
    FbxNode {
        name: "C".into(),
        properties: vec![FbxProperty::String(b"OO".to_vec()), FbxProperty::I64(child), FbxProperty::I64(parent)],
        children: Vec::new(),
    }
}

fn conn_op(child: i64, parent: i64, prop: &str) -> FbxNode {
    FbxNode {
        name: "C".into(),
        properties: vec![
            FbxProperty::String(b"OP".to_vec()),
            FbxProperty::I64(child),
            FbxProperty::I64(parent),
            FbxProperty::String(prop.as_bytes().to_vec()),
        ],
        children: Vec::new(),
    }
}

fn uri_of(plan: &MaterialSurfacing, i: usize) -> &str {
    match &plan.textures[i].source {
        TextureSource::Uri(u) => u,
        other => panic!("expected a path, got {other:?}"),
    }
}

#[test]
fn extracts_material_and_attaches_to_mesh() {
    let doc = make_doc(vec![material_elem(300, "Steel")], vec![conn_oo(300, 200)]);
    let plan = surface_materials(&doc, &[200]);
    assert_eq!(plan.materials.len(), 1, "one material surfaced");
    assert_eq!(plan.materials[0].name.as_deref(), Some("Steel"));
    assert_eq!(plan.model_materials, vec![(200, vec![300])]);
}

#[test]
fn extracts_texture_from_relative_filename() {
    let doc = make_doc(vec![texture_elem(400, "BaseColor", Some("textures/wood.png"))], vec![]);
    let plan = surface_materials(&doc, &[]);
    assert_eq!(plan.textures.len(), 1);
    assert_eq!(plan.textures[0].name.as_deref(), Some("BaseColor"));
    assert_eq!(uri_of(&plan, 0), "textures/wood.png");
}

#[test]
fn binds_diffuse_texture_to_base_color() {
    let doc = make_doc(
        vec![material_elem(300, "Wood"), texture_elem(400, "WoodColor", Some("textures/wood.png"))],
        vec![conn_op(400, 300, "DiffuseColor"), conn_oo(300, 200)],
    );
    let plan = surface_materials(&doc, &[200]);
    assert_eq!(plan.materials.len(), 1);
    assert_eq!(plan.texture_bindings, vec![(400, 300, TextureSlot::BaseColor)]);
    assert_eq!(plan.textures[0].id, 400);
    assert_eq!(plan.model_materials, vec![(200, vec![300])]);
}

#[test]
fn embeds_video_content_into_texture() {
    let png_magic = [0x89, b'P', b'N', b'G', 0x0D, 0x0A, 0x1A, 0x0A];
    let mut content = png_magic.to_vec();
    content.extend_from_slice(b"<chunks elided>");
    let doc = make_doc(
        vec![texture_elem(400, "EmbeddedColor", None), video_elem(500, "WoodVideo", Some("wood.png"), Some(&content))],
        vec![conn_oo(500, 400)],
    );
    let plan = surface_materials(&doc, &[]);
    assert_eq!(plan.textures.len(), 1);
    match &plan.textures[0].source {
        TextureSource::Embedded { mime, content: c } => {
            assert_eq!(mime, "image/png");
            assert_eq!(c.len() as u64, content.len() as u64);
        }
        other => panic!("expected embedded media, got {other:?}"),
    }
    assert!(plan.model_materials.is_empty());
}

#[test]
fn ignores_unknown_op_binding_names() {
    let doc = make_doc(
        vec![material_elem(300, "Mat"), texture_elem(400, "Tex", Some("foo.png"))],
        vec![conn_op(400, 300, "SomeFutureChannel")],
    );
    let plan = surface_materials(&doc, &[]);
    assert_eq!(plan.materials.len(), 1);
    assert!(plan.texture_bindings.is_empty());
}

#[test]
fn material_without_model_is_still_created() {
    let doc = make_doc(vec![material_elem(300, "Orphan")], vec![]);
    let plan = surface_materials(&doc, &[]);
    assert_eq!(plan.materials.len(), 1);
    assert_eq!(plan.materials[0].name.as_deref(), Some("Orphan"));
    assert!(plan.model_materials.is_empty());
}

// ----- Further cases -----

#[test]
fn entries_are_sorted_by_id_and_last_element_wins() {
    let doc = make_doc(
        vec![material_elem(30, "C"), material_elem(10, "A"), material_elem(20, "B"), material_elem(10, "A2")],
        vec![],
    );
    let plan = surface_materials(&doc, &[]);
    let ids: Vec<i64> = plan.materials.iter().map(|m| m.id).collect();
    assert_eq!(ids, vec![10, 20, 30]);
    assert_eq!(plan.materials[0].name.as_deref(), Some("A2"));
}

#[test]
fn multi_material_models_keep_connection_order() {
    let doc = make_doc(
        vec![material_elem(1, "A"), material_elem(2, "B"), material_elem(3, "C")],
        vec![conn_oo(3, 100), conn_oo(1, 100), conn_oo(2, 200), conn_oo(2, 300), conn_oo(9, 100)],
    );
    let plan = surface_materials(&doc, &[100, 200]);
    assert_eq!(plan.model_materials, vec![(100, vec![3, 1]), (200, vec![2])]);
}

#[test]
fn every_channel_alias_binds() {
    let names = [
        ("Maya|TEX_color_map", TextureSlot::BaseColor),
        ("3dsMax|main|norm_map", TextureSlot::Normal),
        ("Maya|emissionColor", TextureSlot::Emissive),
        ("3dsMax|main|metalness_map", TextureSlot::MetallicRoughness),
        ("AmbientOcclusion", TextureSlot::Occlusion),
    ];
    for (name, slot) in names {
        assert_eq!(texture_slot(name.as_bytes()), Some(slot));
    }
    assert_eq!(texture_slot(b"diffusecolor"), None);
}

#[test]
fn texture_path_fallbacks() {
    let tex = element(
        "Texture",
        1,
        "T",
        vec![
            leaf("FileName", FbxProperty::String(b"b.tga".to_vec())),
            leaf("Filename", FbxProperty::String(b"c.tga".to_vec())),
        ],
    );
    match resolve_texture_source(&tex, None) {
        TextureSource::Uri(u) => assert_eq!(u, "b.tga"),
        other => panic!("{other:?}"),
    }
    let bare = element("Texture", 2, "T", vec![]);
    let video = element("Video", 3, "V", vec![leaf("FileName", FbxProperty::String(b"v.bmp".to_vec()))]);
    match resolve_texture_source(&bare, Some(&video)) {
        TextureSource::Uri(u) => assert_eq!(u, "v.bmp"),
        other => panic!("{other:?}"),
    }
    match resolve_texture_source(&bare, None) {
        TextureSource::Uri(u) => assert_eq!(u, ""),
        other => panic!("{other:?}"),
    }
    let unknown = element(
        "Video",
        4,
        "V",
        vec![
            leaf("Filename", FbxProperty::String(b"clip.mov".to_vec())),
            leaf("RelativeFilename", FbxProperty::String(b"clip.png".to_vec())),
            leaf("Content", FbxProperty::String(b"xyz".to_vec())),
        ],
    );
    match resolve_texture_source(&bare, Some(&unknown)) {
        TextureSource::Embedded { mime, content } => {
            assert_eq!(mime, "application/octet-stream");
            assert_eq!(content, b"xyz".to_vec());
        }
        other => panic!("{other:?}"),
    }
}

#[test]
fn child_string_and_blob_readers() {
    let n = element(
        "Video",
        1,
        "V",
        vec![
            leaf("Content", FbxProperty::Raw(Vec::new())),
            leaf("Path", FbxProperty::String(vec![0xff])),
            leaf("Name", FbxProperty::String(b"ok".to_vec())),
        ],
    );
    assert_eq!(read_content_blob(&n), None);
    assert_eq!(read_string_child(&n, "Path"), None);
    assert_eq!(read_string_child(&n, "Name").as_deref(), Some("ok"));
    assert_eq!(read_string_child(&n, "Missing"), None);
}

#[test]
fn video_link_needs_both_ends() {
    let doc = make_doc(
        vec![
            material_elem(300, "M"),
            texture_elem(400, "T", Some("t.png")),
            video_elem(500, "V", Some("v.jpg"), Some(b"data")),
        ],
        vec![conn_oo(500, 300), conn_oo(300, 400)],
    );
    let plan = surface_materials(&doc, &[400]);
    // The video is not linked to the texture, so the texture keeps its path.
    assert_eq!(uri_of(&plan, 0), "t.png");
    // A material connected to a model with a mesh is recorded.
    assert_eq!(plan.model_materials, vec![(400, vec![300])]);
}
