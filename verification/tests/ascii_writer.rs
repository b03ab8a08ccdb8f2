use oxideav_fbx::ascii;
use oxideav_fbx::ascii_writer::{
    write_ascii_document, write_ascii_document_with_options, AsciiWriterOptions,
};
use oxideav_fbx::error::FbxError;
use oxideav_fbx::model::{FbxDocument, FbxNode, FbxProperty, FbxReal};

fn nodes_equal(a: &FbxNode, b: &FbxNode) -> bool {
    a.name == b.name
        && a.properties == b.properties
        && a.children.len() == b.children.len()
        && a.children
            .iter()
            .zip(b.children.iter())
            .all(|(x, y)| nodes_equal(x, y))
}

fn assert_ast_round_trips(doc: &FbxDocument) {
    let bytes = write_ascii_document(doc).expect("write_ascii_document");
    let s = std::str::from_utf8(&bytes).expect("output is UTF-8");
    let parsed = ascii::parse(&bytes)
        .unwrap_or_else(|e| panic!("re-parse failed: {e:?}\n----\n{s}\n----"));
    assert_eq!(parsed.version, doc.version, "version mismatch:\n{s}");
    assert!(
        nodes_equal(&parsed.root, &doc.root),
        "root tree mismatch\n--- expected:\n{:?}\n--- got:\n{:?}\n--- bytes:\n{s}",
        doc.root,
        parsed.root
    );
}

fn node(name: &str, properties: Vec<FbxProperty>, children: Vec<FbxNode>) -> FbxNode {
    FbxNode { name: name.to_string(), properties, children }
}

fn decimal(text: &str) -> FbxReal {
    FbxReal::Text(text.as_bytes().to_vec())
}

fn doc_with_root(version: u32, children: Vec<FbxNode>) -> FbxDocument {
    FbxDocument { version, root: node("", vec![], children) }
}

fn header_ext(version: i64) -> FbxNode {
    node(
        "FBXHeaderExtension",
        vec![],
        vec![node("FBXVersion", vec![FbxProperty::I64(version)], vec![])],
    )
}

#[test]
fn banner_only_doc_round_trips_minimal_shell() {
    let doc = doc_with_root(7500, vec![header_ext(7500)]);
    assert_ast_round_trips(&doc);
}

#[test]
fn banner_carries_version_digits() {
    let doc = doc_with_root(7500, vec![]);
    let bytes = write_ascii_document(&doc).unwrap();
    let s = std::str::from_utf8(&bytes).unwrap();
    assert!(s.starts_with("; FBX 7.5.0 project file\n"), "{s:?}");
    for (ver, digits) in [(6100u32, "6.1.0"), (7100, "7.1.0"), (7700, "7.7.0")] {
        let d = doc_with_root(ver, vec![]);
        let b = write_ascii_document(&d).unwrap();
        let head = std::str::from_utf8(&b[..32]).unwrap();
        assert!(head.contains(digits), "{head:?} missing {digits}");
    }
}

#[test]
fn leaf_nodes_with_scalar_values_round_trip() {
    let doc = doc_with_root(
        7500,
        vec![
            header_ext(7500),
            node(
                "Header",
                vec![],
                vec![
                    node("Version", vec![FbxProperty::I64(1003)], vec![]),
                    node(
                        "Creator",
                        vec![FbxProperty::String(b"oxideav-fbx round 213".to_vec())],
                        vec![],
                    ),
                    node("Pi", vec![FbxProperty::F64(decimal("0.800000011920929"))], vec![]),
                    node("Shading", vec![FbxProperty::Bool(true)], vec![]),
                    node("Inverted", vec![FbxProperty::Bool(false)], vec![]),
                ],
            ),
        ],
    );
    assert_ast_round_trips(&doc);
}

#[test]
fn object_opening_line_three_values_round_trips() {
    let doc = doc_with_root(
        7500,
        vec![
            header_ext(7500),
            node(
                "Objects",
                vec![],
                vec![node(
                    "Material",
                    vec![
                        FbxProperty::I64(2_359_823_919_504),
                        FbxProperty::String(b"Material::Mat_Green".to_vec()),
                        FbxProperty::String(b"".to_vec()),
                    ],
                    vec![node("Version", vec![FbxProperty::I64(102)], vec![])],
                )],
            ),
        ],
    );
    assert_ast_round_trips(&doc);
}

#[test]
fn typed_array_floats_and_ints_round_trip() {
    let doc = doc_with_root(
        7500,
        vec![
            header_ext(7500),
            node(
                "Geometry",
                vec![
                    FbxProperty::I64(1),
                    FbxProperty::String(b"Geometry::".to_vec()),
                    FbxProperty::String(b"Mesh".to_vec()),
                ],
                vec![
                    node(
                        "Vertices",
                        vec![FbxProperty::F64Array(vec![
                            decimal("-0.5"),
                            decimal("-0.5"),
                            decimal("0.5"),
                            decimal("0.5"),
                            decimal("-0.5"),
                            decimal("0.5"),
                        ])],
                        vec![],
                    ),
                    node(
                        "PolygonVertexIndex",
                        vec![FbxProperty::I32Array(vec![0, 1, 3, -3])],
                        vec![],
                    ),
                ],
            ),
        ],
    );
    assert_ast_round_trips(&doc);
}

#[test]
fn typed_array_overflowing_i32_round_trips_via_i64() {
    let doc = doc_with_root(
        7500,
        vec![
            header_ext(7500),
            node(
                "KeyTime",
                vec![FbxProperty::I64Array(vec![1, 2, 230_930_790_000])],
                vec![],
            ),
        ],
    );
    assert_ast_round_trips(&doc);
}

#[test]
fn empty_typed_array_narrows_to_i32array_via_grammar_ambiguity() {
    let bytes = write_ascii_document(&doc_with_root(
        7500,
        vec![node("Empty", vec![FbxProperty::F64Array(vec![])], vec![])],
    ))
    .unwrap();
    let s = std::str::from_utf8(&bytes).unwrap();
    assert!(s.contains("Empty: *0 {\n\ta:\n}\n"), "{s:?}");
    let reparsed = ascii::parse(&bytes).unwrap();
    let e = reparsed.root.child("Empty").unwrap();
    match &e.properties[0] {
        FbxProperty::I32Array(v) => assert!(v.is_empty()),
        other => panic!("expected I32Array([]) (grammar ambiguity), got {other:?}"),
    }

    let doc = doc_with_root(
        7500,
        vec![
            header_ext(7500),
            node("Empty", vec![FbxProperty::I32Array(vec![])], vec![]),
        ],
    );
    assert_ast_round_trips(&doc);
}

#[test]
fn empty_value_list_body_uses_two_spaces_per_quirk() {
    let doc = doc_with_root(7500, vec![header_ext(7500)]);
    let bytes = write_ascii_document(&doc).unwrap();
    let s = std::str::from_utf8(&bytes).unwrap();
    assert!(
        s.contains("FBXHeaderExtension:  {"),
        "expected two-space `:` `{{` shape in:\n{s}"
    );
}

#[test]
fn nested_children_indent_with_tabs() {
    let doc = doc_with_root(
        7500,
        vec![
            header_ext(7500),
            node(
                "Outer",
                vec![],
                vec![node(
                    "Inner",
                    vec![],
                    vec![node("Leaf", vec![FbxProperty::I64(1)], vec![])],
                )],
            ),
        ],
    );
    let bytes = write_ascii_document(&doc).unwrap();
    let s = std::str::from_utf8(&bytes).unwrap();
    assert!(s.contains("\nOuter:  {\n"), "{s}");
    assert!(s.contains("\n\tInner:  {\n"), "{s}");
    assert!(s.contains("\n\t\tLeaf: 1\n"), "{s}");
    assert_ast_round_trips(&doc);
}

#[test]
fn utf8_multibyte_string_round_trips() {
    let doc = doc_with_root(
        7500,
        vec![
            header_ext(7500),
            node(
                "Objects",
                vec![],
                vec![node(
                    "Model",
                    vec![
                        FbxProperty::I64(1),
                        FbxProperty::String("Model::Куб1".as_bytes().to_vec()),
                        FbxProperty::String(b"Mesh".to_vec()),
                    ],
                    vec![],
                )],
            ),
        ],
    );
    assert_ast_round_trips(&doc);
}

#[test]
fn backslash_in_string_passes_through_literally() {
    let doc = doc_with_root(
        7500,
        vec![
            header_ext(7500),
            node(
                "Documents",
                vec![],
                vec![node(
                    "Filename",
                    vec![FbxProperty::String(
                        br"U:\Some\Absolute\Path\cubes_with_names.fbx".to_vec(),
                    )],
                    vec![],
                )],
            ),
        ],
    );
    assert_ast_round_trips(&doc);
}

#[test]
fn string_with_embedded_quote_is_rejected() {
    let doc = doc_with_root(
        7500,
        vec![node("Bad", vec![FbxProperty::String(br#"has " inside"#.to_vec())], vec![])],
    );
    let err = write_ascii_document(&doc).expect_err("should reject embedded quote");
    let msg = err.message();
    assert!(msg.contains("quote") || msg.contains("`\"`"), "{msg}");
}

#[test]
fn raw_blob_is_rejected_cleanly() {
    let doc = doc_with_root(
        7500,
        vec![node("Bad", vec![FbxProperty::Raw(vec![0, 1, 2, 3])], vec![])],
    );
    let err = write_ascii_document(&doc).expect_err("should reject Raw blob");
    let msg = err.message();
    assert!(msg.contains("Raw"), "{msg}");
}

// ---------------------------------------------------------------------
// Further cases of the writer
// ---------------------------------------------------------------------

#[test]
fn newline_in_string_is_rejected() {
    let doc = doc_with_root(
        7500,
        vec![node("Bad", vec![FbxProperty::String(b"two\nlines".to_vec())], vec![])],
    );
    assert_eq!(write_ascii_document(&doc).unwrap_err(), FbxError::StringHasNewline);
    let doc = doc_with_root(
        7500,
        vec![node("Bad", vec![FbxProperty::String(b"cr\rhere".to_vec())], vec![])],
    );
    assert_eq!(write_ascii_document(&doc).unwrap_err(), FbxError::StringHasNewline);
}

#[test]
fn byte_array_and_bit_pattern_floats_are_rejected() {
    let doc = doc_with_root(
        7500,
        vec![node("Bad", vec![FbxProperty::ByteArray(vec![1, 2])], vec![])],
    );
    assert_eq!(write_ascii_document(&doc).unwrap_err(), FbxError::ByteArrayHasNoAsciiForm);
    let doc = doc_with_root(
        7500,
        vec![node("Bad", vec![FbxProperty::F64(FbxReal::Bits(0x3ff0_0000_0000_0000))], vec![])],
    );
    assert_eq!(write_ascii_document(&doc).unwrap_err(), FbxError::FloatNotDecimal);
    let doc = doc_with_root(
        7500,
        vec![node("Bad", vec![FbxProperty::F64(decimal("12"))], vec![])],
    );
    assert_eq!(write_ascii_document(&doc).unwrap_err(), FbxError::FloatNotDecimal);
}

#[test]
fn array_after_a_scalar_is_rejected() {
    let doc = doc_with_root(
        7500,
        vec![node(
            "Bad",
            vec![FbxProperty::I32(1), FbxProperty::I32Array(vec![1])],
            vec![],
        )],
    );
    assert_eq!(write_ascii_document(&doc).unwrap_err(), FbxError::ArrayInScalarPosition);
}

#[test]
fn exact_text_of_a_small_document() {
    let doc = doc_with_root(
        7500,
        vec![node(
            "A",
            vec![FbxProperty::I32(-4), FbxProperty::String(b"s".to_vec()), FbxProperty::Bool(true)],
            vec![node("B", vec![FbxProperty::I32Array(vec![1, -2])], vec![])],
        )],
    );
    let opts = AsciiWriterOptions::default().emit_banner(false);
    let bytes = write_ascii_document_with_options(&doc, &opts).unwrap();
    assert_eq!(
        std::str::from_utf8(&bytes).unwrap(),
        "A: -4, \"s\", T {\n\tB: *2 {\n\t\ta: 1,-2\n\t}\n}\n"
    );
}

#[test]
fn banner_can_be_switched_off() {
    let doc = doc_with_root(7500, vec![node("A", vec![FbxProperty::I16(3)], vec![])]);
    let with = write_ascii_document(&doc).unwrap();
    let opts = AsciiWriterOptions::default().emit_banner(false);
    let without = write_ascii_document_with_options(&doc, &opts).unwrap();
    assert_eq!(without, b"A: 3\n".to_vec());
    assert!(with.ends_with(&without));
    assert!(ascii::is_ascii_fbx(&with));
    assert!(!ascii::is_ascii_fbx(&without));
}

#[test]
fn write_parse_write_is_stable() {
    let src = b"; FBX 7.5.0 project file\n\
                FBXHeaderExtension:  {\n\
                \tFBXVersion: 7500\n\
                }\n\
                Objects:  {\n\
                \tGeometry: 7, \"Geometry::G\", \"Mesh\" {\n\
                \t\tVertices: *3 {\n\
                \t\t\ta: 0.25,1,-2.5e2\n\
                \t\t}\n\
                \t\tFlag: T\n\
                \t}\n\
                }\n";
    let doc = ascii::parse(src).unwrap();
    let text = write_ascii_document(&doc).unwrap();
    let doc2 = ascii::parse(&text).unwrap();
    assert_eq!(doc2.version, doc.version);
    assert!(nodes_equal(&doc.root, &doc2.root));
    let text2 = write_ascii_document(&doc2).unwrap();
    assert_eq!(text, text2);
}

#[test]
fn written_text_with_non_ascii_names_and_strings_is_utf8() {
    let doc = doc_with_root(
        7500,
        vec![node(
            "Grüße",
            vec![FbxProperty::String("naïve ✓".as_bytes().to_vec()), FbxProperty::F64(decimal("-1.5e3"))],
            vec![node("Kind", vec![FbxProperty::I64(-42)], vec![])],
        )],
    );
    let bytes = write_ascii_document(&doc).expect("write_ascii_document");
    let s = std::str::from_utf8(&bytes).expect("output is UTF-8");
    assert!(s.contains("Grüße: \"naïve ✓\", -1.5e3 {"));
}
