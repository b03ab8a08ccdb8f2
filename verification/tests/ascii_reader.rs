use oxideav_fbx::ascii::{document_layout_is_64bit, is_ascii_fbx, parse};
use oxideav_fbx::binary::MAX_NODE_DEPTH;
use oxideav_fbx::error::{AsciiErrorKind, FbxError};
use oxideav_fbx::model::{FbxNode, FbxProperty, FbxReal};

fn real_f64(r: &FbxReal) -> f64 {
    match r {
        FbxReal::Bits(b) => f64::from_bits(*b),
        FbxReal::Text(t) => std::str::from_utf8(t).unwrap().parse().unwrap(),
    }
}

#[test]
fn detects_ascii_banner() {
    assert!(is_ascii_fbx(b"; FBX 7.5.0 project file\n"));
    assert!(is_ascii_fbx(
        b"\xEF\xBB\xBF; FBX 7.4.0 project file\nFBXHeaderExtension:  {\n"
    ));
    assert!(is_ascii_fbx(b"\n\t; FBX 7.5.0\n"));
    assert!(!is_ascii_fbx(b"Kaydara FBX Binary  \x00"));
    assert!(!is_ascii_fbx(b""));
    assert!(!is_ascii_fbx(b";just a generic comment\n"));
}

#[test]
fn parses_minimal_shell() {
    let src = b"; FBX 7.5.0 project file\n\
                FBXHeaderExtension:  {\n\
                \tFBXHeaderVersion: 1003\n\
                \tFBXVersion: 7500\n\
                \tCreator: \"oxideav-fbx test\"\n\
                }\n\
                GlobalSettings:  {\n\
                \tVersion: 1000\n\
                }\n";
    let doc = parse(src).unwrap();
    assert_eq!(doc.version, 7500);
    let ext = doc.root.child("FBXHeaderExtension").unwrap();
    assert_eq!(
        ext.child("FBXHeaderVersion").unwrap().properties[0].as_i64(),
        Some(1003)
    );
    assert_eq!(
        ext.child("Creator").unwrap().properties[0].as_str(),
        Some("oxideav-fbx test")
    );
    let gs = doc.root.child("GlobalSettings").unwrap();
    assert_eq!(
        gs.child("Version").unwrap().properties[0].as_i64(),
        Some(1000)
    );
}

#[test]
fn parses_object_opening_line_three_values() {
    let src = b"; FBX 7.5.0\n\
                Objects:  {\n\
                \tMaterial: 2359823919504, \"Material::Mat_Green\", \"\" {\n\
                \t\tVersion: 102\n\
                \t}\n\
                }\n";
    let doc = parse(src).unwrap();
    let objs = doc.root.child("Objects").unwrap();
    let mat = objs.child("Material").unwrap();
    assert_eq!(mat.properties.len(), 3);
    assert_eq!(mat.properties[0].as_i64(), Some(2359823919504));
    assert_eq!(mat.properties[1].as_str(), Some("Material::Mat_Green"));
    assert_eq!(mat.properties[2].as_str(), Some(""));
    assert_eq!(
        mat.child("Version").unwrap().properties[0].as_i64(),
        Some(102)
    );
}

#[test]
fn parses_typed_array_floats_and_ints() {
    let src = b"; FBX 7.5.0\n\
                Geometry: 1, \"Geometry::\", \"Mesh\" {\n\
                \tVertices: *6 {\n\
                \t\ta: -0.5,-0.5,0.5,0.5,-0.5,0.5\n\
                \t}\n\
                \tPolygonVertexIndex: *4 {\n\
                \t\ta: 0,1,3,-3\n\
                \t}\n\
                }\n";
    let doc = parse(src).unwrap();
    let geom = doc.root.child("Geometry").unwrap();
    let vs = &geom.child("Vertices").unwrap().properties[0];
    match vs {
        FbxProperty::F64Array(v) => {
            assert_eq!(v.len(), 6);
            assert!((real_f64(&v[0]) - -0.5).abs() < 1e-12);
        }
        other => panic!("expected F64Array, got {other:?}"),
    }
    let pvi = &geom.child("PolygonVertexIndex").unwrap().properties[0];
    match pvi {
        FbxProperty::I32Array(v) => assert_eq!(v, &[0, 1, 3, -3]),
        other => panic!("expected I32Array, got {other:?}"),
    }
}

#[test]
fn typed_array_overflowing_i32_falls_back_to_i64() {
    let src = b"; FBX 7.5.0\nKeyTime: *3 {\n\ta: 1,2,230930790000\n}\n";
    let doc = parse(src).unwrap();
    let arr = &doc.root.child("KeyTime").unwrap().properties[0];
    match arr {
        FbxProperty::I64Array(v) => assert_eq!(v, &[1, 2, 230930790000]),
        other => panic!("expected I64Array, got {other:?}"),
    }
}

#[test]
fn parses_bare_booleans_and_strings() {
    let src = b"; FBX 7.5.0\n\
                Model: 1, \"Model::M\", \"Mesh\" {\n\
                \tShading: T\n\
                \tInverted: F\n\
                \tCulling: \"CullingOff\"\n\
                }\n";
    let doc = parse(src).unwrap();
    let m = doc.root.child("Model").unwrap();
    match &m.child("Shading").unwrap().properties[0] {
        FbxProperty::Bool(true) => {}
        other => panic!("expected Bool(true), got {other:?}"),
    }
    match &m.child("Inverted").unwrap().properties[0] {
        FbxProperty::Bool(false) => {}
        other => panic!("expected Bool(false), got {other:?}"),
    }
    assert_eq!(
        m.child("Culling").unwrap().properties[0].as_str(),
        Some("CullingOff")
    );
}

#[test]
fn parses_p_records_with_backslash_paths() {
    let src = b"; FBX 7.5.0\n\
                Properties70:  {\n\
                \tP: \"DocumentUrl\", \"KString\", \"Url\", \"\", \"U:\\path\\file.fbx\"\n\
                \tP: \"UpAxis\", \"int\", \"Integer\", \"\",1\n\
                \tP: \"Color\", \"ColorRGB\", \"Color\", \"\",0.8,0.8,0.8\n\
                \tP: \"Original\", \"Compound\", \"\", \"\"\n\
                }\n";
    let doc = parse(src).unwrap();
    let p70 = doc.root.child("Properties70").unwrap();
    let ps: Vec<&FbxNode> = p70.children_named("P");
    assert_eq!(ps.len(), 4);
    assert_eq!(ps[0].properties.len(), 5);
    assert_eq!(ps[0].properties[0].as_str(), Some("DocumentUrl"));
    assert_eq!(ps[0].properties[1].as_str(), Some("KString"));
    assert_eq!(ps[0].properties[4].as_str(), Some("U:\\path\\file.fbx"));
    assert_eq!(ps[1].properties[4].as_i64(), Some(1));
    assert_eq!(ps[2].properties.len(), 7);
    assert!(matches!(ps[2].properties[6], FbxProperty::F64(_)));
    assert_eq!(ps[3].properties.len(), 4);
}

#[test]
fn parses_comments_inline_and_full_line() {
    let src = b"; FBX 7.5.0 project file\n\
                ; ----------------------------------------------------\n\
                Connections:  {\n\
                \t\n\
                \t;Model::Cube2, Model::RootNode\n\
                \tC: \"OO\",2359439406816,0\n\
                \t;Geometry::, Model::Cube2\n\
                \tC: \"OO\",2358377979296,2359439406816\n\
                }\n";
    let doc = parse(src).unwrap();
    let cs = doc.root.child("Connections").unwrap();
    let recs: Vec<&FbxNode> = cs.children_named("C");
    assert_eq!(recs.len(), 2);
    assert_eq!(recs[0].properties[0].as_str(), Some("OO"));
    assert_eq!(recs[0].properties[1].as_i64(), Some(2359439406816));
    assert_eq!(recs[0].properties[2].as_i64(), Some(0));
}

#[test]
fn parses_value_then_body_node_form() {
    let src = b"; FBX 7.5.0\n\
                Geometry: 1, \"Geometry::\", \"Mesh\" {\n\
                \tLayerElementNormal: 0 {\n\
                \t\tVersion: 102\n\
                \t\tMappingInformationType: \"ByPolygonVertex\"\n\
                \t\tReferenceInformationType: \"Direct\"\n\
                \t\tNormals: *3 {\n\
                \t\t\ta: 0,0,1\n\
                \t\t}\n\
                \t}\n\
                }\n";
    let doc = parse(src).unwrap();
    let geom = doc.root.child("Geometry").unwrap();
    let len = geom.child("LayerElementNormal").unwrap();
    assert_eq!(len.properties.len(), 1);
    assert_eq!(len.properties[0].as_i64(), Some(0));
    assert_eq!(
        len.child("MappingInformationType").unwrap().properties[0].as_str(),
        Some("ByPolygonVertex")
    );
    let normals = &len.child("Normals").unwrap().properties[0];
    match normals {
        FbxProperty::I32Array(v) => assert_eq!(v, &[0, 0, 1]),
        other => panic!("expected I32Array, got {other:?}"),
    }
}

#[test]
fn rejects_unterminated_string() {
    let src = b"; FBX 7.5.0\nCreator: \"oops\n";
    assert!(parse(src).is_err());
}

#[test]
fn rejects_bad_array_count() {
    let src = b"; FBX 7.5.0\nVertices: *3 {\n\ta: 0,0\n}\n";
    assert!(parse(src).is_err());
}

#[test]
fn t_in_identifier_is_not_bare_boolean() {
    let src = b"; FBX 7.5.0\nNode:  {\n\tInner: TimeMode\n}\n";
    let err = parse(src).unwrap_err();
    let msg = err.message();
    assert!(
        !msg.contains("Bool"),
        "should not have interpreted T as bare boolean"
    );
}

#[test]
fn parses_typed_array_with_trailing_brace_space() {
    let src = b"; FBX 7.5.0\nA: *4 {\n\ta: 1,2,\n3,4\n} \n";
    let doc = parse(src).unwrap();
    let a = doc.root.child("A").unwrap();
    match &a.properties[0] {
        FbxProperty::I32Array(v) => assert_eq!(v, &[1, 2, 3, 4]),
        other => panic!("expected I32Array, got {other:?}"),
    }
}

#[test]
fn ascii_nesting_depth_bomb_errors_instead_of_overflowing_the_stack() {
    let mut src = b"; FBX 7.5.0\n".to_vec();
    const N: usize = 10_000;
    for _ in 0..N {
        src.extend_from_slice(b"A: {\n");
    }
    for _ in 0..N {
        src.extend_from_slice(b"}\n");
    }
    let err = parse(&src).expect_err("depth bomb rejected");
    assert!(
        err.message().contains("nesting"),
        "expected the depth limit to fire, got: {err:?}"
    );
}

#[test]
fn nesting_below_the_limit_still_parses() {
    let mut src = b"; FBX 7.5.0\n".to_vec();
    let n = MAX_NODE_DEPTH / 2;
    for _ in 0..n {
        src.extend_from_slice(b"A: {\n");
    }
    src.extend_from_slice(b"Leaf: 1\n");
    for _ in 0..n {
        src.extend_from_slice(b"}\n");
    }
    let doc = parse(&src).expect("half-limit nesting parses");
    let mut node = doc.root.child("A").expect("outermost A");
    for _ in 1..n {
        node = node.child("A").expect("nested A");
    }
    assert!(node.child("Leaf").is_some());
}

// ---------------------------------------------------------------------
// Further cases of the reader
// ---------------------------------------------------------------------

#[test]
fn missing_version_leaf_defaults_to_7400() {
    let doc = parse(b"; FBX 7.5.0\nA: 1\n").unwrap();
    assert_eq!(doc.version, 7400);
    assert!(!document_layout_is_64bit(&doc));
    let doc = parse(b"; FBX 7.7.0\nFBXHeaderExtension:  {\n\tFBXVersion: 7700\n}\n").unwrap();
    assert_eq!(doc.version, 7700);
    assert!(document_layout_is_64bit(&doc));
}

#[test]
fn float_tokens_keep_their_decimal_text() {
    let doc = parse(b"; FBX 7.5.0\nPi: 3.25, -1e3, 2\n").unwrap();
    let pi = doc.root.child("Pi").unwrap();
    assert_eq!(pi.properties.len(), 3);
    assert_eq!(pi.properties[0], FbxProperty::F64(FbxReal::Text(b"3.25".to_vec())));
    assert_eq!(pi.properties[1], FbxProperty::F64(FbxReal::Text(b"-1e3".to_vec())));
    assert_eq!(pi.properties[2], FbxProperty::I64(2));
    // Floats truncate toward zero when read as integers.
    assert_eq!(pi.properties[0].as_i64(), Some(3));
    assert_eq!(pi.properties[1].as_i64(), Some(-1000));
}

#[test]
fn mixed_array_with_any_float_is_a_float_array() {
    let doc = parse(b"; FBX 7.5.0\nV: *3 {\n\ta: 1,2.5,3\n}\n").unwrap();
    match &doc.root.child("V").unwrap().properties[0] {
        FbxProperty::F64Array(v) => {
            assert_eq!(v.len(), 3);
            assert_eq!(v[0], FbxReal::Text(b"1.0".to_vec()));
            assert!((real_f64(&v[1]) - 2.5).abs() < 1e-12);
        }
        other => panic!("expected F64Array, got {other:?}"),
    }
}

#[test]
fn missing_colon_reports_line_and_column() {
    let err = parse(b"; FBX 7.5.0\nA 1\n").unwrap_err();
    assert_eq!(err, FbxError::Ascii(AsciiErrorKind::ExpectedColon, 2, 3));
}

#[test]
fn unterminated_string_kinds() {
    match parse(b"; FBX 7.5.0\nA: \"x\n").unwrap_err() {
        FbxError::Ascii(AsciiErrorKind::UnterminatedStringAtNewline, 2, _) => {}
        other => panic!("unexpected {other:?}"),
    }
    match parse(b"; FBX 7.5.0\nA: \"x").unwrap_err() {
        FbxError::Ascii(AsciiErrorKind::UnterminatedStringAtEof, 2, _) => {}
        other => panic!("unexpected {other:?}"),
    }
}

#[test]
fn array_count_mismatch_and_eof() {
    assert_eq!(
        parse(b"; FBX 7.5.0\nV: *3 {\n\ta: 1,2\n}\n").unwrap_err(),
        FbxError::AsciiArrayCountMismatch
    );
    match parse(b"; FBX 7.5.0\nV: *3 {\n\ta: 1,2").unwrap_err() {
        FbxError::Ascii(AsciiErrorKind::UnexpectedEofInArray, _, _) => {}
        other => panic!("unexpected {other:?}"),
    }
    match parse(b"; FBX 7.5.0\nV: *1 \n").unwrap_err() {
        FbxError::Ascii(AsciiErrorKind::ExpectedArrayOpenBrace, _, _) => {}
        other => panic!("unexpected {other:?}"),
    }
}

#[test]
fn unclosed_body_is_eof_error() {
    match parse(b"; FBX 7.5.0\nA:  {\n\tB: 1\n").unwrap_err() {
        FbxError::Ascii(AsciiErrorKind::UnexpectedEofInBody, _, _) => {}
        other => panic!("unexpected {other:?}"),
    }
}

#[test]
fn empty_input_has_no_records() {
    let doc = parse(b"").unwrap();
    assert!(doc.root.children.is_empty());
    assert_eq!(doc.root.name, "");
    assert_eq!(doc.version, 7400);
}
