use oxideav_fbx::animation::KTIME_TICKS_PER_SECOND;
use oxideav_fbx::constraint::template_class_for_kind;
use oxideav_fbx::encoder::{FbxEncoder, FbxOutputForm};
use oxideav_fbx::globals::{axis_from_ints, axis_to_ints, extras_key, Axis};
use oxideav_fbx::inherit::{inherit_type_from_stored, InheritType};
use oxideav_fbx::material::guess_mime_from_path;
use oxideav_fbx::model::{FbxNode, FbxProperty, FbxReal};
use oxideav_fbx::names::{display_name, element_name, name_class};
use oxideav_fbx::node_transform::RotationOrder;
use oxideav_fbx::nurbs::{NurbsForm, TessellationOptions};

#[test]
fn ktime_constant_round_trips_one_second() {
    let one_sec_ticks = KTIME_TICKS_PER_SECOND as i64;
    let secs = (one_sec_ticks as f64) / KTIME_TICKS_PER_SECOND as f64;
    assert!((secs - 1.0).abs() < 1e-9);
    assert_eq!(KTIME_TICKS_PER_SECOND, 46_186_158_000);
}

#[test]
fn template_class_naming_pattern() {
    assert_eq!(template_class_for_kind("Single Chain IK"), "FbxConstraintSingleChainIK");
    assert_eq!(template_class_for_kind("Aim"), "FbxConstraintAim");
    assert_eq!(template_class_for_kind("Parent"), "FbxConstraintParent");
    assert_eq!(template_class_for_kind("Position"), "FbxConstraintPosition");
}

#[test]
fn template_class_strips_every_whitespace() {
    assert_eq!(template_class_for_kind(""), "FbxConstraint");
    assert_eq!(template_class_for_kind(" \tParent\n - Child\u{3000}X "), "FbxConstraintParent-ChildX");
}

#[test]
fn extras_key_camelcase_to_snake_case() {
    assert_eq!(extras_key("UpAxis"), "fbx:up_axis");
    assert_eq!(extras_key("UpAxisSign"), "fbx:up_axis_sign");
    assert_eq!(extras_key("UnitScaleFactor"), "fbx:unit_scale_factor");
    assert_eq!(extras_key("OriginalUnitScaleFactor"), "fbx:original_unit_scale_factor");
    assert_eq!(extras_key("AmbientColor"), "fbx:ambient_color");
    assert_eq!(extras_key("CustomFrameRate"), "fbx:custom_frame_rate");
    assert_eq!(extras_key("DefaultCamera"), "fbx:default_camera");
}

#[test]
fn extras_key_runs_and_digits() {
    assert_eq!(extras_key("TimeSpanStart"), "fbx:time_span_start");
    assert_eq!(extras_key("ABC"), "fbx:abc");
    assert_eq!(extras_key("Axis2Up"), "fbx:axis2_up");
    assert_eq!(extras_key("already_snake"), "fbx:already_snake");
    assert_eq!(extras_key(""), "fbx:");
    assert_eq!(extras_key("ÄxeB"), "fbx:Äxe_b");
}

#[test]
fn enum_ints_round_trip() {
    for v in 0..=2 {
        assert_eq!(InheritType::from_enum_int(v).unwrap().to_enum_int(), v);
    }
    assert!(InheritType::from_enum_int(3).is_none());
    assert!(InheritType::from_enum_int(-1).is_none());
    assert_eq!(InheritType::default(), InheritType::RrSs);
}

#[test]
fn stored_inherit_type_falls_back_to_default() {
    assert_eq!(inherit_type_from_stored(None), InheritType::RrSs);
    assert_eq!(inherit_type_from_stored(Some(1)), InheritType::RSrs);
    assert_eq!(inherit_type_from_stored(Some(2)), InheritType::Rrs);
    assert_eq!(inherit_type_from_stored(Some(9)), InheritType::RrSs);
}

#[test]
fn rotation_order_round_trips_enum_ints() {
    for v in 0..=6 {
        let o = RotationOrder::from_enum_int(v).unwrap();
        assert_eq!(o.to_enum_int(), v);
    }
    assert!(RotationOrder::from_enum_int(7).is_none());
    assert!(RotationOrder::from_enum_int(-1).is_none());
}

#[test]
fn rotation_order_application_axes() {
    assert_eq!(RotationOrder::Xyz.application_axes(), [0, 1, 2]);
    assert_eq!(RotationOrder::Zxy.application_axes(), [2, 0, 1]);
    assert_eq!(RotationOrder::SphericXyz.application_axes(), [0, 1, 2]);
    for v in 0..=6 {
        let mut axes = RotationOrder::from_enum_int(v).unwrap().application_axes();
        axes.sort();
        assert_eq!(axes, [0, 1, 2]);
    }
}

#[test]
fn axis_int_table() {
    let all = [Axis::PosX, Axis::NegX, Axis::PosY, Axis::NegY, Axis::PosZ, Axis::NegZ];
    for a in all {
        let (axis, sign) = axis_to_ints(a);
        assert_eq!(axis_from_ints(axis as i64, sign as i64), Some(a));
    }
    assert_eq!(axis_to_ints(Axis::NegY), (1, -1));
    assert_eq!(axis_from_ints(2, 1), Some(Axis::PosZ));
    assert_eq!(axis_from_ints(3, 1), None);
    assert_eq!(axis_from_ints(0, 0), None);
}

#[test]
fn mime_from_extension() {
    assert_eq!(guess_mime_from_path("tex/Wood.PNG").as_deref(), Some("image/png"));
    assert_eq!(guess_mime_from_path("a.b.jpeg").as_deref(), Some("image/jpeg"));
    assert_eq!(guess_mime_from_path("x.jpg").as_deref(), Some("image/jpeg"));
    assert_eq!(guess_mime_from_path("sky.hdr").as_deref(), Some("image/vnd.radiance"));
    assert_eq!(guess_mime_from_path("C:\\t\\img.Tif").as_deref(), Some("image/tiff"));
    assert_eq!(guess_mime_from_path("noext"), None);
    assert_eq!(guess_mime_from_path("movie.mp4"), None);
    assert_eq!(guess_mime_from_path("png"), Some("image/png".to_string()));
}

fn object(name_prop: FbxProperty) -> FbxNode {
    FbxNode {
        name: "Model".to_string(),
        properties: vec![FbxProperty::I64(1), name_prop, FbxProperty::String(b"Mesh".to_vec())],
        children: vec![],
    }
}

#[test]
fn object_names() {
    let bin = name_class("Cube", "Model");
    assert_eq!(bin, b"Cube\x00\x01Model".to_vec());
    let n = object(FbxProperty::String(bin));
    assert_eq!(element_name(&n).as_deref(), Some("Cube"));
    assert_eq!(display_name(&n), "Cube");
    let n = object(FbxProperty::String(b"Model::Cube".to_vec()));
    assert_eq!(element_name(&n).as_deref(), Some("Model::Cube"));
    assert_eq!(display_name(&n), "Cube");
    let n = object(FbxProperty::String(b"Plain".to_vec()));
    assert_eq!(display_name(&n), "Plain");
    let n = object(FbxProperty::I32(4));
    assert_eq!(element_name(&n), None);
    assert_eq!(display_name(&n), "");
    let n = object(FbxProperty::String(vec![0xff, 0x00]));
    assert_eq!(element_name(&n), None);
}

#[test]
fn nurbs_forms_and_options() {
    assert!(NurbsForm::Periodic.wraps());
    assert!(!NurbsForm::Open.wraps());
    assert!(!NurbsForm::Closed.wraps());
    assert_eq!(TessellationOptions::default(), TessellationOptions::uniform(16));
    let o = TessellationOptions::uniform(3);
    assert_eq!((o.resolution_u, o.resolution_v), (3, 3));
}

#[test]
fn encoder_settings() {
    let e = FbxEncoder::new();
    assert_eq!(e.form, FbxOutputForm::Binary);
    assert_eq!(e.version, 7400);
    assert_eq!(e.compress_arrays_threshold, None);
    let e = e.form(FbxOutputForm::Ascii).version(7500).compress_arrays_at(128);
    assert_eq!(e.form, FbxOutputForm::Ascii);
    assert_eq!(e.version, 7500);
    assert_eq!(e.compress_arrays_threshold, Some(128));
    assert_eq!(FbxOutputForm::default(), FbxOutputForm::Binary);
}

#[test]
fn property_accessors() {
    assert_eq!(FbxProperty::I16(-3).as_i64(), Some(-3));
    assert_eq!(FbxProperty::Bool(true).as_i64(), Some(1));
    assert_eq!(FbxProperty::F32((-7.9f32).to_bits()).as_i64(), Some(-7));
    assert_eq!(FbxProperty::F64(FbxReal::Bits(1e300f64.to_bits())).as_i64(), Some(i64::MAX));
    assert_eq!(FbxProperty::F64(FbxReal::Bits(f64::NAN.to_bits())).as_i64(), Some(0));
    assert_eq!(FbxProperty::F64(FbxReal::Text(b"-12.75".to_vec())).as_i64(), Some(-12));
    assert_eq!(FbxProperty::String(b"x".to_vec()).as_i64(), None);
    assert_eq!(FbxProperty::String(vec![0xc3, 0xa4]).as_str(), Some("ä"));
    assert_eq!(FbxProperty::String(vec![0xc3]).as_str(), None);
    assert_eq!(FbxProperty::Raw(b"x".to_vec()).as_str(), None);
}

#[test]
fn child_lookup_and_clones() {
    let leaf = |name: &str, v: i64| FbxNode {
        name: name.to_string(),
        properties: vec![FbxProperty::I64(v)],
        children: vec![],
    };
    let parent = FbxNode {
        name: "Parent".to_string(),
        properties: vec![FbxProperty::F64Array(vec![FbxReal::Bits(0)])],
        children: vec![leaf("A", 1), leaf("B", 2), leaf("A", 3)],
    };
    assert_eq!(parent.child("A").unwrap().properties[0].as_i64(), Some(1));
    assert!(parent.child("C").is_none());
    let all_a = parent.children_named("A");
    assert_eq!(all_a.len(), 2);
    assert_eq!(all_a[1].properties[0].as_i64(), Some(3));
    let copy = parent.clone_node();
    assert_eq!(copy.name, parent.name);
    assert_eq!(copy.properties, parent.properties);
    assert_eq!(copy.children.len(), 3);
    assert_eq!(copy.children[2].properties, vec![FbxProperty::I64(3)]);
    assert_eq!(parent.properties[0].clone_prop(), parent.properties[0]);
}
