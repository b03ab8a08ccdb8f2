use oxideav_fbx::constraint::TaggedValue;
use oxideav_fbx::globals::{axis_from_ints, axis_to_ints, global_settings, AxisConflict, Axis, GlobalSettingsPlan, SettingValue};
use oxideav_fbx::model::{FbxDocument, FbxNode, FbxProperty, FbxReal};

fn p(name: &str, record_type: &str, values: Vec<FbxProperty>) -> FbxNode {
    let mut props = vec![
        FbxProperty::String(name.as_bytes().to_vec()),
        FbxProperty::String(record_type.as_bytes().to_vec()),
        FbxProperty::String(b"".to_vec()),
        FbxProperty::String(b"".to_vec()),
    ];
    props.extend(values);
    FbxNode { name: "P".to_string(), properties: props, children: vec![] }
}

fn doc_with_globals(p_records: Vec<FbxNode>) -> FbxDocument {
    let props70 = FbxNode { name: "Properties70".to_string(), properties: vec![], children: p_records };
    let gs = FbxNode { name: "GlobalSettings".to_string(), properties: vec![], children: vec![props70] };
    FbxDocument { version: 7400, root: FbxNode { name: "".to_string(), properties: vec![], children: vec![gs] } }
}

fn f64v(x: f64) -> FbxProperty {
    FbxProperty::F64(FbxReal::Bits(x.to_bits()))
}

fn get<'a>(plan: &'a GlobalSettingsPlan, key: &str) -> Option<&'a SettingValue> {
    plan.settings.iter().find(|g| g.key == key).map(|g| &g.value)
}

fn number(v: Option<&SettingValue>) -> Option<f64> {
    match v {
        Some(SettingValue::Number(t)) => tagged_f64(t),
        _ => None,
    }
}

fn tagged_f64(t: &TaggedValue) -> Option<f64> {
    match t {
        TaggedValue::Int(n) => Some(*n as f64),
        TaggedValue::Float64(FbxReal::Bits(b)) => Some(f64::from_bits(*b)),
        TaggedValue::Float32(b) => Some(f32::from_bits(*b) as f64),
        _ => None,
    }
}

fn int_of(v: Option<&SettingValue>) -> Option<i64> {
    match v {
        Some(SettingValue::Int(n)) => Some(*n),
        _ => None,
    }
}

#[test]
fn missing_global_settings_returns_zero() {
    let doc = FbxDocument { version: 7400, root: FbxNode { name: "".to_string(), properties: vec![], children: vec![] } };
    let plan = global_settings(&doc);
    assert_eq!(plan.recognised, 0);
    assert!(plan.settings.is_empty());
    assert!(plan.records.is_empty());
    assert!(plan.axis_conflict.is_none());
}

#[test]
fn empty_properties70_returns_zero() {
    let plan = global_settings(&doc_with_globals(vec![]));
    assert_eq!(plan.recognised, 0);
    assert!(plan.settings.is_empty());
    assert!(plan.records.is_empty());
}

#[test]
fn up_axis_int_surfaces_to_extras() {
    let plan = global_settings(&doc_with_globals(vec![p("UpAxis", "int", vec![FbxProperty::I32(1)])]));
    assert_eq!(plan.recognised, 1);
    assert_eq!(int_of(get(&plan, "fbx:up_axis")), Some(1));
}

#[test]
fn unit_scale_factor_100_maps_to_centimetres() {
    let plan = global_settings(&doc_with_globals(vec![p("UnitScaleFactor", "double", vec![f64v(100.0)])]));
    assert_eq!(plan.recognised, 1);
    assert_eq!(plan.unit_scale_factor.as_ref().and_then(tagged_f64), Some(100.0));
    assert_eq!(number(get(&plan, "fbx:unit_scale_factor")), Some(100.0));
}

#[test]
fn unit_scale_factor_1_maps_to_metres() {
    let plan = global_settings(&doc_with_globals(vec![p("UnitScaleFactor", "double", vec![f64v(1.0)])]));
    assert_eq!(plan.unit_scale_factor.as_ref().and_then(tagged_f64), Some(1.0));
}

#[test]
fn unit_scale_factor_unknown_leaves_unit_unchanged() {
    let plan = global_settings(&doc_with_globals(vec![p("UnitScaleFactor", "double", vec![f64v(2.54)])]));
    assert_eq!(plan.recognised, 1);
    assert_eq!(number(get(&plan, "fbx:unit_scale_factor")), Some(2.54));
}

#[test]
fn ambient_color_vec3_surfaces_as_json_array() {
    let plan = global_settings(&doc_with_globals(vec![p(
        "AmbientColor",
        "ColorRGB",
        vec![f64v(0.1), f64v(0.2), f64v(0.3)],
    )]));
    assert_eq!(plan.recognised, 1);
    match get(&plan, "fbx:ambient_color") {
        Some(SettingValue::Triple(a, b, c)) => {
            assert_eq!(tagged_f64(a), Some(0.1));
            assert_eq!(tagged_f64(b), Some(0.2));
            assert_eq!(tagged_f64(c), Some(0.3));
        }
        other => panic!("expected a triple, got {:?}", other),
    }
}

#[test]
fn time_span_keeps_i64_precision() {
    let big_ticks: i64 = 4_000_000_000_000_000;
    let plan = global_settings(&doc_with_globals(vec![
        p("TimeSpanStart", "KTime", vec![FbxProperty::I64(1_924_423_250)]),
        p("TimeSpanStop", "KTime", vec![FbxProperty::I64(big_ticks)]),
    ]));
    assert_eq!(plan.recognised, 2);
    assert_eq!(int_of(get(&plan, "fbx:time_span_start")), Some(1_924_423_250));
    assert_eq!(int_of(get(&plan, "fbx:time_span_stop")), Some(big_ticks));
}

#[test]
fn default_camera_string_surfaces() {
    let plan = global_settings(&doc_with_globals(vec![p(
        "DefaultCamera",
        "KString",
        vec![FbxProperty::String(b"Producer Perspective".to_vec())],
    )]));
    assert_eq!(plan.recognised, 1);
    match get(&plan, "fbx:default_camera") {
        Some(SettingValue::Text(s)) => assert_eq!(s, "Producer Perspective"),
        other => panic!("expected text, got {:?}", other),
    }
}

#[test]
fn custom_frame_rate_negative_one_surfaces() {
    let plan = global_settings(&doc_with_globals(vec![p("CustomFrameRate", "double", vec![f64v(-1.0)])]));
    assert_eq!(plan.recognised, 1);
    assert_eq!(number(get(&plan, "fbx:custom_frame_rate")), Some(-1.0));
}

#[test]
fn full_fixture_p_record_set_decodes() {
    let plan = global_settings(&doc_with_globals(vec![
        p("UpAxis", "int", vec![FbxProperty::I32(1)]),
        p("UpAxisSign", "int", vec![FbxProperty::I32(1)]),
        p("FrontAxis", "int", vec![FbxProperty::I32(2)]),
        p("FrontAxisSign", "int", vec![FbxProperty::I32(1)]),
        p("CoordAxis", "int", vec![FbxProperty::I32(0)]),
        p("CoordAxisSign", "int", vec![FbxProperty::I32(1)]),
        p("OriginalUpAxis", "int", vec![FbxProperty::I32(1)]),
        p("OriginalUpAxisSign", "int", vec![FbxProperty::I32(1)]),
        p("UnitScaleFactor", "double", vec![f64v(1.0)]),
        p("OriginalUnitScaleFactor", "double", vec![f64v(1.0)]),
        p("AmbientColor", "ColorRGB", vec![f64v(0.0), f64v(0.0), f64v(0.0)]),
        p("DefaultCamera", "KString", vec![FbxProperty::String(b"Producer Perspective".to_vec())]),
        p("TimeMode", "enum", vec![FbxProperty::I32(11)]),
        p("TimeProtocol", "enum", vec![FbxProperty::I32(2)]),
        p("SnapOnFrameMode", "enum", vec![FbxProperty::I32(0)]),
        p("TimeSpanStart", "KTime", vec![FbxProperty::I64(1_924_423_250)]),
        p("TimeSpanStop", "KTime", vec![FbxProperty::I64(384_884_650_000)]),
        p("CustomFrameRate", "double", vec![f64v(-1.0)]),
        p("CurrentTimeMarker", "int", vec![FbxProperty::I32(-1)]),
    ]));
    assert_eq!(plan.recognised, 19);
    assert_eq!(plan.unit_scale_factor.as_ref().and_then(tagged_f64), Some(1.0));
    for key in [
        "fbx:up_axis",
        "fbx:front_axis",
        "fbx:coord_axis",
        "fbx:original_up_axis",
        "fbx:unit_scale_factor",
        "fbx:original_unit_scale_factor",
        "fbx:ambient_color",
        "fbx:default_camera",
        "fbx:time_mode",
        "fbx:time_protocol",
        "fbx:snap_on_frame_mode",
        "fbx:time_span_start",
        "fbx:time_span_stop",
        "fbx:custom_frame_rate",
        "fbx:current_time_marker",
    ] {
        assert!(get(&plan, key).is_some(), "missing {key}");
    }
    assert_eq!(plan.records.len(), 19);
}

#[test]
fn unrecognised_record_names_get_no_typed_key() {
    let plan = global_settings(&doc_with_globals(vec![p("SomeFutureField", "int", vec![FbxProperty::I32(7)])]));
    assert_eq!(plan.recognised, 0);
    assert!(plan.settings.is_empty());
    assert_eq!(plan.records.len(), 1);
    assert_eq!(plan.records[0].name, "SomeFutureField");
}

#[test]
fn maya_axis_ints_set_typed_scene_axes() {
    let plan = global_settings(&doc_with_globals(vec![
        p("UpAxis", "int", vec![FbxProperty::I32(1)]),
        p("UpAxisSign", "int", vec![FbxProperty::I32(1)]),
        p("FrontAxis", "int", vec![FbxProperty::I32(2)]),
        p("FrontAxisSign", "int", vec![FbxProperty::I32(1)]),
        p("CoordAxis", "int", vec![FbxProperty::I32(0)]),
        p("CoordAxisSign", "int", vec![FbxProperty::I32(1)]),
    ]));
    assert_eq!(plan.up_axis, Some(Axis::PosY));
    assert_eq!(plan.front_axis, Some(Axis::PosZ));
}

#[test]
fn z_up_negative_sign_decodes() {
    let plan = global_settings(&doc_with_globals(vec![
        p("UpAxis", "int", vec![FbxProperty::I32(2)]),
        p("UpAxisSign", "int", vec![FbxProperty::I32(1)]),
        p("FrontAxis", "int", vec![FbxProperty::I32(1)]),
        p("FrontAxisSign", "int", vec![FbxProperty::I32(-1)]),
    ]));
    assert_eq!(plan.up_axis, Some(Axis::PosZ));
    assert_eq!(plan.front_axis, Some(Axis::NegY));
}

#[test]
fn missing_sign_record_defaults_positive() {
    let plan = global_settings(&doc_with_globals(vec![p("UpAxis", "int", vec![FbxProperty::I32(0)])]));
    assert_eq!(plan.up_axis, Some(Axis::PosX));
    assert_eq!(plan.front_axis, None);
}

#[test]
fn equal_up_and_front_axes_stay_untyped_with_marker() {
    let plan = global_settings(&doc_with_globals(vec![
        p("UpAxis", "int", vec![FbxProperty::I32(1)]),
        p("FrontAxis", "int", vec![FbxProperty::I32(1)]),
    ]));
    assert_eq!(plan.up_axis, None);
    assert_eq!(plan.front_axis, None);
    assert_eq!(plan.axis_conflict, Some(AxisConflict::UpFrontEqual));
    assert_eq!(int_of(get(&plan, "fbx:front_axis")), Some(1));
}

#[test]
fn coord_axis_collision_keeps_up_front_typed_with_marker() {
    let plan = global_settings(&doc_with_globals(vec![
        p("UpAxis", "int", vec![FbxProperty::I32(1)]),
        p("FrontAxis", "int", vec![FbxProperty::I32(2)]),
        p("CoordAxis", "int", vec![FbxProperty::I32(2)]),
    ]));
    assert_eq!(plan.up_axis, Some(Axis::PosY));
    assert_eq!(plan.front_axis, Some(Axis::PosZ));
    assert_eq!(plan.axis_conflict, Some(AxisConflict::CoordAxisCollision));
}

#[test]
fn coherent_axis_triple_raises_no_marker() {
    let plan = global_settings(&doc_with_globals(vec![
        p("UpAxis", "int", vec![FbxProperty::I32(1)]),
        p("FrontAxis", "int", vec![FbxProperty::I32(2)]),
        p("CoordAxis", "int", vec![FbxProperty::I32(0)]),
    ]));
    assert_eq!(plan.axis_conflict, None);
    assert_eq!(plan.up_axis, Some(Axis::PosY));
    assert_eq!(plan.front_axis, Some(Axis::PosZ));
}

#[test]
fn out_of_table_axis_ints_leave_defaults() {
    let plan = global_settings(&doc_with_globals(vec![
        p("UpAxis", "int", vec![FbxProperty::I32(5)]),
        p("UpAxisSign", "int", vec![FbxProperty::I32(1)]),
        p("FrontAxis", "int", vec![FbxProperty::I32(2)]),
        p("FrontAxisSign", "int", vec![FbxProperty::I32(3)]),
    ]));
    assert_eq!(plan.up_axis, None);
    assert_eq!(plan.front_axis, None);
    assert_eq!(int_of(get(&plan, "fbx:up_axis")), Some(5));
}

#[test]
fn repeated_record_name_takes_the_last() {
    let plan = global_settings(&doc_with_globals(vec![
        p("UpAxis", "int", vec![FbxProperty::I32(1)]),
        p("UpAxis", "int", vec![FbxProperty::I32(2)]),
    ]));
    assert_eq!(plan.recognised, 1);
    assert_eq!(int_of(get(&plan, "fbx:up_axis")), Some(2));
    assert_eq!(plan.up_axis, Some(Axis::PosZ));
}

#[test]
fn ascii_integer_unit_scale_factor_reads_as_number() {
    let plan = global_settings(&doc_with_globals(vec![p("UnitScaleFactor", "double", vec![FbxProperty::I64(100)])]));
    assert_eq!(plan.unit_scale_factor.as_ref().and_then(tagged_f64), Some(100.0));
}

#[test]
fn axis_int_table_round_trips() {
    for axis in [Axis::PosX, Axis::NegX, Axis::PosY, Axis::NegY, Axis::PosZ, Axis::NegZ] {
        let (i, s) = axis_to_ints(axis);
        assert_eq!(axis_from_ints(i64::from(i), i64::from(s)), Some(axis));
    }
    assert_eq!(axis_from_ints(0, 1), Some(Axis::PosX));
    assert_eq!(axis_from_ints(1, 1), Some(Axis::PosY));
    assert_eq!(axis_from_ints(2, 1), Some(Axis::PosZ));
    assert_eq!(axis_from_ints(3, 1), None);
    assert_eq!(axis_from_ints(-1, 1), None);
    assert_eq!(axis_from_ints(1, 0), None);
    assert_eq!(axis_from_ints(1, 2), None);
}
