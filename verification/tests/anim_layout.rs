use oxideav_fbx::anim_layout::{layout_animation, layout_animations, stack_emit, ChannelIn, ChannelKind, CurveData};

fn ch(node: usize, kind: ChannelKind) -> ChannelIn {
    ChannelIn { node, kind, stride: None, components_ok: true }
}

fn morph(node: usize, stride: usize) -> ChannelIn {
    ChannelIn { node, kind: ChannelKind::MorphWeights, stride: Some(stride), components_ok: false }
}

#[test]
fn nothing_emittable_draws_two_ids_per_animation() {
    // Node 0 has no model and no blend-shape channels.
    let anims = vec![
        vec![ch(0, ChannelKind::Translation), morph(0, 2)],
        vec![ch(0, ChannelKind::Rotation)],
        vec![],
    ];
    let (layouts, next) = layout_animations(&anims, &[None], &[None], 100);
    assert_eq!(next, 106);
    assert_eq!(layouts.len(), 3);
    for (k, l) in layouts.iter().enumerate() {
        assert_eq!(l.stack_id, 100 + 2 * k as i64);
        assert_eq!(l.layer_id, 101 + 2 * k as i64);
        assert!(l.curve_nodes.is_empty());
    }
}

#[test]
fn morph_slots_come_first_and_are_capped_by_stride() {
    // Node 1 has three blend-shape channels; the channel's stride is 2.
    let channels = vec![ch(0, ChannelKind::Translation), morph(1, 2)];
    let node_fbx = vec![Some(500), None];
    let morph_ids = vec![None, Some(vec![900, 901, 902])];
    let (l, next) = layout_animation(&channels, &node_fbx, &morph_ids, 10);
    assert_eq!((l.stack_id, l.layer_id), (10, 11));
    assert_eq!(l.curve_nodes.len(), 3);
    let m0 = &l.curve_nodes[0];
    assert!(m0.morph);
    assert_eq!((m0.node_id, m0.curve_ids.clone(), m0.channel, m0.slot, m0.target), (12, vec![13], 1, 0, 900));
    let m1 = &l.curve_nodes[1];
    assert_eq!((m1.node_id, m1.curve_ids.clone(), m1.slot, m1.target), (14, vec![15], 1, 901));
    let t = &l.curve_nodes[2];
    assert!(!t.morph);
    assert_eq!((t.node_id, t.curve_ids.clone(), t.channel, t.slot, t.target), (16, vec![17, 18, 19], 0, 0, 500));
    assert_eq!(next, 20);
}

#[test]
fn transform_channels_group_by_node_in_first_seen_order() {
    // Channels: node 2 scale, node 0 translation, node 2 translation,
    // node 2 translation again (the later one wins the slot).
    let channels = vec![
        ch(2, ChannelKind::Scale),
        ch(0, ChannelKind::Translation),
        ch(2, ChannelKind::Translation),
        ch(2, ChannelKind::Translation),
    ];
    let node_fbx = vec![Some(7), None, Some(9)];
    let (l, next) = layout_animation(&channels, &node_fbx, &[], 0);
    let got: Vec<(i64, usize, usize, i64)> =
        l.curve_nodes.iter().map(|c| (c.node_id, c.channel, c.slot, c.target)).collect();
    // Node 2 first (translation slot, then scale), then node 0.
    assert_eq!(got, vec![(2, 3, 0, 9), (6, 0, 2, 9), (10, 1, 0, 7)]);
    assert_eq!(next, 14);
}

#[test]
fn malformed_components_write_no_curve_node() {
    let mut bad = ch(0, ChannelKind::Rotation);
    bad.components_ok = false;
    let (l, next) = layout_animation(&[bad], &[Some(1)], &[], 0);
    assert!(l.curve_nodes.is_empty());
    assert_eq!(next, 2);
}

#[test]
fn malformed_morph_table_writes_nothing() {
    let c = ChannelIn { node: 0, kind: ChannelKind::MorphWeights, stride: None, components_ok: false };
    let (l, next) = layout_animation(&[c], &[None], &[Some(vec![1, 2])], 0);
    assert!(l.curve_nodes.is_empty());
    assert_eq!(next, 2);
}

#[test]
fn stack_emit_names_properties_and_components() {
    let channels = vec![ch(0, ChannelKind::Rotation), morph(0, 1)];
    let (l, _) = layout_animation(&channels, &[Some(42)], &[Some(vec![77])], 1);
    let data: Vec<Vec<CurveData>> = l
        .curve_nodes
        .iter()
        .map(|cn| {
            cn.curve_ids
                .iter()
                .map(|id| CurveData { times: vec![*id * 10], values: vec![*id as u32] })
                .collect()
        })
        .collect();
    let s = stack_emit(&l, "Take".to_string(), &data);
    assert_eq!((s.id, s.layer_id, s.name.as_str()), (1, 2, "Take"));
    assert_eq!(s.curve_nodes.len(), 2);
    let m = &s.curve_nodes[0];
    assert_eq!((m.id, m.target, m.property.as_str()), (3, 77, "DeformPercent"));
    assert_eq!(m.curves.len(), 1);
    assert_eq!((m.curves[0].id, m.curves[0].axis.as_str()), (4, "d|DeformPercent"));
    assert_eq!(m.curves[0].times, vec![40]);
    let r = &s.curve_nodes[1];
    assert_eq!((r.id, r.target, r.property.as_str()), (5, 42, "Lcl Rotation"));
    let axes: Vec<&str> = r.curves.iter().map(|c| c.axis.as_str()).collect();
    assert_eq!(axes, vec!["d|X", "d|Y", "d|Z"]);
    let ids: Vec<i64> = r.curves.iter().map(|c| c.id).collect();
    assert_eq!(ids, vec![6, 7, 8]);
    assert_eq!(r.curves[2].values, vec![8]);
}

#[test]
fn drawn_ids_are_consecutive_in_writing_order() {
    let anims = vec![
        vec![ch(1, ChannelKind::Scale), morph(0, 3), ch(1, ChannelKind::Translation)],
        vec![morph(0, 1), ch(2, ChannelKind::Rotation)],
    ];
    let node_fbx = vec![None, Some(11), Some(12)];
    let morph_ids = vec![Some(vec![5, 6]), None, None];
    let (layouts, next) = layout_animations(&anims, &node_fbx, &morph_ids, 1000);
    let mut ids: Vec<i64> = Vec::new();
    for l in &layouts {
        ids.push(l.stack_id);
        ids.push(l.layer_id);
        for cn in &l.curve_nodes {
            ids.push(cn.node_id);
            ids.extend(cn.curve_ids.iter().copied());
        }
    }
    let expected: Vec<i64> = (1000..next).collect();
    assert_eq!(ids, expected);
    // First animation: 2 + 2 morph slots × 2 + two transform nodes × 4.
    assert_eq!(layouts[1].stack_id, 1000 + 2 + 4 + 8);
    assert_eq!(next, 1000 + 14 + 2 + 2 + 4);
}
