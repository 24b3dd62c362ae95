use fastviz::tf::{
    bracket, push_sample, Bracket, Diagnosis, LookupPlan, TfSample, TfTree, TfUpdate,
    TransformEntry, MAX_SAMPLES,
};
use glam::{Mat4, Quat, Vec3};

type Pose = (Quat, Vec3);

fn sample(stamp_ns: i64, rot: Quat, trans: Vec3) -> TfSample<Pose> {
    TfSample { stamp_ns, value: (rot, trans) }
}

fn translation_entry(child: &str, parent: &str, t: Vec3) -> TransformEntry<Pose> {
    TransformEntry::from_sample(child, parent, sample(0, Quat::IDENTITY, t))
}

fn to_mat(s: &TfSample<Pose>) -> Mat4 {
    Mat4::from_rotation_translation(s.value.0, s.value.1)
}

/// `parent_T_child` of one hop at `stamp` (latest sample when `None`).
fn hop(e: &TransformEntry<Pose>, stamp: Option<i64>) -> Mat4 {
    let h = &e.history;
    match stamp {
        None => to_mat(h.last().unwrap()),
        Some(t) => match bracket(h, t).unwrap() {
            Bracket::At(i) => to_mat(&h[i]),
            Bracket::Between(i) => {
                let (a, b) = (&h[i], &h[i + 1]);
                let span = (b.stamp_ns - a.stamp_ns) as f32;
                let k = if span > 0.0 { (t - a.stamp_ns) as f32 / span } else { 0.0 };
                Mat4::from_rotation_translation(
                    a.value.0.slerp(b.value.0, k),
                    a.value.1.lerp(b.value.1, k),
                )
            }
        },
    }
}

fn compose(tf: &TfTree<Pose>, hops: &[usize], stamp: Option<i64>) -> Mat4 {
    let mut accum = Mat4::IDENTITY;
    for &i in hops {
        accum = hop(&tf.frames[i], stamp) * accum;
    }
    accum
}

/// `target_T_source`, composed along the plan the tree gives.
fn lookup_stamped(tf: &TfTree<Pose>, target: &str, source: &str, stamp: Option<i64>) -> Option<Mat4> {
    match tf.lookup_plan(target, source)? {
        LookupPlan::Identity => Some(Mat4::IDENTITY),
        LookupPlan::Chains { source_hops, target_hops } => {
            let root_t_source = compose(tf, &source_hops, stamp);
            let root_t_target = compose(tf, &target_hops, stamp);
            Some(root_t_target.inverse() * root_t_source)
        }
    }
}

fn lookup(tf: &TfTree<Pose>, target: &str, source: &str) -> Option<Mat4> {
    lookup_stamped(tf, target, source, None)
}

fn lookup_at(tf: &TfTree<Pose>, target: &str, source: &str, stamp: i64) -> Option<Mat4> {
    lookup_stamped(tf, target, source, Some(stamp))
}

#[test]
fn lookup_identity_when_same_frame() {
    let tf: TfTree<Pose> = TfTree::new();
    assert_eq!(lookup(&tf, "a", "a"), Some(Mat4::IDENTITY));
}

#[test]
fn lookup_translation_chain() {
    let mut tf = TfTree::new();
    // map -> odom (+x by 1), odom -> base (+y by 2): map_T_base translates by (1, 2, 0).
    tf.insert_entry(translation_entry("odom", "map", Vec3::new(1.0, 0.0, 0.0)));
    tf.insert_entry(translation_entry("base", "odom", Vec3::new(0.0, 2.0, 0.0)));
    let m = lookup(&tf, "map", "base").expect("path exists");
    let p = m.transform_point3(Vec3::ZERO);
    assert!((p - Vec3::new(1.0, 2.0, 0.0)).length() < 1e-5);
}

#[test]
fn lookup_inverse_direction() {
    let mut tf = TfTree::new();
    tf.insert_entry(translation_entry("odom", "map", Vec3::new(1.0, 0.0, 0.0)));
    // map_T_odom = +x, so odom_T_map = -x.
    let m = lookup(&tf, "odom", "map").unwrap();
    let p = m.transform_point3(Vec3::ZERO);
    assert!((p - Vec3::new(-1.0, 0.0, 0.0)).length() < 1e-5);
}

#[test]
fn lookup_disconnected_returns_none() {
    let mut tf = TfTree::new();
    tf.insert_entry(translation_entry("a", "root_a", Vec3::ZERO));
    tf.insert_entry(translation_entry("b", "root_b", Vec3::ZERO));
    assert!(lookup(&tf, "a", "b").is_none());
}

#[test]
fn update_overwrites() {
    let mut tf = TfTree::new();
    tf.insert_entry(translation_entry("c", "p", Vec3::new(1.0, 0.0, 0.0)));
    // A new entry for c replaces the old one.
    tf.insert_entry(translation_entry("c", "p", Vec3::new(5.0, 0.0, 0.0)));
    let m = lookup(&tf, "p", "c").unwrap();
    let p = m.transform_point3(Vec3::ZERO);
    assert!((p - Vec3::new(5.0, 0.0, 0.0)).length() < 1e-5);
    assert_eq!(tf.frame_count(), 1);
}

#[test]
fn lookup_at_interpolates_translation_midpoint() {
    let mut tf = TfTree::new();
    let mut e = TransformEntry::from_sample(
        "base",
        "map",
        sample(1_000, Quat::IDENTITY, Vec3::new(0.0, 0.0, 0.0)),
    );
    push_sample(&mut e.history, sample(3_000, Quat::IDENTITY, Vec3::new(2.0, 0.0, 0.0)));
    e.stamp_ns = e.history.last().unwrap().stamp_ns;
    tf.insert_entry(e);
    // Halfway in time gives halfway in space.
    let m = lookup_at(&tf, "map", "base", 2_000).unwrap();
    let p = m.transform_point3(Vec3::ZERO);
    assert!((p - Vec3::new(1.0, 0.0, 0.0)).length() < 1e-5, "got {p:?}");
}

#[test]
fn lookup_at_clamps_outside_range() {
    let mut tf = TfTree::new();
    let mut e = TransformEntry::from_sample(
        "base",
        "map",
        sample(1_000, Quat::IDENTITY, Vec3::new(0.0, 0.0, 0.0)),
    );
    push_sample(&mut e.history, sample(3_000, Quat::IDENTITY, Vec3::new(2.0, 0.0, 0.0)));
    e.stamp_ns = e.history.last().unwrap().stamp_ns;
    tf.insert_entry(e);
    // Before the first sample clamps to it; after the last clamps to it.
    let before = lookup_at(&tf, "map", "base", 0).unwrap();
    assert!(before.transform_point3(Vec3::ZERO).length() < 1e-5);
    let after = lookup_at(&tf, "map", "base", 9_999).unwrap();
    let p = after.transform_point3(Vec3::ZERO);
    assert!((p - Vec3::new(2.0, 0.0, 0.0)).length() < 1e-5);
}

#[test]
fn lookup_at_slerps_rotation_midpoint() {
    let mut tf = TfTree::new();
    let q0 = Quat::IDENTITY;
    let q1 = Quat::from_rotation_z(std::f32::consts::FRAC_PI_2);
    let mut e = TransformEntry::from_sample("base", "map", sample(0, q0, Vec3::ZERO));
    push_sample(&mut e.history, sample(2_000, q1, Vec3::ZERO));
    e.stamp_ns = e.history.last().unwrap().stamp_ns;
    tf.insert_entry(e);
    // The midpoint of slerp(0°, 90°) is 45° about Z.
    let m = lookup_at(&tf, "map", "base", 1_000).unwrap();
    let p = m.transform_point3(Vec3::new(1.0, 0.0, 0.0));
    let expected = Vec3::new(
        std::f32::consts::FRAC_1_SQRT_2,
        std::f32::consts::FRAC_1_SQRT_2,
        0.0,
    );
    assert!((p - expected).length() < 1e-4, "got {p:?}");
}

#[test]
fn push_sample_bounds_history() {
    let mut h = Vec::new();
    for i in 0..(MAX_SAMPLES as i64 + 50) {
        push_sample(&mut h, sample(i, Quat::IDENTITY, Vec3::ZERO));
    }
    assert_eq!(h.len(), MAX_SAMPLES);
    // The oldest retained sample is the most recent MAX_SAMPLES.
    assert_eq!(h.first().unwrap().stamp_ns, 50);
    assert_eq!(h.last().unwrap().stamp_ns, MAX_SAMPLES as i64 + 49);
}

#[test]
fn push_sample_orders_out_of_order_arrival() {
    let mut h = Vec::new();
    push_sample(&mut h, sample(10, Quat::IDENTITY, Vec3::ZERO));
    push_sample(&mut h, sample(30, Quat::IDENTITY, Vec3::ZERO));
    push_sample(&mut h, sample(20, Quat::IDENTITY, Vec3::ZERO));
    let stamps: Vec<i64> = h.iter().map(|s| s.stamp_ns).collect();
    assert_eq!(stamps, vec![10, 20, 30]);
}

#[test]
fn push_sample_equal_stamps_keep_arrival_order() {
    let mut h = Vec::new();
    push_sample(&mut h, sample(5, Quat::IDENTITY, Vec3::X));
    push_sample(&mut h, sample(5, Quat::IDENTITY, Vec3::Y));
    push_sample(&mut h, sample(1, Quat::IDENTITY, Vec3::Z));
    let trans: Vec<Vec3> = h.iter().map(|s| s.value.1).collect();
    assert_eq!(trans, vec![Vec3::Z, Vec3::X, Vec3::Y]);
}

#[test]
fn bracket_cases() {
    let h = vec![
        sample(10, Quat::IDENTITY, Vec3::ZERO),
        sample(20, Quat::IDENTITY, Vec3::ZERO),
        sample(30, Quat::IDENTITY, Vec3::ZERO),
    ];
    assert!(bracket::<Pose>(&Vec::new(), 5).is_none());
    assert!(matches!(bracket(&h, 10), Some(Bracket::At(0))));
    assert!(matches!(bracket(&h, 5), Some(Bracket::At(0))));
    assert!(matches!(bracket(&h, 30), Some(Bracket::At(2))));
    assert!(matches!(bracket(&h, 99), Some(Bracket::At(2))));
    assert!(matches!(bracket(&h, 15), Some(Bracket::Between(0))));
    assert!(matches!(bracket(&h, 20), Some(Bracket::Between(1))));
    assert!(matches!(bracket(&h, 29), Some(Bracket::Between(1))));
}

#[test]
fn apply_appends_or_replaces_history() {
    let mut tf = TfTree::new();
    tf.apply("base", "odom", sample(10, Quat::IDENTITY, Vec3::X));
    tf.apply("base", "odom", sample(20, Quat::IDENTITY, Vec3::Y));
    let i = tf.find("base").unwrap();
    assert_eq!(tf.frames[i].history.len(), 2);
    assert_eq!(tf.frames[i].stamp_ns, 20);
    // Re-parenting drops the stale history.
    tf.apply("base", "map", sample(30, Quat::IDENTITY, Vec3::Z));
    let i = tf.find("base").unwrap();
    assert_eq!(tf.frames[i].history.len(), 1);
    assert_eq!(tf.frames[i].parent, "map");
    assert_eq!(tf.frame_count(), 1);
}

#[test]
fn update_applies_a_message_in_order() {
    let mut tf = TfTree::new();
    tf.update(vec![
        TfUpdate { child: "odom".into(), parent: "map".into(), sample: sample(1, Quat::IDENTITY, Vec3::X) },
        TfUpdate { child: "base".into(), parent: "odom".into(), sample: sample(1, Quat::IDENTITY, Vec3::Y) },
        TfUpdate { child: "odom".into(), parent: "map".into(), sample: sample(2, Quat::IDENTITY, Vec3::Z) },
    ]);
    assert_eq!(tf.frame_count(), 2);
    let m = lookup(&tf, "map", "base").unwrap();
    let p = m.transform_point3(Vec3::ZERO);
    assert!((p - Vec3::new(0.0, 1.0, 1.0)).length() < 1e-5);
}

#[test]
fn root_of_and_diagnose() {
    let mut tf = TfTree::new();
    tf.insert_entry(translation_entry("odom", "map", Vec3::X));
    tf.insert_entry(translation_entry("base", "odom", Vec3::Y));
    tf.insert_entry(translation_entry("laser", "sensor_root", Vec3::Z));
    assert_eq!(tf.root_of("base").as_deref(), Some("map"));
    assert_eq!(tf.root_of("map").as_deref(), Some("map"));
    assert!(tf.root_of("nowhere").is_none());
    assert!(matches!(tf.diagnose("x", "y"), Diagnosis::NeitherPresent { frames: 3 }));
    assert!(matches!(tf.diagnose("map", "y"), Diagnosis::SourceMissing));
    assert!(matches!(tf.diagnose("y", "base"), Diagnosis::TargetMissing));
    match tf.diagnose("map", "base") {
        Diagnosis::CommonRoot { root } => assert_eq!(root, "map"),
        _ => panic!("expected a common root"),
    }
    match tf.diagnose("map", "laser") {
        Diagnosis::ChainBreak { source_root, target_root } => {
            assert_eq!(source_root, "sensor_root");
            assert_eq!(target_root, "map");
        }
        _ => panic!("expected a chain break"),
    }
    assert!(tf.mentions("sensor_root"));
    assert!(!tf.mentions("nowhere"));
}

#[test]
fn cycle_gives_no_walk() {
    let mut tf = TfTree::new();
    tf.insert_entry(translation_entry("a", "b", Vec3::X));
    tf.insert_entry(translation_entry("b", "a", Vec3::X));
    assert!(tf.walk_to_root("a").is_none());
    assert!(tf.lookup_plan("a", "b").is_none());
    // A cycling frame is its own root for diagnostics.
    assert_eq!(tf.root_of("a").as_deref(), Some("a"));
}

#[test]
fn lookup_availability_is_symmetric_and_follows_links() {
    let mut tf = TfTree::new();
    tf.apply("odom", "map", sample(0, Quat::IDENTITY, Vec3::X));
    tf.apply("base", "odom", sample(0, Quat::IDENTITY, Vec3::X));
    for (a, b) in [("map", "base"), ("odom", "base"), ("map", "odom")] {
        assert!(tf.lookup_plan(a, b).is_some());
        assert!(tf.lookup_plan(b, a).is_some());
    }
    match tf.walk_to_root("base").unwrap() {
        (hops, root) => {
            assert_eq!(root, "map");
            assert_eq!(hops.len(), 2);
        }
    }
}
