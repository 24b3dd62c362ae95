use fastviz::graph::{SceneEntity, SceneGraph, StyleOverride};
use fastviz::ids::{EntityId, TF_FRAME_BASE};
use fastviz::tf::{LookupPlan, TfSample, TfTree, TransformEntry};
use fastviz::tfviz::{frame_label, frame_names, Binding, TfAxesRegistry, TfRegistry};
use glam::{Mat4, Quat, Vec3, Vec4};

type Pose = (Quat, Vec3);

#[derive(Clone, Debug, PartialEq)]
enum Prim {
    Frame { axis_length: f32, label: String },
    Points(Vec<Vec3>),
}

type Graph = SceneGraph<Prim, Mat4, [f32; 4], f32>;

const ROS_TO_WORLD: Mat4 = Mat4::from_cols(
    Vec4::new(1.0, 0.0, 0.0, 0.0),
    Vec4::new(0.0, 0.0, -1.0, 0.0),
    Vec4::new(0.0, 1.0, 0.0, 0.0),
    Vec4::new(0.0, 0.0, 0.0, 1.0),
);

fn keep(p: Prim, _o: StyleOverride<[f32; 4], f32>) -> Prim {
    p
}

fn translation_entry(child: &str, parent: &str, t: Vec3) -> TransformEntry<Pose> {
    TransformEntry::from_sample(child, parent, TfSample { stamp_ns: 0, value: (Quat::IDENTITY, t) })
}

fn compose(tf: &TfTree<Pose>, hops: &[usize]) -> Mat4 {
    let mut accum = Mat4::IDENTITY;
    for &i in hops {
        let s = tf.frames[i].history.last().unwrap();
        accum = Mat4::from_rotation_translation(s.value.0, s.value.1) * accum;
    }
    accum
}

fn lookup(tf: &TfTree<Pose>, target: &str, source: &str) -> Option<Mat4> {
    match tf.lookup_plan(target, source)? {
        LookupPlan::Identity => Some(Mat4::IDENTITY),
        LookupPlan::Chains { source_hops, target_hops } => {
            Some(compose(tf, &target_hops).inverse() * compose(tf, &source_hops))
        }
    }
}

fn refresh_axes(reg: &mut TfAxesRegistry, tf: &TfTree<Pose>, reference: &str, scene: &mut Graph) {
    let world = |name: &String| -> Option<Mat4> {
        if name == reference {
            Some(ROS_TO_WORLD)
        } else {
            lookup(tf, reference, name).map(|m| ROS_TO_WORLD * m)
        }
    };
    let make = |name: &String| Prim::Frame { axis_length: 0.2, label: name.clone() };
    reg.refresh(tf, reference, scene, world, make, keep);
}

fn frame_entities(scene: &Graph) -> Vec<&SceneEntity<Prim, Mat4>> {
    scene.entities.values().filter(|e| matches!(e.primitive, Prim::Frame { .. })).collect()
}

#[test]
fn refresh_materialises_one_frame_entity_per_known_frame() {
    let mut scene: Graph = SceneGraph::new("map");
    let mut tf: TfTree<Pose> = TfTree::new();
    tf.insert_entry(translation_entry("odom", "map", Vec3::new(1.0, 0.0, 0.0)));
    tf.insert_entry(translation_entry("base", "odom", Vec3::new(0.0, 2.0, 0.0)));
    let mut reg = TfAxesRegistry::new();
    refresh_axes(&mut reg, &tf, "map", &mut scene);

    let frames = frame_entities(&scene);
    assert_eq!(frames.len(), 3);
    for e in frames {
        assert!(e.id.0 >= TF_FRAME_BASE);
        assert!(e.visible);
        assert!(e.label.as_deref().unwrap().starts_with("tf: "));
    }
}

#[test]
fn refresh_preserves_user_visibility_toggle() {
    let mut scene: Graph = SceneGraph::new("map");
    let mut tf: TfTree<Pose> = TfTree::new();
    tf.insert_entry(translation_entry("odom", "map", Vec3::new(1.0, 0.0, 0.0)));
    let mut reg = TfAxesRegistry::new();
    refresh_axes(&mut reg, &tf, "map", &mut scene);

    let odom_id = scene
        .entities
        .values()
        .find(|e| e.label.as_deref() == Some("tf: odom"))
        .map(|e| e.id)
        .unwrap();
    scene.set_visible(odom_id, false);

    tf.insert_entry(translation_entry("odom", "map", Vec3::new(5.0, 0.0, 0.0)));
    refresh_axes(&mut reg, &tf, "map", &mut scene);
    assert!(!scene.entities[&odom_id.0].visible);
}

#[test]
fn refresh_reuses_entity_id_for_known_frame() {
    let mut scene: Graph = SceneGraph::new("map");
    let mut tf: TfTree<Pose> = TfTree::new();
    tf.insert_entry(translation_entry("odom", "map", Vec3::new(1.0, 0.0, 0.0)));
    let mut reg = TfAxesRegistry::new();
    refresh_axes(&mut reg, &tf, "map", &mut scene);
    let count_after_first = scene.entities.len();
    refresh_axes(&mut reg, &tf, "map", &mut scene);
    assert_eq!(scene.entities.len(), count_after_first);
}

#[test]
fn frame_axes_move_with_tf_and_skip_unreachable_frames() {
    let mut scene: Graph = SceneGraph::new("map");
    let mut tf: TfTree<Pose> = TfTree::new();
    tf.insert_entry(translation_entry("odom", "map", Vec3::new(1.0, 0.0, 0.0)));
    tf.insert_entry(translation_entry("island", "elsewhere", Vec3::ZERO));
    let mut reg = TfAxesRegistry::new();
    refresh_axes(&mut reg, &tf, "map", &mut scene);
    // map and odom are placed; island and elsewhere are not reachable from map.
    assert_eq!(frame_entities(&scene).len(), 2);

    let odom_id = scene.entities.values().find(|e| e.label.as_deref() == Some("tf: odom")).unwrap().id;
    let rev = scene.entities[&odom_id.0].revision;
    tf.insert_entry(translation_entry("odom", "map", Vec3::new(3.0, 0.0, 0.0)));
    refresh_axes(&mut reg, &tf, "map", &mut scene);
    let e = &scene.entities[&odom_id.0];
    let p = e.transform.transform_point3(Vec3::ZERO);
    assert!((p - Vec3::new(3.0, 0.0, 0.0)).length() < 1e-5);
    // Only the transform moved: the payload revision is unchanged.
    assert_eq!(e.revision, rev);
}

#[test]
fn frame_ids_are_allocated_in_encounter_order_and_kept() {
    let mut reg = TfAxesRegistry::new();
    let (a, new_a) = reg.id_for("map");
    let (b, new_b) = reg.id_for("odom");
    let (a2, new_a2) = reg.id_for("map");
    assert_eq!(a, EntityId(TF_FRAME_BASE));
    assert_eq!(b, EntityId(TF_FRAME_BASE + 1));
    assert_eq!(a2, a);
    assert!(new_a && new_b && !new_a2);
    assert_eq!(frame_label("odom"), "tf: odom");
}

#[test]
fn frame_names_lists_children_parents_and_reference_once() {
    let mut tf: TfTree<Pose> = TfTree::new();
    tf.insert_entry(translation_entry("odom", "map", Vec3::ZERO));
    tf.insert_entry(translation_entry("base", "odom", Vec3::ZERO));
    let mut names = frame_names(&tf, "world");
    names.sort();
    assert_eq!(names, vec!["base", "map", "odom", "world"]);
    let mut names = frame_names(&tf, "map");
    names.sort();
    assert_eq!(names, vec!["base", "map", "odom"]);
}

fn points_entity(id: u64) -> SceneEntity<Prim, Mat4> {
    SceneEntity::new(EntityId(id), Prim::Points(vec![Vec3::ZERO]), Mat4::IDENTITY)
}

fn refresh_bound(reg: &TfRegistry<Mat4>, tf: &TfTree<Pose>, reference: &str, scene: &mut Graph) {
    let world = |b: &Binding<Mat4>| -> Option<Mat4> {
        let ref_t_frame = if b.frame == reference { Some(Mat4::IDENTITY) } else { lookup(tf, reference, &b.frame) };
        ref_t_frame.map(|m| ROS_TO_WORLD * m * b.local)
    };
    reg.refresh(scene, world);
}

#[test]
fn refresh_updates_transform_once_tf_arrives() {
    let mut scene: Graph = SceneGraph::new("odom");
    scene.upsert(points_entity(42), keep);
    let mut tf: TfTree<Pose> = TfTree::new();
    let mut reg: TfRegistry<Mat4> = TfRegistry::new();
    reg.register(EntityId(42), "laser", Mat4::IDENTITY);

    refresh_bound(&reg, &tf, "odom", &mut scene);
    assert_eq!(scene.entities[&42].transform, Mat4::IDENTITY);

    tf.insert_entry(translation_entry("laser", "odom", Vec3::new(1.0, 0.0, 0.0)));
    refresh_bound(&reg, &tf, "odom", &mut scene);
    let p = scene.entities[&42].transform.transform_point3(Vec3::ZERO);
    assert!((p - Vec3::new(1.0, 0.0, 0.0)).length() < 1e-5);
}

#[test]
fn refresh_keeps_prior_transform_when_lookup_fails() {
    let mut scene: Graph = SceneGraph::new("odom");
    scene.upsert(points_entity(7), keep);
    let placeholder = Mat4::from_translation(Vec3::new(5.0, 0.0, 0.0));
    scene.update_transform(EntityId(7), placeholder);
    let tf: TfTree<Pose> = TfTree::new();
    let mut reg: TfRegistry<Mat4> = TfRegistry::new();
    reg.register(EntityId(7), "disconnected_frame", Mat4::IDENTITY);
    refresh_bound(&reg, &tf, "odom", &mut scene);
    assert_eq!(scene.entities[&7].transform, placeholder);
}

#[test]
fn unregistered_entities_are_left_alone() {
    let mut scene: Graph = SceneGraph::new("odom");
    scene.upsert(points_entity(1), keep);
    scene.upsert(points_entity(2), keep);
    let mut reg: TfRegistry<Mat4> = TfRegistry::new();
    reg.register(EntityId(1), "odom", Mat4::from_translation(Vec3::new(0.0, 0.0, 1.0)));
    reg.register(EntityId(2), "odom", Mat4::IDENTITY);
    reg.unregister(EntityId(2));
    reg.unregister(EntityId(2));
    assert_eq!(reg.entries.len(), 1);
    let tf: TfTree<Pose> = TfTree::new();
    refresh_bound(&reg, &tf, "odom", &mut scene);
    let p = scene.entities[&1].transform.transform_point3(Vec3::ZERO);
    // ROS z maps to world y.
    assert!((p - Vec3::new(0.0, 1.0, 0.0)).length() < 1e-5);
    assert_eq!(scene.entities[&2].transform, Mat4::IDENTITY);
}
