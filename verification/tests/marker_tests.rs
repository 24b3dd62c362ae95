use fastviz::panel::parse_marker_label;
use fastviz::ids::{marker_topic_base, EntityId, ROS_ID_MARKER_PER_TOPIC};
use fastviz::marker::{
    marker_label, marker_renders, MarkerInput, TopicState, A_ADD, A_DELETE, A_DELETEALL, T_CUBE,
    T_LINE_LIST, T_MESH_RESOURCE, T_SPHERE, T_TRIANGLE_LIST,
};

fn add(ns: &str, id: i32, kind: i32, hash: u64) -> MarkerInput {
    MarkerInput { ns: ns.to_string(), id, action: A_ADD, kind, point_count: 0, payload_hash: hash }
}

fn act(ns: &str, id: i32, action: i32) -> MarkerInput {
    MarkerInput { ns: ns.to_string(), id, action, kind: T_CUBE, point_count: 0, payload_hash: 0 }
}

fn upserts(plan: &fastviz::marker::MarkerBatchPlan) -> Vec<(usize, u64)> {
    plan.to_upsert.iter().map(|u| (u.index, u.eid.0)).collect()
}

#[test]
fn markers_get_stable_ids_in_their_topic_slab() {
    let base = marker_topic_base(1);
    let mut st = TopicState::new(base);
    let plan = st.plan_batch(&vec![add("a", 1, T_CUBE, 10), add("b", 1, T_SPHERE, 20)]);
    assert_eq!(upserts(&plan), vec![(0, base), (1, base + 1)]);
    assert!(plan.to_remove.is_empty());
    // A changed payload keeps its id.
    let plan = st.plan_batch(&vec![add("a", 1, T_CUBE, 11)]);
    assert_eq!(upserts(&plan), vec![(0, base)]);
    assert_eq!(st.allocate("b", 1), Some(EntityId(base + 1)));
}

#[test]
fn republishing_the_same_payload_is_a_no_op() {
    let mut st = TopicState::new(marker_topic_base(0));
    st.plan_batch(&vec![add("", 3, T_CUBE, 99)]);
    let plan = st.plan_batch(&vec![add("", 3, T_CUBE, 99)]);
    assert!(plan.to_upsert.is_empty());
    assert!(plan.to_remove.is_empty());
    assert_eq!(st.last_hash("", 3), Some(99));
}

#[test]
fn delete_and_delete_all_remove_entities() {
    let base = marker_topic_base(2);
    let mut st = TopicState::new(base);
    st.plan_batch(&vec![add("a", 1, T_CUBE, 1), add("a", 2, T_CUBE, 2), add("b", 1, T_CUBE, 3)]);
    let plan = st.plan_batch(&vec![act("a", 2, A_DELETE), act("zz", 9, A_DELETE)]);
    assert_eq!(plan.to_remove, vec![EntityId(base + 1)]);
    assert_eq!(st.last_hash("a", 2), None);
    let plan = st.plan_batch(&vec![act("", 0, A_DELETEALL)]);
    let mut removed: Vec<u64> = plan.to_remove.iter().map(|e| e.0).collect();
    removed.sort();
    assert_eq!(removed, vec![base, base + 2]);
    // A marker re-added after deletion gets a fresh slot.
    let plan = st.plan_batch(&vec![add("a", 1, T_CUBE, 1)]);
    assert_eq!(upserts(&plan), vec![(0, base + 3)]);
}

#[test]
fn unsupported_types_are_reported_once() {
    let mut st = TopicState::new(marker_topic_base(0));
    let plan = st.plan_batch(&vec![
        add("", 1, T_LINE_LIST, 1),
        add("", 2, T_LINE_LIST, 2),
        add("", 3, T_MESH_RESOURCE, 3),
        add("", 4, T_TRIANGLE_LIST, 4),
    ]);
    assert_eq!(plan.newly_unsupported, vec![T_LINE_LIST, T_MESH_RESOURCE]);
    // A triangle list with no triangle draws nothing but is a known type.
    assert!(plan.to_upsert.is_empty());
    let plan = st.plan_batch(&vec![add("", 5, T_LINE_LIST, 5)]);
    assert!(plan.newly_unsupported.is_empty());
    assert!(!st.note_unsupported(T_LINE_LIST));
    assert!(st.note_unsupported(12));
}

#[test]
fn renders_by_type() {
    assert!(marker_renders(T_CUBE, 0));
    assert!(!marker_renders(T_LINE_LIST, 10));
    assert!(!marker_renders(T_TRIANGLE_LIST, 2));
    assert!(marker_renders(T_TRIANGLE_LIST, 3));
}

#[test]
fn slab_full_drops_new_markers() {
    let mut st = TopicState::new(marker_topic_base(0));
    st.next_slot = ROS_ID_MARKER_PER_TOPIC - 1;
    let plan = st.plan_batch(&vec![add("", 1, T_CUBE, 1), add("", 2, T_CUBE, 2), add("", 1, T_CUBE, 3)]);
    assert_eq!(upserts(&plan), vec![(0, ROS_ID_MARKER_PER_TOPIC - 1 + marker_topic_base(0)), (2, ROS_ID_MARKER_PER_TOPIC - 1 + marker_topic_base(0))]);
    assert_eq!(plan.slab_full, vec![1]);
}

#[test]
fn marker_labels() {
    assert_eq!(marker_label("/viz", "", 7), "/viz [7]");
    assert_eq!(marker_label("/viz", "arm", -3), "/viz [arm/-3]");
}

#[test]
fn clear_all_returns_every_entity() {
    let base = marker_topic_base(3);
    let mut st = TopicState::new(base);
    assert_eq!(st.allocate("x", 1), Some(EntityId(base)));
    assert_eq!(st.allocate("y", 1), Some(EntityId(base + 1)));
    assert_eq!(st.remove("x", 1), Some(EntityId(base)));
    assert_eq!(st.remove("x", 1), None);
    assert_eq!(st.clear_all(), vec![EntityId(base + 1)]);
    assert!(st.clear_all().is_empty());
}

#[test]
fn marker_labels_parse_back() {
    for (topic, ns, id) in [("/viz", "", 7), ("/a/b", "arm", -12), ("/t", "x y", i32::MAX)] {
        let label = marker_label(topic, ns, id);
        let (t, n, i) = parse_marker_label(&label).unwrap();
        assert_eq!(t, topic);
        assert_eq!(n.unwrap_or_default(), ns);
        assert_eq!(i, id.to_string());
    }
}
