use fastviz::buckets::{group_by_key, ns_buckets, topic_buckets};
use fastviz::config::UiGroup;
use fastviz::discovery::TopicKind;
use fastviz::graph::{SceneEntity, SceneGraph, StyleOverride};
use fastviz::ids::{EntityId, ROS_ID_MARKER_BASE, TF_FRAME_BASE, URDF_LINK_BASE};
use fastviz::nstree::NsNode;
use fastviz::panel::{
    assign_groups, bulk_state, first_token_of, follow_frames, group_for, groups_for_save, is_marker_entity,
    list_contains, members_of, parse_marker_label, set_bulk_visible, sorted_entity_ids,
    template_for, toggle_bulk, topic_for_entity, BulkVis, UiGroupView, TEMPLATE_BOOL,
    TEMPLATE_POSE_STAMPED,
};
use fastviz::ui_state::{
    EditPopupState, EntityEditState, GoalToolState, PoseEstimateToolState, SaveConfigState,
    SelectionState, toggle_goal_tool, toggle_pose_tool,
};

type Graph = SceneGraph<u8, u8, u8, u8>;

fn keep(p: u8, _o: StyleOverride<u8, u8>) -> u8 {
    p
}

fn labelled(id: u64, label: &str) -> SceneEntity<u8, u8> {
    SceneEntity::new(EntityId(id), 0, 0).with_label(label)
}

fn strings(v: &[&str]) -> Vec<String> {
    v.iter().map(|s| s.to_string()).collect()
}

#[test]
fn marker_labels_split_into_topic_ns_and_id() {
    assert_eq!(
        parse_marker_label("/viz [arm/12]"),
        Some(("/viz".to_string(), Some("arm".to_string()), "12".to_string()))
    );
    assert_eq!(parse_marker_label("/viz [7]"), Some(("/viz".to_string(), None, "7".to_string())));
    assert_eq!(parse_marker_label("/viz 7"), None);
    assert_eq!(parse_marker_label("/viz [7"), None);
}

#[test]
fn topic_of_entity_is_first_label_token() {
    assert_eq!(topic_for_entity(EntityId(2300), Some("/scan")), Some("/scan".to_string()));
    assert_eq!(topic_for_entity(EntityId(ROS_ID_MARKER_BASE), Some("/viz [ns/3]")), Some("/viz".to_string()));
    assert_eq!(topic_for_entity(EntityId(TF_FRAME_BASE + 4), Some("tf: odom")), None);
    assert_eq!(topic_for_entity(EntityId(URDF_LINK_BASE), Some("base_link")), None);
    assert_eq!(topic_for_entity(EntityId(5), None), None);
    assert_eq!(topic_for_entity(EntityId(5), Some("")), None);
    assert_eq!(topic_for_entity(EntityId(5), Some("   ")), None);
    assert_eq!(topic_for_entity(EntityId(5), Some("  /odom  extra")), Some("/odom".to_string()));
    assert_eq!(first_token_of("  /map [odom]"), Some("/map".to_string()));
    assert_eq!(first_token_of(" \t"), None);
    assert!(is_marker_entity(EntityId(ROS_ID_MARKER_BASE)));
    assert!(!is_marker_entity(EntityId(ROS_ID_MARKER_BASE - 1)));
}

fn group(name: &str, topics: &[&str], urdf: bool, tf: bool, collapsed: bool) -> UiGroup {
    UiGroup { name: name.to_string(), topics: strings(topics), urdf, tf, collapsed }
}

#[test]
fn groups_get_a_default_tf_group_and_first_match_wins() {
    let cfg = vec![group("Sensors", &["/scan", "/points"], false, false, false), group("Robot", &[], true, false, true)];
    let views = UiGroupView::from_config(&cfg);
    assert_eq!(views.len(), 3);
    assert_eq!(views[2].name, "TF Frames");
    assert!(views[2].tf && !views[2].open);
    assert!(views[0].open && !views[1].open);
    assert_eq!(group_for(EntityId(2300), Some("/scan"), &views), Some(0));
    assert_eq!(group_for(EntityId(URDF_LINK_BASE + 1), Some("link"), &views), Some(1));
    assert_eq!(group_for(EntityId(TF_FRAME_BASE), Some("tf: map"), &views), Some(2));
    assert_eq!(group_for(EntityId(1000), Some("/map [map]"), &views), None);

    let with_tf = vec![group("All", &[], false, true, false)];
    assert_eq!(UiGroupView::from_config(&with_tf).len(), 1);

    let saved = groups_for_save(&views);
    assert_eq!(saved.len(), 3);
    assert!(saved[1].collapsed && saved[1].urdf);
    assert_eq!(saved[0].topics, vec!["/scan", "/points"]);
    assert!(list_contains(&saved[0].topics, "/points"));
    assert!(!list_contains(&saved[0].topics, "/map"));
}

#[test]
fn bulk_visibility_toggles_buckets() {
    let mut g: Graph = SceneGraph::new("map");
    g.upsert(labelled(3, "/c"), keep);
    g.upsert(labelled(1, "/a"), keep);
    g.upsert(labelled(2, "/b"), keep);
    assert_eq!(sorted_entity_ids(&g), vec![EntityId(1), EntityId(2), EntityId(3)]);
    let bucket = vec![EntityId(1), EntityId(2), EntityId(99)];
    assert_eq!(bulk_state(&g, &bucket), BulkVis::All);
    g.set_visible(EntityId(2), false);
    assert_eq!(bulk_state(&g, &bucket), BulkVis::Mixed);
    // Mixed turns everything on.
    assert!(toggle_bulk(&mut g, &bucket));
    assert_eq!(bulk_state(&g, &bucket), BulkVis::All);
    assert!(!toggle_bulk(&mut g, &bucket));
    assert_eq!(bulk_state(&g, &bucket), BulkVis::NoneVisible);
    assert!(g.entities[&3].visible);
    set_bulk_visible(&mut g, &vec![EntityId(3)], false);
    assert!(!g.entities[&3].visible);
    assert_eq!(bulk_state(&g, &vec![EntityId(42)]), BulkVis::NoneVisible);
}

#[test]
fn entities_are_assigned_to_groups() {
    let mut g: Graph = SceneGraph::new("map");
    g.upsert(labelled(2300, "/scan"), keep);
    g.upsert(labelled(1000, "/map [map]"), keep);
    g.upsert(labelled(TF_FRAME_BASE, "tf: map"), keep);
    let views = UiGroupView::from_config(&vec![group("Sensors", &["/scan"], false, false, false)]);
    let ids = sorted_entity_ids(&g);
    let assigned = assign_groups(&g, &ids, &views);
    assert_eq!(assigned, vec![None, Some(0), Some(1)]);
    assert_eq!(members_of(&ids, &assigned, None), vec![EntityId(1000)]);
    assert_eq!(members_of(&ids, &assigned, Some(1)), vec![EntityId(TF_FRAME_BASE)]);
}

#[test]
fn publish_templates() {
    assert_eq!(template_for("geometry_msgs/msg/PoseStamped"), TEMPLATE_POSE_STAMPED);
    assert_eq!(template_for("std_msgs/msg/Bool"), TEMPLATE_BOOL);
    assert_eq!(template_for("sensor_msgs/msg/Image"), "{}");
}

#[test]
fn namespace_tree_lists_inactive_topics_in_order() {
    let mut t = NsNode::new();
    t.insert("/robot/scan", TopicKind::Scan);
    t.insert("/robot/arm/pose", TopicKind::Pose);
    t.insert("/goal_pose", TopicKind::Pose);
    t.insert("/alpha/path", TopicKind::Path);
    assert_eq!(t.leaf_count(), 4);
    let mut out = Vec::new();
    t.collect_leaves(&strings(&["/robot/scan"]), &mut out);
    let names: Vec<&str> = out.iter().map(|(n, _)| n.as_str()).collect();
    assert_eq!(names, vec!["/goal_pose", "/alpha/path", "/robot/arm/pose"]);
    assert_eq!(t.children.iter().map(|(n, _)| n.as_str()).collect::<Vec<_>>(), vec!["alpha", "robot"]);
}

#[test]
fn panel_state_defaults() {
    assert_eq!(GoalToolState::default().topic, "/goal_pose");
    assert_eq!(PoseEstimateToolState::default().topic, "/initialpose");
    assert!(!SaveConfigState::default().open);
    assert!(SelectionState::default().selected.is_none());
    assert!(EditPopupState::default().target.is_none());
}

#[test]
fn style_editor_canonicalises_colors() {
    let mut e = EntityEditState::default();
    assert_eq!(e.buffer(EntityId(7), "#FFFFFF"), "#FFFFFF");
    e.set_buffer(EntityId(7), "f0a");
    assert_eq!(e.buffer(EntityId(7), "#FFFFFF"), "f0a");
    assert_eq!(e.commit(EntityId(7), "f0a", "#FFFFFF"), Some((255, 0, 170)));
    assert_eq!(e.hex[&7], "#FF00AA");
    assert_eq!(e.commit(EntityId(7), "nope", "#123456"), None);
    assert_eq!(e.hex[&7], "#123456");
}

#[test]
fn follow_frames_lists_tf_axes_sorted_once() {
    let mut g: Graph = SceneGraph::new("map");
    g.upsert(labelled(TF_FRAME_BASE, "tf: odom"), keep);
    g.upsert(labelled(TF_FRAME_BASE + 1, "tf: base_link"), keep);
    g.upsert(labelled(TF_FRAME_BASE + 2, "tf: odom"), keep);
    g.upsert(labelled(2300, "/scan"), keep);
    g.upsert(labelled(7, "tf:odom"), keep);
    g.upsert(SceneEntity::new(EntityId(8), 0, 0), keep);
    assert_eq!(follow_frames(&g), vec!["base_link", "odom"]);
    let mut g2: Graph = SceneGraph::new("map");
    g2.upsert(labelled(1, "tf: Zeta"), keep);
    g2.upsert(labelled(2, "tf: alpha"), keep);
    g2.upsert(labelled(3, "tf: "), keep);
    assert_eq!(follow_frames(&g2), vec!["", "Zeta", "alpha"]);
}

#[test]
fn viewport_tools_are_exclusive() {
    let mut goal = GoalToolState::default();
    let mut pose = PoseEstimateToolState::default();
    toggle_goal_tool(&mut goal, &mut pose);
    assert!(goal.armed && !pose.armed);
    toggle_pose_tool(&mut goal, &mut pose);
    assert!(!goal.armed && pose.armed);
    toggle_pose_tool(&mut goal, &mut pose);
    assert!(!goal.armed && !pose.armed);
    toggle_goal_tool(&mut goal, &mut pose);
    toggle_goal_tool(&mut goal, &mut pose);
    assert!(!goal.armed && !pose.armed);
    assert_eq!(goal.topic, "/goal_pose");
    assert_eq!(pose.topic, "/initialpose");
}

fn bucket_view(b: &[(String, Vec<EntityId>)]) -> Vec<(String, Vec<u64>)> {
    b.iter().map(|(k, ids)| (k.clone(), ids.iter().map(|e| e.0).collect())).collect()
}

#[test]
fn group_members_bucket_by_topic_in_name_order() {
    let mut g: Graph = SceneGraph::new("map");
    let m = ROS_ID_MARKER_BASE;
    g.upsert(labelled(2300, "/scan"), keep);
    g.upsert(labelled(m, "/viz [arm/1]"), keep);
    g.upsert(labelled(m + 1, "/viz [2]"), keep);
    g.upsert(labelled(URDF_LINK_BASE, "base_link"), keep);
    g.upsert(labelled(1000, "/map [map]"), keep);
    g.upsert(SceneEntity::new(EntityId(9), 0, 0), keep);
    let members = vec![EntityId(2300), EntityId(m), EntityId(URDF_LINK_BASE), EntityId(m + 1), EntityId(1000), EntityId(9)];
    let (buckets, rest) = topic_buckets(&g, &members);
    assert_eq!(
        bucket_view(&buckets),
        vec![
            ("/map".to_string(), vec![1000]),
            ("/scan".to_string(), vec![2300]),
            ("/viz".to_string(), vec![m, m + 1]),
        ]
    );
    assert_eq!(rest, vec![EntityId(URDF_LINK_BASE), EntityId(9)]);

    let ns = ns_buckets(&g, &vec![EntityId(m), EntityId(m + 1)]).unwrap();
    assert_eq!(bucket_view(&ns), vec![("".to_string(), vec![m + 1]), ("arm".to_string(), vec![m])]);
    // Only the empty namespace, or no marker at all: listed flat.
    assert!(ns_buckets(&g, &vec![EntityId(m + 1)]).is_none());
    assert!(ns_buckets(&g, &vec![EntityId(2300)]).is_none());
}

#[test]
fn group_by_key_keeps_member_order_within_buckets() {
    let ids: Vec<EntityId> = (1..=6).map(EntityId).collect();
    let keys = vec![
        Some("b".to_string()),
        None,
        Some("a".to_string()),
        Some("b".to_string()),
        None,
        Some("a".to_string()),
    ];
    let (b, rest) = group_by_key(&ids, &keys);
    assert_eq!(bucket_view(&b), vec![("a".to_string(), vec![3, 6]), ("b".to_string(), vec![1, 4])]);
    assert_eq!(rest, vec![EntityId(2), EntityId(5)]);
}

#[test]
fn every_bundled_template_is_a_json_object() {
    let types = [
        "geometry_msgs/msg/PoseStamped",
        "geometry_msgs/msg/PoseWithCovarianceStamped",
        "geometry_msgs/msg/PointStamped",
        "geometry_msgs/msg/Twist",
        "geometry_msgs/msg/TwistStamped",
        "std_msgs/msg/String",
        "std_msgs/msg/Bool",
        "std_msgs/msg/Int32",
        "std_msgs/msg/Float64",
        "sensor_msgs/msg/Image",
        "",
    ];
    for (i, ty) in types.iter().enumerate() {
        let t = template_for(ty);
        assert_eq!(t != "{}", i < 9, "type {ty:?}");
        let v: serde_json::Value = serde_json::from_str(t).unwrap();
        assert!(v.is_object(), "type {ty:?}");
    }
}

#[test]
fn namespace_tree_counts_every_listing() {
    let mut t = NsNode::new();
    let topics = ["/a/b/c", "/a/b/c", "/a/d", "plain", "//x", "/a/"];
    for (n, topic) in topics.iter().enumerate() {
        t.insert(topic, TopicKind::Marker);
        assert_eq!(t.leaf_count(), n + 1);
    }
}
