use fastviz::config::RosConfig;
use fastviz::discovery::{
    bootstrap_requests, has_wildcard, kind_for_type, tick_requests, NodeLoop, Registry,
    SpawnRequest, TopicIndex, TopicKind, DISCOVERY_EVERY_N_TICKS, LASER_SCAN_TYPE, MARKER_ARRAY_TYPE,
    MARKER_TYPE, PATH_TYPE, POINT_CLOUD_TYPE, POSE_STAMPED_TYPE,
};

fn strings(v: &[&str]) -> Vec<String> {
    v.iter().map(|s| s.to_string()).collect()
}

fn reqs(v: &[SpawnRequest]) -> Vec<(TopicKind, String)> {
    v.iter().map(|r| (r.kind, r.topic.clone())).collect()
}

#[test]
fn bootstrap_spawns_concrete_topics_in_kind_order() {
    let mut cfg = RosConfig::default();
    cfg.scan_topics = strings(&["/scan_front", "*", "/scan_back"]);
    let (map, r) = bootstrap_requests(&cfg);
    assert!(map);
    assert_eq!(
        reqs(&r),
        vec![
            (TopicKind::Pose, "/goal_pose".to_string()),
            (TopicKind::PoseArray, "/particle_cloud".to_string()),
            (TopicKind::Path, "/plan".to_string()),
            (TopicKind::Scan, "/scan_front".to_string()),
            (TopicKind::Scan, "/scan_back".to_string()),
        ]
    );
    cfg.map_topic = "*".to_string();
    assert!(!bootstrap_requests(&cfg).0);
}

#[test]
fn discovery_only_for_wildcard_kinds() {
    let mut cfg = RosConfig::default();
    let snapshot = vec![
        ("/a".to_string(), strings(&[POSE_STAMPED_TYPE, LASER_SCAN_TYPE])),
        ("/b".to_string(), strings(&["std_msgs/msg/String", PATH_TYPE])),
    ];
    assert!(!has_wildcard(&cfg));
    assert!(tick_requests(&cfg, &snapshot).is_empty());
    cfg.scan_topics = strings(&["*"]);
    cfg.path_topics = strings(&["/plan", "*"]);
    assert!(has_wildcard(&cfg));
    assert_eq!(
        reqs(&tick_requests(&cfg, &snapshot)),
        vec![(TopicKind::Scan, "/a".to_string()), (TopicKind::Path, "/b".to_string())]
    );
}

#[test]
fn message_types_map_to_kinds() {
    assert_eq!(kind_for_type("geometry_msgs/msg/PoseArray"), Some(TopicKind::PoseArray));
    assert_eq!(kind_for_type(PATH_TYPE), Some(TopicKind::Path));
    assert_eq!(kind_for_type("nav_msgs/msg/OccupancyGrid"), None);
}

#[test]
fn registry_never_spawns_a_topic_twice() {
    let mut reg = Registry::new();
    let i = reg.claim(TopicKind::Scan, "/scan").unwrap();
    assert_eq!(i, 0);
    reg.confirm(TopicKind::Scan, "/scan", i);
    assert!(reg.contains(TopicKind::Scan, "/scan"));
    assert!(!reg.contains(TopicKind::Pose, "/scan"));
    assert_eq!(reg.claim(TopicKind::Scan, "/scan"), None);
    // A claim whose spawn failed still uses its index up.
    assert_eq!(reg.claim(TopicKind::Scan, "/other"), Some(1));
    assert_eq!(reg.claim(TopicKind::Scan, "/other"), Some(2));
    assert_eq!(reg.claim(TopicKind::Pose, "/scan"), Some(0));
}

#[test]
fn topic_index_lookup() {
    let mut t = TopicIndex::new();
    assert!(!t.contains("/x"));
    let i = t.take_next();
    t.insert("/x", i);
    assert!(t.contains("/x"));
    assert_eq!(t.take_next(), 1);
}

#[test]
fn node_loop_parses_first_urdf_and_discovers_periodically() {
    let mut cfg = RosConfig::default();
    cfg.urdf_topic = Some("/robot_description".to_string());
    let mut l = NodeLoop::new(&cfg);
    assert!(l.urdf_waiting);
    let a = l.tick(false);
    assert!(!a.parse_urdf && !a.discover);
    let a = l.tick(true);
    assert!(a.parse_urdf);
    assert!(!l.tick(true).parse_urdf);
    let mut discovered = 0;
    for _ in 3..=(2 * DISCOVERY_EVERY_N_TICKS) {
        if l.tick(false).discover {
            discovered += 1;
        }
    }
    assert_eq!(discovered, 2);
    cfg.urdf_path = Some("robot.urdf".to_string());
    assert!(!NodeLoop::new(&cfg).urdf_waiting);
}

#[test]
fn node_loop_counter_wraps() {
    let mut l = NodeLoop { tick_count: u32::MAX, urdf_waiting: false };
    let a = l.tick(false);
    assert_eq!(l.tick_count, 0);
    assert!(a.discover);
}

#[test]
fn wildcard_points_and_markers_are_discovered() {
    let mut cfg = RosConfig::default();
    let snapshot = vec![
        ("/cloud".to_string(), strings(&["sensor_msgs/msg/PointCloud2"])),
        ("/viz".to_string(), strings(&[MARKER_TYPE])),
        ("/viz_array".to_string(), strings(&[MARKER_ARRAY_TYPE])),
    ];
    cfg.point_topics = strings(&["*"]);
    assert!(has_wildcard(&cfg));
    assert_eq!(reqs(&tick_requests(&cfg, &snapshot)), vec![(TopicKind::PointCloud, "/cloud".to_string())]);
    cfg.marker_topics = strings(&["*"]);
    cfg.marker_array_topics = strings(&["/static_markers", "*"]);
    assert_eq!(
        reqs(&tick_requests(&cfg, &snapshot)),
        vec![
            (TopicKind::PointCloud, "/cloud".to_string()),
            (TopicKind::Marker, "/viz".to_string()),
            (TopicKind::MarkerArray, "/viz_array".to_string()),
        ]
    );
    cfg.point_topics = strings(&["/points"]);
    let (_, r) = bootstrap_requests(&cfg);
    let r = reqs(&r);
    assert_eq!(r[r.len() - 2..].to_vec(), vec![
        (TopicKind::PointCloud, "/points".to_string()),
        (TopicKind::MarkerArray, "/static_markers".to_string()),
    ]);
    assert_eq!(kind_for_type(POINT_CLOUD_TYPE), Some(TopicKind::PointCloud));
    let mut reg = Registry::new();
    assert_eq!(reg.claim(TopicKind::MarkerArray, "/viz_array"), Some(0));
    reg.confirm(TopicKind::MarkerArray, "/viz_array", 0);
    assert!(reg.contains(TopicKind::MarkerArray, "/viz_array"));
    assert!(!reg.contains(TopicKind::Marker, "/viz_array"));
}
