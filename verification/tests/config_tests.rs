use fastviz::config::{
    qos_for, DurabilityPolicy, HistoryPolicy, QosOverride, QosProfile, RawConfig, RawMap,
    RawPoints, RawTf, RawTopics, RawUi, RawUiGroup, RawUrdf, ReliabilityPolicy, RosConfig,
};

fn empty_raw() -> RawConfig {
    RawConfig {
        node_name: None,
        namespace: None,
        reference_frame: None,
        map: None,
        costmaps: None,
        poses: None,
        pose_arrays: None,
        paths: None,
        scans: None,
        points: None,
        markers: None,
        marker_arrays: None,
        urdf: None,
        tf: None,
        ui: None,
    }
}

fn strings(v: &[&str]) -> Vec<String> {
    v.iter().map(|s| s.to_string()).collect()
}

fn topics(v: &[&str]) -> RawTopics {
    RawTopics { topics: strings(v), qos: Vec::new() }
}

fn qos(reliability: Option<&str>, durability: Option<&str>, depth: Option<usize>) -> QosOverride {
    QosOverride {
        reliability: reliability.map(|s| s.to_string()),
        durability: durability.map(|s| s.to_string()),
        depth,
    }
}

#[test]
fn empty_toml_yields_defaults() {
    let cfg = empty_raw().into_runtime();
    let d = RosConfig::default();
    assert_eq!(cfg.map_topic, d.map_topic);
    assert_eq!(cfg.pose_topics, d.pose_topics);
    assert_eq!(cfg.scan_topics, d.scan_topics);
}

#[test]
fn partial_overrides_apply_only_to_given_fields() {
    let mut raw = empty_raw();
    raw.reference_frame = Some("odom".to_string());
    raw.scans = Some(topics(&["/scan_front", "/scan_back"]));
    let cfg = raw.into_runtime();
    assert_eq!(cfg.reference_frame, "odom");
    assert_eq!(cfg.scan_topics, vec!["/scan_front", "/scan_back"]);
    assert_eq!(cfg.map_topic, "/map");
}

#[test]
fn full_schema_round_trips() {
    let mut raw = empty_raw();
    raw.node_name = Some("viz".to_string());
    raw.namespace = Some("/ns".to_string());
    raw.reference_frame = Some("map".to_string());
    raw.map = Some(RawMap { topics: strings(&["/cartographer_map"]), qos: Vec::new() });
    raw.poses = Some(topics(&["/goal_pose", "/extra_pose"]));
    raw.pose_arrays = Some(topics(&["/particle_cloud"]));
    raw.paths = Some(topics(&["/plan", "/global_plan"]));
    raw.scans = Some(topics(&["/scan"]));
    let cfg = raw.into_runtime();
    assert_eq!(cfg.node_name, "viz");
    assert_eq!(cfg.namespace, "/ns");
    assert_eq!(cfg.map_topic, "/cartographer_map");
    assert_eq!(cfg.pose_topics.len(), 2);
    assert_eq!(cfg.path_topics, vec!["/plan", "/global_plan"]);
    assert_eq!(cfg.pose_array_topics, vec!["/particle_cloud"]);
}

#[test]
fn costmaps_section_parses_topics_and_qos() {
    let mut raw = empty_raw();
    raw.costmaps = Some(RawTopics {
        topics: strings(&["/global_costmap/costmap", "/local_costmap/costmap"]),
        qos: vec![("/local_costmap/costmap".to_string(), qos(Some("best_effort"), None, None))],
    });
    let cfg = raw.into_runtime();
    assert_eq!(cfg.costmap_topics, vec!["/global_costmap/costmap", "/local_costmap/costmap"]);
    let q = qos_for(&cfg.costmap_qos, "/local_costmap/costmap").unwrap();
    assert_eq!(q.reliability.as_deref(), Some("best_effort"));
    assert_eq!(cfg.map_topic, "/map");
}

#[test]
fn points_section_parses_with_partial_style() {
    let mut raw = empty_raw();
    raw.points = Some(RawPoints {
        topics: strings(&["/points2/decompressed"]),
        stride: Some(4),
        qos: Vec::new(),
    });
    let cfg = raw.into_runtime();
    assert_eq!(cfg.point_topics, vec!["/points2/decompressed"]);
    assert_eq!(cfg.point_stride, 4);
}

#[test]
fn qos_overrides_parse_per_topic() {
    let mut raw = empty_raw();
    raw.scans = Some(RawTopics {
        topics: strings(&["/scan_front", "/scan_back"]),
        qos: vec![("/scan_back".to_string(), qos(Some("reliable"), None, Some(20)))],
    });
    let cfg = raw.into_runtime();
    assert_eq!(cfg.scan_qos.len(), 1);
    let q = qos_for(&cfg.scan_qos, "/scan_back").unwrap();
    assert_eq!(q.reliability.as_deref(), Some("reliable"));
    assert_eq!(q.depth, Some(20));
    assert!(q.durability.is_none());
    assert!(qos_for(&cfg.scan_qos, "/scan_front").is_none());
}

#[test]
fn urdf_topic_section_parses() {
    let mut raw = empty_raw();
    raw.urdf = Some(RawUrdf {
        path: None,
        topic: Some("/robot_description".to_string()),
        joint_states_topic: Some("/jstates".to_string()),
        qos: None,
        topic_qos: Some(qos(None, Some("transient_local"), None)),
    });
    let cfg = raw.into_runtime();
    assert_eq!(cfg.urdf_topic.as_deref(), Some("/robot_description"));
    assert_eq!(cfg.urdf_path, None);
    assert_eq!(cfg.joint_states_topic, "/jstates");
    assert_eq!(cfg.urdf_topic_qos.as_ref().unwrap().durability.as_deref(), Some("transient_local"));
}

#[test]
fn tf_section_overrides_topics() {
    let mut raw = empty_raw();
    raw.tf = Some(RawTf {
        topic: Some("/robot/tf".to_string()),
        static_topic: Some("/robot/tf_static".to_string()),
        qos: Some(qos(Some("best_effort"), None, None)),
        static_qos: None,
    });
    let cfg = raw.into_runtime();
    assert_eq!(cfg.tf_topic, "/robot/tf");
    assert_eq!(cfg.tf_static_topic, "/robot/tf_static");
    assert_eq!(cfg.tf_qos.as_ref().unwrap().reliability.as_deref(), Some("best_effort"));
    assert!(cfg.tf_static_qos.is_none());
}

#[test]
fn ui_groups_parse_in_order() {
    let mut raw = empty_raw();
    raw.ui = Some(RawUi {
        group: vec![
            RawUiGroup {
                name: "Sensors".to_string(),
                topics: strings(&["/scan", "/points"]),
                urdf: false,
                tf: false,
                collapsed: false,
            },
            RawUiGroup {
                name: "Robot Description".to_string(),
                topics: Vec::new(),
                urdf: true,
                tf: false,
                collapsed: true,
            },
        ],
    });
    let cfg = raw.into_runtime();
    assert_eq!(cfg.ui_groups.len(), 2);
    assert_eq!(cfg.ui_groups[0].name, "Sensors");
    assert_eq!(cfg.ui_groups[0].topics, vec!["/scan", "/points"]);
    assert!(!cfg.ui_groups[0].urdf);
    assert!(!cfg.ui_groups[0].collapsed);
    assert_eq!(cfg.ui_groups[1].name, "Robot Description");
    assert!(cfg.ui_groups[1].urdf);
    assert!(cfg.ui_groups[1].collapsed);
}

#[test]
fn tf_defaults_when_omitted() {
    let cfg = empty_raw().into_runtime();
    assert_eq!(cfg.tf_topic, "/tf");
    assert_eq!(cfg.tf_static_topic, "/tf_static");
}

fn default_profile() -> QosProfile {
    QosProfile {
        history: HistoryPolicy::KeepLast,
        depth: 10,
        reliability: ReliabilityPolicy::Reliable,
        durability: DurabilityPolicy::Volatile,
    }
}

#[test]
fn qos_apply_modifies_base_profile() {
    let q = qos(Some("best_effort"), Some("transient_local"), Some(7));
    let p = q.apply(default_profile());
    assert_eq!(p.reliability, ReliabilityPolicy::BestEffort);
    assert_eq!(p.durability, DurabilityPolicy::TransientLocal);
    assert_eq!(p.depth, 7);
}

#[test]
fn qos_apply_ignores_unknown_names_and_keeps_unset_fields() {
    let q = qos(Some("sometimes"), None, None);
    let p = q.apply(default_profile());
    assert_eq!(p, default_profile());
    let q = qos(None, Some("best_available"), None);
    let p = q.apply(default_profile());
    assert_eq!(p.durability, DurabilityPolicy::BestAvailable);
    assert_eq!(p.reliability, ReliabilityPolicy::Reliable);
    assert_eq!(p.history, HistoryPolicy::KeepLast);
    assert_eq!(p.depth, 10);
}

#[test]
fn default_config_values() {
    let d = RosConfig::default();
    assert_eq!(d.node_name, "fastviz");
    assert_eq!(d.namespace, "");
    assert_eq!(d.reference_frame, "map");
    assert_eq!(d.pose_topics, vec!["/goal_pose"]);
    assert_eq!(d.pose_array_topics, vec!["/particle_cloud"]);
    assert_eq!(d.path_topics, vec!["/plan"]);
    assert_eq!(d.joint_states_topic, "/joint_states");
    assert_eq!(d.point_stride, 1);
    assert!(d.costmap_topics.is_empty());
    assert!(d.ui_groups.is_empty());
}

#[test]
fn empty_map_section_keeps_default_map_topic() {
    let mut raw = empty_raw();
    raw.map = Some(RawMap { topics: Vec::new(), qos: Vec::new() });
    let cfg = raw.into_runtime();
    assert_eq!(cfg.map_topic, "/map");
}

#[test]
fn qos_lookup_takes_first_entry_for_a_topic() {
    let table = vec![
        ("/a".to_string(), qos(Some("reliable"), None, None)),
        ("/a".to_string(), qos(Some("best_effort"), None, None)),
    ];
    let q = qos_for(&table, "/a").unwrap();
    assert_eq!(q.reliability.as_deref(), Some("reliable"));
}
