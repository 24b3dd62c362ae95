use fastviz::config::RosConfig;
use fastviz::panel::{TEMPLATE_STRING, TEMPLATE_TWIST};
use fastviz::publish::{can_publish, config_file_name, publish_click, publish_outcome, rate_tick, rate_tick_outcome, select_topic};
use fastviz::session::{apply_cli_reference_frame, apply_cli_urdf, drop_removed_topics, initial_active_topics, note_added_topic};

fn strings(v: &[&str]) -> Vec<String> {
    v.iter().map(|s| s.to_string()).collect()
}

#[test]
fn publish_button_needs_topic_and_type() {
    assert!(can_publish(" /cmd_vel ", "geometry_msgs/msg/Twist"));
    assert!(!can_publish("  ", "geometry_msgs/msg/Twist"));
    assert!(!can_publish("/cmd_vel", "\t"));
}

#[test]
fn publish_valid_json_trims_topic_and_type() {
    let out = publish_click(" /cmd_vel ", " geometry_msgs/msg/Twist\n", TEMPLATE_TWIST);
    let req = out.request.unwrap();
    assert_eq!(req.topic, "/cmd_vel");
    assert_eq!(req.msg_type, "geometry_msgs/msg/Twist");
    assert_eq!(req.json, TEMPLATE_TWIST);
    assert_eq!(out.status, "published to /cmd_vel");
}

#[test]
fn publish_invalid_json_reports_parser_error() {
    let out = publish_click("/chatter", "std_msgs/msg/String", "{\"data\": ");
    assert!(out.request.is_none());
    let e = serde_json::from_str::<serde_json::Value>("{\"data\": ").unwrap_err();
    assert_eq!(out.status, format!("invalid JSON: {e}"));
    let out = publish_outcome("/t", "x", "{}", Some("boom".to_string()));
    assert!(out.request.is_none());
    assert_eq!(out.status, "invalid JSON: boom");
}

#[test]
fn selecting_a_topic_seeds_only_a_blank_body() {
    let (ty, body) = select_topic(&strings(&["std_msgs/msg/String", "other"]), "  ");
    assert_eq!(ty, "std_msgs/msg/String");
    assert_eq!(body, Some(TEMPLATE_STRING));
    let (ty, body) = select_topic(&strings(&["std_msgs/msg/String"]), "{\"data\": \"hi\"}");
    assert_eq!(ty, "std_msgs/msg/String");
    assert_eq!(body, None);
    let (ty, body) = select_topic(&Vec::new(), "");
    assert_eq!(ty, "");
    assert_eq!(body, Some("{}"));
}

#[test]
fn config_file_names() {
    assert_eq!(config_file_name("  robot "), "robot.toml");
    assert_eq!(config_file_name("robot.toml"), "robot.toml");
    assert_eq!(config_file_name("robot.toml.toml"), "robot.toml.toml");
    assert_eq!(config_file_name(""), "fastviz.toml");
    assert_eq!(config_file_name(" .toml "), "fastviz.toml");
}

#[test]
fn active_topics_follow_startup_adds_and_removals() {
    let mut cfg = RosConfig::default();
    cfg.scan_topics = strings(&["*", "/scan_front"]);
    cfg.marker_topics = strings(&["/viz"]);
    cfg.costmap_topics = strings(&["/costmap"]);
    let mut active = initial_active_topics(&cfg);
    assert_eq!(active, vec!["/map", "/goal_pose", "/particle_cloud", "/plan", "/scan_front", "/viz"]);
    note_added_topic(&mut active, "/plan");
    note_added_topic(&mut active, "/extra");
    assert_eq!(active.len(), 7);
    drop_removed_topics(&mut active, &strings(&["/plan", "/nope", "/map"]));
    assert_eq!(active, vec!["/goal_pose", "/particle_cloud", "/scan_front", "/viz", "/extra"]);
    cfg.map_topic = "*".to_string();
    assert_eq!(initial_active_topics(&cfg)[0], "/goal_pose");
}

#[test]
fn cli_reference_frame_overrides_config() {
    let mut cfg = RosConfig::default();
    cfg.reference_frame = "odom".to_string();
    apply_cli_reference_frame(&mut cfg, "map");
    assert_eq!(cfg.reference_frame, "odom");
    apply_cli_reference_frame(&mut cfg, "base_link");
    assert_eq!(cfg.reference_frame, "base_link");
}

#[test]
fn cli_urdf_overrides_config() {
    let mut cfg = RosConfig::default();
    cfg.urdf_path = Some("from_config.urdf".to_string());
    apply_cli_urdf(&mut cfg, &None);
    assert_eq!(cfg.urdf_path.as_deref(), Some("from_config.urdf"));
    apply_cli_urdf(&mut cfg, &Some("/tmp/robot.urdf".to_string()));
    assert_eq!(cfg.urdf_path.as_deref(), Some("/tmp/robot.urdf"));
}

#[test]
fn rate_publishing_sends_valid_bodies_without_status() {
    let r = rate_tick(true, true, " /cmd_vel ", "geometry_msgs/msg/Twist ", TEMPLATE_TWIST);
    let q = r.request.unwrap();
    assert_eq!(q.topic, "/cmd_vel");
    assert_eq!(q.msg_type, "geometry_msgs/msg/Twist");
    assert_eq!(q.json, TEMPLATE_TWIST);
    assert!(r.status.is_none());
    assert!(r.repeat);
}

#[test]
fn rate_publishing_stops_on_invalid_json() {
    let r = rate_tick(true, true, "/chatter", "std_msgs/msg/String", "{\"data\": ");
    assert!(r.request.is_none());
    assert!(r.status.unwrap().starts_with("invalid JSON: "));
    assert!(!r.repeat);
    let r = rate_tick_outcome(true, true, "/chatter", "std_msgs/msg/String", "x", Some("oops".to_string()));
    assert_eq!(r.status.as_deref(), Some("invalid JSON: oops"));
    assert!(!r.repeat && r.request.is_none());
}

#[test]
fn rate_publishing_idles_without_topic_type_or_period() {
    for (repeat, due, topic, ty) in [
        (false, true, "/cmd_vel", "geometry_msgs/msg/Twist"),
        (true, false, "/cmd_vel", "geometry_msgs/msg/Twist"),
        (true, true, "  ", "geometry_msgs/msg/Twist"),
        (true, true, "/cmd_vel", ""),
    ] {
        let r = rate_tick(repeat, due, topic, ty, "not json");
        assert!(r.request.is_none() && r.status.is_none());
        assert_eq!(r.repeat, repeat);
    }
}
