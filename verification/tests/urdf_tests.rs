use fastviz::ids::{EntityId, URDF_LINK_BASE};
use fastviz::urdf::{
    joint_kind, parse_urdf_text, JointKind, JointSource, UrdfLoadError, UrdfModel,
};
use glam::{Mat4, Quat, Vec3};

const TWO_LINKS: &str = r#"
    <robot name='t'>
      <link name='base'/>
      <link name='l1'/>
      <link name='l2'/>
      <joint name='j1' type='revolute'>
        <parent link='base'/>
        <child link='l1'/>
        <origin xyz='0 0 0' rpy='0 0 0'/>
        <axis xyz='0 0 1'/>
        <limit lower='-3' upper='3' effort='0' velocity='0'/>
      </joint>
      <joint name='j2' type='revolute'>
        <parent link='l1'/>
        <child link='l2'/>
        <origin xyz='1 0 0' rpy='0 0 0'/>
        <axis xyz='0 0 1'/>
        <limit lower='-3' upper='3' effort='0' velocity='0'/>
      </joint>
    </robot>
"#;

const MIMIC: &str = r#"
    <robot name='t'>
      <link name='base'/>
      <link name='l1'/>
      <link name='l2'/>
      <joint name='j1' type='revolute'>
        <parent link='base'/>
        <child link='l1'/>
        <origin xyz='0 0 0' rpy='0 0 0'/>
        <axis xyz='0 0 1'/>
        <limit lower='-3' upper='3' effort='0' velocity='0'/>
      </joint>
      <joint name='j2' type='revolute'>
        <parent link='l1'/>
        <child link='l2'/>
        <origin xyz='1 0 0' rpy='0 0 0'/>
        <axis xyz='0 0 1'/>
        <limit lower='-3' upper='3' effort='0' velocity='0'/>
        <mimic joint='j1' multiplier='0.5' offset='0.7853981633974483'/>
      </joint>
    </robot>
"#;

fn load(xml: &str) -> (urdf_rs::Robot, UrdfModel) {
    let (robot, sk) = parse_urdf_text(xml).unwrap();
    let mesh_ok = vec![false; sk.links.len()];
    let model = UrdfModel::build(&sk, &mesh_ok).unwrap();
    (robot, model)
}

/// The position of joint `j` in radians, with the mimic arithmetic applied.
fn joint_position(robot: &urdf_rs::Robot, model: &UrdfModel, j: usize) -> f64 {
    match model.resolve_joint(j) {
        JointSource::Direct(q) => f64::from_bits(q),
        JointSource::Zero => 0.0,
        JointSource::Mimic { chain, target } => {
            let (mut scale, mut bias) = (1.0f64, 0.0f64);
            for &i in &chain {
                let m = robot.joints[i].mimic.as_ref().unwrap();
                let (mul, off) = (m.multiplier.unwrap_or(1.0), m.offset.unwrap_or(0.0));
                scale *= mul;
                bias = mul * bias + off;
            }
            scale * f64::from_bits(target) + bias
        }
    }
}

fn link_in_root(robot: &urdf_rs::Robot, model: &UrdfModel, link: &str) -> Mat4 {
    let mut m = Mat4::IDENTITY;
    for j in model.chain_to_root(link) {
        let joint = &robot.joints[j];
        let o = &joint.origin;
        let origin = Mat4::from_translation(Vec3::new(o.xyz[0] as f32, o.xyz[1] as f32, o.xyz[2] as f32));
        let axis = Vec3::new(joint.axis.xyz[0] as f32, joint.axis.xyz[1] as f32, joint.axis.xyz[2] as f32);
        let q = joint_position(robot, model, j) as f32;
        m = origin * Mat4::from_quat(Quat::from_axis_angle(axis, q)) * m;
    }
    m
}

fn set_positions(model: &mut UrdfModel, names: &[&str], values: &[f64]) {
    let names: Vec<String> = names.iter().map(|s| s.to_string()).collect();
    let bits: Vec<u64> = values.iter().map(|v| v.to_bits()).collect();
    model.apply_joint_positions(&names, &bits);
}

#[test]
fn fk_composes_two_revolute() {
    let (robot, mut model) = load(TWO_LINKS);
    set_positions(&mut model, &["j1"], &[std::f32::consts::FRAC_PI_2 as f64]);
    let p1 = link_in_root(&robot, &model, "l1").transform_point3(Vec3::ZERO);
    assert!(p1.length() < 1e-4, "l1 at {p1:?}");
    let p2 = link_in_root(&robot, &model, "l2").transform_point3(Vec3::ZERO);
    assert!((p2 - Vec3::Y).length() < 1e-4, "l2 expected (0,1,0), got {p2:?}");
}

#[test]
fn mimic_joint_follows_target_position() {
    let (robot, mut model) = load(MIMIC);
    set_positions(&mut model, &["j1"], &[std::f32::consts::FRAC_PI_2 as f64]);
    let j2 = model.joints.iter().position(|j| j.child == "l2").unwrap();
    let q2 = joint_position(&robot, &model, j2);
    assert!(
        (q2 - std::f32::consts::FRAC_PI_2 as f64).abs() < 1e-6,
        "j2 mimic should evaluate to π/2, got {q2}",
    );
}

#[test]
fn model_finds_root_and_chains() {
    let (_robot, model) = load(TWO_LINKS);
    assert_eq!(model.root_link, "base");
    assert!(model.links.is_empty());
    assert_eq!(model.chain_to_root("l2"), vec![1, 0]);
    assert_eq!(model.chain_to_root("base"), Vec::<usize>::new());
    assert_eq!(model.joints[0].kind, JointKind::Revolute);
}

#[test]
fn drawn_links_get_ids_by_position() {
    let (_robot, sk) = parse_urdf_text(TWO_LINKS).unwrap();
    let model = UrdfModel::build(&sk, &vec![true, false, true]).unwrap();
    let ids: Vec<(String, EntityId)> = model.links.iter().map(|l| (l.name.clone(), l.entity_id)).collect();
    assert_eq!(
        ids,
        vec![("base".to_string(), EntityId(URDF_LINK_BASE)), ("l2".to_string(), EntityId(URDF_LINK_BASE + 2))]
    );
}

#[test]
fn unreported_joint_without_mimic_is_zero_and_later_reports_win() {
    let (_robot, mut model) = load(TWO_LINKS);
    assert!(matches!(model.resolve_joint(1), JointSource::Zero));
    set_positions(&mut model, &["j2", "j1", "j2"], &[1.0, 2.0, 3.0]);
    assert_eq!(model.position("j2"), Some(3.0f64.to_bits()));
    assert_eq!(model.position("j1"), Some(2.0f64.to_bits()));
    assert!(matches!(model.resolve_joint(1), JointSource::Direct(b) if b == 3.0f64.to_bits()));
    // Extra names without positions are ignored.
    set_positions(&mut model, &["j1", "j2"], &[5.0]);
    assert_eq!(model.position("j1"), Some(5.0f64.to_bits()));
    assert_eq!(model.position("j2"), Some(3.0f64.to_bits()));
}

#[test]
fn urdf_errors() {
    assert!(matches!(parse_urdf_text("<robot"), Err(UrdfLoadError::Parse)));
    let cyclic = r#"
        <robot name='c'>
          <link name='a'/>
          <link name='b'/>
          <joint name='ab' type='fixed'><parent link='a'/><child link='b'/></joint>
          <joint name='ba' type='fixed'><parent link='b'/><child link='a'/></joint>
        </robot>
    "#;
    let (_robot, sk) = parse_urdf_text(cyclic).unwrap();
    assert!(matches!(UrdfModel::build(&sk, &vec![false, false]), Err(UrdfLoadError::NoRoot)));
}

#[test]
fn joint_kind_codes() {
    assert_eq!(joint_kind(0), JointKind::Revolute);
    assert_eq!(joint_kind(2), JointKind::Prismatic);
    assert_eq!(joint_kind(3), JointKind::Fixed);
    assert_eq!(joint_kind(6), JointKind::Spherical);
}
