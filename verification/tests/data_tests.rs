use fastviz::buffers::{align_up, grown_capacity, plan_draw_slices, DrawSlice};
use fastviz::mesh::{cylinder_indices, quad_indices, sphere_indices, triangle_list_indices};
use fastviz::color::{hex_to_rgb8, rgb8_to_hex};
use fastviz::ids::{
    marker_topic_base, path_id, pointcloud_id, pose_array_id, pose_id, ros_id_map, scan_id,
    EntityId, ROS_ID_MARKER_BASE, ROS_ID_MARKER_PER_TOPIC,
};
use fastviz::mock::{pseudo_random_cells, MockInjector};
use fastviz::occupancy::{map_label, occupancy_cells};
use fastviz::pointcloud::{
    check_cloud, inspect_cloud, kept_point_bases, locate_xyz, CloudVerdict, read_u32_le, read_u64_le, stamp_ns, CloudCheck, PointField, TfWarning,
    XyzLayout, PF_FLOAT32, PF_FLOAT64,
};
use fastviz::stats::{Pc2Accounting, Pc2Stats, RosStats};

fn pf(name: &str, offset: u32, datatype: u8) -> PointField {
    PointField { name: name.to_string(), offset, datatype, count: 1 }
}

#[test]
fn locate_xyz_f32_typical() {
    let fields = vec![
        pf("x", 0, PF_FLOAT32),
        pf("y", 4, PF_FLOAT32),
        pf("z", 8, PF_FLOAT32),
        pf("intensity", 12, PF_FLOAT32),
    ];
    let l = locate_xyz(&fields).unwrap();
    assert_eq!((l.x_off, l.y_off, l.z_off), (0, 4, 8));
    assert!(l.single);
}

#[test]
fn locate_xyz_missing_returns_none() {
    let fields = vec![pf("x", 0, PF_FLOAT32), pf("y", 4, PF_FLOAT32)];
    assert!(locate_xyz(&fields).is_none());
}

#[test]
fn locate_xyz_mixed_types_rejected() {
    let fields = vec![pf("x", 0, PF_FLOAT32), pf("y", 4, PF_FLOAT64), pf("z", 12, PF_FLOAT32)];
    assert!(locate_xyz(&fields).is_none());
}

#[test]
fn read_scalar_le_f32() {
    let buf: Vec<u8> = 1.5f32.to_le_bytes().to_vec();
    assert_eq!(f32::from_bits(read_u32_le(&buf, 0)), 1.5);
}

#[test]
fn locate_xyz_f64_and_last_duplicate_wins() {
    let fields = vec![
        pf("x", 0, PF_FLOAT64),
        pf("y", 8, PF_FLOAT64),
        pf("z", 16, PF_FLOAT64),
        pf("x", 24, PF_FLOAT64),
    ];
    let l = locate_xyz(&fields).unwrap();
    assert_eq!(l, XyzLayout { x_off: 24, y_off: 8, z_off: 16, single: false });
}

#[test]
fn read_scalar_le_f64_and_offsets() {
    let mut buf: Vec<u8> = vec![0xAA, 0xBB];
    buf.extend_from_slice(&(-2.25f64).to_le_bytes());
    assert_eq!(f64::from_bits(read_u64_le(&buf, 2)), -2.25);
    assert_eq!(read_u32_le(&vec![1, 2, 3, 4], 0), 0x0403_0201);
}

#[test]
fn check_cloud_verdicts() {
    let l = XyzLayout { x_off: 0, y_off: 4, z_off: 8, single: true };
    assert_eq!(check_cloud(l, 10, 2, 16, 320), CloudCheck::Fits(20));
    assert_eq!(check_cloud(l, 10, 2, 16, 319), CloudCheck::BufferTooSmall);
    assert_eq!(check_cloud(l, 10, 2, 11, 1000), CloudCheck::OffsetsExceedStep);
    let wide = XyzLayout { x_off: 0, y_off: 8, z_off: 16, single: false };
    assert_eq!(check_cloud(wide, 1, 1, 20, 100), CloudCheck::OffsetsExceedStep);
    assert_eq!(check_cloud(wide, 1, 1, 24, 24), CloudCheck::Fits(1));
    assert_eq!(check_cloud(l, u32::MAX, u32::MAX, 16, usize::MAX), CloudCheck::Fits((u32::MAX as usize) * (u32::MAX as usize)));
}

#[test]
fn stamp_combines_seconds_and_nanoseconds() {
    assert_eq!(stamp_ns(3, 250), 3_000_000_250);
    assert_eq!(stamp_ns(-1, 500_000_000), -500_000_000);
}

fn channel(v: u8) -> f32 {
    v as f32 / 255.0
}

fn to_byte(v: f32) -> u8 {
    (v.clamp(0.0, 1.0) * 255.0 + 0.5) as u8
}

#[test]
fn hex_round_trip_six_digit() {
    let (r, g, b) = hex_to_rgb8("#FFAA00").unwrap();
    let c = (channel(r), channel(g), channel(b));
    assert_eq!(rgb8_to_hex(to_byte(c.0), to_byte(c.1), to_byte(c.2)), "#FFAA00");
}

#[test]
fn hex_accepts_three_digit_and_missing_hash() {
    let a = hex_to_rgb8("#F0A").unwrap();
    let b = hex_to_rgb8("ff00aa").unwrap();
    assert!((channel(a.0) - 1.0).abs() < 1e-6);
    assert!((channel(b.2) - 170.0 / 255.0).abs() < 1e-6);
}

#[test]
fn hex_rejects_garbage() {
    assert!(hex_to_rgb8("not-a-color").is_none());
    assert!(hex_to_rgb8("#FFAA").is_none());
    assert!(hex_to_rgb8("#GGHHII").is_none());
}

#[test]
fn hex_reading_trims_and_strips_every_hash() {
    assert_eq!(hex_to_rgb8("  ##0a0B0c \n"), Some((10, 11, 12)));
    assert_eq!(hex_to_rgb8("+f+f+f"), None);
    assert_eq!(hex_to_rgb8("+F+F+F"), None);
    assert_eq!(hex_to_rgb8("+ff"), None);
    assert_eq!(hex_to_rgb8("-10203"), None);
    assert_eq!(hex_to_rgb8("#abc"), Some((0xAA, 0xBB, 0xCC)));
    assert_eq!(hex_to_rgb8(""), None);
    assert_eq!(hex_to_rgb8("#1234567"), None);
    assert_eq!(hex_to_rgb8("aé\u{20AC}"), None);
    assert_eq!(hex_to_rgb8("\u{20AC}\u{20AC}"), None);
    assert_eq!(hex_to_rgb8("é\u{20AC}é"), None);
}

#[test]
fn hex_writing_is_upper_case() {
    assert_eq!(rgb8_to_hex(0, 0x7f, 0xff), "#007FFF");
    let back = hex_to_rgb8(&rgb8_to_hex(1, 2, 250)).unwrap();
    assert_eq!(back, (1, 2, 250));
}

#[test]
fn occupancy_unknown_cells_become_255() {
    let cells = occupancy_cells(&vec![0, -1, 50, 100, -128]);
    assert_eq!(cells, vec![0, 255, 50, 100, 255]);
}

#[test]
fn map_label_names_the_frame() {
    assert_eq!(map_label("odom"), "/map [odom]");
}

#[test]
fn align_up_rounds_to_multiple() {
    assert_eq!(align_up(0, 256), 0);
    assert_eq!(align_up(1, 256), 256);
    assert_eq!(align_up(256, 256), 256);
    assert_eq!(align_up(257, 4), 260);
}

#[test]
fn ids_are_disjoint_ranges() {
    assert_eq!(ros_id_map(), EntityId(1000));
    assert_eq!(pose_id(3), EntityId(2003));
    assert_eq!(pose_array_id(0), EntityId(2100));
    assert_eq!(path_id(1), EntityId(2201));
    assert_eq!(scan_id(2), EntityId(2302));
    assert_eq!(pointcloud_id(4), EntityId(2404));
    assert_eq!(marker_topic_base(0), ROS_ID_MARKER_BASE);
    assert_eq!(marker_topic_base(2), ROS_ID_MARKER_BASE + 2 * ROS_ID_MARKER_PER_TOPIC);
}

#[test]
fn mock_injector_seeds_once() {
    let mut m = MockInjector::new();
    assert!(!m.seeded);
    assert!(m.begin_frame());
    assert!(!m.begin_frame());
    assert!(m.seeded);
}

#[test]
fn pseudo_random_cells_follow_xorshift() {
    let cells = pseudo_random_cells(4, 3, 7);
    assert_eq!(cells.len(), 12);
    let mut s: u32 = 7 | 1;
    for c in &cells {
        s ^= s << 13;
        s ^= s >> 17;
        s ^= s << 5;
        let r = s % 16;
        let expect = if r == 0 { 100 } else if r <= 3 { 255 } else { 0 };
        assert_eq!(*c, expect);
    }
    assert_eq!(pseudo_random_cells(4, 3, 7), cells);
    assert!(pseudo_random_cells(0, 5, 1).is_empty());
}

#[test]
fn pc2_accounting_counts_each_new_cloud_once() {
    let stats = RosStats::new();
    assert_eq!(stats.pc2_count(), 0);
    stats.record_pc2();
    stats.record_pc2();
    assert_eq!(stats.pc2_count(), 2);
    let mut acc = Pc2Accounting::new();
    assert_eq!(acc.observe(2), Pc2Stats { received: 2, displayed: 1 });
    assert_eq!(acc.observe(2), Pc2Stats { received: 2, displayed: 1 });
    let s = acc.observe(5);
    assert_eq!(s, Pc2Stats { received: 5, displayed: 2 });
    assert_eq!(s.dropped(), 3);
    assert_eq!(Pc2Stats { received: 1, displayed: 4 }.dropped(), 0);
}

#[test]
fn box_index_buffer_has_36_indices_over_24_vertices() {
    let idx = quad_indices(6);
    assert_eq!(idx.len(), 36);
    assert_eq!(&idx[..12], &[0, 1, 2, 0, 2, 3, 4, 5, 6, 4, 6, 7]);
    assert!(idx.iter().all(|&i| i < 24));
}

#[test]
fn cylinder_index_buffer() {
    let idx = cylinder_indices(1);
    // At least three sides.
    assert_eq!(idx.len(), 36);
    assert!(idx.iter().all(|&i| i < 26));
    // First cap pair: top centre 12, rim 14 15; bottom centre 13, rim 17 16.
    assert_eq!(&idx[18..24], &[12, 14, 15, 13, 17, 16]);
    assert_eq!(cylinder_indices(24).len(), 288);
}

#[test]
fn sphere_index_buffer() {
    let idx = sphere_indices(0, 0);
    assert_eq!(idx.len(), 36);
    assert_eq!(&idx[..6], &[0, 4, 1, 1, 4, 5]);
    assert!(idx.iter().all(|&i| i < 12));
    let idx = sphere_indices(16, 16);
    assert_eq!(idx.len(), 6 * 16 * 16);
    assert_eq!(*idx.iter().max().unwrap(), 17 * 17 - 1);
}

#[test]
fn triangle_list_drops_incomplete_triple() {
    assert_eq!(triangle_list_indices(7), vec![0, 1, 2, 3, 4, 5]);
    assert!(triangle_list_indices(2).is_empty());
}

#[test]
fn buffers_grow_to_twice_the_need_in_powers_of_two() {
    assert_eq!(grown_capacity(4096, 100, 0), 4096);
    assert_eq!(grown_capacity(4096, 4096, 0), 4096);
    assert_eq!(grown_capacity(4096, 4097, 0), 16384);
    assert_eq!(grown_capacity(8, 9, 8), 32);
    assert_eq!(grown_capacity(0, 1, 8), 8);
    assert_eq!(grown_capacity(0, 1, 0), 2);
    for n in 1..200usize {
        assert_eq!(grown_capacity(0, n, 0), (n * 2).next_power_of_two());
    }
}

#[test]
fn draw_slices_pack_instances_back_to_back() {
    let s = plan_draw_slices(&vec![3, 0, 5], 256);
    assert_eq!(
        s,
        vec![
            DrawSlice { instance_offset: 0, instance_count: 3, transform_dyn_offset: 0 },
            DrawSlice { instance_offset: 3, instance_count: 0, transform_dyn_offset: 256 },
            DrawSlice { instance_offset: 3, instance_count: 5, transform_dyn_offset: 512 },
        ]
    );
    assert!(plan_draw_slices(&Vec::new(), 256).is_empty());
}

#[test]
fn cloud_verdicts_and_kept_points() {
    let xyz = vec![pf("x", 0, PF_FLOAT32), pf("y", 4, PF_FLOAT32), pf("z", 8, PF_FLOAT32)];
    let layout = XyzLayout { x_off: 0, y_off: 4, z_off: 8, single: true };
    assert_eq!(inspect_cloud(false, &xyz, 5, 2, 16, 160), CloudVerdict::Accept { layout, points: 10 });
    assert_eq!(inspect_cloud(true, &xyz, 5, 2, 16, 160), CloudVerdict::BigEndian);
    assert_eq!(inspect_cloud(false, &xyz[..2].iter().map(|f| pf(&f.name, f.offset, f.datatype)).collect(), 5, 2, 16, 160), CloudVerdict::NoXyz);
    assert_eq!(inspect_cloud(false, &xyz, 5, 2, 8, 160), CloudVerdict::OffsetsExceedStep);
    assert_eq!(inspect_cloud(false, &xyz, 5, 2, 16, 100), CloudVerdict::BufferTooSmall);

    assert_eq!(kept_point_bases(10, 4, 16), vec![0, 64, 128]);
    assert_eq!(kept_point_bases(10, 1, 16).len(), 10);
    assert_eq!(kept_point_bases(3, 0, 12), vec![0, 12, 24]);
    assert_eq!(kept_point_bases(8, 4, 16), vec![0, 64]);
    assert!(kept_point_bases(0, 3, 16).is_empty());
}

#[test]
fn missing_tf_is_warned_once_per_failure_run() {
    let mut w = TfWarning::new();
    let lookups = [true, false, false, false, true, false, true, true, false];
    let warned: Vec<bool> = lookups.iter().map(|&ok| w.observe(ok)).collect();
    assert_eq!(warned, vec![false, true, false, false, false, true, false, false, true]);
    let mut fresh = TfWarning::new();
    assert!(fresh.observe(false));
    assert!(!fresh.observe(false));
}
