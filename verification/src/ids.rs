//! Entity identifiers and the ranges the ingestion layer allocates them from.
//!
//! The mock injector reserves ids below `ROS_ID_BASE`; the ROS layer places
//! each kind of entity in its own range so that an id tells which kind of
//! source produced it.

use vstd::prelude::*;

verus! {

/// Stable identifier for a scene entity.
#[derive(Copy, Clone, Debug, PartialEq, Eq, Structural, Hash, PartialOrd, Ord)]
pub struct EntityId(pub u64);

/// Opaque GPU texture handle; the renderer maps it to a texture.
#[derive(Copy, Clone, Debug, PartialEq, Eq, Structural, Hash)]
pub struct TextureHandle(pub u64);

/// The mock injector reserves `1..=999`, so ROS ids start here.
pub const ROS_ID_BASE: u64 = 1000;

/// The occupancy-grid (`/map`) singleton.
pub fn ros_id_map() -> (r: EntityId)
    ensures
        r.0 == ROS_ID_BASE,
{
    EntityId(ROS_ID_BASE)
}

/// `PoseStamped` topics: one id per topic from this base.
pub const ROS_ID_POSE_BASE: u64 = 2000;
/// `PoseArray` topics.
pub const ROS_ID_POSE_ARRAY_BASE: u64 = 2100;
/// `Path` topics.
pub const ROS_ID_PATH_BASE: u64 = 2200;
/// `LaserScan` topics.
pub const ROS_ID_SCAN_BASE: u64 = 2300;
/// `PointCloud2` topics.
pub const ROS_ID_POINTCLOUD_BASE: u64 = 2400;

/// URDF link entities start here.
pub const URDF_LINK_BASE: u64 = 3000;

/// Marker entities. Each marker topic gets a slab of
/// `ROS_ID_MARKER_PER_TOPIC` ids; within a slab every `(ns, id)` pair of the
/// publisher is mapped to its own id, allocated in order of first appearance.
pub const ROS_ID_MARKER_BASE: u64 = 4_000_000;
pub const ROS_ID_MARKER_PER_TOPIC: u64 = 100_000;

/// TF-frame axis entities, allocated in encounter order from this base.
pub const TF_FRAME_BASE: u64 = 2_000_000;
/// Upper bound on simultaneously tracked TF frames; the id range
/// `TF_FRAME_BASE .. TF_FRAME_BASE + TF_FRAME_CAPACITY` identifies TF axes.
pub const TF_FRAME_CAPACITY: u64 = 1_000_000;

/// The first id of marker topic `topic_index`'s slab.
pub open spec fn marker_slab(topic_index: int) -> int {
    ROS_ID_MARKER_BASE + topic_index * ROS_ID_MARKER_PER_TOPIC
}

/// The base id of a marker topic (the first slot in its slab).
pub fn marker_topic_base(topic_index: usize) -> (r: u64)
    requires
        marker_slab(topic_index as int) <= u64::MAX,
    ensures
        r == marker_slab(topic_index as int),
{
    ROS_ID_MARKER_BASE + (topic_index as u64) * ROS_ID_MARKER_PER_TOPIC
}

/// The entity of `PoseStamped` topic `topic_index`.
pub fn pose_id(topic_index: usize) -> (r: EntityId)
    requires
        ROS_ID_POSE_BASE + topic_index <= u64::MAX,
    ensures
        r.0 == ROS_ID_POSE_BASE + topic_index,
{
    EntityId(ROS_ID_POSE_BASE + topic_index as u64)
}

/// The entity of `PoseArray` topic `topic_index`.
pub fn pose_array_id(topic_index: usize) -> (r: EntityId)
    requires
        ROS_ID_POSE_ARRAY_BASE + topic_index <= u64::MAX,
    ensures
        r.0 == ROS_ID_POSE_ARRAY_BASE + topic_index,
{
    EntityId(ROS_ID_POSE_ARRAY_BASE + topic_index as u64)
}

/// The entity of `Path` topic `topic_index`.
pub fn path_id(topic_index: usize) -> (r: EntityId)
    requires
        ROS_ID_PATH_BASE + topic_index <= u64::MAX,
    ensures
        r.0 == ROS_ID_PATH_BASE + topic_index,
{
    EntityId(ROS_ID_PATH_BASE + topic_index as u64)
}

/// The entity of `LaserScan` topic `topic_index`.
pub fn scan_id(topic_index: usize) -> (r: EntityId)
    requires
        ROS_ID_SCAN_BASE + topic_index <= u64::MAX,
    ensures
        r.0 == ROS_ID_SCAN_BASE + topic_index,
{
    EntityId(ROS_ID_SCAN_BASE + topic_index as u64)
}

/// The entity of `PointCloud2` topic `topic_index`.
pub fn pointcloud_id(topic_index: usize) -> (r: EntityId)
    requires
        ROS_ID_POINTCLOUD_BASE + topic_index <= u64::MAX,
    ensures
        r.0 == ROS_ID_POINTCLOUD_BASE + topic_index,
{
    EntityId(ROS_ID_POINTCLOUD_BASE + topic_index as u64)
}

/// Distinct marker topics own disjoint slabs: an id in one topic's slab is
/// never in another's.
pub proof fn lemma_marker_slabs_disjoint(a: int, b: int, x: int)
    requires
        0 <= a,
        0 <= b,
        a != b,
        marker_slab(a) <= x < marker_slab(a) + ROS_ID_MARKER_PER_TOPIC,
    ensures
        !(marker_slab(b) <= x < marker_slab(b) + ROS_ID_MARKER_PER_TOPIC),
{
    if a < b {
        assert(marker_slab(a) + ROS_ID_MARKER_PER_TOPIC <= marker_slab(b)) by (nonlinear_arith)
            requires
                a < b,
        ;
    } else {
        assert(marker_slab(b) + ROS_ID_MARKER_PER_TOPIC <= marker_slab(a)) by (nonlinear_arith)
            requires
                b < a,
        ;
    }
}

} // verus!
