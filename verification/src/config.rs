//! Runtime configuration of the ROS node.
//!
//! `RawConfig` is the parsed configuration file, where every section and
//! field may be absent; `RawConfig::into_runtime` fills what is absent from
//! `RosConfig::default()`. The float-valued display styles (arrow, path,
//! scan and point sizes and colors, the TF axis length, the saved camera
//! view) are merged by the caller; everything else is here.
//!
//! Per-topic QoS tables are kept as `(topic, override)` lists in file order.

use vstd::prelude::*;

use crate::text::str_eq;

verus! {

/// Optional per-topic QoS override. Missing fields fall back to the
/// subscriber's per-kind default profile.
#[derive(Clone, Debug)]
pub struct QosOverride {
    /// `"reliable"` or `"best_effort"`.
    pub reliability: Option<String>,
    /// `"volatile"`, `"transient_local"`, or `"best_available"`.
    pub durability: Option<String>,
    /// History depth (keep-last).
    pub depth: Option<usize>,
}

#[derive(Clone, Copy, Debug, PartialEq, Eq, Structural)]
pub enum ReliabilityPolicy {
    SystemDefault,
    Reliable,
    BestEffort,
}

#[derive(Clone, Copy, Debug, PartialEq, Eq, Structural)]
pub enum DurabilityPolicy {
    SystemDefault,
    TransientLocal,
    Volatile,
    BestAvailable,
}

#[derive(Clone, Copy, Debug, PartialEq, Eq, Structural)]
pub enum HistoryPolicy {
    SystemDefault,
    KeepLast,
    KeepAll,
}

/// The parts of a subscription QoS profile that an override can change.
#[derive(Clone, Copy, Debug, PartialEq, Eq, Structural)]
pub struct QosProfile {
    pub history: HistoryPolicy,
    pub depth: usize,
    pub reliability: ReliabilityPolicy,
    pub durability: DurabilityPolicy,
}

/// The reliability a setting names, `None` for an unknown name.
pub open spec fn reliability_named(s: Seq<char>) -> Option<ReliabilityPolicy> {
    if s == "reliable"@ {
        Some(ReliabilityPolicy::Reliable)
    } else if s == "best_effort"@ {
        Some(ReliabilityPolicy::BestEffort)
    } else {
        None
    }
}

/// The durability a setting names, `None` for an unknown name.
pub open spec fn durability_named(s: Seq<char>) -> Option<DurabilityPolicy> {
    if s == "volatile"@ {
        Some(DurabilityPolicy::Volatile)
    } else if s == "transient_local"@ {
        Some(DurabilityPolicy::TransientLocal)
    } else if s == "best_available"@ {
        Some(DurabilityPolicy::BestAvailable)
    } else {
        None
    }
}

impl QosOverride {
    /// `base` with this override applied: a known reliability or durability
    /// name replaces the base policy (an unknown one is ignored), and a depth
    /// switches to keep-last with that depth.
    pub open spec fn applied(&self, base: QosProfile) -> QosProfile {
        let b1 = match self.reliability {
            Some(s) => match reliability_named(s@) {
                Some(p) => QosProfile { reliability: p, ..base },
                None => base,
            },
            None => base,
        };
        let b2 = match self.durability {
            Some(s) => match durability_named(s@) {
                Some(p) => QosProfile { durability: p, ..b1 },
                None => b1,
            },
            None => b1,
        };
        match self.depth {
            Some(d) => QosProfile { history: HistoryPolicy::KeepLast, depth: d, ..b2 },
            None => b2,
        }
    }

    /// Apply this override on top of `base`. Unknown policy names are
    /// ignored.
    pub fn apply(&self, base: QosProfile) -> (r: QosProfile)
        ensures
            r == self.applied(base),
    {
        let mut base = base;
        if let Some(s) = &self.reliability {
            if str_eq(s.as_str(), "reliable") {
                base.reliability = ReliabilityPolicy::Reliable;
            } else if str_eq(s.as_str(), "best_effort") {
                base.reliability = ReliabilityPolicy::BestEffort;
            }
        }
        if let Some(s) = &self.durability {
            if str_eq(s.as_str(), "volatile") {
                base.durability = DurabilityPolicy::Volatile;
            } else if str_eq(s.as_str(), "transient_local") {
                base.durability = DurabilityPolicy::TransientLocal;
            } else if str_eq(s.as_str(), "best_available") {
                base.durability = DurabilityPolicy::BestAvailable;
            }
        }
        if let Some(d) = self.depth {
            base.history = HistoryPolicy::KeepLast;
            base.depth = d;
        }
        base
    }
}

/// What an override does to any base profile: reliability `"reliable"` or
/// `"best_effort"` sets that policy; durability `"volatile"`,
/// `"transient_local"` or `"best_available"` sets that policy; a depth sets
/// keep-last with that depth. Any other name, or no setting, leaves that
/// part of the base as it was, and each part is set by its own setting
/// alone.
pub proof fn lemma_override_effect(o: QosOverride, base: QosProfile)
    ensures
        ({
            let r = o.applied(base);
            let rel: Option<Seq<char>> = match o.reliability {
                Some(s) => Some(s@),
                None => None,
            };
            let dur: Option<Seq<char>> = match o.durability {
                Some(s) => Some(s@),
                None => None,
            };
            &&& rel == Some("reliable"@) ==> r.reliability == ReliabilityPolicy::Reliable
            &&& rel == Some("best_effort"@) ==> r.reliability == ReliabilityPolicy::BestEffort
            &&& rel != Some("reliable"@) && rel != Some("best_effort"@) ==> r.reliability == base.reliability
            &&& dur == Some("volatile"@) ==> r.durability == DurabilityPolicy::Volatile
            &&& dur == Some("transient_local"@) ==> r.durability == DurabilityPolicy::TransientLocal
            &&& dur == Some("best_available"@) ==> r.durability == DurabilityPolicy::BestAvailable
            &&& dur != Some("volatile"@) && dur != Some("transient_local"@) && dur != Some("best_available"@)
                ==> r.durability == base.durability
            &&& match o.depth {
                Some(d) => r.history == HistoryPolicy::KeepLast && r.depth == d,
                None => r.history == base.history && r.depth == base.depth,
            }
        }),
{
    reveal_strlit("reliable");
    reveal_strlit("best_effort");
    reveal_strlit("volatile");
    reveal_strlit("transient_local");
    reveal_strlit("best_available");
    assert("reliable"@ != "best_effort"@) by {
        assert("reliable"@[0] != "best_effort"@[0]);
    }
    assert("volatile"@ != "transient_local"@) by {
        assert("volatile"@[0] != "transient_local"@[0]);
    }
    assert("volatile"@ != "best_available"@) by {
        assert("volatile"@[0] != "best_available"@[0]);
    }
    assert("transient_local"@ != "best_available"@) by {
        assert("transient_local"@[0] != "best_available"@[0]);
    }
}

/// The override for `topic` in a `(topic, override)` table, if any.
pub open spec fn qos_lookup(table: Seq<(String, QosOverride)>, topic: Seq<char>) -> Option<
    QosOverride,
>
    decreases table.len(),
{
    if table.len() == 0 {
        None
    } else if table[0].0@ == topic {
        Some(table[0].1)
    } else {
        qos_lookup(table.drop_first(), topic)
    }
}

/// The override configured for `topic`, if any.
pub fn qos_for(table: &Vec<(String, QosOverride)>, topic: &str) -> (r: Option<QosOverride>)
    ensures
        match r {
            Some(q) => qos_lookup(table@, topic@) matches Some(o) && q.reliability == o.reliability
                && q.durability == o.durability && q.depth == o.depth,
            None => qos_lookup(table@, topic@) is None,
        },
{
    let mut i: usize = 0;
    proof {
        assert(table@.subrange(0, table@.len() as int) =~= table@);
    }
    while i < table.len()
        invariant
            i <= table@.len(),
            qos_lookup(table@, topic@) == qos_lookup(table@.subrange(i as int, table@.len() as int), topic@),
        decreases table@.len() - i,
    {
        proof {
            let rest = table@.subrange(i as int, table@.len() as int);
            assert(rest.drop_first() =~= table@.subrange(i + 1, table@.len() as int));
            assert(rest[0] == table@[i as int]);
        }
        if str_eq(table[i].0.as_str(), topic) {
            let o = &table[i].1;
            return Some(
                QosOverride {
                    reliability: o.reliability.clone(),
                    durability: o.durability.clone(),
                    depth: o.depth,
                },
            );
        }
        i = i + 1;
    }
    None
}

/// One side-panel group. Entities are matched by topic name and shown in
/// the order of `topics`; with `urdf`, every URDF link is appended, with
/// `tf`, every TF-frame axis entity.
#[derive(Clone, Debug)]
pub struct UiGroup {
    pub name: String,
    pub topics: Vec<String>,
    pub urdf: bool,
    pub tf: bool,
    /// Initial fold state.
    pub collapsed: bool,
}

/// A side-panel group as the configuration writer stores it.
pub struct UiGroupSave {
    pub name: String,
    pub topics: Vec<String>,
    pub urdf: bool,
    pub tf: bool,
    pub collapsed: bool,
}

/// `[map]`: the first topic is the map topic.
pub struct RawMap {
    pub topics: Vec<String>,
    pub qos: Vec<(String, QosOverride)>,
}

/// A section listing topics with per-topic QoS overrides.
pub struct RawTopics {
    pub topics: Vec<String>,
    pub qos: Vec<(String, QosOverride)>,
}

/// `[points]`, with the decimation stride of its style.
pub struct RawPoints {
    pub topics: Vec<String>,
    pub stride: Option<usize>,
    pub qos: Vec<(String, QosOverride)>,
}

/// `[urdf]`.
pub struct RawUrdf {
    /// Path to a URDF or xacro file on disk.
    pub path: Option<String>,
    /// `std_msgs/String` topic carrying the URDF XML.
    pub topic: Option<String>,
    pub joint_states_topic: Option<String>,
    /// QoS override for `joint_states_topic`.
    pub qos: Option<QosOverride>,
    /// QoS override for the URDF topic.
    pub topic_qos: Option<QosOverride>,
}

/// `[tf]` (its axis length is a display style).
pub struct RawTf {
    pub topic: Option<String>,
    pub static_topic: Option<String>,
    pub qos: Option<QosOverride>,
    pub static_qos: Option<QosOverride>,
}

/// One `[[ui.group]]` table.
pub struct RawUiGroup {
    pub name: String,
    pub topics: Vec<String>,
    pub urdf: bool,
    pub tf: bool,
    pub collapsed: bool,
}

/// `[ui]`.
pub struct RawUi {
    pub group: Vec<RawUiGroup>,
}

/// The parsed configuration file.
pub struct RawConfig {
    pub node_name: Option<String>,
    pub namespace: Option<String>,
    pub reference_frame: Option<String>,
    pub map: Option<RawMap>,
    pub costmaps: Option<RawTopics>,
    pub poses: Option<RawTopics>,
    pub pose_arrays: Option<RawTopics>,
    pub paths: Option<RawTopics>,
    pub scans: Option<RawTopics>,
    pub points: Option<RawPoints>,
    pub markers: Option<RawTopics>,
    pub marker_arrays: Option<RawTopics>,
    pub urdf: Option<RawUrdf>,
    pub tf: Option<RawTf>,
    pub ui: Option<RawUi>,
}

/// The configuration the subscribers run with.
pub struct RosConfig {
    pub node_name: String,
    pub namespace: String,
    /// Frame all incoming data is transformed into.
    pub reference_frame: String,
    pub map_topic: String,
    /// `nav_msgs/OccupancyGrid` topics rendered as cost overlays.
    pub costmap_topics: Vec<String>,
    pub pose_topics: Vec<String>,
    pub pose_array_topics: Vec<String>,
    pub path_topics: Vec<String>,
    pub scan_topics: Vec<String>,
    pub point_topics: Vec<String>,
    /// Point-cloud decimation: keep one point in `point_stride`.
    pub point_stride: usize,
    pub marker_topics: Vec<String>,
    pub marker_array_topics: Vec<String>,
    pub urdf_path: Option<String>,
    pub urdf_topic: Option<String>,
    pub urdf_topic_qos: Option<QosOverride>,
    pub joint_states_topic: String,
    pub tf_topic: String,
    pub tf_static_topic: String,
    pub tf_qos: Option<QosOverride>,
    pub tf_static_qos: Option<QosOverride>,
    pub map_qos: Vec<(String, QosOverride)>,
    pub costmap_qos: Vec<(String, QosOverride)>,
    pub pose_qos: Vec<(String, QosOverride)>,
    pub pose_array_qos: Vec<(String, QosOverride)>,
    pub path_qos: Vec<(String, QosOverride)>,
    pub scan_qos: Vec<(String, QosOverride)>,
    pub point_qos: Vec<(String, QosOverride)>,
    pub marker_qos: Vec<(String, QosOverride)>,
    pub marker_array_qos: Vec<(String, QosOverride)>,
    pub joint_states_qos: Option<QosOverride>,
    pub ui_groups: Vec<UiGroup>,
}

/// The character sequences of a list of strings.
pub open spec fn strs(v: Seq<String>) -> Seq<Seq<char>> {
    v.map_values(|s: String| s@)
}

fn one_topic(t: &str) -> (r: Vec<String>)
    ensures
        strs(r@) == seq![t@],
{
    let mut v = Vec::new();
    v.push(t.to_owned());
    proof {
        assert(strs(v@) =~= seq![t@]);
    }
    v
}

/// The defaults, as the contracts see them.
pub open spec fn is_default_config(c: RosConfig) -> bool {
    &&& c.node_name@ == "fastviz"@
    &&& c.namespace@ == ""@
    &&& c.reference_frame@ == "map"@
    &&& c.map_topic@ == "/map"@
    &&& c.costmap_topics@.len() == 0
    &&& strs(c.pose_topics@) == seq!["/goal_pose"@]
    &&& strs(c.pose_array_topics@) == seq!["/particle_cloud"@]
    &&& strs(c.path_topics@) == seq!["/plan"@]
    &&& strs(c.scan_topics@) == seq!["/scan"@]
    &&& c.point_topics@.len() == 0
    &&& c.point_stride == 1
    &&& c.marker_topics@.len() == 0
    &&& c.marker_array_topics@.len() == 0
    &&& c.urdf_path is None
    &&& c.urdf_topic is None
    &&& c.urdf_topic_qos is None
    &&& c.joint_states_topic@ == "/joint_states"@
    &&& c.tf_topic@ == "/tf"@
    &&& c.tf_static_topic@ == "/tf_static"@
    &&& c.tf_qos is None
    &&& c.tf_static_qos is None
    &&& c.map_qos@.len() == 0
    &&& c.costmap_qos@.len() == 0
    &&& c.pose_qos@.len() == 0
    &&& c.pose_array_qos@.len() == 0
    &&& c.path_qos@.len() == 0
    &&& c.scan_qos@.len() == 0
    &&& c.point_qos@.len() == 0
    &&& c.marker_qos@.len() == 0
    &&& c.marker_array_qos@.len() == 0
    &&& c.joint_states_qos is None
    &&& c.ui_groups@.len() == 0
}

impl Default for RosConfig {
    fn default() -> (r: Self)
        ensures
            is_default_config(r),
    {
        RosConfig {
            node_name: "fastviz".to_owned(),
            namespace: "".to_owned(),
            reference_frame: "map".to_owned(),
            map_topic: "/map".to_owned(),
            costmap_topics: Vec::new(),
            pose_topics: one_topic("/goal_pose"),
            pose_array_topics: one_topic("/particle_cloud"),
            path_topics: one_topic("/plan"),
            scan_topics: one_topic("/scan"),
            point_topics: Vec::new(),
            point_stride: 1,
            marker_topics: Vec::new(),
            marker_array_topics: Vec::new(),
            urdf_path: None,
            urdf_topic: None,
            urdf_topic_qos: None,
            joint_states_topic: "/joint_states".to_owned(),
            tf_topic: "/tf".to_owned(),
            tf_static_topic: "/tf_static".to_owned(),
            tf_qos: None,
            tf_static_qos: None,
            map_qos: Vec::new(),
            costmap_qos: Vec::new(),
            pose_qos: Vec::new(),
            pose_array_qos: Vec::new(),
            path_qos: Vec::new(),
            scan_qos: Vec::new(),
            point_qos: Vec::new(),
            marker_qos: Vec::new(),
            marker_array_qos: Vec::new(),
            joint_states_qos: None,
            ui_groups: Vec::new(),
        }
    }
}

/// A string field, or `d` when absent.
pub open spec fn str_or(o: Option<String>, d: Seq<char>) -> Seq<char> {
    match o {
        Some(s) => s@,
        None => d,
    }
}

/// The topics of a section, or `d` when the section is absent.
pub open spec fn section_topics(sec: Option<RawTopics>, d: Seq<Seq<char>>) -> Seq<Seq<char>> {
    match sec {
        Some(t) => strs(t.topics@),
        None => d,
    }
}

/// The QoS table of a section, empty when the section is absent.
pub open spec fn section_qos(sec: Option<RawTopics>) -> Seq<(String, QosOverride)> {
    match sec {
        Some(t) => t.qos@,
        None => Seq::empty(),
    }
}

/// The side-panel group a `[[ui.group]]` table describes.
pub open spec fn group_matches(g: UiGroup, raw: RawUiGroup) -> bool {
    &&& g.name@ == raw.name@
    &&& strs(g.topics@) == strs(raw.topics@)
    &&& g.urdf == raw.urdf
    &&& g.tf == raw.tf
    &&& g.collapsed == raw.collapsed
}

fn section_parts(sec: Option<RawTopics>, dflt: Vec<String>) -> (r: (Vec<String>, Vec<(String, QosOverride)>))
    ensures
        strs(r.0@) == section_topics(sec, strs(dflt@)),
        r.1@ == section_qos(sec),
{
    match sec {
        Some(t) => (t.topics, t.qos),
        None => (dflt, Vec::new()),
    }
}

fn convert_groups(groups: &Vec<RawUiGroup>) -> (r: Vec<UiGroup>)
    ensures
        r@.len() == groups@.len(),
        forall|i: int| 0 <= i < groups@.len() ==> group_matches(#[trigger] r@[i], groups@[i]),
{
    let mut out: Vec<UiGroup> = Vec::new();
    let mut i: usize = 0;
    while i < groups.len()
        invariant
            i <= groups@.len(),
            out@.len() == i,
            forall|j: int| 0 <= j < i ==> group_matches(#[trigger] out@[j], groups@[j]),
        decreases groups@.len() - i,
    {
        let g = &groups[i];
        let topics = g.topics.clone();
        proof {
            assert(strs(topics@) =~= strs(g.topics@)) by {
                assert forall|k: int| 0 <= k < topics@.len() implies topics@[k] == g.topics@[k] by {
                    assert(cloned::<String>(g.topics@[k], topics@[k]));
                }
            }
        }
        out.push(UiGroup { name: g.name.clone(), topics, urdf: g.urdf, tf: g.tf, collapsed: g.collapsed });
        i = i + 1;
    }
    out
}

impl RawConfig {
    /// A file that sets nothing.
    pub open spec fn is_empty(&self) -> bool {
        &&& self.node_name is None
        &&& self.namespace is None
        &&& self.reference_frame is None
        &&& self.map is None
        &&& self.costmaps is None
        &&& self.poses is None
        &&& self.pose_arrays is None
        &&& self.paths is None
        &&& self.scans is None
        &&& self.points is None
        &&& self.markers is None
        &&& self.marker_arrays is None
        &&& self.urdf is None
        &&& self.tf is None
        &&& self.ui is None
    }

    /// The runtime form: every section or field the file gives is taken as
    /// given, the rest comes from `RosConfig::default()`. The map topic is
    /// the first topic of `[map]`.
    #[verifier::rlimit(40)]
    pub fn into_runtime(self) -> (r: RosConfig)
        ensures
            r.node_name@ == str_or(self.node_name, "fastviz"@),
            r.namespace@ == str_or(self.namespace, ""@),
            r.reference_frame@ == str_or(self.reference_frame, "map"@),
            r.map_topic@ == match self.map {
                Some(m) => if m.topics@.len() > 0 {
                    m.topics@[0]@
                } else {
                    "/map"@
                },
                None => "/map"@,
            },
            r.map_qos@ == match self.map {
                Some(m) => m.qos@,
                None => Seq::empty(),
            },
            strs(r.costmap_topics@) == section_topics(self.costmaps, Seq::empty()),
            r.costmap_qos@ == section_qos(self.costmaps),
            strs(r.pose_topics@) == section_topics(self.poses, seq!["/goal_pose"@]),
            r.pose_qos@ == section_qos(self.poses),
            strs(r.pose_array_topics@) == section_topics(self.pose_arrays, seq!["/particle_cloud"@]),
            r.pose_array_qos@ == section_qos(self.pose_arrays),
            strs(r.path_topics@) == section_topics(self.paths, seq!["/plan"@]),
            r.path_qos@ == section_qos(self.paths),
            strs(r.scan_topics@) == section_topics(self.scans, seq!["/scan"@]),
            r.scan_qos@ == section_qos(self.scans),
            strs(r.point_topics@) == match self.points {
                Some(p) => strs(p.topics@),
                None => Seq::empty(),
            },
            r.point_stride == match self.points {
                Some(p) => match p.stride {
                    Some(n) => n,
                    None => 1,
                },
                None => 1,
            },
            r.point_qos@ == match self.points {
                Some(p) => p.qos@,
                None => Seq::empty(),
            },
            strs(r.marker_topics@) == section_topics(self.markers, Seq::empty()),
            r.marker_qos@ == section_qos(self.markers),
            strs(r.marker_array_topics@) == section_topics(self.marker_arrays, Seq::empty()),
            r.marker_array_qos@ == section_qos(self.marker_arrays),
            r.urdf_path == match self.urdf {
                Some(u) => u.path,
                None => None,
            },
            r.urdf_topic == match self.urdf {
                Some(u) => u.topic,
                None => None,
            },
            r.urdf_topic_qos == match self.urdf {
                Some(u) => u.topic_qos,
                None => None,
            },
            r.joint_states_topic@ == match self.urdf {
                Some(u) => str_or(u.joint_states_topic, "/joint_states"@),
                None => "/joint_states"@,
            },
            r.joint_states_qos == match self.urdf {
                Some(u) => u.qos,
                None => None,
            },
            r.tf_topic@ == match self.tf {
                Some(t) => str_or(t.topic, "/tf"@),
                None => "/tf"@,
            },
            r.tf_static_topic@ == match self.tf {
                Some(t) => str_or(t.static_topic, "/tf_static"@),
                None => "/tf_static"@,
            },
            r.tf_qos == match self.tf {
                Some(t) => t.qos,
                None => None,
            },
            r.tf_static_qos == match self.tf {
                Some(t) => t.static_qos,
                None => None,
            },
            match self.ui {
                Some(u) => r.ui_groups@.len() == u.group@.len() && forall|i: int|
                    0 <= i < u.group@.len() ==> group_matches(#[trigger] r.ui_groups@[i], u.group@[i]),
                None => r.ui_groups@.len() == 0,
            },
            self.is_empty() ==> is_default_config(r),
    {
        let d = RosConfig::default();
        let RawConfig {
            node_name,
            namespace,
            reference_frame,
            map,
            costmaps,
            poses,
            pose_arrays,
            paths,
            scans,
            points,
            markers,
            marker_arrays,
            urdf,
            tf,
            ui,
        } = self;
        let (map_topic, map_qos) = match map {
            Some(m) => {
                let mut topics = m.topics;
                let first = if topics.len() > 0 {
                    topics.remove(0)
                } else {
                    d.map_topic
                };
                (first, m.qos)
            },
            None => (d.map_topic, d.map_qos),
        };
        let (costmap_topics, costmap_qos) = section_parts(costmaps, d.costmap_topics);
        let (pose_topics, pose_qos) = section_parts(poses, d.pose_topics);
        let (pose_array_topics, pose_array_qos) = section_parts(pose_arrays, d.pose_array_topics);
        let (path_topics, path_qos) = section_parts(paths, d.path_topics);
        let (scan_topics, scan_qos) = section_parts(scans, d.scan_topics);
        let (point_topics, point_stride, point_qos) = match points {
            Some(p) => (
                p.topics,
                match p.stride {
                    Some(n) => n,
                    None => d.point_stride,
                },
                p.qos,
            ),
            None => (d.point_topics, d.point_stride, d.point_qos),
        };
        let (marker_topics, marker_qos) = section_parts(markers, d.marker_topics);
        let (marker_array_topics, marker_array_qos) = section_parts(
            marker_arrays,
            d.marker_array_topics,
        );
        let (urdf_path, urdf_topic, urdf_topic_qos, joint_states_topic, joint_states_qos) =
            match urdf {
            Some(u) => (
                u.path,
                u.topic,
                u.topic_qos,
                match u.joint_states_topic {
                    Some(t) => t,
                    None => d.joint_states_topic,
                },
                u.qos,
            ),
            None => (
                d.urdf_path,
                d.urdf_topic,
                d.urdf_topic_qos,
                d.joint_states_topic,
                d.joint_states_qos,
            ),
        };
        let (tf_topic, tf_static_topic, tf_qos, tf_static_qos) = match tf {
            Some(t) => (
                match t.topic {
                    Some(x) => x,
                    None => d.tf_topic,
                },
                match t.static_topic {
                    Some(x) => x,
                    None => d.tf_static_topic,
                },
                t.qos,
                t.static_qos,
            ),
            None => (d.tf_topic, d.tf_static_topic, d.tf_qos, d.tf_static_qos),
        };
        let ui_groups = match &ui {
            Some(u) => convert_groups(&u.group),
            None => Vec::new(),
        };
        RosConfig {
            node_name: match node_name {
                Some(x) => x,
                None => d.node_name,
            },
            namespace: match namespace {
                Some(x) => x,
                None => d.namespace,
            },
            reference_frame: match reference_frame {
                Some(x) => x,
                None => d.reference_frame,
            },
            map_topic,
            costmap_topics,
            pose_topics,
            pose_array_topics,
            path_topics,
            scan_topics,
            point_topics,
            point_stride,
            marker_topics,
            marker_array_topics,
            urdf_path,
            urdf_topic,
            urdf_topic_qos,
            joint_states_topic,
            tf_topic,
            tf_static_topic,
            tf_qos,
            tf_static_qos,
            map_qos,
            costmap_qos,
            pose_qos,
            pose_array_qos,
            path_qos,
            scan_qos,
            point_qos,
            marker_qos,
            marker_array_qos,
            joint_states_qos,
            ui_groups,
        }
    }
}

} // verus!
