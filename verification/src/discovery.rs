//! Subscriber registry and topic discovery decisions.
//!
//! Concrete topics from the configuration are subscribed at startup; a kind
//! whose topic list holds the bare wildcard `"*"` is instead filled by
//! periodic discovery, which subscribes each newly seen topic of the
//! matching message type. The registry makes sure a topic is never
//! subscribed twice and hands out a stable per-kind index for each one,
//! from which its entity id is derived.

use vstd::prelude::*;

use crate::config::{strs, RosConfig};
use crate::text::str_eq;

verus! {

/// The topic-list entry that asks for discovery.
pub const WILDCARD: &'static str = "*";

/// Message types discovery matches.
pub const POSE_STAMPED_TYPE: &'static str = "geometry_msgs/msg/PoseStamped";
pub const POSE_ARRAY_TYPE: &'static str = "geometry_msgs/msg/PoseArray";
pub const PATH_TYPE: &'static str = "nav_msgs/msg/Path";
pub const LASER_SCAN_TYPE: &'static str = "sensor_msgs/msg/LaserScan";
pub const POINT_CLOUD_TYPE: &'static str = "sensor_msgs/msg/PointCloud2";
pub const MARKER_TYPE: &'static str = "visualization_msgs/msg/Marker";
pub const MARKER_ARRAY_TYPE: &'static str = "visualization_msgs/msg/MarkerArray";

/// The per-topic subscriber kinds that take part in discovery.
#[derive(Clone, Copy, Debug, PartialEq, Eq, Structural)]
pub enum TopicKind {
    Pose,
    PoseArray,
    Path,
    Scan,
    PointCloud,
    Marker,
    MarkerArray,
}

/// Topics of one kind already subscribed, each with its index, and the next
/// index to hand out.
pub struct TopicIndex {
    pub entries: Vec<(String, usize)>,
    pub next: usize,
}

pub open spec fn entry_topics(s: Seq<(String, usize)>) -> Seq<Seq<char>> {
    s.map_values(|e: (String, usize)| e.0@)
}

impl TopicIndex {
    pub open spec fn topics(&self) -> Seq<Seq<char>> {
        entry_topics(self.entries@)
    }

    pub open spec fn has(&self, topic: Seq<char>) -> bool {
        self.topics().contains(topic)
    }

    /// Every recorded index was handed out before `next`, and no topic is
    /// recorded twice.
    pub open spec fn wf(&self) -> bool {
        &&& self.topics().no_duplicates()
        &&& forall|i: int| 0 <= i < self.entries@.len() ==> (#[trigger] self.entries@[i]).1 < self.next
    }

    pub fn new() -> (r: Self)
        ensures
            r.wf(),
            r.entries@.len() == 0,
            r.next == 0,
    {
        let r = TopicIndex { entries: Vec::new(), next: 0 };
        proof {
            assert(r.topics() =~= Seq::empty());
        }
        r
    }

    pub fn contains(&self, topic: &str) -> (r: bool)
        ensures
            r == self.has(topic@),
    {
        let mut i: usize = 0;
        while i < self.entries.len()
            invariant
                i <= self.entries@.len(),
                forall|j: int| 0 <= j < i ==> self.topics()[j] != topic@,
            decreases self.entries@.len() - i,
        {
            if str_eq(self.entries[i].0.as_str(), topic) {
                proof {
                    assert(self.topics()[i as int] == topic@);
                }
                return true;
            }
            i = i + 1;
        }
        proof {
            if self.has(topic@) {
                let k = self.topics().index_of(topic@);
                assert(self.topics()[k] == topic@);
            }
        }
        false
    }
}

impl TopicIndex {
    /// Hand out the next index.
    pub fn take_next(&mut self) -> (r: usize)
        requires
            old(self).wf(),
            old(self).next < usize::MAX,
        ensures
            final(self).wf(),
            r == old(self).next,
            final(self).next == old(self).next + 1,
            final(self).entries == old(self).entries,
    {
        let r = self.next;
        self.next = self.next + 1;
        r
    }

    /// Record `topic` with its index `idx`.
    pub fn insert(&mut self, topic: &str, idx: usize)
        requires
            old(self).wf(),
            !old(self).has(topic@),
            idx < old(self).next,
        ensures
            final(self).wf(),
            final(self).next == old(self).next,
            final(self).entries@.len() == old(self).entries@.len() + 1,
            final(self).topics() == old(self).topics().push(topic@),
            final(self).entries@.last().1 == idx,
    {
        let ghost before = *self;
        self.entries.push((topic.to_owned(), idx));
        proof {
            let after = self.topics();
            assert(after =~= before.topics().push(topic@));
            assert forall|i: int, j: int|
                0 <= i < after.len() && 0 <= j < after.len() && i != j implies after[i]
                != after[j] by {
                if i < before.topics().len() && j < before.topics().len() {
                    assert(before.topics().no_duplicates());
                } else if i < before.topics().len() {
                    assert(after[i] == before.topics()[i]);
                    assert(before.topics().contains(after[i]));
                } else {
                    assert(after[j] == before.topics()[j]);
                    assert(before.topics().contains(after[j]));
                }
            }
            assert forall|i: int| 0 <= i < self.entries@.len() implies (
            #[trigger] self.entries@[i]).1 < self.next by {
                if i < before.entries@.len() {
                    assert(self.entries@[i] == before.entries@[i]);
                }
            }
        }
    }
}

/// Tracks the subscribers already spawned so that a topic is never
/// subscribed twice, and assigns each a stable index per kind.
pub struct Registry {
    pub map_spawned: bool,
    pub poses: TopicIndex,
    pub pose_arrays: TopicIndex,
    pub paths: TopicIndex,
    pub scans: TopicIndex,
    pub points: TopicIndex,
    pub markers: TopicIndex,
    pub marker_arrays: TopicIndex,
}

impl Registry {
    pub open spec fn index_of_kind(&self, kind: TopicKind) -> TopicIndex {
        match kind {
            TopicKind::Pose => self.poses,
            TopicKind::PoseArray => self.pose_arrays,
            TopicKind::Path => self.paths,
            TopicKind::Scan => self.scans,
            TopicKind::PointCloud => self.points,
            TopicKind::Marker => self.markers,
            TopicKind::MarkerArray => self.marker_arrays,
        }
    }

    pub open spec fn wf(&self) -> bool {
        forall|k: TopicKind| #[trigger] self.index_of_kind(k).wf()
    }

    /// The other kinds than `kind` are as in `other`.
    pub open spec fn same_except(&self, other: &Registry, kind: TopicKind) -> bool {
        &&& self.map_spawned == other.map_spawned
        &&& forall|k: TopicKind| k != kind ==> #[trigger] self.index_of_kind(k) == other.index_of_kind(k)
    }

    /// No subscriber yet.
    pub fn new() -> (r: Self)
        ensures
            r.wf(),
            !r.map_spawned,
            forall|k: TopicKind|
                #![trigger r.index_of_kind(k)]
                r.index_of_kind(k).entries@.len() == 0 && r.index_of_kind(k).next == 0,
    {
        let r = Registry {
            map_spawned: false,
            poses: TopicIndex::new(),
            pose_arrays: TopicIndex::new(),
            paths: TopicIndex::new(),
            scans: TopicIndex::new(),
            points: TopicIndex::new(),
            markers: TopicIndex::new(),
            marker_arrays: TopicIndex::new(),
        };
        proof {
            assert forall|k: TopicKind| #[trigger] r.index_of_kind(k).wf() by {
                match k {
                    TopicKind::Pose => {},
                    TopicKind::PoseArray => {},
                    TopicKind::Path => {},
                    TopicKind::Scan => {},
                    TopicKind::PointCloud => {},
                    TopicKind::Marker => {},
                    TopicKind::MarkerArray => {},
                }
            }
        }
        r
    }

    /// Whether a `kind` subscriber for `topic` exists.
    pub fn contains(&self, kind: TopicKind, topic: &str) -> (r: bool)
        ensures
            r == self.index_of_kind(kind).has(topic@),
    {
        match kind {
            TopicKind::Pose => self.poses.contains(topic),
            TopicKind::PoseArray => self.pose_arrays.contains(topic),
            TopicKind::Path => self.paths.contains(topic),
            TopicKind::Scan => self.scans.contains(topic),
            TopicKind::PointCloud => self.points.contains(topic),
            TopicKind::Marker => self.markers.contains(topic),
            TopicKind::MarkerArray => self.marker_arrays.contains(topic),
        }
    }

    /// Start spawning a `kind` subscriber for `topic`: `None` when it already
    /// exists; otherwise the index it gets, which is used up even if the
    /// spawn then fails.
    pub fn claim(&mut self, kind: TopicKind, topic: &str) -> (r: Option<usize>)
        requires
            old(self).wf(),
            old(self).index_of_kind(kind).next < usize::MAX,
        ensures
            final(self).wf(),
            final(self).same_except(old(self), kind),
            final(self).index_of_kind(kind).entries == old(self).index_of_kind(kind).entries,
            old(self).index_of_kind(kind).has(topic@) ==> r is None && final(self).index_of_kind(
                kind,
            ).next == old(self).index_of_kind(kind).next,
            !old(self).index_of_kind(kind).has(topic@) ==> r == Some(
                old(self).index_of_kind(kind).next,
            ) && final(self).index_of_kind(kind).next == old(self).index_of_kind(kind).next + 1,
    {
        if self.contains(kind, topic) {
            return None;
        }
        let idx = match kind {
            TopicKind::Pose => self.poses.take_next(),
            TopicKind::PoseArray => self.pose_arrays.take_next(),
            TopicKind::Path => self.paths.take_next(),
            TopicKind::Scan => self.scans.take_next(),
            TopicKind::PointCloud => self.points.take_next(),
            TopicKind::Marker => self.markers.take_next(),
            TopicKind::MarkerArray => self.marker_arrays.take_next(),
        };
        proof {
            assert forall|k: TopicKind| #[trigger] self.index_of_kind(k).wf() by {
                assert(old(self).index_of_kind(k).wf());
            }
        }
        Some(idx)
    }

    /// Record that the `kind` subscriber for `topic`, claimed with `idx`,
    /// was spawned.
    pub fn confirm(&mut self, kind: TopicKind, topic: &str, idx: usize)
        requires
            old(self).wf(),
            !old(self).index_of_kind(kind).has(topic@),
            idx < old(self).index_of_kind(kind).next,
        ensures
            final(self).wf(),
            final(self).same_except(old(self), kind),
            final(self).index_of_kind(kind).next == old(self).index_of_kind(kind).next,
            final(self).index_of_kind(kind).entries@.len() == old(self).index_of_kind(kind).entries@.len() + 1,
            final(self).index_of_kind(kind).topics() == old(self).index_of_kind(kind).topics().push(topic@),
            final(self).index_of_kind(kind).entries@.last().1 == idx,
    {
        match kind {
            TopicKind::Pose => self.poses.insert(topic, idx),
            TopicKind::PoseArray => self.pose_arrays.insert(topic, idx),
            TopicKind::Path => self.paths.insert(topic, idx),
            TopicKind::Scan => self.scans.insert(topic, idx),
            TopicKind::PointCloud => self.points.insert(topic, idx),
            TopicKind::Marker => self.markers.insert(topic, idx),
            TopicKind::MarkerArray => self.marker_arrays.insert(topic, idx),
        }
        proof {
            assert forall|k: TopicKind| #[trigger] self.index_of_kind(k).wf() by {
                assert(old(self).index_of_kind(k).wf());
            }
        }
    }
}

/// A subscriber to spawn.
pub struct SpawnRequest {
    pub kind: TopicKind,
    pub topic: String,
}

pub open spec fn request_view(r: SpawnRequest) -> (TopicKind, Seq<char>) {
    (r.kind, r.topic@)
}

pub open spec fn requests_view(v: Seq<SpawnRequest>) -> Seq<(TopicKind, Seq<char>)> {
    v.map_values(|r: SpawnRequest| request_view(r))
}

/// A topic list asks for discovery.
pub open spec fn has_wild(v: Seq<Seq<char>>) -> bool {
    v.contains(WILDCARD@)
}

/// The concrete (non-wildcard) topics of a list, in order.
pub open spec fn concrete(v: Seq<Seq<char>>) -> Seq<Seq<char>>
    decreases v.len(),
{
    if v.len() == 0 {
        Seq::empty()
    } else if v.last() == WILDCARD@ {
        concrete(v.drop_last())
    } else {
        concrete(v.drop_last()).push(v.last())
    }
}

pub open spec fn kinded(kind: TopicKind, v: Seq<Seq<char>>) -> Seq<(TopicKind, Seq<char>)> {
    v.map_values(|t: Seq<char>| (kind, t))
}

/// The configured topic list of a kind.
pub open spec fn kind_topics(cfg: RosConfig, kind: TopicKind) -> Seq<Seq<char>> {
    match kind {
        TopicKind::Pose => strs(cfg.pose_topics@),
        TopicKind::PoseArray => strs(cfg.pose_array_topics@),
        TopicKind::Path => strs(cfg.path_topics@),
        TopicKind::Scan => strs(cfg.scan_topics@),
        TopicKind::PointCloud => strs(cfg.point_topics@),
        TopicKind::Marker => strs(cfg.marker_topics@),
        TopicKind::MarkerArray => strs(cfg.marker_array_topics@),
    }
}

/// Some kind asks for discovery.
pub open spec fn any_wild(cfg: RosConfig) -> bool {
    ||| has_wild(kind_topics(cfg, TopicKind::Pose))
    ||| has_wild(kind_topics(cfg, TopicKind::PoseArray))
    ||| has_wild(kind_topics(cfg, TopicKind::Path))
    ||| has_wild(kind_topics(cfg, TopicKind::Scan))
    ||| has_wild(kind_topics(cfg, TopicKind::PointCloud))
    ||| has_wild(kind_topics(cfg, TopicKind::Marker))
    ||| has_wild(kind_topics(cfg, TopicKind::MarkerArray))
}

/// The kind whose subscribers carry message type `ty`.
pub open spec fn kind_of_type(ty: Seq<char>) -> Option<TopicKind> {
    if ty == POSE_STAMPED_TYPE@ {
        Some(TopicKind::Pose)
    } else if ty == POSE_ARRAY_TYPE@ {
        Some(TopicKind::PoseArray)
    } else if ty == PATH_TYPE@ {
        Some(TopicKind::Path)
    } else if ty == LASER_SCAN_TYPE@ {
        Some(TopicKind::Scan)
    } else if ty == POINT_CLOUD_TYPE@ {
        Some(TopicKind::PointCloud)
    } else if ty == MARKER_TYPE@ {
        Some(TopicKind::Marker)
    } else if ty == MARKER_ARRAY_TYPE@ {
        Some(TopicKind::MarkerArray)
    } else {
        None
    }
}

/// Each subscribed message type names its kind, and only those types name
/// one: `PoseStamped` poses, `PoseArray`s, `Path`s, `LaserScan`s,
/// `PointCloud2`s, `Marker`s and `MarkerArray`s. Distinct types name
/// distinct kinds.
pub proof fn lemma_message_kinds(ty: Seq<char>, other: Seq<char>)
    ensures
        kind_of_type("geometry_msgs/msg/PoseStamped"@) == Some(TopicKind::Pose),
        kind_of_type("geometry_msgs/msg/PoseArray"@) == Some(TopicKind::PoseArray),
        kind_of_type("nav_msgs/msg/Path"@) == Some(TopicKind::Path),
        kind_of_type("sensor_msgs/msg/LaserScan"@) == Some(TopicKind::Scan),
        kind_of_type("sensor_msgs/msg/PointCloud2"@) == Some(TopicKind::PointCloud),
        kind_of_type("visualization_msgs/msg/Marker"@) == Some(TopicKind::Marker),
        kind_of_type("visualization_msgs/msg/MarkerArray"@) == Some(TopicKind::MarkerArray),
        kind_of_type(ty) is Some && kind_of_type(ty) == kind_of_type(other) ==> ty == other,
{
    reveal_strlit("geometry_msgs/msg/PoseStamped");
    reveal_strlit("geometry_msgs/msg/PoseArray");
    reveal_strlit("nav_msgs/msg/Path");
    reveal_strlit("sensor_msgs/msg/LaserScan");
    reveal_strlit("sensor_msgs/msg/PointCloud2");
    reveal_strlit("visualization_msgs/msg/Marker");
    reveal_strlit("visualization_msgs/msg/MarkerArray");
    assert(POSE_STAMPED_TYPE@ == "geometry_msgs/msg/PoseStamped"@);
    assert(POSE_ARRAY_TYPE@ == "geometry_msgs/msg/PoseArray"@);
    assert(PATH_TYPE@ == "nav_msgs/msg/Path"@);
    assert(LASER_SCAN_TYPE@ == "sensor_msgs/msg/LaserScan"@);
    assert(POINT_CLOUD_TYPE@ == "sensor_msgs/msg/PointCloud2"@);
    assert(MARKER_TYPE@ == "visualization_msgs/msg/Marker"@);
    assert(MARKER_ARRAY_TYPE@ == "visualization_msgs/msg/MarkerArray"@);
    assert("geometry_msgs/msg/PoseStamped"@ != "geometry_msgs/msg/PoseArray"@) by {
        assert("geometry_msgs/msg/PoseStamped"@.len() != "geometry_msgs/msg/PoseArray"@.len());
    }
    assert("geometry_msgs/msg/PoseStamped"@ != "nav_msgs/msg/Path"@) by {
        assert("geometry_msgs/msg/PoseStamped"@.len() != "nav_msgs/msg/Path"@.len());
    }
    assert("geometry_msgs/msg/PoseStamped"@ != "sensor_msgs/msg/LaserScan"@) by {
        assert("geometry_msgs/msg/PoseStamped"@.len() != "sensor_msgs/msg/LaserScan"@.len());
    }
    assert("geometry_msgs/msg/PoseStamped"@ != "sensor_msgs/msg/PointCloud2"@) by {
        assert("geometry_msgs/msg/PoseStamped"@.len() != "sensor_msgs/msg/PointCloud2"@.len());
    }
    assert("geometry_msgs/msg/PoseStamped"@ != "visualization_msgs/msg/Marker"@) by {
        assert("geometry_msgs/msg/PoseStamped"@[0] != "visualization_msgs/msg/Marker"@[0]);
    }
    assert("geometry_msgs/msg/PoseStamped"@ != "visualization_msgs/msg/MarkerArray"@) by {
        assert("geometry_msgs/msg/PoseStamped"@.len() != "visualization_msgs/msg/MarkerArray"@.len());
    }
    assert("geometry_msgs/msg/PoseArray"@ != "nav_msgs/msg/Path"@) by {
        assert("geometry_msgs/msg/PoseArray"@.len() != "nav_msgs/msg/Path"@.len());
    }
    assert("geometry_msgs/msg/PoseArray"@ != "sensor_msgs/msg/LaserScan"@) by {
        assert("geometry_msgs/msg/PoseArray"@.len() != "sensor_msgs/msg/LaserScan"@.len());
    }
    assert("geometry_msgs/msg/PoseArray"@ != "sensor_msgs/msg/PointCloud2"@) by {
        assert("geometry_msgs/msg/PoseArray"@[0] != "sensor_msgs/msg/PointCloud2"@[0]);
    }
    assert("geometry_msgs/msg/PoseArray"@ != "visualization_msgs/msg/Marker"@) by {
        assert("geometry_msgs/msg/PoseArray"@.len() != "visualization_msgs/msg/Marker"@.len());
    }
    assert("geometry_msgs/msg/PoseArray"@ != "visualization_msgs/msg/MarkerArray"@) by {
        assert("geometry_msgs/msg/PoseArray"@.len() != "visualization_msgs/msg/MarkerArray"@.len());
    }
    assert("nav_msgs/msg/Path"@ != "sensor_msgs/msg/LaserScan"@) by {
        assert("nav_msgs/msg/Path"@.len() != "sensor_msgs/msg/LaserScan"@.len());
    }
    assert("nav_msgs/msg/Path"@ != "sensor_msgs/msg/PointCloud2"@) by {
        assert("nav_msgs/msg/Path"@.len() != "sensor_msgs/msg/PointCloud2"@.len());
    }
    assert("nav_msgs/msg/Path"@ != "visualization_msgs/msg/Marker"@) by {
        assert("nav_msgs/msg/Path"@.len() != "visualization_msgs/msg/Marker"@.len());
    }
    assert("nav_msgs/msg/Path"@ != "visualization_msgs/msg/MarkerArray"@) by {
        assert("nav_msgs/msg/Path"@.len() != "visualization_msgs/msg/MarkerArray"@.len());
    }
    assert("sensor_msgs/msg/LaserScan"@ != "sensor_msgs/msg/PointCloud2"@) by {
        assert("sensor_msgs/msg/LaserScan"@.len() != "sensor_msgs/msg/PointCloud2"@.len());
    }
    assert("sensor_msgs/msg/LaserScan"@ != "visualization_msgs/msg/Marker"@) by {
        assert("sensor_msgs/msg/LaserScan"@.len() != "visualization_msgs/msg/Marker"@.len());
    }
    assert("sensor_msgs/msg/LaserScan"@ != "visualization_msgs/msg/MarkerArray"@) by {
        assert("sensor_msgs/msg/LaserScan"@.len() != "visualization_msgs/msg/MarkerArray"@.len());
    }
    assert("sensor_msgs/msg/PointCloud2"@ != "visualization_msgs/msg/Marker"@) by {
        assert("sensor_msgs/msg/PointCloud2"@.len() != "visualization_msgs/msg/Marker"@.len());
    }
    assert("sensor_msgs/msg/PointCloud2"@ != "visualization_msgs/msg/MarkerArray"@) by {
        assert("sensor_msgs/msg/PointCloud2"@.len() != "visualization_msgs/msg/MarkerArray"@.len());
    }
    assert("visualization_msgs/msg/Marker"@ != "visualization_msgs/msg/MarkerArray"@) by {
        assert("visualization_msgs/msg/Marker"@.len() != "visualization_msgs/msg/MarkerArray"@.len());
    }
}

/// Requests for one discovered topic, one per advertised type whose kind
/// asks for discovery.
pub open spec fn type_requests(cfg: RosConfig, topic: Seq<char>, types: Seq<String>) -> Seq<
    (TopicKind, Seq<char>),
>
    decreases types.len(),
{
    if types.len() == 0 {
        Seq::empty()
    } else {
        let rest = type_requests(cfg, topic, types.drop_last());
        match kind_of_type(types.last()@) {
            Some(k) => if has_wild(kind_topics(cfg, k)) {
                rest.push((k, topic))
            } else {
                rest
            },
            None => rest,
        }
    }
}

/// Requests for a discovery snapshot of `(topic, types)` pairs, in order.
pub open spec fn snapshot_requests(cfg: RosConfig, snap: Seq<(String, Vec<String>)>) -> Seq<
    (TopicKind, Seq<char>),
>
    decreases snap.len(),
{
    if snap.len() == 0 {
        Seq::empty()
    } else {
        snapshot_requests(cfg, snap.drop_last()) + type_requests(
            cfg,
            snap.last().0@,
            snap.last().1@,
        )
    }
}

fn list_has_wildcard(v: &Vec<String>) -> (r: bool)
    ensures
        r == has_wild(strs(v@)),
{
    let mut i: usize = 0;
    while i < v.len()
        invariant
            i <= v@.len(),
            forall|j: int| 0 <= j < i ==> v@[j]@ != WILDCARD@,
        decreases v@.len() - i,
    {
        if str_eq(v[i].as_str(), WILDCARD) {
            proof {
                assert(strs(v@)[i as int] == WILDCARD@);
            }
            return true;
        }
        i = i + 1;
    }
    proof {
        if has_wild(strs(v@)) {
            let k = strs(v@).index_of(WILDCARD@);
            assert(v@[k]@ == WILDCARD@);
        }
    }
    false
}

/// Whether any per-topic kind asks for discovery.
pub fn has_wildcard(cfg: &RosConfig) -> (r: bool)
    ensures
        r == any_wild(*cfg),
{
    list_has_wildcard(&cfg.pose_topics) || list_has_wildcard(&cfg.pose_array_topics)
        || list_has_wildcard(&cfg.path_topics) || list_has_wildcard(&cfg.scan_topics)
        || list_has_wildcard(&cfg.point_topics) || list_has_wildcard(&cfg.marker_topics)
        || list_has_wildcard(&cfg.marker_array_topics)
}

fn push_concrete(out: &mut Vec<SpawnRequest>, kind: TopicKind, v: &Vec<String>)
    ensures
        requests_view(final(out)@) == requests_view(old(out)@) + kinded(kind, concrete(strs(v@))),
{
    let ghost start = requests_view(out@);
    let mut i: usize = 0;
    while i < v.len()
        invariant
            i <= v@.len(),
            requests_view(out@) == start + kinded(kind, concrete(strs(v@).subrange(0, i as int))),
        decreases v@.len() - i,
    {
        proof {
            let sv = strs(v@);
            assert(sv.subrange(0, i + 1).drop_last() =~= sv.subrange(0, i as int));
            assert(sv.subrange(0, i + 1).last() == v@[i as int]@);
        }
        if !str_eq(v[i].as_str(), WILDCARD) {
            let ghost before = out@;
            out.push(SpawnRequest { kind, topic: v[i].clone() });
            proof {
                let sv = strs(v@);
                assert(requests_view(out@) =~= requests_view(before).push((kind, v@[i as int]@)));
                assert(kinded(kind, concrete(sv.subrange(0, i + 1))) =~= kinded(
                    kind,
                    concrete(sv.subrange(0, i as int)),
                ).push((kind, v@[i as int]@)));
            }
        }
        i = i + 1;
    }
    proof {
        assert(strs(v@).subrange(0, v@.len() as int) =~= strs(v@));
    }
}

/// The concrete topics of `kind`, each with its kind.
pub open spec fn kind_requests(cfg: RosConfig, kind: TopicKind) -> Seq<(TopicKind, Seq<char>)> {
    kinded(kind, concrete(kind_topics(cfg, kind)))
}

/// The per-topic subscribers of the startup, kind by kind.
pub open spec fn startup_requests(cfg: RosConfig) -> Seq<(TopicKind, Seq<char>)> {
    kind_requests(cfg, TopicKind::Pose) + kind_requests(cfg, TopicKind::PoseArray) + kind_requests(
        cfg,
        TopicKind::Path,
    ) + kind_requests(cfg, TopicKind::Scan) + kind_requests(cfg, TopicKind::PointCloud)
        + kind_requests(cfg, TopicKind::Marker) + kind_requests(cfg, TopicKind::MarkerArray)
}

/// The subscribers spawned at startup: every concrete topic of each kind
/// (poses, pose arrays, paths, scans, point clouds, markers, marker
/// arrays, in that order). Wildcards are left to
/// discovery. The map is subscribed unless its topic is the wildcard.
pub fn bootstrap_requests(cfg: &RosConfig) -> (r: (bool, Vec<SpawnRequest>))
    ensures
        r.0 == (cfg.map_topic@ != WILDCARD@),
        requests_view(r.1@) == startup_requests(*cfg),
{
    let map = !str_eq(cfg.map_topic.as_str(), WILDCARD);
    let mut out: Vec<SpawnRequest> = Vec::new();
    proof {
        assert(requests_view(out@) =~= Seq::empty());
    }
    push_concrete(&mut out, TopicKind::Pose, &cfg.pose_topics);
    push_concrete(&mut out, TopicKind::PoseArray, &cfg.pose_array_topics);
    push_concrete(&mut out, TopicKind::Path, &cfg.path_topics);
    push_concrete(&mut out, TopicKind::Scan, &cfg.scan_topics);
    push_concrete(&mut out, TopicKind::PointCloud, &cfg.point_topics);
    push_concrete(&mut out, TopicKind::Marker, &cfg.marker_topics);
    push_concrete(&mut out, TopicKind::MarkerArray, &cfg.marker_array_topics);
    proof {
        assert(requests_view(out@) =~= startup_requests(*cfg));
    }
    (map, out)
}

/// The kind carrying message type `ty`.
pub fn kind_for_type(ty: &str) -> (r: Option<TopicKind>)
    ensures
        r == kind_of_type(ty@),
{
    if str_eq(ty, POSE_STAMPED_TYPE) {
        Some(TopicKind::Pose)
    } else if str_eq(ty, POSE_ARRAY_TYPE) {
        Some(TopicKind::PoseArray)
    } else if str_eq(ty, PATH_TYPE) {
        Some(TopicKind::Path)
    } else if str_eq(ty, LASER_SCAN_TYPE) {
        Some(TopicKind::Scan)
    } else if str_eq(ty, POINT_CLOUD_TYPE) {
        Some(TopicKind::PointCloud)
    } else if str_eq(ty, MARKER_TYPE) {
        Some(TopicKind::Marker)
    } else if str_eq(ty, MARKER_ARRAY_TYPE) {
        Some(TopicKind::MarkerArray)
    } else {
        None
    }
}

/// One discovery cycle: for each `(topic, types)` of the snapshot and each
/// type whose kind asks for discovery, a request for that kind. Nothing
/// when no kind asks for discovery. Requests for topics already subscribed
/// are turned down by `Registry::claim`.
pub fn tick_requests(cfg: &RosConfig, snapshot: &Vec<(String, Vec<String>)>) -> (r: Vec<SpawnRequest>)
    ensures
        requests_view(r@) == if any_wild(*cfg) {
            snapshot_requests(*cfg, snapshot@)
        } else {
            Seq::empty()
        },
{
    let mut out: Vec<SpawnRequest> = Vec::new();
    if !has_wildcard(cfg) {
        proof {
            assert(requests_view(out@) =~= Seq::empty());
        }
        return out;
    }
    let pose_wild = list_has_wildcard(&cfg.pose_topics);
    let pose_array_wild = list_has_wildcard(&cfg.pose_array_topics);
    let path_wild = list_has_wildcard(&cfg.path_topics);
    let scan_wild = list_has_wildcard(&cfg.scan_topics);
    let point_wild = list_has_wildcard(&cfg.point_topics);
    let marker_wild = list_has_wildcard(&cfg.marker_topics);
    let marker_array_wild = list_has_wildcard(&cfg.marker_array_topics);
    proof {
        assert(requests_view(out@) =~= Seq::empty());
        assert(snapshot@.subrange(0, 0) =~= Seq::<(String, Vec<String>)>::empty());
    }
    let mut i: usize = 0;
    while i < snapshot.len()
        invariant
            i <= snapshot@.len(),
            pose_wild == has_wild(kind_topics(*cfg, TopicKind::Pose)),
            pose_array_wild == has_wild(kind_topics(*cfg, TopicKind::PoseArray)),
            path_wild == has_wild(kind_topics(*cfg, TopicKind::Path)),
            scan_wild == has_wild(kind_topics(*cfg, TopicKind::Scan)),
            point_wild == has_wild(kind_topics(*cfg, TopicKind::PointCloud)),
            marker_wild == has_wild(kind_topics(*cfg, TopicKind::Marker)),
            marker_array_wild == has_wild(kind_topics(*cfg, TopicKind::MarkerArray)),
            requests_view(out@) == snapshot_requests(*cfg, snapshot@.subrange(0, i as int)),
        decreases snapshot@.len() - i,
    {
        let topic = &snapshot[i].0;
        let types = &snapshot[i].1;
        let ghost base = requests_view(out@);
        let mut j: usize = 0;
        proof {
            assert(types@.subrange(0, 0) =~= Seq::<String>::empty());
            assert(base + type_requests(*cfg, topic@, types@.subrange(0, 0)) =~= base);
        }
        while j < types.len()
            invariant
                j <= types@.len(),
                topic == &snapshot@[i as int].0,
                types == &snapshot@[i as int].1,
                pose_wild == has_wild(kind_topics(*cfg, TopicKind::Pose)),
                pose_array_wild == has_wild(kind_topics(*cfg, TopicKind::PoseArray)),
                path_wild == has_wild(kind_topics(*cfg, TopicKind::Path)),
                scan_wild == has_wild(kind_topics(*cfg, TopicKind::Scan)),
                point_wild == has_wild(kind_topics(*cfg, TopicKind::PointCloud)),
                marker_wild == has_wild(kind_topics(*cfg, TopicKind::Marker)),
                marker_array_wild == has_wild(kind_topics(*cfg, TopicKind::MarkerArray)),
                requests_view(out@) == base + type_requests(*cfg, topic@, types@.subrange(0, j as int)),
            decreases types@.len() - j,
        {
            proof {
                assert(types@.subrange(0, j + 1).drop_last() =~= types@.subrange(0, j as int));
                assert(types@.subrange(0, j + 1).last() == types@[j as int]);
            }
            let ghost before = out@;
            match kind_for_type(types[j].as_str()) {
                Some(k) => {
                    let wild = match k {
                        TopicKind::Pose => pose_wild,
                        TopicKind::PoseArray => pose_array_wild,
                        TopicKind::Path => path_wild,
                        TopicKind::Scan => scan_wild,
                        TopicKind::PointCloud => point_wild,
                        TopicKind::Marker => marker_wild,
                        TopicKind::MarkerArray => marker_array_wild,
                    };
                    if wild {
                        out.push(SpawnRequest { kind: k, topic: topic.clone() });
                        proof {
                            assert(requests_view(out@) =~= requests_view(before).push((k, topic@)));
                        }
                    }
                },
                None => {},
            }
            j = j + 1;
        }
        proof {
            assert(types@.subrange(0, types@.len() as int) =~= types@);
            assert(snapshot@.subrange(0, i + 1).drop_last() =~= snapshot@.subrange(0, i as int));
            assert(snapshot@.subrange(0, i + 1).last() == snapshot@[i as int]);
        }
        i = i + 1;
    }
    proof {
        assert(snapshot@.subrange(0, snapshot@.len() as int) =~= snapshot@);
    }
    out
}

/// Discovery runs once every this many ticks of the node loop.
pub const DISCOVERY_EVERY_N_TICKS: u32 = 50;

/// What one tick of the node loop does besides spinning.
#[derive(Clone, Copy, Debug, PartialEq, Eq, Structural)]
pub struct TickActions {
    /// Parse the robot description that arrived on the URDF topic.
    pub parse_urdf: bool,
    /// Run a discovery cycle and refresh the topic snapshot.
    pub discover: bool,
}

/// The decisions the node loop keeps across ticks.
pub struct NodeLoop {
    pub tick_count: u32,
    /// Still waiting for the first robot description on the URDF topic.
    pub urdf_waiting: bool,
}

impl NodeLoop {
    /// The loop at startup: it waits for a robot description on the URDF
    /// topic only when the configuration names such a topic and no file.
    pub fn new(cfg: &RosConfig) -> (r: Self)
        ensures
            r.tick_count == 0,
            r.urdf_waiting == (cfg.urdf_path is None && cfg.urdf_topic is Some),
    {
        NodeLoop { tick_count: 0, urdf_waiting: cfg.urdf_path.is_none() && cfg.urdf_topic.is_some() }
    }

    /// One tick: `urdf_arrived` tells whether a robot description is waiting
    /// to be taken. The first one is parsed (later ones are not); discovery
    /// runs every `DISCOVERY_EVERY_N_TICKS` ticks, the counter wrapping.
    pub fn tick(&mut self, urdf_arrived: bool) -> (r: TickActions)
        ensures
            r.parse_urdf == (old(self).urdf_waiting && urdf_arrived),
            final(self).urdf_waiting == (old(self).urdf_waiting && !urdf_arrived),
            final(self).tick_count == (if old(self).tick_count == u32::MAX {
                0
            } else {
                old(self).tick_count + 1
            }),
            r.discover == (final(self).tick_count % DISCOVERY_EVERY_N_TICKS == 0),
    {
        let parse_urdf = self.urdf_waiting && urdf_arrived;
        if parse_urdf {
            self.urdf_waiting = false;
        }
        self.tick_count = if self.tick_count == u32::MAX {
            0
        } else {
            self.tick_count + 1
        };
        TickActions { parse_urdf, discover: self.tick_count % DISCOVERY_EVERY_N_TICKS == 0 }
    }
}

} // verus!
