//! Per-topic bookkeeping of `visualization_msgs/Marker` entities.
//!
//! Every `(ns, id)` pair a publisher uses is mapped to its own `EntityId`,
//! allocated in order of first appearance from the topic's slab. `DELETE`
//! forgets one pair, `DELETEALL` every pair of the topic. A marker whose
//! render-relevant payload (summarised by a hash computed by the caller) is
//! unchanged since it was last accepted is skipped, so identical
//! re-publishes do not bump entity revisions.
//!
//! `TopicState::plan_batch` decides, for a batch of markers, which entities
//! are removed and which markers are (re)built and upserted under which id;
//! building the geometry and looking up transforms is the caller's part.

use vstd::prelude::*;

use crate::ids::{EntityId, ROS_ID_MARKER_PER_TOPIC};
use crate::panel::{find_char_from, find_open_from, parse_label, rfind_char};
use crate::text::{decimal, digits, lemma_digits_chars, push_char, push_decimal, push_str, str_eq};

verus! {

/// `Marker.type_` values.
pub const T_ARROW: i32 = 0;
pub const T_CUBE: i32 = 1;
pub const T_SPHERE: i32 = 2;
pub const T_CYLINDER: i32 = 3;
pub const T_LINE_STRIP: i32 = 4;
pub const T_LINE_LIST: i32 = 5;
pub const T_CUBE_LIST: i32 = 6;
pub const T_SPHERE_LIST: i32 = 7;
pub const T_POINTS: i32 = 8;
pub const T_TEXT_VIEW_FACING: i32 = 9;
pub const T_MESH_RESOURCE: i32 = 10;
pub const T_TRIANGLE_LIST: i32 = 11;

/// `Marker.action` values. `ADD` and `MODIFY` share a value; any other
/// unknown value is treated as `ADD`.
pub const A_ADD: i32 = 0;
pub const A_DELETE: i32 = 2;
pub const A_DELETEALL: i32 = 3;

/// The entity allocated to one `(ns, id)` pair.
pub struct MarkerSlot {
    pub ns: String,
    pub id: i32,
    pub eid: EntityId,
}

/// The payload hash last accepted for one `(ns, id)` pair.
pub struct PayloadMark {
    pub ns: String,
    pub id: i32,
    pub hash: u64,
}

/// A keyed entry as the contracts see it: `(ns, id, value)`.
pub type Keyed<V> = (Seq<char>, i32, V);

/// Position of the last entry keyed `(ns, id)`, or `-1` when there is none.
pub open spec fn key_pos<V>(s: Seq<Keyed<V>>, ns: Seq<char>, id: i32) -> int
    decreases s.len(),
{
    if s.len() == 0 {
        -1
    } else if s.last().0 == ns && s.last().1 == id {
        s.len() - 1
    } else {
        key_pos(s.drop_last(), ns, id)
    }
}

/// No two entries share a key.
pub open spec fn keys_distinct<V>(s: Seq<Keyed<V>>) -> bool {
    forall|i: int, j: int|
        0 <= i < s.len() && 0 <= j < s.len() && i != j ==> (s[i].0, s[i].1) != (s[j].0, s[j].1)
}

proof fn lemma_key_pos<V>(s: Seq<Keyed<V>>, ns: Seq<char>, id: i32)
    ensures
        -1 <= key_pos(s, ns, id) < s.len(),
        key_pos(s, ns, id) >= 0 ==> s[key_pos(s, ns, id)].0 == ns && s[key_pos(s, ns, id)].1 == id,
        key_pos(s, ns, id) == -1 ==> forall|j: int|
            0 <= j < s.len() ==> !(#[trigger] s[j].0 == ns && s[j].1 == id),
    decreases s.len(),
{
    if s.len() > 0 && !(s.last().0 == ns && s.last().1 == id) {
        let d = s.drop_last();
        lemma_key_pos(d, ns, id);
        if key_pos(s, ns, id) >= 0 {
            assert(s[key_pos(s, ns, id)] == d[key_pos(s, ns, id)]);
        }
        if key_pos(s, ns, id) == -1 {
            assert forall|j: int| 0 <= j < s.len() implies !(#[trigger] s[j].0 == ns && s[j].1
                == id) by {
                if j < s.len() - 1 {
                    assert(s[j] == d[j]);
                }
            }
        }
    }
}

/// With distinct keys, an entry's own key is found at its position.
proof fn lemma_key_pos_unique<V>(s: Seq<Keyed<V>>, i: int)
    requires
        keys_distinct(s),
        0 <= i < s.len(),
    ensures
        key_pos(s, s[i].0, s[i].1) == i,
{
    lemma_key_pos(s, s[i].0, s[i].1);
    let p = key_pos(s, s[i].0, s[i].1);
    if p != i {
        if p >= 0 {
            assert((s[p].0, s[p].1) == (s[i].0, s[i].1));
        } else {
            assert(!(s[i].0 == s[i].0 && s[i].1 == s[i].1));
        }
    }
}

proof fn lemma_remove_keeps_distinct<V>(s: Seq<Keyed<V>>, p: int)
    requires
        keys_distinct(s),
        0 <= p < s.len(),
    ensures
        keys_distinct(s.remove(p)),
        forall|j: int| 0 <= j < s.len() - 1 ==> #[trigger] s.remove(p)[j] == if j < p {
            s[j]
        } else {
            s[j + 1]
        },
{
    let r = s.remove(p);
    assert forall|i: int, j: int|
        0 <= i < r.len() && 0 <= j < r.len() && i != j implies (r[i].0, r[i].1) != (r[j].0,
        r[j].1) by {
        let a = if i < p {
            i
        } else {
            i + 1
        };
        let b = if j < p {
            j
        } else {
            j + 1
        };
        assert(r[i] == s[a]);
        assert(r[j] == s[b]);
    }
}

proof fn lemma_record_keeps_distinct<V>(s: Seq<Keyed<V>>, ns: Seq<char>, id: i32, v: V)
    requires
        keys_distinct(s),
    ensures
        ({
            let q = key_pos(s, ns, id);
            keys_distinct(
                if q >= 0 {
                    s.update(q, (ns, id, v))
                } else {
                    s.push((ns, id, v))
                },
            )
        }),
{
    lemma_key_pos(s, ns, id);
    let q = key_pos(s, ns, id);
    let r = if q >= 0 {
        s.update(q, (ns, id, v))
    } else {
        s.push((ns, id, v))
    };
    assert forall|i: int, j: int|
        0 <= i < r.len() && 0 <= j < r.len() && i != j implies (r[i].0, r[i].1) != (r[j].0,
        r[j].1) by {
        if i < s.len() && i != q {
            assert(r[i] == s[i]);
        }
        if j < s.len() && j != q {
            assert(r[j] == s[j]);
        }
    }
}

pub open spec fn slot_view(x: MarkerSlot) -> Keyed<EntityId> {
    (x.ns@, x.id, x.eid)
}

pub open spec fn mark_view(x: PayloadMark) -> Keyed<u64> {
    (x.ns@, x.id, x.hash)
}

/// The state of one marker topic as the contracts see it.
pub struct MarkerModel {
    pub slab_base: u64,
    pub next_slot: u64,
    pub slots: Seq<Keyed<EntityId>>,
    pub marks: Seq<Keyed<u64>>,
    pub warned: Seq<i32>,
}

/// `(ns, id)` → entity allocation of a topic, with the payload hashes and
/// the marker types already reported as unsupported.
pub struct TopicState {
    pub slab_base: u64,
    pub next_slot: u64,
    pub entities: Vec<MarkerSlot>,
    pub last_payload_hash: Vec<PayloadMark>,
    pub warned_unsupported: Vec<i32>,
}

impl MarkerModel {
    /// Allocation invariant: keys are distinct, every allocated id lies in
    /// the used part of the topic's slab, and ids are pairwise distinct.
    pub open spec fn wf(self) -> bool {
        &&& self.next_slot <= ROS_ID_MARKER_PER_TOPIC
        &&& self.slab_base + ROS_ID_MARKER_PER_TOPIC <= u64::MAX
        &&& keys_distinct(self.slots)
        &&& keys_distinct(self.marks)
        &&& forall|i: int|
            0 <= i < self.slots.len() ==> self.slab_base <= (#[trigger] self.slots[i]).2.0
                < self.slab_base + self.next_slot
        &&& forall|i: int, j: int|
            0 <= i < self.slots.len() && 0 <= j < self.slots.len() && i != j ==> (
            #[trigger] self.slots[i]).2 != (#[trigger] self.slots[j]).2
    }

    /// The entity allocated to `(ns, id)`, if any.
    pub open spec fn lookup(self, ns: Seq<char>, id: i32) -> Option<EntityId> {
        let p = key_pos(self.slots, ns, id);
        if p >= 0 {
            Some(self.slots[p].2)
        } else {
            None
        }
    }

    /// The payload hash last accepted for `(ns, id)`, if any.
    pub open spec fn last_hash(self, ns: Seq<char>, id: i32) -> Option<u64> {
        let p = key_pos(self.marks, ns, id);
        if p >= 0 {
            Some(self.marks[p].2)
        } else {
            None
        }
    }

    /// Allocation: the existing id of a known pair; else the next slot of
    /// the slab, unless the slab is used up.
    pub open spec fn allocate(self, ns: Seq<char>, id: i32) -> (MarkerModel, Option<EntityId>) {
        match self.lookup(ns, id) {
            Some(e) => (self, Some(e)),
            None => if self.next_slot >= ROS_ID_MARKER_PER_TOPIC {
                (self, None)
            } else {
                let e = EntityId((self.slab_base + self.next_slot) as u64);
                (
                    MarkerModel {
                        next_slot: (self.next_slot + 1) as u64,
                        slots: self.slots.push((ns, id, e)),
                        ..self
                    },
                    Some(e),
                )
            },
        }
    }

    /// Forget `(ns, id)` and its payload hash; yields its entity, if any.
    pub open spec fn remove(self, ns: Seq<char>, id: i32) -> (MarkerModel, Option<EntityId>) {
        let p = key_pos(self.slots, ns, id);
        let q = key_pos(self.marks, ns, id);
        (
            MarkerModel {
                slots: if p >= 0 {
                    self.slots.remove(p)
                } else {
                    self.slots
                },
                marks: if q >= 0 {
                    self.marks.remove(q)
                } else {
                    self.marks
                },
                ..self
            },
            self.lookup(ns, id),
        )
    }

    /// Remember `h` as the payload hash of `(ns, id)`.
    pub open spec fn record(self, ns: Seq<char>, id: i32, h: u64) -> MarkerModel {
        let q = key_pos(self.marks, ns, id);
        MarkerModel {
            marks: if q >= 0 {
                self.marks.update(q, (ns, id, h))
            } else {
                self.marks.push((ns, id, h))
            },
            ..self
        }
    }
}

/// The marker types that produce geometry; a triangle list needs at least
/// one triangle.
pub open spec fn renders(kind: i32, point_count: usize) -> bool {
    ||| kind == T_ARROW
    ||| kind == T_CUBE
    ||| kind == T_SPHERE
    ||| kind == T_CYLINDER
    ||| kind == T_LINE_STRIP
    ||| kind == T_CUBE_LIST
    ||| kind == T_SPHERE_LIST
    ||| kind == T_POINTS
    ||| kind == T_TEXT_VIEW_FACING
    ||| (kind == T_TRIANGLE_LIST && point_count >= 3)
}

/// The marker types this viewer knows how to draw at all.
pub open spec fn is_known_shape(kind: i32) -> bool {
    renders(kind, 3)
}

/// The marker types that are drawn: arrows, cubes, spheres, cylinders, line
/// strips, cube and sphere lists, points and facing text, whatever their
/// point count, and triangle lists of at least one triangle. Line lists,
/// mesh resources, short triangle lists and unknown types are not.
pub proof fn lemma_drawn_marker_types(kind: i32, n: usize)
    ensures
        renders(0, n),
        renders(1, n),
        renders(2, n),
        renders(3, n),
        renders(4, n),
        renders(6, n),
        renders(7, n),
        renders(8, n),
        renders(9, n),
        renders(11, n) <==> n >= 3,
        !renders(5, n),
        !renders(10, n),
        kind < 0 || kind > 11 ==> !renders(kind, n),
{
}

/// Whether a marker of type `kind` with `point_count` points yields geometry.
pub fn marker_renders(kind: i32, point_count: usize) -> (r: bool)
    ensures
        r == renders(kind, point_count),
{
    kind == T_ARROW || kind == T_CUBE || kind == T_SPHERE || kind == T_CYLINDER || kind
        == T_LINE_STRIP || kind == T_CUBE_LIST || kind == T_SPHERE_LIST || kind == T_POINTS
        || kind == T_TEXT_VIEW_FACING || (kind == T_TRIANGLE_LIST && point_count >= 3)
}

/// What the batch planner needs of one incoming marker.
pub struct MarkerInput {
    pub ns: String,
    pub id: i32,
    pub action: i32,
    pub kind: i32,
    pub point_count: usize,
    /// Hash of the render-relevant fields (type, action, frame, pose,
    /// scale, color, text, points, colors), excluding the stamp.
    pub payload_hash: u64,
}

/// Marker `index` of the batch is built and upserted as entity `eid`.
pub struct MarkerUpsert {
    pub index: usize,
    pub eid: EntityId,
}

/// What a batch of markers does to the scene. Removals are applied before
/// upserts.
pub struct MarkerBatchPlan {
    pub to_remove: Vec<EntityId>,
    pub to_upsert: Vec<MarkerUpsert>,
    /// Unsupported marker types seen for the first time on this topic.
    pub newly_unsupported: Vec<i32>,
    /// Markers dropped because the topic's slab is used up.
    pub slab_full: Vec<usize>,
}

/// The state and the accumulated effects part-way through a batch.
pub struct BatchModel {
    pub st: MarkerModel,
    pub removes: Seq<EntityId>,
    pub upserts: Seq<(int, EntityId)>,
    pub warned_new: Seq<i32>,
    pub dropped: Seq<int>,
}

pub open spec fn slot_ids(s: Seq<Keyed<EntityId>>) -> Seq<EntityId> {
    s.map_values(|k: Keyed<EntityId>| k.2)
}

/// The effect of marker `m`, at position `idx` of its batch.
pub open spec fn batch_step(b: BatchModel, idx: int, m: MarkerInput) -> BatchModel {
    if m.action == A_DELETE {
        let (st, r) = b.st.remove(m.ns@, m.id);
        BatchModel {
            st,
            removes: match r {
                Some(e) => b.removes.push(e),
                None => b.removes,
            },
            ..b
        }
    } else if m.action == A_DELETEALL {
        BatchModel {
            st: MarkerModel { slots: Seq::empty(), marks: Seq::empty(), ..b.st },
            removes: b.removes + slot_ids(b.st.slots),
            ..b
        }
    } else if b.st.last_hash(m.ns@, m.id) == Some(m.payload_hash) {
        b
    } else if !renders(m.kind, m.point_count) {
        if !is_known_shape(m.kind) && !b.st.warned.contains(m.kind) {
            BatchModel {
                st: MarkerModel { warned: b.st.warned.push(m.kind), ..b.st },
                warned_new: b.warned_new.push(m.kind),
                ..b
            }
        } else {
            b
        }
    } else {
        let (st, r) = b.st.allocate(m.ns@, m.id);
        match r {
            None => BatchModel { dropped: b.dropped.push(idx), ..b },
            Some(e) => BatchModel {
                st: st.record(m.ns@, m.id, m.payload_hash),
                upserts: b.upserts.push((idx, e)),
                ..b
            },
        }
    }
}

/// The effect of a whole batch, marker by marker in order.
pub open spec fn batch_run(st: MarkerModel, ms: Seq<MarkerInput>) -> BatchModel
    decreases ms.len(),
{
    if ms.len() == 0 {
        BatchModel {
            st,
            removes: Seq::empty(),
            upserts: Seq::empty(),
            warned_new: Seq::empty(),
            dropped: Seq::empty(),
        }
    } else {
        batch_step(batch_run(st, ms.drop_last()), ms.len() - 1, ms.last())
    }
}

impl MarkerBatchPlan {
    pub open spec fn upserts_view(&self) -> Seq<(int, EntityId)> {
        self.to_upsert@.map_values(|u: MarkerUpsert| (u.index as int, u.eid))
    }

    pub open spec fn slab_full_view(&self) -> Seq<int> {
        self.slab_full@.map_values(|i: usize| i as int)
    }
}

impl TopicState {
    pub open spec fn model(&self) -> MarkerModel {
        MarkerModel {
            slab_base: self.slab_base,
            next_slot: self.next_slot,
            slots: self.entities@.map_values(|x: MarkerSlot| slot_view(x)),
            marks: self.last_payload_hash@.map_values(|x: PayloadMark| mark_view(x)),
            warned: self.warned_unsupported@,
        }
    }

    pub open spec fn wf(&self) -> bool {
        self.model().wf()
    }

    /// An empty state for the topic whose slab starts at `slab_base`.
    pub fn new(slab_base: u64) -> (r: Self)
        requires
            slab_base + ROS_ID_MARKER_PER_TOPIC <= u64::MAX,
        ensures
            r.wf(),
            r.model() == (MarkerModel {
                slab_base,
                next_slot: 0,
                slots: Seq::empty(),
                marks: Seq::empty(),
                warned: Seq::empty(),
            }),
    {
        let r = TopicState {
            slab_base,
            next_slot: 0,
            entities: Vec::new(),
            last_payload_hash: Vec::new(),
            warned_unsupported: Vec::new(),
        };
        proof {
            assert(r.model().slots =~= Seq::empty());
            assert(r.model().marks =~= Seq::empty());
        }
        r
    }

    /// Position of `(ns, id)` in `entities`.
    fn find_slot(&self, ns: &str, id: i32) -> (r: Option<usize>)
        ensures
            match r {
                Some(i) => i == key_pos(self.model().slots, ns@, id),
                None => key_pos(self.model().slots, ns@, id) == -1,
            },
    {
        let ghost s = self.model().slots;
        let mut i = self.entities.len();
        proof {
            assert(s.subrange(0, i as int) =~= s);
        }
        while i > 0
            invariant
                i <= s.len(),
                s == self.model().slots,
                key_pos(s, ns@, id) == key_pos(s.subrange(0, i as int), ns@, id),
            decreases i,
        {
            let e = &self.entities[i - 1];
            proof {
                let sp = s.subrange(0, i as int);
                assert(sp.last() == s[i - 1]);
                assert(sp.drop_last() =~= s.subrange(0, i - 1));
            }
            if e.id == id && str_eq(e.ns.as_str(), ns) {
                return Some(i - 1);
            }
            i = i - 1;
        }
        None
    }

    /// Position of `(ns, id)` in `last_payload_hash`.
    fn find_mark(&self, ns: &str, id: i32) -> (r: Option<usize>)
        ensures
            match r {
                Some(i) => i == key_pos(self.model().marks, ns@, id),
                None => key_pos(self.model().marks, ns@, id) == -1,
            },
    {
        let ghost s = self.model().marks;
        let mut i = self.last_payload_hash.len();
        proof {
            assert(s.subrange(0, i as int) =~= s);
        }
        while i > 0
            invariant
                i <= s.len(),
                s == self.model().marks,
                key_pos(s, ns@, id) == key_pos(s.subrange(0, i as int), ns@, id),
            decreases i,
        {
            let e = &self.last_payload_hash[i - 1];
            proof {
                let sp = s.subrange(0, i as int);
                assert(sp.last() == s[i - 1]);
                assert(sp.drop_last() =~= s.subrange(0, i - 1));
            }
            if e.id == id && str_eq(e.ns.as_str(), ns) {
                return Some(i - 1);
            }
            i = i - 1;
        }
        None
    }

    /// The entity of `(ns, id)`: the one already allocated, else the next
    /// free slot of the slab; `None` once the slab is used up.
    pub fn allocate(&mut self, ns: &str, id: i32) -> (r: Option<EntityId>)
        requires
            old(self).wf(),
        ensures
            final(self).wf(),
            (final(self).model(), r) == old(self).model().allocate(ns@, id),
    {
        proof {
            lemma_key_pos(self.model().slots, ns@, id);
        }
        match self.find_slot(ns, id) {
            Some(i) => {
                return Some(self.entities[i].eid);
            },
            None => {},
        }
        if self.next_slot >= ROS_ID_MARKER_PER_TOPIC {
            return None;
        }
        let ghost m0 = self.model();
        let eid = EntityId(self.slab_base + self.next_slot);
        self.next_slot = self.next_slot + 1;
        self.entities.push(MarkerSlot { ns: ns.to_owned(), id, eid });
        proof {
            let m = self.model();
            assert(m.slots =~= m0.slots.push((ns@, id, eid)));
            assert(m.marks =~= m0.marks);
            assert forall|i: int, j: int|
                0 <= i < m.slots.len() && 0 <= j < m.slots.len() && i != j implies (m.slots[i].0,
                m.slots[i].1) != (m.slots[j].0, m.slots[j].1) by {
                if i < m0.slots.len() && j < m0.slots.len() {
                    assert(m.slots[i] == m0.slots[i]);
                    assert(m.slots[j] == m0.slots[j]);
                } else if i < m0.slots.len() {
                    assert(m.slots[i] == m0.slots[i]);
                } else {
                    assert(m.slots[j] == m0.slots[j]);
                }
            }
            assert forall|i: int, j: int|
                0 <= i < m.slots.len() && 0 <= j < m.slots.len() && i != j implies (
                #[trigger] m.slots[i]).2 != (#[trigger] m.slots[j]).2 by {
                if i < m0.slots.len() {
                    assert(m.slots[i] == m0.slots[i]);
                }
                if j < m0.slots.len() {
                    assert(m.slots[j] == m0.slots[j]);
                }
            }
            assert forall|i: int| 0 <= i < m.slots.len() implies m.slab_base <= (
            #[trigger] m.slots[i]).2.0 < m.slab_base + m.next_slot by {
                if i < m0.slots.len() {
                    assert(m.slots[i] == m0.slots[i]);
                }
            }
        }
        Some(eid)
    }

    /// Forget `(ns, id)` and its payload hash (`DELETE`); yields the entity
    /// it had.
    pub fn remove(&mut self, ns: &str, id: i32) -> (r: Option<EntityId>)
        requires
            old(self).wf(),
        ensures
            final(self).wf(),
            (final(self).model(), r) == old(self).model().remove(ns@, id),
    {
        let ghost m0 = self.model();
        proof {
            lemma_key_pos(m0.slots, ns@, id);
            lemma_key_pos(m0.marks, ns@, id);
        }
        match self.find_mark(ns, id) {
            Some(q) => {
                self.last_payload_hash.remove(q);
                proof {
                    lemma_remove_keeps_distinct(m0.marks, q as int);
                    assert(self.model().marks =~= m0.marks.remove(q as int));
                }
            },
            None => {},
        }
        let ghost m1 = self.model();
        match self.find_slot(ns, id) {
            Some(p) => {
                let eid = self.entities[p].eid;
                self.entities.remove(p);
                proof {
                    lemma_remove_keeps_distinct(m0.slots, p as int);
                    let m = self.model();
                    assert(m.slots =~= m0.slots.remove(p as int));
                    assert forall|i: int| 0 <= i < m.slots.len() implies m.slab_base <= (
                    #[trigger] m.slots[i]).2.0 < m.slab_base + m.next_slot by {
                        if i >= p {
                            assert(m.slots[i] == m0.slots[i + 1]);
                        }
                    }
                    assert forall|i: int, j: int|
                        0 <= i < m.slots.len() && 0 <= j < m.slots.len() && i != j implies (
                        #[trigger] m.slots[i]).2 != (#[trigger] m.slots[j]).2 by {
                        let a = if i < p {
                            i
                        } else {
                            i + 1
                        };
                        let b = if j < p {
                            j
                        } else {
                            j + 1
                        };
                        assert(m.slots[i] == m0.slots[a]);
                        assert(m.slots[j] == m0.slots[b]);
                    }
                }
                Some(eid)
            },
            None => {
                proof {
                    assert(self.model().slots =~= m0.slots);
                }
                None
            },
        }
    }

    /// Forget every pair of the topic (`DELETEALL`); yields their entities in
    /// allocation order.
    pub fn clear_all(&mut self) -> (r: Vec<EntityId>)
        requires
            old(self).wf(),
        ensures
            final(self).wf(),
            final(self).model() == (MarkerModel {
                slots: Seq::empty(),
                marks: Seq::empty(),
                ..old(self).model()
            }),
            r@ == slot_ids(old(self).model().slots),
    {
        let ghost m0 = self.model();
        let mut ids: Vec<EntityId> = Vec::new();
        let mut i: usize = 0;
        while i < self.entities.len()
            invariant
                m0 == self.model(),
                i <= self.entities@.len(),
                ids@ =~= slot_ids(m0.slots).subrange(0, i as int),
            decreases self.entities@.len() - i,
        {
            ids.push(self.entities[i].eid);
            i = i + 1;
        }
        self.entities.clear();
        self.last_payload_hash.clear();
        proof {
            assert(self.model().slots =~= Seq::empty());
            assert(self.model().marks =~= Seq::empty());
            assert(ids@ =~= slot_ids(m0.slots));
        }
        ids
    }

    /// The payload hash last accepted for `(ns, id)`.
    pub fn last_hash(&self, ns: &str, id: i32) -> (r: Option<u64>)
        ensures
            r == self.model().last_hash(ns@, id),
    {
        proof {
            lemma_key_pos(self.model().marks, ns@, id);
        }
        match self.find_mark(ns, id) {
            Some(q) => Some(self.last_payload_hash[q].hash),
            None => None,
        }
    }

    /// Remember `hash` as the accepted payload of `(ns, id)`.
    pub fn record_hash(&mut self, ns: &str, id: i32, hash: u64)
        requires
            old(self).wf(),
        ensures
            final(self).wf(),
            final(self).model() == old(self).model().record(ns@, id, hash),
    {
        let ghost m0 = self.model();
        proof {
            lemma_key_pos(m0.marks, ns@, id);
            lemma_record_keeps_distinct(m0.marks, ns@, id, hash);
        }
        match self.find_mark(ns, id) {
            Some(q) => {
                self.last_payload_hash.set(q, PayloadMark { ns: ns.to_owned(), id, hash });
            },
            None => {
                self.last_payload_hash.push(PayloadMark { ns: ns.to_owned(), id, hash });
            },
        }
        proof {
            assert(self.model().marks =~= m0.record(ns@, id, hash).marks);
        }
    }

    /// Note that marker type `kind` is unsupported; true the first time.
    pub fn note_unsupported(&mut self, kind: i32) -> (r: bool)
        requires
            old(self).wf(),
        ensures
            final(self).wf(),
            r == !old(self).model().warned.contains(kind),
            final(self).model() == (MarkerModel {
                warned: if r {
                    old(self).model().warned.push(kind)
                } else {
                    old(self).model().warned
                },
                ..old(self).model()
            }),
    {
        let mut i: usize = 0;
        while i < self.warned_unsupported.len()
            invariant
                self.wf(),
                self.model() == old(self).model(),
                i <= self.warned_unsupported@.len(),
                forall|j: int| 0 <= j < i ==> self.warned_unsupported@[j] != kind,
            decreases self.warned_unsupported@.len() - i,
        {
            if self.warned_unsupported[i] == kind {
                proof {
                    assert(self.warned_unsupported@.contains(kind));
                }
                return false;
            }
            i = i + 1;
        }
        let ghost m0 = self.model();
        self.warned_unsupported.push(kind);
        proof {
            assert(self.model().slots =~= m0.slots);
            assert(self.model().marks =~= m0.marks);
        }
        true
    }

    /// Apply marker `m` (position `idx` of its batch) and add its effect to
    /// `plan`.
    fn apply_one(&mut self, idx: usize, m: &MarkerInput, plan: &mut MarkerBatchPlan)
        requires
            old(self).wf(),
        ensures
            final(self).wf(),
            batch_view(final(self).model(), *final(plan)) == batch_step(
                batch_view(old(self).model(), *old(plan)),
                idx as int,
                *m,
            ),
    {
        let ghost b0 = batch_view(self.model(), *plan);
        if m.action == A_DELETE {
            if let Some(eid) = self.remove(m.ns.as_str(), m.id) {
                plan.to_remove.push(eid);
            }
            proof {
                assert(plan.upserts_view() =~= b0.upserts);
                assert(plan.slab_full_view() =~= b0.dropped);
            }
            return;
        }
        if m.action == A_DELETEALL {
            let mut ids = self.clear_all();
            plan.to_remove.append(&mut ids);
            proof {
                assert(plan.upserts_view() =~= b0.upserts);
                assert(plan.slab_full_view() =~= b0.dropped);
            }
            return;
        }
        if self.last_hash(m.ns.as_str(), m.id) == Some(m.payload_hash) {
            return;
        }
        if !marker_renders(m.kind, m.point_count) {
            if !marker_renders(m.kind, 3) {
                if self.note_unsupported(m.kind) {
                    plan.newly_unsupported.push(m.kind);
                }
            }
            proof {
                assert(plan.upserts_view() =~= b0.upserts);
                assert(plan.slab_full_view() =~= b0.dropped);
            }
            return;
        }
        match self.allocate(m.ns.as_str(), m.id) {
            None => {
                plan.slab_full.push(idx);
                proof {
                    assert(plan.upserts_view() =~= b0.upserts);
                    assert(plan.slab_full_view() =~= b0.dropped.push(idx as int));
                }
            },
            Some(eid) => {
                self.record_hash(m.ns.as_str(), m.id, m.payload_hash);
                plan.to_upsert.push(MarkerUpsert { index: idx, eid });
                proof {
                    assert(plan.upserts_view() =~= b0.upserts.push((idx as int, eid)));
                    assert(plan.slab_full_view() =~= b0.dropped);
                }
            },
        }
    }

    /// Decide what a batch of markers does, marker by marker in order (see
    /// `batch_step`), updating the topic's allocations and payload hashes.
    pub fn plan_batch(&mut self, markers: &Vec<MarkerInput>) -> (r: MarkerBatchPlan)
        requires
            old(self).wf(),
        ensures
            final(self).wf(),
            batch_view(final(self).model(), r) == batch_run(old(self).model(), markers@),
    {
        let ghost m0 = self.model();
        let mut plan = MarkerBatchPlan {
            to_remove: Vec::new(),
            to_upsert: Vec::new(),
            newly_unsupported: Vec::new(),
            slab_full: Vec::new(),
        };
        proof {
            assert(markers@.subrange(0, 0) =~= Seq::<MarkerInput>::empty());
            assert(plan.upserts_view() =~= Seq::empty());
            assert(plan.slab_full_view() =~= Seq::empty());
        }
        let mut i: usize = 0;
        while i < markers.len()
            invariant
                self.wf(),
                i <= markers@.len(),
                batch_view(self.model(), plan) == batch_run(m0, markers@.subrange(0, i as int)),
            decreases markers@.len() - i,
        {
            proof {
                assert(markers@.subrange(0, i + 1).drop_last() =~= markers@.subrange(0, i as int));
            }
            self.apply_one(i, &markers[i], &mut plan);
            i = i + 1;
        }
        proof {
            assert(markers@.subrange(0, i as int) =~= markers@);
        }
        plan
    }
}

/// The state and effects as the contracts see them.
pub open spec fn batch_view(st: MarkerModel, p: MarkerBatchPlan) -> BatchModel {
    BatchModel {
        st,
        removes: p.to_remove@,
        upserts: p.upserts_view(),
        warned_new: p.newly_unsupported@,
        dropped: p.slab_full_view(),
    }
}

/// A pair keeps its entity: once `(ns, id)` has been allocated an entity,
/// allocating it again yields the same entity and changes nothing.
pub proof fn lemma_allocation_stable(m: MarkerModel, ns: Seq<char>, id: i32)
    requires
        m.wf(),
        m.allocate(ns, id).1 is Some,
    ensures
        m.allocate(ns, id).0.lookup(ns, id) == m.allocate(ns, id).1,
        m.allocate(ns, id).0.allocate(ns, id) == (m.allocate(ns, id).0, m.allocate(ns, id).1),
{
    let m2 = m.allocate(ns, id).0;
    if m.lookup(ns, id) is None {
        let s = m2.slots;
        assert(s.last() == (ns, id, m.allocate(ns, id).1.unwrap()));
    }
}

/// Distinct pairs of a topic never share an entity, and every entity lies
/// in the topic's slab.
pub proof fn lemma_allocations_distinct(
    m: MarkerModel,
    ns1: Seq<char>,
    id1: i32,
    ns2: Seq<char>,
    id2: i32,
)
    requires
        m.wf(),
        m.lookup(ns1, id1) is Some,
        m.lookup(ns2, id2) is Some,
        (ns1, id1) != (ns2, id2),
    ensures
        m.lookup(ns1, id1) != m.lookup(ns2, id2),
        m.slab_base <= m.lookup(ns1, id1).unwrap().0 < m.slab_base + ROS_ID_MARKER_PER_TOPIC,
{
    lemma_key_pos(m.slots, ns1, id1);
    lemma_key_pos(m.slots, ns2, id2);
    let p1 = key_pos(m.slots, ns1, id1);
    let p2 = key_pos(m.slots, ns2, id2);
    assert(p1 != p2);
    assert(m.slots[p1].2 != m.slots[p2].2);
}

/// Re-publishing a marker whose payload is unchanged does nothing: once a
/// marker has been accepted, the same marker again leaves the state and the
/// planned effects as they are.
pub proof fn lemma_republish_is_noop(b: BatchModel, idx: int, idx2: int, m: MarkerInput)
    requires
        b.st.wf(),
        m.action != A_DELETE,
        m.action != A_DELETEALL,
        renders(m.kind, m.point_count),
        b.st.allocate(m.ns@, m.id).1 is Some,
    ensures
        batch_step(batch_step(b, idx, m), idx2, m) == batch_step(b, idx, m),
{
    let b1 = batch_step(b, idx, m);
    if b.st.last_hash(m.ns@, m.id) != Some(m.payload_hash) {
        let st = b.st.allocate(m.ns@, m.id).0;
        let marks = st.marks;
        lemma_key_pos(marks, m.ns@, m.id);
        let q = key_pos(marks, m.ns@, m.id);
        let r = b1.st.marks;
        if q >= 0 {
            assert(r[q] == (m.ns@, m.id, m.payload_hash));
            lemma_key_pos(r, m.ns@, m.id);
            assert(marks == b.st.marks);
            lemma_key_pos_unique(marks, q);
            lemma_record_keeps_distinct(marks, m.ns@, m.id, m.payload_hash);
            lemma_key_pos_unique(r, q);
        } else {
            assert(r.last() == (m.ns@, m.id, m.payload_hash));
        }
        assert(b1.st.last_hash(m.ns@, m.id) == Some(m.payload_hash));
    }
}

/// The label of a marker entity: `"<topic> [<id>]"`, or
/// `"<topic> [<ns>/<id>]"` when the namespace is not empty.
pub open spec fn label_of(topic: Seq<char>, ns: Seq<char>, id: i32) -> Seq<char> {
    if ns.len() == 0 {
        topic + seq![' ', '['] + decimal(id as int) + seq![']']
    } else {
        topic + seq![' ', '['] + ns + seq!['/'] + decimal(id as int) + seq![']']
    }
}

/// The label shown for marker `(ns, id)` of `topic`.
pub fn marker_label(topic: &str, ns: &str, id: i32) -> (r: String)
    ensures
        r@ == label_of(topic@, ns@, id),
{
    let mut out = String::new();
    push_str(&mut out, topic);
    push_char(&mut out, ' ');
    push_char(&mut out, '[');
    if !ns.is_empty() {
        push_str(&mut out, ns);
        push_char(&mut out, '/');
    }
    push_decimal(&mut out, id);
    push_char(&mut out, ']');
    proof {
        assert(out@ =~= label_of(topic@, ns@, id));
    }
    out
}

proof fn lemma_find_open_at(s: Seq<char>, from: int, k: int)
    requires
        0 <= from <= k,
        k + 1 < s.len(),
        s[k] == ' ' && s[k + 1] == '[',
        forall|j: int| from <= j < k ==> !(#[trigger] s[j] == ' ' && s[j + 1] == '['),
    ensures
        find_open_from(s, from) == k,
    decreases k - from,
{
    if from < k {
        lemma_find_open_at(s, from + 1, k);
    }
}

proof fn lemma_find_char_at(s: Seq<char>, c: char, from: int, k: int)
    requires
        0 <= from <= k,
        k < s.len(),
        s[k] == c,
        forall|j: int| from <= j < k ==> #[trigger] s[j] != c,
    ensures
        find_char_from(s, c, from) == k,
    decreases k - from,
{
    if from < k {
        lemma_find_char_at(s, c, from + 1, k);
    }
}

proof fn lemma_find_char_none(s: Seq<char>, c: char, from: int)
    requires
        0 <= from,
        forall|j: int| from <= j < s.len() ==> #[trigger] s[j] != c,
    ensures
        find_char_from(s, c, from) == -1,
    decreases s.len() - from,
{
    if from < s.len() {
        lemma_find_char_none(s, c, from + 1);
    }
}

/// A marker label reads back as what it was built from: splitting the label
/// of `(topic, ns, id)` gives the topic, the namespace (`None` when empty)
/// and the decimal id, provided the topic holds no `" ["` and the namespace
/// no `/`.
pub proof fn lemma_marker_label_roundtrip(topic: Seq<char>, ns: Seq<char>, id: i32)
    requires
        forall|j: int| 0 <= j < topic.len() - 1 ==> !(#[trigger] topic[j] == ' ' && topic[j + 1] == '['),
        forall|j: int| 0 <= j < ns.len() ==> #[trigger] ns[j] != '/',
    ensures
        parse_label(label_of(topic, ns, id)) == Some(
            (
                topic,
                if ns.len() == 0 {
                    None
                } else {
                    Some(ns)
                },
                decimal(id as int),
            ),
        ),
{
    let l = label_of(topic, ns, id);
    let t = topic.len();
    let dec = decimal(id as int);
    let inner = if ns.len() == 0 {
        dec
    } else {
        ns + seq!['/'] + dec
    };
    assert(l =~= topic + seq![' ', '['] + inner + seq![']']);
    assert forall|j: int| 0 <= j < t implies !(#[trigger] l[j] == ' ' && l[j + 1] == '[') by {
        assert(l[j] == topic[j]);
        if j < t - 1 {
            assert(l[j + 1] == topic[j + 1]);
        } else {
            assert(l[j + 1] == ' ');
        }
    }
    lemma_find_open_at(l, 0, t as int);
    let rest = l.subrange(t + 2 as int, l.len() as int);
    assert(rest =~= inner + seq![']']);
    assert(rfind_char(rest, ']') == inner.len());
    let inside = rest.subrange(0, inner.len() as int);
    assert(inside =~= inner);
    lemma_digits_chars(if id < 0 {
        (-id) as nat
    } else {
        id as nat
    });
    assert forall|j: int| 0 <= j < dec.len() implies #[trigger] dec[j] != '/' by {
        if id < 0 {
            if j > 0 {
                assert(dec[j] == digits((-id) as nat)[j - 1]);
            }
        } else {
            assert(dec[j] == digits(id as nat)[j]);
        }
    }
    assert(l.subrange(0, t as int) =~= topic);
    if ns.len() == 0 {
        lemma_find_char_none(inside, '/', 0);
    } else {
        assert forall|j: int| 0 <= j < ns.len() implies #[trigger] inside[j] != '/' by {
            assert(inside[j] == ns[j]);
        }
        lemma_find_char_at(inside, '/', 0, ns.len() as int);
        assert(inside.subrange(0, ns.len() as int) =~= ns);
        assert(inside.subrange(ns.len() + 1 as int, inside.len() as int) =~= dec);
    }
}

} // verus!
