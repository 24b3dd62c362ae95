//! TF-driven scene upkeep.
//!
//! `TfAxesRegistry` gives every frame of the TF tree an axis entity with a
//! stable id, allocated in encounter order from `TF_FRAME_BASE`, and keeps
//! it at the frame's current pose. `TfRegistry` remembers, for entities
//! whose data is expressed in some TF frame, that frame and the entity's
//! pose inside it, so that a late TF message moves them to the right place.
//! The poses themselves are computed by the caller's functions.

use std::collections::HashMap;
use vstd::prelude::*;
use vstd::std_specs::cmp::PartialEqSpec;
use vstd::std_specs::iter::IteratorSpec;

use crate::graph::{SceneEntity, SceneGraph, StyleOverride};
use crate::ids::{EntityId, TF_FRAME_BASE};
use crate::text::{push_str, str_eq};
use crate::tf::TfTree;

verus! {

broadcast use vstd::std_specs::hash::group_hash_axioms;

/// Axis-entity ids of TF frames, in encounter order.
pub struct TfAxesRegistry {
    pub ids: Vec<(String, EntityId)>,
    pub next_offset: u64,
}

pub open spec fn frame_ids_view(v: Seq<(String, EntityId)>) -> Seq<(Seq<char>, EntityId)> {
    v.map_values(|e: (String, EntityId)| (e.0@, e.1))
}

/// The id given to frame `name`, if any.
pub open spec fn frame_id(v: Seq<(Seq<char>, EntityId)>, name: Seq<char>) -> Option<EntityId>
    decreases v.len(),
{
    if v.len() == 0 {
        None
    } else if v.last().0 == name {
        Some(v.last().1)
    } else {
        frame_id(v.drop_last(), name)
    }
}

impl TfAxesRegistry {
    pub open spec fn view(&self) -> Seq<(Seq<char>, EntityId)> {
        frame_ids_view(self.ids@)
    }

    /// Frame `i` got id `TF_FRAME_BASE + i`, and no frame is listed twice.
    pub open spec fn wf(&self) -> bool {
        &&& self.next_offset == self.ids@.len()
        &&& forall|i: int|
            0 <= i < self.ids@.len() ==> (#[trigger] self.ids@[i]).1.0 == TF_FRAME_BASE + i
        &&& forall|i: int, j: int|
            0 <= i < j < self.ids@.len() ==> (#[trigger] self.ids@[i]).0@ != (
            #[trigger] self.ids@[j]).0@
    }

    pub fn new() -> (r: Self)
        ensures
            r.wf(),
            r.ids@.len() == 0,
    {
        TfAxesRegistry { ids: Vec::new(), next_offset: 0 }
    }

    /// The id of frame `name`, allocating the next one for a new frame;
    /// true when it was allocated now.
    pub fn id_for(&mut self, name: &str) -> (r: (EntityId, bool))
        requires
            old(self).wf(),
            TF_FRAME_BASE + old(self).next_offset < u64::MAX,
        ensures
            final(self).wf(),
            match frame_id(old(self).view(), name@) {
                Some(id) => r == (id, false) && final(self).ids@ == old(self).ids@,
                None => {
                    &&& r == (EntityId((TF_FRAME_BASE + old(self).next_offset) as u64), true)
                    &&& final(self).view() == old(self).view().push((name@, r.0))
                },
            },
    {
        let ghost v0 = self.view();
        let mut i: usize = 0;
        while i < self.ids.len()
            invariant
                i <= self.ids@.len(),
                v0 == self.view(),
                self.wf(),
                *self == *old(self),
                forall|j: int| 0 <= j < i ==> (#[trigger] self.ids@[j]).0@ != name@,
            decreases self.ids@.len() - i,
        {
            if str_eq(self.ids[i].0.as_str(), name) {
                let id = self.ids[i].1;
                proof {
                    lemma_frame_id_unique(self, i as int);
                }
                return (id, false);
            }
            i = i + 1;
        }
        proof {
            assert forall|j: int| 0 <= j < v0.len() implies (#[trigger] v0[j]).0 != name@ by {
                assert(v0[j].0 == self.ids@[j].0@);
            }
            lemma_frame_id_absent(v0, name@);
        }
        let id = EntityId(TF_FRAME_BASE + self.next_offset);
        self.next_offset = self.next_offset + 1;
        self.ids.push((name.to_owned(), id));
        proof {
            assert(self.view() =~= v0.push((name@, id)));
            assert forall|a: int, b: int| 0 <= a < b < self.ids@.len() implies (
            #[trigger] self.ids@[a]).0@ != (#[trigger] self.ids@[b]).0@ by {
                if b == self.ids@.len() - 1 {
                    assert(v0[a].0 == self.ids@[a].0@);
                }
            }
        }
        (id, true)
    }
}

proof fn lemma_frame_id_absent(v: Seq<(Seq<char>, EntityId)>, name: Seq<char>)
    requires
        forall|j: int| 0 <= j < v.len() ==> (#[trigger] v[j]).0 != name,
    ensures
        frame_id(v, name) is None,
    decreases v.len(),
{
    if v.len() > 0 {
        assert(v.last() == v[v.len() - 1]);
        assert forall|j: int| 0 <= j < v.drop_last().len() implies (#[trigger] v.drop_last()[j]).0 != name by {
            assert(v.drop_last()[j] == v[j]);
        }
        lemma_frame_id_absent(v.drop_last(), name);
    }
}

proof fn lemma_frame_id_unique(r: &TfAxesRegistry, i: int)
    requires
        r.wf(),
        0 <= i < r.ids@.len(),
    ensures
        frame_id(r.view(), r.ids@[i].0@) == Some(r.ids@[i].1),
{
    lemma_frame_id_at(r.view(), i);
}

proof fn lemma_frame_id_at(v: Seq<(Seq<char>, EntityId)>, i: int)
    requires
        0 <= i < v.len(),
        forall|a: int, b: int| 0 <= a < b < v.len() ==> (#[trigger] v[a]).0 != (#[trigger] v[b]).0,
    ensures
        frame_id(v, v[i].0) == Some(v[i].1),
    decreases v.len(),
{
    if i < v.len() - 1 {
        assert(v.last().0 != v[i].0) by {
            assert(v[i].0 != v[v.len() - 1].0);
        }
        let d = v.drop_last();
        assert(d[i] == v[i]);
        assert forall|a: int, b: int| 0 <= a < b < d.len() implies (#[trigger] d[a]).0 != (#[trigger] d[b]).0 by {
            assert(d[a] == v[a]);
            assert(d[b] == v[b]);
        }
        lemma_frame_id_at(d, i);
    }
}

/// A frame keeps its id: asking again for a frame that has one gives the
/// same id, and distinct frames have distinct ids.
pub proof fn lemma_frame_ids_stable(r: &TfAxesRegistry, a: Seq<char>, b: Seq<char>)
    requires
        r.wf(),
        frame_id(r.view(), a) is Some,
        frame_id(r.view(), b) is Some,
        a != b,
    ensures
        frame_id(r.view(), a) != frame_id(r.view(), b),
{
    lemma_frame_id_found(r.view(), a);
    lemma_frame_id_found(r.view(), b);
    let ia = choose|i: int| 0 <= i < r.view().len() && r.view()[i].0 == a && r.view()[i].1 == frame_id(r.view(), a).unwrap();
    let ib = choose|i: int| 0 <= i < r.view().len() && r.view()[i].0 == b && r.view()[i].1 == frame_id(r.view(), b).unwrap();
    assert(r.ids@[ia].1.0 == TF_FRAME_BASE + ia);
    assert(r.ids@[ib].1.0 == TF_FRAME_BASE + ib);
}

proof fn lemma_frame_id_found(v: Seq<(Seq<char>, EntityId)>, name: Seq<char>)
    requires
        frame_id(v, name) is Some,
    ensures
        exists|i: int| 0 <= i < v.len() && v[i].0 == name && v[i].1 == frame_id(v, name).unwrap(),
    decreases v.len(),
{
    if v.last().0 != name {
        lemma_frame_id_found(v.drop_last(), name);
        let i = choose|i: int| 0 <= i < v.drop_last().len() && v.drop_last()[i].0 == name && v.drop_last()[i].1 == frame_id(v.drop_last(), name).unwrap();
        assert(v[i] == v.drop_last()[i]);
    } else {
        assert(v[v.len() - 1] == v.last());
    }
}

/// The label of a frame's axis entity: `"tf: <name>"`.
pub fn frame_label(name: &str) -> (r: String)
    ensures
        r@ == "tf: "@ + name@,
{
    let mut s = String::new();
    push_str(&mut s, "tf: ");
    push_str(&mut s, name);
    s
}

/// `n` is the reference frame or a child or parent among the first `k`
/// entries of `frames`.
pub open spec fn mentioned<X>(frames: Seq<crate::tf::TransformEntry<X>>, reference: Seq<char>, k: int, n: Seq<char>) -> bool {
    n == reference || exists|j: int|
        0 <= j < k && (#[trigger] frames[j].child@ == n || frames[j].parent@ == n)
}

proof fn lemma_mentioned_step<X>(frames: Seq<crate::tf::TransformEntry<X>>, reference: Seq<char>, k: int, n: Seq<char>)
    requires
        0 <= k < frames.len(),
    ensures
        mentioned(frames, reference, k + 1, n) <==> (mentioned(frames, reference, k, n)
            || frames[k].child@ == n || frames[k].parent@ == n),
{
    if mentioned(frames, reference, k + 1, n) && n != reference {
        let j = choose|j: int| 0 <= j < k + 1 && (#[trigger] frames[j].child@ == n || frames[j].parent@ == n);
        if j < k {
            assert(mentioned(frames, reference, k, n));
        }
    }
    if frames[k].child@ == n || frames[k].parent@ == n {
        assert(frames[k].child@ == n || frames[k].parent@ == n);
    }
}

/// Every frame name the tree mentions (children and parents) and the
/// reference frame, each once.
pub fn frame_names<X>(tree: &TfTree<X>, reference: &str) -> (r: Vec<String>)
    ensures
        crate::config::strs(r@).no_duplicates(),
        forall|n: Seq<char>|
            crate::config::strs(r@).contains(n) <==> mentioned(tree.frames@, reference@, tree.frames@.len() as int, n),
        r@.len() <= 2 * tree.frames@.len() + 1,
{
    let mut out: Vec<String> = Vec::new();
    proof {
        assert(crate::config::strs(out@) =~= Seq::empty());
    }
    push_unique(&mut out, reference);
    let mut i: usize = 0;
    while i < tree.frames.len()
        invariant
            i <= tree.frames@.len(),
            out@.len() <= 2 * i + 1,
            crate::config::strs(out@).no_duplicates(),
            forall|n: Seq<char>|
                crate::config::strs(out@).contains(n) <==> mentioned(tree.frames@, reference@, i as int, n),
        decreases tree.frames@.len() - i,
    {
        push_unique(&mut out, tree.frames[i].child.as_str());
        push_unique(&mut out, tree.frames[i].parent.as_str());
        proof {
            assert forall|n: Seq<char>|
                crate::config::strs(out@).contains(n) <==> mentioned(tree.frames@, reference@, i + 1, n) by {
                lemma_mentioned_step(tree.frames@, reference@, i as int, n);
            }
        }
        i = i + 1;
    }
    out
}

/// Append `name` unless it is already listed.
fn push_unique(v: &mut Vec<String>, name: &str)
    requires
        crate::config::strs(old(v)@).no_duplicates(),
    ensures
        crate::config::strs(final(v)@).no_duplicates(),
        final(v)@.len() <= old(v)@.len() + 1,
        forall|n: Seq<char>|
            crate::config::strs(final(v)@).contains(n) <==> (crate::config::strs(old(v)@).contains(n)
                || n == name@),
{
    let ghost s0 = crate::config::strs(v@);
    let mut i: usize = 0;
    while i < v.len()
        invariant
            i <= v@.len(),
            s0 == crate::config::strs(v@),
            s0 == crate::config::strs(old(v)@),
            s0.no_duplicates(),
            forall|j: int| 0 <= j < i ==> v@[j]@ != name@,
        decreases v@.len() - i,
    {
        if str_eq(v[i].as_str(), name) {
            proof {
                assert(s0[i as int] == name@);
            }
            return;
        }
        i = i + 1;
    }
    v.push(name.to_owned());
    proof {
        let s1 = crate::config::strs(v@);
        assert(s1 =~= s0.push(name@));
        assert(!s0.contains(name@)) by {
            if s0.contains(name@) {
                let k = s0.index_of(name@);
                assert(v@[k]@ == name@);
            }
        }
        assert forall|a: int, b: int| 0 <= a < s1.len() && 0 <= b < s1.len() && a != b implies s1[a]
            != s1[b] by {
            if a < s0.len() && b < s0.len() {
            } else if a < s0.len() {
                assert(s0.contains(s1[a]));
            } else {
                assert(s0.contains(s1[b]));
            }
        }
        assert forall|n: Seq<char>| s1.contains(n) <==> (s0.contains(n) || n == name@) by {
            if s1.contains(n) {
                let k = s1.index_of(n);
                if k < s0.len() {
                    assert(s0[k] == n);
                }
            }
            if s0.contains(n) {
                let k = s0.index_of(n);
                assert(s1[k] == n);
            }
            if n == name@ {
                assert(s1[s0.len() as int] == n);
            }
        }
    }
}

/// After a refresh, the frame named by `s` is as `world` answered for it.
/// When its placement was not available (`None`), its entity, if it has an
/// id, is as it was before (`m0`). Otherwise the frame has an id whose
/// entity exists and sits at the placement `t`, or is an entity that was
/// there before and left as it was because its transform already equals
/// `t` (by `==` of `T`).
pub open spec fn frame_placed<P, T: PartialEq, W: Fn(&String) -> Option<T>>(
    world: W,
    s: &String,
    view: Seq<(Seq<char>, EntityId)>,
    m: Map<u64, SceneEntity<P, T>>,
    m0: Map<u64, SceneEntity<P, T>>,
) -> bool {
    exists|r: Option<T>|
        #[trigger] world.ensures((s,), r) && match r {
            None => match frame_id(view, s@) {
                Some(id) => (m.contains_key(id.0) <==> m0.contains_key(id.0)) && (m0.contains_key(id.0)
                    ==> m[id.0] == m0[id.0]),
                None => true,
            },
            Some(t) => match frame_id(view, s@) {
                Some(id) => m.contains_key(id.0) && (m[id.0].transform == t || (m0.contains_key(id.0)
                    && m[id.0] == m0[id.0] && (T::obeys_eq_spec() ==> m0[id.0].transform.eq_spec(&t)))),
                None => false,
            },
        }
}

/// Entity `e` (stored under `k`) was built for frame `n`: it is visible,
/// and its primitive is what `make` gives for the frame's name, passed
/// through `apply` with the override of `k` when `ovs` holds one.
pub open spec fn frame_built<P, T, C, S, M: Fn(&String) -> P, A: Fn(P, StyleOverride<C, S>) -> P>(
    make: M,
    apply: A,
    ovs: Map<u64, StyleOverride<C, S>>,
    n: Seq<char>,
    e: SceneEntity<P, T>,
    k: u64,
) -> bool {
    &&& e.visible
    &&& exists|s: &String, p0: P|
        s@ == n && #[trigger] make.ensures((s,), p0) && if ovs.contains_key(k) {
            apply.ensures((p0, ovs[k]), e.primitive)
        } else {
            e.primitive == p0
        }
}

/// Entity `k` is the axis entity of a frame `n` of `names`, labelled
/// `"tf: <n>"` and built for it (see `frame_built`).
pub open spec fn is_frame_entity<P, T, C, S, M: Fn(&String) -> P, A: Fn(P, StyleOverride<C, S>) -> P>(
    names: Seq<String>,
    upto: int,
    view: Seq<(Seq<char>, EntityId)>,
    e: SceneEntity<P, T>,
    k: u64,
    make: M,
    apply: A,
    ovs: Map<u64, StyleOverride<C, S>>,
) -> bool {
    exists|j: int|
        0 <= j < upto && #[trigger] frame_id(view, names[j]@) == Some(EntityId(k)) && (e.label matches Some(l)
            && l@ == "tf: "@ + names[j]@) && frame_built(make, apply, ovs, names[j]@, e, k)
}

/// Entity `k` is the axis entity of one of the first `upto` of `names`.
pub open spec fn frame_key_of(names: Seq<String>, upto: int, view: Seq<(Seq<char>, EntityId)>, k: u64) -> bool {
    exists|j: int| 0 <= j < upto && #[trigger] frame_id(view, names[j]@) == Some(EntityId(k))
}

proof fn lemma_frame_id_push(v: Seq<(Seq<char>, EntityId)>, m: Seq<char>, e: EntityId, n: Seq<char>)
    requires
        m != n,
    ensures
        frame_id(v.push((m, e)), n) == frame_id(v, n),
{
    assert(v.push((m, e)).drop_last() =~= v);
}

impl TfAxesRegistry {
    /// The ids of frames listed from position `from` on.
    pub open spec fn has_id_from(&self, from: int, k: u64) -> bool {
        exists|j: int| from <= j < self.ids@.len() && (#[trigger] self.ids@[j]).1.0 == k
    }

    /// Keep one axis entity per frame of the tree (and the reference frame)
    /// at the frame's current placement. A frame whose placement is not
    /// available (`world` gives `None`) is skipped. A frame seen before whose
    /// entity still exists is only moved; otherwise a fresh entity built by
    /// `make` from the frame's name, labelled `"tf: <name>"`, is upserted:
    /// a newly created entity is visible. Frames keep their ids; no entity
    /// other than a frame's is touched, and no existing entity changes
    /// visibility, so a frame the user hid stays hidden.
    pub fn refresh<X, P, T: PartialEq, C: Copy, S: Copy, W, M, A>(
        &mut self,
        tree: &TfTree<X>,
        reference: &str,
        scene: &mut SceneGraph<P, T, C, S>,
        world: W,
        make: M,
        apply: A,
    )
        where
            W: Fn(&String) -> Option<T>,
            M: Fn(&String) -> P,
            A: Fn(P, StyleOverride<C, S>) -> P + Copy,
        requires
            old(self).wf(),
            TF_FRAME_BASE + old(self).next_offset + 2 * tree.frames@.len() + 1 < u64::MAX,
            old(scene).wf(),
            old(scene).spec_revision() + 2 * tree.frames@.len() + 1 < u64::MAX,
            forall|n: &String| #[trigger] world.requires((n,)),
            forall|n: &String| #[trigger] make.requires((n,)),
            forall|p: P, o: StyleOverride<C, S>| #[trigger] apply.requires((p, o)),
        ensures
            final(self).wf(),
            final(self).view().take(old(self).view().len() as int) == old(self).view(),
            final(scene).wf(),
            final(scene).frame() == old(scene).frame(),
            final(scene).override_map() == old(scene).override_map(),
            forall|n: Seq<char>|
                #[trigger] mentioned(tree.frames@, reference@, tree.frames@.len() as int, n) ==> exists|s: &String|
                    s@ == n && #[trigger] frame_placed(
                        world,
                        s,
                        final(self).view(),
                        final(scene).entity_map(),
                        old(scene).entity_map(),
                    ),
            forall|k: u64|
                #[trigger] final(scene).entity_map().contains_key(k) && !old(scene).entity_map().contains_key(k)
                    ==> exists|n: Seq<char>|
                    #[trigger] frame_id(final(self).view(), n) == Some(EntityId(k)) && mentioned(
                        tree.frames@,
                        reference@,
                        tree.frames@.len() as int,
                        n,
                    ) && (final(scene).entity_map()[k].label matches Some(l) && l@ == "tf: "@ + n) && frame_built(
                        make,
                        apply,
                        old(scene).override_map(),
                        n,
                        final(scene).entity_map()[k],
                        k,
                    ),
            forall|k: u64|
                #[trigger] old(scene).entity_map().contains_key(k) ==> {
                    &&& final(scene).entity_map().contains_key(k)
                    &&& final(scene).entity_map()[k].visible == old(scene).entity_map()[k].visible
                    &&& !final(self).has_id_from(0, k) ==> final(scene).entity_map()[k]
                        == old(scene).entity_map()[k]
                },
    {
        let names = frame_names(tree, reference);
        let ghost nm = names@;
        let ghost v0 = self.view();
        let ghost m0 = scene.entity_map();
        let ghost ov0 = scene.override_map();
        let ghost r0 = scene.spec_revision();
        let ghost o0 = self.next_offset;
        let mut i: usize = 0;
        while i < names.len()
            invariant
                i <= names@.len(),
                nm == names@,
                crate::config::strs(nm).no_duplicates(),
                names@.len() <= 2 * tree.frames@.len() + 1,
                self.wf(),
                self.next_offset <= o0 + i,
                TF_FRAME_BASE + o0 + 2 * tree.frames@.len() + 1 < u64::MAX,
                self.view().take(v0.len() as int) == v0,
                v0.len() <= self.view().len(),
                scene.wf(),
                scene.frame() == old(scene).frame(),
                m0 == old(scene).entity_map(),
                ov0 == old(scene).override_map(),
                scene.override_map() == ov0,
                scene.spec_revision() <= r0 + i,
                r0 + 2 * tree.frames@.len() + 1 < u64::MAX,
                forall|n: &String| #[trigger] world.requires((n,)),
                forall|n: &String| #[trigger] make.requires((n,)),
                forall|p: P, o: StyleOverride<C, S>| #[trigger] apply.requires((p, o)),
                forall|k: u64|
                    #[trigger] m0.contains_key(k) ==> {
                        &&& scene.entity_map().contains_key(k)
                        &&& scene.entity_map()[k].visible == m0[k].visible
                        &&& !self.has_id_from(0, k) ==> scene.entity_map()[k] == m0[k]
                    },
                forall|j: int| 0 <= j < i ==> #[trigger] frame_placed(world, &nm[j], self.view(), scene.entity_map(), m0),
                forall|k: u64|
                    #[trigger] scene.entity_map().contains_key(k) && !m0.contains_key(k) ==> is_frame_entity(
                        nm,
                        i as int,
                        self.view(),
                        scene.entity_map()[k],
                        k,
                        make,
                        apply,
                        ov0,
                    ),
                forall|k: u64|
                    #[trigger] m0.contains_key(k) && scene.entity_map()[k] != m0[k] ==> frame_key_of(
                        nm,
                        i as int,
                        self.view(),
                        k,
                    ),
            decreases names@.len() - i,
        {
            let name = &names[i];
            let w = world(name);
            let ghost vb = self.view();
            let ghost mb = scene.entity_map();
            proof {
                assert(*name == nm[i as int]);
            }
            match w {
                None => {
                    proof {
                        assert(world.ensures((&nm[i as int],), None::<T>));
                        if frame_id(vb, nm[i as int]@) is Some {
                            let id = frame_id(vb, nm[i as int]@).unwrap();
                            let k = id.0;
                            assert(id == EntityId(k));
                            if scene.entity_map().contains_key(k) && !m0.contains_key(k) {
                                let j = choose|j: int|
                                    0 <= j < i && #[trigger] frame_id(vb, nm[j]@) == Some(EntityId(k)) && (
                                    scene.entity_map()[k].label matches Some(l) && l@ == "tf: "@ + nm[j]@) && frame_built(make, apply, ov0, nm[j]@, scene.entity_map()[k], k);
                                assert(crate::config::strs(nm)[j] != crate::config::strs(nm)[i as int]);
                                lemma_frame_ids_stable(self, nm[j]@, nm[i as int]@);
                            }
                            if m0.contains_key(k) && scene.entity_map()[k] != m0[k] {
                                let j = choose|j: int| 0 <= j < i && #[trigger] frame_id(vb, nm[j]@) == Some(EntityId(k));
                                assert(crate::config::strs(nm)[j] != crate::config::strs(nm)[i as int]);
                                lemma_frame_ids_stable(self, nm[j]@, nm[i as int]@);
                            }
                        }
                        assert(frame_placed(world, &nm[i as int], self.view(), scene.entity_map(), m0));
                        assert forall|k: u64| #[trigger] scene.entity_map().contains_key(k) && !m0.contains_key(k)
                            implies is_frame_entity(nm, i + 1, self.view(), scene.entity_map()[k], k, make, apply, ov0) by {
                            let j = choose|j: int|
                                0 <= j < i && #[trigger] frame_id(self.view(), nm[j]@) == Some(EntityId(k)) && (
                                scene.entity_map()[k].label matches Some(l) && l@ == "tf: "@ + nm[j]@) && frame_built(make, apply, ov0, nm[j]@, scene.entity_map()[k], k);
                            assert(frame_id(self.view(), nm[j]@) == Some(EntityId(k)));
                        }
                        assert forall|k: u64| #[trigger] m0.contains_key(k) && scene.entity_map()[k] != m0[k]
                            implies frame_key_of(nm, i + 1, self.view(), k) by {
                            let j = choose|j: int| 0 <= j < i && #[trigger] frame_id(self.view(), nm[j]@) == Some(EntityId(k));
                            assert(frame_id(self.view(), nm[j]@) == Some(EntityId(k)));
                        }
                    }
                },
                Some(t) => {
                    let ghost a0 = self.ids@;
                    let (id, is_new) = self.id_for(name.as_str());
                    let ghost before = scene.entity_map();
                    let ghost va = self.view();
                    proof {
                        // The id is listed now.
                        lemma_frame_id_found(self.view(), name@);
                        assert(self.ids@.len() >= a0.len());
                        assert forall|k: u64|
                            (exists|j: int| 0 <= j < a0.len() && (#[trigger] a0[j]).1.0 == k) implies #[trigger] self.has_id_from(0, k) by {
                            let j = choose|j: int| 0 <= j < a0.len() && (#[trigger] a0[j]).1.0 == k;
                            if is_new {
                                assert(self.view()[j] == frame_ids_view(a0)[j]);
                            }
                            assert(self.ids@[j].1 == a0[j].1);
                        }
                        let vw = self.view();
                        let jj = choose|j: int| 0 <= j < vw.len() && vw[j].0 == name@ && vw[j].1 == frame_id(vw, name@).unwrap();
                        assert(self.ids@[jj].1 == id);
                        assert(self.has_id_from(0, id.0));
                        assert(frame_id(va, name@) == Some(id));
                        // Earlier names keep their ids, all different from this one.
                        assert forall|j: int| 0 <= j < i implies #[trigger] frame_id(va, nm[j]@) == frame_id(vb, nm[j]@) by {
                            assert(crate::config::strs(nm)[j] != crate::config::strs(nm)[i as int]);
                            if is_new {
                                lemma_frame_id_push(vb, name@, id, nm[j]@);
                            }
                        }
                        assert forall|j: int| 0 <= j < i && (#[trigger] frame_id(va, nm[j]@)) is Some implies frame_id(va, nm[j]@).unwrap() != id by {
                            assert(crate::config::strs(nm)[j] != crate::config::strs(nm)[i as int]);
                            lemma_frame_ids_stable(self, nm[j]@, name@);
                        }
                        // The entity of this frame has not been touched yet.
                        if before.contains_key(id.0) {
                            if !m0.contains_key(id.0) {
                                let j = choose|j: int|
                                    0 <= j < i && #[trigger] frame_id(vb, nm[j]@) == Some(EntityId(id.0)) && (
                                    before[id.0].label matches Some(l) && l@ == "tf: "@ + nm[j]@) && frame_built(make, apply, ov0, nm[j]@, before[id.0], id.0);
                                assert(frame_id(va, nm[j]@) == Some(id));
                                assert(false);
                            }
                            if before[id.0] != m0[id.0] {
                                let j = choose|j: int| 0 <= j < i && #[trigger] frame_id(vb, nm[j]@) == Some(EntityId(id.0));
                                assert(frame_id(va, nm[j]@) == Some(id));
                                assert(false);
                            }
                        }
                    }
                    if !is_new && scene.contains(id) {
                        scene.update_transform(id, t);
                    } else {
                        let label = frame_label(name.as_str());
                        let prim = make(name);
                        let ghost p0 = prim;
                        let e = SceneEntity::new(id, prim, t).with_label(label.as_str());
                        scene.upsert(e, apply);
                        proof {
                            assert(make.ensures((name,), p0));
                            assert(frame_built(make, apply, ov0, nm[i as int]@, scene.entity_map()[id.0], id.0)
                                || before.contains_key(id.0));
                        }
                    }
                    proof {
                        let ma = scene.entity_map();
                        assert(ma.contains_key(id.0));
                        assert(ma[id.0].transform == t || (m0.contains_key(id.0) && ma[id.0] == m0[id.0]));
                        assert forall|k: u64| k != id.0 implies (#[trigger] ma.contains_key(k) == before.contains_key(k)
                            && (before.contains_key(k) ==> ma[k] == before[k])) by {}
                        assert forall|k: u64| #[trigger] m0.contains_key(k) implies {
                            &&& scene.entity_map().contains_key(k)
                            &&& scene.entity_map()[k].visible == m0[k].visible
                            &&& !self.has_id_from(0, k) ==> scene.entity_map()[k] == m0[k]
                        } by {
                            if k != id.0 {
                                assert(scene.entity_map()[k] == before[k]);
                            }
                        }
                        assert forall|j: int| 0 <= j < i + 1 implies #[trigger] frame_placed(
                            world,
                            &nm[j],
                            self.view(),
                            scene.entity_map(),
                            m0,
                        ) by {
                            if j == i {
                                assert(world.ensures((&nm[j],), Some(t)));
                                assert(frame_id(self.view(), nm[j]@) == Some(id));
                            } else {
                                assert(frame_placed(world, &nm[j], vb, before, m0));
                                if !world.ensures((&nm[j],), None::<T>) {
                                    let tj = choose|tj: T| #[trigger] world.ensures((&nm[j],), Some(tj)) && match frame_id(vb, nm[j]@) {
                                        Some(idj) => before.contains_key(idj.0) && (before[idj.0].transform == tj || (m0.contains_key(idj.0) && before[idj.0] == m0[idj.0])),
                                        None => false,
                                    };
                                    let idj = frame_id(vb, nm[j]@).unwrap();
                                    assert(frame_id(self.view(), nm[j]@) == Some(idj));
                                    assert(idj != id);
                                    assert(scene.entity_map()[idj.0] == before[idj.0]);
                                }
                            }
                        }
                        assert forall|k: u64| #[trigger] scene.entity_map().contains_key(k) && !m0.contains_key(k)
                            implies is_frame_entity(nm, i + 1, self.view(), scene.entity_map()[k], k, make, apply, ov0) by {
                            if k == id.0 {
                                assert(frame_id(self.view(), nm[i as int]@) == Some(EntityId(k)));
                                if !before.contains_key(k) {
                                    assert(scene.entity_map()[k].label matches Some(l) && l@ == "tf: "@ + nm[i as int]@);
                                } else {
                                    assert(m0.contains_key(k));
                                }
                            } else {
                                let j = choose|j: int|
                                    0 <= j < i && #[trigger] frame_id(vb, nm[j]@) == Some(EntityId(k)) && (
                                    before[k].label matches Some(l) && l@ == "tf: "@ + nm[j]@) && frame_built(make, apply, ov0, nm[j]@, before[k], k);
                                assert(frame_id(self.view(), nm[j]@) == Some(EntityId(k)));
                            }
                        }
                        assert forall|k: u64| #[trigger] m0.contains_key(k) && scene.entity_map()[k] != m0[k]
                            implies frame_key_of(nm, i + 1, self.view(), k) by {
                            if k == id.0 {
                                assert(frame_id(self.view(), nm[i as int]@) == Some(EntityId(k)));
                            } else {
                                let j = choose|j: int| 0 <= j < i && #[trigger] frame_id(vb, nm[j]@) == Some(EntityId(k));
                                assert(frame_id(self.view(), nm[j]@) == Some(EntityId(k)));
                            }
                        }
                    }
                },
            }
            i = i + 1;
        }
        proof {
            assert(self.view().take(v0.len() as int) == v0);
            assert forall|n: Seq<char>| #[trigger] mentioned(tree.frames@, reference@, tree.frames@.len() as int, n)
                implies exists|s: &String| s@ == n && #[trigger] frame_placed(world, s, self.view(), scene.entity_map(), m0) by {
                assert(crate::config::strs(nm).contains(n));
                let j = crate::config::strs(nm).index_of(n);
                assert(nm[j]@ == n);
                assert(frame_placed(world, &nm[j], self.view(), scene.entity_map(), m0));
            }
            assert forall|k: u64| #[trigger] scene.entity_map().contains_key(k) && !m0.contains_key(k) implies exists|n: Seq<char>|
                #[trigger] frame_id(self.view(), n) == Some(EntityId(k)) && mentioned(
                    tree.frames@,
                    reference@,
                    tree.frames@.len() as int,
                    n,
                ) && (scene.entity_map()[k].label matches Some(l) && l@ == "tf: "@ + n) && frame_built(
                    make,
                    apply,
                    ov0,
                    n,
                    scene.entity_map()[k],
                    k,
                ) by {
                let j = choose|j: int|
                    0 <= j < i && #[trigger] frame_id(self.view(), nm[j]@) == Some(EntityId(k)) && (
                    scene.entity_map()[k].label matches Some(l) && l@ == "tf: "@ + nm[j]@) && frame_built(make, apply, ov0, nm[j]@, scene.entity_map()[k], k);
                assert(crate::config::strs(nm)[j] == nm[j]@);
                assert(crate::config::strs(nm).contains(nm[j]@));
            }
        }
    }
}

/// Where a TF-bound entity's data lives: its frame and its pose inside it.
pub struct Binding<L> {
    pub frame: String,
    pub local: L,
}

/// TF bindings of entities, keyed by the number of their id.
pub struct TfRegistry<L> {
    pub entries: HashMap<u64, Binding<L>>,
}

impl<L> TfRegistry<L> {
    pub fn new() -> (r: Self)
        ensures
            r.entries@ == Map::<u64, Binding<L>>::empty(),
    {
        TfRegistry { entries: HashMap::new() }
    }

    /// Bind entity `id` to `frame` with pose `local` in it (replacing any
    /// earlier binding).
    pub fn register(&mut self, id: EntityId, frame: &str, local: L)
        ensures
            final(self).entries@.dom() == old(self).entries@.dom().insert(id.0),
            final(self).entries@[id.0].frame@ == frame@,
            final(self).entries@[id.0].local == local,
            forall|k: u64|
                k != id.0 && old(self).entries@.contains_key(k) ==> #[trigger] final(self).entries@[k]
                    == old(self).entries@[k],
    {
        self.entries.insert(id.0, Binding { frame: frame.to_owned(), local });
    }

    /// Forget entity `id`. Idempotent.
    pub fn unregister(&mut self, id: EntityId)
        ensures
            final(self).entries@ == old(self).entries@.remove(id.0),
    {
        self.entries.remove(&id.0);
    }
}

/// After a refresh, a bound entity (`e0` before, `e1` after) is as `world`
/// answered for its binding: left as it was when the placement was not
/// available (`None`); otherwise moved to the placement `t`, or left as it
/// was because its transform already equals `t` (by `==` of `T`).
pub open spec fn bound_placed<L, P, T: PartialEq, W: Fn(&Binding<L>) -> Option<T>>(
    world: W,
    b: &Binding<L>,
    e0: SceneEntity<P, T>,
    e1: SceneEntity<P, T>,
) -> bool {
    exists|r: Option<T>|
        #[trigger] world.ensures((b,), r) && match r {
            None => e1 == e0,
            Some(t) => e1.transform == t || (e1 == e0 && (T::obeys_eq_spec() ==> e0.transform.eq_spec(&t))),
        }
}

impl<L> TfRegistry<L> {
    /// The ids of all bound entities, each once.
    fn bound_ids(&self) -> (r: Vec<u64>)
        ensures
            r@.no_duplicates(),
            r@.to_set() == self.entries@.dom(),
    {
        let mut out: Vec<u64> = Vec::new();
        let ghost ks = vstd::std_specs::hash::spec_keys_iter(&self.entries).remaining().unref();
        proof {
            broadcast use vstd::std_specs::hash::axiom_spec_keys_iter;

            assert(ks.to_set() == self.entries@.dom());
            assert(ks.no_duplicates());
        }
        for k in it: self.entries.keys()
            invariant
                it.seq().unref() == ks,
                out@ == ks.take(it.index() as int),
        {
            proof {
                assert(ks.take(it.index() + 1) =~= ks.take(it.index() as int).push(*k));
            }
            out.push(*k);
        }
        proof {
            assert(ks.take(ks.len() as int) =~= ks);
            broadcast use vstd::std_specs::hash::axiom_spec_keys_iter;
        }
        out
    }

    /// Move every bound entity to where `world` now places it. Entities
    /// whose placement is not available (`None`) keep their transform; only
    /// transforms change, and only those of bound entities.
    pub fn refresh<P, T: PartialEq, C: Copy, S: Copy, W: Fn(&Binding<L>) -> Option<T>>(
        &self,
        scene: &mut SceneGraph<P, T, C, S>,
        world: W,
    )
        requires
            old(scene).wf(),
            old(scene).spec_revision() + self.entries@.len() < u64::MAX,
            forall|b: &Binding<L>| #[trigger] world.requires((b,)),
        ensures
            final(scene).wf(),
            final(scene).frame() == old(scene).frame(),
            final(scene).override_map() == old(scene).override_map(),
            final(scene).entity_map().dom() == old(scene).entity_map().dom(),
            forall|k: u64|
                #[trigger] old(scene).entity_map().contains_key(k) ==> {
                    let e0 = old(scene).entity_map()[k];
                    let e1 = final(scene).entity_map()[k];
                    &&& e1 == SceneEntity { transform: e1.transform, ..e0 }
                    &&& !self.entries@.contains_key(k) ==> e1 == e0
                    &&& e1.transform != e0.transform ==> world.ensures(
                        (&self.entries@[k],),
                        Some(e1.transform),
                    )
                    &&& self.entries@.contains_key(k) ==> bound_placed(world, &self.entries@[k], e0, e1)
                },
    {
        let keys = self.bound_ids();
        let ghost m0 = scene.entity_map();
        let ghost r0 = scene.spec_revision();
        proof {
            assert(keys@.len() == self.entries@.len()) by {
                keys@.unique_seq_to_set();
            }
        }
        let mut i: usize = 0;
        while i < keys.len()
            invariant
                i <= keys@.len(),
                keys@.no_duplicates(),
                keys@.to_set() == self.entries@.dom(),
                keys@.len() == self.entries@.len(),
                scene.wf(),
                scene.frame() == old(scene).frame(),
                scene.override_map() == old(scene).override_map(),
                m0 == old(scene).entity_map(),
                r0 == old(scene).spec_revision(),
                r0 + keys@.len() < u64::MAX,
                scene.spec_revision() <= r0 + i,
                forall|b: &Binding<L>| #[trigger] world.requires((b,)),
                scene.entity_map().dom() == m0.dom(),
                forall|k: u64|
                    #[trigger] m0.contains_key(k) ==> {
                        let e0 = m0[k];
                        let e1 = scene.entity_map()[k];
                        &&& e1 == SceneEntity { transform: e1.transform, ..e0 }
                        &&& !keys@.take(i as int).contains(k) ==> e1 == e0
                        &&& e1.transform != e0.transform ==> world.ensures(
                            (&self.entries@[k],),
                            Some(e1.transform),
                        )
                        &&& keys@.take(i as int).contains(k) ==> bound_placed(world, &self.entries@[k], e0, e1)
                    },
            decreases keys@.len() - i,
        {
            let k = keys[i];
            proof {
                assert(keys@.to_set().contains(k));
            }
            let b = self.entries.get(&k).unwrap();
            let w = world(b);
            let ghost before = scene.entity_map();
            match w {
                Some(t) => {
                    scene.update_transform(EntityId(k), t);
                },
                None => {},
            }
            proof {
                assert(keys@.take(i + 1) =~= keys@.take(i as int).push(k));
                assert forall|j: u64| #[trigger] m0.contains_key(j) implies {
                    let e0 = m0[j];
                    let e1 = scene.entity_map()[j];
                    &&& e1 == SceneEntity { transform: e1.transform, ..e0 }
                    &&& !keys@.take(i + 1).contains(j) ==> e1 == e0
                    &&& e1.transform != e0.transform ==> world.ensures((&self.entries@[j],), Some(e1.transform))
                    &&& keys@.take(i + 1).contains(j) ==> bound_placed(world, &self.entries@[j], e0, e1)
                } by {
                    if j != k {
                        assert(scene.entity_map()[j] == before[j]);
                        assert(keys@.take(i as int).contains(j) ==> keys@.take(i + 1).contains(j));
                    } else {
                        assert(keys@.take(i + 1).contains(k)) by {
                            assert(keys@.take(i + 1)[i as int] == k);
                        }
                        assert(!keys@.take(i as int).contains(k)) by {
                            if keys@.take(i as int).contains(k) {
                                let t = keys@.take(i as int).index_of(k);
                                assert(keys@[t] == keys@[i as int]);
                            }
                        }
                    }
                }
                assert(scene.entity_map().dom() =~= m0.dom());
            }
            i = i + 1;
        }
        proof {
            assert forall|k: u64| #[trigger] m0.contains_key(k) && self.entries@.contains_key(k) implies keys@.take(i as int).contains(k) by {
                assert(keys@.take(i as int) =~= keys@);
                assert(keys@.to_set().contains(k));
            }
            assert forall|k: u64| #[trigger] m0.contains_key(k) && !self.entries@.contains_key(k) implies !keys@.take(i as int).contains(k) by {
                assert(keys@.take(i as int) =~= keys@);
                if keys@.contains(k) {
                    assert(keys@.to_set().contains(k));
                }
            }
        }
    }
}

} // verus!
