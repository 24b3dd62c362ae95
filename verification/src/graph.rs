//! Scene graph bookkeeping: which entities exist, their visibility, their
//! per-entity and graph-wide revision counters, and the user's style
//! overrides that survive re-publishes from the ingestion layer.
//!
//! The graph is generic over the primitive payload `P`, the world transform
//! `T`, and the color `C` / scale `S` values of a style override, so that the
//! bookkeeping is independent of the geometry it carries. Applying a style
//! override to a primitive is the caller's business: every operation that
//! applies one takes the applying function as an argument.

use std::collections::HashMap;
use vstd::prelude::*;
use vstd::std_specs::cmp::PartialEqSpec;
use vstd::std_specs::iter::IteratorSpec;

use crate::ids::EntityId;

verus! {

broadcast use vstd::std_specs::hash::group_hash_axioms;

/// One entity of the scene.
pub struct SceneEntity<P, T> {
    pub id: EntityId,
    pub label: Option<String>,
    /// World-space transform applied to the primitive's local coordinates.
    pub transform: T,
    pub primitive: P,
    pub visible: bool,
    /// Set when the primitive payload changes; cleared by the renderer once
    /// the payload has been uploaded.
    pub dirty: bool,
    /// Bumped on every payload change. Transform-only updates leave it alone.
    pub revision: u64,
}

impl<P, T> SceneEntity<P, T> {
    /// A fresh entity: no label, visible, dirty, revision 1, placed at
    /// `transform` (the identity for a freshly published primitive).
    pub fn new(id: EntityId, primitive: P, transform: T) -> (r: Self)
        ensures
            r.id == id,
            r.label is None,
            r.transform == transform,
            r.primitive == primitive,
            r.visible,
            r.dirty,
            r.revision == 1,
    {
        SceneEntity { id, label: None, transform, primitive, visible: true, dirty: true, revision: 1 }
    }

    pub fn with_label(self, label: &str) -> (r: Self)
        ensures
            r.label matches Some(l) && l@ == label@,
            r.id == self.id,
            r.transform == self.transform,
            r.primitive == self.primitive,
            r.visible == self.visible,
            r.dirty == self.dirty,
            r.revision == self.revision,
    {
        let mut e = self;
        e.label = Some(label.to_owned());
        e
    }

    pub fn with_transform(self, transform: T) -> (r: Self)
        ensures
            r.transform == transform,
            r.id == self.id,
            r.label == self.label,
            r.primitive == self.primitive,
            r.visible == self.visible,
            r.dirty == self.dirty,
            r.revision == self.revision,
    {
        let mut e = self;
        e.transform = transform;
        e
    }
}

/// Per-entity style override set from the UI. `None` = not overridden.
pub struct StyleOverride<C, S> {
    pub color: Option<C>,
    pub scale: Option<S>,
    /// Absolute arrow head radius, independent of `scale`.
    pub head_scale: Option<S>,
}

impl<C, S> StyleOverride<C, S> {
    /// The override that overrides nothing.
    pub fn none() -> (r: Self)
        ensures
            r.color is None,
            r.scale is None,
            r.head_scale is None,
    {
        StyleOverride { color: None, scale: None, head_scale: None }
    }

    pub open spec fn spec_is_empty(&self) -> bool {
        self.color is None && self.scale is None && self.head_scale is None
    }

    /// True when nothing is overridden.
    pub fn is_empty(&self) -> (r: bool)
        ensures
            r == self.spec_is_empty(),
    {
        self.color.is_none() && self.scale.is_none() && self.head_scale.is_none()
    }
}

/// `u64::wrapping_add(r, 1)`.
pub open spec fn bump(r: u64) -> u64 {
    if r == u64::MAX {
        0
    } else {
        (r + 1) as u64
    }
}

fn bump_exec(r: u64) -> (out: u64)
    ensures
        out == bump(r),
{
    if r == u64::MAX {
        0
    } else {
        r + 1
    }
}

/// `e` with its payload replaced by `p`: marked dirty, its revision bumped.
pub open spec fn with_new_payload<P, T>(e: SceneEntity<P, T>, p: P) -> SceneEntity<P, T> {
    SceneEntity { primitive: p, dirty: true, revision: bump(e.revision), ..e }
}

/// What `upsert` stores for `entity`, given the entity it replaces (if any)
/// and the primitive after any style override was applied.
pub open spec fn upserted<P, T>(
    entity: SceneEntity<P, T>,
    existing: Option<SceneEntity<P, T>>,
    p: P,
) -> SceneEntity<P, T> {
    match existing {
        Some(old) => SceneEntity {
            primitive: p,
            dirty: true,
            visible: old.visible,
            revision: bump(old.revision),
            ..entity
        },
        None => SceneEntity { primitive: p, dirty: true, ..entity },
    }
}

/// The override map after setting one field of the override of `id`: the
/// entry is dropped when it no longer overrides anything.
pub open spec fn overrides_after<C, S>(
    m: Map<u64, StyleOverride<C, S>>,
    id: u64,
    ov: StyleOverride<C, S>,
) -> Map<u64, StyleOverride<C, S>> {
    if ov.spec_is_empty() {
        m.remove(id)
    } else {
        m.insert(id, ov)
    }
}

/// The stored override of `id`, or the empty one.
pub open spec fn override_of<C, S>(m: Map<u64, StyleOverride<C, S>>, id: u64) -> StyleOverride<
    C,
    S,
> {
    if m.contains_key(id) {
        m[id]
    } else {
        StyleOverride { color: None, scale: None, head_scale: None }
    }
}

pub struct SceneGraph<P, T, C, S> {
    /// Entities keyed by the number inside their `EntityId`.
    pub entities: HashMap<u64, SceneEntity<P, T>>,
    pub reference_frame: String,
    /// Style overrides keyed like `entities`; a missing entry = no override.
    pub style_overrides: HashMap<u64, StyleOverride<C, S>>,
    /// Counter bumped on every mutation.
    revision: u64,
}

impl<P, T, C: Copy, S: Copy> Default for SceneGraph<P, T, C, S> {
    /// An empty graph in the `map` frame.
    fn default() -> (g: Self)
        ensures
            g.wf(),
            g.entity_map() == Map::<u64, SceneEntity<P, T>>::empty(),
            g.override_map() == Map::<u64, StyleOverride<C, S>>::empty(),
            g.frame() == "map"@,
            g.spec_revision() == 0,
    {
        SceneGraph::new("map")
    }
}

impl<P, T, C: Copy, S: Copy> SceneGraph<P, T, C, S> {
    /// Every entity is stored under the number of its own id, and every
    /// stored style override overrides something.
    pub closed spec fn wf(&self) -> bool {
        &&& forall|k: u64| #[trigger] self.entities@.contains_key(k) ==> self.entities@[k].id.0 == k
        &&& forall|k: u64|
            #[trigger] self.style_overrides@.contains_key(k) ==> !self.style_overrides@[k].spec_is_empty()
    }

    /// No empty style override is ever stored: an override whose last field
    /// is cleared leaves the map.
    pub proof fn lemma_no_empty_override(&self)
        requires
            self.wf(),
        ensures
            forall|k: u64| #[trigger] self.override_map().contains_key(k) ==> !self.override_map()[k].spec_is_empty(),
    {
    }

    /// The entities, keyed by the number inside their id.
    pub closed spec fn entity_map(&self) -> Map<u64, SceneEntity<P, T>> {
        self.entities@
    }

    /// The style overrides, keyed like the entities.
    pub closed spec fn override_map(&self) -> Map<u64, StyleOverride<C, S>> {
        self.style_overrides@
    }

    pub closed spec fn frame(&self) -> Seq<char> {
        self.reference_frame@
    }

    pub closed spec fn spec_revision(&self) -> u64 {
        self.revision
    }

    pub fn new(reference_frame: &str) -> (g: Self)
        ensures
            g.wf(),
            g.entity_map() == Map::<u64, SceneEntity<P, T>>::empty(),
            g.override_map() == Map::<u64, StyleOverride<C, S>>::empty(),
            g.frame() == reference_frame@,
            g.spec_revision() == 0,
    {
        SceneGraph {
            entities: HashMap::new(),
            reference_frame: reference_frame.to_owned(),
            style_overrides: HashMap::new(),
            revision: 0,
        }
    }

    /// Latest mutation counter.
    pub fn revision(&self) -> (r: u64)
        ensures
            r == self.spec_revision(),
    {
        self.revision
    }

    /// Insert or replace an entity, marking it dirty. A replaced entity keeps
    /// its visibility and its revision advances; a stored style override is
    /// re-applied to the fresh primitive through `apply`.
    pub fn upsert<F: Fn(P, StyleOverride<C, S>) -> P>(&mut self, entity: SceneEntity<P, T>, apply: F)
        requires
            old(self).wf(),
            old(self).spec_revision() < u64::MAX,
            forall|p: P, o: StyleOverride<C, S>| #[trigger] apply.requires((p, o)),
        ensures
            final(self).wf(),
            final(self).spec_revision() == old(self).spec_revision() + 1,
            final(self).override_map() == old(self).override_map(),
            final(self).frame() == old(self).frame(),
            ({
                let k = entity.id.0;
                let existing = if old(self).entity_map().contains_key(k) {
                    Some(old(self).entity_map()[k])
                } else {
                    None
                };
                let p = final(self).entity_map()[k].primitive;
                &&& final(self).entity_map() == old(self).entity_map().insert(
                    k,
                    upserted(entity, existing, p),
                )
                &&& if old(self).override_map().contains_key(k) {
                    apply.ensures((entity.primitive, old(self).override_map()[k]), p)
                } else {
                    p == entity.primitive
                }
            }),
    {
        let k = entity.id.0;
        let ghost ent = entity;
        let mut entity = entity;
        entity.dirty = true;
        match self.entities.get(&k) {
            Some(existing) => {
                entity.visible = existing.visible;
                entity.revision = bump_exec(existing.revision);
            },
            None => {},
        }
        match self.style_overrides.get(&k) {
            Some(ov) => {
                let ov = StyleOverride { color: ov.color, scale: ov.scale, head_scale: ov.head_scale };
                let SceneEntity { id, label, transform, primitive, visible, dirty, revision } = entity;
                let p = apply(primitive, ov);
                entity = SceneEntity { id, label, transform, primitive: p, visible, dirty, revision };
            },
            None => {},
        }
        let ghost stored = entity;
        self.entities.insert(k, entity);
        self.revision = self.revision + 1;
        proof {
            let existing = if old(self).entity_map().contains_key(k) {
                Some(old(self).entity_map()[k])
            } else {
                None
            };
            assert(stored == upserted(ent, existing, stored.primitive));
            assert(self.entity_map() == old(self).entity_map().insert(k, upserted(ent, existing, stored.primitive)));
            assert(if old(self).override_map().contains_key(k) {
                apply.ensures((ent.primitive, old(self).override_map()[k]), stored.primitive)
            } else {
                stored.primitive == ent.primitive
            });
        }
    }

    /// The ids of all entities, each once, in no particular order.
    pub fn ids(&self) -> (r: Vec<u64>)
        ensures
            r@.no_duplicates(),
            r@.to_set() == self.entity_map().dom(),
    {
        let mut out: Vec<u64> = Vec::new();
        let ghost ks = vstd::std_specs::hash::spec_keys_iter(&self.entities).remaining().unref();
        proof {
            broadcast use vstd::std_specs::hash::axiom_spec_keys_iter;

            assert(ks.to_set() == self.entities@.dom());
            assert(ks.no_duplicates());
        }
        for k in it: self.entities.keys()
            invariant
                it.seq().unref() == ks,
                out@ == ks.take(it.index() as int),
        {
            proof {
                assert(ks.take(it.index() + 1) =~= ks.take(it.index() as int).push(*k));
            }
            out.push(*k);
        }
        proof {
            assert(ks.take(ks.len() as int) =~= ks);
            broadcast use vstd::std_specs::hash::axiom_spec_keys_iter;
        }
        out
    }

    /// Whether an entity with this id exists.
    pub fn contains(&self, id: EntityId) -> (r: bool)
        ensures
            r == self.entity_map().contains_key(id.0),
    {
        self.entities.contains_key(&id.0)
    }

    /// The entity with this id, if any.
    pub fn get(&self, id: EntityId) -> (r: Option<&SceneEntity<P, T>>)
        ensures
            match r {
                Some(e) => self.entity_map().contains_key(id.0) && *e == self.entity_map()[id.0],
                None => !self.entity_map().contains_key(id.0),
            },
    {
        self.entities.get(&id.0)
    }

    /// Replace an entity's primitive in place (re-applying any stored style
    /// override through `apply`), mark it dirty and bump its revision. No-op
    /// for an unknown id.
    pub fn update_primitive<F: Fn(P, StyleOverride<C, S>) -> P>(
        &mut self,
        id: EntityId,
        primitive: P,
        apply: F,
    )
        requires
            old(self).wf(),
            old(self).spec_revision() < u64::MAX,
            forall|p: P, o: StyleOverride<C, S>| #[trigger] apply.requires((p, o)),
        ensures
            final(self).wf(),
            final(self).override_map() == old(self).override_map(),
            final(self).frame() == old(self).frame(),
            ({
                let k = id.0;
                if old(self).entity_map().contains_key(k) {
                    let p = final(self).entity_map()[k].primitive;
                    &&& final(self).spec_revision() == old(self).spec_revision() + 1
                    &&& final(self).entity_map() == old(self).entity_map().insert(
                        k,
                        with_new_payload(old(self).entity_map()[k], p),
                    )
                    &&& if old(self).override_map().contains_key(k) {
                        apply.ensures((primitive, old(self).override_map()[k]), p)
                    } else {
                        p == primitive
                    }
                } else {
                    &&& final(self).spec_revision() == old(self).spec_revision()
                    &&& final(self).entity_map() == old(self).entity_map()
                }
            }),
    {
        let k = id.0;
        match self.entities.remove(&k) {
            Some(e) => {
                let SceneEntity { id: eid, label, transform, primitive: _, visible, dirty: _, revision } = e;
                let p = match self.style_overrides.get(&k) {
                    Some(ov) => apply(
                        primitive,
                        StyleOverride { color: ov.color, scale: ov.scale, head_scale: ov.head_scale },
                    ),
                    None => primitive,
                };
                let e2 = SceneEntity {
                    id: eid,
                    label,
                    transform,
                    primitive: p,
                    visible,
                    dirty: true,
                    revision: bump_exec(revision),
                };
                self.entities.insert(k, e2);
                self.revision = self.revision + 1;
                proof {
                    assert(self.entity_map() =~= old(self).entity_map().insert(
                        k,
                        with_new_payload(old(self).entity_map()[k], p),
                    ));
                }
            },
            None => {
                proof {
                    assert(self.entity_map() =~= old(self).entity_map());
                }
            },
        }
    }

    /// Store `new_ov` as the override of `id` (dropping the entry when it is
    /// empty) and, when the entity exists, apply `delta` to its primitive if
    /// there is one, mark it dirty and bump its revision.
    fn restyle<F: Fn(P, StyleOverride<C, S>) -> P>(
        &mut self,
        id: EntityId,
        new_ov: StyleOverride<C, S>,
        delta: Option<StyleOverride<C, S>>,
        apply: F,
    )
        requires
            old(self).wf(),
            old(self).spec_revision() < u64::MAX,
            forall|p: P, o: StyleOverride<C, S>| #[trigger] apply.requires((p, o)),
        ensures
            final(self).wf(),
            final(self).frame() == old(self).frame(),
            final(self).spec_revision() == old(self).spec_revision() + 1,
            final(self).override_map() == overrides_after(old(self).override_map(), id.0, new_ov),
            ({
                let k = id.0;
                if old(self).entity_map().contains_key(k) {
                    let old_p = old(self).entity_map()[k].primitive;
                    let p = final(self).entity_map()[k].primitive;
                    &&& final(self).entity_map() == old(self).entity_map().insert(
                        k,
                        with_new_payload(old(self).entity_map()[k], p),
                    )
                    &&& match delta {
                        Some(d) => apply.ensures((old_p, d), p),
                        None => p == old_p,
                    }
                } else {
                    final(self).entity_map() == old(self).entity_map()
                }
            }),
    {
        let k = id.0;
        if new_ov.is_empty() {
            self.style_overrides.remove(&k);
        } else {
            self.style_overrides.insert(k, new_ov);
        }
        match self.entities.remove(&k) {
            Some(e) => {
                let SceneEntity { id: eid, label, transform, primitive, visible, dirty: _, revision } = e;
                let p = match delta {
                    Some(d) => apply(primitive, d),
                    None => primitive,
                };
                let e2 = SceneEntity {
                    id: eid,
                    label,
                    transform,
                    primitive: p,
                    visible,
                    dirty: true,
                    revision: bump_exec(revision),
                };
                self.entities.insert(k, e2);
                proof {
                    assert(self.entity_map() =~= old(self).entity_map().insert(
                        k,
                        with_new_payload(old(self).entity_map()[k], p),
                    ));
                }
            },
            None => {
                proof {
                    assert(self.entity_map() =~= old(self).entity_map());
                }
            },
        }
        self.revision = self.revision + 1;
    }

    fn current_override(&self, id: EntityId) -> (r: StyleOverride<C, S>)
        ensures
            r == override_of(self.override_map(), id.0),
    {
        match self.style_overrides.get(&id.0) {
            Some(ov) => StyleOverride { color: ov.color, scale: ov.scale, head_scale: ov.head_scale },
            None => StyleOverride::none(),
        }
    }

    /// Set (or clear, with `None`) the color override of `id`. A new color is
    /// applied to the live entity at once; the entity is marked dirty either
    /// way.
    pub fn set_color_override<F: Fn(P, StyleOverride<C, S>) -> P>(
        &mut self,
        id: EntityId,
        color: Option<C>,
        apply: F,
    )
        requires
            old(self).wf(),
            old(self).spec_revision() < u64::MAX,
            forall|p: P, o: StyleOverride<C, S>| #[trigger] apply.requires((p, o)),
        ensures
            final(self).wf(),
            final(self).frame() == old(self).frame(),
            final(self).spec_revision() == old(self).spec_revision() + 1,
            final(self).override_map() == overrides_after(
                old(self).override_map(),
                id.0,
                StyleOverride { color, ..override_of(old(self).override_map(), id.0) },
            ),
            ({
                let k = id.0;
                if old(self).entity_map().contains_key(k) {
                    let old_p = old(self).entity_map()[k].primitive;
                    let p = final(self).entity_map()[k].primitive;
                    &&& final(self).entity_map() == old(self).entity_map().insert(
                        k,
                        with_new_payload(old(self).entity_map()[k], p),
                    )
                    &&& match color {
                        Some(c) => apply.ensures(
                            (old_p, StyleOverride { color: Some(c), scale: None, head_scale: None }),
                            p,
                        ),
                        None => p == old_p,
                    }
                } else {
                    final(self).entity_map() == old(self).entity_map()
                }
            }),
    {
        let cur = self.current_override(id);
        let new_ov = StyleOverride { color, scale: cur.scale, head_scale: cur.head_scale };
        let delta = match color {
            Some(c) => Some(StyleOverride { color: Some(c), scale: None, head_scale: None }),
            None => None,
        };
        self.restyle(id, new_ov, delta, apply);
    }

    /// Set (or clear) the scale override of `id`; see `set_color_override`.
    pub fn set_scale_override<F: Fn(P, StyleOverride<C, S>) -> P>(
        &mut self,
        id: EntityId,
        scale: Option<S>,
        apply: F,
    )
        requires
            old(self).wf(),
            old(self).spec_revision() < u64::MAX,
            forall|p: P, o: StyleOverride<C, S>| #[trigger] apply.requires((p, o)),
        ensures
            final(self).wf(),
            final(self).frame() == old(self).frame(),
            final(self).spec_revision() == old(self).spec_revision() + 1,
            final(self).override_map() == overrides_after(
                old(self).override_map(),
                id.0,
                StyleOverride { scale, ..override_of(old(self).override_map(), id.0) },
            ),
            ({
                let k = id.0;
                if old(self).entity_map().contains_key(k) {
                    let old_p = old(self).entity_map()[k].primitive;
                    let p = final(self).entity_map()[k].primitive;
                    &&& final(self).entity_map() == old(self).entity_map().insert(
                        k,
                        with_new_payload(old(self).entity_map()[k], p),
                    )
                    &&& match scale {
                        Some(s) => apply.ensures(
                            (old_p, StyleOverride { color: None, scale: Some(s), head_scale: None }),
                            p,
                        ),
                        None => p == old_p,
                    }
                } else {
                    final(self).entity_map() == old(self).entity_map()
                }
            }),
    {
        let cur = self.current_override(id);
        let new_ov = StyleOverride { color: cur.color, scale, head_scale: cur.head_scale };
        let delta = match scale {
            Some(s) => Some(StyleOverride { color: None, scale: Some(s), head_scale: None }),
            None => None,
        };
        self.restyle(id, new_ov, delta, apply);
    }

    /// Set (or clear) the arrow head-size override of `id`; see
    /// `set_color_override`.
    pub fn set_head_scale_override<F: Fn(P, StyleOverride<C, S>) -> P>(
        &mut self,
        id: EntityId,
        head_scale: Option<S>,
        apply: F,
    )
        requires
            old(self).wf(),
            old(self).spec_revision() < u64::MAX,
            forall|p: P, o: StyleOverride<C, S>| #[trigger] apply.requires((p, o)),
        ensures
            final(self).wf(),
            final(self).frame() == old(self).frame(),
            final(self).spec_revision() == old(self).spec_revision() + 1,
            final(self).override_map() == overrides_after(
                old(self).override_map(),
                id.0,
                StyleOverride { head_scale, ..override_of(old(self).override_map(), id.0) },
            ),
            ({
                let k = id.0;
                if old(self).entity_map().contains_key(k) {
                    let old_p = old(self).entity_map()[k].primitive;
                    let p = final(self).entity_map()[k].primitive;
                    &&& final(self).entity_map() == old(self).entity_map().insert(
                        k,
                        with_new_payload(old(self).entity_map()[k], p),
                    )
                    &&& match head_scale {
                        Some(h) => apply.ensures(
                            (old_p, StyleOverride { color: None, scale: None, head_scale: Some(h) }),
                            p,
                        ),
                        None => p == old_p,
                    }
                } else {
                    final(self).entity_map() == old(self).entity_map()
                }
            }),
    {
        let cur = self.current_override(id);
        let new_ov = StyleOverride { color: cur.color, scale: cur.scale, head_scale };
        let delta = match head_scale {
            Some(h) => Some(StyleOverride { color: None, scale: None, head_scale: Some(h) }),
            None => None,
        };
        self.restyle(id, new_ov, delta, apply);
    }

    /// Show or hide an entity. Only an actual change bumps the revision.
    pub fn set_visible(&mut self, id: EntityId, visible: bool)
        requires
            old(self).wf(),
            old(self).spec_revision() < u64::MAX,
        ensures
            final(self).wf(),
            final(self).frame() == old(self).frame(),
            final(self).override_map() == old(self).override_map(),
            ({
                let k = id.0;
                if old(self).entity_map().contains_key(k) && old(self).entity_map()[k].visible
                    != visible {
                    &&& final(self).entity_map() == old(self).entity_map().insert(
                        k,
                        SceneEntity { visible, ..old(self).entity_map()[k] },
                    )
                    &&& final(self).spec_revision() == old(self).spec_revision() + 1
                } else {
                    &&& final(self).entity_map() == old(self).entity_map()
                    &&& final(self).spec_revision() == old(self).spec_revision()
                }
            }),
    {
        let k = id.0;
        let changes = match self.entities.get(&k) {
            Some(e) => e.visible != visible,
            None => false,
        };
        if changes {
            match self.entities.remove(&k) {
                Some(e) => {
                    let mut e = e;
                    e.visible = visible;
                    self.entities.insert(k, e);
                    self.revision = self.revision + 1;
                    proof {
                        assert(self.entity_map() =~= old(self).entity_map().insert(
                            k,
                            SceneEntity { visible, ..old(self).entity_map()[k] },
                        ));
                    }
                },
                None => {},
            }
        }
    }

    /// Remove an entity, returning it. Only an actual removal bumps the
    /// revision.
    pub fn remove(&mut self, id: EntityId) -> (r: Option<SceneEntity<P, T>>)
        requires
            old(self).wf(),
            old(self).spec_revision() < u64::MAX,
        ensures
            final(self).wf(),
            final(self).frame() == old(self).frame(),
            final(self).override_map() == old(self).override_map(),
            final(self).entity_map() == old(self).entity_map().remove(id.0),
            match r {
                Some(e) => {
                    &&& old(self).entity_map().contains_key(id.0)
                    &&& e == old(self).entity_map()[id.0]
                    &&& final(self).spec_revision() == old(self).spec_revision() + 1
                },
                None => {
                    &&& !old(self).entity_map().contains_key(id.0)
                    &&& final(self).spec_revision() == old(self).spec_revision()
                },
            },
    {
        let removed = self.entities.remove(&id.0);
        if removed.is_some() {
            self.revision = self.revision + 1;
        }
        removed
    }
}

impl<P, T: PartialEq, C: Copy, S: Copy> SceneGraph<P, T, C, S> {
    /// Move an entity. The payload is untouched: neither `dirty` nor the
    /// entity's revision change. Only an actual change of transform bumps the
    /// graph revision; setting the transform it already has is a no-op.
    pub fn update_transform(&mut self, id: EntityId, transform: T)
        requires
            old(self).wf(),
            old(self).spec_revision() < u64::MAX,
        ensures
            final(self).wf(),
            final(self).frame() == old(self).frame(),
            final(self).override_map() == old(self).override_map(),
            ({
                let k = id.0;
                let moved = final(self).entity_map() == old(self).entity_map().insert(
                    k,
                    SceneEntity { transform, ..old(self).entity_map()[k] },
                ) && final(self).spec_revision() == old(self).spec_revision() + 1;
                let kept = final(self).entity_map() == old(self).entity_map()
                    && final(self).spec_revision() == old(self).spec_revision();
                if old(self).entity_map().contains_key(k) {
                    &&& moved || kept
                    &&& T::obeys_eq_spec() ==> (kept <==> old(self).entity_map()[k].transform.eq_spec(
                        &transform,
                    ))
                } else {
                    kept
                }
            }),
    {
        let k = id.0;
        let same = match self.entities.get(&k) {
            Some(e) => e.transform == transform,
            None => true,
        };
        if !same {
            match self.entities.remove(&k) {
                Some(e) => {
                    let mut e = e;
                    e.transform = transform;
                    self.entities.insert(k, e);
                    self.revision = self.revision + 1;
                    proof {
                        assert(self.entity_map() =~= old(self).entity_map().insert(
                            k,
                            SceneEntity { transform, ..old(self).entity_map()[k] },
                        ));
                    }
                },
                None => {},
            }
        }
    }
}

} // verus!
