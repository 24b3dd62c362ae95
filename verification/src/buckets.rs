//! How the entities of a side-panel group are laid out: bucketed by topic
//! (in topic name order, entities in their order within each bucket), the
//! entities without a topic listed after the buckets; inside a topic with
//! markers, sub-buckets by marker namespace.

use vstd::prelude::*;

use crate::graph::SceneGraph;
use crate::ids::EntityId;
use crate::nstree::{chars_lt, lemma_name_lt_irreflexive, lemma_name_lt_total, lemma_name_lt_transitive, name_lt};
use crate::panel::{ascending, entity_label, opt_view, parse_label, parse_marker_label, topic_for_entity, topic_of};
use crate::text::{chars_of, str_eq};

verus! {

/// The ids among the first `n` whose key is `k`, in order.
pub open spec fn keyed(ids: Seq<EntityId>, keys: Seq<Option<Seq<char>>>, k: Option<Seq<char>>, n: int) -> Seq<EntityId>
    decreases n,
{
    if n <= 0 {
        Seq::empty()
    } else if keys[n - 1] == k {
        keyed(ids, keys, k, n - 1).push(ids[n - 1])
    } else {
        keyed(ids, keys, k, n - 1)
    }
}

proof fn lemma_keyed_none(ids: Seq<EntityId>, keys: Seq<Option<Seq<char>>>, k: Option<Seq<char>>, n: int)
    requires
        forall|j: int| 0 <= j < n ==> keys[j] != k,
    ensures
        keyed(ids, keys, k, n) == Seq::<EntityId>::empty(),
    decreases n,
{
    if n > 0 {
        lemma_keyed_none(ids, keys, k, n - 1);
    }
}

proof fn lemma_keyed_some(ids: Seq<EntityId>, keys: Seq<Option<Seq<char>>>, k: Option<Seq<char>>, n: int, j: int)
    requires
        0 <= j < n,
        keys[j] == k,
    ensures
        keyed(ids, keys, k, n).len() > 0,
    decreases n,
{
    if j < n - 1 {
        lemma_keyed_some(ids, keys, k, n - 1, j);
    }
}

/// Buckets keyed by name: the keys, strictly ascending, and the ids of each.
pub open spec fn bucket_keys(b: Seq<(String, Vec<EntityId>)>) -> Seq<Seq<char>> {
    b.map_values(|x: (String, Vec<EntityId>)| x.0@)
}

/// `b` buckets the first `n` ids by key: keys ascending, each bucket holds
/// exactly the ids with its key, and every key that occurs has a bucket.
pub open spec fn buckets_of(
    b: Seq<(String, Vec<EntityId>)>,
    ids: Seq<EntityId>,
    keys: Seq<Option<Seq<char>>>,
    n: int,
) -> bool {
    &&& ascending(bucket_keys(b))
    &&& forall|i: int| 0 <= i < b.len() ==> (#[trigger] b[i]).1@ == keyed(ids, keys, Some(b[i].0@), n)
    &&& forall|k: Seq<char>|
        #[trigger] bucket_keys(b).contains(k) <==> exists|j: int| 0 <= j < n && keys[j] == Some(k)
}

/// Group `ids` by their keys (see `buckets_of`); the ids without a key are
/// returned apart, in order.
pub fn group_by_key(ids: &Vec<EntityId>, keys: &Vec<Option<String>>) -> (r: (Vec<(String, Vec<EntityId>)>, Vec<EntityId>))
    requires
        ids@.len() == keys@.len(),
    ensures
        buckets_of(r.0@, ids@, opt_strs(keys@), ids@.len() as int),
        r.1@ == keyed(ids@, opt_strs(keys@), None, ids@.len() as int),
{
    let ghost kv = opt_strs(keys@);
    let mut buckets: Vec<(String, Vec<EntityId>)> = Vec::new();
    let mut rest: Vec<EntityId> = Vec::new();
    let mut i: usize = 0;
    proof {
        assert(bucket_keys(buckets@) =~= Seq::<Seq<char>>::empty());
    }
    while i < ids.len()
        invariant
            i <= ids@.len(),
            ids@.len() == keys@.len(),
            kv == opt_strs(keys@),
            buckets_of(buckets@, ids@, kv, i as int),
            rest@ == keyed(ids@, kv, None, i as int),
        decreases ids@.len() - i,
    {
        let id = ids[i];
        let ghost b0 = buckets@;
        let ghost bk0 = bucket_keys(b0);
        proof {
            assert(kv[i as int] == match keys@[i as int] {
                Some(s) => Some(s@),
                None => None::<Seq<char>>,
            });
        }
        match &keys[i] {
            None => {
                rest.push(id);
                proof {
                    assert forall|j: int| 0 <= j < buckets@.len() implies (#[trigger] buckets@[j]).1@ == keyed(
                        ids@,
                        kv,
                        Some(buckets@[j].0@),
                        i + 1,
                    ) by {}
                    assert forall|k: Seq<char>| #[trigger] bucket_keys(buckets@).contains(k) <==> exists|j: int|
                        0 <= j < i + 1 && kv[j] == Some(k) by {
                        if exists|j: int| 0 <= j < i + 1 && kv[j] == Some(k) {
                            let j = choose|j: int| 0 <= j < i + 1 && kv[j] == Some(k);
                            assert(j < i);
                        }
                    }
                }
            },
            Some(key) => {
                let kc = chars_of(key.as_str());
                let mut p: usize = 0;
                while p < buckets.len() && chars_lt(&chars_of(buckets[p].0.as_str()), &kc)
                    invariant
                        p <= buckets@.len(),
                        buckets@ == b0,
                        bk0 == bucket_keys(b0),
                        kc@ == key@,
                        forall|q: int| 0 <= q < p ==> name_lt(#[trigger] bk0[q], key@),
                    decreases buckets@.len() - p,
                {
                    p = p + 1;
                }
                let found = p < buckets.len() && str_eq(buckets[p].0.as_str(), key.as_str());
                proof {
                    // Keys are distinct.
                    assert forall|a: int, c: int| 0 <= a < bk0.len() && 0 <= c < bk0.len() && a != c implies bk0[a]
                        != bk0[c] by {
                        if a < c {
                            assert(name_lt(bk0[a], bk0[c]));
                        } else {
                            assert(name_lt(bk0[c], bk0[a]));
                        }
                        lemma_name_lt_irreflexive(bk0[a]);
                    }
                }
                if found {
                    let (name, mut group) = buckets.remove(p);
                    group.push(id);
                    buckets.insert(p, (name, group));
                    proof {
                        assert(bucket_keys(buckets@) =~= bk0);
                        assert forall|j: int| 0 <= j < buckets@.len() implies (#[trigger] buckets@[j]).1@ == keyed(
                            ids@,
                            kv,
                            Some(buckets@[j].0@),
                            i + 1,
                        ) by {
                            if j != p {
                                assert(buckets@[j] == b0[j]);
                                assert(bk0[j] != bk0[p as int]);
                                assert(bk0[j] == b0[j].0@);
                            }
                        }
                        assert forall|k: Seq<char>| #[trigger] bucket_keys(buckets@).contains(k) <==> exists|j: int|
                            0 <= j < i + 1 && kv[j] == Some(k) by {
                            if k == key@ {
                                assert(bk0[p as int] == k);
                            }
                            if exists|j: int| 0 <= j < i + 1 && kv[j] == Some(k) {
                                let j = choose|j: int| 0 <= j < i + 1 && kv[j] == Some(k);
                                if j == i {
                                    assert(bk0[p as int] == k);
                                }
                            }
                        }
                    }
                } else {
                    proof {
                        assert forall|q: int| p <= q < bk0.len() implies name_lt(key@, #[trigger] bk0[q]) by {
                            lemma_name_lt_total(bk0[p as int], key@);
                            if q > p {
                                lemma_name_lt_transitive(key@, bk0[p as int], bk0[q]);
                            }
                        }
                        assert(!bk0.contains(key@)) by {
                            if bk0.contains(key@) {
                                let q = bk0.index_of(key@);
                                if q < p {
                                    lemma_name_lt_irreflexive(key@);
                                } else if q > p {
                                    lemma_name_lt_irreflexive(key@);
                                }
                            }
                        }
                        assert forall|j: int| 0 <= j < i implies kv[j] != Some(key@) by {
                            if kv[j] == Some(key@) {
                                assert(exists|jj: int| 0 <= jj < i && kv[jj] == Some(key@));
                            }
                        }
                        lemma_keyed_none(ids@, kv, Some(key@), i as int);
                    }
                    let mut group: Vec<EntityId> = Vec::new();
                    group.push(id);
                    buckets.insert(p, (key.clone(), group));
                    proof {
                        let nb = bucket_keys(buckets@);
                        assert(nb =~= bk0.insert(p as int, key@));
                        assert forall|a: int, c: int| 0 <= a < c < nb.len() implies name_lt(#[trigger] nb[a], #[trigger] nb[c]) by {
                            if a < p && c == p {
                            } else if a < p && c > p {
                                assert(nb[c] == bk0[c - 1]);
                                lemma_name_lt_transitive(nb[a], key@, nb[c]);
                            } else if a == p {
                                assert(nb[c] == bk0[c - 1]);
                            } else if c < p {
                            } else {
                                assert(nb[a] == bk0[a - 1]);
                                assert(nb[c] == bk0[c - 1]);
                            }
                        }
                        assert forall|j: int| 0 <= j < buckets@.len() implies (#[trigger] buckets@[j]).1@ == keyed(
                            ids@,
                            kv,
                            Some(buckets@[j].0@),
                            i + 1,
                        ) by {
                            if j < p {
                                assert(buckets@[j] == b0[j]);
                                assert(bk0[j] == b0[j].0@);
                                assert(bk0[j] != key@);
                            } else if j > p {
                                assert(buckets@[j] == b0[j - 1]);
                                assert(bk0[j - 1] == b0[j - 1].0@);
                                assert(bk0[j - 1] != key@);
                            } else {
                                assert(group@ =~= Seq::<EntityId>::empty().push(id));
                            }
                        }
                        assert forall|k: Seq<char>| #[trigger] bucket_keys(buckets@).contains(k) <==> exists|j: int|
                            0 <= j < i + 1 && kv[j] == Some(k) by {
                            if nb.contains(k) {
                                let q = nb.index_of(k);
                                if q < p {
                                    assert(bk0[q] == k);
                                } else if q > p {
                                    assert(bk0[q - 1] == k);
                                }
                                if k != key@ {
                                    assert(bk0.contains(k));
                                }
                            }
                            if exists|j: int| 0 <= j < i + 1 && kv[j] == Some(k) {
                                let j = choose|j: int| 0 <= j < i + 1 && kv[j] == Some(k);
                                if j == i {
                                    assert(nb[p as int] == k);
                                } else {
                                    assert(bk0.contains(k));
                                    let q = bk0.index_of(k);
                                    if q < p {
                                        assert(nb[q] == k);
                                    } else {
                                        assert(nb[q + 1] == k);
                                    }
                                }
                            }
                        }
                    }
                }
            },
        }
        i = i + 1;
    }
    (buckets, rest)
}

/// The views of optional strings.
pub open spec fn opt_strs(v: Seq<Option<String>>) -> Seq<Option<Seq<char>>> {
    v.map_values(|o: Option<String>| match o {
        Some(s) => Some(s@),
        None => None,
    })
}

/// The topic key of each of `ids` (see `topic_of`).
pub open spec fn topic_keys<P, T>(m: Map<u64, crate::graph::SceneEntity<P, T>>, ids: Seq<EntityId>) -> Seq<
    Option<Seq<char>>,
> {
    Seq::new(ids.len(), |i: int| topic_of(ids[i], entity_label(m, ids[i].0)))
}

fn label_of<P, T, C: Copy, S: Copy>(scene: &SceneGraph<P, T, C, S>, id: EntityId) -> (r: Option<&str>)
    ensures
        opt_view(r) == entity_label(scene.entity_map(), id.0),
{
    match scene.get(id) {
        Some(e) => match &e.label {
            Some(l) => Some(l.as_str()),
            None => None,
        },
        None => None,
    }
}

/// The members of a group bucketed by topic (in topic order), and those
/// without a topic, in member order.
pub fn topic_buckets<P, T, C: Copy, S: Copy>(scene: &SceneGraph<P, T, C, S>, members: &Vec<EntityId>) -> (r: (
    Vec<(String, Vec<EntityId>)>,
    Vec<EntityId>,
))
    ensures
        buckets_of(r.0@, members@, topic_keys(scene.entity_map(), members@), members@.len() as int),
        r.1@ == keyed(members@, topic_keys(scene.entity_map(), members@), None, members@.len() as int),
{
    let mut keys: Vec<Option<String>> = Vec::new();
    let mut i: usize = 0;
    while i < members.len()
        invariant
            i <= members@.len(),
            keys@.len() == i,
            forall|j: int| 0 <= j < i ==> #[trigger] opt_strs(keys@)[j] == topic_keys(scene.entity_map(), members@)[j],
        decreases members@.len() - i,
    {
        let id = members[i];
        let t = topic_for_entity(id, label_of(scene, id));
        let ghost k0 = keys@;
        keys.push(t);
        proof {
            assert forall|j: int| 0 <= j < i + 1 implies #[trigger] opt_strs(keys@)[j] == topic_keys(
                scene.entity_map(),
                members@,
            )[j] by {
                if j < i {
                    assert(keys@[j] == k0[j]);
                    assert(opt_strs(k0)[j] == topic_keys(scene.entity_map(), members@)[j]);
                }
            }
        }
        i = i + 1;
    }
    proof {
        assert(opt_strs(keys@) =~= topic_keys(scene.entity_map(), members@));
    }
    group_by_key(members, &keys)
}

/// The namespace of a marker label: the part before `/` inside the
/// brackets, empty when there is none or the label is not a marker label.
pub open spec fn ns_of(label: Option<Seq<char>>) -> Seq<char> {
    match label {
        Some(l) => match parse_label(l) {
            Some((_, Some(ns), _)) => ns,
            _ => Seq::empty(),
        },
        None => Seq::empty(),
    }
}

/// The namespace key of each of `ids`.
pub open spec fn ns_keys<P, T>(m: Map<u64, crate::graph::SceneEntity<P, T>>, ids: Seq<EntityId>) -> Seq<
    Option<Seq<char>>,
> {
    Seq::new(ids.len(), |i: int| Some(ns_of(entity_label(m, ids[i].0))))
}

/// Inside a topic bucket: `None` (list the entities flat) unless one of
/// them is a marker and some has a namespace; then the entities bucketed
/// by namespace (the empty one included), in name order.
pub fn ns_buckets<P, T, C: Copy, S: Copy>(scene: &SceneGraph<P, T, C, S>, ids: &Vec<EntityId>) -> (r: Option<
    Vec<(String, Vec<EntityId>)>,
>)
    ensures
        r is None <==> (!(exists|j: int| 0 <= j < ids@.len() && #[trigger] ids@[j].0 >= crate::ids::ROS_ID_MARKER_BASE)
            || forall|j: int| 0 <= j < ids@.len() ==> #[trigger] ns_keys(scene.entity_map(), ids@)[j] == Some(
            Seq::<char>::empty(),
        )),
        match r {
            Some(b) => buckets_of(b@, ids@, ns_keys(scene.entity_map(), ids@), ids@.len() as int),
            None => true,
        },
{
    let ghost m = scene.entity_map();
    let mut any_marker = false;
    let mut keys: Vec<Option<String>> = Vec::new();
    let mut all_empty = true;
    let mut i: usize = 0;
    while i < ids.len()
        invariant
            i <= ids@.len(),
            m == scene.entity_map(),
            keys@.len() == i,
            forall|j: int| 0 <= j < i ==> #[trigger] opt_strs(keys@)[j] == ns_keys(m, ids@)[j],
            any_marker == exists|j: int| 0 <= j < i && #[trigger] ids@[j].0 >= crate::ids::ROS_ID_MARKER_BASE,
            all_empty == forall|j: int| 0 <= j < i ==> #[trigger] ns_keys(m, ids@)[j] == Some(Seq::<char>::empty()),
        decreases ids@.len() - i,
    {
        let id = ids[i];
        if crate::panel::is_marker_entity(id) {
            any_marker = true;
        }
        let ns: String = match label_of(scene, id) {
            Some(l) => match parse_marker_label(l) {
                Some((_, Some(n), _)) => n,
                _ => String::new(),
            },
            None => String::new(),
        };
        if !ns.as_str().is_empty() {
            all_empty = false;
        }
        let ghost k0 = keys@;
        keys.push(Some(ns));
        proof {
            assert forall|j: int| 0 <= j < i implies #[trigger] opt_strs(keys@)[j] == ns_keys(m, ids@)[j] by {
                assert(keys@[j] == k0[j]);
                assert(opt_strs(k0)[j] == ns_keys(m, ids@)[j]);
            }
            assert(opt_strs(keys@)[i as int] == ns_keys(m, ids@)[i as int]);
            if ns@.len() != 0 {
                assert(ns_keys(m, ids@)[i as int] != Some(Seq::<char>::empty()));
            } else {
                assert(ns@ =~= Seq::<char>::empty());
            }
        }
        i = i + 1;
    }
    if !any_marker || all_empty {
        return None;
    }
    proof {
        assert(opt_strs(keys@) =~= ns_keys(m, ids@));
    }
    let (b, _) = group_by_key(ids, &keys);
    Some(b)
}

} // verus!
