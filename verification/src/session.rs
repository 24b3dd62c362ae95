//! The topics of the running session, as the save dialog offers them, and
//! the command-line overrides of the configured reference frame and URDF
//! file.

use vstd::prelude::*;

use crate::config::{strs, RosConfig};
use crate::discovery::{concrete, WILDCARD};
use crate::text::str_eq;

verus! {

/// The topics subscribed at startup, wildcards left out: the map topic,
/// then the pose, pose-array, path, scan, point-cloud, marker and
/// marker-array topics in configuration order.
pub open spec fn startup_topics(cfg: RosConfig) -> Seq<Seq<char>> {
    let map = if cfg.map_topic@ == WILDCARD@ {
        Seq::<Seq<char>>::empty()
    } else {
        seq![cfg.map_topic@]
    };
    map + concrete(strs(cfg.pose_topics@)) + concrete(strs(cfg.pose_array_topics@)) + concrete(
        strs(cfg.path_topics@),
    ) + concrete(strs(cfg.scan_topics@)) + concrete(strs(cfg.point_topics@)) + concrete(
        strs(cfg.marker_topics@),
    ) + concrete(strs(cfg.marker_array_topics@))
}

fn append_concrete(out: &mut Vec<String>, v: &Vec<String>)
    ensures
        strs(final(out)@) == strs(old(out)@) + concrete(strs(v@)),
{
    let ghost start = strs(out@);
    let mut i: usize = 0;
    while i < v.len()
        invariant
            i <= v@.len(),
            strs(out@) == start + concrete(strs(v@).take(i as int)),
        decreases v@.len() - i,
    {
        proof {
            let sv = strs(v@);
            assert(sv.take(i + 1).drop_last() =~= sv.take(i as int));
            assert(sv.take(i + 1).last() == v@[i as int]@);
        }
        if !str_eq(v[i].as_str(), WILDCARD) {
            let ghost before = strs(out@);
            out.push(v[i].clone());
            proof {
                assert(strs(out@) =~= before.push(v@[i as int]@));
            }
        }
        i = i + 1;
    }
    proof {
        assert(strs(v@).take(v@.len() as int) =~= strs(v@));
    }
}

/// The concrete topics the session starts with (see `startup_topics`).
pub fn initial_active_topics(cfg: &RosConfig) -> (r: Vec<String>)
    ensures
        strs(r@) == startup_topics(*cfg),
{
    let mut out: Vec<String> = Vec::new();
    if !str_eq(cfg.map_topic.as_str(), WILDCARD) {
        out.push(cfg.map_topic.clone());
    }
    proof {
        if cfg.map_topic@ == WILDCARD@ {
            assert(strs(out@) =~= Seq::<Seq<char>>::empty());
        } else {
            assert(strs(out@) =~= seq![cfg.map_topic@]);
        }
    }
    append_concrete(&mut out, &cfg.pose_topics);
    append_concrete(&mut out, &cfg.pose_array_topics);
    append_concrete(&mut out, &cfg.path_topics);
    append_concrete(&mut out, &cfg.scan_topics);
    append_concrete(&mut out, &cfg.point_topics);
    append_concrete(&mut out, &cfg.marker_topics);
    append_concrete(&mut out, &cfg.marker_array_topics);
    out
}

/// A topic added from the Add window joins the session's list unless it is
/// already there.
pub fn note_added_topic(active: &mut Vec<String>, topic: &str)
    ensures
        strs(final(active)@) == if strs(old(active)@).contains(topic@) {
            strs(old(active)@)
        } else {
            strs(old(active)@).push(topic@)
        },
{
    let mut i: usize = 0;
    while i < active.len()
        invariant
            i <= active@.len(),
            forall|j: int| 0 <= j < i ==> active@[j]@ != topic@,
        decreases active@.len() - i,
    {
        if str_eq(active[i].as_str(), topic) {
            proof {
                assert(strs(active@)[i as int] == topic@);
            }
            return;
        }
        i = i + 1;
    }
    let ghost before = strs(active@);
    proof {
        if before.contains(topic@) {
            let k = before.index_of(topic@);
            assert(active@[k]@ == topic@);
        }
    }
    active.push(topic.to_owned());
    proof {
        assert(strs(active@) =~= before.push(topic@));
    }
}

/// `v` without the topics listed in `removed`, in order.
pub open spec fn without(v: Seq<Seq<char>>, removed: Seq<Seq<char>>) -> Seq<Seq<char>>
    decreases v.len(),
{
    if v.len() == 0 {
        Seq::empty()
    } else if removed.contains(v.last()) {
        without(v.drop_last(), removed)
    } else {
        without(v.drop_last(), removed).push(v.last())
    }
}

fn listed(v: &Vec<String>, t: &str) -> (r: bool)
    ensures
        r == strs(v@).contains(t@),
{
    let mut i: usize = 0;
    while i < v.len()
        invariant
            i <= v@.len(),
            forall|j: int| 0 <= j < i ==> v@[j]@ != t@,
        decreases v@.len() - i,
    {
        if str_eq(v[i].as_str(), t) {
            proof {
                assert(strs(v@)[i as int] == t@);
            }
            return true;
        }
        i = i + 1;
    }
    proof {
        if strs(v@).contains(t@) {
            let k = strs(v@).index_of(t@);
            assert(v@[k]@ == t@);
        }
    }
    false
}

/// Topics the user removed leave the session's list; the rest keep their
/// order.
pub fn drop_removed_topics(active: &mut Vec<String>, removed: &Vec<String>)
    ensures
        strs(final(active)@) == without(strs(old(active)@), strs(removed@)),
{
    let ghost a0 = strs(active@);
    let ghost rm = strs(removed@);
    let mut kept: Vec<String> = Vec::new();
    let mut i: usize = 0;
    while i < active.len()
        invariant
            i <= active@.len(),
            a0 == strs(active@),
            rm == strs(removed@),
            strs(kept@) == without(a0.take(i as int), rm),
        decreases active@.len() - i,
    {
        proof {
            assert(a0.take(i + 1).drop_last() =~= a0.take(i as int));
            assert(a0.take(i + 1).last() == active@[i as int]@);
        }
        if !listed(removed, active[i].as_str()) {
            let ghost before = strs(kept@);
            kept.push(active[i].clone());
            proof {
                assert(strs(kept@) =~= before.push(active@[i as int]@));
            }
        }
        i = i + 1;
    }
    proof {
        assert(a0.take(a0.len() as int) =~= a0);
    }
    *active = kept;
}

/// After a removal, none of the removed topics is listed, and every other
/// topic listed before still is.
pub proof fn lemma_removed_topics_gone(v: Seq<Seq<char>>, removed: Seq<Seq<char>>, t: Seq<char>)
    ensures
        without(v, removed).contains(t) <==> (v.contains(t) && !removed.contains(t)),
    decreases v.len(),
{
    if v.len() > 0 {
        lemma_removed_topics_gone(v.drop_last(), removed, t);
        let w = without(v.drop_last(), removed);
        if v.contains(t) && !v.drop_last().contains(t) {
            let k = v.index_of(t);
            if k < v.len() - 1 {
                assert(v.drop_last()[k] == t);
            }
        }
        if v.drop_last().contains(t) {
            let k = v.drop_last().index_of(t);
            assert(v[k] == t);
        }
        if !removed.contains(v.last()) {
            assert(w.push(v.last()).last() == v.last());
            if w.push(v.last()).contains(t) && !w.contains(t) {
                let k = w.push(v.last()).index_of(t);
                if k < w.len() {
                    assert(w[k] == t);
                }
            }
            if w.contains(t) {
                let k = w.index_of(t);
                assert(w.push(v.last())[k] == t);
            }
        }
    }
}

/// The reference frame the session runs in: the `--ref-frame` argument
/// when it differs from the default `map`, else the configured one.
pub fn apply_cli_reference_frame(cfg: &mut RosConfig, ref_frame: &str)
    ensures
        final(cfg).reference_frame@ == if ref_frame@ != "map"@ {
            ref_frame@
        } else {
            old(cfg).reference_frame@
        },
        *final(cfg) == (RosConfig { reference_frame: final(cfg).reference_frame, ..*old(cfg) }),
{
    if !str_eq(ref_frame, "map") {
        cfg.reference_frame = ref_frame.to_owned();
    }
}

/// The URDF file the session loads: the `--urdf` argument when one was
/// given, else the configured path.
pub fn apply_cli_urdf(cfg: &mut RosConfig, urdf: &Option<String>)
    ensures
        match *urdf {
            Some(p) => final(cfg).urdf_path is Some && final(cfg).urdf_path->Some_0@ == p@,
            None => final(cfg).urdf_path == old(cfg).urdf_path,
        },
        *final(cfg) == (RosConfig { urdf_path: final(cfg).urdf_path, ..*old(cfg) }),
{
    match urdf {
        Some(p) => {
            cfg.urdf_path = Some(p.clone());
        },
        None => {},
    }
}

} // verus!
