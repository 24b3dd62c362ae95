//! Side-panel logic: which topic an entity belongs to, how entities are
//! sorted into the configured groups, the visibility state of a bucket of
//! entities, and the namespace tree of the "Add topics" window.

use vstd::prelude::*;

use crate::config::{strs, UiGroup, UiGroupSave};
use crate::graph::{SceneEntity, SceneGraph};
use crate::ids::{EntityId, ROS_ID_MARKER_BASE, TF_FRAME_BASE, TF_FRAME_CAPACITY, URDF_LINK_BASE};
use crate::nstree::{chars_lt, lemma_name_lt_total, lemma_name_lt_transitive, name_lt};
use crate::text::{chars_of, is_whitespace, is_ws, str_eq, string_of};

verus! {

/// `s` without its leading white space.
pub open spec fn skip_ws(s: Seq<char>) -> Seq<char>
    decreases s.len(),
{
    if s.len() > 0 && is_ws(s[0]) {
        skip_ws(s.drop_first())
    } else {
        s
    }
}

/// The leading run of non-white-space characters of `s`.
pub open spec fn word(s: Seq<char>) -> Seq<char>
    decreases s.len(),
{
    if s.len() > 0 && !is_ws(s[0]) {
        seq![s[0]] + word(s.drop_first())
    } else {
        Seq::empty()
    }
}

/// The first white-space separated token of `s`, if any.
pub open spec fn first_token(s: Seq<char>) -> Option<Seq<char>> {
    let t = skip_ws(s);
    if t.len() == 0 {
        None
    } else {
        Some(word(t))
    }
}

/// The first white-space separated token of `s`.
pub fn first_token_of(s: &str) -> (r: Option<String>)
    ensures
        match r {
            Some(t) => first_token(s@) == Some(t@),
            None => first_token(s@) is None,
        },
{
    let cs = chars_of(s);
    let n = cs.len();
    let mut i: usize = 0;
    proof {
        assert(cs@.subrange(0, n as int) =~= cs@);
    }
    while i < n && is_whitespace(cs[i])
        invariant
            cs@ == s@,
            n == cs@.len(),
            i <= n,
            skip_ws(s@) == skip_ws(cs@.subrange(i as int, n as int)),
        decreases n - i,
    {
        proof {
            let t = cs@.subrange(i as int, n as int);
            assert(t.drop_first() =~= cs@.subrange(i + 1, n as int));
        }
        i = i + 1;
    }
    if i == n {
        proof {
            assert(cs@.subrange(i as int, n as int).len() == 0);
        }
        return None;
    }
    let mut j: usize = i;
    proof {
        let t = cs@.subrange(i as int, n as int);
        assert(skip_ws(t) == t);
        assert(cs@.subrange(i as int, i as int) =~= Seq::<char>::empty());
        assert(word(t) =~= cs@.subrange(i as int, i as int) + word(cs@.subrange(i as int, n as int)));
    }
    while j < n && !is_whitespace(cs[j])
        invariant
            cs@ == s@,
            n == cs@.len(),
            i <= j <= n,
            word(cs@.subrange(i as int, n as int)) == cs@.subrange(i as int, j as int) + word(
                cs@.subrange(j as int, n as int),
            ),
        decreases n - j,
    {
        proof {
            let t = cs@.subrange(j as int, n as int);
            assert(t.drop_first() =~= cs@.subrange(j + 1, n as int));
            assert(cs@.subrange(i as int, j + 1) =~= cs@.subrange(i as int, j as int) + seq![cs@[j as int]]);
            assert(word(t) == seq![t[0]] + word(t.drop_first()));
            assert(cs@.subrange(i as int, j as int) + word(t) =~= cs@.subrange(i as int, j + 1) + word(
                t.drop_first(),
            ));
        }
        j = j + 1;
    }
    proof {
        let t = cs@.subrange(j as int, n as int);
        assert(word(t) =~= Seq::<char>::empty());
        assert(cs@.subrange(i as int, j as int) + word(t) =~= cs@.subrange(i as int, j as int));
    }
    Some(string_of(&cs, i, j))
}

/// Entities allocated from the marker range.
pub fn is_marker_entity(id: EntityId) -> (r: bool)
    ensures
        r == (id.0 >= ROS_ID_MARKER_BASE),
{
    id.0 >= ROS_ID_MARKER_BASE
}

/// The id range of TF-frame axis entities.
pub open spec fn in_tf_range(id: EntityId) -> bool {
    TF_FRAME_BASE <= id.0 < TF_FRAME_BASE + TF_FRAME_CAPACITY
}

/// The id range of URDF link entities.
pub open spec fn in_urdf_range(id: EntityId) -> bool {
    URDF_LINK_BASE <= id.0 < URDF_LINK_BASE + 1_000_000
}

/// The topic an entity's label names: its first whitespace-separated
/// token, or `None` for TF axes, URDF links, unlabelled entities and labels
/// that hold no token.
pub open spec fn topic_of(id: EntityId, label: Option<Seq<char>>) -> Option<Seq<char>> {
    match label {
        None => None,
        Some(l) => if in_tf_range(id) || in_urdf_range(id) {
            None
        } else {
            match first_token(l) {
                Some(t) => if t.len() == 0 {
                    None
                } else {
                    Some(t)
                },
                None => None,
            }
        },
    }
}

/// Best-effort topic name for an entity, from its label. Marker labels
/// look like `"topic [id]"` or `"topic [ns/id]"`; other subscribers label
/// entities with the topic itself.
pub fn topic_for_entity(id: EntityId, label: Option<&str>) -> (r: Option<String>)
    ensures
        match r {
            Some(t) => topic_of(id, opt_view(label)) == Some(t@),
            None => topic_of(id, opt_view(label)) is None,
        },
{
    let label = match label {
        Some(l) => l,
        None => return None,
    };
    let in_tf = id.0 >= TF_FRAME_BASE && id.0 < TF_FRAME_BASE + TF_FRAME_CAPACITY;
    let in_urdf = id.0 >= URDF_LINK_BASE && id.0 < URDF_LINK_BASE + 1_000_000;
    if in_tf || in_urdf {
        return None;
    }
    let head = match first_token_of(label) {
        Some(t) => t,
        None => return None,
    };
    if head.as_str().is_empty() {
        None
    } else {
        Some(head)
    }
}

/// The view of an optional string slice.
pub open spec fn opt_view(o: Option<&str>) -> Option<Seq<char>> {
    match o {
        Some(s) => Some(s@),
        None => None,
    }
}

/// The first `i >= from` with `s[i] == ' '` and `s[i + 1] == '['`, or `-1`.
pub open spec fn find_open_from(s: Seq<char>, from: int) -> int
    decreases s.len() - from,
{
    if from < 0 || from + 1 >= s.len() {
        -1
    } else if s[from] == ' ' && s[from + 1] == '[' {
        from
    } else {
        find_open_from(s, from + 1)
    }
}

/// The first `i >= from` with `s[i] == c`, or `-1`.
pub open spec fn find_char_from(s: Seq<char>, c: char, from: int) -> int
    decreases s.len() - from,
{
    if from < 0 || from >= s.len() {
        -1
    } else if s[from] == c {
        from
    } else {
        find_char_from(s, c, from + 1)
    }
}

/// The last `i` with `s[i] == c`, or `-1`.
pub open spec fn rfind_char(s: Seq<char>, c: char) -> int
    decreases s.len(),
{
    if s.len() == 0 {
        -1
    } else if s.last() == c {
        s.len() - 1
    } else {
        rfind_char(s.drop_last(), c)
    }
}

/// A marker label `"<topic> [<ns>/<id>]"` or `"<topic> [<id>]"` split into
/// topic, namespace (when there is a `/`) and id text: the topic ends at
/// the first `" ["`, the bracket closes at the last `]`, and the namespace
/// ends at the first `/` inside.
pub open spec fn parse_label(s: Seq<char>) -> Option<(Seq<char>, Option<Seq<char>>, Seq<char>)> {
    let b = find_open_from(s, 0);
    if b < 0 {
        None
    } else {
        let rest = s.subrange(b + 2, s.len() as int);
        let c = rfind_char(rest, ']');
        if c < 0 {
            None
        } else {
            let inside = rest.subrange(0, c);
            let sl = find_char_from(inside, '/', 0);
            if sl >= 0 {
                Some(
                    (
                        s.subrange(0, b),
                        Some(inside.subrange(0, sl)),
                        inside.subrange(sl + 1, inside.len() as int),
                    ),
                )
            } else {
                Some((s.subrange(0, b), None, inside))
            }
        }
    }
}

proof fn lemma_find_char_from_range(s: Seq<char>, c: char, from: int)
    requires
        0 <= from,
    ensures
        find_char_from(s, c, from) == -1 || (from <= find_char_from(s, c, from) < s.len()
            && s[find_char_from(s, c, from)] == c),
    decreases s.len() - from,
{
    if from < s.len() && s[from] != c {
        lemma_find_char_from_range(s, c, from + 1);
    }
}

proof fn lemma_rfind_range(s: Seq<char>, c: char)
    ensures
        -1 <= rfind_char(s, c) < s.len(),
    decreases s.len(),
{
    if s.len() > 0 && s.last() != c {
        lemma_rfind_range(s.drop_last(), c);
    }
}

proof fn lemma_find_open_range(s: Seq<char>, from: int)
    requires
        0 <= from,
    ensures
        find_open_from(s, from) == -1 || from <= find_open_from(s, from) < s.len() - 1,
    decreases s.len() - from,
{
    if from + 1 < s.len() && !(s[from] == ' ' && s[from + 1] == '[') {
        lemma_find_open_range(s, from + 1);
    }
}

/// Split a marker label into `(topic, ns, id)` (see `parse_label`).
pub fn parse_marker_label(label: &str) -> (r: Option<(String, Option<String>, String)>)
    ensures
        match r {
            Some((t, ns, id)) => parse_label(label@) == Some(
                (
                    t@,
                    match ns {
                        Some(n) => Some(n@),
                        None => None,
                    },
                    id@,
                ),
            ),
            None => parse_label(label@) is None,
        },
{
    let cs = chars_of(label);
    let n = cs.len();
    let ghost s = cs@;
    // The first " [".
    if n < 2 {
        return None;
    }
    let mut b: usize = 0;
    while b + 1 < n && !(cs[b] == ' ' && cs[b + 1] == '[')
        invariant
            cs@ == s,
            n == s.len(),
            n >= 2,
            b + 1 <= n,
            find_open_from(s, 0) == find_open_from(s, b as int),
        decreases n - b,
    {
        b = b + 1;
    }
    if b + 1 >= n {
        return None;
    }
    proof {
        assert(find_open_from(s, 0) == b);
    }
    let start = b + 2;
    // The last ']' after it.
    let ghost rest = s.subrange(start as int, n as int);
    let mut k: usize = n;
    proof {
        assert(rest.subrange(0, rest.len() as int) =~= rest);
    }
    while k > start && cs[k - 1] != ']'
        invariant
            cs@ == s,
            n == s.len(),
            start <= k <= n,
            rest == s.subrange(start as int, n as int),
            rfind_char(rest, ']') == rfind_char(s.subrange(start as int, k as int), ']'),
        decreases k,
    {
        proof {
            let t = s.subrange(start as int, k as int);
            assert(t.drop_last() =~= s.subrange(start as int, k - 1));
        }
        k = k - 1;
    }
    if k == start {
        proof {
            assert(s.subrange(start as int, k as int).len() == 0);
        }
        return None;
    }
    let close = k - 1;
    proof {
        let t = s.subrange(start as int, k as int);
        assert(t.last() == s[close as int]);
        assert(rfind_char(rest, ']') == close - start);
    }
    let ghost inside = rest.subrange(0, close - start);
    proof {
        assert(inside =~= s.subrange(start as int, close as int));
    }
    // The first '/' inside.
    let mut sl: usize = start;
    while sl < close && cs[sl] != '/'
        invariant
            cs@ == s,
            n == s.len(),
            start <= sl <= close < n,
            inside == s.subrange(start as int, close as int),
            find_char_from(inside, '/', 0) == find_char_from(inside, '/', sl - start),
        decreases close - sl,
    {
        sl = sl + 1;
    }
    let slash = sl < close;
    let topic = string_of(&cs, 0, b);
    if slash {
        proof {
            assert(inside[sl - start] == '/');
            assert(find_char_from(inside, '/', 0) == sl - start);
            assert(inside.subrange(0, sl - start) =~= s.subrange(start as int, sl as int));
            assert(inside.subrange(sl - start + 1, inside.len() as int) =~= s.subrange(
                sl + 1,
                close as int,
            ));
        }
        let ns = string_of(&cs, start, sl);
        let id = string_of(&cs, sl + 1, close);
        Some((topic, Some(ns), id))
    } else {
        proof {
            assert(find_char_from(inside, '/', 0) == -1);
        }
        let id = string_of(&cs, start, close);
        Some((topic, None, id))
    }
}

/// One side-panel group with its live fold state.
pub struct UiGroupView {
    pub name: String,
    pub topics: Vec<String>,
    pub urdf: bool,
    pub tf: bool,
    /// Current fold state: starts as the opposite of `collapsed` from the
    /// configuration, then follows the user.
    pub open: bool,
}

fn clone_strings(v: &Vec<String>) -> (r: Vec<String>)
    ensures
        strs(r@) == strs(v@),
{
    let r = v.clone();
    proof {
        assert forall|k: int| 0 <= k < r@.len() implies r@[k] == v@[k] by {
            assert(cloned::<String>(v@[k], r@[k]));
        }
        assert(strs(r@) =~= strs(v@));
    }
    r
}

/// The view a configured group opens as.
pub open spec fn view_of(v: UiGroupView, g: UiGroup) -> bool {
    &&& v.name@ == g.name@
    &&& strs(v.topics@) == strs(g.topics@)
    &&& v.urdf == g.urdf
    &&& v.tf == g.tf
    &&& v.open == !g.collapsed
}

/// The group appended when no configured group collects TF frames.
pub open spec fn is_default_tf_group(v: UiGroupView) -> bool {
    &&& v.name@ == "TF Frames"@
    &&& v.topics@.len() == 0
    &&& !v.urdf
    &&& v.tf
    &&& !v.open
}

impl UiGroupView {
    /// The views of the configured groups, in order; when none of them
    /// collects TF frames, a collapsed "TF Frames" group is appended so that
    /// every frame entity has a home.
    pub fn from_config(groups: &Vec<UiGroup>) -> (r: Vec<UiGroupView>)
        ensures
            forall|i: int| 0 <= i < groups@.len() ==> view_of(#[trigger] r@[i], groups@[i]),
            (exists|i: int| 0 <= i < groups@.len() && #[trigger] groups@[i].tf) ==> r@.len()
                == groups@.len(),
            !(exists|i: int| 0 <= i < groups@.len() && #[trigger] groups@[i].tf) ==> r@.len()
                == groups@.len() + 1 && is_default_tf_group(r@.last()),
    {
        let mut out: Vec<UiGroupView> = Vec::new();
        let mut any_tf = false;
        let mut i: usize = 0;
        while i < groups.len()
            invariant
                i <= groups@.len(),
                out@.len() == i,
                forall|j: int| 0 <= j < i ==> view_of(#[trigger] out@[j], groups@[j]),
                any_tf == exists|j: int| 0 <= j < i && #[trigger] groups@[j].tf,
            decreases groups@.len() - i,
        {
            let g = &groups[i];
            out.push(
                UiGroupView {
                    name: g.name.clone(),
                    topics: clone_strings(&g.topics),
                    urdf: g.urdf,
                    tf: g.tf,
                    open: !g.collapsed,
                },
            );
            if g.tf {
                any_tf = true;
            }
            i = i + 1;
        }
        if !any_tf {
            let mut name = String::new();
            crate::text::push_str(&mut name, "TF Frames");
            out.push(UiGroupView { name, topics: Vec::new(), urdf: false, tf: true, open: false });
        }
        out
    }
}

/// The groups as the configuration writer stores them: the fold state
/// becomes `collapsed = !open`.
pub fn groups_for_save(groups: &Vec<UiGroupView>) -> (r: Vec<UiGroupSave>)
    ensures
        r@.len() == groups@.len(),
        forall|i: int|
            0 <= i < groups@.len() ==> {
                let s = #[trigger] r@[i];
                let g = groups@[i];
                &&& s.name@ == g.name@
                &&& strs(s.topics@) == strs(g.topics@)
                &&& s.urdf == g.urdf
                &&& s.tf == g.tf
                &&& s.collapsed == !g.open
            },
{
    let mut out: Vec<UiGroupSave> = Vec::new();
    let mut i: usize = 0;
    while i < groups.len()
        invariant
            i <= groups@.len(),
            out@.len() == i,
            forall|j: int|
                0 <= j < i ==> {
                    let s = #[trigger] out@[j];
                    let g = groups@[j];
                    &&& s.name@ == g.name@
                    &&& strs(s.topics@) == strs(g.topics@)
                    &&& s.urdf == g.urdf
                    &&& s.tf == g.tf
                    &&& s.collapsed == !g.open
                },
        decreases groups@.len() - i,
    {
        let g = &groups[i];
        out.push(
            UiGroupSave {
                name: g.name.clone(),
                topics: clone_strings(&g.topics),
                urdf: g.urdf,
                tf: g.tf,
                collapsed: !g.open,
            },
        );
        i = i + 1;
    }
    out
}

/// Group `g` claims entity `id` whose label starts with `token`.
pub open spec fn group_claims(g: UiGroupView, id: EntityId, token: Seq<char>) -> bool {
    ||| (g.urdf && in_urdf_range(id))
    ||| (g.tf && in_tf_range(id))
    ||| strs(g.topics@).contains(token)
}

/// The first group that claims the entity (first match wins).
pub open spec fn first_claim(groups: Seq<UiGroupView>, id: EntityId, token: Seq<char>) -> Option<
    int,
>
    decreases groups.len(),
{
    if groups.len() == 0 {
        None
    } else {
        match first_claim(groups.drop_last(), id, token) {
            Some(i) => Some(i),
            None => if group_claims(groups.last(), id, token) {
                Some(groups.len() - 1)
            } else {
                None
            },
        }
    }
}

/// The token a label is matched by: its first token, or the empty string.
pub open spec fn label_token(label: Option<Seq<char>>) -> Seq<char> {
    match label {
        Some(l) => match first_token(l) {
            Some(t) => t,
            None => Seq::empty(),
        },
        None => Seq::empty(),
    }
}

pub fn list_contains(v: &Vec<String>, t: &str) -> (r: bool)
    ensures
        r == strs(v@).contains(t@),
{
    let mut i: usize = 0;
    while i < v.len()
        invariant
            i <= v@.len(),
            forall|j: int| 0 <= j < i ==> v@[j]@ != t@,
        decreases v@.len() - i,
    {
        if str_eq(v[i].as_str(), t) {
            proof {
                assert(strs(v@)[i as int] == t@);
            }
            return true;
        }
        i = i + 1;
    }
    proof {
        if strs(v@).contains(t@) {
            let k = strs(v@).index_of(t@);
            assert(v@[k]@ == t@);
        }
    }
    false
}

/// The group an entity is listed under: the first one that collects URDF
/// links (for a link), TF frames (for a frame axis) or names the first
/// token of its label among its topics.
pub fn group_for(id: EntityId, label: Option<&str>, groups: &Vec<UiGroupView>) -> (r: Option<usize>)
    ensures
        match r {
            Some(i) => first_claim(groups@, id, label_token(opt_view(label))) == Some(i as int),
            None => first_claim(groups@, id, label_token(opt_view(label))) is None,
        },
{
    let token = match label {
        Some(l) => match first_token_of(l) {
            Some(t) => t,
            None => String::new(),
        },
        None => String::new(),
    };
    let is_urdf = id.0 >= URDF_LINK_BASE && id.0 < URDF_LINK_BASE + 1_000_000;
    let is_tf = id.0 >= TF_FRAME_BASE && id.0 < TF_FRAME_BASE + TF_FRAME_CAPACITY;
    let ghost tk = label_token(opt_view(label));
    let mut i: usize = 0;
    proof {
        assert(groups@.subrange(0, 0) =~= Seq::<UiGroupView>::empty());
    }
    while i < groups.len()
        invariant
            i <= groups@.len(),
            token@ == tk,
            tk == label_token(opt_view(label)),
            is_urdf == in_urdf_range(id),
            is_tf == in_tf_range(id),
            first_claim(groups@.subrange(0, i as int), id, tk) is None,
        decreases groups@.len() - i,
    {
        let g = &groups[i];
        let claims = (g.urdf && is_urdf) || (g.tf && is_tf) || list_contains(&g.topics, token.as_str());
        proof {
            assert(groups@.subrange(0, i + 1).drop_last() =~= groups@.subrange(0, i as int));
            assert(groups@.subrange(0, i + 1).last() == groups@[i as int]);
        }
        if claims {
            proof {
                assert(group_claims(groups@[i as int], id, tk));
                assert(first_claim(groups@.subrange(0, i + 1), id, tk) == Some(i as int));
                lemma_first_claim_prefix(groups@, id, tk, i as int + 1);
            }
            return Some(i);
        }
        i = i + 1;
    }
    proof {
        assert(groups@.subrange(0, groups@.len() as int) =~= groups@);
    }
    None
}

/// A claim found in a prefix is the claim of the whole list.
proof fn lemma_first_claim_prefix(groups: Seq<UiGroupView>, id: EntityId, tk: Seq<char>, k: int)
    requires
        0 <= k <= groups.len(),
        first_claim(groups.subrange(0, k), id, tk) is Some,
    ensures
        first_claim(groups, id, tk) == first_claim(groups.subrange(0, k), id, tk),
    decreases groups.len() - k,
{
    if k < groups.len() {
        assert(groups.subrange(0, k + 1).drop_last() =~= groups.subrange(0, k));
        lemma_first_claim_prefix(groups, id, tk, k + 1);
    } else {
        assert(groups.subrange(0, k) =~= groups);
    }
}

/// Visibility of a bucket of entities: all visible, none visible (or none
/// present), or mixed.
#[derive(Clone, Copy, Debug, PartialEq, Eq, Structural)]
pub enum BulkVis {
    All,
    NoneVisible,
    Mixed,
}

/// The bulk state of `ids` in the entity map `m`; ids absent from the map
/// are ignored.
pub open spec fn bulk_of<P, T>(m: Map<u64, SceneEntity<P, T>>, ids: Seq<EntityId>) -> BulkVis {
    let present = exists|i: int| 0 <= i < ids.len() && m.contains_key(#[trigger] ids[i].0);
    let all_on = forall|i: int|
        0 <= i < ids.len() && m.contains_key(#[trigger] ids[i].0) ==> m[ids[i].0].visible;
    let all_off = forall|i: int|
        0 <= i < ids.len() && m.contains_key(#[trigger] ids[i].0) ==> !m[ids[i].0].visible;
    if !present {
        BulkVis::NoneVisible
    } else if all_on {
        BulkVis::All
    } else if all_off {
        BulkVis::NoneVisible
    } else {
        BulkVis::Mixed
    }
}

/// The bulk visibility state of a bucket of entities.
pub fn bulk_state<P, T, C: Copy, S: Copy>(scene: &SceneGraph<P, T, C, S>, ids: &Vec<EntityId>) -> (r: BulkVis)
    ensures
        r == bulk_of(scene.entity_map(), ids@),
{
    let ghost m = scene.entity_map();
    let mut all_on = true;
    let mut all_off = true;
    let mut empty = true;
    let mut i: usize = 0;
    while i < ids.len()
        invariant
            i <= ids@.len(),
            m == scene.entity_map(),
            empty == !exists|j: int| 0 <= j < i && m.contains_key(#[trigger] ids@[j].0),
            all_on == forall|j: int|
                0 <= j < i && m.contains_key(#[trigger] ids@[j].0) ==> m[ids@[j].0].visible,
            all_off == forall|j: int|
                0 <= j < i && m.contains_key(#[trigger] ids@[j].0) ==> !m[ids@[j].0].visible,
        decreases ids@.len() - i,
    {
        match scene.get(ids[i]) {
            Some(e) => {
                empty = false;
                if e.visible {
                    all_off = false;
                } else {
                    all_on = false;
                }
            },
            None => {},
        }
        i = i + 1;
    }
    if empty {
        BulkVis::NoneVisible
    } else if all_on {
        BulkVis::All
    } else if all_off {
        BulkVis::NoneVisible
    } else {
        BulkVis::Mixed
    }
}

/// The numbers of a list of ids.
pub open spec fn id_nums(v: Seq<EntityId>) -> Seq<u64> {
    v.map_values(|e: EntityId| e.0)
}

/// Strictly increasing by number.
pub open spec fn strictly_sorted(v: Seq<EntityId>) -> bool {
    forall|i: int, j: int| 0 <= i < j < v.len() ==> (#[trigger] v[i]).0 < (#[trigger] v[j]).0
}

/// The ids of every entity, in increasing order.
pub fn sorted_entity_ids<P, T, C: Copy, S: Copy>(scene: &SceneGraph<P, T, C, S>) -> (r: Vec<EntityId>)
    ensures
        strictly_sorted(r@),
        id_nums(r@).to_set() == scene.entity_map().dom(),
{
    let keys = scene.ids();
    let mut out: Vec<EntityId> = Vec::new();
    let mut i: usize = 0;
    while i < keys.len()
        invariant
            i <= keys@.len(),
            keys@.no_duplicates(),
            strictly_sorted(out@),
            forall|y: u64| id_nums(out@).contains(y) <==> keys@.take(i as int).contains(y),
        decreases keys@.len() - i,
    {
        let x = keys[i];
        assert(!id_nums(out@).contains(x)) by {
            if keys@.take(i as int).contains(x) {
                let j = choose|j: int| 0 <= j < i && keys@.take(i as int)[j] == x;
                assert(keys@[j] == keys@[i as int]);
            }
        }
        let mut p: usize = 0;
        while p < out.len() && out[p].0 < x
            invariant
                p <= out@.len(),
                strictly_sorted(out@),
                forall|k: int| 0 <= k < p ==> (#[trigger] out@[k]).0 < x,
            decreases out@.len() - p,
        {
            p = p + 1;
        }
        let ghost before = out@;
        proof {
            assert forall|k: int| p <= k < before.len() implies (#[trigger] before[k]).0 > x by {
                assert(before[p as int].0 >= x);
                assert(id_nums(before)[p as int] == before[p as int].0);
                assert(before[p as int].0 != x);
                if k > p {
                    assert(before[p as int].0 < before[k].0);
                }
            }
        }
        out.insert(p, EntityId(x));
        proof {
            let a = out@;
            assert(a =~= before.insert(p as int, EntityId(x)));
            assert forall|u: int, v: int| 0 <= u < v < a.len() implies (#[trigger] a[u]).0 < (
            #[trigger] a[v]).0 by {
                if u < p && v < p {
                } else if u < p && v == p {
                } else if u < p {
                    assert(a[v] == before[v - 1]);
                } else if u == p {
                    assert(a[v] == before[v - 1]);
                } else {
                    assert(a[u] == before[u - 1]);
                    assert(a[v] == before[v - 1]);
                }
            }
            let na = id_nums(a);
            let nb = id_nums(before);
            let t0 = keys@.take(i as int);
            let t1 = keys@.take(i + 1);
            assert(na =~= nb.insert(p as int, x));
            assert(t1 =~= t0.push(x));
            assert forall|y: u64| na.contains(y) <==> t1.contains(y) by {
                if na.contains(y) {
                    let k = choose|k: int| 0 <= k < na.len() && na[k] == y;
                    if k == p {
                        assert(t1[i as int] == y);
                    } else {
                        let kb = if k < p {
                            k
                        } else {
                            k - 1
                        };
                        assert(nb[kb] == y);
                        assert(nb.contains(y));
                        assert(t0.contains(y));
                        let j = choose|j: int| 0 <= j < t0.len() && t0[j] == y;
                        assert(t1[j] == y);
                    }
                }
                if t1.contains(y) {
                    let j = choose|j: int| 0 <= j < t1.len() && t1[j] == y;
                    if j == i {
                        assert(na[p as int] == y);
                    } else {
                        assert(t0[j] == y);
                        assert(nb.contains(y));
                        let k = choose|k: int| 0 <= k < nb.len() && nb[k] == y;
                        if k < p {
                            assert(na[k] == y);
                        } else {
                            assert(na[k + 1] == y);
                        }
                    }
                }
            }
        }
        i = i + 1;
    }
    proof {
        assert(keys@.take(keys@.len() as int) =~= keys@);
        assert(id_nums(out@).to_set() =~= keys@.to_set());
    }
    out
}

/// Whether `k` is the number of one of `ids`.
pub open spec fn names(ids: Seq<EntityId>, k: u64) -> bool {
    exists|i: int| 0 <= i < ids.len() && (#[trigger] ids[i]).0 == k
}

/// `m` with every entity named in `ids` set to `visible`.
pub open spec fn with_visibility<P, T>(
    m: Map<u64, SceneEntity<P, T>>,
    ids: Seq<EntityId>,
    visible: bool,
) -> Map<u64, SceneEntity<P, T>> {
    Map::new(
        |k: u64| m.contains_key(k),
        |k: u64|
            if names(ids, k) {
                SceneEntity { visible, ..m[k] }
            } else {
                m[k]
            },
    )
}

/// Show or hide every entity of a bucket.
pub fn set_bulk_visible<P, T, C: Copy, S: Copy>(
    scene: &mut SceneGraph<P, T, C, S>,
    ids: &Vec<EntityId>,
    visible: bool,
)
    requires
        old(scene).wf(),
        old(scene).spec_revision() + ids@.len() < u64::MAX,
    ensures
        final(scene).wf(),
        final(scene).frame() == old(scene).frame(),
        final(scene).override_map() == old(scene).override_map(),
        final(scene).spec_revision() <= old(scene).spec_revision() + ids@.len(),
        final(scene).entity_map() == with_visibility(old(scene).entity_map(), ids@, visible),
{
    let ghost m0 = scene.entity_map();
    let ghost r0 = scene.spec_revision();
    let mut i: usize = 0;
    proof {
        assert(scene.entity_map() =~= with_visibility(m0, ids@.take(0), visible));
    }
    while i < ids.len()
        invariant
            i <= ids@.len(),
            scene.wf(),
            scene.frame() == old(scene).frame(),
            scene.override_map() == old(scene).override_map(),
            m0 == old(scene).entity_map(),
            r0 == old(scene).spec_revision(),
            r0 + ids@.len() < u64::MAX,
            scene.spec_revision() <= r0 + i,
            scene.entity_map() == with_visibility(m0, ids@.take(i as int), visible),
        decreases ids@.len() - i,
    {
        let ghost before = scene.entity_map();
        scene.set_visible(ids[i], visible);
        proof {
            let after = scene.entity_map();
            let t1 = ids@.take(i + 1);
            assert(t1 =~= ids@.take(i as int).push(ids@[i as int]));
            assert forall|k: u64| #[trigger] names(t1, k) <==> (names(ids@.take(i as int), k) || k == ids@[i as int].0) by {
                if names(t1, k) {
                    let j = choose|j: int| 0 <= j < t1.len() && (#[trigger] t1[j]).0 == k;
                    if j < i {
                        assert(ids@.take(i as int)[j] == t1[j]);
                    }
                }
                if names(ids@.take(i as int), k) {
                    let j = choose|j: int| 0 <= j < ids@.take(i as int).len() && (#[trigger] ids@.take(i as int)[j]).0 == k;
                    assert(t1[j] == ids@.take(i as int)[j]);
                }
                if k == ids@[i as int].0 {
                    assert(t1[i as int] == ids@[i as int]);
                }
            }
            assert(after =~= with_visibility(m0, t1, visible));
        }
        i = i + 1;
    }
    proof {
        assert(ids@.take(ids@.len() as int) =~= ids@);
    }
}

/// The eye toggle of a bucket: everything visible becomes hidden, anything
/// else becomes visible. Returns the visibility it set.
pub fn toggle_bulk<P, T, C: Copy, S: Copy>(scene: &mut SceneGraph<P, T, C, S>, ids: &Vec<EntityId>) -> (r: bool)
    requires
        old(scene).wf(),
        old(scene).spec_revision() + ids@.len() < u64::MAX,
    ensures
        r == (bulk_of(old(scene).entity_map(), ids@) != BulkVis::All),
        final(scene).wf(),
        final(scene).frame() == old(scene).frame(),
        final(scene).override_map() == old(scene).override_map(),
        final(scene).entity_map() == with_visibility(old(scene).entity_map(), ids@, r),
{
    let state = bulk_state(scene, ids);
    let target = state != BulkVis::All;
    set_bulk_visible(scene, ids, target);
    target
}

/// A click on the eye of a bucket with at least one entity flips it: a
/// fully visible bucket becomes fully hidden, any other becomes fully
/// visible.
pub proof fn lemma_toggle_flips<P, T>(m: Map<u64, SceneEntity<P, T>>, ids: Seq<EntityId>)
    requires
        exists|i: int| 0 <= i < ids.len() && m.contains_key(#[trigger] ids[i].0),
    ensures
        bulk_of(with_visibility(m, ids, bulk_of(m, ids) != BulkVis::All), ids) == if bulk_of(m, ids)
            == BulkVis::All {
            BulkVis::NoneVisible
        } else {
            BulkVis::All
        },
{
    let target = bulk_of(m, ids) != BulkVis::All;
    let m2 = with_visibility(m, ids, target);
    assert forall|i: int| 0 <= i < ids.len() && m2.contains_key(#[trigger] ids[i].0) implies m2[ids[i].0].visible == target by {
        assert(names(ids, ids[i].0));
    }
    let i0 = choose|i: int| 0 <= i < ids.len() && m.contains_key(#[trigger] ids[i].0);
    assert(m2.contains_key(ids[i0].0));
}

/// The label of entity `k` in `m`, if it has one.
pub open spec fn entity_label<P, T>(m: Map<u64, SceneEntity<P, T>>, k: u64) -> Option<Seq<char>> {
    if m.contains_key(k) {
        match m[k].label {
            Some(l) => Some(l@),
            None => None,
        }
    } else {
        None
    }
}

/// For each of `ids`, the group it is listed under (first match wins).
pub fn assign_groups<P, T, C: Copy, S: Copy>(
    scene: &SceneGraph<P, T, C, S>,
    ids: &Vec<EntityId>,
    groups: &Vec<UiGroupView>,
) -> (r: Vec<Option<usize>>)
    ensures
        r@.len() == ids@.len(),
        forall|i: int|
            0 <= i < ids@.len() ==> #[trigger] r@[i] == match first_claim(
                groups@,
                ids@[i],
                label_token(entity_label(scene.entity_map(), ids@[i].0)),
            ) {
                Some(g) => Some(g as usize),
                None => None,
            },
{
    let mut out: Vec<Option<usize>> = Vec::new();
    let mut i: usize = 0;
    while i < ids.len()
        invariant
            i <= ids@.len(),
            out@.len() == i,
            forall|j: int|
                0 <= j < i ==> #[trigger] out@[j] == match first_claim(
                    groups@,
                    ids@[j],
                    label_token(entity_label(scene.entity_map(), ids@[j].0)),
                ) {
                    Some(g) => Some(g as usize),
                    None => None,
                },
        decreases ids@.len() - i,
    {
        let id = ids[i];
        let label: Option<&str> = match scene.get(id) {
            Some(e) => match &e.label {
                Some(l) => Some(l.as_str()),
                None => None,
            },
            None => None,
        };
        proof {
            assert(opt_view(label) == entity_label(scene.entity_map(), id.0));
        }
        let g = group_for(id, label, groups);
        out.push(g);
        i = i + 1;
    }
    out
}

/// The ids whose assignment is `target`, in order.
pub open spec fn members(ids: Seq<EntityId>, assigned: Seq<Option<usize>>, target: Option<usize>) -> Seq<
    EntityId,
>
    decreases ids.len(),
{
    if ids.len() == 0 || assigned.len() == 0 {
        Seq::empty()
    } else {
        let rest = members(ids.drop_last(), assigned.drop_last(), target);
        if ids.len() == assigned.len() && assigned.last() == target {
            rest.push(ids.last())
        } else if ids.len() == assigned.len() {
            rest
        } else {
            Seq::empty()
        }
    }
}

/// The entities listed under one group (`Some(g)`), or the ungrouped ones
/// (`None`), keeping the order of `ids`.
pub fn members_of(ids: &Vec<EntityId>, assigned: &Vec<Option<usize>>, target: Option<usize>) -> (r: Vec<EntityId>)
    requires
        ids@.len() == assigned@.len(),
    ensures
        r@ == members(ids@, assigned@, target),
{
    let mut out: Vec<EntityId> = Vec::new();
    let mut i: usize = 0;
    while i < ids.len()
        invariant
            ids@.len() == assigned@.len(),
            i <= ids@.len(),
            out@ == members(ids@.take(i as int), assigned@.take(i as int), target),
        decreases ids@.len() - i,
    {
        proof {
            assert(ids@.take(i + 1).drop_last() =~= ids@.take(i as int));
            assert(assigned@.take(i + 1).drop_last() =~= assigned@.take(i as int));
        }
        if assigned[i] == target {
            out.push(ids[i]);
        }
        i = i + 1;
    }
    proof {
        assert(ids@.take(ids@.len() as int) =~= ids@);
        assert(assigned@.take(assigned@.len() as int) =~= assigned@);
    }
    out
}

/// The frame a TF-axis label names: the text after `"tf: "`.
pub open spec fn frame_of_label(label: Option<Seq<char>>) -> Option<Seq<char>> {
    match label {
        Some(l) => if l.len() >= 4 && l.take(4) == "tf: "@ {
            Some(l.skip(4))
        } else {
            None
        },
        None => None,
    }
}

/// Strictly ascending in name order.
pub open spec fn ascending(v: Seq<Seq<char>>) -> bool {
    forall|i: int, j: int| 0 <= i < j < v.len() ==> name_lt(#[trigger] v[i], #[trigger] v[j])
}

fn frame_of(label: &str) -> (r: Option<String>)
    ensures
        match r {
            Some(f) => frame_of_label(Some(label@)) == Some(f@),
            None => frame_of_label(Some(label@)) is None,
        },
{
    let cs = chars_of(label);
    proof {
        reveal_strlit("tf: ");
    }
    if cs.len() >= 4 && cs[0] == 't' && cs[1] == 'f' && cs[2] == ':' && cs[3] == ' ' {
        proof {
            assert(label@.take(4) =~= "tf: "@);
        }
        Some(string_of(&cs, 4, cs.len()))
    } else {
        proof {
            if label@.len() >= 4 && label@.take(4) == "tf: "@ {
                assert(label@.take(4)[0] == 't');
                assert(label@.take(4)[1] == 'f');
                assert(label@.take(4)[2] == ':');
                assert(label@.take(4)[3] == ' ');
            }
        }
        None
    }
}

/// Add `x` to an ascending list unless it is already there.
fn insert_ascending(v: &mut Vec<String>, x: String)
    requires
        ascending(strs(old(v)@)),
    ensures
        ascending(strs(final(v)@)),
        forall|s: Seq<char>| #[trigger] strs(final(v)@).contains(s) <==> (strs(old(v)@).contains(s) || s == x@),
{
    let ghost v0 = strs(v@);
    let xc = chars_of(x.as_str());
    let mut p: usize = 0;
    while p < v.len() && chars_lt(&chars_of(v[p].as_str()), &xc)
        invariant
            p <= v@.len(),
            v0 == strs(v@),
            xc@ == x@,
            ascending(v0),
            forall|k: int| 0 <= k < p ==> name_lt(#[trigger] v0[k], x@),
        decreases v@.len() - p,
    {
        p = p + 1;
    }
    if p < v.len() && str_eq(v[p].as_str(), x.as_str()) {
        proof {
            assert(v0[p as int] == x@);
            assert forall|s: Seq<char>| #[trigger] v0.contains(s) <==> (v0.contains(s) || s == x@) by {
                if s == x@ {
                    assert(v0[p as int] == s);
                }
            }
        }
        return;
    }
    proof {
        assert forall|k: int| p <= k < v0.len() implies name_lt(x@, #[trigger] v0[k]) by {
            lemma_name_lt_total(v0[p as int], x@);
            if k > p {
                lemma_name_lt_transitive(x@, v0[p as int], v0[k]);
            }
        }
    }
    v.insert(p, x);
    proof {
        let a = strs(v@);
        let xs = a[p as int];
        assert(a =~= v0.insert(p as int, xs));
        assert forall|i: int, j: int| 0 <= i < j < a.len() implies name_lt(#[trigger] a[i], #[trigger] a[j]) by {
            if i < p && j == p {
            } else if i < p && j > p {
                assert(a[j] == v0[j - 1]);
                lemma_name_lt_transitive(a[i], xs, a[j]);
            } else if i == p {
                assert(a[j] == v0[j - 1]);
            } else if j < p {
            } else {
                assert(a[i] == v0[i - 1]);
                assert(a[j] == v0[j - 1]);
            }
        }
        assert forall|s: Seq<char>| #[trigger] a.contains(s) <==> (v0.contains(s) || s == xs) by {
            if a.contains(s) {
                let k = choose|k: int| 0 <= k < a.len() && a[k] == s;
                if k < p {
                    assert(v0[k] == s);
                } else if k > p {
                    assert(v0[k - 1] == s);
                }
            }
            if v0.contains(s) {
                let k = choose|k: int| 0 <= k < v0.len() && v0[k] == s;
                if k < p {
                    assert(a[k] == s);
                } else {
                    assert(a[k + 1] == s);
                }
            }
            if s == xs {
                assert(a[p as int] == s);
            }
        }
    }
}

/// Some entity of `m` is the axis of frame `f`.
pub open spec fn has_frame_entity<P, T>(m: Map<u64, SceneEntity<P, T>>, f: Seq<char>) -> bool {
    exists|k: u64| m.contains_key(k) && #[trigger] frame_of_label(entity_label(m, k)) == Some(f)
}

/// The frames the camera can follow: the frames named by TF-axis labels in
/// the scene, in name order, each once.
pub fn follow_frames<P, T, C: Copy, S: Copy>(scene: &SceneGraph<P, T, C, S>) -> (r: Vec<String>)
    ensures
        ascending(strs(r@)),
        forall|f: Seq<char>| #[trigger] strs(r@).contains(f) <==> has_frame_entity(scene.entity_map(), f),
{
    let keys = scene.ids();
    let ghost m = scene.entity_map();
    let mut out: Vec<String> = Vec::new();
    let mut i: usize = 0;
    proof {
        assert(strs(out@) =~= Seq::<Seq<char>>::empty());
    }
    while i < keys.len()
        invariant
            i <= keys@.len(),
            m == scene.entity_map(),
            keys@.to_set() == m.dom(),
            ascending(strs(out@)),
            forall|f: Seq<char>|
                #[trigger] strs(out@).contains(f) <==> exists|j: int|
                    0 <= j < i && #[trigger] frame_of_label(entity_label(m, keys@[j])) == Some(f),
        decreases keys@.len() - i,
    {
        let k = keys[i];
        let ghost before = strs(out@);
        let fr = match scene.get(EntityId(k)) {
            Some(e) => match &e.label {
                Some(l) => frame_of(l.as_str()),
                None => None,
            },
            None => None,
        };
        proof {
            assert(keys@.to_set().contains(k));
            assert(m.contains_key(k));
        }
        match fr {
            Some(f) => {
                let ghost fv = f@;
                insert_ascending(&mut out, f);
                proof {
                    assert forall|g: Seq<char>| #[trigger] strs(out@).contains(g) <==> exists|j: int|
                        0 <= j < i + 1 && #[trigger] frame_of_label(entity_label(m, keys@[j])) == Some(g) by {
                        if g == fv {
                            assert(frame_of_label(entity_label(m, keys@[i as int])) == Some(g));
                        }
                        if exists|j: int| 0 <= j < i + 1 && #[trigger] frame_of_label(entity_label(m, keys@[j])) == Some(g) {
                            let j = choose|j: int| 0 <= j < i + 1 && #[trigger] frame_of_label(entity_label(m, keys@[j])) == Some(g);
                            if j < i {
                                assert(before.contains(g));
                            }
                        }
                    }
                }
            },
            None => {
                proof {
                    assert forall|g: Seq<char>| #[trigger] strs(out@).contains(g) <==> exists|j: int|
                        0 <= j < i + 1 && #[trigger] frame_of_label(entity_label(m, keys@[j])) == Some(g) by {
                        if exists|j: int| 0 <= j < i + 1 && #[trigger] frame_of_label(entity_label(m, keys@[j])) == Some(g) {
                            let j = choose|j: int| 0 <= j < i + 1 && #[trigger] frame_of_label(entity_label(m, keys@[j])) == Some(g);
                            assert(j < i);
                        }
                    }
                }
            },
        }
        i = i + 1;
    }
    proof {
        assert forall|f: Seq<char>| #[trigger] strs(out@).contains(f) <==> has_frame_entity(m, f) by {
            if has_frame_entity(m, f) {
                let k = choose|k: u64| m.contains_key(k) && #[trigger] frame_of_label(entity_label(m, k)) == Some(f);
                assert(keys@.to_set().contains(k));
                let j = choose|j: int| 0 <= j < keys@.len() && keys@[j] == k;
                assert(frame_of_label(entity_label(m, keys@[j])) == Some(f));
            }
            if strs(out@).contains(f) {
                let j = choose|j: int| 0 <= j < keys@.len() && #[trigger] frame_of_label(entity_label(m, keys@[j])) == Some(f);
                assert(keys@.to_set().contains(keys@[j]));
            }
        }
    }
    out
}

/// JSON starter bodies of the publish window, per message type.
pub const TEMPLATE_POSE_STAMPED: &'static str = "{\n  \"header\": { \"frame_id\": \"map\" },\n  \"pose\": {\n    \"position\": { \"x\": 0.0, \"y\": 0.0, \"z\": 0.0 },\n    \"orientation\": { \"x\": 0.0, \"y\": 0.0, \"z\": 0.0, \"w\": 1.0 }\n  }\n}";
pub const TEMPLATE_POSE_WITH_COVARIANCE_STAMPED: &'static str = "{\n  \"header\": { \"frame_id\": \"map\" },\n  \"pose\": {\n    \"pose\": {\n      \"position\": { \"x\": 0.0, \"y\": 0.0, \"z\": 0.0 },\n      \"orientation\": { \"x\": 0.0, \"y\": 0.0, \"z\": 0.0, \"w\": 1.0 }\n    },\n    \"covariance\": [0.0,0.0,0.0,0.0,0.0,0.0, 0.0,0.0,0.0,0.0,0.0,0.0, 0.0,0.0,0.0,0.0,0.0,0.0, 0.0,0.0,0.0,0.0,0.0,0.0, 0.0,0.0,0.0,0.0,0.0,0.0, 0.0,0.0,0.0,0.0,0.0,0.0]\n  }\n}";
pub const TEMPLATE_POINT_STAMPED: &'static str = "{\n  \"header\": { \"frame_id\": \"map\" },\n  \"point\": { \"x\": 0.0, \"y\": 0.0, \"z\": 0.0 }\n}";
pub const TEMPLATE_TWIST: &'static str = "{\n  \"linear\": { \"x\": 0.0, \"y\": 0.0, \"z\": 0.0 },\n  \"angular\": { \"x\": 0.0, \"y\": 0.0, \"z\": 0.0 }\n}";
pub const TEMPLATE_TWIST_STAMPED: &'static str = "{\n  \"header\": { \"frame_id\": \"base_link\" },\n  \"twist\": {\n    \"linear\": { \"x\": 0.0, \"y\": 0.0, \"z\": 0.0 },\n    \"angular\": { \"x\": 0.0, \"y\": 0.0, \"z\": 0.0 }\n  }\n}";
pub const TEMPLATE_STRING: &'static str = "{\n  \"data\": \"\"\n}";
pub const TEMPLATE_BOOL: &'static str = "{\n  \"data\": false\n}";
pub const TEMPLATE_INT32: &'static str = "{\n  \"data\": 0\n}";
pub const TEMPLATE_FLOAT64: &'static str = "{\n  \"data\": 0.0\n}";

/// The starter body for a message type; `"{}"` for types without one.
pub open spec fn template_spec(name: Seq<char>) -> Seq<char> {
    if name == "geometry_msgs/msg/PoseStamped"@ {
        TEMPLATE_POSE_STAMPED@
    } else if name == "geometry_msgs/msg/PoseWithCovarianceStamped"@ {
        TEMPLATE_POSE_WITH_COVARIANCE_STAMPED@
    } else if name == "geometry_msgs/msg/PointStamped"@ {
        TEMPLATE_POINT_STAMPED@
    } else if name == "geometry_msgs/msg/Twist"@ {
        TEMPLATE_TWIST@
    } else if name == "geometry_msgs/msg/TwistStamped"@ {
        TEMPLATE_TWIST_STAMPED@
    } else if name == "std_msgs/msg/String"@ {
        TEMPLATE_STRING@
    } else if name == "std_msgs/msg/Bool"@ {
        TEMPLATE_BOOL@
    } else if name == "std_msgs/msg/Int32"@ {
        TEMPLATE_INT32@
    } else if name == "std_msgs/msg/Float64"@ {
        TEMPLATE_FLOAT64@
    } else {
        "{}"@
    }
}

/// Built-in JSON starter template for a message type; `"{}"` for types
/// without a bundled template.
pub fn template_for(msg_type: &str) -> (r: &'static str)
    ensures
        r@ == template_spec(msg_type@),
{
    if str_eq(msg_type, "geometry_msgs/msg/PoseStamped") {
        TEMPLATE_POSE_STAMPED
    } else if str_eq(msg_type, "geometry_msgs/msg/PoseWithCovarianceStamped") {
        TEMPLATE_POSE_WITH_COVARIANCE_STAMPED
    } else if str_eq(msg_type, "geometry_msgs/msg/PointStamped") {
        TEMPLATE_POINT_STAMPED
    } else if str_eq(msg_type, "geometry_msgs/msg/Twist") {
        TEMPLATE_TWIST
    } else if str_eq(msg_type, "geometry_msgs/msg/TwistStamped") {
        TEMPLATE_TWIST_STAMPED
    } else if str_eq(msg_type, "std_msgs/msg/String") {
        TEMPLATE_STRING
    } else if str_eq(msg_type, "std_msgs/msg/Bool") {
        TEMPLATE_BOOL
    } else if str_eq(msg_type, "std_msgs/msg/Int32") {
        TEMPLATE_INT32
    } else if str_eq(msg_type, "std_msgs/msg/Float64") {
        TEMPLATE_FLOAT64
    } else {
        "{}"
    }
}

} // verus!
