//! The namespace tree of the "Add topics" window.
//!
//! Topic names are split on `/` (after dropping leading slashes); every
//! segment but the last names a namespace, and the topic is listed as a
//! leaf of the innermost one. Namespaces are kept in name order, so that a
//! whole subtree can be shown collapsed and added at once.

use vstd::prelude::*;

use crate::config::strs;
use crate::discovery::TopicKind;
use crate::text::{chars_of, str_eq, string_of};

verus! {

/// One namespace: its child namespaces (in name order) and the topics
/// listed directly in it.
pub struct NsNode {
    pub children: Vec<(String, NsNode)>,
    pub leaves: Vec<(String, TopicKind)>,
}

pub type Leaf = (Seq<char>, TopicKind);

/// A namespace tree as the contracts see it.
pub struct NsView {
    pub children: Seq<(Seq<char>, NsView)>,
    pub leaves: Seq<Leaf>,
}

pub open spec fn leaf_views(v: Seq<(String, TopicKind)>) -> Seq<Leaf> {
    v.map_values(|l: (String, TopicKind)| (l.0@, l.1))
}

pub open spec fn view_of(n: NsNode) -> NsView
    decreases n,
{
    NsView { children: children_view(n.children@), leaves: leaf_views(n.leaves@) }
}

pub open spec fn children_view(cs: Seq<(String, NsNode)>) -> Seq<(Seq<char>, NsView)>
    decreases cs,
{
    if cs.len() == 0 {
        Seq::empty()
    } else {
        children_view(cs.drop_last()).push((cs.last().0@, view_of(cs.last().1)))
    }
}

proof fn lemma_children_view(cs: Seq<(String, NsNode)>)
    ensures
        children_view(cs).len() == cs.len(),
        forall|j: int| 0 <= j < cs.len() ==> #[trigger] children_view(cs)[j] == (cs[j].0@, view_of(cs[j].1)),
    decreases cs.len(),
{
    if cs.len() > 0 {
        lemma_children_view(cs.drop_last());
        assert forall|j: int| 0 <= j < cs.len() implies #[trigger] children_view(cs)[j] == (cs[j].0@, view_of(cs[j].1)) by {
            if j < cs.len() - 1 {
                assert(cs.drop_last()[j] == cs[j]);
            }
        }
    }
}

/// Two child lists look the same when they have the same names and views.
proof fn lemma_children_view_ext(a: Seq<(String, NsNode)>, b: Seq<(Seq<char>, NsView)>)
    requires
        a.len() == b.len(),
        forall|j: int| 0 <= j < a.len() ==> (a[j].0@, view_of(a[j].1)) == #[trigger] b[j],
    ensures
        children_view(a) == b,
{
    lemma_children_view(a);
    assert(children_view(a) =~= b);
}

/// The leaves of a subtree: the node's own, then each child's in order.
pub open spec fn leaves_of(v: NsView) -> Seq<Leaf>
    decreases v,
{
    v.leaves + children_leaves(v.children)
}

/// The leaves of a list of subtrees, in order.
pub open spec fn children_leaves(cs: Seq<(Seq<char>, NsView)>) -> Seq<Leaf>
    decreases cs,
{
    if cs.len() == 0 {
        Seq::empty()
    } else {
        children_leaves(cs.drop_last()) + leaves_of(cs.last().1)
    }
}

/// `a` sorts strictly before `b` (character by character).
pub open spec fn name_lt(a: Seq<char>, b: Seq<char>) -> bool
    decreases a.len(),
{
    if b.len() == 0 {
        false
    } else if a.len() == 0 {
        true
    } else if a[0] != b[0] {
        a[0] < b[0]
    } else {
        name_lt(a.drop_first(), b.drop_first())
    }
}

/// Nothing sorts before itself.
pub proof fn lemma_name_lt_irreflexive(a: Seq<char>)
    ensures
        !name_lt(a, a),
    decreases a.len(),
{
    if a.len() > 0 {
        lemma_name_lt_irreflexive(a.drop_first());
    }
}

/// Of two different names, one sorts before the other, and not both ways.
pub proof fn lemma_name_lt_total(a: Seq<char>, b: Seq<char>)
    ensures
        a != b ==> (name_lt(a, b) || name_lt(b, a)),
        !(name_lt(a, b) && name_lt(b, a)),
    decreases a.len(),
{
    if a.len() > 0 && b.len() > 0 && a[0] == b[0] {
        lemma_name_lt_total(a.drop_first(), b.drop_first());
        if a.drop_first() == b.drop_first() {
            assert(a =~= seq![a[0]] + a.drop_first());
            assert(b =~= seq![b[0]] + b.drop_first());
        }
    } else if a.len() == 0 && b.len() == 0 {
        assert(a =~= b);
    }
}

/// The name order is transitive.
pub proof fn lemma_name_lt_transitive(a: Seq<char>, b: Seq<char>, c: Seq<char>)
    requires
        name_lt(a, b),
        name_lt(b, c),
    ensures
        name_lt(a, c),
    decreases a.len(),
{
    if a.len() > 0 && a[0] == b[0] && b[0] == c[0] {
        lemma_name_lt_transitive(a.drop_first(), b.drop_first(), c.drop_first());
    }
}

pub(crate) fn chars_lt(a: &Vec<char>, b: &Vec<char>) -> (r: bool)
    ensures
        r == name_lt(a@, b@),
{
    let mut i: usize = 0;
    proof {
        assert(a@.subrange(0, a@.len() as int) =~= a@);
        assert(b@.subrange(0, b@.len() as int) =~= b@);
    }
    while i < a.len() && i < b.len() && a[i] == b[i]
        invariant
            i <= a@.len(),
            i <= b@.len(),
            name_lt(a@, b@) == name_lt(a@.subrange(i as int, a@.len() as int), b@.subrange(i as int, b@.len() as int)),
        decreases a@.len() - i,
    {
        proof {
            let sa = a@.subrange(i as int, a@.len() as int);
            let sb = b@.subrange(i as int, b@.len() as int);
            assert(sa.drop_first() =~= a@.subrange(i + 1, a@.len() as int));
            assert(sb.drop_first() =~= b@.subrange(i + 1, b@.len() as int));
        }
        i = i + 1;
    }
    if i == b.len() {
        false
    } else if i == a.len() {
        true
    } else {
        a[i] < b[i]
    }
}

/// The first child that does not sort before `name`.
pub open spec fn scan_pos(cs: Seq<(Seq<char>, NsView)>, name: Seq<char>, from: int) -> int
    decreases cs.len() - from,
{
    if from < 0 || from >= cs.len() {
        cs.len() as int
    } else if name_lt(cs[from].0, name) {
        scan_pos(cs, name, from + 1)
    } else {
        from
    }
}

proof fn lemma_scan_pos_range(cs: Seq<(Seq<char>, NsView)>, name: Seq<char>, from: int)
    requires
        0 <= from,
    ensures
        scan_pos(cs, name, from) <= cs.len(),
        scan_pos(cs, name, from) >= from || scan_pos(cs, name, from) == cs.len(),
    decreases cs.len() - from,
{
    if from < cs.len() && name_lt(cs[from].0, name) {
        lemma_scan_pos_range(cs, name, from + 1);
    }
}

/// The children's names are in strictly ascending order (so each name
/// occurs once).
pub open spec fn names_ascending(cs: Seq<(Seq<char>, NsView)>) -> bool {
    forall|a: int, b: int| 0 <= a < b < cs.len() ==> name_lt(#[trigger] cs[a].0, #[trigger] cs[b].0)
}

/// A well-formed tree: at every namespace, the child names ascend.
pub open spec fn view_wf(v: NsView) -> bool
    decreases v,
{
    names_ascending(v.children) && children_wf(v.children)
}

/// Every subtree of the list is well formed.
pub open spec fn children_wf(cs: Seq<(Seq<char>, NsView)>) -> bool
    decreases cs,
{
    if cs.len() == 0 {
        true
    } else {
        children_wf(cs.drop_last()) && view_wf(cs.last().1)
    }
}

proof fn lemma_children_wf(cs: Seq<(Seq<char>, NsView)>)
    ensures
        children_wf(cs) <==> forall|j: int| 0 <= j < cs.len() ==> view_wf(#[trigger] cs[j].1),
    decreases cs.len(),
{
    if cs.len() > 0 {
        lemma_children_wf(cs.drop_last());
        if children_wf(cs) {
            assert forall|j: int| 0 <= j < cs.len() implies view_wf(#[trigger] cs[j].1) by {
                if j < cs.len() - 1 {
                    assert(cs.drop_last()[j] == cs[j]);
                }
            }
        }
        if forall|j: int| 0 <= j < cs.len() ==> view_wf(#[trigger] cs[j].1) {
            assert forall|j: int| 0 <= j < cs.drop_last().len() implies view_wf(#[trigger] cs.drop_last()[j].1) by {
                assert(cs.drop_last()[j] == cs[j]);
            }
            assert(view_wf(cs[cs.len() - 1].1));
        }
    }
}

/// Every child before `scan_pos` sorts before `name`; the one at it (if
/// any) does not.
proof fn lemma_scan_pos_split(cs: Seq<(Seq<char>, NsView)>, name: Seq<char>, from: int)
    requires
        0 <= from,
    ensures
        forall|j: int| from <= j < scan_pos(cs, name, from) ==> name_lt(#[trigger] cs[j].0, name),
        scan_pos(cs, name, from) < cs.len() ==> !name_lt(cs[scan_pos(cs, name, from)].0, name),
    decreases cs.len() - from,
{
    if from < cs.len() && name_lt(cs[from].0, name) {
        lemma_scan_pos_split(cs, name, from + 1);
    }
}

pub open spec fn empty_view() -> NsView {
    NsView { children: Seq::empty(), leaves: Seq::empty() }
}

/// The tree after listing `leaf` under the namespaces `segs[i..len - 1]`:
/// each namespace is found among the children (the first that does not sort
/// before it), or created there.
pub open spec fn inserted(v: NsView, segs: Seq<Seq<char>>, i: int, leaf: Leaf) -> NsView
    decreases segs.len() - i,
{
    if i < 0 || i + 1 >= segs.len() {
        NsView { leaves: v.leaves.push(leaf), ..v }
    } else {
        let p = scan_pos(v.children, segs[i], 0);
        if p < v.children.len() && v.children[p].0 == segs[i] {
            NsView {
                children: v.children.update(p, (segs[i], inserted(v.children[p].1, segs, i + 1, leaf))),
                ..v
            }
        } else {
            NsView {
                children: v.children.insert(p, (segs[i], inserted(empty_view(), segs, i + 1, leaf))),
                ..v
            }
        }
    }
}

/// Listing a topic keeps a tree well formed.
pub proof fn lemma_inserted_wf(v: NsView, segs: Seq<Seq<char>>, i: int, leaf: Leaf)
    requires
        view_wf(v),
    ensures
        view_wf(inserted(v, segs, i, leaf)),
    decreases segs.len() - i,
{
    let r = inserted(v, segs, i, leaf);
    let cs = v.children;
    lemma_children_wf(cs);
    if i < 0 || i + 1 >= segs.len() {
        assert(r.children == cs);
    } else {
        let name = segs[i];
        let p = scan_pos(cs, name, 0);
        lemma_scan_pos_range(cs, name, 0);
        lemma_scan_pos_split(cs, name, 0);
        if p < cs.len() && cs[p].0 == name {
            let c = inserted(cs[p].1, segs, i + 1, leaf);
            assert(view_wf(cs[p].1));
            lemma_inserted_wf(cs[p].1, segs, i + 1, leaf);
            let u = cs.update(p, (name, c));
            assert(r.children == u);
            assert forall|a: int, b: int| 0 <= a < b < u.len() implies name_lt(#[trigger] u[a].0, #[trigger] u[b].0) by {
                assert(u[a].0 == cs[a].0);
                assert(u[b].0 == cs[b].0);
            }
            lemma_children_wf(u);
        } else {
            let c = inserted(empty_view(), segs, i + 1, leaf);
            assert(view_wf(empty_view())) by {
                assert(names_ascending(empty_view().children));
                assert(children_wf(empty_view().children));
            }
            lemma_inserted_wf(empty_view(), segs, i + 1, leaf);
            let u = cs.insert(p, (name, c));
            assert(r.children == u);
            if p < cs.len() {
                lemma_name_lt_total(cs[p].0, name);
            }
            assert forall|j: int| p <= j < cs.len() implies name_lt(name, #[trigger] cs[j].0) by {
                if j > p {
                    lemma_name_lt_transitive(name, cs[p].0, cs[j].0);
                }
            }
            assert forall|a: int, b: int| 0 <= a < b < u.len() implies name_lt(#[trigger] u[a].0, #[trigger] u[b].0) by {
                if b < p {
                    assert(u[a] == cs[a] && u[b] == cs[b]);
                } else if b == p {
                    assert(u[a] == cs[a]);
                } else if a < p {
                    assert(u[a] == cs[a] && u[b] == cs[b - 1]);
                    lemma_name_lt_transitive(cs[a].0, name, cs[b - 1].0);
                } else if a == p {
                    assert(u[b] == cs[b - 1]);
                } else {
                    assert(u[a] == cs[a - 1] && u[b] == cs[b - 1]);
                }
            }
            assert forall|j: int| 0 <= j < u.len() implies view_wf(#[trigger] u[j].1) by {
                if j < p {
                    assert(u[j] == cs[j]);
                } else if j > p {
                    assert(u[j] == cs[j - 1]);
                }
            }
            lemma_children_wf(u);
        }
    }
}

/// `s` without its leading `/`s.
pub open spec fn strip_slashes(s: Seq<char>) -> Seq<char>
    decreases s.len(),
{
    if s.len() > 0 && s[0] == '/' {
        strip_slashes(s.drop_first())
    } else {
        s
    }
}

/// `s` split at every `/` (at least one segment).
pub open spec fn split_slash(s: Seq<char>) -> Seq<Seq<char>>
    decreases s.len(),
{
    if s.len() == 0 {
        seq![Seq::empty()]
    } else {
        let rest = split_slash(s.drop_last());
        if s.last() == '/' {
            rest.push(Seq::empty())
        } else {
            rest.update(rest.len() - 1, rest.last().push(s.last()))
        }
    }
}

proof fn lemma_split_nonempty(s: Seq<char>)
    ensures
        split_slash(s).len() >= 1,
    decreases s.len(),
{
    if s.len() > 0 {
        lemma_split_nonempty(s.drop_last());
    }
}

/// The namespace segments of a topic name and its leaf name.
pub open spec fn topic_segments(topic: Seq<char>) -> Seq<Seq<char>> {
    split_slash(strip_slashes(topic))
}

fn segments(topic: &str) -> (r: Vec<Vec<char>>)
    ensures
        r@.len() == topic_segments(topic@).len(),
        forall|j: int| 0 <= j < r@.len() ==> #[trigger] r@[j]@ == topic_segments(topic@)[j],
{
    let cs = chars_of(topic);
    let n = cs.len();
    let mut i: usize = 0;
    proof {
        assert(cs@.subrange(0, n as int) =~= cs@);
    }
    while i < n && cs[i] == '/'
        invariant
            cs@ == topic@,
            n == cs@.len(),
            i <= n,
            strip_slashes(topic@) == strip_slashes(cs@.subrange(i as int, n as int)),
        decreases n - i,
    {
        proof {
            let t = cs@.subrange(i as int, n as int);
            assert(t.drop_first() =~= cs@.subrange(i + 1, n as int));
        }
        i = i + 1;
    }
    let ghost body = cs@.subrange(i as int, n as int);
    proof {
        if body.len() > 0 {
            assert(body[0] == cs@[i as int]);
        }
        assert(strip_slashes(topic@) == body);
    }
    let mut out: Vec<Vec<char>> = Vec::new();
    out.push(Vec::new());
    let mut j = i;
    proof {
        assert(body.subrange(0, 0) =~= Seq::<char>::empty());
        assert(split_slash(Seq::<char>::empty()) == seq![Seq::<char>::empty()]);
    }
    while j < n
        invariant
            i <= j <= n,
            n == cs@.len(),
            body == cs@.subrange(i as int, n as int),
            out@.len() >= 1,
            out@.len() == split_slash(body.subrange(0, j - i)).len(),
            forall|k: int| 0 <= k < out@.len() ==> #[trigger] out@[k]@ == split_slash(body.subrange(0, j - i))[k],
        decreases n - j,
    {
        let c = cs[j];
        let ghost pre = body.subrange(0, j - i);
        let ghost before = out@;
        proof {
            assert(body.subrange(0, j - i + 1).drop_last() =~= pre);
            assert(body.subrange(0, j - i + 1).last() == c);
            lemma_split_nonempty(pre);
        }
        if c == '/' {
            out.push(Vec::new());
        } else {
            let last = out.len() - 1;
            let mut seg = out.remove(last);
            seg.push(c);
            out.push(seg);
            proof {
                assert forall|k: int| 0 <= k < out@.len() implies #[trigger] out@[k]@ == split_slash(body.subrange(0, j - i + 1))[k] by {
                    if k < last {
                        assert(out@[k] == before[k]);
                    }
                }
            }
        }
        j = j + 1;
    }
    proof {
        assert(body.subrange(0, n - i) =~= body);
    }
    out
}

/// The leaves whose topic is not in `active`, in order.
pub open spec fn inactive(s: Seq<Leaf>, active: Seq<Seq<char>>) -> Seq<Leaf>
    decreases s.len(),
{
    if s.len() == 0 {
        Seq::empty()
    } else if active.contains(s.last().0) {
        inactive(s.drop_last(), active)
    } else {
        inactive(s.drop_last(), active).push(s.last())
    }
}

proof fn lemma_inactive_append(a: Seq<Leaf>, b: Seq<Leaf>, active: Seq<Seq<char>>)
    ensures
        inactive(a + b, active) == inactive(a, active) + inactive(b, active),
    decreases b.len(),
{
    if b.len() == 0 {
        assert(a + b =~= a);
        assert(inactive(a, active) + Seq::<Leaf>::empty() =~= inactive(a, active));
    } else {
        assert((a + b).drop_last() =~= a + b.drop_last());
        assert((a + b).last() == b.last());
        lemma_inactive_append(a, b.drop_last(), active);
        if !active.contains(b.last().0) {
            assert(inactive(a, active) + inactive(b.drop_last(), active).push(b.last()) =~= (inactive(a, active) + inactive(b.drop_last(), active)).push(b.last()));
        }
    }
}

proof fn lemma_children_prefix(cs: Seq<(String, NsNode)>, k: int)
    requires
        0 <= k < cs.len(),
    ensures
        children_view(cs.take(k + 1)) == children_view(cs.take(k)).push((cs[k].0@, view_of(cs[k].1))),
        children_leaves(children_view(cs.take(k + 1))) == children_leaves(children_view(cs.take(k))) + leaves_of(view_of(cs[k].1)),
{
    assert(cs.take(k + 1).drop_last() =~= cs.take(k));
    let cv = children_view(cs.take(k + 1));
    assert(cv.drop_last() =~= children_view(cs.take(k)));
}

proof fn lemma_children_leaves_len(cs: Seq<(String, NsNode)>, k: int)
    requires
        0 <= k <= cs.len(),
    ensures
        children_leaves(children_view(cs.take(k))).len() <= children_leaves(children_view(cs)).len(),
    decreases cs.len() - k,
{
    if k < cs.len() {
        lemma_children_prefix(cs, k);
        lemma_children_leaves_len(cs, k + 1);
    } else {
        assert(cs.take(k) =~= cs);
    }
}

impl NsNode {
    pub open spec fn view(&self) -> NsView {
        view_of(*self)
    }

    /// At every namespace of the tree, the child names ascend.
    pub open spec fn wf(&self) -> bool {
        view_wf(self.view())
    }

    /// An empty namespace.
    pub fn new() -> (r: Self)
        ensures
            r.view() == empty_view(),
            r.wf(),
    {
        let r = NsNode { children: Vec::new(), leaves: Vec::new() };
        proof {
            assert(leaf_views(r.leaves@) =~= Seq::empty());
            assert(children_view(r.children@) =~= Seq::empty());
            assert(names_ascending(r.view().children));
            assert(children_wf(r.view().children));
        }
        r
    }

    /// Position of the first child that does not sort before `name`.
    fn scan(&self, name: &Vec<char>) -> (r: usize)
        ensures
            r == scan_pos(self.view().children, name@, 0),
    {
        proof {
            lemma_children_view(self.children@);
        }
        let mut k: usize = 0;
        while k < self.children.len() && chars_lt(&chars_of(self.children[k].0.as_str()), name)
            invariant
                k <= self.children@.len(),
                self.view().children.len() == self.children@.len(),
                forall|j: int| 0 <= j < self.children@.len() ==> #[trigger] self.view().children[j] == (self.children@[j].0@, view_of(self.children@[j].1)),
                scan_pos(self.view().children, name@, 0) == scan_pos(self.view().children, name@, k as int),
            decreases self.children@.len() - k,
        {
            k = k + 1;
        }
        k
    }

    fn insert_path(&mut self, segs: &Vec<Vec<char>>, i: usize, leaf: (String, TopicKind))
        requires
            i < segs@.len(),
        ensures
            final(self).view() == inserted(
                old(self).view(),
                segs@.map_values(|s: Vec<char>| s@),
                i as int,
                (leaf.0@, leaf.1),
            ),
        decreases segs@.len() - i,
    {
        let ghost sv = segs@.map_values(|s: Vec<char>| s@);
        let ghost v0 = self.view();
        let ghost lv = (leaf.0@, leaf.1);
        proof {
            lemma_children_view(self.children@);
        }
        if segs.len() - i <= 1 {
            self.leaves.push(leaf);
            proof {
                assert(leaf_views(self.leaves@) =~= v0.leaves.push(lv));
            }
            return;
        }
        let seg = &segs[i];
        proof {
            assert(sv[i as int] == seg@);
        }
        let p = self.scan(seg);
        proof {
            lemma_scan_pos_range(v0.children, seg@, 0);
        }
        let found = p < self.children.len() && str_eq(self.children[p].0.as_str(), string_of(seg, 0, seg.len()).as_str());
        proof {
            assert(seg@.subrange(0, seg@.len() as int) =~= seg@);
        }
        let ghost cs0 = self.children@;
        if found {
            let (name, mut child) = self.children.remove(p);
            child.insert_path(segs, i + 1, leaf);
            self.children.insert(p, (name, child));
            proof {
                let cs1 = self.children@;
                assert(cs1 =~= cs0.update(p as int, (name, child)));
                lemma_children_view_ext(cs1, v0.children.update(p as int, (sv[i as int], inserted(v0.children[p as int].1, sv, i + 1, lv))));
            }
        } else {
            let mut child = NsNode::new();
            child.insert_path(segs, i + 1, leaf);
            let name = string_of(seg, 0, seg.len());
            self.children.insert(p, (name, child));
            proof {
                let cs1 = self.children@;
                assert(cs1 =~= cs0.insert(p as int, (name, child)));
                lemma_children_view_ext(cs1, v0.children.insert(p as int, (sv[i as int], inserted(empty_view(), sv, i + 1, lv))));
            }
        }
    }

    /// List `topic` (of kind `kind`) under its namespaces, creating those
    /// that are missing; a well-formed tree stays well formed.
    pub fn insert(&mut self, topic: &str, kind: TopicKind)
        ensures
            final(self).view() == inserted(old(self).view(), topic_segments(topic@), 0, (topic@, kind)),
            old(self).wf() ==> final(self).wf(),
    {
        proof {
            if old(self).wf() {
                lemma_inserted_wf(old(self).view(), topic_segments(topic@), 0, (topic@, kind));
            }
        }
        let segs = segments(topic);
        proof {
            lemma_split_nonempty(strip_slashes(topic@));
            assert(segs@.map_values(|s: Vec<char>| s@) =~= topic_segments(topic@));
        }
        self.insert_path(&segs, 0, (topic.to_owned(), kind));
    }

    /// The number of topics listed in this subtree.
    pub fn leaf_count(&self) -> (r: usize)
        requires
            leaves_of(self.view()).len() <= usize::MAX,
        ensures
            r == leaves_of(self.view()).len(),
        decreases self,
    {
        let cs = &self.children;
        let mut total = self.leaves.len();
        let mut i: usize = 0;
        proof {
            assert(cs@.take(0) =~= Seq::<(String, NsNode)>::empty());
            assert(leaf_views(self.leaves@).len() == self.leaves@.len());
        }
        while i < cs.len()
            invariant
                i <= cs@.len(),
                cs == &self.children,
                leaves_of(self.view()).len() <= usize::MAX,
                total == self.leaves@.len() + children_leaves(children_view(cs@.take(i as int))).len(),
            decreases cs@.len() - i,
        {
            proof {
                lemma_children_prefix(cs@, i as int);
                lemma_children_leaves_len(cs@, i + 1);
                assert(decreases_to!(*self => cs@[i as int].1)) by {
                    assert(decreases_to!(*self => self.children));
                    assert(decreases_to!(self.children => self.children@));
                    assert(decreases_to!(self.children@ => self.children@[i as int]));
                    assert(decreases_to!(self.children@[i as int] => self.children@[i as int].1));
                }
                assert(leaves_of(view_of(cs@[i as int].1)).len() <= usize::MAX);
            }
            let c = cs[i].1.leaf_count();
            total = total + c;
            i = i + 1;
        }
        proof {
            assert(cs@.take(cs@.len() as int) =~= cs@);
        }
        total
    }

    /// Append every topic of this subtree that is not in `active`, in tree
    /// order: own topics first, in the order they were listed, then each
    /// namespace's in turn, which on a well-formed tree is ascending name
    /// order.
    pub fn collect_leaves(&self, active: &Vec<String>, out: &mut Vec<(String, TopicKind)>)
        ensures
            leaf_views(final(out)@) == leaf_views(old(out)@) + inactive(leaves_of(self.view()), strs(active@)),
        decreases self,
    {
        let ghost o0 = leaf_views(out@);
        let ghost act = strs(active@);
        let mut i: usize = 0;
        proof {
            assert(leaf_views(self.leaves@).take(0) =~= Seq::<Leaf>::empty());
            assert(o0 + inactive(Seq::<Leaf>::empty(), act) =~= o0);
        }
        while i < self.leaves.len()
            invariant
                i <= self.leaves@.len(),
                act == strs(active@),
                leaf_views(out@) == o0 + inactive(leaf_views(self.leaves@).take(i as int), act),
            decreases self.leaves@.len() - i,
        {
            let ghost before = out@;
            let ghost lv = leaf_views(self.leaves@);
            proof {
                assert(lv.take(i + 1).drop_last() =~= lv.take(i as int));
                assert(lv.take(i + 1).last() == lv[i as int]);
            }
            if !crate::panel::list_contains(active, self.leaves[i].0.as_str()) {
                out.push((self.leaves[i].0.clone(), self.leaves[i].1));
                proof {
                    assert(leaf_views(out@) =~= leaf_views(before).push(lv[i as int]));
                }
            }
            i = i + 1;
        }
        proof {
            assert(leaf_views(self.leaves@).take(self.leaves@.len() as int) =~= leaf_views(self.leaves@));
        }
        let ghost o1 = leaf_views(out@);
        let cs = &self.children;
        let mut k: usize = 0;
        proof {
            assert(cs@.take(0) =~= Seq::<(String, NsNode)>::empty());
            assert(o1 + inactive(Seq::<Leaf>::empty(), act) =~= o1);
        }
        while k < cs.len()
            invariant
                k <= cs@.len(),
                cs == &self.children,
                act == strs(active@),
                leaf_views(out@) == o1 + inactive(children_leaves(children_view(cs@.take(k as int))), act),
            decreases cs@.len() - k,
        {
            proof {
                lemma_children_prefix(cs@, k as int);
                lemma_inactive_append(children_leaves(children_view(cs@.take(k as int))), leaves_of(view_of(cs@[k as int].1)), act);
                assert(decreases_to!(*self => cs@[k as int].1)) by {
                    assert(decreases_to!(*self => self.children));
                    assert(decreases_to!(self.children => self.children@));
                    assert(decreases_to!(self.children@ => self.children@[k as int]));
                    assert(decreases_to!(self.children@[k as int] => self.children@[k as int].1));
                }
            }
            cs[k].1.collect_leaves(active, out);
            k = k + 1;
        }
        proof {
            assert(cs@.take(cs@.len() as int) =~= cs@);
            lemma_inactive_append(leaf_views(self.leaves@), children_leaves(children_view(cs@)), act);
        }
    }
}

proof fn lemma_children_leaves_update_len(cs: Seq<(Seq<char>, NsView)>, p: int, c: (Seq<char>, NsView))
    requires
        0 <= p < cs.len(),
    ensures
        children_leaves(cs.update(p, c)).len() + leaves_of(cs[p].1).len() == children_leaves(cs).len()
            + leaves_of(c.1).len(),
    decreases cs.len(),
{
    let u = cs.update(p, c);
    assert(u.drop_last() =~= if p == cs.len() - 1 {
        cs.drop_last()
    } else {
        cs.drop_last().update(p, c)
    });
    if p < cs.len() - 1 {
        lemma_children_leaves_update_len(cs.drop_last(), p, c);
    }
}

proof fn lemma_children_leaves_insert_len(cs: Seq<(Seq<char>, NsView)>, p: int, c: (Seq<char>, NsView))
    requires
        0 <= p <= cs.len(),
    ensures
        children_leaves(cs.insert(p, c)).len() == children_leaves(cs).len() + leaves_of(c.1).len(),
    decreases cs.len(),
{
    let u = cs.insert(p, c);
    if p == cs.len() {
        assert(u.drop_last() =~= cs);
    } else {
        assert(u.drop_last() =~= cs.drop_last().insert(p, c));
        assert(u.last() == cs.last());
        lemma_children_leaves_insert_len(cs.drop_last(), p, c);
    }
}

/// Listing a topic lists exactly one topic more.
pub proof fn lemma_insert_adds_one(v: NsView, segs: Seq<Seq<char>>, i: int, leaf: Leaf)
    requires
        0 <= i,
    ensures
        leaves_of(inserted(v, segs, i, leaf)).len() == leaves_of(v).len() + 1,
    decreases segs.len() - i,
{
    if i + 1 < segs.len() {
        let p = scan_pos(v.children, segs[i], 0);
        lemma_scan_pos_range(v.children, segs[i], 0);
        if p < v.children.len() && v.children[p].0 == segs[i] {
            lemma_insert_adds_one(v.children[p].1, segs, i + 1, leaf);
            lemma_children_leaves_update_len(v.children, p, (segs[i], inserted(v.children[p].1, segs, i + 1, leaf)));
        } else {
            lemma_insert_adds_one(empty_view(), segs, i + 1, leaf);
            assert(leaves_of(empty_view()).len() == 0) by {
                assert(children_leaves(Seq::<(Seq<char>, NsView)>::empty()).len() == 0);
            }
            lemma_children_leaves_insert_len(v.children, p, (segs[i], inserted(empty_view(), segs, i + 1, leaf)));
        }
    }
}

/// The tree after listing each topic of `ts` in turn (as `NsNode::insert`
/// lists it), starting from `v`.
pub open spec fn inserted_all(v: NsView, ts: Seq<Leaf>) -> NsView
    decreases ts.len(),
{
    if ts.len() == 0 {
        v
    } else {
        inserted(inserted_all(v, ts.drop_last()), topic_segments(ts.last().0), 0, ts.last())
    }
}

/// No listing is lost or merged: listing `n` topics (repeats included) adds
/// exactly `n`, so a tree built from empty by `n` listings holds `n`.
pub proof fn lemma_listing_counts(v: NsView, ts: Seq<Leaf>)
    ensures
        leaves_of(inserted_all(v, ts)).len() == leaves_of(v).len() + ts.len(),
        leaves_of(inserted_all(empty_view(), ts)).len() == ts.len(),
    decreases ts.len(),
{
    if ts.len() > 0 {
        lemma_listing_counts(v, ts.drop_last());
        lemma_insert_adds_one(inserted_all(v, ts.drop_last()), topic_segments(ts.last().0), 0, ts.last());
        lemma_listing_counts(empty_view(), ts.drop_last());
        lemma_insert_adds_one(inserted_all(empty_view(), ts.drop_last()), topic_segments(ts.last().0), 0, ts.last());
    } else {
        assert(leaves_of(empty_view()).len() == 0) by {
            assert(children_leaves(Seq::<(Seq<char>, NsView)>::empty()).len() == 0);
        }
    }
}

} // verus!
