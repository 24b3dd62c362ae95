//! TF tree topology.
//!
//! Stores, per child frame, its parent frame and a short history of
//! timestamped samples of `parent_T_child`. The tree answers which chain of
//! hops links two frames: a lookup walks each frame up its parent chain to
//! its root, and the frames are connected exactly when both walks end at the
//! same root. The numeric transform of each hop (a rotation and a
//! translation) is carried as an opaque payload `X`; composing hops is left
//! to the caller, which gets the hops in order from `lookup_plan`.

use vstd::prelude::*;

use crate::text::str_eq;

verus! {

/// Upper bound on per-frame samples kept for interpolation.
pub const MAX_SAMPLES: usize = 100;

/// One timestamped sample of `parent_T_child`.
pub struct TfSample<X> {
    pub stamp_ns: i64,
    pub value: X,
}

/// The transform of one child frame relative to its parent.
pub struct TransformEntry<X> {
    pub child: String,
    pub parent: String,
    /// Stamp of the most recent sample.
    pub stamp_ns: i64,
    /// Recent samples in ascending stamp order, at most `MAX_SAMPLES`.
    pub history: Vec<TfSample<X>>,
}

/// Stamps of a sample history.
pub open spec fn stamps<X>(h: Seq<TfSample<X>>) -> Seq<i64> {
    h.map_values(|s: TfSample<X>| s.stamp_ns)
}

pub open spec fn ascending(s: Seq<i64>) -> bool {
    forall|i: int, j: int| 0 <= i <= j < s.len() ==> s[i] <= s[j]
}

/// Where a sample stamped `t` goes: just after the last sample whose stamp
/// is at most `t`, or at the front when there is none.
pub open spec fn insert_pos<X>(h: Seq<TfSample<X>>, t: i64) -> int
    decreases h.len(),
{
    if h.len() == 0 {
        0
    } else if h.last().stamp_ns <= t {
        h.len() as int
    } else {
        insert_pos(h.drop_last(), t)
    }
}

/// The history after inserting `s` in stamp order and dropping the oldest
/// samples beyond `MAX_SAMPLES`.
pub open spec fn pushed<X>(h: Seq<TfSample<X>>, s: TfSample<X>) -> Seq<TfSample<X>> {
    let h2 = h.insert(insert_pos(h, s.stamp_ns), s);
    if h2.len() > MAX_SAMPLES {
        h2.subrange(h2.len() - MAX_SAMPLES, h2.len() as int)
    } else {
        h2
    }
}

proof fn lemma_insert_pos_bounds<X>(h: Seq<TfSample<X>>, t: i64)
    ensures
        0 <= insert_pos(h, t) <= h.len(),
        forall|j: int| insert_pos(h, t) <= j < h.len() ==> #[trigger] h[j].stamp_ns > t,
        insert_pos(h, t) > 0 ==> h[insert_pos(h, t) - 1].stamp_ns <= t,
    decreases h.len(),
{
    if h.len() > 0 && h.last().stamp_ns > t {
        let d = h.drop_last();
        lemma_insert_pos_bounds(d, t);
        assert forall|j: int| insert_pos(h, t) <= j < h.len() implies #[trigger] h[j].stamp_ns > t by {
            if j < h.len() - 1 {
                assert(h[j] == d[j]);
            }
        }
        if insert_pos(h, t) > 0 {
            assert(h[insert_pos(h, t) - 1] == d[insert_pos(h, t) - 1]);
        }
    }
}

proof fn lemma_pushed_ascending<X>(h: Seq<TfSample<X>>, s: TfSample<X>)
    requires
        ascending(stamps(h)),
    ensures
        ascending(stamps(pushed(h, s))),
{
    let t = s.stamp_ns;
    let p = insert_pos(h, t);
    lemma_insert_pos_bounds(h, t);
    let h2 = h.insert(p, s);
    assert forall|i: int, j: int| 0 <= i <= j < h2.len() implies #[trigger] h2[i].stamp_ns
        <= #[trigger] h2[j].stamp_ns by {
        if i < p && j < p {
            assert(stamps(h)[i] <= stamps(h)[j]);
        } else if i < p && j == p {
            assert(stamps(h)[i] <= stamps(h)[p - 1]);
        } else if i < p && j > p {
            assert(stamps(h)[i] <= stamps(h)[j - 1]);
        } else if i == p && j > p {
            assert(h2[j] == h[j - 1]);
        } else if i > p {
            assert(stamps(h)[i - 1] <= stamps(h)[j - 1]);
        }
    }
    let f = pushed(h, s);
    assert forall|i: int, j: int| 0 <= i <= j < f.len() implies stamps(f)[i] <= stamps(f)[j] by {
        let off = h2.len() - f.len();
        assert(f[i] == h2[i + off]);
        assert(f[j] == h2[j + off]);
    }
}

/// Insert `sample` keeping `history` in stamp order and bounded to
/// `MAX_SAMPLES` (the oldest samples are dropped).
pub fn push_sample<X>(history: &mut Vec<TfSample<X>>, sample: TfSample<X>)
    ensures
        final(history)@ == pushed(old(history)@, sample),
        ascending(stamps(old(history)@)) ==> ascending(stamps(final(history)@)),
{
    let ghost h0 = history@;
    let ghost t = sample.stamp_ns;
    // Scan back for the last sample stamped at most `t`.
    let mut pos = history.len();
    proof {
        assert(h0.subrange(0, pos as int) =~= h0);
    }
    while pos > 0 && history[pos - 1].stamp_ns > sample.stamp_ns
        invariant
            history@ == h0,
            0 <= pos <= h0.len(),
            t == sample.stamp_ns,
            insert_pos(h0, t) == insert_pos(h0.subrange(0, pos as int), t),
        decreases pos,
    {
        proof {
            let hp = h0.subrange(0, pos as int);
            assert(hp.drop_last() =~= h0.subrange(0, pos - 1));
            assert(hp.last() == h0[pos - 1]);
        }
        pos = pos - 1;
    }
    proof {
        let hp = h0.subrange(0, pos as int);
        if pos > 0 {
            assert(hp.last() == h0[pos - 1]);
        }
        assert(insert_pos(h0, t) == pos);
    }
    history.insert(pos, sample);
    let ghost h2 = history@;
    proof {
        assert(h2.subrange(0, h2.len() as int) =~= h2);
    }
    while history.len() > MAX_SAMPLES
        invariant
            h2 == h0.insert(insert_pos(h0, t), sample),
            history@.len() <= h2.len(),
            h2.len() > MAX_SAMPLES ==> history@.len() >= MAX_SAMPLES,
            h2.len() <= MAX_SAMPLES ==> history@.len() == h2.len(),
            history@ == h2.subrange(h2.len() - history@.len(), h2.len() as int),
        decreases history@.len(),
    {
        let ghost before = history@;
        history.remove(0);
        proof {
            assert(history@ =~= h2.subrange(h2.len() - history@.len(), h2.len() as int)) by {
                assert forall|k: int| 0 <= k < history@.len() implies history@[k]
                    == h2[h2.len() - history@.len() + k] by {
                    assert(history@[k] == before[k + 1]);
                }
            }
        }
    }
    proof {
        assert(history@ =~= pushed(h0, sample));
        if ascending(stamps(h0)) {
            lemma_pushed_ascending(h0, sample);
        }
    }
}

/// How a stamp relates to a history: at (clamped to) one sample, or strictly
/// between two adjacent samples.
pub enum Bracket {
    At(usize),
    /// `h[i].stamp <= t < h[i + 1].stamp`.
    Between(usize),
}

/// Samples `i` and `i + 1` bracket `t`: `h[i].stamp <= t < h[i + 1].stamp`.
pub open spec fn is_bracket<X>(h: Seq<TfSample<X>>, t: i64, i: int) -> bool {
    0 <= i && i + 1 < h.len() && h[i].stamp_ns <= t && t < h[i + 1].stamp_ns
}

/// `i` is the first bracketing index for `t`.
pub open spec fn first_bracket<X>(h: Seq<TfSample<X>>, t: i64, i: int) -> bool {
    is_bracket(h, t, i) && forall|j: int| 0 <= j < i ==> !#[trigger] is_bracket(h, t, j)
}

/// Which samples the hop at stamp `t` is evaluated from: the first sample
/// when `t` is at or before it, the last when `t` is at or after it, else
/// the first bracketing pair (falling back to the last sample).
pub open spec fn bracket_spec<X>(h: Seq<TfSample<X>>, t: i64) -> Option<Bracket> {
    if h.len() == 0 {
        None
    } else if t <= h[0].stamp_ns {
        Some(Bracket::At(0))
    } else if t >= h.last().stamp_ns {
        Some(Bracket::At((h.len() - 1) as usize))
    } else if exists|i: int| first_bracket(h, t, i) {
        Some(Bracket::Between((choose|i: int| first_bracket(h, t, i)) as usize))
    } else {
        Some(Bracket::At((h.len() - 1) as usize))
    }
}

/// Locate stamp `t` in a sample history (see `bracket_spec`).
pub fn bracket<X>(history: &Vec<TfSample<X>>, t: i64) -> (r: Option<Bracket>)
    ensures
        r == bracket_spec(history@, t),
{
    let n = history.len();
    if n == 0 {
        return None;
    }
    if t <= history[0].stamp_ns {
        return Some(Bracket::At(0));
    }
    if t >= history[n - 1].stamp_ns {
        return Some(Bracket::At(n - 1));
    }
    let mut i: usize = 0;
    while i + 1 < n
        invariant
            n == history@.len(),
            n >= 1,
            i < n,
            history@[0].stamp_ns < t < history@[n - 1].stamp_ns,
            forall|j: int| 0 <= j < i ==> !#[trigger] is_bracket(history@, t, j),
        decreases n - i,
    {
        if history[i].stamp_ns <= t && t < history[i + 1].stamp_ns {
            proof {
                let h = history@;
                assert(first_bracket(h, t, i as int));
                let c = choose|k: int| first_bracket(h, t, k);
                assert(first_bracket(h, t, c));
                if c < i {
                    assert(!is_bracket(h, t, c));
                } else if c > i {
                    assert(!is_bracket(h, t, i as int));
                }
                assert(c == i);
            }
            return Some(Bracket::Between(i));
        }
        i = i + 1;
    }
    proof {
        assert forall|j: int| !first_bracket(history@, t, j) by {
            if 0 <= j && j + 1 < n {
                assert(!is_bracket(history@, t, j));
            }
        }
    }
    Some(Bracket::At(n - 1))
}

impl<X> TransformEntry<X> {
    /// An entry holding a single sample.
    pub fn from_sample(child: &str, parent: &str, sample: TfSample<X>) -> (r: Self)
        ensures
            r.child@ == child@,
            r.parent@ == parent@,
            r.stamp_ns == sample.stamp_ns,
            r.history@ == seq![sample],
    {
        let stamp_ns = sample.stamp_ns;
        let mut history = Vec::new();
        history.push(sample);
        TransformEntry { child: child.to_owned(), parent: parent.to_owned(), stamp_ns, history }
    }
}

/// Child names of a frame table.
pub open spec fn has_frame<X>(s: Seq<TransformEntry<X>>, n: Seq<char>) -> bool {
    exists|i: int| 0 <= i < s.len() && #[trigger] s[i].child@ == n
}

/// The index of the entry for child `n` (meaningful when `has_frame`).
pub open spec fn frame_index<X>(s: Seq<TransformEntry<X>>, n: Seq<char>) -> int {
    choose|i: int| 0 <= i < s.len() && #[trigger] s[i].child@ == n
}

/// A frame table as the contracts see it: each entry's child, parent and
/// sample history, in table order.
pub open spec fn frames_model<X>(s: Seq<TransformEntry<X>>) -> Seq<(Seq<char>, Seq<char>, Seq<TfSample<X>>)> {
    s.map_values(|e: TransformEntry<X>| (e.child@, e.parent@, e.history@))
}

/// Some entry of the model is for child `n`.
pub open spec fn model_has<X>(m: Seq<(Seq<char>, Seq<char>, Seq<TfSample<X>>)>, n: Seq<char>) -> bool {
    exists|i: int| 0 <= i < m.len() && #[trigger] m[i].0 == n
}

/// The index of the model's entry for child `n` (meaningful when
/// `model_has`).
pub open spec fn model_index<X>(m: Seq<(Seq<char>, Seq<char>, Seq<TfSample<X>>)>, n: Seq<char>) -> int {
    choose|i: int| 0 <= i < m.len() && #[trigger] m[i].0 == n
}

/// The table after recording `sample` of `parent_T_child`: a known child
/// with the same parent gets the sample added to its history (`pushed`); a
/// re-parented child gets a fresh history holding only the sample, in its
/// place; a new child is appended with that fresh history.
pub open spec fn model_applied<X>(
    m: Seq<(Seq<char>, Seq<char>, Seq<TfSample<X>>)>,
    child: Seq<char>,
    parent: Seq<char>,
    sample: TfSample<X>,
) -> Seq<(Seq<char>, Seq<char>, Seq<TfSample<X>>)> {
    if model_has(m, child) {
        let i = model_index(m, child);
        if m[i].1 == parent {
            m.update(i, (child, parent, pushed(m[i].2, sample)))
        } else {
            m.update(i, (child, parent, seq![sample]))
        }
    } else {
        m.push((child, parent, seq![sample]))
    }
}

/// `n` appears in the table, as a child or as some entry's parent.
pub open spec fn mentions<X>(s: Seq<TransformEntry<X>>, n: Seq<char>) -> bool {
    has_frame(s, n) || exists|i: int| 0 <= i < s.len() && #[trigger] s[i].parent@ == n
}

/// The frame reached from `n` after `i` steps up the parent chain; a frame
/// outside the table has no parent, so the walk stays there.
pub open spec fn ancestor<X>(s: Seq<TransformEntry<X>>, n: Seq<char>, i: nat) -> Seq<char>
    decreases i,
{
    if i == 0 {
        n
    } else {
        let a = ancestor(s, n, (i - 1) as nat);
        if has_frame(s, a) {
            s[frame_index(s, a)].parent@
        } else {
            a
        }
    }
}

/// The root reached from `n`: `None` when the chain is still inside the
/// table after as many steps as there are entries (the chain cycles).
pub open spec fn walk<X>(s: Seq<TransformEntry<X>>, n: Seq<char>) -> Option<Seq<char>> {
    let a = ancestor(s, n, s.len());
    if has_frame(s, a) {
        None
    } else {
        Some(a)
    }
}

/// The indices of the hops taken from `n` to its root, in walking order.
pub open spec fn hops_of<X>(s: Seq<TransformEntry<X>>, n: Seq<char>, h: Seq<usize>) -> bool {
    &&& h.len() <= s.len()
    &&& !has_frame(s, ancestor(s, n, h.len()))
    &&& forall|j: int|
        #![trigger ancestor(s, n, j as nat)]
        0 <= j < h.len() ==> {
            &&& has_frame(s, ancestor(s, n, j as nat))
            &&& h[j] == frame_index(s, ancestor(s, n, j as nat))
        }
}

proof fn lemma_ancestor_stays<X>(s: Seq<TransformEntry<X>>, n: Seq<char>, i: nat, j: nat)
    requires
        i <= j,
        !has_frame(s, ancestor(s, n, i)),
    ensures
        ancestor(s, n, j) == ancestor(s, n, i),
    decreases j - i,
{
    if j > i {
        lemma_ancestor_stays(s, n, i, (j - 1) as nat);
    }
}

proof fn lemma_ancestor_shift<X>(s: Seq<TransformEntry<X>>, c: Seq<char>, p: Seq<char>, k: nat)
    requires
        has_frame(s, c),
        s[frame_index(s, c)].parent@ == p,
    ensures
        ancestor(s, c, k + 1) == ancestor(s, p, k),
    decreases k,
{
    if k == 0 {
        assert(ancestor(s, c, 0) == c);
    } else {
        lemma_ancestor_shift(s, c, p, (k - 1) as nat);
        assert(ancestor(s, c, k) == ancestor(s, p, (k - 1) as nat));
    }
}

/// `target_T_source` can be composed: the frames are equal, or both walks
/// end (without cycling) at the same root.
pub open spec fn connected<X>(s: Seq<TransformEntry<X>>, target: Seq<char>, source: Seq<char>) -> bool {
    target == source || (walk(s, source) is Some && walk(s, source) == walk(s, target))
}

/// A lookup is available in one direction exactly when it is available in
/// the other: if `target_T_source` can be composed, so can its inverse.
pub proof fn lemma_lookup_symmetric<X>(s: Seq<TransformEntry<X>>, a: Seq<char>, b: Seq<char>)
    ensures
        connected(s, a, b) == connected(s, b, a),
{
}

/// A recorded link connects its two frames: when `child` has `parent` as
/// its parent and the chain above `child` does not cycle, `parent_T_child`
/// can be looked up, and both frames reach the same root.
pub proof fn lemma_recorded_link_connects<X>(
    s: Seq<TransformEntry<X>>,
    child: Seq<char>,
    parent: Seq<char>,
)
    requires
        has_frame(s, child),
        s[frame_index(s, child)].parent@ == parent,
        walk(s, child) is Some,
    ensures
        connected(s, parent, child),
        walk(s, parent) == walk(s, child),
{
    let n = s.len();
    assert(n > 0);
    lemma_ancestor_shift(s, child, parent, (n - 1) as nat);
    let a = ancestor(s, child, n);
    assert(!has_frame(s, a));
    lemma_ancestor_stays(s, parent, (n - 1) as nat, n);
}

/// What a lookup of `target_T_source` composes.
pub enum LookupPlan {
    /// Source and target are the same frame.
    Identity,
    /// `root_T_source` is the product of the source hops (first hop
    /// innermost), `root_T_target` that of the target hops; the result is
    /// `inverse(root_T_target) * root_T_source`.
    Chains { source_hops: Vec<usize>, target_hops: Vec<usize> },
}

/// Why a lookup fails, or what it found.
pub enum Diagnosis {
    NeitherPresent { frames: usize },
    SourceMissing,
    TargetMissing,
    CommonRoot { root: String },
    ChainBreak { source_root: String, target_root: String },
}

pub struct TfTree<X> {
    pub frames: Vec<TransformEntry<X>>,
}

pub open spec fn distinct_children<X>(s: Seq<TransformEntry<X>>) -> bool {
    forall|i: int, j: int|
        0 <= i < s.len() && 0 <= j < s.len() && i != j ==> s[i].child@ != s[j].child@
}

/// On a table with distinct children, the model finds the same entry as
/// the table.
proof fn lemma_model_index<X>(s: Seq<TransformEntry<X>>, n: Seq<char>)
    requires
        distinct_children(s),
    ensures
        model_has(frames_model(s), n) == has_frame(s, n),
        has_frame(s, n) ==> model_index(frames_model(s), n) == frame_index(s, n) && 0 <= frame_index(s, n) < s.len()
            && s[frame_index(s, n)].child@ == n,
{
    let m = frames_model(s);
    if has_frame(s, n) {
        let i = frame_index(s, n);
        assert(m[i].0 == n);
        let k = model_index(m, n);
        assert(m[k].0 == s[k].child@);
        assert(s[k].child@ == n);
    }
    if model_has(m, n) {
        let k = choose|k: int| 0 <= k < m.len() && #[trigger] m[k].0 == n;
        assert(s[k].child@ == n);
    }
}

proof fn lemma_frame_index<X>(s: Seq<TransformEntry<X>>, i: int)
    requires
        distinct_children(s),
        0 <= i < s.len(),
    ensures
        has_frame(s, s[i].child@),
        frame_index(s, s[i].child@) == i,
{
    assert(has_frame(s, s[i].child@));
}

impl<X> TfTree<X> {
    /// Child names are distinct and every history is a non-empty, ascending,
    /// bounded list whose last stamp is the entry's stamp.
    pub open spec fn wf(&self) -> bool {
        &&& distinct_children(self.frames@)
        &&& forall|i: int|
            0 <= i < self.frames@.len() ==> {
                let e = #[trigger] self.frames@[i];
                &&& 0 < e.history@.len() <= MAX_SAMPLES
                &&& ascending(stamps(e.history@))
                &&& e.stamp_ns == e.history@.last().stamp_ns
            }
    }

    pub fn new() -> (r: Self)
        ensures
            r.wf(),
            r.frames@.len() == 0,
    {
        TfTree { frames: Vec::new() }
    }

    pub fn frame_count(&self) -> (r: usize)
        ensures
            r == self.frames@.len(),
    {
        self.frames.len()
    }

    /// The index of the entry for child frame `name`.
    pub fn find(&self, name: &str) -> (r: Option<usize>)
        requires
            self.wf(),
        ensures
            match r {
                Some(i) => has_frame(self.frames@, name@) && i == frame_index(self.frames@, name@),
                None => !has_frame(self.frames@, name@),
            },
    {
        let mut i: usize = 0;
        while i < self.frames.len()
            invariant
                self.wf(),
                forall|j: int| 0 <= j < i ==> self.frames@[j].child@ != name@,
            decreases self.frames@.len() - i,
        {
            if str_eq(self.frames[i].child.as_str(), name) {
                proof {
                    lemma_frame_index(self.frames@, i as int);
                }
                return Some(i);
            }
            i = i + 1;
        }
        None
    }

    /// Whether `name` appears anywhere in the tree, as a child or a parent.
    pub fn mentions(&self, name: &str) -> (r: bool)
        requires
            self.wf(),
        ensures
            r == mentions(self.frames@, name@),
    {
        if self.find(name).is_some() {
            return true;
        }
        let mut i: usize = 0;
        while i < self.frames.len()
            invariant
                forall|j: int| 0 <= j < i ==> self.frames@[j].parent@ != name@,
            decreases self.frames@.len() - i,
        {
            if str_eq(self.frames[i].parent.as_str(), name) {
                return true;
            }
            i = i + 1;
        }
        false
    }

    /// Walk `frame` up its parent chain. Returns the hops taken (indices
    /// into `frames`) and the root reached, or `None` on a parent cycle.
    pub fn walk_to_root(&self, frame: &str) -> (r: Option<(Vec<usize>, String)>)
        requires
            self.wf(),
        ensures
            match r {
                Some((h, root)) => walk(self.frames@, frame@) == Some(root@) && hops_of(
                    self.frames@,
                    frame@,
                    h@,
                ),
                None => walk(self.frames@, frame@) is None,
            },
    {
        let ghost s = self.frames@;
        let n = self.frames.len();
        let mut cur: String = frame.to_owned();
        let mut hops: Vec<usize> = Vec::new();
        let mut steps: usize = 0;
        loop
            invariant
                self.wf(),
                s == self.frames@,
                n == s.len(),
                steps <= n,
                hops@.len() == steps,
                cur@ == ancestor(s, frame@, steps as nat),
                forall|j: int|
                    #![trigger ancestor(s, frame@, j as nat)]
                    0 <= j < steps ==> {
                        &&& has_frame(s, ancestor(s, frame@, j as nat))
                        &&& hops@[j] == frame_index(s, ancestor(s, frame@, j as nat))
                    },
            decreases n - steps,
        {
            match self.find(cur.as_str()) {
                None => {
                    proof {
                        lemma_ancestor_stays(s, frame@, steps as nat, n as nat);
                        assert(hops_of(s, frame@, hops@));
                        assert(walk(s, frame@) == Some(cur@));
                    }
                    return Some((hops, cur));
                },
                Some(i) => {
                    if steps == n {
                        return None;
                    }
                    let ghost prev = hops@;
                    hops.push(i);
                    cur = self.frames[i].parent.clone();
                    proof {
                        let a = ancestor(s, frame@, steps as nat);
                        assert(ancestor(s, frame@, (steps + 1) as nat) == s[frame_index(s, a)].parent@);
                        assert forall|j: int|
                            #![trigger ancestor(s, frame@, j as nat)]
                            0 <= j < steps + 1 implies {
                            &&& has_frame(s, ancestor(s, frame@, j as nat))
                            &&& hops@[j] == frame_index(s, ancestor(s, frame@, j as nat))
                        } by {
                            if j < steps {
                                assert(hops@[j] == prev[j]);
                            }
                        }
                    }
                    steps = steps + 1;
                },
            }
        }
    }

    /// The hops a lookup of `target_T_source` composes: `None` when either
    /// walk cycles or the two walks end at different roots.
    pub fn lookup_plan(&self, target: &str, source: &str) -> (r: Option<LookupPlan>)
        requires
            self.wf(),
        ensures
            r is Some <==> connected(self.frames@, target@, source@),
            target@ == source@ ==> r == Some(LookupPlan::Identity),
            target@ != source@ ==> match r {
                Some(LookupPlan::Chains { source_hops, target_hops }) => {
                    &&& walk(self.frames@, source@) is Some
                    &&& walk(self.frames@, source@) == walk(self.frames@, target@)
                    &&& hops_of(self.frames@, source@, source_hops@)
                    &&& hops_of(self.frames@, target@, target_hops@)
                },
                Some(LookupPlan::Identity) => false,
                None => walk(self.frames@, source@) is None || walk(self.frames@, target@)
                    is None || walk(self.frames@, source@) != walk(self.frames@, target@),
            },
    {
        if str_eq(target, source) {
            return Some(LookupPlan::Identity);
        }
        let (source_hops, root_s) = match self.walk_to_root(source) {
            Some(x) => x,
            None => return None,
        };
        let (target_hops, root_t) = match self.walk_to_root(target) {
            Some(x) => x,
            None => return None,
        };
        if root_s != root_t {
            return None;
        }
        Some(LookupPlan::Chains { source_hops, target_hops })
    }

    /// The topmost reachable ancestor of `frame`: `None` when the tree does
    /// not mention `frame`, and `frame` itself when its chain cycles.
    pub fn root_of(&self, frame: &str) -> (r: Option<String>)
        requires
            self.wf(),
        ensures
            !mentions(self.frames@, frame@) ==> r is None,
            mentions(self.frames@, frame@) ==> match walk(self.frames@, frame@) {
                Some(root) => r matches Some(x) && x@ == root,
                None => r matches Some(x) && x@ == frame@,
            },
    {
        if !self.mentions(frame) {
            return None;
        }
        match self.walk_to_root(frame) {
            Some((_, root)) => Some(root),
            None => Some(frame.to_owned()),
        }
    }

    /// Why `target_T_source` is unavailable (or, when both chains meet, the
    /// common root).
    pub fn diagnose(&self, target: &str, source: &str) -> (r: Diagnosis)
        requires
            self.wf(),
        ensures
            ({
                let s = self.frames@;
                let src = mentions(s, source@);
                let tgt = mentions(s, target@);
                let sr = match walk(s, source@) {
                    Some(x) => x,
                    None => source@,
                };
                let tr = match walk(s, target@) {
                    Some(x) => x,
                    None => target@,
                };
                if !src && !tgt {
                    r == Diagnosis::NeitherPresent { frames: s.len() as usize }
                } else if !src {
                    r is SourceMissing
                } else if !tgt {
                    r is TargetMissing
                } else if sr == tr {
                    r matches Diagnosis::CommonRoot { root } && root@ == sr
                } else {
                    r matches Diagnosis::ChainBreak { source_root, target_root } && source_root@
                        == sr && target_root@ == tr
                }
            }),
    {
        let src = self.mentions(source);
        let tgt = self.mentions(target);
        if !src && !tgt {
            return Diagnosis::NeitherPresent { frames: self.frames.len() };
        }
        if !src {
            return Diagnosis::SourceMissing;
        }
        if !tgt {
            return Diagnosis::TargetMissing;
        }
        let source_root = match self.walk_to_root(source) {
            Some((_, r)) => r,
            None => source.to_owned(),
        };
        let target_root = match self.walk_to_root(target) {
            Some((_, r)) => r,
            None => target.to_owned(),
        };
        if source_root == target_root {
            Diagnosis::CommonRoot { root: source_root }
        } else {
            Diagnosis::ChainBreak { source_root, target_root }
        }
    }

    /// Store `entry` as the transform of its child frame, replacing the
    /// entry the frame had.
    pub fn insert_entry(&mut self, entry: TransformEntry<X>)
        requires
            old(self).wf(),
            0 < entry.history@.len() <= MAX_SAMPLES,
            ascending(stamps(entry.history@)),
            entry.stamp_ns == entry.history@.last().stamp_ns,
        ensures
            final(self).wf(),
            has_frame(final(self).frames@, entry.child@),
            final(self).frames@[frame_index(final(self).frames@, entry.child@)] == entry,
            forall|n: Seq<char>|
                n != entry.child@ ==> has_frame(final(self).frames@, n) == has_frame(old(self).frames@, n)
                    && (has_frame(old(self).frames@, n) ==> final(self).frames@[frame_index(final(self).frames@, n)]
                    == old(self).frames@[frame_index(old(self).frames@, n)]),
    {
        let ghost s = self.frames@;
        let ghost c = entry.child@;
        match self.find(entry.child.as_str()) {
            Some(i) => {
                self.frames.set(i, entry);
                proof {
                    let f = self.frames@;
                    assert forall|a: int, b: int|
                        0 <= a < f.len() && 0 <= b < f.len() && a != b implies f[a].child@ != f[b].child@ by {
                        assert(s[a].child@ != s[b].child@ || a == b);
                    }
                    lemma_frame_index(f, i as int);
                    assert forall|n: Seq<char>| n != c implies has_frame(f, n) == has_frame(s, n)
                        && (has_frame(s, n) ==> f[frame_index(f, n)] == s[frame_index(s, n)]) by {
                        if has_frame(s, n) {
                            let j = frame_index(s, n);
                            assert(j != i);
                            assert(f[j] == s[j]);
                            lemma_frame_index(f, j);
                        }
                        if has_frame(f, n) {
                            let j = frame_index(f, n);
                            assert(j != i);
                            assert(f[j] == s[j]);
                        }
                    }
                }
            },
            None => {
                self.frames.push(entry);
                proof {
                    let f = self.frames@;
                    assert forall|a: int, b: int|
                        0 <= a < f.len() && 0 <= b < f.len() && a != b implies f[a].child@ != f[b].child@ by {
                        if a == s.len() {
                            assert(s[b].child@ != c);
                        } else if b == s.len() {
                            assert(s[a].child@ != c);
                        }
                    }
                    lemma_frame_index(f, s.len() as int);
                    assert forall|n: Seq<char>| n != c implies has_frame(f, n) == has_frame(s, n)
                        && (has_frame(s, n) ==> f[frame_index(f, n)] == s[frame_index(s, n)]) by {
                        if has_frame(s, n) {
                            let j = frame_index(s, n);
                            assert(f[j] == s[j]);
                            lemma_frame_index(f, j);
                        }
                        if has_frame(f, n) {
                            let j = frame_index(f, n);
                            if j < s.len() {
                                assert(f[j] == s[j]);
                            }
                        }
                    }
                }
            },
        }
    }

    /// Record a sample of `parent_T_child`. A known child with the same
    /// parent gets the sample added to its history; a new child, or a child
    /// re-parented, gets a fresh entry holding only this sample.
    pub fn apply(&mut self, child: &str, parent: &str, sample: TfSample<X>)
        requires
            old(self).wf(),
        ensures
            final(self).wf(),
            ({
                let s = old(self).frames@;
                let f = final(self).frames@;
                &&& has_frame(f, child@)
                &&& f[frame_index(f, child@)].parent@ == parent@
                &&& if has_frame(s, child@) {
                    let i = frame_index(s, child@);
                    &&& f.len() == s.len()
                    &&& forall|j: int| 0 <= j < s.len() && j != i ==> f[j] == s[j]
                    &&& f[i].child@ == child@
                    &&& f[i].parent@ == parent@
                    &&& if s[i].parent@ == parent@ {
                        f[i].history@ == pushed(s[i].history@, sample)
                    } else {
                        f[i].history@ == seq![sample]
                    }
                } else {
                    &&& f.len() == s.len() + 1
                    &&& f.subrange(0, s.len() as int) == s
                    &&& f.last().child@ == child@
                    &&& f.last().parent@ == parent@
                    &&& f.last().history@ == seq![sample]
                }
            }),
            frames_model(final(self).frames@) == model_applied(frames_model(old(self).frames@), child@, parent@, sample),
    {
        let ghost s = self.frames@;
        proof {
            lemma_model_index(s, child@);
        }
        match self.find(child) {
            Some(i) => {
                if str_eq(self.frames[i].parent.as_str(), parent) {
                    let ghost e0 = self.frames@[i as int];
                    let e = &mut self.frames[i];
                    push_sample(&mut e.history, sample);
                    proof {
                        assert(e0.history@.len() > 0);
                        assert(e.history@.len() > 0) by {
                            lemma_insert_pos_bounds(e0.history@, sample.stamp_ns);
                        }
                    }
                    let last = e.history.len() - 1;
                    e.stamp_ns = e.history[last].stamp_ns;
                } else {
                    let fresh = TransformEntry::from_sample(child, parent, sample);
                    self.frames.set(i, fresh);
                }
                proof {
                    let f = self.frames@;
                    assert forall|a: int, b: int|
                        0 <= a < f.len() && 0 <= b < f.len() && a != b implies f[a].child@
                        != f[b].child@ by {
                        assert(s[a].child@ != s[b].child@ || a == b);
                    }
                    lemma_frame_index(f, i as int);
                }
            },
            None => {
                let fresh = TransformEntry::from_sample(child, parent, sample);
                self.frames.push(fresh);
                proof {
                    let f = self.frames@;
                    assert(f.subrange(0, s.len() as int) =~= s);
                    assert forall|a: int, b: int|
                        0 <= a < f.len() && 0 <= b < f.len() && a != b implies f[a].child@
                        != f[b].child@ by {
                        if a == s.len() {
                            assert(s[b].child@ != child@);
                        } else if b == s.len() {
                            assert(s[a].child@ != child@);
                        }
                    }
                    lemma_frame_index(f, s.len() as int);
                }
            },
        }
    }
}

/// One `parent_T_child` sample of a TF message.
pub struct TfUpdate<X> {
    pub child: String,
    pub parent: String,
    pub sample: TfSample<X>,
}

/// The table after recording every sample of `b`, in order.
pub open spec fn model_updated<X>(m: Seq<(Seq<char>, Seq<char>, Seq<TfSample<X>>)>, b: Seq<TfUpdate<X>>) -> Seq<
    (Seq<char>, Seq<char>, Seq<TfSample<X>>),
>
    decreases b.len(),
{
    if b.len() == 0 {
        m
    } else {
        model_applied(model_updated(m, b.drop_last()), b.last().child@, b.last().parent@, b.last().sample)
    }
}

proof fn lemma_frame_index_all<X>(s: Seq<TransformEntry<X>>)
    requires
        distinct_children(s),
    ensures
        forall|i: int| 0 <= i < s.len() ==> #[trigger] frame_index(s, s[i].child@) == i,
{
    assert forall|i: int| 0 <= i < s.len() implies #[trigger] frame_index(s, s[i].child@) == i by {
        lemma_frame_index(s, i);
    }
}

/// After `apply(child, ..)`, every other frame is as it was.
proof fn lemma_apply_keeps_others<X>(s: Seq<TransformEntry<X>>, f: Seq<TransformEntry<X>>, child: Seq<char>, n: Seq<char>)
    requires
        distinct_children(s),
        distinct_children(f),
        n != child,
        has_frame(s, child) ==> f.len() == s.len() && f[frame_index(s, child)].child@ == child && forall|j: int|
            0 <= j < s.len() && j != frame_index(s, child) ==> f[j] == s[j],
        !has_frame(s, child) ==> f.len() == s.len() + 1 && f.subrange(0, s.len() as int) == s
            && f.last().child@ == child,
    ensures
        has_frame(f, n) == has_frame(s, n),
        has_frame(s, n) ==> f[frame_index(f, n)].parent@ == s[frame_index(s, n)].parent@,
{
    if has_frame(s, n) {
        let i = frame_index(s, n);
        if has_frame(s, child) {
            assert(i != frame_index(s, child));
            assert(f[i] == s[i]);
        } else {
            assert(f[i] == f.subrange(0, s.len() as int)[i]);
        }
        lemma_frame_index(f, i);
    }
    if has_frame(f, n) {
        let i = frame_index(f, n);
        if has_frame(s, child) {
            if i != frame_index(s, child) {
                assert(f[i] == s[i]);
                assert(has_frame(s, n));
            }
        } else {
            if i < s.len() {
                assert(f[i] == f.subrange(0, s.len() as int)[i]);
                assert(has_frame(s, n));
            }
        }
    }
}

impl<X> TfTree<X> {
    /// Apply every sample of a TF message, in order: each is recorded in
    /// its child's history as `apply` records it.
    pub fn update(&mut self, batch: Vec<TfUpdate<X>>)
        requires
            old(self).wf(),
        ensures
            final(self).wf(),
            frames_model(final(self).frames@) == model_updated(frames_model(old(self).frames@), batch@),
            forall|j: int| 0 <= j < batch@.len() ==> has_frame(final(self).frames@, #[trigger] batch@[j].child@),
            forall|j: int|
                0 <= j < batch@.len() && (forall|k: int| j < k < batch@.len() ==> batch@[k].child@ != batch@[j].child@)
                    ==> final(self).frames@[frame_index(final(self).frames@, #[trigger] batch@[j].child@)].parent@
                    == batch@[j].parent@,
    {
        let ghost b = batch@;
        let ghost m0 = frames_model(self.frames@);
        let mut batch = batch;
        let mut i: usize = 0;
        assert(b.len() == batch.len());
        proof {
            assert(b.take(0) =~= Seq::<TfUpdate<X>>::empty());
        }
        while batch.len() > 0
            invariant
                self.wf(),
                i <= b.len(),
                b.len() <= usize::MAX,
                batch@ == b.skip(i as int),
                frames_model(self.frames@) == model_updated(m0, b.take(i as int)),
                forall|j: int| 0 <= j < i ==> has_frame(self.frames@, #[trigger] b[j].child@),
                forall|j: int|
                    0 <= j < i && (forall|k: int| j < k < i ==> b[k].child@ != b[j].child@)
                        ==> self.frames@[frame_index(self.frames@, #[trigger] b[j].child@)].parent@ == b[j].parent@,
            decreases batch@.len(),
        {
            let ghost s0 = self.frames@;
            let u = batch.remove(0);
            proof {
                assert(b[i as int] == u);
                assert(batch@ =~= b.skip(i + 1));
                lemma_frame_index_all(s0);
            }
            self.apply(u.child.as_str(), u.parent.as_str(), u.sample);
            proof {
                assert(b.take(i + 1).drop_last() =~= b.take(i as int));
                assert(b.take(i + 1).last() == b[i as int]);
                let f = self.frames@;
                assert forall|j: int| 0 <= j < i + 1 implies has_frame(f, #[trigger] b[j].child@) by {
                    if j < i && b[j].child@ != u.child@ {
                        lemma_apply_keeps_others(s0, f, u.child@, b[j].child@);
                    }
                }
                assert forall|j: int|
                    0 <= j < i + 1 && (forall|k: int| j < k < i + 1 ==> b[k].child@ != b[j].child@)
                        implies f[frame_index(f, #[trigger] b[j].child@)].parent@ == b[j].parent@ by {
                    if j < i {
                        assert(b[i as int].child@ != b[j].child@);
                        lemma_apply_keeps_others(s0, f, u.child@, b[j].child@);
                    }
                }
            }
            i = i + 1;
        }
        proof {
            assert(b.skip(i as int).len() == 0);
            assert(b.take(i as int) =~= b);
        }
    }
}

} // verus!
