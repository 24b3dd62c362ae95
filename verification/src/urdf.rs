//! Kinematic structure of a URDF robot description.
//!
//! The description is parsed by `urdf-rs`; what the kinematics read of it
//! (link names, joints with their parent and child links and the joint a
//! mimic joint follows) is kept here: the root link, which links get an
//! entity, the chain of joints from a link up to the root, and where a
//! joint's position comes from (its own reported position, a mimicked
//! joint's, or zero). Joint positions are stored as the bits of their
//! `f64` values; the transforms and the mimic arithmetic are the caller's.

use vstd::prelude::*;

use crate::ids::{EntityId, URDF_LINK_BASE};
use crate::text::str_eq;

verus! {

#[verifier::external_type_specification]
#[verifier::external_body]
pub struct ExRobot(urdf_rs::Robot);

#[verifier::external_type_specification]
#[verifier::external_body]
pub struct ExUrdfError(urdf_rs::UrdfError);

/// URDF joint types.
#[derive(Clone, Copy, Debug, PartialEq, Eq, Structural)]
pub enum JointKind {
    Revolute,
    Continuous,
    Prismatic,
    Fixed,
    Floating,
    Planar,
    Spherical,
}

/// A joint as the parser hands it over: the type is the position of the
/// `urdf_rs::JointType` variant in its declaration (revolute, continuous,
/// prismatic, fixed, floating, planar, spherical).
pub struct RawJoint {
    pub name: String,
    pub kind_code: u8,
    pub parent: String,
    pub child: String,
    /// The joint named by `<mimic joint="..."/>`, if any.
    pub mimic_target: Option<String>,
}

/// What the kinematics read of a robot description: each link's name and
/// number of `<visual>` elements, and the joints, in the order the parser lists them.
pub struct Skeleton {
    pub links: Vec<(String, usize)>,
    pub joints: Vec<RawJoint>,
}

pub type JointView = (Seq<char>, u8, Seq<char>, Seq<char>, Option<Seq<char>>);

pub type SkeletonView = (Seq<(Seq<char>, usize)>, Seq<JointView>);

pub open spec fn raw_joint_view(j: RawJoint) -> JointView {
    (
        j.name@,
        j.kind_code,
        j.parent@,
        j.child@,
        match j.mimic_target {
            Some(t) => Some(t@),
            None => None,
        },
    )
}

impl Skeleton {
    pub open spec fn view(&self) -> SkeletonView {
        (
            self.links@.map_values(|l: (String, usize)| (l.0@, l.1)),
            self.joints@.map_values(|j: RawJoint| raw_joint_view(j)),
        )
    }
}

/// The skeleton `urdf_rs::read_from_string` parses out of a description,
/// `None` when it rejects the text.
pub uninterp spec fn urdf_skeleton(xml: Seq<char>) -> Option<SkeletonView>;

/// Parse a robot description.
///
/// Trusted: calls `urdf_rs::read_from_string`, which parses the XML text
/// alone (no file access), and lists the parsed links (name, number of
/// visuals) and joints (name, type position, parent and child link, mimic
/// target). The contract names that skeleton as a function of the text.
#[verifier::external_body]
fn read_urdf(xml: &str) -> (r: Result<(urdf_rs::Robot, Skeleton), urdf_rs::UrdfError>)
    ensures
        match r {
            Ok((_, sk)) => urdf_skeleton(xml@) == Some(sk.view()),
            Err(_) => urdf_skeleton(xml@) is None,
        },
{
    let robot = urdf_rs::read_from_string(xml)?;
    let links = robot.links.iter().map(|l| (l.name.clone(), l.visual.len())).collect();
    let joints = robot.joints.iter().map(|j| RawJoint {
        name: j.name.clone(),
        kind_code: j.joint_type.clone() as u8,
        parent: j.parent.link.clone(),
        child: j.child.link.clone(),
        mimic_target: j.mimic.as_ref().map(|m| m.joint.clone()),
    }).collect();
    Ok((robot, Skeleton { links, joints }))
}

/// Why a robot description cannot be used.
#[derive(Clone, Copy, Debug, PartialEq, Eq, Structural)]
pub enum UrdfLoadError {
    /// The text is not a valid robot description.
    Parse,
    /// Every link is the child of some joint.
    NoRoot,
}

/// Parse a robot description from text: the parsed robot (for the
/// geometry) and its skeleton.
pub fn parse_urdf_text(xml: &str) -> (r: Result<(urdf_rs::Robot, Skeleton), UrdfLoadError>)
    ensures
        match r {
            Ok((_, sk)) => urdf_skeleton(xml@) == Some(sk.view()),
            Err(e) => e == UrdfLoadError::Parse && urdf_skeleton(xml@) is None,
        },
{
    match read_urdf(xml) {
        Ok(v) => Ok(v),
        Err(_) => Err(UrdfLoadError::Parse),
    }
}

/// The joint type with declaration position `code`.
pub open spec fn kind_of_code(code: u8) -> JointKind {
    if code == 0 {
        JointKind::Revolute
    } else if code == 1 {
        JointKind::Continuous
    } else if code == 2 {
        JointKind::Prismatic
    } else if code == 3 {
        JointKind::Fixed
    } else if code == 4 {
        JointKind::Floating
    } else if code == 5 {
        JointKind::Planar
    } else {
        JointKind::Spherical
    }
}

pub fn joint_kind(code: u8) -> (r: JointKind)
    ensures
        r == kind_of_code(code),
{
    if code == 0 {
        JointKind::Revolute
    } else if code == 1 {
        JointKind::Continuous
    } else if code == 2 {
        JointKind::Prismatic
    } else if code == 3 {
        JointKind::Fixed
    } else if code == 4 {
        JointKind::Floating
    } else if code == 5 {
        JointKind::Planar
    } else {
        JointKind::Spherical
    }
}

/// A joint of the model.
pub struct JointInfo {
    pub name: String,
    pub kind: JointKind,
    pub parent: String,
    pub child: String,
    pub mimic_target: Option<String>,
}

/// A link that is drawn, with its entity.
pub struct UrdfLink {
    pub name: String,
    pub entity_id: EntityId,
}

/// The kinematic model: root link, drawn links, joints (in parser order; for
/// a child link that several joints name, the last one counts) and the
/// reported joint positions (as `f64` bits).
pub struct UrdfModel {
    pub root_link: String,
    pub links: Vec<UrdfLink>,
    pub joints: Vec<JointInfo>,
    pub positions: Vec<(String, u64)>,
}

/// The index of the last joint whose child is `link`, or `-1`.
pub open spec fn joint_of_child(joints: Seq<JointInfo>, link: Seq<char>) -> int
    decreases joints.len(),
{
    if joints.len() == 0 {
        -1
    } else if joints.last().child@ == link {
        joints.len() - 1
    } else {
        joint_of_child(joints.drop_last(), link)
    }
}

proof fn lemma_joint_of_child(joints: Seq<JointInfo>, link: Seq<char>)
    ensures
        -1 <= joint_of_child(joints, link) < joints.len(),
        joint_of_child(joints, link) >= 0 ==> joints[joint_of_child(joints, link)].child@ == link,
        joint_of_child(joints, link) == -1 ==> forall|j: int|
            0 <= j < joints.len() ==> (#[trigger] joints[j]).child@ != link,
    decreases joints.len(),
{
    if joints.len() > 0 && joints.last().child@ != link {
        let d = joints.drop_last();
        lemma_joint_of_child(d, link);
        if joint_of_child(joints, link) >= 0 {
            assert(joints[joint_of_child(joints, link)] == d[joint_of_child(joints, link)]);
        }
        if joint_of_child(joints, link) == -1 {
            assert forall|j: int| 0 <= j < joints.len() implies (#[trigger] joints[j]).child@
                != link by {
                if j < joints.len() - 1 {
                    assert(joints[j] == d[j]);
                }
            }
        }
    }
}

/// The index of the last joint whose child is `link`.
fn find_joint_of_child(joints: &Vec<JointInfo>, link: &str) -> (r: Option<usize>)
    ensures
        match r {
            Some(i) => i == joint_of_child(joints@, link@),
            None => joint_of_child(joints@, link@) == -1,
        },
{
    let ghost s = joints@;
    let mut i = joints.len();
    proof {
        assert(s.subrange(0, i as int) =~= s);
    }
    while i > 0
        invariant
            i <= s.len(),
            s == joints@,
            joint_of_child(s, link@) == joint_of_child(s.subrange(0, i as int), link@),
        decreases i,
    {
        proof {
            let sp = s.subrange(0, i as int);
            assert(sp.last() == s[i - 1]);
            assert(sp.drop_last() =~= s.subrange(0, i - 1));
        }
        if str_eq(joints[i - 1].child.as_str(), link) {
            return Some(i - 1);
        }
        i = i - 1;
    }
    None
}

/// The first link that no joint names as its child, or `-1`.
pub open spec fn root_index(links: Seq<(Seq<char>, usize)>, joints: Seq<JointInfo>, from: int) -> int
    decreases links.len() - from,
{
    if from < 0 || from >= links.len() {
        -1
    } else if joint_of_child(joints, links[from].0) == -1 {
        from
    } else {
        root_index(links, joints, from + 1)
    }
}

/// The model's joints are the skeleton's, with their types decoded.
pub open spec fn joints_match(joints: Seq<JointInfo>, raw: Seq<JointView>) -> bool {
    &&& joints.len() == raw.len()
    &&& forall|i: int|
        0 <= i < joints.len() ==> {
            let j = #[trigger] joints[i];
            let r = raw[i];
            &&& j.name@ == r.0
            &&& j.kind == kind_of_code(r.1)
            &&& j.parent@ == r.2
            &&& j.child@ == r.3
            &&& match j.mimic_target {
                Some(t) => r.4 == Some(t@),
                None => r.4 is None,
            }
        }
}

/// The drawn links: link `i` of the skeleton when its mesh was built, with
/// entity `URDF_LINK_BASE + i`, in order.
pub open spec fn drawn_links(links: Seq<(Seq<char>, usize)>, mesh_ok: Seq<bool>, k: int) -> Seq<(Seq<char>, u64)>
    decreases k,
{
    if k <= 0 {
        Seq::empty()
    } else {
        let rest = drawn_links(links, mesh_ok, k - 1);
        if mesh_ok[k - 1] {
            rest.push((links[k - 1].0, (URDF_LINK_BASE + k - 1) as u64))
        } else {
            rest
        }
    }
}

pub open spec fn links_view(links: Seq<UrdfLink>) -> Seq<(Seq<char>, u64)> {
    links.map_values(|l: UrdfLink| (l.name@, l.entity_id.0))
}

fn clone_opt(o: &Option<String>) -> (r: Option<String>)
    ensures
        match (r, *o) {
            (Some(a), Some(b)) => a@ == b@,
            (None, None) => true,
            _ => false,
        },
{
    match o {
        Some(s) => Some(s.clone()),
        None => None,
    }
}

impl UrdfModel {
    /// Build the model of a parsed description. `mesh_ok[i]` tells whether
    /// link `i` has a visual whose mesh could be built; only those links are
    /// drawn. Fails when every link is some joint's child.
    pub fn build(sk: &Skeleton, mesh_ok: &Vec<bool>) -> (r: Result<UrdfModel, UrdfLoadError>)
        requires
            mesh_ok@.len() == sk.links@.len(),
            URDF_LINK_BASE + sk.links@.len() <= u64::MAX,
        ensures
            match r {
                Ok(m) => {
                    &&& joints_match(m.joints@, sk.view().1)
                    &&& root_index(sk.view().0, m.joints@, 0) >= 0
                    &&& m.root_link@ == sk.view().0[root_index(sk.view().0, m.joints@, 0)].0
                    &&& links_view(m.links@) == drawn_links(sk.view().0, mesh_ok@, sk.links@.len() as int)
                    &&& m.positions@.len() == 0
                },
                Err(e) => {
                    &&& e == UrdfLoadError::NoRoot
                    &&& forall|joints: Seq<JointInfo>|
                        joints_match(joints, sk.view().1) ==> root_index(sk.view().0, joints, 0) == -1
                },
            },
    {
        let ghost raw = sk.view().1;
        let mut joints: Vec<JointInfo> = Vec::new();
        let mut i: usize = 0;
        while i < sk.joints.len()
            invariant
                i <= sk.joints@.len(),
                raw == sk.view().1,
                joints_match(joints@, raw.take(i as int)),
            decreases sk.joints@.len() - i,
        {
            let j = &sk.joints[i];
            joints.push(
                JointInfo {
                    name: j.name.clone(),
                    kind: joint_kind(j.kind_code),
                    parent: j.parent.clone(),
                    child: j.child.clone(),
                    mimic_target: clone_opt(&j.mimic_target),
                },
            );
            proof {
                assert forall|k: int| 0 <= k < joints@.len() implies {
                    let jj = #[trigger] joints@[k];
                    let r = raw.take(i + 1)[k];
                    &&& jj.name@ == r.0
                    &&& jj.kind == kind_of_code(r.1)
                    &&& jj.parent@ == r.2
                    &&& jj.child@ == r.3
                    &&& match jj.mimic_target {
                        Some(t) => r.4 == Some(t@),
                        None => r.4 is None,
                    }
                } by {
                    if k < i {
                        assert(raw.take(i + 1)[k] == raw.take(i as int)[k]);
                    }
                }
            }
            i = i + 1;
        }
        proof {
            assert(raw.take(raw.len() as int) =~= raw);
        }
        // The root: the first link that is no joint's child.
        let ghost lv = sk.view().0;
        let mut r: usize = 0;
        while r < sk.links.len() && find_joint_of_child(&joints, sk.links[r].0.as_str()).is_some()
            invariant
                r <= sk.links@.len(),
                lv == sk.view().0,
                root_index(lv, joints@, 0) == root_index(lv, joints@, r as int),
            decreases sk.links@.len() - r,
        {
            r = r + 1;
        }
        if r == sk.links.len() {
            proof {
                assert forall|js: Seq<JointInfo>| joints_match(js, sk.view().1) implies root_index(
                    sk.view().0,
                    js,
                    0,
                ) == -1 by {
                    lemma_root_index_same(lv, js, joints@, raw, 0);
                }
            }
            return Err(UrdfLoadError::NoRoot);
        }
        let root_link = sk.links[r].0.clone();
        // The drawn links.
        let mut links: Vec<UrdfLink> = Vec::new();
        let mut k: usize = 0;
        while k < sk.links.len()
            invariant
                k <= sk.links@.len(),
                mesh_ok@.len() == sk.links@.len(),
                URDF_LINK_BASE + sk.links@.len() <= u64::MAX,
                lv == sk.view().0,
                links_view(links@) == drawn_links(lv, mesh_ok@, k as int),
            decreases sk.links@.len() - k,
        {
            if mesh_ok[k] {
                let ghost before = links@;
                links.push(UrdfLink { name: sk.links[k].0.clone(), entity_id: EntityId(URDF_LINK_BASE + k as u64) });
                proof {
                    assert(links_view(links@) =~= links_view(before).push((lv[k as int].0, (URDF_LINK_BASE + k) as u64)));
                }
            }
            k = k + 1;
        }
        Ok(UrdfModel { root_link, links, joints, positions: Vec::new() })
    }
}

/// The joints from `link` up towards the root, at most `fuel` of them: the
/// joint whose child is the current link, then the same from its parent.
pub open spec fn chain_spec(joints: Seq<JointInfo>, link: Seq<char>, fuel: nat) -> Seq<int>
    decreases fuel,
{
    if fuel == 0 {
        Seq::empty()
    } else {
        let j = joint_of_child(joints, link);
        if j < 0 {
            Seq::empty()
        } else {
            seq![j] + chain_spec(joints, joints[j].parent@, (fuel - 1) as nat)
        }
    }
}

/// The longest chain walked before giving up on a cyclic description.
pub const MAX_CHAIN: usize = 1025;

/// The last entry of `s` named `n`, or `-1`.
pub open spec fn name_pos<V>(s: Seq<(Seq<char>, V)>, n: Seq<char>) -> int
    decreases s.len(),
{
    if s.len() == 0 {
        -1
    } else if s.last().0 == n {
        s.len() - 1
    } else {
        name_pos(s.drop_last(), n)
    }
}

pub open spec fn positions_view(p: Seq<(String, u64)>) -> Seq<(Seq<char>, u64)> {
    p.map_values(|e: (String, u64)| (e.0@, e.1))
}

/// The reported position (bits) of joint `n`, if any.
pub open spec fn position_of(p: Seq<(Seq<char>, u64)>, n: Seq<char>) -> Option<u64> {
    let k = name_pos(p, n);
    if k >= 0 {
        Some(p[k].1)
    } else {
        None
    }
}

proof fn lemma_name_pos<V>(s: Seq<(Seq<char>, V)>, n: Seq<char>)
    ensures
        -1 <= name_pos(s, n) < s.len(),
        name_pos(s, n) >= 0 ==> s[name_pos(s, n)].0 == n,
    decreases s.len(),
{
    if s.len() > 0 && s.last().0 != n {
        lemma_name_pos(s.drop_last(), n);
        if name_pos(s, n) >= 0 {
            assert(s[name_pos(s, n)] == s.drop_last()[name_pos(s, n)]);
        }
    }
}

/// The first joint named `n` among those that count (the last one for
/// their child), or `-1`.
pub open spec fn joint_named(joints: Seq<JointInfo>, n: Seq<char>, from: int) -> int
    decreases joints.len() - from,
{
    if from < 0 || from >= joints.len() {
        -1
    } else if joints[from].name@ == n && joint_of_child(joints, joints[from].child@) == from {
        from
    } else {
        joint_named(joints, n, from + 1)
    }
}

/// Where a joint's position comes from.
pub enum JointSource {
    /// Its own reported position.
    Direct(u64),
    /// `scale * q + bias` with `q` the reported position (bits) of the
    /// mimicked joint `target`, composing the `<mimic>` multipliers and
    /// offsets of `chain` in order (`scale = 1`, `bias = 0` initially; each
    /// step does `scale *= m`, `bias = m * bias + o`).
    Mimic { chain: Vec<usize>, target: u64 },
    /// No reported position to derive it from: zero.
    Zero,
}

/// The spec form of `JointSource`.
pub enum SourceSpec {
    Direct(u64),
    Mimic(Seq<int>, u64),
    Zero,
}

/// Following mimic joint `j` (at most `fuel` of them in all).
pub open spec fn mimic_from(
    joints: Seq<JointInfo>,
    p: Seq<(Seq<char>, u64)>,
    j: int,
    fuel: nat,
) -> SourceSpec
    decreases fuel,
{
    match joints[j].mimic_target {
        None => SourceSpec::Zero,
        Some(t) => match position_of(p, t@) {
            Some(q) => SourceSpec::Mimic(seq![j], q),
            None => {
                let nx = joint_named(joints, t@, 0);
                if nx < 0 || fuel <= 1 {
                    SourceSpec::Zero
                } else {
                    match mimic_from(joints, p, nx, (fuel - 1) as nat) {
                        SourceSpec::Mimic(c, q) => SourceSpec::Mimic(seq![j] + c, q),
                        other => other,
                    }
                }
            },
        },
    }
}

/// The longest mimic chain followed.
pub const MAX_MIMIC: usize = 17;

/// Where the position of joint `j` comes from: its reported position, else
/// the mimic chain (up to `MAX_MIMIC` joints), else zero.
pub open spec fn source_of(joints: Seq<JointInfo>, p: Seq<(Seq<char>, u64)>, j: int) -> SourceSpec {
    match position_of(p, joints[j].name@) {
        Some(q) => SourceSpec::Direct(q),
        None => mimic_from(joints, p, j, MAX_MIMIC as nat),
    }
}

impl JointSource {
    pub open spec fn view(&self) -> SourceSpec {
        match self {
            JointSource::Direct(q) => SourceSpec::Direct(*q),
            JointSource::Mimic { chain, target } => SourceSpec::Mimic(
                chain@.map_values(|i: usize| i as int),
                *target,
            ),
            JointSource::Zero => SourceSpec::Zero,
        }
    }
}

impl UrdfModel {
    /// The joints from `link` up to the root (see `chain_spec`), stopping
    /// after `MAX_CHAIN` joints on a cyclic description.
    pub fn chain_to_root(&self, link: &str) -> (r: Vec<usize>)
        ensures
            r@.map_values(|i: usize| i as int) == chain_spec(self.joints@, link@, MAX_CHAIN as nat),
    {
        let ghost js = self.joints@;
        let mut out: Vec<usize> = Vec::new();
        let mut cur: String = link.to_owned();
        let mut steps: usize = 0;
        proof {
            assert(out@.map_values(|i: usize| i as int) + chain_spec(js, cur@, (MAX_CHAIN - steps) as nat)
                =~= chain_spec(js, link@, MAX_CHAIN as nat));
        }
        while steps < MAX_CHAIN
            invariant
                js == self.joints@,
                steps <= MAX_CHAIN,
                out@.map_values(|i: usize| i as int) + chain_spec(js, cur@, (MAX_CHAIN - steps) as nat)
                    == chain_spec(js, link@, MAX_CHAIN as nat),
            decreases MAX_CHAIN - steps,
        {
            proof {
                lemma_joint_of_child(js, cur@);
            }
            match find_joint_of_child(&self.joints, cur.as_str()) {
                None => {
                    proof {
                        assert(chain_spec(js, cur@, (MAX_CHAIN - steps) as nat) =~= Seq::<int>::empty());
                        assert(out@.map_values(|i: usize| i as int) + Seq::<int>::empty() =~= out@.map_values(|i: usize| i as int));
                    }
                    return out;
                },
                Some(j) => {
                    let ghost before = out@;
                    let ghost rest = chain_spec(js, js[j as int].parent@, (MAX_CHAIN - steps - 1) as nat);
                    out.push(j);
                    cur = self.joints[j].parent.clone();
                    proof {
                        assert(out@.map_values(|i: usize| i as int) =~= before.map_values(|i: usize| i as int).push(j as int));
                        assert(before.map_values(|i: usize| i as int) + (seq![j as int] + rest) =~= out@.map_values(|i: usize| i as int) + rest);
                    }
                    steps = steps + 1;
                },
            }
        }
        proof {
            assert(chain_spec(js, cur@, 0) =~= Seq::<int>::empty());
            assert(out@.map_values(|i: usize| i as int) + Seq::<int>::empty() =~= out@.map_values(|i: usize| i as int));
        }
        out
    }

    /// The reported position (bits) of joint `name`.
    pub fn position(&self, name: &str) -> (r: Option<u64>)
        ensures
            r == position_of(positions_view(self.positions@), name@),
    {
        let ghost p0 = positions_view(self.positions@);
        let mut k = self.positions.len();
        proof {
            assert(p0.subrange(0, k as int) =~= p0);
        }
        while k > 0
            invariant
                k <= p0.len(),
                p0 == positions_view(self.positions@),
                name_pos(p0, name@) == name_pos(p0.subrange(0, k as int), name@),
            decreases k,
        {
            proof {
                let sp = p0.subrange(0, k as int);
                assert(sp.last() == p0[k - 1]);
                assert(sp.drop_last() =~= p0.subrange(0, k - 1));
            }
            if str_eq(self.positions[k - 1].0.as_str(), name) {
                return Some(self.positions[k - 1].1);
            }
            k = k - 1;
        }
        None
    }

    /// The first joint named `name` that counts for its child.
    fn find_joint_named(&self, name: &str) -> (r: Option<usize>)
        ensures
            match r {
                Some(i) => i == joint_named(self.joints@, name@, 0),
                None => joint_named(self.joints@, name@, 0) == -1,
            },
    {
        let mut i: usize = 0;
        while i < self.joints.len()
            invariant
                i <= self.joints@.len(),
                joint_named(self.joints@, name@, 0) == joint_named(self.joints@, name@, i as int),
            decreases self.joints@.len() - i,
        {
            if str_eq(self.joints[i].name.as_str(), name) {
                match find_joint_of_child(&self.joints, self.joints[i].child.as_str()) {
                    Some(c) => {
                        if c == i {
                            return Some(i);
                        }
                    },
                    None => {},
                }
            }
            i = i + 1;
        }
        None
    }

    /// Where the position of joint `j` comes from (see `source_of`).
    pub fn resolve_joint(&self, j: usize) -> (r: JointSource)
        requires
            j < self.joints@.len(),
        ensures
            r.view() == source_of(self.joints@, positions_view(self.positions@), j as int),
    {
        let ghost js = self.joints@;
        let ghost p = positions_view(self.positions@);
        if let Some(q) = self.position(self.joints[j].name.as_str()) {
            return JointSource::Direct(q);
        }
        let mut cur = j;
        let mut chain: Vec<usize> = Vec::new();
        let mut fuel: usize = MAX_MIMIC;
        proof {
            assert(chain@.map_values(|i: usize| i as int) =~= Seq::<int>::empty());
            assert(lift(Seq::empty(), mimic_from(js, p, j as int, MAX_MIMIC as nat)) == mimic_from(js, p, j as int, MAX_MIMIC as nat));
        }
        loop
            invariant
                js == self.joints@,
                p == positions_view(self.positions@),
                cur < js.len(),
                1 <= fuel <= MAX_MIMIC,
                source_of(js, p, j as int) == lift(chain@.map_values(|i: usize| i as int), mimic_from(js, p, cur as int, fuel as nat)),
            decreases fuel,
        {
            let t = match &self.joints[cur].mimic_target {
                None => {
                    return JointSource::Zero;
                },
                Some(t) => t,
            };
            let ghost before = chain@;
            chain.push(cur);
            proof {
                assert(chain@.map_values(|i: usize| i as int) =~= before.map_values(|i: usize| i as int).push(cur as int));
            }
            if let Some(q) = self.position(t.as_str()) {
                proof {
                    assert(before.map_values(|i: usize| i as int) + seq![cur as int] =~= chain@.map_values(|i: usize| i as int));
                }
                return JointSource::Mimic { chain, target: q };
            }
            let nx = match self.find_joint_named(t.as_str()) {
                None => {
                    return JointSource::Zero;
                },
                Some(nx) => nx,
            };
            if fuel <= 1 {
                return JointSource::Zero;
            }
            proof {
                lemma_joint_named_range(js, t@, 0);
                lemma_lift_append(before.map_values(|i: usize| i as int), cur as int, mimic_from(js, p, nx as int, (fuel - 1) as nat));
            }
            cur = nx;
            fuel = fuel - 1;
        }
    }

    /// Record reported joint positions (`f64` bits): each name paired with
    /// the position at the same index overwrites that joint's position.
    /// Extra names or positions are ignored.
    pub fn apply_joint_positions(&mut self, names: &Vec<String>, bits: &Vec<u64>)
        ensures
            final(self).root_link == old(self).root_link,
            final(self).links == old(self).links,
            final(self).joints == old(self).joints,
            forall|n: Seq<char>|
                #[trigger] position_of(positions_view(final(self).positions@), n) == match reported(
                    names@,
                    bits@,
                    n,
                    pairs(names@.len() as int, bits@.len() as int),
                ) {
                    Some(q) => Some(q),
                    None => position_of(positions_view(old(self).positions@), n),
                },
    {
        let ghost p0 = positions_view(self.positions@);
        let n = if names.len() < bits.len() {
            names.len()
        } else {
            bits.len()
        };
        let mut i: usize = 0;
        while i < n
            invariant
                i <= n,
                n == pairs(names@.len() as int, bits@.len() as int),
                self.root_link == old(self).root_link,
                self.links == old(self).links,
                self.joints == old(self).joints,
                p0 == positions_view(old(self).positions@),
                forall|m: Seq<char>|
                    #[trigger] position_of(positions_view(self.positions@), m) == match reported(
                        names@,
                        bits@,
                        m,
                        i as int,
                    ) {
                        Some(q) => Some(q),
                        None => position_of(p0, m),
                    },
            decreases n - i,
        {
            let ghost before = positions_view(self.positions@);
            self.set_position(names[i].as_str(), bits[i]);
            proof {
                assert forall|m: Seq<char>|
                    #[trigger] position_of(positions_view(self.positions@), m) == match reported(
                        names@,
                        bits@,
                        m,
                        i + 1,
                    ) {
                        Some(q) => Some(q),
                        None => position_of(p0, m),
                    } by {
                    assert(position_of(before, m) == match reported(names@, bits@, m, i as int) {
                        Some(q) => Some(q),
                        None => position_of(p0, m),
                    });
                }
            }
            i = i + 1;
        }
    }

    /// Overwrite (or add) the position of joint `name`.
    fn set_position(&mut self, name: &str, q: u64)
        ensures
            final(self).root_link == old(self).root_link,
            final(self).links == old(self).links,
            final(self).joints == old(self).joints,
            forall|m: Seq<char>|
                #[trigger] position_of(positions_view(final(self).positions@), m) == if m == name@ {
                    Some(q)
                } else {
                    position_of(positions_view(old(self).positions@), m)
                },
    {
        let ghost p0 = positions_view(self.positions@);
        let mut k = self.positions.len();
        let mut found = false;
        proof {
            assert(p0.subrange(0, k as int) =~= p0);
        }
        while k > 0 && !found
            invariant
                k <= p0.len(),
                p0 == positions_view(self.positions@),
                found ==> k < p0.len() && p0[k as int].0 == name@ && name_pos(p0, name@) == k,
                !found ==> name_pos(p0, name@) == name_pos(p0.subrange(0, k as int), name@),
            decreases k + if found { 0int } else { 1int },
        {
            proof {
                let sp = p0.subrange(0, k as int);
                assert(sp.last() == p0[k - 1]);
                assert(sp.drop_last() =~= p0.subrange(0, k - 1));
            }
            if str_eq(self.positions[k - 1].0.as_str(), name) {
                found = true;
            }
            k = k - 1;
        }
        proof {
            lemma_name_pos(p0, name@);
        }
        if found {
            self.positions.set(k, (name.to_owned(), q));
            proof {
                let p1 = positions_view(self.positions@);
                assert(p1 =~= p0.update(k as int, (name@, q)));
                assert forall|m: Seq<char>| #[trigger] position_of(p1, m) == if m == name@ {
                    Some(q)
                } else {
                    position_of(p0, m)
                } by {
                    lemma_name_pos_update(p0, k as int, name@, q, m);
                }
            }
        } else {
            self.positions.push((name.to_owned(), q));
            proof {
                let p1 = positions_view(self.positions@);
                assert(p1 =~= p0.push((name@, q)));
                assert forall|m: Seq<char>| #[trigger] position_of(p1, m) == if m == name@ {
                    Some(q)
                } else {
                    position_of(p0, m)
                } by {
                    assert(p1.drop_last() =~= p0);
                    lemma_name_pos(p0, m);
                    let t = name_pos(p0, m);
                    if m != name@ && t >= 0 {
                        assert(p1[t] == p0[t]);
                    }
                }
            }
        }
    }
}

/// The position reported for joint `n` among the first `k` pairs of
/// `names` and `bits` (the last pair naming `n` counts), if any.
pub open spec fn reported(names: Seq<String>, bits: Seq<u64>, n: Seq<char>, k: int) -> Option<u64>
    decreases k,
{
    if k <= 0 {
        None
    } else if names[k - 1]@ == n {
        Some(bits[k - 1])
    } else {
        reported(names, bits, n, k - 1)
    }
}

/// The number of pairs of two lists.
pub open spec fn pairs(a: int, b: int) -> int {
    if a < b {
        a
    } else {
        b
    }
}

/// Updating the entry at the position of its own name changes only that
/// name's lookup.
proof fn lemma_name_pos_update(p: Seq<(Seq<char>, u64)>, k: int, name: Seq<char>, q: u64, m: Seq<char>)
    requires
        0 <= k < p.len(),
        name_pos(p, name) == k,
    ensures
        position_of(p.update(k, (name, q)), m) == if m == name {
            Some(q)
        } else {
            position_of(p, m)
        },
    decreases p.len(),
{
    let u = p.update(k, (name, q));
    let pd = p.drop_last();
    let ud = u.drop_last();
    lemma_name_pos(p, name);
    lemma_name_pos(pd, m);
    lemma_name_pos(ud, m);
    if k == p.len() - 1 {
        assert(u.last() == (name, q));
        assert(ud =~= pd);
        if m != name {
            assert(p.last().0 == name);
            let t = name_pos(pd, m);
            if t >= 0 {
                assert(u[t] == pd[t]);
                assert(p[t] == pd[t]);
            }
        }
    } else {
        assert(p.last().0 != name);
        assert(u.last() == p.last());
        assert(ud =~= pd.update(k, (name, q)));
        assert(name_pos(pd, name) == k);
        lemma_name_pos_update(pd, k, name, q, m);
        if p.last().0 != m {
            let t = name_pos(ud, m);
            if t >= 0 {
                assert(u[t] == ud[t]);
            }
            let t2 = name_pos(pd, m);
            if t2 >= 0 {
                assert(p[t2] == pd[t2]);
            }
        }
    }
}

/// Prepend `c` to the chain of a mimic source.
pub open spec fn lift(c: Seq<int>, s: SourceSpec) -> SourceSpec {
    match s {
        SourceSpec::Mimic(c2, q) => SourceSpec::Mimic(c + c2, q),
        other => other,
    }
}

proof fn lemma_lift_append(c: Seq<int>, j: int, s: SourceSpec)
    ensures
        lift(c, match s {
            SourceSpec::Mimic(c2, q) => SourceSpec::Mimic(seq![j] + c2, q),
            other => other,
        }) == lift(c.push(j), s),
{
    match s {
        SourceSpec::Mimic(c2, q) => {
            assert(c + (seq![j] + c2) =~= c.push(j) + c2);
        },
        _ => {},
    }
}

proof fn lemma_joint_named_range(joints: Seq<JointInfo>, n: Seq<char>, from: int)
    requires
        0 <= from,
    ensures
        -1 <= joint_named(joints, n, from) < joints.len(),
    decreases joints.len() - from,
{
    if from < joints.len() {
        lemma_joint_named_range(joints, n, from + 1);
    }
}

/// The root does not depend on how the joints' types were decoded.
proof fn lemma_root_index_same(
    links: Seq<(Seq<char>, usize)>,
    a: Seq<JointInfo>,
    b: Seq<JointInfo>,
    raw: Seq<JointView>,
    from: int,
)
    requires
        joints_match(a, raw),
        joints_match(b, raw),
        0 <= from,
    ensures
        root_index(links, a, from) == root_index(links, b, from),
    decreases links.len() - from,
{
    if from < links.len() {
        lemma_same_children(a, b, raw, links[from].0);
        lemma_root_index_same(links, a, b, raw, from + 1);
    }
}

proof fn lemma_same_children(a: Seq<JointInfo>, b: Seq<JointInfo>, raw: Seq<JointView>, link: Seq<char>)
    requires
        joints_match(a, raw),
        joints_match(b, raw),
    ensures
        joint_of_child(a, link) == joint_of_child(b, link),
    decreases a.len(),
{
    if a.len() > 0 {
        assert(a.last().child@ == raw.last().3);
        assert(b.last().child@ == raw.last().3);
        let ra = raw.drop_last();
        assert(joints_match(a.drop_last(), ra)) by {
            assert forall|i: int| 0 <= i < a.drop_last().len() implies {
                let j = #[trigger] a.drop_last()[i];
                let r = ra[i];
                &&& j.name@ == r.0
                &&& j.kind == kind_of_code(r.1)
                &&& j.parent@ == r.2
                &&& j.child@ == r.3
                &&& match j.mimic_target {
                    Some(t) => r.4 == Some(t@),
                    None => r.4 is None,
                }
            } by {
                assert(a.drop_last()[i] == a[i]);
            }
        }
        assert(joints_match(b.drop_last(), ra)) by {
            assert forall|i: int| 0 <= i < b.drop_last().len() implies {
                let j = #[trigger] b.drop_last()[i];
                let r = ra[i];
                &&& j.name@ == r.0
                &&& j.kind == kind_of_code(r.1)
                &&& j.parent@ == r.2
                &&& j.child@ == r.3
                &&& match j.mimic_target {
                    Some(t) => r.4 == Some(t@),
                    None => r.4 is None,
                }
            } by {
                assert(b.drop_last()[i] == b[i]);
            }
        }
        lemma_same_children(a.drop_last(), b.drop_last(), ra, link);
    }
}

/// A joint's position source, case by case: a reported joint reads its own
/// position; an unreported joint that mimics a reported one follows a chain
/// of just itself to that position; an unreported joint that mimics nothing
/// is zero.
pub proof fn lemma_joint_source_cases(joints: Seq<JointInfo>, p: Seq<(Seq<char>, u64)>, j: int)
    requires
        0 <= j < joints.len(),
    ensures
        position_of(p, joints[j].name@) matches Some(q) ==> source_of(joints, p, j) == SourceSpec::Direct(q),
        position_of(p, joints[j].name@) is None && joints[j].mimic_target is None ==> source_of(joints, p, j)
            == SourceSpec::Zero,
        position_of(p, joints[j].name@) is None && (joints[j].mimic_target matches Some(t) && position_of(
            p,
            t@,
        ) is Some) ==> source_of(joints, p, j) == SourceSpec::Mimic(
            seq![j],
            position_of(p, joints[j].mimic_target->Some_0@)->Some_0,
        ),
{
}

/// The shape of a mimic chain: it starts at the joint asked about; each
/// joint in it mimics an unreported joint, which is the next one in the
/// chain, until the last, which mimics the reported joint whose position
/// the chain ends on.
pub proof fn lemma_mimic_chain_shape(joints: Seq<JointInfo>, p: Seq<(Seq<char>, u64)>, j: int, fuel: nat)
    requires
        0 <= j < joints.len(),
        mimic_from(joints, p, j, fuel) is Mimic,
    ensures
        ({
            let c = mimic_from(joints, p, j, fuel)->Mimic_0;
            let q = mimic_from(joints, p, j, fuel)->Mimic_1;
            &&& c.len() >= 1
            &&& c[0] == j
            &&& forall|k: int| 0 <= k < c.len() ==> 0 <= #[trigger] c[k] < joints.len()
            &&& joints[c.last()].mimic_target matches Some(t) && position_of(p, t@) == Some(q)
            &&& forall|k: int|
                0 <= k < c.len() - 1 ==> (joints[#[trigger] c[k]].mimic_target matches Some(t) && position_of(
                    p,
                    t@,
                ) is None && c[k + 1] == joint_named(joints, t@, 0))
        }),
    decreases fuel,
{
    let t = joints[j].mimic_target->Some_0;
    if position_of(p, t@) is None {
        let nx = joint_named(joints, t@, 0);
        lemma_joint_named_range(joints, t@, 0);
        let f1 = (fuel - 1) as nat;
        lemma_mimic_chain_shape(joints, p, nx, f1);
        let c2 = mimic_from(joints, p, nx, f1)->Mimic_0;
        let c = seq![j] + c2;
        assert(mimic_from(joints, p, j, fuel)->Mimic_0 == c);
        assert(c.last() == c2.last());
        assert forall|k: int| 0 <= k < c.len() implies 0 <= #[trigger] c[k] < joints.len() by {
            if k > 0 {
                assert(c[k] == c2[k - 1]);
            }
        }
        assert forall|k: int| 0 <= k < c.len() - 1 implies (joints[#[trigger] c[k]].mimic_target matches Some(tt)
            && position_of(p, tt@) is None && c[k + 1] == joint_named(joints, tt@, 0)) by {
            if k > 0 {
                assert(c[k] == c2[k - 1]);
                assert(c[k + 1] == c2[k]);
            } else {
                assert(c[1] == c2[0]);
            }
        }
    }
}

} // verus!
