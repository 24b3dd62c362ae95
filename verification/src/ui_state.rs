//! State the side panel and its windows keep across frames.

use std::collections::HashMap;
use vstd::prelude::*;

use crate::color::{hex_rgb, hex_text, hex_to_rgb8, rgb8_to_hex};
use crate::ids::EntityId;

verus! {

broadcast use vstd::std_specs::hash::group_hash_axioms;

/// The "Add topics" window.
pub struct TopicDiscovererState {
    pub open: bool,
    /// One-line status under the topic tree.
    pub status: Option<String>,
}

impl Default for TopicDiscovererState {
    fn default() -> (r: Self)
        ensures
            !r.open,
            r.status is None,
    {
        TopicDiscovererState { open: false, status: None }
    }
}

/// The "Save config" window.
pub struct SaveConfigState {
    pub open: bool,
    /// Configuration name typed by the user (no extension).
    pub name: String,
    /// One-line status under the Save button.
    pub status: Option<String>,
}

impl Default for SaveConfigState {
    fn default() -> (r: Self)
        ensures
            !r.open,
            r.name@ == Seq::<char>::empty(),
            r.status is None,
    {
        SaveConfigState { open: false, name: String::new(), status: None }
    }
}

/// The "Load config" window.
pub struct LoadConfigState {
    pub open: bool,
    /// Path typed by the user.
    pub path: String,
    /// One-line status of the last load attempt.
    pub status: Option<String>,
}

impl Default for LoadConfigState {
    fn default() -> (r: Self)
        ensures
            !r.open,
            r.path@ == Seq::<char>::empty(),
            r.status is None,
    {
        LoadConfigState { open: false, path: String::new(), status: None }
    }
}

/// The goal tool: when armed, the next drag in the viewport sets a pose
/// published on `topic`.
pub struct GoalToolState {
    pub topic: String,
    pub armed: bool,
}

impl Default for GoalToolState {
    fn default() -> (r: Self)
        ensures
            r.topic@ == "/goal_pose"@,
            !r.armed,
    {
        GoalToolState { topic: "/goal_pose".to_owned(), armed: false }
    }
}

/// The pose-estimate tool (`/initialpose`).
pub struct PoseEstimateToolState {
    pub topic: String,
    pub armed: bool,
}

impl Default for PoseEstimateToolState {
    fn default() -> (r: Self)
        ensures
            r.topic@ == "/initialpose"@,
            !r.armed,
    {
        PoseEstimateToolState { topic: "/initialpose".to_owned(), armed: false }
    }
}

/// The tool states `(goal armed, pose-estimate armed)` after a click on
/// "Set Goal": the goal tool flips, and arming it disarms the other.
pub open spec fn after_goal_click(goal: bool, pose: bool) -> (bool, bool) {
    (!goal, pose && goal)
}

/// The same for a click on "Set Pose".
pub open spec fn after_pose_click(goal: bool, pose: bool) -> (bool, bool) {
    (goal && pose, !pose)
}

/// The "Set Goal" button (see `after_goal_click`).
pub fn toggle_goal_tool(goal: &mut GoalToolState, pose: &mut PoseEstimateToolState)
    ensures
        (final(goal).armed, final(pose).armed) == after_goal_click(old(goal).armed, old(pose).armed),
        final(goal).topic == old(goal).topic,
        final(pose).topic == old(pose).topic,
{
    goal.armed = !goal.armed;
    if goal.armed {
        pose.armed = false;
    }
}

/// The "Set Pose" button (see `after_pose_click`).
pub fn toggle_pose_tool(goal: &mut GoalToolState, pose: &mut PoseEstimateToolState)
    ensures
        (final(goal).armed, final(pose).armed) == after_pose_click(old(goal).armed, old(pose).armed),
        final(goal).topic == old(goal).topic,
        final(pose).topic == old(pose).topic,
{
    pose.armed = !pose.armed;
    if pose.armed {
        goal.armed = false;
    }
}

/// After a click on either tool button, the goal tool and the
/// pose-estimate tool are never both armed, so a drag in the viewport has
/// one meaning.
pub proof fn lemma_tools_exclusive(goal: bool, pose: bool)
    ensures
        !(after_goal_click(goal, pose).0 && after_goal_click(goal, pose).1),
        !(after_pose_click(goal, pose).0 && after_pose_click(goal, pose).1),
{
}

/// The selected entity of the entities panel.
pub struct SelectionState {
    pub selected: Option<EntityId>,
}

impl Default for SelectionState {
    fn default() -> (r: Self)
        ensures
            r.selected is None,
    {
        SelectionState { selected: None }
    }
}

/// The floating "Edit style" popup.
pub struct EditPopupState {
    pub open: bool,
    pub target: Option<EntityId>,
}

impl Default for EditPopupState {
    fn default() -> (r: Self)
        ensures
            !r.open,
            r.target is None,
    {
        EditPopupState { open: false, target: None }
    }
}

/// In-progress color texts of the style editor, per entity.
pub struct EntityEditState {
    pub hex: HashMap<u64, String>,
}

impl Default for EntityEditState {
    fn default() -> (r: Self)
        ensures
            r.hex@ == Map::<u64, String>::empty(),
    {
        EntityEditState { hex: HashMap::new() }
    }
}

impl EntityEditState {
    /// The text being edited for entity `id`, started from `canonical` (the
    /// entity's current color) when there is none yet.
    pub fn buffer(&mut self, id: EntityId, canonical: &str) -> (r: String)
        ensures
            final(self).hex@.contains_key(id.0),
            old(self).hex@.contains_key(id.0) ==> final(self).hex@ == old(self).hex@
                && r@ == old(self).hex@[id.0]@,
            !old(self).hex@.contains_key(id.0) ==> final(self).hex@.remove(id.0)
                == old(self).hex@ && r@ == canonical@ && final(self).hex@[id.0]@ == canonical@,
    {
        match self.hex.get(&id.0) {
            Some(s) => s.clone(),
            None => {
                self.hex.insert(id.0, canonical.to_owned());
                proof {
                    assert(self.hex@.remove(id.0) =~= old(self).hex@);
                }
                canonical.to_owned()
            },
        }
    }

    /// Replace the text being edited for entity `id`.
    pub fn set_buffer(&mut self, id: EntityId, text: &str)
        ensures
            final(self).hex@.contains_key(id.0),
            final(self).hex@[id.0]@ == text@,
            final(self).hex@.remove(id.0) == old(self).hex@.remove(id.0),
    {
        self.hex.insert(id.0, text.to_owned());
        proof {
            assert(self.hex@.remove(id.0) =~= old(self).hex@.remove(id.0));
        }
    }

    /// Commit the text typed for entity `id`: a valid color is returned
    /// and the text is rewritten in canonical `#RRGGBB` form; anything else
    /// snaps the text back to `canonical`.
    pub fn commit(&mut self, id: EntityId, text: &str, canonical: &str) -> (r: Option<(u8, u8, u8)>)
        ensures
            r == hex_rgb(text@),
            final(self).hex@.contains_key(id.0),
            final(self).hex@.remove(id.0) == old(self).hex@.remove(id.0),
            final(self).hex@[id.0]@ == match r {
                Some((red, green, blue)) => hex_text(red, green, blue),
                None => canonical@,
            },
    {
        let parsed = hex_to_rgb8(text);
        match parsed {
            Some((red, green, blue)) => {
                let t = rgb8_to_hex(red, green, blue);
                self.set_buffer(id, t.as_str());
            },
            None => {
                self.set_buffer(id, canonical);
            },
        }
        parsed
    }
}

} // verus!
