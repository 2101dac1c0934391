//! Collision guard and the per-turn command.
use vstd::prelude::*;
use crate::geometry::{diff_of, inner, norm_sq, sum_of, Vector2};
use crate::pod::{Action, Pod, MAX_THRUST};
use crate::targeting::racing_target_of;
use crate::track::Track;

verus! {

/// Square of the safety radius `2.2 * POD_RADIUS = 880`.
pub const SHIELD_RADIUS_SQ: i64 = 774400;

/// Every pod of the sequence is well formed.
pub open spec fn all_wf(pods: Seq<Pod>) -> bool {
    forall|j: int| 0 <= j < pods.len() ==> (#[trigger] pods[j]).wf()
}

/// Where `opp` will be relative to `pod` after one more turn of both.
pub open spec fn closing_of(pod: Pod, opp: Pod) -> Vector2 {
    diff_of(sum_of(opp.pos, opp.vel), sum_of(pod.pos, pod.vel))
}

/// `opp` will be ahead of `pod`'s heading and within the safety radius.
pub open spec fn threatens(pod: Pod, opp: Pod) -> bool {
    &&& inner(pod.heading, closing_of(pod, opp)) > 0
    &&& norm_sq(closing_of(pod, opp)) <= SHIELD_RADIUS_SQ
}

/// Some opponent threatens `pod`.
pub open spec fn under_threat(pod: Pod, opponents: Seq<Pod>) -> bool {
    exists|j: int| 0 <= j < opponents.len() && threatens(pod, #[trigger] opponents[j])
}

/// The command that goes with a computed thrust: the shield when some
/// opponent threatens the pod, the thrust otherwise.
pub open spec fn command_of(pod: Pod, opponents: Seq<Pod>, thrust: u8) -> Action {
    if under_threat(pod, opponents) {
        Action::Shield
    } else {
        Action::Thrust(thrust)
    }
}

impl Pod {
    /// Whether `opp` threatens this pod; see `threatens`.
    pub fn is_threatened_by(&self, opp: &Pod) -> (r: bool)
        requires
            self.wf(),
            opp.wf(),
        ensures
            r == threatens(*self, *opp),
    {
        let closing = opp.pos.add(opp.vel).sub(self.pos.add(self.vel));
        self.heading.inner_product(closing) > 0 && closing.norm_squared() <= SHIELD_RADIUS_SQ
    }

    /// Whether some opponent threatens this pod.
    pub fn shield_needed(&self, opponents: &Vec<Pod>) -> (r: bool)
        requires
            self.wf(),
            all_wf(opponents@),
        ensures
            r == under_threat(*self, opponents@),
    {
        let mut k: usize = 0;
        while k < opponents.len()
            invariant
                self.wf(),
                all_wf(opponents@),
                k <= opponents@.len(),
                forall|j: int| 0 <= j < k ==> !threatens(*self, #[trigger] opponents@[j]),
            decreases opponents@.len() - k,
        {
            if self.is_threatened_by(&opponents[k]) {
                return true;
            }
            k = k + 1;
        }
        false
    }

    /// Records `thrust` as this turn's thrust and returns the command: the
    /// shield, which discards the thrust, when some opponent threatens the
    /// pod, the thrust otherwise.
    pub fn command(&mut self, opponents: &Vec<Pod>, thrust: u8) -> (r: Action)
        requires
            old(self).wf(),
            all_wf(opponents@),
            thrust <= MAX_THRUST,
        ensures
            r == command_of(*old(self), opponents@, thrust),
            *final(self) == (Pod { accel: thrust, ..*old(self) }),
            final(self).wf(),
    {
        let shield = self.shield_needed(opponents);
        self.accel = thrust;
        if shield {
            Action::Shield
        } else {
            Action::Thrust(thrust)
        }
    }

    /// The opening command of a racing pod: a boost toward its biased
    /// current waypoint, whatever the geometry.
    pub fn opening(&self, track: &Track) -> (r: (Vector2, Action))
        requires
            self.wf(),
            track.wf(),
            self.checkpoint_idx < track.waypoints@.len(),
        ensures
            r == (racing_target_of(*self, track.waypoints@), Action::Boost),
    {
        (self.racing_target(track), Action::Boost)
    }
}

} // verus!
