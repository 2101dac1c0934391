//! Role-driven choice of what each pod steers toward, and the ranking of
//! opponents that an attacking pod harasses.
use vstd::prelude::*;
use crate::geometry::{
    diff_of, dist_sq, halved_of, in_field, inner, neg_of, norm_sq, rescaled_of, sum_of, Vector2,
};
use crate::pod::{Pod, Role, POD_RADIUS};
use crate::track::Track;

verus! {

/// Squared pod radius: the length of the outward bias of a target.
pub const POD_RADIUS_SQ: u64 = 160000;

/// Every opponent is well formed and heads toward a waypoint of the track.
pub open spec fn valid_opponents(opponents: Seq<Pod>, wps: Seq<Vector2>) -> bool {
    forall|j: int|
        0 <= j < opponents.len() ==> {
            &&& (#[trigger] opponents[j]).wf()
            &&& opponents[j].checkpoint_idx < wps.len()
        }
}

/// Squared distance from an opponent to the waypoint it heads toward.
pub open spec fn dist_to_goal(p: Pod, wps: Seq<Vector2>) -> int {
    dist_sq(p.pos, wps[p.checkpoint_idx as int])
}

/// `i` is the opponent to harass: it has the highest lap; among those on that
/// lap it has the highest waypoint index; among those on both it is closest
/// to that waypoint; and it is the first such one.
pub open spec fn is_leader(opponents: Seq<Pod>, wps: Seq<Vector2>, i: int) -> bool {
    &&& 0 <= i < opponents.len()
    &&& forall|j: int| 0 <= j < opponents.len() ==> #[trigger] opponents[j].lap <= opponents[i].lap
    &&& forall|j: int|
        0 <= j < opponents.len() && #[trigger] opponents[j].lap == opponents[i].lap
            ==> opponents[j].checkpoint_idx <= opponents[i].checkpoint_idx
    &&& forall|j: int|
        0 <= j < opponents.len() && #[trigger] opponents[j].lap == opponents[i].lap
            && opponents[j].checkpoint_idx == opponents[i].checkpoint_idx
            ==> dist_to_goal(opponents[i], wps) <= dist_to_goal(opponents[j], wps)
    &&& forall|j: int|
        0 <= j < i && #[trigger] opponents[j].lap == opponents[i].lap
            && opponents[j].checkpoint_idx == opponents[i].checkpoint_idx
            ==> dist_to_goal(opponents[i], wps) < dist_to_goal(opponents[j], wps)
}

/// `a` is strictly ahead of `b` in the ranking.
pub open spec fn ranks_above(a: Pod, b: Pod, wps: Seq<Vector2>) -> bool {
    ||| a.lap > b.lap
    ||| a.lap == b.lap && a.checkpoint_idx > b.checkpoint_idx
    ||| a.lap == b.lap && a.checkpoint_idx == b.checkpoint_idx && dist_to_goal(a, wps)
        < dist_to_goal(b, wps)
}

fn goal_distance(p: &Pod, track: &Track) -> (r: i64)
    requires
        track.wf(),
        p.wf(),
        p.checkpoint_idx < track.waypoints@.len(),
    ensures
        r == dist_to_goal(*p, track.waypoints@),
{
    let w = track.waypoint(p.checkpoint_idx);
    assert(in_field(w));
    let d = p.pos.sub(w);
    d.norm_squared()
}

/// Picks the opponent to harass; see `is_leader`.
pub fn prioritize_opponent(opponents: &Vec<Pod>, track: &Track) -> (r: usize)
    requires
        opponents@.len() >= 1,
        track.wf(),
        valid_opponents(opponents@, track.waypoints@),
    ensures
        is_leader(opponents@, track.waypoints@, r as int),
{
    let mut best: usize = 0;
    let mut best_dist = goal_distance(&opponents[0], track);
    let mut k: usize = 1;
    while k < opponents.len()
        invariant
            track.wf(),
            valid_opponents(opponents@, track.waypoints@),
            1 <= k <= opponents@.len(),
            best < k,
            best_dist == dist_to_goal(opponents@[best as int], track.waypoints@),
            forall|j: int|
                0 <= j < k ==> !ranks_above(#[trigger] opponents@[j], opponents@[best as int], track.waypoints@),
            forall|j: int|
                0 <= j < best ==> ranks_above(opponents@[best as int], #[trigger] opponents@[j], track.waypoints@),
        decreases opponents@.len() - k,
    {
        let c = &opponents[k];
        let b = &opponents[best];
        let d = goal_distance(c, track);
        let ahead = c.lap > b.lap || (c.lap == b.lap && c.checkpoint_idx > b.checkpoint_idx) || (
        c.lap == b.lap && c.checkpoint_idx == b.checkpoint_idx && d < best_dist);
        if ahead {
            best = k;
            best_dist = d;
        }
        k = k + 1;
    }
    let ghost s = opponents@;
    assert forall|j: int| 0 <= j < s.len() && #[trigger] s[j].lap == s[best as int].lap
        && s[j].checkpoint_idx == s[best as int].checkpoint_idx
        && j < best implies dist_to_goal(s[best as int], track.waypoints@) < dist_to_goal(s[j], track.waypoints@) by {
        assert(ranks_above(s[best as int], s[j], track.waypoints@));
    }
    assert forall|j: int| 0 <= j < s.len() && #[trigger] s[j].lap == s[best as int].lap
        implies s[j].checkpoint_idx <= s[best as int].checkpoint_idx by {
        assert(!ranks_above(s[j], s[best as int], track.waypoints@));
    }
    assert forall|j: int| 0 <= j < s.len() implies #[trigger] s[j].lap <= s[best as int].lap by {
        assert(!ranks_above(s[j], s[best as int], track.waypoints@));
    }
    best
}

/// Index of the waypoint after waypoint `i` on a loop of `wps`.
pub open spec fn next_waypoint(wps: Seq<Vector2>, i: int) -> int {
    (i + 1) % (wps.len() as int)
}

/// Where a racing pod aims: its current waypoint, pushed one pod radius
/// along the leg toward the following waypoint.
pub open spec fn racing_target_of(pod: Pod, wps: Seq<Vector2>) -> Vector2 {
    let i = pod.checkpoint_idx as int;
    let leg = diff_of(wps[next_waypoint(wps, i)], wps[i]);
    sum_of(wps[i], rescaled_of(leg, POD_RADIUS_SQ as int))
}

/// The angle between `a` and `b` has a cosine above 0.8, that is
/// `a . b > 0.8 * |a| * |b|`, squared out exactly. False when either is zero.
pub open spec fn aimed_at(a: Vector2, b: Vector2) -> bool {
    &&& inner(a, b) > 0
    &&& 25 * (inner(a, b) * inner(a, b)) > 16 * (norm_sq(a) * norm_sq(b))
}

/// Where an attacking pod aims to harass `opp`: when the opponent already
/// lies ahead along the pod's velocity, the midpoint of the opponent's
/// current leg; otherwise the opponent's next position pushed one pod radius
/// toward the waypoint it heads for.
pub open spec fn attack_target_of(pod: Pod, opp: Pod, wps: Seq<Vector2>) -> Vector2 {
    let c = opp.checkpoint_idx as int;
    if aimed_at(diff_of(opp.pos, pod.pos), pod.vel) {
        sum_of(wps[c], halved_of(diff_of(wps[next_waypoint(wps, c)], wps[c])))
    } else {
        sum_of(sum_of(opp.pos, opp.vel), rescaled_of(diff_of(wps[c], opp.pos), POD_RADIUS_SQ as int))
    }
}

/// What `pod` steers toward, and the velocity of that target relative to
/// the pod.
pub open spec fn target_of(pod: Pod, opponents: Seq<Pod>, wps: Seq<Vector2>) -> (Vector2, Vector2) {
    match pod.role {
        Role::Racer => (racing_target_of(pod, wps), neg_of(pod.vel)),
        Role::Attacker => {
            let opp = opponents[choose|i: int| is_leader(opponents, wps, i)];
            (attack_target_of(pod, opp, wps), diff_of(opp.vel, pod.vel))
        },
    }
}

/// Target points lie within this bound.
pub open spec fn target_bounded(t: Vector2) -> bool {
    crate::geometry::bounded(t, 0x40_0000)
}

/// Exact test of `aimed_at` for vectors of moderate size.
fn is_aimed(a: Vector2, b: Vector2) -> (r: bool)
    requires
        crate::geometry::bounded(a, 0x20_0000),
        crate::geometry::bounded(b, 0x20_0000),
    ensures
        r == aimed_at(a, b),
{
    let d = a.inner_product(b);
    let na = a.norm_squared();
    let nb = b.norm_squared();
    proof {
        crate::geometry::lemma_product_bound(a.x as int, b.x as int, 0x20_0000);
        crate::geometry::lemma_product_bound(a.y as int, b.y as int, 0x20_0000);
        crate::geometry::lemma_product_bound(a.x as int, a.x as int, 0x20_0000);
        crate::geometry::lemma_product_bound(a.y as int, a.y as int, 0x20_0000);
        crate::geometry::lemma_product_bound(b.x as int, b.x as int, 0x20_0000);
        crate::geometry::lemma_product_bound(b.y as int, b.y as int, 0x20_0000);
    }
    if d <= 0 {
        return false;
    }
    assert(d * d <= 0x100_0000_0000_0000_0000_0000) by (nonlinear_arith)
        requires
            0 < d <= 0x800_0000_0000,
    ;
    assert(0 <= na * nb <= 0x100_0000_0000_0000_0000_0000) by (nonlinear_arith)
        requires
            0 <= na <= 0x800_0000_0000,
            0 <= nb <= 0x800_0000_0000,
    ;
    let d2 = (d as i128) * (d as i128);
    let n2 = (na as i128) * (nb as i128);
    25 * d2 > 16 * n2
}

impl Pod {
    /// Target of a racing pod; see `racing_target_of`.
    pub fn racing_target(&self, track: &Track) -> (r: Vector2)
        requires
            self.wf(),
            track.wf(),
            self.checkpoint_idx < track.waypoints@.len(),
        ensures
            r == racing_target_of(*self, track.waypoints@),
            target_bounded(r),
    {
        let i = self.checkpoint_idx;
        let w = track.waypoint(i);
        let leg = track.segment(i);
        assert(in_field(w) && in_field(track.waypoints@[track.next_of(i as int)]));
        let bias = leg.rescaled(POD_RADIUS_SQ);
        assert(-400 <= bias.x <= 400 && -400 <= bias.y <= 400) by (nonlinear_arith)
            requires
                bias.x * bias.x <= 160000,
                bias.y * bias.y <= 160000,
        ;
        w.add(bias)
    }

    /// Target of an attacking pod that harasses `opp`; see `attack_target_of`.
    pub fn attack_target(&self, opp: &Pod, track: &Track) -> (r: Vector2)
        requires
            self.wf(),
            opp.wf(),
            track.wf(),
            opp.checkpoint_idx < track.waypoints@.len(),
        ensures
            r == attack_target_of(*self, *opp, track.waypoints@),
            target_bounded(r),
    {
        let c = opp.checkpoint_idx;
        let w = track.waypoint(c);
        assert(in_field(w) && in_field(track.waypoints@[track.next_of(c as int)]));
        let to_opp = opp.pos.sub(self.pos);
        if is_aimed(to_opp, self.vel) {
            let leg = track.segment(c);
            w.add(leg.halved())
        } else {
            let ahead = opp.pos.add(opp.vel);
            let bias = w.sub(opp.pos).rescaled(POD_RADIUS_SQ);
            assert(-400 <= bias.x <= 400 && -400 <= bias.y <= 400) by (nonlinear_arith)
                requires
                    bias.x * bias.x <= 160000,
                    bias.y * bias.y <= 160000,
            ;
            ahead.add(bias)
        }
    }

    /// The point this pod steers toward this turn and that point's velocity
    /// relative to the pod: a racer aims at its biased waypoint, which stands
    /// still; an attacker aims at the opponent that `prioritize_opponent` picks.
    pub fn acquire_target(&self, track: &Track, opponents: &Vec<Pod>) -> (r: (Vector2, Vector2))
        requires
            self.wf(),
            track.wf(),
            self.checkpoint_idx < track.waypoints@.len(),
            valid_opponents(opponents@, track.waypoints@),
            self.role == Role::Attacker ==> opponents@.len() >= 1,
        ensures
            r == target_of(*self, opponents@, track.waypoints@),
            target_bounded(r.0),
            crate::geometry::bounded(r.1, 0x20_0000),
    {
        match self.role {
            Role::Racer => (self.racing_target(track), self.vel.neg()),
            Role::Attacker => {
                let i = prioritize_opponent(opponents, track);
                proof {
                    lemma_leader_unique(opponents@, track.waypoints@, i as int);
                }
                let opp = &opponents[i];
                (self.attack_target(opp, track), opp.vel.sub(self.vel))
            },
        }
    }
}

/// At most one index satisfies `is_leader`.
pub proof fn lemma_leader_unique(opponents: Seq<Pod>, wps: Seq<Vector2>, i: int)
    requires
        is_leader(opponents, wps, i),
    ensures
        (choose|k: int| is_leader(opponents, wps, k)) == i,
{
    let k = choose|k: int| is_leader(opponents, wps, k);
    assert(is_leader(opponents, wps, k));
    assert(opponents[k].lap <= opponents[i].lap && opponents[i].lap <= opponents[k].lap);
    assert(opponents[k].checkpoint_idx <= opponents[i].checkpoint_idx);
    assert(opponents[i].checkpoint_idx <= opponents[k].checkpoint_idx);
    if k < i {
        assert(dist_to_goal(opponents[i], wps) < dist_to_goal(opponents[k], wps));
        assert(dist_to_goal(opponents[k], wps) <= dist_to_goal(opponents[i], wps));
    } else if i < k {
        assert(dist_to_goal(opponents[k], wps) < dist_to_goal(opponents[i], wps));
        assert(dist_to_goal(opponents[i], wps) <= dist_to_goal(opponents[k], wps));
    }
}

} // verus!
