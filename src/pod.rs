//! Kinematic state of one pod, and the commands it can be given.
use vstd::prelude::*;
use crate::geometry::{in_field, Vector2};

verus! {

/// Ceiling of the thrust command.
pub const MAX_THRUST: u8 = 100;

/// Radius of a pod, in track units.
pub const POD_RADIUS: i64 = 400;

/// Length of the heading vector that stands for a unit heading: a heading
/// at angle `a` is `(round(cos a * HEADING_SCALE), round(sin a * HEADING_SCALE))`.
/// Only its direction is ever used.
pub const HEADING_SCALE: i64 = 10000;

/// Targeting policy of a pod, fixed for its lifetime.
#[derive(Clone, Copy, Debug, PartialEq, Eq, Structural)]
pub enum Role {
    Racer,
    Attacker,
}

/// Propulsion command for one turn.
#[derive(Clone, Copy, Debug, PartialEq, Eq, Structural)]
pub enum Action {
    Thrust(u8),
    Boost,
    Shield,
}

/// One vehicle's state for the current turn.
#[derive(Clone, Copy, Debug, PartialEq, Eq, Structural)]
pub struct Pod {
    pub pos: Vector2,
    pub vel: Vector2,
    /// Thrust commanded on the last turn, `0..=MAX_THRUST`.
    pub accel: u8,
    /// Direction the pod faces, as a vector of length about `HEADING_SCALE`.
    pub heading: Vector2,
    /// Index of the waypoint the pod is heading toward.
    pub checkpoint_idx: usize,
    /// Number of waypoint-index changes seen so far.
    pub lap: u32,
    pub role: Role,
}

impl Pod {
    /// Position, velocity and heading lie within the field, and the last
    /// thrust does not exceed the ceiling.
    pub open spec fn wf(&self) -> bool {
        &&& in_field(self.pos)
        &&& in_field(self.vel)
        &&& in_field(self.heading)
        &&& self.accel <= MAX_THRUST
    }

    pub fn new(
        x: i64,
        y: i64,
        vx: i64,
        vy: i64,
        heading: Vector2,
        checkpoint_idx: usize,
        role: Role,
    ) -> (r: Pod)
        ensures
            r.pos == (Vector2 { x: x, y: y }),
            r.vel == (Vector2 { x: vx, y: vy }),
            r.heading == heading,
            r.accel == MAX_THRUST,
            r.checkpoint_idx == checkpoint_idx,
            r.lap == 0,
            r.role == role,
    {
        Pod {
            pos: Vector2::new(x, y),
            vel: Vector2::new(vx, vy),
            accel: MAX_THRUST,
            heading,
            checkpoint_idx,
            lap: 0,
            role,
        }
    }

    /// An attacking pod at rest at the origin, facing along the x axis.
    pub fn attacker() -> (r: Pod)
        ensures
            r.wf(),
            r.pos == (Vector2 { x: 0, y: 0 }),
            r.vel == (Vector2 { x: 0, y: 0 }),
            r.heading == (Vector2 { x: HEADING_SCALE, y: 0 }),
            r.accel == MAX_THRUST,
            r.checkpoint_idx == 0,
            r.lap == 0,
            r.role == Role::Attacker,
    {
        Pod::new(0, 0, 0, 0, Vector2::new(HEADING_SCALE, 0), 0, Role::Attacker)
    }

    /// A racing pod at rest at the origin, facing along the x axis.
    pub fn racer() -> (r: Pod)
        ensures
            r.wf(),
            r.pos == (Vector2 { x: 0, y: 0 }),
            r.vel == (Vector2 { x: 0, y: 0 }),
            r.heading == (Vector2 { x: HEADING_SCALE, y: 0 }),
            r.accel == MAX_THRUST,
            r.checkpoint_idx == 0,
            r.lap == 0,
            r.role == Role::Racer,
    {
        Pod::new(0, 0, 0, 0, Vector2::new(HEADING_SCALE, 0), 0, Role::Racer)
    }

    /// Folds one turn's snapshot into the pod. `lap` counts every change of
    /// the waypoint index, not only a wrap back to the first waypoint; thrust
    /// and role are kept.
    pub fn update(
        &mut self,
        x: i64,
        y: i64,
        vx: i64,
        vy: i64,
        heading: Vector2,
        checkpoint_idx: usize,
    )
        requires
            checkpoint_idx != old(self).checkpoint_idx ==> old(self).lap < u32::MAX,
        ensures
            final(self).lap == if checkpoint_idx != old(self).checkpoint_idx {
                old(self).lap + 1
            } else {
                old(self).lap as int
            },
            final(self).pos == (Vector2 { x: x, y: y }),
            final(self).vel == (Vector2 { x: vx, y: vy }),
            final(self).heading == heading,
            final(self).checkpoint_idx == checkpoint_idx,
            final(self).accel == old(self).accel,
            final(self).role == old(self).role,
    {
        if checkpoint_idx != self.checkpoint_idx {
            self.lap = self.lap + 1;
        }
        self.pos = Vector2::new(x, y);
        self.vel = Vector2::new(vx, vy);
        self.heading = heading;
        self.checkpoint_idx = checkpoint_idx;
    }
}

} // verus!
