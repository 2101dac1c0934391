//! The closed loop of waypoints that the pods race around.
use vstd::prelude::*;
use crate::geometry::{diff_of, in_field, Vector2};

verus! {

/// An ordered, cyclic sequence of waypoints and the number of laps to race.
#[derive(Clone, Debug)]
pub struct Track {
    pub waypoints: Vec<Vector2>,
    pub laps: u32,
}

impl Track {
    /// At least one waypoint, and every waypoint within the field.
    pub open spec fn wf(&self) -> bool {
        &&& self.waypoints@.len() >= 1
        &&& forall|i: int| 0 <= i < self.waypoints@.len() ==> in_field(#[trigger] self.waypoints@[i])
    }

    /// Index of the waypoint that follows waypoint `i`, wrapping around.
    pub open spec fn next_of(&self, i: int) -> int {
        (i + 1) % (self.waypoints@.len() as int)
    }

    pub fn new(waypoints: Vec<Vector2>, laps: u32) -> (r: Track)
        requires
            waypoints@.len() >= 1,
            forall|i: int| 0 <= i < waypoints@.len() ==> in_field(#[trigger] waypoints@[i]),
        ensures
            r.wf(),
            r.waypoints@ == waypoints@,
            r.laps == laps,
    {
        Track { waypoints, laps }
    }

    /// Number of waypoints.
    pub fn len(&self) -> (r: usize)
        ensures
            r == self.waypoints@.len(),
    {
        self.waypoints.len()
    }

    /// Index of the waypoint after waypoint `i`.
    pub fn next_index(&self, i: usize) -> (r: usize)
        requires
            self.wf(),
            i < self.waypoints@.len(),
        ensures
            r == self.next_of(i as int),
            r < self.waypoints@.len(),
    {
        let n = self.waypoints.len();
        if i + 1 == n {
            assert((i + 1) % (n as int) == 0) by {
                vstd::arithmetic::div_mod::lemma_mod_self_0(n as int);
            }
            0
        } else {
            assert((i + 1) % (n as int) == i + 1) by {
                vstd::arithmetic::div_mod::lemma_small_mod((i + 1) as nat, n as nat);
            }
            i + 1
        }
    }

    /// Waypoint `i`.
    pub fn waypoint(&self, i: usize) -> (r: Vector2)
        requires
            i < self.waypoints@.len(),
        ensures
            r == self.waypoints@[i as int],
    {
        self.waypoints[i]
    }

    /// Direction of the leg from waypoint `i` to the one after it; zero on a
    /// track of a single waypoint.
    pub fn segment(&self, i: usize) -> (r: Vector2)
        requires
            self.wf(),
            i < self.waypoints@.len(),
        ensures
            r.x == self.waypoints@[self.next_of(i as int)].x - self.waypoints@[i as int].x,
            r.y == self.waypoints@[self.next_of(i as int)].y - self.waypoints@[i as int].y,
            r == diff_of(self.waypoints@[self.next_of(i as int)], self.waypoints@[i as int]),
            self.waypoints@.len() == 1 ==> r.x == 0 && r.y == 0,
    {
        let j = self.next_index(i);
        let a = self.waypoints[i];
        let b = self.waypoints[j];
        if self.waypoints.len() == 1 {
            assert(j == 0 && i == 0);
        }
        b.sub(a)
    }
}

} // verus!
