//! Per-turn decision engine for pods racing around a loop of waypoints.
//!
//! All geometry is exact integer arithmetic on track-plane coordinates.
//! Lengths that are irrational in the plane (norms, unit directions) are
//! computed by floor square roots of exact integer quantities, so every
//! result is pinned down by an integer formula.

pub mod geometry;
pub mod guard;
pub mod guidance;
pub mod pod;
pub mod targeting;
pub mod track;
