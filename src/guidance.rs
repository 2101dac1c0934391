//! Proportional-navigation steering: from a target and its relative
//! velocity to the point a pod steers at.
use vstd::prelude::*;
use vstd::arithmetic::div_mod::{lemma_div_is_ordered, lemma_fundamental_div_mod_converse};
use crate::geometry::{
    bounded, diff_of, in_field, norm_sq, outer, rescaled_of, sum_of, Vector2, FIELD_LIMIT,
};
use crate::pod::{Pod, Role};
use crate::targeting::{next_waypoint, target_of, valid_opponents};
use crate::track::Track;

verus! {

/// Squared thrust ceiling: the squared radius of the circle of reachable
/// accelerations.
pub const MAX_THRUST_SQ: u64 = 10000;

/// Rust's `/` on signed values: `n / d` rounded toward zero, for `d > 0`.
pub open spec fn trunc_div(n: int, d: int) -> int {
    if n >= 0 {
        n / d
    } else {
        -((-n) / d)
    }
}

/// Lateral correction of proportional navigation. With the turn rate
/// `w = outer(range, rel) / (range . range)`, it is `(rel.y * w, -rel.x * w)`,
/// each component rounded toward zero; zero when `range` is zero.
pub open spec fn normal_accel_of(range: Vector2, rel: Vector2) -> Vector2 {
    let d = norm_sq(range);
    let c = outer(range, rel);
    if d == 0 {
        Vector2 { x: 0, y: 0 }
    } else {
        Vector2 { x: trunc_div(rel.y * c, d) as i64, y: trunc_div(-rel.x * c, d) as i64 }
    }
}

/// Offset from the pod to its lead point. While the lateral correction `a`
/// is shorter than the thrust ceiling, the rest of the available thrust
/// (squared length `MAX_THRUST_SQ - a . a`) goes along `range`, plus `a`;
/// otherwise `a` alone, cut to the ceiling.
pub open spec fn lead_offset_of(range: Vector2, rel: Vector2) -> Vector2 {
    let a = normal_accel_of(range, rel);
    if norm_sq(a) < MAX_THRUST_SQ {
        sum_of(rescaled_of(range, MAX_THRUST_SQ - norm_sq(a)), a)
    } else {
        rescaled_of(a, MAX_THRUST_SQ as int)
    }
}

/// The estimated flight time to a target at squared distance `dist_sq` is
/// under four turns. With drag `k = 0.85` and thrust `a = max(accel, 1)` the
/// estimate is `d (1 - k) / k / a - |v| / a + k / (1 - k)`, where
/// `d = sqrt(dist_sq)` and `|v| = sqrt(speed_sq)`; it is below 4 exactly when
/// `9 d + 85 a < 51 |v|`, which is squared out here without rounding.
pub open spec fn early_turn_of(dist_sq: int, speed_sq: int, a: int) -> bool {
    let rest = 2601 * speed_sq - 81 * dist_sq - 7225 * (a * a);
    rest > 0 && 2340900 * (a * a) * dist_sq < rest * rest
}

/// Thrust used in the flight-time estimate: the last thrust, at least 1.
pub open spec fn effective_accel(pod: Pod) -> int {
    if pod.accel >= 1 {
        pod.accel as int
    } else {
        1
    }
}

/// The point `pod` steers at this turn. A racer that would reach its target
/// within the flight-time horizon aims straight at the next waypoint;
/// otherwise the pod aims at its lead point.
pub open spec fn steer_point_of(pod: Pod, opponents: Seq<Pod>, wps: Seq<Vector2>) -> Vector2 {
    let t = target_of(pod, opponents, wps);
    let range = diff_of(t.0, pod.pos);
    if pod.role == Role::Racer && early_turn_of(
        norm_sq(range),
        norm_sq(pod.vel),
        effective_accel(pod),
    ) {
        wps[next_waypoint(wps, pod.checkpoint_idx as int)]
    } else {
        sum_of(pod.pos, lead_offset_of(range, t.1))
    }
}

/// `(p - q)^2 + (r + t)^2` expanded, for `p q == r t`.
proof fn lemma_expand_squares(p: int, q: int, r: int, t: int)
    requires
        p * q == r * t,
    ensures
        (p - q) * (p - q) + (r + t) * (r + t) == p * p + q * q + r * r + t * t,
{
    assert((p - q) * (p - q) == p * p - 2 * (p * q) + q * q) by (nonlinear_arith);
    assert((r + t) * (r + t) == r * r + 2 * (r * t) + t * t) by (nonlinear_arith);
}

/// `(u + v)(w + z) == u w + u z + v w + v z`.
proof fn lemma_distribute(u: int, v: int, w: int, z: int)
    ensures
        (u + v) * (w + z) == u * w + u * z + v * w + v * z,
{
    assert((u + v) * (w + z) == u * w + u * z + v * w + v * z) by (nonlinear_arith);
}

/// `(x y)(x y) == (x x)(y y)`.
proof fn lemma_square_of_product(x: int, y: int)
    ensures
        (x * y) * (x * y) == (x * x) * (y * y),
{
    assert((x * y) * (x * y) == (x * x) * (y * y)) by (nonlinear_arith);
}

/// `(a d - b c)^2 + (a c + b d)^2 == (a^2 + b^2)(c^2 + d^2)`.
proof fn lemma_lagrange(a: int, b: int, c: int, d: int)
    ensures
        (a * d - b * c) * (a * d - b * c) + (a * c + b * d) * (a * c + b * d) == (a * a + b * b) * (
        c * c + d * d),
{
    assert((a * d) * (b * c) == (a * c) * (b * d)) by (nonlinear_arith);
    lemma_expand_squares(a * d, b * c, a * c, b * d);
    lemma_square_of_product(a, d);
    lemma_square_of_product(b, c);
    lemma_square_of_product(a, c);
    lemma_square_of_product(b, d);
    lemma_distribute(a * a, b * b, c * c, d * d);
}

/// `|y * c| <= rr * d` when `y * y <= rr` and `c * c <= d * rr`, for `d >= 1`.
proof fn lemma_correction_bound(y: int, c: int, rr: int, d: int)
    requires
        y * y <= rr,
        c * c <= d * rr,
        d >= 1,
        rr >= 0,
    ensures
        -(rr * d) <= y * c <= rr * d,
{
    assert(0 <= c * c) by (nonlinear_arith);
    assert((y * c) * (y * c) <= rr * (c * c)) by (nonlinear_arith)
        requires
            y * y <= rr,
            0 <= c * c,
    ;
    assert(rr * (c * c) <= rr * (d * rr)) by (nonlinear_arith)
        requires
            c * c <= d * rr,
            0 <= rr,
    ;
    assert(rr * (d * rr) <= (rr * d) * (rr * d)) by (nonlinear_arith)
        requires
            d >= 1,
            0 <= rr,
    ;
    assert(-(rr * d) <= y * c <= rr * d) by (nonlinear_arith)
        requires
            (y * c) * (y * c) <= (rr * d) * (rr * d),
            0 <= rr * d,
    ;
}

/// `trunc_div(n, d)` for `|n| <= rr * d`, which then lies in `[-rr, rr]`.
fn div_toward_zero(n: i128, d: i128, Ghost(rr): Ghost<int>) -> (r: i64)
    requires
        0 < d <= 0x1_0000_0000_0000_0000,
        0 <= rr <= 0x1_0000_0000_0000,
        -(rr * d) <= n <= rr * d,
    ensures
        r == trunc_div(n as int, d as int),
        -rr <= r <= rr,
{
    assert(rr * d <= 0x1_0000_0000_0000_0000_0000_0000_0000) by (nonlinear_arith)
        requires
            0 < d <= 0x1_0000_0000_0000_0000,
            0 <= rr <= 0x1_0000_0000_0000,
    ;
    let m: i128 = if n >= 0 {
        n
    } else {
        -n
    };
    proof {
        lemma_div_is_ordered(m as int, rr * d, d as int);
        lemma_fundamental_div_mod_converse(rr * d, d as int, rr, 0);
        assert(rr * d == d * rr) by (nonlinear_arith);
    }
    let q = m / d;
    if n >= 0 {
        q as i64
    } else {
        -(q as i64)
    }
}

/// Lateral correction; see `normal_accel_of`.
pub fn normal_accel(range: Vector2, rel: Vector2) -> (a: Vector2)
    requires
        bounded(range, 0x80_0000),
        bounded(rel, 0x20_0000),
    ensures
        a == normal_accel_of(range, rel),
        bounded(a, 0x1_0000_0000_0000),
{
    let d = range.norm_squared();
    if d == 0 {
        return Vector2::zero();
    }
    let c = range.outer_product(rel);
    let ghost rr = norm_sq(rel);
    proof {
        lemma_lagrange(range.x as int, range.y as int, rel.x as int, rel.y as int);
        assert(0 <= (range.x * rel.x + range.y * rel.y) * (range.x * rel.x + range.y * rel.y))
            by (nonlinear_arith);
        assert(c * c <= d * rr);
        assert(0 <= rel.x * rel.x && 0 <= rel.y * rel.y) by (nonlinear_arith);
        assert(rr <= 0x800_0000_0000) by (nonlinear_arith)
            requires
                -0x20_0000 <= rel.x <= 0x20_0000,
                -0x20_0000 <= rel.y <= 0x20_0000,
                rr == rel.x * rel.x + rel.y * rel.y,
        ;
        assert((-rel.x) * (-rel.x) == rel.x * rel.x) by (nonlinear_arith);
        lemma_correction_bound(rel.y as int, c as int, rr, d as int);
        lemma_correction_bound(-rel.x, c as int, rr, d as int);
        assert((-rel.x) * c == -(rel.x * c)) by (nonlinear_arith);
        assert(-0x40_0000_0000_0000 <= c <= 0x40_0000_0000_0000) by (nonlinear_arith)
            requires
                c == range.x * rel.y - range.y * rel.x,
                -0x80_0000 <= range.x <= 0x80_0000,
                -0x80_0000 <= range.y <= 0x80_0000,
                -0x20_0000 <= rel.x <= 0x20_0000,
                -0x20_0000 <= rel.y <= 0x20_0000,
        ;
        assert(-0x1_0000_0000_0000_0000_0000 <= rel.y * c <= 0x1_0000_0000_0000_0000_0000
            && -0x1_0000_0000_0000_0000_0000 <= rel.x * c <= 0x1_0000_0000_0000_0000_0000)
            by (nonlinear_arith)
            requires
                -0x40_0000_0000_0000 <= c <= 0x40_0000_0000_0000,
                -0x20_0000 <= rel.x <= 0x20_0000,
                -0x20_0000 <= rel.y <= 0x20_0000,
        ;
    }
    let ny = (rel.y as i128) * (c as i128);
    let nx = -((rel.x as i128) * (c as i128));
    let ax = div_toward_zero(ny, d as i128, Ghost(rr));
    let ay = div_toward_zero(nx, d as i128, Ghost(rr));
    Vector2 { x: ax, y: ay }
}

/// Offset from the pod to its lead point; see `lead_offset_of`.
pub fn lead_offset(range: Vector2, rel: Vector2) -> (r: Vector2)
    requires
        bounded(range, 0x80_0000),
        bounded(rel, 0x20_0000),
    ensures
        r == lead_offset_of(range, rel),
        bounded(r, 200),
{
    let a = normal_accel(range, rel);
    assert(0 <= a.x * a.x <= 0x1_0000_0000_0000_0000_0000_0000 && 0 <= a.y * a.y
        <= 0x1_0000_0000_0000_0000_0000_0000) by (nonlinear_arith)
        requires
            bounded(a, 0x1_0000_0000_0000),
    ;
    let aa = (a.x as i128) * (a.x as i128) + (a.y as i128) * (a.y as i128);
    if aa < 10000 {
        let along = range.rescaled((10000 - aa) as u64);
        assert(-100 <= a.x <= 100 && -100 <= a.y <= 100 && -100 <= along.x <= 100 && -100
            <= along.y <= 100) by (nonlinear_arith)
            requires
                a.x * a.x + a.y * a.y < 10000,
                along.x * along.x <= 10000,
                along.y * along.y <= 10000,
                0 <= a.x * a.x,
                0 <= a.y * a.y,
        ;
        along.add(a)
    } else {
        let r = a.rescaled(MAX_THRUST_SQ);
        assert(-100 <= r.x <= 100 && -100 <= r.y <= 100) by (nonlinear_arith)
            requires
                r.x * r.x <= 10000,
                r.y * r.y <= 10000,
        ;
        r
    }
}

/// Exact test of `early_turn_of` for a pod's own quantities.
pub fn early_turn(dist_sq: i64, speed_sq: i64, a: u8) -> (r: bool)
    requires
        0 <= dist_sq <= 0x1_0000_0000_0000,
        0 <= speed_sq <= 0x1_0000_0000_0000,
    ensures
        r == early_turn_of(dist_sq as int, speed_sq as int, a as int),
{
    assert(0 <= a * a <= 65536) by (nonlinear_arith)
        requires
            a <= 255,
    ;
    let a2 = (a as i128) * (a as i128);
    let rest = 2601 * (speed_sq as i128) - 81 * (dist_sq as i128) - 7225 * a2;
    if rest <= 0 {
        return false;
    }
    assert(rest * rest <= 0x100_0000_0000_0000_0000_0000_0000_0000) by (nonlinear_arith)
        requires
            0 < rest <= 2601 * 0x1_0000_0000_0000,
    ;
    assert(2340900 * a2 * dist_sq <= 2340900 * 65536 * 0x1_0000_0000_0000) by (nonlinear_arith)
        requires
            0 <= a2 <= 65536,
            0 <= dist_sq <= 0x1_0000_0000_0000,
    ;
    2340900 * a2 * (dist_sq as i128) < rest * rest
}

impl Pod {
    /// The point this pod steers at this turn; see `steer_point_of`.
    pub fn steer_point(&self, track: &Track, opponents: &Vec<Pod>) -> (r: Vector2)
        requires
            self.wf(),
            track.wf(),
            self.checkpoint_idx < track.waypoints@.len(),
            valid_opponents(opponents@, track.waypoints@),
            self.role == Role::Attacker ==> opponents@.len() >= 1,
        ensures
            r == steer_point_of(*self, opponents@, track.waypoints@),
            bounded(r, FIELD_LIMIT + 200),
    {
        let (target, rel) = self.acquire_target(track, opponents);
        let range = target.sub(self.pos);
        let racer = match self.role {
            Role::Racer => true,
            Role::Attacker => false,
        };
        if racer {
            let a: u8 = if self.accel >= 1 {
                self.accel
            } else {
                1
            };
            let d = range.norm_squared();
            let v = self.vel.norm_squared();
            proof {
                crate::geometry::lemma_product_bound(range.x as int, range.x as int, 0x80_0000);
                crate::geometry::lemma_product_bound(range.y as int, range.y as int, 0x80_0000);
                crate::geometry::lemma_product_bound(self.vel.x as int, self.vel.x as int, 0x10_0000);
                crate::geometry::lemma_product_bound(self.vel.y as int, self.vel.y as int, 0x10_0000);
            }
            if early_turn(d, v, a) {
                let n = track.next_index(self.checkpoint_idx);
                let w = track.waypoint(n);
                assert(in_field(w));
                return w;
            }
        }
        self.pos.add(lead_offset(range, rel))
    }
}

} // verus!
