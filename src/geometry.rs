//! Two-dimensional integer vectors and the exact operations on them.
use vstd::prelude::*;
use vstd::arithmetic::div_mod::{lemma_div_is_ordered, lemma_fundamental_div_mod_converse};

verus! {

/// Largest magnitude of a coordinate handed to the engine: every position,
/// velocity, heading and waypoint lies within it on both axes.
pub const FIELD_LIMIT: i64 = 1048576;

/// Largest magnitude of a component that `rescaled` accepts.
pub const RESCALE_LIMIT: i64 = 281474976710656;

/// Largest squared length that `rescaled` scales to.
pub const RESCALE_MAX_LEN_SQ: u64 = 1048576;

/// A vector (or point) of the track plane.
#[derive(Clone, Copy, Debug, PartialEq, Eq, Structural)]
pub struct Vector2 {
    pub x: i64,
    pub y: i64,
}

/// Dot product.
pub open spec fn inner(a: Vector2, b: Vector2) -> int {
    a.x * b.x + a.y * b.y
}

/// Signed cross product: the z component of the 3D cross product.
pub open spec fn outer(a: Vector2, b: Vector2) -> int {
    a.x * b.y - a.y * b.x
}

/// Squared Euclidean length.
pub open spec fn norm_sq(a: Vector2) -> int {
    inner(a, a)
}

/// Both components lie in `[-b, b]`.
pub open spec fn bounded(a: Vector2, b: int) -> bool {
    -b <= a.x <= b && -b <= a.y <= b
}

/// The vector lies within the field limit.
pub open spec fn in_field(a: Vector2) -> bool {
    bounded(a, FIELD_LIMIT as int)
}

/// `r` is the floor of the square root of `n`.
pub open spec fn is_floor_sqrt(r: int, n: int) -> bool {
    0 <= r && r * r <= n && n < (r + 1) * (r + 1)
}

/// Floor of the square root of a non-negative integer.
pub open spec fn floor_sqrt(n: int) -> int
    recommends
        n >= 0,
{
    choose|r: int| is_floor_sqrt(r, n)
}

/// The floor square root is unique.
pub proof fn lemma_floor_sqrt_unique(r: int, n: int)
    requires
        is_floor_sqrt(r, n),
    ensures
        floor_sqrt(n) == r,
{
    let s = floor_sqrt(n);
    assert(is_floor_sqrt(s, n));
    if s < r {
        assert((s + 1) * (s + 1) <= r * r) by (nonlinear_arith)
            requires
                0 <= s < r,
        ;
    } else if r < s {
        assert((r + 1) * (r + 1) <= s * s) by (nonlinear_arith)
            requires
                0 <= r < s,
        ;
    }
}

/// Floor square root, by bisection.
pub fn isqrt(n: u128) -> (r: u128)
    requires
        n < 0x4000_0000_0000_0000_0000_0000_0000_0000,
    ensures
        is_floor_sqrt(r as int, n as int),
        r == floor_sqrt(n as int),
{
    let mut lo: u128 = 0;
    let mut hi: u128 = 0x8000_0000_0000_0000;
    assert(hi * hi == 0x4000_0000_0000_0000_0000_0000_0000_0000) by (nonlinear_arith)
        requires
            hi == 0x8000_0000_0000_0000,
    ;
    while hi - lo > 1
        invariant
            lo < hi <= 0x8000_0000_0000_0000,
            lo * lo <= n,
            n < hi * hi,
        decreases hi - lo,
    {
        let mid = lo + (hi - lo) / 2;
        assert(mid * mid <= 0x4000_0000_0000_0000_0000_0000_0000_0000) by (nonlinear_arith)
            requires
                mid <= 0x8000_0000_0000_0000,
        ;
        if mid * mid <= n {
            lo = mid;
        } else {
            hi = mid;
        }
    }
    assert(hi == lo + 1);
    proof {
        lemma_floor_sqrt_unique(lo as int, n as int);
    }
    lo
}

/// Rust's `/ 2` on a signed value: halves, rounding toward zero.
pub open spec fn half_toward_zero(c: int) -> int {
    if c >= 0 {
        c / 2
    } else {
        -((-c) / 2)
    }
}

/// One component of `v` rescaled to squared length `len_sq`, where `n` is
/// `norm_sq(v)` and `c` the component: the real value `c * sqrt(len_sq / n)`
/// truncated toward zero, which is `sign(c) * floor_sqrt(c * c * len_sq / n)`.
/// A zero vector stays zero.
pub open spec fn rescaled_component(c: int, len_sq: int, n: int) -> int {
    if n == 0 {
        0
    } else if c >= 0 {
        floor_sqrt(c * c * len_sq / n)
    } else {
        -floor_sqrt(c * c * len_sq / n)
    }
}

/// `a + b`.
pub open spec fn sum_of(a: Vector2, b: Vector2) -> Vector2 {
    Vector2 { x: (a.x + b.x) as i64, y: (a.y + b.y) as i64 }
}

/// `a - b`.
pub open spec fn diff_of(a: Vector2, b: Vector2) -> Vector2 {
    Vector2 { x: (a.x - b.x) as i64, y: (a.y - b.y) as i64 }
}

/// `-a`.
pub open spec fn neg_of(a: Vector2) -> Vector2 {
    Vector2 { x: -a.x as i64, y: -a.y as i64 }
}

/// `a` halved, each component rounded toward zero.
pub open spec fn halved_of(a: Vector2) -> Vector2 {
    Vector2 { x: half_toward_zero(a.x as int) as i64, y: half_toward_zero(a.y as int) as i64 }
}

/// `a` rescaled to squared length `len_sq`, as `Vector2::rescaled` computes it.
pub open spec fn rescaled_of(a: Vector2, len_sq: int) -> Vector2 {
    Vector2 {
        x: rescaled_component(a.x as int, len_sq, norm_sq(a)) as i64,
        y: rescaled_component(a.y as int, len_sq, norm_sq(a)) as i64,
    }
}

/// Squared distance between two points.
pub open spec fn dist_sq(a: Vector2, b: Vector2) -> int {
    (a.x - b.x) * (a.x - b.x) + (a.y - b.y) * (a.y - b.y)
}

/// Rescaling a component of a vector that already has squared length `n`
/// to that same length gives the component back.
proof fn lemma_rescaled_component_fixed(c: int, n: int)
    requires
        n > 0,
    ensures
        rescaled_component(c, n, n) == c,
{
    lemma_fundamental_div_mod_converse(c * c * n, n, c * c, 0);
    if c >= 0 {
        assert(is_floor_sqrt(c, c * c)) by (nonlinear_arith)
            requires
                c >= 0,
        ;
        lemma_floor_sqrt_unique(c, c * c);
    } else {
        assert(is_floor_sqrt(-c, c * c)) by (nonlinear_arith)
            requires
                c < 0,
        ;
        lemma_floor_sqrt_unique(-c, c * c);
    }
}

/// Rescaling is idempotent on its own scale: a vector that already has the
/// requested squared length comes back unchanged, so rescaling a rescaled
/// vector of exact length leaves it as it is. The zero vector is left
/// unchanged at every length.
pub proof fn lemma_rescaled_fixed(v: Vector2, len_sq: int)
    ensures
        norm_sq(v) == len_sq && len_sq > 0 ==> rescaled_of(v, len_sq) == v,
        v.x == 0 && v.y == 0 ==> rescaled_of(v, len_sq) == v,
{
    if norm_sq(v) == len_sq && len_sq > 0 {
        lemma_rescaled_component_fixed(v.x as int, len_sq);
        lemma_rescaled_component_fixed(v.y as int, len_sq);
    }
}

/// Magnitude of a signed value as an unsigned one.
fn magnitude(v: i64) -> (r: u128)
    requires
        v > i64::MIN,
    ensures
        r == if v >= 0 { v as int } else { -v },
        r * r == v * v,
{
    assert((-v) * (-v) == v * v) by (nonlinear_arith);
    if v >= 0 {
        v as u128
    } else {
        (-v) as u128
    }
}

/// `floor_sqrt(a * a * s / n)` for a component of magnitude `a` of a vector
/// of squared length `n`.
fn rescaled_magnitude(a: u128, n: u128, s: u64) -> (r: i64)
    requires
        a <= RESCALE_LIMIT,
        a * a <= n,
        0 < n <= 0x2_0000_0000_0000_0000_0000_0000,
        s <= RESCALE_MAX_LEN_SQ,
    ensures
        r == floor_sqrt((a * a * s) / (n as int)),
        0 <= r,
        r * r <= s,
{
    assert(a * a <= 0x1_0000_0000_0000_0000_0000_0000) by (nonlinear_arith)
        requires
            a <= 0x1_0000_0000_0000,
    ;
    assert(a * a * s <= s * n) by (nonlinear_arith)
        requires
            a * a <= n,
    ;
    assert(a * a * s <= 0x1_0000_0000_0000_0000_0000_0000 * 0x10_0000) by (nonlinear_arith)
        requires
            a * a <= 0x1_0000_0000_0000_0000_0000_0000,
            s <= 0x10_0000,
    ;
    let m = a * a * (s as u128) / n;
    proof {
        lemma_div_is_ordered(a * a * s, s * n, n as int);
        lemma_fundamental_div_mod_converse(s * n, n as int, s as int, 0);
    }
    let r = isqrt(m);
    assert(r <= 0x400) by (nonlinear_arith)
        requires
            r * r <= 0x10_0000,
    ;
    r as i64
}

impl Vector2 {
    pub fn new(x: i64, y: i64) -> (r: Vector2)
        ensures
            r.x == x,
            r.y == y,
    {
        Vector2 { x, y }
    }

    pub fn zero() -> (r: Vector2)
        ensures
            r.x == 0,
            r.y == 0,
    {
        Vector2 { x: 0, y: 0 }
    }

    /// Component-wise sum.
    pub fn add(self, rhs: Vector2) -> (r: Vector2)
        requires
            i64::MIN <= self.x + rhs.x <= i64::MAX,
            i64::MIN <= self.y + rhs.y <= i64::MAX,
        ensures
            r.x == self.x + rhs.x,
            r.y == self.y + rhs.y,
            r == sum_of(self, rhs),
    {
        Vector2 { x: self.x + rhs.x, y: self.y + rhs.y }
    }

    /// Component-wise difference.
    pub fn sub(self, rhs: Vector2) -> (r: Vector2)
        requires
            i64::MIN <= self.x - rhs.x <= i64::MAX,
            i64::MIN <= self.y - rhs.y <= i64::MAX,
        ensures
            r.x == self.x - rhs.x,
            r.y == self.y - rhs.y,
            r == diff_of(self, rhs),
    {
        Vector2 { x: self.x - rhs.x, y: self.y - rhs.y }
    }

    /// The opposite vector.
    pub fn neg(self) -> (r: Vector2)
        requires
            self.x > i64::MIN,
            self.y > i64::MIN,
        ensures
            r.x == -self.x,
            r.y == -self.y,
            r == neg_of(self),
    {
        Vector2 { x: -self.x, y: -self.y }
    }

    /// Multiplication by a scalar.
    pub fn scale(self, k: i64) -> (r: Vector2)
        requires
            i64::MIN <= self.x * k <= i64::MAX,
            i64::MIN <= self.y * k <= i64::MAX,
        ensures
            r.x == self.x * k,
            r.y == self.y * k,
    {
        Vector2 { x: self.x * k, y: self.y * k }
    }

    /// Division by two, each component rounded toward zero.
    pub fn halved(self) -> (r: Vector2)
        requires
            self.x > i64::MIN,
            self.y > i64::MIN,
        ensures
            r.x == half_toward_zero(self.x as int),
            r.y == half_toward_zero(self.y as int),
            r == halved_of(self),
    {
        Vector2 { x: half_i64(self.x), y: half_i64(self.y) }
    }

    /// The vector pointing the way `self` points whose squared length is
    /// `len_sq`, each component truncated toward zero (so `len_sq = L * L`
    /// gives "normalized times L"). The zero vector is returned unchanged.
    pub fn rescaled(self, len_sq: u64) -> (r: Vector2)
        requires
            bounded(self, RESCALE_LIMIT as int),
            len_sq <= RESCALE_MAX_LEN_SQ,
        ensures
            r.x == rescaled_component(self.x as int, len_sq as int, norm_sq(self)),
            r.y == rescaled_component(self.y as int, len_sq as int, norm_sq(self)),
            r == rescaled_of(self, len_sq as int),
            r.x * r.x <= len_sq,
            r.y * r.y <= len_sq,
    {
        let ax = magnitude(self.x);
        let ay = magnitude(self.y);
        assert(ax * ax <= 0x1_0000_0000_0000_0000_0000_0000 && ay * ay
            <= 0x1_0000_0000_0000_0000_0000_0000) by (nonlinear_arith)
            requires
                ax <= 0x1_0000_0000_0000,
                ay <= 0x1_0000_0000_0000,
        ;
        let n = ax * ax + ay * ay;
        assert(ay * ay >= 0 && ax * ax >= 0) by (nonlinear_arith);
        if n == 0 {
            return Vector2 { x: 0, y: 0 };
        }
        let rx = rescaled_magnitude(ax, n, len_sq);
        let ry = rescaled_magnitude(ay, n, len_sq);
        assert((-rx) * (-rx) == rx * rx && (-ry) * (-ry) == ry * ry) by (nonlinear_arith);
        Vector2 { x: if self.x >= 0 { rx } else { -rx }, y: if self.y >= 0 { ry } else { -ry } }
    }

    /// Dot product.
    pub fn inner_product(self, rhs: Vector2) -> (r: i64)
        requires
            bounded(self, 0x4000_0000),
            bounded(rhs, 0x4000_0000),
        ensures
            r == inner(self, rhs),
    {
        proof {
            lemma_product_bound(self.x as int, rhs.x as int, 0x4000_0000);
            lemma_product_bound(self.y as int, rhs.y as int, 0x4000_0000);
        }
        self.x * rhs.x + self.y * rhs.y
    }

    /// Signed cross product.
    pub fn outer_product(self, rhs: Vector2) -> (r: i64)
        requires
            bounded(self, 0x4000_0000),
            bounded(rhs, 0x4000_0000),
        ensures
            r == outer(self, rhs),
    {
        proof {
            lemma_product_bound(self.x as int, rhs.y as int, 0x4000_0000);
            lemma_product_bound(self.y as int, rhs.x as int, 0x4000_0000);
        }
        self.x * rhs.y - self.y * rhs.x
    }

    /// Squared Euclidean length.
    pub fn norm_squared(self) -> (r: i64)
        requires
            bounded(self, 0x4000_0000),
        ensures
            r == norm_sq(self),
            r >= 0,
    {
        proof {
            lemma_square_nonneg(self.x as int);
            lemma_square_nonneg(self.y as int);
        }
        self.inner_product(self)
    }
}

/// The cross product of a vector with itself is zero.
pub proof fn lemma_outer_self_zero(v: Vector2)
    ensures
        outer(v, v) == 0,
{
    assert(v.x * v.y == v.y * v.x) by (nonlinear_arith);
}

/// The dot product is symmetric.
pub proof fn lemma_inner_symmetric(a: Vector2, b: Vector2)
    ensures
        inner(a, b) == inner(b, a),
{
    assert(a.x * b.x == b.x * a.x && a.y * b.y == b.y * a.y) by (nonlinear_arith);
}

/// The dot product is additive in its first argument: when `s` is the sum
/// of `a` and `b`, `s . c` is `a . c + b . c`. With symmetry, the same holds
/// in the second argument.
pub proof fn lemma_inner_additive(a: Vector2, b: Vector2, s: Vector2, c: Vector2)
    requires
        s.x == a.x + b.x,
        s.y == a.y + b.y,
    ensures
        inner(s, c) == inner(a, c) + inner(b, c),
        inner(c, s) == inner(c, a) + inner(c, b),
{
    assert((a.x + b.x) * c.x == a.x * c.x + b.x * c.x) by (nonlinear_arith);
    assert((a.y + b.y) * c.y == a.y * c.y + b.y * c.y) by (nonlinear_arith);
    lemma_inner_symmetric(s, c);
    lemma_inner_symmetric(a, c);
    lemma_inner_symmetric(b, c);
}

/// The dot product is homogeneous in its first argument: when `t` is `a`
/// scaled by `k`, `t . b` is `k * (a . b)`, and likewise in the second.
pub proof fn lemma_inner_homogeneous(a: Vector2, k: int, t: Vector2, b: Vector2)
    requires
        t.x == a.x * k,
        t.y == a.y * k,
    ensures
        inner(t, b) == k * inner(a, b),
        inner(b, t) == k * inner(b, a),
{
    assert((a.x * k) * b.x + (a.y * k) * b.y == k * (a.x * b.x + a.y * b.y)) by (nonlinear_arith);
    lemma_inner_symmetric(t, b);
    lemma_inner_symmetric(a, b);
}

fn half_i64(c: i64) -> (r: i64)
    requires
        c > i64::MIN,
    ensures
        r == half_toward_zero(c as int),
{
    if c >= 0 {
        c / 2
    } else {
        -((-c) / 2)
    }
}

/// `|a * b| <= b * b` when both factors lie in `[-b, b]`.
pub proof fn lemma_product_bound(a: int, c: int, b: int)
    requires
        -b <= a <= b,
        -b <= c <= b,
    ensures
        -(b * b) <= a * c <= b * b,
{
    assert(-(b * b) <= a * c <= b * b) by (nonlinear_arith)
        requires
            -b <= a <= b,
            -b <= c <= b,
    ;
}

pub proof fn lemma_square_nonneg(a: int)
    ensures
        a * a >= 0,
{
    assert(a * a >= 0) by (nonlinear_arith);
}

} // verus!
