//! Integer plane geometry for the simulation world.
//!
//! Positions, displacements and collider extents are measured in
//! milliunits (one thousandth of a world unit) and held in `i64`.  All
//! distance tests compare squared distances; normalisation of direction
//! vectors goes through a verified integer square root.

use vstd::prelude::*;
use vstd::arithmetic::div_mod::{lemma_div_is_ordered, lemma_div_multiples_vanish};

verus! {

/// Positions are clamped to this bound on each axis (a million world units).
pub const POS_LIMIT: i64 = 1_000_000_000;

/// Per-tick displacements never exceed this bound on each axis.
pub const VEL_LIMIT: i64 = 10_000_000;

/// A point or displacement in the plane, in milliunits.
#[derive(Clone, Copy, PartialEq, Eq, Structural, Debug)]
pub struct Vec2i {
    pub x: i64,
    pub y: i64,
}

impl Vec2i {
    pub open spec fn spec_zero() -> Vec2i {
        Vec2i { x: 0, y: 0 }
    }

    pub fn zero() -> (r: Vec2i)
        ensures
            r == Vec2i::spec_zero(),
    {
        Vec2i { x: 0, y: 0 }
    }
}

pub open spec fn abs_i(x: int) -> int {
    if x < 0 {
        -x
    } else {
        x
    }
}

/// The point lies within the world boundary on both axes.
pub open spec fn in_world(p: Vec2i) -> bool {
    &&& -POS_LIMIT <= p.x <= POS_LIMIT
    &&& -POS_LIMIT <= p.y <= POS_LIMIT
}

/// The displacement is within the per-tick speed bound on both axes.
pub open spec fn small_vel(v: Vec2i) -> bool {
    &&& -VEL_LIMIT <= v.x <= VEL_LIMIT
    &&& -VEL_LIMIT <= v.y <= VEL_LIMIT
}

/// Squared Euclidean distance between two points.
pub open spec fn dist2(a: Vec2i, b: Vec2i) -> int {
    (a.x - b.x) * (a.x - b.x) + (a.y - b.y) * (a.y - b.y)
}

/// Squared Euclidean norm of a displacement.
pub open spec fn norm2(v: Vec2i) -> int {
    v.x * v.x + v.y * v.y
}

/// Axis-aligned box overlap: the boxes centred at `p1` and `p2` with
/// half-extents `h1` and `h2` intersect iff the centre distance on each
/// axis is strictly less than the sum of the half-extents on that axis.
pub open spec fn aabb_overlap(p1: Vec2i, h1: Vec2i, p2: Vec2i, h2: Vec2i) -> bool {
    &&& abs_i(p1.x - p2.x) < h1.x + h2.x
    &&& abs_i(p1.y - p2.y) < h1.y + h2.y
}

pub open spec fn clamp_spec(x: int, lo: int, hi: int) -> int {
    if x < lo {
        lo
    } else if x > hi {
        hi
    } else {
        x
    }
}

/// The point clamped to the world boundary on both axes.
pub open spec fn clamp_world_spec(p: Vec2i) -> Vec2i {
    Vec2i {
        x: clamp_spec(p.x as int, -POS_LIMIT as int, POS_LIMIT as int) as i64,
        y: clamp_spec(p.y as int, -POS_LIMIT as int, POS_LIMIT as int) as i64,
    }
}

/// One movement step: the displacement added to the position, clamped to
/// the world boundary.
pub open spec fn step_pos(p: Vec2i, v: Vec2i) -> Vec2i {
    Vec2i {
        x: clamp_spec(p.x + v.x, -POS_LIMIT as int, POS_LIMIT as int) as i64,
        y: clamp_spec(p.y + v.y, -POS_LIMIT as int, POS_LIMIT as int) as i64,
    }
}

pub fn clamp_i64(x: i64, lo: i64, hi: i64) -> (r: i64)
    requires
        lo <= hi,
    ensures
        r == clamp_spec(x as int, lo as int, hi as int),
{
    if x < lo {
        lo
    } else if x > hi {
        hi
    } else {
        x
    }
}

/// Executable movement step matching `step_pos`.
pub fn advance_pos(p: Vec2i, v: Vec2i) -> (r: Vec2i)
    requires
        in_world(p),
        small_vel(v),
    ensures
        r == step_pos(p, v),
        in_world(r),
{
    let x = clamp_i64(p.x + v.x, -POS_LIMIT, POS_LIMIT);
    let y = clamp_i64(p.y + v.y, -POS_LIMIT, POS_LIMIT);
    Vec2i { x, y }
}

/// Executable squared distance matching `dist2`.
pub fn dist2_exec(a: Vec2i, b: Vec2i) -> (r: i64)
    requires
        in_world(a),
        in_world(b),
    ensures
        r == dist2(a, b),
{
    let dx = a.x - b.x;
    let dy = a.y - b.y;
    proof {
        lemma_square_bound(dx as int, 2 * POS_LIMIT as int);
        lemma_square_bound(dy as int, 2 * POS_LIMIT as int);
    }
    dx * dx + dy * dy
}

/// A square of a bounded quantity is bounded by the square of the bound.
pub proof fn lemma_square_bound(x: int, b: int)
    requires
        -b <= x <= b,
        b >= 0,
    ensures
        0 <= x * x <= b * b,
{
    assert(0 <= x * x <= b * b) by (nonlinear_arith)
        requires
            -b <= x <= b,
            b >= 0,
    ;
}

/// Executable box overlap test matching `aabb_overlap`.
pub fn overlap_exec(p1: Vec2i, h1: Vec2i, p2: Vec2i, h2: Vec2i) -> (r: bool)
    requires
        in_world(p1),
        in_world(p2),
        0 <= h1.x <= POS_LIMIT && 0 <= h1.y <= POS_LIMIT,
        0 <= h2.x <= POS_LIMIT && 0 <= h2.y <= POS_LIMIT,
    ensures
        r == aabb_overlap(p1, h1, p2, h2),
{
    let dx = p1.x - p2.x;
    let dy = p1.y - p2.y;
    let ax = if dx < 0 { -dx } else { dx };
    let ay = if dy < 0 { -dy } else { dy };
    ax < h1.x + h2.x && ay < h1.y + h2.y
}

/// Floor of the square root of a natural number.
pub open spec fn sqrt_floor(n: nat) -> nat
    decreases n,
{
    if n == 0 {
        0
    } else {
        let r = sqrt_floor((n - 1) as nat);
        if (r + 1) * (r + 1) <= n {
            r + 1
        } else {
            r
        }
    }
}

/// `sqrt_floor(n)` is the unique `r` with `r * r <= n < (r + 1) * (r + 1)`.
pub proof fn lemma_sqrt_floor_bounds(n: nat)
    ensures
        sqrt_floor(n) * sqrt_floor(n) <= n,
        n < (sqrt_floor(n) + 1) * (sqrt_floor(n) + 1),
    decreases n,
{
    if n == 0 {
        assert(sqrt_floor(n) == 0);
        assert(sqrt_floor(n) * sqrt_floor(n) <= n && n < (sqrt_floor(n) + 1) * (sqrt_floor(n)
            + 1)) by (nonlinear_arith)
            requires
                n == 0,
                sqrt_floor(n) == 0,
        ;
    } else {
        lemma_sqrt_floor_bounds((n - 1) as nat);
        let r = sqrt_floor((n - 1) as nat);
        if (r + 1) * (r + 1) <= n {
            assert(sqrt_floor(n) == r + 1);
            assert(n - 1 < (r + 1) * (r + 1));
            assert(n == (r + 1) * (r + 1));
            assert(sqrt_floor(n) * sqrt_floor(n) <= n && n < (sqrt_floor(n) + 1) * (sqrt_floor(n)
                + 1)) by (nonlinear_arith)
                requires
                    sqrt_floor(n) == r + 1,
                    n == (r + 1) * (r + 1),
                    r >= 0,
            ;
        } else {
            assert(sqrt_floor(n) == r);
            assert(r * r <= n - 1);
            assert(n < (r + 1) * (r + 1));
            assert(sqrt_floor(n) * sqrt_floor(n) <= n && n < (sqrt_floor(n) + 1) * (sqrt_floor(n)
                + 1)) by (nonlinear_arith)
                requires
                    sqrt_floor(n) == r,
                    r * r <= n - 1,
                    n < (r + 1) * (r + 1),
            ;
        }
    }
}

pub proof fn lemma_sqrt_floor_unique(n: nat, r: nat)
    requires
        r * r <= n,
        n < (r + 1) * (r + 1),
    ensures
        r == sqrt_floor(n),
{
    lemma_sqrt_floor_bounds(n);
    let s = sqrt_floor(n);
    if r < s {
        assert((r + 1) * (r + 1) <= s * s) by (nonlinear_arith)
            requires
                r + 1 <= s,
                r >= 0,
        ;
    } else if s < r {
        assert((s + 1) * (s + 1) <= r * r) by (nonlinear_arith)
            requires
                s + 1 <= r,
                s >= 0,
        ;
    }
}

/// Verified integer square root by binary search.
pub fn isqrt(n: u64) -> (r: u64)
    ensures
        r == sqrt_floor(n as nat),
{
    let mut lo: u64 = 0;
    let mut hi: u64 = 4_294_967_296;
    proof {
        assert((4_294_967_296 as int) * (4_294_967_296 as int) > u64::MAX as int);
    }
    while lo + 1 < hi
        invariant
            lo < hi,
            hi <= 4_294_967_296,
            (lo as int) * (lo as int) <= n as int,
            (n as int) < (hi as int) * (hi as int),
        decreases hi - lo,
    {
        let mid = lo + (hi - lo) / 2;
        proof {
            lemma_square_bound(mid as int, 4_294_967_296);
        }
        let sq = (mid as u128) * (mid as u128);
        if sq <= n as u128 {
            lo = mid;
        } else {
            hi = mid;
        }
    }
    proof {
        lemma_sqrt_floor_unique(n as nat, lo as nat);
    }
    lo
}

/// One signed component of a direction vector of squared length `dd`,
/// rescaled so that the whole vector has magnitude close to `s`.  The
/// degenerate zero vector rescales to zero.
pub open spec fn scaled_comp(d: int, dd: int, s: int) -> int {
    if dd == 0 {
        0
    } else {
        let l = sqrt_floor(dd as nat) as int;
        if d >= 0 {
            (d * s) / l
        } else {
            -(((-d) * s) / l)
        }
    }
}

/// The whole rescaled direction vector, componentwise.
pub open spec fn scaled_vec(dx: int, dy: int, s: int) -> Vec2i {
    Vec2i {
        x: scaled_comp(dx, dx * dx + dy * dy, s) as i64,
        y: scaled_comp(dy, dx * dx + dy * dy, s) as i64,
    }
}

/// Rescales the direction vector `d` to magnitude (close to) `s`:
/// the integer form of `normalize(d) * s`.  A zero direction yields zero
/// velocity rather than an undefined one.
pub fn scaled_dir(d: Vec2i, s: i64) -> (r: Vec2i)
    requires
        0 <= s <= VEL_LIMIT,
        -2 * POS_LIMIT <= d.x <= 2 * POS_LIMIT,
        -2 * POS_LIMIT <= d.y <= 2 * POS_LIMIT,
    ensures
        r == scaled_vec(d.x as int, d.y as int, s as int),
        r.x == scaled_comp(d.x as int, norm2(d), s as int),
        r.y == scaled_comp(d.y as int, norm2(d), s as int),
        -s <= r.x <= s,
        -s <= r.y <= s,
        small_vel(r),
        d.x == 0 && d.y == 0 ==> r == Vec2i::spec_zero(),
{
    if d.x == 0 && d.y == 0 {
        return Vec2i { x: 0, y: 0 };
    }
    let ax: u64 = if d.x < 0 { (-d.x) as u64 } else { d.x as u64 };
    let ay: u64 = if d.y < 0 { (-d.y) as u64 } else { d.y as u64 };
    proof {
        assert(0 <= (ax as int) * (ax as int) <= 4_000_000_000_000_000_000
            && (ax as int) * (ax as int) == (d.x as int) * (d.x as int)) by (nonlinear_arith)
            requires
                0 <= ax as int <= 2_000_000_000,
                ax as int == abs_i(d.x as int),
        ;
        assert(0 <= (ay as int) * (ay as int) <= 4_000_000_000_000_000_000
            && (ay as int) * (ay as int) == (d.y as int) * (d.y as int)) by (nonlinear_arith)
            requires
                0 <= ay as int <= 2_000_000_000,
                ay as int == abs_i(d.y as int),
        ;
        assert((ax as int) * (ax as int) + (ay as int) * (ay as int) >= 1) by (nonlinear_arith)
            requires
                ax >= 1 || ay >= 1,
        ;
    }
    let dd: u64 = ax * ax + ay * ay;
    proof {
        assert(dd as int == norm2(d));
    }
    let l: u64 = isqrt(dd);
    proof {
        lemma_sqrt_floor_bounds(dd as nat);
        if l == 0 {
            assert((dd as int) < 1) by (nonlinear_arith)
                requires
                    sqrt_floor(dd as nat) == 0,
                    (dd as nat) < (sqrt_floor(dd as nat) + 1) * (sqrt_floor(dd as nat) + 1),
            ;
        }
        assert(l >= 1);
        lemma_comp_le_sqrt(ax as nat, dd as nat);
        lemma_comp_le_sqrt(ay as nat, dd as nat);
        assert((ax as int) * (s as int) <= 20_000_000_000_000_000
            && (ay as int) * (s as int) <= 20_000_000_000_000_000) by (nonlinear_arith)
            requires
                0 <= ax as int <= 2_000_000_000,
                0 <= ay as int <= 2_000_000_000,
                0 <= s as int <= 10_000_000,
        ;
    }
    let qx: u64 = (ax * (s as u64)) / l;
    let qy: u64 = (ay * (s as u64)) / l;
    proof {
        lemma_scaled_le(ax as nat, l as nat, s as nat);
        lemma_scaled_le(ay as nat, l as nat, s as nat);
    }
    let rx: i64 = if d.x < 0 { -(qx as i64) } else { qx as i64 };
    let ry: i64 = if d.y < 0 { -(qy as i64) } else { qy as i64 };
    proof {
        let li = sqrt_floor(norm2(d) as nat) as int;
        assert(li == l as int);
        if d.x >= 0 {
            assert((ax as int) * (s as int) == (d.x as int) * (s as int)) by (nonlinear_arith)
                requires
                    ax as int == d.x as int,
            ;
            assert(rx == ((d.x as int) * (s as int)) / li);
        } else {
            assert((ax as int) * (s as int) == (-(d.x as int)) * (s as int)) by (nonlinear_arith)
                requires
                    ax as int == -(d.x as int),
            ;
            assert(rx == -(((-(d.x as int)) * (s as int)) / li));
        }
        if d.y >= 0 {
            assert((ay as int) * (s as int) == (d.y as int) * (s as int)) by (nonlinear_arith)
                requires
                    ay as int == d.y as int,
            ;
            assert(ry == ((d.y as int) * (s as int)) / li);
        } else {
            assert((ay as int) * (s as int) == (-(d.y as int)) * (s as int)) by (nonlinear_arith)
                requires
                    ay as int == -(d.y as int),
            ;
            assert(ry == -(((-(d.y as int)) * (s as int)) / li));
        }
    }
    Vec2i { x: rx, y: ry }
}

/// A component of a vector is at most the rounded-down length of the vector.
proof fn lemma_comp_le_sqrt(a: nat, dd: nat)
    requires
        a * a <= dd,
    ensures
        a <= sqrt_floor(dd),
{
    lemma_sqrt_floor_bounds(dd);
    let l = sqrt_floor(dd);
    if a > l {
        assert((l + 1) * (l + 1) <= a * a) by (nonlinear_arith)
            requires
                l + 1 <= a,
                l >= 0,
        ;
    }
}

/// Scaling a component no longer than the length keeps it within `s`.
proof fn lemma_scaled_le(a: nat, l: nat, s: nat)
    requires
        a <= l,
        l >= 1,
    ensures
        (a * s) / l <= s,
        (a * s) / l >= 0,
{
    assert(a * s <= l * s) by (nonlinear_arith)
        requires
            a <= l,
            s >= 0,
    ;
    lemma_div_is_ordered((a * s) as int, (l * s) as int, l as int);
    lemma_div_multiples_vanish(s as int, l as int);
    assert((l * s) as int / (l as int) == s as int);
}

/// Squares are ordered as the absolute values are.
pub proof fn lemma_sq_mono(a: int, b: int)
    requires
        abs_i(a) <= abs_i(b),
    ensures
        a * a <= b * b,
{
    assert(a * a <= b * b) by (nonlinear_arith)
        requires
            -b <= a <= b || b <= a <= -b,
    ;
}

/// Clamping to an interval that contains `o` never moves a point away
/// from `o`.
pub proof fn lemma_clamp_sq_le(x: int, o: int, lo: int, hi: int)
    requires
        lo <= o <= hi,
    ensures
        (clamp_spec(x, lo, hi) - o) * (clamp_spec(x, lo, hi) - o) <= (x - o) * (x - o),
{
    lemma_sq_mono(clamp_spec(x, lo, hi) - o, x - o);
}

/// The two-dimensional Cauchy-Schwarz inequality, via the Lagrange
/// identity.
#[verifier::rlimit(50)]
proof fn lemma_square_of_difference(c: int, e: int)
    by (nonlinear_arith)
    ensures
        (c - e) * (c - e) == c * c - 2 * (c * e) + e * e,
{
}

#[verifier::rlimit(50)]
proof fn lemma_square_of_product(x: int, y: int)
    by (nonlinear_arith)
    ensures
        (x * x) * (y * y) == (x * y) * (x * y),
{
}

pub proof fn lemma_cauchy_schwarz(ux: int, uy: int, vx: int, vy: int)
    ensures
        (ux * vx + uy * vy) * (ux * vx + uy * vy) <= (ux * ux + uy * uy) * (vx * vx + vy * vy),
{
    let a = ux * vx;
    let b = uy * vy;
    let c = ux * vy;
    let e = uy * vx;
    assert(a * b == c * e) by (nonlinear_arith)
        requires
            a == ux * vx,
            b == uy * vy,
            c == ux * vy,
            e == uy * vx,
    ;
    assert((a + b) * (a + b) == a * a + 2 * (a * b) + b * b) by (nonlinear_arith);
    lemma_square_of_difference(c, e);
    assert((c - e) * (c - e) >= 0) by (nonlinear_arith);
    let p = ux * ux;
    let q = uy * uy;
    let m = vx * vx;
    let w = vy * vy;
    assert((p + q) * (m + w) == p * m + p * w + q * m + q * w) by (nonlinear_arith);
    lemma_square_of_product(ux, vx);
    lemma_square_of_product(ux, vy);
    lemma_square_of_product(uy, vx);
    lemma_square_of_product(uy, vy);
    assert((ux * ux + uy * uy) * (vx * vx + vy * vy) == a * a + b * b + c * c + e * e);
    assert((a + b) * (a + b) <= (ux * ux + uy * uy) * (vx * vx + vy * vy));
    assert((ux * vx + uy * vy) * (ux * vx + uy * vy) == (a + b) * (a + b)) by (nonlinear_arith)
        requires
            a + b == ux * vx + uy * vy,
    ;
}

/// Knockback overshoot bound: a point within radius `t` of the origin,
/// displaced by a vector of magnitude at most `v`, stays within radius
/// `t + v` -- the displacement from a knockback origin never exceeds the
/// threshold by more than one tick's worth of movement.
pub proof fn lemma_overshoot(px: int, py: int, ox: int, oy: int, vx: int, vy: int, t: int, v: int)
    requires
        t >= 0,
        v >= 0,
        (px - ox) * (px - ox) + (py - oy) * (py - oy) <= t * t,
        vx * vx + vy * vy <= v * v,
    ensures
        (px + vx - ox) * (px + vx - ox) + (py + vy - oy) * (py + vy - oy) <= (t + v) * (t + v),
{
    let ux = px - ox;
    let uy = py - oy;
    lemma_cauchy_schwarz(ux, uy, vx, vy);
    let dot = ux * vx + uy * vy;
    assert(dot * dot <= (ux * ux + uy * uy) * (vx * vx + vy * vy));
    assert(vx * vx + vy * vy >= 0 && ux * ux + uy * uy >= 0) by (nonlinear_arith);
    assert((ux * ux + uy * uy) * (vx * vx + vy * vy) <= (t * t) * (v * v)) by (nonlinear_arith)
        requires
            0 <= ux * ux + uy * uy <= t * t,
            0 <= vx * vx + vy * vy <= v * v,
    ;
    assert((t * t) * (v * v) == (t * v) * (t * v)) by (nonlinear_arith);
    assert(t * v >= 0) by (nonlinear_arith)
        requires
            t >= 0,
            v >= 0,
    ;
    assert(dot <= t * v) by (nonlinear_arith)
        requires
            dot * dot <= (t * v) * (t * v),
            t * v >= 0,
    ;
    assert((ux + vx) * (ux + vx) + (uy + vy) * (uy + vy) <= (t + v) * (t + v)) by (nonlinear_arith)
        requires
            ux * ux + uy * uy <= t * t,
            vx * vx + vy * vy <= v * v,
            ux * vx + uy * vy <= t * v,
            dot == ux * vx + uy * vy,
    ;
}

} // verus!
