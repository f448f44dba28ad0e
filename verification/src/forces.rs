//! The pairwise acceleration laws and the per-particle integration step,
//! in exact fixed-point arithmetic (units of `1/SCALE`).

use vstd::prelude::*;

use crate::compute::{
    axis_cell_spec, cell_coords, next_wrap, prev_wrap, surrounding_cells, GpuSettings,
};
use crate::data::{AccelerationMethod, Particle, COEF_LIMIT, SETTING_LIMIT};
use crate::fixed::{wrap_coord, wrap_spec, Vec2, SCALE};

verus! {

pub open spec fn abs_spec(x: int) -> int {
    if x >= 0 {
        x
    } else {
        -x
    }
}

/// Truncating (round-toward-zero) division, the semantics every scaled
/// division of the engine uses.
pub open spec fn tdiv_spec(n: int, d: int) -> int {
    if n >= 0 {
        n / d
    } else {
        -((-n) / d)
    }
}

/// Truncating division of a fixed-point value by a positive divisor.
pub fn tdiv(n: i64, d: i64) -> (r: i64)
    requires
        d >= 1,
        n > i64::MIN,
    ensures
        r == tdiv_spec(n as int, d as int),
        abs_spec(r as int) <= abs_spec(n as int) / (d as int),
        abs_spec(r as int) <= abs_spec(n as int),
{
    proof {
        vstd::arithmetic::div_mod::lemma_div_is_ordered_by_denominator(
            abs_spec(n as int),
            1,
            d as int,
        );
        vstd::arithmetic::div_mod::lemma_div_is_ordered(0, abs_spec(n as int), d as int);
    }
    if n >= 0 {
        ((n as u64) / (d as u64)) as i64
    } else {
        let m: u64 = (-n) as u64;
        -((m / (d as u64)) as i64)
    }
}

/// `r` is the integer square root of `x`.
pub open spec fn is_sqrt(x: int, r: int) -> bool {
    r >= 0 && r * r <= x < (r + 1) * (r + 1)
}

/// The integer square root as a spec-level value.
pub open spec fn sqrt_of(x: int) -> int {
    choose|r: int| #[trigger] is_sqrt(x, r)
}

/// Every nonnegative integer has an integer square root.
pub proof fn lemma_sqrt_exists(x: int)
    requires
        x >= 0,
    ensures
        is_sqrt(x, sqrt_of(x)),
    decreases x,
{
    if x == 0 {
        assert(is_sqrt(0, 0));
    } else {
        lemma_sqrt_exists(x - 1);
        let r = choose|r: int| #[trigger] is_sqrt(x - 1, r);
        if (r + 1) * (r + 1) <= x {
            assert(x - 1 < (r + 1) * (r + 1));
            assert(is_sqrt(x, r + 1)) by (nonlinear_arith)
                requires
                    r >= 0,
                    (r + 1) * (r + 1) <= x,
                    x - 1 < (r + 1) * (r + 1),
            ;
        } else {
            assert(is_sqrt(x, r));
        }
    }
}

/// The integer square root is unique.
pub proof fn lemma_sqrt_unique(x: int, r1: int, r2: int)
    requires
        is_sqrt(x, r1),
        is_sqrt(x, r2),
    ensures
        r1 == r2,
{
    assert(r1 == r2) by (nonlinear_arith)
        requires
            r1 >= 0 && r1 * r1 <= x < (r1 + 1) * (r1 + 1),
            r2 >= 0 && r2 * r2 <= x < (r2 + 1) * (r2 + 1),
    ;
}

/// Integer square root by binary search on the root.
pub fn isqrt(x: u64) -> (r: u64)
    ensures
        r as int == sqrt_of(x as int),
        is_sqrt(x as int, r as int),
{
    let mut lo: u64 = 0;
    let mut hi: u64 = 0x1_0000_0000;
    if x < hi {
        hi = x + 1;
    }
    proof {
        assert(x < 0x1_0000_0000 ==> (x as int + 1) * (x as int + 1) > x) by (nonlinear_arith);
        assert(0x1_0000_0000 * 0x1_0000_0000 > x as int);
    }
    while lo + 1 < hi
        invariant
            0 <= lo < hi <= 0x1_0000_0000,
            lo * lo <= x,
            (hi as int) * (hi as int) > x,
        decreases hi - lo,
    {
        let mid: u64 = lo + (hi - lo) / 2;
        proof {
            assert(mid as int * mid as int <= 0xFFFF_FFFF * 0xFFFF_FFFF) by (nonlinear_arith)
                requires 0 <= mid as int <= 0xFFFF_FFFF;
        }
        if mid * mid <= x {
            lo = mid;
        } else {
            hi = mid;
        }
    }
    proof {
        assert(is_sqrt(x as int, lo as int));
        lemma_sqrt_exists(x as int);
        lemma_sqrt_unique(x as int, lo as int, sqrt_of(x as int));
    }
    lo
}

/// The toroidally closest image of the delta `b - a` on one axis: if the
/// straight-line delta exceeds half the world width (`bound`), step one full
/// world width toward zero.
pub open spec fn torus_delta_spec(d: int, bound: int) -> int {
    if d > bound {
        d - 2 * bound
    } else if d < -bound {
        d + 2 * bound
    } else {
        d
    }
}

/// Toroidally closest per-axis delta between two in-bounds coordinates; it
/// is never larger in magnitude than the straight-line delta.
pub fn torus_delta(a: i64, b: i64, bound: i64) -> (r: i64)
    requires
        1 <= bound <= 0x4000_0000_0000,
        -bound <= a <= bound,
        -bound <= b <= bound,
    ensures
        r == torus_delta_spec(b - a, bound as int),
        -bound <= r <= bound,
        abs_spec(r as int) <= abs_spec(b - a),
{
    let d = b - a;
    if d > bound {
        d - 2 * bound
    } else if d < -bound {
        d + 2 * bound
    } else {
        d
    }
}

/// Euclidean remainder (always in `[0, d)`).
pub fn emod(n: i64, d: i64) -> (r: i64)
    requires
        1 <= d <= 0x1_0000_0000,
        -0x1000_0000_0000_0000 <= n <= 0x1000_0000_0000_0000,
    ensures
        r == (n as int) % (d as int),
        0 <= r < d,
{
    if n >= 0 {
        proof {
            vstd::arithmetic::div_mod::lemma_mod_bound(n as int, d as int);
        }
        ((n as u64) % (d as u64)) as i64
    } else {
        let m: u64 = (-n) as u64;
        let t: i64 = (m % (d as u64)) as i64;
        proof {
            let ni = n as int;
            let di = d as int;
            let q = (-ni) / di;
            vstd::arithmetic::div_mod::lemma_fundamental_div_mod(-ni, di);
            vstd::arithmetic::div_mod::lemma_mod_bound(-ni, di);
            if t == 0 {
                assert(ni == di * (-q) + 0) by (nonlinear_arith)
                    requires -ni == di * q + 0;
                vstd::arithmetic::div_mod::lemma_fundamental_div_mod_converse_mod(
                    ni,
                    di,
                    -q,
                    0,
                );
            } else {
                assert(ni == di * (-q - 1) + (di - t)) by (nonlinear_arith)
                    requires -ni == di * q + t;
                vstd::arithmetic::div_mod::lemma_fundamental_div_mod_converse_mod(
                    ni,
                    di,
                    -q - 1,
                    di - t,
                );
            }
        }
        if t == 0 {
            0
        } else {
            d - t
        }
    }
}

/// The common precondition of the acceleration laws: the relative minimum
/// distance is a proper fraction, the coefficient is within the admitted
/// magnitude, and the normalized neighbor delta is nonzero and at most two
/// cutoff lengths long per axis.
pub open spec fn law_pre(rmin: int, dpos: Vec2, a: int) -> bool {
    &&& 0 <= rmin < SCALE
    &&& -COEF_LIMIT <= a <= COEF_LIMIT
    &&& -2 * SCALE <= dpos.x <= 2 * SCALE
    &&& -2 * SCALE <= dpos.y <= 2 * SCALE
    &&& dpos.x * dpos.x + dpos.y * dpos.y >= 1
}

/// Magnitude bound every acceleration component respects.
pub const ACCEL_LIMIT: i64 = 0x1000_0000_0000_0000;

/// The shared piecewise force of the three radial laws: a linear repulsion
/// inside the relative minimum distance, and a tent-shaped attraction scaled
/// by the coefficient outside it.
pub open spec fn r_force_spec(rmin: int, dist: int, a: int) -> int {
    if dist < rmin {
        tdiv_spec(dist * SCALE, rmin) - SCALE
    } else {
        tdiv_spec(
            a * (SCALE - tdiv_spec(abs_spec(SCALE + rmin - 2 * dist) * SCALE, SCALE - rmin)),
            SCALE as int,
        )
    }
}

/// Bound on the magnitude of `r_force_spec` under `law_pre`.
pub const FORCE_LIMIT: i64 = 0x80_0000_0000;

fn r_force(rmin: i64, dist: i64, a: i64) -> (r: i64)
    requires
        0 <= rmin < SCALE,
        1 <= dist <= 3000,
        -COEF_LIMIT <= a <= COEF_LIMIT,
    ensures
        r == r_force_spec(rmin as int, dist as int, a as int),
        abs_spec(r as int) <= FORCE_LIMIT,
{
    if dist < rmin {
        let q = tdiv(dist * SCALE, rmin);
        q - SCALE
    } else {
        let t = SCALE + rmin - 2 * dist;
        let at = if t >= 0 {
            t
        } else {
            -t
        };
        let u = tdiv(at * SCALE, SCALE - rmin);
        proof {
            assert(abs_spec(a as int * (SCALE - u) as int) <= COEF_LIMIT * (SCALE
                + abs_spec(u as int))) by (nonlinear_arith)
                requires
                    -COEF_LIMIT <= a <= COEF_LIMIT,
                    abs_spec(a as int) <= COEF_LIMIT,
                    SCALE - abs_spec(u as int) <= SCALE - u <= SCALE + abs_spec(u as int),
            ;
            assert(abs_spec(u as int) <= at * SCALE);
            assert(at * SCALE <= 8192 * 1024) by (nonlinear_arith)
                requires 0 <= at <= 8192;
        }
        tdiv(a * (SCALE - u), SCALE)
    }
}

/// The first radial law: acceleration along the neighbor delta, the force
/// divided by the distance once.
pub open spec fn acceleration_spec(rmin: int, dpos: Vec2, a: int) -> (int, int) {
    let dist = sqrt_of(dpos.x * dpos.x + dpos.y * dpos.y);
    let force = r_force_spec(rmin, dist, a);
    (tdiv_spec(dpos.x * force, dist), tdiv_spec(dpos.y * force, dist))
}

/// Distance and squared length of the normalized delta, with the facts the
/// law bodies need.
fn law_dist(dpos: Vec2) -> (dist: i64)
    requires
        -2 * SCALE <= dpos.x <= 2 * SCALE,
        -2 * SCALE <= dpos.y <= 2 * SCALE,
        dpos.x * dpos.x + dpos.y * dpos.y >= 1,
    ensures
        dist == sqrt_of(dpos.x * dpos.x + dpos.y * dpos.y),
        1 <= dist <= 2896,
        abs_spec(dpos.x as int) <= dist,
        abs_spec(dpos.y as int) <= dist,
{
    proof {
        assert(dpos.x * dpos.x <= 4 * SCALE * SCALE && dpos.y * dpos.y <= 4 * SCALE * SCALE
            && dpos.x * dpos.x >= 0 && dpos.y * dpos.y >= 0) by (nonlinear_arith)
            requires
                -2 * SCALE <= dpos.x <= 2 * SCALE,
                -2 * SCALE <= dpos.y <= 2 * SCALE,
        ;
    }
    let sq: i64 = dpos.x * dpos.x + dpos.y * dpos.y;
    let dist_u = isqrt(sq as u64);
    proof {
        let d = dist_u as int;
        let sqi = sq as int;
        assert(d >= 1) by (nonlinear_arith)
            requires
                d >= 0,
                (d + 1) * (d + 1) > sqi,
                sqi >= 1,
        ;
        assert(d <= 2896) by (nonlinear_arith)
            requires
                d * d <= sqi,
                sqi <= 8 * 1024 * 1024,
                d >= 0,
        ;
        assert(abs_spec(dpos.x as int) <= d && abs_spec(dpos.y as int) <= d)
            by (nonlinear_arith)
            requires
                dpos.x * dpos.x + dpos.y * dpos.y <= sqi,
                sqi < (d + 1) * (d + 1),
                d >= 0,
                dpos.y * dpos.y >= 0,
                dpos.x * dpos.x >= 0,
        ;
    }
    dist_u as i64
}

/// First radial law (`force / dist`).
pub fn acceleration(rmin: i64, dpos: Vec2, a: i64) -> (r: Vec2)
    requires
        law_pre(rmin as int, dpos, a as int),
    ensures
        r.x == acceleration_spec(rmin as int, dpos, a as int).0,
        r.y == acceleration_spec(rmin as int, dpos, a as int).1,
        abs_spec(r.x as int) <= ACCEL_LIMIT,
        abs_spec(r.y as int) <= ACCEL_LIMIT,
{
    let dist = law_dist(dpos);
    let force = r_force(rmin, dist, a);
    proof {
        lemma_component_force_bound(dpos.x as int, force as int);
        lemma_component_force_bound(dpos.y as int, force as int);
    }
    let ax = tdiv(dpos.x * force, dist);
    let ay = tdiv(dpos.y * force, dist);
    Vec2::new(ax, ay)
}

/// Second radial law: the same force divided by the squared distance.
pub open spec fn acceleration2_spec(rmin: int, dpos: Vec2, a: int) -> (int, int) {
    let dist = sqrt_of(dpos.x * dpos.x + dpos.y * dpos.y);
    let force = r_force_spec(rmin, dist, a);
    (
        tdiv_spec(dpos.x * force * SCALE, dist * dist),
        tdiv_spec(dpos.y * force * SCALE, dist * dist),
    )
}

/// Second radial law (`force / dist^2`).
pub fn acceleration2(rmin: i64, dpos: Vec2, a: i64) -> (r: Vec2)
    requires
        law_pre(rmin as int, dpos, a as int),
    ensures
        r.x == acceleration2_spec(rmin as int, dpos, a as int).0,
        r.y == acceleration2_spec(rmin as int, dpos, a as int).1,
        abs_spec(r.x as int) <= ACCEL_LIMIT,
        abs_spec(r.y as int) <= ACCEL_LIMIT,
{
    let dist = law_dist(dpos);
    let force = r_force(rmin, dist, a);
    proof {
        lemma_component_force_bound(dpos.x as int, force as int);
        lemma_component_force_bound(dpos.y as int, force as int);
        lemma_scaled_force_bound(dpos.x as int * force as int);
        lemma_scaled_force_bound(dpos.y as int * force as int);
        assert(1 <= dist as int * dist as int <= 3000 * 3000) by (nonlinear_arith)
            requires 1 <= dist <= 3000;
    }
    let dd = dist * dist;
    let ax = tdiv(dpos.x * force * SCALE, dd);
    let ay = tdiv(dpos.y * force * SCALE, dd);
    Vec2::new(ax, ay)
}

/// Third radial law: the force divided by the cubed distance, computed as a
/// scaled division by the squared distance followed by one by the distance.
pub open spec fn acceleration3_spec(rmin: int, dpos: Vec2, a: int) -> (int, int) {
    let dist = sqrt_of(dpos.x * dpos.x + dpos.y * dpos.y);
    let force = r_force_spec(rmin, dist, a);
    (
        tdiv_spec(tdiv_spec(dpos.x * force * SCALE, dist * dist) * SCALE, dist),
        tdiv_spec(tdiv_spec(dpos.y * force * SCALE, dist * dist) * SCALE, dist),
    )
}

/// Third radial law (`force / dist^3`).
pub fn acceleration3(rmin: i64, dpos: Vec2, a: i64) -> (r: Vec2)
    requires
        law_pre(rmin as int, dpos, a as int),
    ensures
        r.x == acceleration3_spec(rmin as int, dpos, a as int).0,
        r.y == acceleration3_spec(rmin as int, dpos, a as int).1,
        abs_spec(r.x as int) <= ACCEL_LIMIT,
        abs_spec(r.y as int) <= ACCEL_LIMIT,
{
    let dist = law_dist(dpos);
    let force = r_force(rmin, dist, a);
    proof {
        lemma_component_force_bound(dpos.x as int, force as int);
        lemma_component_force_bound(dpos.y as int, force as int);
        lemma_scaled_force_bound(dpos.x as int * force as int);
        lemma_scaled_force_bound(dpos.y as int * force as int);
        assert(1 <= dist as int * dist as int <= 3000 * 3000) by (nonlinear_arith)
            requires 1 <= dist <= 3000;
    }
    let dd = dist * dist;
    let ix = tdiv(dpos.x * force * SCALE, dd);
    let iy = tdiv(dpos.y * force * SCALE, dd);
    proof {
        lemma_inner_cubed_bound(dpos.x as int, force as int, dist as int, ix as int);
        lemma_inner_cubed_bound(dpos.y as int, force as int, dist as int, iy as int);
    }
    let ax = tdiv(ix * SCALE, dist);
    let ay = tdiv(iy * SCALE, dist);
    Vec2::new(ax, ay)
}

/// The intermediate quotient of the cubed law stays small because the delta
/// component is itself bounded by the distance.
proof fn lemma_inner_cubed_bound(c: int, force: int, dist: int, inner: int)
    requires
        abs_spec(c) <= dist,
        1 <= dist <= 3000,
        abs_spec(force) <= FORCE_LIMIT,
        abs_spec(inner) <= abs_spec(c * force * SCALE) / (dist * dist),
    ensures
        abs_spec(inner) <= FORCE_LIMIT * SCALE,
        abs_spec(inner * SCALE) <= FORCE_LIMIT * SCALE * SCALE,
{
    let k = FORCE_LIMIT as int * SCALE as int;
    assert(abs_spec(c * force * SCALE) <= dist * k) by (nonlinear_arith)
        requires
            abs_spec(c) <= dist,
            abs_spec(force) <= FORCE_LIMIT,
            dist >= 1,
            k == FORCE_LIMIT as int * SCALE as int,
    ;
    assert(dist * k <= (dist * dist) * k) by (nonlinear_arith)
        requires
            1 <= dist,
            k >= 0,
    ;
    assert(dist * dist >= 1) by (nonlinear_arith)
        requires dist >= 1;
    vstd::arithmetic::div_mod::lemma_div_is_ordered(
        abs_spec(c * force * SCALE),
        (dist * dist) * k,
        dist * dist,
    );
    vstd::arithmetic::div_mod::lemma_div_multiples_vanish(k, dist * dist);
    assert(((dist * dist) * k) / (dist * dist) == k);
    assert(abs_spec(inner * SCALE) == abs_spec(inner) * SCALE) by (nonlinear_arith);
    assert(abs_spec(inner) * SCALE <= k * SCALE) by (nonlinear_arith)
        requires abs_spec(inner) <= k;
}

/// The perpendicular law: a force proportional to `1 - dist` applied at
/// ninety degrees to the neighbor delta.
pub open spec fn acceleration90_spec(rmin: int, dpos: Vec2, a: int) -> (int, int) {
    let dist = sqrt_of(dpos.x * dpos.x + dpos.y * dpos.y);
    let force = tdiv_spec(a * (SCALE - dist), SCALE as int);
    (tdiv_spec(-dpos.y * force, dist), tdiv_spec(dpos.x * force, dist))
}

/// Perpendicular law (`Deg90`).
pub fn acceleration90_(rmin: i64, dpos: Vec2, a: i64) -> (r: Vec2)
    requires
        law_pre(rmin as int, dpos, a as int),
    ensures
        r.x == acceleration90_spec(rmin as int, dpos, a as int).0,
        r.y == acceleration90_spec(rmin as int, dpos, a as int).1,
        abs_spec(r.x as int) <= ACCEL_LIMIT,
        abs_spec(r.y as int) <= ACCEL_LIMIT,
{
    let dist = law_dist(dpos);
    proof {
        assert(abs_spec(a as int * (SCALE - dist) as int) <= COEF_LIMIT * 4 * SCALE)
            by (nonlinear_arith)
            requires
                abs_spec(a as int) <= COEF_LIMIT,
                -3000 <= SCALE - dist <= SCALE,
                -COEF_LIMIT <= a <= COEF_LIMIT,
        ;
    }
    let force = tdiv(a * (SCALE - dist), SCALE);
    proof {
        lemma_component_force_bound(-dpos.y as int, force as int);
        lemma_component_force_bound(dpos.x as int, force as int);
    }
    let ax = tdiv(-dpos.y * force, dist);
    let ay = tdiv(dpos.x * force, dist);
    Vec2::new(ax, ay)
}

/// A half turn in coefficient units wrapped into `[-SCALE, SCALE)`.
pub open spec fn reduce_turn_spec(a: int) -> int {
    ((a + SCALE) % (2 * SCALE as int)) - SCALE
}

/// Quadratic approximation of `sin(pi * v / SCALE) * SCALE` on one period.
pub open spec fn sin_pi_spec(v: int) -> int {
    tdiv_spec(4 * v * (SCALE - abs_spec(v)), SCALE as int)
}

/// `cos` via the shifted `sin`, the shift wrapped back into the period.
pub open spec fn cos_pi_spec(v: int) -> int {
    sin_pi_spec(
        if v + SCALE / 2 > SCALE {
            v + SCALE / 2 - 2 * SCALE
        } else {
            v + SCALE / 2
        },
    )
}

fn sin_pi(v: i64) -> (r: i64)
    requires
        -SCALE <= v <= SCALE,
    ensures
        r == sin_pi_spec(v as int),
        abs_spec(r as int) <= 4 * SCALE,
{
    let av = if v >= 0 {
        v
    } else {
        -v
    };
    proof {
        assert(abs_spec(4 * v as int * (SCALE - av) as int) <= 4 * SCALE * SCALE)
            by (nonlinear_arith)
            requires
                abs_spec(v as int) == av,
                0 <= av <= SCALE,
        ;
    }
    tdiv(4 * v * (SCALE - av), SCALE)
}

fn cos_pi(v: i64) -> (r: i64)
    requires
        -SCALE <= v <= SCALE,
    ensures
        r == cos_pi_spec(v as int),
        abs_spec(r as int) <= 4 * SCALE,
{
    let w = if v + SCALE / 2 > SCALE {
        v + SCALE / 2 - 2 * SCALE
    } else {
        v + SCALE / 2
    };
    sin_pi(w)
}

/// The rotating law: the delta turned by the angle `-a * pi` (sine and
/// cosine by the quadratic approximation above), scaled by `1 - dist` over
/// the distance.
pub open spec fn acceleration_attr_spec(rmin: int, dpos: Vec2, a: int) -> (int, int) {
    let dist = sqrt_of(dpos.x * dpos.x + dpos.y * dpos.y);
    let ar = reduce_turn_spec(a);
    let c = cos_pi_spec(ar);
    let s = sin_pi_spec(ar);
    (
        tdiv_spec((c * dpos.x - s * dpos.y) * (SCALE - dist), SCALE * dist),
        tdiv_spec((s * dpos.x + c * dpos.y) * (SCALE - dist), SCALE * dist),
    )
}

/// Rotating law (`Attr`).
pub fn acceleration_attr(rmin: i64, dpos: Vec2, a: i64) -> (r: Vec2)
    requires
        law_pre(rmin as int, dpos, a as int),
    ensures
        r.x == acceleration_attr_spec(rmin as int, dpos, a as int).0,
        r.y == acceleration_attr_spec(rmin as int, dpos, a as int).1,
        abs_spec(r.x as int) <= ACCEL_LIMIT,
        abs_spec(r.y as int) <= ACCEL_LIMIT,
{
    let dist = law_dist(dpos);
    let ar = emod(a + SCALE, 2 * SCALE) - SCALE;
    let c = cos_pi(ar);
    let s = sin_pi(ar);
    proof {
        lemma_rotated_bound(c as int, s as int, dpos.x as int, dpos.y as int, dist as int);
        assert(1 <= SCALE as int * dist as int <= 1024 * 3000) by (nonlinear_arith)
            requires 1 <= dist <= 3000;
    }
    let sd = SCALE * dist;
    let ax = tdiv((c * dpos.x - s * dpos.y) * (SCALE - dist), sd);
    let ay = tdiv((s * dpos.x + c * dpos.y) * (SCALE - dist), sd);
    Vec2::new(ax, ay)
}

/// A rotated component times the tent force fits comfortably.
proof fn lemma_rotated_bound(c: int, s: int, dx: int, dy: int, dist: int)
    requires
        abs_spec(c) <= 4 * SCALE,
        abs_spec(s) <= 4 * SCALE,
        -2 * SCALE <= dx <= 2 * SCALE,
        -2 * SCALE <= dy <= 2 * SCALE,
        1 <= dist <= 3000,
    ensures
        abs_spec(c * dx) <= 8 * SCALE * SCALE,
        abs_spec(s * dy) <= 8 * SCALE * SCALE,
        abs_spec(s * dx) <= 8 * SCALE * SCALE,
        abs_spec(c * dy) <= 8 * SCALE * SCALE,
        abs_spec((c * dx - s * dy) * (SCALE - dist)) <= 16 * SCALE * SCALE * 4 * SCALE,
        abs_spec((s * dx + c * dy) * (SCALE - dist)) <= 16 * SCALE * SCALE * 4 * SCALE,
{
    assert(abs_spec(c * dx) <= 8 * SCALE * SCALE && abs_spec(s * dy) <= 8 * SCALE * SCALE
        && abs_spec(s * dx) <= 8 * SCALE * SCALE && abs_spec(c * dy) <= 8 * SCALE * SCALE)
        by (nonlinear_arith)
        requires
            abs_spec(c) <= 4 * SCALE,
            abs_spec(s) <= 4 * SCALE,
            abs_spec(dx) <= 2 * SCALE,
            abs_spec(dy) <= 2 * SCALE,
    ;
    assert(abs_spec((c * dx - s * dy) * (SCALE - dist)) <= 16 * SCALE * SCALE * 4 * SCALE
        && abs_spec((s * dx + c * dy) * (SCALE - dist)) <= 16 * SCALE * SCALE * 4 * SCALE)
        by (nonlinear_arith)
        requires
            abs_spec(c * dx) <= 8 * SCALE * SCALE,
            abs_spec(s * dy) <= 8 * SCALE * SCALE,
            abs_spec(s * dx) <= 8 * SCALE * SCALE,
            abs_spec(c * dy) <= 8 * SCALE * SCALE,
            abs_spec(SCALE - dist) <= 4 * SCALE,
    ;
}

/// The gravity-like law's strength numerator (one hundredth, fixed-point).
pub const PLANETS_NUM: i64 = 10;

/// The gravity-like law: attraction along the delta with inverse-cube
/// falloff, independent of the coefficient, the distance floored at one
/// hundredth.
pub open spec fn planets_spec(rmin: int, dpos: Vec2, a: int) -> (int, int) {
    let dist = sqrt_of(dpos.x * dpos.x + dpos.y * dpos.y);
    let d = if dist < PLANETS_NUM {
        PLANETS_NUM as int
    } else {
        dist
    };
    (
        tdiv_spec(dpos.x * PLANETS_NUM * SCALE * SCALE, d * d * d),
        tdiv_spec(dpos.y * PLANETS_NUM * SCALE * SCALE, d * d * d),
    )
}

/// Gravity-like law (`Planets`).
pub fn planets(rmin: i64, dpos: Vec2, a: i64) -> (r: Vec2)
    requires
        law_pre(rmin as int, dpos, a as int),
    ensures
        r.x == planets_spec(rmin as int, dpos, a as int).0,
        r.y == planets_spec(rmin as int, dpos, a as int).1,
        abs_spec(r.x as int) <= ACCEL_LIMIT,
        abs_spec(r.y as int) <= ACCEL_LIMIT,
{
    let dist = law_dist(dpos);
    let d = if dist < PLANETS_NUM {
        PLANETS_NUM
    } else {
        dist
    };
    proof {
        assert(abs_spec(dpos.x as int * PLANETS_NUM * SCALE * SCALE) <= 2 * SCALE * PLANETS_NUM
            * SCALE * SCALE && abs_spec(dpos.y as int * PLANETS_NUM * SCALE * SCALE) <= 2 * SCALE
            * PLANETS_NUM * SCALE * SCALE) by (nonlinear_arith)
            requires
                abs_spec(dpos.x as int) <= 2 * SCALE,
                abs_spec(dpos.y as int) <= 2 * SCALE,
        ;
        assert(1 <= d as int * d as int <= 3000 * 3000) by (nonlinear_arith)
            requires 1 <= d <= 3000;
        assert(1 <= d as int * d as int * d as int <= 3000 * 3000 * 3000) by (nonlinear_arith)
            requires 1 <= d <= 3000;
    }
    let ddd = d * d * d;
    let ax = tdiv(dpos.x * PLANETS_NUM * SCALE * SCALE, ddd);
    let ay = tdiv(dpos.y * PLANETS_NUM * SCALE * SCALE, ddd);
    Vec2::new(ax, ay)
}

/// The acceleration of the selected law.
pub open spec fn accel_of_spec(
    method: AccelerationMethod,
    rmin: int,
    dpos: Vec2,
    a: int,
) -> (int, int) {
    match method {
        AccelerationMethod::R1 => acceleration_spec(rmin, dpos, a),
        AccelerationMethod::R2 => acceleration2_spec(rmin, dpos, a),
        AccelerationMethod::R3 => acceleration3_spec(rmin, dpos, a),
        AccelerationMethod::Deg90 => acceleration90_spec(rmin, dpos, a),
        AccelerationMethod::Attr => acceleration_attr_spec(rmin, dpos, a),
        AccelerationMethod::Planets => planets_spec(rmin, dpos, a),
    }
}

/// Dispatch to the selected acceleration law.
pub fn acceleration_for(method: AccelerationMethod, rmin: i64, dpos: Vec2, a: i64) -> (r: Vec2)
    requires
        law_pre(rmin as int, dpos, a as int),
    ensures
        r.x == accel_of_spec(method, rmin as int, dpos, a as int).0,
        r.y == accel_of_spec(method, rmin as int, dpos, a as int).1,
        abs_spec(r.x as int) <= ACCEL_LIMIT,
        abs_spec(r.y as int) <= ACCEL_LIMIT,
{
    match method {
        AccelerationMethod::R1 => acceleration(rmin, dpos, a),
        AccelerationMethod::R2 => acceleration2(rmin, dpos, a),
        AccelerationMethod::R3 => acceleration3(rmin, dpos, a),
        AccelerationMethod::Deg90 => acceleration90_(rmin, dpos, a),
        AccelerationMethod::Attr => acceleration_attr(rmin, dpos, a),
        AccelerationMethod::Planets => planets(rmin, dpos, a),
    }
}

/// The product of a delta component and a bounded force fits comfortably.
proof fn lemma_component_force_bound(c: int, force: int)
    requires
        -2 * SCALE <= c <= 2 * SCALE,
        abs_spec(force) <= FORCE_LIMIT,
    ensures
        abs_spec(c * force) <= 2 * SCALE * FORCE_LIMIT,
{
    assert(abs_spec(c * force) <= 2 * SCALE * FORCE_LIMIT) by (nonlinear_arith)
        requires
            abs_spec(c) <= 2 * SCALE,
            abs_spec(force) <= FORCE_LIMIT,
    ;
}

/// Scaling such a product by `SCALE` still fits.
proof fn lemma_scaled_force_bound(p: int)
    requires
        abs_spec(p) <= 2 * SCALE * FORCE_LIMIT,
    ensures
        abs_spec(p * SCALE) <= 2 * SCALE * FORCE_LIMIT * SCALE,
{
    assert(abs_spec(p * SCALE) <= 2 * SCALE * FORCE_LIMIT * SCALE) by (nonlinear_arith)
        requires abs_spec(p) <= 2 * SCALE * FORCE_LIMIT;
}

/// Truncating division for wide intermediates.
pub fn tdiv128(n: i128, d: i128) -> (r: i128)
    requires
        d >= 1,
        n > i128::MIN,
    ensures
        r == tdiv_spec(n as int, d as int),
        abs_spec(r as int) <= abs_spec(n as int) / (d as int),
        abs_spec(r as int) <= abs_spec(n as int),
{
    proof {
        vstd::arithmetic::div_mod::lemma_div_is_ordered_by_denominator(
            abs_spec(n as int),
            1,
            d as int,
        );
        vstd::arithmetic::div_mod::lemma_div_is_ordered(0, abs_spec(n as int), d as int);
    }
    if n >= 0 {
        ((n as u128) / (d as u128)) as i128
    } else {
        let m: u128 = (-n) as u128;
        -((m / (d as u128)) as i128)
    }
}

pub open spec fn clamp_spec(v: int, lim: int) -> int {
    if v < -lim {
        -lim
    } else if v > lim {
        lim
    } else {
        v
    }
}

fn clamp128(v: i128, lim: i128) -> (r: i128)
    requires
        lim >= 0,
    ensures
        r == clamp_spec(v as int, lim as int),
        -lim <= r <= lim,
{
    if v < -lim {
        -lim
    } else if v > lim {
        lim
    } else {
        v
    }
}

/// A particle's position lies inside the world box of the snapshot.
pub open spec fn in_bounds(s: GpuSettings, p: Particle) -> bool {
    &&& -s.bounds.x <= p.position.x <= s.bounds.x
    &&& -s.bounds.y <= p.position.y <= s.bounds.y
}

/// The acceleration particle `p` receives from one neighbor `q`: the
/// toroidally closest delta, skipped when it is zero (self) or beyond the
/// cutoff, otherwise normalized by the cutoff and fed to the selected law
/// with the coefficient of the two colors.
pub open spec fn pair_accel_spec(s: GpuSettings, p: Particle, q: Particle) -> (int, int) {
    let dx = torus_delta_spec(q.position.x - p.position.x, s.bounds.x as int);
    let dy = torus_delta_spec(q.position.y - p.position.y, s.bounds.y as int);
    let d2 = dx * dx + dy * dy;
    if d2 == 0 || d2 > s.max_distance * s.max_distance {
        (0, 0)
    } else {
        let dnx = tdiv_spec(dx * SCALE, s.max_distance as int);
        let dny = tdiv_spec(dy * SCALE, s.max_distance as int);
        if dnx * dnx + dny * dny == 0 {
            (0, 0)
        } else {
            accel_of_spec(
                s.acceleration_method,
                s.rel_min_distance as int,
                Vec2 { x: dnx as i64, y: dny as i64 },
                s.matrix.get_spec(q.color.id as int, p.color.id as int) as int,
            )
        }
    }
}

/// Sum of the pair accelerations from the sorted slots `[lo, hi)`.
pub open spec fn range_accel_sum(
    s: GpuSettings,
    particles: Seq<Particle>,
    sorted: Seq<u32>,
    p: Particle,
    lo: int,
    hi: int,
) -> (int, int)
    decreases hi - lo,
{
    if hi <= lo {
        (0, 0)
    } else {
        let prev = range_accel_sum(s, particles, sorted, p, lo, hi - 1);
        let c = pair_accel_spec(s, p, particles[sorted[hi - 1] as int]);
        (prev.0 + c.0, prev.1 + c.1)
    }
}

/// Sum of the pair accelerations over the first `k` neighbor cells.
pub open spec fn cells_accel_sum(
    s: GpuSettings,
    particles: Seq<Particle>,
    sorted: Seq<u32>,
    offsets: Seq<u32>,
    p: Particle,
    cells9: Seq<int>,
    k: int,
) -> (int, int)
    decreases k,
{
    if k <= 0 {
        (0, 0)
    } else {
        let prev = cells_accel_sum(s, particles, sorted, offsets, p, cells9, k - 1);
        let c = range_accel_sum(
            s,
            particles,
            sorted,
            p,
            offsets[cells9[k - 1]] as int,
            offsets[cells9[k - 1] + 1] as int,
        );
        (prev.0 + c.0, prev.1 + c.1)
    }
}

/// The nine toroidally adjacent cells (including its own) of the cell of
/// particle `p`, flattened row by row.
pub open spec fn neighbor_cells_spec(s: GpuSettings, p: Particle) -> Seq<int> {
    let ix = axis_cell_spec(
        p.position.x as int,
        s.bounds.x as int,
        s.max_distance as int,
        s.cell_count.x as int,
    );
    let iy = axis_cell_spec(
        p.position.y as int,
        s.bounds.y as int,
        s.max_distance as int,
        s.cell_count.y as int,
    );
    let nx = s.cell_count.x as int;
    let ny = s.cell_count.y as int;
    seq![
        prev_wrap(ix, nx) + prev_wrap(iy, ny) * nx,
        ix + prev_wrap(iy, ny) * nx,
        next_wrap(ix, nx) + prev_wrap(iy, ny) * nx,
        prev_wrap(ix, nx) + iy * nx,
        ix + iy * nx,
        next_wrap(ix, nx) + iy * nx,
        prev_wrap(ix, nx) + next_wrap(iy, ny) * nx,
        ix + next_wrap(iy, ny) * nx,
        next_wrap(ix, nx) + next_wrap(iy, ny) * nx,
    ]
}

/// The total acceleration particle `p` accumulates this frame: the sum over
/// its own and the eight toroidally adjacent grid cells of the pair
/// accelerations from every particle scattered into those cells.
pub open spec fn accel_sum_spec(
    s: GpuSettings,
    particles: Seq<Particle>,
    sorted: Seq<u32>,
    offsets: Seq<u32>,
    p: Particle,
) -> (int, int) {
    cells_accel_sum(s, particles, sorted, offsets, p, neighbor_cells_spec(s, p), 9)
}

/// Largest magnitude `accumulate_forces` can return.
pub open spec fn accel_sum_limit(n: int) -> int {
    9 * n * ACCEL_LIMIT
}

/// The buffers the force stage reads, in the shape the partitioner ensures.
pub open spec fn stage_pre(
    s: GpuSettings,
    particles: Seq<Particle>,
    sorted: Seq<u32>,
    offsets: Seq<u32>,
) -> bool {
    &&& s.wf()
    &&& particles.len() <= 0x4000_0000
    &&& sorted.len() <= particles.len()
    &&& forall|k: int| 0 <= k < sorted.len() ==> #[trigger] sorted[k] < particles.len()
    &&& offsets.len() == s.total_cells() + 1
    &&& forall|c: int| 0 <= c <= s.total_cells() ==> #[trigger] offsets[c] <= sorted.len()
    &&& forall|i: int| 0 <= i < particles.len() ==> in_bounds(s, #[trigger] particles[i])
    &&& forall|i: int| 0 <= i < particles.len() ==> (#[trigger] particles[i]).color.id < 16
}

/// One neighbor's contribution, exactly as the spec sums it.
fn pair_accel(s: &GpuSettings, p: Particle, q: Particle) -> (r: (i64, i64))
    requires
        s.wf(),
        in_bounds(*s, p),
        in_bounds(*s, q),
        p.color.id < 16,
        q.color.id < 16,
    ensures
        r.0 == pair_accel_spec(*s, p, q).0,
        r.1 == pair_accel_spec(*s, p, q).1,
        abs_spec(r.0 as int) <= ACCEL_LIMIT,
        abs_spec(r.1 as int) <= ACCEL_LIMIT,
{
    let dx = torus_delta(p.position.x, q.position.x, s.bounds.x);
    let dy = torus_delta(p.position.y, q.position.y, s.bounds.y);
    proof {
        assert(0 <= dx as int * dx as int <= 0x4000_0000_0000 * 0x4000_0000_0000 && 0
            <= dy as int * dy as int <= 0x4000_0000_0000 * 0x4000_0000_0000 && 0
            <= s.max_distance as int * s.max_distance as int <= 0x4000_0000_0000
            * 0x4000_0000_0000) by (nonlinear_arith)
            requires
                abs_spec(dx as int) <= 0x4000_0000_0000,
                abs_spec(dy as int) <= 0x4000_0000_0000,
                0 <= s.max_distance <= 0x4000_0000_0000,
        ;
    }
    let d2: i128 = dx as i128 * dx as i128 + dy as i128 * dy as i128;
    let md2: i128 = s.max_distance as i128 * s.max_distance as i128;
    if d2 == 0 || d2 > md2 {
        (0, 0)
    } else {
        proof {
            assert(abs_spec(dx as int) <= s.max_distance && abs_spec(dy as int)
                <= s.max_distance) by (nonlinear_arith)
                requires
                    dx * dx + dy * dy <= s.max_distance * s.max_distance,
                    dx * dx >= 0,
                    dy * dy >= 0,
                    s.max_distance >= 1,
            ;
            lemma_norm_bound(dx as int, s.max_distance as int);
            lemma_norm_bound(dy as int, s.max_distance as int);
        }
        let dnx = tdiv(dx * SCALE, s.max_distance);
        let dny = tdiv(dy * SCALE, s.max_distance);
        proof {
            assert(0 <= dnx as int * dnx as int <= 1024 * 1024 && 0 <= dny as int * dny as int
                <= 1024 * 1024 && (dnx as int * dnx as int == 0 <==> dnx as int == 0) && (
            dny as int * dny as int == 0 <==> dny as int == 0)) by (nonlinear_arith)
                requires
                    abs_spec(dnx as int) <= 1024,
                    abs_spec(dny as int) <= 1024,
            ;
        }
        let n2: i64 = dnx * dnx + dny * dny;
        if n2 == 0 {
            (0, 0)
        } else {
            let a = s.matrix.get(q.color.id as usize, p.color.id as usize);
            let acc = acceleration_for(
                s.acceleration_method,
                s.rel_min_distance,
                Vec2::new(dnx, dny),
                a,
            );
            (acc.x, acc.y)
        }
    }
}

/// A delta within the cutoff normalizes to at most one cutoff length.
proof fn lemma_norm_bound(d: int, md: int)
    requires
        md >= 1,
        abs_spec(d) <= md,
    ensures
        abs_spec(d * SCALE) <= md * SCALE,
        abs_spec(tdiv_spec(d * SCALE, md)) <= SCALE,
{
    assert(abs_spec(d * SCALE) == abs_spec(d) * SCALE) by (nonlinear_arith);
    assert(abs_spec(d) * SCALE <= md * SCALE) by (nonlinear_arith)
        requires abs_spec(d) <= md;
    vstd::arithmetic::div_mod::lemma_div_is_ordered(abs_spec(d * SCALE), md * SCALE, md);
    vstd::arithmetic::div_mod::lemma_div_multiples_vanish(SCALE as int, md);
    assert((md * SCALE) / md == SCALE);
    if d * SCALE >= 0 {
        vstd::arithmetic::div_mod::lemma_div_is_ordered(0, d * SCALE, md);
    } else {
        vstd::arithmetic::div_mod::lemma_div_is_ordered(0, -(d * SCALE), md);
    }
}

/// Force gather pass for one particle: walk the nine toroidally adjacent
/// cells of its own grid cell and sum the pair acceleration from every
/// particle the scatter pass placed there.
pub fn accumulate_forces(
    s: &GpuSettings,
    particles: &Vec<Particle>,
    sorted: &Vec<u32>,
    offsets: &Vec<u32>,
    p: Particle,
) -> (r: (i128, i128))
    requires
        stage_pre(*s, particles@, sorted@, offsets@),
        in_bounds(*s, p),
        p.color.id < 16,
    ensures
        r.0 == accel_sum_spec(*s, particles@, sorted@, offsets@, p).0,
        r.1 == accel_sum_spec(*s, particles@, sorted@, offsets@, p).1,
        abs_spec(r.0 as int) <= accel_sum_limit(particles@.len() as int),
        abs_spec(r.1 as int) <= accel_sum_limit(particles@.len() as int),
{
    let ghost cells9 = neighbor_cells_spec(*s, p);
    let n = particles.len();
    let coords = cell_coords(s, p.position);
    proof {
        assert(s.cell_count.x as int * s.cell_count.y as int <= 0x1000_0000)
            by (nonlinear_arith)
            requires
                0 < s.cell_count.x <= 4096,
                0 < s.cell_count.y <= 4096,
        ;
    }
    let around = surrounding_cells(coords, s.cell_count);
    proof {
        assert(forall|k: int| 0 <= k < 9 ==> #[trigger] around@[k] == cells9[k]);
        assert(forall|k: int| 0 <= k < 9 ==> #[trigger] cells9[k] < s.total_cells());
        assert(forall|k: int| 0 <= k < 9 ==> 0 <= #[trigger] cells9[k]);
    }
    let mut ax: i128 = 0;
    let mut ay: i128 = 0;
    let mut k: usize = 0;
    while k < 9
        invariant
            stage_pre(*s, particles@, sorted@, offsets@),
            in_bounds(*s, p),
            p.color.id < 16,
            n == particles@.len(),
            cells9 == neighbor_cells_spec(*s, p),
            cells9.len() == 9,
            forall|k2: int| 0 <= k2 < 9 ==> #[trigger] around@[k2] == cells9[k2],
            forall|k2: int| 0 <= k2 < 9 ==> 0 <= #[trigger] cells9[k2] < s.total_cells(),
            k <= 9,
            ax == cells_accel_sum(*s, particles@, sorted@, offsets@, p, cells9, k as int).0,
            ay == cells_accel_sum(*s, particles@, sorted@, offsets@, p, cells9, k as int).1,
            abs_spec(ax as int) <= k as int * n as int * ACCEL_LIMIT,
            abs_spec(ay as int) <= k as int * n as int * ACCEL_LIMIT,
        decreases 9 - k,
    {
        let cell = around[k] as usize;
        proof {
            assert(s.total_cells() <= 0x1000_0000) by (nonlinear_arith)
                requires
                    0 < s.cell_count.x <= 4096,
                    0 < s.cell_count.y <= 4096,
                    s.total_cells() == s.cell_count.x as int * s.cell_count.y as int,
            ;
            assert(cell == cells9[k as int] && 0 <= cell < s.total_cells());
        }
        let lo = offsets[cell] as usize;
        let hi = offsets[cell + 1] as usize;
        let ghost loi = lo as int;
        let ghost hii = hi as int;
        let ghost ax0 = ax;
        let ghost ay0 = ay;
        if lo < hi {
            let mut j: usize = lo;
            while j < hi
                invariant
                    stage_pre(*s, particles@, sorted@, offsets@),
                    in_bounds(*s, p),
                    p.color.id < 16,
                    n == particles@.len(),
                    k < 9,
                    loi == lo,
                    hii == hi,
                    lo <= j <= hi <= sorted@.len(),
                    ax == ax0 + range_accel_sum(*s, particles@, sorted@, p, loi, j as int).0,
                    ay == ay0 + range_accel_sum(*s, particles@, sorted@, p, loi, j as int).1,
                    abs_spec(ax0 as int) <= k as int * n as int * ACCEL_LIMIT,
                    abs_spec(ay0 as int) <= k as int * n as int * ACCEL_LIMIT,
                    abs_spec(ax as int) <= (k as int * n as int + (j - lo)) * ACCEL_LIMIT,
                    abs_spec(ay as int) <= (k as int * n as int + (j - lo)) * ACCEL_LIMIT,
                decreases hi - j,
            {
                let qi = sorted[j] as usize;
                let q = particles[qi];
                let c = pair_accel(s, p, q);
                proof {
                    lemma_accum_step(ax as int, c.0 as int, k as int, n as int, j as int - loi);
                    lemma_accum_step(ay as int, c.1 as int, k as int, n as int, j as int - loi);
                }
                ax = ax + c.0 as i128;
                ay = ay + c.1 as i128;
                j = j + 1;
            }
        }
        proof {
            if hii <= loi {
                assert(range_accel_sum(*s, particles@, sorted@, p, loi, hii).0 == 0);
                assert(range_accel_sum(*s, particles@, sorted@, p, loi, hii).1 == 0);
            }
            assert(ax == ax0 + range_accel_sum(*s, particles@, sorted@, p, loi, hii).0);
            assert(cells_accel_sum(*s, particles@, sorted@, offsets@, p, cells9, k as int + 1).0
                == ax0 + range_accel_sum(
                *s,
                particles@,
                sorted@,
                p,
                offsets@[cells9[k as int]] as int,
                offsets@[cells9[k as int] + 1] as int,
            ).0);
            lemma_accum_block(ax as int, k as int, n as int, hii - loi);
            lemma_accum_block(ay as int, k as int, n as int, hii - loi);
        }
        k = k + 1;
    }
    (ax, ay)
}

/// Intermediate clamp applied between the scaled factors of the velocity
/// update, so every product stays representable.
pub const DV_LIMIT: i128 = 0x100_0000_0000;

/// The velocity a particle leaves the frame with: the old velocity decayed
/// by the retention factor, plus the accumulated acceleration scaled by the
/// cutoff distance, the force factor and the frame time (each scaled product
/// clamped), the result clamped to the maximum speed.
pub open spec fn new_velocity_spec(s: GpuSettings, v: Vec2, acc: (int, int)) -> (int, int) {
    let vx0 = tdiv_spec(v.x * s.decay, SCALE as int);
    let vy0 = tdiv_spec(v.y * s.decay, SCALE as int);
    let t1x = clamp_spec(tdiv_spec(acc.0 * s.max_distance, SCALE as int), DV_LIMIT as int);
    let t1y = clamp_spec(tdiv_spec(acc.1 * s.max_distance, SCALE as int), DV_LIMIT as int);
    let t2x = clamp_spec(tdiv_spec(t1x * s.force_factor, SCALE as int), DV_LIMIT as int);
    let t2y = clamp_spec(tdiv_spec(t1y * s.force_factor, SCALE as int), DV_LIMIT as int);
    let t3x = clamp_spec(tdiv_spec(t2x * s.delta_time, SCALE as int), SETTING_LIMIT as int);
    let t3y = clamp_spec(tdiv_spec(t2y * s.delta_time, SCALE as int), SETTING_LIMIT as int);
    let vx1 = vx0 + t3x;
    let vy1 = vy0 + t3y;
    let mag = sqrt_of(vx1 * vx1 + vy1 * vy1);
    if mag > s.max_velocity {
        (tdiv_spec(vx1 * s.max_velocity, mag), tdiv_spec(vy1 * s.max_velocity, mag))
    } else {
        (vx1, vy1)
    }
}

/// Velocity update stage for one particle.
pub fn update_velocity(s: &GpuSettings, p: Particle, acc: (i128, i128)) -> (r: Particle)
    requires
        s.wf(),
        abs_spec(p.velocity.x as int) <= SETTING_LIMIT,
        abs_spec(p.velocity.y as int) <= SETTING_LIMIT,
        abs_spec(acc.0 as int) <= 9 * 0x4000_0000 * ACCEL_LIMIT,
        abs_spec(acc.1 as int) <= 9 * 0x4000_0000 * ACCEL_LIMIT,
    ensures
        r.position == p.position,
        r.color == p.color,
        r.velocity.x == new_velocity_spec(*s, p.velocity, (acc.0 as int, acc.1 as int)).0,
        r.velocity.y == new_velocity_spec(*s, p.velocity, (acc.0 as int, acc.1 as int)).1,
        abs_spec(r.velocity.x as int) <= s.max_velocity,
        abs_spec(r.velocity.y as int) <= s.max_velocity,
{
    proof {
        lemma_decay_bound(p.velocity.x as int, s.decay as int);
        lemma_decay_bound(p.velocity.y as int, s.decay as int);
    }
    let vx0 = tdiv(p.velocity.x * s.decay, SCALE);
    let vy0 = tdiv(p.velocity.y * s.decay, SCALE);
    proof {
        assert(abs_spec(acc.0 as int * s.max_distance as int) <= 9 * 0x4000_0000 * ACCEL_LIMIT
            * 0x4000_0000 && abs_spec(acc.1 as int * s.max_distance as int) <= 9 * 0x4000_0000
            * ACCEL_LIMIT * 0x4000_0000) by (nonlinear_arith)
            requires
                abs_spec(acc.0 as int) <= 9 * 0x4000_0000 * ACCEL_LIMIT,
                abs_spec(acc.1 as int) <= 9 * 0x4000_0000 * ACCEL_LIMIT,
                0 <= s.max_distance <= 0x4000_0000,
        ;
    }
    let t1x = clamp128(tdiv128(acc.0 * s.max_distance as i128, SCALE as i128), DV_LIMIT);
    let t1y = clamp128(tdiv128(acc.1 * s.max_distance as i128, SCALE as i128), DV_LIMIT);
    proof {
        lemma_stage_product(t1x as int, s.force_factor as int);
        lemma_stage_product(t1y as int, s.force_factor as int);
    }
    let t2x = clamp128(tdiv128(t1x * s.force_factor as i128, SCALE as i128), DV_LIMIT);
    let t2y = clamp128(tdiv128(t1y * s.force_factor as i128, SCALE as i128), DV_LIMIT);
    proof {
        lemma_stage_product(t2x as int, s.delta_time as int);
        lemma_stage_product(t2y as int, s.delta_time as int);
    }
    let t3x = clamp128(tdiv128(t2x * s.delta_time as i128, SCALE as i128), SETTING_LIMIT as i128);
    let t3y = clamp128(tdiv128(t2y * s.delta_time as i128, SCALE as i128), SETTING_LIMIT as i128);
    let vx1: i64 = vx0 + t3x as i64;
    let vy1: i64 = vy0 + t3y as i64;
    proof {
        assert(0 <= vx1 as int * vx1 as int <= 0x8000_0000 * 0x8000_0000 && 0 <= vy1 as int
            * vy1 as int <= 0x8000_0000 * 0x8000_0000) by (nonlinear_arith)
            requires
                abs_spec(vx1 as int) <= 0x8000_0000,
                abs_spec(vy1 as int) <= 0x8000_0000,
        ;
    }
    let sq: i128 = vx1 as i128 * vx1 as i128 + vy1 as i128 * vy1 as i128;
    proof {
        assert(sq as u64 as int == sq as int);
    }
    let mag_u = isqrt(sq as u64);
    proof {
        let mu = mag_u as int;
        assert(mu <= 0xB504_F334) by (nonlinear_arith)
            requires
                mu >= 0,
                mu * mu <= 0x8000_0000 * 0x8000_0000 * 2,
        ;
    }
    let mag: i64 = mag_u as i64;
    proof {
        let m = mag as int;
        assert(abs_spec(vx1 as int) <= m && abs_spec(vy1 as int) <= m) by (nonlinear_arith)
            requires
                (vx1 as int * vx1 as int + vy1 as int * vy1 as int) < (m + 1) * (m + 1),
                vx1 as int * vx1 as int >= 0,
                vy1 as int * vy1 as int >= 0,
                m >= 0,
        ;
    }
    let velocity = if mag > s.max_velocity {
        proof {
            lemma_speed_clamp(vx1 as int, s.max_velocity as int, mag as int);
            lemma_speed_clamp(vy1 as int, s.max_velocity as int, mag as int);
        }
        Vec2::new(tdiv(vx1 * s.max_velocity, mag), tdiv(vy1 * s.max_velocity, mag))
    } else {
        Vec2::new(vx1, vy1)
    };
    Particle::new(p.position, velocity, p.color)
}

/// Decaying a velocity component never grows it.
proof fn lemma_decay_bound(v: int, decay: int)
    requires
        abs_spec(v) <= SETTING_LIMIT,
        0 <= decay <= SCALE,
    ensures
        abs_spec(v * decay) <= SETTING_LIMIT * SCALE,
        abs_spec(tdiv_spec(v * decay, SCALE as int)) <= abs_spec(v),
{
    assert(abs_spec(v * decay) == abs_spec(v) * decay) by (nonlinear_arith)
        requires decay >= 0;
    assert(abs_spec(v) * decay <= abs_spec(v) * SCALE && abs_spec(v) * SCALE <= SETTING_LIMIT
        * SCALE) by (nonlinear_arith)
        requires
            0 <= decay <= SCALE,
            0 <= abs_spec(v) <= SETTING_LIMIT,
    ;
    vstd::arithmetic::div_mod::lemma_div_is_ordered(
        abs_spec(v * decay),
        abs_spec(v) * SCALE,
        SCALE as int,
    );
    vstd::arithmetic::div_mod::lemma_div_multiples_vanish(abs_spec(v), SCALE as int);
    assert((abs_spec(v) * SCALE) / (SCALE as int) == abs_spec(v)) by {
        assert(abs_spec(v) * SCALE == SCALE as int * abs_spec(v)) by (nonlinear_arith);
    }
    vstd::arithmetic::div_mod::lemma_div_is_ordered(0, abs_spec(v * decay), SCALE as int);
}

/// A clamped stage value times a bounded setting stays representable.
proof fn lemma_stage_product(t: int, f: int)
    requires
        abs_spec(t) <= DV_LIMIT,
        0 <= f <= SETTING_LIMIT,
    ensures
        abs_spec(t * f) <= DV_LIMIT * SETTING_LIMIT,
{
    assert(abs_spec(t * f) <= DV_LIMIT * SETTING_LIMIT) by (nonlinear_arith)
        requires
            abs_spec(t) <= DV_LIMIT,
            0 <= f <= SETTING_LIMIT,
    ;
}

/// Scaling a component by `max_velocity / mag` caps it at the maximum speed.
proof fn lemma_speed_clamp(v: int, maxv: int, mag: int)
    requires
        abs_spec(v) <= mag,
        1 <= mag,
        0 <= maxv <= mag,
        maxv <= SETTING_LIMIT,
        mag <= 0xB504_F334,
    ensures
        abs_spec(v * maxv) <= mag * maxv,
        mag * maxv <= 0xB504_F334 * SETTING_LIMIT,
        abs_spec(tdiv_spec(v * maxv, mag)) <= maxv,
{
    assert(mag * maxv <= 0xB504_F334 * SETTING_LIMIT) by (nonlinear_arith)
        requires
            1 <= mag <= 0xB504_F334,
            0 <= maxv <= SETTING_LIMIT,
    ;
    assert(abs_spec(v * maxv) == abs_spec(v) * maxv && abs_spec(v) * maxv <= mag * maxv)
        by (nonlinear_arith)
        requires
            0 <= maxv,
            abs_spec(v) <= mag,
    ;
    vstd::arithmetic::div_mod::lemma_div_is_ordered(abs_spec(v * maxv), mag * maxv, mag);
    vstd::arithmetic::div_mod::lemma_div_multiples_vanish(maxv, mag);
    assert((mag * maxv) / mag == maxv);
    vstd::arithmetic::div_mod::lemma_div_is_ordered(0, abs_spec(v * maxv), mag);
}

/// The position a particle leaves the frame with: one explicit Euler step
/// wrapped back into the toroidal world box.
pub open spec fn new_position_spec(s: GpuSettings, p: Particle) -> (int, int) {
    (
        wrap_spec(p.position.x + tdiv_spec(p.velocity.x * s.delta_time, SCALE as int), s.bounds.x as int),
        wrap_spec(p.position.y + tdiv_spec(p.velocity.y * s.delta_time, SCALE as int), s.bounds.y as int),
    )
}

/// Position update stage for one particle.
pub fn update_position(s: &GpuSettings, p: Particle) -> (r: Particle)
    requires
        s.wf(),
        in_bounds(*s, p),
        abs_spec(p.velocity.x as int) <= SETTING_LIMIT,
        abs_spec(p.velocity.y as int) <= SETTING_LIMIT,
    ensures
        r.velocity == p.velocity,
        r.color == p.color,
        r.position.x == new_position_spec(*s, p).0,
        r.position.y == new_position_spec(*s, p).1,
        in_bounds(*s, r),
{
    proof {
        assert(abs_spec(p.velocity.x as int * s.delta_time as int) <= SETTING_LIMIT
            * SETTING_LIMIT && abs_spec(p.velocity.y as int * s.delta_time as int)
            <= SETTING_LIMIT * SETTING_LIMIT) by (nonlinear_arith)
            requires
                abs_spec(p.velocity.x as int) <= SETTING_LIMIT,
                abs_spec(p.velocity.y as int) <= SETTING_LIMIT,
                0 <= s.delta_time <= SETTING_LIMIT,
        ;
    }
    let dx = tdiv(p.velocity.x * s.delta_time, SCALE);
    let dy = tdiv(p.velocity.y * s.delta_time, SCALE);
    let px = wrap_coord(p.position.x + dx, s.bounds.x);
    let py = wrap_coord(p.position.y + dy, s.bounds.y);
    Particle::new(Vec2::new(px, py), p.velocity, p.color)
}

/// Adding one bounded contribution keeps the running bound.
proof fn lemma_accum_step(acc: int, c: int, k: int, n: int, done: int)
    requires
        abs_spec(acc) <= (k * n + done) * ACCEL_LIMIT,
        abs_spec(c) <= ACCEL_LIMIT,
        0 <= k <= 9,
        0 <= n <= 0x4000_0000,
        0 <= done < n,
    ensures
        abs_spec(acc + c) <= (k * n + done + 1) * ACCEL_LIMIT,
        abs_spec(acc + c) <= 10 * 0x4000_0000 * ACCEL_LIMIT,
{
    assert(abs_spec(acc + c) <= (k * n + done + 1) * ACCEL_LIMIT && (k * n + done + 1)
        * ACCEL_LIMIT <= 10 * 0x4000_0000 * ACCEL_LIMIT) by (nonlinear_arith)
        requires
            abs_spec(acc) <= (k * n + done) * ACCEL_LIMIT,
            abs_spec(c) <= ACCEL_LIMIT,
            0 <= k <= 9,
            0 <= n <= 0x4000_0000,
            0 <= done < n,
    ;
}

/// A finished block's worth of contributions fits the next block bound.
proof fn lemma_accum_block(acc: int, k: int, n: int, cnt: int)
    requires
        cnt <= n,
        0 <= k <= 8,
        0 <= n,
        abs_spec(acc) <= (k * n + if cnt >= 0 { cnt } else { 0 }) * ACCEL_LIMIT,
    ensures
        abs_spec(acc) <= (k + 1) * n * ACCEL_LIMIT,
{
    assert(abs_spec(acc) <= (k + 1) * n * ACCEL_LIMIT) by (nonlinear_arith)
        requires
            cnt <= n,
            0 <= k,
            0 <= n,
            abs_spec(acc) <= (k * n + if cnt >= 0 { cnt } else { 0 }) * ACCEL_LIMIT,
    ;
}

} // verus!
