//! Fixed-point scalars and 2D vectors for the simulation world.
//!
//! Positions, velocities, distances and dimensionless coefficients are all
//! carried as `i64` values in units of `1/SCALE`, so that every operation of
//! the engine is exact integer arithmetic.

use vstd::prelude::*;

verus! {

/// Number of fixed-point sub-units per world unit (and per 1.0 of a
/// dimensionless coefficient).
pub const SCALE: i64 = 1024;

/// A 2D vector in fixed-point sub-units.
#[derive(Clone, Copy, Debug, PartialEq, Eq, Structural)]
pub struct Vec2 {
    pub x: i64,
    pub y: i64,
}

impl Vec2 {
    pub fn new(x: i64, y: i64) -> (r: Vec2)
        ensures
            r.x == x,
            r.y == y,
    {
        Vec2 { x, y }
    }

    pub open spec fn zero_spec() -> Vec2 {
        Vec2 { x: 0, y: 0 }
    }

    pub fn zero() -> (r: Vec2)
        ensures
            r == Vec2::zero_spec(),
    {
        Vec2 { x: 0, y: 0 }
    }
}

/// A 2D vector of unsigned integers (world units or cell counts).
#[derive(Clone, Copy, Debug, PartialEq, Eq, Structural)]
pub struct UVec2 {
    pub x: u32,
    pub y: u32,
}

impl UVec2 {
    pub fn new(x: u32, y: u32) -> (r: UVec2)
        ensures
            r.x == x,
            r.y == y,
    {
        UVec2 { x, y }
    }
}

/// The value of a coordinate wrapped into the toroidal interval
/// `[-bound, bound]`: a coordinate already inside the interval is left
/// unchanged, one beyond `bound` is brought back by whole multiples of the
/// world width `2*bound` into `(-bound, bound]`, and one below `-bound` into
/// `[-bound, bound)`.
pub open spec fn wrap_spec(p: int, bound: int) -> int {
    if -bound <= p <= bound {
        p
    } else if p > bound {
        ((p + bound - 1) % (2 * bound)) - bound + 1
    } else {
        ((p + bound) % (2 * bound)) - bound
    }
}

/// The wrapped coordinate differs from the original by a whole number of
/// world widths and lies inside `[-bound, bound]`.
pub proof fn lemma_wrap_in_range(p: int, bound: int)
    requires
        bound >= 1,
    ensures
        -bound <= wrap_spec(p, bound) <= bound,
        (wrap_spec(p, bound) - p) % (2 * bound) == 0,
{
    if -bound <= p <= bound {
        lemma_mul_mod_zero(0, 2 * bound);
        assert((wrap_spec(p, bound) - p) % (2 * bound) == 0);
    } else if p > bound {
        let m = (p + bound - 1) % (2 * bound);
        assert(0 <= m < 2 * bound);
        assert((wrap_spec(p, bound) - p) % (2 * bound) == 0) by {
            let d = (p + bound - 1) / (2 * bound);
            lemma_decompose(p + bound - 1, 2 * bound);
            assert(p + bound - 1 == (2 * bound) * d + m);
            assert(wrap_spec(p, bound) - p == (2 * bound) * (-d)) by {
                assert(m - (p + bound - 1) == (2 * bound) * (-d)) by (nonlinear_arith)
                    requires p + bound - 1 == (2 * bound) * d + m;
            }
            lemma_mul_mod_zero(-d, 2 * bound);
        }
    } else {
        let m = (p + bound) % (2 * bound);
        assert(0 <= m < 2 * bound);
        assert((wrap_spec(p, bound) - p) % (2 * bound) == 0) by {
            let d = (p + bound) / (2 * bound);
            lemma_decompose(p + bound, 2 * bound);
            assert(p + bound == (2 * bound) * d + m);
            assert(wrap_spec(p, bound) - p == (2 * bound) * (-d)) by {
                assert(m - (p + bound) == (2 * bound) * (-d)) by (nonlinear_arith)
                    requires p + bound == (2 * bound) * d + m;
            }
            lemma_mul_mod_zero(-d, 2 * bound);
        }
    }
}

/// The fundamental relation between integer division and remainder.
proof fn lemma_decompose(x: int, m: int)
    requires
        m >= 1,
    ensures
        x == m * (x / m) + x % m,
{
    vstd::arithmetic::div_mod::lemma_fundamental_div_mod(x, m);
}

pub proof fn lemma_mul_mod_zero(k: int, m: int)
    requires
        m >= 1,
    ensures
        (m * k) % m == 0,
{
    assert((m * k) % m == 0) by (nonlinear_arith)
        requires m >= 1;
}

/// Two values of the same residue class that both lie within one world width
/// of each other are equal.
proof fn lemma_congruent_close_equal(a: int, b: int, m: int)
    requires
        m >= 1,
        (a - b) % m == 0,
        -m < a - b < m,
    ensures
        a == b,
{
    let d = a - b;
    assert(d % m == 0 && -m < d < m ==> d == 0) by (nonlinear_arith)
        requires m >= 1;
}

/// Wrapping a coordinate that is already inside `[-bound, bound]` is a no-op,
/// so wrapping twice gives the same result as wrapping once.
pub proof fn lemma_wrap_idempotent(p: int, bound: int)
    requires
        bound >= 1,
    ensures
        wrap_spec(wrap_spec(p, bound), bound) == wrap_spec(p, bound),
{
    lemma_wrap_in_range(p, bound);
}

/// Wrap a coordinate into the toroidal interval `[-bound, bound]` by moving
/// it whole world widths (`2*bound`) at a time.
pub fn wrap_coord(p: i64, bound: i64) -> (r: i64)
    requires
        1 <= bound <= 0x2000_0000_0000_0000,
    ensures
        r == wrap_spec(p as int, bound as int),
        -bound <= r <= bound,
{
    let ghost p0 = p as int;
    let ghost b = bound as int;
    let mut q: i64 = p;
    proof {
        lemma_mul_mod_zero(0, 2 * b);
        assert((q as int - p0) % (2 * b) == 0);
    }
    while q > bound
        invariant
            1 <= b <= 0x2000_0000_0000_0000,
            b == bound as int,
            (q - p0) % (2 * b) == 0,
            q > bound ==> p0 > bound,
            p0 > bound ==> q > -bound,
            p0 <= bound ==> q == p0,
        decreases q + bound,
    {
        proof {
            let d = (q as int - p0) / (2 * b);
            lemma_decompose(q as int - p0, 2 * b);
            assert(q as int - p0 == (2 * b) * d + ((q as int - p0) % (2 * b)));
            assert((q as int - 2 * b) - p0 == (2 * b) * (d - 1) + 0) by (nonlinear_arith)
                requires q as int - p0 == (2 * b) * d;
            lemma_mul_mod_zero(d - 1, 2 * b);
            assert(((q as int - 2 * b) - p0) % (2 * b) == 0) by (nonlinear_arith)
                requires
                    (q as int - 2 * b) - p0 == (2 * b) * (d - 1),
                    b >= 1;
        }
        q = q - 2 * bound;
    }
    while q < -bound
        invariant
            1 <= b <= 0x2000_0000_0000_0000,
            b == bound as int,
            (q - p0) % (2 * b) == 0,
            q <= bound,
            q < -bound ==> p0 < -bound,
            p0 < -bound ==> q < bound,
            p0 > bound ==> q > -bound,
            -bound <= p0 <= bound ==> q == p0,
        decreases bound - q,
    {
        proof {
            let d = (q as int - p0) / (2 * b);
            lemma_decompose(q as int - p0, 2 * b);
            assert(q as int - p0 == (2 * b) * d + ((q as int - p0) % (2 * b)));
            assert((q as int + 2 * b) - p0 == (2 * b) * (d + 1)) by (nonlinear_arith)
                requires q as int - p0 == (2 * b) * d;
            lemma_mul_mod_zero(d + 1, 2 * b);
            assert(((q as int + 2 * b) - p0) % (2 * b) == 0) by (nonlinear_arith)
                requires
                    (q as int + 2 * b) - p0 == (2 * b) * (d + 1),
                    b >= 1;
        }
        q = q + 2 * bound;
    }
    proof {
        lemma_wrap_in_range(p0, b);
        let w = wrap_spec(p0, b);
        assert((q as int - w) % (2 * b) == 0) by {
            let dq = (q as int - p0) / (2 * b);
            let dw = (w - p0) / (2 * b);
            lemma_decompose(q as int - p0, 2 * b);
            lemma_decompose(w - p0, 2 * b);
            assert(q as int - p0 == (2 * b) * dq);
            assert(w - p0 == (2 * b) * dw);
            assert(q as int - w == (2 * b) * (dq - dw)) by (nonlinear_arith)
                requires
                    q as int - p0 == (2 * b) * dq,
                    w - p0 == (2 * b) * dw;
            lemma_mul_mod_zero(dq - dw, 2 * b);
        }
        if -b <= p0 <= b {
            assert(q == w);
        } else if p0 > b {
            assert(q > -b && w > -b) by {
                assert(w == ((p0 + b - 1) % (2 * b)) - b + 1);
                assert(0 <= (p0 + b - 1) % (2 * b));
            }
            lemma_congruent_close_equal(q as int, w, 2 * b);
        } else {
            assert(q < b && w < b) by {
                assert(w == ((p0 + b) % (2 * b)) - b);
                assert((p0 + b) % (2 * b) < 2 * b);
            }
            lemma_congruent_close_equal(q as int, w, 2 * b);
        }
    }
    q
}

} // verus!
