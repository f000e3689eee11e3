//! Conversion between axial hex coordinates and screen positions, and
//! robust rounding of fractional cube coordinates.
//!
//! Screen positions and fractional cube coordinates are fixed-point
//! numbers: an `i64` counting units of `1 / FP_ONE`. The flat-top hex
//! basis `[[3/2, 0], [sqrt(3)/2, sqrt(3)]]` and its inverse
//! `[[2/3, 0], [-1/3, sqrt(3)/3]]` are represented by the scaled integer
//! constants below, with `SQRT3_FP / FP_ONE` standing for `sqrt(3)`.

use vstd::arithmetic::div_mod::{
    lemma_div_is_ordered, lemma_div_multiples_vanish, lemma_fundamental_div_mod_converse,
};
use vstd::prelude::*;

use crate::coords::{AxialCoordinate, CubeCoordinate};

verus! {

/// The fixed-point unit: every screen or fractional-cube value counts
/// units of `1 / FP_ONE`.
pub const FP_ONE: i64 = 1048576;

/// Half of `FP_ONE`, the rounding threshold.
pub const FP_HALF: i64 = 524288;

/// `sqrt(3)` scaled by `FP_ONE` (rounded down to an even number so that
/// half of it is exact).
pub const SQRT3_FP: i64 = 1816186;

/// `3/2` scaled by `FP_ONE`: the `x` column of the flat-top basis.
pub const BASIS_X_FP: i64 = 1572864;

/// `sqrt(3)/2` scaled by `FP_ONE`: exactly `SQRT3_FP / 2`.
pub const BASIS_Y_FP: i64 = 908093;

/// Largest hex size the conversions accept; keeps all fixed-point
/// intermediates inside `i64`.
pub const SIZE_MAX: i64 = 5000;

/// Largest axial coordinate magnitude the forward conversion accepts.
pub const AXIAL_MAX: i64 = 200;

/// Largest screen-position magnitude the inverse conversion accepts.
pub const SCREEN_MAX: i64 = 3000000000000;

/// Fixed-point `x` of the screen centre of hex `(q, r)`:
/// `size * (3/2) * q` scaled by `FP_ONE`.
pub open spec fn screen_x(size: int, q: int) -> int {
    size * q * BASIS_X_FP
}

/// Fixed-point `y` of the screen centre of hex `(q, r)`:
/// `size * (sqrt(3)/2 * q + sqrt(3) * r)` scaled by `FP_ONE`.
pub open spec fn screen_y(size: int, q: int, r: int) -> int {
    size * (q + 2 * r) * BASIS_Y_FP
}

/// Truncating division (round toward zero) of `a` by a positive `b`,
/// written with Euclidean `/` on magnitudes.
pub open spec fn div_trunc(a: int, b: int) -> int {
    if a >= 0 {
        a / b
    } else {
        -((-a) / b)
    }
}

/// The nearest integer to the fixed-point value `v`, ties away from zero.
pub open spec fn round_fp(v: int) -> int {
    if v >= 0 {
        (v + FP_HALF as int) / (FP_ONE as int)
    } else {
        -((FP_HALF as int - v) / (FP_ONE as int))
    }
}

/// Fractional `q` axis of the inverse basis applied to `(x, y)`:
/// `(2/3) * x / size` in fixed point.
pub open spec fn frac_q(size: int, x: int) -> int {
    div_trunc(2 * x, 3 * size)
}

/// Fractional `r` axis of the inverse basis applied to `(x, y)`:
/// `(-1/3 * x + sqrt(3)/3 * y) / size` in fixed point.
pub open spec fn frac_r(size: int, x: int, y: int) -> int {
    div_trunc(SQRT3_FP * y - FP_ONE * x, 3 * size * FP_ONE)
}

/// Fractional `s` axis: `-qf - rf`.
pub open spec fn frac_s(size: int, x: int, y: int) -> int {
    -frac_q(size, x) - frac_r(size, x, y)
}

/// The robust rounding of a fractional cube coordinate: round each axis
/// to the nearest integer, then recompute the axis with the largest
/// rounding error from the other two, so that the result sums to zero.
/// Ties favour repairing `r` over `q`, and `s` over `r`.
pub open spec fn cube_round_spec(qf: int, rf: int, sf: int) -> (int, int, int) {
    let q = round_fp(qf);
    let r = round_fp(rf);
    let s = round_fp(sf);
    let dq = abs(qf - q * FP_ONE);
    let dr = abs(rf - r * FP_ONE);
    let ds = abs(sf - s * FP_ONE);
    if dq > dr && dq > ds {
        (-r - s, r, s)
    } else if dr > ds {
        (q, -q - s, s)
    } else {
        (q, r, -q - r)
    }
}

/// Magnitude of `v`.
pub open spec fn abs(v: int) -> int {
    if v >= 0 {
        v
    } else {
        -v
    }
}

/// A continuous cube coordinate `(qf, rf, sf)` in fixed point, as
/// produced by the inverse screen transform before rounding.
#[derive(Clone, Copy, PartialEq, Eq, Structural, Debug)]
pub struct FracCube {
    pub qf: i64,
    pub rf: i64,
    pub sf: i64,
}

/// The screen-space centre of hex `(q, r)`, in fixed point.
pub fn axial_to_screen(size: i64, hex_pos: &AxialCoordinate) -> (p: (i64, i64))
    requires
        1 <= size <= SIZE_MAX,
        -AXIAL_MAX <= hex_pos.q as int <= AXIAL_MAX,
        -AXIAL_MAX <= hex_pos.r as int <= AXIAL_MAX,
    ensures
        p.0 == screen_x(size as int, hex_pos.q as int),
        p.1 == screen_y(size as int, hex_pos.q as int, hex_pos.r as int),
        -SCREEN_MAX <= p.0 <= SCREEN_MAX,
        -SCREEN_MAX <= p.1 <= SCREEN_MAX,
{
    let q = hex_pos.q as i64;
    let r = hex_pos.r as i64;
    proof {
        assert(-1000000 <= size * q <= 1000000) by (nonlinear_arith)
            requires
                1 <= size <= 5000,
                -200 <= q <= 200,
        ;
        assert(-3000000 <= size * (q + 2 * r) <= 3000000) by (nonlinear_arith)
            requires
                1 <= size <= 5000,
                -200 <= q <= 200,
                -200 <= r <= 200,
        ;
    }
    let sq = size * q;
    let x = sq * BASIS_X_FP;
    let st = size * (q + 2 * r);
    let y = st * BASIS_Y_FP;
    (x, y)
}

/// Truncating division of `a` by a positive `b`.
fn div_trunc_exec(a: i64, b: i64) -> (r: i64)
    requires
        1 <= b,
        -0x7fff_ffff_ffff_ffff <= a,
    ensures
        r == div_trunc(a as int, b as int),
        abs(r as int) <= abs(a as int),
{
    if a >= 0 {
        let d = (a as u64) / (b as u64);
        proof {
            lemma_div_is_ordered(0, a as int, b as int);
            lemma_div_is_ordered(a as int, a as int, b as int);
            vstd::arithmetic::div_mod::lemma_div_is_ordered_by_denominator(a as int, 1, b as int);
        }
        d as i64
    } else {
        let d = ((-a) as u64) / (b as u64);
        proof {
            lemma_div_is_ordered(0, -a as int, b as int);
            vstd::arithmetic::div_mod::lemma_div_is_ordered_by_denominator(-a as int, 1, b as int);
        }
        -(d as i64)
    }
}

/// The nearest integer to the fixed-point value `v`, ties away from zero.
fn round_fp_exec(v: i64) -> (r: i64)
    requires
        -100000000000000000 <= v <= 100000000000000000,
    ensures
        r == round_fp(v as int),
        abs(r as int) * FP_ONE <= abs(v as int) + FP_HALF,
{
    if v >= 0 {
        let d = ((v as u64) + (FP_HALF as u64)) / (FP_ONE as u64);
        proof {
            lemma_div_is_ordered(0, v + FP_HALF, FP_ONE as int);
            lemma_div_is_ordered(v + FP_HALF, 100000000000000000 + FP_HALF, FP_ONE as int);
            lemma_mul_div_bound(v + FP_HALF, FP_ONE as int);
        }
        d as i64
    } else {
        let d = (((-v) as u64) + (FP_HALF as u64)) / (FP_ONE as u64);
        proof {
            lemma_div_is_ordered(0, -v + FP_HALF, FP_ONE as int);
            lemma_div_is_ordered(-v + FP_HALF, 100000000000000000 + FP_HALF, FP_ONE as int);
            lemma_mul_div_bound(-v + FP_HALF, FP_ONE as int);
        }
        -(d as i64)
    }
}

/// For a nonnegative dividend, the quotient times the divisor is at most
/// the dividend.
proof fn lemma_mul_div_bound(a: int, b: int)
    requires
        0 <= a,
        0 < b,
    ensures
        (a / b) * b <= a,
        0 <= a / b,
{
    vstd::arithmetic::div_mod::lemma_fundamental_div_mod(a, b);
    vstd::arithmetic::div_mod::lemma_mod_bound(a, b);
    vstd::arithmetic::div_mod::lemma_div_pos_is_pos(a, b);
    let q = a / b;
    let m = a % b;
    assert(q * b <= a) by (nonlinear_arith)
        requires
            a == b * q + m,
            0 <= m,
    ;
}

/// The continuous cube coordinate of the screen position `(x, y)`:
/// the inverse flat-top basis applied to `point / size`, with
/// `sf = -qf - rf`.
pub fn screen_to_cube_frac(size: i64, x: i64, y: i64) -> (c: FracCube)
    requires
        1 <= size <= SIZE_MAX,
        -SCREEN_MAX <= x <= SCREEN_MAX,
        -SCREEN_MAX <= y <= SCREEN_MAX,
    ensures
        c.qf == frac_q(size as int, x as int),
        c.rf == frac_r(size as int, x as int, y as int),
        c.sf == frac_s(size as int, x as int, y as int),
        abs(c.qf as int) <= 2 * SCREEN_MAX,
        abs(c.rf as int) <= 3 * SCREEN_MAX,
        abs(c.sf as int) <= 5 * SCREEN_MAX,
{
    let qf = div_trunc_exec(2 * x, 3 * size);
    let num = SQRT3_FP * y - FP_ONE * x;
    let rf = div_trunc_exec(num, 3 * size * FP_ONE);
    proof {
        lemma_frac_bounds(size as int, x as int, y as int);
    }
    let sf = -qf - rf;
    FracCube { qf, rf, sf }
}

/// Magnitude bounds on the fractional axes, from the bounds on `(x, y)`.
proof fn lemma_frac_bounds(size: int, x: int, y: int)
    requires
        1 <= size <= SIZE_MAX,
        -SCREEN_MAX <= x <= SCREEN_MAX,
        -SCREEN_MAX <= y <= SCREEN_MAX,
    ensures
        abs(frac_q(size, x)) <= 2 * SCREEN_MAX,
        abs(frac_r(size, x, y)) <= 3 * SCREEN_MAX,
        abs(frac_s(size, x, y)) <= 5 * SCREEN_MAX,
{
    let nq = 2 * x;
    let dq = 3 * size;
    assert(abs(frac_q(size, x)) <= abs(nq)) by {
        lemma_div_trunc_shrinks(nq, dq);
    }
    let nr = SQRT3_FP * y - FP_ONE * x;
    let dr = 3 * size * FP_ONE;
    assert(abs(nr) <= (SQRT3_FP + FP_ONE) * SCREEN_MAX) by (nonlinear_arith)
        requires
            -SCREEN_MAX <= x <= SCREEN_MAX,
            -SCREEN_MAX <= y <= SCREEN_MAX,
            nr == SQRT3_FP * y - FP_ONE * x,
    ;
    assert(dr >= 3 * FP_ONE) by (nonlinear_arith)
        requires
            size >= 1,
            dr == 3 * size * FP_ONE,
    ;
    assert(abs(frac_r(size, x, y)) <= 3 * SCREEN_MAX) by {
        lemma_div_trunc_coarse(nr, dr, 3 * SCREEN_MAX);
    }
}

/// Truncating division by a positive divisor shrinks the magnitude.
proof fn lemma_div_trunc_shrinks(a: int, b: int)
    requires
        1 <= b,
    ensures
        abs(div_trunc(a, b)) <= abs(a),
{
    if a >= 0 {
        lemma_div_is_ordered(0, a, b);
        vstd::arithmetic::div_mod::lemma_div_is_ordered_by_denominator(a, 1, b);
    } else {
        lemma_div_is_ordered(0, -a, b);
        vstd::arithmetic::div_mod::lemma_div_is_ordered_by_denominator(-a, 1, b);
    }
}

/// If `|a| <= k * b` then `|div_trunc(a, b)| <= k`.
proof fn lemma_div_trunc_coarse(a: int, b: int, k: int)
    requires
        1 <= b,
        0 <= k,
        abs(a) <= k * b,
    ensures
        abs(div_trunc(a, b)) <= k,
{
    if a >= 0 {
        lemma_div_is_ordered(0, a, b);
        lemma_div_is_ordered(a, k * b, b);
        lemma_div_multiples_vanish(k, b);
        assert(k * b == b * k) by (nonlinear_arith);
    } else {
        lemma_div_is_ordered(0, -a, b);
        lemma_div_is_ordered(-a, k * b, b);
        lemma_div_multiples_vanish(k, b);
        assert(k * b == b * k) by (nonlinear_arith);
    }
}

/// Rounds a fractional cube coordinate to the nearest hex: each axis is
/// rounded to the nearest integer independently, and the axis with the
/// largest rounding error is then recomputed from the other two, which
/// restores the cube invariant `q + r + s == 0` for every input.
pub fn cube_round(cube: FracCube) -> (c: CubeCoordinate)
    requires
        abs(cube.qf as int) <= 16 * SCREEN_MAX,
        abs(cube.rf as int) <= 16 * SCREEN_MAX,
        abs(cube.sf as int) <= 16 * SCREEN_MAX,
    ensures
        (c.q as int, c.r as int, c.s as int) == cube_round_spec(
            cube.qf as int,
            cube.rf as int,
            cube.sf as int,
        ),
        c.wf(),
{
    let q = round_fp_exec(cube.qf);
    let r = round_fp_exec(cube.rf);
    let s = round_fp_exec(cube.sf);
    let dq = abs_exec(cube.qf - q * FP_ONE);
    let dr = abs_exec(cube.rf - r * FP_ONE);
    let ds = abs_exec(cube.sf - s * FP_ONE);
    if dq > dr && dq > ds {
        CubeCoordinate { q: (-r - s) as i32, r: r as i32, s: s as i32 }
    } else if dr > ds {
        CubeCoordinate { q: q as i32, r: (-q - s) as i32, s: s as i32 }
    } else {
        CubeCoordinate { q: q as i32, r: r as i32, s: (-q - r) as i32 }
    }
}

/// Magnitude of `v`.
fn abs_exec(v: i64) -> (r: i64)
    requires
        v != i64::MIN,
    ensures
        r == abs(v as int),
{
    if v >= 0 {
        v
    } else {
        -v
    }
}

/// The whole pointer pipeline: screen position to the axial coordinate
/// of the nearest hex.
pub open spec fn screen_to_axial_spec(size: int, x: int, y: int) -> (int, int) {
    let rounded = cube_round_spec(frac_q(size, x), frac_r(size, x, y), frac_s(size, x, y));
    (rounded.0, rounded.1)
}

/// Converts a screen position to the axial coordinate of the hex it
/// falls in: inverse basis, robust rounding, then projection to axial.
pub fn screen_to_axial(size: i64, x: i64, y: i64) -> (a: AxialCoordinate)
    requires
        1 <= size <= SIZE_MAX,
        -SCREEN_MAX <= x <= SCREEN_MAX,
        -SCREEN_MAX <= y <= SCREEN_MAX,
    ensures
        a@ == screen_to_axial_spec(size as int, x as int, y as int),
{
    let frac = screen_to_cube_frac(size, x, y);
    let cube = cube_round(frac);
    cube.to_axial()
}

/// The robust rounding always restores the cube invariant: for every
/// fractional cube coordinate, the rounded axes sum to zero exactly.
pub proof fn lemma_cube_round_invariant(qf: int, rf: int, sf: int)
    ensures
        cube_round_spec(qf, rf, sf).0 + cube_round_spec(qf, rf, sf).1 + cube_round_spec(
            qf,
            rf,
            sf,
        ).2 == 0,
{
}

/// Exact multiples pass through truncating division unchanged.
proof fn lemma_div_trunc_multiple(c: int, b: int)
    requires
        0 < b,
    ensures
        div_trunc(b * c, b) == c,
{
    lemma_div_multiples_vanish(c, b);
    lemma_div_multiples_vanish(-c, b);
    assert(-(b * c) == b * (-c)) by (nonlinear_arith);
}

/// Truncating division of a value within `k` divisors of an exact
/// multiple lands within `k` of the exact quotient.
proof fn lemma_div_trunc_near(a: int, b: int, c: int, k: int)
    requires
        0 < b,
        0 <= k,
        b * (c - k) <= a <= b * (c + k),
    ensures
        c - k <= div_trunc(a, b) <= c + k,
{
    if a >= 0 {
        lemma_div_is_ordered(b * (c - k), a, b);
        lemma_div_is_ordered(a, b * (c + k), b);
        lemma_div_multiples_vanish(c - k, b);
        lemma_div_multiples_vanish(c + k, b);
    } else {
        assert(-(b * (c + k)) == b * (-c - k)) by (nonlinear_arith);
        assert(-(b * (c - k)) == b * (-c + k)) by (nonlinear_arith);
        lemma_div_is_ordered(b * (-c - k), -a, b);
        lemma_div_is_ordered(-a, b * (-c + k), b);
        lemma_div_multiples_vanish(-c - k, b);
        lemma_div_multiples_vanish(-c + k, b);
    }
}

/// A fixed-point value strictly within half a unit of the integer `n`
/// rounds to `n`.
proof fn lemma_round_near(v: int, n: int)
    requires
        n * FP_ONE - FP_HALF < v < n * FP_ONE + FP_HALF,
    ensures
        round_fp(v) == n,
{
    if v >= 0 {
        let e = v - n * FP_ONE;
        lemma_fundamental_div_mod_converse(v + FP_HALF, FP_ONE as int, n, e + FP_HALF);
    } else {
        let e = v - n * FP_ONE;
        assert(FP_HALF - v == (-n) * FP_ONE + (FP_HALF - e));
        lemma_fundamental_div_mod_converse(FP_HALF - v, FP_ONE as int, -n, FP_HALF - e);
    }
}

/// Half of `SQRT3_FP * SQRT3_FP - 3 * FP_ONE * FP_ONE`: the (scaled)
/// amount by which the squared rational approximation of `sqrt(3)`
/// misses 3. It drives the error bound in the round-trip proof.
pub const SQRT3_SQ_ERR_HALF: i64 = -1648366;

/// Round-trip identity: for every hex size in range and every axial
/// coordinate within the generated range, converting the hex centre to
/// screen space, back to a fractional cube coordinate, rounding
/// robustly, and projecting to axial yields the original coordinate.
pub proof fn lemma_round_trip(size: int, q: int, r: int)
    requires
        1 <= size <= SIZE_MAX,
        -AXIAL_MAX <= q <= AXIAL_MAX,
        -AXIAL_MAX <= r <= AXIAL_MAX,
    ensures
        screen_to_axial_spec(size, screen_x(size, q), screen_y(size, q, r)) == (q, r),
{
    let x = screen_x(size, q);
    let y = screen_y(size, q, r);
    let b = 3 * size * (FP_ONE as int);

    // The q axis is recovered exactly: 2 * x == (3 * size) * (q * FP_ONE).
    assert(2 * (size * q * BASIS_X_FP) == (3 * size) * (q * (FP_ONE as int))) by (nonlinear_arith);
    lemma_div_trunc_multiple(q * (FP_ONE as int), 3 * size);
    let qf = frac_q(size, x);
    assert(qf == q * (FP_ONE as int));

    // The r axis lands within NEAR units of r * FP_ONE, where
    // NEAR = 315 exceeds |SQRT3_SQ_ERR_HALF| * |q + 2r| / (3 * FP_ONE).
    let err = size * (SQRT3_SQ_ERR_HALF as int) * (q + 2 * r);
    assert(SQRT3_FP * (size * (q + 2 * r) * BASIS_Y_FP) - FP_ONE * (size * q * BASIS_X_FP) == (3
        * size * FP_ONE) * (r * (FP_ONE as int)) + size * (SQRT3_SQ_ERR_HALF as int) * (q + 2
        * r)) by (nonlinear_arith);
    assert(-(315 * b) <= err <= 315 * b) by (nonlinear_arith)
        requires
            1 <= size <= 5000,
            -200 <= q <= 200,
            -200 <= r <= 200,
            err == size * (SQRT3_SQ_ERR_HALF as int) * (q + 2 * r),
            b == 3 * size * (FP_ONE as int),
    ;
    assert(b * (r * (FP_ONE as int) - 315) <= b * (r * (FP_ONE as int)) + err <= b * (r * (
    FP_ONE as int) + 315)) by (nonlinear_arith)
        requires
            -(315 * b) <= err <= 315 * b,
            b > 0,
    ;
    lemma_div_trunc_near(
        SQRT3_FP * y - FP_ONE * x,
        b,
        r * (FP_ONE as int),
        315,
    );
    let rf = frac_r(size, x, y);
    assert(r * (FP_ONE as int) - 315 <= rf <= r * (FP_ONE as int) + 315);

    // The s axis inherits the r deviation, since qf is exact.
    let s = -q - r;
    let sf = frac_s(size, x, y);
    assert(sf == -qf - rf);
    assert(s * (FP_ONE as int) - 315 <= sf <= s * (FP_ONE as int) + 315) by (nonlinear_arith)
        requires
            sf == -(q * (FP_ONE as int)) - rf,
            r * (FP_ONE as int) - 315 <= rf <= r * (FP_ONE as int) + 315,
            s == -q - r,
    ;

    // Each axis rounds to the intended integer, so whichever axis the
    // repair recomputes, the result is (q, r, s) with q + r + s == 0.
    lemma_round_near(qf, q);
    lemma_round_near(rf, r);
    lemma_round_near(sf, s);
    assert(cube_round_spec(qf, rf, sf) == (q, r, s));
}

/// Width and height of a flat-top hex of the given size, in fixed point:
/// `width = 2 * size` and `height = sqrt(3) * size`.
pub fn hex_dimensions(size: i64) -> (d: (i64, i64))
    requires
        1 <= size <= SIZE_MAX,
    ensures
        d.0 == 2 * size * FP_ONE,
        d.1 == size * SQRT3_FP,
{
    (2 * size * FP_ONE, size * SQRT3_FP)
}

} // verus!
