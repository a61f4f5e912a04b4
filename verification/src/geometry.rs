//! Integer geometry for the line rasterizer: the sampled points of a
//! segment, and the rounding arithmetic behind them.
//!
//! A segment is walked along its dominant axis (the one with the larger
//! coordinate span), one pixel per unit step; the other coordinate is the
//! exact slope ratio rounded to the nearest integer (ties away from zero).
//! That choice keeps adjacent samples within one unit of each other on the
//! non-dominant axis, so the path has no gaps.

use vstd::prelude::*;

use vstd::arithmetic::div_mod::lemma_basic_div;
use vstd::arithmetic::div_mod::lemma_div_is_ordered;
use vstd::arithmetic::div_mod::lemma_div_multiples_vanish_fancy;
use vstd::arithmetic::div_mod::lemma_div_plus_one;
use vstd::arithmetic::div_mod::lemma_div_pos_is_pos;

verus! {

/// Magnitude of an integer.
pub open spec fn abs_i(a: int) -> int {
    if a < 0 {
        -a
    } else {
        a
    }
}

/// Sign of an integer: -1, 0 or 1.
pub open spec fn sgn(a: int) -> int {
    if a < 0 {
        -1
    } else if a == 0 {
        0
    } else {
        1
    }
}

/// `a / den` rounded to the nearest integer, ties rounded up, for
/// `a >= 0` and `den > 0`.
pub open spec fn near_div(a: int, den: int) -> int {
    (2 * a + den) / (2 * den)
}

/// The rounded sample `near_div(v * k, d)` stays between `0` and `v` while
/// `k` walks from `0` to `d`.
pub proof fn lemma_near_div_range(v: int, d: int, k: int)
    requires
        0 <= v,
        0 < d,
        0 <= k <= d,
    ensures
        0 <= near_div(v * k, d) <= v,
{
    lemma_div_pos_is_pos(2 * (v * k) + d, 2 * d);
    assert(v * k <= v * d) by (nonlinear_arith)
        requires
            0 <= v,
            k <= d,
    ;
    lemma_div_is_ordered(2 * (v * k) + d, 2 * (v * d) + d, 2 * d);
    assert(2 * (v * d) + d == (2 * d) * v + d) by (nonlinear_arith);
    lemma_div_multiples_vanish_fancy(v, d, 2 * d);
}

/// The endpoints come out exact: the sample is `0` at `k == 0` and `v` at
/// `k == d`.
pub proof fn lemma_near_div_ends(v: int, d: int)
    requires
        0 <= v,
        0 < d,
    ensures
        near_div(v * 0, d) == 0,
        near_div(v * d, d) == v,
{
    assert(v * 0 == 0) by (nonlinear_arith);
    lemma_basic_div(d, 2 * d);
    assert(2 * (v * d) + d == (2 * d) * v + d) by (nonlinear_arith);
    lemma_div_multiples_vanish_fancy(v, d, 2 * d);
}

/// When the slope magnitude is at most one (`v <= d`), one unit step of
/// `k` moves the rounded sample by zero or one.
pub proof fn lemma_near_div_step(v: int, d: int, k: int)
    requires
        0 <= v <= d,
        0 < d,
        0 <= k,
    ensures
        0 <= near_div(v * (k + 1), d) - near_div(v * k, d) <= 1,
{
    assert(2 * (v * (k + 1)) + d == (2 * (v * k) + d) + 2 * v) by (nonlinear_arith);
    lemma_div_is_ordered(2 * (v * k) + d, (2 * (v * k) + d) + 2 * v, 2 * d);
    lemma_div_is_ordered((2 * (v * k) + d) + 2 * v, (2 * (v * k) + d) + 2 * d, 2 * d);
    lemma_div_plus_one(2 * (v * k) + d, 2 * d);
}

/// How many points the rasterized segment from `(x0, y0)` to `(x1, y1)`
/// holds: one per unit step along the dominant axis, endpoints included.
pub open spec fn line_len(x0: int, y0: int, x1: int, y1: int) -> nat {
    if abs_i(y1 - y0) <= abs_i(x1 - x0) {
        (abs_i(x1 - x0) + 1) as nat
    } else {
        (abs_i(y1 - y0) + 1) as nat
    }
}

/// The `k`-th rasterized point of the segment from `(x0, y0)` to
/// `(x1, y1)`.  The dominant axis advances by `k` towards its endpoint;
/// the other coordinate is the slope ratio at that station, rounded to
/// nearest (ties away from zero).
pub open spec fn line_point(x0: int, y0: int, x1: int, y1: int, k: int) -> (int, int) {
    let dx = x1 - x0;
    let dy = y1 - y0;
    if abs_i(dy) <= abs_i(dx) {
        (x0 + k * sgn(dx), y0 + sgn(dy) * near_div(abs_i(dy) * k, abs_i(dx)))
    } else {
        (x0 + sgn(dx) * near_div(abs_i(dx) * k, abs_i(dy)), y0 + k * sgn(dy))
    }
}

/// All rasterized points of the segment, in walking order.
pub open spec fn line_points(x0: int, y0: int, x1: int, y1: int) -> Seq<(int, int)> {
    Seq::new(line_len(x0, y0, x1, y1), |k: int| line_point(x0, y0, x1, y1, k))
}

/// The rasterized segment starts at its first endpoint and ends at its
/// second, exactly.
pub proof fn lemma_line_endpoints(x0: int, y0: int, x1: int, y1: int)
    ensures
        line_points(x0, y0, x1, y1).len() == line_len(x0, y0, x1, y1) >= 1,
        line_points(x0, y0, x1, y1).first() == (x0, y0),
        line_points(x0, y0, x1, y1).last() == (x1, y1),
{
    let dx = x1 - x0;
    let dy = y1 - y0;
    let pts = line_points(x0, y0, x1, y1);
    if abs_i(dy) <= abs_i(dx) {
        if dx == 0 {
            assert(dy == 0);
            assert(sgn(dy) * near_div(abs_i(dy) * 0, abs_i(dx)) == 0) by (nonlinear_arith)
                requires
                    sgn(dy) == 0,
            ;
            assert(pts.first() == line_point(x0, y0, x1, y1, 0));
            assert(pts.last() == line_point(x0, y0, x1, y1, 0));
            assert(line_point(x0, y0, x1, y1, 0) == (x0, y0));
        } else {
            lemma_near_div_ends(abs_i(dy), abs_i(dx));
            assert(abs_i(dx) * sgn(dx) == dx) by (nonlinear_arith);
            assert(sgn(dy) * abs_i(dy) == dy) by (nonlinear_arith);
            assert(pts.last() == line_point(x0, y0, x1, y1, abs_i(dx)));
            assert(line_point(x0, y0, x1, y1, abs_i(dx)) == (x1, y1));
            assert(sgn(dy) * near_div(abs_i(dy) * 0, abs_i(dx)) == 0) by (nonlinear_arith)
                requires
                    near_div(abs_i(dy) * 0, abs_i(dx)) == 0,
            ;
            assert(pts.first() == line_point(x0, y0, x1, y1, 0));
            assert(line_point(x0, y0, x1, y1, 0) == (x0, y0));
        }
    } else {
        lemma_near_div_ends(abs_i(dx), abs_i(dy));
        assert(abs_i(dy) * sgn(dy) == dy) by (nonlinear_arith);
        assert(sgn(dx) * abs_i(dx) == dx) by (nonlinear_arith);
        assert(pts.last() == line_point(x0, y0, x1, y1, abs_i(dy)));
        assert(line_point(x0, y0, x1, y1, abs_i(dy)) == (x1, y1));
        assert(sgn(dx) * near_div(abs_i(dx) * 0, abs_i(dy)) == 0) by (nonlinear_arith)
            requires
                near_div(abs_i(dx) * 0, abs_i(dy)) == 0,
        ;
        assert(pts.first() == line_point(x0, y0, x1, y1, 0));
        assert(line_point(x0, y0, x1, y1, 0) == (x0, y0));
    }
}

/// Connectivity of the rasterized segment: between consecutive points the
/// dominant axis advances by exactly one unit towards the far endpoint,
/// and the other axis moves by at most one unit — the path has no gap
/// greater than one in either axis direction.
pub proof fn lemma_line_connected(x0: int, y0: int, x1: int, y1: int, k: int)
    requires
        0 <= k,
        k + 1 < line_len(x0, y0, x1, y1),
    ensures
        abs_i(line_point(x0, y0, x1, y1, k + 1).0 - line_point(x0, y0, x1, y1, k).0) <= 1,
        abs_i(line_point(x0, y0, x1, y1, k + 1).1 - line_point(x0, y0, x1, y1, k).1) <= 1,
        abs_i(y1 - y0) <= abs_i(x1 - x0) ==> line_point(x0, y0, x1, y1, k + 1).0 - line_point(
            x0,
            y0,
            x1,
            y1,
            k,
        ).0 == sgn(x1 - x0),
        abs_i(y1 - y0) > abs_i(x1 - x0) ==> line_point(x0, y0, x1, y1, k + 1).1 - line_point(
            x0,
            y0,
            x1,
            y1,
            k,
        ).1 == sgn(y1 - y0),
{
    let dx = x1 - x0;
    let dy = y1 - y0;
    if abs_i(dy) <= abs_i(dx) {
        assert(abs_i(dx) >= 1);
        assert((k + 1) * sgn(dx) - k * sgn(dx) == sgn(dx)) by (nonlinear_arith);
        lemma_near_div_step(abs_i(dy), abs_i(dx), k);
        assert(abs_i(
            (y0 + sgn(dy) * near_div(abs_i(dy) * (k + 1), abs_i(dx))) - (y0 + sgn(dy) * near_div(
                abs_i(dy) * k,
                abs_i(dx),
            )),
        ) <= 1) by (nonlinear_arith)
            requires
                0 <= near_div(abs_i(dy) * (k + 1), abs_i(dx)) - near_div(abs_i(dy) * k, abs_i(dx))
                    <= 1,
                -1 <= sgn(dy) <= 1,
        ;
    } else {
        assert(abs_i(dy) >= 1);
        assert((k + 1) * sgn(dy) - k * sgn(dy) == sgn(dy)) by (nonlinear_arith);
        lemma_near_div_step(abs_i(dx), abs_i(dy), k);
        assert(abs_i(
            (x0 + sgn(dx) * near_div(abs_i(dx) * (k + 1), abs_i(dy))) - (x0 + sgn(dx) * near_div(
                abs_i(dx) * k,
                abs_i(dy),
            )),
        ) <= 1) by (nonlinear_arith)
            requires
                0 <= near_div(abs_i(dx) * (k + 1), abs_i(dy)) - near_div(abs_i(dx) * k, abs_i(dy))
                    <= 1,
                -1 <= sgn(dx) <= 1,
        ;
    }
}

} // verus!
