//! Circle geometry: integer square root, the eight-way-mirrored sample
//! points of a circle outline, and their reflection symmetry.
//!
//! The outline is computed over one 45-degree octant only: for each
//! horizontal offset `k` from the center up to the octant boundary, the
//! vertical offset is `floor(sqrt(r*r - k*k))`, and the eight reflections
//! of `(k, y)` across both axes and the diagonal are plotted.

use vstd::prelude::*;

use crate::protocol::rect_events;
use crate::protocol::TxEvent;

verus! {

/// `floor(sqrt(n))`, built up one candidate at a time.
pub open spec fn sqrt_floor(n: nat) -> nat
    decreases n,
{
    if n == 0 {
        0
    } else {
        let s = sqrt_floor((n - 1) as nat);
        if (s + 1) * (s + 1) <= n {
            s + 1
        } else {
            s
        }
    }
}

/// `sqrt_floor(n)` is the unique integer whose square is at most `n` while
/// the next square is beyond it.
pub proof fn lemma_sqrt_floor_bounds(n: nat)
    ensures
        sqrt_floor(n) * sqrt_floor(n) <= n,
        n < (sqrt_floor(n) + 1) * (sqrt_floor(n) + 1),
    decreases n,
{
    if n == 0 {
        assert(sqrt_floor(n) == 0);
        assert(sqrt_floor(n) * sqrt_floor(n) <= n) by (nonlinear_arith)
            requires
                sqrt_floor(n) == 0,
                n == 0,
        ;
        assert(n < (sqrt_floor(n) + 1) * (sqrt_floor(n) + 1)) by (nonlinear_arith)
            requires
                sqrt_floor(n) == 0,
                n == 0,
        ;
    } else {
        lemma_sqrt_floor_bounds((n - 1) as nat);
        let s = sqrt_floor((n - 1) as nat);
        if (s + 1) * (s + 1) <= n {
            assert(sqrt_floor(n) == s + 1);
            assert(n - 1 < (s + 1) * (s + 1));
            assert(n < ((s + 1) + 1) * ((s + 1) + 1)) by (nonlinear_arith)
                requires
                    n <= (s + 1) * (s + 1),
                    0 <= s,
            ;
        } else {
            assert(sqrt_floor(n) == s);
            assert(s * s <= n - 1 <= n);
            assert(n < (s + 1) * (s + 1));
        }
    }
}

/// Any integer root with the same bracketing equals `sqrt_floor(n)`.
pub proof fn lemma_sqrt_floor_unique(n: nat, r: nat)
    requires
        r * r <= n,
        n < (r + 1) * (r + 1),
    ensures
        r == sqrt_floor(n),
{
    lemma_sqrt_floor_bounds(n);
    let s = sqrt_floor(n);
    if r < s {
        assert(false) by (nonlinear_arith)
            requires
                r < s,
                s * s <= n,
                n < (r + 1) * (r + 1),
        ;
    }
    if s < r {
        assert(false) by (nonlinear_arith)
            requires
                s < r,
                r * r <= n,
                n < (s + 1) * (s + 1),
        ;
    }
}

/// Executable integer square root: the floor of the square root of `n`.
pub fn isqrt(n: u32) -> (r: u32)
    ensures
        r as nat == sqrt_floor(n as nat),
        r <= 0xffff,
{
    let mut r: u64 = 0;
    loop
        invariant
            r * r <= n as u64,
            r <= 0xffff,
        ensures
            r * r <= n,
            n < (r + 1) * (r + 1),
            r <= 0xffff,
        decreases n as int - r as int,
    {
        proof {
            assert((r as int + 1) * (r as int + 1) <= 0x10000 * 0x10000) by (nonlinear_arith)
                requires
                    r <= 0xffff,
            ;
        }
        let next: u64 = (r + 1) * (r + 1);
        if next > n as u64 {
            break ;
        }
        proof {
            assert(r + 1 <= 0xffff) by (nonlinear_arith)
                requires
                    (r + 1) * (r + 1) <= n,
                    n < 0x100000000,
            ;
            assert(r < n) by (nonlinear_arith)
                requires
                    (r + 1) * (r + 1) <= n,
            ;
        }
        r = r + 1;
    }
    proof {
        lemma_sqrt_floor_unique(n as nat, r as nat);
    }
    r as u32
}

/// The vertical half-chord of a circle of radius `r` at horizontal offset
/// `k`: `floor(sqrt(r*r - k*k))`, for `k <= r`.
pub open spec fn chord_h(r: nat, k: nat) -> nat {
    sqrt_floor((r * r - k * k) as nat)
}

/// The eight mirrored outline points plotted at station `k`: the octant
/// sample `(k, y)` reflected across the vertical axis, the horizontal
/// axis, and the diagonal, around the center `(cx, cy)`.
pub open spec fn octant_points(cx: int, cy: int, r: nat, k: int) -> Seq<(int, int)> {
    let y = chord_h(r, k as nat) as int;
    seq![
        (cx + k, cy + y),
        (cx + k, cy - y),
        (cx - k, cy + y),
        (cx - k, cy - y),
        (cx + y, cy + k),
        (cx + y, cy - k),
        (cx - y, cy + k),
        (cx - y, cy - k),
    ]
}

/// The outline points of stations `0 .. limit`, in plotting order.
pub open spec fn circle_points_upto(cx: int, cy: int, r: nat, limit: int) -> Seq<(int, int)>
    decreases limit,
{
    if limit <= 0 {
        Seq::empty()
    } else {
        circle_points_upto(cx, cy, r, limit - 1) + octant_points(cx, cy, r, limit - 1)
    }
}

/// The first station past the 45-degree octant boundary, searching up
/// from `k`: the smallest station at or after `k` whose horizontal offset
/// exceeds its half-chord (or lies beyond the radius).
pub open spec fn octant_limit_from(r: nat, k: nat) -> nat
    decreases r + 1 - k,
{
    if k > r {
        k
    } else if k > chord_h(r, k) {
        k
    } else {
        octant_limit_from(r, (k + 1) as nat)
    }
}

/// The number of stations of a circle outline of radius `r`.
pub open spec fn octant_limit(r: nat) -> nat {
    octant_limit_from(r, 0)
}

/// All outline points of the circle of radius `r` around `(cx, cy)`, in
/// plotting order.
pub open spec fn circle_points(cx: int, cy: int, r: nat) -> Seq<(int, int)> {
    circle_points_upto(cx, cy, r, octant_limit(r) as int)
}

/// The event stream of a filled circle's first `limit` chord columns: for
/// each horizontal offset `k` below `limit`, the vertical chord at
/// `cx + k` and then the one at `cx - k`, each a thickness-one rectangle
/// spanning `cy - y` to `cy + y` where `y` is the half-chord at `k`.
pub open spec fn circle_fill_events(
    cx: u16,
    cy: u16,
    r: u16,
    color: u16,
    offx: u16,
    offy: u16,
    limit: int,
) -> Seq<TxEvent>
    decreases limit,
{
    if limit <= 0 {
        Seq::empty()
    } else {
        let k = limit - 1;
        let y = chord_h(r as nat, k as nat) as int;
        circle_fill_events(cx, cy, r, color, offx, offy, limit - 1) + rect_events(
            (cx + k) as u16,
            (cy - y) as u16,
            (cx + k) as u16,
            (cy + y) as u16,
            color,
            offx,
            offy,
        ) + rect_events(
            (cx - k) as u16,
            (cy - y) as u16,
            (cx - k) as u16,
            (cy + y) as u16,
            color,
            offx,
            offy,
        )
    }
}

/// Each station contributes eight points.
pub proof fn lemma_circle_points_upto_len(cx: int, cy: int, r: nat, limit: int)
    requires
        0 <= limit,
    ensures
        circle_points_upto(cx, cy, r, limit).len() == 8 * limit,
    decreases limit,
{
    if limit > 0 {
        lemma_circle_points_upto_len(cx, cy, r, limit - 1);
    }
}

/// Reflection closure of the outline, across the vertical axis: whenever
/// the outline holds a point at horizontal offset `a` from the center, it
/// holds the point at `-a` with the same vertical offset.
pub proof fn lemma_circle_mirror_x_upto(cx: int, cy: int, r: nat, limit: int, a: int, b: int)
    requires
        0 <= limit,
        circle_points_upto(cx, cy, r, limit).contains((cx + a, cy + b)),
    ensures
        circle_points_upto(cx, cy, r, limit).contains((cx - a, cy + b)),
    decreases limit,
{
    let s = circle_points_upto(cx, cy, r, limit);
    let prev = circle_points_upto(cx, cy, r, limit - 1);
    let oct = octant_points(cx, cy, r, limit - 1);
    let i = choose|i: int| 0 <= i < s.len() && s[i] == (cx + a, cy + b);
    assert(limit > 0);
    if i < prev.len() {
        assert(prev[i] == (cx + a, cy + b));
        assert(prev.contains((cx + a, cy + b)));
        lemma_circle_mirror_x_upto(cx, cy, r, limit - 1, a, b);
        let j = choose|j: int| 0 <= j < prev.len() && prev[j] == (cx - a, cy + b);
        assert(s[j] == (cx - a, cy + b));
    } else {
        let j = i - prev.len();
        assert(oct[j] == (cx + a, cy + b));
        let m: int = if j == 0 {
            2
        } else if j == 1 {
            3
        } else if j == 2 {
            0
        } else if j == 3 {
            1
        } else if j == 4 {
            6
        } else if j == 5 {
            7
        } else if j == 6 {
            4
        } else {
            5
        };
        assert(oct[m] == (cx - a, cy + b));
        assert(s[prev.len() + m] == (cx - a, cy + b));
    }
}

/// Reflection closure of the outline, across the horizontal axis.
pub proof fn lemma_circle_mirror_y_upto(cx: int, cy: int, r: nat, limit: int, a: int, b: int)
    requires
        0 <= limit,
        circle_points_upto(cx, cy, r, limit).contains((cx + a, cy + b)),
    ensures
        circle_points_upto(cx, cy, r, limit).contains((cx + a, cy - b)),
    decreases limit,
{
    let s = circle_points_upto(cx, cy, r, limit);
    let prev = circle_points_upto(cx, cy, r, limit - 1);
    let oct = octant_points(cx, cy, r, limit - 1);
    let i = choose|i: int| 0 <= i < s.len() && s[i] == (cx + a, cy + b);
    assert(limit > 0);
    if i < prev.len() {
        assert(prev[i] == (cx + a, cy + b));
        assert(prev.contains((cx + a, cy + b)));
        lemma_circle_mirror_y_upto(cx, cy, r, limit - 1, a, b);
        let j = choose|j: int| 0 <= j < prev.len() && prev[j] == (cx + a, cy - b);
        assert(s[j] == (cx + a, cy - b));
    } else {
        let j = i - prev.len();
        assert(oct[j] == (cx + a, cy + b));
        let m: int = if j == 0 {
            1
        } else if j == 1 {
            0
        } else if j == 2 {
            3
        } else if j == 3 {
            2
        } else if j == 4 {
            5
        } else if j == 5 {
            4
        } else if j == 6 {
            7
        } else {
            6
        };
        assert(oct[m] == (cx + a, cy - b));
        assert(s[prev.len() + m] == (cx + a, cy - b));
    }
}

/// The circle outline is symmetric under reflection across both the
/// vertical and the horizontal axis through its center: a point at offset
/// `(a, b)` from the center is plotted exactly when the points at
/// `(-a, b)` and `(a, -b)` are.
pub proof fn lemma_circle_symmetry(cx: int, cy: int, r: nat, a: int, b: int)
    ensures
        circle_points(cx, cy, r).contains((cx + a, cy + b)) <==> circle_points(
            cx,
            cy,
            r,
        ).contains((cx - a, cy + b)),
        circle_points(cx, cy, r).contains((cx + a, cy + b)) <==> circle_points(
            cx,
            cy,
            r,
        ).contains((cx + a, cy - b)),
{
    let limit = octant_limit(r) as int;
    if circle_points(cx, cy, r).contains((cx + a, cy + b)) {
        lemma_circle_mirror_x_upto(cx, cy, r, limit, a, b);
        lemma_circle_mirror_y_upto(cx, cy, r, limit, a, b);
    }
    if circle_points(cx, cy, r).contains((cx - a, cy + b)) {
        assert(cx - a == cx + (-a) && cy + b == cy + b);
        lemma_circle_mirror_x_upto(cx, cy, r, limit, -a, b);
        assert(cx - (-a) == cx + a);
    }
    if circle_points(cx, cy, r).contains((cx + a, cy - b)) {
        lemma_circle_mirror_y_upto(cx, cy, r, limit, a, -b);
    }
}

} // verus!
