//! Fixed-point plane geometry for the road network: positions and
//! tangents are integer vectors, lane boundaries are cubic Bezier
//! segments offset from the centerline by a lane half-width, and each
//! segment is tessellated at a fixed number of parameter steps.
//!
//! Coordinates are kept in ranges that make every intermediate product
//! fit an `i64`, so all curve evaluation is exact integer arithmetic.

use vstd::prelude::*;
use vstd::arithmetic::div_mod::{
    lemma_div_pos_is_pos, lemma_div_is_ordered, lemma_div_is_ordered_by_denominator,
    lemma_div_multiples_vanish,
};

verus! {

/// Smallest allowed control-point coordinate. The floor keeps every
/// derived boundary coordinate strictly positive (offsets and tangent
/// handles subtract at most `HALF_WIDTH + DIR_LIMIT`), so all curve
/// evaluation divides non-negative numerators exactly.
pub const POS_LO: i64 = 100_000;

/// Largest allowed control-point coordinate.
pub const POS_HI: i64 = 1_000_000_000;

/// Largest allowed magnitude of a tangent component.
pub const DIR_LIMIT: i64 = 40_000;

/// Lateral offset of each lane boundary from the centerline.
pub const HALF_WIDTH: i64 = 10_000;

/// Smallest coordinate a derived boundary curve can reach.
pub const GEO_LO: i64 = 50_000;

/// Largest coordinate a derived boundary curve can reach.
pub const GEO_HI: i64 = 1_000_050_000;

/// Number of linear steps each Bezier segment is tessellated into.
pub const STEPS: i64 = 16;

/// `STEPS` cubed: the denominator of integer Bezier evaluation.
pub const STEPS_CUBED: i64 = 4096;

/// A plane point or vector in fixed-point world units.
#[derive(Clone, Copy, PartialEq, Eq, Structural, Debug)]
pub struct Vec2 {
    pub x: i64,
    pub y: i64,
}

/// An interpolation anchor of a curve: a position and the curve's
/// tangent handle at that position.
#[derive(Clone, Copy, PartialEq, Eq, Structural, Debug)]
pub struct ControlPoint {
    pub position: Vec2,
    pub direction: Vec2,
}

/// A directed cubic Bezier segment.
#[derive(Clone, Copy, PartialEq, Eq, Structural, Debug)]
pub struct Bezier {
    pub p0: Vec2,
    pub p1: Vec2,
    pub p2: Vec2,
    pub p3: Vec2,
}

pub open spec fn pos_ok(v: Vec2) -> bool {
    POS_LO <= v.x <= POS_HI && POS_LO <= v.y <= POS_HI
}

pub open spec fn dir_ok(v: Vec2) -> bool {
    &&& -DIR_LIMIT <= v.x <= DIR_LIMIT
    &&& -DIR_LIMIT <= v.y <= DIR_LIMIT
    &&& !(v.x == 0 && v.y == 0)
}

pub open spec fn control_point_ok(c: ControlPoint) -> bool {
    pos_ok(c.position) && dir_ok(c.direction)
}

pub open spec fn geo_ok(v: Vec2) -> bool {
    GEO_LO <= v.x <= GEO_HI && GEO_LO <= v.y <= GEO_HI
}

pub open spec fn bezier_ok(b: Bezier) -> bool {
    geo_ok(b.p0) && geo_ok(b.p1) && geo_ok(b.p2) && geo_ok(b.p3)
}

/// Division rounding toward zero, as the executable code computes it.
pub open spec fn div_tz(n: int, d: int) -> int {
    if n >= 0 {
        n / d
    } else {
        -((-n) / d)
    }
}

/// Integer square root, rounded down.
pub open spec fn sqrt_floor(n: nat) -> nat
    decreases n,
{
    if n == 0 {
        0
    } else {
        let r = sqrt_floor((n - 1) as nat);
        if (r + 1) * (r + 1) <= n {
            r + 1
        } else {
            r
        }
    }
}

pub proof fn lemma_sqrt_floor_bracket(n: nat)
    ensures
        sqrt_floor(n) * sqrt_floor(n) <= n,
        n < (sqrt_floor(n) + 1) * (sqrt_floor(n) + 1),
    decreases n,
{
    if n == 0 {
        assert(sqrt_floor(0) == 0);
        assert(n < (sqrt_floor(n) + 1) * (sqrt_floor(n) + 1)) by (nonlinear_arith)
            requires
                n == 0,
                sqrt_floor(n) == 0nat,
        ;
    } else {
        lemma_sqrt_floor_bracket((n - 1) as nat);
        let r = sqrt_floor((n - 1) as nat);
        assert(sqrt_floor(n) == if (r + 1) * (r + 1) <= n {
            r + 1
        } else {
            r
        });
        if (r + 1) * (r + 1) <= n {
            assert(n <= (r + 1) * (r + 1)) by {
                assert(n - 1 < (r + 1) * (r + 1));
            }
            assert((r + 1) * (r + 1) < (r + 2) * (r + 2)) by (nonlinear_arith)
                requires
                    0 <= r,
            ;
            assert(sqrt_floor(n) == r + 1);
            assert(n < (sqrt_floor(n) + 1) * (sqrt_floor(n) + 1)) by {
                assert((sqrt_floor(n) + 1) * (sqrt_floor(n) + 1) == (r + 2) * (r + 2));
            }
        } else {
            assert(sqrt_floor(n) == r);
            assert(n < (r + 1) * (r + 1));
        }
    }
}

/// The integer square root is the only integer whose square brackets `n`.
pub proof fn lemma_sqrt_unique(n: nat, r: nat)
    requires
        r * r <= n,
        n < (r + 1) * (r + 1),
    ensures
        r == sqrt_floor(n),
{
    lemma_sqrt_floor_bracket(n);
    let s = sqrt_floor(n);
    if r < s {
        assert((r + 1) * (r + 1) <= s * s) by (nonlinear_arith)
            requires
                r + 1 <= s,
        ;
    }
    if s < r {
        assert((s + 1) * (s + 1) <= r * r) by (nonlinear_arith)
            requires
                s + 1 <= r,
        ;
    }
}

/// If `0 <= c` and `c * c <= n` then `c` cannot exceed the square root.
pub proof fn lemma_sqrt_ge(n: nat, c: int)
    requires
        0 <= c,
        c * c <= n,
    ensures
        c <= sqrt_floor(n),
{
    lemma_sqrt_floor_bracket(n);
    let s = sqrt_floor(n) as int;
    if s < c {
        assert((s + 1) * (s + 1) <= c * c) by (nonlinear_arith)
            requires
                s + 1 <= c,
                0 <= s,
        ;
    }
}

/// Binary-search integer square root.
pub fn isqrt(n: u64) -> (r: u64)
    requires
        n <= 4_000_000_000_000_000_000,
    ensures
        r == sqrt_floor(n as nat),
        r * r <= n,
        n < (r + 1) * (r + 1),
        r <= 2_000_000_000,
{
    let mut lo: u64 = 0;
    let mut hi: u64 = 2_000_000_000;
    proof {
        assert((hi + 1) * (hi + 1) > n) by (nonlinear_arith)
            requires
                n <= 4_000_000_000_000_000_000u64,
                hi == 2_000_000_000u64,
        ;
    }
    while lo < hi
        invariant
            lo <= hi <= 2_000_000_000,
            lo * lo <= n,
            n < (hi + 1) * (hi + 1),
        decreases hi - lo,
    {
        let gap: u64 = hi - lo;
        let mid: u64 = lo + (gap + 1) / 2;
        proof {
            assert(lo < mid <= hi);
            assert(mid * mid <= 4_000_000_000_000_000_000) by (nonlinear_arith)
                requires
                    mid <= 2_000_000_000u64,
            ;
        }
        if mid * mid <= n {
            lo = mid;
        } else {
            hi = mid - 1;
        }
    }
    proof {
        lemma_sqrt_unique(n as nat, lo as nat);
    }
    lo
}

/// Truncating division of a non-negative numerator by a positive divisor.
fn div_pos(n: i64, d: i64) -> (q: i64)
    requires
        0 <= n,
        1 <= d,
    ensures
        q == n as int / d as int,
        0 <= q <= n,
{
    proof {
        lemma_div_pos_is_pos(n as int, d as int);
        lemma_div_is_ordered_by_denominator(n as int, 1, d as int);
    }
    ((n as u64) / (d as u64)) as i64
}

/// Truncating division of any numerator by a positive divisor, matching
/// `div_tz`.
pub(crate) fn div_signed(n: i64, d: i64) -> (q: i64)
    requires
        1 <= d,
        -0x7fff_ffff_ffff_ffff <= n,
    ensures
        q == div_tz(n as int, d as int),
{
    if n >= 0 {
        div_pos(n, d)
    } else {
        let p = div_pos(-n, d);
        -p
    }
}

/// The lateral boundary offset for tangent `d`: the perpendicular of `d`
/// scaled to length `HALF_WIDTH` (rounded toward zero).
pub open spec fn perp_offset_spec(d: Vec2) -> Vec2 {
    let len = sqrt_floor((d.x * d.x + d.y * d.y) as nat) as int;
    Vec2 { x: div_tz(-d.y * HALF_WIDTH, len) as i64, y: div_tz(d.x * HALF_WIDTH, len) as i64 }
}

/// A scaled component: `0 <= c * HALF_WIDTH / len <= HALF_WIDTH` when the
/// component magnitude `c` is at most the length `len`.
proof fn lemma_scaled_component(c: int, len: int)
    requires
        0 <= c <= len,
        1 <= len,
    ensures
        0 <= c * HALF_WIDTH / len <= HALF_WIDTH,
{
    assert(0 <= c * HALF_WIDTH) by (nonlinear_arith)
        requires
            0 <= c,
    ;
    lemma_div_pos_is_pos(c * HALF_WIDTH, len);
    assert(c * HALF_WIDTH <= len * HALF_WIDTH) by (nonlinear_arith)
        requires
            c <= len,
    ;
    lemma_div_is_ordered(c * HALF_WIDTH, len * HALF_WIDTH, len);
    lemma_div_multiples_vanish(HALF_WIDTH as int, len);
}

/// Magnitude of `v`, in spec form.
pub open spec fn abs_i(v: int) -> int {
    if v >= 0 {
        v
    } else {
        -v
    }
}

/// Groundwork about a tangent's squared length and its components.
proof fn lemma_tangent_squares(d: Vec2)
    requires
        dir_ok(d),
    ensures
        0 <= d.x * d.x + d.y * d.y <= 2 * DIR_LIMIT * DIR_LIMIT,
        abs_i(d.x as int) * abs_i(d.x as int) == d.x * d.x,
        abs_i(d.y as int) * abs_i(d.y as int) == d.y * d.y,
        1 <= d.x * d.x + d.y * d.y,
{
    let ax = abs_i(d.x as int);
    let ay = abs_i(d.y as int);
    assert(ax * ax == d.x * d.x && ay * ay == d.y * d.y) by (nonlinear_arith)
        requires
            ax == abs_i(d.x as int),
            ay == abs_i(d.y as int),
            abs_i(d.x as int) == if d.x >= 0 {
                d.x as int
            } else {
                -(d.x as int)
            },
            abs_i(d.y as int) == if d.y >= 0 {
                d.y as int
            } else {
                -(d.y as int)
            },
    ;
    assert(0 <= ax * ax && 0 <= ay * ay && (ax >= 1 ==> 1 <= ax * ax) && (ay >= 1 ==> 1 <= ay
        * ay)) by (nonlinear_arith)
        requires
            0 <= ax,
            0 <= ay,
    ;
    assert(ax * ax <= DIR_LIMIT * DIR_LIMIT && ay * ay <= DIR_LIMIT * DIR_LIMIT)
        by (nonlinear_arith)
        requires
            0 <= ax <= DIR_LIMIT,
            0 <= ay <= DIR_LIMIT,
    ;
    assert(ax >= 1 || ay >= 1);
}

/// The squared length of a valid tangent, its root, and the component
/// bounds used by the offset computation.
proof fn lemma_tangent_length(d: Vec2)
    requires
        dir_ok(d),
    ensures
        1 <= sqrt_floor((d.x * d.x + d.y * d.y) as nat),
        abs_i(d.x as int) <= sqrt_floor((d.x * d.x + d.y * d.y) as nat),
        abs_i(d.y as int) <= sqrt_floor((d.x * d.x + d.y * d.y) as nat),
        sqrt_floor((d.x * d.x + d.y * d.y) as nat) <= 60_000,
{
    lemma_tangent_squares(d);
    let n = (d.x * d.x + d.y * d.y) as nat;
    lemma_sqrt_ge(n, 1);
    lemma_sqrt_ge(n, abs_i(d.x as int));
    lemma_sqrt_ge(n, abs_i(d.y as int));
    lemma_sqrt_floor_bracket(n);
    let s = sqrt_floor(n) as int;
    if s > 60_000 {
        assert(60_001 * 60_001 <= s * s) by (nonlinear_arith)
            requires
                60_001 <= s,
        ;
    }
}

pub proof fn lemma_perp_offset_bounds(d: Vec2)
    requires
        dir_ok(d),
    ensures
        -HALF_WIDTH <= perp_offset_spec(d).x <= HALF_WIDTH,
        -HALF_WIDTH <= perp_offset_spec(d).y <= HALF_WIDTH,
{
    lemma_tangent_squares(d);
    lemma_tangent_length(d);
    let n = (d.x * d.x + d.y * d.y) as nat;
    let len = sqrt_floor(n) as int;
    let ax = abs_i(d.x as int);
    let ay = abs_i(d.y as int);
    lemma_scaled_component(ax, len);
    lemma_scaled_component(ay, len);
    assert(-d.y * HALF_WIDTH == if d.y >= 0 {
        -(ay * HALF_WIDTH)
    } else {
        ay * HALF_WIDTH
    }) by (nonlinear_arith)
        requires
            ay == if d.y >= 0 {
                d.y as int
            } else {
                -(d.y as int)
            },
    ;
    assert(d.x * HALF_WIDTH == if d.x >= 0 {
        ax * HALF_WIDTH
    } else {
        -(ax * HALF_WIDTH)
    }) by (nonlinear_arith)
        requires
            ax == if d.x >= 0 {
                d.x as int
            } else {
                -(d.x as int)
            },
    ;
}

/// Executable counterpart of `perp_offset_spec`.
pub fn perp_offset(d: Vec2) -> (o: Vec2)
    requires
        dir_ok(d),
    ensures
        o == perp_offset_spec(d),
        -HALF_WIDTH <= o.x <= HALF_WIDTH,
        -HALF_WIDTH <= o.y <= HALF_WIDTH,
{
    proof {
        lemma_tangent_squares(d);
        lemma_tangent_length(d);
        lemma_perp_offset_bounds(d);
    }
    let n2: i64 = d.x * d.x + d.y * d.y;
    let len: i64 = isqrt(n2 as u64) as i64;
    Vec2 { x: div_signed(-d.y * HALF_WIDTH, len), y: div_signed(d.x * HALF_WIDTH, len) }
}


/// The boundary anchor for control point `c`: its position shifted by
/// `HALF_WIDTH` to the left or the right of its tangent.
pub open spec fn offset_point_spec(c: ControlPoint, left: bool) -> Vec2 {
    let o = perp_offset_spec(c.direction);
    if left {
        Vec2 { x: (c.position.x + o.x) as i64, y: (c.position.y + o.y) as i64 }
    } else {
        Vec2 { x: (c.position.x - o.x) as i64, y: (c.position.y - o.y) as i64 }
    }
}

pub proof fn lemma_offset_point_bounds(c: ControlPoint, left: bool)
    requires
        control_point_ok(c),
    ensures
        POS_LO - HALF_WIDTH <= offset_point_spec(c, left).x <= POS_HI + HALF_WIDTH,
        POS_LO - HALF_WIDTH <= offset_point_spec(c, left).y <= POS_HI + HALF_WIDTH,
{
    lemma_perp_offset_bounds(c.direction);
}

/// Executable counterpart of `offset_point_spec`.
pub fn offset_point(c: ControlPoint, left: bool) -> (v: Vec2)
    requires
        control_point_ok(c),
    ensures
        v == offset_point_spec(c, left),
        POS_LO - HALF_WIDTH <= v.x <= POS_HI + HALF_WIDTH,
        POS_LO - HALF_WIDTH <= v.y <= POS_HI + HALF_WIDTH,
{
    proof {
        lemma_offset_point_bounds(c, left);
    }
    let o = perp_offset(c.direction);
    if left {
        Vec2 { x: c.position.x + o.x, y: c.position.y + o.y }
    } else {
        Vec2 { x: c.position.x - o.x, y: c.position.y - o.y }
    }
}

/// The directed cubic Bezier segment of one lane boundary between two
/// consecutive control points: the endpoints are the boundary anchors,
/// and the inner handles follow the anchors' tangents.
pub open spec fn boundary_bezier_spec(c1: ControlPoint, c2: ControlPoint, left: bool) -> Bezier {
    let q1 = offset_point_spec(c1, left);
    let q2 = offset_point_spec(c2, left);
    Bezier {
        p0: q1,
        p1: Vec2 {
            x: (q1.x + c1.direction.x) as i64,
            y: (q1.y + c1.direction.y) as i64,
        },
        p2: Vec2 {
            x: (q2.x - c2.direction.x) as i64,
            y: (q2.y - c2.direction.y) as i64,
        },
        p3: q2,
    }
}

pub proof fn lemma_boundary_bezier_ok(c1: ControlPoint, c2: ControlPoint, left: bool)
    requires
        control_point_ok(c1),
        control_point_ok(c2),
    ensures
        bezier_ok(boundary_bezier_spec(c1, c2, left)),
{
    lemma_offset_point_bounds(c1, left);
    lemma_offset_point_bounds(c2, left);
}

/// Executable counterpart of `boundary_bezier_spec`.
pub fn boundary_bezier(c1: ControlPoint, c2: ControlPoint, left: bool) -> (b: Bezier)
    requires
        control_point_ok(c1),
        control_point_ok(c2),
    ensures
        b == boundary_bezier_spec(c1, c2, left),
        bezier_ok(b),
{
    proof {
        lemma_boundary_bezier_ok(c1, c2, left);
    }
    let q1 = offset_point(c1, left);
    let q2 = offset_point(c2, left);
    Bezier {
        p0: q1,
        p1: Vec2 { x: q1.x + c1.direction.x, y: q1.y + c1.direction.y },
        p2: Vec2 { x: q2.x - c2.direction.x, y: q2.y - c2.direction.y },
        p3: q2,
    }
}

/// The point of Bezier segment `b` at parameter `k / STEPS`, by the
/// integer Bernstein form with denominator `STEPS_CUBED`.
pub open spec fn bezier_point_spec(b: Bezier, k: int) -> Vec2 {
    if k <= 0 {
        b.p0
    } else if k >= 16 {
        b.p3
    } else {
        let j = 16 - k;
        let w0 = j * j * j;
        let w1 = 3 * (j * j) * k;
        let w2 = 3 * j * (k * k);
        let w3 = k * k * k;
        Vec2 {
            x: ((w0 * b.p0.x + w1 * b.p1.x + w2 * b.p2.x + w3 * b.p3.x) / 4096) as i64,
            y: ((w0 * b.p0.y + w1 * b.p1.y + w2 * b.p2.y + w3 * b.p3.y) / 4096) as i64,
        }
    }
}

/// The Bernstein weights at step `k`: all non-negative, summing to
/// `STEPS_CUBED`.
proof fn lemma_weights(k: int)
    requires
        0 <= k <= 16,
    ensures
        0 <= (16 - k) * (16 - k) <= 256,
        0 <= k * k <= 256,
        0 <= (16 - k) * (16 - k) * (16 - k) <= 4096,
        0 <= 3 * ((16 - k) * (16 - k)) * k <= 4096,
        0 <= 3 * (16 - k) * (k * k) <= 4096,
        0 <= k * k * k <= 4096,
        (16 - k) * (16 - k) * (16 - k) + 3 * ((16 - k) * (16 - k)) * k + 3 * (16 - k) * (k * k) + k
            * k * k == 4096,
{
    assert((16 - k) * (16 - k) * (16 - k) + 3 * ((16 - k) * (16 - k)) * k + 3 * (16 - k) * (k * k)
        + k * k * k == 4096 && 0 <= (16 - k) * (16 - k) <= 256 && 0 <= k * k <= 256 && 0 <= (16 - k)
        * (16 - k) * (16 - k) && 0 <= 3 * ((16 - k) * (16 - k)) * k && 0 <= 3 * (16 - k) * (k * k)
        && 0 <= k * k * k) by (nonlinear_arith)
        requires
            0 <= k <= 16,
    ;
}

/// A weighted term stays between the weight times the coordinate bounds.
proof fn lemma_term_bounds(w: int, a: int)
    requires
        0 <= w <= 4096,
        GEO_LO <= a <= GEO_HI,
    ensures
        w * GEO_LO <= w * a <= w * GEO_HI,
        0 <= w * a <= 4096 * GEO_HI,
{
    assert(w * GEO_LO <= w * a && w * a <= w * GEO_HI && 0 <= w * a && w * GEO_HI <= 4096
        * GEO_HI) by (nonlinear_arith)
        requires
            0 <= w <= 4096,
            GEO_LO <= a <= GEO_HI,
            0 < GEO_LO,
    ;
}

/// The weighted numerator of one coordinate lies in
/// `[4096 * GEO_LO, 4096 * GEO_HI]`.
proof fn lemma_combo_bounds(w0: int, w1: int, w2: int, w3: int, a0: int, a1: int, a2: int, a3: int)
    requires
        0 <= w0 <= 4096,
        0 <= w1 <= 4096,
        0 <= w2 <= 4096,
        0 <= w3 <= 4096,
        w0 + w1 + w2 + w3 == 4096,
        GEO_LO <= a0 <= GEO_HI,
        GEO_LO <= a1 <= GEO_HI,
        GEO_LO <= a2 <= GEO_HI,
        GEO_LO <= a3 <= GEO_HI,
    ensures
        4096 * GEO_LO <= w0 * a0 + w1 * a1 + w2 * a2 + w3 * a3 <= 4096 * GEO_HI,
        GEO_LO <= (w0 * a0 + w1 * a1 + w2 * a2 + w3 * a3) / 4096 <= GEO_HI,
{
    lemma_term_bounds(w0, a0);
    lemma_term_bounds(w1, a1);
    lemma_term_bounds(w2, a2);
    lemma_term_bounds(w3, a3);
    assert(w0 * GEO_LO + w1 * GEO_LO + w2 * GEO_LO + w3 * GEO_LO == 4096 * GEO_LO
        && w0 * GEO_HI + w1 * GEO_HI + w2 * GEO_HI + w3 * GEO_HI == 4096 * GEO_HI)
        by (nonlinear_arith)
        requires
            w0 + w1 + w2 + w3 == 4096,
    ;
    let s = w0 * a0 + w1 * a1 + w2 * a2 + w3 * a3;
    lemma_div_is_ordered(4096 * GEO_LO, s, 4096);
    lemma_div_is_ordered(s, 4096 * GEO_HI, 4096);
    lemma_div_multiples_vanish(GEO_LO as int, 4096);
    lemma_div_multiples_vanish(GEO_HI as int, 4096);
}

/// Executable counterpart of `bezier_point_spec`: a tessellation vertex.
pub fn bezier_point(b: Bezier, k: i64) -> (v: Vec2)
    requires
        bezier_ok(b),
        0 <= k <= STEPS,
    ensures
        v == bezier_point_spec(b, k as int),
        geo_ok(v),
{
    if k == 0 {
        return b.p0;
    }
    if k == 16 {
        return b.p3;
    }
    proof {
        lemma_weights(k as int);
    }
    let j: i64 = 16 - k;
    let w0: i64 = j * j * j;
    let w1: i64 = 3 * (j * j) * k;
    let w2: i64 = 3 * j * (k * k);
    let w3: i64 = k * k * k;
    proof {
        lemma_combo_bounds(
            w0 as int,
            w1 as int,
            w2 as int,
            w3 as int,
            b.p0.x as int,
            b.p1.x as int,
            b.p2.x as int,
            b.p3.x as int,
        );
        lemma_combo_bounds(
            w0 as int,
            w1 as int,
            w2 as int,
            w3 as int,
            b.p0.y as int,
            b.p1.y as int,
            b.p2.y as int,
            b.p3.y as int,
        );
        lemma_term_bounds(w0 as int, b.p0.x as int);
        lemma_term_bounds(w1 as int, b.p1.x as int);
        lemma_term_bounds(w2 as int, b.p2.x as int);
        lemma_term_bounds(w3 as int, b.p3.x as int);
        lemma_term_bounds(w0 as int, b.p0.y as int);
        lemma_term_bounds(w1 as int, b.p1.y as int);
        lemma_term_bounds(w2 as int, b.p2.y as int);
        lemma_term_bounds(w3 as int, b.p3.y as int);
    }
    let nx: i64 = w0 * b.p0.x + w1 * b.p1.x + w2 * b.p2.x + w3 * b.p3.x;
    let ny: i64 = w0 * b.p0.y + w1 * b.p1.y + w2 * b.p2.y + w3 * b.p3.y;
    Vec2 { x: div_pos(nx, 4096), y: div_pos(ny, 4096) }
}

/// A tessellated segment starts exactly at its first anchor and ends
/// exactly at its last.
pub proof fn lemma_bezier_endpoints(b: Bezier)
    ensures
        bezier_point_spec(b, 0) == b.p0,
        bezier_point_spec(b, 16) == b.p3,
{
}

} // verus!
