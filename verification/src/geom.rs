//! Integer geometry: 2-D vectors, integer square root, and fixed-point
//! normalization of the ball's direction vector.
//!
//! A direction is stored as a pair of fixed-point components whose Euclidean
//! norm is kept close to `DIR_UNIT` (the integer analogue of a unit vector).
//! `normalize` rescales an arbitrary nonzero vector back onto that circle,
//! within the tolerance `near_unit` states.

use vstd::prelude::*;
use crate::DIR_UNIT;

verus! {

/// A 2-D integer vector (world coordinates or fixed-point direction).
#[derive(Clone, Copy, Debug, PartialEq, Eq, Structural)]
pub struct Vec2i {
    pub x: i64,
    pub y: i64,
}

/// The integer square root: the largest `r` with `r * r <= v`.
pub open spec fn spec_isqrt(v: nat) -> nat
    decreases v,
{
    if v == 0 {
        0
    } else {
        let r = spec_isqrt((v - 1) as nat);
        if (r + 1) * (r + 1) <= v {
            r + 1
        } else {
            r
        }
    }
}

/// `spec_isqrt(v)` is the unique `r` with `r * r <= v < (r + 1) * (r + 1)`.
pub proof fn lemma_isqrt_bounds(v: nat)
    ensures
        spec_isqrt(v) * spec_isqrt(v) <= v,
        v < (spec_isqrt(v) + 1) * (spec_isqrt(v) + 1),
    decreases v,
{
    let s = spec_isqrt(v);
    if v == 0 {
        assert(s * s <= v && v < (s + 1) * (s + 1)) by (nonlinear_arith)
            requires
                s == 0,
                v == 0,
        ;
    } else {
        lemma_isqrt_bounds((v - 1) as nat);
        let r = spec_isqrt((v - 1) as nat);
        assert(r * r <= v - 1);
        assert((v - 1) < (r + 1) * (r + 1));
        if (r + 1) * (r + 1) <= v {
            assert(s == r + 1);
            assert(s * s <= v && v < (s + 1) * (s + 1)) by (nonlinear_arith)
                requires
                    s == r + 1,
                    1 <= v,
                    (r + 1) * (r + 1) <= v,
                    (v - 1) < (r + 1) * (r + 1),
            ;
        } else {
            assert(s == r);
            assert(s * s <= v && v < (s + 1) * (s + 1)) by (nonlinear_arith)
                requires
                    s == r,
                    r * r <= v - 1,
                    1 <= v,
                    !((r + 1) * (r + 1) <= v),
            ;
        }
    }
}

/// Any `r` satisfying the square-root bracketing equals `spec_isqrt(v)`.
pub proof fn lemma_isqrt_unique(v: nat, r: nat)
    requires
        r * r <= v,
        v < (r + 1) * (r + 1),
    ensures
        r == spec_isqrt(v),
{
    lemma_isqrt_bounds(v);
    let s = spec_isqrt(v);
    if r < s {
        assert(false) by (nonlinear_arith)
            requires
                r < s,
                s * s <= v,
                v < (r + 1) * (r + 1),
        ;
    }
    if s < r {
        assert(false) by (nonlinear_arith)
            requires
                s < r,
                r * r <= v,
                v < (s + 1) * (s + 1),
        ;
    }
}

/// Integer square root by binary search.
pub fn isqrt(v: u64) -> (r: u64)
    ensures
        r as nat == spec_isqrt(v as nat),
        r * r <= v,
{
    let mut lo: u64 = 0;
    let mut hi: u64 = 4_294_967_296;
    proof {
        assert((4_294_967_296 as int) * (4_294_967_296 as int) > v as int);
    }
    while lo + 1 < hi
        invariant
            lo < hi <= 4_294_967_296,
            (lo as int) * (lo as int) <= v as int,
            (v as int) < (hi as int) * (hi as int),
        decreases hi - lo,
    {
        let mid: u64 = lo + (hi - lo) / 2;
        proof {
            assert(lo < mid < hi);
            assert((mid as int) * (mid as int) <= (4_294_967_295 as int) * (4_294_967_295 as int))
                by (nonlinear_arith)
                requires
                    0 <= (mid as int) <= 4_294_967_295,
            ;
        }
        if mid * mid <= v {
            lo = mid;
        } else {
            hi = mid;
        }
    }
    proof {
        lemma_isqrt_unique(v as nat, lo as nat);
    }
    lo
}

/// The squared Euclidean norm of a direction vector.
pub open spec fn norm_sq(dx: int, dy: int) -> int {
    dx * dx + dy * dy
}

/// The integer analogue of "unit length": the squared norm lies within
/// `4 * DIR_UNIT` of `DIR_UNIT * DIR_UNIT`, a relative tolerance of about
/// `2 / DIR_UNIT` on the norm itself.
pub open spec fn near_unit(dx: int, dy: int) -> bool {
    DIR_UNIT * DIR_UNIT - 4 * DIR_UNIT <= norm_sq(dx, dy) <= DIR_UNIT * DIR_UNIT + 4 * DIR_UNIT
}

/// A direction vector fit for the simulation: close to unit length, each
/// component individually bounded.
pub open spec fn dir_wf(d: Vec2i) -> bool {
    &&& near_unit(d.x as int, d.y as int)
    &&& -DIR_UNIT - 1 <= d.x <= DIR_UNIT + 1
    &&& -DIR_UNIT - 1 <= d.y <= DIR_UNIT + 1
}

/// One rescaled component: `a * DIR_UNIT^2 / m`, the division applied to the
/// magnitude so that truncation is toward zero for either sign.
pub open spec fn spec_scale_comp(a: int, m: int) -> int {
    if a >= 0 {
        (a * DIR_UNIT * DIR_UNIT) / m
    } else {
        -((-a * DIR_UNIT * DIR_UNIT) / m)
    }
}

/// The normalized form of `d`: each component rescaled by
/// `DIR_UNIT / |d|`, where `|d|` is taken through the integer square root of
/// the squared norm, pre-scaled by `DIR_UNIT^2` for precision.
pub open spec fn spec_normalize(d: Vec2i) -> Vec2i {
    let t = norm_sq(d.x as int, d.y as int);
    let m = spec_isqrt((t * DIR_UNIT * DIR_UNIT) as nat) as int;
    Vec2i {
        x: spec_scale_comp(d.x as int, m) as i64,
        y: spec_scale_comp(d.y as int, m) as i64,
    }
}

/// If a magnitude's square is below the scaled norm, the magnitude itself
/// stays below the square root `m`, scaled by `u`.
proof fn lemma_comp_le_root(a: int, t: int, u: int, m: int) by (nonlinear_arith)
    requires
        0 <= a,
        0 < u,
        0 <= m,
        a * a <= t,
        t * u * u < (m + 1) * (m + 1),
    ensures
        a * u <= m,
{
}

/// The heart of the normalization bound: truncated division of each scaled
/// magnitude by the near-exact square root `m` lands the squared norm within
/// `4 * u` of `u * u`.
proof fn lemma_normalize_bounds(ax: int, ay: int, m: int, nx: int, ny: int, u: int)
    requires
        0 <= ax,
        0 <= ay,
        0 < u,
        u <= m,
        ax * u <= m,
        ay * u <= m,
        m * m <= (ax * ax + ay * ay) * u * u,
        (ax * ax + ay * ay) * u * u < (m + 1) * (m + 1),
        0 <= nx,
        0 <= ny,
        nx * m <= ax * u * u,
        ax * u * u < (nx + 1) * m,
        ny * m <= ay * u * u,
        ay * u * u < (ny + 1) * m,
    ensures
        u * u - 4 * u <= nx * nx + ny * ny <= u * u + 4 * u,
        nx <= u + 1,
        ny <= u + 1,
{
    let a = ax * u * u;
    let b = ay * u * u;
    assert(0 <= nx * m && 0 <= ny * m) by (nonlinear_arith)
        requires
            0 <= nx,
            0 <= ny,
            0 < m,
    ;
    assert(0 <= a && 0 <= b) by (nonlinear_arith)
        requires
            0 <= ax,
            0 <= ay,
            0 < u,
            a == ax * u * u,
            b == ay * u * u,
    ;
    assert(a < nx * m + m && b < ny * m + m) by (nonlinear_arith)
        requires
            a < (nx + 1) * m,
            b < (ny + 1) * m,
    ;
    // Upper bound: (nx*m)^2 <= a^2, (ny*m)^2 <= b^2, and a^2 + b^2 is the
    // scaled norm, itself below ((m+1)*u)^2 <= (m^2)*(u^2 + 4u).
    assert(nx * nx * (m * m) <= a * a) by (nonlinear_arith)
        requires
            0 <= nx * m,
            nx * m <= a,
    ;
    assert(ny * ny * (m * m) <= b * b) by (nonlinear_arith)
        requires
            0 <= ny * m,
            ny * m <= b,
    ;
    assert(a * a + b * b == ((ax * ax + ay * ay) * u * u) * (u * u)) by (nonlinear_arith)
        requires
            a == ax * u * u,
            b == ay * u * u,
    ;
    assert(((ax * ax + ay * ay) * u * u) * (u * u) < ((m + 1) * (m + 1)) * (u * u))
        by (nonlinear_arith)
        requires
            (ax * ax + ay * ay) * u * u < (m + 1) * (m + 1),
            0 < u,
    ;
    assert(((m + 1) * (m + 1)) * (u * u) <= (m * m) * (u * u + 4 * u)) by (nonlinear_arith)
        requires
            0 < u,
            u <= m,
    ;
    assert((nx * nx + ny * ny) * (m * m) == nx * nx * (m * m) + ny * ny * (m * m))
        by (nonlinear_arith)
    ;
    assert(nx * nx + ny * ny <= u * u + 4 * u) by (nonlinear_arith)
        requires
            (nx * nx + ny * ny) * (m * m) < (m * m) * (u * u + 4 * u),
            0 < m,
    ;
    // Lower bound: nx*m reaches within m of a, so its square loses at most
    // 2*a*m; the scaled norm is at least (m*u)^2, and a + b is at most 2*m*u.
    assert(nx * nx * (m * m) + 2 * a * m >= a * a) by (nonlinear_arith)
        requires
            0 <= nx,
            0 < m,
            0 <= a,
            a < nx * m + m,
            nx * m <= a,
    ;
    assert(ny * ny * (m * m) + 2 * b * m >= b * b) by (nonlinear_arith)
        requires
            0 <= ny,
            0 < m,
            0 <= b,
            b < ny * m + m,
            ny * m <= b,
    ;
    assert(a * a + b * b >= (m * m) * (u * u)) by (nonlinear_arith)
        requires
            a * a + b * b == ((ax * ax + ay * ay) * u * u) * (u * u),
            (ax * ax + ay * ay) * u * u >= m * m,
            0 < u,
    ;
    assert(a + b <= 2 * m * u) by (nonlinear_arith)
        requires
            a == ax * u * u,
            b == ay * u * u,
            ax * u <= m,
            ay * u <= m,
            0 < u,
    ;
    assert(2 * (a + b) * m == 2 * a * m + 2 * b * m) by (nonlinear_arith);
    assert(nx * nx + ny * ny >= u * u - 4 * u) by (nonlinear_arith)
        requires
            (nx * nx + ny * ny) * (m * m) + 2 * (a + b) * m >= a * a + b * b,
            (nx * nx + ny * ny) * (m * m) == nx * nx * (m * m) + ny * ny * (m * m),
            a * a + b * b >= (m * m) * (u * u),
            a + b <= 2 * m * u,
            0 < m,
            0 < u,
    ;
    // Component bounds follow from the squared-norm upper bound.
    assert(nx <= u + 1 && ny <= u + 1) by (nonlinear_arith)
        requires
            nx * nx + ny * ny <= u * u + 4 * u,
            0 <= nx,
            0 <= ny,
            0 < u,
    ;
}

/// Negating either component of a vector leaves its squared norm alone.
pub proof fn lemma_neg_norm(x: int, y: int) by (nonlinear_arith)
    ensures
        norm_sq(-x, y) == norm_sq(x, y),
        norm_sq(x, -y) == norm_sq(x, y),
        norm_sq(-x, -y) == norm_sq(x, y),
{
}

/// `spec_normalize` of a bounded nonzero vector is near unit length, keeps
/// each component's sign (weakly), and keeps each component within
/// `DIR_UNIT + 1` in magnitude.
pub proof fn lemma_normalize_near_unit(d: Vec2i)
    requires
        1 <= norm_sq(d.x as int, d.y as int),
        -4 * DIR_UNIT <= d.x <= 4 * DIR_UNIT,
        -4 * DIR_UNIT <= d.y <= 4 * DIR_UNIT,
    ensures
        dir_wf(spec_normalize(d)),
        d.x >= 0 ==> spec_normalize(d).x >= 0,
        d.x <= 0 ==> spec_normalize(d).x <= 0,
        d.y >= 0 ==> spec_normalize(d).y >= 0,
        d.y <= 0 ==> spec_normalize(d).y <= 0,
{
    let u = DIR_UNIT as int;
    let dx = d.x as int;
    let dy = d.y as int;
    let ax = if dx < 0 { -dx } else { dx };
    let ay = if dy < 0 { -dy } else { dy };
    let t = norm_sq(dx, dy);
    assert(ax * ax + ay * ay == t) by (nonlinear_arith)
        requires
            t == dx * dx + dy * dy,
            ax == if dx < 0 { -dx } else { dx },
            ay == if dy < 0 { -dy } else { dy },
    ;
    let scaled = t * DIR_UNIT * DIR_UNIT;
    assert(1 <= t <= 3_200_000_000) by (nonlinear_arith)
        requires
            1 <= t,
            t == dx * dx + dy * dy,
            -40_000 <= dx <= 40_000,
            -40_000 <= dy <= 40_000,
    ;
    assert(0 <= scaled <= 320_000_000_000_000_000) by (nonlinear_arith)
        requires
            scaled == t * u * u,
            1 <= t <= 3_200_000_000,
            u == 10_000,
    ;
    lemma_isqrt_bounds(scaled as nat);
    let m = spec_isqrt(scaled as nat) as int;
    assert(m * m <= t * u * u && t * u * u < (m + 1) * (m + 1)) by (nonlinear_arith)
        requires
            m * m <= scaled,
            scaled < (m + 1) * (m + 1),
            scaled == t * u * u,
    ;
    assert(u <= m) by (nonlinear_arith)
        requires
            1 <= t,
            0 < u,
            0 <= m,
            t * u * u < (m + 1) * (m + 1),
            m * m <= t * u * u,
    ;
    lemma_comp_le_root(ax, t, u, m);
    lemma_comp_le_root(ay, t, u, m);
    let a = ax * u * u;
    let b = ay * u * u;
    vstd::arithmetic::div_mod::lemma_fundamental_div_mod(a, m);
    vstd::arithmetic::div_mod::lemma_mod_bound(a, m);
    vstd::arithmetic::div_mod::lemma_fundamental_div_mod(b, m);
    vstd::arithmetic::div_mod::lemma_mod_bound(b, m);
    let nx = a / m;
    let ny = b / m;
    assert(0 <= nx && nx * m <= a && a < (nx + 1) * m) by (nonlinear_arith)
        requires
            a == m * nx + a % m,
            0 <= a % m < m,
            0 <= a,
            0 < m,
    ;
    assert(0 <= ny && ny * m <= b && b < (ny + 1) * m) by (nonlinear_arith)
        requires
            b == m * ny + b % m,
            0 <= b % m < m,
            0 <= b,
            0 < m,
    ;
    assert(0 <= a && 0 <= b) by (nonlinear_arith)
        requires
            0 <= ax,
            0 <= ay,
            0 < u,
            a == ax * u * u,
            b == ay * u * u,
    ;
    lemma_normalize_bounds(ax, ay, m, nx, ny, u);
    let r = spec_normalize(d);
    assert(r.x as int == if dx >= 0 { nx } else { -nx });
    assert(r.y as int == if dy >= 0 { ny } else { -ny });
    assert(norm_sq(r.x as int, r.y as int) == nx * nx + ny * ny) by (nonlinear_arith)
        requires
            r.x as int == if dx >= 0 { nx } else { -nx },
            r.y as int == if dy >= 0 { ny } else { -ny },
    ;
}

/// Rescale a nonzero direction vector back onto the `DIR_UNIT` circle.
///
/// The result is exactly `spec_normalize(d)`; it is near unit length, keeps
/// the sign of each component (weakly), and each component is bounded by
/// `DIR_UNIT + 1` in magnitude.
pub fn normalize(d: Vec2i) -> (r: Vec2i)
    requires
        1 <= norm_sq(d.x as int, d.y as int),
        -4 * DIR_UNIT <= d.x <= 4 * DIR_UNIT,
        -4 * DIR_UNIT <= d.y <= 4 * DIR_UNIT,
    ensures
        r == spec_normalize(d),
        dir_wf(r),
        d.x >= 0 ==> r.x >= 0,
        d.x <= 0 ==> r.x <= 0,
        d.y >= 0 ==> r.y >= 0,
        d.y <= 0 ==> r.y <= 0,
{
    let ax: i64 = if d.x < 0 { -d.x } else { d.x };
    let ay: i64 = if d.y < 0 { -d.y } else { d.y };
    proof {
        assert((ax as int) * (ax as int) + (ay as int) * (ay as int)
            == norm_sq(d.x as int, d.y as int)) by (nonlinear_arith)
            requires
                ax as int == if d.x < 0 { -(d.x as int) } else { d.x as int },
                ay as int == if d.y < 0 { -(d.y as int) } else { d.y as int },
        ;
        assert((ax as int) * (ax as int) <= 40_000 * 40_000) by (nonlinear_arith)
            requires
                0 <= ax as int <= 40_000,
        ;
        assert((ay as int) * (ay as int) <= 40_000 * 40_000) by (nonlinear_arith)
            requires
                0 <= ay as int <= 40_000,
        ;
    }
    let t: u64 = (ax as u64) * (ax as u64) + (ay as u64) * (ay as u64);
    let uu: u64 = (DIR_UNIT as u64) * (DIR_UNIT as u64);
    proof {
        assert(uu as int == 100_000_000) by (nonlinear_arith)
            requires
                uu as int == (DIR_UNIT as int) * (DIR_UNIT as int),
                DIR_UNIT == 10_000i64,
        ;
        assert(t as int <= 3_200_000_000);
    }
    let scaled: u64 = t * uu;
    let m: u64 = isqrt(scaled);
    let ghost ti = t as int;
    let ghost mi = m as int;
    let ghost u = DIR_UNIT as int;
    proof {
        lemma_isqrt_bounds(scaled as nat);
        assert(mi * mi <= ti * u * u && ti * u * u < (mi + 1) * (mi + 1))
            by (nonlinear_arith)
            requires
                mi * mi <= scaled as int,
                (scaled as int) < (mi + 1) * (mi + 1),
                scaled as int == ti * (u * u),
        ;
        assert(u <= mi) by (nonlinear_arith)
            requires
                1 <= ti,
                0 < u,
                0 <= mi,
                ti * u * u < (mi + 1) * (mi + 1),
                mi * mi <= ti * u * u,
        ;
        lemma_comp_le_root(ax as int, ti, u, mi);
        lemma_comp_le_root(ay as int, ti, u, mi);
    }
    proof {
        assert((ax as int) * (uu as int) <= 4_000_000_000_000) by (nonlinear_arith)
            requires
                0 <= ax as int <= 40_000,
                uu as int == 100_000_000,
        ;
        assert((ay as int) * (uu as int) <= 4_000_000_000_000) by (nonlinear_arith)
            requires
                0 <= ay as int <= 40_000,
                uu as int == 100_000_000,
        ;
    }
    let nx: u64 = ((ax as u64) * uu) / m;
    let ny: u64 = ((ay as u64) * uu) / m;
    proof {
        let a = (ax as int) * u * u;
        let b = (ay as int) * u * u;
        vstd::arithmetic::div_mod::lemma_fundamental_div_mod(a, mi);
        vstd::arithmetic::div_mod::lemma_mod_bound(a, mi);
        vstd::arithmetic::div_mod::lemma_fundamental_div_mod(b, mi);
        vstd::arithmetic::div_mod::lemma_mod_bound(b, mi);
        assert((ax as int) * (uu as int) == a) by (nonlinear_arith)
            requires
                u == DIR_UNIT as int,
                uu as int == u * u,
                a == (ax as int) * u * u,
        ;
        assert((ay as int) * (uu as int) == b) by (nonlinear_arith)
            requires
                u == DIR_UNIT as int,
                uu as int == u * u,
                b == (ay as int) * u * u,
        ;
        assert(nx as int == a / mi);
        assert(ny as int == b / mi);
        assert(0 <= a / mi && a / mi * mi <= a && a < (a / mi + 1) * mi) by (nonlinear_arith)
            requires
                a == mi * (a / mi) + a % mi,
                0 <= a % mi < mi,
                0 <= a,
                0 < mi,
        ;
        assert(0 <= b / mi && b / mi * mi <= b && b < (b / mi + 1) * mi) by (nonlinear_arith)
            requires
                b == mi * (b / mi) + b % mi,
                0 <= b % mi < mi,
                0 <= b,
                0 < mi,
        ;
        lemma_normalize_bounds(ax as int, ay as int, mi, nx as int, ny as int, u);
    }
    let nxi: i64 = nx as i64;
    let nyi: i64 = ny as i64;
    let rx: i64 = if d.x < 0 { -nxi } else { nxi };
    let ry: i64 = if d.y < 0 { -nyi } else { nyi };
    let r = Vec2i { x: rx, y: ry };
    proof {
        assert(norm_sq(rx as int, ry as int) == (nx as int) * (nx as int) + (ny as int) * (ny as int))
            by (nonlinear_arith)
            requires
                rx as int == if d.x < 0 { -(nx as int) } else { nx as int },
                ry as int == if d.y < 0 { -(ny as int) } else { ny as int },
        ;
        assert(r == spec_normalize(d));
    }
    r
}

} // verus!
