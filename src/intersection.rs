use vstd::prelude::*;

use crate::coordinate::{SpacetimeEvent, Vec3, COORD_LIMIT};

verus! {

/// The real number `(rational + root_coefficient·√radicand) / denominator`.
///
/// Crossings of a straight world line with a light cone are roots of an integer quadratic, so
/// they are exactly of this form.
#[derive(Clone, Copy, Debug, PartialEq, Eq, Structural)]
pub struct Surd {
    pub rational: i128,
    pub root_coefficient: i128,
    /// Never negative.
    pub radicand: i128,
    /// Always positive.
    pub denominator: i128,
}

/// A spacetime event whose coordinates are surds over one radicand and one denominator.
#[derive(Clone, Copy, Debug, PartialEq, Eq, Structural)]
pub struct SurdEvent {
    pub x: Surd,
    pub y: Surd,
    pub z: Surd,
    pub time: Surd,
}

/// Why no crossing with the past light cone could be reported.
///
/// Both point at a segment that does not start inside the observer's past light cone: one
/// that does always crosses it (`lemma_crossing_exists_inside_past_cone`).
#[derive(Clone, Copy, Debug, PartialEq, Eq, Structural)]
pub enum IntersectionAnomaly {
    /// The segment's line never meets the light cone.
    NoRealCrossing,
    /// Every crossing lies in the observer's future.
    CrossingInFuture,
}

/// Whether `p + s·√d ≤ 0`, decided on integers alone (`s` is `-1`, `0` or `1`; `d ≥ 0`).
pub open spec fn surd_nonpositive(p: int, s: int, d: int) -> bool {
    if s == 0 {
        p <= 0
    } else if s > 0 {
        p <= 0 && p * p >= d
    } else {
        p <= 0 || p * p <= d
    }
}

/// The line through `cord` with velocity `v`, extrapolated to time zero: `x − v·t`, per axis.
pub open spec fn position_at_zero(cord: SpacetimeEvent, v: Vec3) -> (int, int, int) {
    (
        cord.pos.x - v.x * cord.time,
        cord.pos.y - v.y * cord.time,
        cord.pos.z - v.z * cord.time,
    )
}

/// Leading coefficient of the crossing quadratic: `c² − |v|²`.
pub open spec fn quad_a(v: Vec3, c: int) -> int {
    c * c - v.norm_sq()
}

/// Half the negated middle coefficient: `y·v` with `y` the position at time zero.
pub open spec fn quad_half_b(cord: SpacetimeEvent, v: Vec3) -> int {
    let y = position_at_zero(cord, v);
    y.0 * v.x + y.1 * v.y + y.2 * v.z
}

/// The negated constant coefficient: `|y|²` with `y` the position at time zero.
pub open spec fn quad_c(cord: SpacetimeEvent, v: Vec3) -> int {
    let y = position_at_zero(cord, v);
    y.0 * y.0 + y.1 * y.1 + y.2 * y.2
}

/// A quarter of the discriminant of `a·t² − 2·b·t − c = 0`: `b² + a·c`.
pub open spec fn quad_discriminant(cord: SpacetimeEvent, v: Vec3, c: int) -> int {
    let b = quad_half_b(cord, v);
    b * b + quad_a(v, c) * quad_c(cord, v)
}

/// Whether `t` is the surd `(p + s·√d) / q`, field by field.
pub open spec fn is_surd(t: Surd, p: int, s: int, d: int, q: int) -> bool {
    t.rational == p && t.root_coefficient == s && t.radicand == d && t.denominator == q
}

/// Whether `r` reports the right root of a quadratic whose roots are `(p ± s·√d) / q`
/// (`s` is `0` or `1`, `q > 0`): the larger one if it is not in the future, else the smaller
/// one if it is not, else neither.
pub open spec fn picks_latest_past_root(r: Result<Surd, IntersectionAnomaly>, p: int, s: int, d: int, q: int) -> bool {
    if surd_nonpositive(p, s, d) {
        r matches Ok(t) && is_surd(t, p, s, d, q)
    } else if surd_nonpositive(p, -s, d) {
        r matches Ok(t) && is_surd(t, p, -s, d, q)
    } else {
        r == Err::<Surd, _>(IntersectionAnomaly::CrossingInFuture)
    }
}

/// Whether `r` reports when the line through `cord` with velocity `v` crosses the light cone
/// `(c·t)² = |x|²` of the origin: the crossing at or before time zero that lies closest to it.
///
/// Substituting `x(t) = y + v·t` into the cone gives `a·t² − 2·b·t − c' = 0` with
/// `a = c² − |v|²`, `b = y·v` and `c' = |y|²`.
/// - `a ≠ 0`: the roots are `(b ± √(b² + a·c')) / a`; none when `b² + a·c' < 0`, a single one
///   when it is zero.
/// - `a = 0` (light-speed segment): the equation is linear, with root `−c' / (2·b)` when
///   `b ≠ 0`; when `b = c' = 0` every time is a root and zero is reported.
pub open spec fn is_crossing_time(
    cord: SpacetimeEvent,
    v: Vec3,
    c: int,
    r: Result<Surd, IntersectionAnomaly>,
) -> bool {
    let a = quad_a(v, c);
    let b = quad_half_b(cord, v);
    let cc = quad_c(cord, v);
    let d = quad_discriminant(cord, v, c);
    if a == 0 {
        if b == 0 {
            if cc == 0 {
                r matches Ok(t) && is_surd(t, 0, 0, 0, 1)
            } else {
                r == Err::<Surd, _>(IntersectionAnomaly::NoRealCrossing)
            }
        } else {
            picks_latest_past_root(
                r,
                if b > 0 { -cc } else { cc },
                0,
                0,
                if b > 0 { 2 * b } else { -2 * b },
            )
        }
    } else if d < 0 {
        r == Err::<Surd, _>(IntersectionAnomaly::NoRealCrossing)
    } else {
        picks_latest_past_root(
            r,
            if a > 0 { b } else { -b },
            if d == 0 { 0 } else { 1 },
            d,
            if a > 0 { a } else { -a },
        )
    }
}

/// Whether `e` is the point at time `t` of the line through `cord` with velocity `v`,
/// written over `t`'s radicand and denominator.
pub open spec fn is_point_at(cord: SpacetimeEvent, v: Vec3, t: Surd, e: SurdEvent) -> bool {
    let y = position_at_zero(cord, v);
    let q = t.denominator as int;
    let p = t.rational as int;
    let s = t.root_coefficient as int;
    let d = t.radicand as int;
    &&& e.time == t
    &&& is_surd(e.x, q * y.0 + v.x * p, v.x * s, d, q)
    &&& is_surd(e.y, q * y.1 + v.y * p, v.y * s, d, q)
    &&& is_surd(e.z, q * y.2 + v.z * p, v.z * s, d, q)
}

/// The numerator of a surd with `w` put for the square root of its radicand.
pub open spec fn numerator_at(s: Surd, w: int) -> int {
    s.rational + s.root_coefficient * w
}

/// `(c·t)² − |x|²` of `e`, times the square of its denominator, with `w` put for the square
/// root of its radicand.
pub open spec fn scaled_interval_at(e: SurdEvent, c: int, w: int) -> int {
    let t = numerator_at(e.time, w);
    let x = numerator_at(e.x, w);
    let y = numerator_at(e.y, w);
    let z = numerator_at(e.z, w);
    (c * t) * (c * t) - (x * x + y * y + z * z)
}

/// Whether the relative coordinate and velocity of a segment lie within the limits that keep
/// the solver's arithmetic exact in 128 bits.
pub open spec fn segment_in_limit(cord: SpacetimeEvent, v: Vec3, c: int) -> bool {
    &&& cord.pos.within(2 * COORD_LIMIT)
    &&& -2 * COORD_LIMIT <= cord.time <= 2 * COORD_LIMIT
    &&& v.bounded()
    &&& 0 < c <= COORD_LIMIT
}

/// The position at time zero of the line through `cord` with velocity `vel`, exactly.
fn line_at_zero(cord: SpacetimeEvent, vel: Vec3) -> (r: (i128, i128, i128))
    requires
        cord.pos.within(2 * COORD_LIMIT),
        -2 * COORD_LIMIT <= cord.time <= 2 * COORD_LIMIT,
        vel.bounded(),
    ensures
        r.0 == position_at_zero(cord, vel).0,
        r.1 == position_at_zero(cord, vel).1,
        r.2 == position_at_zero(cord, vel).2,
        -0x200_0020_0000 <= r.0 <= 0x200_0020_0000,
        -0x200_0020_0000 <= r.1 <= 0x200_0020_0000,
        -0x200_0020_0000 <= r.2 <= 0x200_0020_0000,
{
    let t: i128 = cord.time as i128;
    proof {
        lemma_mul_bound(vel.x as int, t as int, 0x10_0000, 0x20_0000);
        lemma_mul_bound(vel.y as int, t as int, 0x10_0000, 0x20_0000);
        lemma_mul_bound(vel.z as int, t as int, 0x10_0000, 0x20_0000);
    }
    (
        cord.pos.x as i128 - vel.x as i128 * t,
        cord.pos.y as i128 - vel.y as i128 * t,
        cord.pos.z as i128 - vel.z as i128 * t,
    )
}

/// The point at time `t` of the line through `cord` with velocity `vel`, over `t`'s radicand
/// and denominator.
pub fn point_at(cord: SpacetimeEvent, vel: Vec3, t: Surd) -> (e: SurdEvent)
    requires
        cord.pos.within(2 * COORD_LIMIT),
        -2 * COORD_LIMIT <= cord.time <= 2 * COORD_LIMIT,
        vel.bounded(),
        surd_in_solver_bounds(t),
    ensures
        is_point_at(cord, vel, t, e),
{
    let (yx, yy, yz) = line_at_zero(cord, vel);
    let q = t.denominator;
    proof {
        lemma_mul_bound(q as int, yx as int, 0x1_0000_0000_0000_0000, 0x200_0020_0000);
        lemma_mul_bound(q as int, yy as int, 0x1_0000_0000_0000_0000, 0x200_0020_0000);
        lemma_mul_bound(q as int, yz as int, 0x1_0000_0000_0000_0000, 0x200_0020_0000);
        lemma_mul_bound(vel.x as int, t.rational as int, 0x10_0000, 0x10_0000_0000_0000_0000_0000);
        lemma_mul_bound(vel.y as int, t.rational as int, 0x10_0000, 0x10_0000_0000_0000_0000_0000);
        lemma_mul_bound(vel.z as int, t.rational as int, 0x10_0000, 0x10_0000_0000_0000_0000_0000);
        lemma_mul_bound(vel.x as int, t.root_coefficient as int, 0x10_0000, 1);
        lemma_mul_bound(vel.y as int, t.root_coefficient as int, 0x10_0000, 1);
        lemma_mul_bound(vel.z as int, t.root_coefficient as int, 0x10_0000, 1);
    }
    let d = t.radicand;
    SurdEvent {
        x: Surd {
            rational: q * yx + vel.x as i128 * t.rational,
            root_coefficient: vel.x as i128 * t.root_coefficient,
            radicand: d,
            denominator: q,
        },
        y: Surd {
            rational: q * yy + vel.y as i128 * t.rational,
            root_coefficient: vel.y as i128 * t.root_coefficient,
            radicand: d,
            denominator: q,
        },
        z: Surd {
            rational: q * yz + vel.z as i128 * t.rational,
            root_coefficient: vel.z as i128 * t.root_coefficient,
            radicand: d,
            denominator: q,
        },
        time: t,
    }
}

/// Whether a surd's fields lie within the bounds that the solver's results keep.
pub open spec fn surd_in_solver_bounds(t: Surd) -> bool {
    &&& -0x10_0000_0000_0000_0000_0000 <= t.rational <= 0x10_0000_0000_0000_0000_0000
    &&& -1 <= t.root_coefficient <= 1
    &&& 0 <= t.radicand
    &&& 0 < t.denominator <= 0x1_0000_0000_0000_0000
}

/// Decides `p + s·√d ≤ 0` exactly.
fn nonpositive(p: i128, s: i128, d: i128) -> (r: bool)
    requires
        s == 0 || -0x8000_0000_0000_0000 <= p <= 0x8000_0000_0000_0000,
    ensures
        r == surd_nonpositive(p as int, s as int, d as int),
{
    if s == 0 {
        p <= 0
    } else {
        proof {
            lemma_mul_bound(p as int, p as int, 0x8000_0000_0000_0000, 0x8000_0000_0000_0000);
        }
        if s > 0 {
            p <= 0 && p * p >= d
        } else {
            p <= 0 || p * p <= d
        }
    }
}

/// Picks the root to report among `(p ± s·√d) / q`.
fn pick_root(p: i128, s: i128, d: i128, q: i128) -> (r: Result<Surd, IntersectionAnomaly>)
    requires
        s == 0 || -0x8000_0000_0000_0000 <= p <= 0x8000_0000_0000_0000,
        0 <= s <= 1,
    ensures
        picks_latest_past_root(r, p as int, s as int, d as int, q as int),
{
    if nonpositive(p, s, d) {
        Ok(Surd { rational: p, root_coefficient: s, radicand: d, denominator: q })
    } else if nonpositive(p, -s, d) {
        Ok(Surd { rational: p, root_coefficient: -s, radicand: d, denominator: q })
    } else {
        Err(IntersectionAnomaly::CrossingInFuture)
    }
}

/// The time at which the line through `cord` with velocity `v` crosses the past light cone
/// of the origin: the crossing at or before time zero that is closest to it, exactly.
///
/// `cord` is a world-line sample relative to the observer. An error reports a segment that
/// never meets the cone, or meets it only in the future.
pub fn calc_intersection_time(cord: SpacetimeEvent, vel: Vec3, c: i64) -> (r: Result<
    Surd,
    IntersectionAnomaly,
>)
    requires
        segment_in_limit(cord, vel, c as int),
    ensures
        is_crossing_time(cord, vel, c as int, r),
        r matches Ok(t) ==> surd_in_solver_bounds(t),
{
    let vx: i128 = vel.x as i128;
    let vy: i128 = vel.y as i128;
    let vz: i128 = vel.z as i128;
    let (yx, yy, yz) = line_at_zero(cord, vel);
    proof {
        lemma_mul_bound(yx as int, vx as int, 0x200_0020_0000, 0x10_0000);
        lemma_mul_bound(yy as int, vy as int, 0x200_0020_0000, 0x10_0000);
        lemma_mul_bound(yz as int, vz as int, 0x200_0020_0000, 0x10_0000);
        lemma_mul_bound(yx as int, yx as int, 0x200_0020_0000, 0x200_0020_0000);
        lemma_mul_bound(yy as int, yy as int, 0x200_0020_0000, 0x200_0020_0000);
        lemma_mul_bound(yz as int, yz as int, 0x200_0020_0000, 0x200_0020_0000);
        lemma_mul_bound(vx as int, vx as int, 0x10_0000, 0x10_0000);
        lemma_mul_bound(vy as int, vy as int, 0x10_0000, 0x10_0000);
        lemma_mul_bound(vz as int, vz as int, 0x10_0000, 0x10_0000);
        lemma_mul_bound(c as int, c as int, 0x10_0000, 0x10_0000);
        lemma_square_nonnegative(c as int);
        lemma_square_nonnegative(yx as int);
        lemma_square_nonnegative(yy as int);
        lemma_square_nonnegative(yz as int);
        lemma_square_nonnegative(vx as int);
        lemma_square_nonnegative(vy as int);
        lemma_square_nonnegative(vz as int);
    }
    let b: i128 = yx * vx + yy * vy + yz * vz;
    let cc: i128 = yx * yx + yy * yy + yz * yz;
    let a: i128 = c as i128 * c as i128 - (vx * vx + vy * vy + vz * vz);
    assert(-0x6000_0600_0000_0000 <= b <= 0x6000_0600_0000_0000);
    assert(0 <= cc <= 0xC_0001_8000_0C00_0000_0000);
    assert(-0x300_0000_0000 <= a <= 0x100_0000_0000);
    assert(a == quad_a(vel, c as int));
    assert(b == quad_half_b(cord, vel));
    assert(cc == quad_c(cord, vel));
    if a == 0 {
        if b == 0 {
            if cc == 0 {
                Ok(Surd { rational: 0, root_coefficient: 0, radicand: 0, denominator: 1 })
            } else {
                Err(IntersectionAnomaly::NoRealCrossing)
            }
        } else {
            let p: i128 = if b > 0 {
                -cc
            } else {
                cc
            };
            let q: i128 = if b > 0 {
                2 * b
            } else {
                2 * (0 - b)
            };
            pick_root(p, 0, 0, q)
        }
    } else {
        proof {
            lemma_mul_bound(b as int, b as int, 0x6000_0600_0000_0000, 0x6000_0600_0000_0000);
            lemma_mul_bound(a as int, cc as int, 0x300_0000_0000, 0xC_0001_8000_0C00_0000_0000);
        }
        let d: i128 = b * b + a * cc;
        assert(d == quad_discriminant(cord, vel, c as int));
        if d < 0 {
            return Err(IntersectionAnomaly::NoRealCrossing);
        }
        let p: i128 = if a > 0 {
            b
        } else {
            -b
        };
        let q: i128 = if a > 0 {
            a
        } else {
            -a
        };
        let s: i128 = if d == 0 {
            0
        } else {
            1
        };
        pick_root(p, s, d, q)
    }
}

/// The crossing that the solver reports lies on the light cone of the origin.
///
/// With `w` put for the square root of the radicand, the crossing's coordinates, scaled by
/// their common denominator, satisfy `(c·t)² − |x|² = 0`. The identity is polynomial in `w` and
/// rests on `w² = radicand` alone.
pub proof fn lemma_crossing_on_light_cone(
    cord: SpacetimeEvent,
    v: Vec3,
    c: int,
    t: Surd,
    e: SurdEvent,
    w: int,
)
    requires
        is_crossing_time(cord, v, c, Ok(t)),
        is_point_at(cord, v, t, e),
        w * w == t.radicand,
    ensures
        scaled_interval_at(e, c, w) == 0,
{
    let y = position_at_zero(cord, v);
    let q = t.denominator as int;
    let p = t.rational as int;
    let s = t.root_coefficient as int;
    let u = p + s * w;
    let a = quad_a(v, c);
    let b = quad_half_b(cord, v);
    let cc = quad_c(cord, v);
    let d = quad_discriminant(cord, v, c);
    lemma_point_numerator(q, y.0, v.x as int, p, s, w);
    lemma_point_numerator(q, y.1, v.y as int, p, s, w);
    lemma_point_numerator(q, y.2, v.z as int, p, s, w);
    assert(numerator_at(e.time, w) == u);
    lemma_cone_on_line(c, u, q, y.0, y.1, y.2, v.x as int, v.y as int, v.z as int);
    assert(scaled_interval_at(e, c, w) == a * (u * u) - 2 * (q * u) * b - (q * q) * cc);
    if s == 0 {
        assert(s * w == 0) by (nonlinear_arith)
            requires
                s == 0,
        ;
    }
    if a == 0 {
        if b != 0 {
            assert(u == p);
            assert(a * (u * u) - 2 * (q * u) * b - (q * q) * cc == 0) by (nonlinear_arith)
                requires
                    a == 0,
                    u == p,
                    (b > 0 && p == -cc && q == 2 * b) || (b < 0 && p == cc && q == -2 * b),
            ;
        } else {
            assert(u == 0);
            assert(a * (u * u) - 2 * (q * u) * b - (q * q) * cc == 0) by (nonlinear_arith)
                requires
                    a == 0,
                    b == 0,
                    cc == 0,
                    u == 0,
            ;
        }
    } else {
        assert(d == b * b + a * cc);
        assert((s * w) * (s * w) == d) by (nonlinear_arith)
            requires
                (s == 0 && d == 0) || s == 1 || s == -1,
                w * w == d,
        ;
        let m = if a > 0 { b } else { -b };
        assert(u - m == s * w);
        assert(m * m == b * b) by (nonlinear_arith)
            requires
                m == b || m == -b,
        ;
        assert(u * u - 2 * u * m - a * cc == 0) by (nonlinear_arith)
            requires
                (u - m) * (u - m) == b * b + a * cc,
                m * m == b * b,
        ;
        assert(a * (u * u) - 2 * (q * u) * b - (q * q) * cc == 0) by (nonlinear_arith)
            requires
                (a > 0 && m == b && q == a) || (a < 0 && m == -b && q == -a),
                u * u - 2 * u * m - a * cc == 0,
        ;
    }
}

/// The crossing that the solver reports is not in the future: its time has a positive
/// denominator and, with `w` put for the square root of the radicand, a numerator `≤ 0`.
pub proof fn lemma_crossing_not_in_future(cord: SpacetimeEvent, v: Vec3, c: int, t: Surd, w: int)
    requires
        is_crossing_time(cord, v, c, Ok(t)),
        w >= 0,
        w * w == t.radicand,
    ensures
        t.denominator > 0,
        numerator_at(t, w) <= 0,
{
    let p = t.rational as int;
    let s = t.root_coefficient as int;
    let d = t.radicand as int;
    assert(surd_nonpositive(p, s, d));
    lemma_surd_nonpositive_sound(p, s, d, w);
}

/// The integer test `surd_nonpositive(p, s, d)` decides `p + s·w ≤ 0` for `w = √d`.
pub proof fn lemma_surd_nonpositive_sound(p: int, s: int, d: int, w: int)
    requires
        s == 0 || s == 1 || s == -1,
        w >= 0,
        w * w == d,
    ensures
        surd_nonpositive(p, s, d) <==> p + s * w <= 0,
{
    if s == 0 {
        assert(s * w == 0) by (nonlinear_arith)
            requires
                s == 0,
        ;
    } else if s == 1 {
        assert(p <= 0 && p * p >= w * w <==> p + w <= 0) by (nonlinear_arith)
            requires
                w >= 0,
        ;
    } else {
        assert(p <= 0 || p * p <= w * w <==> p - w <= 0) by (nonlinear_arith)
            requires
                w >= 0,
        ;
    }
}

/// When the discriminant is zero the line touches the cone: the single repeated root is
/// reported whenever it is not in the future, never an anomaly.
pub proof fn lemma_tangent_crossing(cord: SpacetimeEvent, v: Vec3, c: int, r: Result<Surd, IntersectionAnomaly>)
    requires
        is_crossing_time(cord, v, c, r),
        quad_a(v, c) != 0,
        quad_discriminant(cord, v, c) == 0,
        (if quad_a(v, c) > 0 { quad_half_b(cord, v) } else { -quad_half_b(cord, v) }) <= 0,
    ensures
        r matches Ok(t) && t.root_coefficient == 0 && t.radicand == 0 && t.rational == (if quad_a(
            v,
            c,
        ) > 0 {
            quad_half_b(cord, v)
        } else {
            -quad_half_b(cord, v)
        }) && t.denominator == (if quad_a(v, c) > 0 {
            quad_a(v, c)
        } else {
            -quad_a(v, c)
        }),
{
}

/// Light delay: for an object at rest relative to the observer, at distance `dist`, the light
/// seen now left it `dist / c` ago. The reported time is `−(c·dist) / c²`, with `c·dist` the
/// square root of its radicand.
pub proof fn lemma_light_delay_at_rest(
    cord: SpacetimeEvent,
    c: int,
    dist: int,
    r: Result<Surd, IntersectionAnomaly>,
)
    requires
        c > 0,
        dist >= 0,
        dist * dist == cord.pos.norm_sq(),
        is_crossing_time(cord, Vec3 { x: 0, y: 0, z: 0 }, c, r),
    ensures
        r matches Ok(t) && t.denominator == c * c && (c * dist) * (c * dist) == t.radicand
            && numerator_at(t, c * dist) == -(c * dist),
{
    let v = Vec3 { x: 0, y: 0, z: 0 };
    let x = cord.pos;
    assert(position_at_zero(cord, v) == (x.x as int, x.y as int, x.z as int));
    assert(quad_a(v, c) == c * c);
    assert(c * c > 0) by (nonlinear_arith)
        requires
            c > 0,
    ;
    assert(quad_half_b(cord, v) == 0);
    assert(quad_c(cord, v) == dist * dist);
    assert(quad_discriminant(cord, v, c) == (c * dist) * (c * dist)) by (nonlinear_arith)
        requires
            quad_discriminant(cord, v, c) == 0 * 0 + (c * c) * (dist * dist),
    ;
    let t = r->Ok_0;
    if dist == 0 {
        assert((c * dist) * (c * dist) == 0) by (nonlinear_arith)
            requires
                dist == 0,
        ;
        assert(c * dist == 0) by (nonlinear_arith)
            requires
                dist == 0,
        ;
    } else {
        assert((c * dist) * (c * dist) > 0) by (nonlinear_arith)
            requires
                c > 0,
                dist > 0,
        ;
        assert(!surd_nonpositive(0, 1, (c * dist) * (c * dist)));
        assert(t.root_coefficient == -1);
    }
}

/// A segment that starts strictly inside the past light cone of the origin always crosses it
/// at or before time zero: the solver reports a crossing, never an anomaly.
///
/// Along the line, `f(t) = (c·t)² − |y + v·t|² = a·t² − 2·b·t − c'` is positive at the start
/// and not positive at time zero, so the anomalies point only at data from outside this
/// model, not at any well-formed segment.
pub proof fn lemma_crossing_exists_inside_past_cone(
    cord: SpacetimeEvent,
    v: Vec3,
    c: int,
    r: Result<Surd, IntersectionAnomaly>,
)
    requires
        cord.time < 0,
        (c * cord.time) * (c * cord.time) - cord.pos.norm_sq() > 0,
        is_crossing_time(cord, v, c, r),
    ensures
        r is Ok,
{
    let t = cord.time as int;
    let y = position_at_zero(cord, v);
    let a = quad_a(v, c);
    let b = quad_half_b(cord, v);
    let cc = quad_c(cord, v);
    let d = quad_discriminant(cord, v, c);
    let f = (c * t) * (c * t) - cord.pos.norm_sq();
    lemma_start_value(cord, v, c);
    assert(a * (t * t) - 2 * (b * t) - cc == f);
    lemma_square_nonnegative(y.0);
    lemma_square_nonnegative(y.1);
    lemma_square_nonnegative(y.2);
    lemma_square_nonnegative(b);
    lemma_square_nonnegative(t);
    assert(cc >= 0);
    if a > 0 {
        assert(a * cc >= 0) by (nonlinear_arith)
            requires
                a > 0,
                cc >= 0,
        ;
        if d == 0 {
            assert(b == 0) by (nonlinear_arith)
                requires
                    d == b * b + a * cc,
                    d == 0,
                    a * cc >= 0,
            ;
        }
    } else {
        assert(a * (t * t) <= 0) by (nonlinear_arith)
            requires
                a <= 0,
                t * t >= 0,
        ;
        assert(b > 0) by (nonlinear_arith)
            requires
                a * (t * t) - 2 * (b * t) - cc > 0,
                a * (t * t) <= 0,
                cc >= 0,
                t < 0,
        ;
        if a < 0 {
            assert(a * cc <= 0) by (nonlinear_arith)
                requires
                    a < 0,
                    cc >= 0,
            ;
            assert(d > 0) by (nonlinear_arith)
                requires
                    d == b * b + a * cc,
                    cc == a * (t * t) - 2 * (b * t) - f,
                    f > 0,
                    a < 0,
            ;
        }
    }
}

/// For a segment that starts strictly inside the past light cone, the reported crossing comes
/// strictly after the start: with `w` put for the square root of its radicand, `t > T` for the
/// start's time `T`, in numerators over the positive denominator.
pub proof fn lemma_crossing_after_start(
    cord: SpacetimeEvent,
    v: Vec3,
    c: int,
    t: Surd,
    w: int,
)
    requires
        cord.time < 0,
        (c * cord.time) * (c * cord.time) - cord.pos.norm_sq() > 0,
        is_crossing_time(cord, v, c, Ok(t)),
        w >= 0,
        w * w == t.radicand,
    ensures
        t.denominator > 0,
        numerator_at(t, w) - cord.time * t.denominator > 0,
{
    let tt = cord.time as int;
    let y = position_at_zero(cord, v);
    let a = quad_a(v, c);
    let b = quad_half_b(cord, v);
    let cc = quad_c(cord, v);
    let d = quad_discriminant(cord, v, c);
    let f = (c * tt) * (c * tt) - cord.pos.norm_sq();
    let p = t.rational as int;
    let s = t.root_coefficient as int;
    let q = t.denominator as int;
    lemma_start_value(cord, v, c);
    lemma_square_nonnegative(y.0);
    lemma_square_nonnegative(y.1);
    lemma_square_nonnegative(y.2);
    lemma_square_nonnegative(tt);
    assert(cc >= 0);
    assert(f == a * (tt * tt) - 2 * (b * tt) - cc);
    lemma_crossing_not_in_future(cord, v, c, t, w);
    assert(s == 0 ==> s * w == 0) by (nonlinear_arith);
    assert(s == 1 ==> s * w == w) by (nonlinear_arith);
    assert(s == -1 ==> s * w == -w) by (nonlinear_arith);
    let x = b - a * tt;
    lemma_square_nonnegative(x);
    assert(x * x - d == a * f) by (nonlinear_arith)
        requires
            x == b - a * tt,
            d == b * b + a * cc,
            f == a * (tt * tt) - 2 * (b * tt) - cc,
    ;
    if a == 0 {
        assert(a * (tt * tt) == 0) by (nonlinear_arith)
            requires
                a == 0,
        ;
        if b == 0 {
            assert(b * tt == 0) by (nonlinear_arith)
                requires
                    b == 0,
            ;
            assert(false);
        }
        assert(b > 0) by (nonlinear_arith)
            requires
                -2 * (b * tt) - cc > 0,
                cc >= 0,
                tt < 0,
        ;
        assert(tt * (2 * b) == 2 * (b * tt)) by (nonlinear_arith);
        assert(p + s * w - tt * q > 0);
    } else if a > 0 {
        assert(a * tt - 2 * b < 0) by (nonlinear_arith)
            requires
                a * (tt * tt) - 2 * (b * tt) > 0,
                tt < 0,
        ;
        assert(a * tt < 0) by (nonlinear_arith)
            requires
                a > 0,
                tt < 0,
        ;
        assert(x > 0);
        assert(a * f > 0) by (nonlinear_arith)
            requires
                a > 0,
                f > 0,
        ;
        assert(tt * a == a * tt) by (nonlinear_arith);
        if s == -1 {
            assert(x > w) by (nonlinear_arith)
                requires
                    x > 0,
                    w >= 0,
                    x * x > w * w,
            ;
        }
        assert(p == b && q == a);
        assert(p + s * w - tt * q > 0);
    } else {
        assert(a * (tt * tt) <= 0) by (nonlinear_arith)
            requires
                a < 0,
                tt * tt >= 0,
        ;
        assert(b > 0) by (nonlinear_arith)
            requires
                a * (tt * tt) - 2 * (b * tt) - cc > 0,
                a * (tt * tt) <= 0,
                cc >= 0,
                tt < 0,
        ;
        assert(a * cc <= 0) by (nonlinear_arith)
            requires
                a < 0,
                cc >= 0,
        ;
        assert((-b) * (-b) == b * b) by (nonlinear_arith);
        assert(a * f < 0) by (nonlinear_arith)
            requires
                a < 0,
                f > 0,
        ;
        assert(d > 0);
        assert(surd_nonpositive(-b, 1, d));
        assert(s == 1);
        assert(-a * f > 0) by (nonlinear_arith)
            requires
                a < 0,
                f > 0,
        ;
        assert(tt * (-a) == -(a * tt)) by (nonlinear_arith);
        assert(w > x) by (nonlinear_arith)
            requires
                w >= 0,
                w * w - x * x > 0,
        ;
        assert(p + s * w - tt * q > 0);
    }
}

/// The reported crossing is the latest root at or before time zero: it is a root (see
/// `lemma_crossing_on_light_cone`), it is not after time zero (`lemma_crossing_not_in_future`),
/// and when it is the smaller of two distinct roots the larger one lies after time zero, so no
/// root lies between it and zero.
pub proof fn lemma_reported_root_is_latest(cord: SpacetimeEvent, v: Vec3, c: int, t: Surd, w: int)
    requires
        is_crossing_time(cord, v, c, Ok(t)),
        w >= 0,
        w * w == t.radicand,
        t.root_coefficient == -1,
    ensures
        t.rational + w > 0,
{
    let p = t.rational as int;
    let d = t.radicand as int;
    assert(!surd_nonpositive(p, 1, d));
    lemma_surd_nonpositive_sound(p, 1, d, w);
}

/// At the start of the segment, `a·t² − 2·b·t − c'` is the interval of the start from the
/// origin.
proof fn lemma_start_value(cord: SpacetimeEvent, v: Vec3, c: int)
    ensures
        quad_a(v, c) * (cord.time * cord.time) - 2 * (quad_half_b(cord, v) * cord.time) - quad_c(
            cord,
            v,
        ) == (c * cord.time) * (c * cord.time) - cord.pos.norm_sq(),
{
    let t = cord.time as int;
    lemma_start_axis(cord.pos.x as int, v.x as int, t);
    lemma_start_axis(cord.pos.y as int, v.y as int, t);
    lemma_start_axis(cord.pos.z as int, v.z as int, t);
    let (vx, vy, vz) = (v.x as int, v.y as int, v.z as int);
    assert((c * c - (vx * vx + vy * vy + vz * vz)) * (t * t) == (c * t) * (c * t) - (vx * vx) * (t
        * t) - (vy * vy) * (t * t) - (vz * vz) * (t * t)) by (nonlinear_arith);
    let y = position_at_zero(cord, v);
    assert(2 * ((y.0 * vx + y.1 * vy + y.2 * vz) * t) == 2 * ((y.0 * vx) * t) + 2 * ((y.1 * vy) * t)
        + 2 * ((y.2 * vz) * t)) by (nonlinear_arith);
}

/// One axis of `lemma_start_value`, with `y = x − v·t`:
/// `−(v·v)·t² − 2·(y·v)·t − y·y = −x·x`.
proof fn lemma_start_axis(x: int, v: int, t: int)
    ensures
        -((v * v) * (t * t)) - 2 * (((x - v * t) * v) * t) - (x - v * t) * (x - v * t) == -(x * x),
{
    let w = v * t;
    assert(((x - w) * v) * t == x * w - w * w) by (nonlinear_arith)
        requires
            w == v * t,
    ;
    assert((v * v) * (t * t) == w * w) by (nonlinear_arith)
        requires
            w == v * t,
    ;
    assert((x - w) * (x - w) == x * x - 2 * (x * w) + w * w) by (nonlinear_arith);
}

/// A coordinate of the point at time `(p + s·w) / q`, scaled by `q`, is `q·y + v·(p + s·w)`.
proof fn lemma_point_numerator(q: int, y: int, v: int, p: int, s: int, w: int)
    ensures
        (q * y + v * p) + (v * s) * w == q * y + v * (p + s * w),
{
    assert((q * y + v * p) + (v * s) * w == q * y + v * (p + s * w)) by (nonlinear_arith);
}

/// `(q·y + v·u)² = q²·y² + 2·(q·u)·(y·v) + u²·v²`.
proof fn lemma_axis_square(q: int, y: int, v: int, u: int)
    ensures
        (q * y + v * u) * (q * y + v * u) == (q * q) * (y * y) + 2 * ((q * u) * (y * v)) + (u * u) * (
        v * v),
{
    let x1 = q * y;
    let x2 = v * u;
    assert((x1 + x2) * (x1 + x2) == x1 * x1 + 2 * (x1 * x2) + x2 * x2) by (nonlinear_arith);
    assert(x1 * x1 == (q * q) * (y * y)) by (nonlinear_arith)
        requires
            x1 == q * y,
    ;
    assert(x1 * x2 == (q * u) * (y * v)) by (nonlinear_arith)
        requires
            x1 == q * y,
            x2 == v * u,
    ;
    assert(x2 * x2 == (u * u) * (v * v)) by (nonlinear_arith)
        requires
            x2 == v * u,
    ;
}

/// On the line `y + v·u/q`, the scaled interval `(c·u)² − |q·y + v·u|²` is
/// `a·u² − 2·(q·u)·b − q²·c'`, with the crossing quadratic's coefficients.
proof fn lemma_cone_on_line(
    c: int,
    u: int,
    q: int,
    y0: int,
    y1: int,
    y2: int,
    vx: int,
    vy: int,
    vz: int,
)
    ensures
        (c * u) * (c * u) - ((q * y0 + vx * u) * (q * y0 + vx * u) + (q * y1 + vy * u) * (q * y1
            + vy * u) + (q * y2 + vz * u) * (q * y2 + vz * u)) == (c * c - (vx * vx + vy * vy + vz
            * vz)) * (u * u) - 2 * (q * u) * (y0 * vx + y1 * vy + y2 * vz) - (q * q) * (y0 * y0
            + y1 * y1 + y2 * y2),
{
    lemma_axis_square(q, y0, vx, u);
    lemma_axis_square(q, y1, vy, u);
    lemma_axis_square(q, y2, vz, u);
    assert((c * u) * (c * u) == (c * c) * (u * u)) by (nonlinear_arith);
    lemma_regroup(
        c * c,
        u * u,
        q * q,
        q * u,
        vx * vx,
        vy * vy,
        vz * vz,
        y0 * vx,
        y1 * vy,
        y2 * vz,
        y0 * y0,
        y1 * y1,
        y2 * y2,
    );
}

/// Regroups a sum of products by its common factors.
proof fn lemma_regroup(
    c2: int,
    u2: int,
    q2: int,
    qu: int,
    v0: int,
    v1: int,
    v2: int,
    b0: int,
    b1: int,
    b2: int,
    y0: int,
    y1: int,
    y2: int,
)
    ensures
        c2 * u2 - ((q2 * y0 + 2 * (qu * b0) + u2 * v0) + (q2 * y1 + 2 * (qu * b1) + u2 * v1) + (q2 * y2
            + 2 * (qu * b2) + u2 * v2)) == (c2 - (v0 + v1 + v2)) * u2 - 2 * qu * (b0 + b1 + b2) - q2
            * (y0 + y1 + y2),
{
    assert((c2 - (v0 + v1 + v2)) * u2 == c2 * u2 - (u2 * v0 + u2 * v1 + u2 * v2)) by (nonlinear_arith);
    assert(2 * qu * (b0 + b1 + b2) == 2 * (qu * b0) + 2 * (qu * b1) + 2 * (qu * b2)) by (nonlinear_arith);
    assert(q2 * (y0 + y1 + y2) == q2 * y0 + q2 * y1 + q2 * y2) by (nonlinear_arith);
}

/// A square is never negative.
pub proof fn lemma_square_nonnegative(x: int)
    ensures
        x * x >= 0,
{
    assert(x * x >= 0) by (nonlinear_arith);
}

/// `|x·y| ≤ mx·my` whenever `|x| ≤ mx` and `|y| ≤ my`.
pub proof fn lemma_mul_bound(x: int, y: int, mx: int, my: int)
    requires
        -mx <= x <= mx,
        -my <= y <= my,
    ensures
        -(mx * my) <= x * y <= mx * my,
{
    assert(-(mx * my) <= x * y <= mx * my) by (nonlinear_arith)
        requires
            -mx <= x <= mx,
            -my <= y <= my,
    ;
}

} // verus!
