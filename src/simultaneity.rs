use vstd::prelude::*;

use crate::coordinate::{SpacetimeEvent, Vec3, COORD_LIMIT};
use crate::intersection::{lemma_mul_bound, lemma_square_nonnegative, surd_in_solver_bounds, Surd};

verus! {

/// `c²·Δt − u·Δx` for `cord = (Δx, Δt)`: a positive multiple of the time of `cord` in the frame
/// that moves at `u`.
pub open spec fn frame_time_numerator(cord: SpacetimeEvent, u: Vec3, c: int) -> int {
    c * c * cord.time - (u.x * cord.pos.x + u.y * cord.pos.y + u.z * cord.pos.z)
}

/// When the line through `cord` with velocity `v` meets the simultaneity slice through the
/// origin of the frame that moves at `u`: the time `p / q` with `q = c² − u·v` and
/// `p = Δt·q − (c²·Δt − u·Δx)`.
///
/// Along the line, `c²·t − u·x` changes at the rate `q` per unit of time; the slice is where it
/// vanishes.
pub open spec fn slice_time(cord: SpacetimeEvent, u: Vec3, v: Vec3, c: int) -> (int, int) {
    let q = c * c - u.dot(v);
    (cord.time * q - frame_time_numerator(cord, u, c), q)
}

/// Whether a relative coordinate and two velocities lie within the limits that keep the
/// slice arithmetic exact, with both velocities below light speed.
pub open spec fn slice_in_limit(cord: SpacetimeEvent, u: Vec3, v: Vec3, c: int) -> bool {
    &&& cord.pos.within(2 * COORD_LIMIT)
    &&& -2 * COORD_LIMIT <= cord.time <= 2 * COORD_LIMIT
    &&& u.bounded()
    &&& v.bounded()
    &&& 0 < c <= COORD_LIMIT
    &&& u.norm_sq() < c * c
    &&& v.norm_sq() < c * c
}

/// `c²·Δt − u·Δx`, exactly.
pub fn frame_time(cord: SpacetimeEvent, u: Vec3, c: i64) -> (r: i128)
    requires
        cord.pos.within(2 * COORD_LIMIT),
        -2 * COORD_LIMIT <= cord.time <= 2 * COORD_LIMIT,
        u.bounded(),
        0 < c <= COORD_LIMIT,
    ensures
        r == frame_time_numerator(cord, u, c as int),
        -0x2000_0000_0000_0000 - 0xc00_0000_0000 <= r <= 0x2000_0000_0000_0000 + 0xc00_0000_0000,
{
    let dt: i128 = cord.time as i128;
    proof {
        lemma_mul_bound(c as int, c as int, 0x10_0000, 0x10_0000);
        lemma_square_nonnegative(c as int);
        lemma_mul_bound(c as int * c as int, dt as int, 0x100_0000_0000, 0x20_0000);
    }
    let cc: i128 = c as i128 * c as i128;
    cc * dt - u.dot_exact(cord.pos)
}

/// The time at which the line through `cord` with velocity `v` meets the simultaneity slice
/// through the origin of the frame that moves at `u`, as a surd without root part.
pub fn calc_slice_time(cord: SpacetimeEvent, u: Vec3, v: Vec3, c: i64) -> (t: Surd)
    requires
        slice_in_limit(cord, u, v, c as int),
    ensures
        t.rational == slice_time(cord, u, v, c as int).0,
        t.denominator == slice_time(cord, u, v, c as int).1,
        t.root_coefficient == 0,
        t.radicand == 0,
        surd_in_solver_bounds(t),
{
    let n = frame_time(cord, u, c);
    proof {
        lemma_mul_bound(c as int, c as int, 0x10_0000, 0x10_0000);
        lemma_dot_below_light_speed(u, v, c as int);
    }
    let q: i128 = c as i128 * c as i128 - u.dot_exact(v);
    assert(0 < q <= 0x200_0000_0000);
    proof {
        lemma_mul_bound(cord.time as int, q as int, 0x20_0000, 0x200_0000_0000);
    }
    let p: i128 = cord.time as i128 * q - n;
    Surd { rational: p, root_coefficient: 0, radicand: 0, denominator: q }
}

/// The proper time of an object when an observer moving at `u` deems it simultaneous, for a
/// segment that starts with proper time `tau0`, with `n = c²·Δt − u·Δx` of the segment's start
/// relative to the observer: `τ₀ − n·√(c² − |v|²) / (c·(c² − |u|²))`.
///
/// This is `τ₀ + Δt'·γ_u/γ_v`: the observer-frame time `Δt' = −γ_u·n/c²` between the start and
/// the observer's event, scaled by the ratio of the two Lorentz factors `γ = c/√(c² − |·|²)`.
pub open spec fn is_slice_proper_time(tau0: int, n: int, u: Vec3, v: Vec3, c: int, r: Surd) -> bool {
    let ku = c * c - u.norm_sq();
    let kv = c * c - v.norm_sq();
    r.rational == tau0 * (c * ku) && r.root_coefficient == -n && r.radicand == kv && r.denominator
        == c * ku
}

/// Computes the surd of `is_slice_proper_time`.
pub fn slice_proper_time(tau0: i64, n: i128, u: Vec3, v: Vec3, c: i64) -> (r: Surd)
    requires
        0 <= tau0 <= COORD_LIMIT,
        -0x4000_0000_0000_0000 <= n <= 0x4000_0000_0000_0000,
        u.bounded(),
        v.bounded(),
        0 < c <= COORD_LIMIT,
        u.norm_sq() < c * c,
        v.norm_sq() < c * c,
    ensures
        is_slice_proper_time(tau0 as int, n as int, u, v, c as int, r),
        r.denominator > 0,
{
    let nu = u.dot_exact(u);
    let nv = v.dot_exact(v);
    proof {
        lemma_mul_bound(c as int, c as int, 0x10_0000, 0x10_0000);
        lemma_square_nonnegative(u.x as int);
        lemma_square_nonnegative(u.y as int);
        lemma_square_nonnegative(u.z as int);
    }
    let cc: i128 = c as i128 * c as i128;
    let ku: i128 = cc - nu;
    let kv: i128 = cc - nv;
    proof {
        lemma_mul_bound(c as int, ku as int, 0x10_0000, 0x100_0000_0000);
        assert(c as int * ku > 0) by (nonlinear_arith)
            requires
                c > 0,
                ku > 0,
        ;
    }
    let d: i128 = c as i128 * ku;
    proof {
        lemma_mul_bound(tau0 as int, d as int, 0x10_0000, 0x1000_0000_0000_0000);
    }
    Surd { rational: tau0 as i128 * d, root_coefficient: 0 - n, radicand: kv, denominator: d }
}

/// Two velocities below light speed have a dot product below `c²` in magnitude:
/// `2·(c² ∓ u·v) = (c² − |u|²) + (c² − |v|²) + |u ∓ v|²`.
pub proof fn lemma_dot_below_light_speed(u: Vec3, v: Vec3, c: int)
    requires
        u.norm_sq() < c * c,
        v.norm_sq() < c * c,
    ensures
        -(c * c) < u.dot(v) < c * c,
{
    lemma_difference_square(u.x as int, v.x as int);
    lemma_difference_square(u.y as int, v.y as int);
    lemma_difference_square(u.z as int, v.z as int);
}

/// `(a − b)² ≥ 0` and `(a + b)² ≥ 0`, expanded.
proof fn lemma_difference_square(a: int, b: int)
    ensures
        a * a - 2 * (a * b) + b * b >= 0,
        a * a + 2 * (a * b) + b * b >= 0,
{
    assert((a - b) * (a - b) == a * a - 2 * (a * b) + b * b) by (nonlinear_arith);
    assert((a + b) * (a + b) == a * a + 2 * (a * b) + b * b) by (nonlinear_arith);
    lemma_square_nonnegative(a - b);
    lemma_square_nonnegative(a + b);
}

/// The point where a line meets the slice satisfies `c²·t − u·x = 0`, in numerators over the
/// common denominator `q`, when the line's point at that time is `x = (q·y + v·p) / q` with
/// `y` the line's position at time zero.
pub proof fn lemma_slice_point_simultaneous(
    cord: SpacetimeEvent,
    u: Vec3,
    v: Vec3,
    c: int,
    xs: (int, int, int),
)
    requires
        xs == ({
            let (p, q) = slice_time(cord, u, v, c);
            (
                q * (cord.pos.x - v.x * cord.time) + v.x * p,
                q * (cord.pos.y - v.y * cord.time) + v.y * p,
                q * (cord.pos.z - v.z * cord.time) + v.z * p,
            )
        }),
    ensures
        c * c * slice_time(cord, u, v, c).0 - (u.x * xs.0 + u.y * xs.1 + u.z * xs.2) == 0,
{
    let (p, q) = slice_time(cord, u, v, c);
    let n = frame_time_numerator(cord, u, c);
    let t = cord.time as int;
    let c2 = c * c;
    let (ux, uy, uz) = (u.x as int, u.y as int, u.z as int);
    let (vx, vy, vz) = (v.x as int, v.y as int, v.z as int);
    let (dx, dy, dz) = (cord.pos.x as int, cord.pos.y as int, cord.pos.z as int);
    let qt = q * t;
    lemma_slice_axis(q, p, t, qt, ux, vx, dx);
    lemma_slice_axis(q, p, t, qt, uy, vy, dy);
    lemma_slice_axis(q, p, t, qt, uz, vz, dz);
    let uv = ux * vx + uy * vy + uz * vz;
    let ud = ux * dx + uy * dy + uz * dz;
    lemma_distribute3(q, ux * dx, uy * dy, uz * dz);
    lemma_distribute3(qt, ux * vx, uy * vy, uz * vz);
    lemma_distribute3(p, ux * vx, uy * vy, uz * vz);
    assert(ux * xs.0 + uy * xs.1 + uz * xs.2 == q * ud - qt * uv + p * uv);
    lemma_slice_residue(c2, p, q, t, qt, ud, uv, n);
}

/// `c2·p − (q·ud − qt·uv + p·uv) = 0` for `q = c2 − uv`, `n = c2·t − ud`, `p = t·q − n` and
/// `qt = q·t`.
proof fn lemma_slice_residue(c2: int, p: int, q: int, t: int, qt: int, ud: int, uv: int, n: int)
    requires
        q == c2 - uv,
        n == c2 * t - ud,
        p == t * q - n,
        qt == q * t,
    ensures
        c2 * p - (q * ud - qt * uv + p * uv) == 0,
{
    assert(c2 * p - p * uv == p * q) by (nonlinear_arith)
        requires
            q == c2 - uv,
    ;
    assert(p * q - q * ud + qt * uv == q * (p - ud + t * uv)) by (nonlinear_arith)
        requires
            qt == q * t,
    ;
    assert(t * q + t * uv == c2 * t) by (nonlinear_arith)
        requires
            q + uv == c2,
    ;
    assert(p - ud + t * uv == 0);
    assert(q * (p - ud + t * uv) == 0) by (nonlinear_arith)
        requires
            p - ud + t * uv == 0,
    ;
}

/// `k·(a + b + c) = k·a + k·b + k·c`.
pub proof fn lemma_distribute3(k: int, a: int, b: int, c: int)
    ensures
        k * (a + b + c) == k * a + k * b + k * c,
{
    assert(k * (a + b + c) == k * a + k * b + k * c) by (nonlinear_arith);
}

/// One axis of the slice identity: `u·(q·(d − v·t) + v·p) = q·(u·d) − qt·(u·v) + p·(u·v)` with
/// `qt = q·t`.
proof fn lemma_slice_axis(q: int, p: int, t: int, qt: int, u: int, v: int, d: int)
    requires
        qt == q * t,
    ensures
        u * (q * (d - v * t) + v * p) == q * (u * d) - qt * (u * v) + p * (u * v),
{
    let x = q * (d - v * t);
    let y = v * p;
    assert(x == q * d - q * (v * t)) by (nonlinear_arith)
        requires
            x == q * (d - v * t),
    ;
    assert(u * (x + y) == u * x + u * y) by (nonlinear_arith);
    assert(u * x == u * (q * d) - u * (q * (v * t))) by (nonlinear_arith)
        requires
            x == q * d - q * (v * t),
    ;
    assert(u * (q * d) == q * (u * d)) by (nonlinear_arith);
    assert(u * (q * (v * t)) == qt * (u * v)) by (nonlinear_arith)
        requires
            qt == q * t,
    ;
    assert(u * y == p * (u * v)) by (nonlinear_arith)
        requires
            y == v * p,
    ;
}

} // verus!
