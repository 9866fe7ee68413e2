use vstd::prelude::*;

use crate::coordinate::{SpacetimeEvent, Vec3, COORD_LIMIT};
use crate::intersection::{
    is_surd, lemma_mul_bound, lemma_square_nonnegative, numerator_at, scaled_interval_at, Surd,
    SurdEvent,
};

verus! {

/// Whether `r` is `e` seen from the frame that moves at `v`.
///
/// With `n = |v|²`, `k = c² − n`, `s = v·x` and `γ = c / √k`, the Lorentz boost gives
/// `t' = γ·(t − s/c²) = n·(c²·t − s)·√k / (c·n·k)` and
/// `x' = x + ((γ − 1)·s/n − γ·t)·v = (c·k·(n·x − s·v) + c²·(s − t·n)·v·√k) / (c·n·k)`,
/// so every coordinate is a surd over the radicand `k` and the denominator `c·n·k`. At rest
/// (`n = 0`) the boost is the identity.
pub open spec fn is_boost_of(e: SpacetimeEvent, v: Vec3, c: int, r: SurdEvent) -> bool {
    let n = v.norm_sq();
    let k = c * c - n;
    let s = v.x * e.pos.x + v.y * e.pos.y + v.z * e.pos.z;
    let t = e.time as int;
    if n == 0 {
        &&& is_surd(r.time, t, 0, k, 1)
        &&& is_surd(r.x, e.pos.x as int, 0, k, 1)
        &&& is_surd(r.y, e.pos.y as int, 0, k, 1)
        &&& is_surd(r.z, e.pos.z as int, 0, k, 1)
    } else {
        let d = c * n * k;
        &&& is_surd(r.time, 0, n * (c * c * t - s), k, d)
        &&& is_surd(r.x, c * k * (n * e.pos.x - v.x * s), c * c * v.x * (s - t * n), k, d)
        &&& is_surd(r.y, c * k * (n * e.pos.y - v.y * s), c * c * v.y * (s - t * n), k, d)
        &&& is_surd(r.z, c * k * (n * e.pos.z - v.z * s), c * c * v.z * (s - t * n), k, d)
    }
}

impl SpacetimeEvent {
    /// This event seen from the frame that moves at `v`, exactly: see `is_boost_of`.
    ///
    /// The coordinates may be those of one event relative to another (each within
    /// `2·COORD_LIMIT`); the velocity must be below light speed.
    pub fn to_reference_frame(self, v: Vec3, c: i64) -> (r: SurdEvent)
        requires
            self.pos.within(2 * COORD_LIMIT),
            -2 * COORD_LIMIT <= self.time <= 2 * COORD_LIMIT,
            v.bounded(),
            0 < c <= COORD_LIMIT,
            v.norm_sq() < c * c,
        ensures
            is_boost_of(self, v, c as int, r),
    {
        let n = v.dot_exact(v);
        let s = v.dot_exact(self.pos);
        proof {
            lemma_mul_bound(c as int, c as int, 0x10_0000, 0x10_0000);
            lemma_square_nonnegative(v.x as int);
            lemma_square_nonnegative(v.y as int);
            lemma_square_nonnegative(v.z as int);
        }
        let cc: i128 = c as i128 * c as i128;
        let k: i128 = cc - n;
        let t: i128 = self.time as i128;
        let (x, y, z) = (self.pos.x as i128, self.pos.y as i128, self.pos.z as i128);
        if n == 0 {
            return SurdEvent {
                x: Surd { rational: x, root_coefficient: 0, radicand: k, denominator: 1 },
                y: Surd { rational: y, root_coefficient: 0, radicand: k, denominator: 1 },
                z: Surd { rational: z, root_coefficient: 0, radicand: k, denominator: 1 },
                time: Surd { rational: t, root_coefficient: 0, radicand: k, denominator: 1 },
            };
        }
        let (vx, vy, vz) = (v.x as i128, v.y as i128, v.z as i128);
        let ci = c as i128;
        proof {
            lemma_mul_bound(ci as int, n as int, 0x10_0000, 0x1000_0000_0000);
            lemma_mul_bound(ci as int, k as int, 0x10_0000, 0x100_0000_0000);
            lemma_mul_bound(cc as int, t as int, 0x100_0000_0000, 0x20_0000);
            lemma_mul_bound(t as int, n as int, 0x20_0000, 0x1000_0000_0000);
            lemma_mul_bound(cc as int, vx as int, 0x100_0000_0000, 0x10_0000);
            lemma_mul_bound(cc as int, vy as int, 0x100_0000_0000, 0x10_0000);
            lemma_mul_bound(cc as int, vz as int, 0x100_0000_0000, 0x10_0000);
            lemma_mul_bound(n as int, x as int, 0x1000_0000_0000, 0x20_0000);
            lemma_mul_bound(n as int, y as int, 0x1000_0000_0000, 0x20_0000);
            lemma_mul_bound(n as int, z as int, 0x1000_0000_0000, 0x20_0000);
            lemma_mul_bound(vx as int, s as int, 0x10_0000, 0x1000_0000_0000);
            lemma_mul_bound(vy as int, s as int, 0x10_0000, 0x1000_0000_0000);
            lemma_mul_bound(vz as int, s as int, 0x10_0000, 0x1000_0000_0000);
        }
        let cn: i128 = ci * n;
        let ck: i128 = ci * k;
        let dt: i128 = cc * t - s;
        let ds: i128 = s - t * n;
        let ax: i128 = n * x - vx * s;
        let ay: i128 = n * y - vy * s;
        let az: i128 = n * z - vz * s;
        let (bx, by_, bz) = (cc * vx, cc * vy, cc * vz);
        proof {
            lemma_mul_bound(cn as int, k as int, 0x1_0000_0000_0000_0000, 0x100_0000_0000);
            lemma_mul_bound(n as int, dt as int, 0x1000_0000_0000, 0x4000_0000_0000_0000);
            lemma_mul_bound(ck as int, ax as int, 0x1000_0000_0000_0000, 0x4_0000_0000_0000_0000);
            lemma_mul_bound(ck as int, ay as int, 0x1000_0000_0000_0000, 0x4_0000_0000_0000_0000);
            lemma_mul_bound(ck as int, az as int, 0x1000_0000_0000_0000, 0x4_0000_0000_0000_0000);
            lemma_mul_bound(bx as int, ds as int, 0x1000_0000_0000_0000, 0x4_0000_0000_0000_0000);
            lemma_mul_bound(by_ as int, ds as int, 0x1000_0000_0000_0000, 0x4_0000_0000_0000_0000);
            lemma_mul_bound(bz as int, ds as int, 0x1000_0000_0000_0000, 0x4_0000_0000_0000_0000);
        }
        let d: i128 = cn * k;
        SurdEvent {
            x: Surd { rational: ck * ax, root_coefficient: bx * ds, radicand: k, denominator: d },
            y: Surd { rational: ck * ay, root_coefficient: by_ * ds, radicand: k, denominator: d },
            z: Surd { rational: ck * az, root_coefficient: bz * ds, radicand: k, denominator: d },
            time: Surd { rational: 0, root_coefficient: n * dt, radicand: k, denominator: d },
        }
    }
}

/// A boost keeps the spacetime interval.
///
/// With `w` put for `√(c² − |v|²)`, the boosted coordinates, scaled by their common
/// denominator `d`, satisfy `(c·t')² − |x'|² = d²·((c·t)² − |x|²)`. Applied to an event taken
/// relative to a reference event, this is the invariance of the interval between the two.
pub proof fn lemma_boost_preserves_interval(e: SpacetimeEvent, v: Vec3, c: int, r: SurdEvent, w: int)
    requires
        is_boost_of(e, v, c, r),
        w * w == c * c - v.norm_sq(),
    ensures
        scaled_interval_at(r, c, w) == (r.time.denominator * r.time.denominator) * ((c * e.time) * (
        c * e.time) - e.pos.norm_sq()),
{
    let n = v.norm_sq();
    let k = c * c - n;
    let s = v.x * e.pos.x + v.y * e.pos.y + v.z * e.pos.z;
    let t = e.time as int;
    let (x, y, z) = (e.pos.x as int, e.pos.y as int, e.pos.z as int);
    let (vx, vy, vz) = (v.x as int, v.y as int, v.z as int);
    let big_x = x * x + y * y + z * z;
    if n == 0 {
        assert(0 * w == 0);
        assert(numerator_at(r.time, w) == t);
        assert(numerator_at(r.x, w) == x);
        assert(numerator_at(r.y, w) == y);
        assert(numerator_at(r.z, w) == z);
    } else {
        let cc = c * c;
        let p = c * k;
        let q = s - t * n;
        let u = cc * t - s;
        let g = n * u;
        let (ax, ay, az) = (n * x - vx * s, n * y - vy * s, n * z - vz * s);
        let (bx, by_, bz) = (cc * vx * q, cc * vy * q, cc * vz * q);
        assert(numerator_at(r.time, w) == g * w);
        lemma_boost_axis(p, ax, bx, w, k);
        lemma_boost_axis(p, ay, by_, w, k);
        lemma_boost_axis(p, az, bz, w, k);
        // The part linear in `w` cancels: the spatial numerators' rational parts are orthogonal to
        // `v`.
        lemma_cross_term(p, cc, q, ax, vx);
        lemma_cross_term(p, cc, q, ay, vy);
        lemma_cross_term(p, cc, q, az, vz);
        lemma_orthogonal(n, s, x, y, z, vx, vy, vz);
        crate::simultaneity::lemma_distribute3(p * cc * q, ax * vx, ay * vy, az * vz);
        crate::simultaneity::lemma_distribute3(2 * w, (p * ax) * bx, (p * ay) * by_, (p * az) * bz);
        assert((2 * w) * ((p * ax) * bx + (p * ay) * by_ + (p * az) * bz) == 0) by (nonlinear_arith)
            requires
                (p * ax) * bx + (p * ay) * by_ + (p * az) * bz == 0,
        ;
        // The rational parts.
        lemma_rational_parts(n, s, x, y, z, vx, vy, vz, p);
        // The root parts.
        lemma_root_parts(cc, q, vx, vy, vz, k, n);
        assert((c * (g * w)) * (c * (g * w)) == cc * (g * g) * k) by (nonlinear_arith)
            requires
                cc == c * c,
                w * w == k,
        ;
        lemma_boost_residue(c, cc, n, k, t, s, u, q, g, p, big_x);
    }
}

/// `(P·a + b·w)² = (P·P)·(a·a) + (2·w)·((P·a)·b) + k·(b·b)` when `w² = k`.
proof fn lemma_boost_axis(p: int, a: int, b: int, w: int, k: int)
    requires
        w * w == k,
    ensures
        (p * a + b * w) * (p * a + b * w) == (p * p) * (a * a) + (2 * w) * ((p * a) * b) + k * (b * b),
{
    let pa = p * a;
    assert((pa + b * w) * (pa + b * w) == pa * pa + (2 * w) * (pa * b) + (w * w) * (b * b)) by (nonlinear_arith);
    assert(pa * pa == (p * p) * (a * a)) by (nonlinear_arith)
        requires
            pa == p * a,
    ;
}

/// `(P·a)·((c²·v)·q) = (P·c²·q)·(a·v)`.
proof fn lemma_cross_term(p: int, cc: int, q: int, a: int, v: int)
    ensures
        (p * a) * (cc * v * q) == (p * cc * q) * (a * v),
{
    assert((p * a) * (cc * v * q) == (p * cc * q) * (a * v)) by (nonlinear_arith);
}

/// `n·x − s·v` is orthogonal to `v` when `n = |v|²` and `s = v·x`.
proof fn lemma_orthogonal(n: int, s: int, x: int, y: int, z: int, vx: int, vy: int, vz: int)
    requires
        n == vx * vx + vy * vy + vz * vz,
        s == vx * x + vy * y + vz * z,
    ensures
        (n * x - vx * s) * vx + (n * y - vy * s) * vy + (n * z - vz * s) * vz == 0,
{
    lemma_orthogonal_axis(n, s, x, vx);
    lemma_orthogonal_axis(n, s, y, vy);
    lemma_orthogonal_axis(n, s, z, vz);
    crate::simultaneity::lemma_distribute3(n, vx * x, vy * y, vz * z);
    crate::simultaneity::lemma_distribute3(s, vx * vx, vy * vy, vz * vz);
    assert(n * s == s * n) by (nonlinear_arith);
}

/// `(n·x − v·s)·v = n·(v·x) − s·(v·v)`.
proof fn lemma_orthogonal_axis(n: int, s: int, x: int, v: int)
    ensures
        (n * x - v * s) * v == n * (v * x) - s * (v * v),
{
    assert((n * x - v * s) * v == n * (v * x) - s * (v * v)) by (nonlinear_arith);
}

/// `Σ (P·P)·(a·a) = (P·P)·n·(n·|x|² − s²)` for `a = n·x − s·v`.
proof fn lemma_rational_parts(
    n: int,
    s: int,
    x: int,
    y: int,
    z: int,
    vx: int,
    vy: int,
    vz: int,
    p: int,
)
    requires
        n == vx * vx + vy * vy + vz * vz,
        s == vx * x + vy * y + vz * z,
    ensures
        (p * p) * ((n * x - vx * s) * (n * x - vx * s)) + (p * p) * ((n * y - vy * s) * (n * y
            - vy * s)) + (p * p) * ((n * z - vz * s) * (n * z - vz * s)) == (p * p) * (n * (n * (x
            * x + y * y + z * z) - s * s)),
{
    lemma_rational_axis(n, s, x, vx);
    lemma_rational_axis(n, s, y, vy);
    lemma_rational_axis(n, s, z, vz);
    crate::simultaneity::lemma_distribute3(n * n, x * x, y * y, z * z);
    crate::simultaneity::lemma_distribute3(2 * n * s, vx * x, vy * y, vz * z);
    crate::simultaneity::lemma_distribute3(s * s, vx * vx, vy * vy, vz * vz);
    let big_x = x * x + y * y + z * z;
    let sum = (n * x - vx * s) * (n * x - vx * s) + (n * y - vy * s) * (n * y - vy * s) + (n * z - vz
        * s) * (n * z - vz * s);
    assert(sum == (n * n) * big_x - (2 * n * s) * s + (s * s) * n);
    assert((n * n) * big_x - (2 * n * s) * s + (s * s) * n == n * (n * big_x - s * s)) by (nonlinear_arith);
    crate::simultaneity::lemma_distribute3(
        p * p,
        (n * x - vx * s) * (n * x - vx * s),
        (n * y - vy * s) * (n * y - vy * s),
        (n * z - vz * s) * (n * z - vz * s),
    );
}

/// `(n·x − v·s)² = (n·n)·(x·x) − (2·n·s)·(v·x) + (s·s)·(v·v)`.
proof fn lemma_rational_axis(n: int, s: int, x: int, v: int)
    ensures
        (n * x - v * s) * (n * x - v * s) == (n * n) * (x * x) - (2 * n * s) * (v * x) + (s * s) * (v
            * v),
{
    let a = n * x;
    let b = v * s;
    assert((a - b) * (a - b) == a * a - 2 * (a * b) + b * b) by (nonlinear_arith);
    assert(a * a == (n * n) * (x * x)) by (nonlinear_arith)
        requires
            a == n * x,
    ;
    assert(2 * (a * b) == (2 * n * s) * (v * x)) by (nonlinear_arith)
        requires
            a == n * x,
            b == v * s,
    ;
    assert(b * b == (s * s) * (v * v)) by (nonlinear_arith)
        requires
            b == v * s,
    ;
}

/// `Σ k·(b·b) = k·(c²·c²·q·q)·n` for `b = c²·v·q`.
proof fn lemma_root_parts(cc: int, q: int, vx: int, vy: int, vz: int, k: int, n: int)
    requires
        n == vx * vx + vy * vy + vz * vz,
    ensures
        k * ((cc * vx * q) * (cc * vx * q)) + k * ((cc * vy * q) * (cc * vy * q)) + k * ((cc * vz * q)
            * (cc * vz * q)) == k * ((cc * cc * q * q) * n),
{
    let m = cc * cc * q * q;
    assert((cc * vx * q) * (cc * vx * q) == m * (vx * vx)) by (nonlinear_arith)
        requires
            m == cc * cc * q * q,
    ;
    assert((cc * vy * q) * (cc * vy * q) == m * (vy * vy)) by (nonlinear_arith)
        requires
            m == cc * cc * q * q,
    ;
    assert((cc * vz * q) * (cc * vz * q) == m * (vz * vz)) by (nonlinear_arith)
        requires
            m == cc * cc * q * q,
    ;
    crate::simultaneity::lemma_distribute3(m, vx * vx, vy * vy, vz * vz);
    crate::simultaneity::lemma_distribute3(k, m * (vx * vx), m * (vy * vy), m * (vz * vz));
    assert(k * (m * n) == k * ((cc * cc * q * q) * n));
}

/// The scalar identity left once the cross terms cancel.
proof fn lemma_boost_residue(
    c: int,
    cc: int,
    n: int,
    k: int,
    t: int,
    s: int,
    u: int,
    q: int,
    g: int,
    p: int,
    big_x: int,
)
    requires
        cc == c * c,
        k == cc - n,
        u == cc * t - s,
        q == s - t * n,
        g == n * u,
        p == c * k,
    ensures
        cc * (g * g) * k - ((p * p) * (n * (n * big_x - s * s)) + k * ((cc * cc * q * q) * n)) == (c
            * n * k) * (c * n * k) * ((c * t) * (c * t) - big_x),
{
    let u2 = u * u;
    let q2 = q * q;
    let t2 = t * t;
    let ts = t * s;
    let s2 = s * s;
    let vv = n * big_x - s2;
    assert(u2 == cc * cc * t2 - 2 * cc * ts + s2) by (nonlinear_arith)
        requires
            u == cc * t - s,
            u2 == u * u,
            t2 == t * t,
            ts == t * s,
            s2 == s * s,
    ;
    assert(q2 == s2 - 2 * n * ts + n * n * t2) by (nonlinear_arith)
        requires
            q == s - t * n,
            q2 == q * q,
            t2 == t * t,
            ts == t * s,
            s2 == s * s,
    ;
    let inner = n * u2 - k * vv - cc * q2;
    assert(n * u2 == n * (cc * cc * t2) - n * (2 * cc * ts) + n * s2) by (nonlinear_arith)
        requires
            u2 == cc * cc * t2 - 2 * cc * ts + s2,
    ;
    assert(cc * q2 == cc * s2 - cc * (2 * n * ts) + cc * (n * n * t2)) by (nonlinear_arith)
        requires
            q2 == s2 - 2 * n * ts + n * n * t2,
    ;
    assert(k * vv == k * (n * big_x) - k * s2) by (nonlinear_arith)
        requires
            vv == n * big_x - s2,
    ;
    assert(n * (cc * cc * t2) - cc * (n * n * t2) == n * k * (cc * t2)) by (nonlinear_arith)
        requires
            k == cc - n,
    ;
    assert(n * (2 * cc * ts) == cc * (2 * n * ts)) by (nonlinear_arith);
    assert(k * s2 == cc * s2 - n * s2) by (nonlinear_arith)
        requires
            k == cc - n,
    ;
    assert(k * (n * big_x) == n * k * big_x) by (nonlinear_arith);
    assert(n * k * (cc * t2) - n * k * big_x == n * k * (cc * t2 - big_x)) by (nonlinear_arith);
    assert(inner == n * k * (cc * t2 - big_x));
    let m = cc * n * k;
    assert(cc * (g * g) * k == m * (n * u2)) by (nonlinear_arith)
        requires
            g == n * u,
            u2 == u * u,
            m == cc * n * k,
    ;
    assert((p * p) * (n * vv) == m * (k * vv)) by (nonlinear_arith)
        requires
            p == c * k,
            cc == c * c,
            m == cc * n * k,
    ;
    assert(k * ((cc * cc * q * q) * n) == m * (cc * q2)) by (nonlinear_arith)
        requires
            q2 == q * q,
            m == cc * n * k,
    ;
    assert(m * (n * u2) - (m * (k * vv) + m * (cc * q2)) == m * inner) by (nonlinear_arith)
        requires
            inner == n * u2 - k * vv - cc * q2,
    ;
    let d = c * n * k;
    let z = cc * t2 - big_x;
    assert(d * d == m * (n * k)) by (nonlinear_arith)
        requires
            d == c * n * k,
            m == cc * n * k,
            cc == c * c,
    ;
    assert((c * t) * (c * t) == cc * t2) by (nonlinear_arith)
        requires
            cc == c * c,
            t2 == t * t,
    ;
    assert(m * (n * k * z) == (m * (n * k)) * z) by (nonlinear_arith);
}

} // verus!
