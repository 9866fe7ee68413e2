use vstd::prelude::*;

use crate::coordinate::{Vec3, COORD_LIMIT};
use crate::intersection::{is_surd, lemma_mul_bound, lemma_square_nonnegative, Surd};
use crate::simultaneity::lemma_dot_below_light_speed;

verus! {

/// A velocity whose components are surds over one radicand and one denominator.
#[derive(Clone, Copy, Debug, PartialEq, Eq, Structural)]
pub struct SurdVec3 {
    pub x: Surd,
    pub y: Surd,
    pub z: Surd,
}

/// Whether `r` is the velocity `v` seen from a frame that moves at `dv`.
///
/// With `n = |dv|²`, `k = c² − n` and `m = v·dv`, the component of `v` along `dv` becomes
/// `(v∥ − dv) / (1 − m/c²)` and the perpendicular one `v⊥ / (γ·(1 − m/c²))` with
/// `γ = c / √k`; together `(c²·(m − n)·dv + c·(n·v − m·dv)·√k) / (n·(c² − m))`. A frame at
/// rest (`n = 0`) leaves `v` unchanged.
pub open spec fn is_composition_of(dv: Vec3, v: Vec3, c: int, r: SurdVec3) -> bool {
    let n = dv.norm_sq();
    let k = c * c - n;
    let m = v.dot(dv);
    if n == 0 {
        &&& is_surd(r.x, v.x as int, 0, k, 1)
        &&& is_surd(r.y, v.y as int, 0, k, 1)
        &&& is_surd(r.z, v.z as int, 0, k, 1)
    } else {
        let d = n * (c * c - m);
        &&& is_surd(r.x, c * c * (m - n) * dv.x, c * (n * v.x - m * dv.x), k, d)
        &&& is_surd(r.y, c * c * (m - n) * dv.y, c * (n * v.y - m * dv.y), k, d)
        &&& is_surd(r.z, c * c * (m - n) * dv.z, c * (n * v.z - m * dv.z), k, d)
    }
}

/// The velocity `v` of an object, given in the old frame, seen from a new frame that moves
/// at `rf_delta_v` relative to the old one; exactly, see `is_composition_of`.
///
/// Both velocities must be below light speed. The composition is neither commutative nor
/// associative: going back to the old frame composes with the old frame's velocity as seen
/// from the new one.
pub fn velocity_to_new_rf(rf_delta_v: Vec3, v: Vec3, c: i64) -> (r: SurdVec3)
    requires
        rf_delta_v.bounded(),
        v.bounded(),
        0 < c <= COORD_LIMIT,
        rf_delta_v.norm_sq() < c * c,
        v.norm_sq() < c * c,
    ensures
        is_composition_of(rf_delta_v, v, c as int, r),
        rf_delta_v.norm_sq() == 0 ==> r.x.rational == v.x && r.y.rational == v.y && r.z.rational
            == v.z && r.x.root_coefficient == 0 && r.y.root_coefficient == 0 && r.z.root_coefficient
            == 0 && r.x.denominator == 1 && r.y.denominator == 1 && r.z.denominator == 1,
{
    let n = rf_delta_v.dot_exact(rf_delta_v);
    let m = v.dot_exact(rf_delta_v);
    proof {
        lemma_mul_bound(c as int, c as int, 0x10_0000, 0x10_0000);
        lemma_square_nonnegative(rf_delta_v.x as int);
        lemma_square_nonnegative(rf_delta_v.y as int);
        lemma_square_nonnegative(rf_delta_v.z as int);
        lemma_dot_below_light_speed(v, rf_delta_v, c as int);
    }
    let ci = c as i128;
    let cc: i128 = ci * ci;
    let k: i128 = cc - n;
    if n == 0 {
        return SurdVec3 {
            x: Surd { rational: v.x as i128, root_coefficient: 0, radicand: k, denominator: 1 },
            y: Surd { rational: v.y as i128, root_coefficient: 0, radicand: k, denominator: 1 },
            z: Surd { rational: v.z as i128, root_coefficient: 0, radicand: k, denominator: 1 },
        };
    }
    let (dx, dy, dz) = (rf_delta_v.x as i128, rf_delta_v.y as i128, rf_delta_v.z as i128);
    let (vx, vy, vz) = (v.x as i128, v.y as i128, v.z as i128);
    let slow: i128 = cc - m;
    let mn: i128 = m - n;
    proof {
        lemma_mul_bound(n as int, slow as int, 0x1000_0000_0000, 0x200_0000_0000);
        lemma_mul_bound(cc as int, mn as int, 0x100_0000_0000, 0x2000_0000_0000);
        lemma_mul_bound(n as int, vx as int, 0x1000_0000_0000, 0x10_0000);
        lemma_mul_bound(n as int, vy as int, 0x1000_0000_0000, 0x10_0000);
        lemma_mul_bound(n as int, vz as int, 0x1000_0000_0000, 0x10_0000);
        lemma_mul_bound(m as int, dx as int, 0x1000_0000_0000, 0x10_0000);
        lemma_mul_bound(m as int, dy as int, 0x1000_0000_0000, 0x10_0000);
        lemma_mul_bound(m as int, dz as int, 0x1000_0000_0000, 0x10_0000);
    }
    let scale: i128 = cc * mn;
    let (px, py, pz) = (n * vx - m * dx, n * vy - m * dy, n * vz - m * dz);
    proof {
        lemma_mul_bound(scale as int, dx as int, 0x20_0000_0000_0000_0000_0000, 0x10_0000);
        lemma_mul_bound(scale as int, dy as int, 0x20_0000_0000_0000_0000_0000, 0x10_0000);
        lemma_mul_bound(scale as int, dz as int, 0x20_0000_0000_0000_0000_0000, 0x10_0000);
        lemma_mul_bound(ci as int, px as int, 0x10_0000, 0x2_0000_0000_0000_0000);
        lemma_mul_bound(ci as int, py as int, 0x10_0000, 0x2_0000_0000_0000_0000);
        lemma_mul_bound(ci as int, pz as int, 0x10_0000, 0x2_0000_0000_0000_0000);
    }
    let d: i128 = n * slow;
    SurdVec3 {
        x: Surd { rational: scale * dx, root_coefficient: ci * px, radicand: k, denominator: d },
        y: Surd { rational: scale * dy, root_coefficient: ci * py, radicand: k, denominator: d },
        z: Surd { rational: scale * dz, root_coefficient: ci * pz, radicand: k, denominator: d },
    }
}

} // verus!
