use vstd::prelude::*;

use crate::light_cone::LightCone;

verus! {

/// Largest magnitude admitted for a coordinate, a velocity component or the speed of light.
///
/// Coordinates are fixed-point integers in units of the caller's choosing. The bound keeps
/// every product that the light-cone solver forms inside 128 bits, so that all of its
/// arithmetic is exact.
pub const COORD_LIMIT: i64 = 1048576;

/// Whether an integer lies within `COORD_LIMIT` in magnitude.
pub open spec fn in_limit(v: int) -> bool {
    -COORD_LIMIT <= v <= COORD_LIMIT
}

/// A three-dimensional integer vector: a position or a velocity.
#[derive(Clone, Copy, Debug, PartialEq, Eq, Structural)]
pub struct Vec3 {
    pub x: i64,
    pub y: i64,
    pub z: i64,
}

impl Vec3 {
    /// Every component lies within `COORD_LIMIT`.
    pub open spec fn bounded(self) -> bool {
        in_limit(self.x as int) && in_limit(self.y as int) && in_limit(self.z as int)
    }

    /// Dot product.
    pub open spec fn dot(self, o: Vec3) -> int {
        self.x * o.x + self.y * o.y + self.z * o.z
    }

    /// Squared Euclidean length.
    pub open spec fn norm_sq(self) -> int {
        self.dot(self)
    }

    pub fn new(x: i64, y: i64, z: i64) -> (r: Vec3)
        ensures
            r == (Vec3 { x, y, z }),
    {
        Vec3 { x, y, z }
    }

    /// Every component lies within `m` in magnitude.
    pub open spec fn within(self, m: int) -> bool {
        -m <= self.x <= m && -m <= self.y <= m && -m <= self.z <= m
    }

    /// Exact dot product of two vectors whose components lie within `2·COORD_LIMIT`, such as a
    /// velocity and the difference of two positions.
    pub fn dot_exact(self, o: Vec3) -> (r: i128)
        requires
            self.within(2 * COORD_LIMIT),
            o.within(2 * COORD_LIMIT),
        ensures
            r == self.dot(o),
            -0xc00_0000_0000 <= r <= 0xc00_0000_0000,
    {
        proof {
            lemma_product_bound(self.x as int, o.x as int);
            lemma_product_bound(self.y as int, o.y as int);
            lemma_product_bound(self.z as int, o.z as int);
        }
        (self.x as i128) * (o.x as i128) + (self.y as i128) * (o.y as i128) + (self.z as i128) * (
        o.z as i128)
    }
}

/// The product of two values within `2·COORD_LIMIT` is at most `2⁴²` in magnitude.
pub proof fn lemma_product_bound(a: int, b: int)
    requires
        -2 * COORD_LIMIT <= a <= 2 * COORD_LIMIT,
        -2 * COORD_LIMIT <= b <= 2 * COORD_LIMIT,
    ensures
        -0x400_0000_0000 <= a * b <= 0x400_0000_0000,
{
    assert(-0x400_0000_0000 <= a * b <= 0x400_0000_0000) by (nonlinear_arith)
        requires
            -2097152 <= a <= 2097152,
            -2097152 <= b <= 2097152,
    ;
}

/// How two events are related by the sign of their spacetime interval.
#[derive(Clone, Copy, Debug, PartialEq, Eq, Structural)]
pub enum SpacetimeSeparation {
    /// A signal slower than light connects the two events.
    Timelike,
    /// No signal at or below light speed connects them.
    Spacelike,
    /// They lie on each other's light cone.
    Null,
}

/// The separation that an interval of the given sign stands for.
pub open spec fn separation_of(interval: int) -> SpacetimeSeparation {
    if interval > 0 {
        SpacetimeSeparation::Timelike
    } else if interval < 0 {
        SpacetimeSeparation::Spacelike
    } else {
        SpacetimeSeparation::Null
    }
}

/// A point of spacetime: a position and a time, in one inertial frame.
#[derive(Clone, Copy, Debug, PartialEq, Eq, Structural)]
pub struct SpacetimeEvent {
    pub pos: Vec3,
    pub time: i64,
}

/// Squared spacetime interval between two events: `(c·Δt)² − |Δx|²`.
pub open spec fn interval(a: SpacetimeEvent, b: SpacetimeEvent, c: int) -> int {
    let dt = a.time - b.time;
    let dx = a.pos.x - b.pos.x;
    let dy = a.pos.y - b.pos.y;
    let dz = a.pos.z - b.pos.z;
    (c * dt) * (c * dt) - (dx * dx + dy * dy + dz * dz)
}

/// Component-wise sum, in unbounded integers.
pub open spec fn event_sum(a: SpacetimeEvent, b: SpacetimeEvent) -> (int, int, int, int) {
    (a.pos.x + b.pos.x, a.pos.y + b.pos.y, a.pos.z + b.pos.z, a.time + b.time)
}

/// Component-wise difference, in unbounded integers.
pub open spec fn event_diff(a: SpacetimeEvent, b: SpacetimeEvent) -> (int, int, int, int) {
    (a.pos.x - b.pos.x, a.pos.y - b.pos.y, a.pos.z - b.pos.z, a.time - b.time)
}

/// The four components of an event, in unbounded integers.
pub open spec fn components(e: SpacetimeEvent) -> (int, int, int, int) {
    (e.pos.x as int, e.pos.y as int, e.pos.z as int, e.time as int)
}

/// Whether each of four integers fits in an `i64`.
pub open spec fn fits_i64(v: (int, int, int, int)) -> bool {
    i64::MIN <= v.0 <= i64::MAX && i64::MIN <= v.1 <= i64::MAX && i64::MIN <= v.2 <= i64::MAX
        && i64::MIN <= v.3 <= i64::MAX
}

impl SpacetimeEvent {
    /// Every coordinate lies within `COORD_LIMIT`.
    pub open spec fn bounded(self) -> bool {
        self.pos.bounded() && in_limit(self.time as int)
    }

    /// The event at `pos` and time zero.
    pub fn new(pos: Vec3) -> (r: SpacetimeEvent)
        ensures
            r.pos == pos,
            r.time == 0,
    {
        SpacetimeEvent { pos, time: 0 }
    }

    /// The same position at another time.
    pub fn with_time(self, time: i64) -> (r: SpacetimeEvent)
        ensures
            r.pos == self.pos,
            r.time == time,
    {
        SpacetimeEvent { pos: self.pos, time }
    }

    /// Component-wise sum.
    pub fn add(self, rhs: SpacetimeEvent) -> (r: SpacetimeEvent)
        requires
            fits_i64(event_sum(self, rhs)),
        ensures
            components(r) == event_sum(self, rhs),
    {
        SpacetimeEvent {
            pos: Vec3 { x: self.pos.x + rhs.pos.x, y: self.pos.y + rhs.pos.y, z: self.pos.z + rhs.pos.z },
            time: self.time + rhs.time,
        }
    }

    /// Component-wise difference.
    pub fn sub(self, rhs: SpacetimeEvent) -> (r: SpacetimeEvent)
        requires
            fits_i64(event_diff(self, rhs)),
        ensures
            components(r) == event_diff(self, rhs),
    {
        SpacetimeEvent {
            pos: Vec3 { x: self.pos.x - rhs.pos.x, y: self.pos.y - rhs.pos.y, z: self.pos.z - rhs.pos.z },
            time: self.time - rhs.time,
        }
    }

    /// Adds `rhs` in place.
    pub fn add_assign(&mut self, rhs: SpacetimeEvent)
        requires
            fits_i64(event_sum(*old(self), rhs)),
        ensures
            components(*final(self)) == event_sum(*old(self), rhs),
    {
        *self = self.add(rhs);
    }

    /// Subtracts `rhs` in place.
    pub fn sub_assign(&mut self, rhs: SpacetimeEvent)
        requires
            fits_i64(event_diff(*old(self), rhs)),
        ensures
            components(*final(self)) == event_diff(*old(self), rhs),
    {
        *self = self.sub(rhs);
    }

    /// Squared spacetime interval `(c·Δt)² − |Δx|²` between `self` and `other`, exactly.
    pub fn spacetime_interval_squared(self, other: SpacetimeEvent, c: i64) -> (r: i128)
        requires
            self.bounded(),
            other.bounded(),
            in_limit(c as int),
        ensures
            r == interval(self, other, c as int),
    {
        let dt: i128 = self.time as i128 - other.time as i128;
        let dx: i128 = self.pos.x as i128 - other.pos.x as i128;
        let dy: i128 = self.pos.y as i128 - other.pos.y as i128;
        let dz: i128 = self.pos.z as i128 - other.pos.z as i128;
        proof {
            lemma_interval_terms(c as int, dt as int, dx as int, dy as int, dz as int);
        }
        let ct: i128 = c as i128 * dt;
        ct * ct - (dx * dx + dy * dy + dz * dz)
    }

    /// Classifies the separation between `self` and `other` at light speed `c`.
    pub fn get_separation(self, other: SpacetimeEvent, c: i64) -> (r: SpacetimeSeparation)
        requires
            self.bounded(),
            other.bounded(),
            in_limit(c as int),
        ensures
            r == separation_of(interval(self, other, c as int)),
    {
        let s = self.spacetime_interval_squared(other, c);
        if s > 0 {
            SpacetimeSeparation::Timelike
        } else if s < 0 {
            SpacetimeSeparation::Spacelike
        } else {
            SpacetimeSeparation::Null
        }
    }

    /// The light cone with its apex at this event.
    pub fn light_cone(self, c: i64) -> (r: LightCone)
        ensures
            r.origin == self,
            r.light_speed == c,
    {
        LightCone::new(self, c)
    }
}

/// Swapping two events leaves their interval, and so their separation, unchanged.
pub proof fn lemma_separation_symmetric(a: SpacetimeEvent, b: SpacetimeEvent, c: int)
    ensures
        interval(a, b, c) == interval(b, a, c),
        separation_of(interval(a, b, c)) == separation_of(interval(b, a, c)),
{
    let dt = a.time - b.time;
    assert((c * dt) * (c * dt) == (c * -dt) * (c * -dt)) by (nonlinear_arith);
    let dx = a.pos.x - b.pos.x;
    let dy = a.pos.y - b.pos.y;
    let dz = a.pos.z - b.pos.z;
    assert(dx * dx == (-dx) * (-dx)) by (nonlinear_arith);
    assert(dy * dy == (-dy) * (-dy)) by (nonlinear_arith);
    assert(dz * dz == (-dz) * (-dz)) by (nonlinear_arith);
}

/// Bounds on the terms of an interval between two bounded events.
proof fn lemma_interval_terms(c: int, dt: int, dx: int, dy: int, dz: int)
    requires
        in_limit(c),
        -2 * COORD_LIMIT <= dt <= 2 * COORD_LIMIT,
        -2 * COORD_LIMIT <= dx <= 2 * COORD_LIMIT,
        -2 * COORD_LIMIT <= dy <= 2 * COORD_LIMIT,
        -2 * COORD_LIMIT <= dz <= 2 * COORD_LIMIT,
    ensures
        -0x200_0000_0000 <= c * dt <= 0x200_0000_0000,
        0 <= (c * dt) * (c * dt) <= 0x4_0000_0000_0000_0000_0000,
        0 <= dx * dx <= 0x400_0000_0000,
        0 <= dy * dy <= 0x400_0000_0000,
        0 <= dz * dz <= 0x400_0000_0000,
{
    assert(-0x200_0000_0000 <= c * dt <= 0x200_0000_0000) by (nonlinear_arith)
        requires
            -1048576 <= c <= 1048576,
            -2097152 <= dt <= 2097152,
    ;
    let ct = c * dt;
    assert(0 <= ct * ct <= 0x4_0000_0000_0000_0000_0000) by (nonlinear_arith)
        requires
            -0x200_0000_0000 <= ct <= 0x200_0000_0000,
    ;
    assert(0 <= dx * dx <= 0x400_0000_0000) by (nonlinear_arith)
        requires
            -2097152 <= dx <= 2097152,
    ;
    assert(0 <= dy * dy <= 0x400_0000_0000) by (nonlinear_arith)
        requires
            -2097152 <= dy <= 2097152,
    ;
    assert(0 <= dz * dz <= 0x400_0000_0000) by (nonlinear_arith)
        requires
            -2097152 <= dz <= 2097152,
    ;
}

} // verus!
