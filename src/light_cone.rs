use vstd::prelude::*;

use crate::coordinate::{in_limit, interval, SpacetimeEvent, SpacetimeSeparation};

verus! {

/// The light cone with its apex at `origin`, for signals at `light_speed`.
#[derive(Clone, Copy, Debug, PartialEq, Eq, Structural)]
pub struct LightCone {
    pub origin: SpacetimeEvent,
    pub light_speed: i64,
}

/// `event` lies strictly inside the past cone of `origin`: earlier, and timelike separated.
pub open spec fn in_past_cone(origin: SpacetimeEvent, c: int, event: SpacetimeEvent) -> bool {
    event.time < origin.time && interval(event, origin, c) > 0
}

/// `event` lies strictly inside the future cone of `origin`: later, and timelike separated.
pub open spec fn in_future_cone(origin: SpacetimeEvent, c: int, event: SpacetimeEvent) -> bool {
    event.time > origin.time && interval(event, origin, c) > 0
}

impl LightCone {
    /// Whether the cone's apex and speed lie within the coordinate limit.
    pub open spec fn bounded(self) -> bool {
        self.origin.bounded() && in_limit(self.light_speed as int)
    }

    pub fn new(origin: SpacetimeEvent, light_speed: i64) -> (r: LightCone)
        ensures
            r.origin == origin,
            r.light_speed == light_speed,
    {
        LightCone { origin, light_speed }
    }

    /// Whether `event` lies strictly inside the future half of the cone.
    pub fn future_contains(self, event: SpacetimeEvent) -> (r: bool)
        requires
            self.bounded(),
            event.bounded(),
        ensures
            r == in_future_cone(self.origin, self.light_speed as int, event),
    {
        event.time > self.origin.time && event.get_separation(self.origin, self.light_speed)
            == SpacetimeSeparation::Timelike
    }

    /// Whether `event` lies strictly inside the past half of the cone.
    pub fn past_contains(self, event: SpacetimeEvent) -> (r: bool)
        requires
            self.bounded(),
            event.bounded(),
        ensures
            r == in_past_cone(self.origin, self.light_speed as int, event),
    {
        event.time < self.origin.time && event.get_separation(self.origin, self.light_speed)
            == SpacetimeSeparation::Timelike
    }

    /// Whether `event` is timelike separated from the apex, in either time direction.
    pub fn contains(self, event: SpacetimeEvent) -> (r: bool)
        requires
            self.bounded(),
            event.bounded(),
        ensures
            r == (interval(event, self.origin, self.light_speed as int) > 0),
    {
        event.get_separation(self.origin, self.light_speed) == SpacetimeSeparation::Timelike
    }
}

} // verus!
