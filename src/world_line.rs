use vstd::prelude::*;

use nonempty::NonEmpty;

use crate::coordinate::{in_limit, interval, SpacetimeEvent, Vec3, COORD_LIMIT};
use crate::intersection::{
    calc_intersection_time, is_crossing_time, is_point_at, is_surd,
    lemma_crossing_after_start, lemma_crossing_exists_inside_past_cone, lemma_crossing_not_in_future,
    lemma_crossing_on_light_cone, numerator_at, point_at, scaled_interval_at, SurdEvent,
};
use crate::light_cone::in_past_cone;
use crate::boost::is_boost_of;
use crate::intersection::{lemma_mul_bound, Surd};
use crate::simultaneity::{
    calc_slice_time, frame_time, frame_time_numerator, is_slice_proper_time,
    lemma_slice_point_simultaneous, slice_proper_time, slice_time,
};
use crate::velocity::{is_composition_of, velocity_to_new_rf, SurdVec3};

verus! {

#[verifier::external_type_specification]
#[verifier::external_body]
#[verifier::reject_recursive_types(T)]
pub struct ExNonEmpty<T>(NonEmpty<T>);

/// The samples that a non-empty list holds, oldest first.
pub uninterp spec fn samples_of(l: NonEmpty<WorldLineEvent>) -> Seq<WorldLineEvent>;

/// Relies on `NonEmpty::new`: the new list holds `e` alone.
#[verifier::external_body]
fn singleton(e: WorldLineEvent) -> (r: NonEmpty<WorldLineEvent>)
    ensures
        samples_of(r) == seq![e],
{
    NonEmpty::new(e)
}

/// Relies on `NonEmpty::push`: `e` is appended after the last item.
#[verifier::external_body]
fn push_sample(l: &mut NonEmpty<WorldLineEvent>, e: WorldLineEvent)
    ensures
        samples_of(*final(l)) == samples_of(*old(l)).push(e),
{
    l.push(e)
}

/// Relies on `NonEmpty::len`: the number of items, which is never zero.
#[verifier::external_body]
fn sample_count(l: &NonEmpty<WorldLineEvent>) -> (r: usize)
    ensures
        r == samples_of(*l).len(),
        r >= 1,
{
    l.len()
}

/// Relies on `NonEmpty::get`: the item at index `i`, or `None` past the end.
#[verifier::external_body]
fn sample_at(l: &NonEmpty<WorldLineEvent>, i: usize) -> (r: Option<WorldLineEvent>)
    ensures
        i < samples_of(*l).len() ==> r == Some(samples_of(*l)[i as int]),
        i >= samples_of(*l).len() ==> r is None,
{
    l.get(i).copied()
}

/// A kink of an object's trajectory: from `coord` on, until the next sample, the object moves
/// inertially at `velocity`.
#[derive(Clone, Copy, Debug, PartialEq, Eq, Structural)]
pub struct WorldLineEvent {
    /// Spacetime coordinate of the object, in the world line's frame.
    pub coord: SpacetimeEvent,
    /// Velocity of the object, in the world line's frame.
    pub velocity: Vec3,
    /// Proper time of the object when this sample was taken.
    pub object_proper_time: i64,
}

impl WorldLineEvent {
    /// Coordinates, velocity and proper time lie within the coordinate limit; proper time is not
    /// negative.
    pub open spec fn valid(self) -> bool {
        self.coord.bounded() && self.velocity.bounded() && 0 <= self.object_proper_time
            <= COORD_LIMIT
    }
}

/// Whether `s` is a well-formed history: valid samples, in non-decreasing order of coordinate
/// time and of proper time.
pub open spec fn valid_history(s: Seq<WorldLineEvent>) -> bool {
    &&& s.len() > 0
    &&& forall|i: int| 0 <= i < s.len() ==> #[trigger] s[i].valid()
    &&& forall|i: int|
        0 < i < s.len() ==> s[i - 1].coord.time <= #[trigger] s[i].coord.time
            && s[i - 1].object_proper_time <= s[i].object_proper_time
}

/// Whether `s[k]` ends the leading run of samples inside the past light cone of `origin`:
/// every sample up to `k` is inside, and the next one, if any, is not.
pub open spec fn ends_visible_run(
    s: Seq<WorldLineEvent>,
    origin: SpacetimeEvent,
    c: int,
    k: int,
) -> bool {
    &&& 0 <= k < s.len()
    &&& forall|j: int| 0 <= j <= k ==> in_past_cone(origin, c, #[trigger] s[j].coord)
    &&& k + 1 < s.len() ==> !in_past_cone(origin, c, s[k + 1].coord)
}

/// Whether `e` is not later than `origin` in the frame that moves at `u`.
///
/// The time of `e − origin` in that frame is `γ·(Δt − u·Δx/c²)` with `γ > 0`, so its sign is
/// the sign of `c²·Δt − u·Δx`.
pub open spec fn not_later_in_frame(
    origin: SpacetimeEvent,
    u: Vec3,
    c: int,
    e: SpacetimeEvent,
) -> bool {
    frame_time_numerator(relative_to(e, origin), u, c) <= 0
}

/// `e` relative to `origin`: their component-wise difference.
pub open spec fn relative_to(e: SpacetimeEvent, origin: SpacetimeEvent) -> SpacetimeEvent {
    SpacetimeEvent {
        pos: Vec3 {
            x: (e.pos.x - origin.pos.x) as i64,
            y: (e.pos.y - origin.pos.y) as i64,
            z: (e.pos.z - origin.pos.z) as i64,
        },
        time: (e.time - origin.time) as i64,
    }
}

/// Whether `ve` is what an observer at `origin`, moving at `u`, sees of the segment that starts
/// at `sample`: the point where the segment's line meets the past light cone, relative to
/// `origin`; the velocity composed into the observer's frame; the start boosted into that
/// frame; and the world-line time from the start to the crossing.
///
/// The crossing is an event: which one it is does not depend on `u`. Its time order relative
/// to the observer's event is the same in every frame, since it lies on the light cone.
pub open spec fn sees_segment(
    origin: SpacetimeEvent,
    u: Vec3,
    c: int,
    sample: WorldLineEvent,
    ve: VisibleWorldLineEvent,
) -> bool {
    let cord = relative_to(sample.coord, origin);
    let t = ve.relative_coord.time;
    &&& ve.sample == sample
    &&& is_crossing_time(cord, sample.velocity, c, Ok(t))
    &&& is_point_at(cord, sample.velocity, t, ve.relative_coord)
    &&& is_composition_of(u, sample.velocity, c, ve.relative_velocity)
    &&& is_boost_of(cord, u, c, ve.sample_in_frame)
    &&& is_surd(
        ve.elapsed,
        t.rational - cord.time * t.denominator,
        t.root_coefficient as int,
        t.radicand as int,
        t.denominator as int,
    )
}

/// The object's proper time when the light that the observer sees left it, as a fraction
/// `(numerator, denominator)`, with `w_cross` put for the square root of the crossing's
/// radicand and `w_object` for `√(c² − |v|²)`: `τ₀ + Δt·√(c² − |v|²)/c` for the elapsed
/// world-line time `Δt`.
///
/// Proper time is invariant: this equals the observer-frame elapsed time divided by the
/// Lorentz factor of the velocity composed into the observer's frame.
pub open spec fn emission_proper_time_at(
    ve: VisibleWorldLineEvent,
    c: int,
    w_cross: int,
    w_object: int,
) -> (int, int) {
    let q = ve.elapsed.denominator as int;
    (ve.sample.object_proper_time * (c * q) + numerator_at(ve.elapsed, w_cross) * w_object, c * q)
}

/// The position at observer time zero, in the observer's frame, of the line through `start`
/// with velocity `vel`, both written over the radicand whose square root `w` stands for:
/// numerators over the returned denominator, `start − vel·start.time`.
pub open spec fn position_at_frame_zero(start: SurdEvent, vel: SurdVec3, w: int) -> (
    int,
    int,
    int,
    int,
) {
    let d1 = start.time.denominator as int;
    let d2 = vel.x.denominator as int;
    let t = numerator_at(start.time, w);
    (
        numerator_at(start.x, w) * d2 - numerator_at(vel.x, w) * t,
        numerator_at(start.y, w) * d2 - numerator_at(vel.y, w) * t,
        numerator_at(start.z, w) * d2 - numerator_at(vel.z, w) * t,
        d1 * d2,
    )
}

/// The event of a world line that an observer sees.
#[derive(Clone, Copy, Debug, PartialEq, Eq, Structural)]
pub struct VisibleWorldLineEvent {
    /// Where the light that reaches the observer left the object, relative to the observer's
    /// event, in the world line's frame.
    pub relative_coord: SurdEvent,
    /// The sample that starts the segment the light left from; it carries the object's velocity
    /// and its proper time at the start of the segment.
    pub sample: WorldLineEvent,
    /// The object's velocity in the observer's frame.
    pub relative_velocity: SurdVec3,
    /// The start of the segment relative to the observer's event, in the observer's frame.
    pub sample_in_frame: SurdEvent,
    /// World-line time from the start of the segment to the emission; see
    /// `emission_proper_time_at` for the proper time it gives.
    pub elapsed: Surd,
}

/// Whether `se` is the point of the segment that starts at `sample` that an observer at
/// `origin`, moving at `u`, deems simultaneous with its own event: where the segment's line
/// meets the observer's simultaneity slice, relative to `origin`; with the velocity composed
/// into the observer's frame, the start boosted into that frame, and the object's proper time
/// at that point.
pub open spec fn on_slice(
    origin: SpacetimeEvent,
    u: Vec3,
    c: int,
    sample: WorldLineEvent,
    se: SimultaneousWorldLineEvent,
) -> bool {
    let cord = relative_to(sample.coord, origin);
    let (p, q) = slice_time(cord, u, sample.velocity, c);
    &&& se.sample == sample
    &&& is_surd(se.relative_coord.time, p, 0, 0, q)
    &&& is_point_at(cord, sample.velocity, se.relative_coord.time, se.relative_coord)
    &&& is_composition_of(u, sample.velocity, c, se.relative_velocity)
    &&& is_boost_of(cord, u, c, se.sample_in_frame)
    &&& is_slice_proper_time(
        sample.object_proper_time as int,
        frame_time_numerator(cord, u, c),
        u,
        sample.velocity,
        c,
        se.proper_time,
    )
}

/// The event of a world line that an observer deems simultaneous with its own.
///
/// In the observer's frame the object is now at `position_at_frame_zero(sample_in_frame,
/// relative_velocity, √(c² − |u|²))`.
#[derive(Clone, Copy, Debug, PartialEq, Eq, Structural)]
pub struct SimultaneousWorldLineEvent {
    /// The simultaneous point of the object's world line, relative to the observer's event, in
    /// the world line's frame. Its coordinates are rational: no root part.
    pub relative_coord: SurdEvent,
    /// The sample that starts the segment the point lies on; it carries the object's velocity
    /// and its proper time at the start of the segment.
    pub sample: WorldLineEvent,
    /// The object's velocity in the observer's frame.
    pub relative_velocity: SurdVec3,
    /// The start of the segment relative to the observer's event, in the observer's frame.
    pub sample_in_frame: SurdEvent,
    /// The object's proper time at the simultaneous point.
    pub proper_time: Surd,
}

/// The history of one object: a non-empty, append-only sequence of samples.
#[derive(Debug)]
pub struct WorldLine {
    events: NonEmpty<WorldLineEvent>,
}

impl Clone for WorldLine {
    /// A copy with the same samples, rebuilt one sample at a time.
    fn clone(&self) -> (r: Self)
        ensures
            r@ == self@,
    {
        let n = sample_count(&self.events);
        let first = match sample_at(&self.events, 0) {
            Some(e) => e,
            None => vstd::pervasive::unreached(),
        };
        let mut events = singleton(first);
        let mut i: usize = 1;
        while i < n
            invariant
                n == self@.len(),
                1 <= i <= n,
                samples_of(events) == self@.subrange(0, i as int),
            decreases n - i,
        {
            if let Some(e) = sample_at(&self.events, i) {
                push_sample(&mut events, e);
            }
            assert(self@.subrange(0, i as int + 1) == self@.subrange(0, i as int).push(self@[i as int]));
            i = i + 1;
        }
        assert(self@.subrange(0, n as int) == self@);
        WorldLine { events }
    }
}

impl View for WorldLine {
    type V = Seq<WorldLineEvent>;

    closed spec fn view(&self) -> Seq<WorldLineEvent> {
        samples_of(self.events)
    }
}

impl WorldLine {
    pub open spec fn wf(&self) -> bool {
        valid_history(self@)
    }

    /// A world line that starts with `init_event`.
    pub fn new(init_event: WorldLineEvent) -> (r: WorldLine)
        requires
            init_event.valid(),
        ensures
            r@ == seq![init_event],
            r.wf(),
    {
        WorldLine { events: singleton(init_event) }
    }

    /// Records a new sample, taken when the object's velocity changed.
    pub fn push(&mut self, event: WorldLineEvent)
        requires
            old(self).wf(),
            event.valid(),
            old(self)@.last().coord.time <= event.coord.time,
            old(self)@.last().object_proper_time <= event.object_proper_time,
        ensures
            final(self)@ == old(self)@.push(event),
            final(self).wf(),
    {
        push_sample(&mut self.events, event);
        let ghost s = self@;
        assert forall|i: int| 0 < i < s.len() implies s[i - 1].coord.time <= #[trigger] s[i].coord.time
            && s[i - 1].object_proper_time <= s[i].object_proper_time by {
            if i < s.len() - 1 {
                assert(s[i] == old(self)@[i]);
                assert(s[i - 1] == old(self)@[i - 1]);
            }
        }
        assert forall|i: int| 0 <= i < s.len() implies #[trigger] s[i].valid() by {
            if i < s.len() - 1 {
                assert(s[i] == old(self)@[i]);
            }
        }
    }

    /// Number of samples recorded.
    pub fn len(&self) -> (r: usize)
        ensures
            r == self@.len(),
            r >= 1,
    {
        sample_count(&self.events)
    }

    /// The sample at index `i`, oldest first.
    pub fn get(&self, i: usize) -> (r: Option<WorldLineEvent>)
        ensures
            i < self@.len() ==> r == Some(self@[i as int]),
            i >= self@.len() ==> r is None,
    {
        sample_at(&self.events, i)
    }

    /// The most recent sample that is not later than `event_position` in the frame that moves
    /// at `rf_velocity`; `None` when every sample is later.
    pub fn find_last_event(&self, event_position: SpacetimeEvent, rf_velocity: Vec3, c: i64) -> (r:
        Option<WorldLineEvent>)
        requires
            self.wf(),
            event_position.bounded(),
            rf_velocity.bounded(),
            0 < c <= COORD_LIMIT,
            rf_velocity.norm_sq() < c * c,
        ensures
            r is None <==> forall|k: int|
                0 <= k < self@.len() ==> !not_later_in_frame(
                    event_position,
                    rf_velocity,
                    c as int,
                    #[trigger] self@[k].coord,
                ),
            r matches Some(e) ==> exists|k: int|
                0 <= k < self@.len() && self@[k] == e && not_later_in_frame(
                    event_position,
                    rf_velocity,
                    c as int,
                    self@[k].coord,
                ) && forall|j: int|
                    k < j < self@.len() ==> !not_later_in_frame(
                        event_position,
                        rf_velocity,
                        c as int,
                        #[trigger] self@[j].coord,
                    ),
    {
        let n = sample_count(&self.events);
        let mut i: usize = n;
        while i > 0
            invariant
                self.wf(),
                event_position.bounded(),
                rf_velocity.bounded(),
                0 < c <= COORD_LIMIT,
                n == self@.len(),
                i <= n,
                forall|j: int|
                    i <= j < n ==> !not_later_in_frame(
                        event_position,
                        rf_velocity,
                        c as int,
                        #[trigger] self@[j].coord,
                    ),
            decreases i,
        {
            let k: usize = i - 1;
            if let Some(e) = sample_at(&self.events, k) {
                assert(self@[k as int].valid());
                let cord = e.coord.sub(event_position);
                assert(cord == relative_to(e.coord, event_position));
                if frame_time(cord, rf_velocity, c) <= 0 {
                    return Some(e);
                }
            }
            i = k;
        }
        None
    }

    /// The last sample of the leading run of samples inside the past light cone of
    /// `event_position`: the segment that starts there is the one that crosses the cone.
    /// `None` when even the first sample lies outside, so that nothing of the object can be
    /// seen yet.
    pub fn find_last_visible_event(&self, event_position: SpacetimeEvent, c: i64) -> (r: Option<
        WorldLineEvent,
    >)
        requires
            self.wf(),
            event_position.bounded(),
            in_limit(c as int),
        ensures
            r is None <==> !in_past_cone(event_position, c as int, self@[0].coord),
            r matches Some(e) ==> exists|k: int|
                ends_visible_run(self@, event_position, c as int, k) && self@[k] == e,
    {
        let n = sample_count(&self.events);
        let cone = event_position.light_cone(c);
        let first = match sample_at(&self.events, 0) {
            Some(e) => e,
            None => return None,
        };
        assert(self@[0].valid());
        if !cone.past_contains(first.coord) {
            return None;
        }
        let mut i: usize = 1;
        let mut stopped = false;
        while i < n && !stopped
            invariant
                self.wf(),
                cone.origin == event_position,
                cone.light_speed == c,
                cone.bounded(),
                n == self@.len(),
                1 <= i <= n,
                forall|j: int| 0 <= j < i ==> in_past_cone(event_position, c as int, #[trigger] self@[j].coord),
                stopped ==> i < n && !in_past_cone(event_position, c as int, self@[i as int].coord),
            decreases n - i + (if stopped { 0int } else { 1int }),
        {
            match sample_at(&self.events, i) {
                Some(next) => {
                    assert(self@[i as int].valid());
                    if cone.past_contains(next.coord) {
                        i = i + 1;
                    } else {
                        stopped = true;
                    }
                },
                None => {
                    i = n;
                },
            }
        }
        assert(ends_visible_run(self@, event_position, c as int, i - 1));
        sample_at(&self.events, i - 1)
    }

    /// Where the object is now by the clock of an observer at `event_position` moving at
    /// `rf_velocity`: the point, on the segment that starts at the last sample not later than
    /// the observer's event in its frame, that lies on the observer's simultaneity slice.
    /// `None` when every sample is later, so that the object does not exist yet for the
    /// observer.
    pub fn get_current_event(&self, event_position: SpacetimeEvent, rf_velocity: Vec3, c: i64) -> (r:
        Option<SimultaneousWorldLineEvent>)
        requires
            self.wf(),
            event_position.bounded(),
            rf_velocity.bounded(),
            0 < c <= COORD_LIMIT,
            rf_velocity.norm_sq() < c * c,
            forall|k: int| 0 <= k < self@.len() ==> #[trigger] self@[k].velocity.norm_sq() < c * c,
        ensures
            r is None <==> forall|k: int|
                0 <= k < self@.len() ==> !not_later_in_frame(
                    event_position,
                    rf_velocity,
                    c as int,
                    #[trigger] self@[k].coord,
                ),
            r matches Some(se) ==> exists|k: int|
                0 <= k < self@.len() && not_later_in_frame(
                    event_position,
                    rf_velocity,
                    c as int,
                    self@[k].coord,
                ) && (forall|j: int|
                    k < j < self@.len() ==> !not_later_in_frame(
                        event_position,
                        rf_velocity,
                        c as int,
                        #[trigger] self@[j].coord,
                    )) && on_slice(event_position, rf_velocity, c as int, self@[k], se),
            r matches Some(se) ==> se.proper_time.denominator > 0 && se.proper_time.root_coefficient
                >= 0 && se.proper_time.rational == se.sample.object_proper_time
                * se.proper_time.denominator,
    {
        let last = match self.find_last_event(event_position, rf_velocity, c) {
            Some(e) => e,
            None => return None,
        };
        let ghost k = choose|k: int|
            0 <= k < self@.len() && self@[k] == last && not_later_in_frame(
                event_position,
                rf_velocity,
                c as int,
                self@[k].coord,
            ) && forall|j: int|
                k < j < self@.len() ==> !not_later_in_frame(
                    event_position,
                    rf_velocity,
                    c as int,
                    #[trigger] self@[j].coord,
                );
        assert(self@[k].valid());
        assert(self@[k].velocity.norm_sq() < c * c);
        let cord = last.coord.sub(event_position);
        assert(cord == relative_to(last.coord, event_position));
        let t = calc_slice_time(cord, rf_velocity, last.velocity, c);
        let relative_coord = point_at(cord, last.velocity, t);
        let n = frame_time(cord, rf_velocity, c);
        let relative_velocity = velocity_to_new_rf(rf_velocity, last.velocity, c);
        let sample_in_frame = cord.to_reference_frame(rf_velocity, c);
        let proper_time = slice_proper_time(last.object_proper_time, n, rf_velocity, last.velocity, c);
        Some(SimultaneousWorldLineEvent {
            relative_coord,
            sample: last,
            relative_velocity,
            sample_in_frame,
            proper_time,
        })
    }

    /// What an observer at `event_position` sees of the object: the point where the segment
    /// that starts at the last visible sample meets the observer's past light cone.
    ///
    /// `None` when the first sample lies outside the past light cone, so that nothing of the
    /// object can be seen yet. The last visible sample lies strictly inside the cone, so its
    /// segment always crosses it: the solver's anomalies cannot arise here.
    pub fn get_visible_event(&self, event_position: SpacetimeEvent, rf_velocity: Vec3, c: i64) -> (r:
        Option<VisibleWorldLineEvent>)
        requires
            self.wf(),
            event_position.bounded(),
            rf_velocity.bounded(),
            0 < c <= COORD_LIMIT,
            rf_velocity.norm_sq() < c * c,
            forall|k: int| 0 <= k < self@.len() ==> #[trigger] self@[k].velocity.norm_sq() < c * c,
        ensures
            r is None <==> !in_past_cone(event_position, c as int, self@[0].coord),
            r matches Some(ve) ==> exists|k: int|
                ends_visible_run(self@, event_position, c as int, k) && sees_segment(
                    event_position,
                    rf_velocity,
                    c as int,
                    self@[k],
                    ve,
                ),
    {
        let last = match self.find_last_visible_event(event_position, c) {
            Some(e) => e,
            None => return None,
        };
        let ghost k = choose|k: int| ends_visible_run(self@, event_position, c as int, k) && self@[k] == last;
        assert(self@[k].valid());
        assert(self@[k].velocity.norm_sq() < c * c);
        let cord = last.coord.sub(event_position);
        assert(cord == relative_to(last.coord, event_position));
        let crossing = calc_intersection_time(cord, last.velocity, c);
        proof {
            lemma_crossing_exists_inside_past_cone(cord, last.velocity, c as int, crossing);
        }
        match crossing {
            Ok(t) => {
                let relative_coord = point_at(cord, last.velocity, t);
                let relative_velocity = velocity_to_new_rf(rf_velocity, last.velocity, c);
                let sample_in_frame = cord.to_reference_frame(rf_velocity, c);
                proof {
                    lemma_mul_bound(cord.time as int, t.denominator as int, 0x20_0000, 0x1_0000_0000_0000_0000);
                }
                let elapsed = Surd {
                    rational: t.rational - cord.time as i128 * t.denominator,
                    root_coefficient: t.root_coefficient,
                    radicand: t.radicand,
                    denominator: t.denominator,
                };
                Some(VisibleWorldLineEvent {
                    relative_coord,
                    sample: last,
                    relative_velocity,
                    sample_in_frame,
                    elapsed,
                })
            },
            Err(_) => None,
        }
    }
}

/// What an observer sees lies on its past light cone: with `w` put for the square root of the
/// radicand, the relative coordinate `(t, x)` satisfies `(c·t)² − |x|² = 0` and `t ≤ 0`, in
/// numerators over a positive common denominator.
pub proof fn lemma_visible_event_on_past_light_cone(
    origin: SpacetimeEvent,
    u: Vec3,
    c: int,
    sample: WorldLineEvent,
    ve: VisibleWorldLineEvent,
    w: int,
)
    requires
        sees_segment(origin, u, c, sample, ve),
        w >= 0,
        w * w == ve.relative_coord.time.radicand,
    ensures
        scaled_interval_at(ve.relative_coord, c, w) == 0,
        ve.relative_coord.time.denominator > 0,
        numerator_at(ve.relative_coord.time, w) <= 0,
{
    let cord = relative_to(sample.coord, origin);
    lemma_crossing_on_light_cone(cord, sample.velocity, c, ve.relative_coord.time, ve.relative_coord, w);
    lemma_crossing_not_in_future(cord, sample.velocity, c, ve.relative_coord.time, w);
}

/// The light that an observer sees left the object strictly after the start of its segment,
/// so the proper time at emission is never below the sample's: with `w_cross` put for the
/// square root of the crossing's radicand and `w_object` for `√(c² − |v|²)`, the elapsed
/// world-line time is positive and `emission_proper_time_at` is at least `τ₀`.
pub proof fn lemma_emission_after_segment_start(
    origin: SpacetimeEvent,
    u: Vec3,
    c: int,
    sample: WorldLineEvent,
    ve: VisibleWorldLineEvent,
    w_cross: int,
    w_object: int,
)
    requires
        origin.bounded(),
        sample.valid(),
        c > 0,
        in_past_cone(origin, c, sample.coord),
        sees_segment(origin, u, c, sample, ve),
        w_cross >= 0,
        w_cross * w_cross == ve.elapsed.radicand,
        w_object >= 0,
    ensures
        numerator_at(ve.elapsed, w_cross) > 0,
        emission_proper_time_at(ve, c, w_cross, w_object).1 > 0,
        emission_proper_time_at(ve, c, w_cross, w_object).0 >= sample.object_proper_time
            * emission_proper_time_at(ve, c, w_cross, w_object).1,
{
    let cord = relative_to(sample.coord, origin);
    let t = ve.relative_coord.time;
    assert(interval(sample.coord, origin, c) == (c * cord.time) * (c * cord.time)
        - cord.pos.norm_sq());
    lemma_crossing_after_start(cord, sample.velocity, c, t, w_cross);
    let n = numerator_at(ve.elapsed, w_cross);
    let q = ve.elapsed.denominator as int;
    assert(n == numerator_at(t, w_cross) - cord.time * t.denominator);
    assert(c * q > 0) by (nonlinear_arith)
        requires
            c > 0,
            q > 0,
    ;
    assert(n * w_object >= 0) by (nonlinear_arith)
        requires
            n > 0,
            w_object >= 0,
    ;
}

/// What an observer deems simultaneous lies on its simultaneity slice: the relative
/// coordinate `(t, x)` satisfies `c²·t − u·x = 0`, in numerators over the common denominator.
pub proof fn lemma_current_event_simultaneous(
    origin: SpacetimeEvent,
    u: Vec3,
    c: int,
    sample: WorldLineEvent,
    se: SimultaneousWorldLineEvent,
)
    requires
        on_slice(origin, u, c, sample, se),
    ensures
        c * c * se.relative_coord.time.rational - (u.x * se.relative_coord.x.rational + u.y
            * se.relative_coord.y.rational + u.z * se.relative_coord.z.rational) == 0,
{
    let cord = relative_to(sample.coord, origin);
    let v = sample.velocity;
    let (p, q) = slice_time(cord, u, v, c);
    lemma_slice_point_simultaneous(
        cord,
        u,
        v,
        c,
        (
            q * (cord.pos.x - v.x * cord.time) + v.x * p,
            q * (cord.pos.y - v.y * cord.time) + v.y * p,
            q * (cord.pos.z - v.z * cord.time) + v.z * p,
        ),
    );
}

} // verus!
