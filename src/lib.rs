//! Special-relativistic kinematics on exact integer coordinates: the spacetime event algebra
//! and the Lorentz boost, relativistic velocity composition, the light-cone predicate, and
//! world lines queried for the events an observer sees or deems simultaneous. Results that
//! involve square roots are exact surds.
pub mod boost;
pub mod coordinate;
pub mod intersection;
pub mod light_cone;
pub mod simultaneity;
pub mod velocity;
pub mod world_line;

pub use coordinate::{SpacetimeEvent, SpacetimeSeparation, Vec3, COORD_LIMIT};
pub use intersection::{IntersectionAnomaly, Surd, SurdEvent};
pub use light_cone::LightCone;
pub use velocity::{velocity_to_new_rf, SurdVec3};
pub use world_line::{SimultaneousWorldLineEvent, VisibleWorldLineEvent, WorldLine, WorldLineEvent};
