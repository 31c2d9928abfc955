use vstd::prelude::*;

verus! {

/// Largest value accepted for any bound of a [`Config`].
pub const SPAN_LIMIT: i64 = 1_099_511_627_776;

/// Largest magnitude a coordinate may reach; a tick that would carry a body
/// further fails instead.
pub const COORD_LIMIT: i64 = 1_152_921_504_606_846_976;

/// Micro-units in one length unit.
pub const LENGTH_SCALE: i64 = 1_000_000;

/// Milli-units in one time unit.
pub const TIME_SCALE: u64 = 1_000;

/// The canonical timestep: 0.015 time units.
pub const STANDARD_DT: u64 = 15;

/// What happens to a body whose collision counter passes the limit.
#[derive(Clone, Copy, Debug, PartialEq, Eq, Structural)]
pub enum Policy {
    /// The body is removed and a fresh random body takes its place.
    Replace,
    /// The crossing is only tallied; the body stays and keeps counting.
    CountOnly,
}

/// Bounds of the simulated world and the death policy.
#[derive(Clone, Copy, Debug, PartialEq, Eq, Structural)]
pub struct Config {
    /// Side of the square box `[0, max_position]²`, in micro-units.
    pub max_position: i64,
    /// Largest velocity component of a fresh body.
    pub max_speed: i64,
    /// Largest radius of a fresh body, in micro-units.
    pub max_collider: i64,
    pub policy: Policy,
}

impl Config {
    pub open spec fn valid(self) -> bool {
        &&& 0 < self.max_position <= SPAN_LIMIT
        &&& 0 <= self.max_speed <= SPAN_LIMIT
        &&& 0 < self.max_collider <= SPAN_LIMIT
    }

    /// The standard world: a box of side 100, speeds up to 10 per time unit,
    /// radii up to 1, and the replace policy.
    pub open spec fn spec_standard() -> Config {
        Config {
            max_position: 100_000_000,
            max_speed: 10_000,
            max_collider: LENGTH_SCALE,
            policy: Policy::Replace,
        }
    }

    #[verifier::when_used_as_spec(spec_standard)]
    pub fn standard() -> (c: Config)
        ensures
            c == Config::spec_standard(),
            c.valid(),
            c.max_speed * TIME_SCALE == 10 * LENGTH_SCALE,
    {
        Config {
            max_position: 100 * LENGTH_SCALE,
            max_speed: 10 * LENGTH_SCALE / (TIME_SCALE as i64),
            max_collider: LENGTH_SCALE,
            policy: Policy::Replace,
        }
    }

    /// Checks the bounds against the limits of the model.
    pub fn is_valid(&self) -> (r: bool)
        ensures
            r == self.valid(),
    {
        0 < self.max_position && self.max_position <= SPAN_LIMIT && 0 <= self.max_speed
            && self.max_speed <= SPAN_LIMIT && 0 < self.max_collider && self.max_collider
            <= SPAN_LIMIT
    }
}

} // verus!
