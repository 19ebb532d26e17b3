//! Component records attached to entities.
//!
//! All quantities are fixed-point integers: lengths in a length unit chosen by
//! the caller, velocities in length units per time unit, masses in a mass unit,
//! and restitution in thousandths (`RESTITUTION_ONE` is a perfectly elastic
//! bounce).
use vstd::prelude::*;

verus! {

/// Restitution of a perfectly elastic body, in thousandths.
pub const RESTITUTION_ONE: i64 = 1000;

/// Largest radius a ball may have.
pub const MAX_RADIUS: i64 = 0x100_0000;

/// Largest mass a ball may have.
pub const MAX_MASS: i64 = 0x10_0000;

/// Bound on coordinates, velocity components and table sides for a tick to
/// be computed without leaving the representable range.
pub const LIMIT: i64 = 0x1_0000_0000;

/// Bound on coordinates after one integration step from within `LIMIT`:
/// `LIMIT * (MAX_DT + 1)`.
pub const REACH: i64 = 0x10_0001_0000_0000;

/// Largest tick duration, in time units.
pub const MAX_DT: u64 = 0x10_0000;

/// Largest number of entities a world may hold.
pub const MAX_ENTITIES: usize = 4096;

/// Where a body is.
#[derive(Clone, Copy, Debug, PartialEq, Eq, Structural)]
pub struct Position {
    pub x: i64,
    pub y: i64,
}

/// How fast a body moves, per time unit.
#[derive(Clone, Copy, Debug, PartialEq, Eq, Structural)]
pub struct Velocity {
    pub x: i64,
    pub y: i64,
}

/// Physical descriptor of a ball.
#[derive(Clone, Copy, Debug, PartialEq, Eq, Structural)]
pub struct Ball {
    pub radius: i64,
    pub mass: i64,
    /// In thousandths: `RESTITUTION_ONE` is fully elastic, 0 fully inelastic.
    pub restitution: i64,
}

/// The rectangle `[0, width] x [0, height]` that holds the balls.
#[derive(Clone, Copy, Debug, PartialEq, Eq, Structural)]
pub struct Table {
    pub width: i64,
    pub height: i64,
}

impl Ball {
    pub open spec fn wf(self) -> bool {
        &&& 0 < self.radius <= MAX_RADIUS
        &&& 0 < self.mass <= MAX_MASS
        &&& 0 <= self.restitution <= RESTITUTION_ONE
    }
}

impl Table {
    pub open spec fn wf(self) -> bool {
        &&& 0 < self.width <= LIMIT
        &&& 0 < self.height <= LIMIT
    }
}

impl Position {
    pub open spec fn within(self, bound: int) -> bool {
        -bound <= self.x <= bound && -bound <= self.y <= bound
    }

    pub open spec fn in_range(self) -> bool {
        self.within(LIMIT as int)
    }
}

impl Velocity {
    pub open spec fn within(self, bound: int) -> bool {
        -bound <= self.x <= bound && -bound <= self.y <= bound
    }

    pub open spec fn in_range(self) -> bool {
        self.within(LIMIT as int)
    }
}

} // verus!
