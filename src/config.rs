//! Simulation parameters, in the library's fixed-point units.
use vstd::prelude::*;
use crate::components::{Ball, LIMIT, MAX_DT, MAX_MASS, MAX_RADIUS, RESTITUTION_ONE, Table};

verus! {

/// Every parameter of a simulation.
pub struct Config {
    /// The tick duration, in time units.
    pub dt: u64,
    pub table: TableConfig,
    pub ball: BallConfig,
    pub cue_ball: CueBallConfig,
    pub object_balls: ObjectBallsConfig,
}

/// The table's sides.
#[derive(Clone, Copy, Debug, PartialEq, Eq, Structural)]
pub struct TableConfig {
    pub width: i64,
    pub height: i64,
}

/// The physical properties shared by every ball.
#[derive(Clone, Copy, Debug, PartialEq, Eq, Structural)]
pub struct BallConfig {
    pub radius: i64,
    pub mass: i64,
    /// In thousandths.
    pub restitution: i64,
}

/// Where the cue ball starts, and how fast: its velocity is given in units of
/// `CUE_SPEED_FACTOR` velocity units.
#[derive(Clone, Copy, Debug, PartialEq, Eq, Structural)]
pub struct CueBallConfig {
    pub x: i64,
    pub y: i64,
    pub vx: i64,
    pub vy: i64,
}

/// Where the object balls start; they start at rest.
pub struct ObjectBallsConfig {
    pub positions: Vec<PositionConfig>,
}

/// A starting point.
#[derive(Clone, Copy, Debug, PartialEq, Eq, Structural)]
pub struct PositionConfig {
    pub x: i64,
    pub y: i64,
}

/// How many velocity units one unit of the cue ball's configured velocity is.
pub const CUE_SPEED_FACTOR: i64 = 100;

impl TableConfig {
    pub open spec fn table(self) -> Table {
        Table { width: self.width, height: self.height }
    }
}

impl BallConfig {
    pub open spec fn ball(self) -> Ball {
        Ball { radius: self.radius, mass: self.mass, restitution: self.restitution }
    }
}

impl Config {
    /// The parameters describe a valid table and ball, a tick duration the
    /// integrator accepts, and a cue ball whose velocity can be represented.
    pub open spec fn valid(self) -> bool {
        &&& self.dt <= MAX_DT
        &&& self.table.table().wf()
        &&& self.ball.ball().wf()
        &&& -LIMIT <= self.cue_ball.vx * CUE_SPEED_FACTOR <= LIMIT
        &&& -LIMIT <= self.cue_ball.vy * CUE_SPEED_FACTOR <= LIMIT
    }

    /// Whether the parameters are `valid`.
    pub fn validate(&self) -> (r: bool)
        ensures
            r == self.valid(),
    {
        let lim = LIMIT / CUE_SPEED_FACTOR;
        self.dt <= MAX_DT
            && 0 < self.table.width && self.table.width <= LIMIT
            && 0 < self.table.height && self.table.height <= LIMIT
            && 0 < self.ball.radius && self.ball.radius <= MAX_RADIUS
            && 0 < self.ball.mass && self.ball.mass <= MAX_MASS
            && 0 <= self.ball.restitution && self.ball.restitution <= RESTITUTION_ONE
            && -lim <= self.cue_ball.vx && self.cue_ball.vx <= lim
            && -lim <= self.cue_ball.vy && self.cue_ball.vy <= lim
    }
}

} // verus!
