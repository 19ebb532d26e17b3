//! The integrator: explicit first-order Euler, one evaluation per tick.
use vstd::prelude::*;
use crate::components::{LIMIT, MAX_DT, REACH, Position, Velocity};
use crate::world::{World, WorldModel};

verus! {

/// The fixed duration of one tick, in time units.
#[derive(Clone, Copy, Debug, PartialEq, Eq, Structural)]
pub struct TimeDelta {
    pub dt: u64,
}

/// Advances every entity holding a position and a velocity.
pub struct PhysicsSystem;

/// `p` moved by `v` for `dt` time units.
pub open spec fn moved(p: Position, v: Velocity, dt: int) -> Position {
    Position { x: (p.x + v.x * dt) as i64, y: (p.y + v.y * dt) as i64 }
}

impl WorldModel {
    /// The world after one integration step: each entity with both a position
    /// and a velocity is moved, everything else is kept.
    pub open spec fn integrated(self, dt: int) -> WorldModel {
        WorldModel {
            positions: Seq::new(
                self.positions.len(),
                |i: int|
                    if self.positions[i] is Some && self.velocities[i] is Some {
                        Some(moved(self.positions[i]->0, self.velocities[i]->0, dt))
                    } else {
                        self.positions[i]
                    },
            ),
            ..self
        }
    }
}

/// `p + v * dt` with the products and sums proved to fit.
fn step_position(p: Position, v: Velocity, dt: u64) -> (r: Position)
    requires
        p.in_range(),
        v.in_range(),
        dt <= MAX_DT,
    ensures
        r == moved(p, v, dt as int),
        r.x == p.x + v.x * dt,
        r.y == p.y + v.y * dt,
        r.within(REACH as int),
{
    let d = dt as i64;
    proof {
        assert(-LIMIT * MAX_DT <= v.x * d <= LIMIT * MAX_DT) by (nonlinear_arith)
            requires -LIMIT <= v.x <= LIMIT, 0 <= d <= MAX_DT;
        assert(-LIMIT * MAX_DT <= v.y * d <= LIMIT * MAX_DT) by (nonlinear_arith)
            requires -LIMIT <= v.y <= LIMIT, 0 <= d <= MAX_DT;
    }
    Position { x: p.x + v.x * d, y: p.y + v.y * d }
}

impl PhysicsSystem {
    /// Moves every entity that has both a position and a velocity by
    /// `velocity * dt`; nothing else changes.
    pub fn run(&self, world: &mut World, time: &TimeDelta)
        requires
            old(world).wf(),
            old(world)@.in_range(),
            time.dt <= MAX_DT,
        ensures
            final(world).wf(),
            final(world)@ == old(world)@.integrated(time.dt as int),
            final(world)@.within(REACH as int, LIMIT as int),
    {
        let n = world.positions.len();
        let ghost start = world@;
        let mut i: usize = 0;
        while i < n
            invariant
                start.wf(),
                start.in_range(),
                time.dt <= MAX_DT,
                n == start.len(),
                0 <= i <= n,
                world@.velocities == start.velocities,
                world@.balls == start.balls,
                world@.tables == start.tables,
                world@.positions.len() == n,
                forall|k: int| 0 <= k < i ==> #[trigger] world@.positions[k]
                    == start.integrated(time.dt as int).positions[k],
                forall|k: int| i <= k < n ==> #[trigger] world@.positions[k] == start.positions[k],
                forall|k: int| 0 <= k < n && (#[trigger] world@.positions[k]) is Some
                    ==> world@.positions[k]->0.within(REACH as int),
            decreases n - i,
        {
            match (world.positions[i], world.velocities[i]) {
                (Some(p), Some(v)) => {
                    let q = step_position(p, v, time.dt);
                    world.positions.set(i, Some(q));
                },
                _ => {},
            }
            i = i + 1;
        }
        assert(world@.positions =~= start.integrated(time.dt as int).positions);
        assert(world@ =~= start.integrated(time.dt as int));
    }
}

} // verus!
