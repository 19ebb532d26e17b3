//! The step scheduler and the per-tick observation.
use vstd::prelude::*;
use crate::collision::CollisionSystem;
use crate::components::{LIMIT, MAX_DT, Position};
use crate::physics::{PhysicsSystem, TimeDelta};
use crate::world::{World, WorldModel};

verus! {

/// Reports where each ball is.
pub struct LoggingSystem;

impl WorldModel {
    /// One tick: integration, then collision resolution.
    pub open spec fn ticked(self, dt: int) -> WorldModel {
        self.integrated(dt).collided()
    }

    /// The world after `n` ticks.
    pub open spec fn ticked_n(self, dt: int, n: nat) -> WorldModel
        decreases n,
    {
        if n == 0 {
            self
        } else {
            self.ticked_n(dt, (n - 1) as nat).ticked(dt)
        }
    }

    /// The positions of the first `n` entities that hold both a position and
    /// a ball, in entity order.
    pub open spec fn observed(self, n: int) -> Seq<Position>
        decreases n,
    {
        if n <= 0 {
            Seq::empty()
        } else if self.positions[n - 1] is Some && self.balls[n - 1] is Some {
            self.observed(n - 1).push(self.positions[n - 1]->0)
        } else {
            self.observed(n - 1)
        }
    }
}

impl LoggingSystem {
    /// The position of every entity holding both a position and a ball, in
    /// entity order.
    pub fn run(&self, world: &World) -> (r: Vec<Position>)
        requires
            world.wf(),
        ensures
            r@ == world@.observed(world@.len()),
    {
        let n = world.positions.len();
        let mut r: Vec<Position> = Vec::new();
        let mut i: usize = 0;
        while i < n
            invariant
                world.wf(),
                n == world@.len(),
                0 <= i <= n,
                r@ == world@.observed(i as int),
            decreases n - i,
        {
            match (world.positions[i], world.balls[i]) {
                (Some(p), Some(_)) => r.push(p),
                _ => {},
            }
            i = i + 1;
        }
        r
    }
}

/// Whether every position and velocity of `world` lies within `LIMIT`, the
/// condition for a tick to be computed exactly.
pub fn in_range(world: &World) -> (r: bool)
    requires
        world.wf(),
    ensures
        r == world@.in_range(),
{
    let n = world.positions.len();
    let mut i: usize = 0;
    while i < n
        invariant
            world.wf(),
            n == world@.len(),
            0 <= i <= n,
            forall|k: int| 0 <= k < i && (#[trigger] world@.positions[k]) is Some
                ==> world@.positions[k]->0.in_range(),
            forall|k: int| 0 <= k < i && (#[trigger] world@.velocities[k]) is Some
                ==> world@.velocities[k]->0.in_range(),
        decreases n - i,
    {
        if let Some(p) = world.positions[i] {
            if p.x < -LIMIT || p.x > LIMIT || p.y < -LIMIT || p.y > LIMIT {
                return false;
            }
        }
        if let Some(v) = world.velocities[i] {
            if v.x < -LIMIT || v.x > LIMIT || v.y < -LIMIT || v.y > LIMIT {
                return false;
            }
        }
        i = i + 1;
    }
    true
}

/// One tick: the integrator, then the collision resolver.
pub fn tick(world: &mut World, time: &TimeDelta)
    requires
        old(world).wf(),
        old(world)@.in_range(),
        time.dt <= MAX_DT,
    ensures
        final(world).wf(),
        final(world)@ == old(world)@.ticked(time.dt as int),
{
    PhysicsSystem.run(world, time);
    CollisionSystem.run(world);
}

/// Runs up to `steps` ticks and returns the observation made after each one.
/// It stops early, before a tick, when the world has left the range within
/// which a tick is computed exactly; the number of observations is the
/// number of ticks run.
pub fn run_steps(world: &mut World, time: &TimeDelta, steps: usize) -> (trace: Vec<Vec<Position>>)
    requires
        old(world).wf(),
        time.dt <= MAX_DT,
    ensures
        final(world).wf(),
        trace.len() <= steps,
        final(world)@ == old(world)@.ticked_n(time.dt as int, trace.len() as nat),
        forall|t: int| 0 <= t < trace.len() ==> (#[trigger] trace@[t])@
            == old(world)@.ticked_n(time.dt as int, (t + 1) as nat).observed(old(world)@.len()),
        trace.len() < steps ==> !final(world)@.in_range(),
{
    let ghost start = world@;
    let mut trace: Vec<Vec<Position>> = Vec::new();
    let mut t: usize = 0;
    while t < steps
        invariant
            world.wf(),
            start == old(world)@,
            time.dt <= MAX_DT,
            0 <= t <= steps,
            trace.len() == t,
            world@ == start.ticked_n(time.dt as int, t as nat),
            world@.len() == start.len(),
            forall|q: int| 0 <= q < t ==> (#[trigger] trace@[q])@
                == start.ticked_n(time.dt as int, (q + 1) as nat).observed(start.len()),
        decreases steps - t,
    {
        if !in_range(world) {
            return trace;
        }
        tick(world, time);
        trace.push(LoggingSystem.run(world));
        t = t + 1;
    }
    trace
}

} // verus!
