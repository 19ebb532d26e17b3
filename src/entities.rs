//! Building the table and the balls of a simulation from its parameters.
use vstd::prelude::*;
use crate::components::{Ball, MAX_ENTITIES, Position, Table, Velocity};
use crate::config::{Config, CUE_SPEED_FACTOR};
use crate::world::{Entity, World, WorldModel};

verus! {

impl WorldModel {
    /// `self` with one more entity that holds the given components.
    pub open spec fn with_entity(
        self,
        p: Option<Position>,
        v: Option<Velocity>,
        b: Option<Ball>,
        t: Option<Table>,
    ) -> WorldModel {
        WorldModel {
            positions: self.positions.push(p),
            velocities: self.velocities.push(v),
            balls: self.balls.push(b),
            tables: self.tables.push(t),
        }
    }
}

/// The cue ball's starting velocity.
pub open spec fn cue_velocity(config: &Config) -> Velocity {
    Velocity {
        x: (config.cue_ball.vx * CUE_SPEED_FACTOR) as i64,
        y: (config.cue_ball.vy * CUE_SPEED_FACTOR) as i64,
    }
}

/// The world after adding one object ball for each of the first `n`
/// configured positions.
pub open spec fn with_object_balls(m: WorldModel, config: &Config, n: int) -> WorldModel
    decreases n,
{
    if n <= 0 {
        m
    } else {
        let p = config.object_balls.positions@[n - 1];
        with_object_balls(m, config, n - 1).with_entity(
            Some(Position { x: p.x, y: p.y }),
            Some(Velocity { x: 0, y: 0 }),
            Some(config.ball.ball()),
            None,
        )
    }
}

/// Adds the table: an entity holding only a `Table`.
pub fn create_table(world: &mut World, config: &Config) -> (e: Entity)
    requires
        old(world).wf(),
        old(world)@.len() < MAX_ENTITIES,
        config.valid(),
    ensures
        final(world).wf(),
        e.id == old(world)@.len(),
        final(world)@ == old(world)@.with_entity(None, None, None, Some(config.table.table())),
{
    let e = world.create_entity();
    world.set_table(e, Table { width: config.table.width, height: config.table.height });
    let ghost target = old(world)@.with_entity(None, None, None, Some(config.table.table()));
    assert(world@.positions =~= target.positions);
    assert(world@.velocities =~= target.velocities);
    assert(world@.balls =~= target.balls);
    assert(world@.tables =~= target.tables);
    assert(world@ == target);
    e
}

/// Adds the cue ball at its configured position, with its configured
/// velocity converted by `CUE_SPEED_FACTOR`.
pub fn create_cue_ball(world: &mut World, config: &Config) -> (e: Entity)
    requires
        old(world).wf(),
        old(world)@.len() < MAX_ENTITIES,
        config.valid(),
    ensures
        final(world).wf(),
        e.id == old(world)@.len(),
        final(world)@ == old(world)@.with_entity(
            Some(Position { x: config.cue_ball.x, y: config.cue_ball.y }),
            Some(cue_velocity(config)),
            Some(config.ball.ball()),
            None,
        ),
{
    let e = world.create_entity();
    world.set_position(e, Position { x: config.cue_ball.x, y: config.cue_ball.y });
    world.set_velocity(
        e,
        Velocity { x: config.cue_ball.vx * CUE_SPEED_FACTOR, y: config.cue_ball.vy * CUE_SPEED_FACTOR },
    );
    world.set_ball(
        e,
        Ball { radius: config.ball.radius, mass: config.ball.mass, restitution: config.ball.restitution },
    );
    let ghost target = old(world)@.with_entity(
        Some(Position { x: config.cue_ball.x, y: config.cue_ball.y }),
        Some(cue_velocity(config)),
        Some(config.ball.ball()),
        None,
    );
    assert(world@.positions =~= target.positions);
    assert(world@.velocities =~= target.velocities);
    assert(world@.balls =~= target.balls);
    assert(world@.tables =~= target.tables);
    assert(world@ == target);
    e
}

/// Adds one object ball, at rest, for each configured position, in order.
pub fn create_object_balls(world: &mut World, config: &Config) -> (es: Vec<Entity>)
    requires
        old(world).wf(),
        old(world)@.len() + config.object_balls.positions.len() <= MAX_ENTITIES,
        config.valid(),
    ensures
        final(world).wf(),
        es.len() == config.object_balls.positions.len(),
        forall|k: int| 0 <= k < es.len() ==> (#[trigger] es@[k]).id == old(world)@.len() + k,
        final(world)@ == with_object_balls(old(world)@, config, config.object_balls.positions.len() as int),
{
    let n = config.object_balls.positions.len();
    let mut es: Vec<Entity> = Vec::new();
    let mut i: usize = 0;
    while i < n
        invariant
            world.wf(),
            config.valid(),
            n == config.object_balls.positions.len(),
            old(world)@.len() + n <= MAX_ENTITIES,
            0 <= i <= n,
            es.len() == i,
            world@.len() == old(world)@.len() + i,
            forall|k: int| 0 <= k < es.len() ==> (#[trigger] es@[k]).id == old(world)@.len() + k,
            world@ == with_object_balls(old(world)@, config, i as int),
        decreases n - i,
    {
        let p = config.object_balls.positions[i];
        let ghost before = world@;
        let e = world.create_entity();
        world.set_position(e, Position { x: p.x, y: p.y });
        world.set_velocity(e, Velocity { x: 0, y: 0 });
        world.set_ball(
            e,
            Ball { radius: config.ball.radius, mass: config.ball.mass, restitution: config.ball.restitution },
        );
        let ghost target = before.with_entity(
            Some(Position { x: p.x, y: p.y }),
            Some(Velocity { x: 0, y: 0 }),
            Some(config.ball.ball()),
            None,
        );
        assert(world@.positions =~= target.positions);
        assert(world@.velocities =~= target.velocities);
        assert(world@.balls =~= target.balls);
        assert(world@.tables =~= target.tables);
        assert(world@ == target);
        es.push(e);
        i = i + 1;
    }
    es
}

} // verus!
