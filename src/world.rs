//! The component store: entities are dense indices, and each component type
//! has one array indexed by entity, holding `None` where the entity lacks it.
use vstd::prelude::*;
use crate::components::{Ball, LIMIT, MAX_ENTITIES, Position, Table, Velocity};

verus! {

/// An opaque entity identifier.
#[derive(Clone, Copy, Debug, PartialEq, Eq, Structural)]
pub struct Entity {
    pub id: usize,
}

/// The store of every entity's components.
pub struct World {
    pub positions: Vec<Option<Position>>,
    pub velocities: Vec<Option<Velocity>>,
    pub balls: Vec<Option<Ball>>,
    pub tables: Vec<Option<Table>>,
}

/// What a world holds, as mathematical sequences indexed by entity.
pub ghost struct WorldModel {
    pub positions: Seq<Option<Position>>,
    pub velocities: Seq<Option<Velocity>>,
    pub balls: Seq<Option<Ball>>,
    pub tables: Seq<Option<Table>>,
}

impl WorldModel {
    pub open spec fn len(self) -> int {
        self.positions.len() as int
    }

    /// One slot per entity in every array, a bounded entity count, and only
    /// well-formed balls and tables.
    pub open spec fn wf(self) -> bool {
        &&& self.velocities.len() == self.positions.len()
        &&& self.balls.len() == self.positions.len()
        &&& self.tables.len() == self.positions.len()
        &&& self.positions.len() <= MAX_ENTITIES
        &&& forall|i: int| 0 <= i < self.len() && (#[trigger] self.balls[i]) is Some
            ==> self.balls[i]->0.wf()
        &&& forall|i: int| 0 <= i < self.len() && (#[trigger] self.tables[i]) is Some
            ==> self.tables[i]->0.wf()
    }

    /// Every position lies within `pos_bound` and every velocity within
    /// `vel_bound`, coordinate by coordinate.
    pub open spec fn within(self, pos_bound: int, vel_bound: int) -> bool {
        &&& forall|i: int| 0 <= i < self.len() && (#[trigger] self.positions[i]) is Some
            ==> self.positions[i]->0.within(pos_bound)
        &&& forall|i: int| 0 <= i < self.len() && (#[trigger] self.velocities[i]) is Some
            ==> self.velocities[i]->0.within(vel_bound)
    }

    /// Every position and velocity lies within `LIMIT`.
    pub open spec fn in_range(self) -> bool {
        self.within(LIMIT as int, LIMIT as int)
    }

    /// Entity `i` holds a position, a velocity and a ball.
    pub open spec fn is_ball(self, i: int) -> bool {
        &&& self.positions[i] is Some
        &&& self.velocities[i] is Some
        &&& self.balls[i] is Some
    }
}

impl View for World {
    type V = WorldModel;

    open spec fn view(&self) -> WorldModel {
        WorldModel {
            positions: self.positions@,
            velocities: self.velocities@,
            balls: self.balls@,
            tables: self.tables@,
        }
    }
}

impl World {
    pub open spec fn wf(&self) -> bool {
        self@.wf()
    }

    /// An empty world.
    pub fn new() -> (w: World)
        ensures
            w.wf(),
            w@.len() == 0,
    {
        World { positions: Vec::new(), velocities: Vec::new(), balls: Vec::new(), tables: Vec::new() }
    }

    /// The number of entities created so far.
    pub fn len(&self) -> (n: usize)
        requires
            self.wf(),
        ensures
            n == self@.len(),
    {
        self.positions.len()
    }

    /// Creates an entity with no components.
    pub fn create_entity(&mut self) -> (e: Entity)
        requires
            old(self).wf(),
            old(self)@.len() < MAX_ENTITIES,
        ensures
            final(self).wf(),
            e.id == old(self)@.len(),
            final(self)@.positions == old(self)@.positions.push(None),
            final(self)@.velocities == old(self)@.velocities.push(None),
            final(self)@.balls == old(self)@.balls.push(None),
            final(self)@.tables == old(self)@.tables.push(None),
    {
        let id = self.positions.len();
        self.positions.push(None);
        self.velocities.push(None);
        self.balls.push(None);
        self.tables.push(None);
        proof {
            assert forall|i: int| 0 <= i < self@.len() && (#[trigger] self@.balls[i]) is Some
                implies self@.balls[i]->0.wf() by {
                assert(i < old(self)@.len());
                assert(self@.balls[i] == old(self)@.balls[i]);
            }
            assert forall|i: int| 0 <= i < self@.len() && (#[trigger] self@.tables[i]) is Some
                implies self@.tables[i]->0.wf() by {
                assert(self@.tables[i] == old(self)@.tables[i]);
            }
        }
        Entity { id }
    }

    /// Attaches (or replaces) the position of `e`.
    pub fn set_position(&mut self, e: Entity, p: Position)
        requires
            old(self).wf(),
            e.id < old(self)@.len(),
        ensures
            final(self).wf(),
            final(self)@ == (WorldModel {
                positions: old(self)@.positions.update(e.id as int, Some(p)),
                ..old(self)@
            }),
    {
        self.positions.set(e.id, Some(p));
    }

    /// Attaches (or replaces) the velocity of `e`.
    pub fn set_velocity(&mut self, e: Entity, v: Velocity)
        requires
            old(self).wf(),
            e.id < old(self)@.len(),
        ensures
            final(self).wf(),
            final(self)@ == (WorldModel {
                velocities: old(self)@.velocities.update(e.id as int, Some(v)),
                ..old(self)@
            }),
    {
        self.velocities.set(e.id, Some(v));
    }

    /// Attaches (or replaces) the ball descriptor of `e`.
    pub fn set_ball(&mut self, e: Entity, b: Ball)
        requires
            old(self).wf(),
            e.id < old(self)@.len(),
            b.wf(),
        ensures
            final(self).wf(),
            final(self)@ == (WorldModel {
                balls: old(self)@.balls.update(e.id as int, Some(b)),
                ..old(self)@
            }),
    {
        self.balls.set(e.id, Some(b));
    }

    /// Attaches (or replaces) the table of `e`.
    pub fn set_table(&mut self, e: Entity, t: Table)
        requires
            old(self).wf(),
            e.id < old(self)@.len(),
            t.wf(),
        ensures
            final(self).wf(),
            final(self)@ == (WorldModel {
                tables: old(self)@.tables.update(e.id as int, Some(t)),
                ..old(self)@
            }),
    {
        self.tables.set(e.id, Some(t));
    }

    /// The position of `e`, if it has one.
    pub fn position(&self, e: Entity) -> (r: Option<Position>)
        requires
            self.wf(),
        ensures
            r == (if e.id < self@.len() { self@.positions[e.id as int] } else { None }),
    {
        if e.id < self.positions.len() { self.positions[e.id] } else { None }
    }

    /// The velocity of `e`, if it has one.
    pub fn velocity(&self, e: Entity) -> (r: Option<Velocity>)
        requires
            self.wf(),
        ensures
            r == (if e.id < self@.len() { self@.velocities[e.id as int] } else { None }),
    {
        if e.id < self.velocities.len() { self.velocities[e.id] } else { None }
    }

    /// The ball descriptor of `e`, if it has one.
    pub fn ball(&self, e: Entity) -> (r: Option<Ball>)
        requires
            self.wf(),
        ensures
            r == (if e.id < self@.len() { self@.balls[e.id as int] } else { None }),
    {
        if e.id < self.balls.len() { self.balls[e.id] } else { None }
    }

    /// The table of `e`, if it has one.
    pub fn table(&self, e: Entity) -> (r: Option<Table>)
        requires
            self.wf(),
        ensures
            r == (if e.id < self@.len() { self@.tables[e.id as int] } else { None }),
    {
        if e.id < self.tables.len() { self.tables[e.id] } else { None }
    }
}

} // verus!
