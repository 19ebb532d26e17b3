use billiards::collision::{BallState, CollisionSystem};
use billiards::components::{Ball, Position, Table, Velocity, LIMIT, RESTITUTION_ONE};
use billiards::config::{
    BallConfig, Config, CueBallConfig, ObjectBallsConfig, PositionConfig, TableConfig,
};
use billiards::entities::{create_cue_ball, create_object_balls, create_table};
use billiards::physics::{PhysicsSystem, TimeDelta};
use billiards::schedule::{in_range, run_steps, tick, LoggingSystem};
use billiards::world::{Entity, World};

fn ball(radius: i64, mass: i64, restitution: i64) -> Ball {
    Ball { radius, mass, restitution }
}

fn add_ball(world: &mut World, p: (i64, i64), v: (i64, i64), b: Ball) -> Entity {
    let e = world.create_entity();
    world.set_position(e, Position { x: p.0, y: p.1 });
    world.set_velocity(e, Velocity { x: v.0, y: v.1 });
    world.set_ball(e, b);
    e
}

fn add_table(world: &mut World, width: i64, height: i64) -> Entity {
    let e = world.create_entity();
    world.set_table(e, Table { width, height });
    e
}

fn state(id: usize, p: (i64, i64), v: (i64, i64), b: Ball) -> BallState {
    BallState {
        entity: Entity { id },
        position: Position { x: p.0, y: p.1 },
        velocity: Velocity { x: v.0, y: v.1 },
        ball: b,
    }
}

fn energy2(b: &Ball, v: &Velocity) -> i128 {
    b.mass as i128 * ((v.x as i128) * (v.x as i128) + (v.y as i128) * (v.y as i128))
}

#[test]
fn integration_moves_by_velocity_times_dt() {
    let mut world = World::new();
    let a = add_ball(&mut world, (10, 20), (3, -4), ball(1, 1, 1000));
    let e = world.create_entity();
    world.set_position(e, Position { x: 7, y: 7 });
    PhysicsSystem.run(&mut world, &TimeDelta { dt: 5 });
    assert_eq!(world.position(a), Some(Position { x: 25, y: 0 }));
    // no velocity: not moved
    assert_eq!(world.position(e), Some(Position { x: 7, y: 7 }));
}

#[test]
fn integration_is_independent_of_entity_order() {
    let mut w1 = World::new();
    let a1 = add_ball(&mut w1, (0, 0), (2, 3), ball(1, 1, 1000));
    let b1 = add_ball(&mut w1, (100, 100), (-7, 1), ball(1, 1, 1000));
    let mut w2 = World::new();
    let b2 = add_ball(&mut w2, (100, 100), (-7, 1), ball(1, 1, 1000));
    let a2 = add_ball(&mut w2, (0, 0), (2, 3), ball(1, 1, 1000));
    PhysicsSystem.run(&mut w1, &TimeDelta { dt: 3 });
    PhysicsSystem.run(&mut w2, &TimeDelta { dt: 3 });
    assert_eq!(w1.position(a1), w2.position(a2));
    assert_eq!(w1.position(b1), w2.position(b2));
    assert_eq!(w1.position(a1), Some(Position { x: 6, y: 9 }));
    assert_eq!(w1.position(b1), Some(Position { x: 79, y: 103 }));
}

#[test]
fn zero_dt_is_a_no_op_integration() {
    let mut world = World::new();
    let a = add_ball(&mut world, (10, 20), (3, -4), ball(1, 1, 1000));
    PhysicsSystem.run(&mut world, &TimeDelta { dt: 0 });
    assert_eq!(world.position(a), Some(Position { x: 10, y: 20 }));
}

#[test]
fn boundary_left_edge_clamps_and_reflects() {
    let t = Table { width: 200, height: 100 };
    let b = ball(2, 1, 1000);
    let (p, v) = CollisionSystem::handle_table_collision(
        Position { x: 1, y: 50 }, Velocity { x: -10, y: 3 }, &b, &t);
    assert_eq!(p, Position { x: 2, y: 50 });
    assert_eq!(v, Velocity { x: 10, y: 3 });
}

#[test]
fn boundary_all_four_edges() {
    let t = Table { width: 200, height: 100 };
    let b = ball(2, 1, 1000);
    let (p, v) = CollisionSystem::handle_table_collision(
        Position { x: 199, y: 50 }, Velocity { x: 10, y: 0 }, &b, &t);
    assert_eq!((p, v), (Position { x: 198, y: 50 }, Velocity { x: -10, y: 0 }));
    let (p, v) = CollisionSystem::handle_table_collision(
        Position { x: 50, y: 1 }, Velocity { x: 0, y: -6 }, &b, &t);
    assert_eq!((p, v), (Position { x: 50, y: 2 }, Velocity { x: 0, y: 6 }));
    let (p, v) = CollisionSystem::handle_table_collision(
        Position { x: 50, y: 99 }, Velocity { x: 0, y: 6 }, &b, &t);
    assert_eq!((p, v), (Position { x: 50, y: 98 }, Velocity { x: 0, y: -6 }));
}

#[test]
fn boundary_corner_corrects_both_axes() {
    let t = Table { width: 200, height: 100 };
    let b = ball(2, 1, 1000);
    let (p, v) = CollisionSystem::handle_table_collision(
        Position { x: -3, y: 104 }, Velocity { x: -4, y: 5 }, &b, &t);
    assert_eq!((p, v), (Position { x: 2, y: 98 }, Velocity { x: 4, y: -5 }));
}

#[test]
fn boundary_scales_by_restitution() {
    let t = Table { width: 200, height: 100 };
    let b = ball(2, 1, 500);
    let (p, v) = CollisionSystem::handle_table_collision(
        Position { x: 0, y: 50 }, Velocity { x: -10, y: 0 }, &b, &t);
    assert_eq!((p, v), (Position { x: 2, y: 50 }, Velocity { x: 5, y: 0 }));
    // rounded toward zero: -(-7 * 0.5) = 3.5 -> 3
    let (_, v) = CollisionSystem::handle_table_collision(
        Position { x: 0, y: 50 }, Velocity { x: -7, y: 0 }, &b, &t);
    assert_eq!(v, Velocity { x: 3, y: 0 });
    let (_, v) = CollisionSystem::handle_table_collision(
        Position { x: 200, y: 50 }, Velocity { x: 7, y: 0 }, &b, &t);
    assert_eq!(v, Velocity { x: -3, y: 0 });
}

#[test]
fn boundary_leaves_inside_ball_alone() {
    let t = Table { width: 200, height: 100 };
    let b = ball(2, 1, 1000);
    let (p, v) = CollisionSystem::handle_table_collision(
        Position { x: 2, y: 98 }, Velocity { x: -10, y: 10 }, &b, &t);
    assert_eq!((p, v), (Position { x: 2, y: 98 }, Velocity { x: -10, y: 10 }));
}

#[test]
fn elastic_head_on_exchange() {
    let b = ball(10, 1, RESTITUTION_ONE);
    let a = state(0, (100, 50), (5, 0), b);
    let c = state(1, (115, 50), (-5, 0), b);
    let r = CollisionSystem::compute_ball_collision_impulse(&a, &c);
    assert_eq!(r, Some((Velocity { x: -10, y: 0 }, Velocity { x: 10, y: 0 })));

    let mut world = World::new();
    let e1 = add_ball(&mut world, (100, 50), (5, 0), b);
    let e2 = add_ball(&mut world, (115, 50), (-5, 0), b);
    CollisionSystem::process_ball_collisions(&mut world);
    assert_eq!(world.velocity(e1), Some(Velocity { x: -5, y: 0 }));
    assert_eq!(world.velocity(e2), Some(Velocity { x: 5, y: 0 }));
    // positions are not corrected
    assert_eq!(world.position(e1), Some(Position { x: 100, y: 50 }));
}

#[test]
fn elastic_exchange_along_a_diagonal() {
    let b = ball(10, 3, RESTITUTION_ONE);
    let a = state(0, (0, 0), (2, 4), b);
    let c = state(1, (3, 6), (-2, -4), b);
    let r = CollisionSystem::compute_ball_collision_impulse(&a, &c);
    assert_eq!(r, Some((Velocity { x: -4, y: -8 }, Velocity { x: 4, y: 8 })));
}

#[test]
fn unequal_masses_inelastic_contact() {
    // d = (10, 0), s = (4 - 0) * 10 = 40, k = 1500, den = 1000 * 4 * 100
    // a: -(1500 * 40 * 3 * 10) / 400000 = -4.5 -> -4 ; b: 1500 * 40 * 1 * 10 / 400000 = 1.5 -> 1
    let a = state(0, (0, 0), (4, 0), ball(6, 1, 500));
    let c = state(1, (10, 0), (0, 0), ball(6, 3, 800));
    let r = CollisionSystem::compute_ball_collision_impulse(&a, &c);
    assert_eq!(r, Some((Velocity { x: -4, y: 0 }, Velocity { x: 1, y: 0 })));
}

#[test]
fn separating_pair_gets_no_change() {
    let b = ball(10, 1, RESTITUTION_ONE);
    let a = state(0, (100, 50), (-5, 0), b);
    let c = state(1, (115, 50), (5, 0), b);
    assert_eq!(CollisionSystem::compute_ball_collision_impulse(&a, &c), None);

    let mut world = World::new();
    let e1 = add_ball(&mut world, (100, 50), (-5, 0), b);
    let e2 = add_ball(&mut world, (115, 50), (5, 0), b);
    CollisionSystem::process_ball_collisions(&mut world);
    assert_eq!(world.velocity(e1), Some(Velocity { x: -5, y: 0 }));
    assert_eq!(world.velocity(e2), Some(Velocity { x: 5, y: 0 }));
}

#[test]
fn coincident_centres_get_no_change() {
    let b = ball(10, 1, RESTITUTION_ONE);
    let a = state(0, (100, 50), (5, 1), b);
    let c = state(1, (100, 50), (-5, 2), b);
    assert_eq!(CollisionSystem::compute_ball_collision_impulse(&a, &c), None);
}

#[test]
fn non_overlapping_pair_gets_no_change() {
    let b = ball(10, 1, RESTITUTION_ONE);
    // touching exactly: dist^2 == r^2
    let a = state(0, (0, 0), (5, 0), b);
    let c = state(1, (20, 0), (-5, 0), b);
    assert_eq!(CollisionSystem::compute_ball_collision_impulse(&a, &c), None);
}

#[test]
fn inelastic_contact_does_not_add_energy() {
    let b = ball(10, 2, 500);
    let a = state(0, (0, 0), (7, 3), b);
    let c = state(1, (6, 8), (-1, -5), b);
    let (da, dc) = CollisionSystem::compute_ball_collision_impulse(&a, &c).unwrap();
    let va = Velocity { x: a.velocity.x + da.x, y: a.velocity.y + da.y };
    let vc = Velocity { x: c.velocity.x + dc.x, y: c.velocity.y + dc.y };
    let before = energy2(&b, &a.velocity) + energy2(&b, &c.velocity);
    let after = energy2(&b, &va) + energy2(&b, &vc);
    assert!(after < before);
}

#[test]
fn pairwise_uses_snapshot_and_adds_changes() {
    // the middle ball touches both others; its changes add up
    let b = ball(10, 1, RESTITUTION_ONE);
    let mut world = World::new();
    let l = add_ball(&mut world, (0, 0), (4, 0), b);
    let m = add_ball(&mut world, (15, 0), (0, 0), b);
    let r = add_ball(&mut world, (30, 0), (-4, 0), b);
    CollisionSystem::process_ball_collisions(&mut world);
    assert_eq!(world.velocity(l), Some(Velocity { x: 0, y: 0 }));
    assert_eq!(world.velocity(m), Some(Velocity { x: 0, y: 0 }));
    assert_eq!(world.velocity(r), Some(Velocity { x: 0, y: 0 }));
}

#[test]
fn end_to_end_tick_forces_a_wall_crossing() {
    // a table 200 x 100 and a ball of radius 2, in tenths
    let mut world = World::new();
    add_table(&mut world, 2000, 1000);
    let e = add_ball(&mut world, (5, 500), (-100, 0), ball(20, 1, RESTITUTION_ONE));
    tick(&mut world, &TimeDelta { dt: 1 });
    assert_eq!(world.position(e), Some(Position { x: 20, y: 500 }));
    assert_eq!(world.velocity(e), Some(Velocity { x: 100, y: 0 }));
}

#[test]
fn end_to_end_tick_without_crossing() {
    let mut world = World::new();
    add_table(&mut world, 200, 100);
    let e = add_ball(&mut world, (1, 50), (10, 0), ball(2, 1, RESTITUTION_ONE));
    tick(&mut world, &TimeDelta { dt: 1 });
    assert_eq!(world.position(e), Some(Position { x: 11, y: 50 }));
    assert_eq!(world.velocity(e), Some(Velocity { x: 10, y: 0 }));
}

#[test]
fn no_table_skips_boundary_phase() {
    let mut world = World::new();
    let e = add_ball(&mut world, (5, 5), (-100, 0), ball(2, 1, RESTITUTION_ONE));
    tick(&mut world, &TimeDelta { dt: 1 });
    assert_eq!(world.position(e), Some(Position { x: -95, y: 5 }));
    assert_eq!(world.velocity(e), Some(Velocity { x: -100, y: 0 }));
}

#[test]
fn run_steps_observes_each_tick() {
    let mut world = World::new();
    add_table(&mut world, 200, 100);
    add_ball(&mut world, (50, 50), (10, 0), ball(2, 1, RESTITUTION_ONE));
    let trace = run_steps(&mut world, &TimeDelta { dt: 1 }, 3);
    assert_eq!(trace.len(), 3);
    assert_eq!(trace[0], vec![Position { x: 60, y: 50 }]);
    assert_eq!(trace[2], vec![Position { x: 80, y: 50 }]);
}

#[test]
fn run_steps_stops_out_of_range() {
    let mut world = World::new();
    let e = add_ball(&mut world, (LIMIT - 10, 0), (LIMIT, 0), ball(2, 1, RESTITUTION_ONE));
    assert!(in_range(&world));
    let trace = run_steps(&mut world, &TimeDelta { dt: 1 }, 5);
    assert_eq!(trace.len(), 1);
    assert!(!in_range(&world));
    assert_eq!(world.position(e), Some(Position { x: 2 * LIMIT - 10, y: 0 }));
}

#[test]
fn logging_reports_ball_positions_in_order() {
    let mut world = World::new();
    add_table(&mut world, 200, 100);
    add_ball(&mut world, (3, 4), (0, 0), ball(2, 1, 1000));
    let e = world.create_entity();
    world.set_position(e, Position { x: 9, y: 9 });
    add_ball(&mut world, (5, 6), (1, 1), ball(2, 1, 1000));
    let seen = LoggingSystem.run(&world);
    assert_eq!(seen, vec![Position { x: 3, y: 4 }, Position { x: 5, y: 6 }]);
}

fn sample_config() -> Config {
    Config {
        dt: 100,
        table: TableConfig { width: 254, height: 127 },
        ball: BallConfig { radius: 3, mass: 170, restitution: 900 },
        cue_ball: CueBallConfig { x: 60, y: 63, vx: 2, vy: -1 },
        object_balls: ObjectBallsConfig {
            positions: vec![PositionConfig { x: 190, y: 63 }, PositionConfig { x: 196, y: 60 }],
        },
    }
}

#[test]
fn entities_from_config() {
    let config = sample_config();
    assert!(config.validate());
    let mut world = World::new();
    let t = create_table(&mut world, &config);
    let c = create_cue_ball(&mut world, &config);
    let os = create_object_balls(&mut world, &config);
    assert_eq!(world.len(), 4);
    assert_eq!(world.table(t), Some(Table { width: 254, height: 127 }));
    assert_eq!(world.position(t), None);
    assert_eq!(world.position(c), Some(Position { x: 60, y: 63 }));
    assert_eq!(world.velocity(c), Some(Velocity { x: 200, y: -100 }));
    assert_eq!(world.ball(c), Some(ball(3, 170, 900)));
    assert_eq!(os.len(), 2);
    assert_eq!(world.position(os[1]), Some(Position { x: 196, y: 60 }));
    assert_eq!(world.velocity(os[0]), Some(Velocity { x: 0, y: 0 }));
    assert_eq!(world.ball(os[1]), Some(ball(3, 170, 900)));
}

#[test]
fn invalid_configs_are_rejected() {
    let mut c = sample_config();
    c.ball.radius = 0;
    assert!(!c.validate());
    let mut c = sample_config();
    c.ball.restitution = 1001;
    assert!(!c.validate());
    let mut c = sample_config();
    c.table.width = -1;
    assert!(!c.validate());
    let mut c = sample_config();
    c.cue_ball.vx = LIMIT;
    assert!(!c.validate());
    let mut c = sample_config();
    c.ball.mass = 0;
    assert!(!c.validate());
}

#[test]
fn store_getters_out_of_range_are_none() {
    let world = World::new();
    assert_eq!(world.position(Entity { id: 3 }), None);
    assert_eq!(world.velocity(Entity { id: 0 }), None);
    assert_eq!(world.ball(Entity { id: 0 }), None);
    assert_eq!(world.table(Entity { id: 0 }), None);
}
