//! The collision resolver: boundary reflection, then pairwise impulses.
use vstd::prelude::*;
use crate::components::{Ball, LIMIT, MAX_ENTITIES, REACH, RESTITUTION_ONE, Position, Table, Velocity};
use crate::world::{Entity, World, WorldModel};

verus! {

/// Resolves contacts with the table's sides, then between balls.
pub struct CollisionSystem;

/// Bound on each component of the velocity change that one pair gives a ball:
/// four times the largest relative velocity component, `2 * LIMIT`.
pub const MAX_RESPONSE: i64 = 0x8_0000_0000;

/// What the pairwise phase reads of one ball at the start of the phase.
#[derive(Clone, Copy, Debug, PartialEq, Eq, Structural)]
pub struct BallState {
    pub entity: Entity,
    pub position: Position,
    pub velocity: Velocity,
    pub ball: Ball,
}

impl BallState {
    pub open spec fn wf(self) -> bool {
        &&& self.position.within(REACH as int)
        &&& self.velocity.in_range()
        &&& self.ball.wf()
    }
}

/// The smaller of two restitutions.
pub open spec fn min_restitution(a: Ball, b: Ball) -> int {
    if a.restitution < b.restitution {
        a.restitution as int
    } else {
        b.restitution as int
    }
}

/// The velocity changes that a contact between `a` and `b` gives them, or
/// `None` when there is no interaction: the circles do not overlap, their
/// centres coincide, or they already move apart along the line of centres.
///
/// With `d` from `a` to `b` and `s = (va - vb) . d`, the balls close in on
/// each other when `s > 0` and move apart when `s < 0`. With `e` the smaller
/// restitution, the impulse `J = -(1 + e) * vn / (1/ma + 1/mb)` along
/// `n = d / |d|`, where `vn = s / |d|`, changes `va` by `J n / ma`, which is
/// `-(1 + e) * s * mb * d / ((ma + mb) * |d|^2)`, and `vb` by `-J n / mb`, which
/// is `(1 + e) * s * ma * d / ((ma + mb) * |d|^2)`. Each component is rounded
/// toward zero.
pub open spec fn collision_response(a: BallState, b: BallState) -> Option<(Velocity, Velocity)> {
    let dx = b.position.x - a.position.x;
    let dy = b.position.y - a.position.y;
    let dist2 = dx * dx + dy * dy;
    let r = a.ball.radius + b.ball.radius;
    let s = (a.velocity.x - b.velocity.x) * dx + (a.velocity.y - b.velocity.y) * dy;
    if dist2 >= r * r || dist2 == 0 || s < 0 {
        None
    } else {
        let k = RESTITUTION_ONE + min_restitution(a.ball, b.ball);
        let den = RESTITUTION_ONE * (a.ball.mass + b.ball.mass) * dist2;
        Some(
            (
                Velocity {
                    x: div_toward_zero(-(k * s * b.ball.mass * dx), den) as i64,
                    y: div_toward_zero(-(k * s * b.ball.mass * dy), den) as i64,
                },
                Velocity {
                    x: div_toward_zero(k * s * a.ball.mass * dx, den) as i64,
                    y: div_toward_zero(k * s * a.ball.mass * dy, den) as i64,
                },
            ),
        )
    }
}

/// The absolute value of `x`.
pub open spec fn abs(x: int) -> int {
    if x < 0 {
        -x
    } else {
        x
    }
}

/// `|n / d| <= c` when `|n| <= c * d`.
proof fn lemma_quotient_bound(n: int, d: int, c: int)
    requires
        d > 0,
        c >= 0,
        abs(n) <= c * d,
    ensures
        abs(div_toward_zero(n, d)) <= c,
{
    vstd::arithmetic::div_mod::lemma_div_is_ordered(abs(n), c * d, d);
    vstd::arithmetic::div_mod::lemma_div_by_multiple(c, d);
    vstd::arithmetic::div_mod::lemma_div_pos_is_pos(abs(n), d);
}

/// A coordinate difference inside the sum of radii is smaller than it.
proof fn lemma_inside(dx: int, dy: int, r: int)
    requires
        r > 0,
        dx * dx + dy * dy < r * r,
    ensures
        -r < dx < r,
        -r < dy < r,
{
    assert(dy * dy >= 0) by (nonlinear_arith);
    assert(dx * dx >= 0) by (nonlinear_arith);
    if dx >= r {
        assert(dx * dx >= r * r) by (nonlinear_arith) requires dx >= r, r > 0;
    }
    if dx <= -r {
        assert(dx * dx >= r * r) by (nonlinear_arith) requires dx <= -r, r > 0;
    }
    if dy >= r {
        assert(dy * dy >= r * r) by (nonlinear_arith) requires dy >= r, r > 0;
    }
    if dy <= -r {
        assert(dy * dy >= r * r) by (nonlinear_arith) requires dy <= -r, r > 0;
    }
}

/// The numerator of a velocity change is at most `4 * bound` times its
/// denominator, where `bound` limits the relative velocity components.
proof fn lemma_response_bound(rx: int, ry: int, dx: int, dy: int, c: int, k: int, mo: int, msum: int, bound: int)
    requires
        -bound <= rx <= bound,
        -bound <= ry <= bound,
        c == dx || c == dy,
        0 <= k <= 2 * RESTITUTION_ONE,
        0 < mo <= msum,
    ensures
        abs(k * (rx * dx + ry * dy) * mo * c) <= 4 * bound * (RESTITUTION_ONE * msum * (dx * dx + dy * dy)),
        abs(-(k * (rx * dx + ry * dy) * mo * c)) <= 4 * bound * (RESTITUTION_ONE * msum * (dx * dx + dy * dy)),
{
    let s = rx * dx + ry * dy;
    let d2 = dx * dx + dy * dy;
    let ax = abs(dx);
    let ay = abs(dy);
    let ac = abs(c);
    assert(ax * ax == dx * dx && ay * ay == dy * dy) by (nonlinear_arith)
        requires ax == abs(dx), ay == abs(dy);
    assert(abs(rx * dx) <= bound * ax) by (nonlinear_arith)
        requires -bound <= rx <= bound, ax == abs(dx);
    assert(abs(ry * dy) <= bound * ay) by (nonlinear_arith)
        requires -bound <= ry <= bound, ay == abs(dy);
    assert(abs(s) <= bound * (ax + ay)) by (nonlinear_arith)
        requires abs(rx * dx) <= bound * ax, abs(ry * dy) <= bound * ay, s == rx * dx + ry * dy;
    assert((ax - ay) * (ax - ay) >= 0) by (nonlinear_arith);
    assert(ac * (ax + ay) <= 2 * d2) by (nonlinear_arith)
        requires
            (ax - ay) * (ax - ay) >= 0,
            ac == ax || ac == ay,
            ax * ax + ay * ay == d2,
            ax >= 0,
            ay >= 0;
    assert(abs(s) * ac <= bound * (ax + ay) * ac) by (nonlinear_arith)
        requires abs(s) <= bound * (ax + ay), ac >= 0;
    assert(bound * (ax + ay) * ac <= 2 * bound * d2) by (nonlinear_arith)
        requires ac * (ax + ay) <= 2 * d2, bound >= 0;
    assert(abs(k * s * mo * c) == k * mo * (abs(s) * ac)) by (nonlinear_arith)
        requires k >= 0, mo > 0, ac == abs(c);
    assert(k * mo * (abs(s) * ac) <= 2 * RESTITUTION_ONE * msum * (2 * bound * d2)) by (nonlinear_arith)
        requires
            0 <= k <= 2 * RESTITUTION_ONE,
            0 < mo <= msum,
            0 <= abs(s) * ac <= 2 * bound * d2;
    assert(2 * RESTITUTION_ONE * msum * (2 * bound * d2) == 4 * bound * (RESTITUTION_ONE * msum * d2))
        by (nonlinear_arith);
}

/// `n / d` rounded toward zero, for `d > 0`.
pub open spec fn div_toward_zero(n: int, d: int) -> int {
    if n >= 0 {
        n / d
    } else {
        -((-n) / d)
    }
}

/// A velocity component after a bounce with restitution `e` thousandths:
/// `-v * e`, rounded toward zero.
pub open spec fn rebound(v: int, e: int) -> int {
    -div_toward_zero(v * e, RESTITUTION_ONE as int)
}

/// One axis of a bounce between walls at `0` and `len`: first the low wall,
/// then the high wall, each clamping the coordinate so the edge touches the
/// wall and reflecting the velocity component.
pub open spec fn bounce_axis(x: int, v: int, r: int, len: int, e: int) -> (int, int) {
    let (x1, v1) = if x - r < 0 { (r, rebound(v, e)) } else { (x, v) };
    if x1 + r > len { (len - r, rebound(v1, e)) } else { (x1, v1) }
}

/// A ball's position and velocity after meeting the table's boundary.
pub open spec fn table_bounce(p: Position, v: Velocity, b: Ball, t: Table) -> (Position, Velocity) {
    let (x, vx) = bounce_axis(p.x as int, v.x as int, b.radius as int, t.width as int, b.restitution as int);
    let (y, vy) = bounce_axis(p.y as int, v.y as int, b.radius as int, t.height as int, b.restitution as int);
    (Position { x: x as i64, y: y as i64 }, Velocity { x: vx as i64, y: vy as i64 })
}

/// The table that the boundary phase uses: the first one in entity order at or
/// after `i`.
pub open spec fn first_table_from(tables: Seq<Option<Table>>, i: int) -> Option<Table>
    decreases tables.len() - i,
{
    if i < 0 || i >= tables.len() {
        None
    } else if tables[i] is Some {
        tables[i]
    } else {
        first_table_from(tables, i + 1)
    }
}

impl WorldModel {
    /// The world after the boundary phase against table `t`: every entity
    /// holding a position, a velocity and a ball is bounced.
    pub open spec fn bounced(self, t: Table) -> WorldModel {
        WorldModel {
            positions: Seq::new(
                self.positions.len(),
                |i: int|
                    if self.is_ball(i) {
                        Some(table_bounce(self.positions[i]->0, self.velocities[i]->0, self.balls[i]->0, t).0)
                    } else {
                        self.positions[i]
                    },
            ),
            velocities: Seq::new(
                self.velocities.len(),
                |i: int|
                    if self.is_ball(i) {
                        Some(table_bounce(self.positions[i]->0, self.velocities[i]->0, self.balls[i]->0, t).1)
                    } else {
                        self.velocities[i]
                    },
            ),
            ..self
        }
    }

    /// The boundary phase: against the first table, or nothing without one.
    pub open spec fn boundary_phase(self) -> WorldModel {
        match first_table_from(self.tables, 0) {
            Some(t) => self.bounced(t),
            None => self,
        }
    }
}


/// How entity `i` of `m` looks to the pairwise phase.
pub open spec fn ball_state(m: WorldModel, i: int) -> BallState {
    BallState {
        entity: Entity { id: i as usize },
        position: m.positions[i]->0,
        velocity: m.velocities[i]->0,
        ball: m.balls[i]->0,
    }
}

/// The snapshot of the first `n` entities of `m`: each one that holds a
/// position, a velocity and a ball, in entity order.
pub open spec fn snapshot(m: WorldModel, n: int) -> Seq<BallState>
    decreases n,
{
    if n <= 0 {
        Seq::empty()
    } else if m.is_ball(n - 1) {
        snapshot(m, n - 1).push(ball_state(m, n - 1))
    } else {
        snapshot(m, n - 1)
    }
}

/// The velocity change of a pair that does not interact.
pub open spec fn no_change() -> Velocity {
    Velocity { x: 0, y: 0 }
}

/// The velocity change that snapshot entry `k` receives from its pair with
/// entry `j`, the pair being taken with the lower index first.
pub open spec fn response_from(snap: Seq<BallState>, k: int, j: int) -> Velocity {
    if k < j {
        match collision_response(snap[k], snap[j]) {
            Some(r) => r.0,
            None => no_change(),
        }
    } else if j < k {
        match collision_response(snap[j], snap[k]) {
            Some(r) => r.1,
            None => no_change(),
        }
    } else {
        no_change()
    }
}

/// The summed velocity change, as `(x, y)`, that snapshot entry `k` receives
/// from its pairs with the entries before `j`.
pub open spec fn total_response(snap: Seq<BallState>, k: int, j: int) -> (int, int)
    decreases j,
{
    if j <= 0 {
        (0, 0)
    } else {
        let t = total_response(snap, k, j - 1);
        let r = response_from(snap, k, j - 1);
        (t.0 + r.x, t.1 + r.y)
    }
}

impl WorldModel {
    /// The world after the pairwise phase: every ball's velocity gains the
    /// changes from all its pairs, each computed from the snapshot taken at
    /// the start of the phase; nothing else changes.
    pub open spec fn pairwise_phase(self) -> WorldModel {
        let snap = snapshot(self, self.len());
        WorldModel {
            velocities: Seq::new(
                self.velocities.len(),
                |i: int|
                    if self.is_ball(i) {
                        let t = total_response(snap, snapshot(self, i).len() as int, snap.len() as int);
                        Some(
                            Velocity {
                                x: (self.velocities[i]->0.x + t.0) as i64,
                                y: (self.velocities[i]->0.y + t.1) as i64,
                            },
                        )
                    } else {
                        self.velocities[i]
                    },
            ),
            ..self
        }
    }

    /// One pass of the collision resolver: boundary, then pairwise.
    pub open spec fn collided(self) -> WorldModel {
        self.boundary_phase().pairwise_phase()
    }
}

/// Each snapshot entry is the state of a ball-holding entity before `n`.
proof fn lemma_snapshot_entries(m: WorldModel, n: int)
    requires
        0 <= n <= m.len(),
        m.wf(),
    ensures
        snapshot(m, n).len() <= n,
        forall|k: int| 0 <= k < snapshot(m, n).len() ==> {
            let i = (#[trigger] snapshot(m, n)[k]).entity.id as int;
            &&& 0 <= i < n
            &&& m.is_ball(i)
            &&& snapshot(m, n)[k] == ball_state(m, i)
        },
    decreases n,
{
    if n > 0 {
        lemma_snapshot_entries(m, n - 1);
    }
}

/// A ball-holding entity `i` stands in the snapshot at the index that counts
/// the ball-holding entities before it.
proof fn lemma_snapshot_index(m: WorldModel, i: int, n: int)
    requires
        0 <= i < n,
        m.is_ball(i),
    ensures
        snapshot(m, i).len() < snapshot(m, n).len(),
        snapshot(m, n)[snapshot(m, i).len() as int] == ball_state(m, i),
    decreases n,
{
    if n - 1 > i {
        lemma_snapshot_index(m, i, n - 1);
    }
}

/// `-v * e` in thousandths, rounded toward zero.
fn reflect(v: i64, e: i64) -> (r: i64)
    requires
        -LIMIT <= v <= LIMIT,
        0 <= e <= RESTITUTION_ONE,
    ensures
        r == rebound(v as int, e as int),
        -LIMIT <= r <= LIMIT,
        e == RESTITUTION_ONE ==> r == -v,
{
    proof {
        assert(-LIMIT * RESTITUTION_ONE <= v * e <= LIMIT * RESTITUTION_ONE) by (nonlinear_arith)
            requires -LIMIT <= v <= LIMIT, 0 <= e <= RESTITUTION_ONE;
    }
    let p = v * e;
    proof {
        if e == RESTITUTION_ONE {
            if v >= 0 {
                vstd::arithmetic::div_mod::lemma_div_by_multiple(v as int, RESTITUTION_ONE as int);
                assert(p / RESTITUTION_ONE == v);
            } else {
                vstd::arithmetic::div_mod::lemma_div_by_multiple(-v, RESTITUTION_ONE as int);
                assert(-p == (-v) * RESTITUTION_ONE) by (nonlinear_arith)
                    requires p == v * e, e == RESTITUTION_ONE;
                assert((-p) / (RESTITUTION_ONE as int) == -v);
            }
        }
    }
    if p >= 0 {
        proof {
            assert(p / RESTITUTION_ONE <= LIMIT) by (nonlinear_arith)
                requires 0 <= p <= LIMIT * RESTITUTION_ONE;
        }
        -(p / RESTITUTION_ONE)
    } else {
        proof {
            let ghost q: int = -p;
            assert(q / (RESTITUTION_ONE as int) <= LIMIT) by (nonlinear_arith)
                requires 0 <= q <= LIMIT * RESTITUTION_ONE;
        }
        (-p) / RESTITUTION_ONE
    }
}

/// The new coordinate and velocity component of a ball between walls at `0`
/// and `len` on one axis.
fn reflect_axis(x: i64, v: i64, r: i64, len: i64, e: i64) -> (res: (i64, i64))
    requires
        -REACH <= x <= REACH,
        -LIMIT <= v <= LIMIT,
        0 < r <= LIMIT,
        0 < len <= LIMIT,
        0 <= e <= RESTITUTION_ONE,
    ensures
        res.0 == bounce_axis(x as int, v as int, r as int, len as int, e as int).0,
        res.1 == bounce_axis(x as int, v as int, r as int, len as int, e as int).1,
        -REACH <= res.0 <= REACH,
        -LIMIT <= res.1 <= LIMIT,
{
    let mut nx = x;
    let mut nv = v;
    if nx - r < 0 {
        nx = r;
        nv = reflect(nv, e);
    }
    if nx + r > len {
        nx = len - r;
        nv = reflect(nv, e);
    }
    (nx, nv)
}

/// `n / d` rounded toward zero.
fn divide_toward_zero(n: i128, d: i128) -> (q: i128)
    requires
        d > 0,
        -0x100_0000_0000_0000_0000_0000_0000_0000 <= n <= 0x100_0000_0000_0000_0000_0000_0000_0000,
    ensures
        q == div_toward_zero(n as int, d as int),
{
    if n >= 0 {
        n / d
    } else {
        let m: i128 = -n;
        proof {
            vstd::arithmetic::div_mod::lemma_div_pos_is_pos(m as int, d as int);
            vstd::arithmetic::div_mod::lemma_div_is_ordered_by_denominator(m as int, 1, d as int);
        }
        -(m / d)
    }
}


/// The snapshot of every ball-holding entity, in entity order.
fn take_snapshot(world: &World) -> (snap: Vec<BallState>)
    requires
        world.wf(),
    ensures
        snap@ == snapshot(world@, world@.len()),
{
    let n = world.positions.len();
    let mut snap: Vec<BallState> = Vec::new();
    let mut i: usize = 0;
    while i < n
        invariant
            world.wf(),
            n == world@.len(),
            0 <= i <= n,
            snap@ == snapshot(world@, i as int),
        decreases n - i,
    {
        match (world.positions[i], world.velocities[i], world.balls[i]) {
            (Some(p), Some(v), Some(b)) => {
                snap.push(BallState { entity: Entity { id: i }, position: p, velocity: v, ball: b });
            },
            _ => {},
        }
        i = i + 1;
    }
    snap
}

/// The velocity change of entry `k` from its pair with entry `j`.
fn response_on(snap: &Vec<BallState>, k: usize, j: usize) -> (r: Velocity)
    requires
        k < snap.len(),
        j < snap.len(),
        forall|i: int| 0 <= i < snap.len() ==> (#[trigger] snap@[i]).wf(),
    ensures
        r == response_from(snap@, k as int, j as int),
        r.within(MAX_RESPONSE as int),
{
    if k < j {
        match CollisionSystem::compute_ball_collision_impulse(&snap[k], &snap[j]) {
            Some((da, _)) => da,
            None => Velocity { x: 0, y: 0 },
        }
    } else if j < k {
        match CollisionSystem::compute_ball_collision_impulse(&snap[j], &snap[k]) {
            Some((_, db)) => db,
            None => Velocity { x: 0, y: 0 },
        }
    } else {
        Velocity { x: 0, y: 0 }
    }
}

/// The new velocity of entry `k`: its own plus the changes from all its
/// pairs.
fn resolved_velocity(snap: &Vec<BallState>, k: usize) -> (r: Velocity)
    requires
        k < snap.len() <= MAX_ENTITIES,
        forall|i: int| 0 <= i < snap.len() ==> (#[trigger] snap@[i]).wf(),
    ensures
        r.x == snap@[k as int].velocity.x + total_response(snap@, k as int, snap.len() as int).0,
        r.y == snap@[k as int].velocity.y + total_response(snap@, k as int, snap.len() as int).1,
{
    let n = snap.len();
    let mut ax: i64 = 0;
    let mut ay: i64 = 0;
    let mut j: usize = 0;
    while j < n
        invariant
            k < n == snap.len() <= MAX_ENTITIES,
            forall|i: int| 0 <= i < snap.len() ==> (#[trigger] snap@[i]).wf(),
            0 <= j <= n,
            ax == total_response(snap@, k as int, j as int).0,
            ay == total_response(snap@, k as int, j as int).1,
            -(j * MAX_RESPONSE) <= ax <= j * MAX_RESPONSE,
            -(j * MAX_RESPONSE) <= ay <= j * MAX_RESPONSE,
        decreases n - j,
    {
        let d = response_on(snap, k, j);
        proof {
            assert(j * MAX_RESPONSE + MAX_RESPONSE == (j + 1) * MAX_RESPONSE) by (nonlinear_arith);
            assert((j + 1) * MAX_RESPONSE <= MAX_ENTITIES * MAX_RESPONSE) by (nonlinear_arith)
                requires j + 1 <= MAX_ENTITIES;
        }
        ax = ax + d.x;
        ay = ay + d.y;
        j = j + 1;
    }
    proof {
        assert(n * MAX_RESPONSE <= MAX_ENTITIES * MAX_RESPONSE) by (nonlinear_arith)
            requires n <= MAX_ENTITIES;
    }
    let v = snap[k].velocity;
    Velocity { x: v.x + ax, y: v.y + ay }
}

impl CollisionSystem {
    /// The velocity changes of `a` and `b` from their contact, computed from
    /// their state alone (see `collision_response`), or `None` when they do
    /// not interact.
    pub fn compute_ball_collision_impulse(a: &BallState, b: &BallState) -> (r: Option<(Velocity, Velocity)>)
        requires
            a.wf(),
            b.wf(),
        ensures
            r == collision_response(*a, *b),
            r matches Some((da, db)) ==> da.within(MAX_RESPONSE as int) && db.within(MAX_RESPONSE as int),
    {
        let dx: i128 = b.position.x as i128 - a.position.x as i128;
        let dy: i128 = b.position.y as i128 - a.position.y as i128;
        proof {
            assert(dx * dx <= 0x1000_0000_0000_0000_0000_0000_0000) by (nonlinear_arith)
                requires -0x40_0000_0000_0000 <= dx <= 0x40_0000_0000_0000;
            assert(dy * dy <= 0x1000_0000_0000_0000_0000_0000_0000) by (nonlinear_arith)
                requires -0x40_0000_0000_0000 <= dy <= 0x40_0000_0000_0000;
            assert(dx * dx >= 0 && dy * dy >= 0) by (nonlinear_arith);
        }
        let dist2: i128 = dx * dx + dy * dy;
        let r: i128 = a.ball.radius as i128 + b.ball.radius as i128;
        proof {
            assert(r * r <= 0x4_0000_0000_0000) by (nonlinear_arith) requires 0 < r <= 0x200_0000;
        }
        if dist2 >= r * r || dist2 == 0 {
            return None;
        }
        proof {
            lemma_inside(dx as int, dy as int, r as int);
        }
        let rx: i128 = a.velocity.x as i128 - b.velocity.x as i128;
        let ry: i128 = a.velocity.y as i128 - b.velocity.y as i128;
        proof {
            assert(-0x2_0000_0000 * 0x200_0000 <= rx * dx <= 0x2_0000_0000 * 0x200_0000) by (nonlinear_arith)
                requires -0x2_0000_0000 <= rx <= 0x2_0000_0000, -0x200_0000 <= dx <= 0x200_0000;
            assert(-0x2_0000_0000 * 0x200_0000 <= ry * dy <= 0x2_0000_0000 * 0x200_0000) by (nonlinear_arith)
                requires -0x2_0000_0000 <= ry <= 0x2_0000_0000, -0x200_0000 <= dy <= 0x200_0000;
        }
        let s: i128 = rx * dx + ry * dy;
        if s < 0 {
            return None;
        }
        let e: i64 = if a.ball.restitution < b.ball.restitution { a.ball.restitution } else { b.ball.restitution };
        let k: i128 = (RESTITUTION_ONE + e) as i128;
        let ma: i128 = a.ball.mass as i128;
        let mb: i128 = b.ball.mass as i128;
        proof {
            assert(0 < dist2 <= 0x4_0000_0000_0000);
            assert(0 < (RESTITUTION_ONE as int) * (ma + mb) * dist2 <= 1000 * 0x20_0000 * 0x4_0000_0000_0000)
                by (nonlinear_arith)
                requires 0 < ma <= 0x10_0000, 0 < mb <= 0x10_0000, 0 < dist2 <= 0x4_0000_0000_0000;
            assert(0 <= k * s <= 0x40_0000_0000_0000_0000) by (nonlinear_arith)
                requires 0 < k <= 2000, 0 <= s <= 0x800_0000_0000_0000;
        }
        let den: i128 = (RESTITUTION_ONE as i128) * (ma + mb) * dist2;
        let ks: i128 = k * s;
        proof {
            assert(0 <= ks * ma <= 0x40_0000_0000_0000_0000 * 0x10_0000) by (nonlinear_arith)
                requires 0 <= ks <= 0x40_0000_0000_0000_0000, 0 < ma <= 0x10_0000;
            assert(0 <= ks * mb <= 0x40_0000_0000_0000_0000 * 0x10_0000) by (nonlinear_arith)
                requires 0 <= ks <= 0x40_0000_0000_0000_0000, 0 < mb <= 0x10_0000;
        }
        let ksa: i128 = ks * ma;
        let ksb: i128 = ks * mb;
        proof {
            assert(-0x400_0000_0000_0000_0000_0000 * 0x200_0000 <= ksa * dx <= 0x400_0000_0000_0000_0000_0000 * 0x200_0000) by (nonlinear_arith)
                requires 0 <= ksa <= 0x400_0000_0000_0000_0000_0000, -0x200_0000 <= dx <= 0x200_0000;
            assert(-0x400_0000_0000_0000_0000_0000 * 0x200_0000 <= ksa * dy <= 0x400_0000_0000_0000_0000_0000 * 0x200_0000) by (nonlinear_arith)
                requires 0 <= ksa <= 0x400_0000_0000_0000_0000_0000, -0x200_0000 <= dy <= 0x200_0000;
            assert(-0x400_0000_0000_0000_0000_0000 * 0x200_0000 <= ksb * dx <= 0x400_0000_0000_0000_0000_0000 * 0x200_0000) by (nonlinear_arith)
                requires 0 <= ksb <= 0x400_0000_0000_0000_0000_0000, -0x200_0000 <= dx <= 0x200_0000;
            assert(-0x400_0000_0000_0000_0000_0000 * 0x200_0000 <= ksb * dy <= 0x400_0000_0000_0000_0000_0000 * 0x200_0000) by (nonlinear_arith)
                requires 0 <= ksb <= 0x400_0000_0000_0000_0000_0000, -0x200_0000 <= dy <= 0x200_0000;
            let bound = 2 * LIMIT;
            lemma_response_bound(rx as int, ry as int, dx as int, dy as int, dx as int, k as int, mb as int, ma + mb, bound);
            lemma_response_bound(rx as int, ry as int, dx as int, dy as int, dy as int, k as int, mb as int, ma + mb, bound);
            lemma_response_bound(rx as int, ry as int, dx as int, dy as int, dx as int, k as int, ma as int, ma + mb, bound);
            lemma_response_bound(rx as int, ry as int, dx as int, dy as int, dy as int, k as int, ma as int, ma + mb, bound);
            assert(ksb * dx == k * s * mb * dx) by (nonlinear_arith) requires ksb == ks * mb, ks == k * s;
            assert(ksb * dy == k * s * mb * dy) by (nonlinear_arith) requires ksb == ks * mb, ks == k * s;
            assert(ksa * dx == k * s * ma * dx) by (nonlinear_arith) requires ksa == ks * ma, ks == k * s;
            assert(ksa * dy == k * s * ma * dy) by (nonlinear_arith) requires ksa == ks * ma, ks == k * s;
            lemma_quotient_bound(-(ksb * dx), den as int, 4 * bound);
            lemma_quotient_bound(-(ksb * dy), den as int, 4 * bound);
            lemma_quotient_bound(ksa * dx, den as int, 4 * bound);
            lemma_quotient_bound(ksa * dy, den as int, 4 * bound);
        }
        let dax = divide_toward_zero(-(ksb * dx), den);
        let day = divide_toward_zero(-(ksb * dy), den);
        let dbx = divide_toward_zero(ksa * dx, den);
        let dby = divide_toward_zero(ksa * dy, den);
        Some((Velocity { x: dax as i64, y: day as i64 }, Velocity { x: dbx as i64, y: dby as i64 }))
    }

    /// A ball's position and velocity after the boundary check against
    /// `table`: on each of the four sides that the ball's edge crosses, the
    /// ball is put back so its edge lies on the side and the matching velocity
    /// component is reversed and scaled by the ball's restitution.
    pub fn handle_table_collision(pos: Position, vel: Velocity, ball: &Ball, table: &Table) -> (r: (Position, Velocity))
        requires
            pos.within(REACH as int),
            vel.in_range(),
            ball.wf(),
            table.wf(),
        ensures
            r == table_bounce(pos, vel, *ball, *table),
            r.0.within(REACH as int),
            r.1.in_range(),
    {
        let (x, vx) = reflect_axis(pos.x, vel.x, ball.radius, table.width, ball.restitution);
        let (y, vy) = reflect_axis(pos.y, vel.y, ball.radius, table.height, ball.restitution);
        (Position { x, y }, Velocity { x: vx, y: vy })
    }

    /// The pairwise phase: takes a snapshot of every ball, then adds to each
    /// ball's velocity the changes from all its pairs, computed from the
    /// snapshot alone, so that no result of this phase feeds another pair of
    /// the same phase. Positions are not touched.
    pub fn process_ball_collisions(world: &mut World)
        requires
            old(world).wf(),
            old(world)@.within(REACH as int, LIMIT as int),
        ensures
            final(world).wf(),
            final(world)@ == old(world)@.pairwise_phase(),
    {
        let ghost start = world@;
        let snap = take_snapshot(world);
        proof {
            lemma_snapshot_entries(start, start.len());
        }
        let m = snap.len();
        let mut new_v: Vec<Velocity> = Vec::new();
        let mut k: usize = 0;
        while k < m
            invariant
                start == world@,
                start.wf(),
                start.within(REACH as int, LIMIT as int),
                snap@ == snapshot(start, start.len()),
                m == snap.len() <= start.len() <= MAX_ENTITIES,
                forall|i: int| 0 <= i < snap.len() ==> (#[trigger] snap@[i]).wf(),
                0 <= k <= m,
                new_v.len() == k,
                forall|q: int| 0 <= q < k ==> (#[trigger] new_v@[q]).x == snap@[q].velocity.x
                    + total_response(snap@, q, m as int).0 && new_v@[q].y == snap@[q].velocity.y
                    + total_response(snap@, q, m as int).1,
            decreases m - k,
        {
            let v = resolved_velocity(&snap, k);
            new_v.push(v);
            k = k + 1;
        }
        let n = world.velocities.len();
        let mut i: usize = 0;
        let mut c: usize = 0;
        while i < n
            invariant
                start.wf(),
                n == start.len(),
                snap@ == snapshot(start, start.len()),
                m == snap.len() == new_v.len(),
                forall|q: int| 0 <= q < m ==> (#[trigger] new_v@[q]).x == snap@[q].velocity.x
                    + total_response(snap@, q, m as int).0 && new_v@[q].y == snap@[q].velocity.y
                    + total_response(snap@, q, m as int).1,
                0 <= i <= n,
                c == snapshot(start, i as int).len(),
                world@.positions == start.positions,
                world@.balls == start.balls,
                world@.tables == start.tables,
                world@.velocities.len() == n,
                forall|q: int| 0 <= q < i ==> #[trigger] world@.velocities[q]
                    == start.pairwise_phase().velocities[q],
                forall|q: int| i <= q < n ==> #[trigger] world@.velocities[q] == start.velocities[q],
            decreases n - i,
        {
            if world.positions[i].is_some() && world.velocities[i].is_some() && world.balls[i].is_some() {
                proof {
                    lemma_snapshot_index(start, i as int, n as int);
                }
                let v = new_v[c];
                world.velocities.set(i, Some(v));
                c = c + 1;
            }
            i = i + 1;
        }
        assert(world@.velocities =~= start.pairwise_phase().velocities);
        assert(world@ =~= start.pairwise_phase());
    }

    /// One pass of the resolver: the boundary phase against the first table
    /// (skipped when there is none), then the pairwise phase.
    pub fn run(&self, world: &mut World)
        requires
            old(world).wf(),
            old(world)@.within(REACH as int, LIMIT as int),
        ensures
            final(world).wf(),
            final(world)@ == old(world)@.collided(),
    {
        if let Some(t) = find_table(world) {
            Self::process_table_collisions(world, &t);
        }
        Self::process_ball_collisions(world);
    }

    /// Bounces every entity holding a position, a velocity and a ball off
    /// `table`.
    pub fn process_table_collisions(world: &mut World, table: &Table)
        requires
            old(world).wf(),
            old(world)@.within(REACH as int, LIMIT as int),
            table.wf(),
        ensures
            final(world).wf(),
            final(world)@ == old(world)@.bounced(*table),
            final(world)@.within(REACH as int, LIMIT as int),
    {
        let n = world.positions.len();
        let ghost start = world@;
        let mut i: usize = 0;
        while i < n
            invariant
                start.wf(),
                start.within(REACH as int, LIMIT as int),
                table.wf(),
                n == start.len(),
                0 <= i <= n,
                world@.balls == start.balls,
                world@.tables == start.tables,
                world@.positions.len() == n,
                world@.velocities.len() == n,
                forall|k: int| 0 <= k < i ==> #[trigger] world@.positions[k]
                    == start.bounced(*table).positions[k],
                forall|k: int| 0 <= k < i ==> #[trigger] world@.velocities[k]
                    == start.bounced(*table).velocities[k],
                forall|k: int| i <= k < n ==> #[trigger] world@.positions[k] == start.positions[k],
                forall|k: int| i <= k < n ==> #[trigger] world@.velocities[k] == start.velocities[k],
                forall|k: int| 0 <= k < n && (#[trigger] world@.positions[k]) is Some
                    ==> world@.positions[k]->0.within(REACH as int),
                forall|k: int| 0 <= k < n && (#[trigger] world@.velocities[k]) is Some
                    ==> world@.velocities[k]->0.in_range(),
            decreases n - i,
        {
            match (world.positions[i], world.velocities[i], world.balls[i]) {
                (Some(p), Some(v), Some(b)) => {
                    let (q, w) = Self::handle_table_collision(p, v, &b, table);
                    world.positions.set(i, Some(q));
                    world.velocities.set(i, Some(w));
                },
                _ => {},
            }
            i = i + 1;
        }
        assert(world@.positions =~= start.bounced(*table).positions);
        assert(world@.velocities =~= start.bounced(*table).velocities);
        assert(world@ =~= start.bounced(*table));
    }
}

/// The first table in entity order, if any.
fn find_table(world: &World) -> (r: Option<Table>)
    requires
        world.wf(),
    ensures
        r == first_table_from(world@.tables, 0),
        r matches Some(t) ==> t.wf(),
{
    let n = world.tables.len();
    let mut i: usize = 0;
    while i < n
        invariant
            world.wf(),
            n == world@.tables.len(),
            0 <= i <= n,
            first_table_from(world@.tables, 0) == first_table_from(world@.tables, i as int),
        decreases n - i,
    {
        if let Some(t) = world.tables[i] {
            return Some(t);
        }
        i = i + 1;
    }
    None
}

} // verus!
