//! Properties that hold of every input, proved over the models.
use vstd::prelude::*;
use crate::collision::{
    collision_response, div_toward_zero, min_restitution, rebound, table_bounce,
    BallState,
};
use crate::components::{Ball, LIMIT, MAX_DT, RESTITUTION_ONE, Position, Table, Velocity};
use crate::world::WorldModel;

verus! {

/// Integration moves an entity by exactly `velocity * dt`, and the result for
/// one entity depends on that entity's own position and velocity alone, so
/// the order in which entities are processed cannot matter.
pub proof fn integration_moves_by_velocity(m: WorldModel, other: WorldModel, dt: int, i: int)
    requires
        m.wf(),
        m.in_range(),
        0 <= dt <= MAX_DT,
        0 <= i < m.len(),
        m.positions[i] is Some,
        m.velocities[i] is Some,
        other.wf(),
        i < other.len(),
        other.positions[i] == m.positions[i],
        other.velocities[i] == m.velocities[i],
    ensures
        m.integrated(dt).positions[i] is Some,
        m.integrated(dt).positions[i]->0.x == m.positions[i]->0.x + m.velocities[i]->0.x * dt,
        m.integrated(dt).positions[i]->0.y == m.positions[i]->0.y + m.velocities[i]->0.y * dt,
        other.integrated(dt).positions[i] == m.integrated(dt).positions[i],
{
    let p = m.positions[i]->0;
    let v = m.velocities[i]->0;
    assert(p.in_range());
    assert(v.in_range());
    assert(-LIMIT * MAX_DT <= v.x * dt <= LIMIT * MAX_DT) by (nonlinear_arith)
        requires -LIMIT <= v.x <= LIMIT, 0 <= dt <= MAX_DT;
    assert(-LIMIT * MAX_DT <= v.y * dt <= LIMIT * MAX_DT) by (nonlinear_arith)
        requires -LIMIT <= v.y <= LIMIT, 0 <= dt <= MAX_DT;
}

/// A ball whose edge crosses a side of the table is put back with its edge on
/// that side, and the velocity component across that side is reversed and
/// scaled by the ball's restitution (exactly reversed when it is fully
/// elastic); a ball that crosses no side is left as it was. This needs the
/// table to be at least one diameter wide and high.
pub proof fn boundary_reflection(p: Position, v: Velocity, b: Ball, t: Table)
    requires
        b.wf(),
        t.wf(),
        v.in_range(),
        2 * b.radius <= t.width,
        2 * b.radius <= t.height,
    ensures
        p.x - b.radius < 0 ==> table_bounce(p, v, b, t).0.x == b.radius
            && table_bounce(p, v, b, t).1.x == rebound(v.x as int, b.restitution as int),
        p.x + b.radius > t.width ==> table_bounce(p, v, b, t).0.x == t.width - b.radius
            && table_bounce(p, v, b, t).1.x == rebound(v.x as int, b.restitution as int),
        p.y - b.radius < 0 ==> table_bounce(p, v, b, t).0.y == b.radius
            && table_bounce(p, v, b, t).1.y == rebound(v.y as int, b.restitution as int),
        p.y + b.radius > t.height ==> table_bounce(p, v, b, t).0.y == t.height - b.radius
            && table_bounce(p, v, b, t).1.y == rebound(v.y as int, b.restitution as int),
        b.radius <= p.x <= t.width - b.radius && b.radius <= p.y <= t.height - b.radius
            ==> table_bounce(p, v, b, t) == (p, v),
        b.restitution == RESTITUTION_ONE ==> rebound(v.x as int, b.restitution as int) == -v.x
            && rebound(v.y as int, b.restitution as int) == -v.y,
{
    lemma_rebound_bound(v.x as int, b.restitution as int);
    lemma_rebound_bound(v.y as int, b.restitution as int);
}

/// `rebound` keeps a velocity component within `LIMIT`, and is an exact
/// reversal for a fully elastic ball.
proof fn lemma_rebound_bound(v: int, e: int)
    requires
        -LIMIT <= v <= LIMIT,
        0 <= e <= RESTITUTION_ONE,
    ensures
        -LIMIT <= rebound(v, e) <= LIMIT,
        e == RESTITUTION_ONE ==> rebound(v, e) == -v,
{
    assert(-LIMIT * RESTITUTION_ONE <= v * e <= LIMIT * RESTITUTION_ONE) by (nonlinear_arith)
        requires -LIMIT <= v <= LIMIT, 0 <= e <= RESTITUTION_ONE;
    let q = v * e;
    if q >= 0 {
        assert(q / (RESTITUTION_ONE as int) <= LIMIT) by (nonlinear_arith)
            requires 0 <= q <= LIMIT * RESTITUTION_ONE;
        vstd::arithmetic::div_mod::lemma_div_pos_is_pos(q, RESTITUTION_ONE as int);
    } else {
        assert((-q) / (RESTITUTION_ONE as int) <= LIMIT) by (nonlinear_arith)
            requires 0 <= -q <= LIMIT * RESTITUTION_ONE;
        vstd::arithmetic::div_mod::lemma_div_pos_is_pos(-q, RESTITUTION_ONE as int);
    }
    if e == RESTITUTION_ONE {
        if v >= 0 {
            vstd::arithmetic::div_mod::lemma_div_by_multiple(v, RESTITUTION_ONE as int);
        } else {
            vstd::arithmetic::div_mod::lemma_div_by_multiple(-v, RESTITUTION_ONE as int);
            assert(-q == (-v) * RESTITUTION_ONE) by (nonlinear_arith)
                requires q == v * e, e == RESTITUTION_ONE;
        }
    }
}

/// Rounding toward zero is exact on a multiple of the divisor.
proof fn lemma_exact_quotient(q: int, d: int)
    requires
        d > 0,
    ensures
        div_toward_zero(q * d, d) == q,
{
    if q >= 0 {
        vstd::arithmetic::div_mod::lemma_div_by_multiple(q, d);
        assert(q * d >= 0) by (nonlinear_arith) requires q >= 0, d > 0;
    } else {
        vstd::arithmetic::div_mod::lemma_div_by_multiple(-q, d);
        assert(q * d < 0) by (nonlinear_arith) requires q < 0, d > 0;
        assert(-(q * d) == (-q) * d) by (nonlinear_arith);
    }
}

/// Two fully elastic balls of equal mass that overlap and close in on each
/// other head-on, with equal and opposite velocities along the line joining
/// their centres, exchange their velocities exactly.
pub proof fn elastic_head_on_exchange(a: BallState, b: BallState)
    requires
        a.wf(),
        b.wf(),
        a.ball.mass == b.ball.mass,
        a.ball.restitution == RESTITUTION_ONE,
        b.ball.restitution == RESTITUTION_ONE,
        ({
            let dx = b.position.x - a.position.x;
            let dy = b.position.y - a.position.y;
            let r = a.ball.radius + b.ball.radius;
            &&& 0 < dx * dx + dy * dy < r * r
            &&& b.velocity.x == -a.velocity.x
            &&& b.velocity.y == -a.velocity.y
            &&& a.velocity.x * dy == a.velocity.y * dx
            &&& a.velocity.x * dx + a.velocity.y * dy >= 0
        }),
    ensures
        collision_response(a, b) matches Some((da, db)) && {
            &&& a.velocity.x + da.x == b.velocity.x
            &&& a.velocity.y + da.y == b.velocity.y
            &&& b.velocity.x + db.x == a.velocity.x
            &&& b.velocity.y + db.y == a.velocity.y
        },
{
    let dx = b.position.x - a.position.x;
    let dy = b.position.y - a.position.y;
    let d2 = dx * dx + dy * dy;
    let ux = a.velocity.x as int;
    let uy = a.velocity.y as int;
    let m = a.ball.mass as int;
    let s = (a.velocity.x - b.velocity.x) * dx + (a.velocity.y - b.velocity.y) * dy;
    assert(s == 2 * (ux * dx + uy * dy)) by (nonlinear_arith)
        requires
            s == (ux - b.velocity.x) * dx + (uy - b.velocity.y) * dy,
            b.velocity.x == -ux,
            b.velocity.y == -uy;
    assert(min_restitution(a.ball, b.ball) == RESTITUTION_ONE);
    let k = 2 * RESTITUTION_ONE;
    let den = RESTITUTION_ONE * (m + m) * d2;
    assert(den > 0) by (nonlinear_arith) requires m > 0, d2 > 0, den == RESTITUTION_ONE * (m + m) * d2;
    assert((ux * dx + uy * dy) * dx == ux * d2) by (nonlinear_arith)
        requires ux * dy == uy * dx, d2 == dx * dx + dy * dy;
    assert((ux * dx + uy * dy) * dy == uy * d2) by (nonlinear_arith)
        requires ux * dy == uy * dx, d2 == dx * dx + dy * dy;
    assert(-(k * s * m * dx) == (-2 * ux) * den) by (nonlinear_arith)
        requires
            (ux * dx + uy * dy) * dx == ux * d2,
            s == 2 * (ux * dx + uy * dy),
            k == 2 * RESTITUTION_ONE,
            den == RESTITUTION_ONE * (m + m) * d2;
    assert(-(k * s * m * dy) == (-2 * uy) * den) by (nonlinear_arith)
        requires
            (ux * dx + uy * dy) * dy == uy * d2,
            s == 2 * (ux * dx + uy * dy),
            k == 2 * RESTITUTION_ONE,
            den == RESTITUTION_ONE * (m + m) * d2;
    assert(k * s * m * dx == (2 * ux) * den) by (nonlinear_arith)
        requires
            (ux * dx + uy * dy) * dx == ux * d2,
            s == 2 * (ux * dx + uy * dy),
            k == 2 * RESTITUTION_ONE,
            den == RESTITUTION_ONE * (m + m) * d2;
    assert(k * s * m * dy == (2 * uy) * den) by (nonlinear_arith)
        requires
            (ux * dx + uy * dy) * dy == uy * d2,
            s == 2 * (ux * dx + uy * dy),
            k == 2 * RESTITUTION_ONE,
            den == RESTITUTION_ONE * (m + m) * d2;
    lemma_exact_quotient(-2 * ux, den);
    lemma_exact_quotient(-2 * uy, den);
    lemma_exact_quotient(2 * ux, den);
    lemma_exact_quotient(2 * uy, den);
}

/// Two balls that already move apart along the line joining their centres
/// receive no velocity change, however much they overlap.
pub proof fn separating_pair_is_skipped(a: BallState, b: BallState)
    requires
        (a.velocity.x - b.velocity.x) * (b.position.x - a.position.x)
            + (a.velocity.y - b.velocity.y) * (b.position.y - a.position.y) < 0,
    ensures
        collision_response(a, b) is None,
{
}

/// Two balls whose centres coincide receive no velocity change; no division
/// by their zero distance is made.
pub proof fn coincident_pair_is_skipped(a: BallState, b: BallState)
    requires
        a.position == b.position,
    ensures
        collision_response(a, b) is None,
{
}

/// `(d x + n)^2 + (d y + m)^2`, expanded.
proof fn lemma_shifted_square(d: int, x: int, y: int, n: int, m: int)
    ensures
        (d * x + n) * (d * x + n) + (d * y + m) * (d * y + m)
            == d * d * (x * x + y * y) + 2 * d * (x * n + y * m) + (n * n + m * m),
{
    assert((d * x + n) * (d * x + n) == d * d * (x * x) + 2 * d * (x * n) + n * n) by (nonlinear_arith);
    assert((d * y + m) * (d * y + m) == d * d * (y * y) + 2 * d * (y * m) + m * m) by (nonlinear_arith);
    assert(d * d * (x * x) + d * d * (y * y) == d * d * (x * x + y * y)) by (nonlinear_arith);
    assert(2 * d * (x * n) + 2 * d * (y * m) == 2 * d * (x * n + y * m)) by (nonlinear_arith);
}

/// A weight distributed over the expanded square.
proof fn lemma_weighted(w: int, d: int, e: int, c: int, q: int)
    ensures
        w * (d * d * e + 2 * d * c + q) == d * d * (w * e) + 2 * d * (w * c) + w * q,
{
    assert(w * (d * d * e + 2 * d * c + q) == d * d * (w * e) + 2 * d * (w * c) + w * q) by (nonlinear_arith);
}

/// Twice the kinetic energy of two bodies with masses `ma`, `mb` and
/// velocities `(ax, ay)`, `(bx, by)`.
pub open spec fn kinetic_energy2(ma: int, ax: int, ay: int, mb: int, bx: int, by: int) -> int {
    ma * (ax * ax + ay * ay) + mb * (bx * bx + by * by)
}

/// The unrounded velocity changes of a contact as fractions over a common
/// denominator: `(den, a.x, a.y, b.x, b.y)`, the change of `a.velocity.x`
/// being `a.x / den`, and so on.
pub open spec fn contact_fractions(a: BallState, b: BallState) -> (int, int, int, int, int) {
    let dx = b.position.x - a.position.x;
    let dy = b.position.y - a.position.y;
    let s = (a.velocity.x - b.velocity.x) * dx + (a.velocity.y - b.velocity.y) * dy;
    let k = RESTITUTION_ONE + min_restitution(a.ball, b.ball);
    let den = RESTITUTION_ONE * (a.ball.mass + b.ball.mass) * (dx * dx + dy * dy);
    (den, -(k * s * b.ball.mass * dx), -(k * s * b.ball.mass * dy), k * s * a.ball.mass * dx, k * s * a.ball.mass * dy)
}

/// A contact never adds kinetic energy to the pair: the velocities after the
/// unrounded impulse carry at most the energy they had before (scaled by
/// `den^2`), with equality for fully elastic balls only. The changes that the
/// resolver applies are these fractions rounded toward zero.
pub proof fn contact_does_not_add_energy(a: BallState, b: BallState)
    requires
        a.wf(),
        b.wf(),
        collision_response(a, b) is Some,
    ensures
        ({
            let (den, nax, nay, nbx, nby) = contact_fractions(a, b);
            &&& den > 0
            &&& collision_response(a, b) == Some((
                Velocity { x: div_toward_zero(nax, den) as i64, y: div_toward_zero(nay, den) as i64 },
                Velocity { x: div_toward_zero(nbx, den) as i64, y: div_toward_zero(nby, den) as i64 },
            ))
            &&& kinetic_energy2(
                a.ball.mass as int,
                den * a.velocity.x + nax,
                den * a.velocity.y + nay,
                b.ball.mass as int,
                den * b.velocity.x + nbx,
                den * b.velocity.y + nby,
            ) <= den * den * kinetic_energy2(
                a.ball.mass as int,
                a.velocity.x as int,
                a.velocity.y as int,
                b.ball.mass as int,
                b.velocity.x as int,
                b.velocity.y as int,
            )
        }),
{
    let (den, nax, nay, nbx, nby) = contact_fractions(a, b);
    let dx = b.position.x - a.position.x;
    let dy = b.position.y - a.position.y;
    let d2 = dx * dx + dy * dy;
    let ax = a.velocity.x as int;
    let ay = a.velocity.y as int;
    let bx = b.velocity.x as int;
    let by = b.velocity.y as int;
    let ma = a.ball.mass as int;
    let mb = b.ball.mass as int;
    let s = (ax - bx) * dx + (ay - by) * dy;
    let k = RESTITUTION_ONE + min_restitution(a.ball, b.ball);
    let kk = k * s;
    assert(dx * dx >= 0 && dy * dy >= 0) by (nonlinear_arith);
    assert(d2 > 0);
    assert(den > 0) by (nonlinear_arith)
        requires ma > 0, mb > 0, d2 > 0, den == RESTITUTION_ONE * (ma + mb) * d2;
    let wa = kk * mb;
    let wb = kk * ma;
    assert(nax == -(wa * dx) && nay == -(wa * dy)) by (nonlinear_arith)
        requires kk == k * s, wa == kk * mb, nax == -(k * s * mb * dx), nay == -(k * s * mb * dy);
    assert(nbx == wb * dx && nby == wb * dy) by (nonlinear_arith)
        requires kk == k * s, wb == kk * ma, nbx == k * s * ma * dx, nby == k * s * ma * dy;
    // The energy after, expanded around the energy before.
    let ea = ax * ax + ay * ay;
    let eb = bx * bx + by * by;
    let ca = ax * nax + ay * nay;
    let cb = bx * nbx + by * nby;
    let qa = nax * nax + nay * nay;
    let qb = nbx * nbx + nby * nby;
    lemma_shifted_square(den, ax, ay, nax, nay);
    lemma_shifted_square(den, bx, by, nbx, nby);
    lemma_weighted(ma, den, ea, ca, qa);
    lemma_weighted(mb, den, eb, cb, qb);
    let cross = ma * ca + mb * cb;
    let sq = ma * qa + mb * qb;
    let after = kinetic_energy2(ma, den * ax + nax, den * ay + nay, mb, den * bx + nbx, den * by + nby);
    let before = kinetic_energy2(ma, ax, ay, mb, bx, by);
    assert(before == ma * ea + mb * eb);
    assert(den * den * (ma * ea) + den * den * (mb * eb) == den * den * before) by (nonlinear_arith)
        requires before == ma * ea + mb * eb;
    assert(2 * den * (ma * ca) + 2 * den * (mb * cb) == 2 * den * cross) by (nonlinear_arith)
        requires cross == ma * ca + mb * cb;
    assert(after == den * den * before + 2 * den * cross + sq);
    // The cross term.
    let pa = ax * dx + ay * dy;
    let pb = bx * dx + by * dy;
    assert(ca == -(wa * pa)) by (nonlinear_arith)
        requires ca == ax * nax + ay * nay, nax == -(wa * dx), nay == -(wa * dy), pa == ax * dx + ay * dy;
    assert(cb == wb * pb) by (nonlinear_arith)
        requires cb == bx * nbx + by * nby, nbx == wb * dx, nby == wb * dy, pb == bx * dx + by * dy;
    assert(s == pa - pb) by (nonlinear_arith)
        requires s == (ax - bx) * dx + (ay - by) * dy, pa == ax * dx + ay * dy, pb == bx * dx + by * dy;
    let q = ma * mb;
    assert(ma * wa == kk * q && mb * wb == kk * q) by (nonlinear_arith)
        requires wa == kk * mb, wb == kk * ma, q == ma * mb;
    assert(cross == -(kk * q * s)) by (nonlinear_arith)
        requires
            cross == ma * ca + mb * cb,
            ca == -(wa * pa),
            cb == wb * pb,
            ma * wa == kk * q,
            mb * wb == kk * q,
            s == pa - pb;
    // The square term.
    assert(qa == wa * wa * d2) by (nonlinear_arith)
        requires qa == nax * nax + nay * nay, nax == -(wa * dx), nay == -(wa * dy), d2 == dx * dx + dy * dy;
    assert(qb == wb * wb * d2) by (nonlinear_arith)
        requires qb == nbx * nbx + nby * nby, nbx == wb * dx, nby == wb * dy, d2 == dx * dx + dy * dy;
    let p = q * (ma + mb) * d2;
    assert(p >= 0) by (nonlinear_arith) requires ma > 0, mb > 0, d2 > 0, q == ma * mb, p == q * (ma + mb) * d2;
    assert(ma * (wa * wa * d2) == kk * kk * (q * mb * d2)) by (nonlinear_arith)
        requires wa == kk * mb, q == ma * mb;
    assert(mb * (wb * wb * d2) == kk * kk * (q * ma * d2)) by (nonlinear_arith)
        requires wb == kk * ma, q == ma * mb;
    assert(sq == kk * kk * p) by (nonlinear_arith)
        requires
            sq == ma * qa + mb * qb,
            qa == wa * wa * d2,
            qb == wb * wb * d2,
            ma * (wa * wa * d2) == kk * kk * (q * mb * d2),
            mb * (wb * wb * d2) == kk * kk * (q * ma * d2),
            p == q * (ma + mb) * d2;
    assert(2 * den * cross == -(2 * RESTITUTION_ONE) * kk * s * p) by (nonlinear_arith)
        requires
            cross == -(kk * q * s),
            den == RESTITUTION_ONE * (ma + mb) * d2,
            p == q * (ma + mb) * d2;
    assert(2 * den * cross + sq == k * (s * s) * p * (k - 2 * RESTITUTION_ONE)) by (nonlinear_arith)
        requires
            2 * den * cross == -(2 * RESTITUTION_ONE) * kk * s * p,
            sq == kk * kk * p,
            kk == k * s;
    assert(k * (s * s) * p * (k - 2 * RESTITUTION_ONE) <= 0) by (nonlinear_arith)
        requires 0 <= k <= 2 * RESTITUTION_ONE, p >= 0;
}

} // verus!
