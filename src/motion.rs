//! Projectiles and their straight-line motion inside the arena.
use vstd::prelude::*;
use crate::geometry::Point;
use crate::collision::{Rotation, DT_LIMIT, SPEED_LIMIT, TRACK_LIMIT};

verus! {

/// Projectiles that leave the square of this half-width (1000 units, in
/// thousandths) are removed.
pub const ARENA_LIMIT: i64 = 1_000_000;

/// A projectile: where it is (in thousandths of a unit), how fast it goes in
/// units per second, and how it is turned.
#[derive(Clone, Copy, Debug, PartialEq, Eq, Structural)]
pub struct Projectile {
    pub pos: Point,
    pub vel: Point,
    pub rot: Rotation,
}

impl Projectile {
    pub open spec fn wf(self) -> bool {
        self.pos.within(TRACK_LIMIT as int) && self.vel.within(SPEED_LIMIT as int) && self.rot.wf()
    }
}

/// The projectile after `dt_ms` milliseconds: its position advanced by
/// `vel * dt_ms` thousandths, exactly.
pub open spec fn moved(p: Projectile, dt_ms: int) -> Projectile {
    Projectile {
        pos: Point {
            x: (p.pos.x + p.vel.x * dt_ms) as i64,
            y: (p.pos.y + p.vel.y * dt_ms) as i64,
        },
        ..p
    }
}

pub open spec fn in_arena(p: Point) -> bool {
    p.within(ARENA_LIMIT as int)
}

/// The projectiles of `s`, each moved by one frame, that are still in the
/// arena, in their order.
pub open spec fn survivors(s: Seq<Projectile>, dt_ms: int) -> Seq<Projectile>
    decreases s.len(),
{
    if s.len() == 0 {
        Seq::empty()
    } else {
        let rest = survivors(s.drop_last(), dt_ms);
        let m = moved(s.last(), dt_ms);
        if in_arena(m.pos) {
            rest.push(m)
        } else {
            rest
        }
    }
}

/// Survivors stay in the arena.
pub proof fn lemma_survivors_in_arena(s: Seq<Projectile>, dt_ms: int)
    ensures
        forall|i: int|
            0 <= i < survivors(s, dt_ms).len() ==> in_arena(#[trigger] survivors(s, dt_ms)[i].pos),
    decreases s.len(),
{
    if s.len() > 0 {
        lemma_survivors_in_arena(s.drop_last(), dt_ms);
        let rest = survivors(s.drop_last(), dt_ms);
        let m = moved(s.last(), dt_ms);
        if in_arena(m.pos) {
            assert forall|i: int| 0 <= i < rest.push(m).len() implies in_arena(
                #[trigger] rest.push(m)[i].pos,
            ) by {
                if i < rest.len() {
                    assert(rest.push(m)[i] == rest[i]);
                }
            }
        }
    }
}

/// One frame of motion for one projectile.
pub fn advance(p: Projectile, dt_ms: u64) -> (r: Projectile)
    requires
        p.wf(),
        dt_ms <= DT_LIMIT,
    ensures
        r == moved(p, dt_ms as int),
{
    assert(-0x100_0000 <= p.vel.x * dt_ms <= 0x100_0000) by (nonlinear_arith)
        requires -SPEED_LIMIT <= p.vel.x <= SPEED_LIMIT, 0 <= dt_ms <= DT_LIMIT;
    assert(-0x100_0000 <= p.vel.y * dt_ms <= 0x100_0000) by (nonlinear_arith)
        requires -SPEED_LIMIT <= p.vel.y <= SPEED_LIMIT, 0 <= dt_ms <= DT_LIMIT;
    let dt: i64 = dt_ms as i64;
    let dx: i64 = p.vel.x * dt;
    let dy: i64 = p.vel.y * dt;
    Projectile { pos: Point { x: p.pos.x + dx, y: p.pos.y + dy }, vel: p.vel, rot: p.rot }
}

/// Moves every projectile by one frame and drops those that left the arena.
pub fn bullet_movements(bullets: &Vec<Projectile>, dt_ms: u64) -> (r: Vec<Projectile>)
    requires
        forall|i: int| 0 <= i < bullets@.len() ==> (#[trigger] bullets@[i]).wf(),
        dt_ms <= DT_LIMIT,
    ensures
        r@ == survivors(bullets@, dt_ms as int),
{
    let mut r: Vec<Projectile> = Vec::new();
    let mut i: usize = 0;
    while i < bullets.len()
        invariant
            0 <= i <= bullets@.len(),
            dt_ms <= DT_LIMIT,
            forall|j: int| 0 <= j < bullets@.len() ==> (#[trigger] bullets@[j]).wf(),
            r@ == survivors(bullets@.take(i as int), dt_ms as int),
        decreases bullets@.len() - i,
    {
        let m = advance(bullets[i], dt_ms);
        assert(bullets@.take(i as int + 1).drop_last() == bullets@.take(i as int));
        if -ARENA_LIMIT <= m.pos.x && m.pos.x <= ARENA_LIMIT && -ARENA_LIMIT <= m.pos.y && m.pos.y
            <= ARENA_LIMIT {
            r.push(m);
        }
        i = i + 1;
    }
    assert(bullets@.take(bullets@.len() as int) == bullets@);
    r
}

} // verus!
