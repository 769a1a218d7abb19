//! The round: its phase, score, spawn timer, player and projectiles.
use vstd::prelude::*;
use crate::geometry::Point;
use crate::collision::{Rotation, DT_LIMIT, POS_LIMIT, TRACK_LIMIT, hits_during, collide_with_rotation_multistep};
use crate::motion::{Projectile, bullet_movements, survivors};
use crate::aim::{AIM_LIMIT, aim, aimed_velocity, facing, isqrt};
use vstd::arithmetic::div_mod::lemma_fundamental_div_mod;

verus! {

/// Milliseconds between two spawns.
pub const SPAWN_PERIOD_MS: u64 = 200;

/// Number of milliradian steps in a full turn, from which a spawn angle is drawn.
pub const SPAWN_ANGLE_STEPS: u32 = 6283;

/// Half-width of the square the player is kept in (500 units, in thousandths).
pub const PLAYER_LIMIT: i64 = 500_000;

/// Speed of the player, in units per second.
pub const PLAYER_SPEED: u64 = 250;

/// Positions sampled per frame in the collision check.
pub const COLLISION_STEPS: u16 = 5;

#[derive(Clone, Copy, Debug, PartialEq, Eq, Structural)]
pub enum Phase {
    Start,
    Playing,
}

/// Relies on rand::Rng::gen_range on rand::thread_rng: a value in 0..bound,
/// panicking only on an empty range.
#[verifier::external_body]
fn random_below(bound: u32) -> (r: u32)
    requires
        bound > 0,
    ensures
        r < bound,
{
    rand::Rng::gen_range(&mut rand::thread_rng(), 0..bound)
}

/// A random spawn angle in milliradians, in [0, 2 pi).
pub fn spawn_angle_millirad() -> (r: u32)
    ensures
        r < SPAWN_ANGLE_STEPS,
{
    random_below(SPAWN_ANGLE_STEPS)
}

pub open spec fn clamp(v: int, limit: int) -> int {
    if v < -limit {
        -limit
    } else if v > limit {
        limit
    } else {
        v
    }
}

/// The state of a game: the phase, the score in milliseconds survived, the
/// time since the last spawn, the player's position and the projectiles.
pub struct Game {
    pub phase: Phase,
    pub score_ms: u64,
    pub timer_ms: u64,
    pub player: Point,
    pub bullets: Vec<Projectile>,
}

impl Game {
    pub open spec fn wf(&self) -> bool {
        self.timer_ms < SPAWN_PERIOD_MS && self.player.within(PLAYER_LIMIT as int) && forall|i: int|
            0 <= i < self.bullets@.len() ==> (#[trigger] self.bullets@[i]).wf()
    }

    /// A game waiting to start, with the player at the center.
    pub fn new() -> (r: Game)
        ensures
            r.wf(),
            r.phase == Phase::Start,
            r.score_ms == 0,
            r.timer_ms == 0,
            r.player == (Point { x: 0, y: 0 }),
            r.bullets@.len() == 0,
    {
        Game { phase: Phase::Start, score_ms: 0, timer_ms: 0, player: Point { x: 0, y: 0 }, bullets: Vec::new() }
    }

    /// The begin signal: from Start, enters Playing with no projectiles, a zero
    /// score and a fresh spawn timer; while Playing, changes nothing.
    pub fn begin(&mut self)
        requires
            old(self).wf(),
        ensures
            final(self).wf(),
            final(self).player == old(self).player,
            old(self).phase == Phase::Start ==> final(self).phase == Phase::Playing
                && final(self).score_ms == 0 && final(self).timer_ms == 0 && final(self).bullets@.len() == 0,
            old(self).phase == Phase::Playing ==> final(self).phase == Phase::Playing
                && final(self).score_ms == old(self).score_ms && final(self).timer_ms == old(self).timer_ms
                && final(self).bullets@ == old(self).bullets@,
    {
        if self.phase == Phase::Start {
            self.phase = Phase::Playing;
            self.score_ms = 0;
            self.timer_ms = 0;
            self.bullets = Vec::new();
        }
    }

    /// Advances the score and the repeating spawn timer by `dt_ms`; returns
    /// whether the timer went off, that is whether a projectile is due.
    pub fn tick(&mut self, dt_ms: u64) -> (due: bool)
        requires
            old(self).wf(),
        ensures
            final(self).wf(),
            due == (old(self).timer_ms + dt_ms >= SPAWN_PERIOD_MS),
            final(self).timer_ms == (old(self).timer_ms + dt_ms) % (SPAWN_PERIOD_MS as int),
            final(self).score_ms == (if old(self).score_ms + dt_ms > u64::MAX { u64::MAX as int } else {
                old(self).score_ms + dt_ms }),
            final(self).phase == old(self).phase,
            final(self).player == old(self).player,
            final(self).bullets@ == old(self).bullets@,
    {
        self.score_ms = self.score_ms.saturating_add(dt_ms);
        let elapsed: u128 = self.timer_ms as u128 + dt_ms as u128;
        self.timer_ms = (elapsed % (SPAWN_PERIOD_MS as u128)) as u64;
        elapsed >= SPAWN_PERIOD_MS as u128
    }

    /// Adds a projectile.
    pub fn spawn(&mut self, bullet: Projectile)
        requires
            old(self).wf(),
            bullet.wf(),
        ensures
            final(self).wf(),
            final(self).bullets@ == old(self).bullets@.push(bullet),
            final(self).phase == old(self).phase,
            final(self).score_ms == old(self).score_ms,
            final(self).timer_ms == old(self).timer_ms,
            final(self).player == old(self).player,
    {
        self.bullets.push(bullet);
    }

    /// Adds a projectile at `spawn_point` aimed at the player's current position.
    pub fn spawn_at(&mut self, spawn_point: Point)
        requires
            old(self).wf(),
            spawn_point.within(AIM_LIMIT as int),
        ensures
            final(self).wf(),
            final(self).bullets@.len() == old(self).bullets@.len() + 1,
            final(self).bullets@.drop_last() == old(self).bullets@,
            final(self).bullets@.last().pos == spawn_point,
            aimed_velocity(spawn_point, old(self).player, final(self).bullets@.last().vel),
            final(self).bullets@.last().rot == facing(final(self).bullets@.last().vel),
            final(self).phase == old(self).phase,
            final(self).score_ms == old(self).score_ms,
            final(self).timer_ms == old(self).timer_ms,
            final(self).player == old(self).player,
    {
        let b = aim(spawn_point, self.player);
        self.bullets.push(b);
        assert(self.bullets@.drop_last() == old(self).bullets@);
    }

    /// Moves all projectiles by one frame and removes those that left the arena.
    pub fn move_bullets(&mut self, dt_ms: u64)
        requires
            old(self).wf(),
            dt_ms <= DT_LIMIT,
        ensures
            final(self).wf(),
            final(self).bullets@ == survivors(old(self).bullets@, dt_ms as int),
            final(self).phase == old(self).phase,
            final(self).score_ms == old(self).score_ms,
            final(self).timer_ms == old(self).timer_ms,
            final(self).player == old(self).player,
    {
        let moved = bullet_movements(&self.bullets, dt_ms);
        proof {
            crate::motion::lemma_survivors_in_arena(self.bullets@, dt_ms as int);
        }
        assert forall|i: int| 0 <= i < moved@.len() implies (#[trigger] moved@[i]).wf() by {
            lemma_survivor_wf(self.bullets@, dt_ms as int, i);
        }
        self.bullets = moved;
    }

    /// Moves the player by `step` and keeps it within the player's square.
    pub fn move_player(&mut self, step: Point)
        requires
            old(self).wf(),
            step.within(POS_LIMIT as int),
        ensures
            final(self).wf(),
            final(self).player.x == clamp(old(self).player.x + step.x, PLAYER_LIMIT as int),
            final(self).player.y == clamp(old(self).player.y + step.y, PLAYER_LIMIT as int),
            final(self).phase == old(self).phase,
            final(self).score_ms == old(self).score_ms,
            final(self).timer_ms == old(self).timer_ms,
            final(self).bullets@ == old(self).bullets@,
    {
        let x = clamp_axis(self.player.x + step.x);
        let y = clamp_axis(self.player.y + step.y);
        self.player = Point { x, y };
    }

    /// Whether some projectile, of the given size, hit the player during the
    /// last frame, by the sampled test.
    pub fn collides(&self, dt_ms: u64, bullet_size: Point) -> (r: bool)
        requires
            self.wf(),
            dt_ms <= DT_LIMIT,
            0 <= bullet_size.x <= TRACK_LIMIT,
            0 <= bullet_size.y <= TRACK_LIMIT,
        ensures
            r == exists|i: int|
                0 <= i < self.bullets@.len() && #[trigger] hits_during(
                    dt_ms as int,
                    self.player,
                    self.bullets@[i].pos,
                    bullet_size,
                    self.bullets@[i].rot,
                    self.bullets@[i].vel,
                    COLLISION_STEPS as int,
                ),
    {
        let mut i: usize = 0;
        while i < self.bullets.len()
            invariant
                self.wf(),
                dt_ms <= DT_LIMIT,
                0 <= bullet_size.x <= TRACK_LIMIT,
                0 <= bullet_size.y <= TRACK_LIMIT,
                0 <= i <= self.bullets@.len(),
                forall|j: int|
                    0 <= j < i ==> !#[trigger] hits_during(
                        dt_ms as int,
                        self.player,
                        self.bullets@[j].pos,
                        bullet_size,
                        self.bullets@[j].rot,
                        self.bullets@[j].vel,
                        COLLISION_STEPS as int,
                    ),
            decreases self.bullets@.len() - i,
        {
            let b = self.bullets[i];
            assert(self.bullets@[i as int].wf());
            if collide_with_rotation_multistep(dt_ms, self.player, b.pos, bullet_size, b.rot, b.vel, COLLISION_STEPS) {
                return true;
            }
            i = i + 1;
        }
        false
    }

    /// Ends the round when `hit` holds: the phase goes back to Start and the
    /// score stays for reporting.
    pub fn end_round(&mut self, hit: bool)
        requires
            old(self).wf(),
        ensures
            final(self).wf(),
            final(self).phase == (if hit { Phase::Start } else { old(self).phase }),
            final(self).score_ms == old(self).score_ms,
            final(self).timer_ms == old(self).timer_ms,
            final(self).player == old(self).player,
            final(self).bullets@ == old(self).bullets@,
    {
        if hit {
            self.phase = Phase::Start;
        }
    }
}

/// Length of a diagonal step of the player per axis, in thousandths: `b` is
/// the largest integer with b * sqrt(2) <= PLAYER_SPEED * dt_ms.
pub open spec fn diagonal_step(dt_ms: int, b: int) -> bool {
    let n = (PLAYER_SPEED * dt_ms) * (PLAYER_SPEED * dt_ms);
    b >= 0 && b * b * 2 <= n < (b + 1) * (b + 1) * 2
}

/// The direction pressed: right and up count +1, left and down -1.
pub open spec fn direction(right: bool, left: bool, up: bool, down: bool) -> (int, int) {
    ((if right { 1int } else { 0 }) - (if left { 1int } else { 0 }), (if up { 1int } else { 0 }) - (
    if down { 1int } else { 0 }))
}

/// The player's displacement for one frame, in thousandths of a unit: the
/// pressed direction, normalised, times `PLAYER_SPEED * dt_ms`. A straight
/// step is exact; a diagonal one is rounded down per axis to a thousandth, so
/// its length is within one and a half thousandths of a straight step's.
pub fn player_step(right: bool, left: bool, up: bool, down: bool, dt_ms: u64) -> (r: Point)
    requires
        dt_ms <= DT_LIMIT,
    ensures
        ({
            let (dx, dy) = direction(right, left, up, down);
            let a = PLAYER_SPEED * dt_ms;
            &&& dx == 0 && dy == 0 ==> r == (Point { x: 0, y: 0 })
            &&& (dx == 0) != (dy == 0) ==> r.x == dx * a && r.y == dy * a
            &&& dx != 0 && dy != 0 ==> r.x * dx >= 0 && r.y * dy >= 0 && r.x * r.x == r.y * r.y
                && diagonal_step(dt_ms as int, abs_int(r.x as int))
        }),
        r.within(POS_LIMIT as int),
{
    let dx: i64 = (if right { 1i64 } else { 0 }) - (if left { 1i64 } else { 0 });
    let dy: i64 = (if up { 1i64 } else { 0 }) - (if down { 1i64 } else { 0 });
    let dist: u64 = PLAYER_SPEED * dt_ms;
    if dx == 0 && dy == 0 {
        Point { x: 0, y: 0 }
    } else if dx == 0 || dy == 0 {
        let a: i64 = dist as i64;
        Point { x: dx * a, y: dy * a }
    } else {
        assert(dist * dist <= (250 * 0x1000) * (250 * 0x1000)) by (nonlinear_arith)
            requires 0 <= dist <= 250 * 0x1000;
        let n: u64 = dist * dist;
        let q: u64 = n / 2;
        proof {
            lemma_fundamental_div_mod(n as int, 2);
        }
        let b = isqrt(q);
        assert(b * b <= 0x10_0000 * 0x10_0000) by (nonlinear_arith)
            requires b * b <= q, n == 2 * q + n % 2, 0 <= n % 2, q >= 0, n == dist * dist, 0
                <= dist <= 250 * 0x1000;
        assert(b <= 0x10_0000) by (nonlinear_arith)
            requires b * b <= 0x10_0000 * 0x10_0000, b >= 0;
        assert(b * b * 2 <= n) by (nonlinear_arith)
            requires b * b <= q, n == 2 * q + n % 2, 0 <= n % 2;
        assert(n < (b + 1) * (b + 1) * 2) by (nonlinear_arith)
            requires q < (b + 1) * (b + 1), n == 2 * q + n % 2, n % 2 < 2;
        let bi = b as i64;
        let r = Point { x: dx * bi, y: dy * bi };
        assert(abs_int(r.x as int) == b);
        assert(r.x * r.x == b * b && r.y * r.y == b * b) by (nonlinear_arith)
            requires r.x == b || r.x == -b, r.y == b || r.y == -b;
        assert(r.x * dx >= 0 && r.y * dy >= 0) by (nonlinear_arith)
            requires r.x == dx * b, r.y == dy * b, b >= 0, dx == 1 || dx == -1, dy == 1 || dy == -1;
        assert(diagonal_step(dt_ms as int, b as int));
        r
    }
}

pub open spec fn abs_int(a: int) -> int {
    if a < 0 { -a } else { a }
}

fn clamp_axis(v: i64) -> (r: i64)
    ensures
        r == clamp(v as int, PLAYER_LIMIT as int),
{
    if v < -PLAYER_LIMIT {
        -PLAYER_LIMIT
    } else if v > PLAYER_LIMIT {
        PLAYER_LIMIT
    } else {
        v
    }
}

proof fn lemma_survivor_wf(s: Seq<Projectile>, dt_ms: int, i: int)
    requires
        forall|j: int| 0 <= j < s.len() ==> (#[trigger] s[j]).wf(),
        0 <= i < survivors(s, dt_ms).len(),
    ensures
        survivors(s, dt_ms)[i].wf(),
    decreases s.len(),
{
    crate::motion::lemma_survivors_in_arena(s, dt_ms);
    let rest = survivors(s.drop_last(), dt_ms);
    if i < rest.len() {
        assert forall|j: int| 0 <= j < s.drop_last().len() implies (#[trigger] s.drop_last()[j]).wf() by {
            assert(s[j].wf());
        }
        lemma_survivor_wf(s.drop_last(), dt_ms, i);
    } else {
        assert(s[s.len() - 1].wf());
    }
}

} // verus!
