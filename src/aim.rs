//! Aiming a new projectile: its velocity is the direction from the spawn point
//! to the player, scaled to the projectile speed, in integers.
use vstd::prelude::*;
use vstd::arithmetic::div_mod::lemma_fundamental_div_mod;
use crate::geometry::Point;
use crate::collision::Rotation;
use crate::motion::Projectile;

verus! {

/// Largest magnitude of a coordinate handed to the aiming functions.
pub const AIM_LIMIT: i64 = 0x100_0000;

/// Speed of a projectile, in units per second.
pub const BULLET_SPEED: i64 = 1000;

/// The integer square root: the largest `r` with `r * r <= n`.
pub fn isqrt(n: u64) -> (r: u64)
    ensures
        r * r <= n < (r + 1) * (r + 1),
{
    let mut lo: u64 = 0;
    let mut hi: u64 = 0x1_0000_0000;
    assert(n < hi * hi) by (nonlinear_arith)
        requires hi == 0x1_0000_0000, n <= u64::MAX;
    while hi - lo > 1
        invariant
            lo < hi <= 0x1_0000_0000,
            lo * lo <= n < hi * hi,
        decreases hi - lo,
    {
        let mid: u64 = lo + (hi - lo) / 2;
        assert(mid * mid <= 0x1_0000_0000 * 0x1_0000_0000) by (nonlinear_arith)
            requires mid <= 0x1_0000_0000;
        if (mid as u128) * (mid as u128) <= n as u128 {
            lo = mid;
        } else {
            hi = mid;
        }
    }
    assert(hi == lo + 1);
    lo
}

pub open spec fn abs(a: int) -> int {
    if a < 0 { -a } else { a }
}

/// `v` is the component `d` of a vector of squared length `len2`, scaled to
/// length `BULLET_SPEED` and rounded toward zero.
pub open spec fn scaled_component(d: int, len2: int, v: int) -> bool {
    (d >= 0 ==> v >= 0) && (d <= 0 ==> v <= 0) && v * v * len2 <= d * d * BULLET_SPEED
        * BULLET_SPEED < (abs(v) + 1) * (abs(v) + 1) * len2
}

fn scale_component(d: i64, len2: u64) -> (v: i64)
    requires
        -2 * AIM_LIMIT <= d <= 2 * AIM_LIMIT,
        d * d <= len2,
        len2 > 0,
    ensures
        scaled_component(d as int, len2 as int, v as int),
        -BULLET_SPEED <= v <= BULLET_SPEED,
{
    let m: u64 = if d < 0 { (-d) as u64 } else { d as u64 };
    assert(m * m == d * d) by (nonlinear_arith)
        requires m == abs(d as int);
    let s2: u128 = (BULLET_SPEED * BULLET_SPEED) as u128;
    assert(m * m * s2 <= len2 * s2) by (nonlinear_arith)
        requires m * m <= len2, s2 >= 0;
    assert(len2 * s2 <= u64::MAX * 1000000) by (nonlinear_arith)
        requires len2 <= u64::MAX, s2 == 1000000;
    let num: u128 = (m as u128) * (m as u128) * s2;
    let q: u128 = num / (len2 as u128);
    proof {
        lemma_fundamental_div_mod(num as int, len2 as int);
    }
    assert(q <= s2) by (nonlinear_arith)
        requires num == len2 * q + (num as int) % (len2 as int), 0 <= (num as int) % (len2 as int), num <= len2 * s2,
            len2 > 0, q >= 0;
    let r = isqrt(q as u64);
    assert(r <= 1000) by (nonlinear_arith)
        requires r * r <= q, q <= 1000000, r >= 0;
    assert(r * r * len2 <= num) by (nonlinear_arith)
        requires r * r <= q, num == len2 * q + (num as int) % (len2 as int), 0 <= (num as int) % (len2 as int),
            len2 > 0;
    assert(num < (r + 1) * (r + 1) * len2) by (nonlinear_arith)
        requires q < (r + 1) * (r + 1), num == len2 * q + (num as int) % (len2 as int), (num as int) % (len2 as int)
            < len2, len2 > 0;
    if d == 0 {
        assert(num == 0) by (nonlinear_arith)
            requires num == m * m * s2, m == 0;
        assert(r == 0) by (nonlinear_arith)
            requires r * r * len2 <= num, num == 0, len2 > 0, r >= 0;
    }
    let v: i64 = if d < 0 { -(r as i64) } else { r as i64 };
    assert(v * v == r * r) by (nonlinear_arith)
        requires v == r || v == -r;
    assert(v * v * len2 <= d * d * BULLET_SPEED * BULLET_SPEED) by (nonlinear_arith)
        requires v * v == r * r, r * r * len2 <= num, num == m * m * s2, m * m == d * d, s2
            == 1000000, BULLET_SPEED == 1000;
    assert(d * d * BULLET_SPEED * BULLET_SPEED < (abs(v as int) + 1) * (abs(v as int) + 1) * len2)
        by (nonlinear_arith)
        requires abs(v as int) == r, num < (r + 1) * (r + 1) * len2, num == m * m * s2, m * m
            == d * d, s2 == 1000000, BULLET_SPEED == 1000;
    v
}

/// `v` is the velocity of speed `BULLET_SPEED` from `from` toward `to`,
/// each component rounded toward zero; zero when the two points coincide.
pub open spec fn aimed_velocity(from: Point, to: Point, v: Point) -> bool {
    let dx = to.x - from.x;
    let dy = to.y - from.y;
    &&& from == to ==> v == (Point { x: 0, y: 0 })
    &&& from != to ==> scaled_component(dx, dx * dx + dy * dy, v.x as int) && scaled_component(
        dy,
        dx * dx + dy * dy,
        v.y as int,
    )
}

/// The projectile speed along the direction from `from` to `to`; zero when
/// the two points coincide.
pub fn aim_velocity(from: Point, to: Point) -> (v: Point)
    requires
        from.within(AIM_LIMIT as int),
        to.within(AIM_LIMIT as int),
    ensures
        aimed_velocity(from, to, v),
        v.within(BULLET_SPEED as int),
{
    let dx: i64 = to.x - from.x;
    let dy: i64 = to.y - from.y;
    assert(0 <= dx * dx <= 4 * AIM_LIMIT * AIM_LIMIT) by (nonlinear_arith)
        requires -2 * AIM_LIMIT <= dx <= 2 * AIM_LIMIT;
    assert(0 <= dy * dy <= 4 * AIM_LIMIT * AIM_LIMIT) by (nonlinear_arith)
        requires -2 * AIM_LIMIT <= dy <= 2 * AIM_LIMIT;
    let len2: u64 = (dx * dx) as u64 + (dy * dy) as u64;
    if len2 == 0 {
        assert(dx == 0 && dy == 0) by (nonlinear_arith)
            requires dx * dx + dy * dy == 0;
        return Point { x: 0, y: 0 };
    }
    assert(from != to) by {
        if from == to {
            assert(dx * dx + dy * dy == 0) by (nonlinear_arith)
                requires dx == 0, dy == 0;
        }
    }
    Point { x: scale_component(dx, len2), y: scale_component(dy, len2) }
}

/// The rotation of a projectile moving with velocity `v`: the direction of
/// `v` over the speed, or none for a projectile at rest. Since the velocity
/// is rounded toward zero, cos * cos + sin * sin falls short of scale * scale
/// by less than three parts in a thousand, which shrinks the hit rectangle by
/// less than one and a half parts in a thousand.
pub open spec fn facing(v: Point) -> Rotation {
    if v.x == 0 && v.y == 0 {
        Rotation { cos: 1, sin: 0, scale: 1 }
    } else {
        Rotation { cos: v.x, sin: v.y, scale: BULLET_SPEED }
    }
}

/// A projectile at `spawn` aimed at `player`, turned to face where it goes.
pub fn aim(spawn: Point, player: Point) -> (b: Projectile)
    requires
        spawn.within(AIM_LIMIT as int),
        player.within(AIM_LIMIT as int),
    ensures
        b.wf(),
        b.pos == spawn,
        aimed_velocity(spawn, player, b.vel),
        b.rot == facing(b.vel),
{
    let vel = aim_velocity(spawn, player);
    let rot = if vel.x == 0 && vel.y == 0 {
        Rotation::identity()
    } else {
        Rotation { cos: vel.x, sin: vel.y, scale: BULLET_SPEED }
    };
    Projectile { pos: spawn, vel, rot }
}

} // verus!
