//! Collision of a point with a rotated rectangle, at one instant and sampled
//! backwards over one frame of motion.
use vstd::prelude::*;
use vstd::arithmetic::div_mod::lemma_fundamental_div_mod;
use crate::geometry::{Point, GEOM_LIMIT, in_rectangle, point_in_rectangle, turned,
    lemma_rectangle_test_rotation_invariant};

verus! {

// Positions and sizes are in thousandths of a unit, velocities in units per
// second and times in milliseconds, so that velocity times time is an exact
// displacement.

/// Largest magnitude of a position handed to the instantaneous test.
pub const POS_LIMIT: i64 = 0x200_0000_0000;

/// Largest side handed to the instantaneous test.
pub const SIZE_LIMIT: i64 = 0x100_0000_0000;

/// Largest magnitude of a position or side handed to the sampled test.
pub const TRACK_LIMIT: i64 = 0x100_0000;

/// Largest magnitude of a rotation's entries.
pub const ROT_LIMIT: i64 = 0x1000;

/// Largest magnitude of a velocity component, in units per second.
pub const SPEED_LIMIT: i64 = 0x1000;

/// Longest frame, in milliseconds.
pub const DT_LIMIT: u64 = 0x1000;

/// A rotation in fixed point: the matrix [[cos, -sin], [sin, cos]] divided by
/// `scale`. With cos * cos + sin * sin == scale * scale it is exact.
#[derive(Clone, Copy, Debug, PartialEq, Eq, Structural)]
pub struct Rotation {
    pub cos: i64,
    pub sin: i64,
    pub scale: i64,
}

impl Rotation {
    pub open spec fn wf(self) -> bool {
        0 < self.scale <= ROT_LIMIT && -ROT_LIMIT <= self.cos <= ROT_LIMIT && -ROT_LIMIT
            <= self.sin <= ROT_LIMIT && (self.cos != 0 || self.sin != 0)
    }

    /// No rotation.
    pub fn identity() -> (r: Rotation)
        ensures
            r.wf(),
            r.cos == 1 && r.sin == 0 && r.scale == 1,
    {
        Rotation { cos: 1, sin: 0, scale: 1 }
    }
}

/// `p` in the grid refined by 2 * scale, where the corners are exact.
pub open spec fn refined(p: Point, rot: Rotation) -> Point {
    Point { x: (2 * rot.scale * p.x) as i64, y: (2 * rot.scale * p.y) as i64 }
}

/// The corner (sx * w / 2, sy * h / 2) of the rectangle, rotated and moved
/// to `center`, in the refined grid.
pub open spec fn corner(center: Point, size: Point, rot: Rotation, sx: int, sy: int) -> Point {
    Point {
        x: (2 * rot.scale * center.x + rot.cos * (sx * size.x) - rot.sin * (sy * size.y)) as i64,
        y: (2 * rot.scale * center.y + rot.sin * (sx * size.x) + rot.cos * (sy * size.y)) as i64,
    }
}

/// `point` lies in the rectangle of the given center, size and rotation,
/// split along its diagonal into two triangles.
pub open spec fn hits(point: Point, center: Point, size: Point, rot: Rotation) -> bool {
    in_rectangle(
        refined(point, rot),
        corner(center, size, rot, -1, 1),
        corner(center, size, rot, -1, -1),
        corner(center, size, rot, 1, 1),
        corner(center, size, rot, 1, -1),
    )
}

proof fn lemma_refined_bounds(p: Point, rot: Rotation)
    requires
        p.within(POS_LIMIT as int),
        rot.wf(),
    ensures
        -(2 * ROT_LIMIT) * POS_LIMIT <= 2 * rot.scale * p.x <= (2 * ROT_LIMIT) * POS_LIMIT,
        -(2 * ROT_LIMIT) * POS_LIMIT <= 2 * rot.scale * p.y <= (2 * ROT_LIMIT) * POS_LIMIT,
        refined(p, rot).x == 2 * rot.scale * p.x,
        refined(p, rot).y == 2 * rot.scale * p.y,
{
    let k = 2 * rot.scale;
    assert(-(2 * ROT_LIMIT) * POS_LIMIT <= k * p.x <= (2 * ROT_LIMIT) * POS_LIMIT)
        by (nonlinear_arith)
        requires 0 < k <= 2 * ROT_LIMIT, -POS_LIMIT <= p.x <= POS_LIMIT;
    assert(-(2 * ROT_LIMIT) * POS_LIMIT <= k * p.y <= (2 * ROT_LIMIT) * POS_LIMIT)
        by (nonlinear_arith)
        requires 0 < k <= 2 * ROT_LIMIT, -POS_LIMIT <= p.y <= POS_LIMIT;
}

proof fn lemma_corner_bounds(center: Point, size: Point, rot: Rotation, sx: int, sy: int)
    requires
        center.within(POS_LIMIT as int),
        0 <= size.x <= SIZE_LIMIT,
        0 <= size.y <= SIZE_LIMIT,
        rot.wf(),
        sx == 1 || sx == -1,
        sy == 1 || sy == -1,
    ensures
        corner(center, size, rot, sx, sy).x == 2 * rot.scale * center.x + rot.cos * (sx * size.x)
            - rot.sin * (sy * size.y),
        corner(center, size, rot, sx, sy).y == 2 * rot.scale * center.y + rot.sin * (sx * size.x)
            + rot.cos * (sy * size.y),
        corner(center, size, rot, sx, sy).within(GEOM_LIMIT as int),
        -ROT_LIMIT * SIZE_LIMIT <= rot.cos * (sx * size.x) <= ROT_LIMIT * SIZE_LIMIT,
        -ROT_LIMIT * SIZE_LIMIT <= rot.sin * (sy * size.y) <= ROT_LIMIT * SIZE_LIMIT,
        -ROT_LIMIT * SIZE_LIMIT <= rot.sin * (sx * size.x) <= ROT_LIMIT * SIZE_LIMIT,
        -ROT_LIMIT * SIZE_LIMIT <= rot.cos * (sy * size.y) <= ROT_LIMIT * SIZE_LIMIT,
{
    lemma_refined_bounds(center, rot);
    let w = sx * size.x;
    let h = sy * size.y;
    let l = ROT_LIMIT * SIZE_LIMIT;
    assert(w == size.x || w == -size.x) by (nonlinear_arith)
        requires w == sx * size.x, sx == 1 || sx == -1;
    assert(h == size.y || h == -size.y) by (nonlinear_arith)
        requires h == sy * size.y, sy == 1 || sy == -1;
    assert(-l <= rot.cos * w <= l) by (nonlinear_arith)
        requires -ROT_LIMIT <= rot.cos <= ROT_LIMIT, -SIZE_LIMIT <= w <= SIZE_LIMIT, l == ROT_LIMIT
            * SIZE_LIMIT;
    assert(-l <= rot.sin * h <= l) by (nonlinear_arith)
        requires -ROT_LIMIT <= rot.sin <= ROT_LIMIT, -SIZE_LIMIT <= h <= SIZE_LIMIT, l == ROT_LIMIT
            * SIZE_LIMIT;
    assert(-l <= rot.sin * w <= l) by (nonlinear_arith)
        requires -ROT_LIMIT <= rot.sin <= ROT_LIMIT, -SIZE_LIMIT <= w <= SIZE_LIMIT, l == ROT_LIMIT
            * SIZE_LIMIT;
    assert(-l <= rot.cos * h <= l) by (nonlinear_arith)
        requires -ROT_LIMIT <= rot.cos <= ROT_LIMIT, -SIZE_LIMIT <= h <= SIZE_LIMIT, l == ROT_LIMIT
            * SIZE_LIMIT;
}

fn refine(p: Point, rot: Rotation) -> (r: Point)
    requires
        p.within(POS_LIMIT as int),
        rot.wf(),
    ensures
        r == refined(p, rot),
        r.within(GEOM_LIMIT as int),
{
    proof {
        lemma_refined_bounds(p, rot);
    }
    let k: i64 = 2 * rot.scale;
    Point { x: k * p.x, y: k * p.y }
}

fn corner_of(center: Point, size: Point, rot: Rotation, sx: i64, sy: i64) -> (r: Point)
    requires
        center.within(POS_LIMIT as int),
        0 <= size.x <= SIZE_LIMIT,
        0 <= size.y <= SIZE_LIMIT,
        rot.wf(),
        sx == 1 || sx == -1,
        sy == 1 || sy == -1,
    ensures
        r == corner(center, size, rot, sx as int, sy as int),
        r.within(GEOM_LIMIT as int),
{
    proof {
        lemma_refined_bounds(center, rot);
        lemma_corner_bounds(center, size, rot, sx as int, sy as int);
    }
    let k: i64 = 2 * rot.scale;
    let w: i64 = sx * size.x;
    let h: i64 = sy * size.y;
    Point {
        x: k * center.x + rot.cos * w - rot.sin * h,
        y: k * center.y + rot.sin * w + rot.cos * h,
    }
}

/// Instantaneous test: whether `point` lies in the closed rectangle of size
/// `size` centred on `center` and turned by `rot`. The four corners are the
/// half-size offsets rotated and moved to the center, worked out exactly on
/// a grid refined by 2 * scale.
pub fn collide_with_rotation(point: Point, center: Point, size: Point, rot: Rotation) -> (r: bool)
    requires
        point.within(POS_LIMIT as int),
        center.within(POS_LIMIT as int),
        0 <= size.x <= SIZE_LIMIT,
        0 <= size.y <= SIZE_LIMIT,
        rot.wf(),
    ensures
        r == hits(point, center, size, rot),
{
    let t = refine(point, rot);
    let p1 = corner_of(center, size, rot, -1, 1);
    let p2 = corner_of(center, size, rot, -1, -1);
    let p3 = corner_of(center, size, rot, 1, 1);
    let p4 = corner_of(center, size, rot, 1, -1);
    point_in_rectangle(t, p1, p2, p3, p4)
}

/// `p` on a grid `n` times finer.
pub open spec fn times(p: Point, n: int) -> Point {
    Point { x: (n * p.x) as i64, y: (n * p.y) as i64 }
}

/// Sample `i` of `n` hits: the rectangle's center moved back by exactly i / n
/// of the frame's displacement `vel * dt_ms` (velocity in units per second,
/// time in milliseconds, so the displacement is in thousandths), checked on a
/// grid `n` times finer so that no rounding occurs.
pub open spec fn sample_hits(
    dt_ms: int,
    point: Point,
    center: Point,
    size: Point,
    rot: Rotation,
    vel: Point,
    i: int,
    n: int,
) -> bool {
    hits(
        times(point, n),
        Point { x: (n * center.x - i * vel.x * dt_ms) as i64, y: (n * center.y - i * vel.y * dt_ms) as i64 },
        times(size, n),
        rot,
    )
}

/// Some of the `steps` samples of the frame's trajectory hits the point.
pub open spec fn hits_during(
    dt_ms: int,
    point: Point,
    center: Point,
    size: Point,
    rot: Rotation,
    vel: Point,
    steps: int,
) -> bool {
    exists|i: int|
        0 <= i < steps && #[trigger] sample_hits(dt_ms, point, center, size, rot, vel, i, steps)
}

fn scale_by(p: Point, n: u16) -> (r: Point)
    requires
        p.within(TRACK_LIMIT as int),
    ensures
        r == times(p, n as int),
        r.x == n * p.x,
        r.y == n * p.y,
        r.within(0x100_0000_0000),
{
    let m: i64 = n as i64;
    assert(-0x100_0000_0000 <= m * p.x <= 0x100_0000_0000) by (nonlinear_arith)
        requires 0 <= m <= 0x10000, -TRACK_LIMIT <= p.x <= TRACK_LIMIT;
    assert(-0x100_0000_0000 <= m * p.y <= 0x100_0000_0000) by (nonlinear_arith)
        requires 0 <= m <= 0x10000, -TRACK_LIMIT <= p.y <= TRACK_LIMIT;
    Point { x: m * p.x, y: m * p.y }
}

fn back_offset(v: i64, dt_ms: u64, i: u16) -> (r: i64)
    requires
        -SPEED_LIMIT <= v <= SPEED_LIMIT,
        dt_ms <= DT_LIMIT,
    ensures
        r == i * v * dt_ms,
        -0x100_0000_0000 <= r <= 0x100_0000_0000,
{
    assert(-0x100_0000_0000 <= i * v * dt_ms <= 0x100_0000_0000) by (nonlinear_arith)
        requires 0 <= i <= 0xffff, -SPEED_LIMIT <= v <= SPEED_LIMIT, 0 <= dt_ms <= DT_LIMIT;
    assert(-0x1000_0000 <= i * v <= 0x1000_0000) by (nonlinear_arith)
        requires 0 <= i <= 0xffff, -SPEED_LIMIT <= v <= SPEED_LIMIT;
    (i as i64) * v * (dt_ms as i64)
}

/// Sampled test over one frame: checks the rectangle at `steps` positions,
/// walking back from `center` toward where it stood at the start of the frame,
/// in equal shares of the frame's displacement.
pub fn collide_with_rotation_multistep(
    dt_ms: u64,
    point: Point,
    center: Point,
    size: Point,
    rot: Rotation,
    vel: Point,
    steps: u16,
) -> (r: bool)
    requires
        dt_ms <= DT_LIMIT,
        point.within(TRACK_LIMIT as int),
        center.within(TRACK_LIMIT as int),
        0 <= size.x <= TRACK_LIMIT,
        0 <= size.y <= TRACK_LIMIT,
        rot.wf(),
        vel.within(SPEED_LIMIT as int),
    ensures
        r == hits_during(dt_ms as int, point, center, size, rot, vel, steps as int),
{
    let p = scale_by(point, steps);
    let s = scale_by(size, steps);
    let c = scale_by(center, steps);
    let mut i: u16 = 0;
    while i < steps
        invariant
            0 <= i <= steps,
            dt_ms <= DT_LIMIT,
            rot.wf(),
            vel.within(SPEED_LIMIT as int),
            p == times(point, steps as int),
            s == times(size, steps as int),
            c.x == steps * center.x,
            c.y == steps * center.y,
            p.within(0x100_0000_0000),
            c.within(0x100_0000_0000),
            0 <= s.x <= 0x100_0000_0000,
            0 <= s.y <= 0x100_0000_0000,
            forall|j: int|
                0 <= j < i ==> !#[trigger] sample_hits(
                    dt_ms as int,
                    point,
                    center,
                    size,
                    rot,
                    vel,
                    j,
                    steps as int,
                ),
        decreases steps - i,
    {
        let at = Point { x: c.x - back_offset(vel.x, dt_ms, i), y: c.y - back_offset(vel.y, dt_ms, i) };
        assert(at == (Point {
            x: (steps * center.x - i * vel.x * dt_ms) as i64,
            y: (steps * center.y - i * vel.y * dt_ms) as i64,
        }));
        if collide_with_rotation(p, at, s, rot) {
            assert(sample_hits(dt_ms as int, point, center, size, rot, vel, i as int, steps as int));
            return true;
        }
        i = i + 1;
    }
    false
}

/// With a single step only the end-of-frame position is checked.
pub proof fn lemma_single_step_is_instantaneous(
    dt_ms: int,
    point: Point,
    center: Point,
    size: Point,
    rot: Rotation,
    vel: Point,
)
    ensures
        hits_during(dt_ms, point, center, size, rot, vel, 1) == hits(point, center, size, rot),
{
    assert(0 * vel.x * dt_ms == 0 && 0 * vel.y * dt_ms == 0) by (nonlinear_arith);
    assert(times(point, 1) == point);
    assert(times(size, 1) == size);
    assert((Point { x: (1 * center.x - 0 * vel.x * dt_ms) as i64, y: (1 * center.y - 0 * vel.y
        * dt_ms) as i64 }) == center);
    if hits(point, center, size, rot) {
        assert(sample_hits(dt_ms, point, center, size, rot, vel, 0, 1));
    }
}

proof fn lemma_times_assoc(q: int, a: int, b: int)
    ensures
        a * (q * b) == q * (a * b),
{
    assert(a * (q * b) == q * (a * b)) by (nonlinear_arith);
}

/// Refining every coordinate of the test by the same positive factor does not
/// change its outcome.
proof fn lemma_hits_scaled(p: Point, c: Point, s: Point, rot: Rotation, q: int)
    requires
        q > 0,
        rot.wf(),
        p.within(POS_LIMIT as int),
        c.within(POS_LIMIT as int),
        0 <= s.x <= SIZE_LIMIT,
        0 <= s.y <= SIZE_LIMIT,
        times(p, q).within(POS_LIMIT as int),
        times(c, q).within(POS_LIMIT as int),
        0 <= times(s, q).x <= SIZE_LIMIT,
        0 <= times(s, q).y <= SIZE_LIMIT,
        times(p, q).x == q * p.x,
        times(p, q).y == q * p.y,
        times(c, q).x == q * c.x,
        times(c, q).y == q * c.y,
        times(s, q).x == q * s.x,
        times(s, q).y == q * s.y,
    ensures
        hits(times(p, q), times(c, q), times(s, q), rot) == hits(p, c, s, rot),
{
    let o = Point { x: 0, y: 0 };
    let (p2, c2, s2) = (times(p, q), times(c, q), times(s, q));
    let k = 2 * rot.scale;
    lemma_refined_bounds(p, rot);
    lemma_refined_bounds(p2, rot);
    lemma_times_assoc(q, k, p.x as int);
    lemma_times_assoc(q, k, p.y as int);
    assert(turned(refined(p, rot), refined(p2, rot), o, q, 0));
    assert forall|sx: int, sy: int| (sx == 1 || sx == -1) && (sy == 1 || sy == -1) implies turned(
        #[trigger] corner(c, s, rot, sx, sy),
        corner(c2, s2, rot, sx, sy),
        o,
        q,
        0,
    ) by {
        lemma_corner_bounds(c, s, rot, sx, sy);
        lemma_corner_bounds(c2, s2, rot, sx, sy);
        lemma_times_assoc(q, k, c.x as int);
        lemma_times_assoc(q, k, c.y as int);
        lemma_times_assoc(q, sx, s.x as int);
        lemma_times_assoc(q, sy, s.y as int);
        lemma_times_assoc(q, rot.cos as int, sx * s.x);
        lemma_times_assoc(q, rot.sin as int, sy * s.y);
        lemma_times_assoc(q, rot.sin as int, sx * s.x);
        lemma_times_assoc(q, rot.cos as int, sy * s.y);
        let (a, b, e) = (k * c.x, rot.cos * (sx * s.x), rot.sin * (sy * s.y));
        assert(q * (a + b - e) == q * a + q * b - q * e) by (nonlinear_arith);
        let (a, b, e) = (k * c.y, rot.sin * (sx * s.x), rot.cos * (sy * s.y));
        assert(q * (a + b + e) == q * a + q * b + q * e) by (nonlinear_arith);
    }
    assert(q * q + 0 * 0 > 0) by (nonlinear_arith)
        requires q > 0;
    let (t, t2) = (refined(p, rot), refined(p2, rot));
    let (k1, k2, k3, k4) = (corner(c, s, rot, -1, 1), corner(c, s, rot, -1, -1), corner(c, s, rot, 1, 1), corner(c, s, rot, 1, -1));
    let (m1, m2, m3, m4) = (corner(c2, s2, rot, -1, 1), corner(c2, s2, rot, -1, -1), corner(c2, s2, rot, 1, 1), corner(c2, s2, rot, 1, -1));
    lemma_rectangle_test_rotation_invariant(t, k1, k2, k3, k4, t2, m1, m2, m3, m4, o, q, 0);
}

/// Refining the sampling never loses a hit: when `m` is a multiple of `n`,
/// every position sampled with `n` steps is sampled again with `m` steps, so
/// a hit found with `n` steps is found with `m` steps too.
pub proof fn lemma_finer_sampling_keeps_hits(
    dt_ms: int,
    point: Point,
    center: Point,
    size: Point,
    rot: Rotation,
    vel: Point,
    n: int,
    m: int,
)
    requires
        0 <= dt_ms <= DT_LIMIT,
        point.within(TRACK_LIMIT as int),
        center.within(TRACK_LIMIT as int),
        0 <= size.x <= TRACK_LIMIT,
        0 <= size.y <= TRACK_LIMIT,
        rot.wf(),
        vel.within(SPEED_LIMIT as int),
        0 < n,
        0 < m <= 0xffff,
        m % n == 0,
        hits_during(dt_ms, point, center, size, rot, vel, n),
    ensures
        hits_during(dt_ms, point, center, size, rot, vel, m),
{
    let i = choose|i: int|
        0 <= i < n && #[trigger] sample_hits(dt_ms, point, center, size, rot, vel, i, n);
    let q = m / n;
    lemma_fundamental_div_mod(m, n);
    assert(m == n * q);
    assert(q > 0 && n <= m) by (nonlinear_arith)
        requires m == n * q, m > 0, n > 0;
    let j = i * q;
    assert(0 <= j < m) by (nonlinear_arith)
        requires j == i * q, 0 <= i < n, q > 0, m == n * q;
    let tl = TRACK_LIMIT as int;
    let big = 0x100_0000_0000int;
    // coordinates with n and with m steps, before the casts
    let (px, py) = (n * point.x, n * point.y);
    let (sx, sy) = (n * size.x, n * size.y);
    let (cx, cy) = (n * center.x - i * vel.x * dt_ms, n * center.y - i * vel.y * dt_ms);
    assert(-big <= px <= big && -big <= py <= big && 0 <= sx <= big && 0 <= sy <= big
        && -big <= q * px <= big && -big <= q * py <= big && 0 <= q * sx <= big && 0 <= q * sy <= big)
        by (nonlinear_arith)
        requires px == n * point.x, py == n * point.y, sx == n * size.x, sy == n * size.y,
            0 < n <= m, m == n * q, m <= 0xffff, q > 0, -tl <= point.x <= tl, -tl <= point.y <= tl,
            0 <= size.x <= tl, 0 <= size.y <= tl, tl == 0x100_0000, big == 0x100_0000_0000;
    assert(-2 * big <= cx <= 2 * big && -2 * big <= cy <= 2 * big && -2 * big <= q * cx <= 2 * big
        && -2 * big <= q * cy <= 2 * big) by (nonlinear_arith)
        requires cx == n * center.x - i * vel.x * dt_ms, cy == n * center.y - i * vel.y * dt_ms,
            0 < n <= m, m == n * q, m <= 0xffff, q > 0, 0 <= i < n, -tl <= center.x <= tl,
            -tl <= center.y <= tl, -SPEED_LIMIT <= vel.x <= SPEED_LIMIT, -SPEED_LIMIT <= vel.y
            <= SPEED_LIMIT, 0 <= dt_ms <= DT_LIMIT, tl == 0x100_0000, big == 0x100_0000_0000;
    assert(m * point.x == q * px && m * point.y == q * py && m * size.x == q * sx && m * size.y
        == q * sy) by (nonlinear_arith)
        requires m == n * q, px == n * point.x, py == n * point.y, sx == n * size.x, sy == n
            * size.y;
    assert(m * center.x == q * (n * center.x) && m * center.y == q * (n * center.y))
        by (nonlinear_arith)
        requires m == n * q;
    assert(j * vel.x * dt_ms == q * (i * vel.x * dt_ms)) by (nonlinear_arith)
        requires j == i * q;
    assert(j * vel.y * dt_ms == q * (i * vel.y * dt_ms)) by (nonlinear_arith)
        requires j == i * q;
    let (a1, b1) = (n * center.x, i * vel.x * dt_ms);
    assert(q * (a1 - b1) == q * a1 - q * b1) by (nonlinear_arith);
    let (a2, b2) = (n * center.y, i * vel.y * dt_ms);
    assert(q * (a2 - b2) == q * a2 - q * b2) by (nonlinear_arith);
    let pn = times(point, n);
    let sn = times(size, n);
    let cn = Point { x: cx as i64, y: cy as i64 };
    assert(times(pn, q) == times(point, m));
    assert(times(sn, q) == times(size, m));
    assert(times(cn, q) == (Point { x: (m * center.x - j * vel.x * dt_ms) as i64, y: (m * center.y
        - j * vel.y * dt_ms) as i64 }));
    lemma_hits_scaled(pn, cn, sn, rot, q);
    assert(sample_hits(dt_ms, point, center, size, rot, vel, j, m));
}

} // verus!
