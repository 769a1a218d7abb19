//! Points, signed areas and the closed point-in-triangle and
//! point-in-rectangle tests.
use vstd::prelude::*;

verus! {

/// Largest magnitude of a coordinate handed to the area-based tests.
pub const GEOM_LIMIT: i64 = 0x100_0000_0000_0000;

/// A position or a vector on the integer grid.
#[derive(Clone, Copy, Debug, PartialEq, Eq, Structural)]
pub struct Point {
    pub x: i64,
    pub y: i64,
}

impl Point {
    pub open spec fn within(self, limit: int) -> bool {
        -limit <= self.x <= limit && -limit <= self.y <= limit
    }
}

/// Twice the signed area of the triangle (p1, p2, p3): positive when the
/// vertices turn counter-clockwise, zero when they are collinear.
pub open spec fn cross(p1: Point, p2: Point, p3: Point) -> int {
    p1.x * (p2.y - p3.y) + p2.x * (p3.y - p1.y) + p3.x * (p1.y - p2.y)
}

pub open spec fn abs(a: int) -> int {
    if a < 0 { -a } else { a }
}

/// `t` lies in the closed triangle (p1, p2, p3): the three triangles that
/// replace one vertex by `t` all have the orientation of the whole, or are flat.
/// A flat triangle contains the whole line through it.
pub open spec fn in_triangle(t: Point, p1: Point, p2: Point, p3: Point) -> bool {
    let a = cross(t, p2, p3);
    let b = cross(p1, t, p3);
    let c = cross(p1, p2, t);
    (a >= 0 && b >= 0 && c >= 0) || (a <= 0 && b <= 0 && c <= 0)
}

/// `t` lies in one of the two triangles (p1, p2, p3) and (p2, p4, p3) that the
/// diagonal p2-p3 cuts a rectangle with corners p1, p2, p3, p4 into.
pub open spec fn in_rectangle(t: Point, p1: Point, p2: Point, p3: Point, p4: Point) -> bool {
    in_triangle(t, p1, p2, p3) || in_triangle(t, p2, p4, p3)
}

/// The three sub-triangles always sum, with sign, to the whole triangle.
pub proof fn lemma_cross_split(t: Point, p1: Point, p2: Point, p3: Point)
    ensures
        cross(t, p2, p3) + cross(p1, t, p3) + cross(p1, p2, t) == cross(p1, p2, p3),
{
    let (tx, ty, x1, y1, x2, y2, x3, y3) = (t.x as int, t.y as int, p1.x as int, p1.y as int,
        p2.x as int, p2.y as int, p3.x as int, p3.y as int);
    lemma_distribute(tx, y2, y3);
    lemma_distribute(x2, y3, ty);
    lemma_distribute(x3, ty, y2);
    lemma_distribute(x1, ty, y3);
    lemma_distribute(tx, y3, y1);
    lemma_distribute(x3, y1, ty);
    lemma_distribute(x1, y2, ty);
    lemma_distribute(x2, ty, y1);
    lemma_distribute(tx, y1, y2);
    lemma_distribute(x1, y2, y3);
    lemma_distribute(x2, y3, y1);
    lemma_distribute(x3, y1, y2);
}

proof fn lemma_distribute(a: int, b: int, c: int)
    ensures
        a * (b - c) == a * b - a * c,
{
    assert(a * (b - c) == a * b - a * c) by (nonlinear_arith);
}

proof fn lemma_expand(p: int, q: int, r: int, t: int)
    ensures
        (p - q) * (r + t) == p * r + p * t - q * r - q * t,
        (p + q) * (r - t) == p * r - p * t + q * r - q * t,
{
    assert((p - q) * (r + t) == p * r + p * t - q * r - q * t) by (nonlinear_arith);
    assert((p + q) * (r - t) == p * r - p * t + q * r - q * t) by (nonlinear_arith);
}

proof fn lemma_regroup(a: int, b: int, c: int, d: int)
    ensures
        (a * b) * (c * d) == (a * c) * (b * d),
{
    assert((a * b) * (c * d) == (a * c) * (b * d)) by (nonlinear_arith);
}

/// Applying the matrix [[c, -s], [s, c]] to two vectors scales their cross
/// product by c * c + s * s.
pub proof fn lemma_cross_turned(c: int, s: int, x1: int, y1: int, x2: int, y2: int)
    ensures
        (c * x1 - s * y1) * (s * x2 + c * y2) - (s * x1 + c * y1) * (c * x2 - s * y2) == (c * c
            + s * s) * (x1 * y2 - y1 * x2),
{
    lemma_expand(c * x1, s * y1, s * x2, c * y2);
    lemma_expand(s * x1, c * y1, c * x2, s * y2);
    lemma_regroup(c, x1, s, x2);
    lemma_regroup(c, x1, c, y2);
    lemma_regroup(s, y1, s, x2);
    lemma_regroup(s, y1, c, y2);
    lemma_regroup(s, x1, c, x2);
    lemma_regroup(s, x1, s, y2);
    lemma_regroup(c, y1, c, x2);
    lemma_regroup(c, y1, s, y2);
    assert(c * s == s * c) by (nonlinear_arith);
    assert(x1 * x2 == x2 * x1 && y1 * y2 == y2 * y1 && y1 * x2 == x2 * y1) by (nonlinear_arith);
    lemma_expand(c * c, 0 - s * s, x1 * y2, 0 - y1 * x2);
    assert((c * c + s * s) * (x1 * y2 - y1 * x2) == (c * c) * (x1 * y2) - (c * c) * (y1 * x2)
        + (s * s) * (x1 * y2) - (s * s) * (y1 * x2)) by (nonlinear_arith);
}

/// The signed area as a cross product of two edge vectors.
pub proof fn lemma_cross_edges(p1: Point, p2: Point, p3: Point)
    ensures
        cross(p1, p2, p3) == (p2.x - p1.x) * (p3.y - p1.y) - (p2.y - p1.y) * (p3.x - p1.x),
{
    let (x1, y1, x2, y2, x3, y3) = (p1.x as int, p1.y as int, p2.x as int, p2.y as int,
        p3.x as int, p3.y as int);
    assert((x2 - x1) * (y3 - y1) == x2 * y3 - x2 * y1 - x1 * y3 + x1 * y1) by (nonlinear_arith);
    assert((y2 - y1) * (x3 - x1) == x3 * y2 - x1 * y2 - x3 * y1 + x1 * y1) by (nonlinear_arith);
    assert(x1 * (y2 - y3) == x1 * y2 - x1 * y3) by (nonlinear_arith);
    assert(x2 * (y3 - y1) == x2 * y3 - x2 * y1) by (nonlinear_arith);
    assert(x3 * (y1 - y2) == x3 * y1 - x3 * y2) by (nonlinear_arith);
}

proof fn lemma_turned_difference(c: int, s: int, a: int, b: int, e: int, f: int, o: int, u: int)
    ensures
        (c * (a - o) - s * (b - u)) - (c * (e - o) - s * (f - u)) == c * (a - e) - s * (b - f),
        (s * (a - o) + c * (b - u)) - (s * (e - o) + c * (f - u)) == s * (a - e) + c * (b - f),
{
    assert(c * (a - o) - c * (e - o) == c * (a - e)) by (nonlinear_arith);
    assert(s * (b - u) - s * (f - u) == s * (b - f)) by (nonlinear_arith);
    assert(s * (a - o) - s * (e - o) == s * (a - e)) by (nonlinear_arith);
    assert(c * (b - u) - c * (f - u) == c * (b - f)) by (nonlinear_arith);
}

/// `q` is `p` turned about the pivot `o` by the matrix [[c, -s], [s, c]]: a
/// rotation by the angle of (c, s), together with a uniform scaling by its length.
pub open spec fn turned(p: Point, q: Point, o: Point, c: int, s: int) -> bool {
    q.x == o.x + c * (p.x - o.x) - s * (p.y - o.y) && q.y == o.y + s * (p.x - o.x) + c * (p.y
        - o.y)
}

/// Turning all three vertices the same way scales the signed area by c * c + s * s.
pub proof fn lemma_cross_of_turned(
    p1: Point,
    p2: Point,
    p3: Point,
    q1: Point,
    q2: Point,
    q3: Point,
    o: Point,
    c: int,
    s: int,
)
    requires
        turned(p1, q1, o, c, s),
        turned(p2, q2, o, c, s),
        turned(p3, q3, o, c, s),
    ensures
        cross(q1, q2, q3) == (c * c + s * s) * cross(p1, p2, p3),
{
    lemma_cross_edges(p1, p2, p3);
    lemma_cross_edges(q1, q2, q3);
    let (ax, ay) = (p2.x - p1.x, p2.y - p1.y);
    let (bx, by) = (p3.x - p1.x, p3.y - p1.y);
    lemma_turned_difference(c, s, p2.x as int, p2.y as int, p1.x as int, p1.y as int, o.x as int,
        o.y as int);
    lemma_turned_difference(c, s, p3.x as int, p3.y as int, p1.x as int, p1.y as int, o.x as int,
        o.y as int);
    assert(q2.x - q1.x == c * ax - s * ay && q2.y - q1.y == s * ax + c * ay);
    assert(q3.x - q1.x == c * bx - s * by && q3.y - q1.y == s * bx + c * by);
    lemma_cross_turned(c, s, ax, ay, bx, by);
}

/// Multiplying by a positive factor keeps the sign.
pub proof fn lemma_scaled_sign(k: int, a: int)
    requires
        k > 0,
    ensures
        (k * a >= 0) == (a >= 0),
        (k * a <= 0) == (a <= 0),
{
    if a >= 0 {
        assert(k * a >= 0) by (nonlinear_arith)
            requires k > 0, a >= 0;
    } else {
        assert(k * a < 0) by (nonlinear_arith)
            requires k > 0, a < 0;
    }
    if a <= 0 {
        assert(k * a <= 0) by (nonlinear_arith)
            requires k > 0, a <= 0;
    } else {
        assert(k * a > 0) by (nonlinear_arith)
            requires k > 0, a > 0;
    }
}

proof fn lemma_triangle_of_turned(
    t: Point,
    p1: Point,
    p2: Point,
    p3: Point,
    t2: Point,
    q1: Point,
    q2: Point,
    q3: Point,
    o: Point,
    c: int,
    s: int,
)
    requires
        c * c + s * s > 0,
        turned(t, t2, o, c, s),
        turned(p1, q1, o, c, s),
        turned(p2, q2, o, c, s),
        turned(p3, q3, o, c, s),
    ensures
        in_triangle(t2, q1, q2, q3) == in_triangle(t, p1, p2, p3),
{
    let k = c * c + s * s;
    lemma_cross_of_turned(t, p2, p3, t2, q2, q3, o, c, s);
    lemma_cross_of_turned(p1, t, p3, q1, t2, q3, o, c, s);
    lemma_cross_of_turned(p1, p2, t, q1, q2, t2, o, c, s);
    lemma_scaled_sign(k, cross(t, p2, p3));
    lemma_scaled_sign(k, cross(p1, t, p3));
    lemma_scaled_sign(k, cross(p1, p2, t));
}

/// The point-in-rectangle test does not change when the rectangle's corners
/// and the point are all rotated by the same angle about the same pivot
/// (here by the matrix [[c, -s], [s, c]], which also scales uniformly).
pub proof fn lemma_rectangle_test_rotation_invariant(
    t: Point,
    p1: Point,
    p2: Point,
    p3: Point,
    p4: Point,
    t2: Point,
    q1: Point,
    q2: Point,
    q3: Point,
    q4: Point,
    o: Point,
    c: int,
    s: int,
)
    requires
        c != 0 || s != 0,
        turned(t, t2, o, c, s),
        turned(p1, q1, o, c, s),
        turned(p2, q2, o, c, s),
        turned(p3, q3, o, c, s),
        turned(p4, q4, o, c, s),
    ensures
        in_rectangle(t2, q1, q2, q3, q4) == in_rectangle(t, p1, p2, p3, p4),
{
    assert(c * c + s * s > 0) by (nonlinear_arith)
        requires c != 0 || s != 0;
    lemma_triangle_of_turned(t, p1, p2, p3, t2, q1, q2, q3, o, c, s);
    lemma_triangle_of_turned(t, p2, p4, p3, t2, q2, q4, q3, o, c, s);
}

/// The signed area is affine in its first vertex.
proof fn lemma_cross_affine(t: Point, b: Point, c: Point)
    ensures
        cross(t, b, c) == t.x * (b.y - c.y) + t.y * (c.x - b.x) + (b.x * c.y - c.x * b.y),
{
    let (tx, ty, bx, by, cx, cy) = (t.x as int, t.y as int, b.x as int, b.y as int, c.x as int,
        c.y as int);
    lemma_distribute(bx, cy, ty);
    lemma_distribute(cx, ty, by);
    lemma_distribute(ty, cx, bx);
    assert(bx * ty == ty * bx && cx * ty == ty * cx) by (nonlinear_arith);
}

/// Scaling an affine form in a weighted average of points.
proof fn lemma_weighted_affine(
    w1: int,
    w2: int,
    w3: int,
    x1: int,
    y1: int,
    x2: int,
    y2: int,
    x3: int,
    y3: int,
    tx: int,
    ty: int,
    a: int,
    b: int,
    k: int,
)
    requires
        tx * (w1 + w2 + w3) == w1 * x1 + w2 * x2 + w3 * x3,
        ty * (w1 + w2 + w3) == w1 * y1 + w2 * y2 + w3 * y3,
    ensures
        (w1 + w2 + w3) * (tx * a + ty * b + k) == w1 * (x1 * a + y1 * b + k) + w2 * (x2 * a + y2
            * b + k) + w3 * (x3 * a + y3 * b + k),
{
    let w = w1 + w2 + w3;
    assert(w * (tx * a + ty * b + k) == (tx * w) * a + (ty * w) * b + w * k) by (nonlinear_arith);
    lemma_sum3(w1 * x1, w2 * x2, w3 * x3, a);
    lemma_sum3(w1 * y1, w2 * y2, w3 * y3, b);
    lemma_sum3(w1, w2, w3, k);
    lemma_assoc(w1, x1, a);
    lemma_assoc(w2, x2, a);
    lemma_assoc(w3, x3, a);
    lemma_assoc(w1, y1, b);
    lemma_assoc(w2, y2, b);
    lemma_assoc(w3, y3, b);
    assert(w1 * (x1 * a + y1 * b + k) == w1 * (x1 * a) + w1 * (y1 * b) + w1 * k) by (nonlinear_arith);
    assert(w2 * (x2 * a + y2 * b + k) == w2 * (x2 * a) + w2 * (y2 * b) + w2 * k) by (nonlinear_arith);
    assert(w3 * (x3 * a + y3 * b + k) == w3 * (x3 * a) + w3 * (y3 * b) + w3 * k) by (nonlinear_arith);
}

proof fn lemma_sum3(p: int, q: int, r: int, a: int)
    ensures
        (p + q + r) * a == p * a + q * a + r * a,
{
    assert((p + q + r) * a == p * a + q * a + r * a) by (nonlinear_arith);
}

proof fn lemma_assoc(p: int, q: int, a: int)
    ensures
        (p * q) * a == p * (q * a),
{
    assert((p * q) * a == p * (q * a)) by (nonlinear_arith);
}

proof fn lemma_cross_weighted(t: Point, p1: Point, p2: Point, p3: Point, b: Point, c: Point, w1: int, w2: int, w3: int)
    requires
        t.x * (w1 + w2 + w3) == w1 * p1.x + w2 * p2.x + w3 * p3.x,
        t.y * (w1 + w2 + w3) == w1 * p1.y + w2 * p2.y + w3 * p3.y,
    ensures
        (w1 + w2 + w3) * cross(t, b, c) == w1 * cross(p1, b, c) + w2 * cross(p2, b, c) + w3 * cross(p3, b, c),
{
    lemma_cross_affine(t, b, c);
    lemma_cross_affine(p1, b, c);
    lemma_cross_affine(p2, b, c);
    lemma_cross_affine(p3, b, c);
    lemma_weighted_affine(w1, w2, w3, p1.x as int, p1.y as int, p2.x as int, p2.y as int, p3.x as int,
        p3.y as int, t.x as int, t.y as int, b.y - c.y, c.x - b.x, b.x * c.y - c.x * b.y);
}

/// The signed area keeps its value when the vertices are cycled, and is zero
/// when two vertices coincide.
proof fn lemma_cross_cycle(a: Point, b: Point, c: Point)
    ensures
        cross(a, b, c) == cross(b, c, a),
        cross(a, a, c) == 0,
        cross(a, c, a) == 0,
{
    let (ax, ay, bx, by, cx, cy) = (a.x as int, a.y as int, b.x as int, b.y as int, c.x as int,
        c.y as int);
    lemma_distribute(ax, by, cy);
    lemma_distribute(bx, cy, ay);
    lemma_distribute(cx, ay, by);
    lemma_distribute(ax, ay, cy);
    lemma_distribute(ax, cy, ay);
    lemma_distribute(cx, ay, ay);
}

/// A point strictly inside a triangle, given as a combination of its vertices
/// with positive weights, passes the closed containment test.
pub proof fn lemma_strictly_inside_is_contained(
    t: Point,
    p1: Point,
    p2: Point,
    p3: Point,
    w1: int,
    w2: int,
    w3: int,
)
    requires
        w1 > 0,
        w2 > 0,
        w3 > 0,
        t.x * (w1 + w2 + w3) == w1 * p1.x + w2 * p2.x + w3 * p3.x,
        t.y * (w1 + w2 + w3) == w1 * p1.y + w2 * p2.y + w3 * p3.y,
    ensures
        in_triangle(t, p1, p2, p3),
{
    let w = w1 + w2 + w3;
    let whole = cross(p1, p2, p3);
    lemma_cross_weighted(t, p1, p2, p3, p2, p3, w1, w2, w3);
    lemma_cross_cycle(p2, p3, p2);
    lemma_cross_cycle(p3, p2, p3);
    lemma_cross_cycle(p2, p2, p3);
    lemma_cross_cycle(p3, p3, p2);
    assert(cross(p2, p2, p3) == 0 && cross(p3, p2, p3) == 0);
    assert(w * cross(t, p2, p3) == w1 * whole);
    // b = cross(p1, t, p3) == cross(t, p3, p1)
    lemma_cross_cycle(p1, t, p3);
    lemma_cross_weighted(t, p1, p2, p3, p3, p1, w1, w2, w3);
    lemma_cross_cycle(p1, p3, p1);
    lemma_cross_cycle(p3, p3, p1);
    lemma_cross_cycle(p1, p2, p3);
    lemma_cross_cycle(p2, p3, p1);
    assert(w * cross(p1, t, p3) == w2 * whole);
    // c = cross(p1, p2, t) == cross(t, p1, p2)
    lemma_cross_cycle(t, p1, p2);
    lemma_cross_cycle(p1, p2, t);
    lemma_cross_weighted(t, p1, p2, p3, p1, p2, w1, w2, w3);
    lemma_cross_cycle(p1, p1, p2);
    lemma_cross_cycle(p2, p1, p2);
    lemma_cross_cycle(p3, p1, p2);
    assert(w * cross(p1, p2, t) == w3 * whole);
    lemma_same_sign(w, w1, cross(t, p2, p3), whole);
    lemma_same_sign(w, w2, cross(p1, t, p3), whole);
    lemma_same_sign(w, w3, cross(p1, p2, t), whole);
}

proof fn lemma_same_sign(w: int, wi: int, a: int, whole: int)
    requires
        w > 0,
        wi > 0,
        w * a == wi * whole,
    ensures
        whole >= 0 ==> a >= 0,
        whole <= 0 ==> a <= 0,
{
    if whole >= 0 && a < 0 {
        assert(w * a < 0) by (nonlinear_arith)
            requires w > 0, a < 0;
        assert(wi * whole >= 0) by (nonlinear_arith)
            requires wi > 0, whole >= 0;
    }
    if whole <= 0 && a > 0 {
        assert(w * a > 0) by (nonlinear_arith)
            requires w > 0, a > 0;
        assert(wi * whole <= 0) by (nonlinear_arith)
            requires wi > 0, whole <= 0;
    }
}

/// Twice the unsigned area of the triangle (p1, p2, p3).
pub fn twice_area(p1: Point, p2: Point, p3: Point) -> (r: i128)
    requires
        p1.within(GEOM_LIMIT as int),
        p2.within(GEOM_LIMIT as int),
        p3.within(GEOM_LIMIT as int),
    ensures
        r == abs(cross(p1, p2, p3)),
        r <= 6 * (GEOM_LIMIT as int) * (GEOM_LIMIT as int),
{
    let (x1, y1) = (p1.x as i128, p1.y as i128);
    let (x2, y2) = (p2.x as i128, p2.y as i128);
    let (x3, y3) = (p3.x as i128, p3.y as i128);
    let l: i128 = GEOM_LIMIT as i128;
    assert(-l * (2 * l) <= x1 * (y2 - y3) <= l * (2 * l)) by (nonlinear_arith)
        requires -l <= x1 <= l, -2 * l <= y2 - y3 <= 2 * l, l > 0;
    assert(-l * (2 * l) <= x2 * (y3 - y1) <= l * (2 * l)) by (nonlinear_arith)
        requires -l <= x2 <= l, -2 * l <= y3 - y1 <= 2 * l, l > 0;
    assert(-l * (2 * l) <= x3 * (y1 - y2) <= l * (2 * l)) by (nonlinear_arith)
        requires -l <= x3 <= l, -2 * l <= y1 - y2 <= 2 * l, l > 0;
    let s = x1 * (y2 - y3) + x2 * (y3 - y1) + x3 * (y1 - y2);
    if s < 0 { -s } else { s }
}

/// Closed point-in-triangle test by areas: `t` is inside exactly when the
/// three triangles it forms with the edges add up to no more than the whole.
pub fn point_in_triangle(t: Point, p1: Point, p2: Point, p3: Point) -> (r: bool)
    requires
        t.within(GEOM_LIMIT as int),
        p1.within(GEOM_LIMIT as int),
        p2.within(GEOM_LIMIT as int),
        p3.within(GEOM_LIMIT as int),
    ensures
        r == in_triangle(t, p1, p2, p3),
{
    let area_ref = twice_area(p1, p2, p3);
    let area_1 = twice_area(p1, p2, t);
    let area_2 = twice_area(p1, t, p3);
    let area_3 = twice_area(t, p2, p3);
    proof {
        lemma_cross_split(t, p1, p2, p3);
    }
    area_ref >= area_1 + area_2 + area_3
}

/// Closed point-in-rectangle test on corners given as top-left, bottom-left,
/// top-right and bottom-right of the unrotated rectangle.
pub fn point_in_rectangle(t: Point, p1: Point, p2: Point, p3: Point, p4: Point) -> (r: bool)
    requires
        t.within(GEOM_LIMIT as int),
        p1.within(GEOM_LIMIT as int),
        p2.within(GEOM_LIMIT as int),
        p3.within(GEOM_LIMIT as int),
        p4.within(GEOM_LIMIT as int),
    ensures
        r == in_rectangle(t, p1, p2, p3, p4),
{
    point_in_triangle(t, p1, p2, p3) || point_in_triangle(t, p2, p4, p3)
}

} // verus!
