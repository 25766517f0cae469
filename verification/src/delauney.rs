//! Incremental Delaunay triangulation (Bowyer-Watson) over integer points.
//!
//! Points live on an integer grid bounded by [`MAX_COORD`], which keeps every
//! intermediate product of the circumcircle predicate inside `i128`, so the
//! geometry is exact: no rounding, no epsilon, no NaN. A triangle stores its
//! circumcenter as an exact rational number (two numerators over a common
//! denominator), computed once at construction; construction fails with
//! [`DegenerateTriangleError`] when the three corners are collinear or
//! coincident, which is exactly when the denominator vanishes.

use vstd::prelude::*;

verus! {

/// Largest coordinate magnitude the engine accepts. With coordinates bounded
/// by this value, every product formed by the circumcenter computation and
/// the circumcircle predicate stays far below `i128::MAX`.
pub const MAX_COORD: i64 = 100_000;

/// A point of the plane, on the integer grid.
#[derive(Clone, Copy, PartialEq, Eq, Structural, Debug)]
pub struct Vec2 {
    pub x: i64,
    pub y: i64,
}

/// Whether a point lies inside the coordinate range the engine accepts.
pub open spec fn in_bounds(p: Vec2) -> bool {
    &&& -MAX_COORD <= p.x <= MAX_COORD
    &&& -MAX_COORD <= p.y <= MAX_COORD
}

/// Squared Euclidean distance between two points. Square roots have no place
/// in exact integer geometry, and every comparison the engine makes is
/// monotone under squaring, so distances are squared throughout.
pub open spec fn dist2(a: Vec2, b: Vec2) -> int {
    (a.x - b.x) * (a.x - b.x) + (a.y - b.y) * (a.y - b.y)
}

/// `-bound_x <= x <= bound_x` and `-bound_y <= y <= bound_y` bound the
/// product `x * y` by `bound_x * bound_y` in magnitude.
proof fn lemma_abs_mul_bound(x: int, y: int, bound_x: int, bound_y: int)
    by (nonlinear_arith)
    requires
        -bound_x <= x <= bound_x,
        -bound_y <= y <= bound_y,
    ensures
        -(bound_x * bound_y) <= x * y <= bound_x * bound_y,
{
}

impl Vec2 {
    pub fn new(x: i64, y: i64) -> (p: Vec2)
        ensures
            p == (Vec2 { x, y }),
    {
        Vec2 { x, y }
    }

    /// Squared distance between `a` and `b`.
    pub fn distance(a: &Vec2, b: &Vec2) -> (d: i64)
        requires
            in_bounds(*a),
            in_bounds(*b),
        ensures
            d == dist2(*a, *b),
    {
        let dx: i64 = a.x - b.x;
        let dy: i64 = a.y - b.y;
        proof {
            lemma_abs_mul_bound(dx as int, dx as int, 200_000, 200_000);
            lemma_abs_mul_bound(dy as int, dy as int, 200_000, 200_000);
        }
        dx * dx + dy * dy
    }

    /// Squared distance from `self` to `b`.
    pub fn distance_to(&self, b: &Vec2) -> (d: i64)
        requires
            in_bounds(*self),
            in_bounds(*b),
        ensures
            d == dist2(*self, *b),
    {
        Vec2::distance(self, b)
    }
}

/// An undirected edge: the pair of its endpoints, in either order.
#[derive(Clone, Copy, Debug)]
pub struct Edge {
    pub points: [Vec2; 2],
}

/// Equality of undirected edges: the endpoint pairs match in either order.
pub open spec fn edge_eq(e1: Edge, e2: Edge) -> bool {
    ||| (e1.points[0] == e2.points[0] && e1.points[1] == e2.points[1])
    ||| (e1.points[0] == e2.points[1] && e1.points[1] == e2.points[0])
}

impl Edge {
    pub fn new(p1: Vec2, p2: Vec2) -> (e: Edge)
        ensures
            e == (Edge { points: [p1, p2] }),
            e.points[0] == p1,
            e.points[1] == p2,
    {
        let e = Edge { points: [p1, p2] };
        proof {
            assert(e.points =~= [p1, p2]);
        }
        e
    }
}

impl PartialEq for Edge {
    fn eq(&self, other: &Edge) -> (r: bool) {
        (self.points[0] == other.points[0] && self.points[1] == other.points[1])
            || (self.points[0] == other.points[1] && self.points[1] == other.points[0])
    }
}

impl vstd::std_specs::cmp::PartialEqSpecImpl for Edge {
    open spec fn obeys_eq_spec() -> bool {
        true
    }

    open spec fn eq_spec(&self, other: &Edge) -> bool {
        edge_eq(*self, *other)
    }
}

/// Edge equality is symmetric in its endpoints: the edge from `p1` to `p2`
/// equals the edge from `p2` to `p1`, and comparing two edges either way
/// round gives the same answer.
pub proof fn lemma_edge_eq_symmetric(e1: Edge, e2: Edge)
    ensures
        edge_eq(e1, e2) == edge_eq(e2, e1),
{
}

/// The edge built from `p1` to `p2` equals the edge built from `p2` to `p1`.
pub proof fn lemma_edge_swap_eq(p1: Vec2, p2: Vec2)
    ensures
        edge_eq(Edge { points: [p1, p2] }, Edge { points: [p2, p1] }),
{
}

/// Raised when a triangle is built from collinear or coincident corners:
/// such a triangle has no circumcircle.
#[derive(Clone, Copy, PartialEq, Eq, Structural, Debug)]
pub struct DegenerateTriangleError;

/// Squared length of a point taken as a vector from the origin; the common
/// building block of the circumcenter formula.
pub open spec fn sq_norm(p: Vec2) -> int {
    p.x * p.x + p.y * p.y
}

/// Common denominator of the circumcenter of the triangle `(a, b, c)`:
/// four times its signed area. Zero exactly when the corners are collinear
/// or coincident.
pub open spec fn circ_den(a: Vec2, b: Vec2, c: Vec2) -> int {
    2 * (a.x * (b.y - c.y) + b.x * (c.y - a.y) + c.x * (a.y - b.y))
}

/// Numerator of the x coordinate of the circumcenter of `(a, b, c)`.
pub open spec fn circ_ux(a: Vec2, b: Vec2, c: Vec2) -> int {
    sq_norm(a) * (b.y - c.y) + sq_norm(b) * (c.y - a.y) + sq_norm(c) * (a.y - b.y)
}

/// Numerator of the y coordinate of the circumcenter of `(a, b, c)`.
pub open spec fn circ_uy(a: Vec2, b: Vec2, c: Vec2) -> int {
    sq_norm(a) * (c.x - b.x) + sq_norm(b) * (a.x - c.x) + sq_norm(c) * (b.x - a.x)
}

/// Whether the three points lie on one line (coincident points count too).
pub open spec fn collinear(a: Vec2, b: Vec2, c: Vec2) -> bool {
    circ_den(a, b, c) == 0
}

/// The circumcenter of a triangle as an exact rational point
/// `(ux / den, uy / den)`. Kept unreduced: every comparison against it is
/// made after scaling by `den`, so no division ever happens.
#[derive(Clone, Copy, PartialEq, Eq, Structural, Debug)]
pub struct Circumcenter {
    pub ux: i128,
    pub uy: i128,
    pub den: i128,
}

/// Bounds on the circumcenter numerators and denominator that follow from
/// the coordinate range: they keep the scaled distance computation far from
/// `i128` overflow.
proof fn lemma_circ_bounds(a: Vec2, b: Vec2, c: Vec2)
    requires
        in_bounds(a),
        in_bounds(b),
        in_bounds(c),
    ensures
        -120_000_000_000 <= circ_den(a, b, c) <= 120_000_000_000,
        -12_000_000_000_000_000 <= circ_ux(a, b, c) <= 12_000_000_000_000_000,
        -12_000_000_000_000_000 <= circ_uy(a, b, c) <= 12_000_000_000_000_000,
{
    lemma_abs_mul_bound(a.x as int, (b.y - c.y) as int, 100_000, 200_000);
    lemma_abs_mul_bound(b.x as int, (c.y - a.y) as int, 100_000, 200_000);
    lemma_abs_mul_bound(c.x as int, (a.y - b.y) as int, 100_000, 200_000);
    lemma_abs_mul_bound(a.x as int, a.x as int, 100_000, 100_000);
    lemma_abs_mul_bound(a.y as int, a.y as int, 100_000, 100_000);
    lemma_abs_mul_bound(b.x as int, b.x as int, 100_000, 100_000);
    lemma_abs_mul_bound(b.y as int, b.y as int, 100_000, 100_000);
    lemma_abs_mul_bound(c.x as int, c.x as int, 100_000, 100_000);
    lemma_abs_mul_bound(c.y as int, c.y as int, 100_000, 100_000);
    lemma_abs_mul_bound(sq_norm(a), (b.y - c.y) as int, 20_000_000_000, 200_000);
    lemma_abs_mul_bound(sq_norm(b), (c.y - a.y) as int, 20_000_000_000, 200_000);
    lemma_abs_mul_bound(sq_norm(c), (a.y - b.y) as int, 20_000_000_000, 200_000);
    lemma_abs_mul_bound(sq_norm(a), (c.x - b.x) as int, 20_000_000_000, 200_000);
    lemma_abs_mul_bound(sq_norm(b), (a.x - c.x) as int, 20_000_000_000, 200_000);
    lemma_abs_mul_bound(sq_norm(c), (b.x - a.x) as int, 20_000_000_000, 200_000);
}

/// Circumcenter of the triangle `(a, b, c)` from the closed-form determinant
/// formula, as an exact rational. The denominator is zero exactly when the
/// corners are collinear or coincident; no division is performed, so the
/// result is well defined even then.
pub fn circumcenter(a: &Vec2, b: &Vec2, c: &Vec2) -> (cc: Circumcenter)
    requires
        in_bounds(*a),
        in_bounds(*b),
        in_bounds(*c),
    ensures
        cc.den == circ_den(*a, *b, *c),
        cc.ux == circ_ux(*a, *b, *c),
        cc.uy == circ_uy(*a, *b, *c),
{
    let ax: i128 = a.x as i128;
    let ay: i128 = a.y as i128;
    let bx: i128 = b.x as i128;
    let by: i128 = b.y as i128;
    let cx: i128 = c.x as i128;
    let cy: i128 = c.y as i128;
    proof {
        lemma_abs_mul_bound(ax as int, ax as int, 100_000, 100_000);
        lemma_abs_mul_bound(ay as int, ay as int, 100_000, 100_000);
        lemma_abs_mul_bound(bx as int, bx as int, 100_000, 100_000);
        lemma_abs_mul_bound(by as int, by as int, 100_000, 100_000);
        lemma_abs_mul_bound(cx as int, cx as int, 100_000, 100_000);
        lemma_abs_mul_bound(cy as int, cy as int, 100_000, 100_000);
        lemma_abs_mul_bound(ax as int, (by - cy) as int, 100_000, 200_000);
        lemma_abs_mul_bound(bx as int, (cy - ay) as int, 100_000, 200_000);
        lemma_abs_mul_bound(cx as int, (ay - by) as int, 100_000, 200_000);
    }
    let sa: i128 = ax * ax + ay * ay;
    let sb: i128 = bx * bx + by * by;
    let sc: i128 = cx * cx + cy * cy;
    proof {
        lemma_abs_mul_bound(sa as int, (by - cy) as int, 20_000_000_000, 200_000);
        lemma_abs_mul_bound(sb as int, (cy - ay) as int, 20_000_000_000, 200_000);
        lemma_abs_mul_bound(sc as int, (ay - by) as int, 20_000_000_000, 200_000);
        lemma_abs_mul_bound(sa as int, (cx - bx) as int, 20_000_000_000, 200_000);
        lemma_abs_mul_bound(sb as int, (ax - cx) as int, 20_000_000_000, 200_000);
        lemma_abs_mul_bound(sc as int, (bx - ax) as int, 20_000_000_000, 200_000);
    }
    let den: i128 = 2 * (ax * (by - cy) + bx * (cy - ay) + cx * (ay - by));
    let ux: i128 = sa * (by - cy) + sb * (cy - ay) + sc * (ay - by);
    let uy: i128 = sa * (cx - bx) + sb * (ax - cx) + sc * (bx - ax);
    Circumcenter { ux, uy, den }
}

/// Expanding a squared difference of a product against a plain term.
proof fn lemma_scaled_sq(d: int, x: int, u: int)
    by (nonlinear_arith)
    ensures
        (d * x - u) * (d * x - u) == d * (d * (x * x)) - 2 * (d * (x * u)) + u * u,
{
}

/// Gathering four doubly scaled terms under one factor.
proof fn lemma_factor_sum(d: int, w: int, x: int, y: int, z: int)
    by (nonlinear_arith)
    ensures
        d * (d * w) + d * (d * x) - d * (d * y) - d * (d * z) == d * (d * (w + x - y - z)),
{
}

/// Distributing a factor over the perpendicular-bisector form.
proof fn lemma_cross_sum(d: int, u: int, v: int, px: int, py: int, qx: int, qy: int)
    by (nonlinear_arith)
    ensures
        d * (2 * (u * (px - qx) + v * (py - qy))) == 2 * (d * (px * u)) - 2 * (d * (qx * u)) + 2 * (
        d * (py * v)) - 2 * (d * (qy * v)),
{
}

/// Expansion identity: the difference of two scaled squared distances to the
/// point `(ux / den, uy / den)` splits into a part over the squared norms of
/// the two points and a part over the perpendicular-bisector form.
proof fn lemma_dist2_diff(px: int, py: int, qx: int, qy: int, den: int, ux: int, uy: int)
    ensures
        (den * px - ux) * (den * px - ux) + (den * py - uy) * (den * py - uy) == (den * qx - ux) * (
        den * qx - ux) + (den * qy - uy) * (den * qy - uy) + den * (den * (px * px + py * py - qx
            * qx - qy * qy)) - den * (2 * (ux * (px - qx) + uy * (py - qy))),
{
    lemma_scaled_sq(den, px, ux);
    lemma_scaled_sq(den, py, uy);
    lemma_scaled_sq(den, qx, ux);
    lemma_scaled_sq(den, qy, uy);
    lemma_factor_sum(den, px * px, py * py, qx * qx, qy * qy);
    lemma_cross_sum(den, ux, uy, px, py, qx, qy);
}

/// Distributing a sum over a common factor.
proof fn lemma_dist_pair(x: int, y: int, m: int)
    by (nonlinear_arith)
    ensures
        (x + y) * m == x * m + y * m,
{
}

/// Associativity of one product.
proof fn lemma_assoc(s: int, k: int, m: int)
    by (nonlinear_arith)
    ensures
        (s * k) * m == s * (k * m),
{
}

/// Distributing a linear combination of three terms over a common factor.
proof fn lemma_tri_dist(sa: int, sb: int, sc: int, k1: int, k2: int, k3: int, m: int)
    ensures
        (sa * k1 + sb * k2 + sc * k3) * m == sa * (k1 * m) + sb * (k2 * m) + sc * (k3 * m),
{
    lemma_dist_pair(sa * k1 + sb * k2, sc * k3, m);
    lemma_dist_pair(sa * k1, sb * k2, m);
    lemma_assoc(sa, k1, m);
    lemma_assoc(sb, k2, m);
    lemma_assoc(sc, k3, m);
}

/// Gathering two products under one factor.
proof fn lemma_add_factor(s: int, x: int, y: int)
    by (nonlinear_arith)
    ensures
        s * x + s * y == s * (x + y),
{
}

/// A factor applied to a negated term.
proof fn lemma_neg_factor(s: int, t: int)
    by (nonlinear_arith)
    ensures
        s * (-t) == -(s * t),
{
}

/// Distributing a factor over a difference.
proof fn lemma_mul_sub_dist(m: int, x: int, y: int)
    by (nonlinear_arith)
    ensures
        m * (x - y) == m * x - m * y,
{
}

/// A doubled factor commuted past its other operand.
proof fn lemma_swap2(d: int, s: int)
    by (nonlinear_arith)
    ensures
        (2 * d) * s == 2 * (s * d),
{
}

/// Coefficient identities for the segment from `a` to `b`: pairing the
/// circumcenter coefficient of each squared norm with that segment gives the
/// doubled signed area for the first norm, its negation for the second, and
/// zero for the third.
proof fn lemma_coeffs_ab(ax: int, ay: int, bx: int, by: int, cx: int, cy: int)
    by (nonlinear_arith)
    ensures
        (by - cy) * (ax - bx) + (cx - bx) * (ay - by) == ax * (by - cy) + bx * (cy - ay) + cx * (ay
            - by),
        (cy - ay) * (ax - bx) + (ax - cx) * (ay - by) == -(ax * (by - cy) + bx * (cy - ay) + cx * (
        ay - by)),
        (ay - by) * (ax - bx) + (bx - ax) * (ay - by) == 0,
{
}

/// Coefficient identities for the segment from `a` to `c`, as for
/// `lemma_coeffs_ab`.
proof fn lemma_coeffs_ac(ax: int, ay: int, bx: int, by: int, cx: int, cy: int)
    by (nonlinear_arith)
    ensures
        (by - cy) * (ax - cx) + (cx - bx) * (ay - cy) == ax * (by - cy) + bx * (cy - ay) + cx * (ay
            - by),
        (cy - ay) * (ax - cx) + (ax - cx) * (ay - cy) == 0,
        (ay - by) * (ax - cx) + (bx - ax) * (ay - cy) == -(ax * (by - cy) + bx * (cy - ay) + cx * (
        ay - by)),
{
}

/// Perpendicular-bisector identity behind the circumcenter formula, for any
/// values `sa`, `sb`, `sc` in place of the squared corner norms: the
/// circumcenter numerators paired with the segment from `a` to `b` (or from
/// `a` to `c`) balance the denominator times the difference of the matching
/// two values.
proof fn lemma_bisector(
    ax: int,
    ay: int,
    bx: int,
    by: int,
    cx: int,
    cy: int,
    sa: int,
    sb: int,
    sc: int,
)
    ensures
        2 * ((sa * (by - cy) + sb * (cy - ay) + sc * (ay - by)) * (ax - bx) + (sa * (cx - bx) + sb
            * (ax - cx) + sc * (bx - ax)) * (ay - by)) == (2 * (ax * (by - cy) + bx * (cy - ay) + cx
            * (ay - by))) * (sa - sb),
        2 * ((sa * (by - cy) + sb * (cy - ay) + sc * (ay - by)) * (ax - cx) + (sa * (cx - bx) + sb
            * (ax - cx) + sc * (bx - ax)) * (ay - cy)) == (2 * (ax * (by - cy) + bx * (cy - ay) + cx
            * (ay - by))) * (sa - sc),
{
    let delta = ax * (by - cy) + bx * (cy - ay) + cx * (ay - by);
    lemma_coeffs_ab(ax, ay, bx, by, cx, cy);
    lemma_coeffs_ac(ax, ay, bx, by, cx, cy);

    lemma_tri_dist(sa, sb, sc, by - cy, cy - ay, ay - by, ax - bx);
    lemma_tri_dist(sa, sb, sc, cx - bx, ax - cx, bx - ax, ay - by);
    lemma_add_factor(sa, (by - cy) * (ax - bx), (cx - bx) * (ay - by));
    lemma_add_factor(sb, (cy - ay) * (ax - bx), (ax - cx) * (ay - by));
    lemma_add_factor(sc, (ay - by) * (ax - bx), (bx - ax) * (ay - by));
    lemma_neg_factor(sb, delta);
    lemma_mul_sub_dist(2 * delta, sa, sb);
    lemma_swap2(delta, sa);
    lemma_swap2(delta, sb);
    assert(2 * ((sa * (by - cy) + sb * (cy - ay) + sc * (ay - by)) * (ax - bx) + (sa * (cx - bx)
        + sb * (ax - cx) + sc * (bx - ax)) * (ay - by)) == (2 * delta) * (sa - sb));

    lemma_tri_dist(sa, sb, sc, by - cy, cy - ay, ay - by, ax - cx);
    lemma_tri_dist(sa, sb, sc, cx - bx, ax - cx, bx - ax, ay - cy);
    lemma_add_factor(sa, (by - cy) * (ax - cx), (cx - bx) * (ay - cy));
    lemma_add_factor(sb, (cy - ay) * (ax - cx), (ax - cx) * (ay - cy));
    lemma_add_factor(sc, (ay - by) * (ax - cx), (bx - ax) * (ay - cy));
    lemma_neg_factor(sc, delta);
    lemma_mul_sub_dist(2 * delta, sa, sc);
    lemma_swap2(delta, sc);
    assert(2 * ((sa * (by - cy) + sb * (cy - ay) + sc * (ay - by)) * (ax - cx) + (sa * (cx - bx)
        + sb * (ax - cx) + sc * (bx - ax)) * (ay - cy)) == (2 * delta) * (sa - sc));
}

/// With the first two corners coincident the signed-area form vanishes.
proof fn lemma_coincident_first_two(ax: int, ay: int, cx: int, cy: int)
    by (nonlinear_arith)
    ensures
        2 * (ax * (ay - cy) + ax * (cy - ay) + cx * (ay - ay)) == 0,
{
}

/// With the last two corners coincident the signed-area form vanishes.
proof fn lemma_coincident_last_two(ax: int, ay: int, bx: int, by: int)
    by (nonlinear_arith)
    ensures
        2 * (ax * (by - by) + bx * (by - ay) + bx * (ay - by)) == 0,
{
}

/// With the outer two corners coincident the signed-area form vanishes.
proof fn lemma_coincident_outer(ax: int, ay: int, bx: int, by: int)
    by (nonlinear_arith)
    ensures
        2 * (ax * (by - ay) + bx * (ay - ay) + ax * (ay - by)) == 0,
{
}

/// A triangle: three corners, the three undirected edges between them, and
/// the circumcenter derived once at construction.
#[derive(Clone, Copy, Debug)]
pub struct Triangle {
    pub a: Vec2,
    pub b: Vec2,
    pub c: Vec2,
    pub edges: [Edge; 3],
    pub circumcenter: Circumcenter,
}

/// Whether `t` carries `p` as one of its three corners.
pub open spec fn spec_has_vertex(t: Triangle, p: Vec2) -> bool {
    t.a == p || t.b == p || t.c == p
}

/// Whether `t` and `other` have any corner in common.
pub open spec fn spec_shares_vertex(t: Triangle, other: Triangle) -> bool {
    spec_has_vertex(t, other.a) || spec_has_vertex(t, other.b) || spec_has_vertex(t, other.c)
}

/// Whether `e` is one of the three edges of `t`, as an undirected edge.
pub open spec fn has_edge(t: Triangle, e: Edge) -> bool {
    edge_eq(t.edges[0], e) || edge_eq(t.edges[1], e) || edge_eq(t.edges[2], e)
}

/// Triangles compare by their corners, in order. For well-formed triangles
/// the derived fields are determined by the corners, so this is full value
/// equality.
pub open spec fn tri_eq(t1: Triangle, t2: Triangle) -> bool {
    t1.a == t2.a && t1.b == t2.b && t1.c == t2.c
}

impl PartialEq for Triangle {
    fn eq(&self, other: &Triangle) -> (r: bool) {
        self.a == other.a && self.b == other.b && self.c == other.c
    }
}

impl vstd::std_specs::cmp::PartialEqSpecImpl for Triangle {
    open spec fn obeys_eq_spec() -> bool {
        true
    }

    open spec fn eq_spec(&self, other: &Triangle) -> bool {
        tri_eq(*self, *other)
    }
}

/// Squared distance from `p` to the circumcenter of `t`, scaled by the
/// square of the circumcenter's denominator, so that it can be compared
/// against other such distances in exact integer arithmetic.
pub open spec fn cc_dist2(t: Triangle, p: Vec2) -> int {
    let den = t.circumcenter.den as int;
    let ux = t.circumcenter.ux as int;
    let uy = t.circumcenter.uy as int;
    (den * p.x - ux) * (den * p.x - ux) + (den * p.y - uy) * (den * p.y - uy)
}

/// Whether `p` lies strictly inside the circumcircle of `t`: nearer to the
/// circumcenter than the corners are. Points exactly on the circle do not
/// count as inside.
pub open spec fn in_circumcircle(t: Triangle, p: Vec2) -> bool {
    cc_dist2(t, p) < cc_dist2(t, t.a)
}

/// The exact triangle value built over the corners `(a, b, c)`: the corners,
/// the three edges between them, and the circumcenter numerators and
/// denominator of the closed-form formula.
pub open spec fn spec_triangle(a: Vec2, b: Vec2, c: Vec2) -> Triangle {
    Triangle {
        a,
        b,
        c,
        edges: [
            Edge { points: [a, b] },
            Edge { points: [b, c] },
            Edge { points: [c, a] },
        ],
        circumcenter: Circumcenter {
            ux: circ_ux(a, b, c) as i128,
            uy: circ_uy(a, b, c) as i128,
            den: circ_den(a, b, c) as i128,
        },
    }
}

impl Triangle {
    /// Well-formedness: corners within the coordinate range, not collinear,
    /// edges and circumcenter derived from the corners. Constructors
    /// establish this and every triangle the engine handles keeps it.
    pub open spec fn wf(self) -> bool {
        &&& in_bounds(self.a) && in_bounds(self.b) && in_bounds(self.c)
        &&& !collinear(self.a, self.b, self.c)
        &&& self.circumcenter.den == circ_den(self.a, self.b, self.c)
        &&& self.circumcenter.ux == circ_ux(self.a, self.b, self.c)
        &&& self.circumcenter.uy == circ_uy(self.a, self.b, self.c)
        &&& self.edges[0].points[0] == self.a && self.edges[0].points[1] == self.b
        &&& self.edges[1].points[0] == self.b && self.edges[1].points[1] == self.c
        &&& self.edges[2].points[0] == self.c && self.edges[2].points[1] == self.a
    }

    /// Builds the triangle `(a, b, c)` with its edges and circumcenter, or
    /// reports degeneracy: the construction succeeds exactly when the three
    /// corners are not collinear.
    pub fn new(a: Vec2, b: Vec2, c: Vec2) -> (r: Result<Triangle, DegenerateTriangleError>)
        requires
            in_bounds(a),
            in_bounds(b),
            in_bounds(c),
        ensures
            r is Ok <==> !collinear(a, b, c),
            r matches Ok(t) ==> t == spec_triangle(a, b, c) && t.wf() && t.a == a && t.b == b
                && t.c == c,
    {
        let cc = circumcenter(&a, &b, &c);
        if cc.den == 0 {
            return Err(DegenerateTriangleError);
        }
        let edges = [Edge::new(a, b), Edge::new(b, c), Edge::new(c, a)];
        proof {
            lemma_circ_bounds(a, b, c);
            assert(edges =~= spec_triangle(a, b, c).edges);
        }
        Ok(Triangle { a, b, c, edges, circumcenter: cc })
    }

    /// Squared distance from `p` to the circumcenter, scaled by the square
    /// of the denominator.
    fn scaled_dist2(&self, p: &Vec2) -> (d: i128)
        requires
            self.wf(),
            in_bounds(*p),
        ensures
            d == cc_dist2(*self, *p),
    {
        proof {
            lemma_circ_bounds(self.a, self.b, self.c);
            lemma_abs_mul_bound(self.circumcenter.den as int, p.x as int, 120_000_000_000, 100_000);
            lemma_abs_mul_bound(self.circumcenter.den as int, p.y as int, 120_000_000_000, 100_000);
        }
        let dx: i128 = self.circumcenter.den * (p.x as i128) - self.circumcenter.ux;
        let dy: i128 = self.circumcenter.den * (p.y as i128) - self.circumcenter.uy;
        proof {
            let big: int = 24_000_000_000_000_000;
            lemma_abs_mul_bound(dx as int, dx as int, big, big);
            lemma_abs_mul_bound(dy as int, dy as int, big, big);
        }
        dx * dx + dy * dy
    }

    /// Whether `point` lies strictly inside this triangle's circumcircle.
    pub fn contains_point_in_circumcircle(&self, point: &Vec2) -> (r: bool)
        requires
            self.wf(),
            in_bounds(*point),
        ensures
            r == in_circumcircle(*self, *point),
    {
        self.scaled_dist2(point) < self.scaled_dist2(&self.a)
    }

    /// The circumcenter is equidistant from the three corners: the scaled
    /// squared distances from the corners to it are equal, exactly.
    pub proof fn lemma_circumcenter_equidistant(self)
        requires
            self.wf(),
        ensures
            cc_dist2(self, self.a) == cc_dist2(self, self.b),
            cc_dist2(self, self.a) == cc_dist2(self, self.c),
    {
        let ax = self.a.x as int;
        let ay = self.a.y as int;
        let bx = self.b.x as int;
        let by = self.b.y as int;
        let cx = self.c.x as int;
        let cy = self.c.y as int;
        let den = self.circumcenter.den as int;
        let ux = self.circumcenter.ux as int;
        let uy = self.circumcenter.uy as int;
        let sa = ax * ax + ay * ay;
        let sb = bx * bx + by * by;
        let sc = cx * cx + cy * cy;
        lemma_dist2_diff(ax, ay, bx, by, den, ux, uy);
        lemma_dist2_diff(ax, ay, cx, cy, den, ux, uy);
        lemma_bisector(ax, ay, bx, by, cx, cy, sa, sb, sc);
        assert(ux == sa * (by - cy) + sb * (cy - ay) + sc * (ay - by));
        assert(uy == sa * (cx - bx) + sb * (ax - cx) + sc * (bx - ax));
        assert(den == 2 * (ax * (by - cy) + bx * (cy - ay) + cx * (ay - by)));
        assert(2 * (ux * (ax - bx) + uy * (ay - by)) == den * (sa - sb));
        assert(2 * (ux * (ax - cx) + uy * (ay - cy)) == den * (sa - sc));
        assert(den * (2 * (ux * (ax - bx) + uy * (ay - by))) == den * (den * (sa - sb)));
        assert(den * (2 * (ux * (ax - cx) + uy * (ay - cy))) == den * (den * (sa - sc)));
        assert(den * (den * (ax * ax + ay * ay - bx * bx - by * by)) == den * (den * (sa - sb)));
        assert(den * (den * (ax * ax + ay * ay - cx * cx - cy * cy)) == den * (den * (sa - sc)));
    }

    /// Whether `point` is one of this triangle's corners.
    pub fn has_vertex(&self, point: &Vec2) -> (r: bool)
        ensures
            r == spec_has_vertex(*self, *point),
    {
        self.a == *point || self.b == *point || self.c == *point
    }

    /// Whether this triangle and `other` have any corner in common.
    pub fn shares_vertex(&self, other: &Triangle) -> (r: bool)
        ensures
            r == spec_shares_vertex(*self, *other),
    {
        self.has_vertex(&other.a) || self.has_vertex(&other.b) || self.has_vertex(&other.c)
    }
}

/// Raised by the triangulation engine.
#[derive(Clone, Copy, PartialEq, Eq, Structural, Debug)]
pub enum TriangulationError {
    /// A re-triangulation step met a hole boundary edge collinear with the
    /// point being inserted, for instance a point lying on an edge of the
    /// seed triangle.
    Degenerate(DegenerateTriangleError),
    /// The finished triangulation failed the final Delaunay audit. This can
    /// only arise when the supplied enclosing triangle does not actually
    /// enclose the input points; the engine reports it rather than return a
    /// triangle list that breaks the Delaunay property.
    DelaunayViolation,
}

/// Every triangle of the sequence is well-formed.
pub open spec fn all_wf(ts: Seq<Triangle>) -> bool {
    forall|i: int| 0 <= i < ts.len() ==> (#[trigger] ts[i]).wf()
}

/// The Delaunay property of a triangle list with respect to a point list:
/// no point lies strictly inside the circumcircle of a triangle it is not a
/// corner of.
pub open spec fn spec_delaunay(ts: Seq<Triangle>, ps: Seq<Vec2>) -> bool {
    forall|i: int, j: int|
        #![trigger ts[i], ps[j]]
        0 <= i < ts.len() && 0 <= j < ps.len() && !spec_has_vertex(ts[i], ps[j])
            ==> !in_circumcircle(ts[i], ps[j])
}

/// No triangle of the sequence, other than copies of `cur` itself, has the
/// edge `e`.
pub open spec fn edge_unshared(e: Edge, cur: Triangle, ts: Seq<Triangle>) -> bool {
    forall|k: int| 0 <= k < ts.len() ==> tri_eq(#[trigger] ts[k], cur) || !has_edge(ts[k], e)
}

/// Whether some triangle of `ts` equals `t` corner-wise.
pub open spec fn spec_contains_tri(ts: Seq<Triangle>, t: Triangle) -> bool {
    exists|k: int| 0 <= k < ts.len() && tri_eq(#[trigger] ts[k], t)
}

/// The functional model of one engine run: the spec functions below retrace
/// the construction step by step, and `delauney_triangulation` promises its
/// result equals the model's to the triangle. The model is the exact
/// description of what comes back; the human-sized consequences (the
/// Delaunay audit, the cleanup, whose corners survive) stand beside it in
/// the engine's contract.
///
/// The bad triangles among the first `k` of `ts`: those whose circumcircle
/// strictly contains `p`, in order.
pub open spec fn spec_bad_triangles(ts: Seq<Triangle>, p: Vec2, k: int) -> Seq<Triangle>
    decreases k,
{
    if k <= 0 {
        Seq::empty()
    } else {
        let rest = spec_bad_triangles(ts, p, k - 1);
        if in_circumcircle(ts[k - 1], p) {
            rest.push(ts[k - 1])
        } else {
            rest
        }
    }
}

/// The edges of `t` that no other triangle of `bad` also has, in edge order.
pub open spec fn spec_kept_edges(t: Triangle, bad: Seq<Triangle>) -> Seq<Edge> {
    (if edge_unshared(t.edges[0], t, bad) {
        seq![t.edges[0]]
    } else {
        Seq::empty()
    }) + (if edge_unshared(t.edges[1], t, bad) {
        seq![t.edges[1]]
    } else {
        Seq::empty()
    }) + (if edge_unshared(t.edges[2], t, bad) {
        seq![t.edges[2]]
    } else {
        Seq::empty()
    })
}

/// The hole boundary: the unshared edges of the first `k` bad triangles.
pub open spec fn spec_polygon(bad: Seq<Triangle>, k: int) -> Seq<Edge>
    decreases k,
{
    if k <= 0 {
        Seq::empty()
    } else {
        spec_polygon(bad, k - 1) + spec_kept_edges(bad[k - 1], bad)
    }
}

/// The first `k` triangles of `ts` with every member of `bad` removed, by
/// corner-wise value.
pub open spec fn spec_remaining(ts: Seq<Triangle>, bad: Seq<Triangle>, k: int) -> Seq<Triangle>
    decreases k,
{
    if k <= 0 {
        Seq::empty()
    } else {
        let rest = spec_remaining(ts, bad, k - 1);
        if spec_contains_tri(bad, ts[k - 1]) {
            rest
        } else {
            rest.push(ts[k - 1])
        }
    }
}

/// `base` extended with one new triangle per edge among the first `k` of
/// `polygon`, or the degeneracy report of the first edge collinear with `p`.
pub open spec fn spec_retriangulate(
    base: Seq<Triangle>,
    polygon: Seq<Edge>,
    p: Vec2,
    k: int,
) -> Result<Seq<Triangle>, TriangulationError>
    decreases k,
{
    if k <= 0 {
        Ok(base)
    } else {
        match spec_retriangulate(base, polygon, p, k - 1) {
            Ok(ts) => {
                let e = polygon[k - 1];
                if collinear(e.points[0], e.points[1], p) {
                    Err(TriangulationError::Degenerate(DegenerateTriangleError))
                } else {
                    Ok(ts.push(spec_triangle(e.points[0], e.points[1], p)))
                }
            },
            Err(er) => Err(er),
        }
    }
}

/// One insertion step: find the bad triangles, take the boundary of the
/// hole they leave, remove them, and re-triangulate the hole against `p`.
pub open spec fn spec_insert_point(ts: Seq<Triangle>, p: Vec2) -> Result<
    Seq<Triangle>,
    TriangulationError,
> {
    let bad = spec_bad_triangles(ts, p, ts.len() as int);
    let polygon = spec_polygon(bad, bad.len() as int);
    let base = spec_remaining(ts, bad, ts.len() as int);
    spec_retriangulate(base, polygon, p, polygon.len() as int)
}

/// The triangulation after inserting the first `k` points into `ts`.
pub open spec fn spec_insert_all(ts: Seq<Triangle>, ps: Seq<Vec2>, k: int) -> Result<
    Seq<Triangle>,
    TriangulationError,
>
    decreases k,
{
    if k <= 0 {
        Ok(ts)
    } else {
        match spec_insert_all(ts, ps, k - 1) {
            Ok(cur) => spec_insert_point(cur, ps[k - 1]),
            Err(er) => Err(er),
        }
    }
}

/// The first `k` triangles of `ts` that share no corner with `s`.
pub open spec fn spec_cleanup(ts: Seq<Triangle>, s: Triangle, k: int) -> Seq<Triangle>
    decreases k,
{
    if k <= 0 {
        Seq::empty()
    } else {
        let rest = spec_cleanup(ts, s, k - 1);
        if spec_shares_vertex(ts[k - 1], s) {
            rest
        } else {
            rest.push(ts[k - 1])
        }
    }
}

/// What the engine returns, to the triangle: the incremental construction
/// seeded with `s`, stripped of every triangle touching `s`, handed out when
/// it passes the Delaunay audit and reported otherwise.
pub open spec fn spec_triangulation(ps: Seq<Vec2>, s: Triangle) -> Result<
    Seq<Triangle>,
    TriangulationError,
> {
    match spec_insert_all(seq![s], ps, ps.len() as int) {
        Ok(ts) => {
            let kept = spec_cleanup(ts, s, ts.len() as int);
            if spec_delaunay(kept, ps) {
                Ok(kept)
            } else {
                Err(TriangulationError::DelaunayViolation)
            }
        },
        Err(er) => Err(er),
    }
}

/// Once a re-triangulation prefix reports an error, every longer prefix
/// reports the same error.
proof fn lemma_retriangulate_err_persists(
    base: Seq<Triangle>,
    polygon: Seq<Edge>,
    p: Vec2,
    k: int,
    k2: int,
)
    requires
        0 <= k <= k2,
        spec_retriangulate(base, polygon, p, k) is Err,
    ensures
        spec_retriangulate(base, polygon, p, k2) == spec_retriangulate(base, polygon, p, k),
    decreases k2 - k,
{
    if k < k2 {
        lemma_retriangulate_err_persists(base, polygon, p, k, k2 - 1);
    }
}

/// Once an insertion prefix reports an error, every longer prefix reports
/// the same error.
proof fn lemma_insert_all_err_persists(ts: Seq<Triangle>, ps: Seq<Vec2>, k: int, k2: int)
    requires
        0 <= k <= k2,
        spec_insert_all(ts, ps, k) is Err,
    ensures
        spec_insert_all(ts, ps, k2) == spec_insert_all(ts, ps, k),
    decreases k2 - k,
{
    if k < k2 {
        lemma_insert_all_err_persists(ts, ps, k, k2 - 1);
    }
}

/// A point the engine may build with: an input point or a corner of the
/// enclosing triangle.
pub open spec fn pt_from(v: Vec2, ps: Seq<Vec2>, s: Triangle) -> bool {
    ps.contains(v) || v == s.a || v == s.b || v == s.c
}

/// The inputs on which no degeneracy can arise during construction: the
/// points are pairwise distinct, none coincides with a corner of the seed
/// triangle, and no three distinct points the engine may build with are
/// collinear.
pub open spec fn nondegenerate_input(ps: Seq<Vec2>, s: Triangle) -> bool {
    &&& (forall|i: int, j: int| #![trigger ps[i], ps[j]] 0 <= i < j < ps.len() ==> ps[i] != ps[j])
    &&& (forall|j: int| 0 <= j < ps.len() ==> !spec_has_vertex(s, #[trigger] ps[j]))
    &&& (forall|p: Vec2, q: Vec2, w: Vec2|
        pt_from(p, ps, s) && pt_from(q, ps, s) && pt_from(w, ps, s) && p != q && p != w && q != w
            ==> !(#[trigger] collinear(p, q, w)))
}

/// A well-formed triangle has three distinct corners: a triangle with two
/// coincident corners would be collinear.
pub proof fn lemma_wf_corners_distinct(t: Triangle)
    requires
        t.wf(),
    ensures
        t.a != t.b,
        t.b != t.c,
        t.c != t.a,
{
    if t.a == t.b {
        lemma_coincident_first_two(t.a.x as int, t.a.y as int, t.c.x as int, t.c.y as int);
        assert(circ_den(t.a, t.b, t.c) == 0);
    }
    if t.b == t.c {
        lemma_coincident_last_two(t.a.x as int, t.a.y as int, t.b.x as int, t.b.y as int);
        assert(circ_den(t.a, t.b, t.c) == 0);
    }
    if t.c == t.a {
        lemma_coincident_outer(t.a.x as int, t.a.y as int, t.b.x as int, t.b.y as int);
        assert(circ_den(t.a, t.b, t.c) == 0);
    }
}

/// A point the engine may build with over a prefix of the inputs is one
/// over any longer prefix.
proof fn lemma_pt_from_grow(v: Vec2, ps: Seq<Vec2>, s: Triangle, i: int, j: int)
    requires
        0 <= i <= j <= ps.len(),
        pt_from(v, ps.take(i), s),
    ensures
        pt_from(v, ps.take(j), s),
{
    if ps.take(i).contains(v) {
        let w = choose|w: int| 0 <= w < ps.take(i).len() && ps.take(i)[w] == v;
        assert(ps.take(j)[w] == v);
        assert(ps.take(j).contains(v));
    }
}

/// A triangle the engine may hold: well-formed, with every corner drawn
/// from the input points or the enclosing triangle.
spec fn tri_from(t: Triangle, ps: Seq<Vec2>, s: Triangle) -> bool {
    &&& t.wf()
    &&& pt_from(t.a, ps, s)
    &&& pt_from(t.b, ps, s)
    &&& pt_from(t.c, ps, s)
}

spec fn tris_from(ts: Seq<Triangle>, ps: Seq<Vec2>, s: Triangle) -> bool {
    forall|i: int| 0 <= i < ts.len() ==> tri_from(#[trigger] ts[i], ps, s)
}

/// A hole boundary edge the engine may re-triangulate from: two distinct
/// endpoints, in range, drawn from the input points or the enclosing
/// triangle.
spec fn edge_from(e: Edge, ps: Seq<Vec2>, s: Triangle) -> bool {
    &&& in_bounds(e.points[0])
    &&& in_bounds(e.points[1])
    &&& e.points[0] != e.points[1]
    &&& pt_from(e.points[0], ps, s)
    &&& pt_from(e.points[1], ps, s)
}

spec fn edges_from(es: Seq<Edge>, ps: Seq<Vec2>, s: Triangle) -> bool {
    forall|i: int| 0 <= i < es.len() ==> edge_from(#[trigger] es[i], ps, s)
}

/// Triangles built over a prefix of the inputs are built over any longer
/// prefix.
proof fn lemma_tris_from_grow(ts: Seq<Triangle>, ps: Seq<Vec2>, s: Triangle, i: int, j: int)
    requires
        0 <= i <= j <= ps.len(),
        tris_from(ts, ps.take(i), s),
    ensures
        tris_from(ts, ps.take(j), s),
{
    assert forall|k: int| 0 <= k < ts.len() implies tri_from(#[trigger] ts[k], ps.take(j), s) by {
        assert(tri_from(ts[k], ps.take(i), s));
        lemma_pt_from_grow(ts[k].a, ps, s, i, j);
        lemma_pt_from_grow(ts[k].b, ps, s, i, j);
        lemma_pt_from_grow(ts[k].c, ps, s, i, j);
    }
}

/// Whether some triangle of `ts` equals `t` (corner-wise).
fn contains_triangle(ts: &Vec<Triangle>, t: &Triangle) -> (r: bool)
    ensures
        r == spec_contains_tri(ts@, *t),
{
    let mut k: usize = 0;
    while k < ts.len()
        invariant
            0 <= k <= ts@.len(),
            forall|i: int| 0 <= i < k ==> !tri_eq(#[trigger] ts@[i], *t),
        decreases ts@.len() - k,
    {
        if ts[k] == *t {
            return true;
        }
        k = k + 1;
    }
    false
}

/// Whether no triangle of `triangles` other than `current` itself has the
/// edge `edge`; such an edge lies on the boundary of the union of the
/// triangles rather than in its interior.
fn edge_is_not_shared_by_other_triangles(
    edge: Edge,
    current: &Triangle,
    triangles: &Vec<Triangle>,
) -> (r: bool)
    ensures
        r == edge_unshared(edge, *current, triangles@),
{
    let mut k: usize = 0;
    while k < triangles.len()
        invariant
            0 <= k <= triangles@.len(),
            forall|i: int|
                0 <= i < k ==> tri_eq(#[trigger] triangles@[i], *current) || !has_edge(
                    triangles@[i],
                    edge,
                ),
        decreases triangles@.len() - k,
    {
        let t = triangles[k];
        if !(t == *current) {
            if t.edges[0] == edge || t.edges[1] == edge || t.edges[2] == edge {
                return false;
            }
        }
        k = k + 1;
    }
    true
}

/// Whether the triangle list satisfies the Delaunay property with respect to
/// the point list: no point lies strictly inside the circumcircle of a
/// triangle it is not a corner of.
pub fn is_delaunay(triangles: &Vec<Triangle>, points: &Vec<Vec2>) -> (r: bool)
    requires
        all_wf(triangles@),
        forall|j: int| 0 <= j < points@.len() ==> in_bounds(#[trigger] points@[j]),
    ensures
        r == spec_delaunay(triangles@, points@),
{
    let mut i: usize = 0;
    while i < triangles.len()
        invariant
            0 <= i <= triangles@.len(),
            all_wf(triangles@),
            forall|j: int| 0 <= j < points@.len() ==> in_bounds(#[trigger] points@[j]),
            forall|i2: int, j2: int|
                #![trigger triangles@[i2], points@[j2]]
                0 <= i2 < i && 0 <= j2 < points@.len() && !spec_has_vertex(
                    triangles@[i2],
                    points@[j2],
                ) ==> !in_circumcircle(triangles@[i2], points@[j2]),
        decreases triangles@.len() - i,
    {
        let t = triangles[i];
        let mut j: usize = 0;
        while j < points.len()
            invariant
                0 <= i < triangles@.len(),
                0 <= j <= points@.len(),
                t == triangles@[i as int],
                all_wf(triangles@),
                forall|j2: int| 0 <= j2 < points@.len() ==> in_bounds(#[trigger] points@[j2]),
                forall|j2: int|
                    #![trigger points@[j2]]
                    0 <= j2 < j && !spec_has_vertex(t, points@[j2]) ==> !in_circumcircle(
                        t,
                        points@[j2],
                    ),
            decreases points@.len() - j,
        {
            let p = points[j];
            if !t.has_vertex(&p) && t.contains_point_in_circumcircle(&p) {
                assert(!spec_delaunay(triangles@, points@));
                return false;
            }
            j = j + 1;
        }
        i = i + 1;
    }
    true
}

/// Incremental Bowyer-Watson triangulation. Inserts the points one at a
/// time into a triangulation seeded with `super_triangle` (which the caller
/// chooses large enough to enclose every point), re-triangulating the hole
/// each insertion opens, then strips every triangle that touches the seed
/// triangle and audits the Delaunay property of what remains.
///
/// The result — the triangle list or the error — is pinned exactly: it
/// equals what [`spec_triangulation`] describes, step for step. On success,
/// every returned triangle is well-formed, has all three corners among the
/// input points, shares no corner with `super_triangle`, and no input point
/// lies strictly inside the circumcircle of a triangle it is not a corner
/// of. A point collinear with a hole boundary edge (one on an edge of the
/// seed triangle, say) surfaces as a `Degenerate` error; on
/// [`nondegenerate_input`] — points pairwise distinct, none on a seed
/// corner, no three buildable points collinear — no such degeneracy can
/// arise, so any error is then the audit's `DelaunayViolation` report. A
/// duplicate point lands on its earlier copy's circumcircles, never
/// strictly inside, and is absorbed without effect.
pub fn delauney_triangulation(points: &Vec<Vec2>, super_triangle: Triangle) -> (r: Result<
    Vec<Triangle>,
    TriangulationError,
>)
    requires
        super_triangle.wf(),
        forall|j: int| 0 <= j < points@.len() ==> in_bounds(#[trigger] points@[j]),
    ensures
        (match r {
            Ok(ts) => spec_triangulation(points@, super_triangle) matches Ok(m) && m == ts@,
            Err(e) => spec_triangulation(points@, super_triangle) matches Err(e2) && e2 == e,
        }),
        r matches Ok(ts) ==> all_wf(ts@) && spec_delaunay(ts@, points@) && (forall|i: int|
            0 <= i < ts@.len() ==> !spec_shares_vertex(#[trigger] ts@[i], super_triangle)) && (
        forall|i: int|
            0 <= i < ts@.len() ==> points@.contains((#[trigger] ts@[i]).a) && points@.contains(
                ts@[i].b,
            ) && points@.contains(ts@[i].c)),
        points@.len() == 0 ==> (r matches Ok(ts) && ts@.len() == 0),
        nondegenerate_input(points@, super_triangle) ==> !(r matches Err(
            TriangulationError::Degenerate(_),
        )),
{
    let mut triangulation: Vec<Triangle> = Vec::new();
    triangulation.push(super_triangle);
    proof {
        assert(triangulation@ =~= seq![super_triangle]);
    }

    let mut idx: usize = 0;
    while idx < points.len()
        invariant
            0 <= idx <= points@.len(),
            super_triangle.wf(),
            forall|j: int| 0 <= j < points@.len() ==> in_bounds(#[trigger] points@[j]),
            tris_from(triangulation@, points@.take(idx as int), super_triangle),
            (spec_insert_all(seq![super_triangle], points@, idx as int) matches Ok(cur) && cur
                == triangulation@),
        decreases points@.len() - idx,
    {
        let ghost t_start = triangulation@;
        let point = points[idx];
        assert(points@.contains(point));

        // A triangle is bad when the new point falls strictly inside its
        // circumcircle; all of them are removed below.
        let mut bad_triangles: Vec<Triangle> = Vec::new();
        let mut k: usize = 0;
        while k < triangulation.len()
            invariant
                0 <= k <= triangulation@.len(),
                triangulation@ == t_start,
                tris_from(triangulation@, points@.take(idx as int), super_triangle),
                tris_from(bad_triangles@, points@.take(idx as int), super_triangle),
                in_bounds(point),
                bad_triangles@ == spec_bad_triangles(t_start, point, k as int),
            decreases triangulation@.len() - k,
        {
            let t = triangulation[k];
            assert(tri_from(triangulation@[k as int], points@.take(idx as int), super_triangle));
            if t.contains_point_in_circumcircle(&point) {
                bad_triangles.push(t);
            }
            k = k + 1;
        }

        // The boundary of the polygonal hole: edges of bad triangles that no
        // other bad triangle also has.
        let mut polygon: Vec<Edge> = Vec::new();
        let mut k2: usize = 0;
        while k2 < bad_triangles.len()
            invariant
                0 <= k2 <= bad_triangles@.len(),
                tris_from(bad_triangles@, points@.take(idx as int), super_triangle),
                edges_from(polygon@, points@.take(idx as int), super_triangle),
                polygon@ == spec_polygon(bad_triangles@, k2 as int),
            decreases bad_triangles@.len() - k2,
        {
            let t = bad_triangles[k2];
            assert(tri_from(bad_triangles@[k2 as int], points@.take(idx as int), super_triangle));
            proof {
                lemma_wf_corners_distinct(t);
            }
            let ghost poly0 = polygon@;
            let u0 = edge_is_not_shared_by_other_triangles(t.edges[0], &t, &bad_triangles);
            if u0 {
                polygon.push(t.edges[0]);
            }
            let u1 = edge_is_not_shared_by_other_triangles(t.edges[1], &t, &bad_triangles);
            if u1 {
                polygon.push(t.edges[1]);
            }
            let u2 = edge_is_not_shared_by_other_triangles(t.edges[2], &t, &bad_triangles);
            if u2 {
                polygon.push(t.edges[2]);
            }
            proof {
                assert(polygon@ =~= poly0 + spec_kept_edges(t, bad_triangles@));
            }
            k2 = k2 + 1;
        }

        // Remove the bad triangles, by value.
        let mut kept: Vec<Triangle> = Vec::new();
        let mut k3: usize = 0;
        while k3 < triangulation.len()
            invariant
                0 <= k3 <= triangulation@.len(),
                triangulation@ == t_start,
                tris_from(triangulation@, points@.take(idx as int), super_triangle),
                tris_from(kept@, points@.take(idx as int), super_triangle),
                kept@ == spec_remaining(t_start, bad_triangles@, k3 as int),
            decreases triangulation@.len() - k3,
        {
            let t = triangulation[k3];
            assert(tri_from(triangulation@[k3 as int], points@.take(idx as int), super_triangle));
            if !contains_triangle(&bad_triangles, &t) {
                kept.push(t);
            }
            k3 = k3 + 1;
        }
        triangulation = kept;
        let ghost base = triangulation@;
        proof {
            lemma_tris_from_grow(triangulation@, points@, super_triangle, idx as int, idx as int + 1);
        }

        // Re-triangulate the hole: one new triangle per boundary edge.
        let mut k4: usize = 0;
        while k4 < polygon.len()
            invariant
                0 <= k4 <= polygon@.len(),
                0 <= idx < points@.len(),
                point == points@[idx as int],
                super_triangle.wf(),
                edges_from(polygon@, points@.take(idx as int), super_triangle),
                tris_from(triangulation@, points@.take(idx as int + 1), super_triangle),
                in_bounds(point),
                points@.contains(point),
                bad_triangles@ == spec_bad_triangles(t_start, point, t_start.len() as int),
                polygon@ == spec_polygon(bad_triangles@, bad_triangles@.len() as int),
                base == spec_remaining(t_start, bad_triangles@, t_start.len() as int),
                (spec_insert_all(seq![super_triangle], points@, idx as int) matches Ok(cur) && cur
                    == t_start),
                (spec_retriangulate(base, polygon@, point, k4 as int) matches Ok(c) && c
                    == triangulation@),
            decreases polygon@.len() - k4,
        {
            let e = polygon[k4];
            assert(edge_from(polygon@[k4 as int], points@.take(idx as int), super_triangle));
            match Triangle::new(e.points[0], e.points[1], point) {
                Ok(t) => {
                    proof {
                        lemma_pt_from_grow(
                            e.points[0],
                            points@,
                            super_triangle,
                            idx as int,
                            idx as int + 1,
                        );
                        lemma_pt_from_grow(
                            e.points[1],
                            points@,
                            super_triangle,
                            idx as int,
                            idx as int + 1,
                        );
                        assert(points@.take(idx as int + 1)[idx as int] == point);
                        assert(points@.take(idx as int + 1).contains(point));
                    }
                    triangulation.push(t);
                },
                Err(err) => {
                    proof {
                        assert(collinear(e.points[0], e.points[1], point));
                        if nondegenerate_input(points@, super_triangle) {
                            let e0 = e.points[0];
                            let e1 = e.points[1];
                            lemma_pt_from_grow(
                                e0,
                                points@,
                                super_triangle,
                                idx as int,
                                points@.len() as int,
                            );
                            lemma_pt_from_grow(
                                e1,
                                points@,
                                super_triangle,
                                idx as int,
                                points@.len() as int,
                            );
                            assert(points@.take(points@.len() as int) =~= points@);
                            assert(pt_from(e0, points@, super_triangle));
                            assert(pt_from(e1, points@, super_triangle));
                            assert(pt_from(point, points@, super_triangle));
                            assert(!spec_has_vertex(super_triangle, points@[idx as int]));
                            if points@.take(idx as int).contains(e0) {
                                let w = choose|w: int|
                                    0 <= w < points@.take(idx as int).len() && points@.take(
                                        idx as int,
                                    )[w] == e0;
                                assert(points@[w] == e0);
                                assert(points@[w] != points@[idx as int]);
                            }
                            assert(point != e0);
                            if points@.take(idx as int).contains(e1) {
                                let w = choose|w: int|
                                    0 <= w < points@.take(idx as int).len() && points@.take(
                                        idx as int,
                                    )[w] == e1;
                                assert(points@[w] == e1);
                                assert(points@[w] != points@[idx as int]);
                            }
                            assert(point != e1);
                            assert(e0 != e1);
                            assert(!collinear(e0, e1, point));
                            assert(false);
                        }
                        assert(spec_retriangulate(base, polygon@, point, k4 as int + 1) matches Err(
                            e2,
                        ) && e2 == TriangulationError::Degenerate(err));
                        lemma_retriangulate_err_persists(
                            base,
                            polygon@,
                            point,
                            k4 as int + 1,
                            polygon@.len() as int,
                        );
                        assert(spec_insert_point(t_start, point) == spec_retriangulate(
                            base,
                            polygon@,
                            point,
                            polygon@.len() as int,
                        ));
                        assert(spec_insert_all(seq![super_triangle], points@, idx as int + 1)
                            matches Err(e2) && e2 == TriangulationError::Degenerate(err));
                        lemma_insert_all_err_persists(
                            seq![super_triangle],
                            points@,
                            idx as int + 1,
                            points@.len() as int,
                        );
                    }
                    return Err(TriangulationError::Degenerate(err));
                },
            }
            k4 = k4 + 1;
        }
        proof {
            assert(spec_insert_point(t_start, point) == spec_retriangulate(
                base,
                polygon@,
                point,
                polygon@.len() as int,
            ));
            assert(spec_insert_all(seq![super_triangle], points@, idx as int + 1) matches Ok(cur)
                && cur == triangulation@);
        }
        idx = idx + 1;
    }

    proof {
        assert(points@.take(points@.len() as int) =~= points@);
        assert(tris_from(triangulation@, points@, super_triangle));
    }

    // Strip every triangle that touches the seed triangle: they exist only
    // to bootstrap the construction.
    let mut result: Vec<Triangle> = Vec::new();
    let mut k5: usize = 0;
    while k5 < triangulation.len()
        invariant
            0 <= k5 <= triangulation@.len(),
            tris_from(triangulation@, points@, super_triangle),
            tris_from(result@, points@, super_triangle),
            forall|i: int|
                0 <= i < result@.len() ==> !spec_shares_vertex(
                    #[trigger] result@[i],
                    super_triangle,
                ),
            points@.len() == 0 ==> result@.len() == 0,
            result@ == spec_cleanup(triangulation@, super_triangle, k5 as int),
        decreases triangulation@.len() - k5,
    {
        let t = triangulation[k5];
        assert(tri_from(triangulation@[k5 as int], points@, super_triangle));
        if !t.shares_vertex(&super_triangle) {
            result.push(t);
        }
        k5 = k5 + 1;
    }

    proof {
        assert forall|i: int| 0 <= i < result@.len() implies (#[trigger] result@[i]).wf()
            && points@.contains(result@[i].a) && points@.contains(result@[i].b)
            && points@.contains(result@[i].c) by {
            assert(tri_from(result@[i], points@, super_triangle));
            assert(!spec_shares_vertex(result@[i], super_triangle));
        }
        assert(spec_insert_all(seq![super_triangle], points@, points@.len() as int) matches Ok(cur)
            && cur == triangulation@);
        assert(result@ == spec_cleanup(triangulation@, super_triangle, triangulation@.len() as int));
    }

    // Audit the Delaunay property rather than hand out a triangle list that
    // might break it (possible only when the seed triangle fails to enclose
    // the input).
    if is_delaunay(&result, points) {
        Ok(result)
    } else {
        Err(TriangulationError::DelaunayViolation)
    }
}

} // verus!
