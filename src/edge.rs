use vstd::prelude::*;
use crate::vec::Vec2;

verus! {

/// Bound on a coordinate difference of two `i32` values.
const SPAN: i64 = 0x1_0000_0000;

/// The z-component of the cross product of `(ax, ay)` and `(bx, by)`.
pub open spec fn cross(ax: int, ay: int, bx: int, by: int) -> int {
    ax * by - ay * bx
}

/// Whether the exact quotient `num / den` lies in the closed interval `[0, 1]`.
/// A zero denominator gives no quotient, so the answer is then `false`.
pub open spec fn in_unit(num: int, den: int) -> bool {
    if den > 0 {
        0 <= num <= den
    } else if den < 0 {
        den <= num <= 0
    } else {
        false
    }
}

/// A directed segment from `.0` to `.1`.
#[derive(Clone, Copy, PartialEq, Eq, Structural, Debug)]
pub struct Edge(pub Vec2, pub Vec2);

impl Edge {
    /// Direction vector, x component.
    pub open spec fn rx(self) -> int {
        self.1.x - self.0.x
    }

    /// Direction vector, y component.
    pub open spec fn ry(self) -> int {
        self.1.y - self.0.y
    }

    /// Whether `self` (as `p + t r`) and `e` (as `q + u s`) are collinear:
    /// parallel directions and `q - p` along `r`.
    pub open spec fn collinear_with(self, e: Edge) -> bool {
        cross(self.rx(), self.ry(), e.rx(), e.ry()) == 0
            && cross(e.0.x - self.0.x, e.0.y - self.0.y, self.rx(), self.ry()) == 0
    }

    /// The intersection test on exact values. Non-parallel segments meet when
    /// both parameters lie in `[0, 1]`. Parallel, non-collinear segments never
    /// meet. Collinear segments meet when the start of `e`, projected on `self`
    /// along the x axis or along the y axis, falls in `[0, 1]`; an axis on which
    /// `self` does not move gives no projection.
    pub open spec fn intersects_spec(self, e: Edge) -> bool {
        let rx = self.rx();
        let ry = self.ry();
        let sx = e.rx();
        let sy = e.ry();
        let qpx = e.0.x - self.0.x;
        let qpy = e.0.y - self.0.y;
        let r_cross_s = cross(rx, ry, sx, sy);
        let qp_cross_r = cross(qpx, qpy, rx, ry);
        if r_cross_s == 0 {
            if qp_cross_r == 0 {
                in_unit(qpx, rx) || in_unit(qpy, ry)
            } else {
                false
            }
        } else {
            in_unit(qp_cross_r, r_cross_s) && in_unit(cross(qpx, qpy, sx, sy), r_cross_s)
        }
    }

    /// Whether the two segments intersect, by the exact test `intersects_spec`.
    pub fn intersects(&self, e: Edge) -> (r: bool)
        ensures
            r == self.intersects_spec(e),
    {
        let p = self.0;
        let q = e.0;
        let rx = self.1.x as i64 - self.0.x as i64;
        let ry = self.1.y as i64 - self.0.y as i64;
        let sx = e.1.x as i64 - e.0.x as i64;
        let sy = e.1.y as i64 - e.0.y as i64;
        let qpx = q.x as i64 - p.x as i64;
        let qpy = q.y as i64 - p.y as i64;
        let r_cross_s = cross_exec(rx, ry, sx, sy);
        let qp_cross_r = cross_exec(qpx, qpy, rx, ry);

        if r_cross_s == 0 {
            if qp_cross_r == 0 {
                return in_unit_exec(qpx as i128, rx as i128) || in_unit_exec(qpy as i128, ry as i128);
            }
            return false;
        }
        let qp_cross_s = cross_exec(qpx, qpy, sx, sy);
        in_unit_exec(qp_cross_r, r_cross_s) && in_unit_exec(qp_cross_s, r_cross_s)
    }
}

/// A segment with two distinct endpoints intersects itself: the test takes
/// the collinear branch, and the start of the segment projects to `0`.
pub proof fn lemma_self_intersects(s: Edge)
    requires
        s.0 != s.1,
    ensures
        s.intersects_spec(s),
{
    let rx = s.rx();
    let ry = s.ry();
    assert(cross(rx, ry, rx, ry) == 0) by (nonlinear_arith);
    assert(cross(0, 0, rx, ry) == 0) by (nonlinear_arith);
    assert(rx != 0 || ry != 0);
}

proof fn lemma_cross_antisymmetric(ax: int, ay: int, bx: int, by: int)
    ensures
        cross(bx, by, ax, ay) == -cross(ax, ay, bx, by),
        cross(-ax, -ay, bx, by) == -cross(ax, ay, bx, by),
{
    assert(cross(bx, by, ax, ay) == -cross(ax, ay, bx, by)) by (nonlinear_arith);
    assert(cross(-ax, -ay, bx, by) == -cross(ax, ay, bx, by)) by (nonlinear_arith);
}

/// A vector that is parallel to a nonzero `s` is parallel to every `r` that
/// is parallel to `s`.
proof fn lemma_parallel_transfer(ax: int, ay: int, rx: int, ry: int, sx: int, sy: int)
    requires
        sx != 0 || sy != 0,
        cross(rx, ry, sx, sy) == 0,
        cross(ax, ay, sx, sy) == 0,
    ensures
        cross(ax, ay, rx, ry) == 0,
{
    let (m, n) = (ax * ry, ay * rx);
    assert(ax * sy == ay * sx && rx * sy == ry * sx);
    if sx != 0 {
        assert(sx * m == ax * (ry * sx)) by (nonlinear_arith)
            requires
                m == ax * ry,
        ;
        assert(ax * (rx * sy) == rx * (ax * sy)) by (nonlinear_arith);
        assert(rx * (ay * sx) == sx * n) by (nonlinear_arith)
            requires
                n == ay * rx,
        ;
        assert(sx * m == sx * n);
        assert(m == n) by (nonlinear_arith)
            requires
                sx * m == sx * n,
                sx != 0,
        ;
    } else {
        assert(sy * m == ry * (ax * sy)) by (nonlinear_arith)
            requires
                m == ax * ry,
        ;
        assert(ry * (ay * sx) == ay * (ry * sx)) by (nonlinear_arith);
        assert(ay * (rx * sy) == sy * n) by (nonlinear_arith)
            requires
                n == ay * rx,
        ;
        assert(sy * m == sy * n);
        assert(m == n) by (nonlinear_arith)
            requires
                sy * m == sy * n,
                sy != 0,
        ;
    }
}

/// The intersection test gives the same answer in both orders, except for
/// collinear pairs, where it projects only the start of the second segment.
pub proof fn lemma_intersects_symmetric(a: Edge, b: Edge)
    requires
        !a.collinear_with(b),
    ensures
        a.intersects_spec(b) == b.intersects_spec(a),
{
    let (rx, ry, sx, sy) = (a.rx(), a.ry(), b.rx(), b.ry());
    let (qpx, qpy) = (b.0.x - a.0.x, b.0.y - a.0.y);
    lemma_cross_antisymmetric(rx, ry, sx, sy);
    lemma_cross_antisymmetric(qpx, qpy, rx, ry);
    lemma_cross_antisymmetric(qpx, qpy, sx, sy);
    assert(a.0.x - b.0.x == -qpx && a.0.y - b.0.y == -qpy);
    if cross(rx, ry, sx, sy) == 0 {
        assert(cross(qpx, qpy, rx, ry) != 0);
        if sx != 0 || sy != 0 {
            if cross(qpx, qpy, sx, sy) == 0 {
                lemma_parallel_transfer(qpx, qpy, rx, ry, sx, sy);
            }
        } else {
            assert(cross(-qpx, -qpy, sx, sy) == 0) by (nonlinear_arith)
                requires
                    sx == 0,
                    sy == 0,
            ;
        }
    }
}

/// Two segments that share an endpoint, and are not parallel, intersect: one
/// parameter is `0` or `1` at the shared point.
pub proof fn lemma_shared_endpoint_intersects(a: Edge, b: Edge)
    requires
        a.0 == b.0 || a.0 == b.1 || a.1 == b.0 || a.1 == b.1,
        cross(a.rx(), a.ry(), b.rx(), b.ry()) != 0,
    ensures
        a.intersects_spec(b),
{
    let (rx, ry, sx, sy) = (a.rx(), a.ry(), b.rx(), b.ry());
    let (qpx, qpy) = (b.0.x - a.0.x, b.0.y - a.0.y);
    let rs = cross(rx, ry, sx, sy);
    if a.0 == b.0 {
        assert(cross(qpx, qpy, rx, ry) == 0 && cross(qpx, qpy, sx, sy) == 0) by (nonlinear_arith)
            requires
                qpx == 0,
                qpy == 0,
        ;
    } else if a.0 == b.1 {
        assert(cross(qpx, qpy, rx, ry) == rs && cross(qpx, qpy, sx, sy) == 0) by (nonlinear_arith)
            requires
                qpx == -sx,
                qpy == -sy,
                rs == cross(rx, ry, sx, sy),
        ;
    } else if a.1 == b.0 {
        assert(cross(qpx, qpy, rx, ry) == 0 && cross(qpx, qpy, sx, sy) == rs) by (nonlinear_arith)
            requires
                qpx == rx,
                qpy == ry,
                rs == cross(rx, ry, sx, sy),
        ;
    } else {
        assert(cross(qpx, qpy, rx, ry) == rs && cross(qpx, qpy, sx, sy) == rs) by (nonlinear_arith)
            requires
                qpx == rx - sx,
                qpy == ry - sy,
                rs == cross(rx, ry, sx, sy),
        ;
    }
}

/// Orientation of the triangle `a, b, c`: positive when counter-clockwise,
/// negative when clockwise, zero when the three are collinear.
pub open spec fn orient(a: Vec2, b: Vec2, c: Vec2) -> int {
    cross(b.x - a.x, b.y - a.y, c.x - a.x, c.y - a.y)
}

/// Orientation is kept by rotating the three points and flipped by swapping two.
pub proof fn lemma_orient_perm(a: Vec2, b: Vec2, c: Vec2)
    ensures
        orient(b, c, a) == orient(a, b, c),
        orient(b, a, c) == -orient(a, b, c),
{
    let (ax, ay, bx, by, cx, cy) = (a.x as int, a.y as int, b.x as int, b.y as int, c.x as int, c.y as int);
    assert((cx - bx) * (ay - by) - (cy - by) * (ax - bx) == (bx - ax) * (cy - ay) - (by - ay) * (cx - ax))
        by (nonlinear_arith);
    assert((ax - bx) * (cy - by) - (ay - by) * (cx - bx) == -((bx - ax) * (cy - ay) - (by - ay) * (cx - ax)))
        by (nonlinear_arith);
}

/// The four orientations of four points are linked:
/// `orient(p0, p1, p2) + orient(p0, p2, p3) == orient(p0, p1, p3) + orient(p1, p2, p3)`.
pub proof fn lemma_orient_four(p0: Vec2, p1: Vec2, p2: Vec2, p3: Vec2)
    ensures
        orient(p0, p1, p2) + orient(p0, p2, p3) == orient(p0, p1, p3) + orient(p1, p2, p3),
{
    let (x0, y0, x1, y1) = (p0.x as int, p0.y as int, p1.x as int, p1.y as int);
    let (x2, y2, x3, y3) = (p2.x as int, p2.y as int, p3.x as int, p3.y as int);
    assert((x1 - x0) * (y2 - y0) - (y1 - y0) * (x2 - x0) + ((x2 - x0) * (y3 - y0) - (y2 - y0) * (x3
        - x0)) == (x1 - x0) * (y3 - y0) - (y1 - y0) * (x3 - x0) + ((x2 - x1) * (y3 - y1) - (y2 - y1)
        * (x3 - x1))) by (nonlinear_arith);
}

/// When no three of the four endpoints are collinear, intersecting segments
/// cross properly: each separates the endpoints of the other.
pub proof fn lemma_crossing_signs(p: Vec2, q: Vec2, r: Vec2, s: Vec2)
    requires
        orient(p, q, r) != 0,
        orient(p, q, s) != 0,
        orient(r, s, p) != 0,
        orient(r, s, q) != 0,
        Edge(p, q).intersects_spec(Edge(r, s)),
    ensures
        (orient(p, q, r) > 0) != (orient(p, q, s) > 0),
        (orient(r, s, p) > 0) != (orient(r, s, q) > 0),
{
    let (rx, ry) = (q.x - p.x, q.y - p.y);
    let (sx, sy) = (s.x - r.x, s.y - r.y);
    let (qpx, qpy) = (r.x - p.x, r.y - p.y);
    let rs = cross(rx, ry, sx, sy);
    let qpr = cross(qpx, qpy, rx, ry);
    let qps = cross(qpx, qpy, sx, sy);
    assert(orient(p, q, r) == -qpr) by (nonlinear_arith)
        requires
            orient(p, q, r) == cross(rx, ry, qpx, qpy),
            qpr == cross(qpx, qpy, rx, ry),
    ;
    assert(orient(p, q, s) == rs - qpr) by (nonlinear_arith)
        requires
            orient(p, q, s) == cross(rx, ry, qpx + sx, qpy + sy),
            qpr == cross(qpx, qpy, rx, ry),
            rs == cross(rx, ry, sx, sy),
    ;
    assert(orient(r, s, p) == qps) by (nonlinear_arith)
        requires
            orient(r, s, p) == cross(sx, sy, -qpx, -qpy),
            qps == cross(qpx, qpy, sx, sy),
    ;
    assert(orient(r, s, q) == qps - rs) by (nonlinear_arith)
        requires
            orient(r, s, q) == cross(sx, sy, rx - qpx, ry - qpy),
            qps == cross(qpx, qpy, sx, sy),
            rs == cross(rx, ry, sx, sy),
    ;
}

proof fn lemma_product_bound(a: int, b: int)
    requires
        -SPAN <= a <= SPAN,
        -SPAN <= b <= SPAN,
    ensures
        -SPAN * SPAN <= a * b <= SPAN * SPAN,
{
    assert(-SPAN * SPAN <= a * b <= SPAN * SPAN) by (nonlinear_arith)
        requires
            -SPAN <= a <= SPAN,
            -SPAN <= b <= SPAN,
            SPAN > 0,
    ;
}

fn cross_exec(ax: i64, ay: i64, bx: i64, by: i64) -> (r: i128)
    requires
        -SPAN <= ax <= SPAN,
        -SPAN <= ay <= SPAN,
        -SPAN <= bx <= SPAN,
        -SPAN <= by <= SPAN,
    ensures
        r == cross(ax as int, ay as int, bx as int, by as int),
{
    proof {
        lemma_product_bound(ax as int, by as int);
        lemma_product_bound(ay as int, bx as int);
    }
    (ax as i128) * (by as i128) - (ay as i128) * (bx as i128)
}

fn in_unit_exec(num: i128, den: i128) -> (r: bool)
    ensures
        r == in_unit(num as int, den as int),
{
    if den > 0 {
        0 <= num && num <= den
    } else if den < 0 {
        den <= num && num <= 0
    } else {
        false
    }
}

} // verus!
