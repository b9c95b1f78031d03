//! Points, rectangles and segments on a fixed-point integer grid, with the
//! exact segment intersection that swept collision detection rests on.
use vstd::arithmetic::div_mod::{
    lemma_div_is_ordered, lemma_div_multiples_vanish, lemma_fundamental_div_mod,
    lemma_fundamental_div_mod_converse,
};
use vstd::arithmetic::mul::lemma_mul_inequality;
use vstd::prelude::*;

verus! {

/// Sub-units per world unit: every coordinate is a fixed-point integer.
pub const UNIT: i64 = 1000;

/// Largest magnitude of a point coordinate or of a rectangle corner.
pub const MAX_COORD: i64 = 0x10_0000_0000;

/// Largest magnitude of a segment end point (a swept segment may reach past
/// the point range by one frame of motion).
pub const MAX_SEGMENT_COORD: i64 = 0x20_0000_0000;

pub open spec fn within(v: int, bound: int) -> bool {
    -bound <= v <= bound
}

pub open spec fn min_int(a: int, b: int) -> int {
    if a <= b { a } else { b }
}

pub open spec fn max_int(a: int, b: int) -> int {
    if a >= b { a } else { b }
}

/// Quotient of Rust's `/` on integers: rounds toward zero (`d > 0`).
pub open spec fn trunc_div(n: int, d: int) -> int {
    if n >= 0 { n / d } else { -((-n) / d) }
}

/// The largest integer not above the fraction `n / d` (`d != 0`).
pub open spec fn floor_frac(n: int, d: int) -> int {
    if d > 0 { n / d } else { (-n) / (-d) }
}

#[derive(Clone, Copy, Debug, PartialEq, Eq, Structural)]
pub struct Vec2 {
    pub x: i64,
    pub y: i64,
}

impl Vec2 {
    pub open spec fn in_range(self) -> bool {
        within(self.x as int, MAX_COORD as int) && within(self.y as int, MAX_COORD as int)
    }

    pub open spec fn norm2(self) -> int {
        self.x * self.x + self.y * self.y
    }

    pub open spec fn is_zero(self) -> bool {
        self.x == 0 && self.y == 0
    }

    pub fn new(x: i64, y: i64) -> (r: Vec2)
        ensures
            r.x == x,
            r.y == y,
    {
        Vec2 { x, y }
    }

    pub fn zero() -> (r: Vec2)
        ensures
            r.is_zero(),
    {
        Vec2 { x: 0, y: 0 }
    }
}

/// An axis-aligned rectangle: `[x, x + width) x [y, y + height)`.
#[derive(Clone, Copy, Debug, PartialEq, Eq, Structural)]
pub struct Rect {
    pub x: i64,
    pub y: i64,
    pub width: i64,
    pub height: i64,
}

impl Rect {
    pub open spec fn wf(self) -> bool {
        within(self.x as int, MAX_COORD as int) && within(self.y as int, MAX_COORD as int)
            && 0 <= self.width <= MAX_COORD && 0 <= self.height <= MAX_COORD
    }

    pub open spec fn right(self) -> int {
        self.x + self.width
    }

    pub open spec fn bottom(self) -> int {
        self.y + self.height
    }

    pub fn new(x: i64, y: i64, width: i64, height: i64) -> (r: Rect)
        ensures
            r == (Rect { x, y, width, height }),
    {
        Rect { x, y, width, height }
    }

    /// The overlap of two rectangles, where their interiors meet.
    pub fn collision_rect(&self, other: &Rect) -> (r: Option<Rect>)
        requires
            self.wf(),
            other.wf(),
        ensures
            r == rect_overlap(*self, *other),
            r is Some ==> r->0.wf(),
    {
        let right1 = self.x + self.width;
        let right2 = other.x + other.width;
        let bottom1 = self.y + self.height;
        let bottom2 = other.y + other.height;
        if self.x < right2 && right1 > other.x && self.y < bottom2 && bottom1 > other.y {
            let left = if self.x > other.x { self.x } else { other.x };
            let right = if right1 < right2 { right1 } else { right2 };
            let top = if self.y > other.y { self.y } else { other.y };
            let bottom = if bottom1 < bottom2 { bottom1 } else { bottom2 };
            Some(Rect { x: left, y: top, width: right - left, height: bottom - top })
        } else {
            None
        }
    }
}

/// Whether the interiors of two rectangles meet.
pub open spec fn rects_meet(a: Rect, b: Rect) -> bool {
    a.x < b.right() && a.right() > b.x && a.y < b.bottom() && a.bottom() > b.y
}

pub open spec fn rect_overlap(a: Rect, b: Rect) -> Option<Rect> {
    if rects_meet(a, b) {
        let left = max_int(a.x as int, b.x as int);
        let top = max_int(a.y as int, b.y as int);
        Some(
            Rect {
                x: left as i64,
                y: top as i64,
                width: (min_int(a.right(), b.right()) - left) as i64,
                height: (min_int(a.bottom(), b.bottom()) - top) as i64,
            },
        )
    } else {
        None
    }
}

/// The overlap test between two rectangles does not depend on their order.
pub proof fn lemma_rect_overlap_symmetric(a: Rect, b: Rect)
    ensures
        rect_overlap(a, b) == rect_overlap(b, a),
{
}

/// A directed segment from `start` to `end`.
#[derive(Clone, Copy, Debug, PartialEq, Eq, Structural)]
pub struct Line {
    pub start: Vec2,
    pub end: Vec2,
}

pub open spec fn cross_spec(ax: int, ay: int, bx: int, by: int) -> int {
    ax * by - ay * bx
}

/// Cross product of the two direction vectors.
pub open spec fn denom(a: Line, b: Line) -> int {
    cross_spec(a.end.x - a.start.x, a.end.y - a.start.y, b.end.x - b.start.x, b.end.y - b.start.y)
}

/// Numerator of the parameter of the meeting point along `a`.
pub open spec fn t_num(a: Line, b: Line) -> int {
    cross_spec(b.start.x - a.start.x, b.start.y - a.start.y, b.end.x - b.start.x, b.end.y - b.start.y)
}

/// Numerator of the parameter of the meeting point along `b`.
pub open spec fn u_num(a: Line, b: Line) -> int {
    cross_spec(b.start.x - a.start.x, b.start.y - a.start.y, a.end.x - a.start.x, a.end.y - a.start.y)
}

/// Whether the fraction `n / d` lies in `[0, 1]` (`d != 0`).
pub open spec fn in_unit(n: int, d: int) -> bool {
    if d > 0 { 0 <= n <= d } else { d <= n <= 0 }
}

/// Whether two segments meet in exactly one point.
pub open spec fn segments_meet(a: Line, b: Line) -> bool {
    denom(a, b) != 0 && in_unit(t_num(a, b), denom(a, b)) && in_unit(u_num(a, b), denom(a, b))
}

/// The meeting point `a.start + (a.end - a.start) * t`, each coordinate
/// rounded down to the grid.
pub open spec fn meet_point(a: Line, b: Line) -> Vec2 {
    let d = denom(a, b);
    let t = t_num(a, b);
    Vec2 {
        x: floor_frac(a.start.x * d + (a.end.x - a.start.x) * t, d) as i64,
        y: floor_frac(a.start.y * d + (a.end.y - a.start.y) * t, d) as i64,
    }
}

pub open spec fn intersection_spec(a: Line, b: Line) -> Option<Vec2> {
    if segments_meet(a, b) {
        Some(meet_point(a, b))
    } else {
        None
    }
}

/// `v` lies between `a` and `b`, in either order.
pub open spec fn between(v: int, a: int, b: int) -> bool {
    min_int(a, b) <= v <= max_int(a, b)
}

/// `p` lies in the bounding box of segment `l`.
pub open spec fn in_box(p: Vec2, l: Line) -> bool {
    between(p.x as int, l.start.x as int, l.end.x as int) && between(
        p.y as int,
        l.start.y as int,
        l.end.y as int,
    )
}

impl Line {
    pub open spec fn in_range(self) -> bool {
        within(self.start.x as int, MAX_SEGMENT_COORD as int) && within(
            self.start.y as int,
            MAX_SEGMENT_COORD as int,
        ) && within(self.end.x as int, MAX_SEGMENT_COORD as int) && within(
            self.end.y as int,
            MAX_SEGMENT_COORD as int,
        )
    }

    /// The point where two segments meet; `None` for parallel segments and
    /// for lines that meet outside either segment.
    pub fn intersection(&self, other: &Line) -> (r: Option<Vec2>)
        requires
            self.in_range(),
            other.in_range(),
        ensures
            r == intersection_spec(*self, *other),
            r is Some ==> in_box(r->0, *self) && in_box(r->0, *other),
    {
        let rx = self.end.x - self.start.x;
        let ry = self.end.y - self.start.y;
        let sx = other.end.x - other.start.x;
        let sy = other.end.y - other.start.y;
        let wx = other.start.x - self.start.x;
        let wy = other.start.y - self.start.y;
        let d = cross(Vec2 { x: rx, y: ry }, Vec2 { x: sx, y: sy });
        if d == 0 {
            return None;
        }
        let t = cross(Vec2 { x: wx, y: wy }, Vec2 { x: sx, y: sy });
        let u = cross(Vec2 { x: wx, y: wy }, Vec2 { x: rx, y: ry });
        let inside = if d > 0 {
            0 <= t && t <= d && 0 <= u && u <= d
        } else {
            d <= t && t <= 0 && d <= u && u <= 0
        };
        if !inside {
            return None;
        }
        proof {
            let b: int = MAX_SEGMENT_COORD as int;
            lemma_mul_bound(self.start.x as int, d as int, b, cross_bound());
            lemma_mul_bound(self.start.y as int, d as int, b, cross_bound());
            lemma_mul_bound(rx as int, t as int, 2 * b, cross_bound());
            lemma_mul_bound(ry as int, t as int, 2 * b, cross_bound());
            lemma_meet_bounds(self.start.x as int, rx as int, t as int, d as int);
            lemma_meet_bounds(self.start.y as int, ry as int, t as int, d as int);
            lemma_meet_in_other_box(*self, *other);
        }
        let nx = (self.start.x as i128) * d + (rx as i128) * t;
        let ny = (self.start.y as i128) * d + (ry as i128) * t;
        let x = floor_div(nx, d);
        let y = floor_div(ny, d);
        Some(Vec2 { x: x as i64, y: y as i64 })
    }

    /// The four sides of a rectangle: top, bottom, left, right.
    pub fn from_rect(rect: &Rect) -> (r: Vec<Line>)
        requires
            rect.wf(),
        ensures
            r@ == rect_sides(*rect),
    {
        let right = rect.x + rect.width;
        let bottom = rect.y + rect.height;
        let r = vec![
            Line { start: Vec2 { x: rect.x, y: rect.y }, end: Vec2 { x: right, y: rect.y } },
            Line { start: Vec2 { x: rect.x, y: bottom }, end: Vec2 { x: right, y: bottom } },
            Line { start: Vec2 { x: rect.x, y: rect.y }, end: Vec2 { x: rect.x, y: bottom } },
            Line { start: Vec2 { x: right, y: rect.y }, end: Vec2 { x: right, y: bottom } },
        ];
        assert(r@ =~= rect_sides(*rect));
        r
    }
}

/// The sides of a rectangle in the order top, bottom, left, right.
pub open spec fn rect_sides(rect: Rect) -> Seq<Line> {
    let right = (rect.x + rect.width) as i64;
    let bottom = (rect.y + rect.height) as i64;
    seq![
        Line { start: Vec2 { x: rect.x, y: rect.y }, end: Vec2 { x: right, y: rect.y } },
        Line { start: Vec2 { x: rect.x, y: bottom }, end: Vec2 { x: right, y: bottom } },
        Line { start: Vec2 { x: rect.x, y: rect.y }, end: Vec2 { x: rect.x, y: bottom } },
        Line { start: Vec2 { x: right, y: rect.y }, end: Vec2 { x: right, y: bottom } },
    ]
}

/// Cross product of two vectors whose coordinates are differences of segment
/// end points.
pub fn cross(vector: Vec2, other_vector: Vec2) -> (r: i128)
    requires
        within(vector.x as int, 2 * MAX_SEGMENT_COORD),
        within(vector.y as int, 2 * MAX_SEGMENT_COORD),
        within(other_vector.x as int, 2 * MAX_SEGMENT_COORD),
        within(other_vector.y as int, 2 * MAX_SEGMENT_COORD),
    ensures
        r == cross_spec(vector.x as int, vector.y as int, other_vector.x as int, other_vector.y as int),
        within(r as int, cross_bound()),
{
    proof {
        let b: int = 2 * MAX_SEGMENT_COORD;
        lemma_mul_bound(vector.x as int, other_vector.y as int, b, b);
        lemma_mul_bound(vector.y as int, other_vector.x as int, b, b);
        assert(b * b < 0x1_0000_0000_0000_0000_0000_0000) by (nonlinear_arith)
            requires b == 0x40_0000_0000;
    }
    (vector.x as i128) * (other_vector.y as i128) - (vector.y as i128) * (other_vector.x as i128)
}

/// Bound on a cross product of two segment directions.
pub open spec fn cross_bound() -> int {
    0x2000_0000_0000_0000_0000
}

pub proof fn lemma_mul_bound(a: int, b: int, ba: int, bb: int)
    requires
        within(a, ba),
        within(b, bb),
    ensures
        within(a * b, ba * bb),
{
    assert(within(a * b, ba * bb)) by (nonlinear_arith)
        requires within(a, ba), within(b, bb);
}

/// `floor_frac` computed on machine integers.
fn floor_div(n: i128, d: i128) -> (q: i128)
    requires
        d != 0,
        within(n as int, 0x100_0000_0000_0000_0000_0000_0000_0000),
        within(d as int, 0x100_0000_0000_0000_0000_0000_0000_0000),
    ensures
        q == floor_frac(n as int, d as int),
{
    let (nn, dd) = if d > 0 { (n, d) } else { (-n, -d) };
    if nn >= 0 {
        nn / dd
    } else {
        let a = -nn - 1;
        let q = a / dd;
        proof {
            lemma_fundamental_div_mod(a as int, dd as int);
            let rem = (a as int) % (dd as int);
            let qq = q as int;
            assert(0 <= rem < dd);
            assert(nn == (-qq - 1) * dd + (dd - rem - 1)) by (nonlinear_arith)
                requires a == dd * qq + rem, a == -nn - 1;
            lemma_fundamental_div_mod_converse(nn as int, dd as int, -qq - 1, dd - rem - 1);
        }
        -q - 1
    }
}

/// With `0 <= t <= d`, the grid point below `(p * d + r * t) / d` lies between
/// `p` and `p + r`; the same holds with both signs of `t` and `d` flipped.
proof fn lemma_meet_bounds(p: int, r: int, t: int, d: int)
    requires
        d != 0,
        in_unit(t, d),
    ensures
        between(floor_frac(p * d + r * t, d), p, p + r),
{
    let (tt, dd) = if d > 0 { (t, d) } else { (-t, -d) };
    let n = p * dd + r * tt;
    assert(floor_frac(p * d + r * t, d) == n / dd) by (nonlinear_arith)
        requires
            d != 0,
            (tt, dd) == if d > 0 { (t, d) } else { (-t, -d) },
            n == p * dd + r * tt,
    {
    }
    assert(0 <= tt <= dd);
    if r >= 0 {
        lemma_mul_inequality(tt, dd, r);
        lemma_mul_inequality(0, tt, r);
        assert(p * dd <= n <= (p + r) * dd) by (nonlinear_arith)
            requires n == p * dd + r * tt, r * tt <= r * dd, 0 <= r * tt;
        lemma_div_is_ordered(p * dd, n, dd);
        lemma_div_is_ordered(n, (p + r) * dd, dd);
    } else {
        assert((p + r) * dd <= n <= p * dd) by (nonlinear_arith)
            requires n == p * dd + r * tt, 0 <= tt <= dd, r < 0;
        lemma_div_is_ordered((p + r) * dd, n, dd);
        lemma_div_is_ordered(n, p * dd, dd);
    }
    lemma_div_multiples_vanish(p, dd);
    lemma_div_multiples_vanish(p + r, dd);
    assert((p * dd) / dd == p) by {
        assert(p * dd == dd * p) by (nonlinear_arith);
    }
    assert(((p + r) * dd) / dd == p + r) by {
        assert((p + r) * dd == dd * (p + r)) by (nonlinear_arith);
    }
}

/// Where two segments meet, the point found along the first one is the point
/// found along the second one: `a.start * d + ra * t == b.start * d + rb * u`.
pub proof fn lemma_meet_identity(a: Line, b: Line)
    ensures
        a.start.x * denom(a, b) + (a.end.x - a.start.x) * t_num(a, b) == b.start.x * denom(a, b)
            + (b.end.x - b.start.x) * u_num(a, b),
        a.start.y * denom(a, b) + (a.end.y - a.start.y) * t_num(a, b) == b.start.y * denom(a, b)
            + (b.end.y - b.start.y) * u_num(a, b),
{
    let (rx, ry) = (a.end.x - a.start.x, a.end.y - a.start.y);
    let (sx, sy) = (b.end.x - b.start.x, b.end.y - b.start.y);
    let (wx, wy) = (b.start.x - a.start.x, b.start.y - a.start.y);
    let d = rx * sy - ry * sx;
    let t = wx * sy - wy * sx;
    let u = wx * ry - wy * rx;
    assert(rx * t == rx * (wx * sy) - rx * (wy * sx)) by (nonlinear_arith)
        requires t == wx * sy - wy * sx;
    assert(ry * t == ry * (wx * sy) - ry * (wy * sx)) by (nonlinear_arith)
        requires t == wx * sy - wy * sx;
    assert(wx * d == wx * (rx * sy) - wx * (ry * sx)) by (nonlinear_arith)
        requires d == rx * sy - ry * sx;
    assert(wy * d == wy * (rx * sy) - wy * (ry * sx)) by (nonlinear_arith)
        requires d == rx * sy - ry * sx;
    assert(sx * u == sx * (wx * ry) - sx * (wy * rx)) by (nonlinear_arith)
        requires u == wx * ry - wy * rx;
    assert(sy * u == sy * (wx * ry) - sy * (wy * rx)) by (nonlinear_arith)
        requires u == wx * ry - wy * rx;
    assert(rx * (wx * sy) == wx * (rx * sy)) by (nonlinear_arith);
    assert(rx * (wy * sx) == sx * (wy * rx)) by (nonlinear_arith);
    assert(wx * (ry * sx) == sx * (wx * ry)) by (nonlinear_arith);
    assert(ry * (wx * sy) == sy * (wx * ry)) by (nonlinear_arith);
    assert(ry * (wy * sx) == wy * (ry * sx)) by (nonlinear_arith);
    assert(wy * (rx * sy) == sy * (wy * rx)) by (nonlinear_arith);
    assert(rx * t == wx * d + sx * u);
    assert(ry * t == wy * d + sy * u);
    let (px, py, qx, qy) = (a.start.x as int, a.start.y as int, b.start.x as int, b.start.y as int);
    assert(qx * d == px * d + wx * d) by (nonlinear_arith)
        requires wx == qx - px;
    assert(qy * d == py * d + wy * d) by (nonlinear_arith)
        requires wy == qy - py;
}

proof fn lemma_meet_in_other_box(a: Line, b: Line)
    requires
        segments_meet(a, b),
    ensures
        in_box(meet_point(a, b), b),
{
    let d = denom(a, b);
    lemma_meet_identity(a, b);
    lemma_meet_bounds(b.start.x as int, b.end.x - b.start.x, u_num(a, b), d);
    lemma_meet_bounds(b.start.y as int, b.end.y - b.start.y, u_num(a, b), d);
}

/// Segment intersection does not depend on the order of the segments: both
/// orders find a point or neither does, and the point is the same.
pub proof fn lemma_intersection_symmetric(a: Line, b: Line)
    ensures
        intersection_spec(a, b) == intersection_spec(b, a),
{
    assert(denom(b, a) == -denom(a, b)) by (nonlinear_arith);
    assert(t_num(b, a) == -u_num(a, b)) by (nonlinear_arith);
    assert(u_num(b, a) == -t_num(a, b)) by (nonlinear_arith);
    lemma_meet_identity(a, b);
    if segments_meet(a, b) {
        let d = denom(a, b);
        let nx = b.start.x * d + (b.end.x - b.start.x) * u_num(a, b);
        let ny = b.start.y * d + (b.end.y - b.start.y) * u_num(a, b);
        assert(b.start.x * denom(b, a) + (b.end.x - b.start.x) * t_num(b, a) == -nx)
            by (nonlinear_arith)
            requires denom(b, a) == -d, t_num(b, a) == -u_num(a, b), nx == b.start.x * d + (b.end.x - b.start.x) * u_num(a, b);
        assert(b.start.y * denom(b, a) + (b.end.y - b.start.y) * t_num(b, a) == -ny)
            by (nonlinear_arith)
            requires denom(b, a) == -d, t_num(b, a) == -u_num(a, b), ny == b.start.y * d + (b.end.y - b.start.y) * u_num(a, b);
        assert(floor_frac(-nx, -d) == floor_frac(nx, d));
        assert(floor_frac(-ny, -d) == floor_frac(ny, d));
        assert(meet_point(a, b) == meet_point(b, a));
    }
}

/// The point `n / m` of the way along `seg`, scaled by `m`, lies in the
/// closed rectangle scaled by `m`.
pub open spec fn covers_scaled(rect: Rect, seg: Line, n: int, m: int) -> bool {
    let px = seg.start.x * m + (seg.end.x - seg.start.x) * n;
    let py = seg.start.y * m + (seg.end.y - seg.start.y) * n;
    rect.x * m <= px <= rect.right() * m && rect.y * m <= py <= rect.bottom() * m
}

/// No point of the segment lies in the closed rectangle.
pub open spec fn misses_rect(seg: Line, rect: Rect) -> bool {
    forall|n: int, m: int| 0 < m && 0 <= n <= m ==> !#[trigger] covers_scaled(rect, seg, n, m)
}

proof fn lemma_scaled_between(a: int, b: int, t: int, m: int)
    requires
        0 <= t <= m,
    ensures
        min_int(a, b) * m <= a * m + (b - a) * t <= max_int(a, b) * m,
{
    if a <= b {
        lemma_mul_inequality(t, m, b - a);
        lemma_mul_inequality(0, t, b - a);
        assert(a * m + (b - a) * m == b * m) by (nonlinear_arith);
    } else {
        lemma_mul_inequality(t, m, a - b);
        lemma_mul_inequality(0, t, a - b);
        assert(a * m - (a - b) * m == b * m) by (nonlinear_arith);
        assert((b - a) * t == -((a - b) * t)) by (nonlinear_arith);
    }
}

/// A segment with no point in a closed rectangle meets none of the
/// rectangle's four sides.
pub proof fn lemma_outside_segment_meets_no_side(rect: Rect, seg: Line)
    requires
        rect.wf(),
        misses_rect(seg, rect),
    ensures
        forall|i: int| 0 <= i < 4 ==> intersection_spec(#[trigger] rect_sides(rect)[i], seg) is None,
{
    assert forall|i: int| 0 <= i < 4 implies intersection_spec(
        #[trigger] rect_sides(rect)[i],
        seg,
    ) is None by {
        let side = rect_sides(rect)[i];
        if segments_meet(side, seg) {
            let d = denom(side, seg);
            let t = t_num(side, seg);
            let u = u_num(side, seg);
            lemma_meet_identity(side, seg);
            let (m, tt, nn) = if d > 0 { (d, t, u) } else { (-d, -t, -u) };
            let sx = side.start.x as int;
            let sy = side.start.y as int;
            let rx = side.end.x - side.start.x;
            let ry = side.end.y - side.start.y;
            let qx = seg.start.x as int;
            let qy = seg.start.y as int;
            let wx = seg.end.x - seg.start.x;
            let wy = seg.end.y - seg.start.y;
            assert(sx * m + rx * tt == qx * m + wx * nn) by (nonlinear_arith)
                requires
                    sx * d + rx * t == qx * d + wx * u,
                    (m, tt, nn) == if d > 0 { (d, t, u) } else { (-d, -t, -u) },
            {
            }
            assert(sy * m + ry * tt == qy * m + wy * nn) by (nonlinear_arith)
                requires
                    sy * d + ry * t == qy * d + wy * u,
                    (m, tt, nn) == if d > 0 { (d, t, u) } else { (-d, -t, -u) },
            {
            }
            lemma_scaled_between(sx, side.end.x as int, tt, m);
            lemma_scaled_between(sy, side.end.y as int, tt, m);
            assert(rect.x <= min_int(sx, side.end.x as int) && max_int(sx, side.end.x as int)
                <= rect.right());
            assert(rect.y <= min_int(sy, side.end.y as int) && max_int(sy, side.end.y as int)
                <= rect.bottom());
            lemma_mul_inequality(rect.x as int, min_int(sx, side.end.x as int), m);
            lemma_mul_inequality(max_int(sx, side.end.x as int), rect.right(), m);
            lemma_mul_inequality(rect.y as int, min_int(sy, side.end.y as int), m);
            lemma_mul_inequality(max_int(sy, side.end.y as int), rect.bottom(), m);
            assert(covers_scaled(rect, seg, nn, m));
        }
    }
}

/// `r` is the integer square root of `m`, rounded down.
pub open spec fn is_floor_sqrt(m: int, r: int) -> bool {
    0 <= r && r * r <= m < (r + 1) * (r + 1)
}

pub open spec fn floor_sqrt(m: int) -> int {
    choose|r: int| is_floor_sqrt(m, r)
}

/// Length of a vector, rounded down.
pub open spec fn length(v: Vec2) -> int {
    floor_sqrt(v.norm2())
}

proof fn lemma_floor_sqrt_unique(m: int, r: int, s: int)
    requires
        is_floor_sqrt(m, r),
        is_floor_sqrt(m, s),
    ensures
        r == s,
{
    if r < s {
        assert((r + 1) * (r + 1) <= s * s) by (nonlinear_arith)
            requires 0 <= r < s;
    } else if s < r {
        assert((s + 1) * (s + 1) <= r * r) by (nonlinear_arith)
            requires 0 <= s < r;
    }
}

/// Where `r` is a floor square root of `m`, it is the one `floor_sqrt` names.
pub proof fn lemma_floor_sqrt_is(m: int, r: int)
    requires
        is_floor_sqrt(m, r),
    ensures
        floor_sqrt(m) == r,
{
    lemma_floor_sqrt_unique(m, r, floor_sqrt(m));
}

/// A number whose square is at most `m` is at most the floor root of `m`.
pub proof fn lemma_below_floor_sqrt(a: int, m: int, r: int)
    requires
        is_floor_sqrt(m, r),
        a * a <= m,
    ensures
        -r <= a <= r,
{
    if a > r {
        assert((r + 1) * (r + 1) <= a * a) by (nonlinear_arith)
            requires 0 <= r < a;
    }
    if a < -r {
        assert((r + 1) * (r + 1) <= a * a) by (nonlinear_arith)
            requires 0 <= r, a < -r;
    }
}

/// Every non-negative integer has a floor square root.
pub proof fn lemma_floor_sqrt_exists(m: int)
    requires
        m >= 0,
    ensures
        is_floor_sqrt(m, floor_sqrt(m)),
    decreases m,
{
    if m == 0 {
        assert(is_floor_sqrt(0, 0));
    } else {
        lemma_floor_sqrt_exists(m - 1);
        let r = floor_sqrt(m - 1);
        if (r + 1) * (r + 1) <= m {
            assert(m < (r + 2) * (r + 2)) by (nonlinear_arith)
                requires m - 1 < (r + 1) * (r + 1), r >= 0;
            assert(is_floor_sqrt(m, r + 1));
        } else {
            assert(is_floor_sqrt(m, r));
        }
    }
}

/// Integer square root, rounded down, by bisection.
pub fn isqrt(m: u128) -> (r: u64)
    requires
        m < 0x10_0000_0000_0000_0000,
    ensures
        is_floor_sqrt(m as int, r as int),
        r == floor_sqrt(m as int),
        r <= 0x4_0000_0000,
{
    let mut lo: u128 = 0;
    let mut hi: u128 = 0x4_0000_0000;
    assert(hi * hi == 0x10_0000_0000_0000_0000) by (nonlinear_arith)
        requires hi == 0x4_0000_0000;
    while lo + 1 < hi
        invariant
            lo < hi <= 0x4_0000_0000,
            lo * lo <= m,
            m < hi * hi,
        decreases hi - lo,
    {
        let mid = lo + (hi - lo) / 2;
        assert(mid * mid <= 0x10_0000_0000_0000_0000) by (nonlinear_arith)
            requires mid <= 0x4_0000_0000;
        if mid * mid <= m {
            lo = mid;
        } else {
            hi = mid;
        }
    }
    assert(hi == lo + 1);
    proof {
        lemma_floor_sqrt_is(m as int, lo as int);
    }
    lo as u64
}

} // verus!
