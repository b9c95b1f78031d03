//! Bullets: drag, the stop threshold, and swept collision against the wall
//! grid with a stylised bounce.
use crate::geometry::{
    denom, in_box, intersection_spec, is_floor_sqrt, isqrt, lemma_below_floor_sqrt, length,
    meet_point, rect_sides, segments_meet, trunc_div, within, Line, Rect, Vec2, MAX_COORD, UNIT,
};
use crate::tile::{rects_wf, Collider};
use crate::world_map::{all_in_grid_extent, grid_rects, in_grid_extent, WorldMap, GRID_EXTENT};
use rand::Rng;
use vstd::arithmetic::div_mod::{
    lemma_div_is_ordered, lemma_div_multiples_vanish, lemma_fundamental_div_mod_converse,
};
use vstd::prelude::*;

verus! {

/// Speed (sub-units per second) at or below which a bullet stops.
pub const STOP_SPEED: i64 = 20 * UNIT;

/// Speed a new bullet loses per frame at sixty frames a second.
pub const DEFAULT_DRAG: i64 = 12 * UNIT;

/// Frame rate that drag is tuned for.
pub const DRAG_RATE: i64 = 60;

pub const MAX_DRAG: i64 = 0x40_0000;

/// Largest magnitude of a velocity coordinate.
pub const MAX_SPEED: i64 = 0x1_0000_0000;

/// Largest share of speed (per mille) that a bounce keeps.
pub const MAX_RETENTION: u32 = 300;

pub const PER_MILLE: i64 = 1000;

/// How far a bounced bullet is set off the wall, along its new heading.
pub const PUSH_DISTANCE: i64 = UNIT;

pub const MICROS_PER_SECOND: i64 = 1_000_000;

/// Longest frame, in microseconds.
pub const MAX_FRAME_MICROS: i64 = 10_000_000;

#[derive(Clone, Copy)]
pub struct Bullet {
    pub pos_history: [Vec2; 3],
    pub pos: Vec2,
    pub vel: Vec2,
    /// The reflection applied in the last frame, where it hit a wall.
    pub collided: Option<Vec2>,
    /// The wall side struck in the last frame.
    pub dbg_line_hit: Option<Line>,
    pub drag: i64,
}

pub open spec fn speed_ok(v: Vec2) -> bool {
    within(v.x as int, MAX_SPEED as int) && within(v.y as int, MAX_SPEED as int)
}

pub open spec fn frame_ok(dt: int) -> bool {
    0 <= dt <= MAX_FRAME_MICROS
}

/// `v * num / den`, each coordinate rounded toward zero.
pub open spec fn scale_vec(v: Vec2, num: int, den: int) -> Vec2 {
    Vec2 { x: trunc_div(v.x * num, den) as i64, y: trunc_div(v.y * num, den) as i64 }
}

/// Speed lost to drag over a frame of `dt` microseconds.
pub open spec fn drag_loss(drag: int, dt: int) -> int {
    drag * dt * DRAG_RATE / (MICROS_PER_SECOND as int)
}

/// `v - normalize(v) * loss`; a zero velocity stays zero.
pub open spec fn apply_drag(v: Vec2, drag: int, dt: int) -> Vec2 {
    let s = length(v);
    if s == 0 {
        v
    } else {
        scale_vec(v, s - drag_loss(drag, dt), s)
    }
}

pub open spec fn stop_if_slow(v: Vec2) -> Vec2 {
    if v.norm2() <= STOP_SPEED * STOP_SPEED {
        Vec2 { x: 0, y: 0 }
    } else {
        v
    }
}

/// Distance covered over `dt` microseconds.
pub open spec fn displacement(v: Vec2, dt: int) -> Vec2 {
    scale_vec(v, dt, MICROS_PER_SECOND as int)
}

pub open spec fn moved(p: Vec2, d: Vec2) -> Vec2 {
    Vec2 { x: (p.x + d.x) as i64, y: (p.y + d.y) as i64 }
}

/// The path a bullet would cover this frame.
pub open spec fn sweep(pos: Vec2, vel: Vec2, dt: int) -> Line {
    Line { start: pos, end: moved(pos, displacement(vel, dt)) }
}

/// The vertical part of the path, used to tell which face was struck.
pub open spec fn vertical_probe(pos: Vec2, vel: Vec2, dt: int) -> Line {
    Line { start: pos, end: moved(pos, Vec2 { x: 0, y: displacement(vel, dt).y }) }
}

/// The four sides of every rectangle, rectangle by rectangle.
pub open spec fn wall_edges(rects: Seq<Rect>) -> Seq<Line> {
    Seq::new((4 * rects.len()) as nat, |k: int| rect_sides(rects[k / 4])[k % 4])
}

/// Among the first `n` edges, the one that `seg` meets nearest to the world
/// origin; the earliest on a tie.
pub open spec fn closest_hit_upto(edges: Seq<Line>, seg: Line, n: int) -> Option<int>
    decreases n,
{
    if n <= 0 {
        None
    } else {
        let prev = closest_hit_upto(edges, seg, n - 1);
        if segments_meet(edges[n - 1], seg) && (prev is None || meet_point(edges[n - 1], seg).norm2()
            < meet_point(edges[prev->0], seg).norm2()) {
            Some(n - 1)
        } else {
            prev
        }
    }
}

pub open spec fn closest_hit(edges: Seq<Line>, seg: Line) -> Option<int> {
    closest_hit_upto(edges, seg, edges.len() as int)
}

/// Per-axis multipliers (per mille) of a bounce with retention `k`.
pub open spec fn reflection(vertical: bool, k: int) -> Vec2 {
    if vertical {
        Vec2 { x: k as i64, y: (-k) as i64 }
    } else {
        Vec2 { x: (-k) as i64, y: k as i64 }
    }
}

pub open spec fn reflect(v: Vec2, n: Vec2) -> Vec2 {
    Vec2 {
        x: trunc_div(v.x * n.x, PER_MILLE as int) as i64,
        y: trunc_div(v.y * n.y, PER_MILLE as int) as i64,
    }
}

/// `normalize(v) * PUSH_DISTANCE`; zero for a zero vector.
pub open spec fn push_along(v: Vec2) -> Vec2 {
    let s = length(v);
    if s == 0 {
        Vec2 { x: 0, y: 0 }
    } else {
        scale_vec(v, PUSH_DISTANCE as int, s)
    }
}

/// Position, velocity, reflection and struck side after the collision pass
/// of a bullet at `pos` moving at `vel`, with bounce retention `k`.
pub open spec fn collision_outcome(pos: Vec2, vel: Vec2, rects: Seq<Rect>, dt: int, k: int) -> (
    Vec2,
    Vec2,
    Option<Vec2>,
    Option<Line>,
) {
    let edges = wall_edges(rects);
    let seg = sweep(pos, vel, dt);
    match closest_hit(edges, seg) {
        None => (pos, vel, None, None),
        Some(i) => {
            let n = reflection(
                intersection_spec(edges[i], vertical_probe(pos, vel, dt)) is Some,
                k,
            );
            let v = reflect(vel, n);
            (moved(meet_point(edges[i], seg), push_along(v)), v, Some(n), Some(edges[i]))
        },
    }
}

/// Position, velocity, reflection and struck side after a whole frame: drag,
/// the stop threshold, the collision pass, then motion where nothing was hit.
/// A bullet whose motion would leave the coordinate range stops where it is.
pub open spec fn frame_motion(
    pos: Vec2,
    vel: Vec2,
    drag: int,
    rects: Seq<Rect>,
    dt: int,
    k: int,
) -> (Vec2, Vec2, Option<Vec2>, Option<Line>) {
    let v = stop_if_slow(apply_drag(vel, drag, dt));
    let out = collision_outcome(pos, v, rects, dt, k);
    if out.2 is Some {
        out
    } else {
        let np = moved(pos, displacement(v, dt));
        if np.in_range() {
            (np, v, None, None)
        } else {
            (pos, Vec2 { x: 0, y: 0 }, None, None)
        }
    }
}

/// `after` is `before` advanced by one frame with bounce retention `k`.
pub open spec fn frame_step(before: Bullet, after: Bullet, rects: Seq<Rect>, dt: int, k: int) -> bool {
    &&& after.pos_history@ == seq![before.pos, before.pos_history@[0], before.pos_history@[1]]
    &&& after.drag == before.drag
    &&& (after.pos, after.vel, after.collided, after.dbg_line_hit) == frame_motion(
        before.pos,
        before.vel,
        before.drag as int,
        rects,
        dt,
        k,
    )
}

/// Whether a bullet stays in the world after a frame.
pub open spec fn still_flying(vel: Vec2) -> bool {
    !vel.is_zero()
}

/// Index among the wall edges of side `side` of rectangle `rect`.
pub open spec fn edge_index(rect: Option<usize>, side: usize) -> Option<int> {
    match rect {
        Some(i) => Some(4 * i + side),
        None => None,
    }
}

/// Relies on rand's `Rng::gen_range` over an inclusive range of `u32`: the
/// number drawn lies in `0..=max`.
#[verifier::external_body]
pub(crate) fn random_retention(max: u32) -> (r: u32)
    ensures
        r <= max,
{
    rand::thread_rng().gen_range(0..=max)
}

pub(crate) proof fn lemma_trunc_div_bound(a: int, f: int, s: int, b: int)
    requires
        s > 0,
        -s <= a <= s,
        within(f, b),
    ensures
        within(trunc_div(a * f, s), b),
{
    let n = a * f;
    assert(within(n, s * b)) by (nonlinear_arith)
        requires -s <= a <= s, within(f, b), n == a * f, s > 0;
    assert(s * b == b * s) by (nonlinear_arith);
    lemma_div_multiples_vanish(b, s);
    if n >= 0 {
        lemma_div_is_ordered(n, b * s, s);
        lemma_div_is_ordered(0, n, s);
    } else {
        lemma_div_is_ordered(-n, b * s, s);
        lemma_div_is_ordered(0, -n, s);
    }
}

pub(crate) proof fn lemma_trunc_div_shrinks(a: int, f: int, s: int)
    requires
        s > 0,
        -s <= f <= s,
    ensures
        -a <= trunc_div(a * f, s) <= a || a <= trunc_div(a * f, s) <= -a,
{
    let aa = if a >= 0 { a } else { -a };
    let n = a * f;
    assert(within(n, aa * s)) by (nonlinear_arith)
        requires -s <= f <= s, n == a * f, s > 0, aa == if a >= 0 { a } else { -a };
    assert(aa * s == s * aa) by (nonlinear_arith);
    lemma_div_multiples_vanish(aa, s);
    if n >= 0 {
        lemma_div_is_ordered(n, aa * s, s);
        lemma_div_is_ordered(0, n, s);
    } else {
        lemma_div_is_ordered(-n, aa * s, s);
        lemma_div_is_ordered(0, -n, s);
    }
}

/// `v * num / den` on machine integers.
pub(crate) fn scale(v: Vec2, num: i64, den: i64) -> (r: Vec2)
    requires
        den > 0,
        within(v.x as int, MAX_SPEED as int * 2),
        within(v.y as int, MAX_SPEED as int * 2),
        within(num as int, 0x100_0000_0000),
        within(trunc_div(v.x * num, den as int), i64::MAX as int),
        within(trunc_div(v.y * num, den as int), i64::MAX as int),
    ensures
        r == scale_vec(v, num as int, den as int),
{
    proof {
        crate::geometry::lemma_mul_bound(v.x as int, num as int, MAX_SPEED as int * 2, 0x100_0000_0000);
        crate::geometry::lemma_mul_bound(v.y as int, num as int, MAX_SPEED as int * 2, 0x100_0000_0000);
    }
    let x = (v.x as i128) * (num as i128) / (den as i128);
    let y = (v.y as i128) * (num as i128) / (den as i128);
    Vec2 { x: x as i64, y: y as i64 }
}

/// Length of a vector, rounded down.
pub(crate) fn speed_of(v: Vec2) -> (r: i64)
    requires
        within(v.x as int, 2 * MAX_SPEED),
        within(v.y as int, 2 * MAX_SPEED),
    ensures
        r == length(v),
        is_floor_sqrt(v.norm2(), r as int),
        -r <= v.x <= r,
        -r <= v.y <= r,
        r == 0 <==> v.is_zero(),
        0 <= r <= 0x4_0000_0000,
{
    proof {
        crate::geometry::lemma_mul_bound(v.x as int, v.x as int, 0x2_0000_0000, 0x2_0000_0000);
        crate::geometry::lemma_mul_bound(v.y as int, v.y as int, 0x2_0000_0000, 0x2_0000_0000);
        assert(v.x * v.x >= 0 && v.y * v.y >= 0) by (nonlinear_arith);
    }
    let m = (v.x as i128) * (v.x as i128) + (v.y as i128) * (v.y as i128);
    let r = isqrt(m as u128);
    proof {
        assert(v.x * v.x <= v.norm2() && v.y * v.y <= v.norm2());
        lemma_below_floor_sqrt(v.x as int, v.norm2(), r as int);
        lemma_below_floor_sqrt(v.y as int, v.norm2(), r as int);
        assert(m as int == v.norm2());
        if r == 0 {
            assert((r + 1) * (r + 1) == 1) by (nonlinear_arith)
                requires r == 0;
            assert(v.norm2() < 1);
            assert(v.x == 0 && v.y == 0) by (nonlinear_arith)
                requires v.x * v.x >= 0, v.y * v.y >= 0, v.x * v.x + v.y * v.y < 1, v.x * v.x
                    == v.x as int * v.x as int;
        }
        if v.is_zero() {
            assert(v.norm2() == 0);
            assert(r * r <= 0);
            assert(r == 0) by (nonlinear_arith)
                requires r * r <= 0, r >= 0;
        }
    }
    r as i64
}

proof fn lemma_edge_index(i: int, j: int)
    requires
        0 <= i,
        0 <= j < 4,
    ensures
        (4 * i + j) / 4 == i,
        (4 * i + j) % 4 == j,
{
    lemma_fundamental_div_mod_converse(4 * i + j, 4, i, j);
}

impl Bullet {
    pub open spec fn wf(&self) -> bool {
        &&& self.pos.in_range()
        &&& speed_ok(self.vel)
        &&& 0 <= self.drag <= MAX_DRAG
    }

    pub fn new(pos: Vec2, vel: Vec2) -> (r: Bullet)
        requires
            pos.in_range(),
            speed_ok(vel),
        ensures
            r.wf(),
            r.pos == pos,
            r.vel == vel,
            r.pos_history@ == seq![pos, pos, pos],
            r.collided is None,
            r.dbg_line_hit is None,
            r.drag == DEFAULT_DRAG,
    {
        let r = Bullet {
            pos,
            vel,
            pos_history: [pos, pos, pos],
            dbg_line_hit: None,
            collided: None,
            drag: DEFAULT_DRAG,
        };
        assert(r.pos_history@ =~= seq![pos, pos, pos]);
        r
    }

    /// Shifts the trail: the current position becomes the most recent entry.
    pub fn update_history(&mut self)
        ensures
            final(self).pos_history@ == seq![
                old(self).pos,
                old(self).pos_history@[0],
                old(self).pos_history@[1],
            ],
            final(self).pos == old(self).pos,
            final(self).vel == old(self).vel,
            final(self).collided == old(self).collided,
            final(self).dbg_line_hit == old(self).dbg_line_hit,
            final(self).drag == old(self).drag,
    {
        let h = [self.pos, self.pos_history[0], self.pos_history[1]];
        self.pos_history = h;
        assert(self.pos_history@ =~= seq![
            old(self).pos,
            old(self).pos_history@[0],
            old(self).pos_history@[1],
        ]);
    }

    /// The bullet's footprint: one unit square at its position.
    pub fn get_collider(&self) -> (r: Collider)
        requires
            self.wf(),
        ensures
            r.rects@ == seq![Rect { x: self.pos.x, y: self.pos.y, width: UNIT, height: UNIT }],
            r.wf(),
    {
        let r = Collider { rects: vec![Rect { x: self.pos.x, y: self.pos.y, width: UNIT, height: UNIT }] };
        assert(r.rects@ =~= seq![Rect { x: self.pos.x, y: self.pos.y, width: UNIT, height: UNIT }]);
        r
    }

    /// The collision pass: finds the wall side that this frame's path meets
    /// nearest to the world origin, and bounces off it with retention
    /// `retention` (per mille). Where the path meets no wall, nothing changes.
    pub fn handle_collisions(&mut self, world_map: &WorldMap, dt: i64, retention: u32)
        requires
            old(self).wf(),
            world_map.wf(),
            frame_ok(dt as int),
            retention <= PER_MILLE,
        ensures
            final(self).wf(),
            final(self).pos_history == old(self).pos_history,
            final(self).drag == old(self).drag,
            ({
                let edges = wall_edges(grid_rects(world_map.wall_grid()));
                let seg = sweep(old(self).pos, old(self).vel, dt as int);
                closest_hit(edges, seg) is None ==> *final(self) == *old(self)
            }),
            ({
                let edges = wall_edges(grid_rects(world_map.wall_grid()));
                let seg = sweep(old(self).pos, old(self).vel, dt as int);
                closest_hit(edges, seg) is Some ==> (
                    final(self).pos,
                    final(self).vel,
                    final(self).collided,
                    final(self).dbg_line_hit,
                ) == collision_outcome(
                    old(self).pos,
                    old(self).vel,
                    grid_rects(world_map.wall_grid()),
                    dt as int,
                    retention as int,
                )
            }),
    {
        let ghost rects_s = grid_rects(world_map.wall_grid());
        let ghost edges = wall_edges(rects_s);
        proof {
            lemma_displacement_bound(self.vel, dt as int);
        }
        let d = scale(self.vel, dt, MICROS_PER_SECOND);
        let sweep_line = Line {
            start: self.pos,
            end: Vec2 { x: self.pos.x + d.x, y: self.pos.y + d.y },
        };
        let probe = Line { start: self.pos, end: Vec2 { x: self.pos.x, y: self.pos.y + d.y } };
        assert(sweep_line == sweep(self.pos, self.vel, dt as int));
        assert(probe == vertical_probe(self.pos, self.vel, dt as int));
        let rects = world_map.wall_rects();
        let mut best: Option<usize> = None;
        let mut best_side: usize = 0;
        let mut best_point = Vec2 { x: 0, y: 0 };
        let mut best_norm: i128 = 0;
        let mut best_line = sweep_line;
        let mut i: usize = 0;
        while i < rects.len()
            invariant
                rects@ == rects_s,
                edges == wall_edges(rects_s),
                rects_wf(rects@),
                all_in_grid_extent(rects@),
                sweep_line.in_range(),
                0 <= i <= rects.len(),
                edge_index(best, best_side) == closest_hit_upto(edges, sweep_line, 4 * i),
                best is Some ==> {
                    &&& best->0 < i
                    &&& best_side < 4
                    &&& best_line == edges[4 * best->0 + best_side]
                    &&& best_point == meet_point(best_line, sweep_line)
                    &&& segments_meet(best_line, sweep_line)
                    &&& best_norm == best_point.norm2()
                    &&& in_box(best_point, best_line)
                },
            decreases rects.len() - i,
        {
            let rect = rects[i];
            assert(in_grid_extent(rects@[i as int]));
            let sides = Line::from_rect(&rect);
            let mut j: usize = 0;
            while j < 4
                invariant
                    rects@ == rects_s,
                    edges == wall_edges(rects_s),
                    rects_wf(rects@),
                    all_in_grid_extent(rects@),
                    in_grid_extent(rect),
                    rect == rects@[i as int],
                    sides@ == rect_sides(rect),
                    sweep_line.in_range(),
                    0 <= i < rects.len(),
                    0 <= j <= 4,
                    edge_index(best, best_side) == closest_hit_upto(edges, sweep_line, 4 * i + j),
                    best is Some ==> {
                        &&& 4 * best->0 + best_side < 4 * i + j
                        &&& best->0 <= i
                        &&& best_side < 4
                        &&& best_line == edges[4 * best->0 + best_side]
                        &&& best_point == meet_point(best_line, sweep_line)
                        &&& segments_meet(best_line, sweep_line)
                        &&& best_norm == best_point.norm2()
                        &&& in_box(best_point, best_line)
                    },
                decreases 4 - j,
            {
                proof {
                    lemma_edge_index(i as int, j as int);
                    assert(edges[4 * i + j] == sides@[j as int]);
                }
                let side = sides[j];
                match side.intersection(&sweep_line) {
                    Some(p) => {
                        proof {
                            assert(in_box(p, side));
                            assert(0 <= p.x <= GRID_EXTENT && 0 <= p.y <= GRID_EXTENT);
                            crate::geometry::lemma_mul_bound(p.x as int, p.x as int, MAX_COORD as int, MAX_COORD as int);
                            crate::geometry::lemma_mul_bound(p.y as int, p.y as int, MAX_COORD as int, MAX_COORD as int);
                        }
                        let n = (p.x as i128) * (p.x as i128) + (p.y as i128) * (p.y as i128);
                        if best.is_none() || n < best_norm {
                            best = Some(i);
                            best_side = j;
                            best_point = p;
                            best_norm = n;
                            best_line = side;
                        }
                    },
                    None => {},
                }
                j += 1;
            }
            i += 1;
        }
        assert(edges.len() == 4 * rects.len());
        match best {
            None => {},
            Some(b) => {
                let vertical = best_line.intersection(&probe).is_some();
                let k = retention as i64;
                let n = if vertical {
                    Vec2 { x: k, y: -k }
                } else {
                    Vec2 { x: -k, y: k }
                };
                assert(n == reflection(vertical, retention as int));
                proof {
                    lemma_trunc_div_shrinks(self.vel.x as int, n.x as int, PER_MILLE as int);
                    lemma_trunc_div_shrinks(self.vel.y as int, n.y as int, PER_MILLE as int);
                }
                let v = Vec2 { x: self.vel.x * n.x / PER_MILLE, y: self.vel.y * n.y / PER_MILLE };
                assert(v == reflect(self.vel, n));
                let push = push_of(v);
                proof {
                    assert(in_box(best_point, best_line));
                    lemma_edge_index(b as int, best_side as int);
                    assert(in_grid_extent(rects@[b as int]));
                }
                self.pos = Vec2 { x: best_point.x + push.x, y: best_point.y + push.y };
                self.vel = v;
                self.collided = Some(n);
                self.dbg_line_hit = Some(best_line);
            },
        }
    }

    /// One frame of motion with bounce retention `retention` (per mille):
    /// trail, drag, the stop threshold, the collision pass, then motion.
    pub fn update_with_retention(&mut self, world_map: &WorldMap, dt: i64, retention: u32)
        requires
            old(self).wf(),
            world_map.wf(),
            frame_ok(dt as int),
            retention <= PER_MILLE,
        ensures
            final(self).wf(),
            frame_step(*old(self), *final(self), grid_rects(world_map.wall_grid()), dt as int, retention as int),
    {
        self.collided = None;
        self.dbg_line_hit = None;
        self.update_history();
        let v = drag_step(self.vel, self.drag, dt);
        self.vel = stop_step(v);
        let ghost before = *self;
        self.handle_collisions(world_map, dt, retention);
        if self.collided.is_none() {
            proof {
                lemma_displacement_bound(self.vel, dt as int);
            }
            let d = scale(self.vel, dt, MICROS_PER_SECOND);
            let x = self.pos.x + d.x;
            let y = self.pos.y + d.y;
            if -MAX_COORD <= x && x <= MAX_COORD && -MAX_COORD <= y && y <= MAX_COORD {
                self.pos = Vec2 { x, y };
            } else {
                self.vel = Vec2 { x: 0, y: 0 };
            }
        }
    }

    /// One frame of motion, with a bounce retention drawn at random from
    /// `0..=MAX_RETENTION`.
    pub fn update(&mut self, world_map: &WorldMap, dt: i64)
        requires
            old(self).wf(),
            world_map.wf(),
            frame_ok(dt as int),
        ensures
            final(self).wf(),
            exists|k: u32|
                k <= MAX_RETENTION && #[trigger] frame_step(
                    *old(self),
                    *final(self),
                    grid_rects(world_map.wall_grid()),
                    dt as int,
                    k as int,
                ),
    {
        let k = random_retention(MAX_RETENTION);
        self.update_with_retention(world_map, dt, k);
    }
}

proof fn lemma_displacement_bound(v: Vec2, dt: int)
    requires
        speed_ok(v),
        frame_ok(dt),
    ensures
        within(displacement(v, dt).x as int, 0x20_0000_0000 - MAX_COORD),
        within(displacement(v, dt).y as int, 0x20_0000_0000 - MAX_COORD),
        within(trunc_div(v.x * dt, MICROS_PER_SECOND as int), 0x20_0000_0000 - MAX_COORD),
        within(trunc_div(v.y * dt, MICROS_PER_SECOND as int), 0x20_0000_0000 - MAX_COORD),
{
    let s = MICROS_PER_SECOND as int;
    let b = MAX_SPEED as int * 10;
    assert(within(dt, s * 10));
    // |v * dt| <= MAX_SPEED * 10 * s, so the quotient is at most MAX_SPEED * 10.
    lemma_scaled_quotient(v.x as int, dt, s, MAX_SPEED as int, 10);
    lemma_scaled_quotient(v.y as int, dt, s, MAX_SPEED as int, 10);
    assert(b <= 0x20_0000_0000 - MAX_COORD);
}

proof fn lemma_scaled_quotient(a: int, t: int, s: int, ba: int, c: int)
    requires
        s > 0,
        c >= 0,
        within(a, ba),
        0 <= t <= s * c,
    ensures
        within(trunc_div(a * t, s), ba * c),
{
    let n = a * t;
    assert(within(n, (ba * c) * s)) by (nonlinear_arith)
        requires within(a, ba), 0 <= t <= s * c, n == a * t, s > 0, c >= 0;
    lemma_div_multiples_vanish(ba * c, s);
    assert((ba * c) * s == s * (ba * c)) by (nonlinear_arith);
    if n >= 0 {
        lemma_div_is_ordered(n, (ba * c) * s, s);
        lemma_div_is_ordered(0, n, s);
    } else {
        lemma_div_is_ordered(-n, (ba * c) * s, s);
        lemma_div_is_ordered(0, -n, s);
    }
}

/// `v - normalize(v) * drag_loss(drag, dt)` on machine integers.
fn drag_step(v: Vec2, drag: i64, dt: i64) -> (r: Vec2)
    requires
        speed_ok(v),
        0 <= drag <= MAX_DRAG,
        frame_ok(dt as int),
    ensures
        r == apply_drag(v, drag as int, dt as int),
        speed_ok(r),
{
    let s = speed_of(v);
    if s == 0 {
        return v;
    }
    assert(0 <= drag * dt <= MAX_DRAG * MAX_FRAME_MICROS) by (nonlinear_arith)
        requires 0 <= drag <= MAX_DRAG, 0 <= dt <= MAX_FRAME_MICROS;
    let loss = drag * dt * DRAG_RATE / MICROS_PER_SECOND;
    proof {
        let l = loss as int;
        assert(l <= MAX_SPEED) by {
            lemma_div_is_ordered(drag * dt * DRAG_RATE, MAX_DRAG * MAX_FRAME_MICROS * DRAG_RATE, MICROS_PER_SECOND as int);
        }
        assert(l >= 0) by {
            lemma_div_is_ordered(0, drag * dt * DRAG_RATE, MICROS_PER_SECOND as int);
        }
        let f = s - l;
        if -s <= f <= s {
            lemma_trunc_div_shrinks(v.x as int, f, s as int);
            lemma_trunc_div_shrinks(v.y as int, f, s as int);
        } else {
            lemma_trunc_div_bound(v.x as int, f, s as int, MAX_SPEED as int);
            lemma_trunc_div_bound(v.y as int, f, s as int, MAX_SPEED as int);
        }
    }
    scale(v, s - loss, s)
}

fn stop_step(v: Vec2) -> (r: Vec2)
    requires
        speed_ok(v),
    ensures
        r == stop_if_slow(v),
        speed_ok(r),
{
    proof {
        crate::geometry::lemma_mul_bound(v.x as int, v.x as int, MAX_SPEED as int, MAX_SPEED as int);
        crate::geometry::lemma_mul_bound(v.y as int, v.y as int, MAX_SPEED as int, MAX_SPEED as int);
    }
    let m = (v.x as i128) * (v.x as i128) + (v.y as i128) * (v.y as i128);
    let stop: i128 = 400_000_000;
    assert(stop == STOP_SPEED * STOP_SPEED);
    if m <= stop {
        Vec2 { x: 0, y: 0 }
    } else {
        v
    }
}

/// `normalize(v) * PUSH_DISTANCE` on machine integers.
fn push_of(v: Vec2) -> (r: Vec2)
    requires
        speed_ok(v),
    ensures
        r == push_along(v),
        within(r.x as int, PUSH_DISTANCE as int),
        within(r.y as int, PUSH_DISTANCE as int),
{
    let s = speed_of(v);
    if s == 0 {
        Vec2 { x: 0, y: 0 }
    } else {
        proof {
            lemma_trunc_div_bound(v.x as int, PUSH_DISTANCE as int, s as int, PUSH_DISTANCE as int);
            lemma_trunc_div_bound(v.y as int, PUSH_DISTANCE as int, s as int, PUSH_DISTANCE as int);
        }
        scale(v, PUSH_DISTANCE, s)
    }
}

/// Where no edge among the first `n` meets the path, none is chosen.
proof fn lemma_no_hit(edges: Seq<Line>, seg: Line, n: int)
    requires
        forall|i: int| 0 <= i < n ==> !segments_meet(#[trigger] edges[i], seg),
    ensures
        closest_hit_upto(edges, seg, n) is None,
    decreases n,
{
    if n > 0 {
        lemma_no_hit(edges, seg, n - 1);
    }
}

/// Where edge `e` is the only one that meets the path, it is the one chosen.
proof fn lemma_single_hit(edges: Seq<Line>, seg: Line, e: int, n: int)
    requires
        0 <= e < n,
        segments_meet(edges[e], seg),
        forall|i: int| 0 <= i < n && i != e ==> !segments_meet(#[trigger] edges[i], seg),
    ensures
        closest_hit_upto(edges, seg, n) == Some(e),
    decreases n,
{
    if n - 1 == e {
        lemma_no_hit(edges, seg, e);
    } else {
        lemma_single_hit(edges, seg, e, n - 1);
    }
}

/// A path of zero length meets no segment.
proof fn lemma_point_meets_nothing(edges: Seq<Line>, p: Vec2)
    ensures
        forall|i: int| 0 <= i < edges.len() ==> !segments_meet(#[trigger] edges[i], Line { start: p, end: p }),
{
    assert forall|i: int| 0 <= i < edges.len() implies !segments_meet(
        #[trigger] edges[i],
        Line { start: p, end: p },
    ) by {
        assert(denom(edges[i], Line { start: p, end: p }) == 0) by (nonlinear_arith);
    }
}

/// A bullet that drag slows to the stop threshold within a frame ends that
/// frame at rest, whatever the walls and the bounce, and so is removed by the
/// prune that follows the update.
pub proof fn lemma_slow_bullet_stops(
    pos: Vec2,
    vel: Vec2,
    drag: int,
    rects: Seq<Rect>,
    dt: int,
    k: int,
)
    requires
        pos.in_range(),
        apply_drag(vel, drag, dt).norm2() <= STOP_SPEED * STOP_SPEED,
    ensures
        frame_motion(pos, vel, drag, rects, dt, k).1.is_zero(),
        !still_flying(frame_motion(pos, vel, drag, rects, dt, k).1),
{
    let v = stop_if_slow(apply_drag(vel, drag, dt));
    assert(v.is_zero());
    let seg = sweep(pos, v, dt);
    assert(displacement(v, dt) == Vec2 { x: 0, y: 0 });
    assert(seg == Line { start: pos, end: pos });
    let edges = wall_edges(rects);
    lemma_point_meets_nothing(edges, pos);
    lemma_no_hit(edges, seg, edges.len() as int);
}

/// The push off a wall is at most `PUSH_DISTANCE` along each axis.
pub proof fn lemma_push_bound(v: Vec2)
    ensures
        within(push_along(v).x as int, PUSH_DISTANCE as int),
        within(push_along(v).y as int, PUSH_DISTANCE as int),
{
    let m = v.norm2();
    assert(m >= 0 && v.x * v.x <= m && v.y * v.y <= m) by (nonlinear_arith)
        requires m == v.x * v.x + v.y * v.y;
    crate::geometry::lemma_floor_sqrt_exists(m);
    let s = length(v);
    if s != 0 {
        lemma_below_floor_sqrt(v.x as int, m, s);
        lemma_below_floor_sqrt(v.y as int, m, s);
        lemma_trunc_div_bound(v.x as int, PUSH_DISTANCE as int, s, PUSH_DISTANCE as int);
        lemma_trunc_div_bound(v.y as int, PUSH_DISTANCE as int, s, PUSH_DISTANCE as int);
    }
}

/// A bullet whose path this frame crosses exactly one wall side ends the
/// frame at the crossing point, set off by at most `PUSH_DISTANCE` along its
/// new heading, with its velocity scaled by exactly one reflection: the one
/// of that side.
pub proof fn lemma_single_crossing_bounces(
    pos: Vec2,
    vel: Vec2,
    drag: int,
    rects: Seq<Rect>,
    dt: int,
    k: int,
    e: int,
)
    requires
        ({
            let v = stop_if_slow(apply_drag(vel, drag, dt));
            let edges = wall_edges(rects);
            let seg = sweep(pos, v, dt);
            &&& 0 <= e < edges.len()
            &&& segments_meet(edges[e], seg)
            &&& forall|i: int|
                0 <= i < edges.len() && i != e ==> !segments_meet(#[trigger] edges[i], seg)
        }),
    ensures
        ({
            let v = stop_if_slow(apply_drag(vel, drag, dt));
            let edges = wall_edges(rects);
            let seg = sweep(pos, v, dt);
            let n = reflection(intersection_spec(edges[e], vertical_probe(pos, v, dt)) is Some, k);
            let out = frame_motion(pos, vel, drag, rects, dt, k);
            &&& out.1 == reflect(v, n)
            &&& out.2 == Some(n)
            &&& out.3 == Some(edges[e])
            &&& out.0 == moved(meet_point(edges[e], seg), push_along(out.1))
            &&& within(push_along(out.1).x as int, PUSH_DISTANCE as int)
            &&& within(push_along(out.1).y as int, PUSH_DISTANCE as int)
        }),
{
    let v = stop_if_slow(apply_drag(vel, drag, dt));
    let edges = wall_edges(rects);
    let seg = sweep(pos, v, dt);
    lemma_single_hit(edges, seg, e, edges.len() as int);
    let n = reflection(intersection_spec(edges[e], vertical_probe(pos, v, dt)) is Some, k);
    lemma_push_bound(reflect(v, n));
}

} // verus!
