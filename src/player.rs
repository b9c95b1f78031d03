//! The player: acceleration-based movement and axis-separated correction
//! against the walls.
use crate::bullet::{
    lemma_trunc_div_bound, lemma_trunc_div_shrinks, scale, scale_vec, speed_of, speed_ok,
    MICROS_PER_SECOND, PER_MILLE,
};
use crate::geometry::{length, rects_meet, trunc_div, within, Rect, Vec2, MAX_COORD, UNIT};
use crate::items::{ar15, pistol, GunItem};
use crate::tile::Collider;
use crate::world_map::{all_in_grid_extent, grid_rects, in_grid_extent, WorldMap};
use vstd::arithmetic::div_mod::lemma_div_is_ordered;
use vstd::prelude::*;

verus! {

/// Side of the player's square footprint.
pub const COLLIDER_SIZE: i64 = 13 * UNIT;

pub const HALF_COLLIDER: i64 = 6500;

/// Top speeds, in sub-units per second.
pub const SPRINT_SPEED: i64 = 60 * UNIT;

pub const WALK_SPEED: i64 = 30 * UNIT;

/// Speed gained per second of held input, and lost per second without it.
pub const WALK_ACC: i64 = 3800;

pub const WALK_DEACC: i64 = 1600;

/// Largest magnitude of a player coordinate: the footprint stays in range.
pub const PLAYER_LIMIT: i64 = MAX_COORD - COLLIDER_SIZE;

/// Longest frame the player is moved over, in microseconds.
pub const MAX_PLAYER_FRAME: i64 = 10_000_000;

pub struct Player {
    pub pos: Vec2,
    /// Motion per frame.
    pub vel: Vec2,
    pub is_sprinting: bool,
    pub gun: GunItem,
}

/// Frames of the raise-the-gun animation; the last one is fully raised.
pub const FRAME_AMOUNT: usize = 4;

/// Time each animation frame is shown, in microseconds.
pub const FRAME_TIME: i64 = 15_000;

/// The frame shown of the raise-the-gun animation and the time it has been
/// shown (counted down while lowering).
pub struct PlayerAnimation {
    pub current_frame: usize,
    pub elapsed_time: i64,
}

impl PlayerAnimation {
    pub open spec fn wf(&self) -> bool {
        self.current_frame <= FRAME_AMOUNT && within(
            self.elapsed_time as int,
            FRAME_TIME + MAX_PLAYER_FRAME,
        )
    }

    pub fn new() -> (r: PlayerAnimation)
        ensures
            r.wf(),
            r.current_frame == 0,
            r.elapsed_time == 0,
    {
        PlayerAnimation { current_frame: 0, elapsed_time: 0 }
    }

    /// One frame of the animation: while aiming, step towards the raised
    /// frame once a frame time has passed (at once from the first frame);
    /// otherwise step back down (at once from the raised frame).
    pub fn handle_animation(&mut self, aiming: bool, dt: i64)
        requires
            old(self).wf(),
            0 <= dt <= MAX_PLAYER_FRAME,
        ensures
            final(self).wf(),
            aiming ==> {
                let step = old(self).elapsed_time > FRAME_TIME || old(self).current_frame == 0;
                &&& final(self).current_frame == if step && old(self).current_frame < FRAME_AMOUNT {
                    old(self).current_frame + 1
                } else {
                    old(self).current_frame as int
                }
                &&& final(self).elapsed_time == if step {
                    dt as int
                } else {
                    old(self).elapsed_time + dt
                }
            },
            !aiming && old(self).current_frame > 0 ==> {
                let step = old(self).elapsed_time <= -FRAME_TIME || old(self).current_frame
                    == FRAME_AMOUNT;
                &&& final(self).current_frame == if step {
                    old(self).current_frame - 1
                } else {
                    old(self).current_frame as int
                }
                &&& final(self).elapsed_time == if step {
                    -dt
                } else {
                    old(self).elapsed_time - dt
                }
            },
            !aiming && old(self).current_frame == 0 ==> *final(self) == *old(self),
    {
        if aiming {
            if self.elapsed_time > FRAME_TIME || self.current_frame == 0 {
                if self.current_frame < FRAME_AMOUNT {
                    self.current_frame += 1;
                }
                self.elapsed_time = 0;
            }
            self.elapsed_time += dt;
        } else if self.current_frame > 0 {
            if self.elapsed_time <= -FRAME_TIME || self.current_frame == FRAME_AMOUNT {
                self.current_frame -= 1;
                self.elapsed_time = 0;
            }
            self.elapsed_time -= dt;
        }
    }
}

pub open spec fn pos_ok(p: Vec2) -> bool {
    within(p.x as int, PLAYER_LIMIT as int) && within(p.y as int, PLAYER_LIMIT as int)
}

/// The footprint of a player standing at `pos`.
pub open spec fn player_rect(pos: Vec2) -> Rect {
    Rect {
        x: (pos.x - HALF_COLLIDER) as i64,
        y: (pos.y - HALF_COLLIDER) as i64,
        width: COLLIDER_SIZE,
        height: COLLIDER_SIZE,
    }
}

pub open spec fn shifted(r: Rect, dx: int, dy: int) -> Rect {
    Rect { x: (r.x + dx) as i64, y: (r.y + dy) as i64, width: r.width, height: r.height }
}

/// Vertical correction against one wall rectangle: where the footprint moved
/// by the vertical velocity meets it, vertical motion stops and the player
/// is put flush against the wall's nearer horizontal face.
pub open spec fn y_step(pos: Vec2, vel: Vec2, r: Rect) -> (Vec2, Vec2) {
    if rects_meet(shifted(player_rect(pos), 0, vel.y as int), r) {
        let y = if 2 * pos.y < 2 * r.y + r.height {
            r.y - HALF_COLLIDER
        } else {
            r.bottom() + HALF_COLLIDER
        };
        (Vec2 { x: pos.x, y: y as i64 }, Vec2 { x: vel.x, y: 0 })
    } else {
        (pos, vel)
    }
}

/// Horizontal correction against one wall rectangle.
pub open spec fn x_step(pos: Vec2, vel: Vec2, r: Rect) -> (Vec2, Vec2) {
    if rects_meet(shifted(player_rect(pos), vel.x as int, 0), r) {
        let x = if 2 * pos.x < 2 * r.x + r.width {
            r.x - HALF_COLLIDER
        } else {
            r.right() + HALF_COLLIDER
        };
        (Vec2 { x: x as i64, y: pos.y }, Vec2 { x: 0, y: vel.y })
    } else {
        (pos, vel)
    }
}

pub open spec fn y_pass(pos: Vec2, vel: Vec2, rects: Seq<Rect>, n: int) -> (Vec2, Vec2)
    decreases n,
{
    if n <= 0 {
        (pos, vel)
    } else {
        let prev = y_pass(pos, vel, rects, n - 1);
        y_step(prev.0, prev.1, rects[n - 1])
    }
}

pub open spec fn x_pass(pos: Vec2, vel: Vec2, rects: Seq<Rect>, n: int) -> (Vec2, Vec2)
    decreases n,
{
    if n <= 0 {
        (pos, vel)
    } else {
        let prev = x_pass(pos, vel, rects, n - 1);
        x_step(prev.0, prev.1, rects[n - 1])
    }
}

/// Position and velocity after the vertical pass over every wall rectangle,
/// then the horizontal pass.
pub open spec fn resolve(pos: Vec2, vel: Vec2, rects: Seq<Rect>) -> (Vec2, Vec2) {
    let after_y = y_pass(pos, vel, rects, rects.len() as int);
    x_pass(after_y.0, after_y.1, rects, rects.len() as int)
}

/// `dir` scaled to length `PER_MILLE` (rounded); zero stays zero.
pub open spec fn unit_dir(dir: Vec2) -> Vec2 {
    let s = length(Vec2 { x: (dir.x * PER_MILLE) as i64, y: (dir.y * PER_MILLE) as i64 });
    if s == 0 {
        Vec2 { x: 0, y: 0 }
    } else {
        scale_vec(dir, PER_MILLE * PER_MILLE, s)
    }
}

pub open spec fn per_frame(rate: int, dt: int) -> int {
    rate * dt / (MICROS_PER_SECOND as int)
}

/// Velocity after a frame of input `dir`: accelerate along the input, cap at
/// the top speed, and slow down where there is no input.
pub open spec fn movement(vel: Vec2, dir: Vec2, sprinting: bool, dt: int) -> Vec2 {
    let speed = per_frame(if sprinting { SPRINT_SPEED as int } else { WALK_SPEED as int }, dt);
    let acc = per_frame(WALK_ACC as int, dt);
    let deacc = per_frame(WALK_DEACC as int, dt);
    let u = unit_dir(dir);
    let v1 = Vec2 {
        x: (vel.x + trunc_div(u.x * acc, PER_MILLE as int)) as i64,
        y: (vel.y + trunc_div(u.y * acc, PER_MILLE as int)) as i64,
    };
    let len = length(v1);
    let v2 = if len > speed {
        scale_vec(v1, speed, len)
    } else {
        v1
    };
    if dir.is_zero() && len != 0 {
        scale_vec(v2, if len - deacc > 0 { len - deacc } else { 0 }, len)
    } else {
        v2
    }
}

impl Player {
    pub open spec fn wf(&self) -> bool {
        pos_ok(self.pos) && speed_ok(self.vel)
    }

    pub fn new(pos: Vec2) -> (r: Player)
        requires
            pos_ok(pos),
        ensures
            r.wf(),
            r.pos == pos,
            r.vel.is_zero(),
            !r.is_sprinting,
            r.gun == ar15(),
    {
        Player { pos, vel: Vec2 { x: 0, y: 0 }, is_sprinting: false, gun: GunItem::default_ar15() }
    }

    /// Switches gun on the gun keys; the pistol key wins when both are down.
    pub fn handle_gun_controls(&mut self, ar15_key: bool, pistol_key: bool)
        ensures
            final(self).pos == old(self).pos,
            final(self).vel == old(self).vel,
            final(self).is_sprinting == old(self).is_sprinting,
            final(self).gun == if pistol_key {
                pistol()
            } else if ar15_key {
                ar15()
            } else {
                old(self).gun
            },
    {
        if ar15_key {
            self.gun = GunItem::default_ar15();
        }
        if pistol_key {
            self.gun = GunItem::default_pistol();
        }
    }

    /// The player's footprint: a square centred on its position.
    pub fn get_world_collider(&self) -> (r: Collider)
        requires
            self.wf(),
        ensures
            r.rects@ == seq![player_rect(self.pos)],
            r.wf(),
    {
        let rect = Rect {
            x: self.pos.x - HALF_COLLIDER,
            y: self.pos.y - HALF_COLLIDER,
            width: COLLIDER_SIZE,
            height: COLLIDER_SIZE,
        };
        let r = Collider { rects: vec![rect] };
        assert(r.rects@ =~= seq![player_rect(self.pos)]);
        r
    }

    /// Corrects position and velocity against the walls: the vertical pass
    /// over every wall rectangle, then the horizontal pass.
    pub fn handle_wall_collisions(&mut self, rects: &Vec<Rect>)
        requires
            old(self).wf(),
            all_in_grid_extent(rects@),
        ensures
            final(self).wf(),
            final(self).is_sprinting == old(self).is_sprinting,
            (final(self).pos, final(self).vel) == resolve(old(self).pos, old(self).vel, rects@),
    {
        let mut i: usize = 0;
        while i < rects.len()
            invariant
                self.wf(),
                self.is_sprinting == old(self).is_sprinting,
                all_in_grid_extent(rects@),
                0 <= i <= rects.len(),
                (self.pos, self.vel) == y_pass(old(self).pos, old(self).vel, rects@, i as int),
            decreases rects.len() - i,
        {
            let r = rects[i];
            assert(in_grid_extent(rects@[i as int]));
            let probe = Rect {
                x: self.pos.x - HALF_COLLIDER,
                y: self.pos.y - HALF_COLLIDER + self.vel.y,
                width: COLLIDER_SIZE,
                height: COLLIDER_SIZE,
            };
            if probe.x < r.x + r.width && probe.x + probe.width > r.x && probe.y < r.y + r.height
                && probe.y + probe.height > r.y {
                self.vel.y = 0;
                self.pos.y = if 2 * self.pos.y < 2 * r.y + r.height {
                    r.y - HALF_COLLIDER
                } else {
                    r.y + r.height + HALF_COLLIDER
                };
            }
            i += 1;
        }
        let ghost after_y = (self.pos, self.vel);
        let mut i: usize = 0;
        while i < rects.len()
            invariant
                self.wf(),
                self.is_sprinting == old(self).is_sprinting,
                all_in_grid_extent(rects@),
                0 <= i <= rects.len(),
                after_y == y_pass(old(self).pos, old(self).vel, rects@, rects@.len() as int),
                (self.pos, self.vel) == x_pass(after_y.0, after_y.1, rects@, i as int),
            decreases rects.len() - i,
        {
            let r = rects[i];
            assert(in_grid_extent(rects@[i as int]));
            let probe = Rect {
                x: self.pos.x - HALF_COLLIDER + self.vel.x,
                y: self.pos.y - HALF_COLLIDER,
                width: COLLIDER_SIZE,
                height: COLLIDER_SIZE,
            };
            if probe.x < r.x + r.width && probe.x + probe.width > r.x && probe.y < r.y + r.height
                && probe.y + probe.height > r.y {
                self.vel.x = 0;
                self.pos.x = if 2 * self.pos.x < 2 * r.x + r.width {
                    r.x - HALF_COLLIDER
                } else {
                    r.x + r.width + HALF_COLLIDER
                };
            }
            i += 1;
        }
    }

    /// Sets the velocity from a frame of directional input `direction`
    /// (each coordinate in `-PER_MILLE..=PER_MILLE`).
    pub fn handle_movement_controls(&mut self, direction: Vec2, sprinting: bool, dt: i64)
        requires
            old(self).wf(),
            input_ok(direction),
            0 <= dt <= MAX_PLAYER_FRAME,
        ensures
            final(self).wf(),
            final(self).pos == old(self).pos,
            final(self).is_sprinting == sprinting,
            final(self).vel == movement(old(self).vel, direction, sprinting, dt as int),
    {
        self.is_sprinting = sprinting;
        self.vel = movement_of(self.vel, direction, sprinting, dt);
    }

    /// One frame: movement from the input, correction against the walls of
    /// the map, then motion.
    pub fn update(&mut self, world_map: &WorldMap, direction: Vec2, sprinting: bool, dt: i64)
        requires
            old(self).wf(),
            world_map.wf(),
            input_ok(direction),
            0 <= dt <= MAX_PLAYER_FRAME,
        ensures
            final(self).wf(),
            final(self).is_sprinting == sprinting,
            (final(self).pos, final(self).vel) == player_frame(
                old(self).pos,
                old(self).vel,
                direction,
                sprinting,
                dt as int,
                grid_rects(world_map.wall_grid()),
            ),
    {
        self.handle_movement_controls(direction, sprinting, dt);
        let rects = world_map.wall_rects();
        self.handle_wall_collisions(&rects);
        self.apply_velocity();
    }

    /// Moves by the velocity; a move that would leave the coordinate range
    /// is not made, and the player stops.
    pub fn apply_velocity(&mut self)
        requires
            old(self).wf(),
        ensures
            final(self).wf(),
            final(self).is_sprinting == old(self).is_sprinting,
            pos_ok(moved_by(old(self).pos, old(self).vel)) ==> final(self).pos == moved_by(
                old(self).pos,
                old(self).vel,
            ) && final(self).vel == old(self).vel,
            !pos_ok(moved_by(old(self).pos, old(self).vel)) ==> final(self).pos == old(self).pos
                && final(self).vel.is_zero(),
    {
        let x = self.pos.x + self.vel.x;
        let y = self.pos.y + self.vel.y;
        if -PLAYER_LIMIT <= x && x <= PLAYER_LIMIT && -PLAYER_LIMIT <= y && y <= PLAYER_LIMIT {
            self.pos = Vec2 { x, y };
        } else {
            self.vel = Vec2 { x: 0, y: 0 };
        }
    }
}

pub open spec fn moved_by(p: Vec2, v: Vec2) -> Vec2 {
    Vec2 { x: (p.x + v.x) as i64, y: (p.y + v.y) as i64 }
}

/// Position and velocity after moving by the velocity; a move that would
/// leave the coordinate range is not made and the player stops.
pub open spec fn apply_motion(p: Vec2, v: Vec2) -> (Vec2, Vec2) {
    if pos_ok(moved_by(p, v)) {
        (moved_by(p, v), v)
    } else {
        (p, Vec2 { x: 0, y: 0 })
    }
}

/// Position and velocity after a whole frame: movement from the input, wall
/// correction, then motion.
pub open spec fn player_frame(
    pos: Vec2,
    vel: Vec2,
    dir: Vec2,
    sprinting: bool,
    dt: int,
    rects: Seq<Rect>,
) -> (Vec2, Vec2) {
    let corrected = resolve(pos, movement(vel, dir, sprinting, dt), rects);
    apply_motion(corrected.0, corrected.1)
}

pub open spec fn input_ok(dir: Vec2) -> bool {
    within(dir.x as int, PER_MILLE as int) && within(dir.y as int, PER_MILLE as int)
}

/// `dir` scaled to length `PER_MILLE`, on machine integers.
fn unit_of(dir: Vec2) -> (r: Vec2)
    requires
        input_ok(dir),
    ensures
        r == unit_dir(dir),
        within(r.x as int, PER_MILLE as int),
        within(r.y as int, PER_MILLE as int),
{
    let big = Vec2 { x: dir.x * PER_MILLE, y: dir.y * PER_MILLE };
    let s = speed_of(big);
    if s == 0 {
        Vec2 { x: 0, y: 0 }
    } else {
        proof {
            lemma_trunc_div_bound(big.x as int, PER_MILLE as int, s as int, PER_MILLE as int);
            lemma_trunc_div_bound(big.y as int, PER_MILLE as int, s as int, PER_MILLE as int);
            assert(big.x * PER_MILLE == dir.x * (PER_MILLE * PER_MILLE)) by (nonlinear_arith)
                requires big.x == dir.x * PER_MILLE;
            assert(big.y * PER_MILLE == dir.y * (PER_MILLE * PER_MILLE)) by (nonlinear_arith)
                requires big.y == dir.y * PER_MILLE;
        }
        scale(dir, PER_MILLE * PER_MILLE, s)
    }
}

/// Velocity after a frame of input, on machine integers.
fn movement_of(vel: Vec2, dir: Vec2, sprinting: bool, dt: i64) -> (r: Vec2)
    requires
        speed_ok(vel),
        input_ok(dir),
        0 <= dt <= MAX_PLAYER_FRAME,
    ensures
        r == movement(vel, dir, sprinting, dt as int),
        speed_ok(r),
{
    let rate = if sprinting { SPRINT_SPEED } else { WALK_SPEED };
    assert(0 <= rate * dt <= 60000 * 10_000_000) by (nonlinear_arith)
        requires 0 <= rate <= 60000, 0 <= dt <= 10_000_000;
    assert(0 <= WALK_ACC * dt <= 3800 * 10_000_000) by (nonlinear_arith)
        requires 0 <= dt <= 10_000_000, WALK_ACC == 3800;
    assert(0 <= WALK_DEACC * dt <= 1600 * 10_000_000) by (nonlinear_arith)
        requires 0 <= dt <= 10_000_000, WALK_DEACC == 1600;
    let speed = rate * dt / MICROS_PER_SECOND;
    let acc = WALK_ACC * dt / MICROS_PER_SECOND;
    let deacc = WALK_DEACC * dt / MICROS_PER_SECOND;
    proof {
        lemma_div_is_ordered(rate * dt, 600_000_000_000int, MICROS_PER_SECOND as int);
        lemma_div_is_ordered(0, rate * dt, MICROS_PER_SECOND as int);
        lemma_div_is_ordered(WALK_ACC * dt, 38_000_000_000int, MICROS_PER_SECOND as int);
        lemma_div_is_ordered(0, WALK_ACC * dt, MICROS_PER_SECOND as int);
        lemma_div_is_ordered(WALK_DEACC * dt, 16_000_000_000int, MICROS_PER_SECOND as int);
        lemma_div_is_ordered(0, WALK_DEACC * dt, MICROS_PER_SECOND as int);
    }
    let u = unit_of(dir);
    proof {
        lemma_trunc_div_bound(u.x as int, acc as int, PER_MILLE as int, acc as int);
        lemma_trunc_div_bound(u.y as int, acc as int, PER_MILLE as int, acc as int);
    }
    let v1 = Vec2 { x: vel.x + u.x * acc / PER_MILLE, y: vel.y + u.y * acc / PER_MILLE };
    let len = speed_of(v1);
    let v2 = if len > speed {
        proof {
            lemma_trunc_div_bound(v1.x as int, speed as int, len as int, speed as int);
            lemma_trunc_div_bound(v1.y as int, speed as int, len as int, speed as int);
        }
        scale(v1, speed, len)
    } else {
        v1
    };
    if dir.x == 0 && dir.y == 0 && len != 0 {
        let keep = if len - deacc > 0 { len - deacc } else { 0 };
        proof {
            lemma_trunc_div_shrinks(v2.x as int, keep as int, len as int);
            lemma_trunc_div_shrinks(v2.y as int, keep as int, len as int);
        }
        scale(v2, keep, len)
    } else {
        v2
    }
}

/// `x` puts the footprint flush against the left or the right face of `r`.
pub open spec fn flush_x(x: int, r: Rect) -> bool {
    x + HALF_COLLIDER == r.x || x - HALF_COLLIDER == r.right()
}

proof fn lemma_y_pass_idle(pos: Vec2, vel: Vec2, rects: Seq<Rect>, n: int)
    requires
        vel.y == 0,
        0 <= n <= rects.len(),
        forall|i: int| 0 <= i < rects.len() ==> !rects_meet(player_rect(pos), #[trigger] rects[i]),
    ensures
        y_pass(pos, vel, rects, n) == (pos, vel),
    decreases n,
{
    if n > 0 {
        lemma_y_pass_idle(pos, vel, rects, n - 1);
        assert(shifted(player_rect(pos), 0, vel.y as int) == player_rect(pos));
        assert(!rects_meet(player_rect(pos), rects[n - 1]));
    }
}

proof fn lemma_x_pass_stops(pos: Vec2, vel: Vec2, rects: Seq<Rect>, n: int)
    requires
        vel.x != 0,
        0 <= n <= rects.len(),
        all_in_grid_extent(rects),
    ensures
        ({
            let out = x_pass(pos, vel, rects, n);
            &&& out.0.y == pos.y
            &&& out.1.y == vel.y
            &&& out.1.x != 0 ==> out == (pos, vel) && forall|i: int|
                0 <= i < n ==> !rects_meet(
                    shifted(player_rect(pos), vel.x as int, 0),
                    #[trigger] rects[i],
                )
            &&& out.1.x == 0 ==> exists|i: int|
                0 <= i < n && flush_x(out.0.x as int, #[trigger] rects[i])
        }),
    decreases n,
{
    if n > 0 {
        lemma_x_pass_stops(pos, vel, rects, n - 1);
        let prev = x_pass(pos, vel, rects, n - 1);
        let r = rects[n - 1];
        assert(in_grid_extent(r));
        let out = x_pass(pos, vel, rects, n);
        if out.1.x == 0 {
            if rects_meet(shifted(player_rect(prev.0), prev.1.x as int, 0), r) {
                assert(flush_x(out.0.x as int, rects[n - 1]));
            } else {
                let i = choose|i: int| 0 <= i < n - 1 && flush_x(prev.0.x as int, #[trigger] rects[i]);
                assert(flush_x(out.0.x as int, rects[i]));
            }
        }
    }
}

/// A player moving purely sideways into a wall, and touching no wall before
/// the move, has its sideways velocity set to zero and ends flush against a
/// side face of a wall rectangle without overlapping it; its vertical
/// velocity and position are left as they were.
pub proof fn lemma_horizontal_wall_stop(pos: Vec2, vel: Vec2, rects: Seq<Rect>)
    requires
        vel.y == 0,
        all_in_grid_extent(rects),
        forall|i: int| 0 <= i < rects.len() ==> !rects_meet(player_rect(pos), #[trigger] rects[i]),
        exists|i: int|
            0 <= i < rects.len() && rects_meet(
                shifted(player_rect(pos), vel.x as int, 0),
                #[trigger] rects[i],
            ),
    ensures
        ({
            let out = resolve(pos, vel, rects);
            &&& out.1.y == 0
            &&& out.1.x == 0
            &&& out.0.y == pos.y
            &&& exists|i: int|
                0 <= i < rects.len() && flush_x(out.0.x as int, #[trigger] rects[i]) && !rects_meet(
                    player_rect(out.0),
                    rects[i],
                )
        }),
{
    let j = choose|i: int|
        0 <= i < rects.len() && rects_meet(
            shifted(player_rect(pos), vel.x as int, 0),
            #[trigger] rects[i],
        );
    if vel.x == 0 {
        assert(shifted(player_rect(pos), vel.x as int, 0) == player_rect(pos));
        assert(!rects_meet(player_rect(pos), rects[j]));
    }
    lemma_y_pass_idle(pos, vel, rects, rects.len() as int);
    lemma_x_pass_stops(pos, vel, rects, rects.len() as int);
    let out = resolve(pos, vel, rects);
    let i = choose|i: int| 0 <= i < rects.len() && flush_x(out.0.x as int, #[trigger] rects[i]);
    assert(in_grid_extent(rects[i]));
    assert(flush_x(out.0.x as int, rects[i]) && !rects_meet(player_rect(out.0), rects[i]));
}

} // verus!
