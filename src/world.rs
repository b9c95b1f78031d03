//! The live level: its wall grid and the bullets in flight.
use crate::bullet::{
    apply_drag, frame_ok, frame_step, lemma_slow_bullet_stops, speed_ok, still_flying, Bullet,
    MAX_RETENTION, PER_MILLE, STOP_SPEED,
};
use crate::geometry::{Rect, Vec2, UNIT};
use crate::tile::colliders_meet;
use crate::world_map::{grid_rects, WorldMap};
use vstd::prelude::*;

verus! {

pub struct World {
    pub map: WorldMap,
    pub bullets: Vec<Bullet>,
}

pub open spec fn bullets_wf(s: Seq<Bullet>) -> bool {
    forall|i: int| 0 <= i < s.len() ==> (#[trigger] s[i]).wf()
}

/// The footprint of a bullet at `pos`.
pub open spec fn muzzle_rects(pos: Vec2) -> Seq<Rect> {
    seq![Rect { x: pos.x, y: pos.y, width: UNIT, height: UNIT }]
}

/// `after` holds the bullets of `before` each advanced by one frame, with
/// retention `ks[i]` for bullet `i`, then those that stopped left out.
pub open spec fn bullets_advanced(
    before: Seq<Bullet>,
    after: Seq<Bullet>,
    rects: Seq<Rect>,
    dt: int,
    ks: Seq<u32>,
) -> bool {
    exists|updated: Seq<Bullet>|
        {
            &&& updated.len() == before.len()
            &&& forall|i: int|
                0 <= i < before.len() ==> frame_step(
                    before[i],
                    #[trigger] updated[i],
                    rects,
                    dt,
                    ks[i] as int,
                )
            &&& after == updated.filter(|b: Bullet| still_flying(b.vel))
        }
}

impl World {
    pub open spec fn wf(&self) -> bool {
        self.map.wf() && bullets_wf(self.bullets@)
    }

    pub fn new(map: WorldMap) -> (r: World)
        requires
            map.wf(),
        ensures
            r.wf(),
            r.map == map,
            r.bullets@ == Seq::<Bullet>::empty(),
    {
        World { map, bullets: Vec::new() }
    }

    /// Adds a bullet at `pos` moving at `vel`, unless its footprint already
    /// overlaps a wall; says whether it was added.
    pub fn spawn_bullet(&mut self, pos: Vec2, vel: Vec2) -> (r: bool)
        requires
            old(self).wf(),
            pos.in_range(),
            speed_ok(vel),
        ensures
            final(self).wf(),
            final(self).map == old(self).map,
            r == !colliders_meet(grid_rects(old(self).map.wall_grid()), muzzle_rects(pos)),
            !r ==> final(self).bullets@ == old(self).bullets@,
            r ==> final(self).bullets@.len() == old(self).bullets@.len() + 1,
            r ==> final(self).bullets@.drop_last() == old(self).bullets@,
            r ==> final(self).bullets@.last().pos == pos,
            r ==> final(self).bullets@.last().vel == vel,
    {
        let bullet = Bullet::new(pos, vel);
        let collider = bullet.get_collider();
        assert(collider.rects@ == muzzle_rects(pos));
        if self.map.collides_with_wall(&collider).is_none() {
            self.bullets.push(bullet);
            assert(self.bullets@.drop_last() =~= old(self).bullets@);
            true
        } else {
            false
        }
    }

    /// Advances every bullet by one frame, bullet `i` bouncing with retention
    /// `retentions[i]` (per mille), then removes the bullets that stopped.
    pub fn update_bullets_with(&mut self, dt: i64, retentions: &Vec<u32>)
        requires
            old(self).wf(),
            frame_ok(dt as int),
            retentions.len() == old(self).bullets.len(),
            forall|i: int| 0 <= i < retentions.len() ==> #[trigger] retentions@[i] <= PER_MILLE,
        ensures
            final(self).wf(),
            final(self).map == old(self).map,
            bullets_advanced(
                old(self).bullets@,
                final(self).bullets@,
                grid_rects(old(self).map.wall_grid()),
                dt as int,
                retentions@,
            ),
            forall|i: int|
                0 <= i < final(self).bullets@.len() ==> still_flying(
                    #[trigger] final(self).bullets@[i].vel,
                ),
    {
        let ghost rects = grid_rects(self.map.wall_grid());
        let mut updated: Vec<Bullet> = Vec::new();
        let mut i: usize = 0;
        while i < self.bullets.len()
            invariant
                self.wf(),
                self.bullets@ == old(self).bullets@,
                self.map == old(self).map,
                rects == grid_rects(self.map.wall_grid()),
                frame_ok(dt as int),
                retentions.len() == self.bullets.len(),
                forall|j: int| 0 <= j < retentions.len() ==> #[trigger] retentions@[j] <= PER_MILLE,
                0 <= i <= self.bullets.len(),
                updated@.len() == i,
                bullets_wf(updated@),
                forall|j: int|
                    0 <= j < i ==> frame_step(
                        self.bullets@[j],
                        #[trigger] updated@[j],
                        rects,
                        dt as int,
                        retentions@[j] as int,
                    ),
            decreases self.bullets.len() - i,
        {
            let mut b = self.bullets[i];
            assert(retentions@[i as int] <= PER_MILLE);
            b.update_with_retention(&self.map, dt, retentions[i]);
            updated.push(b);
            i += 1;
        }
        let ghost pred = |b: Bullet| still_flying(b.vel);
        let mut kept: Vec<Bullet> = Vec::new();
        let mut j: usize = 0;
        while j < updated.len()
            invariant
                pred == (|b: Bullet| still_flying(b.vel)),
                bullets_wf(updated@),
                0 <= j <= updated.len(),
                kept@ == updated@.take(j as int).filter(pred),
                bullets_wf(kept@),
                forall|k: int| 0 <= k < kept@.len() ==> still_flying(#[trigger] kept@[k].vel),
            decreases updated.len() - j,
        {
            let b = updated[j];
            let ghost next = updated@.take(j as int + 1);
            proof {
                reveal(Seq::filter);
                assert(next.drop_last() =~= updated@.take(j as int));
                assert(next.last() == b);
                assert(next.filter(pred) == if pred(b) {
                    updated@.take(j as int).filter(pred).push(b)
                } else {
                    updated@.take(j as int).filter(pred)
                });
            }
            if b.vel.x != 0 || b.vel.y != 0 {
                kept.push(b);
                assert(pred(b));
            } else {
                assert(!pred(b));
            }
            assert(kept@ == next.filter(pred));
            j += 1;
        }
        assert(updated@.take(j as int) =~= updated@);
        self.bullets = kept;
        assert(bullets_advanced(old(self).bullets@, self.bullets@, rects, dt as int, retentions@));
    }

    /// Advances every bullet by one frame, each bouncing with a retention
    /// drawn at random from `0..=MAX_RETENTION`, then removes the bullets that
    /// stopped.
    pub fn update_bullets(&mut self, dt: i64)
        requires
            old(self).wf(),
            frame_ok(dt as int),
        ensures
            final(self).wf(),
            final(self).map == old(self).map,
            exists|ks: Seq<u32>|
                {
                    &&& ks.len() == old(self).bullets@.len()
                    &&& forall|i: int| 0 <= i < ks.len() ==> #[trigger] ks[i] <= MAX_RETENTION
                    &&& bullets_advanced(
                        old(self).bullets@,
                        final(self).bullets@,
                        grid_rects(old(self).map.wall_grid()),
                        dt as int,
                        ks,
                    )
                },
            forall|i: int|
                0 <= i < final(self).bullets@.len() ==> still_flying(
                    #[trigger] final(self).bullets@[i].vel,
                ),
    {
        let mut ks: Vec<u32> = Vec::new();
        let mut i: usize = 0;
        while i < self.bullets.len()
            invariant
                0 <= i <= self.bullets.len(),
                ks@.len() == i,
                forall|j: int| 0 <= j < i ==> #[trigger] ks@[j] <= MAX_RETENTION,
            decreases self.bullets.len() - i,
        {
            ks.push(crate::bullet::random_retention(MAX_RETENTION));
            i += 1;
        }
        self.update_bullets_with(dt, &ks);
    }
}

proof fn lemma_filter_drops(s: Seq<Bullet>, i: int)
    requires
        0 <= i < s.len(),
        !still_flying(s[i].vel),
    ensures
        s.filter(|b: Bullet| still_flying(b.vel)).len() < s.len(),
    decreases s.len(),
{
    reveal(Seq::filter);
    let pred = |b: Bullet| still_flying(b.vel);
    s.drop_last().lemma_filter_len(pred);
    if i < s.len() - 1 {
        assert(s.drop_last()[i] == s[i]);
        lemma_filter_drops(s.drop_last(), i);
    }
}

/// A bullet that drag slows to the stop threshold in a frame is gone from
/// the world's list after that frame's update: the list is shorter.
pub proof fn lemma_slow_bullet_pruned(
    before: Seq<Bullet>,
    after: Seq<Bullet>,
    rects: Seq<Rect>,
    dt: int,
    ks: Seq<u32>,
    i: int,
)
    requires
        bullets_advanced(before, after, rects, dt, ks),
        0 <= i < before.len(),
        before[i].pos.in_range(),
        apply_drag(before[i].vel, before[i].drag as int, dt).norm2() <= STOP_SPEED * STOP_SPEED,
    ensures
        after.len() < before.len(),
{
    let updated = choose|updated: Seq<Bullet>|
        {
            &&& updated.len() == before.len()
            &&& forall|j: int|
                0 <= j < before.len() ==> frame_step(
                    before[j],
                    #[trigger] updated[j],
                    rects,
                    dt,
                    ks[j] as int,
                )
            &&& after == updated.filter(|b: Bullet| still_flying(b.vel))
        };
    assert(frame_step(before[i], updated[i], rects, dt, ks[i] as int));
    lemma_slow_bullet_stops(before[i].pos, before[i].vel, before[i].drag as int, rects, dt, ks[i] as int);
    lemma_filter_drops(updated, i);
}

} // verus!
