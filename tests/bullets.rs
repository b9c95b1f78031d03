use tds_game::bullet::{Bullet, DEFAULT_DRAG};
use tds_game::geometry::{Line, Rect, Vec2};
use tds_game::tile::{TileRotation, Wall, WallVarient};
use tds_game::world_map::WorldMap;

fn one_wall_map() -> WorldMap {
    WorldMap {
        ground: vec![],
        walls: vec![vec![None, Some(Wall { varient: WallVarient::Staight, rotation: TileRotation::Zero })]],
        width: 2,
        height: 1,
    }
}

fn empty_map() -> WorldMap {
    WorldMap { ground: vec![], walls: vec![], width: 0, height: 0 }
}

#[test]
fn new_bullet_state() {
    let b = Bullet::new(Vec2::new(5, 6), Vec2::new(7, 8));
    assert_eq!(b.pos_history, [Vec2::new(5, 6); 3]);
    assert_eq!(b.drag, DEFAULT_DRAG);
    assert_eq!(b.drag, 12_000);
    assert!(b.collided.is_none());
    assert!(b.dbg_line_hit.is_none());
}

#[test]
fn history_shifts_most_recent_first() {
    let mut b = Bullet::new(Vec2::new(1, 1), Vec2::new(0, 0));
    b.pos = Vec2::new(2, 2);
    b.update_history();
    assert_eq!(b.pos_history, [Vec2::new(2, 2), Vec2::new(1, 1), Vec2::new(1, 1)]);
    b.pos = Vec2::new(3, 3);
    b.update_history();
    assert_eq!(b.pos_history, [Vec2::new(3, 3), Vec2::new(2, 2), Vec2::new(1, 1)]);
}

#[test]
fn free_flight_applies_drag_then_moves() {
    let mut b = Bullet::new(Vec2::new(0, 0), Vec2::new(1_000_000, 0));
    b.update_with_retention(&empty_map(), 16_667, 300);
    assert_eq!(b.vel, Vec2::new(988_000, 0));
    assert_eq!(b.pos, Vec2::new(16_466, 0));
    assert_eq!(b.pos_history, [Vec2::new(0, 0); 3]);
    assert!(b.collided.is_none());
}

#[test]
fn diagonal_drag_uses_the_rounded_length() {
    let mut b = Bullet::new(Vec2::new(0, 0), Vec2::new(300_000, 400_000));
    b.update_with_retention(&empty_map(), 16_667, 300);
    // Length 500000 loses 12000: the heading is kept.
    assert_eq!(b.vel, Vec2::new(292_800, 390_400));
}

#[test]
fn slow_bullet_stops_in_one_frame() {
    let mut b = Bullet::new(Vec2::new(1_000, 1_000), Vec2::new(25_000, 0));
    b.update_with_retention(&one_wall_map(), 16_667, 300);
    assert_eq!(b.vel, Vec2::new(0, 0));
    assert_eq!(b.pos, Vec2::new(1_000, 1_000));
}

#[test]
fn bullet_at_the_threshold_stops() {
    let mut b = Bullet::new(Vec2::new(0, 0), Vec2::new(32_000, 0));
    b.update_with_retention(&empty_map(), 16_667, 300);
    assert_eq!(b.vel, Vec2::new(0, 0));
    let mut c = Bullet::new(Vec2::new(0, 0), Vec2::new(32_001, 0));
    c.update_with_retention(&empty_map(), 16_667, 300);
    assert_eq!(c.vel, Vec2::new(20_001, 0));
}

#[test]
fn bullet_into_a_wall_bounces_once() {
    let mut b = Bullet::new(Vec2::new(20_000, 16_000), Vec2::new(1_000_000, 0));
    b.update_with_retention(&one_wall_map(), 16_667, 300);
    assert_eq!(b.collided, Some(Vec2::new(-300, 300)));
    assert_eq!(b.vel, Vec2::new(-296_400, 0));
    assert_eq!(b.pos, Vec2::new(31_000, 16_000));
    assert_eq!(
        b.dbg_line_hit,
        Some(Line { start: Vec2::new(32_000, 0), end: Vec2::new(32_000, 32_000) })
    );
}

#[test]
fn bullet_hitting_a_top_face_flips_vertically() {
    let map = WorldMap {
        ground: vec![],
        walls: vec![vec![], vec![Some(Wall { varient: WallVarient::Staight, rotation: TileRotation::Two })]],
        width: 1,
        height: 2,
    };
    // The wall fills y in [32000, 42000]; the bullet comes down onto it.
    let mut b = Bullet::new(Vec2::new(16_000, 20_000), Vec2::new(0, 1_000_000));
    b.update_with_retention(&map, 16_667, 500);
    assert_eq!(b.collided, Some(Vec2::new(500, -500)));
    assert_eq!(b.vel, Vec2::new(0, -494_000));
    assert_eq!(b.pos, Vec2::new(16_000, 31_000));
}

#[test]
fn zero_retention_stops_the_bullet_at_the_wall() {
    let mut b = Bullet::new(Vec2::new(20_000, 16_000), Vec2::new(1_000_000, 0));
    b.update_with_retention(&one_wall_map(), 16_667, 0);
    assert_eq!(b.vel, Vec2::new(0, 0));
    assert_eq!(b.pos, Vec2::new(32_000, 16_000));
}

#[test]
fn handle_collisions_leaves_a_clear_path_alone() {
    let mut b = Bullet::new(Vec2::new(1_000, 1_000), Vec2::new(0, 100_000));
    b.handle_collisions(&one_wall_map(), 16_667, 300);
    assert_eq!(b.pos, Vec2::new(1_000, 1_000));
    assert_eq!(b.vel, Vec2::new(0, 100_000));
    assert!(b.collided.is_none());
}

#[test]
fn nearest_to_origin_hit_wins() {
    // Two walls across the path: the one closer to the origin is struck.
    let map = WorldMap {
        ground: vec![],
        walls: vec![vec![
            None,
            Some(Wall { varient: WallVarient::Staight, rotation: TileRotation::Zero }),
            Some(Wall { varient: WallVarient::Staight, rotation: TileRotation::Zero }),
        ]],
        width: 3,
        height: 1,
    };
    let mut b = Bullet::new(Vec2::new(20_000, 16_000), Vec2::new(3_000_000, 0));
    b.update_with_retention(&map, 16_667, 300);
    assert_eq!(
        b.dbg_line_hit,
        Some(Line { start: Vec2::new(32_000, 0), end: Vec2::new(32_000, 32_000) })
    );
}

#[test]
fn bullet_collider_is_a_unit_square() {
    let b = Bullet::new(Vec2::new(5_000, 6_000), Vec2::new(0, 0));
    assert_eq!(b.get_collider().rects, vec![Rect::new(5_000, 6_000, 1_000, 1_000)]);
}

#[test]
fn random_update_keeps_the_bounce_in_range() {
    let mut b = Bullet::new(Vec2::new(20_000, 16_000), Vec2::new(1_000_000, 0));
    b.update(&one_wall_map(), 16_667);
    assert!(b.vel.x <= 0 && b.vel.x >= -296_400);
    assert_eq!(b.vel.y, 0);
}
