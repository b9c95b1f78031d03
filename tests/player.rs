use tds_game::geometry::{Rect, Vec2};
use tds_game::items::GunItem;
use tds_game::player::{Player, PlayerAnimation, FRAME_AMOUNT};
use tds_game::tile::{TileRotation, Wall, WallVarient};
use tds_game::world_map::WorldMap;

fn one_wall_map() -> WorldMap {
    WorldMap {
        ground: vec![],
        walls: vec![vec![None, Some(Wall { varient: WallVarient::Staight, rotation: TileRotation::Zero })]],
        width: 2,
        height: 1,
    }
}

fn empty_map() -> WorldMap {
    WorldMap { ground: vec![], walls: vec![], width: 0, height: 0 }
}

#[test]
fn player_footprint_is_centred() {
    let p = Player::new(Vec2::new(64_000, 64_000));
    assert_eq!(p.get_world_collider().rects, vec![Rect::new(57_500, 57_500, 13_000, 13_000)]);
    assert_eq!(p.vel, Vec2::new(0, 0));
    assert_eq!(p.gun, GunItem::default_ar15());
}

#[test]
fn moving_sideways_into_a_wall_stops_flush() {
    let map = one_wall_map();
    let mut p = Player::new(Vec2::new(20_000, 16_000));
    p.vel = Vec2::new(6_000, 0);
    p.handle_wall_collisions(&map.wall_rects());
    assert_eq!(p.vel, Vec2::new(0, 0));
    assert_eq!(p.pos, Vec2::new(25_500, 16_000));
    let footprint = p.get_world_collider().rects[0];
    assert_eq!(footprint.x + footprint.width, 32_000);
    assert_eq!(map.collides_with_wall(&p.get_world_collider()), None);
}

#[test]
fn moving_sideways_away_from_a_wall_is_free() {
    let map = one_wall_map();
    let mut p = Player::new(Vec2::new(20_000, 16_000));
    p.vel = Vec2::new(-6_000, 0);
    p.handle_wall_collisions(&map.wall_rects());
    assert_eq!(p.vel, Vec2::new(-6_000, 0));
    assert_eq!(p.pos, Vec2::new(20_000, 16_000));
}

#[test]
fn sliding_along_a_wall_keeps_the_free_axis() {
    let map = one_wall_map();
    let mut p = Player::new(Vec2::new(20_000, 16_000));
    p.vel = Vec2::new(6_000, 700);
    p.handle_wall_collisions(&map.wall_rects());
    assert_eq!(p.vel, Vec2::new(0, 700));
    assert_eq!(p.pos, Vec2::new(25_500, 16_000));
}

#[test]
fn moving_up_into_a_wall_stops_below_it() {
    let map = WorldMap {
        ground: vec![],
        walls: vec![vec![Some(Wall { varient: WallVarient::Staight, rotation: TileRotation::Two })]],
        width: 1,
        height: 1,
    };
    // The wall fills y in [0, 10000]; the player comes up from below.
    let mut p = Player::new(Vec2::new(16_000, 20_000));
    p.vel = Vec2::new(0, -4_000);
    p.handle_wall_collisions(&map.wall_rects());
    assert_eq!(p.vel, Vec2::new(0, 0));
    assert_eq!(p.pos, Vec2::new(16_000, 16_500));
}

#[test]
fn walking_from_rest_accelerates() {
    let mut p = Player::new(Vec2::new(0, 0));
    p.handle_movement_controls(Vec2::new(1, 0), false, 16_667);
    assert_eq!(p.vel, Vec2::new(63, 0));
    assert!(!p.is_sprinting);
    let mut q = Player::new(Vec2::new(0, 0));
    q.handle_movement_controls(Vec2::new(1, 1), true, 16_667);
    assert_eq!(q.vel, Vec2::new(44, 44));
    assert!(q.is_sprinting);
}

#[test]
fn speed_is_capped() {
    let mut p = Player::new(Vec2::new(0, 0));
    p.vel = Vec2::new(600, 0);
    p.handle_movement_controls(Vec2::new(1, 0), false, 16_667);
    assert_eq!(p.vel, Vec2::new(500, 0));
}

#[test]
fn releasing_the_keys_slows_down() {
    let mut p = Player::new(Vec2::new(0, 0));
    p.vel = Vec2::new(300, 400);
    p.handle_movement_controls(Vec2::new(0, 0), false, 16_667);
    // Length 500 drops by 26.
    assert_eq!(p.vel, Vec2::new(284, 379));
    let mut q = Player::new(Vec2::new(0, 0));
    q.vel = Vec2::new(10, 0);
    q.handle_movement_controls(Vec2::new(0, 0), false, 16_667);
    assert_eq!(q.vel, Vec2::new(0, 0));
}

#[test]
fn update_moves_after_correction() {
    let mut p = Player::new(Vec2::new(0, 0));
    p.update(&empty_map(), Vec2::new(1, 0), false, 16_667);
    assert_eq!(p.pos, Vec2::new(63, 0));
    let mut q = Player::new(Vec2::new(25_200, 16_000));
    q.vel = Vec2::new(500, 0);
    q.update(&one_wall_map(), Vec2::new(1, 0), false, 16_667);
    assert_eq!(q.vel, Vec2::new(0, 0));
    assert_eq!(q.pos, Vec2::new(25_500, 16_000));
}

#[test]
fn gun_keys_switch_guns() {
    let mut p = Player::new(Vec2::new(0, 0));
    p.handle_gun_controls(false, true);
    assert_eq!(p.gun, GunItem::default_pistol());
    p.handle_gun_controls(true, false);
    assert_eq!(p.gun, GunItem::default_ar15());
    p.handle_gun_controls(true, true);
    assert_eq!(p.gun, GunItem::default_pistol());
}

#[test]
fn raise_animation_steps_up_and_down() {
    let mut a = PlayerAnimation::new();
    a.handle_animation(true, 10_000);
    assert_eq!(a.current_frame, 1);
    assert_eq!(a.elapsed_time, 10_000);
    a.handle_animation(true, 10_000);
    assert_eq!(a.current_frame, 1);
    a.handle_animation(true, 10_000);
    assert_eq!(a.current_frame, 2);
    for _ in 0..10 {
        a.handle_animation(true, 20_000);
    }
    assert_eq!(a.current_frame, FRAME_AMOUNT);
    a.handle_animation(false, 10_000);
    assert_eq!(a.current_frame, FRAME_AMOUNT - 1);
    assert_eq!(a.elapsed_time, -10_000);
    a.handle_animation(false, 10_000);
    assert_eq!(a.current_frame, FRAME_AMOUNT - 1);
    a.handle_animation(false, 10_000);
    assert_eq!(a.current_frame, FRAME_AMOUNT - 2);
}
