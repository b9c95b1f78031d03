use tds_game::bullet::Bullet;
use tds_game::geometry::{Rect, Vec2};
use tds_game::tile::{Collider, TileRotation, Wall, WallVarient};
use tds_game::world::World;
use tds_game::world_map::WorldMap;

fn wall(varient: WallVarient, rotation: TileRotation) -> Option<Wall> {
    Some(Wall { varient, rotation })
}

/// A map with one straight wall along the left edge of cell (1, 0).
fn one_wall_map() -> WorldMap {
    WorldMap {
        ground: vec![],
        walls: vec![vec![None, wall(WallVarient::Staight, TileRotation::Zero)]],
        width: 2,
        height: 1,
    }
}

#[test]
fn wall_collider_at_three_four_lies_in_its_cell() {
    let mut walls = vec![vec![None; 5]; 5];
    let kinds = [
        (WallVarient::Staight, TileRotation::Three),
        (WallVarient::Elbow, TileRotation::One),
        (WallVarient::TinyElbow, TileRotation::Two),
        (WallVarient::WhitePillar, TileRotation::Zero),
    ];
    for (varient, rotation) in kinds.iter() {
        walls[4][3] = wall(*varient, *rotation);
        let map = WorldMap { ground: vec![], walls: walls.clone(), width: 5, height: 5 };
        let collider = map.wall_collider_at(3, 4);
        assert!(!collider.rects.is_empty());
        for r in collider.rects.iter() {
            assert!(r.x >= 96_000 && r.x + r.width <= 128_000);
            assert!(r.y >= 128_000 && r.y + r.height <= 160_000);
        }
    }
    walls[4][3] = wall(WallVarient::Staight, TileRotation::Zero);
    let map = WorldMap { ground: vec![], walls, width: 5, height: 5 };
    assert_eq!(map.wall_collider_at(3, 4).rects, vec![Rect::new(96_000, 128_000, 10_000, 32_000)]);
}

#[test]
fn empty_and_outside_cells_have_no_collider() {
    let map = one_wall_map();
    assert!(map.wall_collider_at(0, 0).rects.is_empty());
    assert!(map.wall_collider_at(7, 0).rects.is_empty());
    assert!(map.wall_collider_at(0, 9).rects.is_empty());
}

#[test]
fn wall_rects_in_row_major_order() {
    let map = WorldMap {
        ground: vec![],
        walls: vec![
            vec![None, wall(WallVarient::WhitePillar, TileRotation::Zero)],
            vec![wall(WallVarient::Elbow, TileRotation::Two)],
        ],
        width: 2,
        height: 2,
    };
    assert_eq!(
        map.wall_rects(),
        vec![
            Rect::new(41_000, 9_000, 14_000, 14_000),
            Rect::new(0, 32_000, 32_000, 10_000),
            Rect::new(0, 32_000, 10_000, 32_000),
        ]
    );
}

#[test]
fn collides_with_wall_finds_overlaps() {
    let map = one_wall_map();
    let inside = Collider { rects: vec![Rect::new(35_000, 10_000, 1_000, 1_000)] };
    assert_eq!(map.collides_with_wall(&inside), Some(Rect::new(35_000, 10_000, 1_000, 1_000)));
    let straddling = Collider { rects: vec![Rect::new(30_000, 0, 4_000, 4_000)] };
    assert_eq!(map.collides_with_wall(&straddling), Some(Rect::new(32_000, 0, 2_000, 4_000)));
    let outside = Collider { rects: vec![Rect::new(10_000, 10_000, 1_000, 1_000)] };
    assert_eq!(map.collides_with_wall(&outside), None);
    let flush = Collider { rects: vec![Rect::new(31_000, 10_000, 1_000, 1_000)] };
    assert_eq!(map.collides_with_wall(&flush), None);
}

#[test]
fn spawning_inside_a_wall_is_rejected() {
    let mut world = World::new(one_wall_map());
    assert!(!world.spawn_bullet(Vec2::new(35_000, 16_000), Vec2::new(1_000_000, 0)));
    assert!(world.bullets.is_empty());
    assert!(world.spawn_bullet(Vec2::new(10_000, 16_000), Vec2::new(1_000_000, 0)));
    assert_eq!(world.bullets.len(), 1);
    assert_eq!(world.bullets[0].pos, Vec2::new(10_000, 16_000));
    assert!(!world.spawn_bullet(Vec2::new(31_500, 16_000), Vec2::new(0, 5)));
    assert_eq!(world.bullets.len(), 1);
}

#[test]
fn update_bullets_removes_the_stopped_ones() {
    let mut world = World::new(one_wall_map());
    assert!(world.spawn_bullet(Vec2::new(10_000, 16_000), Vec2::new(0, 10_000)));
    assert!(world.spawn_bullet(Vec2::new(10_000, 20_000), Vec2::new(0, 1_000_000)));
    assert!(world.spawn_bullet(Vec2::new(12_000, 20_000), Vec2::new(0, 0)));
    world.update_bullets_with(16_667, &vec![0, 0, 0]);
    assert_eq!(world.bullets.len(), 1);
    assert_eq!(world.bullets[0].vel, Vec2::new(0, 988_000));
    assert_eq!(world.bullets[0].pos, Vec2::new(10_000, 36_466));
    world.update_bullets(16_667);
    assert_eq!(world.bullets.len(), 1);
}

#[test]
fn random_bounces_lose_speed() {
    let mut lost_more_than_most = false;
    for _ in 0..50 {
        let mut world = World::new(one_wall_map());
        assert!(world.spawn_bullet(Vec2::new(20_000, 16_000), Vec2::new(1_000_000, 0)));
        world.update_bullets(16_667);
        if world.bullets.is_empty() {
            lost_more_than_most = true;
            continue;
        }
        let b: Bullet = world.bullets[0];
        assert!(b.vel.x < 0 && b.vel.x >= -296_400);
        assert_eq!(b.pos, Vec2::new(31_000, 16_000));
        assert_eq!(b.vel.y, 0);
        if b.vel.x > -296_400 {
            lost_more_than_most = true;
        }
    }
    assert!(lost_more_than_most);
}
