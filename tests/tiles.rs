use tds_game::geometry::{Rect, Vec2};
use tds_game::tile::{Collider, GroundVarient, TileRotation, Wall, WallVarient, TILE_SIZE};

#[test]
fn wall_codes_decode_to_their_kinds() {
    assert_eq!(WallVarient::from_raw_u32(1), Some(WallVarient::Staight));
    assert_eq!(WallVarient::from_raw_u32(2), Some(WallVarient::Elbow));
    assert_eq!(WallVarient::from_raw_u32(7), Some(WallVarient::WhitePillar));
    assert_eq!(WallVarient::from_raw_u32(8), None);
    assert_eq!(WallVarient::from_raw_u32(0), None);
    // Orientation flags and bit 6 do not change the kind.
    assert_eq!(WallVarient::from_raw_u32(0xA000_0002), Some(WallVarient::Elbow));
    assert_eq!(WallVarient::from_raw_u32(65 + 3), Some(WallVarient::WhiteElbow));
}

#[test]
fn ground_codes_decode_to_their_kinds() {
    assert_eq!(GroundVarient::from_raw_u32(1), Some(GroundVarient::Dirt));
    assert_eq!(GroundVarient::from_raw_u32(3), Some(GroundVarient::Grass));
    assert_eq!(GroundVarient::from_raw_u32(4), None);
    assert_eq!(GroundVarient::from_raw_u32(6), Some(GroundVarient::DirtQuarterEdge));
    assert_eq!(GroundVarient::from_raw_u32(8), Some(GroundVarient::DirtHalfEdge));
    assert_eq!(GroundVarient::from_raw_u32(0x6000_0002), Some(GroundVarient::Wood));
}

#[test]
fn rotation_flags_decode() {
    assert_eq!(TileRotation::from_raw_u32(5), Some(TileRotation::Zero));
    assert_eq!(TileRotation::from_raw_u32(0x6000_0005), Some(TileRotation::One));
    assert_eq!(TileRotation::from_raw_u32(0xA000_0005), Some(TileRotation::Two));
    assert_eq!(TileRotation::from_raw_u32(0xC000_0005), Some(TileRotation::Three));
    assert_eq!(TileRotation::from_raw_u32(0x2000_0005), None);
    assert_eq!(TileRotation::from_raw_u32(0xF000_0005), None);
}

#[test]
fn rotation_angles_offsets_and_cycle() {
    assert_eq!(TileRotation::Zero.get_angle(), 0);
    assert_eq!(TileRotation::One.get_angle(), 270);
    assert_eq!(TileRotation::Two.get_angle(), 90);
    assert_eq!(TileRotation::Three.get_angle(), 180);
    assert_eq!(TileRotation::Three.get_rotation_offset(), Vec2::new(TILE_SIZE, TILE_SIZE));
    assert_eq!(TileRotation::One.get_rotation_offset(), Vec2::new(0, TILE_SIZE));
    assert_eq!(TileRotation::Zero.rotate(), TileRotation::One);
    assert_eq!(TileRotation::One.rotate(), TileRotation::Three);
    assert_eq!(TileRotation::Three.rotate(), TileRotation::Two);
    assert_eq!(TileRotation::Two.rotate(), TileRotation::Zero);
}

#[test]
fn wall_catalog_rectangles() {
    let straight = Wall { varient: WallVarient::Staight, rotation: TileRotation::Three };
    assert_eq!(straight.get_collider().rects, vec![Rect::new(22_000, 0, 10_000, 32_000)]);
    let elbow = Wall { varient: WallVarient::Elbow, rotation: TileRotation::Zero };
    assert_eq!(
        elbow.get_collider().rects,
        vec![Rect::new(0, 0, 10_000, 32_000), Rect::new(0, 22_000, 32_000, 10_000)]
    );
    let tiny = Wall { varient: WallVarient::WhiteTinyElbow, rotation: TileRotation::One };
    assert_eq!(tiny.get_collider().rects, vec![Rect::new(22_000, 22_000, 10_000, 10_000)]);
    let pillar = Wall { varient: WallVarient::WhitePillar, rotation: TileRotation::Two };
    assert_eq!(pillar.get_collider().rects, vec![Rect::new(9_000, 9_000, 14_000, 14_000)]);
}

#[test]
fn collider_overlap_is_symmetric() {
    let a = Collider { rects: vec![Rect::new(0, 0, 10, 10), Rect::new(100, 100, 10, 10)] };
    let b = Collider { rects: vec![Rect::new(105, 105, 10, 10)] };
    let c = Collider { rects: vec![Rect::new(50, 50, 5, 5)] };
    assert_eq!(a.collides(&b), Some(Rect::new(105, 105, 5, 5)));
    assert_eq!(b.collides(&a), Some(Rect::new(105, 105, 5, 5)));
    assert_eq!(a.collides(&c), None);
    assert_eq!(c.collides(&a), None);
    let empty = Collider { rects: vec![] };
    assert_eq!(a.collides(&empty), None);
    assert_eq!(empty.collides(&a), None);
}

#[test]
fn overlap_reports_the_first_pair_found() {
    let a = Collider { rects: vec![Rect::new(0, 0, 10, 10), Rect::new(20, 0, 10, 10)] };
    let b = Collider { rects: vec![Rect::new(25, 0, 10, 10), Rect::new(5, 0, 10, 10)] };
    assert_eq!(a.collides(&b), Some(Rect::new(5, 0, 5, 10)));
    assert_eq!(b.collides(&a), Some(Rect::new(25, 0, 5, 10)));
}

#[test]
fn translate_and_back_gives_the_same_rectangles() {
    let c = Collider { rects: vec![Rect::new(1, 2, 3, 4), Rect::new(-50, 70, 8, 9)] };
    let offset = Vec2::new(1234, -987);
    let moved = c.with_pos(offset);
    assert_eq!(moved.rects, vec![Rect::new(1235, -985, 3, 4), Rect::new(1184, -917, 8, 9)]);
    let back = moved.with_pos(Vec2::new(-1234, 987));
    assert_eq!(back.rects, c.rects);
}
