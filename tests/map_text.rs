use tds_game::map_text::MapError;
use tds_game::tile::{Ground, GroundVarient, TileRotation, Wall, WallVarient};
use tds_game::world_map::WorldMap;

fn level(ground: &[&str], walls: &[&str], line_break: &str) -> Vec<u8> {
    let mut text = String::new();
    for i in 0..6 {
        text.push_str(&format!("header {}{}", i, line_break));
    }
    for row in ground {
        text.push_str(row);
        text.push_str(line_break);
    }
    for i in 0..4 {
        text.push_str(&format!("separator {}{}", i, line_break));
    }
    for row in walls {
        text.push_str(row);
        text.push_str(line_break);
    }
    text.into_bytes()
}

#[test]
fn parses_both_layers() {
    let text = level(&["1,2,", "3,2684354561"], &["0,1,", "0,2684354562"], "\r\n");
    let map = WorldMap::parse(&text, 2, 2).unwrap();
    assert_eq!(map.width, 2);
    assert_eq!(map.height, 2);
    assert_eq!(
        map.ground,
        vec![
            vec![
                Ground { varient: GroundVarient::Dirt, rotation: TileRotation::Zero },
                Ground { varient: GroundVarient::Wood, rotation: TileRotation::Zero },
            ],
            vec![
                Ground { varient: GroundVarient::Grass, rotation: TileRotation::Zero },
                Ground { varient: GroundVarient::Dirt, rotation: TileRotation::Two },
            ],
        ]
    );
    assert_eq!(
        map.walls,
        vec![
            vec![None, Some(Wall { varient: WallVarient::Staight, rotation: TileRotation::Zero })],
            vec![None, Some(Wall { varient: WallVarient::Elbow, rotation: TileRotation::Two })],
        ]
    );
}

#[test]
fn plain_line_feeds_work_too() {
    let text = level(&["1,1,"], &["0,7,"], "\n");
    let map = WorldMap::parse(&text, 2, 1).unwrap();
    assert_eq!(
        map.walls,
        vec![vec![None, Some(Wall { varient: WallVarient::WhitePillar, rotation: TileRotation::Zero })]]
    );
}

#[test]
fn missing_lines_read_as_empty_rows() {
    let text = level(&["1"], &[], "\r\n");
    let map = WorldMap::parse(&text, 1, 1).unwrap();
    assert_eq!(map.ground.len(), 1);
    assert_eq!(map.walls, vec![Vec::<Option<Wall>>::new()]);
}

#[test]
fn bad_number_is_rejected() {
    let text = level(&["1,x,"], &["0,0,"], "\r\n");
    assert_eq!(WorldMap::parse(&text, 2, 1).err(), Some(MapError::BadNumber));
    let too_big = level(&["4294967296"], &["0"], "\r\n");
    assert_eq!(WorldMap::parse(&too_big, 1, 1).err(), Some(MapError::BadNumber));
    let negative = level(&["1"], &["-1"], "\r\n");
    assert_eq!(WorldMap::parse(&negative, 1, 1).err(), Some(MapError::BadNumber));
}

#[test]
fn unknown_tile_is_rejected() {
    let ground = level(&["4"], &["0"], "\r\n");
    assert_eq!(WorldMap::parse(&ground, 1, 1).err(), Some(MapError::UnknownTile));
    let ground_zero = level(&["0"], &["0"], "\r\n");
    assert_eq!(WorldMap::parse(&ground_zero, 1, 1).err(), Some(MapError::UnknownTile));
    let wall = level(&["1"], &["9"], "\r\n");
    assert_eq!(WorldMap::parse(&wall, 1, 1).err(), Some(MapError::UnknownTile));
}

#[test]
fn bad_rotation_is_rejected() {
    let ground = level(&["536870913"], &["0"], "\r\n");
    assert_eq!(WorldMap::parse(&ground, 1, 1).err(), Some(MapError::BadRotation));
    let wall = level(&["1"], &["4026531841"], "\r\n");
    assert_eq!(WorldMap::parse(&wall, 1, 1).err(), Some(MapError::BadRotation));
}

#[test]
fn first_bad_field_decides_the_error() {
    let text = level(&["4,x"], &["0"], "\r\n");
    assert_eq!(WorldMap::parse(&text, 1, 1).err(), Some(MapError::UnknownTile));
}

#[test]
fn oversized_wall_row_is_rejected() {
    let row = "0,".repeat(0x10_0001);
    let text = level(&["1"], &[row.as_str()], "\n");
    assert_eq!(WorldMap::parse(&text, 1, 1).err(), Some(MapError::TooLarge));
}
