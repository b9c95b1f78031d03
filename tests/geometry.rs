use tds_game::geometry::{cross, isqrt, Line, Rect, Vec2};

fn line(ax: i64, ay: i64, bx: i64, by: i64) -> Line {
    Line { start: Vec2::new(ax, ay), end: Vec2::new(bx, by) }
}

#[test]
fn crossing_segments_meet_at_their_crossing() {
    let a = line(0, 0, 10, 10);
    let b = line(0, 10, 10, 0);
    assert_eq!(a.intersection(&b), Some(Vec2::new(5, 5)));
}

#[test]
fn meeting_point_is_rounded_down() {
    let a = line(0, 0, 3, 0);
    let b = line(1, -1, 2, 1);
    // The segments meet at (1.5, 0).
    assert_eq!(a.intersection(&b), Some(Vec2::new(1, 0)));
    let c = line(0, 0, -3, 0);
    let d = line(-1, -1, -2, 1);
    assert_eq!(c.intersection(&d), Some(Vec2::new(-2, 0)));
}

#[test]
fn parallel_segments_do_not_meet() {
    let a = line(0, 0, 10, 0);
    let b = line(0, 5, 10, 5);
    assert_eq!(a.intersection(&b), None);
    let c = line(0, 0, 10, 0);
    let d = line(5, 0, 15, 0);
    assert_eq!(c.intersection(&d), None);
}

#[test]
fn lines_meeting_outside_a_segment_do_not_count() {
    let a = line(0, 0, 4, 0);
    let b = line(5, -1, 5, 1);
    assert_eq!(a.intersection(&b), None);
}

#[test]
fn end_points_touching_count_as_a_meeting() {
    let a = line(0, 0, 4, 0);
    let b = line(4, 0, 4, 5);
    assert_eq!(a.intersection(&b), Some(Vec2::new(4, 0)));
}

#[test]
fn intersection_is_symmetric() {
    let cases = [
        (line(0, 0, 10, 10), line(0, 10, 10, 0)),
        (line(0, 0, 3, 0), line(1, -1, 2, 1)),
        (line(-7, 3, 20, -9), line(-5, -6, 9, 11)),
        (line(0, 0, 4, 0), line(5, -1, 5, 1)),
        (line(0, 0, 10, 0), line(0, 5, 10, 5)),
    ];
    for (a, b) in cases.iter() {
        assert_eq!(a.intersection(b), b.intersection(a));
    }
}

#[test]
fn segment_outside_a_rectangle_meets_none_of_its_sides() {
    let rect = Rect::new(100, 100, 50, 30);
    let sides = Line::from_rect(&rect);
    assert_eq!(sides.len(), 4);
    let outside = [
        line(0, 0, 90, 200),
        line(160, 90, 400, 140),
        line(-10, 131, 300, 131),
        line(120, 40, 140, 99),
        // Passes the top-left corner diagonally without touching it.
        line(80, 105, 105, 80),
    ];
    for seg in outside.iter() {
        for side in sides.iter() {
            assert_eq!(side.intersection(seg), None);
        }
    }
}

#[test]
fn rectangle_sides_come_top_bottom_left_right() {
    let sides = Line::from_rect(&Rect::new(1, 2, 3, 4));
    assert_eq!(sides[0], line(1, 2, 4, 2));
    assert_eq!(sides[1], line(1, 6, 4, 6));
    assert_eq!(sides[2], line(1, 2, 1, 6));
    assert_eq!(sides[3], line(4, 2, 4, 6));
}

#[test]
fn overlap_of_rectangles() {
    let a = Rect::new(0, 0, 10, 10);
    let b = Rect::new(5, 6, 10, 10);
    assert_eq!(a.collision_rect(&b), Some(Rect::new(5, 6, 5, 4)));
    assert_eq!(b.collision_rect(&a), Some(Rect::new(5, 6, 5, 4)));
    let touching = Rect::new(10, 0, 5, 5);
    assert_eq!(a.collision_rect(&touching), None);
    let apart = Rect::new(20, 20, 1, 1);
    assert_eq!(a.collision_rect(&apart), None);
}

#[test]
fn cross_product_values() {
    assert_eq!(cross(Vec2::new(1, 0), Vec2::new(0, 1)), 1);
    assert_eq!(cross(Vec2::new(0, 1), Vec2::new(1, 0)), -1);
    assert_eq!(cross(Vec2::new(3, 4), Vec2::new(6, 8)), 0);
}

#[test]
fn integer_square_root() {
    assert_eq!(isqrt(0), 0);
    assert_eq!(isqrt(1), 1);
    assert_eq!(isqrt(15), 3);
    assert_eq!(isqrt(16), 4);
    assert_eq!(isqrt(2_000_000), 1414);
    assert_eq!(isqrt(1u128 << 66), 1u64 << 33);
}
