use arq::position::{build_rectangular_area, build_square_area, Position, Side};

#[test]
fn test_build_square_area() {
    let start_pos = Position { x: 1, y: 2 };
    let area = build_square_area(start_pos, 3);
    assert_eq!(3, area.size_x);
    assert_eq!(3, area.size_y);
    assert_eq!(1, area.start_position.x);
    assert_eq!(2, area.start_position.y);
    assert_eq!(3, area.end_position.x);
    assert_eq!(4, area.end_position.y);
}

#[test]
fn test_build_rectangular_area() {
    let start_pos = Position { x: 0, y: 0 };
    let area = build_rectangular_area(start_pos, 6, 3);
    assert_eq!(6, area.size_x);
    assert_eq!(3, area.size_y);
    assert_eq!(0, area.start_position.x);
    assert_eq!(0, area.start_position.y);
    assert_eq!(5, area.end_position.x);
    assert_eq!(2, area.end_position.y);
}

#[test]
fn test_get_total_area() {
    // GIVEN a valid area
    let start_pos = Position { x: 0, y: 0 };
    let area = build_square_area(start_pos, 4);
    assert_eq!(4, area.size_x);
    assert_eq!(4, area.size_y);
    assert_eq!(0, area.start_position.x);
    assert_eq!(0, area.start_position.y);
    assert_eq!(3, area.end_position.x);
    assert_eq!(3, area.end_position.y);

    // WHEN we call to get the total area
    let total_area = area.get_total_area();

    // THEN we expect it to equal width (x) * height (y) / 4x4
    assert_eq!(16, total_area);
}

#[test]
fn test_get_get_positions() {
    // GIVEN a valid area
    let start_pos = Position { x: 0, y: 0 };
    let area = build_square_area(start_pos, 4);
    assert_eq!(4, area.size_x);
    assert_eq!(4, area.size_y);
    assert_eq!(0, area.start_position.x);
    assert_eq!(0, area.start_position.y);
    assert_eq!(3, area.end_position.x);
    assert_eq!(3, area.end_position.y);

    // WHEN we call to get all possible positions
    let positions = area.get_positions();

    // THEN we expect it to equal width (x) * height (y) / 4x4
    assert_eq!(16, positions.len());
   // First column
    assert_eq!(Position { x: 0, y: 0}, *positions.get(0).unwrap());
    assert_eq!(Position { x: 0, y: 1}, *positions.get(1).unwrap());
    assert_eq!(Position { x: 0, y: 2}, *positions.get(2).unwrap());
    assert_eq!(Position { x: 0, y: 3}, *positions.get(3).unwrap());

    // Second column
    assert_eq!(Position { x: 1, y: 0}, *positions.get(4).unwrap());
    assert_eq!(Position { x: 1, y: 1}, *positions.get(5).unwrap());
    assert_eq!(Position { x: 1, y: 2}, *positions.get(6).unwrap());
    assert_eq!(Position { x: 1, y: 3}, *positions.get(7).unwrap());

    // Third column
    assert_eq!(Position { x: 2, y: 0}, *positions.get(8).unwrap());
    assert_eq!(Position { x: 2, y: 1}, *positions.get(9).unwrap());
    assert_eq!(Position { x: 2, y: 2}, *positions.get(10).unwrap());
    assert_eq!(Position { x: 2, y: 3}, *positions.get(11).unwrap());

    // Fourth column
    assert_eq!(Position { x: 3, y: 0}, *positions.get(12).unwrap());
    assert_eq!(Position { x: 3, y: 1}, *positions.get(13).unwrap());
    assert_eq!(Position { x: 3, y: 2}, *positions.get(14).unwrap());
    assert_eq!(Position { x: 3, y: 3}, *positions.get(15).unwrap());
}

#[test]
fn test_get_get_positions_nonzero_start() {
    // GIVEN a valid area starting at index 4, 4
    let start_pos = Position { x: 4, y: 4 };
    let area = build_square_area(start_pos, 4);
    assert_eq!(4, area.size_x);
    assert_eq!(4, area.size_y);
    assert_eq!(4, area.start_position.x);
    assert_eq!(4, area.start_position.y);
    assert_eq!(7, area.end_position.x);
    assert_eq!(7, area.end_position.y);

    // WHEN we call to get all possible positions
    let positions = area.get_positions();

    // THEN we expect it to equal width (x) * height (y) / 4x4
    assert_eq!(16, positions.len());
    // First column
    assert_eq!(Position { x: 4, y: 4}, *positions.get(0).unwrap());
    assert_eq!(Position { x: 4, y: 5}, *positions.get(1).unwrap());
    assert_eq!(Position { x: 4, y: 6}, *positions.get(2).unwrap());
    assert_eq!(Position { x: 4, y: 7}, *positions.get(3).unwrap());

    // Second column
    assert_eq!(Position { x: 5, y: 4}, *positions.get(4).unwrap());
    assert_eq!(Position { x: 5, y: 5}, *positions.get(5).unwrap());
    assert_eq!(Position { x: 5, y: 6}, *positions.get(6).unwrap());
    assert_eq!(Position { x: 5, y: 7}, *positions.get(7).unwrap());

    // Third column
    assert_eq!(Position { x: 6, y: 4}, *positions.get(8).unwrap());
    assert_eq!(Position { x: 6, y: 5}, *positions.get(9).unwrap());
    assert_eq!(Position { x: 6, y: 6}, *positions.get(10).unwrap());
    assert_eq!(Position { x: 6, y: 7}, *positions.get(11).unwrap());

    // Fourth column
    assert_eq!(Position { x: 7, y: 4}, *positions.get(12).unwrap());
    assert_eq!(Position { x: 7, y: 5}, *positions.get(13).unwrap());
    assert_eq!(Position { x: 7, y: 6}, *positions.get(14).unwrap());
    assert_eq!(Position { x: 7, y: 7}, *positions.get(15).unwrap());
}

#[test]
fn test_3x3_valid_top_left_intersects() {
    // GIVEN a 3x3 Area
    let area = build_square_area(Position { x: 1, y: 1 }, 3);
    assert_eq!(3, area.size_x);
    assert_eq!(3, area.size_y);
    assert_eq!(1, area.start_position.x);
    assert_eq!(1, area.start_position.y);
    assert_eq!(3, area.end_position.x);
    assert_eq!(3, area.end_position.y);

    // WHEN we call to see if an area overlaping the top-left corner intersects
    let overlap_area = build_square_area(Position { x: 0, y: 0 }, 2);
    // THEN we expect the result to be true
    assert!(area.intersects(overlap_area));
}

#[test]
fn test_3x3_valid_top_right_intersects() {
    // GIVEN a 3x3 Area (x)
    let area = build_square_area(Position { x: 1, y: 1 }, 3);
    assert_eq!(3, area.size_x);
    assert_eq!(3, area.size_y);
    assert_eq!(1, area.start_position.x);
    assert_eq!(1, area.start_position.y);
    assert_eq!(3, area.end_position.x);
    assert_eq!(3, area.end_position.y);

    // WHEN we call to see if an area (X) overlaping the top-right corner intersects
    // i.e
    // ---XX
    // -xxXX
    // -xxx-
    // -xxx-
    let overlap_area = build_square_area(Position { x: 3, y: 0 }, 2);
    // THEN we expect the result to be true
    assert!(area.intersects(overlap_area));
}

#[test]
fn test_3x3_valid_bottom_right_intersects() {
    // GIVEN a 3x3 Area (x)
    let area = build_square_area(Position { x: 1, y: 1 }, 3);
    assert_eq!(3, area.size_x);
    assert_eq!(3, area.size_y);
    assert_eq!(1, area.start_position.x);
    assert_eq!(1, area.start_position.y);
    assert_eq!(3, area.end_position.x);
    assert_eq!(3, area.end_position.y);

    // WHEN we call to see if an area (X) overlaping the top-right corner intersects
    // i.e
    //  01234
    // 0-----
    // 1-xxx-
    // 2-xxx-
    // 3-xxXX
    // 4---XX
    let overlap_area = build_square_area(Position { x: 3, y: 3 }, 2);
    // THEN we expect the result to be true
    assert!(area.intersects(overlap_area));
}

#[test]
fn test_3x3_valid_bottom_left_intersects() {
    // GIVEN a 3x3 Area (x)
    let area = build_square_area(Position { x: 1, y: 1 }, 3);
    assert_eq!(3, area.size_x);
    assert_eq!(3, area.size_y);
    assert_eq!(1, area.start_position.x);
    assert_eq!(1, area.start_position.y);
    assert_eq!(3, area.end_position.x);
    assert_eq!(3, area.end_position.y);

    // WHEN we call to see if an area (X) overlaping the top-right corner intersects
    // i.e
    //  01234
    // 0-----
    // 1-xxx-
    // 2-xxx-
    // 3XXxx-
    // 4XX---
    let overlap_area = build_square_area(Position { x: 0, y: 3 }, 2);
    // THEN we expect the result to be true
    assert!(area.intersects(overlap_area));
}

#[test]
fn test_3x3_invalid_ends_before_intersects() {
    // GIVEN a 3x3 Area
    let area = build_square_area(Position { x: 1, y: 1 }, 3);
    assert_eq!(3, area.size_x);
    assert_eq!(3, area.size_y);
    assert_eq!(1, area.start_position.x);
    assert_eq!(1, area.start_position.y);
    assert_eq!(3, area.end_position.x);
    assert_eq!(3, area.end_position.y);

    // WHEN we call to see if an area that ends touching the top-left corner intersects
    let overlap_area = build_square_area(Position { x: 0, y: 0 }, 1);
    // THEN we expect the result to be false
    assert!(!area.intersects(overlap_area));
}

#[test]
fn test_3x3_invalid_starts_after_intersects() {
    // GIVEN a 3x3 Area
    let area = build_square_area(Position { x: 1, y: 1 }, 3);
    assert_eq!(3, area.size_x);
    assert_eq!(3, area.size_y);
    assert_eq!(1, area.start_position.x);
    assert_eq!(1, area.start_position.y);
    assert_eq!(3, area.end_position.x);
    assert_eq!(3, area.end_position.y);

    // WHEN we call to see if an area that starts after the bottom-right corner intersects
    let overlap_area = build_square_area(Position { x: 4, y: 4 }, 3);
    // THEN we expect the result to be false
    assert!(!area.intersects(overlap_area));
}

#[test]
fn test_3x3_valid_contains() {
    // GIVEN a 3x3 Area
    let area = build_square_area(Position { x: 0, y: 0 }, 3);
    assert_eq!(3, area.size_x);
    assert_eq!(3, area.size_y);
    assert_eq!(0, area.start_position.x);
    assert_eq!(0, area.start_position.y);
    assert_eq!(2, area.end_position.x);
    assert_eq!(2, area.end_position.y);

    // WHEN we call to see if points 0,0 - 2,2 are contained
    // THEN we expect the results to be true
    assert!(area.contains(Position { x: 0, y: 0 }));
    assert!(area.contains(Position { x: 0, y: 1 }));
    assert!(area.contains(Position { x: 0, y: 2 }));
    assert!(area.contains(Position { x: 1, y: 0 }));
    assert!(area.contains(Position { x: 1, y: 1 }));
    assert!(area.contains(Position { x: 1, y: 2 }));
    assert!(area.contains(Position { x: 2, y: 0 }));
    assert!(area.contains(Position { x: 2, y: 1 }));
    assert!(area.contains(Position { x: 2, y: 2 }));
}

#[test]
fn test_3x3_invalid_contains() {
    // GIVEN a 3x3 Area
    let area = build_square_area(Position { x: 0, y: 0 }, 3);
    assert_eq!(3, area.size_x);
    assert_eq!(3, area.size_y);
    assert_eq!(0, area.start_position.x);
    assert_eq!(0, area.start_position.y);
    assert_eq!(2, area.end_position.x);
    assert_eq!(2, area.end_position.y);

    // WHEN we call to see if points above it's range are contained
    // THEN we expect the results to be false
    assert!(!area.contains(Position { x: 3, y: 0 }));
    assert!(!area.contains(Position { x: 0, y: 3 }));
    assert!(!area.contains(Position { x: 3, y: 3 }));
}

#[test]
fn test_3x3_can_fit_2x2_at_1_1() {
    // GIVEN a 3x3 Area
    let area = build_square_area(Position { x: 0, y: 0 }, 3);

    // WHEN we call to see if the central point can fit a 2x2 area
    let can_fit = area.can_fit(Position { x: 1, y: 1 }, 2);

    // THEN we expect the result to be true
    assert_eq!(true, can_fit);
}

#[test]
fn test_3x3_can_fit_2x2_at_start() {
    // GIVEN a 3x3 Area
    let area = build_square_area(Position { x: 0, y: 0 }, 3);

    // WHEN we call to see if the start point can fit a 2x2 area
    let can_fit = area.can_fit(Position { x: 0, y: 0 }, 2);

    // THEN we expect the result to be true
    assert_eq!(true, can_fit);
}

#[test]
fn test_3x3_cannot_fit_2x2_at_end() {
    // GIVEN a 3x3 Area
    let area = build_square_area(Position { x: 0, y: 0 }, 3);

    // WHEN we call to see if the end point can fit a 2x2 area
    let can_fit = area.can_fit(Position { x: 2, y: 2 }, 4);

    // THEN we expect the result to be false
    assert_ne!(true, can_fit);
}

#[test]
fn test_3x3_cannot_fit_4x4_at_start() {
    // GIVEN a 3x3 Area
    let area = build_square_area(Position { x: 0, y: 0 }, 3);

    // WHEN we call to see if the start point can fit a 4x4 area
    let can_fit = area.can_fit(Position { x: 0, y: 0 }, 4);

    // THEN we expect the result to be false
    assert_ne!(true, can_fit);
}

#[test]
fn test_3x3_cannot_fit_zero() {
    // GIVEN a 3x3 Area
    let area = build_square_area(Position { x: 0, y: 0 }, 3);

    // WHEN we call to see if the start point can fit a zero sized area
    let can_fit = area.can_fit(Position { x: 0, y: 0 }, 0);

    // THEN we expect the result to be false
    assert_ne!(true, can_fit);
}

#[test]
fn position_test_get_sides() {
    let start_position = Position { x: 0, y: 0};
    let area = build_square_area(start_position, 3);
    let sides = area.get_sides();

    assert_eq!(4, sides.len());

    let left = sides[0];
    assert_eq!(Side::LEFT, left.side);
    assert_eq!(0, left.area.start_position.x);
    assert_eq!(0, left.area.start_position.y);
    assert_eq!(0, left.area.end_position.x);
    assert_eq!(2, left.area.end_position.y);

    let right = sides[1];
    assert_eq!(Side::RIGHT, right.side);
    assert_eq!(2, right.area.start_position.x);
    assert_eq!(0, right.area.start_position.y);
    assert_eq!(2, right.area.end_position.x);
    assert_eq!(2, right.area.end_position.y);

    let top = sides[2];
    assert_eq!(Side::TOP, top.side);
    assert_eq!(0, top.area.start_position.x);
    assert_eq!(0, top.area.start_position.y);
    assert_eq!(2, top.area.end_position.x);
    assert_eq!(0, top.area.end_position.y);

    let bottom = sides[3];
    assert_eq!(Side::BOTTOM, bottom.side);
    assert_eq!(0, bottom.area.start_position.x);
    assert_eq!(2, bottom.area.start_position.y);
    assert_eq!(2, bottom.area.end_position.x);
    assert_eq!(2, bottom.area.end_position.y);
}

#[test]
fn positions_are_listed_once_in_column_order() {
    let area = build_rectangular_area(Position { x: 2, y: 5 }, 3, 2);
    let positions = area.get_positions();
    assert_eq!(6, positions.len());
    for w in positions.windows(2) {
        let (p, q) = (w[0], w[1]);
        assert!(p.x < q.x || (p.x == q.x && p.y < q.y));
    }
    for x in 0..8u16 {
        for y in 0..10u16 {
            let p = Position { x, y };
            assert_eq!(area.contains(p), positions.contains(&p));
        }
    }
}
