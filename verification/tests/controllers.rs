use tictactoe::game::controllers::{Direction, FindNearPosition, RelativeDirection};

#[test]
fn relative_position_correct() {
    let point = (1u8, 1u8);
    // Same
    let position = point.direction_to(&(1, 1));
    assert_eq!(position, (None, None));

    // Left
    let position = point.direction_to(&(0, 1));
    assert_eq!(position, (Some(Direction::Left), None));

    // Right
    let position = point.direction_to(&(2, 1));
    assert_eq!(position, (Some(Direction::Right), None));

    // Up
    let position = point.direction_to(&(1, 0));
    assert_eq!(position, (None, Some(Direction::Up)));

    // Down
    let position = point.direction_to(&(1, 2));
    assert_eq!(position, (None, Some(Direction::Down)));

    // Up and Left
    let position = point.direction_to(&(0, 0));
    assert_eq!(position, (Some(Direction::Left), Some(Direction::Up)));

    // Up and Right
    let position = point.direction_to(&(2, 0));
    assert_eq!(position, (Some(Direction::Right), Some(Direction::Up)));

    // Down and Left
    let position = point.direction_to(&(0, 2));
    assert_eq!(position, (Some(Direction::Left), Some(Direction::Down)));

    // Down and Right
    let position = point.direction_to(&(2, 2));
    assert_eq!(position, (Some(Direction::Right), Some(Direction::Down)));
}

#[test]
fn nearest_position() {
    let start: (u8, u8) = (1, 1);
    let positions: Vec<(u8, u8)> = vec![(1, 1), (2, 1), (2, 0)];

    let nearest = positions.nearest_position(&start, Direction::Right);
    assert_eq!(nearest, (2, 1));

    let positions: Vec<(u8, u8)> = vec![(1, 1), (2, 1), (2, 0)];
    let nearest = positions.nearest_position(&start, Direction::Left);
    assert_eq!(nearest, start);
}

#[test]
fn nearest_position_prefers_earlier_on_ties() {
    let start: (u8, u8) = (1, 1);
    // (2, 0) and (0, 0) are equally far from (1, 1); (2, 0) comes first.
    let positions: Vec<(u8, u8)> = vec![(2, 0), (0, 0)];
    let nearest = positions.nearest_position(&start, Direction::Up);
    assert_eq!(nearest, (2, 0));

    // A strictly nearer candidate wins even when listed later.
    let positions: Vec<(u8, u8)> = vec![(0, 0), (0, 1)];
    let nearest = positions.nearest_position(&start, Direction::Left);
    assert_eq!(nearest, (0, 1));
}
