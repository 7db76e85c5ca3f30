use tictactoe::game::board::{Board, MoveError};
use tictactoe::game::player::PlayerBuilder;
use tictactoe::game::Move;

#[test]
fn can_place_once() {
    let mut builder = PlayerBuilder::new();
    let player = builder
        .new_player('x')
        .expect("Should be able to create player");
    let mut board = Board::new();

    let mov = Move::new(1, 1, &player);
    match board.make_move(mov) {
        Err(err) => {
            panic!("{:?}", err);
        }
        _ => {}
    }

    match board.get_at_pos(1, 1) {
        Ok(Some(player_found)) => {
            assert_eq!(player_found, player);
        }
        Ok(None) => {
            panic!("There should be a player here")
        }
        Err(e) => {
            panic!("{:?}", e);
        }
    }
}

#[test]
fn cant_replace() {
    let mut builder = PlayerBuilder::new();
    let player = builder
        .new_player('x')
        .expect("Should be able to create player");
    let mut board = Board::new();

    let mov = Move::new(1, 1, &player);
    match board.make_move(mov) {
        Err(err) => {
            panic!("{:?}", err);
        }
        _ => {}
    }

    let mov = Move::new(1, 1, &player);
    match board.make_move(mov) {
        Ok(_) => {
            panic!("Should not be able to place here again");
        }
        Err(MoveError::OutOfBounds(_, _)) => {
            panic!("Incorrect error type")
        }
        _ => { /* intended behavior */ }
    }
}

#[test]
fn out_of_bounds_check() {
    let mut builder = PlayerBuilder::new();
    let player = builder
        .new_player('x')
        .expect("Should be able to create player");
    let mut board = Board::new();

    let mov = Move::new(3, 3, &player);
    match board.make_move(mov) {
        Err(MoveError::OutOfBounds(_, _)) => {}
        Err(_) => {
            panic!("Should return out of bounds error");
        }
        Ok(_) => {
            panic!("Should not be able to place here");
        }
    }
}

#[test]
fn out_of_bounds_reports_coordinates_and_leaves_board_unchanged() {
    let mut builder = PlayerBuilder::new();
    let player = builder.new_player('x').expect("player");
    let mut board = Board::new();

    for (x, y) in [(3u8, 0u8), (0, 3), (3, 3), (200, 1), (1, 255)] {
        match board.make_move(Move::new(x, y, &player)) {
            Err(MoveError::OutOfBounds(rx, ry)) => {
                assert_eq!((rx, ry), (x, y));
            }
            other => panic!("expected out of bounds, got {:?}", other),
        }
    }
    assert_eq!(board.filled_positions(), 0);
    for y in 0..3u8 {
        for x in 0..3u8 {
            assert_eq!(board.get_at_pos(x, y), Ok(None));
        }
    }
}

#[test]
fn occupied_cell_reports_occupant_and_leaves_board_unchanged() {
    let mut builder = PlayerBuilder::new();
    let p1 = builder.new_player('x').expect("player");
    let p2 = builder.new_player('o').expect("player");
    let mut board = Board::new();

    board
        .make_move(Move::new(2, 0, &p1))
        .expect("empty cell takes a move");
    match board.make_move(Move::new(2, 0, &p2)) {
        Err(MoveError::PositionAlreadyFilled(occupant)) => {
            assert_eq!(occupant, p1);
            assert_eq!(occupant.get_symbol(), 'x');
        }
        other => panic!("expected position already filled, got {:?}", other),
    }
    assert_eq!(board.filled_positions(), 1);
    assert_eq!(board.get_at_pos(2, 0), Ok(Some(p1)));
}

#[test]
fn successful_move_fills_exactly_one_cell() {
    let mut builder = PlayerBuilder::new();
    let player = builder.new_player('x').expect("player");
    let mut board = Board::new();

    let result = board.make_move(Move::new(1, 2, &player));
    assert!(matches!(result, Ok(None)));

    let mut filled = 0;
    for y in 0..3u8 {
        for x in 0..3u8 {
            match board.get_at_pos(x, y) {
                Ok(Some(p)) => {
                    filled += 1;
                    assert_eq!((x, y), (1, 2));
                    assert_eq!(p, player);
                }
                Ok(None) => {}
                Err(e) => panic!("{:?}", e),
            }
        }
    }
    assert_eq!(filled, 1);
    assert_eq!(board.filled_positions(), 1);
}

#[test]
fn column_win_on_third_move() {
    let mut builder = PlayerBuilder::new();
    let px = builder.new_player('x').expect("player");
    let po = builder.new_player('o').expect("player");
    let mut board = Board::new();

    assert!(matches!(board.make_move(Move::new(0, 0, &px)), Ok(None)));
    assert!(matches!(board.make_move(Move::new(1, 0, &po)), Ok(None)));
    assert!(matches!(board.make_move(Move::new(0, 1, &px)), Ok(None)));
    assert!(matches!(board.make_move(Move::new(1, 1, &po)), Ok(None)));
    match board.make_move(Move::new(0, 2, &px)) {
        Ok(Some(winner)) => assert_eq!(winner.0, px),
        other => panic!("expected a winner, got {:?}", other),
    }
}

#[test]
fn row_win_detected() {
    let mut builder = PlayerBuilder::new();
    let px = builder.new_player('x').expect("player");
    let po = builder.new_player('o').expect("player");
    let mut board = Board::new();

    assert!(matches!(board.make_move(Move::new(0, 1, &px)), Ok(None)));
    assert!(matches!(board.make_move(Move::new(0, 0, &po)), Ok(None)));
    assert!(matches!(board.make_move(Move::new(1, 1, &px)), Ok(None)));
    assert!(matches!(board.make_move(Move::new(1, 0, &po)), Ok(None)));
    match board.make_move(Move::new(2, 1, &px)) {
        Ok(Some(winner)) => assert_eq!(winner.0, px),
        other => panic!("expected a winner, got {:?}", other),
    }
}

#[test]
fn main_diagonal_win_detected() {
    let mut builder = PlayerBuilder::new();
    let px = builder.new_player('x').expect("player");
    let mut board = Board::new();

    assert!(matches!(board.make_move(Move::new(0, 0, &px)), Ok(None)));
    assert!(matches!(board.make_move(Move::new(1, 1, &px)), Ok(None)));
    match board.make_move(Move::new(2, 2, &px)) {
        Ok(Some(winner)) => assert_eq!(winner.0, px),
        other => panic!("expected a winner, got {:?}", other),
    }
}

#[test]
fn anti_diagonal_win_detected() {
    let mut builder = PlayerBuilder::new();
    let px = builder.new_player('x').expect("player");
    let mut board = Board::new();

    assert!(matches!(board.make_move(Move::new(0, 2, &px)), Ok(None)));
    assert!(matches!(board.make_move(Move::new(1, 1, &px)), Ok(None)));
    match board.make_move(Move::new(2, 0, &px)) {
        Ok(Some(winner)) => assert_eq!(winner.0, px),
        other => panic!("expected a winner, got {:?}", other),
    }
}

#[test]
fn mixed_diagonal_yields_no_winner() {
    let mut builder = PlayerBuilder::new();
    let px = builder.new_player('x').expect("player");
    let po = builder.new_player('o').expect("player");
    let mut board = Board::new();

    assert!(matches!(board.make_move(Move::new(0, 0, &px)), Ok(None)));
    assert!(matches!(board.make_move(Move::new(1, 1, &po)), Ok(None)));
    assert!(matches!(board.make_move(Move::new(2, 2, &px)), Ok(None)));
}

#[test]
fn open_positions_track_empty_cells() {
    let mut builder = PlayerBuilder::new();
    let player = builder.new_player('x').expect("player");
    let mut board = Board::new();

    let open = board.get_open_positions();
    assert_eq!(open.len(), 9);
    assert!(open.contains(&(1, 1)));

    board
        .make_move(Move::new(1, 1, &player))
        .expect("empty cell takes a move");
    let open = board.get_open_positions();
    assert_eq!(open.len(), 8);
    assert!(!open.contains(&(1, 1)));
    assert!(open.contains(&(0, 0)));
    assert!(open.contains(&(2, 2)));
}
