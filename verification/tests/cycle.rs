use tictactoe::game::controllers::ScriptedController;
use tictactoe::game::cycle::GameCycle;
use tictactoe::game::player::PlayerBuilder;

// Both controllers follow the same script and pass over entries whose cell is
// already taken, so whichever player the cycle starts with ends up owning the
// odd-numbered entries and the other player the even-numbered ones.

#[test]
fn cycle_ends_in_draw_after_nine_moves() {
    let script = vec![
        (0u8, 0u8),
        (1, 0),
        (2, 0),
        (1, 1),
        (0, 1),
        (2, 1),
        (1, 2),
        (0, 2),
        (2, 2),
    ];
    // The starter's cells and the follower's cells both stay line-free.
    let mut builder = PlayerBuilder::new();
    let p1 = builder.new_player('x').expect("fresh symbol");
    let p2 = builder.new_player('o').expect("fresh symbol");
    let mut cycle = GameCycle::new(
        (p1, ScriptedController::new(script.clone())),
        (p2, ScriptedController::new(script)),
    );

    let outcome = cycle.cycle();
    assert!(outcome.is_none());
    assert_eq!(cycle.board.filled_positions(), 9);
}

#[test]
fn cycle_reports_winner_of_completed_column() {
    let script = vec![(0u8, 0u8), (1, 0), (0, 1), (1, 1), (0, 2)];
    // The starter collects (0,0), (0,1) and (0,2): the left column.
    let mut builder = PlayerBuilder::new();
    let p1 = builder.new_player('x').expect("fresh symbol");
    let p2 = builder.new_player('o').expect("fresh symbol");
    let mut cycle = GameCycle::new(
        (p1, ScriptedController::new(script.clone())),
        (p2, ScriptedController::new(script)),
    );

    let outcome = cycle.cycle();
    let winner = outcome.expect("the starter completes a column");
    assert!(winner.0 == p1 || winner.0 == p2);
    assert_eq!(cycle.board.filled_positions(), 5);

    let corner = cycle
        .board
        .get_at_pos(0, 0)
        .expect("in bounds")
        .expect("occupied");
    assert_eq!(winner.0, corner);
    for y in 0..3u8 {
        let cell = cycle
            .board
            .get_at_pos(0, y)
            .expect("in bounds")
            .expect("occupied");
        assert_eq!(cell, winner.0);
    }
}

#[test]
fn rejected_entries_do_not_advance_the_turn() {
    // Both scripts open with a duplicate of the first cell: after the starter
    // takes it, the follower's first two entries aim at an occupied cell and
    // are passed over, and the follower still makes a move of its own. Turns
    // keep alternating exactly as without the rejected entries, so the
    // starter again collects the left column.
    let script = vec![(0u8, 0u8), (0, 0), (1, 0), (0, 1), (1, 1), (0, 2)];
    let mut builder = PlayerBuilder::new();
    let p1 = builder.new_player('x').expect("fresh symbol");
    let p2 = builder.new_player('o').expect("fresh symbol");
    let mut cycle = GameCycle::new(
        (p1, ScriptedController::new(script.clone())),
        (p2, ScriptedController::new(script)),
    );

    let outcome = cycle.cycle();
    let winner = outcome.expect("the starter completes a column");
    assert_eq!(cycle.board.filled_positions(), 5);

    let starter = cycle
        .board
        .get_at_pos(0, 0)
        .expect("in bounds")
        .expect("occupied");
    let follower = if starter == p1 { p2 } else { p1 };
    assert_eq!(winner.0, starter);
    for y in 0..3u8 {
        let cell = cycle
            .board
            .get_at_pos(0, y)
            .expect("in bounds")
            .expect("occupied");
        assert_eq!(cell, starter);
    }
    for y in [0u8, 1] {
        let cell = cycle
            .board
            .get_at_pos(1, y)
            .expect("in bounds")
            .expect("occupied");
        assert_eq!(cell, follower);
    }
}
