use ultimate_ttt::board::{Board, BoardStatus, Move, PlayError, Player};

/// Play a move that is expected to succeed, checking beforehand that the
/// board agrees it is legal.
fn must_play(b: &mut Board, mr: usize, mc: usize, cr: usize, cc: usize, p: Player) {
    assert!(b.is_move_legal(Move::new(mr, mc, cr, cc)));
    assert_eq!(b.play(mr, mc, cr, cc, p), Ok(()));
}

fn all_microboards_as_moves() -> Vec<Move> {
    let mut v = Vec::new();
    for i in 0..3 {
        for j in 0..3 {
            v.push(Move::new(i, j, 0, 0));
        }
    }
    v
}

#[test]
fn fresh_board_free_choice() {
    // Scenario A: a fresh board offers one representative move per
    // sub-board, cell (0, 0) standing in for the free cell choice.
    let b = Board::new();
    assert_eq!(*b.get_status(), BoardStatus::InProgress);
    assert!(!b.is_won());
    let moves = b.get_available_moves();
    assert_eq!(moves.len(), 9);
    assert_eq!(moves, all_microboards_as_moves());
    assert_eq!(b.get_cells().len(), 9);
}

#[test]
fn forced_target_restricts() {
    // Scenario B: playing cell (1, 1) forces the next move into
    // sub-board (1, 1), which still has all 9 cells open.
    let mut b = Board::new();
    must_play(&mut b, 0, 0, 1, 1, Player::X);
    assert_eq!(b.get_available_moves(), vec![Move::new(1, 1, 0, 0)]);
    assert!(b.is_valid_move(1, 1));
    assert!(!b.is_valid_move(0, 0));
    for r in 0..3 {
        for c in 0..3 {
            assert!(b.is_move_legal(Move::new(1, 1, r, c)));
            assert!(!b.is_move_legal(Move::new(0, 1, r, c)));
        }
    }
    assert_eq!(b.get_cells()[4].get_available_moves().len(), 9);
}

#[test]
fn relaxation_after_terminal_target() {
    // Scenario C: drive sub-board (1, 1) to Won(O), then land a move on
    // cell coordinates (1, 1); the constraint relaxes to a free choice.
    let mut b = Board::new();
    must_play(&mut b, 1, 1, 1, 1, Player::O);
    must_play(&mut b, 1, 1, 0, 0, Player::O);
    must_play(&mut b, 0, 0, 1, 1, Player::O);
    must_play(&mut b, 1, 1, 2, 2, Player::O);
    // Diagonal (0,0)-(1,1)-(2,2) of sub-board (1, 1) is all O
    assert_eq!(*b.get_cells()[4].get_status(), BoardStatus::Won(Player::O));
    // This move's cell coordinates point at the terminal sub-board (1, 1)
    must_play(&mut b, 2, 2, 1, 1, Player::O);
    // Free choice: every in-progress sub-board is available, not just (1, 1)
    let moves = b.get_available_moves();
    assert_eq!(moves.len(), 8);
    let expected: Vec<Move> = all_microboards_as_moves()
        .into_iter()
        .filter(|m| m.get_microboard_position() != (1, 1))
        .collect();
    assert_eq!(moves, expected);
    assert!(b.is_valid_move(0, 0));
    assert!(!b.is_valid_move(1, 1));
}

#[test]
fn subboard_draw_not_forced_not_matching() {
    // Scenario D: fill sub-board (2, 2) completely without a line
    // (X,O,X / O,X,O / O,X,O). Each fill of a cell (r, c) forces the next
    // move into sub-board (r, c), where playing cell (2, 2) points back.
    let mut b = Board::new();
    let fills = [
        (0, 0, Player::X),
        (0, 1, Player::O),
        (0, 2, Player::X),
        (1, 0, Player::O),
        (1, 1, Player::X),
        (1, 2, Player::O),
        (2, 0, Player::O),
        (2, 1, Player::X),
    ];
    for &(r, c, p) in fills.iter() {
        must_play(&mut b, 2, 2, r, c, p);
        // Bounce back: the forced sub-board is (r, c); play its cell (2, 2)
        must_play(&mut b, r, c, 2, 2, if p == Player::X { Player::O } else { Player::X });
    }
    must_play(&mut b, 2, 2, 2, 2, Player::O);
    assert_eq!(*b.get_cells()[8].get_status(), BoardStatus::Draw);
    assert_eq!(*b.get_status(), BoardStatus::InProgress);

    // The drawn sub-board is never a forced target: the last move pointed
    // at (2, 2), yet the choice is free over all in-progress sub-boards.
    let moves = b.get_available_moves();
    assert_eq!(moves.len(), 8);
    assert!(!b.is_valid_move(2, 2));

    // A drawn sub-board matches no player in the global line check: drive
    // (0, 2) and (1, 2) to Won(X); the right column (0,2)-(1,2)-(2,2) still
    // completes no global line.
    must_play(&mut b, 0, 2, 0, 0, Player::X);
    must_play(&mut b, 0, 0, 0, 2, Player::X);
    must_play(&mut b, 0, 2, 0, 1, Player::X);
    must_play(&mut b, 0, 1, 0, 2, Player::X);
    must_play(&mut b, 0, 2, 0, 2, Player::X);
    assert_eq!(*b.get_cells()[2].get_status(), BoardStatus::Won(Player::X));
    must_play(&mut b, 1, 2, 0, 0, Player::X);
    must_play(&mut b, 0, 0, 1, 2, Player::X);
    must_play(&mut b, 1, 2, 0, 1, Player::X);
    must_play(&mut b, 0, 1, 1, 2, Player::X);
    must_play(&mut b, 1, 2, 0, 2, Player::X);
    assert_eq!(*b.get_cells()[5].get_status(), BoardStatus::Won(Player::X));
    assert!(!b.is_won());
    assert_eq!(*b.get_status(), BoardStatus::InProgress);
}

#[test]
fn top_row_win_ends_game() {
    // Scenario E: three sub-boards along the top row reach Won(X); the
    // global outcome becomes Won(X) and every further play is rejected.
    let mut b = Board::new();
    must_play(&mut b, 0, 0, 0, 0, Player::X);
    must_play(&mut b, 0, 0, 0, 1, Player::X);
    must_play(&mut b, 0, 1, 0, 0, Player::X);
    must_play(&mut b, 0, 0, 0, 2, Player::X);
    assert_eq!(*b.get_cells()[0].get_status(), BoardStatus::Won(Player::X));
    must_play(&mut b, 0, 2, 0, 0, Player::X);
    must_play(&mut b, 0, 1, 0, 1, Player::X);
    must_play(&mut b, 0, 1, 0, 2, Player::X);
    assert_eq!(*b.get_cells()[1].get_status(), BoardStatus::Won(Player::X));
    must_play(&mut b, 0, 2, 0, 1, Player::X);
    assert_eq!(*b.get_status(), BoardStatus::InProgress);
    must_play(&mut b, 0, 2, 0, 2, Player::X);
    assert_eq!(*b.get_cells()[2].get_status(), BoardStatus::Won(Player::X));
    assert!(b.is_won());
    assert_eq!(*b.get_status(), BoardStatus::Won(Player::X));

    // Terminal absorption: every subsequent play fails with GameAlreadyOver
    // and changes nothing.
    let snapshot = b.clone();
    assert_eq!(b.play(1, 1, 0, 0, Player::O), Err(PlayError::GameAlreadyOver));
    assert_eq!(b.play(0, 2, 1, 1, Player::X), Err(PlayError::GameAlreadyOver));
    assert_eq!(b, snapshot);
    assert!(b.get_available_moves().is_empty());
}

#[test]
fn play_succeeds_iff_legal() {
    // Legality soundness: across a mix of legal and illegal attempts, play
    // succeeds exactly when is_move_legal reported the move as legal just
    // before the call.
    let mut b = Board::new();
    let attempts = [
        (1, 1, 1, 1, Player::X), // legal, forces (1, 1) again
        (0, 0, 0, 0, Player::O), // wrong sub-board: forced target is (1, 1)
        (1, 1, 0, 2, Player::O), // legal, forces (0, 2)
        (0, 2, 5, 0, Player::X), // cell row out of range
        (3, 0, 0, 0, Player::X), // sub-board row out of range
        (0, 2, 1, 1, Player::X), // legal, forces (1, 1)
        (1, 1, 1, 1, Player::O), // cell already occupied
        (1, 1, 2, 0, Player::O), // legal
    ];
    for &(mr, mc, cr, cc, p) in attempts.iter() {
        let legal = b.is_move_legal(Move::new(mr, mc, cr, cc));
        let result = b.play(mr, mc, cr, cc, p);
        assert_eq!(result.is_ok(), legal);
        if !legal {
            assert_eq!(result, Err(PlayError::IllegalMove));
        }
    }
}

#[test]
fn out_of_range_is_illegal() {
    let mut b = Board::new();
    assert!(!b.is_move_legal(Move::new(3, 0, 0, 0)));
    assert!(!b.is_move_legal(Move::new(0, 0, 0, 7)));
    assert_eq!(b.play(3, 0, 0, 0, Player::X), Err(PlayError::IllegalMove));
    assert_eq!(b.play(0, 0, 0, 7, Player::X), Err(PlayError::IllegalMove));
    assert_eq!(*b.get_status(), BoardStatus::InProgress);
}

#[test]
fn occupied_cell_is_illegal_at_board_level() {
    let mut b = Board::new();
    must_play(&mut b, 0, 0, 0, 0, Player::X);
    // Forced back into sub-board (0, 0); its cell (0, 0) is taken
    assert_eq!(b.play(0, 0, 0, 0, Player::O), Err(PlayError::IllegalMove));
    must_play(&mut b, 0, 0, 1, 1, Player::O);
}

#[test]
fn full_game_global_draw() {
    // A complete game in which every sub-board ends terminal with the
    // won-by pattern X,O,X / O,X,O / O,X,O: no three sub-boards in a line
    // share a winner, so the global outcome is Draw.
    //
    // Sub-boards (1,0)..(2,2) are each won on row 0; between fills the
    // forced target bounces through sub-boards (0,0), (0,1) and (0,2),
    // which collect scattered marks and are won last.
    let x = Player::X;
    let o = Player::O;
    let script = [
        // Sub-board (1,0) -> Won(O)
        (1, 0, 0, 0, o),
        (0, 0, 1, 0, o),
        (1, 0, 0, 1, o),
        (0, 1, 1, 0, x),
        (1, 0, 0, 2, o),
        (0, 2, 1, 1, o),
        // Sub-board (1,1) -> Won(X)
        (1, 1, 0, 0, x),
        (0, 0, 1, 1, x),
        (1, 1, 0, 1, x),
        (0, 1, 1, 1, o),
        (1, 1, 0, 2, x),
        (0, 2, 1, 2, x),
        // Sub-board (1,2) -> Won(O)
        (1, 2, 0, 0, o),
        (0, 0, 1, 2, o),
        (1, 2, 0, 1, o),
        (0, 1, 1, 2, x),
        (1, 2, 0, 2, o),
        (0, 2, 2, 0, o),
        // Sub-board (2,0) -> Won(O)
        (2, 0, 0, 0, o),
        (0, 0, 2, 0, x),
        (2, 0, 0, 1, o),
        (0, 1, 2, 0, o),
        (2, 0, 0, 2, o),
        (0, 2, 2, 1, x),
        // Sub-board (2,1) -> Won(X)
        (2, 1, 0, 0, x),
        (0, 0, 2, 1, o),
        (2, 1, 0, 1, x),
        (0, 1, 2, 1, x),
        (2, 1, 0, 2, x),
        (0, 2, 2, 2, o),
        // Sub-board (2,2) -> Won(O)
        (2, 2, 0, 0, o),
        (0, 0, 2, 2, o),
        (2, 2, 0, 1, o),
        (0, 1, 2, 2, x),
        (2, 2, 0, 2, o),
        (0, 2, 0, 0, x),
        // Sub-boards (0,0), (0,1), (0,2) -> Won(X), Won(O), Won(X)
        (0, 0, 0, 0, x),
        (0, 0, 0, 1, x),
        (0, 1, 0, 0, o),
        (0, 0, 0, 2, x),
        (0, 2, 0, 1, x),
        (0, 1, 0, 1, o),
        (0, 1, 0, 2, o),
        (0, 2, 0, 2, x),
    ];
    let mut b = Board::new();
    for &(mr, mc, cr, cc, p) in script.iter() {
        assert_eq!(*b.get_status(), BoardStatus::InProgress);
        must_play(&mut b, mr, mc, cr, cc, p);
    }
    let expected = [
        BoardStatus::Won(Player::X),
        BoardStatus::Won(Player::O),
        BoardStatus::Won(Player::X),
        BoardStatus::Won(Player::O),
        BoardStatus::Won(Player::X),
        BoardStatus::Won(Player::O),
        BoardStatus::Won(Player::O),
        BoardStatus::Won(Player::X),
        BoardStatus::Won(Player::O),
    ];
    for (micro, want) in b.get_cells().iter().zip(expected.iter()) {
        assert_eq!(micro.get_status(), want);
    }
    assert_eq!(*b.get_status(), BoardStatus::Draw);
    assert!(!b.is_won());
    assert!(b.get_available_moves().is_empty());
    assert_eq!(b.play(0, 0, 1, 0, Player::X), Err(PlayError::GameAlreadyOver));
}

#[test]
fn update_and_set_status() {
    let mut b = Board::new();
    // Recomputing on a fresh board changes nothing: no winner, moves remain
    assert_eq!(*b.update_status(), BoardStatus::InProgress);
    assert_eq!(*b.get_status(), BoardStatus::InProgress);
    b.set_status(BoardStatus::InProgress);
    assert_eq!(*b.get_status(), BoardStatus::InProgress);
}
