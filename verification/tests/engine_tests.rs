use hnefatafl::{Board, Direction, HnefataflError, Move, Piece, Turn};
use hnefatafl::Piece::{Attacker, Defender, King};

#[test]
fn test_board() {
    let board = Board::new();

    assert_eq!(board.get_piece_unchecked(0, 0), None);
    assert_eq!(board.get_piece_unchecked(1, 0), None);
    assert_eq!(board.get_piece_unchecked(2, 0), None);
    assert_eq!(board.get_piece_unchecked(3, 0), Some(Attacker));
    assert_eq!(board.get_piece_unchecked(4, 0), Some(Attacker));
    assert_eq!(board.get_piece_unchecked(5, 0), Some(Attacker));
    assert_eq!(board.get_piece_unchecked(6, 0), Some(Attacker));
    assert_eq!(board.get_piece_unchecked(7, 0), Some(Attacker));
    assert_eq!(board.get_piece_unchecked(8, 0), None);
    assert_eq!(board.get_piece_unchecked(9, 0), None);
    assert_eq!(board.get_piece_unchecked(10, 0), None);
    assert_eq!(board.get_piece_unchecked(0, 1), None);
    assert_eq!(board.get_piece_unchecked(1, 1), None);
    assert_eq!(board.get_piece_unchecked(2, 1), None);
    assert_eq!(board.get_piece_unchecked(3, 1), None);
    assert_eq!(board.get_piece_unchecked(4, 1), None);
    assert_eq!(board.get_piece_unchecked(5, 1), Some(Attacker));
    assert_eq!(board.get_piece_unchecked(6, 1), None);
    assert_eq!(board.get_piece_unchecked(7, 1), None);
    assert_eq!(board.get_piece_unchecked(8, 1), None);
    assert_eq!(board.get_piece_unchecked(9, 1), None);
    assert_eq!(board.get_piece_unchecked(10, 1), None);
    assert_eq!(board.get_piece_unchecked(0, 2), None);
    assert_eq!(board.get_piece_unchecked(1, 2), None);
    assert_eq!(board.get_piece_unchecked(2, 2), None);
    assert_eq!(board.get_piece_unchecked(3, 2), None);
    assert_eq!(board.get_piece_unchecked(4, 2), None);
    assert_eq!(board.get_piece_unchecked(5, 2), None);
    assert_eq!(board.get_piece_unchecked(6, 2), None);
    assert_eq!(board.get_piece_unchecked(7, 2), None);
    assert_eq!(board.get_piece_unchecked(8, 2), None);
    assert_eq!(board.get_piece_unchecked(9, 2), None);
    assert_eq!(board.get_piece_unchecked(10, 2), None);
    assert_eq!(board.get_piece_unchecked(0, 3), Some(Attacker));
    assert_eq!(board.get_piece_unchecked(1, 3), None);
    assert_eq!(board.get_piece_unchecked(2, 3), None);
    assert_eq!(board.get_piece_unchecked(3, 3), None);
    assert_eq!(board.get_piece_unchecked(4, 3), None);
    assert_eq!(board.get_piece_unchecked(5, 3), Some(Defender));
    assert_eq!(board.get_piece_unchecked(6, 3), None);
    assert_eq!(board.get_piece_unchecked(7, 3), None);
    assert_eq!(board.get_piece_unchecked(8, 3), None);
    assert_eq!(board.get_piece_unchecked(9, 3), None);
    assert_eq!(board.get_piece_unchecked(10, 3), Some(Attacker));
    assert_eq!(board.get_piece_unchecked(0, 4), Some(Attacker));
    assert_eq!(board.get_piece_unchecked(1, 4), None);
    assert_eq!(board.get_piece_unchecked(2, 4), None);
    assert_eq!(board.get_piece_unchecked(3, 4), None);
    assert_eq!(board.get_piece_unchecked(4, 4), Some(Defender));
    assert_eq!(board.get_piece_unchecked(5, 4), Some(Defender));
    assert_eq!(board.get_piece_unchecked(6, 4), Some(Defender));
    assert_eq!(board.get_piece_unchecked(7, 4), None);
    assert_eq!(board.get_piece_unchecked(8, 4), None);
    assert_eq!(board.get_piece_unchecked(9, 4), None);
    assert_eq!(board.get_piece_unchecked(10, 4), Some(Attacker));
    assert_eq!(board.get_piece_unchecked(0, 5), Some(Attacker));
    assert_eq!(board.get_piece_unchecked(1, 5), Some(Attacker));
    assert_eq!(board.get_piece_unchecked(2, 5), None);
    assert_eq!(board.get_piece_unchecked(3, 5), Some(Defender));
    assert_eq!(board.get_piece_unchecked(4, 5), Some(Defender));
    assert_eq!(board.get_piece_unchecked(5, 5), Some(King));
    assert_eq!(board.get_piece_unchecked(6, 5), Some(Defender));
    assert_eq!(board.get_piece_unchecked(7, 5), Some(Defender));
    assert_eq!(board.get_piece_unchecked(8, 5), None);
    assert_eq!(board.get_piece_unchecked(9, 5), Some(Attacker));
    assert_eq!(board.get_piece_unchecked(10, 5), Some(Attacker));
    assert_eq!(board.get_piece_unchecked(0, 6), Some(Attacker));
    assert_eq!(board.get_piece_unchecked(1, 6), None);
    assert_eq!(board.get_piece_unchecked(2, 6), None);
    assert_eq!(board.get_piece_unchecked(3, 6), None);
    assert_eq!(board.get_piece_unchecked(4, 6), Some(Defender));
    assert_eq!(board.get_piece_unchecked(5, 6), Some(Defender));
    assert_eq!(board.get_piece_unchecked(6, 6), Some(Defender));
    assert_eq!(board.get_piece_unchecked(7, 6), None);
    assert_eq!(board.get_piece_unchecked(8, 6), None);
    assert_eq!(board.get_piece_unchecked(9, 6), None);
    assert_eq!(board.get_piece_unchecked(10, 6), Some(Attacker));
    assert_eq!(board.get_piece_unchecked(0, 7), Some(Attacker));
    assert_eq!(board.get_piece_unchecked(1, 7), None);
    assert_eq!(board.get_piece_unchecked(2, 7), None);
    assert_eq!(board.get_piece_unchecked(3, 7), None);
    assert_eq!(board.get_piece_unchecked(4, 7), None);
    assert_eq!(board.get_piece_unchecked(5, 7), Some(Defender));
    assert_eq!(board.get_piece_unchecked(6, 7), None);
    assert_eq!(board.get_piece_unchecked(7, 7), None);
    assert_eq!(board.get_piece_unchecked(8, 7), None);
    assert_eq!(board.get_piece_unchecked(9, 7), None);
    assert_eq!(board.get_piece_unchecked(10, 7), Some(Attacker));
    assert_eq!(board.get_piece_unchecked(0, 8), None);
    assert_eq!(board.get_piece_unchecked(1, 8), None);
    assert_eq!(board.get_piece_unchecked(2, 8), None);
    assert_eq!(board.get_piece_unchecked(3, 8), None);
    assert_eq!(board.get_piece_unchecked(4, 8), None);
    assert_eq!(board.get_piece_unchecked(5, 8), None);
    assert_eq!(board.get_piece_unchecked(6, 8), None);
    assert_eq!(board.get_piece_unchecked(7, 8), None);
    assert_eq!(board.get_piece_unchecked(8, 8), None);
    assert_eq!(board.get_piece_unchecked(9, 8), None);
    assert_eq!(board.get_piece_unchecked(10, 8), None);
    assert_eq!(board.get_piece_unchecked(0, 9), None);
    assert_eq!(board.get_piece_unchecked(1, 9), None);
    assert_eq!(board.get_piece_unchecked(2, 9), None);
    assert_eq!(board.get_piece_unchecked(3, 9), None);
    assert_eq!(board.get_piece_unchecked(4, 9), None);
    assert_eq!(board.get_piece_unchecked(5, 9), Some(Attacker));
    assert_eq!(board.get_piece_unchecked(6, 9), None);
    assert_eq!(board.get_piece_unchecked(7, 9), None);
    assert_eq!(board.get_piece_unchecked(8, 9), None);
    assert_eq!(board.get_piece_unchecked(9, 9), None);
    assert_eq!(board.get_piece_unchecked(10, 9), None);
    assert_eq!(board.get_piece_unchecked(0, 10), None);
    assert_eq!(board.get_piece_unchecked(1, 10), None);
    assert_eq!(board.get_piece_unchecked(2, 10), None);
    assert_eq!(board.get_piece_unchecked(3, 10), Some(Attacker));
    assert_eq!(board.get_piece_unchecked(4, 10), Some(Attacker));
    assert_eq!(board.get_piece_unchecked(5, 10), Some(Attacker));
    assert_eq!(board.get_piece_unchecked(6, 10), Some(Attacker));
    assert_eq!(board.get_piece_unchecked(7, 10), Some(Attacker));
    assert_eq!(board.get_piece_unchecked(8, 10), None);
    assert_eq!(board.get_piece_unchecked(9, 10), None);
    assert_eq!(board.get_piece_unchecked(10, 10), None);
}

#[test]
fn test_move_unchecked() {
    let mut board = Board::new();

    board.move_piece_uncheced(0, 7, 5, 7);

    assert_eq!(board.get_piece_unchecked(0, 7), None);
    assert_eq!(board.get_piece_unchecked(5, 7), Some(Attacker));
}

#[test]
fn test_move() {
    let mut board = Board::new();

    assert_eq!(
        board.move_piece(1, 7, 4, 7),
        Err(HnefataflError::NoPieceToMove)
    );

    assert_eq!(
        board.move_piece(0, 3, 0, 0),
        Err(HnefataflError::IsProtectedTile)
    );

    assert_eq!(
        board.move_piece(0, 7, 3, 9),
        Err(HnefataflError::MoveNotHorVer)
    );

    assert_eq!(
        board.move_piece(0, 7, -2, 7),
        Err(HnefataflError::TargetOutOfBounds)
    );

    assert_eq!(
        board.move_piece(0, 7, 0, 11),
        Err(HnefataflError::TargetOutOfBounds)
    );

    assert_eq!(
        board.move_piece(-4, 7, 3, 7),
        Err(HnefataflError::StartOutOfBounds)
    );

    assert_eq!(
        board.move_piece(0, 19, 0, 7),
        Err(HnefataflError::StartOutOfBounds)
    );

    assert_eq!(
        board.move_piece(0, 7, 5, 7),
        Err(HnefataflError::PieceInTheWay)
    );

    assert_eq!(
        board.move_piece(3, 5, 2, 5),
        Err(HnefataflError::WrongPieceColor)
    );

    // an accepted move with zero captures, packed
    let expected = Move::from(0, 7, 4, 7).unwrap().compact();
    assert_eq!(board.move_piece(0, 7, 4, 7), Ok(expected));
    assert_eq!(board.get_piece_unchecked(0, 7), None);
    assert_eq!(board.get_piece_unchecked(4, 7), Some(Attacker));
    assert_eq!(board.get_piece_checked(0, 7), None);
    assert_eq!(board.get_piece_checked(4, 7), Some(Attacker));
}

#[test]
fn normal_capture() {
    // Setup board
    let mut board = Board::empty();
    board.place_piece(Attacker, 3, 3);
    board.place_piece(Attacker, 5, 7);
    board.place_piece(Defender, 4, 3);

    // Expected board
    let mut expected_board = Board::empty();
    expected_board.place_piece(Attacker, 3, 3);
    expected_board.place_piece(Attacker, 5, 3);
    expected_board.set_turn(Turn::White);

    // Make move
    let captured = board.move_piece(5, 7, 5, 3).unwrap();

    // Test: the defender fell, and nothing else
    assert_eq!(board, expected_board);
    let record = captured.unpack();
    assert_eq!(record.capture_count(), 1);
    assert_eq!(record.capture(0), Direction::Left);
    assert!(!record.is_win());
}

#[test]
fn capturing_with_fortress_assistance() {
    // Setup board
    let mut board = Board::empty();
    board.place_piece(Attacker, 1, 0);
    board.place_piece(Defender, 2, 3);
    board.set_turn(Turn::White);

    // Expected board
    let mut expected_board = Board::empty();
    expected_board.place_piece(Defender, 2, 0);
    expected_board.set_turn(Turn::Black);

    // Make move
    let captured = board.move_piece(2, 3, 2, 0).unwrap();

    assert_eq!(board, expected_board);
    let record = captured.unpack();
    assert_eq!(record.capture_count(), 1);
    assert_eq!(record.capture(0), Direction::Left);
    assert!(!record.is_win());
}

#[test]
fn king_being_captured() {
    // a king capture with the fortress
    // Setup board
    let mut board = Board::empty();
    board.set_turn(Turn::Black);

    board.place_piece(King, 4, 5);

    // Stationary attackers
    board.place_piece(Attacker, 4, 4);
    board.place_piece(Attacker, 4, 6);

    // The sneaky attacker
    board.place_piece(Attacker, 1, 5);

    // Expected pieces afterwards
    let mut expected_board = Board::empty();
    expected_board.place_piece(Attacker, 4, 4);
    expected_board.place_piece(Attacker, 4, 6);
    expected_board.place_piece(Attacker, 3, 5);

    // Make move
    let captured = board.move_piece(1, 5, 3, 5).unwrap();

    // The grids agree cell for cell
    for x in 0..11 {
        for y in 0..11 {
            assert_eq!(
                board.get_piece_checked(x, y),
                expected_board.get_piece_checked(x, y)
            );
        }
    }
    // A winning move keeps the turn and sets the won flag for good
    assert_eq!(board.get_turn(), Turn::Black);
    assert!(board.is_won());
    let record = captured.unpack();
    assert_eq!(record.capture_count(), 1);
    assert_eq!(record.capture(0), Direction::Right);
    assert!(record.is_win());
}

#[test]
fn available_moves_from_king_include_fortress() {
    let mut board = Board::empty();
    board.set_turn(Turn::White);
    board.place_piece(King, 0, 5);
    board.place_piece(Attacker, 3, 5);
    board.place_piece(Defender, 0, 9);

    let mut expected_moves = vec![
        (0, 0),
        (0, 1),
        (0, 2),
        (0, 3),
        (0, 4),
        (0, 6),
        (0, 7),
        (0, 8),
        (1, 5),
        (2, 5),
    ];

    let available_moves = board.moves_from(0, 5);

    assert_eq!(available_moves.len(), expected_moves.len());

    for expected_move in expected_moves.drain(..) {
        assert!(available_moves.contains(&expected_move));
    }
}

#[test]
fn available_moves_from_defender_exclude_fortress() {
    let mut board = Board::empty();
    board.set_turn(Turn::White);
    board.place_piece(King, 0, 5);
    board.place_piece(Attacker, 3, 5);
    board.place_piece(Defender, 0, 9);

    let mut expected_moves = vec![
        (0, 8),
        (0, 7),
        (0, 6),
        (1, 9),
        (2, 9),
        (3, 9),
        (4, 9),
        (5, 9),
        (6, 9),
        (7, 9),
        (8, 9),
        (9, 9),
        (10, 9),
    ];

    let available_moves = board.moves_from(0, 9);

    assert_eq!(available_moves.len(), expected_moves.len());

    for expected_move in expected_moves.drain(..) {
        assert!(available_moves.contains(&expected_move));
    }
}

#[test]
fn available_moves_for_defender() {
    let mut board = Board::empty();
    board.set_turn(Turn::White);
    board.place_piece(King, 0, 5);
    board.place_piece(Attacker, 3, 5);
    board.place_piece(Defender, 0, 9);

    let expected_moves_defender = vec![
        (0, 8),
        (0, 7),
        (0, 6),
        (1, 9),
        (2, 9),
        (3, 9),
        (4, 9),
        (5, 9),
        (6, 9),
        (7, 9),
        (8, 9),
        (9, 9),
        (10, 9),
    ];
    let expected_moves_king = vec![
        (0, 0),
        (0, 1),
        (0, 2),
        (0, 3),
        (0, 4),
        (0, 6),
        (0, 7),
        (0, 8),
        (1, 5),
        (2, 5),
    ];

    let expected_moves = expected_moves_defender
        .into_iter()
        .map(|(to_x, to_y)| Move::from(0, 9, to_x, to_y).unwrap())
        .chain(
            expected_moves_king
                .into_iter()
                .map(|(to_x, to_y)| Move::from(0, 5, to_x, to_y).unwrap()),
        )
        .collect::<Vec<_>>();

    let available_moves = board.available_moves();

    assert_eq!(available_moves.len(), expected_moves.len());

    for expected_move in expected_moves {
        assert!(available_moves.contains(&expected_move));
    }
}

#[test]
fn out_of_bounds_lookups_are_empty() {
    let board = Board::new();
    assert_eq!(board.get_piece_checked(-1, 5), None);
    assert_eq!(board.get_piece_checked(11, 0), None);
    assert_eq!(board.get_piece_checked(5, -1), None);
    assert_eq!(board.get_piece_checked(0, 19), None);
    assert_eq!(board.get_piece_checked(-4, -4), None);
    // and in-bounds lookups agree with the unchecked reads
    assert_eq!(board.get_piece_checked(5, 5), Some(King));
    assert_eq!(board.get_piece_checked(3, 0), Some(Attacker));

    let empty = Board::empty();
    assert_eq!(empty.get_piece_checked(-1, 5), None);
    assert_eq!(empty.get_piece_checked(11, 11), None);
    assert_eq!(empty.get_piece_checked(4, 4), None);
}

#[test]
fn won_board_refuses_every_move() {
    // the king walks to the corner fortress and wins
    let mut board = Board::empty();
    board.set_turn(Turn::White);
    board.place_piece(King, 0, 5);
    board.place_piece(Attacker, 9, 9);

    let record = board.move_piece(0, 5, 0, 0).unwrap().unpack();
    assert!(record.is_win());
    assert!(board.is_won());
    // the winning move keeps the turn
    assert_eq!(board.get_turn(), Turn::White);

    // every later rook-shaped request on real squares is refused
    assert_eq!(
        board.move_piece(9, 9, 9, 0),
        Err(HnefataflError::GameAlreadyWon)
    );
    assert_eq!(
        board.move_piece(0, 0, 0, 5),
        Err(HnefataflError::GameAlreadyWon)
    );
    assert_eq!(
        board.move_piece(10, 10, 3, 10),
        Err(HnefataflError::GameAlreadyWon)
    );
    // and the board did not change
    assert_eq!(board.get_piece_checked(0, 0), Some(King));
    assert_eq!(board.get_piece_checked(9, 9), Some(Attacker));
}

#[test]
fn zero_move_is_not_axis_aligned() {
    let mut board = Board::new();
    // (3, 0) holds an attacker and attackers move first
    assert_eq!(
        board.move_piece(3, 0, 3, 0),
        Err(HnefataflError::MoveNotHorVer)
    );
}

#[test]
fn do_move_replays_a_move() {
    let mut board = Board::new();
    let packed = board.move_piece(0, 7, 4, 7).unwrap();
    let record = packed.unpack();

    let mut replay = Board::new();
    let replayed = replay.do_move(&record).unwrap();
    assert_eq!(replayed, packed);
    assert_eq!(replay, board);

    // replaying it again finds the source square empty
    assert_eq!(replay.do_move(&record), Err(HnefataflError::NoPieceToMove));
}

#[test]
fn available_moves_on_empty_board_is_empty() {
    let board = Board::empty();
    assert!(board.available_moves().is_empty());
}

#[test]
fn too_many_captures_is_refused() {
    let mut record = Move::from(2, 2, 2, 5).unwrap();
    assert_eq!(record.add_capture(Direction::Up), Ok(()));
    assert_eq!(record.add_capture(Direction::Left), Ok(()));
    assert_eq!(record.add_capture(Direction::Right), Ok(()));
    assert_eq!(
        record.add_capture(Direction::Down),
        Err(HnefataflError::TooManyCaptures)
    );
    assert_eq!(record.capture_count(), 3);
}
