use hnefatafl::{Command, CommandError, HnefataflError, Move, Turn};

fn test_to_from(c: Command, n: usize) {
    let mut bytes = vec![0u8; n];
    let count = c.to_binary(&mut bytes).unwrap();
    let c2 = Command::from_binary(&bytes).unwrap();

    let bytes2 = c2.to_binary_vec();
    let c3 = Command::from_binary(&bytes2).unwrap();

    assert_eq!(count, bytes2.len());
    assert_eq!(&c2, &c3);

    assert_eq!(count, n);
    assert_eq!(c, c2);
}

#[test]
fn test_moves() {
    test_to_from(Command::Move(Move::from(0, 0, 1, 0).unwrap().compact()), 5);
    test_to_from(Command::IllegalMove(HnefataflError::PieceInTheWay), 2);

    test_to_from(
        Command::MoveList(vec![
            Move::from(0, 0, 1, 0).unwrap().compact(),
            Move::from(0, 0, 2, 0).unwrap().compact(),
            Move::from(0, 0, 3, 0).unwrap().compact(),
            Move::from(0, 0, 4, 0).unwrap().compact(),
        ]),
        2 + 4 * 4,
    );
    test_to_from(Command::Username("test".to_string()), 6);
    test_to_from(Command::RequestHistory, 1);
    test_to_from(Command::ColorSelect(Turn::White), 2);
    test_to_from(Command::Reset, 1);
    test_to_from(Command::Observer, 1);

    test_to_from(Command::IllegalCommand, 1);
}

#[test]
fn every_error_code_round_trips() {
    let errors = vec![
        (HnefataflError::NoPieceToMove, 0u8),
        (HnefataflError::PieceInTheWay, 1),
        (HnefataflError::StartOutOfBounds, 2),
        (HnefataflError::TargetOutOfBounds, 3),
        (HnefataflError::MoveNotHorVer, 4),
        (HnefataflError::WrongPieceColor, 5),
        (HnefataflError::IsProtectedTile, 6),
        (HnefataflError::TooManyCaptures, 7),
        (HnefataflError::GameAlreadyWon, 8),
        (HnefataflError::OtherError(String::new()), 9),
    ];
    for (e, code) in errors {
        let bytes = Command::IllegalMove(e.clone()).to_binary_vec();
        assert_eq!(bytes, vec![1u8, code]);
        assert_eq!(Command::from_binary(&bytes), Ok(Command::IllegalMove(e)));
    }
}

#[test]
fn other_error_detail_is_not_carried() {
    // the one-byte code cannot hold the detail text: it parses back empty
    let c = Command::IllegalMove(HnefataflError::OtherError("boom".to_string()));
    let bytes = c.to_binary_vec();
    assert_eq!(bytes, vec![1u8, 9u8]);
    assert_eq!(
        Command::from_binary(&bytes),
        Ok(Command::IllegalMove(HnefataflError::OtherError(
            String::new()
        )))
    );
}

#[test]
fn exact_wire_bytes() {
    assert_eq!(
        Command::Username("ab".to_string()).to_binary_vec(),
        vec![3u8, 2, 97, 98]
    );
    assert_eq!(Command::RequestHistory.to_binary_vec(), vec![4u8]);
    assert_eq!(
        Command::ColorSelect(Turn::White).to_binary_vec(),
        vec![5u8, 0]
    );
    assert_eq!(
        Command::ColorSelect(Turn::Black).to_binary_vec(),
        vec![5u8, 1]
    );
    assert_eq!(Command::Reset.to_binary_vec(), vec![6u8]);
    assert_eq!(Command::Observer.to_binary_vec(), vec![7u8]);
    assert_eq!(Command::IllegalCommand.to_binary_vec(), vec![255u8]);

    let cm = Move::from(3, 4, 3, 9).unwrap().compact();
    let mut expected = vec![0u8, 0x43, 0x16, 0x00, 0x00];
    assert_eq!(Command::Move(cm).to_binary_vec(), expected);

    expected = vec![2u8, 2, 0x43, 0x16, 0, 0, 0x43, 0x16, 0, 0];
    assert_eq!(Command::MoveList(vec![cm, cm]).to_binary_vec(), expected);
}

#[test]
fn unicode_username_round_trips() {
    let name = "Hrafn \u{00e1} Skip\u{00f0}i \u{2694}".to_string();
    let bytes = Command::Username(name.clone()).to_binary_vec();
    assert_eq!(
        Command::from_binary(&bytes),
        Ok(Command::Username(name))
    );
}

#[test]
fn parse_failures_collapse_to_parse_error() {
    // empty input
    assert_eq!(
        Command::from_binary(&[]),
        Err(CommandError::ParseError)
    );
    // unknown tag
    assert_eq!(
        Command::from_binary(&[9u8]),
        Err(CommandError::ParseError)
    );
    // truncated payloads
    assert_eq!(
        Command::from_binary(&[0u8, 1, 2]),
        Err(CommandError::ParseError)
    );
    assert_eq!(
        Command::from_binary(&[1u8]),
        Err(CommandError::ParseError)
    );
    assert_eq!(
        Command::from_binary(&[2u8, 2, 0, 0, 0, 0]),
        Err(CommandError::ParseError)
    );
    assert_eq!(
        Command::from_binary(&[3u8, 5, 97]),
        Err(CommandError::ParseError)
    );
    // trailing bytes
    assert_eq!(
        Command::from_binary(&[4u8, 0]),
        Err(CommandError::ParseError)
    );
    assert_eq!(
        Command::from_binary(&[6u8, 6]),
        Err(CommandError::ParseError)
    );
    // unknown side and error codes
    assert_eq!(
        Command::from_binary(&[5u8, 7]),
        Err(CommandError::ParseError)
    );
    assert_eq!(
        Command::from_binary(&[1u8, 200]),
        Err(CommandError::ParseError)
    );
    // a name that is not UTF-8
    assert_eq!(
        Command::from_binary(&[3u8, 1, 0xff]),
        Err(CommandError::ParseError)
    );
}

#[test]
fn short_buffer_reports_both_lengths() {
    let cm = Move::from(0, 0, 1, 0).unwrap().compact();
    let mut small = vec![0u8; 3];
    assert_eq!(
        Command::Move(cm).to_binary(&mut small),
        Err(CommandError::TooFewBytes(3, 5))
    );
    // the buffer is untouched on failure
    assert_eq!(small, vec![0u8; 3]);

    let mut empty: Vec<u8> = Vec::new();
    assert_eq!(
        Command::Reset.to_binary(&mut empty),
        Err(CommandError::TooFewBytes(0, 1))
    );
}

#[test]
fn oversized_buffer_keeps_its_tail() {
    let mut buffer = vec![0xaau8; 8];
    let written = Command::ColorSelect(Turn::Black).to_binary(&mut buffer).unwrap();
    assert_eq!(written, 2);
    assert_eq!(buffer, vec![5u8, 1, 0xaa, 0xaa, 0xaa, 0xaa, 0xaa, 0xaa]);
}

#[test]
fn oversized_payloads_are_refused() {
    let long_name: String = std::iter::repeat('x').take(300).collect();
    let c = Command::Username(long_name);
    let mut buffer = vec![0u8; 400];
    assert_eq!(c.to_binary(&mut buffer), Err(CommandError::ParseError));
    assert_eq!(c.to_binary_vec(), Vec::<u8>::new());

    let cm = Move::from(0, 0, 1, 0).unwrap().compact();
    let list = Command::MoveList(vec![cm; 300]);
    assert_eq!(list.to_binary_vec(), Vec::<u8>::new());
}

#[test]
fn move_list_round_trips_through_a_board() {
    // a packed move produced by the engine survives the wire
    let mut board = hnefatafl::Board::new();
    let packed = board.move_piece(0, 7, 4, 7).unwrap();
    let bytes = Command::Move(packed).to_binary_vec();
    match Command::from_binary(&bytes) {
        Ok(Command::Move(received)) => {
            let mut peer = hnefatafl::Board::new();
            let replayed = peer.do_move(&received.unpack()).unwrap();
            assert_eq!(replayed, packed);
            assert_eq!(peer, board);
        }
        other => panic!("unexpected parse result: {:?}", other),
    }
}
