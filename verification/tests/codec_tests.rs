use hnefatafl::{Direction, Move};

#[test]
fn packed_fields_have_fixed_offsets() {
    // x = 3, y = 4, direction Down (code 2), delta = 5, no captures, no win:
    // 3 | 4 << 4 | 2 << 8 | 5 << 10 = 0x1643, little-endian on the wire
    let record = Move::from(3, 4, 3, 9).unwrap();
    assert_eq!(record.direction(), Direction::Down);
    assert_eq!(record.delta(), 5);
    let packed = record.compact();
    assert_eq!(packed.to_le_bytes(), [0x43, 0x16, 0x00, 0x00]);
}

#[test]
fn pack_unpack_round_trip_plain_move() {
    let record = Move::from(10, 2, 0, 2).unwrap();
    assert_eq!(record.direction(), Direction::Left);
    assert_eq!(record.delta(), 10);
    let again = record.compact().unpack();
    assert_eq!(again, record);
}

#[test]
fn pack_unpack_round_trip_with_captures_and_win() {
    let mut record = Move::from(7, 7, 7, 3).unwrap();
    record.add_capture(Direction::Left).unwrap();
    record.add_capture(Direction::Down).unwrap();
    record.add_capture(Direction::Right).unwrap();
    record.set_win();
    let again = record.compact().unpack();
    assert_eq!(again, record);
    assert_eq!(again.capture_count(), 3);
    assert_eq!(again.capture(0), Direction::Left);
    assert_eq!(again.capture(1), Direction::Down);
    assert_eq!(again.capture(2), Direction::Right);
    assert!(again.is_win());
    assert_eq!(again.x(), 7);
    assert_eq!(again.y(), 7);
    assert_eq!(again.direction(), Direction::Up);
    assert_eq!(again.delta(), 4);
}

#[test]
fn move_from_rejects_diagonal_and_zero_moves() {
    assert!(Move::from(1, 1, 2, 2).is_err());
    assert!(Move::from(4, 4, 4, 4).is_err());
    assert!(Move::from(0, 0, 10, 1).is_err());
    assert!(Move::from(0, 0, 0, 1).is_ok());
}
