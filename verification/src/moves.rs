//! The move record and its lossless bit-packed encoding.
//!
//! A [`Move`] describes one ray-move: origin, direction, distance, up to three
//! capture directions recorded as side effects, and a win flag. A
//! [`CompactMove`] packs all of that into a single `u32` for cheap storage and
//! transmission; `lemma_pack_unpack` states the round-trip law.

use crate::pieces::{dir_code, dir_of_code, Direction, HnefataflError};
use vstd::prelude::*;

verus! {

/// Ghost description of a move record. `captures` always holds the three raw
/// capture slots; only the first `capture_count` of them are meaningful, the
/// rest are padding (`Direction::Up`).
#[verifier::ext_equal]
pub struct MoveModel {
    pub x: i32,
    pub y: i32,
    pub direction: Direction,
    pub delta: i32,
    pub capture_count: int,
    pub captures: Seq<Direction>,
    pub is_win: bool,
}

/// One ray-move: origin, direction, positive distance, the directions of the
/// captures it caused, and whether it ended the game.
#[derive(Debug, Clone, PartialEq)]
pub struct Move {
    x: i32,
    y: i32,
    direction: Direction,
    delta: i32,
    capture_count: u32,
    capture0: Direction,
    capture1: Direction,
    capture2: Direction,
    is_win: bool,
}

impl View for Move {
    type V = MoveModel;

    closed spec fn view(&self) -> MoveModel {
        MoveModel {
            x: self.x,
            y: self.y,
            direction: self.direction,
            delta: self.delta,
            capture_count: self.capture_count as int,
            captures: seq![self.capture0, self.capture1, self.capture2],
            is_win: self.is_win,
        }
    }
}

/// Every move record carries exactly three capture slots and a non-negative
/// capture count; callers need this to apply `lemma_pack_unpack` to a real
/// move's view.
pub proof fn lemma_move_view_shape(m: Move)
    ensures
        m@.captures.len() == 3,
        m@.capture_count >= 0,
{
}

/// True when exactly one of the two coordinates changes: the shape of a legal
/// rook-style move.
pub open spec fn is_axis_move(x: int, y: int, to_x: int, to_y: int) -> bool {
    (x != to_x && y == to_y) || (x == to_x && y != to_y)
}

/// The direction that leads from (x, y) to (to_x, to_y), for axis moves.
pub open spec fn move_direction(x: int, y: int, to_x: int, to_y: int) -> Direction {
    if to_y == y {
        if to_x < x {
            Direction::Left
        } else {
            Direction::Right
        }
    } else {
        if to_y < y {
            Direction::Up
        } else {
            Direction::Down
        }
    }
}

/// The distance from (x, y) to (to_x, to_y) along the move's direction;
/// positive for axis moves.
pub open spec fn move_delta(x: int, y: int, to_x: int, to_y: int) -> int {
    if to_y == y {
        if to_x < x {
            x - to_x
        } else {
            to_x - x
        }
    } else {
        if to_y < y {
            y - to_y
        } else {
            to_y - y
        }
    }
}

/// The record `Move::from` produces for an axis move: no captures yet, the
/// slots padded with `Direction::Up`, no win.
pub open spec fn fresh_move(x: int, y: int, to_x: int, to_y: int) -> MoveModel {
    MoveModel {
        x: x as i32,
        y: y as i32,
        direction: move_direction(x, y, to_x, to_y),
        delta: move_delta(x, y, to_x, to_y) as i32,
        capture_count: 0,
        captures: seq![Direction::Up, Direction::Up, Direction::Up],
        is_win: false,
    }
}

impl Move {
    /// Normalise a source and target square into a move record, or reject a
    /// pair that is not a rook-style move (this covers the zero move, where
    /// neither coordinate changes).
    pub fn from(x: i32, y: i32, to_x: i32, to_y: i32) -> (r: Result<Move, HnefataflError>)
        requires
            -0x7fff_ffff <= to_x - x <= 0x7fff_ffff,
            -0x7fff_ffff <= to_y - y <= 0x7fff_ffff,
        ensures
            is_axis_move(x as int, y as int, to_x as int, to_y as int) ==> (r matches Ok(m)
                && m@ == fresh_move(x as int, y as int, to_x as int, to_y as int)),
            !is_axis_move(x as int, y as int, to_x as int, to_y as int) ==> r == Err::<
                Move,
                HnefataflError,
            >(HnefataflError::MoveNotHorVer),
    {
        let direction = if to_y == y && to_x < x {
            Direction::Left
        } else if to_y == y && to_x > x {
            Direction::Right
        } else if to_x == x && to_y < y {
            Direction::Up
        } else if to_x == x && to_y > y {
            Direction::Down
        } else {
            return Err(HnefataflError::MoveNotHorVer);
        };
        let delta = match direction {
            Direction::Left => x - to_x,
            Direction::Right => to_x - x,
            Direction::Up => y - to_y,
            Direction::Down => to_y - y,
        };
        let m = Move {
            x,
            y,
            direction,
            delta,
            capture_count: 0,
            capture0: Direction::Up,
            capture1: Direction::Up,
            capture2: Direction::Up,
            is_win: false,
        };
        proof {
            assert(m@ =~= fresh_move(x as int, y as int, to_x as int, to_y as int));
        }
        Ok(m)
    }

    /// Mark this move as having ended the game.
    pub fn set_win(&mut self)
        ensures
            final(self)@ == (MoveModel { is_win: true, ..old(self)@ }),
    {
        self.is_win = true;
        proof {
            assert(final(self)@ =~= (MoveModel { is_win: true, ..old(self)@ }));
        }
    }

    /// Record one more capture direction, or refuse once all three slots are
    /// taken.
    pub fn add_capture(&mut self, capture_direction: Direction) -> (r: Result<
        (),
        HnefataflError,
    >)
        ensures
            old(self)@.capture_count < 3 ==> (r is Ok && final(self)@ == (MoveModel {
                capture_count: old(self)@.capture_count + 1,
                captures: old(self)@.captures.update(old(self)@.capture_count, capture_direction),
                ..old(self)@
            })),
            old(self)@.capture_count >= 3 ==> (r == Err::<(), HnefataflError>(
                HnefataflError::TooManyCaptures,
            ) && *final(self) == *old(self)),
    {
        if self.capture_count == 0 {
            self.capture0 = capture_direction;
            self.capture_count = 1;
        } else if self.capture_count == 1 {
            self.capture1 = capture_direction;
            self.capture_count = 2;
        } else if self.capture_count == 2 {
            self.capture2 = capture_direction;
            self.capture_count = 3;
        } else {
            return Err(HnefataflError::TooManyCaptures);
        }
        proof {
            assert(final(self)@ =~= (MoveModel {
                capture_count: old(self)@.capture_count + 1,
                captures: old(self)@.captures.update(old(self)@.capture_count, capture_direction),
                ..old(self)@
            }));
        }
        Ok(())
    }

    /// The origin column of this move.
    pub fn x(&self) -> (r: i32)
        ensures
            r == self@.x,
    {
        self.x
    }

    /// The origin row of this move.
    pub fn y(&self) -> (r: i32)
        ensures
            r == self@.y,
    {
        self.y
    }

    /// The direction of this move.
    pub fn direction(&self) -> (r: Direction)
        ensures
            r == self@.direction,
    {
        self.direction
    }

    /// The distance of this move.
    pub fn delta(&self) -> (r: i32)
        ensures
            r == self@.delta,
    {
        self.delta
    }

    /// How many captures this move caused.
    pub fn capture_count(&self) -> (r: u32)
        ensures
            r as int == self@.capture_count,
    {
        self.capture_count
    }

    /// The recorded capture direction in slot `i`; padding slots hold
    /// `Direction::Up`.
    pub fn capture(&self, i: usize) -> (r: Direction)
        requires
            i < 3,
        ensures
            r == self@.captures[i as int],
    {
        if i == 0 {
            self.capture0
        } else if i == 1 {
            self.capture1
        } else {
            self.capture2
        }
    }

    /// Whether this move ended the game.
    pub fn is_win(&self) -> (r: bool)
        ensures
            r == self@.is_win,
    {
        self.is_win
    }

    /// Pack this move into its compact wire form.
    pub fn compact(&self) -> (r: CompactMove)
        ensures
            r@ == pack_move(self@),
    {
        let xv = self.x;
        let yv = self.y;
        let dv = self.delta;
        proof {
            assert(0 <= (xv & 0b1111) < 16 && 0 <= (yv & 0b1111) < 16 && 0 <= (dv & 0b1111) < 16)
                by (bit_vector);
        }
        let xm: u32 = (xv & 0b1111) as u32;
        let ym: u32 = (yv & 0b1111) as u32;
        let dm: u32 = (dv & 0b1111) as u32;
        let dirm: u32 = self.direction.code() & 0b0011;
        let c0m: u32 = self.capture0.code() & 0b0011;
        let c1m: u32 = self.capture1.code() & 0b0011;
        let c2m: u32 = self.capture2.code() & 0b0011;
        let ccm: u32 = self.capture_count & 0b0011;
        let wm: u32 = (if self.is_win {
            1u32
        } else {
            0u32
        }) & 0b0001;
        let representation: u32 = xm | (ym << 4) | (dirm << 8) | (dm << 10) | (c0m << 14) | (c1m
            << 16) | (c2m << 18) | (ccm << 20) | (wm << 22);
        CompactMove { repr: representation }
    }
}

/// The fixed-width packed encoding of a move. The low 23 bits hold, low bit
/// first: x (4 bits), y (4), direction (2), delta (4), three capture slots
/// (2 each), capture count (2) and the win flag (1).
#[derive(Debug, PartialEq, Eq, Structural, Copy, Clone)]
pub struct CompactMove {
    repr: u32,
}

impl View for CompactMove {
    type V = u32;

    closed spec fn view(&self) -> u32 {
        self.repr
    }
}

/// Two compact moves with the same packed bits are the same value.
pub proof fn lemma_compact_move_eq(a: CompactMove, b: CompactMove)
    ensures
        a@ == b@ ==> a == b,
{
}

/// The packed form of a move record: each field truncated to its declared bit
/// width and placed at its offset.
pub open spec fn pack_move(m: MoveModel) -> u32 {
    ((m.x & 0b1111) as u32) | (((m.y & 0b1111) as u32) << 4) | ((dir_code(m.direction) & 0b0011)
        << 8) | (((m.delta & 0b1111) as u32) << 10) | ((dir_code(m.captures[0]) & 0b0011) << 14) | (
    (dir_code(m.captures[1]) & 0b0011) << 16) | ((dir_code(m.captures[2]) & 0b0011) << 18) | ((
    (m.capture_count as u32) & 0b0011) << 20) | (((if m.is_win {
        1u32
    } else {
        0u32
    }) & 0b0001) << 22)
}

/// The move record a packed value decodes to.
pub open spec fn unpack_move(v: u32) -> MoveModel {
    MoveModel {
        x: (v & 0b1111) as i32,
        y: ((v >> 4) & 0b1111) as i32,
        direction: dir_of_code((v >> 8) & 0b0011),
        delta: ((v >> 10) & 0b1111) as i32,
        capture_count: ((v >> 20) & 0b0011) as int,
        captures: seq![
            dir_of_code((v >> 14) & 0b0011),
            dir_of_code((v >> 16) & 0b0011),
            dir_of_code((v >> 18) & 0b0011),
        ],
        is_win: ((v >> 22) & 0b0001) == 1,
    }
}

/// The four little-endian bytes of a packed move, as sent on the wire.
pub open spec fn le_bytes(v: u32) -> Seq<u8> {
    seq![
        (v & 0xff) as u8,
        ((v >> 8) & 0xff) as u8,
        ((v >> 16) & 0xff) as u8,
        ((v >> 24) & 0xff) as u8,
    ]
}

/// The packed move four little-endian bytes stand for.
pub open spec fn u32_of_le(b0: u8, b1: u8, b2: u8, b3: u8) -> u32 {
    (b0 as u32) | ((b1 as u32) << 8) | ((b2 as u32) << 16) | ((b3 as u32) << 24)
}

impl CompactMove {
    /// Decode this packed value back into a move record.
    pub fn unpack(&self) -> (r: Move)
        ensures
            r@ == unpack_move(self@),
    {
        let v = self.repr;
        proof {
            assert((v >> 20) & 0b0011 < 4 && (v >> 8) & 0b0011 < 4 && (v >> 14) & 0b0011 < 4 && (v
                >> 16) & 0b0011 < 4 && (v >> 18) & 0b0011 < 4 && v & 0b1111 < 16 && (v >> 4)
                & 0b1111 < 16 && (v >> 10) & 0b1111 < 16) by (bit_vector);
        }
        let m = Move {
            x: (v & 0b1111) as i32,
            y: ((v >> 4) & 0b1111) as i32,
            direction: Direction::from_code((v >> 8) & 0b0011),
            delta: ((v >> 10) & 0b1111) as i32,
            capture_count: (v >> 20) & 0b0011,
            capture0: Direction::from_code((v >> 14) & 0b0011),
            capture1: Direction::from_code((v >> 16) & 0b0011),
            capture2: Direction::from_code((v >> 18) & 0b0011),
            is_win: ((v >> 22) & 0b0001) == 1,
        };
        proof {
            assert(m@ =~= unpack_move(self@));
        }
        m
    }

    /// The four wire bytes of this packed move, low byte first.
    pub fn to_le_bytes(&self) -> (r: [u8; 4])
        ensures
            r@ == le_bytes(self@),
    {
        let v = self.repr;
        proof {
            assert(v & 0xff < 256 && (v >> 8) & 0xff < 256 && (v >> 16) & 0xff < 256 && (v >> 24)
                & 0xff < 256) by (bit_vector);
        }
        let r = [
            (v & 0xff) as u8,
            ((v >> 8) & 0xff) as u8,
            ((v >> 16) & 0xff) as u8,
            ((v >> 24) & 0xff) as u8,
        ];
        proof {
            assert(r@ =~= le_bytes(self@));
        }
        r
    }

    /// Rebuild a packed move from its four wire bytes, low byte first.
    pub fn from_le_bytes(b0: u8, b1: u8, b2: u8, b3: u8) -> (r: CompactMove)
        ensures
            r@ == u32_of_le(b0, b1, b2, b3),
    {
        CompactMove {
            repr: (b0 as u32) | ((b1 as u32) << 8) | ((b2 as u32) << 16) | ((b3 as u32) << 24),
        }
    }
}

/// The wire bytes of a packed move decode back to it, and re-encoding four
/// bytes reproduces them: the byte layer of the codec loses nothing.
pub proof fn lemma_le_bytes_round_trip(v: u32, b0: u8, b1: u8, b2: u8, b3: u8)
    ensures
        u32_of_le((v & 0xff) as u8, ((v >> 8) & 0xff) as u8, ((v >> 16) & 0xff) as u8, ((v >> 24)
            & 0xff) as u8) == v,
        le_bytes(u32_of_le(b0, b1, b2, b3)) =~= seq![b0, b1, b2, b3],
{
    assert(((v & 0xff) as u8 as u32) | ((((v >> 8) & 0xff) as u8 as u32) << 8) | ((((v >> 16)
        & 0xff) as u8 as u32) << 16) | ((((v >> 24) & 0xff) as u8 as u32) << 24) == v)
        by (bit_vector);
    let w = u32_of_le(b0, b1, b2, b3);
    assert({
        let u = (b0 as u32) | ((b1 as u32) << 8) | ((b2 as u32) << 16) | ((b3 as u32) << 24);
        (u & 0xff) as u8 == b0 && ((u >> 8) & 0xff) as u8 == b1 && ((u >> 16) & 0xff) as u8 == b2
            && ((u >> 24) & 0xff) as u8 == b3
    }) by (bit_vector);
}

/// Round-trip law of the codec: a move record whose fields sit inside their
/// declared bit widths survives packing and unpacking unchanged.
pub proof fn lemma_pack_unpack(m: MoveModel)
    requires
        0 <= m.x < 16,
        0 <= m.y < 16,
        0 <= m.delta < 16,
        0 <= m.capture_count < 4,
        m.captures.len() == 3,
    ensures
        unpack_move(pack_move(m)) == m,
{
    let xi = m.x;
    let yi = m.y;
    let di = m.delta;
    assert(xi & 0b1111 == xi && yi & 0b1111 == yi && di & 0b1111 == di) by (bit_vector)
        requires
            0 <= xi < 16 && 0 <= yi < 16 && 0 <= di < 16,
    ;
    let xu = (m.x & 0b1111) as u32;
    let yu = (m.y & 0b1111) as u32;
    let du = (m.delta & 0b1111) as u32;
    let dc = dir_code(m.direction);
    let e0 = dir_code(m.captures[0]);
    let e1 = dir_code(m.captures[1]);
    let e2 = dir_code(m.captures[2]);
    let cci = m.capture_count as u32;
    let wu: u32 = if m.is_win {
        1u32
    } else {
        0u32
    };
    let v = pack_move(m);
    assert({
        let v = xu | (yu << 4) | ((dc & 0b0011) << 8) | (du << 10) | ((e0 & 0b0011) << 14) | ((e1
            & 0b0011) << 16) | ((e2 & 0b0011) << 18) | ((cci & 0b0011) << 20) | ((wu & 0b0001)
            << 22);
        (v & 0b1111) == xu && ((v >> 4) & 0b1111) == yu && ((v >> 8) & 0b0011) == dc && ((v >> 10)
            & 0b1111) == du && ((v >> 14) & 0b0011) == e0 && ((v >> 16) & 0b0011) == e1 && ((v
            >> 18) & 0b0011) == e2 && ((v >> 20) & 0b0011) == cci && ((v >> 22) & 0b0001) == wu
    }) by (bit_vector)
        requires
            xu < 16 && yu < 16 && dc < 4 && du < 16 && e0 < 4 && e1 < 4 && e2 < 4 && cci < 4 && wu
                < 2,
    ;
    assert(dir_of_code(dir_code(m.direction)) == m.direction);
    assert(dir_of_code(dir_code(m.captures[0])) == m.captures[0]);
    assert(dir_of_code(dir_code(m.captures[1])) == m.captures[1]);
    assert(dir_of_code(dir_code(m.captures[2])) == m.captures[2]);
    assert(unpack_move(v) =~= m);
}

} // verus!
