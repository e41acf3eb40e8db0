//! The elementary vocabulary of the game: sides, piece kinds, the four ray
//! directions, and the closed set of rule-violation errors.

use vstd::prelude::*;

verus! {

/// The two sides of the game. Attackers are Black, the king's party is White.
#[derive(Debug, Copy, Clone, PartialEq, Eq, Structural)]
pub enum Turn {
    White,
    Black,
}

/// A piece on the board. Colour is derived, never stored: the king and the
/// defenders are White, the attackers are Black.
#[derive(Debug, Copy, Clone, PartialEq, Eq, Structural)]
pub enum Piece {
    King,
    Defender,
    Attacker,
}

/// One of the four orthogonal ray directions a piece can move along.
#[derive(Debug, Copy, Clone, PartialEq, Eq, Structural)]
pub enum Direction {
    Up,
    Right,
    Down,
    Left,
}

/// Everything that can go wrong when the board engine is asked to move a
/// piece. `move_piece` raises these strictly before any board mutation, so an
/// error always leaves the board unchanged.
#[derive(Debug, Clone, PartialEq)]
pub enum HnefataflError {
    NoPieceToMove,
    PieceInTheWay,
    StartOutOfBounds,
    TargetOutOfBounds,
    MoveNotHorVer,
    WrongPieceColor,
    IsProtectedTile,
    TooManyCaptures,
    GameAlreadyWon,
    OtherError(String),
}

/// The side a piece fights for.
pub open spec fn color_of(p: Piece) -> Turn {
    match p {
        Piece::King => Turn::White,
        Piece::Defender => Turn::White,
        Piece::Attacker => Turn::Black,
    }
}

/// The side that moves after `t`, when the game goes on.
pub open spec fn other_side(t: Turn) -> Turn {
    match t {
        Turn::White => Turn::Black,
        Turn::Black => Turn::White,
    }
}

/// Horizontal step of a direction: -1, 0 or 1.
pub open spec fn dir_dx(d: Direction) -> int {
    match d {
        Direction::Left => -1,
        Direction::Right => 1,
        _ => 0,
    }
}

/// Vertical step of a direction: -1, 0 or 1. Up decreases y, Down increases it.
pub open spec fn dir_dy(d: Direction) -> int {
    match d {
        Direction::Up => -1,
        Direction::Down => 1,
        _ => 0,
    }
}

/// The two-bit code a direction occupies inside a packed move.
pub open spec fn dir_code(d: Direction) -> u32 {
    match d {
        Direction::Up => 0,
        Direction::Right => 1,
        Direction::Down => 2,
        Direction::Left => 3,
    }
}

/// The direction a two-bit code stands for; the inverse of `dir_code` on 0..4.
pub open spec fn dir_of_code(c: u32) -> Direction {
    if c == 0 {
        Direction::Up
    } else if c == 1 {
        Direction::Right
    } else if c == 2 {
        Direction::Down
    } else {
        Direction::Left
    }
}

impl Piece {
    /// The side this piece fights for.
    pub fn color(&self) -> (t: Turn)
        ensures
            t == color_of(*self),
    {
        match self {
            Piece::King => Turn::White,
            Piece::Defender => Turn::White,
            Piece::Attacker => Turn::Black,
        }
    }
}

impl Turn {
    /// The other side.
    pub fn opposite(&self) -> (t: Turn)
        ensures
            t == other_side(*self),
    {
        match self {
            Turn::White => Turn::Black,
            Turn::Black => Turn::White,
        }
    }
}

impl Direction {
    /// Horizontal unit step of this direction.
    pub fn x(&self) -> (r: i32)
        ensures
            r as int == dir_dx(*self),
    {
        match self {
            Direction::Left => -1,
            Direction::Right => 1,
            _ => 0,
        }
    }

    /// Vertical unit step of this direction.
    pub fn y(&self) -> (r: i32)
        ensures
            r as int == dir_dy(*self),
    {
        match self {
            Direction::Up => -1,
            Direction::Down => 1,
            _ => 0,
        }
    }

    /// The two-bit code of this direction inside a packed move.
    pub fn code(&self) -> (r: u32)
        ensures
            r == dir_code(*self),
    {
        match self {
            Direction::Up => 0,
            Direction::Right => 1,
            Direction::Down => 2,
            Direction::Left => 3,
        }
    }

    /// The direction a two-bit code stands for.
    pub fn from_code(c: u32) -> (r: Direction)
        ensures
            r == dir_of_code(c),
    {
        if c == 0 {
            Direction::Up
        } else if c == 1 {
            Direction::Right
        } else if c == 2 {
            Direction::Down
        } else {
            Direction::Left
        }
    }
}

} // verus!
