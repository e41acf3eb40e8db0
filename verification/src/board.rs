//! The board engine: an 11 by 11 grid of optional pieces plus the side to
//! move and a won flag. The engine validates and applies moves, resolves
//! sandwich and king-surround captures, detects wins and enumerates legal
//! moves. Every rule is stated as a spec function over [`BoardModel`] and the
//! executable engine is proved to follow it.

use crate::moves::{fresh_move, is_axis_move, pack_move, CompactMove, Move, MoveModel};
use crate::pieces::{color_of, dir_dx, dir_dy, other_side, Direction, HnefataflError, Piece, Turn};
use vstd::prelude::*;

verus! {

/// Ghost description of a board: the 121 cells in row-major order (cell
/// (x, y) at index y * 11 + x), the side to move, and the won flag.
#[verifier::ext_equal]
pub struct BoardModel {
    pub grid: Seq<Option<Piece>>,
    pub turn: Turn,
    pub won: bool,
}

/// Whether (x, y) addresses a real cell of the 11 by 11 grid.
pub open spec fn in_bounds(x: int, y: int) -> bool {
    0 <= x <= 10 && 0 <= y <= 10
}

/// The row-major index of cell (x, y).
pub open spec fn grid_index(x: int, y: int) -> int {
    y * 11 + x
}

/// The piece (or empty marker) at cell (x, y).
pub open spec fn board_at(g: Seq<Option<Piece>>, x: int, y: int) -> Option<Piece> {
    g[grid_index(x, y)]
}

/// The grid with cell (x, y) replaced by `p`.
pub open spec fn board_put(g: Seq<Option<Piece>>, x: int, y: int, p: Option<Piece>) -> Seq<
    Option<Piece>,
> {
    g.update(grid_index(x, y), p)
}

/// Whether (x, y) is one of the five fortress tiles: the four corners and the
/// center throne. Only the king may rest on them, and an empty fortress is
/// hostile to every piece.
pub open spec fn fortress(x: int, y: int) -> bool {
    (x == 0 && y == 0) || (x == 0 && y == 10) || (x == 10 && y == 0) || (x == 10 && y == 10) || (x
        == 5 && y == 5)
}

/// The grid of the canonical starting position.
pub open spec fn standard_grid() -> Seq<Option<Piece>> {
    Seq::new(121, |k: int| standard_piece(k % 11, k / 11))
}

/// An empty grid.
pub open spec fn empty_grid() -> Seq<Option<Piece>> {
    Seq::new(121, |k: int| None::<Piece>)
}

/// Whether cell (x, y) holds a defender in the canonical starting position:
/// the cross-shaped diamond around the throne, without the throne itself.
pub open spec fn defender_start(x: int, y: int) -> bool {
    let dx = if x >= 5 {
        x - 5
    } else {
        5 - x
    };
    let dy = if y >= 5 {
        y - 5
    } else {
        5 - y
    };
    1 <= dx + dy <= 2
}

/// Whether cell (x, y) holds an attacker in the canonical starting position:
/// five along each edge center plus one in front of each cluster.
pub open spec fn attacker_start(x: int, y: int) -> bool {
    ((y == 0 || y == 10) && 3 <= x <= 7) || ((x == 0 || x == 10) && 3 <= y <= 7) || (x == 5 && (y
        == 1 || y == 9)) || (y == 5 && (x == 1 || x == 9))
}

/// The occupant of cell (x, y) in the canonical starting position.
pub open spec fn standard_piece(x: int, y: int) -> Option<Piece> {
    if x == 5 && y == 5 {
        Some(Piece::King)
    } else if defender_start(x, y) {
        Some(Piece::Defender)
    } else if attacker_start(x, y) {
        Some(Piece::Attacker)
    } else {
        None
    }
}

/// Row-major indexing is a bijection between cells and 0..121.
pub proof fn lemma_grid_index(x: int, y: int)
    requires
        in_bounds(x, y),
    ensures
        0 <= grid_index(x, y) < 121,
        grid_index(x, y) % 11 == x,
        grid_index(x, y) / 11 == y,
{
    assert(0 <= y * 11 + x < 121 && (y * 11 + x) % 11 == x && (y * 11 + x) / 11 == y)
        by (nonlinear_arith)
        requires
            0 <= x <= 10 && 0 <= y <= 10,
    ;
}

/// The playing board: the grid, whose turn it is, and whether the game has
/// been won.
#[derive(Debug, Clone)]
pub struct Board {
    cells: [Option<Piece>; 121],
    turn: Turn,
    is_won: bool,
}

impl View for Board {
    type V = BoardModel;

    closed spec fn view(&self) -> BoardModel {
        BoardModel { grid: self.cells@, turn: self.turn, won: self.is_won }
    }
}

/// Every board's grid has exactly 121 cells; callers need this to reason
/// about `board_at` within the contracts above.
pub proof fn lemma_board_grid_len(b: Board)
    ensures
        b@.grid.len() == 121,
{
}

impl Board {
    /// A board with the pieces in their canonical starting position;
    /// attackers (Black) move first.
    pub fn new() -> (b: Board)
        ensures
            b@ == (BoardModel { grid: standard_grid(), turn: Turn::Black, won: false }),
    {
        let mut cells: [Option<Piece>; 121] = [None; 121];
        let mut k: usize = 0;
        while k < 121
            invariant
                k <= 121,
                cells@.len() == 121,
                forall|j: int|
                    0 <= j < k ==> cells@[j] == standard_piece(#[trigger] (j % 11), j / 11),
            decreases 121 - k,
        {
            let x: i32 = (k % 11) as i32;
            let y: i32 = (k / 11) as i32;
            cells[k] = Self::standard_piece_at(x, y);
            k = k + 1;
        }
        let b = Board { cells, turn: Turn::Black, is_won: false };
        proof {
            assert(b@.grid =~= standard_grid());
            assert(b@ =~= (BoardModel { grid: standard_grid(), turn: Turn::Black, won: false }));
        }
        b
    }

    /// A board with no pieces; attackers (Black) to move, not won.
    pub fn empty() -> (b: Board)
        ensures
            b@ == (BoardModel { grid: empty_grid(), turn: Turn::Black, won: false }),
    {
        let cells: [Option<Piece>; 121] = [None; 121];
        let b = Board { cells, turn: Turn::Black, is_won: false };
        proof {
            assert(b@.grid =~= empty_grid());
            assert(b@ =~= (BoardModel { grid: empty_grid(), turn: Turn::Black, won: false }));
        }
        b
    }

    /// The occupant of cell (x, y) in the canonical starting position.
    fn standard_piece_at(x: i32, y: i32) -> (r: Option<Piece>)
        requires
            in_bounds(x as int, y as int),
        ensures
            r == standard_piece(x as int, y as int),
    {
        if x == 5 && y == 5 {
            return Some(Piece::King);
        }
        let dx: i32 = if x >= 5 {
            x - 5
        } else {
            5 - x
        };
        let dy: i32 = if y >= 5 {
            y - 5
        } else {
            5 - y
        };
        if 1 <= dx + dy && dx + dy <= 2 {
            return Some(Piece::Defender);
        }
        if ((y == 0 || y == 10) && 3 <= x && x <= 7) || ((x == 0 || x == 10) && 3 <= y && y <= 7)
            || (x == 5 && (y == 1 || y == 9)) || (y == 5 && (x == 1 || x == 9)) {
            return Some(Piece::Attacker);
        }
        None
    }

    /// Hand the turn to a chosen side; used when setting positions up.
    pub fn set_turn(&mut self, turn: Turn)
        ensures
            final(self)@ == (BoardModel { turn, ..old(self)@ }),
    {
        self.turn = turn;
        proof {
            assert(final(self)@ =~= (BoardModel { turn, ..old(self)@ }));
        }
    }

    /// The side to move.
    pub fn get_turn(&self) -> (t: Turn)
        ensures
            t == self@.turn,
    {
        self.turn
    }

    /// Whether a winning move has been played on this board.
    pub fn is_won(&self) -> (r: bool)
        ensures
            r == self@.won,
    {
        self.is_won
    }

    /// The piece at (x, y). The coordinates must be known to address a real
    /// cell.
    pub fn get_piece_unchecked(&self, x: i32, y: i32) -> (r: Option<Piece>)
        requires
            in_bounds(x as int, y as int),
        ensures
            r == board_at(self@.grid, x as int, y as int),
    {
        self.cells[(y as usize) * 11 + (x as usize)]
    }

    /// The piece at (x, y), or nothing when the cell is unoccupied or the
    /// coordinates point off the board. Never fails.
    pub fn get_piece_checked(&self, x: i32, y: i32) -> (r: Option<Piece>)
        ensures
            r == (if in_bounds(x as int, y as int) {
                board_at(self@.grid, x as int, y as int)
            } else {
                None::<Piece>
            }),
    {
        if !(0 <= x && x <= 10) || !(0 <= y && y <= 10) {
            return None;
        }
        self.cells[(y as usize) * 11 + (x as usize)]
    }

    /// Overwrite cell (x, y).
    fn place(&mut self, piece: Option<Piece>, x: i32, y: i32)
        requires
            in_bounds(x as int, y as int),
        ensures
            final(self)@ == (BoardModel {
                grid: board_put(old(self)@.grid, x as int, y as int, piece),
                ..old(self)@
            }),
    {
        self.cells[(y as usize) * 11 + (x as usize)] = piece;
        proof {
            assert(final(self)@ =~= (BoardModel {
                grid: board_put(old(self)@.grid, x as int, y as int, piece),
                ..old(self)@
            }));
        }
    }

    /// Put a piece on cell (x, y); used when setting positions up.
    pub fn place_piece(&mut self, piece: Piece, x: i32, y: i32)
        requires
            in_bounds(x as int, y as int),
        ensures
            final(self)@ == (BoardModel {
                grid: board_put(old(self)@.grid, x as int, y as int, Some(piece)),
                ..old(self)@
            }),
    {
        self.place(Some(piece), x, y);
    }

    /// Clear cell (x, y).
    fn remove_piece(&mut self, x: i32, y: i32)
        requires
            in_bounds(x as int, y as int),
        ensures
            final(self)@ == (BoardModel {
                grid: board_put(old(self)@.grid, x as int, y as int, None),
                ..old(self)@
            }),
    {
        self.place(None, x, y);
    }

    /// Move whatever sits at (x, y) to (new_x, new_y) with no rule checking
    /// at all: the destination is overwritten first, the source cleared
    /// second.
    pub fn move_piece_uncheced(&mut self, x: i32, y: i32, new_x: i32, new_y: i32)
        requires
            in_bounds(x as int, y as int),
            in_bounds(new_x as int, new_y as int),
        ensures
            final(self)@ == (BoardModel {
                grid: board_put(
                    board_put(
                        old(self)@.grid,
                        new_x as int,
                        new_y as int,
                        board_at(old(self)@.grid, x as int, y as int),
                    ),
                    x as int,
                    y as int,
                    None,
                ),
                ..old(self)@
            }),
    {
        let p = self.get_piece_unchecked(x, y);
        self.place(p, new_x, new_y);
        self.remove_piece(x, y);
        proof {
            assert(final(self)@ =~= (BoardModel {
                grid: board_put(
                    board_put(
                        old(self)@.grid,
                        new_x as int,
                        new_y as int,
                        board_at(old(self)@.grid, x as int, y as int),
                    ),
                    x as int,
                    y as int,
                    None,
                ),
                ..old(self)@
            }));
        }
    }
}

/// Whether the square (x, y) counts as hostile to piece `p`: it holds an
/// enemy-colored piece, or it is an empty fortress (hostile to everyone).
/// The engine judges hostility with an exclusive upper bound, so squares on
/// the far edge row or column (coordinate 10) are never hostile.
pub open spec fn hostile(g: Seq<Option<Piece>>, p: Piece, x: int, y: int) -> bool {
    if !(0 <= x < 10 && 0 <= y < 10) {
        false
    } else {
        match board_at(g, x, y) {
            Some(q) => color_of(q) != color_of(p),
            None => fortress(x, y),
        }
    }
}

/// The piece captured at (x, y) when the capture check runs along the axis of
/// `d`, or nothing. An ordinary piece falls when both flanking squares along
/// that axis are hostile; the king falls only when all four of his orthogonal
/// neighbors are hostile.
pub open spec fn capture_victim(g: Seq<Option<Piece>>, x: int, y: int, d: Direction) -> Option<
    Piece,
> {
    if !in_bounds(x, y) {
        None
    } else {
        match board_at(g, x, y) {
            None => None,
            Some(p) => {
                let lx = if d == Direction::Up || d == Direction::Down {
                    x
                } else {
                    x - 1
                };
                let ly = if d == Direction::Up || d == Direction::Down {
                    y - 1
                } else {
                    y
                };
                let rx = if d == Direction::Up || d == Direction::Down {
                    x
                } else {
                    x + 1
                };
                let ry = if d == Direction::Up || d == Direction::Down {
                    y + 1
                } else {
                    y
                };
                if p != Piece::King && hostile(g, p, lx, ly) && hostile(g, p, rx, ry) {
                    Some(p)
                } else if p == Piece::King && hostile(g, p, x + 1, y) && hostile(g, p, x - 1, y)
                    && hostile(g, p, x, y + 1) && hostile(g, p, x, y - 1) {
                    Some(p)
                } else {
                    None
                }
            },
        }
    }
}

/// The grid after the capture check at (x, y) along `d`: the victim removed,
/// or the grid unchanged.
pub open spec fn after_capture(g: Seq<Option<Piece>>, x: int, y: int, d: Direction) -> Seq<
    Option<Piece>,
> {
    if capture_victim(g, x, y, d) is Some {
        board_put(g, x, y, None)
    } else {
        g
    }
}

/// Whether `i` lies on the segment from `a` (exclusive) to `b` (inclusive):
/// the cells a sliding piece passes through, with its destination.
pub open spec fn on_path(a: int, b: int, i: int) -> bool {
    if a < b {
        a < i <= b
    } else {
        b <= i < a
    }
}

/// Whether every square a piece slides through from (x, y) to (nx, ny) is
/// empty, the destination among them, the source not.
pub open spec fn path_clear(g: Seq<Option<Piece>>, x: int, y: int, nx: int, ny: int) -> bool {
    if y == ny {
        forall|i: int| #[trigger] on_path(x, nx, i) ==> board_at(g, i, y) is None
    } else {
        forall|j: int| #[trigger] on_path(y, ny, j) ==> board_at(g, x, j) is None
    }
}

/// The first rule a requested move breaks, or nothing when it is legal. The
/// checks run in this order and the engine short-circuits on the first
/// failure, with no board mutation.
pub open spec fn move_error(b: BoardModel, x: int, y: int, nx: int, ny: int) -> Option<
    HnefataflError,
> {
    if !in_bounds(x, y) {
        Some(HnefataflError::StartOutOfBounds)
    } else if !in_bounds(nx, ny) {
        Some(HnefataflError::TargetOutOfBounds)
    } else if !is_axis_move(x, y, nx, ny) {
        Some(HnefataflError::MoveNotHorVer)
    } else if b.won {
        Some(HnefataflError::GameAlreadyWon)
    } else if board_at(b.grid, x, y) is None {
        Some(HnefataflError::NoPieceToMove)
    } else if color_of(board_at(b.grid, x, y)->0) != b.turn {
        Some(HnefataflError::WrongPieceColor)
    } else if board_at(b.grid, x, y)->0 != Piece::King && fortress(nx, ny) {
        Some(HnefataflError::IsProtectedTile)
    } else if !path_clear(b.grid, x, y, nx, ny) {
        Some(HnefataflError::PieceInTheWay)
    } else {
        None
    }
}

/// The grid after the moving piece leaves (x, y) and lands on (nx, ny),
/// before any capture is resolved.
pub open spec fn grid_after_slide(g: Seq<Option<Piece>>, x: int, y: int, nx: int, ny: int) -> Seq<
    Option<Piece>,
> {
    board_put(board_put(g, x, y, None), nx, ny, board_at(g, x, y))
}

/// One capture check folded over the running state (grid, captures recorded
/// so far, whether the king fell).
pub open spec fn capture_step(
    g: Seq<Option<Piece>>,
    caps: Seq<Direction>,
    king_taken: bool,
    x: int,
    y: int,
    d: Direction,
) -> (Seq<Option<Piece>>, Seq<Direction>, bool) {
    match capture_victim(g, x, y, d) {
        Some(p) => (board_put(g, x, y, None), caps.push(d), king_taken || p == Piece::King),
        None => (g, caps, king_taken),
    }
}

/// The state after a legal slide and the four capture checks around the
/// destination, run in the engine's order: above, below, right of, left of
/// the landing square.
pub open spec fn slide_captures(b: BoardModel, x: int, y: int, nx: int, ny: int) -> (
    Seq<Option<Piece>>,
    Seq<Direction>,
    bool,
) {
    let g0 = grid_after_slide(b.grid, x, y, nx, ny);
    let t1 = capture_step(g0, Seq::empty(), false, nx, ny + 1, Direction::Up);
    let t2 = capture_step(t1.0, t1.1, t1.2, nx, ny - 1, Direction::Down);
    let t3 = capture_step(t2.0, t2.1, t2.2, nx + 1, ny, Direction::Right);
    capture_step(t3.0, t3.1, t3.2, nx - 1, ny, Direction::Left)
}

/// Whether a legal move from (x, y) to (nx, ny) wins the game: it captures
/// the king, or the king himself reaches a fortress tile.
pub open spec fn move_wins(b: BoardModel, x: int, y: int, nx: int, ny: int) -> bool {
    slide_captures(b, x, y, nx, ny).2 || (board_at(b.grid, x, y) == Some(Piece::King) && fortress(
        nx,
        ny,
    ))
}

/// The three raw capture slots a capture list fills: the recorded directions
/// in order, the rest padding (`Direction::Up`).
pub open spec fn pad_captures(caps: Seq<Direction>) -> Seq<Direction> {
    seq![
        if caps.len() > 0 {
            caps[0]
        } else {
            Direction::Up
        },
        if caps.len() > 1 {
            caps[1]
        } else {
            Direction::Up
        },
        if caps.len() > 2 {
            caps[2]
        } else {
            Direction::Up
        },
    ]
}

/// The board a legal move leaves behind: the new grid, the turn handed over
/// unless the move won, and the won flag raised on a win.
pub open spec fn moved_board(b: BoardModel, x: int, y: int, nx: int, ny: int) -> BoardModel {
    BoardModel {
        grid: slide_captures(b, x, y, nx, ny).0,
        turn: if move_wins(b, x, y, nx, ny) {
            b.turn
        } else {
            other_side(b.turn)
        },
        won: b.won || move_wins(b, x, y, nx, ny),
    }
}

/// The move record a legal move produces: origin, direction and distance,
/// the captures in the order they were resolved, and the win flag.
pub open spec fn moved_record(b: BoardModel, x: int, y: int, nx: int, ny: int) -> MoveModel {
    let t = slide_captures(b, x, y, nx, ny);
    MoveModel {
        capture_count: t.1.len() as int,
        captures: pad_captures(t.1),
        is_win: move_wins(b, x, y, nx, ny),
        ..fresh_move(x, y, nx, ny)
    }
}

impl Board {
    /// Whether (x, y) is a fortress tile.
    fn is_fortress(&self, x: i32, y: i32) -> (r: bool)
        ensures
            r == fortress(x as int, y as int),
    {
        (x == 0 && y == 0) || (x == 0 && y == 10) || (x == 10 && y == 0) || (x == 10 && y == 10)
            || (x == 5 && y == 5)
    }

    /// Whether the square (x, y) is hostile to `start_piece`; squares off the
    /// board, and squares on the far edge row or column, are not.
    fn is_enemy(&self, start_piece: &Piece, x: i32, y: i32) -> (r: bool)
        ensures
            r == hostile(self@.grid, *start_piece, x as int, y as int),
    {
        if !(0 <= x && x < 10 && 0 <= y && y < 10) {
            return false;
        }
        match self.get_piece_unchecked(x, y) {
            Some(piece) => start_piece.color() != piece.color(),
            None => self.is_fortress(x, y),
        }
    }

    /// Run the capture check on the square (x, y) along the axis of
    /// `direction`, removing and returning the captured piece if there is
    /// one.
    fn try_capture(&mut self, x: i32, y: i32, direction: Direction) -> (r: Option<Piece>)
        requires
            -100 <= x <= 100,
            -100 <= y <= 100,
        ensures
            r == capture_victim(old(self)@.grid, x as int, y as int, direction),
            final(self)@ == (BoardModel {
                grid: after_capture(old(self)@.grid, x as int, y as int, direction),
                ..old(self)@
            }),
    {
        let p = match self.get_piece_checked(x, y) {
            Some(p) => p,
            None => {
                proof {
                    assert(final(self)@ =~= (BoardModel {
                        grid: after_capture(old(self)@.grid, x as int, y as int, direction),
                        ..old(self)@
                    }));
                }
                return None;
            },
        };
        let (lx, ly) = match direction {
            Direction::Up | Direction::Down => (x, y - 1),
            Direction::Left | Direction::Right => (x - 1, y),
        };
        let (rx, ry) = match direction {
            Direction::Up | Direction::Down => (x, y + 1),
            Direction::Left | Direction::Right => (x + 1, y),
        };
        if p != Piece::King && self.is_enemy(&p, lx, ly) && self.is_enemy(&p, rx, ry) {
            self.remove_piece(x, y);
            return Some(p);
        }
        if p == Piece::King && self.is_enemy(&p, x + 1, y) && self.is_enemy(&p, x - 1, y)
            && self.is_enemy(&p, x, y + 1) && self.is_enemy(&p, x, y - 1) {
            self.remove_piece(x, y);
            return Some(p);
        }
        proof {
            assert(final(self)@ =~= (BoardModel {
                grid: after_capture(old(self)@.grid, x as int, y as int, direction),
                ..old(self)@
            }));
        }
        None
    }

    /// Validate and apply one move. The rule checks run in a fixed order and
    /// the first failure is returned with the board untouched; on success the
    /// piece slides, captures are resolved around its landing square, the win
    /// flag is raised when the king falls or reaches a fortress (a winning
    /// move keeps the turn), and the packed move record is returned.
    #[verifier::loop_isolation(false)]
    #[verifier::rlimit(50)]
    pub fn move_piece(&mut self, x: i32, y: i32, new_x: i32, new_y: i32) -> (r: Result<
        CompactMove,
        HnefataflError,
    >)
        ensures
            match move_error(old(self)@, x as int, y as int, new_x as int, new_y as int) {
                Some(e) => r == Err::<CompactMove, HnefataflError>(e) && *final(self) == *old(
                    self,
                ),
                None => ({
                    &&& final(self)@ == moved_board(
                        old(self)@,
                        x as int,
                        y as int,
                        new_x as int,
                        new_y as int,
                    )
                    &&& r matches Ok(cm) && cm@ == pack_move(
                        moved_record(old(self)@, x as int, y as int, new_x as int, new_y as int),
                    )
                }),
            },
    {
        let ghost xi: int = x as int;
        let ghost yi: int = y as int;
        let ghost nxi: int = new_x as int;
        let ghost nyi: int = new_y as int;
        if !(0 <= x && x <= 10) || !(0 <= y && y <= 10) {
            return Err(HnefataflError::StartOutOfBounds);
        }
        if !(0 <= new_x && new_x <= 10) || !(0 <= new_y && new_y <= 10) {
            return Err(HnefataflError::TargetOutOfBounds);
        }
        let horizontal = y == new_y && x != new_x;
        let vertical = x == new_x && y != new_y;
        if !horizontal && !vertical {
            return Err(HnefataflError::MoveNotHorVer);
        }
        if self.is_won {
            return Err(HnefataflError::GameAlreadyWon);
        }
        let piece = match self.get_piece_unchecked(x, y) {
            Some(p) => p,
            None => {
                return Err(HnefataflError::NoPieceToMove);
            },
        };
        if piece.color() != self.turn {
            return Err(HnefataflError::WrongPieceColor);
        }
        if piece != Piece::King && self.is_fortress(new_x, new_y) {
            return Err(HnefataflError::IsProtectedTile);
        }
        if horizontal {
            let lo: i32 = if x < new_x {
                x + 1
            } else {
                new_x
            };
            let hi: i32 = if x < new_x {
                new_x
            } else {
                x - 1
            };
            let mut i: i32 = lo;
            while i <= hi
                invariant
                    lo <= i <= hi + 1,
                    forall|j: int| lo <= j < i ==> board_at(self@.grid, j, yi) is None,
                decreases hi + 1 - i,
            {
                if self.get_piece_unchecked(i, y).is_some() {
                    proof {
                        assert(on_path(xi, nxi, i as int));
                        assert(!path_clear(self@.grid, xi, yi, nxi, nyi));
                    }
                    return Err(HnefataflError::PieceInTheWay);
                }
                i = i + 1;
            }
            proof {
                assert forall|j: int| #[trigger] on_path(xi, nxi, j) implies board_at(
                    self@.grid,
                    j,
                    yi,
                ) is None by {
                    assert(lo <= j < i);
                }
                assert(path_clear(self@.grid, xi, yi, nxi, nyi));
            }
        } else {
            let lo: i32 = if y < new_y {
                y + 1
            } else {
                new_y
            };
            let hi: i32 = if y < new_y {
                new_y
            } else {
                y - 1
            };
            let mut j: i32 = lo;
            while j <= hi
                invariant
                    lo <= j <= hi + 1,
                    forall|k: int| lo <= k < j ==> board_at(self@.grid, xi, k) is None,
                decreases hi + 1 - j,
            {
                if self.get_piece_unchecked(x, j).is_some() {
                    proof {
                        assert(on_path(yi, nyi, j as int));
                        assert(!path_clear(self@.grid, xi, yi, nxi, nyi));
                    }
                    return Err(HnefataflError::PieceInTheWay);
                }
                j = j + 1;
            }
            proof {
                assert forall|k: int| #[trigger] on_path(yi, nyi, k) implies board_at(
                    self@.grid,
                    xi,
                    k,
                ) is None by {
                    assert(lo <= k < j);
                }
                assert(path_clear(self@.grid, xi, yi, nxi, nyi));
            }
        }
        let ghost b0 = self@;
        proof {
            assert(move_error(b0, xi, yi, nxi, nyi) is None);
        }
        self.remove_piece(x, y);
        self.place_piece(piece, new_x, new_y);
        let ghost g0 = self@.grid;
        proof {
            assert(g0 == grid_after_slide(b0.grid, xi, yi, nxi, nyi));
        }
        let mut mv = match Move::from(x, y, new_x, new_y) {
            Ok(m) => m,
            Err(e) => {
                proof {
                    assert(false);
                }
                return Err(e);
            },
        };
        let ghost t1 = capture_step(g0, Seq::<Direction>::empty(), false, nxi, nyi + 1,
            Direction::Up);
        let ghost t2 = capture_step(t1.0, t1.1, t1.2, nxi, nyi - 1, Direction::Down);
        let ghost t3 = capture_step(t2.0, t2.1, t2.2, nxi + 1, nyi, Direction::Right);
        let ghost t4 = capture_step(t3.0, t3.1, t3.2, nxi - 1, nyi, Direction::Left);
        proof {
            lemma_grid_index(xi, yi);
            lemma_grid_index(nxi, nyi);
            // The square the mover stepped out of next to its landing square
            // is empty after the slide, so the capture check aimed at it can
            // never fire: at most three of the four checks record a capture.
            if horizontal {
                if x < new_x {
                    assert(on_path(xi, nxi, nxi - 1) || (nxi - 1 == xi));
                    assert(board_at(g0, nxi - 1, nyi) is None);
                } else {
                    assert(on_path(xi, nxi, nxi + 1) || (nxi + 1 == xi));
                    assert(board_at(g0, nxi + 1, nyi) is None);
                }
            } else {
                if y < new_y {
                    assert(on_path(yi, nyi, nyi - 1) || (nyi - 1 == yi));
                    assert(board_at(g0, nxi, nyi - 1) is None);
                } else {
                    assert(on_path(yi, nyi, nyi + 1) || (nyi + 1 == yi));
                    assert(board_at(g0, nxi, nyi + 1) is None);
                }
            }
        }
        match self.try_capture(new_x, new_y + 1, Direction::Up) {
            Some(p) => {
                if p == Piece::King {
                    mv.set_win();
                }
                let ar = mv.add_capture(Direction::Up);
                proof {
                    assert(ar is Ok);
                }
            },
            None => {},
        }
        proof {
            assert(self@.grid == t1.0 && self@.turn == b0.turn && self@.won == b0.won);
            assert(mv@.capture_count == t1.1.len() && mv@.is_win == t1.2);
            assert(mv@.captures =~= pad_captures(t1.1));
        }
        match self.try_capture(new_x, new_y - 1, Direction::Down) {
            Some(p) => {
                if p == Piece::King {
                    mv.set_win();
                }
                let ar = mv.add_capture(Direction::Down);
                proof {
                    assert(ar is Ok);
                }
            },
            None => {},
        }
        proof {
            assert(self@.grid == t2.0 && self@.turn == b0.turn && self@.won == b0.won);
            assert(mv@.capture_count == t2.1.len() && mv@.is_win == t2.2);
            assert(mv@.captures =~= pad_captures(t2.1));
        }
        match self.try_capture(new_x + 1, new_y, Direction::Right) {
            Some(p) => {
                if p == Piece::King {
                    mv.set_win();
                }
                let ar = mv.add_capture(Direction::Right);
                proof {
                    assert(ar is Ok);
                }
            },
            None => {},
        }
        proof {
            assert(self@.grid == t3.0 && self@.turn == b0.turn && self@.won == b0.won);
            assert(mv@.capture_count == t3.1.len() && mv@.is_win == t3.2);
            assert(mv@.captures =~= pad_captures(t3.1));
            // at most three captures so far, or the fourth check is void
            if horizontal && x < new_x {
                assert(board_at(t3.0, nxi - 1, nyi) is None);
                assert(capture_victim(t3.0, nxi - 1, nyi, Direction::Left) is None);
            } else {
                assert(t3.1.len() <= 2);
            }
        }
        match self.try_capture(new_x - 1, new_y, Direction::Left) {
            Some(p) => {
                if p == Piece::King {
                    mv.set_win();
                }
                let ar = mv.add_capture(Direction::Left);
                proof {
                    assert(ar is Ok);
                }
            },
            None => {},
        }
        proof {
            assert(self@.grid == t4.0 && self@.turn == b0.turn && self@.won == b0.won);
            assert(mv@.capture_count == t4.1.len() && mv@.is_win == t4.2);
            assert(mv@.captures =~= pad_captures(t4.1));
        }
        if piece == Piece::King && self.is_fortress(new_x, new_y) {
            mv.set_win();
        }
        proof {
            assert(mv@.is_win == move_wins(b0, xi, yi, nxi, nyi));
        }
        if !mv.is_win() {
            self.turn = self.turn.opposite();
        } else {
            self.is_won = true;
        }
        let cm = mv.compact();
        proof {
            assert(mv@ =~= moved_record(b0, xi, yi, nxi, nyi));
            assert(self@ =~= moved_board(b0, xi, yi, nxi, nyi));
        }
        Ok(cm)
    }

    /// Replay a previously produced move: recompute its destination from
    /// origin, direction and distance, and run it through `move_piece`'s
    /// full validation.
    pub fn do_move(&mut self, m: &Move) -> (r: Result<CompactMove, HnefataflError>)
        ensures
            ({
                let xi = m@.x as int;
                let yi = m@.y as int;
                let nxi = m@.x as int + m@.delta as int * dir_dx(m@.direction);
                let nyi = m@.y as int + m@.delta as int * dir_dy(m@.direction);
                match move_error(old(self)@, xi, yi, nxi, nyi) {
                    Some(e) => r == Err::<CompactMove, HnefataflError>(e) && *final(self) == *old(
                        self,
                    ),
                    None => ({
                        &&& final(self)@ == moved_board(old(self)@, xi, yi, nxi, nyi)
                        &&& r matches Ok(cm) && cm@ == pack_move(
                            moved_record(old(self)@, xi, yi, nxi, nyi),
                        )
                    }),
                }
            }),
    {
        let x = m.x();
        let y = m.y();
        if !(0 <= x && x <= 10) || !(0 <= y && y <= 10) {
            return Err(HnefataflError::StartOutOfBounds);
        }
        let sx = m.direction().x();
        let sy = m.direction().y();
        let dd = m.delta() as i64;
        let nx64: i64 = if sx == 1 {
            (x as i64) + dd
        } else if sx == -1 {
            (x as i64) - dd
        } else {
            x as i64
        };
        let ny64: i64 = if sy == 1 {
            (y as i64) + dd
        } else if sy == -1 {
            (y as i64) - dd
        } else {
            y as i64
        };
        proof {
            let d = m@.delta as int;
            let gx = dir_dx(m@.direction);
            let gy = dir_dy(m@.direction);
            assert(gx == 1 ==> d * gx == d) by (nonlinear_arith);
            assert(gx == -1 ==> d * gx == -d) by (nonlinear_arith);
            assert(gx == 0 ==> d * gx == 0) by (nonlinear_arith);
            assert(gy == 1 ==> d * gy == d) by (nonlinear_arith);
            assert(gy == -1 ==> d * gy == -d) by (nonlinear_arith);
            assert(gy == 0 ==> d * gy == 0) by (nonlinear_arith);
            assert(nx64 as int == m@.x as int + d * gx);
            assert(ny64 as int == m@.y as int + d * gy);
        }
        if !(0 <= nx64 && nx64 <= 10) || !(0 <= ny64 && ny64 <= 10) {
            return Err(HnefataflError::TargetOutOfBounds);
        }
        self.move_piece(x, y, nx64 as i32, ny64 as i32)
    }
}

/// The squares a piece standing on (x, y) can slide to in the direction
/// (dx, dy), nearest first: scanning proceeds while squares are empty and,
/// unless the mover is the king, not fortress tiles, and stops at the first
/// square that fails the test or at the board edge.
pub open spec fn ray_targets(
    g: Seq<Option<Piece>>,
    king: bool,
    x: int,
    y: int,
    dx: int,
    dy: int,
    fuel: nat,
) -> Seq<(i32, i32)>
    decreases fuel,
{
    if fuel == 0 {
        Seq::empty()
    } else {
        let cx = x + dx;
        let cy = y + dy;
        if !in_bounds(cx, cy) {
            Seq::empty()
        } else if board_at(g, cx, cy) is None && (!fortress(cx, cy) || king) {
            seq![(cx as i32, cy as i32)] + ray_targets(g, king, cx, cy, dx, dy, (fuel - 1) as nat)
        } else {
            Seq::empty()
        }
    }
}

/// All squares reachable from (x, y) by the piece standing there, in the
/// engine's scan order: up, down, left, right. Empty when (x, y) is off the
/// board, unoccupied, or not the side to move.
pub open spec fn moves_from_spec(b: BoardModel, x: int, y: int) -> Seq<(i32, i32)> {
    if !in_bounds(x, y) {
        Seq::empty()
    } else {
        match board_at(b.grid, x, y) {
            None => Seq::empty(),
            Some(p) => {
                if color_of(p) != b.turn {
                    Seq::empty()
                } else {
                    let king = p == Piece::King;
                    ray_targets(b.grid, king, x, y, 0, -1, 10) + ray_targets(
                        b.grid,
                        king,
                        x,
                        y,
                        0,
                        1,
                        10,
                    ) + ray_targets(b.grid, king, x, y, -1, 0, 10) + ray_targets(
                        b.grid,
                        king,
                        x,
                        y,
                        1,
                        0,
                        10,
                    )
                }
            },
        }
    }
}

/// Every square a ray scan yields lies on the board and strictly further
/// along the scan direction than the origin, with the other coordinate kept.
pub proof fn lemma_ray_targets_shape(
    g: Seq<Option<Piece>>,
    king: bool,
    x: int,
    y: int,
    dx: int,
    dy: int,
    fuel: nat,
)
    requires
        -1 <= dx <= 1,
        -1 <= dy <= 1,
    ensures
        forall|i: int|
            0 <= i < ray_targets(g, king, x, y, dx, dy, fuel).len() ==> {
                let t = #[trigger] ray_targets(g, king, x, y, dx, dy, fuel)[i];
                &&& in_bounds(t.0 as int, t.1 as int)
                &&& (dx == 0 ==> t.0 as int == x)
                &&& (dy == 0 ==> t.1 as int == y)
                &&& (dx == 1 ==> (t.0 as int) > x)
                &&& (dx == -1 ==> (t.0 as int) < x)
                &&& (dy == 1 ==> (t.1 as int) > y)
                &&& (dy == -1 ==> (t.1 as int) < y)
            },
    decreases fuel,
{
    if fuel > 0 {
        let cx = x + dx;
        let cy = y + dy;
        if in_bounds(cx, cy) && board_at(g, cx, cy) is None && (!fortress(cx, cy) || king) {
            lemma_ray_targets_shape(g, king, cx, cy, dx, dy, (fuel - 1) as nat);
            let s = ray_targets(g, king, x, y, dx, dy, fuel);
            let rest = ray_targets(g, king, cx, cy, dx, dy, (fuel - 1) as nat);
            assert(s == seq![(cx as i32, cy as i32)] + rest);
            assert forall|i: int| 0 <= i < s.len() implies {
                let t = #[trigger] s[i];
                &&& in_bounds(t.0 as int, t.1 as int)
                &&& (dx == 0 ==> t.0 as int == x)
                &&& (dy == 0 ==> t.1 as int == y)
                &&& (dx == 1 ==> (t.0 as int) > x)
                &&& (dx == -1 ==> (t.0 as int) < x)
                &&& (dy == 1 ==> (t.1 as int) > y)
                &&& (dy == -1 ==> (t.1 as int) < y)
            } by {
                if i == 0 {
                    assert(s[0] == (cx as i32, cy as i32));
                } else {
                    assert(s[i] == rest[i - 1]);
                }
            }
        }
    }
}

/// Every target `moves_from` yields lies on the board and differs from the
/// origin in exactly one coordinate.
pub proof fn lemma_moves_from_targets(b: BoardModel, x: int, y: int)
    ensures
        forall|i: int|
            0 <= i < moves_from_spec(b, x, y).len() ==> {
                let t = #[trigger] moves_from_spec(b, x, y)[i];
                &&& in_bounds(t.0 as int, t.1 as int)
                &&& is_axis_move(x, y, t.0 as int, t.1 as int)
            },
{
    if in_bounds(x, y) && board_at(b.grid, x, y) is Some {
        let p = board_at(b.grid, x, y)->0;
        if color_of(p) == b.turn {
            let king = p == Piece::King;
            lemma_ray_targets_shape(b.grid, king, x, y, 0, -1, 10);
            lemma_ray_targets_shape(b.grid, king, x, y, 0, 1, 10);
            lemma_ray_targets_shape(b.grid, king, x, y, -1, 0, 10);
            lemma_ray_targets_shape(b.grid, king, x, y, 1, 0, 10);
        }
    }
}

/// The move records generated from origin (x, y): one fresh move per target
/// square, in scan order.
pub open spec fn origin_moves(b: BoardModel, x: int, y: int) -> Seq<MoveModel> {
    moves_from_spec(b, x, y).map(|i: int, t: (i32, i32)| fresh_move(x, y, t.0 as int, t.1 as int))
}

/// The move records generated from the origins numbered `k` and up, where
/// origin number k is (k / 11, k % 11): column-major, matching the engine's
/// scan of columns outermost.
pub open spec fn gen_from(b: BoardModel, k: nat) -> Seq<MoveModel>
    decreases 121 - k,
{
    if k >= 121 {
        Seq::empty()
    } else {
        origin_moves(b, (k as int) / 11, (k as int) % 11) + gen_from(b, (k + 1) as nat)
    }
}

/// All legal moves for the side to move, in the engine's scan order.
pub open spec fn available_moves_spec(b: BoardModel) -> Seq<MoveModel> {
    gen_from(b, 0)
}

impl Board {
    /// Append to `moves` every square reachable from (x, y) in direction
    /// (dx, dy), nearest first.
    fn ray_moves(&self, king: bool, x: i32, y: i32, dx: i32, dy: i32, moves: &mut Vec<(i32, i32)>)
        requires
            in_bounds(x as int, y as int),
            -1 <= dx <= 1,
            -1 <= dy <= 1,
        ensures
            final(moves)@ == old(moves)@ + ray_targets(
                self@.grid,
                king,
                x as int,
                y as int,
                dx as int,
                dy as int,
                10,
            ),
    {
        let ghost full = ray_targets(self@.grid, king, x as int, y as int, dx as int, dy as int, 10);
        let mut cx = x;
        let mut cy = y;
        let mut left: u32 = 10;
        while left > 0
            invariant_except_break
                left <= 10,
                -1 <= dx <= 1,
                -1 <= dy <= 1,
                in_bounds(cx as int, cy as int),
                full == ray_targets(
                    self@.grid,
                    king,
                    x as int,
                    y as int,
                    dx as int,
                    dy as int,
                    10,
                ),
                old(moves)@ + full == moves@ + ray_targets(
                    self@.grid,
                    king,
                    cx as int,
                    cy as int,
                    dx as int,
                    dy as int,
                    left as nat,
                ),
            ensures
                moves@ == old(moves)@ + full,
            decreases left,
        {
            let tx = cx + dx;
            let ty = cy + dy;
            if !(0 <= tx && tx <= 10 && 0 <= ty && ty <= 10) {
                proof {
                    assert(ray_targets(
                        self@.grid,
                        king,
                        cx as int,
                        cy as int,
                        dx as int,
                        dy as int,
                        left as nat,
                    ) =~= Seq::<(i32, i32)>::empty());
                    assert(moves@ =~= old(moves)@ + full);
                }
                break;
            }
            let open_square = self.get_piece_unchecked(tx, ty).is_none() && (!self.is_fortress(
                tx,
                ty,
            ) || king);
            if open_square {
                proof {
                    assert(ray_targets(
                        self@.grid,
                        king,
                        cx as int,
                        cy as int,
                        dx as int,
                        dy as int,
                        left as nat,
                    ) =~= seq![(tx, ty)] + ray_targets(
                        self@.grid,
                        king,
                        tx as int,
                        ty as int,
                        dx as int,
                        dy as int,
                        (left - 1) as nat,
                    ));
                }
                moves.push((tx, ty));
                cx = tx;
                cy = ty;
                left = left - 1;
                proof {
                    assert(old(moves)@ + full =~= moves@ + ray_targets(
                        self@.grid,
                        king,
                        cx as int,
                        cy as int,
                        dx as int,
                        dy as int,
                        left as nat,
                    ));
                }
            } else {
                proof {
                    assert(ray_targets(
                        self@.grid,
                        king,
                        cx as int,
                        cy as int,
                        dx as int,
                        dy as int,
                        left as nat,
                    ) =~= Seq::<(i32, i32)>::empty());
                    assert(moves@ =~= old(moves)@ + full);
                }
                break;
            }
        }
        proof {
            assert(moves@ =~= old(moves)@ + full);
        }
    }

    /// Every square the piece standing on (x, y) may slide to, in scan order
    /// up, down, left, right. Empty when (x, y) is off the board, unoccupied,
    /// or holds a piece of the side not to move.
    pub fn moves_from(&self, x: i32, y: i32) -> (r: Vec<(i32, i32)>)
        ensures
            r@ == moves_from_spec(self@, x as int, y as int),
    {
        let mut moves: Vec<(i32, i32)> = Vec::new();
        if !(0 <= x && x <= 10) || !(0 <= y && y <= 10) {
            return moves;
        }
        let p = match self.get_piece_unchecked(x, y) {
            Some(p) => p,
            None => {
                return moves;
            },
        };
        if p.color() != self.turn {
            return moves;
        }
        let king = p == Piece::King;
        self.ray_moves(king, x, y, 0, -1, &mut moves);
        self.ray_moves(king, x, y, 0, 1, &mut moves);
        self.ray_moves(king, x, y, -1, 0, &mut moves);
        self.ray_moves(king, x, y, 1, 0, &mut moves);
        proof {
            assert(moves@ =~= moves_from_spec(self@, x as int, y as int));
        }
        moves
    }

    /// All legal moves for the side to move right now, generated by
    /// ray-casting from every square that holds one of its pieces.
    #[verifier::loop_isolation(false)]
    pub fn available_moves(&self) -> (r: Vec<Move>)
        ensures
            r@.map_values(|m: Move| m@) == available_moves_spec(self@),
    {
        let mut moves: Vec<Move> = Vec::new();
        let mut x: i32 = 0;
        while x < 11
            invariant
                0 <= x <= 11,
                available_moves_spec(self@) == moves@.map_values(|m: Move| m@) + gen_from(
                    self@,
                    (x * 11) as nat,
                ),
            decreases 11 - x,
        {
            let mut y: i32 = 0;
            while y < 11
                invariant
                    0 <= x < 11,
                    0 <= y <= 11,
                    available_moves_spec(self@) == moves@.map_values(|m: Move| m@) + gen_from(
                        self@,
                        (x * 11 + y) as nat,
                    ),
                decreases 11 - y,
            {
                let ghost k = (x * 11 + y) as nat;
                proof {
                    lemma_grid_index(y as int, x as int);
                    assert((k as int) / 11 == x as int && (k as int) % 11 == y as int);
                    assert(gen_from(self@, k) == origin_moves(self@, x as int, y as int)
                        + gen_from(self@, (k + 1) as nat));
                }
                let own_piece = match self.get_piece_unchecked(x, y) {
                    Some(p) => {
                        let c = p.color();
                        c == self.turn
                    },
                    None => false,
                };
                if own_piece {
                    let targets = self.moves_from(x, y);
                    proof {
                        lemma_moves_from_targets(self@, x as int, y as int);
                    }
                    let ghost base = moves@.map_values(|m: Move| m@);
                    let mut t: usize = 0;
                    while t < targets.len()
                        invariant
                            t <= targets@.len(),
                            targets@ == moves_from_spec(self@, x as int, y as int),
                            moves@.map_values(|m: Move| m@) == base + origin_moves(
                                self@,
                                x as int,
                                y as int,
                            ).take(t as int),
                        decreases targets@.len() - t,
                    {
                        proof {
                            lemma_moves_from_targets(self@, x as int, y as int);
                            assert(targets@[t as int] == moves_from_spec(
                                self@,
                                x as int,
                                y as int,
                            )[t as int]);
                        }
                        let (tx, ty) = targets[t];
                        proof {
                            assert(in_bounds(tx as int, ty as int) && is_axis_move(
                                x as int,
                                y as int,
                                tx as int,
                                ty as int,
                            ));
                        }
                        let m = match Move::from(x, y, tx, ty) {
                            Ok(m) => m,
                            Err(e) => {
                                proof {
                                    assert(false);
                                }
                                return moves;
                            },
                        };
                        let ghost before = moves@;
                        moves.push(m);
                        proof {
                            let om = origin_moves(self@, x as int, y as int);
                            let ti = t as int;
                            assert(om[ti] == fresh_move(x as int, y as int, tx as int, ty as int));
                            assert(m@ == om[ti]);
                            assert(om.len() == targets@.len());
                            assert(before.len() == base.len() + ti);
                            assert forall|i: int| 0 <= i < before.len() + 1 implies moves@
                                .map_values(|m: Move| m@)[i] == #[trigger] ((base + om.take(
                                ti + 1,
                            ))[i]) by {
                                if i < before.len() {
                                    assert(moves@[i] == before[i]);
                                    assert(before.map_values(|m: Move| m@)[i] == (base + om.take(
                                        ti,
                                    ))[i]);
                                    assert((base + om.take(ti))[i] == (base + om.take(ti + 1))[i]);
                                } else {
                                    assert(moves@[i] == m);
                                    assert((base + om.take(ti + 1))[i] == om[ti]);
                                }
                            }
                            assert(moves@.map_values(|m: Move| m@) =~= base + om.take(ti + 1));
                        }
                        t = t + 1;
                    }
                    proof {
                        assert(origin_moves(self@, x as int, y as int).take(
                            targets@.len() as int,
                        ) =~= origin_moves(self@, x as int, y as int));
                        assert(available_moves_spec(self@) =~= moves@.map_values(|m: Move| m@)
                            + gen_from(self@, (x * 11 + y + 1) as nat));
                    }
                } else {
                    proof {
                        assert(origin_moves(self@, x as int, y as int) =~= Seq::<
                            MoveModel,
                        >::empty());
                        assert(available_moves_spec(self@) =~= moves@.map_values(|m: Move| m@)
                            + gen_from(self@, (x * 11 + y + 1) as nat));
                    }
                }
                y = y + 1;
            }
            x = x + 1;
        }
        proof {
            assert(gen_from(self@, 121nat) =~= Seq::<MoveModel>::empty());
            assert(moves@.map_values(|m: Move| m@) =~= available_moves_spec(self@));
        }
        moves
    }
}

/// Law: once the won flag is set it never clears, and every further move
/// request that names real squares and a rook-shaped move is refused with
/// `GameAlreadyWon`, whatever else the board holds. (A request failing an
/// earlier check is refused with that check's error instead: bounds and
/// shape are checked first.)
pub proof fn lemma_won_board_rejects_moves(b: BoardModel, x: int, y: int, nx: int, ny: int)
    requires
        b.won,
        in_bounds(x, y),
        in_bounds(nx, ny),
        is_axis_move(x, y, nx, ny),
    ensures
        move_error(b, x, y, nx, ny) == Some(HnefataflError::GameAlreadyWon),
{
}

impl Default for Board {
    /// The default board is the canonical starting position.
    fn default() -> (b: Board)
        ensures
            b@ == (BoardModel { grid: standard_grid(), turn: Turn::Black, won: false }),
    {
        Board::new()
    }
}

impl PartialEq for Board {
    /// Two boards are equal when every cell, the side to move, and the won
    /// flag all agree.
    fn eq(&self, other: &Board) -> (r: bool) {
        if !(self.turn == other.turn && self.is_won == other.is_won) {
            return false;
        }
        let mut i: usize = 0;
        while i < 121
            invariant
                i <= 121,
                forall|j: int| 0 <= j < i ==> self@.grid[j] == other@.grid[j],
            decreases 121 - i,
        {
            let a = self.cells[i];
            let b = other.cells[i];
            let same = match (a, b) {
                (None, None) => true,
                (Some(p), Some(q)) => p == q,
                _ => false,
            };
            if !same {
                return false;
            }
            i = i + 1;
        }
        proof {
            assert(self@.grid =~= other@.grid);
            assert(self@ =~= other@);
        }
        true
    }
}

impl vstd::std_specs::cmp::PartialEqSpecImpl for Board {
    open spec fn obeys_eq_spec() -> bool {
        true
    }

    open spec fn eq_spec(&self, other: &Board) -> bool {
        self@ == other@
    }
}

} // verus!
