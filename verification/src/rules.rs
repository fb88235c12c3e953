//! The rules of chess movement, stated over a mathematical model of a position.
//!
//! Squares are numbered `rank * 8 + file`, so that a1 is 0, h1 is 7 and h8 is 63.
//! Everything here is ghost code: the executable generator, filter and
//! executor are proved against these definitions.

use vstd::prelude::*;
use crate::piece::{Piece, PieceKind};

verus! {

/// How a game stands: still running, won by one side, or drawn.
#[derive(Clone, Copy, Debug, PartialEq, Eq, Structural)]
pub enum Status {
    Ongoing,
    Win { white: bool },
    Draw,
}

/// The mathematical model of a board state.
pub struct Position {
    /// The 64 cells, a1 first.
    pub cells: Seq<Option<Piece>>,
    pub white_to_play: bool,
    pub white_can_oo: bool,
    pub white_can_ooo: bool,
    pub black_can_oo: bool,
    pub black_can_ooo: bool,
    /// The square that a pawn passed over on the previous ply, if it made a double step.
    pub en_passant: Option<u8>,
    pub halfmove_clock: u64,
    pub fullmove_number: u64,
    pub status: Status,
}

pub open spec fn on_board(sq: int) -> bool {
    0 <= sq < 64
}

pub open spec fn rank_of(sq: int) -> int {
    sq / 8
}

pub open spec fn file_of(sq: int) -> int {
    sq % 8
}

pub open spec fn abs(x: int) -> int {
    if x < 0 {
        -x
    } else {
        x
    }
}

pub open spec fn sign(x: int) -> int {
    if x < 0 {
        -1
    } else if x > 0 {
        1
    } else {
        0
    }
}

/// Ranks from `from` up to `to` (negative when `to` lies lower).
pub open spec fn rank_delta(from: int, to: int) -> int {
    rank_of(to) - rank_of(from)
}

/// Files from `from` right to `to` (negative when `to` lies further left).
pub open spec fn file_delta(from: int, to: int) -> int {
    file_of(to) - file_of(from)
}

/// The number of king steps between two squares.
pub open spec fn distance(from: int, to: int) -> int {
    if abs(rank_delta(from, to)) >= abs(file_delta(from, to)) {
        abs(rank_delta(from, to))
    } else {
        abs(file_delta(from, to))
    }
}

/// `to` is another square on the rank or the file of `from`.
pub open spec fn orthogonal(from: int, to: int) -> bool {
    from != to && (rank_delta(from, to) == 0 || file_delta(from, to) == 0)
}

/// `to` is another square on a diagonal through `from`.
pub open spec fn diagonal(from: int, to: int) -> bool {
    from != to && abs(rank_delta(from, to)) == abs(file_delta(from, to))
}

/// `to` is another square on one of the four lines through `from`.
pub open spec fn on_line(from: int, to: int) -> bool {
    orthogonal(from, to) || diagonal(from, to)
}

/// `mid` lies on the line from `from` to `to`, strictly between the two.
pub open spec fn between(from: int, mid: int, to: int) -> bool {
    &&& on_board(mid)
    &&& on_line(from, mid)
    &&& sign(rank_delta(from, mid)) == sign(rank_delta(from, to))
    &&& sign(file_delta(from, mid)) == sign(file_delta(from, to))
    &&& distance(from, mid) < distance(from, to)
}

/// `to` is a knight's jump away from `from`.
pub open spec fn knight_jump(from: int, to: int) -> bool {
    ||| abs(rank_delta(from, to)) == 1 && abs(file_delta(from, to)) == 2
    ||| abs(rank_delta(from, to)) == 2 && abs(file_delta(from, to)) == 1
}

/// The direction in which pawns of a colour advance: one rank up for White, one down for Black.
pub open spec fn forward(white: bool) -> int {
    if white {
        1
    } else {
        -1
    }
}

/// The rank on which pawns of a colour start.
pub open spec fn pawn_start_rank(white: bool) -> int {
    if white {
        1
    } else {
        6
    }
}

/// The rank on which pawns of a colour promote.
pub open spec fn last_rank(white: bool) -> int {
    if white {
        7
    } else {
        0
    }
}

/// The square on which the king of a colour starts: e1 or e8.
pub open spec fn king_home(white: bool) -> int {
    if white {
        4
    } else {
        60
    }
}

/// The move is a pawn's double step from its start rank.
pub open spec fn is_double_step(white: bool, from: int, to: int) -> bool {
    rank_of(from) == pawn_start_rank(white) && rank_of(to) == pawn_start_rank(white) + 2 * forward(
        white,
    )
}

impl Position {
    /// The validity of a model: 64 cells, and an en passant target on the board.
    pub open spec fn wf(self) -> bool {
        &&& self.cells.len() == 64
        &&& (self.en_passant matches Some(e) ==> e < 64)
    }

    pub open spec fn vacant(self, sq: int) -> bool {
        self.cells[sq] is None
    }

    /// A piece of the given colour stands on `sq`.
    pub open spec fn holds(self, sq: int, white: bool) -> bool {
        self.cells[sq] matches Some(p) && p.white == white
    }

    /// The king of the given colour stands on `sq`.
    pub open spec fn king_at(self, sq: int, white: bool) -> bool {
        on_board(sq) && self.cells[sq] == Some(Piece { kind: PieceKind::King, white })
    }

    /// `sq` is the lowest-numbered square that holds a king of the given colour.
    pub open spec fn first_king(self, sq: int, white: bool) -> bool {
        &&& self.king_at(sq, white)
        &&& forall|t: int| 0 <= t < sq ==> !#[trigger] self.king_at(t, white)
    }

    pub open spec fn has_king(self, white: bool) -> bool {
        exists|sq: int| self.king_at(sq, white)
    }

    /// The right of a colour to castle on the king's side.
    pub open spec fn can_oo(self, white: bool) -> bool {
        if white {
            self.white_can_oo
        } else {
            self.black_can_oo
        }
    }

    /// The right of a colour to castle on the queen's side.
    pub open spec fn can_ooo(self, white: bool) -> bool {
        if white {
            self.white_can_ooo
        } else {
            self.black_can_ooo
        }
    }

    /// Every square strictly between `from` and `to` is empty.
    pub open spec fn clear_between(self, from: int, to: int) -> bool {
        forall|mid: int| #[trigger] between(from, mid, to) ==> self.vacant(mid)
    }

    /// A pawn's advance: one square forward onto an empty square, or two
    /// from the start rank over an empty square onto an empty square.
    pub open spec fn pawn_push(self, white: bool, from: int, to: int) -> bool {
        ||| to == from + 8 * forward(white) && self.vacant(to)
        ||| {
            &&& rank_of(from) == pawn_start_rank(white)
            &&& to == from + 16 * forward(white)
            &&& self.vacant(from + 8 * forward(white))
            &&& self.vacant(to)
        }
    }

    /// A pawn's capture: one square diagonally forward, onto an enemy piece
    /// or onto the empty en passant target.
    pub open spec fn pawn_capture(self, white: bool, from: int, to: int) -> bool {
        &&& rank_delta(from, to) == forward(white)
        &&& abs(file_delta(from, to)) == 1
        &&& (self.holds(to, !white) || (self.vacant(to) && self.en_passant == Some(to as u8)))
    }

    /// A bishop, rook or queen can slide from `from` to `to`: the two lie on a
    /// line of the piece's kind with nothing in between.
    pub open spec fn slides(self, kind: PieceKind, from: int, to: int) -> bool {
        &&& match kind {
            PieceKind::Bishop => diagonal(from, to),
            PieceKind::Rook => orthogonal(from, to),
            PieceKind::Queen => on_line(from, to),
            _ => false,
        }
        &&& self.clear_between(from, to)
    }

    /// Castling by the king of the given colour from `from` to `to`, where
    /// `danger` holds the squares the king must avoid. The king stands on its
    /// home square, holds the right for that side, finds every square between
    /// itself and the corner empty, and neither stands on, passes nor reaches
    /// a square in `danger`.
    pub open spec fn castles(self, white: bool, from: int, to: int, danger: Set<int>) -> bool {
        let home = king_home(white);
        &&& from == home
        &&& !danger.contains(home)
        &&& {
            ||| {
                &&& to == home + 2
                &&& self.can_oo(white)
                &&& self.vacant(home + 1)
                &&& self.vacant(home + 2)
                &&& !danger.contains(home + 1)
                &&& !danger.contains(home + 2)
            }
            ||| {
                &&& to == home - 2
                &&& self.can_ooo(white)
                &&& self.vacant(home - 1)
                &&& self.vacant(home - 2)
                &&& self.vacant(home - 3)
                &&& !danger.contains(home - 1)
                &&& !danger.contains(home - 2)
            }
        }
    }

    /// The piece on `from` may move to `to` by its pattern of movement and the
    /// occupancy of the board, where a king avoids the squares in `danger`.
    /// Whether the move exposes the mover's king is not considered.
    pub open spec fn pseudo_legal_given(self, from: int, to: int, danger: Set<int>) -> bool {
        &&& on_board(from)
        &&& on_board(to)
        &&& self.cells[from] matches Some(piece)
        &&& match piece.kind {
            PieceKind::Pawn => self.pawn_push(piece.white, from, to) || self.pawn_capture(
                piece.white,
                from,
                to,
            ),
            PieceKind::Knight => knight_jump(from, to) && !self.holds(to, piece.white),
            PieceKind::King => {
                ||| distance(from, to) == 1 && !self.holds(to, piece.white) && !danger.contains(to)
                ||| self.castles(piece.white, from, to, danger)
            },
            _ => self.slides(piece.kind, from, to) && !self.holds(to, piece.white),
        }
    }

    /// The piece on `from` belongs to the side that is not to move and
    /// threatens `to`: it could move there, and not by a pawn's advance.
    pub open spec fn attacks(self, from: int, to: int) -> bool {
        &&& self.pseudo_legal_given(from, to, Set::empty())
        &&& self.cells[from] matches Some(piece)
        &&& piece.white != self.white_to_play
        &&& (piece.kind == PieceKind::Pawn ==> file_of(to) != file_of(from))
    }

    /// Some piece of the side that is not to move attacks `sq`.
    pub open spec fn attacked(self, sq: int) -> bool {
        exists|from: int| self.attacks(from, sq)
    }

    /// The attack set: every square attacked by the side that is not to move.
    pub open spec fn attacked_set(self) -> Set<int> {
        Set::new(|sq: int| self.attacked(sq))
    }

    /// The squares that the piece on `from` has to avoid as a king: the attack
    /// set for a piece of the side to move, nothing for the other side.
    pub open spec fn danger_for(self, from: int) -> Set<int> {
        if self.holds(from, self.white_to_play) {
            self.attacked_set()
        } else {
            Set::empty()
        }
    }

    /// The pseudo-legal moves: see `pseudo_legal_given`. A king of the side to
    /// move avoids the attack set.
    pub open spec fn pseudo_legal(self, from: int, to: int) -> bool {
        self.pseudo_legal_given(from, to, self.danger_for(from))
    }

    /// The side to move is in check: its first king stands on an attacked square.
    pub open spec fn in_check(self) -> bool {
        exists|k: int| self.first_king(k, self.white_to_play) && self.attacked(k)
    }

    /// What `after_move` asks of a move: both squares are on the board, a
    /// piece stands on `from`, and for a pawn the square behind `to` is on the
    /// board too. Every pseudo-legal move is sound.
    pub open spec fn sound_move(self, from: int, to: int) -> bool {
        &&& on_board(from)
        &&& on_board(to)
        &&& self.cells[from] matches Some(piece)
        &&& (piece.kind == PieceKind::Pawn ==> on_board(to - 8 * forward(piece.white)))
    }

    /// The cells after the piece on `from` has moved to `to`, with the side
    /// effects of en passant, promotion and castling.
    pub open spec fn cells_after(self, from: int, to: int) -> Seq<Option<Piece>> {
        let piece = self.cells[from]->0;
        let lifted = self.cells.update(from, None);
        match piece.kind {
            PieceKind::Pawn => {
                let taken = if self.en_passant == Some(to as u8) {
                    lifted.update(to - 8 * forward(piece.white), None)
                } else {
                    lifted
                };
                let landing = if rank_of(to) == last_rank(piece.white) {
                    Piece { kind: PieceKind::Queen, white: piece.white }
                } else {
                    piece
                };
                taken.update(to, Some(landing))
            },
            PieceKind::King => {
                let home = king_home(piece.white);
                let rooked = if from == home && to == home - 2 {
                    lifted.update(home - 1, lifted[home - 4]).update(home - 4, None)
                } else if from == home && to == home + 2 {
                    lifted.update(home + 1, lifted[home + 3]).update(home + 3, None)
                } else {
                    lifted
                };
                rooked.update(to, Some(piece))
            },
            _ => lifted.update(to, Some(piece)),
        }
    }

    /// The position after the piece on `from` has moved to `to`, before the
    /// turn passes: cells, castling rights and en passant target are updated,
    /// the side to move, the counters and the status are not.
    pub open spec fn after_move(self, from: int, to: int) -> Position {
        let piece = self.cells[from]->0;
        let king = piece.kind == PieceKind::King;
        let rook = piece.kind == PieceKind::Rook;
        Position {
            cells: self.cells_after(from, to),
            white_can_oo: self.white_can_oo && !(piece.white && (king || (rook && from == 7))),
            white_can_ooo: self.white_can_ooo && !(piece.white && (king || (rook && from == 0))),
            black_can_oo: self.black_can_oo && !(!piece.white && (king || (rook && from == 63))),
            black_can_ooo: self.black_can_ooo && !(!piece.white && (king || (rook && from == 56))),
            en_passant: if piece.kind == PieceKind::Pawn && is_double_step(piece.white, from, to) {
                Some(((from + to) / 2) as u8)
            } else {
                None
            },
            ..self
        }
    }

    /// A candidate of the piece on `from` has to be tried out before it
    /// counts as legal: the piece belongs to the side to move, and it is not
    /// the king or the king is in check.
    pub open spec fn needs_trial(self, from: int) -> bool {
        &&& self.cells[from] matches Some(piece)
        &&& piece.white == self.white_to_play
        &&& (piece.kind != PieceKind::King || self.in_check())
    }

    /// The legal moves. Without a king of the side to move there are none.
    /// Otherwise they are the pseudo-legal moves, of which those that need a
    /// trial must not leave the mover's king attacked.
    pub open spec fn legal(self, from: int, to: int) -> bool {
        &&& self.has_king(self.white_to_play)
        &&& self.pseudo_legal(from, to)
        &&& (self.needs_trial(from) ==> !self.after_move(from, to).in_check())
    }

    /// Some piece of the side to move has a legal move.
    pub open spec fn can_move(self) -> bool {
        exists|from: int, to: int|
            on_board(from) && self.holds(from, self.white_to_play) && #[trigger] self.legal(
                from,
                to,
            )
    }

    /// The status of the position for the side to move: a draw without a king
    /// of that side; ongoing while it has a legal move; else lost by it when
    /// in check (checkmate), and drawn when not (stalemate).
    pub open spec fn evaluate(self) -> Status {
        if !self.has_king(self.white_to_play) {
            Status::Draw
        } else if self.can_move() {
            Status::Ongoing
        } else if self.in_check() {
            Status::Win { white: !self.white_to_play }
        } else {
            Status::Draw
        }
    }

    /// The position after a whole move: the piece has moved, the turn has
    /// passed, and the status is that of the new position.
    pub open spec fn moved(self, from: int, to: int) -> Position {
        let passed = Position { white_to_play: !self.white_to_play, ..self.after_move(from, to) };
        Position { status: passed.evaluate(), ..passed }
    }

    /// `make_move` accepts the move: the game is running, and `to` is among
    /// the legal moves of the piece on `from`, whichever side it belongs to.
    pub open spec fn playable(self, from: int, to: int) -> bool {
        &&& self.status == Status::Ongoing
        &&& self.legal(from, to)
    }
}

/// A pseudo-legal move is sound, whatever the king has to avoid.
pub proof fn lemma_pseudo_legal_sound(p: Position, from: int, to: int, danger: Set<int>)
    requires
        p.wf(),
        p.pseudo_legal_given(from, to, danger),
    ensures
        p.sound_move(from, to),
{
}

/// A sound move leaves a valid position.
pub proof fn lemma_after_move_wf(p: Position, from: int, to: int)
    requires
        p.wf(),
        p.sound_move(from, to),
    ensures
        p.after_move(from, to).wf(),
        p.moved(from, to).wf(),
{
}

} // verus!
