//! The move executor, the legal move filter and the game status evaluator.

use vstd::prelude::*;
use crate::board::BoardState;
use crate::movegen::{lists, squares_of};
use crate::piece::{Piece, PieceKind};
use crate::rules::{lemma_pseudo_legal_sound, Status};

verus! {

/// Why `make_move` refused a move.
#[derive(Clone, Copy, Debug, PartialEq, Eq, Structural)]
pub enum MoveError {
    /// One of the two squares is not on the board.
    OutOfRange,
    /// The game is won or drawn already.
    GameOver,
    /// The destination is not among the legal moves of the piece on the
    /// source square, or no piece stands there.
    Illegal,
}

impl BoardState {
    /// The lowest-numbered square that holds a king of the given colour.
    pub(crate) fn find_king(&self, white: bool) -> (r: Option<u8>)
        ensures
            match r {
                Some(k) => self@.first_king(k as int, white),
                None => !self@.has_king(white),
            },
    {
        let mut sq: u8 = 0;
        while sq < 64
            invariant
                sq <= 64,
                forall|t: int| 0 <= t < sq ==> !#[trigger] self@.king_at(t, white),
            decreases 64 - sq,
        {
            match self.piece_at(sq) {
                Some(piece) => {
                    let king = match piece.kind {
                        PieceKind::King => true,
                        _ => false,
                    };
                    if king && piece.white == white {
                        return Some(sq);
                    }
                },
                None => {},
            }
            sq = sq + 1;
        }
        None
    }

    /// Whether the side to move is in check.
    pub(crate) fn in_check(&self) -> (r: bool)
        ensures
            r == self@.in_check(),
    {
        match self.find_king(self.white_to_play()) {
            Some(king) => {
                let attacked = self.attack_marks();
                attacked[king as usize]
            },
            None => false,
        }
    }

    /// Moves the piece on `from` to `to` with every side effect on the cells,
    /// the castling rights and the en passant target. The turn does not pass.
    pub(crate) fn apply(&mut self, from: u8, to: u8)
        requires
            old(self)@.sound_move(from as int, to as int),
        ensures
            final(self)@ == old(self)@.after_move(from as int, to as int),
    {
        proof {
            use_type_invariant(&*self);
        }
        let piece = match self.piece_at(from) {
            Some(piece) => piece,
            None => {
                return ;
            },
        };
        let mut white_oo = self.white_can_oo();
        let mut white_ooo = self.white_can_ooo();
        let mut black_oo = self.black_can_oo();
        let mut black_ooo = self.black_can_ooo();
        let mut target: Option<u8> = None;
        let passing = match self.en_passant_square() {
            Some(e) => e == to,
            None => false,
        };
        self.set_cell(from, None);
        match piece.kind {
            PieceKind::Pawn => {
                if passing {
                    let captured: u8 = if piece.white {
                        to - 8
                    } else {
                        to + 8
                    };
                    self.set_cell(captured, None);
                }
                if (piece.white && from / 8 == 1 && to / 8 == 3) || (!piece.white && from / 8 == 6
                    && to / 8 == 4) {
                    target = Some((from + to) / 2);
                }
                if (to / 8 == 7 && piece.white) || (to / 8 == 0 && !piece.white) {
                    self.set_cell(to, Some(Piece { kind: PieceKind::Queen, white: piece.white }));
                } else {
                    self.set_cell(to, Some(piece));
                }
            },
            PieceKind::King => {
                let home: u8 = if piece.white {
                    4
                } else {
                    60
                };
                if piece.white {
                    white_oo = false;
                    white_ooo = false;
                } else {
                    black_oo = false;
                    black_ooo = false;
                }
                if from == home && to == home - 2 {
                    let rook = self.piece_at(home - 4);
                    self.set_cell(home - 1, rook);
                    self.set_cell(home - 4, None);
                } else if from == home && to == home + 2 {
                    let rook = self.piece_at(home + 3);
                    self.set_cell(home + 1, rook);
                    self.set_cell(home + 3, None);
                }
                self.set_cell(to, Some(piece));
            },
            PieceKind::Rook => {
                if piece.white {
                    if from == 0 {
                        white_ooo = false;
                    } else if from == 7 {
                        white_oo = false;
                    }
                } else if from == 56 {
                    black_ooo = false;
                } else if from == 63 {
                    black_oo = false;
                }
                self.set_cell(to, Some(piece));
            },
            _ => {
                self.set_cell(to, Some(piece));
            },
        }
        self.set_rights((white_oo, white_ooo, black_oo, black_ooo));
        self.set_en_passant(target);
    }

    /// Tries a move out on a copy: whether it leaves the mover in check.
    fn exposes_king(&self, from: u8, to: u8) -> (r: bool)
        requires
            self@.sound_move(from as int, to as int),
        ensures
            r == self@.after_move(from as int, to as int).in_check(),
    {
        let mut trial = *self;
        trial.apply(from, to);
        trial.in_check()
    }

    /// The legal moves of the piece on `square`, in ascending order.
    ///
    /// They are the pseudo-legal moves of the piece, of which those of the
    /// side to move are tried out on a copy of the board and kept only if
    /// they do not leave the mover's king attacked; a king that is not in
    /// check is not tried, since it avoids the attack set already. The moves
    /// of a piece of the other side are not tried. There are none if the
    /// square is empty or off the board, or if the side to move has no king.
    pub fn legal_moves(&self, square: u8) -> (r: Vec<u8>)
        ensures
            lists(r@, Set::new(|d: int| self@.legal(square as int, d))),
    {
        proof {
            use_type_invariant(self);
        }
        let mut keep = [false;64];
        if square < 64 {
            match (self.piece_at(square), self.find_king(self.white_to_play())) {
                (Some(piece), Some(_)) => {
                    let own = piece.white == self.white_to_play();
                    let danger = self.danger_marks(square);
                    let candidates = self.pseudo_marks(square, &danger);
                    let is_king = match piece.kind {
                        PieceKind::King => true,
                        _ => false,
                    };
                    let trial = own && (!is_king || self.in_check());
                    let mut to: u8 = 0;
                    while to < 64
                        invariant
                            to <= 64,
                            square < 64,
                            self@.wf(),
                            self@.has_king(self@.white_to_play),
                            trial == self@.needs_trial(square as int),
                            forall|d: int|
                                #![trigger candidates@[d]]
                                0 <= d < 64 ==> candidates@[d] == self@.pseudo_legal(
                                    square as int,
                                    d,
                                ),
                            forall|d: int|
                                #![trigger keep@[d]]
                                0 <= d < 64 ==> keep@[d] == (d < to && self@.legal(
                                    square as int,
                                    d,
                                )),
                        decreases 64 - to,
                    {
                        if candidates[to as usize] {
                            proof {
                                lemma_pseudo_legal_sound(
                                    self@,
                                    square as int,
                                    to as int,
                                    self@.danger_for(square as int),
                                );
                            }
                            if !trial || !self.exposes_king(square, to) {
                                keep[to as usize] = true;
                            }
                        }
                        to = to + 1;
                    }
                },
                _ => {},
            }
        }
        squares_of(&keep)
    }

    /// Evaluates the position for the side to move: `Draw` if it has no
    /// king, `Ongoing` if one of its pieces has a legal move, and else a win
    /// for the other side if it is in check, and `Draw` if it is not.
    pub fn is_game_over(&self) -> (r: Status)
        ensures
            r == self@.evaluate(),
    {
        let mover = self.white_to_play();
        if self.find_king(mover).is_none() {
            return Status::Draw;
        }
        let mut from: u8 = 0;
        while from < 64
            invariant
                from <= 64,
                mover == self@.white_to_play,
                forall|f: int, t: int|
                    0 <= f < from && self@.holds(f, mover) ==> !#[trigger] self@.legal(f, t),
            decreases 64 - from,
        {
            match self.piece_at(from) {
                Some(piece) => {
                    if piece.white == mover {
                        let moves = self.legal_moves(from);
                        if moves.len() > 0 {
                            assert(moves@.contains(moves@[0]));
                            return Status::Ongoing;
                        }
                        assert forall|t: int| !#[trigger] self@.legal(from as int, t) by {
                            if self@.legal(from as int, t) {
                                assert(moves@.contains(t as u8));
                            }
                        }
                    }
                },
                None => {},
            }
            from = from + 1;
        }
        if self.in_check() {
            Status::Win { white: !mover }
        } else {
            Status::Draw
        }
    }

    /// Makes a move that `legal_moves` lists for the piece on `from`: the
    /// piece goes from `from` to `to` with the side effects of en passant,
    /// promotion to a queen and castling, the castling rights and the en
    /// passant target are brought up to date, the turn passes, and the
    /// status is evaluated anew. The two counters stay as they are.
    ///
    /// Any other move is refused, as is every move once the game is won or
    /// drawn, and the board is then left as it was.
    pub fn make_move(&mut self, from: u8, to: u8) -> (r: Result<(), MoveError>)
        ensures
            old(self)@.playable(from as int, to as int) ==> r is Ok && final(self)@ == old(
                self,
            )@.moved(from as int, to as int),
            !old(self)@.playable(from as int, to as int) ==> r is Err && final(self)@ == old(
                self,
            )@,
            r is Err ==> r->Err_0 == (if from >= 64 || to >= 64 {
                MoveError::OutOfRange
            } else if old(self)@.status != Status::Ongoing {
                MoveError::GameOver
            } else {
                MoveError::Illegal
            }),
    {
        proof {
            use_type_invariant(&*self);
        }
        if from >= 64 || to >= 64 {
            return Err(MoveError::OutOfRange);
        }
        match self.status() {
            Status::Ongoing => {},
            _ => {
                return Err(MoveError::GameOver);
            },
        }
        let moves = self.legal_moves(from);
        if !contains(&moves, to) {
            return Err(MoveError::Illegal);
        }
        proof {
            lemma_pseudo_legal_sound(
                self@,
                from as int,
                to as int,
                self@.danger_for(from as int),
            );
        }
        self.apply(from, to);
        self.pass_turn();
        let status = self.is_game_over();
        self.set_status(status);
        Ok(())
    }
}

/// Whether a list of squares holds `sq`.
fn contains(list: &Vec<u8>, sq: u8) -> (r: bool)
    ensures
        r == list@.contains(sq),
{
    let mut i: usize = 0;
    while i < list.len()
        invariant
            i <= list@.len(),
            forall|j: int| 0 <= j < i ==> list@[j] != sq,
        decreases list@.len() - i,
    {
        if list[i] == sq {
            return true;
        }
        i = i + 1;
    }
    false
}

} // verus!
