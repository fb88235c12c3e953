//! The board state: the one mutable value of the engine.

use vstd::prelude::*;
use crate::piece::Piece;
use crate::rules::{Position, Status};

verus! {

/// The position from which a game of chess starts.
pub const STARTING_FEN: &'static str = "rnbqkbnr/pppppppp/8/8/8/8/PPPPPPPP/RNBQKBNR w KQkq - 0 1";

/// A chess position with the bookkeeping of a game in progress.
///
/// A value is made from a FEN record and changed by `make_move` alone. Its
/// fields are read through the methods below; `self@` is its model.
#[derive(Clone, Copy, Debug, PartialEq, Eq)]
pub struct BoardState {
    pieces: [Option<Piece>; 64],
    white_to_play: bool,
    white_can_oo: bool,
    white_can_ooo: bool,
    black_can_oo: bool,
    black_can_ooo: bool,
    en_passant_square: Option<u8>,
    halfmove_clock: u64,
    fullmove_number: u64,
    status: Status,
}

impl View for BoardState {
    type V = Position;

    closed spec fn view(&self) -> Position {
        Position {
            cells: self.pieces@,
            white_to_play: self.white_to_play,
            white_can_oo: self.white_can_oo,
            white_can_ooo: self.white_can_ooo,
            black_can_oo: self.black_can_oo,
            black_can_ooo: self.black_can_ooo,
            en_passant: self.en_passant_square,
            halfmove_clock: self.halfmove_clock,
            fullmove_number: self.fullmove_number,
            status: self.status,
        }
    }
}

impl BoardState {
    /// Every board state has a valid model.
    #[verifier::type_invariant]
    pub open spec fn inv(self) -> bool {
        self@.wf()
    }

    /// A board state from its parts, with the game running.
    pub(crate) fn from_parts(
        pieces: [Option<Piece>; 64],
        white_to_play: bool,
        rights: (bool, bool, bool, bool),
        en_passant_square: Option<u8>,
        halfmove_clock: u64,
        fullmove_number: u64,
    ) -> (r: BoardState)
        requires
            en_passant_square matches Some(e) ==> e < 64,
        ensures
            r@ == (Position {
                cells: pieces@,
                white_to_play,
                white_can_oo: rights.0,
                white_can_ooo: rights.1,
                black_can_oo: rights.2,
                black_can_ooo: rights.3,
                en_passant: en_passant_square,
                halfmove_clock,
                fullmove_number,
                status: Status::Ongoing,
            }),
    {
        BoardState {
            pieces,
            white_to_play,
            white_can_oo: rights.0,
            white_can_ooo: rights.1,
            black_can_oo: rights.2,
            black_can_ooo: rights.3,
            en_passant_square,
            halfmove_clock,
            fullmove_number,
            status: Status::Ongoing,
        }
    }

    /// The 64 cells, a1 first.
    pub fn pieces(&self) -> (r: &[Option<Piece>; 64])
        ensures
            r@ == self@.cells,
    {
        &self.pieces
    }

    /// What stands on a square; nothing stands on a square off the board.
    pub fn piece_at(&self, sq: u8) -> (r: Option<Piece>)
        ensures
            r == (if sq < 64 {
                self@.cells[sq as int]
            } else {
                None
            }),
    {
        if sq < 64 {
            self.pieces[sq as usize]
        } else {
            None
        }
    }

    pub fn white_to_play(&self) -> (r: bool)
        ensures
            r == self@.white_to_play,
    {
        self.white_to_play
    }

    pub fn white_can_oo(&self) -> (r: bool)
        ensures
            r == self@.white_can_oo,
    {
        self.white_can_oo
    }

    pub fn white_can_ooo(&self) -> (r: bool)
        ensures
            r == self@.white_can_ooo,
    {
        self.white_can_ooo
    }

    pub fn black_can_oo(&self) -> (r: bool)
        ensures
            r == self@.black_can_oo,
    {
        self.black_can_oo
    }

    pub fn black_can_ooo(&self) -> (r: bool)
        ensures
            r == self@.black_can_ooo,
    {
        self.black_can_ooo
    }

    /// The en passant target, which is always a square of the board.
    pub fn en_passant_square(&self) -> (r: Option<u8>)
        ensures
            r == self@.en_passant,
            r matches Some(e) ==> e < 64,
    {
        proof {
            use_type_invariant(self);
        }
        self.en_passant_square
    }

    pub fn halfmove_clock(&self) -> (r: u64)
        ensures
            r == self@.halfmove_clock,
    {
        self.halfmove_clock
    }

    pub fn fullmove_number(&self) -> (r: u64)
        ensures
            r == self@.fullmove_number,
    {
        self.fullmove_number
    }

    /// The status as the last move left it; a freshly loaded game is running.
    pub fn status(&self) -> (r: Status)
        ensures
            r == self@.status,
    {
        self.status
    }

    pub(crate) fn set_cell(&mut self, sq: u8, piece: Option<Piece>)
        requires
            sq < 64,
        ensures
            final(self)@ == (Position {
                cells: old(self)@.cells.update(sq as int, piece),
                ..old(self)@
            }),
    {
        proof {
            use_type_invariant(&*self);
        }
        self.pieces[sq as usize] = piece;
    }

    pub(crate) fn set_rights(&mut self, rights: (bool, bool, bool, bool))
        ensures
            final(self)@ == (Position {
                white_can_oo: rights.0,
                white_can_ooo: rights.1,
                black_can_oo: rights.2,
                black_can_ooo: rights.3,
                ..old(self)@
            }),
    {
        proof {
            use_type_invariant(&*self);
        }
        self.white_can_oo = rights.0;
        self.white_can_ooo = rights.1;
        self.black_can_oo = rights.2;
        self.black_can_ooo = rights.3;
    }

    pub(crate) fn set_en_passant(&mut self, target: Option<u8>)
        requires
            target matches Some(e) ==> e < 64,
        ensures
            final(self)@ == (Position { en_passant: target, ..old(self)@ }),
    {
        proof {
            use_type_invariant(&*self);
        }
        self.en_passant_square = target;
    }

    pub(crate) fn pass_turn(&mut self)
        ensures
            final(self)@ == (Position { white_to_play: !old(self)@.white_to_play, ..old(self)@ }),
    {
        proof {
            use_type_invariant(&*self);
        }
        self.white_to_play = !self.white_to_play;
    }

    pub(crate) fn set_status(&mut self, status: Status)
        ensures
            final(self)@ == (Position { status, ..old(self)@ }),
    {
        proof {
            use_type_invariant(&*self);
        }
        self.status = status;
    }
}

} // verus!
