//! Chess pieces and their single-character notation.

use vstd::prelude::*;

verus! {

/// The six kinds of chess piece.
#[derive(Clone, Copy, Debug, PartialEq, Eq, Structural)]
pub enum PieceKind {
    Pawn,
    Knight,
    Bishop,
    Rook,
    Queen,
    King,
}

/// A piece: its kind and its colour (`white == false` means Black).
#[derive(Clone, Copy, Debug, PartialEq, Eq, Structural)]
pub struct Piece {
    pub kind: PieceKind,
    pub white: bool,
}

/// The letter that stands for a kind, in upper case.
pub open spec fn kind_letter(kind: PieceKind) -> char {
    match kind {
        PieceKind::Pawn => 'P',
        PieceKind::Knight => 'N',
        PieceKind::Bishop => 'B',
        PieceKind::Rook => 'R',
        PieceKind::Queen => 'Q',
        PieceKind::King => 'K',
    }
}

/// The kind that an upper-case letter stands for, if any.
pub open spec fn letter_kind(c: char) -> Option<PieceKind> {
    if c == 'P' {
        Some(PieceKind::Pawn)
    } else if c == 'N' {
        Some(PieceKind::Knight)
    } else if c == 'B' {
        Some(PieceKind::Bishop)
    } else if c == 'R' {
        Some(PieceKind::Rook)
    } else if c == 'Q' {
        Some(PieceKind::Queen)
    } else if c == 'K' {
        Some(PieceKind::King)
    } else {
        None
    }
}

/// `c` shifted from `a..=z` to `A..=Z`; any other character is left as it is.
pub open spec fn upper(c: char) -> char {
    if 'a' <= c <= 'z' {
        ((c as u32) - 32) as char
    } else {
        c
    }
}

/// `c` shifted from `A..=Z` to `a..=z`; any other character is left as it is.
pub open spec fn lower(c: char) -> char {
    if 'A' <= c <= 'Z' {
        ((c as u32) + 32) as char
    } else {
        c
    }
}

impl Piece {
    /// The character of a piece: the kind's letter, upper case for White
    /// and lower case for Black.
    pub open spec fn spec_to_char(self) -> char {
        if self.white {
            kind_letter(self.kind)
        } else {
            lower(kind_letter(self.kind))
        }
    }

    /// The piece that a character stands for: one of `PNBRQK` for White,
    /// one of `pnbrqk` for Black, and nothing for any other character.
    pub open spec fn spec_from_char(c: char) -> Option<Piece> {
        match letter_kind(c) {
            Some(kind) => Some(Piece { kind, white: true }),
            None => match letter_kind(upper(c)) {
                Some(kind) => Some(Piece { kind, white: false }),
                None => None,
            },
        }
    }

    /// The index of the piece in a sprite sheet: rook, knight, bishop, queen,
    /// king, pawn, the white ones first.
    pub open spec fn spec_to_idx(self) -> int {
        let base: int = match self.kind {
            PieceKind::Rook => 0,
            PieceKind::Knight => 1,
            PieceKind::Bishop => 2,
            PieceKind::Queen => 3,
            PieceKind::King => 4,
            PieceKind::Pawn => 5,
        };
        if self.white {
            base
        } else {
            base + 6
        }
    }

    /// Decodes a piece letter. Any character outside `PNBRQKpnbrqk` gives `None`.
    pub fn from_char(c: char) -> (r: Option<Piece>)
        ensures
            r == Piece::spec_from_char(c),
    {
        let (kind, white) = match c {
            'P' => (PieceKind::Pawn, true),
            'N' => (PieceKind::Knight, true),
            'B' => (PieceKind::Bishop, true),
            'R' => (PieceKind::Rook, true),
            'Q' => (PieceKind::Queen, true),
            'K' => (PieceKind::King, true),
            'p' => (PieceKind::Pawn, false),
            'n' => (PieceKind::Knight, false),
            'b' => (PieceKind::Bishop, false),
            'r' => (PieceKind::Rook, false),
            'q' => (PieceKind::Queen, false),
            'k' => (PieceKind::King, false),
            _ => {
                return None;
            },
        };
        Some(Piece { kind, white })
    }

    /// Encodes the piece as its letter.
    pub fn to_char(&self) -> (c: char)
        ensures
            c == self.spec_to_char(),
    {
        match (self.kind, self.white) {
            (PieceKind::Pawn, true) => 'P',
            (PieceKind::Knight, true) => 'N',
            (PieceKind::Bishop, true) => 'B',
            (PieceKind::Rook, true) => 'R',
            (PieceKind::Queen, true) => 'Q',
            (PieceKind::King, true) => 'K',
            (PieceKind::Pawn, false) => 'p',
            (PieceKind::Knight, false) => 'n',
            (PieceKind::Bishop, false) => 'b',
            (PieceKind::Rook, false) => 'r',
            (PieceKind::Queen, false) => 'q',
            (PieceKind::King, false) => 'k',
        }
    }

    /// The piece's index in a sprite sheet of twelve images.
    pub fn to_idx(&self) -> (i: u32)
        ensures
            i == self.spec_to_idx(),
            i < 12,
    {
        match (self.kind, self.white) {
            (PieceKind::Rook, true) => 0,
            (PieceKind::Knight, true) => 1,
            (PieceKind::Bishop, true) => 2,
            (PieceKind::Queen, true) => 3,
            (PieceKind::King, true) => 4,
            (PieceKind::Pawn, true) => 5,
            (PieceKind::Rook, false) => 6,
            (PieceKind::Knight, false) => 7,
            (PieceKind::Bishop, false) => 8,
            (PieceKind::Queen, false) => 9,
            (PieceKind::King, false) => 10,
            (PieceKind::Pawn, false) => 11,
        }
    }
}

/// Decoding the letter of a piece gives the piece back.
pub proof fn lemma_piece_char_round_trip(p: Piece)
    ensures
        Piece::spec_from_char(p.spec_to_char()) == Some(p),
{
}

/// A character that decodes to a piece is the letter of that piece.
pub proof fn lemma_char_piece_round_trip(c: char)
    requires
        Piece::spec_from_char(c) is Some,
    ensures
        Piece::spec_from_char(c).unwrap().spec_to_char() == c,
{
}

/// Pieces of different kind or colour have different sprite indices.
pub proof fn lemma_idx_injective(p: Piece, q: Piece)
    requires
        p.spec_to_idx() == q.spec_to_idx(),
    ensures
        p == q,
{
}

} // verus!
