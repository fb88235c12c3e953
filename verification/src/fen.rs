//! Forsyth-Edwards Notation: the six-field text form of a position.
//!
//! `<placement> <side> <castling> <en passant> <halfmove> <fullmove>`, the
//! fields separated by single spaces. The placement lists the ranks from the
//! eighth down to the first, separated by `/`; in a rank a letter is a piece
//! and a digit a run of empty squares.

use vstd::prelude::*;
use crate::board::BoardState;
use crate::piece::Piece;
use crate::rules::{Position, Status};
use crate::text::{
    chars_of, decimal, digit_char, digit_value, is_digit, join, parse_decimal, parse_u64,
    push_decimal, split, split_chars, texts,
};

verus! {

/// Why a text is not a FEN record.
#[derive(Clone, Copy, Debug, PartialEq, Eq, Structural)]
pub enum FenError {
    /// The record has not exactly six fields.
    FieldCount,
    /// The placement has not exactly eight ranks.
    RankCount,
    /// A rank of the placement does not hold exactly eight files.
    BadRank,
    /// A character of the placement is neither a digit nor a piece letter.
    InvalidPiece { found: char },
    /// The side to move is neither `w` nor `b`.
    InvalidSide,
    /// The en passant field is neither `-` nor a square.
    InvalidEnPassant,
    /// The halfmove clock is not a number.
    BadHalfmove,
    /// The fullmove number is not a number.
    BadFullmove,
}

/// A run of empty cells.
pub open spec fn blanks(n: nat) -> Seq<Option<Piece>> {
    Seq::new(n, |i: int| None)
}

/// The cells that the characters of a rank stand for, read from the left:
/// a digit is a run of empty cells, a piece letter is that piece. Reading
/// fails at the first character that takes the rank beyond eight files
/// (`BadRank`) or that is neither digit nor piece letter (`InvalidPiece`).
pub open spec fn decode_rank(s: Seq<char>) -> Result<Seq<Option<Piece>>, FenError>
    decreases s.len(),
{
    if s.len() == 0 {
        Ok(Seq::empty())
    } else {
        match decode_rank(s.drop_last()) {
            Err(e) => Err(e),
            Ok(cells) => if is_digit(s.last()) {
                if cells.len() + digit_value(s.last()) > 8 {
                    Err(FenError::BadRank)
                } else {
                    Ok(cells + blanks(digit_value(s.last())))
                }
            } else {
                match Piece::spec_from_char(s.last()) {
                    None => Err(FenError::InvalidPiece { found: s.last() }),
                    Some(piece) => if cells.len() + 1 > 8 {
                        Err(FenError::BadRank)
                    } else {
                        Ok(cells.push(Some(piece)))
                    },
                }
            },
        }
    }
}

/// The eight cells of a rank: `decode_rank`, and `BadRank` for a rank that
/// ends short of eight files.
pub open spec fn parse_rank(s: Seq<char>) -> Result<Seq<Option<Piece>>, FenError> {
    match decode_rank(s) {
        Err(e) => Err(e),
        Ok(cells) => if cells.len() == 8 {
            Ok(cells)
        } else {
            Err(FenError::BadRank)
        },
    }
}

/// The cells of the first `n` ranks of the board, where `lines` are the
/// eight ranks of a placement, the eighth rank first. The ranks are read
/// from the first rank upwards, and the first that fails gives the error.
pub open spec fn parse_ranks(lines: Seq<Seq<char>>, n: nat) -> Result<
    Seq<Option<Piece>>,
    FenError,
>
    decreases n,
{
    if n == 0 {
        Ok(Seq::empty())
    } else {
        match parse_ranks(lines, (n - 1) as nat) {
            Err(e) => Err(e),
            Ok(cells) => match parse_rank(lines[8 - n]) {
                Err(e) => Err(e),
                Ok(rank) => Ok(cells + rank),
            },
        }
    }
}

/// The 64 cells of a placement field.
pub open spec fn parse_placement(s: Seq<char>) -> Result<Seq<Option<Piece>>, FenError> {
    if split(s, '/').len() != 8 {
        Err(FenError::RankCount)
    } else {
        parse_ranks(split(s, '/'), 8)
    }
}

/// The side to move: `w` is White, `b` is Black.
pub open spec fn parse_side(s: Seq<char>) -> Option<bool> {
    if s == seq!['w'] {
        Some(true)
    } else if s == seq!['b'] {
        Some(false)
    } else {
        None
    }
}

/// The en passant field: `-` for no target, or a file letter `a` to `h`
/// and a rank digit `1` to `8`. The outer `None` is for any other text.
pub open spec fn parse_en_passant(s: Seq<char>) -> Option<Option<u8>> {
    if s == seq!['-'] {
        Some(None)
    } else if s.len() == 2 && 'a' <= s[0] <= 'h' && '1' <= s[1] <= '8' {
        Some(Some(((s[0] as int - 'a' as int) + 8 * (s[1] as int - '1' as int)) as u8))
    } else {
        None
    }
}

/// The position that a FEN record stands for, or why it stands for none.
/// The fields are checked in the order placement, side, en passant,
/// halfmove, fullmove; each castling right is held exactly if its letter
/// occurs in the castling field. The game is taken to be running.
pub open spec fn parse_fen(s: Seq<char>) -> Result<Position, FenError> {
    let fields = split(s, ' ');
    if fields.len() != 6 {
        Err(FenError::FieldCount)
    } else {
        match parse_placement(fields[0]) {
            Err(e) => Err(e),
            Ok(cells) => match parse_side(fields[1]) {
                None => Err(FenError::InvalidSide),
                Some(white_to_play) => match parse_en_passant(fields[3]) {
                    None => Err(FenError::InvalidEnPassant),
                    Some(en_passant) => match parse_decimal(fields[4]) {
                        None => Err(FenError::BadHalfmove),
                        Some(halfmove_clock) => match parse_decimal(fields[5]) {
                            None => Err(FenError::BadFullmove),
                            Some(fullmove_number) => Ok(
                                Position {
                                    cells,
                                    white_to_play,
                                    white_can_oo: fields[2].contains('K'),
                                    white_can_ooo: fields[2].contains('Q'),
                                    black_can_oo: fields[2].contains('k'),
                                    black_can_ooo: fields[2].contains('q'),
                                    en_passant,
                                    halfmove_clock,
                                    fullmove_number,
                                    status: Status::Ongoing,
                                },
                            ),
                        },
                    },
                },
            },
        }
    }
}

/// `text` with the digit of a pending run of empty cells, if there is one.
pub open spec fn flush(text: Seq<char>, run: nat) -> Seq<char> {
    if run > 0 {
        text.push(digit_char(run))
    } else {
        text
    }
}

/// The text of some cells of a rank without the trailing run of empty
/// cells, and the length of that run.
pub open spec fn encode_cells(cells: Seq<Option<Piece>>) -> (Seq<char>, nat)
    decreases cells.len(),
{
    if cells.len() == 0 {
        (Seq::empty(), 0)
    } else {
        let (text, run) = encode_cells(cells.drop_last());
        match cells.last() {
            None => (text, run + 1),
            Some(piece) => (flush(text, run).push(piece.spec_to_char()), 0),
        }
    }
}

/// The text of a rank: each piece by its letter, each longest run of empty
/// cells by one digit.
pub open spec fn rank_text(cells: Seq<Option<Piece>>) -> Seq<char> {
    flush(encode_cells(cells).0, encode_cells(cells).1)
}

/// The cells of the rank that stands at place `i` of a placement: the
/// eighth rank at place 0, the first at place 7.
pub open spec fn rank_cells(cells: Seq<Option<Piece>>, i: int) -> Seq<Option<Piece>> {
    cells.subrange((7 - i) * 8, (7 - i) * 8 + 8)
}

/// The texts of the first `n` ranks of a placement.
pub open spec fn rank_texts(cells: Seq<Option<Piece>>, n: nat) -> Seq<Seq<char>> {
    Seq::new(n, |i: int| rank_text(rank_cells(cells, i)))
}

/// The placement field of 64 cells.
pub open spec fn placement_text(cells: Seq<Option<Piece>>) -> Seq<char> {
    join(rank_texts(cells, 8), '/')
}

pub open spec fn side_text(white_to_play: bool) -> Seq<char> {
    if white_to_play {
        seq!['w']
    } else {
        seq!['b']
    }
}

/// `letter` if `held`, and nothing if not.
pub open spec fn right_text(held: bool, letter: char) -> Seq<char> {
    if held {
        seq![letter]
    } else {
        Seq::empty()
    }
}

/// The castling field: the letters of the rights held, in the order `KQkq`,
/// or `-` if none is held.
pub open spec fn castling_text(
    white_oo: bool,
    white_ooo: bool,
    black_oo: bool,
    black_ooo: bool,
) -> Seq<char> {
    let letters = right_text(white_oo, 'K') + right_text(white_ooo, 'Q') + right_text(
        black_oo,
        'k',
    ) + right_text(black_ooo, 'q');
    if letters.len() == 0 {
        seq!['-']
    } else {
        letters
    }
}

/// The en passant field: `-`, or the file letter and rank digit of the target.
pub open spec fn en_passant_text(target: Option<u8>) -> Seq<char> {
    match target {
        None => seq!['-'],
        Some(e) => seq![(e % 8 + 'a' as int) as char, (e / 8 + '1' as int) as char],
    }
}

/// The six fields of the FEN record of a position.
pub open spec fn fen_fields(p: Position) -> Seq<Seq<char>> {
    seq![
        placement_text(p.cells),
        side_text(p.white_to_play),
        castling_text(p.white_can_oo, p.white_can_ooo, p.black_can_oo, p.black_can_ooo),
        en_passant_text(p.en_passant),
        decimal(p.halfmove_clock as nat),
        decimal(p.fullmove_number as nat),
    ]
}

/// The FEN record of a position.
pub open spec fn fen_text(p: Position) -> Seq<char> {
    join(fen_fields(p), ' ')
}

/// `String::push` of the standard library, which appends one character to
/// the end of a string.
#[verifier::external_body]
fn push_char(s: &mut String, c: char)
    ensures
        final(s)@ == old(s)@.push(c),
{
    s.push(c);
}

/// The string of some characters.
fn string_of(chars: &Vec<char>) -> (r: String)
    ensures
        r@ == chars@,
{
    let mut out = String::new();
    let mut i: usize = 0;
    while i < chars.len()
        invariant
            i <= chars@.len(),
            out@ == chars@.take(i as int),
        decreases chars@.len() - i,
    {
        push_char(&mut out, chars[i]);
        i = i + 1;
    }
    out
}

/// Appends the text of the rank at place `place` of the placement.
fn push_rank(out: &mut Vec<char>, cells: &[Option<Piece>; 64], place: usize)
    requires
        place < 8,
    ensures
        final(out)@ == old(out)@ + rank_text(rank_cells(cells@, place as int)),
{
    let rank: usize = 7 - place;
    let ghost row = rank_cells(cells@, place as int);
    let mut run: u8 = 0;
    let mut file: usize = 0;
    while file < 8
        invariant
            file <= 8,
            rank == 7 - place,
            place < 8,
            row == rank_cells(cells@, place as int),
            run <= file,
            run == encode_cells(row.take(file as int)).1,
            out@ == old(out)@ + encode_cells(row.take(file as int)).0,
        decreases 8 - file,
    {
        let ghost seen = row.take(file as int);
        let ghost more = row.take(file + 1);
        assert(more.drop_last() =~= seen);
        match cells[rank * 8 + file] {
            Some(piece) => {
                if run != 0 {
                    out.push((run + '0' as u8) as char);
                    run = 0;
                }
                out.push(piece.to_char());
            },
            None => {
                run = run + 1;
            },
        }
        file = file + 1;
    }
    assert(row.take(8) =~= row);
    if run != 0 {
        out.push((run + '0' as u8) as char);
    }
}

impl BoardState {
    /// The FEN record of the board state.
    pub fn to_fen(&self) -> (r: String)
        ensures
            r@ == fen_text(self@),
    {
        let mut out: Vec<char> = Vec::new();
        self.push_placement(&mut out);
        out.push(' ');
        out.push(
            if self.white_to_play() {
                'w'
            } else {
                'b'
            },
        );
        out.push(' ');
        self.push_castling(&mut out);
        out.push(' ');
        self.push_en_passant(&mut out);
        out.push(' ');
        push_decimal(&mut out, self.halfmove_clock());
        out.push(' ');
        push_decimal(&mut out, self.fullmove_number());
        proof {
            reveal_with_fuel(join, 7);
        }
        string_of(&out)
    }

    fn push_placement(&self, out: &mut Vec<char>)
        ensures
            final(out)@ == old(out)@ + placement_text(self@.cells),
    {
        let cells = self.pieces();
        push_rank(out, cells, 0);
        let mut place: usize = 1;
        while place < 8
            invariant
                1 <= place <= 8,
                out@ == old(out)@ + join(rank_texts(cells@, place as nat), '/'),
            decreases 8 - place,
        {
            out.push('/');
            push_rank(out, cells, place);
            proof {
                let done = rank_texts(cells@, place as nat);
                let more = rank_texts(cells@, (place + 1) as nat);
                assert(more.drop_last() =~= done);
            }
            place = place + 1;
        }
    }

    fn push_castling(&self, out: &mut Vec<char>)
        ensures
            final(out)@ == old(out)@ + castling_text(
                self@.white_can_oo,
                self@.white_can_ooo,
                self@.black_can_oo,
                self@.black_can_ooo,
            ),
    {
        let mut none = true;
        if self.white_can_oo() {
            out.push('K');
            none = false;
        }
        if self.white_can_ooo() {
            out.push('Q');
            none = false;
        }
        if self.black_can_oo() {
            out.push('k');
            none = false;
        }
        if self.black_can_ooo() {
            out.push('q');
            none = false;
        }
        if none {
            out.push('-');
        }
        assert(out@ =~= old(out)@ + castling_text(
            self@.white_can_oo,
            self@.white_can_ooo,
            self@.black_can_oo,
            self@.black_can_ooo,
        ));
    }

    fn push_en_passant(&self, out: &mut Vec<char>)
        ensures
            final(out)@ == old(out)@ + en_passant_text(self@.en_passant),
    {
        match self.en_passant_square() {
            Some(target) => {
                out.push((target % 8 + 'a' as u8) as char);
                out.push((target / 8 + '1' as u8) as char);
            },
            None => {
                out.push('-');
            },
        }
    }

    /// Reads a FEN record.
    ///
    /// The record is split at every single space and has to have six
    /// fields. The result is the position that `parse_fen` gives, with the
    /// game running, or the error that it gives.
    pub fn from_fen(fen: &str) -> (r: Result<BoardState, FenError>)
        ensures
            match r {
                Ok(board) => parse_fen(fen@) == Ok::<Position, FenError>(board@),
                Err(e) => parse_fen(fen@) == Err::<Position, FenError>(e),
            },
    {
        let chars = chars_of(fen);
        let fields = split_chars(&chars, ' ');
        if fields.len() != 6 {
            return Err(FenError::FieldCount);
        }
        proof {
            let f = texts(fields@);
            assert(f[0] == fields@[0]@ && f[1] == fields@[1]@ && f[2] == fields@[2]@ && f[3]
                == fields@[3]@ && f[4] == fields@[4]@ && f[5] == fields@[5]@);
        }
        let pieces = match read_placement(&fields[0]) {
            Ok(pieces) => pieces,
            Err(e) => {
                return Err(e);
            },
        };
        let white_to_play = match read_side(&fields[1]) {
            Some(white) => white,
            None => {
                return Err(FenError::InvalidSide);
            },
        };
        let rights = (
            holds_char(&fields[2], 'K'),
            holds_char(&fields[2], 'Q'),
            holds_char(&fields[2], 'k'),
            holds_char(&fields[2], 'q'),
        );
        let en_passant = match read_en_passant(&fields[3]) {
            Some(target) => target,
            None => {
                return Err(FenError::InvalidEnPassant);
            },
        };
        let halfmove = match parse_u64(&fields[4]) {
            Some(n) => n,
            None => {
                return Err(FenError::BadHalfmove);
            },
        };
        let fullmove = match parse_u64(&fields[5]) {
            Some(n) => n,
            None => {
                return Err(FenError::BadFullmove);
            },
        };
        Ok(BoardState::from_parts(pieces, white_to_play, rights, en_passant, halfmove, fullmove))
    }
}

/// Whether a text holds a character.
fn holds_char(s: &Vec<char>, c: char) -> (r: bool)
    ensures
        r == s@.contains(c),
{
    let mut i: usize = 0;
    while i < s.len()
        invariant
            i <= s@.len(),
            forall|j: int| 0 <= j < i ==> s@[j] != c,
        decreases s@.len() - i,
    {
        if s[i] == c {
            return true;
        }
        i = i + 1;
    }
    false
}

/// Reads the side to move.
fn read_side(s: &Vec<char>) -> (r: Option<bool>)
    ensures
        r == parse_side(s@),
{
    if s.len() == 1 && s[0] == 'w' {
        assert(s@ =~= seq!['w']);
        Some(true)
    } else if s.len() == 1 && s[0] == 'b' {
        assert(s@ =~= seq!['b']);
        Some(false)
    } else {
        None
    }
}

/// Reads the en passant field.
fn read_en_passant(s: &Vec<char>) -> (r: Option<Option<u8>>)
    ensures
        r == parse_en_passant(s@),
        r matches Some(Some(e)) ==> e < 64,
{
    if s.len() == 1 && s[0] == '-' {
        assert(s@ =~= seq!['-']);
        return Some(None);
    }
    if s.len() != 2 {
        return None;
    }
    let file = s[0];
    let rank = s[1];
    if 'a' <= file && file <= 'h' && '1' <= rank && rank <= '8' {
        let file: u8 = (file as u32 - 'a' as u32) as u8;
        let rank: u8 = (rank as u32 - '1' as u32) as u8;
        Some(Some(file + rank * 8))
    } else {
        None
    }
}

/// Reads the rank that stands at place `place` of a placement into its
/// eight cells of `cells`, which are empty beforehand.
fn read_rank(cells: &mut [Option<Piece>; 64], line: &Vec<char>, place: usize) -> (r: Result<
    (),
    FenError,
>)
    requires
        place < 8,
        forall|j: int| (7 - place) * 8 <= j < 64 ==> old(cells)@[j] is None,
    ensures
        match r {
            Ok(_) => parse_rank(line@) == Ok::<Seq<Option<Piece>>, FenError>(
                rank_cells(final(cells)@, place as int),
            ),
            Err(e) => parse_rank(line@) == Err::<Seq<Option<Piece>>, FenError>(e),
        },
        forall|j: int| 0 <= j < (7 - place) * 8 ==> final(cells)@[j] == old(cells)@[j],
        forall|j: int| (7 - place) * 8 + 8 <= j < 64 ==> final(cells)@[j] is None,
{
    let base: usize = (7 - place) * 8;
    let mut file: usize = 0;
    let mut i: usize = 0;
    assert(cells@.subrange(base as int, base as int) =~= Seq::<Option<Piece>>::empty());
    while i < line.len()
        invariant
            i <= line@.len(),
            file <= 8,
            base == (7 - place) * 8,
            place < 8,
            decode_rank(line@.take(i as int)) == Ok::<Seq<Option<Piece>>, FenError>(
                cells@.subrange(base as int, base + file),
            ),
            forall|j: int| 0 <= j < base ==> cells@[j] == old(cells)@[j],
            forall|j: int| base + file <= j < 64 ==> cells@[j] is None,
        decreases line@.len() - i,
    {
        let c = line[i];
        let ghost seen = line@.take(i as int);
        let ghost more = line@.take(i + 1);
        let ghost row = cells@.subrange(base as int, base + file);
        assert(more.drop_last() =~= seen);
        if '0' <= c && c <= '9' {
            let n: usize = (c as u32 - '0' as u32) as usize;
            if file + n > 8 {
                proof {
                    lemma_decode_fails(line@, i + 1);
                }
                return Err(FenError::BadRank);
            }
            file = file + n;
            assert(cells@.subrange(base as int, base + file) =~= row + blanks(n as nat));
        } else {
            match Piece::from_char(c) {
                None => {
                    proof {
                        lemma_decode_fails(line@, i + 1);
                    }
                    return Err(FenError::InvalidPiece { found: c });
                },
                Some(piece) => {
                    if file >= 8 {
                        proof {
                            lemma_decode_fails(line@, i + 1);
                        }
                        return Err(FenError::BadRank);
                    }
                    cells[base + file] = Some(piece);
                    file = file + 1;
                    assert(cells@.subrange(base as int, base + file) =~= row.push(Some(piece)));
                },
            }
        }
        i = i + 1;
    }
    assert(line@.take(line@.len() as int) =~= line@);
    if file != 8 {
        return Err(FenError::BadRank);
    }
    Ok(())
}

/// Reads a placement field into 64 cells.
fn read_placement(s: &Vec<char>) -> (r: Result<[Option<Piece>; 64], FenError>)
    ensures
        match r {
            Ok(cells) => parse_placement(s@) == Ok::<Seq<Option<Piece>>, FenError>(cells@),
            Err(e) => parse_placement(s@) == Err::<Seq<Option<Piece>>, FenError>(e),
        },
{
    let lines = split_chars(s, '/');
    if lines.len() != 8 {
        return Err(FenError::RankCount);
    }
    let mut cells: [Option<Piece>; 64] = [None;64];
    let mut rank: usize = 0;
    assert(cells@.take(0) =~= Seq::<Option<Piece>>::empty());
    while rank < 8
        invariant
            rank <= 8,
            lines@.len() == 8,
            texts(lines@) == split(s@, '/'),
            parse_ranks(texts(lines@), rank as nat) == Ok::<Seq<Option<Piece>>, FenError>(
                cells@.take(rank * 8),
            ),
            forall|j: int| rank * 8 <= j < 64 ==> cells@[j] is None,
        decreases 8 - rank,
    {
        let ghost before = cells@;
        match read_rank(&mut cells, &lines[7 - rank], 7 - rank) {
            Err(e) => {
                proof {
                    lemma_parse_ranks_fails(texts(lines@), (rank + 1) as nat, 8);
                }
                return Err(e);
            },
            Ok(_) => {
                assert(cells@.take((rank + 1) * 8) =~= before.take(rank * 8) + rank_cells(
                    cells@,
                    7 - rank,
                ));
            },
        }
        rank = rank + 1;
    }
    assert(cells@.take(64) =~= cells@);
    Ok(cells)
}

/// Once reading a rank has failed, it fails in the same way on every longer text.
proof fn lemma_decode_fails(s: Seq<char>, n: int)
    requires
        0 <= n <= s.len(),
        decode_rank(s.take(n)) is Err,
    ensures
        decode_rank(s) == decode_rank(s.take(n)),
    decreases s.len() - n,
{
    if n == s.len() {
        assert(s.take(n) =~= s);
    } else {
        assert(s.take(n + 1).drop_last() =~= s.take(n));
        lemma_decode_fails(s, n + 1);
    }
}

/// Once reading the ranks has failed, it fails in the same way on more ranks.
proof fn lemma_parse_ranks_fails(lines: Seq<Seq<char>>, n: nat, m: nat)
    requires
        n <= m,
        parse_ranks(lines, n) is Err,
    ensures
        parse_ranks(lines, m) == parse_ranks(lines, n),
    decreases m - n,
{
    if n < m {
        lemma_parse_ranks_fails(lines, n, (m - 1) as nat);
    }
}

} // verus!
