//! Laws of the FEN codec: reading a canonical record and writing it again
//! gives the record back, and reading the record of a position gives the
//! position back.

use vstd::prelude::*;
use crate::fen::{
    blanks, castling_text, decode_rank, encode_cells, en_passant_text, fen_fields, fen_text,
    parse_fen, parse_placement, parse_rank, parse_ranks, parse_side, placement_text, rank_cells,
    rank_text, rank_texts, FenError,
};
use crate::piece::Piece;
use crate::rules::{Position, Status};
use crate::text::{
    all_digits, digit_char, digit_value, is_digit, join, lemma_decimal_of_value,
    lemma_decimal_shape, lemma_join_split, lemma_parse_decimal, lemma_split_join, split,
};

verus! {

/// A rank is written canonically: its runs of empty squares are as long
/// as they can be, so that no digit is `0` and no digit follows a digit.
pub open spec fn canonical_rank(s: Seq<char>) -> bool {
    &&& forall|i: int| 0 <= i < s.len() ==> #[trigger] s[i] != '0'
    &&& forall|i: int, j: int|
        0 <= i && j == i + 1 && j < s.len() ==> !(is_digit(#[trigger] s[i]) && is_digit(
            #[trigger] s[j],
        ))
}

/// A counter is written canonically: digits only, and no leading zero.
pub open spec fn canonical_number(s: Seq<char>) -> bool {
    &&& s.len() >= 1
    &&& all_digits(s)
    &&& (s.len() > 1 ==> s[0] != '0')
}

/// A castling field is written canonically: the letters of the rights in
/// the order `KQkq`, each at most once and nothing else, or `-` alone.
pub open spec fn canonical_castling(s: Seq<char>) -> bool {
    s == castling_text(s.contains('K'), s.contains('Q'), s.contains('k'), s.contains('q'))
}

/// A FEN record is written canonically: each rank, the castling field and
/// the two counters are.
pub open spec fn canonical_fen(s: Seq<char>) -> bool {
    let fields = split(s, ' ');
    &&& fields.len() == 6
    &&& forall|i: int|
        0 <= i < split(fields[0], '/').len() ==> canonical_rank(#[trigger] split(fields[0], '/')[i])
    &&& canonical_castling(fields[2])
    &&& canonical_number(fields[4])
    &&& canonical_number(fields[5])
}

/// Appending a run of empty cells lengthens the pending run.
proof fn lemma_encode_blanks(cells: Seq<Option<Piece>>, n: nat)
    ensures
        encode_cells(cells + blanks(n)) == (encode_cells(cells).0, encode_cells(cells).1 + n),
    decreases n,
{
    if n > 0 {
        lemma_encode_blanks(cells, (n - 1) as nat);
        assert((cells + blanks(n)).drop_last() =~= cells + blanks((n - 1) as nat));
    }
}

/// What encoding gives for the cells of a canonical rank text: the text
/// itself and no pending run if the text ends in a piece letter, and the
/// text without its last digit and a run of that length if it ends in a digit.
proof fn lemma_encode_decoded(s: Seq<char>)
    requires
        canonical_rank(s),
        decode_rank(s) is Ok,
    ensures
        s.len() == 0 ==> encode_cells(decode_rank(s)->Ok_0) == (Seq::<char>::empty(), 0nat),
        s.len() > 0 && !is_digit(s.last()) ==> encode_cells(decode_rank(s)->Ok_0) == (s, 0nat),
        s.len() > 0 && is_digit(s.last()) ==> encode_cells(decode_rank(s)->Ok_0) == (
            s.drop_last(),
            digit_value(s.last()),
        ),
    decreases s.len(),
{
    if s.len() > 0 {
        let front = s.drop_last();
        let c = s.last();
        assert(canonical_rank(front)) by {
            assert forall|i: int| 0 <= i < front.len() implies #[trigger] front[i] != '0' by {}
            assert forall|i: int, j: int| 0 <= i && j == i + 1 && j < front.len() implies !(
            is_digit(#[trigger] front[i]) && is_digit(#[trigger] front[j])) by {}
        }
        lemma_encode_decoded(front);
        let cells = decode_rank(front)->Ok_0;
        if is_digit(c) {
            lemma_encode_blanks(cells, digit_value(c));
        } else {
            assert(cells.push(Piece::spec_from_char(c)).drop_last() =~= cells);
        }
    }
}

/// Writing the cells of a canonical rank text gives the text back.
pub proof fn lemma_rank_round_trip(s: Seq<char>)
    requires
        canonical_rank(s),
        parse_rank(s) is Ok,
    ensures
        rank_text(parse_rank(s)->Ok_0) == s,
{
    lemma_encode_decoded(s);
}

/// The cells that `parse_ranks` gives are those of the single ranks, eight each.
proof fn lemma_parse_ranks_cells(lines: Seq<Seq<char>>, n: nat, r: int)
    requires
        n <= 8,
        0 <= r < n,
        parse_ranks(lines, n) is Ok,
    ensures
        (parse_ranks(lines, n)->Ok_0).len() == 8 * n,
        parse_rank(lines[7 - r]) == Ok::<Seq<Option<Piece>>, FenError>(
            (parse_ranks(lines, n)->Ok_0).subrange(8 * r, 8 * r + 8),
        ),
    decreases n,
{
    let cells = parse_ranks(lines, n)->Ok_0;
    let before = parse_ranks(lines, (n - 1) as nat)->Ok_0;
    let rank = parse_rank(lines[8 - n])->Ok_0;
    if n > 1 {
        lemma_parse_ranks_cells(lines, (n - 1) as nat, 0);
    }
    if r == n - 1 {
        assert(cells.subrange(8 * r, 8 * r + 8) =~= rank);
    } else {
        lemma_parse_ranks_cells(lines, (n - 1) as nat, r);
        assert(cells.subrange(8 * r, 8 * r + 8) =~= before.subrange(8 * r, 8 * r + 8));
    }
}

/// Writing the cells of a placement whose ranks are canonical gives the
/// placement back.
pub proof fn lemma_placement_round_trip(s: Seq<char>)
    requires
        parse_placement(s) is Ok,
        forall|i: int| 0 <= i < split(s, '/').len() ==> canonical_rank(#[trigger] split(s, '/')[i]),
    ensures
        placement_text(parse_placement(s)->Ok_0) == s,
{
    let lines = split(s, '/');
    let cells = parse_placement(s)->Ok_0;
    assert forall|i: int| 0 <= i < 8 implies rank_text(rank_cells(cells, i)) == lines[i] by {
        lemma_parse_ranks_cells(lines, 8, 7 - i);
        lemma_rank_round_trip(lines[i]);
    }
    assert(rank_texts(cells, 8) =~= lines);
    lemma_join_split(s, '/');
}

/// What a FEN record stands for is a valid position with the game running.
pub proof fn lemma_parsed_is_valid(s: Seq<char>)
    requires
        parse_fen(s) is Ok,
    ensures
        (parse_fen(s)->Ok_0).wf(),
        (parse_fen(s)->Ok_0).status == Status::Ongoing,
{
    lemma_parse_ranks_cells(split(split(s, ' ')[0], '/'), 8, 0);
}

/// Writing what a canonical FEN record stands for gives the record back.
///
/// The digits of a rank have to be as long runs as possible; beyond that,
/// the castling letters have to stand in the order `KQkq` without
/// repetition or other characters, and the counters without sign or
/// leading zeros: a record such as `8/8/8/8/8/8/8/8 w qK - 0 1` is read,
/// but written as `8/8/8/8/8/8/8/8 w Kq - 0 1`.
pub proof fn lemma_fen_round_trip(s: Seq<char>)
    requires
        parse_fen(s) is Ok,
        canonical_fen(s),
    ensures
        fen_text(parse_fen(s)->Ok_0) == s,
{
    let fields = split(s, ' ');
    let p = parse_fen(s)->Ok_0;
    lemma_placement_round_trip(fields[0]);
    lemma_decimal_of_value(fields[4]);
    lemma_decimal_of_value(fields[5]);
    assert(en_passant_text(p.en_passant) =~= fields[3]);
    assert(fen_fields(p) =~= fields);
    lemma_join_split(s, ' ');
}

/// A character that a rank text may hold: a piece letter or a digit
/// from `1` to `8`.
pub open spec fn rank_char(c: char) -> bool {
    Piece::spec_from_char(c) is Some || '1' <= c <= '8'
}

/// Reading the text of up to eight cells gives the cells back; the text
/// without the pending run stands for the cells before that run.
proof fn lemma_decode_encoded(cells: Seq<Option<Piece>>)
    requires
        cells.len() <= 8,
    ensures
        encode_cells(cells).1 <= cells.len(),
        decode_rank(encode_cells(cells).0) == Ok::<Seq<Option<Piece>>, FenError>(
            cells.take(cells.len() - encode_cells(cells).1),
        ),
        forall|i: int|
            cells.len() - encode_cells(cells).1 <= i < cells.len() ==> (#[trigger] cells[i]) is None,
        decode_rank(rank_text(cells)) == Ok::<Seq<Option<Piece>>, FenError>(cells),
        forall|i: int| 0 <= i < rank_text(cells).len() ==> rank_char(#[trigger] rank_text(cells)[i]),
        forall|i: int|
            0 <= i < encode_cells(cells).0.len() ==> rank_char(#[trigger] encode_cells(cells).0[i]),
    decreases cells.len(),
{
    let (text, run) = encode_cells(cells);
    let seen = cells.take(cells.len() - run);
    if cells.len() == 0 {
        assert(seen =~= Seq::<Option<Piece>>::empty());
    } else {
        let front = cells.drop_last();
        lemma_decode_encoded(front);
        let (text0, run0) = encode_cells(front);
        match cells.last() {
            None => {
                assert(seen =~= front.take(front.len() - run0));
                assert forall|i: int| cells.len() - run <= i < cells.len() implies (
                #[trigger] cells[i]) is None by {
                    if i < front.len() {
                        assert(front[i] is None);
                    }
                }
            },
            Some(piece) => {
                assert(text.drop_last() =~= rank_text(front));
                assert(seen =~= front.push(Some(piece)));
                assert forall|i: int| 0 <= i < text.len() implies rank_char(#[trigger] text[i]) by {}
            },
        }
    }
    if run > 0 {
        let whole = text.push(digit_char(run));
        assert(whole.drop_last() =~= text);
        assert(seen + blanks(run) =~= cells);
        assert forall|i: int| 0 <= i < whole.len() implies rank_char(#[trigger] whole[i]) by {}
    } else {
        assert(seen =~= cells);
    }
}

/// Reading the placement of 64 cells gives the cells back.
pub proof fn lemma_placement_read_back(cells: Seq<Option<Piece>>)
    requires
        cells.len() == 64,
    ensures
        parse_placement(placement_text(cells)) == Ok::<Seq<Option<Piece>>, FenError>(cells),
        !placement_text(cells).contains(' '),
{
    let lines = rank_texts(cells, 8);
    assert forall|i: int| 0 <= i < 8 implies !(#[trigger] lines[i]).contains('/') && !lines[i].contains(
        ' ',
    ) && parse_rank(lines[i]) == Ok::<Seq<Option<Piece>>, FenError>(rank_cells(cells, i)) by {
        lemma_decode_encoded(rank_cells(cells, i));
    }
    lemma_split_join(lines, '/');
    lemma_ranks_read_back(cells, lines, 8);
    assert(cells.take(64) =~= cells);
    lemma_join_free(lines, '/', ' ');
}

/// Reading the first `n` ranks of the placement of 64 cells gives their cells.
proof fn lemma_ranks_read_back(cells: Seq<Option<Piece>>, lines: Seq<Seq<char>>, n: nat)
    requires
        cells.len() == 64,
        n <= 8,
        lines.len() == 8,
        forall|i: int|
            0 <= i < 8 ==> parse_rank(#[trigger] lines[i]) == Ok::<Seq<Option<Piece>>, FenError>(
                rank_cells(cells, i),
            ),
    ensures
        parse_ranks(lines, n) == Ok::<Seq<Option<Piece>>, FenError>(cells.take(8 * (n as int))),
    decreases n,
{
    if n == 0 {
        assert(cells.take(0) =~= Seq::<Option<Piece>>::empty());
    } else {
        lemma_ranks_read_back(cells, lines, (n - 1) as nat);
        assert(parse_rank(lines[8 - n]) == Ok::<Seq<Option<Piece>>, FenError>(
            rank_cells(cells, 8 - n),
        ));
        assert(cells.take(8 * (n - 1)) + rank_cells(cells, 8 - n) =~= cells.take(8 * (n as int)));
    }
}

/// A join of fields is free of a character that neither the fields nor
/// the separator hold.
proof fn lemma_join_free(fields: Seq<Seq<char>>, sep: char, c: char)
    requires
        sep != c,
        forall|i: int| 0 <= i < fields.len() ==> !(#[trigger] fields[i]).contains(c),
    ensures
        !join(fields, sep).contains(c),
    decreases fields.len(),
{
    if fields.len() > 1 {
        let front = fields.drop_last();
        assert forall|i: int| 0 <= i < front.len() implies !(#[trigger] front[i]).contains(c) by {}
        lemma_join_free(front, sep, c);
    }
}

/// Reading the FEN record of a valid position gives the position back,
/// with the game running.
pub proof fn lemma_fen_read_back(p: Position)
    requires
        p.wf(),
    ensures
        parse_fen(fen_text(p)) == Ok::<Position, FenError>(
            Position { status: Status::Ongoing, ..p },
        ),
        canonical_fen(fen_text(p)),
{
    let fields = fen_fields(p);
    lemma_placement_read_back(p.cells);
    lemma_decimal_shape(p.halfmove_clock as nat);
    lemma_decimal_shape(p.fullmove_number as nat);
    lemma_parse_decimal(p.halfmove_clock);
    lemma_parse_decimal(p.fullmove_number);
    lemma_castling_letters(p.white_can_oo, p.white_can_ooo, p.black_can_oo, p.black_can_ooo);
    assert forall|i: int| 0 <= i < fields.len() implies !(#[trigger] fields[i]).contains(' ') by {}
    lemma_split_join(fields, ' ');
    assert(parse_side(fields[1]) == Some(p.white_to_play)) by {
        assert(seq!['w'][0] != seq!['b'][0]);
    }
    lemma_placement_canonical(p.cells);
}

/// The castling field holds the letter of a right exactly if the right is held.
proof fn lemma_castling_letters(white_oo: bool, white_ooo: bool, black_oo: bool, black_ooo: bool)
    ensures
        castling_text(white_oo, white_ooo, black_oo, black_ooo).contains('K') == white_oo,
        castling_text(white_oo, white_ooo, black_oo, black_ooo).contains('Q') == white_ooo,
        castling_text(white_oo, white_ooo, black_oo, black_ooo).contains('k') == black_oo,
        castling_text(white_oo, white_ooo, black_oo, black_ooo).contains('q') == black_ooo,
        !castling_text(white_oo, white_ooo, black_oo, black_ooo).contains(' '),
        canonical_castling(castling_text(white_oo, white_ooo, black_oo, black_ooo)),
{
    let text = castling_text(white_oo, white_ooo, black_oo, black_ooo);
    let k: int = if white_oo { 1 } else { 0 };
    let q: int = if white_ooo { 1 } else { 0 };
    let bk: int = if black_oo { 1 } else { 0 };
    let bq: int = if black_ooo { 1 } else { 0 };
    if white_oo {
        assert(text[0] == 'K');
    }
    if white_ooo {
        assert(text[k] == 'Q');
    }
    if black_oo {
        assert(text[k + q] == 'k');
    }
    if black_ooo {
        assert(text[k + q + bk] == 'q');
    }
    assert forall|i: int| 0 <= i < text.len() implies (#[trigger] text[i] == '-' && k + q + bk + bq
        == 0) || (text[i] == 'K' && white_oo) || (text[i] == 'Q' && white_ooo) || (text[i] == 'k'
        && black_oo) || (text[i] == 'q' && black_ooo) by {}
}

/// The ranks of the placement of 64 cells are written canonically.
proof fn lemma_placement_canonical(cells: Seq<Option<Piece>>)
    requires
        cells.len() == 64,
    ensures
        forall|i: int|
            0 <= i < split(placement_text(cells), '/').len() ==> canonical_rank(
                #[trigger] split(placement_text(cells), '/')[i],
            ),
{
    let lines = rank_texts(cells, 8);
    assert forall|i: int| 0 <= i < 8 implies !(#[trigger] lines[i]).contains('/')
        && canonical_rank(lines[i]) by {
        lemma_decode_encoded(rank_cells(cells, i));
        lemma_encoded_canonical(rank_cells(cells, i));
    }
    lemma_split_join(lines, '/');
}

/// The text of up to eight cells is written canonically, and without its
/// pending run it does not end in a digit.
proof fn lemma_encoded_canonical(cells: Seq<Option<Piece>>)
    requires
        cells.len() <= 8,
    ensures
        canonical_rank(encode_cells(cells).0),
        encode_cells(cells).0.len() > 0 ==> !is_digit(encode_cells(cells).0.last()),
        canonical_rank(rank_text(cells)),
        encode_cells(cells).1 <= cells.len(),
    decreases cells.len(),
{
    let (text, run) = encode_cells(cells);
    if cells.len() > 0 {
        let front = cells.drop_last();
        lemma_encoded_canonical(front);
        match cells.last() {
            None => {},
            Some(piece) => {
                assert forall|i: int| 0 <= i < text.len() implies #[trigger] text[i] != '0' by {}
                assert forall|i: int, j: int| 0 <= i && j == i + 1 && j < text.len() implies !(
                is_digit(#[trigger] text[i]) && is_digit(#[trigger] text[j])) by {}
            },
        }
    }
    if run > 0 {
        let whole = text.push(digit_char(run));
        assert forall|i: int| 0 <= i < whole.len() implies #[trigger] whole[i] != '0' by {}
        assert forall|i: int, j: int| 0 <= i && j == i + 1 && j < whole.len() implies !(is_digit(
            #[trigger] whole[i],
        ) && is_digit(#[trigger] whole[j])) by {}
    }
}

} // verus!
