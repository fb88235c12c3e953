use chess_engine::{BoardState, FenError, Piece, PieceKind, Status, STARTING_FEN};

fn round_trip(fen: &str) {
    assert_eq!(BoardState::from_fen(fen).unwrap().to_fen(), fen);
}

#[test]
fn starting_position_round_trips() {
    assert_eq!(
        STARTING_FEN,
        "rnbqkbnr/pppppppp/8/8/8/8/PPPPPPPP/RNBQKBNR w KQkq - 0 1"
    );
    round_trip(STARTING_FEN);
}

#[test]
fn canonical_records_round_trip() {
    round_trip("r3k2r/p1ppqpb1/bn2pnp1/3PN3/1p2P3/2N2Q1p/PPPBBPPP/R3K2R w KQkq - 0 1");
    round_trip("rnbqkbnr/pppppppp/8/8/4P3/8/PPPP1PPP/RNBQKBNR b KQkq e3 0 1");
    round_trip("8/8/8/8/8/8/8/8 w - - 0 0");
    round_trip("4k3/8/8/8/8/8/8/4K3 b - - 99 18446744073709551615");
    round_trip("1p1p1p1p/p1p1p1p1/8/8/8/8/8/8 w Kq a1 10 200");
    round_trip("7k/8/8/8/8/8/8/K7 b Qk h8 100 1");
}

#[test]
fn starting_position_is_read_cell_by_cell() {
    let b = BoardState::from_fen(STARTING_FEN).unwrap();
    let back = [
        PieceKind::Rook,
        PieceKind::Knight,
        PieceKind::Bishop,
        PieceKind::Queen,
        PieceKind::King,
        PieceKind::Bishop,
        PieceKind::Knight,
        PieceKind::Rook,
    ];
    for file in 0..8u8 {
        let kind = back[file as usize];
        assert_eq!(b.piece_at(file), Some(Piece { kind, white: true }));
        assert_eq!(b.piece_at(8 + file), Some(Piece { kind: PieceKind::Pawn, white: true }));
        assert_eq!(b.piece_at(48 + file), Some(Piece { kind: PieceKind::Pawn, white: false }));
        assert_eq!(b.piece_at(56 + file), Some(Piece { kind, white: false }));
        for rank in 2..6u8 {
            assert_eq!(b.piece_at(rank * 8 + file), None);
        }
    }
    assert!(b.white_to_play());
    assert!(b.white_can_oo() && b.white_can_ooo() && b.black_can_oo() && b.black_can_ooo());
    assert_eq!(b.en_passant_square(), None);
    assert_eq!(b.halfmove_clock(), 0);
    assert_eq!(b.fullmove_number(), 1);
    assert_eq!(b.status(), Status::Ongoing);
    assert_eq!(b.pieces().len(), 64);
}

#[test]
fn fields_are_read() {
    let b = BoardState::from_fen("4k3/8/8/8/8/8/8/4K3 b Qk c6 12 34").unwrap();
    assert!(!b.white_to_play());
    assert!(!b.white_can_oo() && b.white_can_ooo() && b.black_can_oo() && !b.black_can_ooo());
    assert_eq!(b.en_passant_square(), Some(42));
    assert_eq!(b.halfmove_clock(), 12);
    assert_eq!(b.fullmove_number(), 34);
    let b = BoardState::from_fen("4k3/8/8/8/8/8/8/4K3 w - a1 0 1").unwrap();
    assert_eq!(b.en_passant_square(), Some(0));
    let b = BoardState::from_fen("4k3/8/8/8/8/8/8/4K3 w - h8 0 1").unwrap();
    assert_eq!(b.en_passant_square(), Some(63));
}

#[test]
fn non_canonical_records_are_read_and_normalised() {
    let b = BoardState::from_fen("4k3/44/1111p3/08/80/8/8/4K3 w qkQK - +007 00").unwrap();
    assert_eq!(b.to_fen(), "4k3/8/4p3/8/8/8/8/4K3 w KQkq - 7 0");
    let b = BoardState::from_fen("4k3/8/8/8/8/8/8/4K3 w KKxyz - 0 1").unwrap();
    assert_eq!(b.to_fen(), "4k3/8/8/8/8/8/8/4K3 w K - 0 1");
    // An empty castling field is a field.
    let b = BoardState::from_fen("4k3/8/8/8/8/8/8/4K3 w  - 0 1").unwrap();
    assert_eq!(b.to_fen(), "4k3/8/8/8/8/8/8/4K3 w - - 0 1");
    let b = BoardState::from_fen("4k3/8/8/8/8/8/8/4K3 w ? - 0 1").unwrap();
    assert_eq!(b.to_fen(), "4k3/8/8/8/8/8/8/4K3 w - - 0 1");
}

fn error_of(fen: &str) -> FenError {
    BoardState::from_fen(fen).unwrap_err()
}

#[test]
fn wrong_field_count() {
    assert_eq!(error_of(""), FenError::FieldCount);
    assert_eq!(error_of("8/8/8/8/8/8/8/8 w - - 0"), FenError::FieldCount);
    assert_eq!(error_of("8/8/8/8/8/8/8/8 w - - 0 1 2"), FenError::FieldCount);
    assert_eq!(error_of("8/8/8/8/8/8/8/8  w - - 0 1"), FenError::FieldCount);
    assert_eq!(error_of("8/8/8/8/8/8/8/8 w - - 0 1 "), FenError::FieldCount);
    assert_eq!(error_of(" 8/8/8/8/8/8/8/8 w - - 0 1"), FenError::FieldCount);
    assert_eq!(error_of("8/8/8/8/8/8/8/8\tw - - 0 1"), FenError::FieldCount);
}

#[test]
fn wrong_rank_count() {
    assert_eq!(error_of("8/8/8/8/8/8/8 w - - 0 1"), FenError::RankCount);
    assert_eq!(error_of("8/8/8/8/8/8/8/8/8 w - - 0 1"), FenError::RankCount);
    assert_eq!(error_of("8/8/8/8/8/8/8/8/ w - - 0 1"), FenError::RankCount);
    assert_eq!(error_of("x w - - 0 1"), FenError::RankCount);
}

#[test]
fn bad_rank() {
    assert_eq!(error_of("8/8/8/8/8/8/8/7 w - - 0 1"), FenError::BadRank);
    assert_eq!(error_of("8/8/8/8/8/8/8/9 w - - 0 1"), FenError::BadRank);
    assert_eq!(error_of("8/8/8/8/8/8/8/ w - - 0 1"), FenError::BadRank);
    assert_eq!(error_of("8/8/8/8/8/8/8/ppppppppp w - - 0 1"), FenError::BadRank);
    assert_eq!(error_of("8/8/8/8/8/8/8/8p w - - 0 1"), FenError::BadRank);
    assert_eq!(error_of("8/8/8/8/8/8/8/p8 w - - 0 1"), FenError::BadRank);
    assert_eq!(error_of("/8/8/8/8/8/8/8 w - - 0 1"), FenError::BadRank);
}

#[test]
fn invalid_piece() {
    assert_eq!(
        error_of("8/8/8/8/8/8/8/7x w - - 0 1"),
        FenError::InvalidPiece { found: 'x' }
    );
    assert_eq!(
        error_of("8/8/8/8/8/8/8/4\u{265A}3 w - - 0 1"),
        FenError::InvalidPiece { found: '\u{265A}' }
    );
    // The ranks are read from the first upwards, each from the left.
    assert_eq!(
        error_of("8/8/8/8/8/8/y7/7x w - - 0 1"),
        FenError::InvalidPiece { found: 'x' }
    );
    assert_eq!(
        error_of("8/8/8/8/8/8/9/7x w - - 0 1"),
        FenError::InvalidPiece { found: 'x' }
    );
    assert_eq!(error_of("8/8/8/8/8/8/y7/9x w - - 0 1"), FenError::BadRank);
    assert_eq!(
        error_of("8/8/8/8/8/8/8/x9 w - - 0 1"),
        FenError::InvalidPiece { found: 'x' }
    );
}

#[test]
fn invalid_side() {
    assert_eq!(error_of("8/8/8/8/8/8/8/8 W - - 0 1"), FenError::InvalidSide);
    assert_eq!(error_of("8/8/8/8/8/8/8/8 white - - 0 1"), FenError::InvalidSide);
    assert_eq!(error_of("8/8/8/8/8/8/8/8 - - - 0 1"), FenError::InvalidSide);
    // The placement is checked before the side.
    assert_eq!(error_of("8/8/8/8/8/8/8 x - - 0 1"), FenError::RankCount);
}

#[test]
fn invalid_en_passant() {
    assert_eq!(error_of("8/8/8/8/8/8/8/8 w - e 0 1"), FenError::InvalidEnPassant);
    assert_eq!(error_of("8/8/8/8/8/8/8/8 w - e9 0 1"), FenError::InvalidEnPassant);
    assert_eq!(error_of("8/8/8/8/8/8/8/8 w - e0 0 1"), FenError::InvalidEnPassant);
    assert_eq!(error_of("8/8/8/8/8/8/8/8 w - i3 0 1"), FenError::InvalidEnPassant);
    assert_eq!(error_of("8/8/8/8/8/8/8/8 w - E3 0 1"), FenError::InvalidEnPassant);
    assert_eq!(error_of("8/8/8/8/8/8/8/8 w - e33 0 1"), FenError::InvalidEnPassant);
    assert_eq!(error_of("8/8/8/8/8/8/8/8 w - -- 0 1"), FenError::InvalidEnPassant);
    assert_eq!(error_of("8/8/8/8/8/8/8/8 w - \u{e9} 0 1"), FenError::InvalidEnPassant);
}

#[test]
fn bad_counters() {
    assert_eq!(error_of("8/8/8/8/8/8/8/8 w - - x 1"), FenError::BadHalfmove);
    assert_eq!(error_of("8/8/8/8/8/8/8/8 w - - -1 1"), FenError::BadHalfmove);
    assert_eq!(error_of("8/8/8/8/8/8/8/8 w - - + 1"), FenError::BadHalfmove);
    assert_eq!(error_of("8/8/8/8/8/8/8/8 w - - 1.5 1"), FenError::BadHalfmove);
    assert_eq!(
        error_of("8/8/8/8/8/8/8/8 w - - 18446744073709551616 1"),
        FenError::BadHalfmove
    );
    assert_eq!(error_of("8/8/8/8/8/8/8/8 w - - 0 x"), FenError::BadFullmove);
    assert_eq!(error_of("8/8/8/8/8/8/8/8 w - - 0 1x"), FenError::BadFullmove);
    assert_eq!(
        error_of("8/8/8/8/8/8/8/8 w - - 0 99999999999999999999"),
        FenError::BadFullmove
    );
    assert_eq!(error_of("8/8/8/8/8/8/8/8 w - - x y"), FenError::BadHalfmove);
}

#[test]
fn numbers_agree_with_the_standard_parser() {
    for text in ["0", "7", "10", "+5", "007", "18446744073709551615", "18446744073709551616", "", "+", "-3", "1 ", "٣"] {
        let fen = format!("8/8/8/8/8/8/8/8 w - - 0 {text}");
        let expected: Result<u64, _> = text.parse::<u64>();
        match BoardState::from_fen(&fen) {
            Ok(b) => assert_eq!(Ok(b.fullmove_number()), expected),
            Err(e) => {
                assert!(expected.is_err() || text.contains(' '));
                assert!(matches!(e, FenError::BadFullmove | FenError::FieldCount));
            }
        }
    }
}
