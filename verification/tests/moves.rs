use chess_engine::{BoardState, MoveError, Piece, PieceKind, Status, STARTING_FEN};

fn board(fen: &str) -> BoardState {
    BoardState::from_fen(fen).unwrap()
}

fn sq(name: &str) -> u8 {
    let bytes = name.as_bytes();
    (bytes[0] - b'a') + 8 * (bytes[1] - b'1')
}

fn own_squares(b: &BoardState) -> Vec<u8> {
    (0..64u8)
        .filter(|&s| matches!(b.piece_at(s), Some(p) if p.white == b.white_to_play()))
        .collect()
}

fn count_moves(b: &BoardState) -> u64 {
    own_squares(b).iter().map(|&s| b.legal_moves(s).len() as u64).sum()
}

fn perft(b: &BoardState, depth: u32) -> u64 {
    if depth == 0 {
        return 1;
    }
    if depth == 1 {
        return count_moves(b);
    }
    let mut nodes = 0;
    for from in own_squares(b) {
        for to in b.legal_moves(from) {
            let mut next = *b;
            next.make_move(from, to).unwrap();
            nodes += perft(&next, depth - 1);
        }
    }
    nodes
}

#[test]
fn starting_position_has_twenty_moves() {
    let b = board(STARTING_FEN);
    assert_eq!(count_moves(&b), 20);
    assert_eq!(b.legal_moves(sq("e2")), vec![sq("e3"), sq("e4")]);
    assert_eq!(b.legal_moves(sq("g1")), vec![sq("f3"), sq("h3")]);
    assert_eq!(b.legal_moves(sq("a1")), Vec::<u8>::new());
    assert_eq!(b.legal_moves(sq("e1")), Vec::<u8>::new());
}

#[test]
fn perft_from_the_start() {
    let b = board(STARTING_FEN);
    assert_eq!(perft(&b, 1), 20);
    assert_eq!(perft(&b, 2), 400);
    assert_eq!(perft(&b, 3), 8902);
}

#[test]
fn perft_of_a_busy_middlegame() {
    let b = board("r3k2r/p1ppqpb1/bn2pnp1/3PN3/1p2P3/2N2Q1p/PPPBBPPP/R3K2R w KQkq - 0 1");
    assert_eq!(perft(&b, 1), 48);
    assert_eq!(perft(&b, 2), 2039);
}

#[test]
fn empty_and_off_board_squares_have_no_moves() {
    let b = board(STARTING_FEN);
    assert!(b.legal_moves(sq("e4")).is_empty());
    assert!(b.legal_moves(64).is_empty());
    assert!(b.legal_moves(255).is_empty());
    assert!(b.pseudo_legal_moves(64).is_empty());
    assert_eq!(b.piece_at(64), None);
}

#[test]
fn no_king_means_no_legal_moves() {
    let b = board("4k3/8/8/8/8/8/4P3/8 w - - 0 1");
    assert!(b.legal_moves(sq("e2")).is_empty());
    assert_eq!(b.pseudo_legal_moves(sq("e2")), vec![sq("e3"), sq("e4")]);
    assert_eq!(b.is_game_over(), Status::Draw);
}

#[test]
fn pieces_of_the_side_not_to_move_are_not_tried() {
    let b = board(STARTING_FEN);
    assert_eq!(b.legal_moves(sq("e7")), vec![sq("e5"), sq("e6")]);
    assert_eq!(b.legal_moves(sq("b8")), vec![sq("a6"), sq("c6")]);
}

#[test]
fn legal_moves_is_idempotent() {
    let b = board("r3k2r/p1ppqpb1/bn2pnp1/3PN3/1p2P3/2N2Q1p/PPPBBPPP/R3K2R w KQkq - 0 1");
    for s in 0..64u8 {
        let first = b.legal_moves(s);
        let second = b.legal_moves(s);
        assert_eq!(first, second);
        let mut sorted = first.clone();
        sorted.sort();
        sorted.dedup();
        assert_eq!(first, sorted);
    }
}

#[test]
fn pawn_moves() {
    // Blocked pawns do not advance, and an advance is never a capture.
    let b = board("4k3/8/8/8/4p3/4P3/8/4K3 w - - 0 1");
    assert!(b.legal_moves(sq("e3")).is_empty());
    // A double step needs both squares empty.
    let b = board("4k3/8/8/8/4p3/8/4P3/4K3 w - - 0 1");
    assert_eq!(b.legal_moves(sq("e2")), vec![sq("e3")]);
    let b = board("4k3/8/8/8/8/4p3/4P3/4K3 w - - 0 1");
    assert!(b.legal_moves(sq("e2")).is_empty());
    // Captures go diagonally forward, onto enemy pieces only.
    let b = board("4k3/8/8/8/8/3p1P2/4P3/4K3 w - - 0 1");
    assert_eq!(b.legal_moves(sq("e2")), vec![sq("d3"), sq("e3"), sq("e4")]);
    // Black pawns move down the board.
    let b = board("4k3/4p3/3P4/8/8/8/8/4K3 b - - 0 1");
    assert_eq!(b.legal_moves(sq("e7")), vec![sq("e5"), sq("d6"), sq("e6")]);
}

#[test]
fn knight_moves() {
    let b = board("4k3/8/8/8/3N4/8/8/4K3 w - - 0 1");
    assert_eq!(
        b.legal_moves(sq("d4")),
        vec![sq("c2"), sq("e2"), sq("b3"), sq("f3"), sq("b5"), sq("f5"), sq("c6"), sq("e6")]
    );
    let b = board("4k3/8/8/8/8/8/8/N3K3 w - - 0 1");
    assert_eq!(b.legal_moves(sq("a1")), vec![sq("c2"), sq("b3")]);
}

#[test]
fn sliding_moves_stop_at_pieces() {
    let b = board("4k3/8/8/3p4/8/8/3RP3/4K3 w - - 0 1");
    assert_eq!(
        b.legal_moves(sq("d2")),
        vec![sq("d1"), sq("a2"), sq("b2"), sq("c2"), sq("d3"), sq("d4"), sq("d5")]
    );
    let b = board("4k3/8/5p2/8/3B4/8/1P6/4K3 w - - 0 1");
    assert_eq!(
        b.legal_moves(sq("d4")),
        vec![sq("g1"), sq("f2"), sq("c3"), sq("e3"), sq("c5"), sq("e5"), sq("b6"), sq("f6"), sq("a7")]
    );
    let b = board("4k3/8/8/8/8/8/PP6/QP2K3 w - - 0 1");
    assert!(b.legal_moves(sq("a1")).is_empty());
    let b = board("4k3/8/8/8/8/8/8/Q3K3 w - - 0 1");
    assert_eq!(b.legal_moves(sq("a1")).len(), 3 + 7 + 7);
}

#[test]
fn king_avoids_attacked_squares() {
    let b = board("4k3/8/8/8/8/8/r7/4K3 w - - 0 1");
    assert_eq!(b.legal_moves(sq("e1")), vec![sq("d1"), sq("f1")]);
}

#[test]
fn pinned_piece_may_not_leave_the_line() {
    let b = board("4k3/4r3/8/8/8/8/4R3/4K3 w - - 0 1");
    assert_eq!(
        b.legal_moves(sq("e2")),
        vec![sq("e3"), sq("e4"), sq("e5"), sq("e6"), sq("e7")]
    );
    let b = board("4k3/4r3/8/8/8/8/4N3/4K3 w - - 0 1");
    assert!(b.legal_moves(sq("e2")).is_empty());
    assert_eq!(b.pseudo_legal_moves(sq("e2")).len(), 6);
}

#[test]
fn check_must_be_answered() {
    let b = board("4k3/8/8/8/8/8/3P4/r3K3 w - - 0 1");
    // The king steps out of the first rank; no other piece can help.
    assert_eq!(b.legal_moves(sq("e1")), vec![sq("e2"), sq("f2")]);
    assert!(b.legal_moves(sq("d2")).is_empty());
    // A piece that shields the king stays on the line of the attack.
    let b = board("4k3/8/8/8/8/8/8/r2RK3 w - - 0 1");
    assert_eq!(b.legal_moves(sq("d1")), vec![sq("a1"), sq("b1"), sq("c1")]);
    let b = board("4k3/8/8/8/8/8/3N4/r3K3 w - - 0 1");
    assert_eq!(b.legal_moves(sq("d2")), vec![sq("b1")]);
    let b = board("4k3/8/8/8/8/8/3R4/r3K3 w - - 0 1");
    assert_eq!(b.legal_moves(sq("d2")), vec![sq("d1")]);
}

#[test]
fn checked_squares_lists_the_attack_set() {
    let b = board("4k3/8/8/8/8/8/8/4K3 w - - 0 1");
    assert_eq!(
        b.checked_squares(),
        vec![sq("d7"), sq("e7"), sq("f7"), sq("d8"), sq("f8")]
    );
    // A pawn's advances are no attacks, and it attacks only what it could capture.
    let b = board("4k3/8/8/8/8/2N5/1p6/4K3 w - - 0 1");
    let attacked = b.checked_squares();
    assert!(!attacked.contains(&sq("b1")));
    assert!(!attacked.contains(&sq("a1")));
    assert!(!attacked.contains(&sq("c1")));
    let b = board("4k3/8/8/8/8/8/1p6/N3K3 w - - 0 1");
    assert!(b.checked_squares().contains(&sq("a1")));
    assert!(!b.checked_squares().contains(&sq("b1")));
}

#[test]
fn en_passant_window() {
    let mut b = board(STARTING_FEN);
    b.make_move(sq("e2"), sq("e4")).unwrap();
    assert_eq!(b.en_passant_square(), Some(sq("e3")));
    assert_eq!(b.to_fen(), "rnbqkbnr/pppppppp/8/8/4P3/8/PPPP1PPP/RNBQKBNR b KQkq e3 0 1");
    b.make_move(sq("a7"), sq("a6")).unwrap();
    assert_eq!(b.en_passant_square(), None);
    b.make_move(sq("e4"), sq("e5")).unwrap();
    b.make_move(sq("d7"), sq("d5")).unwrap();
    assert_eq!(b.en_passant_square(), Some(sq("d6")));
    assert_eq!(b.legal_moves(sq("e5")), vec![sq("d6"), sq("e6")]);

    // Taken at once, the pawn that passed is removed.
    let mut taken = b;
    taken.make_move(sq("e5"), sq("d6")).unwrap();
    assert_eq!(taken.piece_at(sq("d5")), None);
    assert_eq!(taken.piece_at(sq("e5")), None);
    assert_eq!(
        taken.piece_at(sq("d6")),
        Some(Piece { kind: PieceKind::Pawn, white: true })
    );
    assert_eq!(taken.en_passant_square(), None);
    assert_eq!(taken.to_fen(), "rnbqkbnr/1pp1pppp/p2P4/8/8/8/PPPP1PPP/RNBQKBNR b KQkq - 0 1");

    // One ply later the capture is gone.
    b.make_move(sq("h2"), sq("h3")).unwrap();
    b.make_move(sq("h7"), sq("h6")).unwrap();
    assert_eq!(b.legal_moves(sq("e5")), vec![sq("e6")]);
    assert_eq!(b.make_move(sq("e5"), sq("d6")), Err(MoveError::Illegal));
}

#[test]
fn castling_is_legal_on_an_open_back_rank() {
    let b = board("r3k2r/8/8/8/8/8/8/R3K2R w KQkq - 0 1");
    let king = b.legal_moves(sq("e1"));
    assert!(king.contains(&sq("g1")));
    assert!(king.contains(&sq("c1")));
    assert_eq!(
        king,
        vec![sq("c1"), sq("d1"), sq("f1"), sq("g1"), sq("d2"), sq("e2"), sq("f2")]
    );
    let mut short = b;
    short.make_move(sq("e1"), sq("g1")).unwrap();
    assert_eq!(short.to_fen(), "r3k2r/8/8/8/8/8/8/R4RK1 b kq - 0 1");
    let mut long = b;
    long.make_move(sq("e1"), sq("c1")).unwrap();
    assert_eq!(long.to_fen(), "r3k2r/8/8/8/8/8/8/2KR3R b kq - 0 1");
    let mut black = board("r3k2r/8/8/8/8/8/8/R3K2R b KQkq - 0 1");
    black.make_move(sq("e8"), sq("c8")).unwrap();
    assert_eq!(black.to_fen(), "2kr3r/8/8/8/8/8/8/R3K2R w KQ - 0 1");
    let mut black = board("r3k2r/8/8/8/8/8/8/R3K2R b KQkq - 0 1");
    black.make_move(sq("e8"), sq("g8")).unwrap();
    assert_eq!(black.to_fen(), "r4rk1/8/8/8/8/8/8/R3K2R w KQ - 0 1");
}

#[test]
fn castling_is_gated() {
    // Without the right.
    let b = board("r3k2r/8/8/8/8/8/8/R3K2R w Qkq - 0 1");
    assert!(!b.legal_moves(sq("e1")).contains(&sq("g1")));
    assert!(b.legal_moves(sq("e1")).contains(&sq("c1")));
    // With a piece in between.
    let b = board("r3k2r/8/8/8/8/8/8/R3KB1R w KQkq - 0 1");
    assert!(!b.legal_moves(sq("e1")).contains(&sq("g1")));
    let b = board("r3k2r/8/8/8/8/8/8/RN2K2R w KQkq - 0 1");
    assert!(!b.legal_moves(sq("e1")).contains(&sq("c1")));
    // Out of check.
    let b = board("r3k2r/8/8/8/8/8/4r3/R3K2R w KQkq - 0 1");
    assert!(!b.legal_moves(sq("e1")).contains(&sq("g1")));
    assert!(!b.legal_moves(sq("e1")).contains(&sq("c1")));
    // Through an attacked square.
    let b = board("r3k2r/8/8/8/8/8/5r2/R3K2R w KQkq - 0 1");
    assert!(!b.legal_moves(sq("e1")).contains(&sq("g1")));
    // Onto an attacked square.
    let b = board("r3k2r/8/8/8/8/8/6r1/R3K2R w KQkq - 0 1");
    assert!(!b.legal_moves(sq("e1")).contains(&sq("g1")));
    assert!(b.legal_moves(sq("e1")).contains(&sq("c1")));
    // An attack on b1 does not hinder castling long.
    let b = board("r3k2r/8/8/8/8/8/1r6/R3K2R w KQkq - 0 1");
    assert!(b.legal_moves(sq("e1")).contains(&sq("c1")));
    // A king away from home does not castle, whatever the record claims.
    let b = board("r3k2r/8/8/8/8/8/4K3/R6R w KQkq - 0 1");
    assert!(!b.legal_moves(sq("e2")).contains(&sq("g1")));
    assert!(!b.legal_moves(sq("e2")).contains(&sq("c1")));
}

#[test]
fn moving_king_or_rook_gives_up_castling() {
    let start = board("r3k2r/8/8/8/8/8/8/R3K2R w KQkq - 0 1");
    let mut b = start;
    b.make_move(sq("e1"), sq("e2")).unwrap();
    assert!(!b.white_can_oo() && !b.white_can_ooo());
    assert!(b.black_can_oo() && b.black_can_ooo());
    b.make_move(sq("e8"), sq("e7")).unwrap();
    b.make_move(sq("e2"), sq("e1")).unwrap();
    b.make_move(sq("e7"), sq("e8")).unwrap();
    assert_eq!(b.to_fen(), "r3k2r/8/8/8/8/8/8/R3K2R w - - 0 1");
    assert!(!b.legal_moves(sq("e1")).contains(&sq("g1")));
    assert!(!b.legal_moves(sq("e1")).contains(&sq("c1")));

    let mut b = start;
    b.make_move(sq("h1"), sq("h2")).unwrap();
    assert!(!b.white_can_oo() && b.white_can_ooo());
    b.make_move(sq("a8"), sq("a7")).unwrap();
    assert!(b.black_can_oo() && !b.black_can_ooo());
    b.make_move(sq("a1"), sq("b1")).unwrap();
    assert!(!b.white_can_oo() && !b.white_can_ooo());
    b.make_move(sq("h8"), sq("g8")).unwrap();
    assert_eq!(b.to_fen(), "4k1r1/r7/8/8/8/8/7R/1R2K3 w - - 0 1");
}

#[test]
fn promotion_is_to_a_queen() {
    let mut b = board("4k3/1P6/8/8/8/8/8/4K3 w - - 0 1");
    b.make_move(sq("b7"), sq("b8")).unwrap();
    assert_eq!(
        b.piece_at(sq("b8")),
        Some(Piece { kind: PieceKind::Queen, white: true })
    );
    assert!(!b.white_to_play());
    assert_eq!(b.to_fen(), "1Q2k3/8/8/8/8/8/8/4K3 b - - 0 1");
    let mut b = board("4k3/8/8/8/8/8/7p/K7 b - - 0 1");
    b.make_move(sq("h2"), sq("h1")).unwrap();
    assert_eq!(
        b.piece_at(sq("h1")),
        Some(Piece { kind: PieceKind::Queen, white: false })
    );
    assert!(b.white_to_play());
}

#[test]
fn fools_mate() {
    let mut b = board(STARTING_FEN);
    b.make_move(sq("f2"), sq("f3")).unwrap();
    b.make_move(sq("e7"), sq("e5")).unwrap();
    b.make_move(sq("g2"), sq("g4")).unwrap();
    assert_eq!(b.status(), Status::Ongoing);
    b.make_move(sq("d8"), sq("h4")).unwrap();
    assert_eq!(b.status(), Status::Win { white: false });
    assert_eq!(count_moves(&b), 0);
    for s in 0..64u8 {
        if matches!(b.piece_at(s), Some(p) if p.white) {
            assert!(b.legal_moves(s).is_empty());
        }
    }
    assert!(b.checked_squares().contains(&sq("e1")));
    assert_eq!(b.make_move(sq("e1"), sq("f2")), Err(MoveError::GameOver));

    let loaded = board("rnb1kbnr/pppp1ppp/8/4p3/6Pq/5P2/PPPPP2P/RNBQKBNR w KQkq - 1 3");
    assert_eq!(loaded.pieces(), b.pieces());
    assert_eq!(loaded.status(), Status::Ongoing);
    assert_eq!(loaded.is_game_over(), Status::Win { white: false });
    assert_eq!(count_moves(&loaded), 0);
}

#[test]
fn stalemate_is_a_draw() {
    let mut b = board("7k/8/5QK1/8/8/8/8/8 w - - 0 1");
    b.make_move(sq("f6"), sq("f7")).unwrap();
    assert_eq!(b.status(), Status::Draw);
    assert_eq!(b.is_game_over(), Status::Draw);
    assert!(!b.checked_squares().contains(&sq("h8")));
    for s in 0..64u8 {
        if matches!(b.piece_at(s), Some(p) if !p.white) {
            assert!(b.legal_moves(s).is_empty());
        }
    }
    assert_eq!(b.make_move(sq("h8"), sq("h7")), Err(MoveError::GameOver));
}

#[test]
fn white_can_win_too() {
    let mut b = board("6k1/5ppp/8/8/8/8/8/R3K3 w - - 0 1");
    b.make_move(sq("a1"), sq("a8")).unwrap();
    assert_eq!(b.status(), Status::Win { white: true });
}

#[test]
fn refused_moves_leave_the_board_alone() {
    let start = board(STARTING_FEN);
    let mut b = start;
    assert_eq!(b.make_move(64, 0), Err(MoveError::OutOfRange));
    assert_eq!(b.make_move(0, 64), Err(MoveError::OutOfRange));
    assert_eq!(b.make_move(200, 200), Err(MoveError::OutOfRange));
    // An empty square, and moves that the piece has not.
    assert_eq!(b.make_move(sq("e4"), sq("e5")), Err(MoveError::Illegal));
    assert_eq!(b.make_move(sq("e2"), sq("e5")), Err(MoveError::Illegal));
    assert_eq!(b.make_move(sq("a1"), sq("a2")), Err(MoveError::Illegal));
    assert_eq!(b.make_move(sq("e7"), sq("e4")), Err(MoveError::Illegal));
    assert_eq!(b, start);
}

#[test]
fn every_listed_move_is_made() {
    // The moves of the side that is not to move are listed, and made.
    let mut b = board(STARTING_FEN);
    assert!(b.legal_moves(sq("e7")).contains(&sq("e5")));
    assert_eq!(b.make_move(sq("e7"), sq("e5")), Ok(()));
    assert_eq!(b.piece_at(sq("e7")), None);
    assert_eq!(
        b.piece_at(sq("e5")),
        Some(Piece { kind: PieceKind::Pawn, white: false })
    );
    assert_eq!(b.en_passant_square(), Some(sq("e6")));
    assert!(!b.white_to_play());
    assert_eq!(b.status(), b.is_game_over());
    assert_eq!(b.to_fen(), "rnbqkbnr/pppp1ppp/8/4p3/8/8/PPPPPPPP/RNBQKBNR b KQkq e6 0 1");

    // A king of the other side loses its rights by moving, and an old en
    // passant target is cleared.
    let mut b = board("r3k2r/8/8/8/4P3/8/8/R3K2R w KQkq e3 0 1");
    assert!(b.legal_moves(sq("e8")).contains(&sq("e7")));
    assert_eq!(b.make_move(sq("e8"), sq("e7")), Ok(()));
    assert!(!b.black_can_oo() && !b.black_can_ooo());
    assert!(b.white_can_oo() && b.white_can_ooo());
    assert_eq!(b.en_passant_square(), None);
    assert_eq!(b.to_fen(), "r6r/4k3/8/8/4P3/8/8/R3K2R b KQ - 0 1");

    // A rook of the other side that leaves its corner loses that right.
    let mut b = board("r3k2r/8/8/8/8/8/8/R3K2R w KQkq - 0 1");
    assert_eq!(b.make_move(sq("a8"), sq("a5")), Ok(()));
    assert!(b.black_can_oo() && !b.black_can_ooo());

    // The status is that of the new position, for the side then to move.
    let mut b = board("7k/8/5K2/6Q1/8/8/8/8 b - - 0 1");
    assert!(b.legal_moves(sq("g5")).contains(&sq("g7")));
    assert_eq!(b.make_move(sq("g5"), sq("g7")), Ok(()));
    assert_eq!(b.status(), b.is_game_over());
    assert_eq!(b.status(), Status::Ongoing);
    assert!(b.white_to_play());
}

#[test]
fn counters_stay_as_they_are() {
    let mut b = board("rnbqkbnr/pppppppp/8/8/8/8/PPPPPPPP/RNBQKBNR w KQkq - 7 9");
    b.make_move(sq("g1"), sq("f3")).unwrap();
    b.make_move(sq("g8"), sq("f6")).unwrap();
    assert_eq!(b.halfmove_clock(), 7);
    assert_eq!(b.fullmove_number(), 9);
    assert!(b.white_to_play());
}

#[test]
fn captures_replace_the_piece() {
    let mut b = board("4k3/8/8/3p4/4P3/8/8/4K3 w - - 0 1");
    b.make_move(sq("e4"), sq("d5")).unwrap();
    assert_eq!(b.to_fen(), "4k3/8/8/3P4/8/8/8/4K3 b - - 0 1");
}

#[test]
fn a_king_out_of_check_is_not_tried() {
    // The king avoids the attack set, which holds what the enemy could move
    // to: an empty square that only a pawn guards is not in it.
    let b = board("4k3/8/8/8/4p3/8/5K2/8 w - - 0 1");
    assert!(!b.checked_squares().contains(&sq("f3")));
    assert!(b.legal_moves(sq("f2")).contains(&sq("f3")));
    // In check every move of the king is tried.
    let b = board("4k3/8/8/8/8/4p3/5K2/8 w - - 0 1");
    assert!(b.checked_squares().contains(&sq("f2")));
    assert_eq!(
        b.legal_moves(sq("f2")),
        vec![sq("e1"), sq("f1"), sq("g1"), sq("e2"), sq("g2"), sq("e3"), sq("f3"), sq("g3")]
    );
    // A rook's check along the file: the king may not stay on the file.
    let b = board("4k3/8/8/8/5r2/8/5K2/8 w - - 0 1");
    assert_eq!(
        b.legal_moves(sq("f2")),
        vec![sq("e1"), sq("g1"), sq("e2"), sq("g2"), sq("e3"), sq("g3")]
    );
}

#[test]
fn a_board_is_read_back_from_its_record() {
    let mut b = board(STARTING_FEN);
    let moves = [
        ("e2", "e4"),
        ("c7", "c5"),
        ("g1", "f3"),
        ("d7", "d6"),
        ("f1", "b5"),
        ("c8", "d7"),
        ("e1", "g1"),
        ("d7", "b5"),
        ("a2", "a4"),
    ];
    for (from, to) in moves {
        b.make_move(sq(from), sq(to)).unwrap();
        let again = board(&b.to_fen());
        assert_eq!(again, b);
        assert_eq!(again.to_fen(), b.to_fen());
    }
    assert_eq!(
        b.to_fen(),
        "rn1qkbnr/pp2pppp/3p4/1bp5/P3P3/5N2/1PPP1PPP/RNBQ1RK1 b kq a3 0 1"
    );
}
