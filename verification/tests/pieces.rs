use chess_engine::{pack_squares, Piece, PieceKind, Quad};

const KINDS: [PieceKind; 6] = [
    PieceKind::Pawn,
    PieceKind::Knight,
    PieceKind::Bishop,
    PieceKind::Rook,
    PieceKind::Queen,
    PieceKind::King,
];

#[test]
fn piece_letters() {
    let letters = ['P', 'N', 'B', 'R', 'Q', 'K'];
    for (kind, letter) in KINDS.iter().zip(letters) {
        let white = Piece { kind: *kind, white: true };
        let black = Piece { kind: *kind, white: false };
        assert_eq!(white.to_char(), letter);
        assert_eq!(black.to_char(), letter.to_ascii_lowercase());
        assert_eq!(Piece::from_char(letter), Some(white));
        assert_eq!(Piece::from_char(letter.to_ascii_lowercase()), Some(black));
    }
}

#[test]
fn only_twelve_characters_are_pieces() {
    let mut count = 0;
    for code in 0..0x3000u32 {
        if let Some(c) = char::from_u32(code) {
            if let Some(piece) = Piece::from_char(c) {
                assert_eq!(piece.to_char(), c);
                count += 1;
            }
        }
    }
    assert_eq!(count, 12);
    assert_eq!(Piece::from_char('x'), None);
    assert_eq!(Piece::from_char('1'), None);
    assert_eq!(Piece::from_char(' '), None);
}

#[test]
fn sprite_indices() {
    let order = [
        PieceKind::Rook,
        PieceKind::Knight,
        PieceKind::Bishop,
        PieceKind::Queen,
        PieceKind::King,
        PieceKind::Pawn,
    ];
    for (i, kind) in order.iter().enumerate() {
        assert_eq!(Piece { kind: *kind, white: true }.to_idx(), i as u32);
        assert_eq!(Piece { kind: *kind, white: false }.to_idx(), i as u32 + 6);
    }
}

#[test]
fn quad_indices() {
    assert_eq!(Quad::generate_indices(0), Vec::<u32>::new());
    assert_eq!(Quad::generate_indices(4), vec![0, 1, 2, 0, 2, 3]);
    assert_eq!(
        Quad::generate_indices(8),
        vec![0, 1, 2, 0, 2, 3, 4, 5, 6, 4, 6, 7]
    );
    assert_eq!(
        Quad::generate_indices(5),
        vec![0, 1, 2, 0, 2, 3, 4, 5, 6, 4, 6, 7]
    );
    assert_eq!(Quad::generate_indices(1), vec![0, 1, 2, 0, 2, 3]);
    assert_eq!(Quad::generate_indices(400).len(), 600);
}

#[test]
fn squares_as_bit_masks() {
    assert_eq!(pack_squares(&[]), (0, 0));
    assert_eq!(pack_squares(&[0]), (1, 0));
    assert_eq!(pack_squares(&[31]), (0x8000_0000, 0));
    assert_eq!(pack_squares(&[32]), (0, 1));
    assert_eq!(pack_squares(&[63]), (0, 0x8000_0000));
    assert_eq!(pack_squares(&[20, 28, 36, 44, 20]), (0x1010_0000, 0x1010));
    // Numbers that are no squares set no bit.
    assert_eq!(pack_squares(&[64, 96, 255, 3]), (8, 0));
    let all: Vec<u8> = (0..64).collect();
    assert_eq!(pack_squares(&all), (u32::MAX, u32::MAX));
}
