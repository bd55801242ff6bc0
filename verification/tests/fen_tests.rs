use devi::board::{Board, ArrayBoard};
use devi::fen::FenError;
use devi::perft::perft;
use devi::types::{Color, Move, Piece, PieceType, SpecialMove, Square};

#[test]
fn starting_position_fen_renders_exactly() {
    let mut board = Board::new();
    board.setup_starting_position();
    assert_eq!(
        board.to_fen(),
        "rnbqkbnr/pppppppp/8/8/8/8/PPPPPPPP/RNBQKBNR w KQkq - 0 1"
    );
}

#[test]
fn fen_round_trip_is_exact() {
    let fens = [
        "rnbqkbnr/pppppppp/8/8/8/8/PPPPPPPP/RNBQKBNR w KQkq - 0 1",
        "r3k2r/p1ppqpb1/bn2pnp1/3PN3/1p2P3/2N2Q1p/PPPBBPPP/R3K2R w KQkq - 0 1",
        "8/2p5/3p4/KP5r/1R3p1k/8/4P1P1/8 w - - 0 1",
        "rnbqkbnr/ppp1pppp/8/3pP3/8/8/PPPP1PPP/RNBQKBNR w KQkq d6 0 3",
        "k7/2Q5/1K6/8/8/8/8/8 b - - 17 42",
    ];
    for fen in fens {
        let board = ArrayBoard::from_fen(fen).unwrap();
        assert_eq!(board.to_fen(), *fen);
    }
}

#[test]
fn fen_parser_accepts_four_and_five_fields() {
    let four = ArrayBoard::from_fen("8/8/8/8/8/5k2/8/4K2R w K -").unwrap();
    assert_eq!(four.halfmove_clock(), 0);
    assert_eq!(four.fullmove_clock(), 1);
    let five = ArrayBoard::from_fen("8/8/8/8/8/5k2/8/4K2R w K - 7").unwrap();
    assert_eq!(five.halfmove_clock(), 7);
    assert_eq!(five.fullmove_clock(), 1);
}

#[test]
fn fen_parser_reads_every_field() {
    let board = ArrayBoard::from_fen(
        "rnbqkbnr/ppp1pppp/8/3pP3/8/8/PPPP1PPP/RNBQKBNR b Kq d6 3 9",
    )
    .unwrap();
    assert_eq!(board.to_move(), Color::Black);
    assert_eq!(board.castling_rights(), 1 | 8);
    assert_eq!(board.en_passant(), Some(Square(43)));
    assert_eq!(board.halfmove_clock(), 3);
    assert_eq!(board.fullmove_clock(), 9);
    assert_eq!(
        board.get_piece(Square(36)),
        Some(Piece::new(PieceType::Pawn, Color::White))
    );
}

#[test]
fn fen_errors_name_the_bad_field() {
    assert_eq!(ArrayBoard::from_fen("only three fields").unwrap_err(), FenError::NotEnoughFields);
    assert_eq!(ArrayBoard::from_fen("8/8/8/8/8/8/8 w - - 0 1").unwrap_err(), FenError::BadRankCount);
    assert_eq!(ArrayBoard::from_fen("8/8/8/8/8/8/8/44p w - - 0 1").unwrap_err(), FenError::RankOverflow);
    assert_eq!(ArrayBoard::from_fen("8/8/8/8/8/8/8/7x w - - 0 1").unwrap_err(), FenError::BadPiece);
    assert_eq!(ArrayBoard::from_fen("8/8/8/8/8/8/8/8 z - - 0 1").unwrap_err(), FenError::BadSideToMove);
    assert_eq!(ArrayBoard::from_fen("8/8/8/8/8/8/8/8 w X - 0 1").unwrap_err(), FenError::BadCastling);
    assert_eq!(ArrayBoard::from_fen("8/8/8/8/8/8/8/8 w - j9 0 1").unwrap_err(), FenError::BadEnPassant);
    assert_eq!(ArrayBoard::from_fen("8/8/8/8/8/8/8/8 w - e99 0 1").unwrap_err(), FenError::BadEnPassant);
}

#[test]
fn garbage_clocks_fall_back_to_defaults() {
    let board = ArrayBoard::from_fen("8/8/8/8/8/5k2/8/4K2R w K - xy zz").unwrap();
    assert_eq!(board.halfmove_clock(), 0);
    assert_eq!(board.fullmove_clock(), 1);
}

#[test]
fn fen_round_trip_preserves_perft() {
    let mut board = Board::new();
    board.setup_starting_position();
    let fen = board.to_fen();
    let mut board2 = ArrayBoard::from_fen(&fen).unwrap();
    assert_eq!(perft(&mut board, 3), perft(&mut board2, 3));
}

#[test]
fn move_algebraic_forms() {
    let quiet = Move::new(Square(12), Square(28), None, None);
    assert_eq!(quiet.to_algebraic(), "e2e4");
    let promo = Move::new(
        Square(52),
        Square(60),
        Some(SpecialMove::Promotion),
        Some(PieceType::Queen),
    );
    assert_eq!(promo.to_algebraic(), "e7e8q");
    let short = Move::new(Square(4), Square(6), Some(SpecialMove::Castle), None);
    assert_eq!(short.to_algebraic(), "O-O");
    let long = Move::new(Square(4), Square(2), Some(SpecialMove::Castle), None);
    assert_eq!(long.to_algebraic(), "O-O-O");
    assert_eq!(Square(0).to_alg(), "a1");
    assert_eq!(Square(63).to_alg(), "h8");
}

#[test]
fn clock_fields_beyond_ascii_fall_back_to_defaults() {
    // The mandatory fields decide acceptance; an unparseable clock field,
    // multi-byte characters included, defaults like any other garbage.
    let board = ArrayBoard::from_fen("8/8/8/8/8/5k2/8/4K2R w K - ½ 1").unwrap();
    assert_eq!(board.halfmove_clock(), 0);
    assert_eq!(board.fullmove_clock(), 1);
    let board = ArrayBoard::from_fen("8/8/8/8/8/5k2/8/4K2R w K - 3 ¾").unwrap();
    assert_eq!(board.halfmove_clock(), 3);
    assert_eq!(board.fullmove_clock(), 1);
}

#[test]
fn placement_beyond_ascii_is_a_bad_piece() {
    assert_eq!(
        ArrayBoard::from_fen("8/8/8/8/8/8/8/é7 w - - 0 1").unwrap_err(),
        FenError::BadPiece
    );
}
