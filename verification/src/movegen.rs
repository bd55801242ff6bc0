use vstd::prelude::*;
use crate::types::{Color, Piece, PieceType, Square, SpecialMove, Move, WK, WQ, BK, BQ};
use crate::board::{ArrayBoard, BoardView, makeable};
use crate::attack::{spec_in_check, spec_attacked};
use crate::piece_moves::{
    spec_pawn_moves, spec_knight_moves, spec_king_moves, spec_rook_moves, spec_bishop_moves,
    spec_queen_moves, spec_pawn_pushes, spec_pawn_captures, spec_pawn_ep, pawn_capture_seq,
    step_move_seq, rook_ray_moves, bishop_ray_moves, promo_fan, all_makeable,
    lemma_all_makeable_concat, generate_pawn_moves, generate_knight_moves, generate_king_moves,
    generate_rook_moves, generate_bishop_moves, generate_queen_moves,
};

verus! {

/// The king's home square for each side.
pub open spec fn king_home(c: Color) -> int {
    match c {
        Color::White => 4,
        Color::Black => 60,
    }
}

/// The kingside castle, emitted when the right is held, the king really
/// stands on its home square, the rook on its corner, the two squares
/// between them are empty and none of the king's three squares is attacked.
pub open spec fn spec_castle_kingside(b: BoardView, c: Color) -> Seq<Move> {
    let ks = king_home(c);
    let right: u8 = match c {
        Color::White => WK,
        Color::Black => BK,
    };
    if b.castling_rights & right != 0
        && b.piece_at(ks) == Some(Piece { piece_type: PieceType::King, color: c })
        && b.piece_at(ks + 1) is None
        && b.piece_at(ks + 2) is None
        && b.piece_at(ks + 3) == Some(Piece { piece_type: PieceType::Rook, color: c })
        && !spec_attacked(b, ks, c.spec_opposite())
        && !spec_attacked(b, ks + 1, c.spec_opposite())
        && !spec_attacked(b, ks + 2, c.spec_opposite()) {
        seq![Move {
            from: Square(ks as u8),
            to: Square((ks + 2) as u8),
            special_move: Some(SpecialMove::Castle),
            promotion: None,
        }]
    } else {
        Seq::<Move>::empty()
    }
}

/// The queenside castle, under the mirror-image conditions (three empty
/// squares between king and rook; the king's own three squares safe).
pub open spec fn spec_castle_queenside(b: BoardView, c: Color) -> Seq<Move> {
    let ks = king_home(c);
    let right: u8 = match c {
        Color::White => WQ,
        Color::Black => BQ,
    };
    if b.castling_rights & right != 0
        && b.piece_at(ks) == Some(Piece { piece_type: PieceType::King, color: c })
        && b.piece_at(ks - 1) is None
        && b.piece_at(ks - 2) is None
        && b.piece_at(ks - 3) is None
        && b.piece_at(ks - 4) == Some(Piece { piece_type: PieceType::Rook, color: c })
        && !spec_attacked(b, ks, c.spec_opposite())
        && !spec_attacked(b, ks - 2, c.spec_opposite())
        && !spec_attacked(b, ks - 1, c.spec_opposite()) {
        seq![Move {
            from: Square(ks as u8),
            to: Square((ks - 2) as u8),
            special_move: Some(SpecialMove::Castle),
            promotion: None,
        }]
    } else {
        Seq::<Move>::empty()
    }
}

/// No castling while in check; otherwise kingside then queenside.
pub open spec fn spec_castling_moves(b: BoardView, c: Color) -> Seq<Move> {
    if spec_in_check(b, c) {
        Seq::<Move>::empty()
    } else {
        spec_castle_kingside(b, c) + spec_castle_queenside(b, c)
    }
}

/// The pseudo-legal moves of one piece.
pub open spec fn spec_piece_moves(b: BoardView, sq: Square, c: Color, pt: PieceType) -> Seq<Move> {
    match pt {
        PieceType::Pawn => spec_pawn_moves(b, sq, c),
        PieceType::Knight => spec_knight_moves(b, sq, c),
        PieceType::King => spec_king_moves(b, sq, c),
        PieceType::Rook => spec_rook_moves(b, sq, c),
        PieceType::Bishop => spec_bishop_moves(b, sq, c),
        PieceType::Queen => spec_queen_moves(b, sq, c),
    }
}

/// All piece moves from squares 0 up to `n`, in square order.
pub open spec fn spec_moves_upto(b: BoardView, c: Color, n: int) -> Seq<Move>
    decreases n,
{
    if n <= 0 {
        Seq::<Move>::empty()
    } else {
        spec_moves_upto(b, c, n - 1) + match b.piece_at(n - 1) {
            Some(p) => if p.color == c {
                spec_piece_moves(b, Square((n - 1) as u8), c, p.piece_type)
            } else {
                Seq::<Move>::empty()
            },
            None => Seq::<Move>::empty(),
        }
    }
}

/// Every pseudo-legal move of `c`: piece moves in square order, castles last.
pub open spec fn spec_generate_moves(b: BoardView, c: Color) -> Seq<Move> {
    spec_moves_upto(b, c, 64) + spec_castling_moves(b, c)
}

/// Castling moves emitted when the side is not in check.
fn generate_castling_moves(board: &ArrayBoard, color: Color) -> (r: Vec<Move>)
    requires
        board@.wf(),
    ensures
        r@ == spec_castling_moves(board@, color),
{
    let mut moves: Vec<Move> = Vec::new();

    if board.is_in_check(color) {
        assert(moves@ =~= spec_castling_moves(board@, color));
        return moves;
    }

    let (king_square, kingside_right, queenside_right): (Square, u8, u8) = match color {
        Color::White => (Square(4), WK, WQ),
        Color::Black => (Square(60), BK, BQ),
    };

    let opponent_color = color.opposite();
    let castling_rights = board.castling_rights();

    // Kingside: the king must really stand on its home square, so that the
    // move can be made (and unmade) even on a board whose castling rights
    // disagree with its pieces.
    if (castling_rights & kingside_right) != 0 {
        let f_square = Square(king_square.0 + 1);
        let g_square = Square(king_square.0 + 2);
        let h_square = Square(king_square.0 + 3);

        let king_ok = match board.get_piece(king_square) {
            Some(piece) => piece.piece_type == PieceType::King && piece.color == color,
            None => false,
        };
        if king_ok && board.is_empty(f_square) && board.is_empty(g_square) {
            let rook_ok = match board.get_piece(h_square) {
                Some(piece) => piece.piece_type == PieceType::Rook && piece.color == color,
                None => false,
            };
            if rook_ok {
                if !board.is_square_attacked(king_square, opponent_color)
                    && !board.is_square_attacked(f_square, opponent_color)
                    && !board.is_square_attacked(g_square, opponent_color)
                {
                    moves.push(Move {
                        from: king_square,
                        to: g_square,
                        special_move: Some(SpecialMove::Castle),
                        promotion: None,
                    });
                }
            }
        }
    }
    assert(moves@ =~= spec_castle_kingside(board@, color));

    // Queenside.
    if (castling_rights & queenside_right) != 0 {
        let d_square = Square(king_square.0 - 1);
        let c_square = Square(king_square.0 - 2);
        let b_square = Square(king_square.0 - 3);
        let a_square = Square(king_square.0 - 4);

        let king_ok = match board.get_piece(king_square) {
            Some(piece) => piece.piece_type == PieceType::King && piece.color == color,
            None => false,
        };
        if king_ok && board.is_empty(d_square) && board.is_empty(c_square) && board.is_empty(b_square) {
            let rook_ok = match board.get_piece(a_square) {
                Some(piece) => piece.piece_type == PieceType::Rook && piece.color == color,
                None => false,
            };
            if rook_ok {
                if !board.is_square_attacked(king_square, opponent_color)
                    && !board.is_square_attacked(c_square, opponent_color)
                    && !board.is_square_attacked(d_square, opponent_color)
                {
                    moves.push(Move {
                        from: king_square,
                        to: c_square,
                        special_move: Some(SpecialMove::Castle),
                        promotion: None,
                    });
                }
            }
        }
    }
    assert(moves@ =~= spec_castle_kingside(board@, color) + spec_castle_queenside(board@, color));
    moves
}

/// Every pseudo-legal move of `color`: scan the squares in order, generate
/// each own piece's moves, then append the castles.
pub fn generate_moves(board: &ArrayBoard, color: Color) -> (r: Vec<Move>)
    requires
        board@.wf(),
    ensures
        r@ == spec_generate_moves(board@, color),
{
    let mut moves: Vec<Move> = Vec::new();

    let mut square_idx: u8 = 0;
    while square_idx < 64
        invariant
            board@.wf(),
            0 <= square_idx <= 64,
            moves@ == spec_moves_upto(board@, color, square_idx as int),
        decreases 64 - square_idx,
    {
        let square = Square(square_idx);
        match board.get_piece(square) {
            Some(piece) => {
                if piece.color == color {
                    let mut piece_moves = match piece.piece_type {
                        PieceType::Pawn => generate_pawn_moves(board, square, color),
                        PieceType::Knight => generate_knight_moves(board, square, color),
                        PieceType::King => generate_king_moves(board, square, color),
                        PieceType::Rook => generate_rook_moves(board, square, color),
                        PieceType::Bishop => generate_bishop_moves(board, square, color),
                        PieceType::Queen => generate_queen_moves(board, square, color),
                    };
                    moves.append(&mut piece_moves);
                }
            }
            None => {}
        }
        assert(moves@ =~= spec_moves_upto(board@, color, square_idx as int + 1));
        square_idx = square_idx + 1;
    }

    let mut castles = generate_castling_moves(board, color);
    moves.append(&mut castles);
    assert(moves@ =~= spec_generate_moves(board@, color));
    moves
}

} // verus!
