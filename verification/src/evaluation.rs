use vstd::prelude::*;
use crate::types::{Color, Piece, PieceType, Square};
use crate::board::{ArrayBoard, BoardView};

verus! {

/// Material value of each piece type, in centipawns.
pub open spec fn spec_piece_value(pt: PieceType) -> int {
    match pt {
        PieceType::Pawn => 100,
        PieceType::Knight => 320,
        PieceType::Bishop => 330,
        PieceType::Rook => 500,
        PieceType::Queen => 900,
        PieceType::King => 20000,
    }
}

/// What square `i` contributes: its piece's value, positive for White and
/// negative for Black.
pub open spec fn spec_square_score(b: BoardView, i: int) -> int {
    match b.piece_at(i) {
        Some(p) => match p.color {
            Color::White => spec_piece_value(p.piece_type),
            Color::Black => -spec_piece_value(p.piece_type),
        },
        None => 0,
    }
}

/// The material balance over the first `n` squares.
pub open spec fn spec_eval_upto(b: BoardView, n: int) -> int
    decreases n,
{
    if n <= 0 {
        0
    } else {
        spec_eval_upto(b, n - 1) + spec_square_score(b, n - 1)
    }
}

/// The material balance of the whole board: positive favors White.
pub open spec fn spec_evaluate(b: BoardView) -> int {
    spec_eval_upto(b, 64)
}

/// No square contributes more than a king's value, so the total stays well
/// inside `i32`.
pub proof fn lemma_eval_bound(b: BoardView, n: int)
    requires
        0 <= n <= 64,
    ensures
        -20000 * n <= spec_eval_upto(b, n) <= 20000 * n,
    decreases n,
{
    if n > 0 {
        lemma_eval_bound(b, n - 1);
    }
}

/// Pure material evaluation, summed square by square.
pub fn evaluate(board: &ArrayBoard) -> (r: i32)
    requires
        board@.wf(),
    ensures
        r as int == spec_evaluate(board@),
{
    let mut score: i32 = 0;
    let mut i: u8 = 0;
    while i < 64
        invariant
            board@.wf(),
            0 <= i <= 64,
            score as int == spec_eval_upto(board@, i as int),
            -20000 * (i as int) <= score as int <= 20000 * (i as int),
        decreases 64 - i,
    {
        match board.get_piece(Square(i)) {
            Some(piece) => {
                let piece_value: i32 = match piece.piece_type {
                    PieceType::Pawn => 100,
                    PieceType::Knight => 320,
                    PieceType::Bishop => 330,
                    PieceType::Rook => 500,
                    PieceType::Queen => 900,
                    PieceType::King => 20000,
                };
                match piece.color {
                    Color::White => {
                        score = score + piece_value;
                    }
                    Color::Black => {
                        score = score - piece_value;
                    }
                }
            }
            None => {}
        }
        i = i + 1;
    }
    score
}

} // verus!
