use vstd::prelude::*;
use crate::types::{Color, Piece, PieceType, Square, SpecialMove, Move};
use crate::board::{ArrayBoard, BoardView, makeable, near_makeable, ep_victim_ok, ep_capture_square, spec_make, spec_undo, spec_unmake, lemma_make_unmake};
use crate::attack::spec_in_check;
use crate::piece_moves::{
    spec_pawn_moves, spec_pawn_pushes, spec_pawn_captures, spec_pawn_ep, pawn_capture_seq,
    spec_knight_moves, spec_king_moves, spec_rook_moves, spec_bishop_moves, spec_queen_moves,
    step_move_seq, rook_ray_moves, bishop_ray_moves, promo_fan, all_makeable,
    all_near_makeable, lemma_all_makeable_concat, lemma_all_near_makeable_concat,
};
use crate::movegen::{
    spec_piece_moves, spec_moves_upto, spec_generate_moves, spec_castling_moves,
    spec_castle_kingside, spec_castle_queenside, generate_moves,
};

verus! {

/// A leaper step to a target other than the source yields makeable moves.
proof fn lemma_step_makeable(b: BoardView, sq: Square, c: Color, target: int, max_d: int)
    requires
        b.wf(),
        sq.0 < 64,
        b.piece_at(sq.0 as int) is Some,
        target != sq.0 as int,
    ensures
        all_near_makeable(b, step_move_seq(b, sq, c, target, max_d)),
{
}

/// Pawn moves from a square holding a pawn of the right color are makeable.
proof fn lemma_pawn_moves_makeable(b: BoardView, sq: Square, c: Color)
    requires
        b.wf(),
        sq.0 < 64,
        b.piece_at(sq.0 as int) == Some(Piece { piece_type: PieceType::Pawn, color: c }),
    ensures
        all_near_makeable(b, spec_pawn_moves(b, sq, c)),
{
    assert(all_near_makeable(b, spec_pawn_pushes(b, sq, c)));
    let s = sq.0 as int;
    let west = match c {
        Color::White => 7int,
        Color::Black => -9,
    };
    let east = match c {
        Color::White => 9int,
        Color::Black => -7,
    };
    assert(all_near_makeable(b, pawn_capture_seq(b, sq, c, s + west)));
    assert(all_near_makeable(b, pawn_capture_seq(b, sq, c, s + east)));
    assert(all_near_makeable(b, spec_pawn_ep(b, sq, c)));
    lemma_all_near_makeable_concat(
        b,
        if s % 8 > 0 {
            pawn_capture_seq(b, sq, c, s + west)
        } else {
            Seq::<Move>::empty()
        },
        if s % 8 < 7 {
            pawn_capture_seq(b, sq, c, s + east)
        } else {
            Seq::<Move>::empty()
        },
    );
    lemma_all_near_makeable_concat(
        b,
        (if s % 8 > 0 {
            pawn_capture_seq(b, sq, c, s + west)
        } else {
            Seq::<Move>::empty()
        }) + (if s % 8 < 7 {
            pawn_capture_seq(b, sq, c, s + east)
        } else {
            Seq::<Move>::empty()
        }),
        spec_pawn_ep(b, sq, c),
    );
    lemma_all_near_makeable_concat(b, spec_pawn_pushes(b, sq, c), spec_pawn_captures(b, sq, c));
}

/// A rook ray that started at the piece's square yields makeable moves: the
/// walk never returns to its starting square.
proof fn lemma_rook_ray_makeable(b: BoardView, from: Square, c: Color, start_file: int, pos: int, dir: int, fuel: nat)
    requires
        b.wf(),
        from.0 < 64,
        b.piece_at(from.0 as int) is Some,
        dir != 0,
        dir > 0 ==> pos >= from.0 as int,
        dir < 0 ==> pos <= from.0 as int,
    ensures
        all_near_makeable(b, rook_ray_moves(b, from, c, start_file, pos, dir, fuel)),
    decreases fuel,
{
    if fuel > 0 {
        let next = pos + dir;
        if 0 <= next < 64 {
            lemma_rook_ray_makeable(b, from, c, start_file, next, dir, (fuel - 1) as nat);
        }
    }
}

proof fn lemma_bishop_ray_makeable(b: BoardView, from: Square, c: Color, start_file: int, start_rank: int, pos: int, dir: int, fuel: nat)
    requires
        b.wf(),
        from.0 < 64,
        b.piece_at(from.0 as int) is Some,
        dir != 0,
        dir > 0 ==> pos >= from.0 as int,
        dir < 0 ==> pos <= from.0 as int,
    ensures
        all_near_makeable(b, bishop_ray_moves(b, from, c, start_file, start_rank, pos, dir, fuel)),
    decreases fuel,
{
    if fuel > 0 {
        let next = pos + dir;
        if 0 <= next < 64 {
            lemma_bishop_ray_makeable(b, from, c, start_file, start_rank, next, dir, (fuel - 1) as nat);
        }
    }
}

proof fn lemma_rook_moves_makeable(b: BoardView, sq: Square, c: Color)
    requires
        b.wf(),
        sq.0 < 64,
        b.piece_at(sq.0 as int) is Some,
    ensures
        all_near_makeable(b, spec_rook_moves(b, sq, c)),
{
    let s = sq.0 as int;
    let f = s % 8;
    lemma_rook_ray_makeable(b, sq, c, f, s, 8, 8);
    lemma_rook_ray_makeable(b, sq, c, f, s, -8, 8);
    lemma_rook_ray_makeable(b, sq, c, f, s, 1, 8);
    lemma_rook_ray_makeable(b, sq, c, f, s, -1, 8);
    lemma_all_near_makeable_concat(b, rook_ray_moves(b, sq, c, f, s, 8, 8), rook_ray_moves(b, sq, c, f, s, -8, 8));
    lemma_all_near_makeable_concat(
        b,
        rook_ray_moves(b, sq, c, f, s, 8, 8) + rook_ray_moves(b, sq, c, f, s, -8, 8),
        rook_ray_moves(b, sq, c, f, s, 1, 8),
    );
    lemma_all_near_makeable_concat(
        b,
        rook_ray_moves(b, sq, c, f, s, 8, 8) + rook_ray_moves(b, sq, c, f, s, -8, 8)
            + rook_ray_moves(b, sq, c, f, s, 1, 8),
        rook_ray_moves(b, sq, c, f, s, -1, 8),
    );
}

proof fn lemma_bishop_moves_makeable(b: BoardView, sq: Square, c: Color)
    requires
        b.wf(),
        sq.0 < 64,
        b.piece_at(sq.0 as int) is Some,
    ensures
        all_near_makeable(b, spec_bishop_moves(b, sq, c)),
{
    let s = sq.0 as int;
    let f = s % 8;
    let r = s / 8;
    lemma_bishop_ray_makeable(b, sq, c, f, r, s, 9, 8);
    lemma_bishop_ray_makeable(b, sq, c, f, r, s, -9, 8);
    lemma_bishop_ray_makeable(b, sq, c, f, r, s, 7, 8);
    lemma_bishop_ray_makeable(b, sq, c, f, r, s, -7, 8);
    lemma_all_near_makeable_concat(
        b,
        bishop_ray_moves(b, sq, c, f, r, s, 9, 8),
        bishop_ray_moves(b, sq, c, f, r, s, -9, 8),
    );
    lemma_all_near_makeable_concat(
        b,
        bishop_ray_moves(b, sq, c, f, r, s, 9, 8) + bishop_ray_moves(b, sq, c, f, r, s, -9, 8),
        bishop_ray_moves(b, sq, c, f, r, s, 7, 8),
    );
    lemma_all_near_makeable_concat(
        b,
        bishop_ray_moves(b, sq, c, f, r, s, 9, 8) + bishop_ray_moves(b, sq, c, f, r, s, -9, 8)
            + bishop_ray_moves(b, sq, c, f, r, s, 7, 8),
        bishop_ray_moves(b, sq, c, f, r, s, -7, 8),
    );
}

/// Knight and king moves are eight leaper steps each.
proof fn lemma_knight_moves_makeable(b: BoardView, sq: Square, c: Color)
    requires
        b.wf(),
        sq.0 < 64,
        b.piece_at(sq.0 as int) is Some,
    ensures
        all_near_makeable(b, spec_knight_moves(b, sq, c)),
{
    let s = sq.0 as int;
    assert forall|i: int| 0 <= i < spec_knight_moves(b, sq, c).len() implies near_makeable(
        b,
        #[trigger] spec_knight_moves(b, sq, c)[i],
    ) by {
        lemma_step_makeable(b, sq, c, s + 17, 2);
        lemma_step_makeable(b, sq, c, s + 15, 2);
        lemma_step_makeable(b, sq, c, s + 10, 2);
        lemma_step_makeable(b, sq, c, s + 6, 2);
        lemma_step_makeable(b, sq, c, s - 6, 2);
        lemma_step_makeable(b, sq, c, s - 10, 2);
        lemma_step_makeable(b, sq, c, s - 15, 2);
        lemma_step_makeable(b, sq, c, s - 17, 2);
    }
}

proof fn lemma_king_moves_makeable(b: BoardView, sq: Square, c: Color)
    requires
        b.wf(),
        sq.0 < 64,
        b.piece_at(sq.0 as int) is Some,
    ensures
        all_near_makeable(b, spec_king_moves(b, sq, c)),
{
    let s = sq.0 as int;
    assert forall|i: int| 0 <= i < spec_king_moves(b, sq, c).len() implies near_makeable(
        b,
        #[trigger] spec_king_moves(b, sq, c)[i],
    ) by {
        lemma_step_makeable(b, sq, c, s + 7, 1);
        lemma_step_makeable(b, sq, c, s + 8, 1);
        lemma_step_makeable(b, sq, c, s + 9, 1);
        lemma_step_makeable(b, sq, c, s - 1, 1);
        lemma_step_makeable(b, sq, c, s + 1, 1);
        lemma_step_makeable(b, sq, c, s - 7, 1);
        lemma_step_makeable(b, sq, c, s - 8, 1);
        lemma_step_makeable(b, sq, c, s - 9, 1);
    }
}

/// Castles are emitted only with king and rook in place and the rook's
/// destination empty, so they too are makeable.
proof fn lemma_castling_makeable(b: BoardView, c: Color)
    requires
        b.wf(),
    ensures
        all_near_makeable(b, spec_castling_moves(b, c)),
{
    assert(all_near_makeable(b, spec_castle_kingside(b, c)));
    assert(all_near_makeable(b, spec_castle_queenside(b, c)));
    if !spec_in_check(b, c) {
        lemma_all_near_makeable_concat(b, spec_castle_kingside(b, c), spec_castle_queenside(b, c));
    }
}

/// Any move the generator emits can be made and unmade exactly.
pub proof fn lemma_piece_moves_makeable(b: BoardView, sq: Square, c: Color, pt: PieceType)
    requires
        b.wf(),
        sq.0 < 64,
        b.piece_at(sq.0 as int) == Some(Piece { piece_type: pt, color: c }),
    ensures
        all_near_makeable(b, spec_piece_moves(b, sq, c, pt)),
{
    match pt {
        PieceType::Pawn => lemma_pawn_moves_makeable(b, sq, c),
        PieceType::Knight => lemma_knight_moves_makeable(b, sq, c),
        PieceType::King => lemma_king_moves_makeable(b, sq, c),
        PieceType::Rook => lemma_rook_moves_makeable(b, sq, c),
        PieceType::Bishop => lemma_bishop_moves_makeable(b, sq, c),
        PieceType::Queen => {
            lemma_rook_moves_makeable(b, sq, c);
            lemma_bishop_moves_makeable(b, sq, c);
            lemma_all_near_makeable_concat(b, spec_rook_moves(b, sq, c), spec_bishop_moves(b, sq, c));
        }
    }
}

proof fn lemma_moves_upto_makeable(b: BoardView, c: Color, n: int)
    requires
        b.wf(),
        n <= 64,
    ensures
        all_near_makeable(b, spec_moves_upto(b, c, n)),
    decreases n,
{
    if n > 0 {
        lemma_moves_upto_makeable(b, c, n - 1);
        let tail = match b.piece_at(n - 1) {
            Some(p) => if p.color == c {
                spec_piece_moves(b, Square((n - 1) as u8), c, p.piece_type)
            } else {
                Seq::<Move>::empty()
            },
            None => Seq::<Move>::empty(),
        };
        match b.piece_at(n - 1) {
            Some(p) => {
                if p.color == c {
                    lemma_piece_moves_makeable(b, Square((n - 1) as u8), c, p.piece_type);
                }
            }
            None => {}
        }
        lemma_all_near_makeable_concat(b, spec_moves_upto(b, c, n - 1), tail);
    }
}

pub proof fn lemma_generate_moves_makeable(b: BoardView, c: Color)
    requires
        b.wf(),
    ensures
        all_near_makeable(b, spec_generate_moves(b, c)),
{
    lemma_moves_upto_makeable(b, c, 64);
    lemma_castling_makeable(b, c);
    lemma_all_near_makeable_concat(b, spec_moves_upto(b, c, 64), spec_castling_moves(b, c));
}

/// The pseudo-legal moves that survive the filter: an en-passant capture
/// whose victim is missing is dropped without being made (its undo could
/// not restore the position); every other move is made, tested for leaving
/// the mover in check, and unmade.
pub open spec fn legal_filter(b: BoardView, c: Color, s: Seq<Move>) -> Seq<Move>
    decreases s.len(),
{
    if s.len() == 0 {
        Seq::<Move>::empty()
    } else {
        legal_filter(b, c, s.drop_last()) + if ep_victim_ok(b, s.last()) && !spec_in_check(
            spec_make(b, s.last()),
            c,
        ) {
            seq![s.last()]
        } else {
            Seq::<Move>::empty()
        }
    }
}

/// The legal moves of `c`: the generated moves that do not leave `c`'s own
/// king attacked.
pub open spec fn spec_legal_moves(b: BoardView, c: Color) -> Seq<Move> {
    legal_filter(b, c, spec_generate_moves(b, c))
}

/// Everything that survives the filter was in the filtered sequence, is
/// makeable, and leaves the mover out of check.
proof fn lemma_legal_filter_props(b: BoardView, c: Color, s: Seq<Move>)
    requires
        all_near_makeable(b, s),
    ensures
        all_makeable(b, legal_filter(b, c, s)),
        forall|i: int| 0 <= i < legal_filter(b, c, s).len() ==> !spec_in_check(
            spec_make(b, #[trigger] legal_filter(b, c, s)[i]),
            c,
        ),
    decreases s.len(),
{
    if s.len() > 0 {
        assert(all_near_makeable(b, s.drop_last()));
        lemma_legal_filter_props(b, c, s.drop_last());
        assert(near_makeable(b, s.last()));
    }
}

/// Legal-move filter soundness: every move that `generate_legal_moves`
/// returns is makeable and, once made, leaves its mover's king unattacked.
pub proof fn lemma_legal_moves_sound(b: BoardView, c: Color)
    requires
        b.wf(),
    ensures
        all_makeable(b, spec_legal_moves(b, c)),
        forall|i: int| 0 <= i < spec_legal_moves(b, c).len() ==> !spec_in_check(
            spec_make(b, #[trigger] spec_legal_moves(b, c)[i]),
            c,
        ),
{
    lemma_generate_moves_makeable(b, c);
    lemma_legal_filter_props(b, c, spec_generate_moves(b, c));
}

/// After a makeable move there is a piece on the destination square, so the
/// move can be unmade.
pub proof fn lemma_made_board_shape(b: BoardView, m: Move)
    requires
        makeable(b, m),
    ensures
        spec_make(b, m).wf(),
        spec_make(b, m).piece_at(m.to.0 as int) is Some,
        (spec_make(b, m).piece_at(m.to.0 as int)->0).color == (b.piece_at(m.from.0 as int)->0).color,
{
}

/// Whether the pawn an en-passant capture would remove is really present;
/// true for every other move.
fn ep_victim_present(board: &ArrayBoard, mv: &Move) -> (r: bool)
    requires
        board@.wf(),
        near_makeable(board@, *mv),
    ensures
        r == ep_victim_ok(board@, *mv),
{
    if mv.special_move == Some(SpecialMove::EnPassant) {
        let mover = board.get_piece(mv.from).unwrap();
        let cap = match mover.color {
            Color::White => Square(mv.to.0 - 8),
            Color::Black => Square(mv.to.0 + 8),
        };
        match board.get_piece(cap) {
            Some(p) => p.piece_type == PieceType::Pawn && p.color == mover.color.opposite(),
            None => false,
        }
    } else {
        true
    }
}

/// The legal moves of `color`: make each pseudo-legal move, keep it if the
/// mover is not left in check, and unmake it.  The board comes back exactly
/// as it was.
pub fn generate_legal_moves(board: &mut ArrayBoard, color: Color) -> (r: Vec<Move>)
    requires
        old(board)@.wf(),
    ensures
        final(board)@ == old(board)@,
        r@ == spec_legal_moves(old(board)@, color),
{
    let ghost b0 = board@;
    let pseudo_moves = generate_moves(board, color);
    proof {
        lemma_generate_moves_makeable(b0, color);
    }
    let mut legal_moves: Vec<Move> = Vec::new();

    let mut i: usize = 0;
    while i < pseudo_moves.len()
        invariant
            board@ == b0,
            b0.wf(),
            pseudo_moves@ == spec_generate_moves(b0, color),
            all_near_makeable(b0, pseudo_moves@),
            0 <= i <= pseudo_moves@.len(),
            legal_moves@ == legal_filter(b0, color, pseudo_moves@.take(i as int)),
        decreases pseudo_moves@.len() - i,
    {
        let mv = pseudo_moves[i];
        proof {
            assert(near_makeable(b0, mv));
        }
        if ep_victim_present(board, &mv) {
            proof {
                assert(makeable(b0, mv));
                lemma_made_board_shape(b0, mv);
                lemma_make_unmake(b0, mv);
            }
            let undo_info = board.make_move(&mv);
            let keep = !board.is_in_check(color);
            board.unmake_move(&mv, undo_info);
            if keep {
                legal_moves.push(mv);
            }
        }
        proof {
            assert(pseudo_moves@.take(i as int + 1).drop_last() =~= pseudo_moves@.take(i as int));
            assert(pseudo_moves@.take(i as int + 1).last() == mv);
            assert(legal_moves@ =~= legal_filter(b0, color, pseudo_moves@.take(i as int + 1)));
        }
        i = i + 1;
    }
    proof {
        assert(pseudo_moves@.take(pseudo_moves@.len() as int) =~= pseudo_moves@);
    }
    legal_moves
}

} // verus!
