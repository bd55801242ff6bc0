use vstd::prelude::*;
use crate::types::{Color, Piece, PieceType, Square, SpecialMove, Move};
use crate::board::{ArrayBoard, BoardView, makeable, near_makeable, ep_capture_square};
use crate::attack::{on_board, abs_diff};

verus! {

/// A plain move: no special tag, no promotion.
pub open spec fn simple_move(from: Square, to: int) -> Move {
    Move { from: from, to: Square(to as u8), special_move: None, promotion: None }
}

/// The four promotion moves fanned out for one pawn step, queen first.
pub open spec fn promo_fan(from: Square, to: int) -> Seq<Move> {
    seq![
        Move { from: from, to: Square(to as u8), special_move: Some(SpecialMove::Promotion), promotion: Some(PieceType::Queen) },
        Move { from: from, to: Square(to as u8), special_move: Some(SpecialMove::Promotion), promotion: Some(PieceType::Rook) },
        Move { from: from, to: Square(to as u8), special_move: Some(SpecialMove::Promotion), promotion: Some(PieceType::Bishop) },
        Move { from: from, to: Square(to as u8), special_move: Some(SpecialMove::Promotion), promotion: Some(PieceType::Knight) },
    ]
}

pub open spec fn pawn_dir(c: Color) -> int {
    match c {
        Color::White => 8,
        Color::Black => -8,
    }
}

/// The rank band from which a pawn's next step promotes.
pub open spec fn promotion_band(c: Color, sq: int) -> bool {
    match c {
        Color::White => 48 <= sq <= 55,
        Color::Black => 8 <= sq <= 15,
    }
}

/// The rank band pawns start from, allowing a double push.
pub open spec fn start_band(c: Color, sq: int) -> bool {
    match c {
        Color::White => 8 <= sq <= 15,
        Color::Black => 48 <= sq <= 55,
    }
}

/// Forward pawn moves: the single push to an empty square (fanned out on the
/// promotion rank), then the double push from the start rank when both
/// squares ahead are empty.
pub open spec fn spec_pawn_pushes(b: BoardView, sq: Square, c: Color) -> Seq<Move> {
    let s = sq.0 as int;
    let one = s + pawn_dir(c);
    if on_board(one) && b.piece_at(one) is None {
        let first = if promotion_band(c, s) {
            promo_fan(sq, one)
        } else {
            seq![simple_move(sq, one)]
        };
        let two = s + 2 * pawn_dir(c);
        let dbl = if !promotion_band(c, s) && start_band(c, s) && on_board(two)
            && b.piece_at(two) is None {
            seq![simple_move(sq, two)]
        } else {
            Seq::<Move>::empty()
        };
        first + dbl
    } else {
        Seq::<Move>::empty()
    }
}

/// A diagonal pawn capture onto `target`, fanned out on the promotion rank.
pub open spec fn pawn_capture_seq(b: BoardView, sq: Square, c: Color, target: int) -> Seq<Move> {
    if on_board(target) && b.piece_at(target) is Some && (b.piece_at(target)->0).color != c {
        if promotion_band(c, sq.0 as int) {
            promo_fan(sq, target)
        } else {
            seq![simple_move(sq, target)]
        }
    } else {
        Seq::<Move>::empty()
    }
}

/// The rank a pawn must stand on to capture en passant.
pub open spec fn ep_rank(c: Color) -> int {
    match c {
        Color::White => 4,
        Color::Black => 3,
    }
}

/// The en-passant capture, emitted when the board names an on-board target
/// square diagonally adjacent to this pawn, with the captured pawn's square
/// on the board.  Whether that pawn is really present is the legal-move
/// filter's test, not the generator's.
pub open spec fn spec_pawn_ep(b: BoardView, sq: Square, c: Color) -> Seq<Move> {
    match b.en_passant {
        Some(ep) => {
            let s = sq.0 as int;
            let cap = ep_capture_square(c, ep.0 as int);
            if ep.0 < 64 && s / 8 == ep_rank(c) && abs_diff(ep.0 as int % 8, s % 8) == 1
                && 0 <= cap < 64 {
                seq![Move { from: sq, to: ep, special_move: Some(SpecialMove::EnPassant), promotion: None }]
            } else {
                Seq::<Move>::empty()
            }
        },
        None => Seq::<Move>::empty(),
    }
}

/// Pawn captures: toward the lower file, toward the higher file, then en
/// passant.
pub open spec fn spec_pawn_captures(b: BoardView, sq: Square, c: Color) -> Seq<Move> {
    let s = sq.0 as int;
    let west = match c {
        Color::White => 7int,
        Color::Black => -9,
    };
    let east = match c {
        Color::White => 9int,
        Color::Black => -7,
    };
    (if s % 8 > 0 {
        pawn_capture_seq(b, sq, c, s + west)
    } else {
        Seq::<Move>::empty()
    }) + (if s % 8 < 7 {
        pawn_capture_seq(b, sq, c, s + east)
    } else {
        Seq::<Move>::empty()
    }) + spec_pawn_ep(b, sq, c)
}

pub open spec fn spec_pawn_moves(b: BoardView, sq: Square, c: Color) -> Seq<Move> {
    spec_pawn_pushes(b, sq, c) + spec_pawn_captures(b, sq, c)
}

/// A single leaper step (knight or king): emitted when the target is on the
/// board, has not wrapped around the edge (file and rank each moved at most
/// `max_d`), and is empty or holds an enemy piece.
pub open spec fn step_move_seq(b: BoardView, sq: Square, c: Color, target: int, max_d: int) -> Seq<Move> {
    if on_board(target) && abs_diff(sq.0 as int % 8, target % 8) <= max_d
        && abs_diff(sq.0 as int / 8, target / 8) <= max_d
        && !(b.piece_at(target) is Some && (b.piece_at(target)->0).color == c) {
        seq![simple_move(sq, target)]
    } else {
        Seq::<Move>::empty()
    }
}

pub open spec fn spec_knight_moves(b: BoardView, sq: Square, c: Color) -> Seq<Move> {
    let s = sq.0 as int;
    step_move_seq(b, sq, c, s + 17, 2) + step_move_seq(b, sq, c, s + 15, 2)
        + step_move_seq(b, sq, c, s + 10, 2) + step_move_seq(b, sq, c, s + 6, 2)
        + step_move_seq(b, sq, c, s - 6, 2) + step_move_seq(b, sq, c, s - 10, 2)
        + step_move_seq(b, sq, c, s - 15, 2) + step_move_seq(b, sq, c, s - 17, 2)
}

pub open spec fn spec_king_moves(b: BoardView, sq: Square, c: Color) -> Seq<Move> {
    let s = sq.0 as int;
    step_move_seq(b, sq, c, s + 7, 1) + step_move_seq(b, sq, c, s + 8, 1)
        + step_move_seq(b, sq, c, s + 9, 1) + step_move_seq(b, sq, c, s - 1, 1)
        + step_move_seq(b, sq, c, s + 1, 1) + step_move_seq(b, sq, c, s - 7, 1)
        + step_move_seq(b, sq, c, s - 8, 1) + step_move_seq(b, sq, c, s - 9, 1)
}

/// A rook ray from `pos` in direction `dir`: emit empty squares while the
/// walk stays on the board (and, stepping laterally, on the starting rank),
/// emit a final capture on the first enemy piece, stop silently on a friend.
pub open spec fn rook_ray_moves(b: BoardView, from: Square, c: Color, start_file: int, pos: int, dir: int, fuel: nat) -> Seq<Move>
    decreases fuel,
{
    if fuel == 0 {
        Seq::<Move>::empty()
    } else {
        let next = pos + dir;
        if !on_board(next) {
            Seq::<Move>::empty()
        } else if dir == 1 && next % 8 <= start_file {
            Seq::<Move>::empty()
        } else if dir == -1 && next % 8 >= start_file {
            Seq::<Move>::empty()
        } else {
            match b.piece_at(next) {
                None => seq![simple_move(from, next)]
                    + rook_ray_moves(b, from, c, start_file, next, dir, (fuel - 1) as nat),
                Some(p) => if p.color != c {
                    seq![simple_move(from, next)]
                } else {
                    Seq::<Move>::empty()
                },
            }
        }
    }
}

/// A bishop ray: as the rook ray, but the walk ends when the step's file
/// offset and rank offset from the start no longer match (edge wrap).
pub open spec fn bishop_ray_moves(b: BoardView, from: Square, c: Color, start_file: int, start_rank: int, pos: int, dir: int, fuel: nat) -> Seq<Move>
    decreases fuel,
{
    if fuel == 0 {
        Seq::<Move>::empty()
    } else {
        let next = pos + dir;
        if !on_board(next) {
            Seq::<Move>::empty()
        } else if abs_diff(start_file, next % 8) != abs_diff(start_rank, next / 8) {
            Seq::<Move>::empty()
        } else {
            match b.piece_at(next) {
                None => seq![simple_move(from, next)]
                    + bishop_ray_moves(b, from, c, start_file, start_rank, next, dir, (fuel - 1) as nat),
                Some(p) => if p.color != c {
                    seq![simple_move(from, next)]
                } else {
                    Seq::<Move>::empty()
                },
            }
        }
    }
}

pub open spec fn spec_rook_moves(b: BoardView, sq: Square, c: Color) -> Seq<Move> {
    let s = sq.0 as int;
    let f = s % 8;
    rook_ray_moves(b, sq, c, f, s, 8, 8) + rook_ray_moves(b, sq, c, f, s, -8, 8)
        + rook_ray_moves(b, sq, c, f, s, 1, 8) + rook_ray_moves(b, sq, c, f, s, -1, 8)
}

pub open spec fn spec_bishop_moves(b: BoardView, sq: Square, c: Color) -> Seq<Move> {
    let s = sq.0 as int;
    let f = s % 8;
    let r = s / 8;
    bishop_ray_moves(b, sq, c, f, r, s, 9, 8) + bishop_ray_moves(b, sq, c, f, r, s, -9, 8)
        + bishop_ray_moves(b, sq, c, f, r, s, 7, 8) + bishop_ray_moves(b, sq, c, f, r, s, -7, 8)
}

pub open spec fn spec_queen_moves(b: BoardView, sq: Square, c: Color) -> Seq<Move> {
    spec_rook_moves(b, sq, c) + spec_bishop_moves(b, sq, c)
}

/// Every move in the sequence can be made and then unmade exactly.
pub open spec fn all_makeable(b: BoardView, s: Seq<Move>) -> bool {
    forall|i: int| 0 <= i < s.len() ==> makeable(b, #[trigger] s[i])
}

/// Every move in the sequence can be made, except that an en-passant
/// capture's victim has not been checked yet.
pub open spec fn all_near_makeable(b: BoardView, s: Seq<Move>) -> bool {
    forall|i: int| 0 <= i < s.len() ==> near_makeable(b, #[trigger] s[i])
}

pub proof fn lemma_all_near_makeable_concat(b: BoardView, s1: Seq<Move>, s2: Seq<Move>)
    requires
        all_near_makeable(b, s1),
        all_near_makeable(b, s2),
    ensures
        all_near_makeable(b, s1 + s2),
{
    assert forall|i: int| 0 <= i < (s1 + s2).len() implies near_makeable(b, #[trigger] (s1 + s2)[i]) by {
        if i < s1.len() {
            assert((s1 + s2)[i] == s1[i]);
        } else {
            assert((s1 + s2)[i] == s2[i - s1.len()]);
        }
    }
}

pub proof fn lemma_all_makeable_concat(b: BoardView, s1: Seq<Move>, s2: Seq<Move>)
    requires
        all_makeable(b, s1),
        all_makeable(b, s2),
    ensures
        all_makeable(b, s1 + s2),
{
    assert forall|i: int| 0 <= i < (s1 + s2).len() implies makeable(b, #[trigger] (s1 + s2)[i]) by {
        if i < s1.len() {
            assert((s1 + s2)[i] == s1[i]);
        } else {
            assert((s1 + s2)[i] == s2[i - s1.len()]);
        }
    }
}

/// Exec helper: push one leaper step if the spec emits it.
fn push_step_move(board: &ArrayBoard, moves: &mut Vec<Move>, sq: Square, c: Color, target: i32, max_d: u8)
    requires
        board@.wf(),
        sq.0 < 64,
        -64 <= target < 128,
    ensures
        final(moves)@ == old(moves)@ + step_move_seq(board@, sq, c, target as int, max_d as int),
{
    if target >= 0 && target < 64 {
        let fd = {
            let a = target % 8;
            let bb = (sq.0 % 8) as i32;
            if a >= bb {
                a - bb
            } else {
                bb - a
            }
        };
        let rd = {
            let a = target / 8;
            let bb = (sq.0 / 8) as i32;
            if a >= bb {
                a - bb
            } else {
                bb - a
            }
        };
        if fd <= max_d as i32 && rd <= max_d as i32 {
            let keep = match board.get_piece(Square(target as u8)) {
                Some(p) => p.color != c,
                None => true,
            };
            if keep {
                moves.push(Move {
                    from: sq,
                    to: Square(target as u8),
                    special_move: None,
                    promotion: None,
                });
                assert(moves@ =~= old(moves)@ + step_move_seq(board@, sq, c, target as int, max_d as int));
                return;
            }
        }
    }
    assert(moves@ =~= old(moves)@ + step_move_seq(board@, sq, c, target as int, max_d as int));
}

/// Exec helper: push the four promotion moves.
fn push_promo_fan(moves: &mut Vec<Move>, from: Square, to: Square)
    ensures
        final(moves)@ == old(moves)@ + promo_fan(from, to.0 as int),
        to.0 == ((to.0 as int) as u8),
{
    moves.push(Move { from: from, to: to, special_move: Some(SpecialMove::Promotion), promotion: Some(PieceType::Queen) });
    moves.push(Move { from: from, to: to, special_move: Some(SpecialMove::Promotion), promotion: Some(PieceType::Rook) });
    moves.push(Move { from: from, to: to, special_move: Some(SpecialMove::Promotion), promotion: Some(PieceType::Bishop) });
    moves.push(Move { from: from, to: to, special_move: Some(SpecialMove::Promotion), promotion: Some(PieceType::Knight) });
    assert(moves@ =~= old(moves)@ + promo_fan(from, to.0 as int));
}

/// Pseudo-legal pawn moves from `square`: pushes, then captures.
pub fn generate_pawn_moves(board: &ArrayBoard, square: Square, color: Color) -> (r: Vec<Move>)
    requires
        board@.wf(),
        square.0 < 64,
    ensures
        r@ == spec_pawn_moves(board@, square, color),
{
    let mut moves: Vec<Move> = Vec::new();
    let s = square.0 as i32;

    let direction: i32 = match color {
        Color::Black => -8,
        Color::White => 8,
    };

    let promotion_rank = match color {
        Color::White => s >= 48 && s <= 55,
        Color::Black => s >= 8 && s <= 15,
    };

    let one_forward = s + direction;
    if one_forward >= 0 && one_forward < 64 {
        let target_square = Square(one_forward as u8);
        if board.is_empty(target_square) {
            if promotion_rank {
                push_promo_fan(&mut moves, square, target_square);
            } else {
                moves.push(Move { from: square, to: target_square, special_move: None, promotion: None });
            }

            if !promotion_rank {
                let starting_rank = match color {
                    Color::White => s >= 8 && s <= 15,
                    Color::Black => s >= 48 && s <= 55,
                };
                if starting_rank {
                    let two_forward = s + direction * 2;
                    if two_forward >= 0 && two_forward < 64 {
                        let double_target = Square(two_forward as u8);
                        if board.is_empty(double_target) {
                            moves.push(Move { from: square, to: double_target, special_move: None, promotion: None });
                        }
                    }
                }
            }
        }
    }
    assert(moves@ =~= spec_pawn_pushes(board@, square, color));

    generate_pawn_capture(board, square, color, &mut moves);
    assert(moves@ =~= spec_pawn_moves(board@, square, color));
    moves
}

/// Exec helper: push one diagonal pawn capture if the spec emits it.
fn push_pawn_capture(board: &ArrayBoard, moves: &mut Vec<Move>, square: Square, color: Color, target: i32)
    requires
        board@.wf(),
        square.0 < 64,
        -64 <= target < 128,
    ensures
        final(moves)@ == old(moves)@ + pawn_capture_seq(board@, square, color, target as int),
{
    let s = square.0 as i32;
    let promotion_rank = match color {
        Color::White => s >= 48 && s <= 55,
        Color::Black => s >= 8 && s <= 15,
    };
    if target >= 0 && target < 64 {
        let target_square = Square(target as u8);
        match board.get_piece(target_square) {
            Some(piece) => {
                if piece.color != color {
                    if promotion_rank {
                        push_promo_fan(moves, square, target_square);
                    } else {
                        moves.push(Move { from: square, to: target_square, special_move: None, promotion: None });
                    }
                }
            }
            None => {}
        }
    }
    assert(moves@ =~= old(moves)@ + pawn_capture_seq(board@, square, color, target as int));
}

/// Exec helper: push the en-passant capture if the spec emits it.  The pawn
/// must stand on its fifth rank beside the target file.
fn push_pawn_ep(board: &ArrayBoard, moves: &mut Vec<Move>, square: Square, color: Color)
    requires
        board@.wf(),
        square.0 < 64,
    ensures
        final(moves)@ == old(moves)@ + spec_pawn_ep(board@, square, color),
{
    let s = square.0 as i32;
    let file = s % 8;
    match board.en_passant() {
        Some(en_passant_square) => {
            if en_passant_square.0 < 64 {
                let ep = en_passant_square.0 as i32;
                let ep_file = ep % 8;
                let rank = s / 8;

                let can_capture_ep = match color {
                    Color::White => rank == 4,
                    Color::Black => rank == 3,
                };

                let file_gap = if ep_file >= file {
                    ep_file - file
                } else {
                    file - ep_file
                };

                if can_capture_ep && file_gap == 1 {
                    let cap = match color {
                        Color::White => ep - 8,
                        Color::Black => ep + 8,
                    };
                    if cap >= 0 && cap < 64 {
                        moves.push(Move {
                            from: square,
                            to: en_passant_square,
                            special_move: Some(SpecialMove::EnPassant),
                            promotion: None,
                        });
                    }
                }
            }
        }
        None => {}
    }
    assert(moves@ =~= old(moves)@ + spec_pawn_ep(board@, square, color));
}

/// Append the pawn's capturing moves: the two diagonals, then en passant.
pub fn generate_pawn_capture(board: &ArrayBoard, square: Square, color: Color, moves: &mut Vec<Move>)
    requires
        board@.wf(),
        square.0 < 64,
    ensures
        final(moves)@ == old(moves)@ + spec_pawn_captures(board@, square, color),
{
    let s = square.0 as i32;
    let file = s % 8;

    let (west_offset, east_offset): (i32, i32) = match color {
        Color::White => (7, 9),
        Color::Black => (-9, -7),
    };

    let ghost west_seq = if square.0 as int % 8 > 0 {
        pawn_capture_seq(board@, square, color, square.0 as int + west_offset as int)
    } else {
        Seq::<Move>::empty()
    };
    let ghost east_seq = if square.0 as int % 8 < 7 {
        pawn_capture_seq(board@, square, color, square.0 as int + east_offset as int)
    } else {
        Seq::<Move>::empty()
    };

    if file > 0 {
        push_pawn_capture(board, moves, square, color, s + west_offset);
    }
    assert(moves@ =~= old(moves)@ + west_seq);

    if file < 7 {
        push_pawn_capture(board, moves, square, color, s + east_offset);
    }
    assert(moves@ =~= old(moves)@ + west_seq + east_seq);

    push_pawn_ep(board, moves, square, color);
    assert(moves@ =~= old(moves)@ + west_seq + east_seq + spec_pawn_ep(board@, square, color));
    assert(moves@ =~= old(moves)@ + spec_pawn_captures(board@, square, color));
}

/// Pseudo-legal knight moves: the eight jumps, filtered against the edge.
pub fn generate_knight_moves(board: &ArrayBoard, square: Square, color: Color) -> (r: Vec<Move>)
    requires
        board@.wf(),
        square.0 < 64,
    ensures
        r@ == spec_knight_moves(board@, square, color),
{
    let mut moves: Vec<Move> = Vec::new();
    let s = square.0 as i32;
    push_step_move(board, &mut moves, square, color, s + 17, 2);
    push_step_move(board, &mut moves, square, color, s + 15, 2);
    push_step_move(board, &mut moves, square, color, s + 10, 2);
    push_step_move(board, &mut moves, square, color, s + 6, 2);
    push_step_move(board, &mut moves, square, color, s - 6, 2);
    push_step_move(board, &mut moves, square, color, s - 10, 2);
    push_step_move(board, &mut moves, square, color, s - 15, 2);
    push_step_move(board, &mut moves, square, color, s - 17, 2);
    assert(moves@ =~= spec_knight_moves(board@, square, color));
    moves
}

/// Pseudo-legal king steps: the eight neighbours, filtered against the edge.
pub fn generate_king_moves(board: &ArrayBoard, square: Square, color: Color) -> (r: Vec<Move>)
    requires
        board@.wf(),
        square.0 < 64,
    ensures
        r@ == spec_king_moves(board@, square, color),
{
    let mut moves: Vec<Move> = Vec::new();
    let s = square.0 as i32;
    push_step_move(board, &mut moves, square, color, s + 7, 1);
    push_step_move(board, &mut moves, square, color, s + 8, 1);
    push_step_move(board, &mut moves, square, color, s + 9, 1);
    push_step_move(board, &mut moves, square, color, s - 1, 1);
    push_step_move(board, &mut moves, square, color, s + 1, 1);
    push_step_move(board, &mut moves, square, color, s - 7, 1);
    push_step_move(board, &mut moves, square, color, s - 8, 1);
    push_step_move(board, &mut moves, square, color, s - 9, 1);
    assert(moves@ =~= spec_king_moves(board@, square, color));
    moves
}

/// Exec helper: walk one rook ray, appending its moves.
fn rook_ray_push(board: &ArrayBoard, moves: &mut Vec<Move>, from: Square, c: Color, start_file: i32, pos: i32, dir: i32, fuel: u8)
    requires
        board@.wf(),
        from.0 < 64,
        -64 <= pos < 128,
        -8 <= dir <= 8,
    ensures
        final(moves)@ == old(moves)@ + rook_ray_moves(board@, from, c, start_file as int, pos as int, dir as int, fuel as nat),
    decreases fuel,
{
    if fuel == 0 {
        assert(moves@ =~= old(moves)@ + rook_ray_moves(board@, from, c, start_file as int, pos as int, dir as int, fuel as nat));
        return;
    }
    let next = pos + dir;
    if next < 0 || next >= 64 || (dir == 1 && next % 8 <= start_file) || (dir == -1 && next % 8 >= start_file) {
        assert(moves@ =~= old(moves)@ + rook_ray_moves(board@, from, c, start_file as int, pos as int, dir as int, fuel as nat));
        return;
    }
    match board.get_piece(Square(next as u8)) {
        None => {
            moves.push(Move { from: from, to: Square(next as u8), special_move: None, promotion: None });
            rook_ray_push(board, moves, from, c, start_file, next, dir, fuel - 1);
            assert(moves@ =~= old(moves)@ + rook_ray_moves(board@, from, c, start_file as int, pos as int, dir as int, fuel as nat));
        }
        Some(p) => {
            if p.color != c {
                moves.push(Move { from: from, to: Square(next as u8), special_move: None, promotion: None });
            }
            assert(moves@ =~= old(moves)@ + rook_ray_moves(board@, from, c, start_file as int, pos as int, dir as int, fuel as nat));
        }
    }
}

/// Exec helper: walk one bishop ray, appending its moves.
fn bishop_ray_push(board: &ArrayBoard, moves: &mut Vec<Move>, from: Square, c: Color, start_file: i32, start_rank: i32, pos: i32, dir: i32, fuel: u8)
    requires
        board@.wf(),
        from.0 < 64,
        0 <= start_file < 8,
        0 <= start_rank < 8,
        -64 <= pos < 128,
        -9 <= dir <= 9,
    ensures
        final(moves)@ == old(moves)@ + bishop_ray_moves(board@, from, c, start_file as int, start_rank as int, pos as int, dir as int, fuel as nat),
    decreases fuel,
{
    if fuel == 0 {
        assert(moves@ =~= old(moves)@ + bishop_ray_moves(board@, from, c, start_file as int, start_rank as int, pos as int, dir as int, fuel as nat));
        return;
    }
    let next = pos + dir;
    if next < 0 || next >= 64 {
        assert(moves@ =~= old(moves)@ + bishop_ray_moves(board@, from, c, start_file as int, start_rank as int, pos as int, dir as int, fuel as nat));
        return;
    }
    let fd = {
        let a = start_file;
        let bb = next % 8;
        if a >= bb {
            a - bb
        } else {
            bb - a
        }
    };
    let rd = {
        let a = start_rank;
        let bb = next / 8;
        if a >= bb {
            a - bb
        } else {
            bb - a
        }
    };
    if fd != rd {
        assert(moves@ =~= old(moves)@ + bishop_ray_moves(board@, from, c, start_file as int, start_rank as int, pos as int, dir as int, fuel as nat));
        return;
    }
    match board.get_piece(Square(next as u8)) {
        None => {
            moves.push(Move { from: from, to: Square(next as u8), special_move: None, promotion: None });
            bishop_ray_push(board, moves, from, c, start_file, start_rank, next, dir, fuel - 1);
            assert(moves@ =~= old(moves)@ + bishop_ray_moves(board@, from, c, start_file as int, start_rank as int, pos as int, dir as int, fuel as nat));
        }
        Some(p) => {
            if p.color != c {
                moves.push(Move { from: from, to: Square(next as u8), special_move: None, promotion: None });
            }
            assert(moves@ =~= old(moves)@ + bishop_ray_moves(board@, from, c, start_file as int, start_rank as int, pos as int, dir as int, fuel as nat));
        }
    }
}

/// Pseudo-legal rook moves: the four lateral rays, walked until blocked.
pub fn generate_rook_moves(board: &ArrayBoard, square: Square, color: Color) -> (r: Vec<Move>)
    requires
        board@.wf(),
        square.0 < 64,
    ensures
        r@ == spec_rook_moves(board@, square, color),
{
    let mut moves: Vec<Move> = Vec::new();
    let s = square.0 as i32;
    let file = s % 8;
    rook_ray_push(board, &mut moves, square, color, file, s, 8, 8);
    rook_ray_push(board, &mut moves, square, color, file, s, -8, 8);
    rook_ray_push(board, &mut moves, square, color, file, s, 1, 8);
    rook_ray_push(board, &mut moves, square, color, file, s, -1, 8);
    assert(moves@ =~= spec_rook_moves(board@, square, color));
    moves
}

/// Pseudo-legal bishop moves: the four diagonal rays, walked until blocked.
pub fn generate_bishop_moves(board: &ArrayBoard, square: Square, color: Color) -> (r: Vec<Move>)
    requires
        board@.wf(),
        square.0 < 64,
    ensures
        r@ == spec_bishop_moves(board@, square, color),
{
    let mut moves: Vec<Move> = Vec::new();
    let s = square.0 as i32;
    let file = s % 8;
    let rank = s / 8;
    bishop_ray_push(board, &mut moves, square, color, file, rank, s, 9, 8);
    bishop_ray_push(board, &mut moves, square, color, file, rank, s, -9, 8);
    bishop_ray_push(board, &mut moves, square, color, file, rank, s, 7, 8);
    bishop_ray_push(board, &mut moves, square, color, file, rank, s, -7, 8);
    assert(moves@ =~= spec_bishop_moves(board@, square, color));
    moves
}

/// Pseudo-legal queen moves: the rook rays then the bishop rays.
pub fn generate_queen_moves(board: &ArrayBoard, square: Square, color: Color) -> (r: Vec<Move>)
    requires
        board@.wf(),
        square.0 < 64,
    ensures
        r@ == spec_queen_moves(board@, square, color),
{
    let mut moves = generate_rook_moves(board, square, color);
    let mut bishop = generate_bishop_moves(board, square, color);
    moves.append(&mut bishop);
    assert(moves@ =~= spec_queen_moves(board@, square, color));
    moves
}

} // verus!
