use vstd::prelude::*;
use crate::types::{Color, Move, Square};
use crate::board::{ArrayBoard, BoardView, makeable, spec_make, lemma_make_unmake};
use crate::attack::spec_in_check;
use crate::evaluation::{evaluate, spec_evaluate, lemma_eval_bound};
use crate::legal_moves::{
    spec_legal_moves, generate_legal_moves, lemma_legal_moves_sound, lemma_made_board_shape,
};
use crate::piece_moves::all_makeable;

verus! {

pub const INFINITY: i32 = 1_000_000;

/// Sentinel magnitude for checkmate: far above any material evaluation,
/// far below `i32` limits.
pub const MATE_SCORE: i32 = 100_000;

/// Every minimax value stays within this bound: 64 squares of at most a
/// king's worth each.
pub const EVAL_BOUND: i32 = 1_280_000;

pub open spec fn imax(a: int, b: int) -> int {
    if a >= b {
        a
    } else {
        b
    }
}

pub open spec fn imin(a: int, b: int) -> int {
    if a <= b {
        a
    } else {
        b
    }
}

/// Fold the children's minimax values over the moves in order, taking the
/// maximum or the minimum, starting from `acc`.
pub open spec fn spec_minimax_fold(b: BoardView, moves: Seq<Move>, depth: nat, maximizing: bool, acc: int) -> int
    decreases depth, 0nat, moves.len(),
{
    if moves.len() == 0 || depth == 0 {
        acc
    } else {
        let prev = spec_minimax_fold(b, moves.drop_last(), depth, maximizing, acc);
        let v = spec_minimax(spec_make(b, moves.last()), (depth - 1) as nat, !maximizing);
        if maximizing {
            imax(prev, v)
        } else {
            imin(prev, v)
        }
    }
}

/// The plain minimax value: the evaluation at depth 0; the mate or
/// stalemate score with no legal moves; otherwise the best child value for
/// the maximizing player, the worst for the minimizing one.
pub open spec fn spec_minimax(b: BoardView, depth: nat, maximizing: bool) -> int
    decreases depth, 1nat, 0nat,
{
    if depth == 0 {
        spec_evaluate(b)
    } else {
        let moves = spec_legal_moves(b, b.to_move);
        if moves.len() == 0 {
            if spec_in_check(b, b.to_move) {
                if maximizing {
                    -MATE_SCORE as int
                } else {
                    MATE_SCORE as int
                }
            } else {
                0
            }
        } else if maximizing {
            spec_minimax_fold(b, moves, depth, true, i32::MIN as int)
        } else {
            spec_minimax_fold(b, moves, depth, false, i32::MAX as int)
        }
    }
}

/// Folding from a larger accumulator is folding from the smaller one and
/// then taking the maximum (resp. minimum) with it.
proof fn lemma_fold_acc(b: BoardView, moves: Seq<Move>, depth: nat, maximizing: bool, a: int, c: int)
    ensures
        maximizing ==> spec_minimax_fold(b, moves, depth, maximizing, imax(a, c)) == imax(
            a,
            spec_minimax_fold(b, moves, depth, maximizing, c),
        ),
        !maximizing ==> spec_minimax_fold(b, moves, depth, maximizing, imin(a, c)) == imin(
            a,
            spec_minimax_fold(b, moves, depth, maximizing, c),
        ),
    decreases moves.len(),
{
    if moves.len() > 0 && depth > 0 {
        lemma_fold_acc(b, moves.drop_last(), depth, maximizing, a, c);
    }
}

/// A fold over a prefix never beats the fold over the whole sequence.
proof fn lemma_fold_prefix(b: BoardView, moves: Seq<Move>, depth: nat, maximizing: bool, acc: int, i: int)
    requires
        0 <= i <= moves.len(),
    ensures
        maximizing ==> spec_minimax_fold(b, moves.take(i), depth, maximizing, acc)
            <= spec_minimax_fold(b, moves, depth, maximizing, acc),
        !maximizing ==> spec_minimax_fold(b, moves.take(i), depth, maximizing, acc)
            >= spec_minimax_fold(b, moves, depth, maximizing, acc),
    decreases moves.len(),
{
    if depth == 0 {
        // Both folds return the accumulator.
    } else if i < moves.len() {
        assert(moves.drop_last().take(i) =~= moves.take(i));
        lemma_fold_prefix(b, moves.drop_last(), depth, maximizing, acc, i);
    } else {
        assert(moves.take(i) =~= moves);
    }
}

/// Minimax values never leave the material band.
pub proof fn lemma_minimax_bound(b: BoardView, depth: nat, maximizing: bool)
    ensures
        -EVAL_BOUND <= spec_minimax(b, depth, maximizing) <= EVAL_BOUND,
    decreases depth, 1nat, 0nat,
{
    if depth == 0 {
        lemma_eval_bound(b, 64);
    } else {
        let moves = spec_legal_moves(b, b.to_move);
        if moves.len() > 0 {
            if maximizing {
                lemma_fold_bound(b, moves, depth, true, i32::MIN as int);
            } else {
                lemma_fold_bound(b, moves, depth, false, i32::MAX as int);
            }
        }
    }
}

proof fn lemma_fold_bound(b: BoardView, moves: Seq<Move>, depth: nat, maximizing: bool, acc: int)
    requires
        depth > 0,
    ensures
        maximizing ==> spec_minimax_fold(b, moves, depth, maximizing, acc) <= imax(acc, EVAL_BOUND as int),
        maximizing ==> spec_minimax_fold(b, moves, depth, maximizing, acc) >= acc,
        maximizing && moves.len() > 0 ==> spec_minimax_fold(b, moves, depth, maximizing, acc) >= -EVAL_BOUND,
        !maximizing ==> spec_minimax_fold(b, moves, depth, maximizing, acc) >= imin(acc, -EVAL_BOUND as int),
        !maximizing ==> spec_minimax_fold(b, moves, depth, maximizing, acc) <= acc,
        !maximizing && moves.len() > 0 ==> spec_minimax_fold(b, moves, depth, maximizing, acc) <= EVAL_BOUND,
    decreases depth, 0nat, moves.len(),
{
    if moves.len() > 0 {
        lemma_fold_bound(b, moves.drop_last(), depth, maximizing, acc);
        lemma_minimax_bound(spec_make(b, moves.last()), (depth - 1) as nat, !maximizing);
    }
}

/// Non-pruning minimax: the reference the pruning search is held to.
/// The board comes back exactly as it was.
#[verifier::rlimit(100)]
pub fn minimax(board: &mut ArrayBoard, depth: u32, maximizing_player: bool) -> (r: i32)
    requires
        old(board)@.wf(),
    ensures
        final(board)@ == old(board)@,
        r as int == spec_minimax(old(board)@, depth as nat, maximizing_player),
    decreases depth,
{
    if depth == 0 {
        return evaluate(board);
    }

    let ghost b0 = board@;
    let current_color = board.to_move();
    let moves = generate_legal_moves(board, current_color);
    proof {
        lemma_legal_moves_sound(b0, current_color);
    }

    if moves.len() == 0 {
        if board.is_in_check(current_color) {
            return if maximizing_player {
                -MATE_SCORE
            } else {
                MATE_SCORE
            };
        } else {
            return 0;
        }
    }

    let mut best: i32 = if maximizing_player {
        i32::MIN
    } else {
        i32::MAX
    };
    let ghost acc0: int = best as int;
    let mut i: usize = 0;
    while i < moves.len()
        invariant
            board@ == b0,
            b0.wf(),
            depth >= 1,
            moves@ == spec_legal_moves(b0, b0.to_move),
            all_makeable(b0, moves@),
            0 <= i <= moves@.len(),
            acc0 == if maximizing_player { i32::MIN as int } else { i32::MAX as int },
            best as int == spec_minimax_fold(b0, moves@.take(i as int), depth as nat, maximizing_player, acc0),
        decreases moves@.len() - i,
    {
        let mv = moves[i];
        proof {
            assert(makeable(b0, mv));
            lemma_made_board_shape(b0, mv);
            lemma_make_unmake(b0, mv);
        }
        let undo = board.make_move(&mv);
        let eval = minimax(board, depth - 1, !maximizing_player);
        board.unmake_move(&mv, undo);
        if maximizing_player {
            if eval > best {
                best = eval;
            }
        } else {
            if eval < best {
                best = eval;
            }
        }
        proof {
            assert(moves@.take(i as int + 1).drop_last() =~= moves@.take(i as int));
            assert(moves@.take(i as int + 1).last() == mv);
        }
        i = i + 1;
    }
    proof {
        assert(moves@.take(moves@.len() as int) =~= moves@);
    }
    best
}

/// What alpha-beta promises relative to the plain minimax value `v`:
/// exact inside the window, and a bound on the failing side outside it.
pub open spec fn alphabeta_post(v: int, alpha: int, beta: int, r: int) -> bool {
    &&& (alpha < v < beta ==> r == v)
    &&& (v <= alpha ==> v <= r <= alpha)
    &&& (v >= beta ==> beta <= r <= v)
}

/// The maximizing half of alpha-beta: raise `alpha` over the children,
/// cutting off as soon as it reaches `beta`.
#[verifier::rlimit(100)]
fn alphabeta_max(board: &mut ArrayBoard, depth: u32, alpha: i32, beta: i32) -> (r: i32)
    requires
        old(board)@.wf(),
        alpha < beta,
        depth >= 1,
        spec_legal_moves(old(board)@, old(board)@.to_move).len() > 0,
    ensures
        final(board)@ == old(board)@,
        alphabeta_post(
            spec_minimax(old(board)@, depth as nat, true),
            alpha as int,
            beta as int,
            r as int,
        ),
    decreases depth, 0nat,
{
    let ghost b0 = board@;
    let ghost d = depth as nat;
    let ghost v = spec_minimax(b0, d, true);
    let current_color = board.to_move();
    let moves = generate_legal_moves(board, current_color);
    proof {
        lemma_legal_moves_sound(b0, current_color);
    }

    let mut a = alpha;
    let mut i: usize = 0;
    while i < moves.len()
        invariant
            board@ == b0,
            b0 == old(board)@,
            b0.wf(),
            depth >= 1,
            alpha < beta,
            d == depth as nat,
            v == spec_minimax(b0, d, true),
            moves@ == spec_legal_moves(b0, b0.to_move),
            moves@.len() > 0,
            all_makeable(b0, moves@),
            0 <= i <= moves@.len(),
            a as int == spec_minimax_fold(b0, moves@.take(i as int), d, true, alpha as int),
            a < beta,
        decreases moves@.len() - i,
    {
        let mv = moves[i];
        proof {
            assert(makeable(b0, mv));
            lemma_made_board_shape(b0, mv);
            lemma_make_unmake(b0, mv);
        }
        let undo = board.make_move(&mv);
        let child = alphabeta(board, depth - 1, a, beta, false);
        board.unmake_move(&mv, undo);
        assert(board@ == b0);

        let ghost vi = spec_minimax(spec_make(b0, mv), (d - 1) as nat, false);
        let ghost a_before = a as int;
        if child > a {
            a = child;
        }
        proof {
            assert(moves@.take(i as int + 1).drop_last() =~= moves@.take(i as int));
            assert(moves@.take(i as int + 1).last() == mv);
            let pm_next = spec_minimax_fold(b0, moves@.take(i as int + 1), d, true, alpha as int);
            assert(pm_next == imax(a_before, vi));
            if child as int >= beta as int {
                assert(vi >= beta);
                assert(a as int == child as int);
                assert(a as int <= vi);
                assert(a as int <= pm_next);
            } else {
                assert(a as int == pm_next);
            }
        }
        if beta <= a {
            proof {
                let pm_next = spec_minimax_fold(b0, moves@.take(i as int + 1), d, true, alpha as int);
                lemma_fold_prefix(b0, moves@, d, true, alpha as int, i as int + 1);
                let pm_all = spec_minimax_fold(b0, moves@, d, true, alpha as int);
                lemma_fold_acc(b0, moves@, d, true, alpha as int, i32::MIN as int);
                assert(pm_all == imax(alpha as int, v));
                assert(a as int <= pm_next <= pm_all);
                assert(v >= beta);
            }
            return a;
        }
        i = i + 1;
    }
    proof {
        assert(moves@.take(moves@.len() as int) =~= moves@);
        lemma_fold_acc(b0, moves@, d, true, alpha as int, i32::MIN as int);
        assert(spec_minimax_fold(b0, moves@, d, true, alpha as int) == imax(alpha as int, v));
    }
    a
}

/// The minimizing half: lower `beta`, cutting off at `alpha`.
#[verifier::rlimit(100)]
fn alphabeta_min(board: &mut ArrayBoard, depth: u32, alpha: i32, beta: i32) -> (r: i32)
    requires
        old(board)@.wf(),
        alpha < beta,
        depth >= 1,
        spec_legal_moves(old(board)@, old(board)@.to_move).len() > 0,
    ensures
        final(board)@ == old(board)@,
        alphabeta_post(
            spec_minimax(old(board)@, depth as nat, false),
            alpha as int,
            beta as int,
            r as int,
        ),
    decreases depth, 0nat,
{
    let ghost b0 = board@;
    let ghost d = depth as nat;
    let ghost v = spec_minimax(b0, d, false);
    let current_color = board.to_move();
    let moves = generate_legal_moves(board, current_color);
    proof {
        lemma_legal_moves_sound(b0, current_color);
    }

    let mut bt = beta;
    let mut i: usize = 0;
    while i < moves.len()
        invariant
            board@ == b0,
            b0 == old(board)@,
            b0.wf(),
            depth >= 1,
            alpha < beta,
            d == depth as nat,
            v == spec_minimax(b0, d, false),
            moves@ == spec_legal_moves(b0, b0.to_move),
            moves@.len() > 0,
            all_makeable(b0, moves@),
            0 <= i <= moves@.len(),
            bt as int == spec_minimax_fold(b0, moves@.take(i as int), d, false, beta as int),
            bt > alpha,
        decreases moves@.len() - i,
    {
        let mv = moves[i];
        proof {
            assert(makeable(b0, mv));
            lemma_made_board_shape(b0, mv);
            lemma_make_unmake(b0, mv);
        }
        let undo = board.make_move(&mv);
        let child = alphabeta(board, depth - 1, alpha, bt, true);
        board.unmake_move(&mv, undo);
        assert(board@ == b0);

        let ghost vi = spec_minimax(spec_make(b0, mv), (d - 1) as nat, true);
        let ghost bt_before = bt as int;
        if child < bt {
            bt = child;
        }
        proof {
            assert(moves@.take(i as int + 1).drop_last() =~= moves@.take(i as int));
            assert(moves@.take(i as int + 1).last() == mv);
            let pm_next = spec_minimax_fold(b0, moves@.take(i as int + 1), d, false, beta as int);
            assert(pm_next == imin(bt_before, vi));
            if child as int <= alpha as int {
                assert(vi <= alpha);
                assert(bt as int == child as int);
                assert(bt as int >= vi);
                assert(bt as int >= pm_next);
            } else {
                assert(bt as int == pm_next);
            }
        }
        if bt <= alpha {
            proof {
                let pm_next = spec_minimax_fold(b0, moves@.take(i as int + 1), d, false, beta as int);
                lemma_fold_prefix(b0, moves@, d, false, beta as int, i as int + 1);
                let pm_all = spec_minimax_fold(b0, moves@, d, false, beta as int);
                lemma_fold_acc(b0, moves@, d, false, beta as int, i32::MAX as int);
                assert(pm_all == imin(beta as int, v));
                assert(bt as int >= pm_next >= pm_all);
                assert(v <= alpha);
            }
            return bt;
        }
        i = i + 1;
    }
    proof {
        assert(moves@.take(moves@.len() as int) =~= moves@);
        lemma_fold_acc(b0, moves@, d, false, beta as int, i32::MAX as int);
        assert(spec_minimax_fold(b0, moves@, d, false, beta as int) == imin(beta as int, v));
    }
    bt
}

/// Fail-hard alpha-beta.  Against the same position and depth it returns
/// exactly the minimax value whenever that value lies inside the open
/// window, and a value on the correct side of the window otherwise.  The
/// board comes back exactly as it was.
pub fn alphabeta(board: &mut ArrayBoard, depth: u32, alpha: i32, beta: i32, maximizing_player: bool) -> (r: i32)
    requires
        old(board)@.wf(),
        alpha < beta,
    ensures
        final(board)@ == old(board)@,
        alphabeta_post(
            spec_minimax(old(board)@, depth as nat, maximizing_player),
            alpha as int,
            beta as int,
            r as int,
        ),
    decreases depth, 1nat,
{
    if depth == 0 {
        return evaluate(board);
    }

    let ghost b0 = board@;
    let current_color = board.to_move();
    let moves = generate_legal_moves(board, current_color);
    proof {
        lemma_legal_moves_sound(b0, current_color);
    }

    if moves.len() == 0 {
        if board.is_in_check(current_color) {
            return if maximizing_player {
                -MATE_SCORE
            } else {
                MATE_SCORE
            };
        } else {
            return 0;
        }
    }

    if maximizing_player {
        alphabeta_max(board, depth, alpha, beta)
    } else {
        alphabeta_min(board, depth, alpha, beta)
    }
}

/// The score the root assigns a legal move: the negation of the child
/// position's minimax value one ply shallower, from the opponent's seat.
pub open spec fn spec_root_score(b: BoardView, m: Move, depth: nat) -> int {
    -spec_minimax(spec_make(b, m), (depth - 1) as nat, false)
}

/// The root's pick over `moves`: the highest-scoring move, ties resolved in
/// favor of the earliest move in the sequence.
pub open spec fn spec_root_best(b: BoardView, moves: Seq<Move>, depth: nat) -> (Move, int)
    decreases moves.len(),
{
    if moves.len() <= 1 {
        (moves[0], spec_root_score(b, moves[0], depth))
    } else {
        let prev = spec_root_best(b, moves.drop_last(), depth);
        let s = spec_root_score(b, moves.last(), depth);
        if s > prev.1 {
            (moves.last(), s)
        } else {
            prev
        }
    }
}

/// What a fixed-depth root search returns on any position: with no legal
/// moves, the sentinel move and the mate or stalemate score; otherwise the
/// earliest best-scoring legal move and its score.
pub open spec fn spec_search_result(b: BoardView, depth: nat) -> (Move, int) {
    let moves = spec_legal_moves(b, b.to_move);
    if moves.len() == 0 {
        (
            Move { from: Square(0), to: Square(0), special_move: None, promotion: None },
            if spec_in_check(b, b.to_move) {
                -MATE_SCORE as int
            } else {
                0
            },
        )
    } else {
        spec_root_best(b, moves, depth)
    }
}

/// The root's pick really is the first maximum: the returned index is the
/// pick's place among the moves, its score dominates every root move's
/// score and strictly dominates every earlier one's.
#[verifier::rlimit(100)]
pub proof fn lemma_root_best_is_first_max(b: BoardView, moves: Seq<Move>, depth: nat) -> (w: int)
    requires
        moves.len() > 0,
    ensures
        0 <= w < moves.len(),
        moves[w] == spec_root_best(b, moves, depth).0,
        spec_root_score(b, moves[w], depth) == spec_root_best(b, moves, depth).1,
        forall|j: int| 0 <= j < w ==> spec_root_score(b, #[trigger] moves[j], depth)
            < spec_root_best(b, moves, depth).1,
        forall|j: int| 0 <= j < moves.len() ==> spec_root_score(b, #[trigger] moves[j], depth)
            <= spec_root_best(b, moves, depth).1,
    decreases moves.len(),
{
    if moves.len() == 1 {
        0
    } else {
        let i_prev = lemma_root_best_is_first_max(b, moves.drop_last(), depth);
        let prev = spec_root_best(b, moves.drop_last(), depth);
        let best = spec_root_best(b, moves, depth);
        let s = spec_root_score(b, moves.last(), depth);
        assert(forall|j: int| 0 <= j < moves.len() - 1 ==> #[trigger] moves[j] == moves.drop_last()[j]);
        if s > prev.1 {
            let w = moves.len() - 1;
            assert(forall|j: int| 0 <= j < w ==> spec_root_score(b, #[trigger] moves[j], depth)
                < best.1) by {
                assert(forall|j: int| 0 <= j < w ==> spec_root_score(
                    b,
                    #[trigger] moves.drop_last()[j],
                    depth,
                ) <= prev.1);
            }
            w
        } else {
            i_prev
        }
    }
}

/// Fixed-depth search from the root: score each legal move by alpha-beta
/// over an effectively unbounded window and keep the earliest maximum.  The
/// result is a function of the position and depth alone.  The board comes
/// back exactly as it was.
#[verifier::rlimit(100)]
pub fn search(board: &mut ArrayBoard, depth: u32) -> (r: (Move, i32))
    requires
        old(board)@.wf(),
        depth >= 1,
    ensures
        final(board)@ == old(board)@,
        r.0 == spec_search_result(old(board)@, depth as nat).0,
        r.1 as int == spec_search_result(old(board)@, depth as nat).1,
{
    let ghost b0 = board@;
    let ghost d = depth as nat;
    let current_color = board.to_move();
    let moves = generate_legal_moves(board, current_color);
    proof {
        lemma_legal_moves_sound(b0, current_color);
    }

    if moves.len() == 0 {
        let dummy_move = Move::new(Square(0), Square(0), None, None);
        let score = if board.is_in_check(current_color) {
            -MATE_SCORE
        } else {
            0
        };
        return (dummy_move, score);
    }

    let mut best_move = moves[0];
    let mut best_score = i32::MIN;

    let mut i: usize = 0;
    while i < moves.len()
        invariant
            board@ == b0,
            b0 == old(board)@,
            b0.wf(),
            depth >= 1,
            d == depth as nat,
            moves@ == spec_legal_moves(b0, b0.to_move),
            moves@.len() > 0,
            all_makeable(b0, moves@),
            0 <= i <= moves@.len(),
            i == 0 ==> best_score == i32::MIN && best_move == moves@[0],
            i >= 1 ==> best_move == spec_root_best(b0, moves@.take(i as int), d).0
                && best_score as int == spec_root_best(b0, moves@.take(i as int), d).1,
        decreases moves@.len() - i,
    {
        let mv = moves[i];
        proof {
            assert(makeable(b0, mv));
            lemma_made_board_shape(b0, mv);
            lemma_make_unmake(b0, mv);
            lemma_minimax_bound(spec_make(b0, mv), (d - 1) as nat, false);
        }
        let undo = board.make_move(&mv);
        let child = alphabeta(board, depth - 1, -i32::MAX, i32::MAX, false);
        board.unmake_move(&mv, undo);
        let score = -child;
        proof {
            assert(score as int == spec_root_score(b0, mv, d));
        }

        if score > best_score {
            best_score = score;
            best_move = mv;
        }
        proof {
            assert(moves@.take(i as int + 1).drop_last() =~= moves@.take(i as int));
            assert(moves@.take(i as int + 1).last() == mv);
            if i == 0 {
                assert(moves@.take(1).len() == 1);
            }
        }
        i = i + 1;
    }
    proof {
        assert(moves@.take(moves@.len() as int) =~= moves@);
    }
    (best_move, best_score)
}

} // verus!
