use vstd::prelude::*;
use crate::types::{Move, Square, ClassifiedMove};
use crate::board::{ArrayBoard, BoardView, makeable, spec_make, lemma_make_unmake};
use crate::minimax::{
    alphabeta, search, imax, spec_minimax, spec_root_score, spec_search_result,
    lemma_minimax_bound, lemma_root_best_is_first_max, MATE_SCORE, EVAL_BOUND,
};
use crate::legal_moves::{
    spec_legal_moves, generate_legal_moves, lemma_legal_moves_sound, lemma_made_board_shape,
};
use crate::piece_moves::all_makeable;
use crate::probe::{probe_root_moves, classify_moves_with_config, buckets_partition, lemma_bucket_member, lemma_partition_covers};
use crate::scheduling::TwoPhaseConfig;

verus! {

/// The work one root-split worker does: clone the position, make its
/// assigned move, search the child one ply shallower over an effectively
/// unbounded window, and report the negated child value — the move's exact
/// root score.
pub fn score_root_move(board: &ArrayBoard, mv: &Move, depth: u32) -> (r: i32)
    requires
        board@.wf(),
        makeable(board@, *mv),
        depth >= 1,
    ensures
        r as int == spec_root_score(board@, *mv, depth as nat),
{
    let mut local_board = *board;
    let ghost b0 = board@;
    proof {
        lemma_made_board_shape(b0, *mv);
        lemma_make_unmake(b0, *mv);
        lemma_minimax_bound(spec_make(b0, *mv), (depth - 1) as nat, false);
    }
    let undo = local_board.make_move(mv);
    let score = alphabeta(&mut local_board, depth - 1, i32::MIN + 1, i32::MAX - 1, false);
    local_board.unmake_move(mv, undo);
    -score
}

/// The stable reduce over worker results: the highest score wins, and on a
/// tie the earliest result in the sequence is kept, so that a parallel
/// fan-out reports the same move as the serial scan.
pub open spec fn spec_best_of(s: Seq<(Move, i32)>) -> (Move, i32)
    decreases s.len(),
{
    if s.len() <= 1 {
        s[0]
    } else {
        let prev = spec_best_of(s.drop_last());
        if s.last().1 > prev.1 {
            s.last()
        } else {
            prev
        }
    }
}

pub fn best_of(results: &Vec<(Move, i32)>) -> (r: (Move, i32))
    requires
        results@.len() > 0,
    ensures
        r == spec_best_of(results@),
{
    let mut best = results[0];
    let mut i: usize = 1;
    proof {
        assert(results@.take(1).len() == 1);
        assert(results@.take(1)[0] == results@[0]);
    }
    while i < results.len()
        invariant
            1 <= i <= results@.len(),
            results@.len() > 0,
            best == spec_best_of(results@.take(i as int)),
        decreases results@.len() - i,
    {
        let cand = results[i];
        if cand.1 > best.1 {
            best = cand;
        }
        proof {
            assert(results@.take(i as int + 1).drop_last() =~= results@.take(i as int));
            assert(results@.take(i as int + 1).last() == results@[i as int]);
        }
        i = i + 1;
    }
    proof {
        assert(results@.take(results@.len() as int) =~= results@);
    }
    best
}

/// Scoring every root move with full-window workers and reducing with the
/// stable maximum returns exactly what the serial search returns: the
/// fan-out order never shows in the result.
pub proof fn lemma_fan_out_matches_search(b: BoardView, depth: nat, results: Seq<(Move, i32)>)
    requires
        depth >= 1,
        results.len() == spec_legal_moves(b, b.to_move).len(),
        results.len() > 0,
        forall|i: int| 0 <= i < results.len() ==> (#[trigger] results[i]).0 == spec_legal_moves(
            b,
            b.to_move,
        )[i] && results[i].1 as int == spec_root_score(b, spec_legal_moves(b, b.to_move)[i], depth),
    ensures
        spec_best_of(results).0 == spec_search_result(b, depth).0,
        spec_best_of(results).1 as int == spec_search_result(b, depth).1,
{
    lemma_fan_out_fold(b, depth, results, spec_legal_moves(b, b.to_move), results.len() as int);
    assert(results.take(results.len() as int) =~= results);
    assert(spec_legal_moves(b, b.to_move).take(results.len() as int) =~= spec_legal_moves(b, b.to_move));
}

proof fn lemma_fan_out_fold(b: BoardView, depth: nat, results: Seq<(Move, i32)>, moves: Seq<Move>, n: int)
    requires
        depth >= 1,
        results.len() == moves.len(),
        0 < n <= results.len(),
        forall|i: int| 0 <= i < results.len() ==> (#[trigger] results[i]).0 == moves[i]
            && results[i].1 as int == spec_root_score(b, moves[i], depth),
    ensures
        spec_best_of(results.take(n)).0 == crate::minimax::spec_root_best(b, moves.take(n), depth).0,
        spec_best_of(results.take(n)).1 as int == crate::minimax::spec_root_best(b, moves.take(n), depth).1,
    decreases n,
{
    if n == 1 {
        assert(results.take(1)[0] == results[0]);
        assert(moves.take(1)[0] == moves[0]);
    } else {
        lemma_fan_out_fold(b, depth, results, moves, n - 1);
        assert(results.take(n).drop_last() =~= results.take(n - 1));
        assert(moves.take(n).drop_last() =~= moves.take(n - 1));
        assert(results.take(n).last() == results[n - 1]);
        assert(moves.take(n).last() == moves[n - 1]);
    }
}

/// The phase-two worker: as `score_root_move`, but the window is floored
/// at the best heavy score.  A light move that cannot beat the floor
/// reports a score between its true score and the floor; one that can
/// reports its true score exactly.
pub fn score_root_move_floored(board: &ArrayBoard, mv: &Move, depth: u32, alpha: i32) -> (r: i32)
    requires
        board@.wf(),
        makeable(board@, *mv),
        depth >= 1,
        -EVAL_BOUND <= alpha < i32::MAX - 1,
    ensures
        spec_root_score(board@, *mv, depth as nat) > alpha ==> r as int == spec_root_score(
            board@,
            *mv,
            depth as nat,
        ),
        spec_root_score(board@, *mv, depth as nat) <= alpha ==> spec_root_score(
            board@,
            *mv,
            depth as nat,
        ) <= r as int <= alpha,
{
    let mut local_board = *board;
    let ghost b0 = board@;
    proof {
        lemma_made_board_shape(b0, *mv);
        lemma_make_unmake(b0, *mv);
        lemma_minimax_bound(spec_make(b0, *mv), (depth - 1) as nat, false);
    }
    let undo = local_board.make_move(mv);
    let score = alphabeta(&mut local_board, depth - 1, -i32::MAX + 1, -alpha, false);
    local_board.unmake_move(mv, undo);
    -score
}

/// Two-phase root search, serially: probe every legal move, classify the
/// moves into a heavy and a light bucket, search the heavy bucket over the
/// full window, then the light bucket with the heavy best as a pruning
/// floor, and keep the better of the two picks.  The floor makes the two
/// phases equivalent to the single-phase search: the score equals the
/// serial search's score on every position, and the move matches whenever
/// the best root score is uniquely attained.  With no legal moves, the
/// sentinel result of the serial search.  The parallel front end runs the
/// same phases on its two pools.
#[verifier::rlimit(100)]
#[verifier::loop_isolation(false)]
pub fn two_phase_search(board: &mut ArrayBoard, depth: u32, config: &TwoPhaseConfig) -> (r: (Move, i32))
    requires
        old(board)@.wf(),
        depth >= 1,
    ensures
        final(board)@ == old(board)@,
        spec_legal_moves(old(board)@, old(board)@.to_move).len() == 0 ==> r.0
            == spec_search_result(old(board)@, depth as nat).0 && r.1 as int == spec_search_result(
            old(board)@,
            depth as nat,
        ).1,
        r.1 as int == spec_search_result(old(board)@, depth as nat).1,
        spec_legal_moves(old(board)@, old(board)@.to_move).len() > 0 ==> exists|j: int|
            0 <= j < spec_legal_moves(old(board)@, old(board)@.to_move).len()
                && #[trigger] spec_legal_moves(old(board)@, old(board)@.to_move)[j] == r.0,
        (spec_legal_moves(old(board)@, old(board)@.to_move).len() > 0 && (forall|j: int|
            0 <= j < spec_legal_moves(old(board)@, old(board)@.to_move).len()
                && #[trigger] spec_legal_moves(old(board)@, old(board)@.to_move)[j]
                != spec_search_result(old(board)@, depth as nat).0 ==> spec_root_score(
                old(board)@,
                spec_legal_moves(old(board)@, old(board)@.to_move)[j],
                depth as nat,
            ) < spec_search_result(old(board)@, depth as nat).1)) ==> r.0 == spec_search_result(
            old(board)@,
            depth as nat,
        ).0,
{
    let ghost b0 = board@;
    let ghost d = depth as nat;
    let current_color = board.to_move();
    let legal_moves = generate_legal_moves(board, current_color);
    proof {
        lemma_legal_moves_sound(b0, current_color);
    }

    if legal_moves.len() == 0 {
        return search(board, depth);
    }

    let ghost moves = spec_legal_moves(b0, b0.to_move);
    let ghost w_best = lemma_root_best_is_first_max(b0, moves, d);
    let ghost m_star = spec_search_result(b0, d).0;
    let ghost s_star = spec_search_result(b0, d).1;
    proof {
        assert(moves[w_best] == m_star);
        assert(spec_root_score(b0, m_star, d) == s_star);
    }

    let base = *board;
    let probed = probe_root_moves(&base, &legal_moves, config.probe_depth);
    let (heavy, light) = classify_moves_with_config(probed, &config.classification);
    proof {
        assert(heavy@.len() > 0);
    }
    // The best root move sits in one of the two buckets.
    let ghost cover = lemma_partition_covers(probed@, heavy@, light@, w_best);
    let ghost in_heavy = cover.0;
    let ghost ib = cover.1;
    proof {
        assert(probed@[w_best].0 == m_star);
    }

    // Phase one: the heavy bucket over the full window; exact scores, the
    // earliest maximum kept.
    let ghost j0 = lemma_bucket_member(probed@, heavy@, light@, 0);
    let mut best_move = heavy[0].mv;
    let mut best_score = score_root_move(&base, &heavy[0].mv, depth);
    let ghost mut jh = j0;
    let mut i: usize = 1;
    while i < heavy.len()
        invariant
            1 <= i <= heavy@.len(),
            0 <= jh < moves.len(),
            moves[jh] == best_move,
            best_score as int == spec_root_score(b0, best_move, d),
            forall|k: int| 0 <= k < i ==> spec_root_score(b0, (#[trigger] heavy@[k]).mv, d)
                <= best_score as int,
        decreases heavy@.len() - i,
    {
        let ghost jc = lemma_bucket_member(probed@, heavy@, light@, i as int);
        let cand = score_root_move(&base, &heavy[i].mv, depth);
        if cand > best_score {
            best_score = cand;
            best_move = heavy[i].mv;
            proof {
                jh = jc;
            }
        }
        i = i + 1;
    }
    proof {
        assert(spec_root_score(b0, moves[jh], d) <= s_star);
        if in_heavy {
            // The best move was scored exactly in this phase, so the
            // phase-one maximum is the best root score.
            assert(heavy@[ib].mv == m_star);
            assert(spec_root_score(b0, heavy@[ib].mv, d) <= best_score as int);
            assert(best_score as int == s_star);
        }
    }

    // Phase two: the light bucket with the heavy best as a pruning floor.
    if light.len() > 0 {
        let ghost jl0 = lemma_bucket_member(probed@, light@, heavy@, 0);
        let alpha = if best_score > i32::MIN + 1 {
            best_score
        } else {
            i32::MIN + 1
        };
        proof {
            lemma_minimax_bound(spec_make(b0, best_move), (d - 1) as nat, false);
            assert(alpha as int == best_score as int);
        }
        let mut light_move = light[0].mv;
        let mut light_score = score_root_move_floored(&base, &light[0].mv, depth, alpha);
        let ghost mut jl = jl0;
        let mut k: usize = 1;
        while k < light.len()
            invariant
                1 <= k <= light@.len(),
                0 <= jl < moves.len(),
                moves[jl] == light_move,
                -EVAL_BOUND <= alpha < i32::MAX - 1,
                alpha as int == best_score as int,
                best_score as int == spec_root_score(b0, best_move, d),
                spec_root_score(b0, light_move, d) <= light_score as int,
                light_score as int <= imax(alpha as int, spec_root_score(b0, light_move, d)),
                forall|k2: int| 0 <= k2 < k ==> (spec_root_score(b0, (#[trigger] light@[k2]).mv, d)
                    > alpha as int ==> light_score as int >= spec_root_score(b0, light@[k2].mv, d)),
            decreases light@.len() - k,
        {
            let ghost jc = lemma_bucket_member(probed@, light@, heavy@, k as int);
            let cand = score_root_move_floored(&base, &light[k].mv, depth, alpha);
            if cand > light_score {
                light_score = cand;
                light_move = light[k].mv;
                proof {
                    jl = jc;
                }
            }
            k = k + 1;
        }
        proof {
            assert(spec_root_score(b0, moves[jl], d) <= s_star);
        }
        if light_score > best_score {
            proof {
                // Above the floor the reported score is that move's exact
                // root score, and only the best move can reach the top.
                assert(light_score as int == spec_root_score(b0, light_move, d));
                if !in_heavy {
                    assert(light@[ib].mv == m_star);
                    if s_star > alpha as int {
                        assert(light_score as int >= s_star);
                    }
                }
                assert(light_score as int == s_star);
            }
            return (light_move, light_score);
        }
        proof {
            // The light bucket could not beat the floor, so the best move's
            // score is already the phase-one maximum.
            if !in_heavy {
                assert(light@[ib].mv == m_star);
                if s_star > alpha as int {
                    assert(light_score as int >= s_star);
                    assert(false);
                }
            }
            assert(best_score as int == s_star);
        }
    }

    proof {
        if light@.len() == 0 {
            if !in_heavy {
                assert(false);
            }
        }
        assert(best_score as int == s_star);
        assert(moves[jh] == best_move);
    }
    (best_move, best_score)
}

} // verus!
