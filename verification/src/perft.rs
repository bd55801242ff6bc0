use vstd::prelude::*;
use crate::types::{Color, Move, SpecialMove};
use crate::board::{ArrayBoard, BoardView, makeable, spec_make, lemma_make_unmake};
use crate::attack::{spec_find_king, spec_count_attackers};
use crate::legal_moves::{
    spec_legal_moves, generate_legal_moves, lemma_legal_moves_sound, lemma_made_board_shape,
};
use crate::piece_moves::all_makeable;

verus! {

/// `n`, capped at what a `u64` counter can hold.
pub open spec fn sat64(n: int) -> int {
    if n > u64::MAX {
        u64::MAX as int
    } else {
        n
    }
}

/// Exec saturating add on `u64`, the cap of every perft counter.
fn sat_add(a: u64, b: u64) -> (r: u64)
    ensures
        r as int == sat64(a as int + b as int),
{
    if a > u64::MAX - b {
        u64::MAX
    } else {
        a + b
    }
}

/// The number of leaves of the legal-move tree at `depth`: one at depth 0,
/// the number of legal moves at depth 1, and otherwise the sum over each
/// legal move of the child's count.
pub open spec fn spec_perft(b: BoardView, depth: nat) -> nat
    decreases depth, 1nat, 0nat,
{
    if depth == 0 {
        1
    } else if depth == 1 {
        spec_legal_moves(b, b.to_move).len()
    } else {
        spec_perft_sum(b, spec_legal_moves(b, b.to_move), depth)
    }
}

pub open spec fn spec_perft_sum(b: BoardView, moves: Seq<Move>, depth: nat) -> nat
    decreases depth, 0nat, moves.len(),
{
    if moves.len() == 0 || depth == 0 {
        0
    } else {
        spec_perft_sum(b, moves.drop_last(), depth) + spec_perft(
            spec_make(b, moves.last()),
            (depth - 1) as nat,
        )
    }
}

/// Count the legal-move tree's leaves to `depth`.  The count saturates at
/// `u64::MAX` instead of wrapping; every value a test can reach is far
/// below that.  The board comes back exactly as it was.
pub fn perft(board: &mut ArrayBoard, depth: u32) -> (r: u64)
    requires
        old(board)@.wf(),
    ensures
        final(board)@ == old(board)@,
        r as int == sat64(spec_perft(old(board)@, depth as nat) as int),
    decreases depth,
{
    if depth == 0 {
        return 1;
    }

    let ghost b0 = board@;
    let to_move = board.to_move();
    let moves = generate_legal_moves(board, to_move);
    proof {
        lemma_legal_moves_sound(b0, to_move);
    }

    if depth == 1 {
        return moves.len() as u64;
    }

    let mut nodes: u64 = 0;
    let mut i: usize = 0;
    while i < moves.len()
        invariant
            board@ == b0,
            b0.wf(),
            depth >= 2,
            moves@ == spec_legal_moves(b0, b0.to_move),
            all_makeable(b0, moves@),
            0 <= i <= moves@.len(),
            nodes as int == sat64(spec_perft_sum(b0, moves@.take(i as int), depth as nat) as int),
        decreases moves@.len() - i,
    {
        let mv = moves[i];
        proof {
            assert(makeable(b0, mv));
            lemma_made_board_shape(b0, mv);
            lemma_make_unmake(b0, mv);
        }
        let undo = board.make_move(&mv);
        let child = perft(board, depth - 1);
        board.unmake_move(&mv, undo);
        nodes = sat_add(nodes, child);
        proof {
            assert(moves@.take(i as int + 1).drop_last() =~= moves@.take(i as int));
            assert(moves@.take(i as int + 1).last() == mv);
        }
        i = i + 1;
    }
    proof {
        assert(moves@.take(moves@.len() as int) =~= moves@);
    }
    nodes
}

/// Per-root-move leaf counts plus their total: each legal move's name in
/// algebraic form beside the count of its subtree at `depth - 1`.
pub fn perft_divide(board: &mut ArrayBoard, depth: u32) -> (r: (Vec<(String, u64)>, u64))
    requires
        old(board)@.wf(),
        depth >= 1,
    ensures
        final(board)@ == old(board)@,
        r.0@.len() == spec_legal_moves(old(board)@, old(board)@.to_move).len(),
        forall|i: int| 0 <= i < r.0@.len() ==> {
            let m = spec_legal_moves(old(board)@, old(board)@.to_move)[i];
            (#[trigger] r.0@[i]).0@ == m.spec_algebraic() && r.0@[i].1 as int == sat64(
                spec_perft(spec_make(old(board)@, m), (depth - 1) as nat) as int,
            )
        },
        r.1 as int == sat64(
            spec_perft_sum(
                old(board)@,
                spec_legal_moves(old(board)@, old(board)@.to_move),
                depth as nat,
            ) as int,
        ),
{
    let ghost b0 = board@;
    let mut results: Vec<(String, u64)> = Vec::new();
    let mut total: u64 = 0;

    let to_move = board.to_move();
    let moves = generate_legal_moves(board, to_move);
    proof {
        lemma_legal_moves_sound(b0, to_move);
    }

    let mut i: usize = 0;
    while i < moves.len()
        invariant
            board@ == b0,
            b0.wf(),
            depth >= 1,
            moves@ == spec_legal_moves(b0, b0.to_move),
            all_makeable(b0, moves@),
            0 <= i <= moves@.len(),
            results@.len() == i,
            forall|j: int| 0 <= j < i ==> {
                let m = moves@[j];
                (#[trigger] results@[j]).0@ == m.spec_algebraic() && results@[j].1 as int == sat64(
                    spec_perft(spec_make(b0, m), (depth - 1) as nat) as int,
                )
            },
            total as int == sat64(spec_perft_sum(b0, moves@.take(i as int), depth as nat) as int),
        decreases moves@.len() - i,
    {
        let mv = moves[i];
        proof {
            assert(makeable(b0, mv));
            lemma_made_board_shape(b0, mv);
            lemma_make_unmake(b0, mv);
        }
        let undo = board.make_move(&mv);
        let nodes = perft(board, depth - 1);
        board.unmake_move(&mv, undo);

        results.push((mv.to_algebraic(), nodes));
        total = sat_add(total, nodes);
        proof {
            assert(moves@.take(i as int + 1).drop_last() =~= moves@.take(i as int));
            assert(moves@.take(i as int + 1).last() == mv);
        }
        i = i + 1;
    }
    proof {
        assert(moves@.take(moves@.len() as int) =~= moves@);
    }
    (results, total)
}

/// Detailed node statistics: captures, en passant, castles, promotions,
/// checks, double checks and checkmates beside the plain node count.
#[derive(Debug, Clone, Copy, PartialEq, Eq, Structural)]
pub struct PerftStats {
    pub nodes: u64,
    pub captures: u64,
    pub en_passant: u64,
    pub castles: u64,
    pub promotions: u64,
    pub checks: u64,
    pub discovery_checks: u64,
    pub double_checks: u64,
    pub checkmates: u64,
}

/// The model of a statistics record: the same counters, unbounded.
#[verifier::ext_equal]
pub struct PerftStatsView {
    pub nodes: nat,
    pub captures: nat,
    pub en_passant: nat,
    pub castles: nat,
    pub promotions: nat,
    pub checks: nat,
    pub discovery_checks: nat,
    pub double_checks: nat,
    pub checkmates: nat,
}

pub open spec fn stats_zero() -> PerftStatsView {
    PerftStatsView {
        nodes: 0,
        captures: 0,
        en_passant: 0,
        castles: 0,
        promotions: 0,
        checks: 0,
        discovery_checks: 0,
        double_checks: 0,
        checkmates: 0,
    }
}

pub open spec fn stats_plus(a: PerftStatsView, b: PerftStatsView) -> PerftStatsView {
    PerftStatsView {
        nodes: a.nodes + b.nodes,
        captures: a.captures + b.captures,
        en_passant: a.en_passant + b.en_passant,
        castles: a.castles + b.castles,
        promotions: a.promotions + b.promotions,
        checks: a.checks + b.checks,
        discovery_checks: a.discovery_checks + b.discovery_checks,
        double_checks: a.double_checks + b.double_checks,
        checkmates: a.checkmates + b.checkmates,
    }
}

/// Each counter of the record equals the model's counter, saturated.
pub open spec fn stats_sat_eq(s: PerftStats, v: PerftStatsView) -> bool {
    &&& s.nodes as int == sat64(v.nodes as int)
    &&& s.captures as int == sat64(v.captures as int)
    &&& s.en_passant as int == sat64(v.en_passant as int)
    &&& s.castles as int == sat64(v.castles as int)
    &&& s.promotions as int == sat64(v.promotions as int)
    &&& s.checks as int == sat64(v.checks as int)
    &&& s.discovery_checks as int == sat64(v.discovery_checks as int)
    &&& s.double_checks as int == sat64(v.double_checks as int)
    &&& s.checkmates as int == sat64(v.checkmates as int)
}

/// What one leaf (a legal move made at depth 1) contributes: its node and
/// its classification, read off the move and the position after it.
pub open spec fn leaf_stats(b: BoardView, m: Move) -> PerftStatsView {
    let b2 = spec_make(b, m);
    let c = b.to_move;
    let opp = c.spec_opposite();
    let is_capture = b.piece_at(m.to.0 as int) is Some || m.special_move == Some(SpecialMove::EnPassant);
    let attackers: int = match spec_find_king(b2, opp) {
        Some(k) => spec_count_attackers(b2, k.0 as int, c),
        None => 0,
    };
    PerftStatsView {
        nodes: 1,
        captures: if is_capture { 1nat } else { 0 },
        en_passant: if m.special_move == Some(SpecialMove::EnPassant) { 1nat } else { 0 },
        castles: if m.special_move == Some(SpecialMove::Castle) { 1nat } else { 0 },
        promotions: if m.promotion is Some { 1nat } else { 0 },
        checks: if attackers > 0 { 1nat } else { 0 },
        discovery_checks: 0,
        double_checks: if attackers >= 2 { 1nat } else { 0 },
        checkmates: if attackers > 0 && spec_legal_moves(b2, opp).len() == 0 { 1nat } else { 0 },
    }
}

/// Detailed statistics of the legal-move tree: one node at depth 0; at
/// depth 1 each leaf is classified; deeper, the children's records add up.
pub open spec fn spec_perft_detailed(b: BoardView, depth: nat) -> PerftStatsView
    decreases depth, 1nat, 0nat,
{
    if depth == 0 {
        PerftStatsView { nodes: 1, ..stats_zero() }
    } else {
        spec_detailed_sum(b, spec_legal_moves(b, b.to_move), depth)
    }
}

pub open spec fn spec_detailed_sum(b: BoardView, moves: Seq<Move>, depth: nat) -> PerftStatsView
    decreases depth, 0nat, moves.len(),
{
    if moves.len() == 0 || depth == 0 {
        stats_zero()
    } else {
        stats_plus(
            spec_detailed_sum(b, moves.drop_last(), depth),
            if depth == 1 {
                leaf_stats(b, moves.last())
            } else {
                spec_perft_detailed(spec_make(b, moves.last()), (depth - 1) as nat)
            },
        )
    }
}

impl PerftStats {
    /// The all-zero record.
    pub fn new() -> (r: Self)
        ensures
            stats_sat_eq(r, stats_zero()),
    {
        PerftStats {
            nodes: 0,
            captures: 0,
            en_passant: 0,
            castles: 0,
            promotions: 0,
            checks: 0,
            discovery_checks: 0,
            double_checks: 0,
            checkmates: 0,
        }
    }

    /// Add another record to this one, each counter saturating.
    pub fn add(&mut self, other: &PerftStats)
        ensures
            final(self).nodes as int == sat64(old(self).nodes as int + other.nodes as int),
            final(self).captures as int == sat64(old(self).captures as int + other.captures as int),
            final(self).en_passant as int == sat64(old(self).en_passant as int + other.en_passant as int),
            final(self).castles as int == sat64(old(self).castles as int + other.castles as int),
            final(self).promotions as int == sat64(old(self).promotions as int + other.promotions as int),
            final(self).checks as int == sat64(old(self).checks as int + other.checks as int),
            final(self).discovery_checks as int == sat64(old(self).discovery_checks as int + other.discovery_checks as int),
            final(self).double_checks as int == sat64(old(self).double_checks as int + other.double_checks as int),
            final(self).checkmates as int == sat64(old(self).checkmates as int + other.checkmates as int),
    {
        self.nodes = sat_add(self.nodes, other.nodes);
        self.captures = sat_add(self.captures, other.captures);
        self.en_passant = sat_add(self.en_passant, other.en_passant);
        self.castles = sat_add(self.castles, other.castles);
        self.promotions = sat_add(self.promotions, other.promotions);
        self.checks = sat_add(self.checks, other.checks);
        self.discovery_checks = sat_add(self.discovery_checks, other.discovery_checks);
        self.double_checks = sat_add(self.double_checks, other.double_checks);
        self.checkmates = sat_add(self.checkmates, other.checkmates);
    }
}

impl Default for PerftStats {
    /// The all-zero record.
    fn default() -> (r: Self)
        ensures
            stats_sat_eq(r, stats_zero()),
    {
        PerftStats::new()
    }
}

/// Count and classify the legal-move tree's leaves to `depth`: captures,
/// en passant, castles, promotions, checks, double checks, checkmates.
/// Counters saturate at `u64::MAX`.  The board comes back exactly as it was.
#[verifier::rlimit(100)]
pub fn perft_detailed(board: &mut ArrayBoard, depth: u32) -> (r: PerftStats)
    requires
        old(board)@.wf(),
    ensures
        final(board)@ == old(board)@,
        stats_sat_eq(r, spec_perft_detailed(old(board)@, depth as nat)),
    decreases depth,
{
    let mut stats = PerftStats::new();

    if depth == 0 {
        stats.nodes = 1;
        return stats;
    }

    let ghost b0 = board@;
    let current_color = board.to_move();
    let opponent_color = current_color.opposite();
    let moves = generate_legal_moves(board, current_color);
    proof {
        lemma_legal_moves_sound(b0, current_color);
    }

    let mut i: usize = 0;
    while i < moves.len()
        invariant
            board@ == b0,
            b0.wf(),
            depth >= 1,
            current_color == b0.to_move,
            opponent_color == current_color.spec_opposite(),
            moves@ == spec_legal_moves(b0, b0.to_move),
            all_makeable(b0, moves@),
            0 <= i <= moves@.len(),
            stats_sat_eq(stats, spec_detailed_sum(b0, moves@.take(i as int), depth as nat)),
        decreases moves@.len() - i,
    {
        let mv = moves[i];
        proof {
            assert(makeable(b0, mv));
            lemma_made_board_shape(b0, mv);
            lemma_make_unmake(b0, mv);
        }

        let is_capture = board.get_piece(mv.to).is_some()
            || mv.special_move == Some(SpecialMove::EnPassant);
        let is_en_passant = mv.special_move == Some(SpecialMove::EnPassant);
        let is_castle = mv.special_move == Some(SpecialMove::Castle);
        let is_promotion = mv.promotion.is_some();

        let undo = board.make_move(&mv);

        if depth == 1 {
            stats.nodes = sat_add(stats.nodes, 1);
            if is_capture {
                stats.captures = sat_add(stats.captures, 1);
            }
            if is_en_passant {
                stats.en_passant = sat_add(stats.en_passant, 1);
            }
            if is_castle {
                stats.castles = sat_add(stats.castles, 1);
            }
            if is_promotion {
                stats.promotions = sat_add(stats.promotions, 1);
            }

            match board.find_king(opponent_color) {
                Some(king_sq) => {
                    let attacker_count = board.count_attackers(king_sq, current_color);
                    if attacker_count > 0 {
                        stats.checks = sat_add(stats.checks, 1);
                        if attacker_count >= 2 {
                            stats.double_checks = sat_add(stats.double_checks, 1);
                        }
                        let opponent_moves = generate_legal_moves(board, opponent_color);
                        if opponent_moves.len() == 0 {
                            stats.checkmates = sat_add(stats.checkmates, 1);
                        }
                    }
                }
                None => {}
            }
        } else {
            let child_stats = perft_detailed(board, depth - 1);
            stats.add(&child_stats);
        }

        board.unmake_move(&mv, undo);
        proof {
            assert(moves@.take(i as int + 1).drop_last() =~= moves@.take(i as int));
            assert(moves@.take(i as int + 1).last() == mv);
        }
        i = i + 1;
    }
    proof {
        assert(moves@.take(moves@.len() as int) =~= moves@);
    }
    stats
}

} // verus!
