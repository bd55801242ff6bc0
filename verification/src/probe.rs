use vstd::prelude::*;
use vstd::seq_lib::*;
use vstd::relations::sorted_by;
use vstd::multiset::Multiset;
use crate::types::{Move, ClassifiedMove, MovePhase};
use crate::board::{ArrayBoard, BoardView, makeable, spec_make, lemma_make_unmake};
use crate::legal_moves::{
    spec_legal_moves, generate_legal_moves, lemma_legal_moves_sound, lemma_made_board_shape,
};
use crate::piece_moves::all_makeable;
use crate::perft::sat64;

verus! {

broadcast use vstd::seq_lib::group_to_multiset_ensures;

/// Exec saturating add on `u64` probe counters.
fn sat_add(a: u64, b: u64) -> (r: u64)
    ensures
        r as int == sat64(a as int + b as int),
{
    if a > u64::MAX - b {
        u64::MAX
    } else {
        a + b
    }
}

/// The probe count of one root move: make it, then count the leaves of the
/// legal-move tree below it to `depth`, with no pruning and no evaluation.
/// A position with no legal continuation counts as one node.
pub open spec fn spec_probe_move(b: BoardView, m: Move, depth: nat) -> nat
    decreases depth, 1nat, 0nat,
{
    if depth == 0 {
        1
    } else {
        let b2 = spec_make(b, m);
        let ms = spec_legal_moves(b2, b2.to_move);
        if ms.len() == 0 {
            1
        } else {
            let total = spec_probe_sum(b2, ms, depth);
            if total >= 1 {
                total
            } else {
                1
            }
        }
    }
}

pub open spec fn spec_probe_sum(b2: BoardView, moves: Seq<Move>, depth: nat) -> nat
    decreases depth, 0nat, moves.len(),
{
    if moves.len() == 0 || depth == 0 {
        0
    } else {
        spec_probe_sum(b2, moves.drop_last(), depth) + spec_probe_move(
            b2,
            moves.last(),
            (depth - 1) as nat,
        )
    }
}

/// Count the sub-tree below one root move, saturating at `u64::MAX`.
pub fn probe_move(board: &ArrayBoard, mv: &Move, depth: u8) -> (r: u64)
    requires
        board@.wf(),
        makeable(board@, *mv),
    ensures
        r as int == sat64(spec_probe_move(board@, *mv, depth as nat) as int),
    decreases depth,
{
    if depth == 0 {
        return 1;
    }

    let mut temp_board = *board;
    let ghost b0 = board@;
    proof {
        lemma_made_board_shape(b0, *mv);
    }
    let undo = temp_board.make_move(mv);
    let ghost b2 = temp_board@;

    let current_color = temp_board.to_move();
    let moves = generate_legal_moves(&mut temp_board, current_color);
    proof {
        lemma_legal_moves_sound(b2, current_color);
    }

    if moves.len() == 0 {
        return 1;
    }

    let mut node_count: u64 = 0;
    let mut i: usize = 0;
    while i < moves.len()
        invariant
            temp_board@ == b2,
            b2.wf(),
            depth >= 1,
            moves@ == spec_legal_moves(b2, b2.to_move),
            all_makeable(b2, moves@),
            0 <= i <= moves@.len(),
            node_count as int == sat64(spec_probe_sum(b2, moves@.take(i as int), depth as nat) as int),
        decreases moves@.len() - i,
    {
        let child_mv = moves[i];
        proof {
            assert(makeable(b2, child_mv));
        }
        let child = probe_move(&temp_board, &child_mv, depth - 1);
        node_count = sat_add(node_count, child);
        proof {
            assert(moves@.take(i as int + 1).drop_last() =~= moves@.take(i as int));
            assert(moves@.take(i as int + 1).last() == child_mv);
        }
        i = i + 1;
    }
    proof {
        assert(moves@.take(moves@.len() as int) =~= moves@);
    }
    if node_count >= 1 {
        node_count
    } else {
        1
    }
}

/// Probe every root move, pairing each with its sub-tree count.
pub fn probe_root_moves(board: &ArrayBoard, moves: &Vec<Move>, depth: u8) -> (r: Vec<(Move, u64)>)
    requires
        board@.wf(),
        all_makeable(board@, moves@),
    ensures
        r@.len() == moves@.len(),
        forall|i: int| 0 <= i < moves@.len() ==> (#[trigger] r@[i]).0 == moves@[i]
            && r@[i].1 as int == sat64(spec_probe_move(board@, moves@[i], depth as nat) as int),
{
    let mut out: Vec<(Move, u64)> = Vec::new();
    let mut i: usize = 0;
    while i < moves.len()
        invariant
            board@.wf(),
            all_makeable(board@, moves@),
            0 <= i <= moves@.len(),
            out@.len() == i,
            forall|j: int| 0 <= j < i ==> (#[trigger] out@[j]).0 == moves@[j]
                && out@[j].1 as int == sat64(spec_probe_move(board@, moves@[j], depth as nat) as int),
        decreases moves@.len() - i,
    {
        let mv = moves[i];
        let node_count = probe_move(board, &mv, depth);
        out.push((mv, node_count));
        i = i + 1;
    }
    out
}

/// How root moves are split between the two pools, in whole per cent: the
/// share classified heavy, and the share of total probed nodes above which
/// the light bucket is promoted wholesale.
#[derive(Debug, Clone, Copy, PartialEq, Eq, Structural)]
pub struct ClassificationConfig {
    pub heavy_ratio_pct: u32,
    pub light_threshold_pct: u32,
}

impl Default for ClassificationConfig {
    /// Top 60% of moves go to the heavy bucket; a light bucket holding more
    /// than 30% of the nodes is promoted.
    fn default() -> (r: Self)
        ensures
            r == (ClassificationConfig { heavy_ratio_pct: 60, light_threshold_pct: 30 }),
    {
        ClassificationConfig { heavy_ratio_pct: 60, light_threshold_pct: 30 }
    }
}

/// Descending order on probe counts.
pub open spec fn ge_u64() -> spec_fn(u64, u64) -> bool {
    |x: u64, y: u64| x >= y
}

/// Sort probe counts in descending order (insertion sort).
fn sort_desc(v: &Vec<u64>) -> (r: Vec<u64>)
    ensures
        sorted_by(r@, ge_u64()),
        r@.to_multiset() == v@.to_multiset(),
        r@.len() == v@.len(),
{
    let mut out: Vec<u64> = Vec::new();
    let mut i: usize = 0;
    proof {
        assert(v@.take(0) =~= Seq::<u64>::empty());
        assert(out@.to_multiset() =~= v@.take(0).to_multiset());
    }
    while i < v.len()
        invariant
            0 <= i <= v@.len(),
            out@.len() == i,
            sorted_by(out@, ge_u64()),
            out@.to_multiset() == v@.take(i as int).to_multiset(),
        decreases v@.len() - i,
    {
        let x = v[i];
        let mut pos: usize = 0;
        while pos < out.len() && out[pos] >= x
            invariant
                0 <= pos <= out@.len(),
                forall|k: int| 0 <= k < pos ==> out@[k] >= x,
            decreases out@.len() - pos,
        {
            pos = pos + 1;
        }
        proof {
            assert(pos < out@.len() ==> out@[pos as int] < x);
        }
        let ghost before = out@;
        out.insert(pos, x);
        proof {
            broadcast use to_multiset_insert;
            assert(sorted_by(out@, ge_u64())) by {
                assert(forall|k: int| 0 <= k < pos ==> out@[k] == before[k]);
                assert(out@[pos as int] == x);
                assert(forall|k: int| pos < k < out@.len() ==> out@[k] == before[k - 1]);
                assert forall|j: int, k: int| 0 <= j < k < out@.len() implies ge_u64()(
                    out@[j],
                    out@[k],
                ) by {
                    if j < pos && k < pos {
                        assert(ge_u64()(before[j], before[k]));
                    } else if j < pos && k == pos {
                        assert(before[j] >= x);
                    } else if j < pos && k > pos {
                        assert(ge_u64()(before[j], before[k - 1]));
                    } else if j == pos && k > pos {
                        assert(before[pos as int] < x);
                        if pos < k - 1 {
                            assert(ge_u64()(before[pos as int], before[k - 1]));
                        }
                        assert(x >= before[k - 1]);
                    } else {
                        assert(j > pos && k > pos);
                        assert(ge_u64()(before[j - 1], before[k - 1]));
                    }
                }
            }
            assert(v@.take(i as int + 1).drop_last() =~= v@.take(i as int));
            assert(v@.take(i as int + 1).last() == x);
            assert(v@.take(i as int + 1) =~= v@.take(i as int).push(x));
            assert(out@.to_multiset() =~= v@.take(i as int + 1).to_multiset());
        }
        i = i + 1;
    }
    proof {
        assert(v@.take(v@.len() as int) =~= v@);
    }
    out
}

/// How many bucket entries carry exactly this count.
pub open spec fn count_eq_nodes(s: Seq<ClassifiedMove>, t: u64) -> int
    decreases s.len(),
{
    if s.len() == 0 {
        0
    } else {
        count_eq_nodes(s.drop_last(), t) + if s.last().subtree_nodes == t {
            1int
        } else {
            0
        }
    }
}

/// Assign each probed move to a bucket, scanning in order: every count
/// above the threshold (the heavy-count-th largest) goes heavy, and counts
/// equal to it go heavy while the tie slots left over by the strictly
/// larger counts last.  So the heavy bucket holds top counts only.
pub open spec fn spec_assign(probed: Seq<(Move, u64)>, threshold: u64, tie_slots: int) -> (Seq<ClassifiedMove>, Seq<ClassifiedMove>)
    decreases probed.len(),
{
    if probed.len() == 0 {
        (Seq::<ClassifiedMove>::empty(), Seq::<ClassifiedMove>::empty())
    } else {
        let (h, l) = spec_assign(probed.drop_last(), threshold, tie_slots);
        let (mv, nodes) = probed.last();
        if nodes > threshold || (nodes == threshold && count_eq_nodes(h, threshold) < tie_slots) {
            (h.push(ClassifiedMove { mv: mv, subtree_nodes: nodes, phase: MovePhase::Heavy }), l)
        } else {
            (h, l.push(ClassifiedMove { mv: mv, subtree_nodes: nodes, phase: MovePhase::Light }))
        }
    }
}

/// Everything heavy carries at least the threshold; everything light at
/// most: no light count ever exceeds a heavy one.
pub proof fn lemma_assign_bounds(probed: Seq<(Move, u64)>, threshold: u64, tie_slots: int)
    ensures
        forall|i: int| 0 <= i < spec_assign(probed, threshold, tie_slots).0.len()
            ==> (#[trigger] spec_assign(probed, threshold, tie_slots).0[i]).subtree_nodes >= threshold,
        forall|i: int| 0 <= i < spec_assign(probed, threshold, tie_slots).1.len()
            ==> (#[trigger] spec_assign(probed, threshold, tie_slots).1[i]).subtree_nodes <= threshold,
    decreases probed.len(),
{
    if probed.len() > 0 {
        lemma_assign_bounds(probed.drop_last(), threshold, tie_slots);
    }
}

/// The two buckets together hold exactly the probed moves.
pub proof fn lemma_assign_partition(probed: Seq<(Move, u64)>, threshold: u64, tie_slots: int)
    ensures
        ({
            let (h, l) = spec_assign(probed, threshold, tie_slots);
            h.map_values(|cm: ClassifiedMove| (cm.mv, cm.subtree_nodes)).to_multiset().add(
                l.map_values(|cm: ClassifiedMove| (cm.mv, cm.subtree_nodes)).to_multiset(),
            ) == probed.to_multiset()
        }),
        spec_assign(probed, threshold, tie_slots).0.len() + spec_assign(
            probed,
            threshold,
            tie_slots,
        ).1.len() == probed.len(),
    decreases probed.len(),
{
    let f = |cm: ClassifiedMove| (cm.mv, cm.subtree_nodes);
    if probed.len() > 0 {
        lemma_assign_partition(probed.drop_last(), threshold, tie_slots);
        let (hp, lp) = spec_assign(probed.drop_last(), threshold, tie_slots);
        let (h, l) = spec_assign(probed, threshold, tie_slots);
        let (mv, nodes) = probed.last();
        assert(probed =~= probed.drop_last().push(probed.last()));
        if nodes > threshold || (nodes == threshold && count_eq_nodes(hp, threshold) < tie_slots) {
            assert(h.map_values(f) =~= hp.map_values(f).push((mv, nodes)));
            assert(l.map_values(f) =~= lp.map_values(f));
            assert(h.map_values(f).to_multiset().add(l.map_values(f).to_multiset()) =~= probed.to_multiset());
        } else {
            assert(h.map_values(f) =~= hp.map_values(f));
            assert(l.map_values(f) =~= lp.map_values(f).push((mv, nodes)));
            assert(h.map_values(f).to_multiset().add(l.map_values(f).to_multiset()) =~= probed.to_multiset());
        }
    } else {
        let (h, l) = spec_assign(probed, threshold, tie_slots);
        assert(h.map_values(f).to_multiset().add(l.map_values(f).to_multiset()) =~= probed.to_multiset());
    }
}

/// With a tie slot open and some count reaching the threshold — or some
/// count strictly above it — the heavy bucket does not come back empty.
pub proof fn lemma_assign_heavy_nonempty(probed: Seq<(Move, u64)>, threshold: u64, tie_slots: int)
    requires
        (tie_slots >= 1 && exists|i: int| 0 <= i < probed.len() && (#[trigger] probed[i]).1 >= threshold)
            || exists|i: int| 0 <= i < probed.len() && (#[trigger] probed[i]).1 > threshold,
    ensures
        spec_assign(probed, threshold, tie_slots).0.len() > 0,
    decreases probed.len(),
{
    let (hp, lp) = spec_assign(probed.drop_last(), threshold, tie_slots);
    if hp.len() > 0 {
        lemma_assign_heavy_nonempty_monotone(probed, threshold, tie_slots);
    } else {
        assert(count_eq_nodes(hp, threshold) == 0);
        if tie_slots >= 1 && exists|i: int| 0 <= i < probed.len() && (#[trigger] probed[i]).1 >= threshold {
            let w = choose|i: int| 0 <= i < probed.len() && (#[trigger] probed[i]).1 >= threshold;
            if w == probed.len() - 1 {
                assert(probed.last().1 >= threshold);
            } else {
                assert(probed.drop_last()[w] == probed[w]);
                lemma_assign_heavy_nonempty(probed.drop_last(), threshold, tie_slots);
            }
        } else {
            let w = choose|i: int| 0 <= i < probed.len() && (#[trigger] probed[i]).1 > threshold;
            if w == probed.len() - 1 {
                assert(probed.last().1 > threshold);
            } else {
                assert(probed.drop_last()[w] == probed[w]);
                lemma_assign_heavy_nonempty(probed.drop_last(), threshold, tie_slots);
            }
        }
    }
}

/// The heavy bucket only grows as the scan proceeds.
proof fn lemma_assign_heavy_nonempty_monotone(probed: Seq<(Move, u64)>, threshold: u64, tie_slots: int)
    requires
        probed.len() > 0,
        spec_assign(probed.drop_last(), threshold, tie_slots).0.len() > 0,
    ensures
        spec_assign(probed, threshold, tie_slots).0.len() > 0,
{
}

/// Retag a bucket as heavy, keeping moves and counts.
pub open spec fn retag_heavy(s: Seq<ClassifiedMove>) -> Seq<ClassifiedMove> {
    s.map_values(|cm: ClassifiedMove| ClassifiedMove {
        mv: cm.mv,
        subtree_nodes: cm.subtree_nodes,
        phase: MovePhase::Heavy,
    })
}

pub open spec fn cm_pair(cm: ClassifiedMove) -> (Move, u64) {
    (cm.mv, cm.subtree_nodes)
}

/// The two buckets hold exactly the probed moves between them.
pub open spec fn buckets_partition(probed: Seq<(Move, u64)>, h: Seq<ClassifiedMove>, l: Seq<ClassifiedMove>) -> bool {
    &&& h.map_values(|cm: ClassifiedMove| (cm.mv, cm.subtree_nodes)).to_multiset().add(
        l.map_values(|cm: ClassifiedMove| (cm.mv, cm.subtree_nodes)).to_multiset(),
    ) == probed.to_multiset()
    &&& h.len() + l.len() == probed.len()
}

/// Every member of a bucket is one of the probed root moves.
pub proof fn lemma_bucket_member(probed: Seq<(Move, u64)>, bucket: Seq<ClassifiedMove>, other: Seq<ClassifiedMove>, i: int) -> (j: int)
    requires
        buckets_partition(probed, bucket, other) || buckets_partition(probed, other, bucket),
        0 <= i < bucket.len(),
    ensures
        0 <= j < probed.len(),
        probed[j].0 == bucket[i].mv,
        probed[j].1 == bucket[i].subtree_nodes,
{
    broadcast use vstd::multiset::group_multiset_axioms;

    let f = |cm: ClassifiedMove| (cm.mv, cm.subtree_nodes);
    let pair = f(bucket[i]);
    assert(bucket.map_values(f)[i] == pair);
    assert(bucket.map_values(f).contains(pair));
    assert(bucket.map_values(f).to_multiset().contains(pair));
    assert(probed.to_multiset().contains(pair));
    assert(probed.contains(pair));
    let j = choose|j: int| 0 <= j < probed.len() && probed[j] == pair;
    j
}

/// Buckets come out of the scan tagged with their own phase.
pub proof fn lemma_assign_phases(probed: Seq<(Move, u64)>, threshold: u64, tie_slots: int)
    ensures
        forall|i: int| 0 <= i < spec_assign(probed, threshold, tie_slots).0.len()
            ==> (#[trigger] spec_assign(probed, threshold, tie_slots).0[i]).phase == MovePhase::Heavy,
        forall|i: int| 0 <= i < spec_assign(probed, threshold, tie_slots).1.len()
            ==> (#[trigger] spec_assign(probed, threshold, tie_slots).1[i]).phase == MovePhase::Light,
    decreases probed.len(),
{
    if probed.len() > 0 {
        lemma_assign_phases(probed.drop_last(), threshold, tie_slots);
    }
}

/// Every probed move lands in one of the two buckets: the returned flag
/// says which, the returned index where.
pub proof fn lemma_partition_covers(probed: Seq<(Move, u64)>, h: Seq<ClassifiedMove>, l: Seq<ClassifiedMove>, j: int) -> (w: (bool, int))
    requires
        buckets_partition(probed, h, l),
        0 <= j < probed.len(),
    ensures
        w.0 ==> 0 <= w.1 < h.len() && h[w.1].mv == probed[j].0,
        !w.0 ==> 0 <= w.1 < l.len() && l[w.1].mv == probed[j].0,
{
    broadcast use vstd::multiset::group_multiset_axioms;

    let f = |cm: ClassifiedMove| (cm.mv, cm.subtree_nodes);
    let pair = probed[j];
    assert(probed.contains(pair));
    assert(probed.to_multiset().contains(pair));
    assert(h.map_values(f).to_multiset().count(pair) + l.map_values(f).to_multiset().count(pair) > 0);
    if h.map_values(f).to_multiset().count(pair) > 0 {
        assert(h.map_values(f).contains(pair));
        let idx = choose|k: int| 0 <= k < h.map_values(f).len() && h.map_values(f)[k] == pair;
        (true, idx)
    } else {
        assert(l.map_values(f).to_multiset().contains(pair));
        assert(l.map_values(f).contains(pair));
        let idx = choose|k: int| 0 <= k < l.map_values(f).len() && l.map_values(f)[k] == pair;
        (false, idx)
    }
}

/// Total subtree nodes in a bucket.
pub open spec fn spec_sum_nodes(s: Seq<ClassifiedMove>) -> int
    decreases s.len(),
{
    if s.len() == 0 {
        0
    } else {
        spec_sum_nodes(s.drop_last()) + s.last().subtree_nodes
    }
}

/// Split the probed moves into heavy and light: the single move goes
/// heavy; otherwise the moves with the `max(1, ceil(N * heavy_ratio))`
/// largest counts fill the heavy bucket (earlier moves win tied counts),
/// and a light bucket holding more than the threshold share of all probed
/// nodes is promoted wholesale.  In the result no light count exceeds a
/// heavy one, and a surviving light bucket's node share is within the
/// threshold.
#[verifier::rlimit(100)]
#[verifier::loop_isolation(false)]
pub fn classify_moves_with_config(probed: Vec<(Move, u64)>, config: &ClassificationConfig) -> (r: (Vec<ClassifiedMove>, Vec<ClassifiedMove>))
    ensures
        buckets_partition(probed@, r.0@, r.1@),
        probed@.len() > 0 ==> r.0@.len() > 0,
        forall|i: int| 0 <= i < r.0@.len() ==> (#[trigger] r.0@[i]).phase == MovePhase::Heavy,
        forall|i: int| 0 <= i < r.1@.len() ==> (#[trigger] r.1@[i]).phase == MovePhase::Light,
        forall|i: int, j: int| 0 <= i < r.0@.len() && 0 <= j < r.1@.len()
            ==> (#[trigger] r.0@[i]).subtree_nodes >= (#[trigger] r.1@[j]).subtree_nodes,
        r.1@.len() > 0 ==> sat64(spec_sum_nodes(r.1@)) * 100 <= sat64(
            spec_sum_nodes(r.0@) + spec_sum_nodes(r.1@),
        ) * config.light_threshold_pct,
{
    let n = probed.len();
    if n == 0 {
        let r: (Vec<ClassifiedMove>, Vec<ClassifiedMove>) = (Vec::new(), Vec::new());
        proof {
            lemma_assign_partition(probed@, 0, 0);
            assert(r.0@.map_values(|cm: ClassifiedMove| (cm.mv, cm.subtree_nodes)).to_multiset().add(
                r.1@.map_values(|cm: ClassifiedMove| (cm.mv, cm.subtree_nodes)).to_multiset(),
            ) =~= probed@.to_multiset());
        }
        return r;
    }

    if n == 1 {
        let (mv, nodes) = probed[0];
        let mut heavy: Vec<ClassifiedMove> = Vec::new();
        heavy.push(ClassifiedMove { mv, subtree_nodes: nodes, phase: MovePhase::Heavy });
        let light: Vec<ClassifiedMove> = Vec::new();
        proof {
            let f = |cm: ClassifiedMove| (cm.mv, cm.subtree_nodes);
            assert(heavy@.map_values(f) =~= seq![(mv, nodes)]);
            assert(probed@ =~= seq![(mv, nodes)]);
            assert(heavy@.map_values(f).to_multiset().add(light@.map_values(f).to_multiset())
                =~= probed@.to_multiset());
        }
        return (heavy, light);
    }

    let mut counts: Vec<u64> = Vec::new();
    let mut i: usize = 0;
    while i < n
        invariant
            probed@.len() == n,
            0 <= i <= n,
            counts@.len() == i,
            forall|k: int| 0 <= k < i ==> counts@[k] == (#[trigger] probed@[k]).1,
        decreases n - i,
    {
        counts.push(probed[i].1);
        i = i + 1;
    }
    let sorted = sort_desc(&counts);

    // The heavy share in whole per cent, rounded up; at least one move, at
    // most all of them.
    let pct = config.heavy_ratio_pct;
    proof {
        let ghost nn = n as u128;
        let ghost pp = pct as u128;
        assert(nn * pp < 0x1_0000_0000_0000_0000_0000_0000u128) by (nonlinear_arith)
            requires
                nn < 0x1_0000_0000_0000_0000u128,
                pp < 0x1_0000_0000u128,
        {
        }
    }
    let hc128: u128 = ((n as u128) * (pct as u128) + 99) / 100;
    let mut heavy_count: usize = if hc128 >= n as u128 {
        n
    } else {
        hc128 as usize
    };
    if heavy_count < 1 {
        heavy_count = 1;
    }
    let threshold: u64 = sorted[heavy_count - 1];

    // Tie slots: what the strictly larger counts leave of the heavy share.
    let mut greater: usize = 0;
    let mut i: usize = 0;
    while i < n
        invariant
            sorted@.len() == n,
            0 <= i <= n,
            greater <= i,
            greater >= 1 ==> exists|k: int| 0 <= k < i && sorted@[k] > threshold,
        decreases n - i,
    {
        if sorted[i] > threshold {
            greater = greater + 1;
            proof {
                assert(sorted@[i as int] > threshold);
            }
        }
        i = i + 1;
    }
    let tie_slots: usize = if greater >= heavy_count {
        0
    } else {
        heavy_count - greater
    };

    proof {
        broadcast use vstd::multiset::group_multiset_axioms;

        assert(sorted@.contains(threshold));
        assert(sorted@.to_multiset().contains(threshold));
        assert(counts@.contains(threshold));
        let w = choose|w: int| 0 <= w < counts@.len() && counts@[w] == threshold;
        assert(probed@[w].1 >= threshold);
        if tie_slots == 0 {
            // No tie slot means some sorted count exceeds the threshold.
            assert(greater >= 1);
            let g = choose|k: int| 0 <= k < sorted@.len() && sorted@[k] > threshold;
            assert(sorted@.contains(sorted@[g]));
            assert(sorted@.to_multiset().contains(sorted@[g]));
            assert(counts@.contains(sorted@[g]));
            let wg = choose|k: int| 0 <= k < counts@.len() && counts@[k] == sorted@[g];
            assert(probed@[wg].1 > threshold);
        }
        lemma_assign_heavy_nonempty(probed@, threshold, tie_slots as int);
    }

    let mut heavy: Vec<ClassifiedMove> = Vec::new();
    let mut light: Vec<ClassifiedMove> = Vec::new();
    let mut ties_taken: usize = 0;
    let mut i: usize = 0;
    while i < n
        invariant
            probed@.len() == n,
            0 <= i <= n,
            (heavy@, light@) == spec_assign(probed@.take(i as int), threshold, tie_slots as int),
            ties_taken as int == count_eq_nodes(heavy@, threshold),
            ties_taken <= i,
        decreases n - i,
    {
        let (mv, nodes) = probed[i];
        let is_heavy = nodes > threshold || (nodes == threshold && ties_taken < tie_slots);
        if is_heavy {
            heavy.push(ClassifiedMove { mv, subtree_nodes: nodes, phase: MovePhase::Heavy });
            if nodes == threshold {
                ties_taken = ties_taken + 1;
            }
        } else {
            light.push(ClassifiedMove { mv, subtree_nodes: nodes, phase: MovePhase::Light });
        }
        proof {
            assert(probed@.take(i as int + 1).drop_last() =~= probed@.take(i as int));
            assert(probed@.take(i as int + 1).last() == probed@[i as int]);
            // The tie counter tracks the heavy bucket's count of threshold
            // entries through the push.
            assert(heavy@.drop_last() =~= spec_assign(probed@.take(i as int), threshold, tie_slots as int).0
                || !is_heavy);
        }
        i = i + 1;
    }
    proof {
        assert(probed@.take(n as int) =~= probed@);
        lemma_assign_partition(probed@, threshold, tie_slots as int);
        lemma_assign_phases(probed@, threshold, tie_slots as int);
        lemma_assign_bounds(probed@, threshold, tie_slots as int);
    }

    // Promote the light bucket wholesale when it holds more than the
    // threshold share of all probed nodes: it would starve on the
    // efficiency cores.
    let heavy_nodes = sum_nodes(&heavy);
    let light_nodes = sum_nodes(&light);
    let total_nodes = if heavy_nodes > u64::MAX - light_nodes {
        u64::MAX
    } else {
        heavy_nodes + light_nodes
    };
    proof {
        let ghost tt = total_nodes as u128;
        let ghost lp = config.light_threshold_pct as u128;
        assert(tt * lp < 0x1_0000_0000_0000_0000_0000_0000u128) by (nonlinear_arith)
            requires
                tt < 0x1_0000_0000_0000_0000u128,
                lp < 0x1_0000_0000u128,
        {
        }
    }
    let promote = light.len() > 0
        && (light_nodes as u128) * 100 > (total_nodes as u128) * (config.light_threshold_pct as u128);

    if promote {
        let ghost h_before = heavy@;
        let ghost l_before = light@;
        let mut k: usize = 0;
        let llen = light.len();
        while k < llen
            invariant
                light@ == l_before,
                llen == l_before.len(),
                0 <= k <= llen,
                heavy@ == h_before + retag_heavy(l_before.take(k as int)),
            decreases llen - k,
        {
            let cm = light[k];
            heavy.push(ClassifiedMove { mv: cm.mv, subtree_nodes: cm.subtree_nodes, phase: MovePhase::Heavy });
            proof {
                assert(l_before.take(k as int + 1).drop_last() =~= l_before.take(k as int));
                assert(heavy@ =~= h_before + retag_heavy(l_before.take(k as int + 1)));
            }
            k = k + 1;
        }
        let empty_light: Vec<ClassifiedMove> = Vec::new();
        proof {
            broadcast use vstd::multiset::group_multiset_axioms;

            assert(l_before.take(llen as int) =~= l_before);
            let f = |cm: ClassifiedMove| (cm.mv, cm.subtree_nodes);
            assert(heavy@.map_values(f) =~= h_before.map_values(f) + l_before.map_values(f));
            vstd::seq_lib::lemma_multiset_commutative(h_before.map_values(f), l_before.map_values(f));
            assert(heavy@.map_values(f).to_multiset() =~= h_before.map_values(f).to_multiset().add(
                l_before.map_values(f).to_multiset(),
            ));
            assert(empty_light@.map_values(f).to_multiset() =~= Multiset::<(Move, u64)>::empty());
            assert(heavy@.map_values(f).to_multiset().add(empty_light@.map_values(f).to_multiset())
                =~= probed@.to_multiset());
        }
        return (heavy, empty_light);
    }
    proof {
        if light@.len() > 0 {
            assert(heavy_nodes as int == sat64(spec_sum_nodes(heavy@)));
            assert(light_nodes as int == sat64(spec_sum_nodes(light@)));
            assert(total_nodes as int == sat64(spec_sum_nodes(heavy@) + spec_sum_nodes(light@)));
        }
    }

    (heavy, light)
}

/// Classification with the default shares.
pub fn classify_moves(probed: Vec<(Move, u64)>) -> (r: (Vec<ClassifiedMove>, Vec<ClassifiedMove>))
    ensures
        buckets_partition(probed@, r.0@, r.1@),
        probed@.len() > 0 ==> r.0@.len() > 0,
{
    let config = ClassificationConfig { heavy_ratio_pct: 60, light_threshold_pct: 30 };
    classify_moves_with_config(probed, &config)
}

/// Total subtree nodes, saturating.
fn sum_nodes(bucket: &Vec<ClassifiedMove>) -> (r: u64)
    ensures
        r as int == sat64(spec_sum_nodes(bucket@)),
{
    let mut total: u64 = 0;
    let mut i: usize = 0;
    while i < bucket.len()
        invariant
            0 <= i <= bucket@.len(),
            total as int == sat64(spec_sum_nodes(bucket@.take(i as int))),
        decreases bucket@.len() - i,
    {
        total = sat_add(total, bucket[i].subtree_nodes);
        proof {
            assert(bucket@.take(i as int + 1).drop_last() =~= bucket@.take(i as int));
            assert(bucket@.take(i as int + 1).last() == bucket@[i as int]);
        }
        i = i + 1;
    }
    proof {
        assert(bucket@.take(bucket@.len() as int) =~= bucket@);
    }
    total
}

} // verus!
