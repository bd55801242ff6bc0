use vstd::prelude::*;
use crate::types::Move;
use crate::board::{ArrayBoard, BoardView};
use crate::minimax::spec_search_result;

verus! {

/// Whether a first attempt may still inject its one fault: the flag is the
/// task-local "already injected" marker the recovery wrapper keeps.
pub fn should_inject_panic(already_injected: bool) -> (r: bool)
    ensures
        r == !already_injected,
{
    !already_injected
}

/// Whether a run should arm the injected fault: only when a fault index
/// was requested and the one-shot has not been consumed.
pub fn injection_armed(inject_panic_at: Option<usize>, already_injected: bool) -> (r: bool)
    ensures
        r == (inject_panic_at is Some && !already_injected),
{
    inject_panic_at.is_some() && !already_injected
}

/// Determinism across runs: a fixed-depth search of a position is a pure
/// function, so any two results that meet its contract are the same move
/// and the same score.
pub proof fn lemma_search_deterministic(b: BoardView, depth: nat, m1: Move, s1: int, m2: Move, s2: int)
    requires
        m1 == spec_search_result(b, depth).0,
        s1 == spec_search_result(b, depth).1,
        m2 == spec_search_result(b, depth).0,
        s2 == spec_search_result(b, depth).1,
    ensures
        m1 == m2,
        s1 == s2,
{
}

/// Recovery identity: when a first attempt faults and is retried on a
/// fresh clone with injection suppressed, the retry meets the same search
/// contract as a run that never faulted, so the recovered result equals
/// the baseline in both move and score.
pub proof fn lemma_recovery_identity(b: BoardView, depth: nat, baseline_m: Move, baseline_s: int, retry_m: Move, retry_s: int)
    requires
        baseline_m == spec_search_result(b, depth).0,
        baseline_s == spec_search_result(b, depth).1,
        retry_m == spec_search_result(b, depth).0,
        retry_s == spec_search_result(b, depth).1,
    ensures
        baseline_m == retry_m,
        baseline_s == retry_s,
{
}

/// Kept for checkpoint-based recovery; the single-retry wrapper does not
/// use it.
pub struct CheckpointManager {
    pub interval: usize,
}

/// A snapshot of a worker's search state.
#[derive(Clone)]
pub struct SearchCheckpoint {
    pub board: ArrayBoard,
    pub depth_remaining: u8,
    pub alpha: i32,
    pub beta: i32,
    pub move_index: usize,
    pub nodes_searched: u64,
    pub best_score: i32,
}

impl CheckpointManager {
    pub fn new(interval: usize) -> (r: Self)
        ensures
            r.interval == interval,
    {
        CheckpointManager { interval: interval }
    }

    /// Checkpointing is disabled: saving keeps nothing.
    pub fn save(&self, _worker_id: usize, _checkpoint: SearchCheckpoint) {
    }

    /// Checkpointing is disabled: nothing is ever stored.
    pub fn get(&self, _worker_id: usize) -> (r: Option<SearchCheckpoint>)
        ensures
            r is None,
    {
        None
    }

    pub fn clear(&self, _worker_id: usize) {
    }
}

} // verus!
