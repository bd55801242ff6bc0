use vstd::prelude::*;
use crate::probe::ClassificationConfig;

verus! {

/// Which cores the worker pool is biased toward.
#[derive(Debug, Clone, Copy, PartialEq, Eq, Structural)]
pub enum CorePolicy {
    Inherit,
    FastBias,
    EfficientBias,
    Mixed,
}

/// The per-thread quality-of-service hint a worker starts with.  On
/// platforms without a hintable scheduler the hint is advisory only.
#[derive(Debug, Clone, Copy, PartialEq, Eq, Structural)]
pub enum QosHint {
    Inherit,
    UserInitiated,
    Background,
}

/// The hint worker `index` of `total` receives under `policy`: everything
/// fast, everything efficient, or the first `total * ratio` workers fast
/// and the rest efficient, with the ratio in whole per cent.
pub open spec fn spec_worker_hint(policy: CorePolicy, index: int, total: int, mixed_ratio_pct: int) -> QosHint {
    match policy {
        CorePolicy::Inherit => QosHint::Inherit,
        CorePolicy::FastBias => QosHint::UserInitiated,
        CorePolicy::EfficientBias => QosHint::Background,
        CorePolicy::Mixed => {
            if index < total * mixed_ratio_pct / 100 {
                QosHint::UserInitiated
            } else {
                QosHint::Background
            }
        },
    }
}

pub fn worker_hint(policy: CorePolicy, index: usize, total: usize, mixed_ratio_pct: u32) -> (r: QosHint)
    requires
        total <= 0xffff_ffff,
        mixed_ratio_pct <= 100,
    ensures
        r == spec_worker_hint(policy, index as int, total as int, mixed_ratio_pct as int),
{
    match policy {
        CorePolicy::Inherit => QosHint::Inherit,
        CorePolicy::FastBias => QosHint::UserInitiated,
        CorePolicy::EfficientBias => QosHint::Background,
        CorePolicy::Mixed => {
            proof {
                assert((total as u64) * (mixed_ratio_pct as u64) <= 0xffff_ffffu64 * 100) by (nonlinear_arith)
                    requires
                        total <= 0xffff_ffff,
                        mixed_ratio_pct <= 100,
                {
                }
            }
            let fast_workers = (total as u64) * (mixed_ratio_pct as u64) / 100;
            if (index as u64) < fast_workers {
                QosHint::UserInitiated
            } else {
                QosHint::Background
            }
        },
    }
}

/// How a two-phase run is configured: the probe depth, the two pool sizes,
/// and the classification shares.
#[derive(Debug, Clone, Copy, PartialEq, Eq, Structural)]
pub struct TwoPhaseConfig {
    pub probe_depth: u8,
    pub p_core_threads: usize,
    pub e_core_threads: usize,
    pub classification: ClassificationConfig,
}

impl Default for TwoPhaseConfig {
    /// One-ply probe, eight fast workers, two efficient ones.
    fn default() -> (r: Self)
        ensures
            r == (TwoPhaseConfig {
                probe_depth: 1,
                p_core_threads: 8,
                e_core_threads: 2,
                classification: ClassificationConfig { heavy_ratio_pct: 60, light_threshold_pct: 30 },
            }),
    {
        TwoPhaseConfig {
            probe_depth: 1,
            p_core_threads: 8,
            e_core_threads: 2,
            classification: ClassificationConfig { heavy_ratio_pct: 60, light_threshold_pct: 30 },
        }
    }
}

/// Whether two-phase scheduling pays off for this many root moves, and
/// with which configuration: none below eleven moves, a deeper probe with
/// a smaller heavy share in the middle band, a shallow probe with a large
/// heavy share above it.
pub fn should_use_two_phase(legal_move_count: usize) -> (r: Option<TwoPhaseConfig>)
    ensures
        legal_move_count <= 10 ==> r is None,
        10 < legal_move_count <= 25 ==> r == Some(TwoPhaseConfig {
            probe_depth: 2u8,
            p_core_threads: 8usize,
            e_core_threads: 2usize,
            classification: ClassificationConfig { heavy_ratio_pct: 60, light_threshold_pct: 30 },
        }),
        legal_move_count > 25 ==> r == Some(TwoPhaseConfig {
            probe_depth: 1u8,
            p_core_threads: 8usize,
            e_core_threads: 2usize,
            classification: ClassificationConfig { heavy_ratio_pct: 80, light_threshold_pct: 30 },
        }),
{
    if legal_move_count <= 10 {
        None
    } else if legal_move_count <= 25 {
        Some(TwoPhaseConfig {
            probe_depth: 2,
            p_core_threads: 8,
            e_core_threads: 2,
            classification: ClassificationConfig { heavy_ratio_pct: 60, light_threshold_pct: 30 },
        })
    } else {
        Some(TwoPhaseConfig {
            probe_depth: 1,
            p_core_threads: 8,
            e_core_threads: 2,
            classification: ClassificationConfig { heavy_ratio_pct: 80, light_threshold_pct: 30 },
        })
    }
}

} // verus!
