use devi::board::{Board, ArrayBoard};
use devi::legal_moves::generate_legal_moves;
use devi::minimax::search;
use devi::parallel::{best_of, score_root_move, two_phase_search};
use devi::perft::{perft, perft_divide};
use devi::probe::{probe_move, probe_root_moves, classify_moves_with_config, ClassificationConfig};
use devi::recovery::{should_inject_panic, injection_armed, CheckpointManager};
use devi::scheduling::{should_use_two_phase, worker_hint, CorePolicy, QosHint, TwoPhaseConfig};
use devi::types::{Move, Square};

#[test]
fn scoring_every_root_move_matches_serial_search() {
    let mut board = Board::new();
    board.setup_starting_position();
    let stm = board.to_move();
    let moves = generate_legal_moves(&mut board, stm);
    let results: Vec<(Move, i32)> = moves
        .iter()
        .map(|mv| (*mv, score_root_move(&board, mv, 3)))
        .collect();
    let reduced = best_of(&results);
    let serial = search(&mut board, 3);
    assert_eq!(reduced.0, serial.0);
    assert_eq!(reduced.1, serial.1);
}

#[test]
fn best_of_prefers_the_earlier_tie() {
    let a = Move::new(Square(0), Square(1), None, None);
    let b = Move::new(Square(2), Square(3), None, None);
    let c = Move::new(Square(4), Square(5), None, None);
    let results = vec![(a, 5), (b, 9), (c, 9)];
    let best = best_of(&results);
    assert_eq!(best.0, b);
    assert_eq!(best.1, 9);
}

#[test]
fn probe_counts_match_perft_subtrees() {
    let mut board = Board::new();
    board.setup_starting_position();
    let stm = board.to_move();
    let moves = generate_legal_moves(&mut board, stm);
    let probed = probe_root_moves(&board, &moves, 2);
    assert_eq!(probed.len(), 20);
    let total: u64 = probed.iter().map(|(_, n)| *n).sum();
    assert_eq!(total, perft(&mut board, 3));
    for (mv, n) in &probed {
        assert_eq!(*n, probe_move(&board, mv, 2));
    }
}

#[test]
fn perft_divide_sums_to_total() {
    let mut board = Board::new();
    board.setup_starting_position();
    let (per_move, total) = perft_divide(&mut board, 3);
    assert_eq!(per_move.len(), 20);
    assert_eq!(total, 8_902);
    let sum: u64 = per_move.iter().map(|(_, n)| *n).sum();
    assert_eq!(sum, total);
}

#[test]
fn two_phase_heuristic_follows_the_move_count() {
    assert!(should_use_two_phase(0).is_none());
    assert!(should_use_two_phase(10).is_none());
    let mid = should_use_two_phase(20).unwrap();
    assert_eq!(mid.probe_depth, 2);
    assert_eq!(mid.classification.heavy_ratio_pct, 60);
    let wide = should_use_two_phase(40).unwrap();
    assert_eq!(wide.probe_depth, 1);
    assert_eq!(wide.classification.heavy_ratio_pct, 80);
}

#[test]
fn worker_hints_follow_the_policy() {
    assert_eq!(worker_hint(CorePolicy::Inherit, 0, 8, 75), QosHint::Inherit);
    assert_eq!(worker_hint(CorePolicy::FastBias, 7, 8, 0), QosHint::UserInitiated);
    assert_eq!(worker_hint(CorePolicy::EfficientBias, 0, 8, 100), QosHint::Background);
    assert_eq!(worker_hint(CorePolicy::Mixed, 5, 8, 75), QosHint::UserInitiated);
    assert_eq!(worker_hint(CorePolicy::Mixed, 6, 8, 75), QosHint::Background);
}

#[test]
fn injection_is_one_shot() {
    assert!(should_inject_panic(false));
    assert!(!should_inject_panic(true));
    assert!(injection_armed(Some(5), false));
    assert!(!injection_armed(Some(5), true));
    assert!(!injection_armed(None, false));
}

#[test]
fn checkpoints_are_disabled() {
    let mgr = CheckpointManager::new(64);
    assert_eq!(mgr.interval, 64);
    assert!(mgr.get(3).is_none());
    mgr.clear(3);
}

#[test]
fn recovery_retry_equals_baseline() {
    // The first attempt is discarded wholesale on a fault; the retry runs
    // the same pure search on a fresh clone and must reproduce it.
    let mut board = ArrayBoard::from_fen(
        "r2qkb1r/ppp2ppp/2np1n2/4p1B1/2B1P1b1/3P1N2/PPP2PPP/RN1QK2R w KQkq - 0 6",
    )
    .unwrap();
    let baseline = search(&mut board.clone(), 3);
    let mut already_injected = false;
    let first_attempt_faults = injection_armed(Some(0), already_injected);
    assert!(first_attempt_faults);
    already_injected = true;
    assert!(!injection_armed(Some(0), already_injected));
    let retry = search(&mut board, 3);
    assert_eq!(baseline.0, retry.0);
    assert_eq!(baseline.1, retry.1);
}

#[test]
fn classification_partitions_the_moves() {
    let mut board = Board::new();
    board.setup_starting_position();
    let stm = board.to_move();
    let moves = generate_legal_moves(&mut board, stm);
    let probed = probe_root_moves(&board, &moves, 1);
    let cfg = ClassificationConfig { heavy_ratio_pct: 60, light_threshold_pct: 0 };
    let (heavy, light) = classify_moves_with_config(probed, &cfg);
    // A zero promotion threshold sends everything to the heavy bucket.
    assert_eq!(heavy.len(), 20);
    assert_eq!(light.len(), 0);

    let stm = board.to_move();
    let moves = generate_legal_moves(&mut board, stm);
    let probed = probe_root_moves(&board, &moves, 1);
    let cfg = ClassificationConfig { heavy_ratio_pct: 60, light_threshold_pct: 100 };
    let (heavy, light) = classify_moves_with_config(probed, &cfg);
    assert_eq!(heavy.len() + light.len(), 20);
    assert!(heavy.len() >= 1);
}

#[test]
fn two_phase_matches_the_baseline() {
    let mut board = Board::new();
    board.setup_starting_position();
    let baseline = search(&mut board, 3);
    let config = TwoPhaseConfig::default();
    let two_phase = two_phase_search(&mut board, 3, &config);
    assert_eq!(two_phase.1, baseline.1, "score changed");
    assert_eq!(two_phase.0, baseline.0, "move changed");
}

#[test]
fn two_phase_on_a_sparse_endgame() {
    let mut board = ArrayBoard::from_fen("8/5k2/8/5P2/8/8/8/4K3 w - - 0 1").unwrap();
    let baseline = search(&mut board, 4);
    let config = TwoPhaseConfig {
        probe_depth: 2,
        ..TwoPhaseConfig::default()
    };
    let two_phase = two_phase_search(&mut board, 4, &config);
    assert_eq!(two_phase.1, baseline.1);
}
