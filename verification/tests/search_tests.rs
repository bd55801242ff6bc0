use devi::board::Board;
use devi::evaluation::evaluate;
use devi::perft::perft;
use devi::minimax::{search, alphabeta, minimax};
use devi::legal_moves::generate_legal_moves;
use devi::board::ArrayBoard;

#[test]
fn test_perft_regression_gate() {
    let mut board = Board::new();
    board.setup_starting_position();

    assert_eq!(perft(&mut board, 1), 20, "Perft(1) regression detected!");
    assert_eq!(perft(&mut board, 2), 400, "Perft(2) regression detected!");
    assert_eq!(perft(&mut board, 3), 8_902, "Perft(3) regression detected!");
    assert_eq!(
        perft(&mut board, 4),
        197_281,
        "Perft(4) regression detected!"
    );
}

#[test]
fn test_search_smoke_test() {
    let mut board = Board::new();
    board.setup_starting_position();

    let (best_move, score) = search(&mut board, 4);

    assert!(
        score.abs() < 200,
        "Starting position score too extreme: {}",
        score
    );

    assert!(best_move.from.0 < 64, "Invalid from square");
    assert!(best_move.to.0 < 64, "Invalid to square");
}

#[test]
fn test_evaluation_starting_position() {
    let mut board = Board::new();
    board.setup_starting_position();

    assert_eq!(
        evaluate(&board),
        0,
        "Starting position should have equal material"
    );
}

#[test]
fn test_single_thread_determinism() {
    let mut board = Board::new();
    board.setup_starting_position();

    let results: Vec<_> = (0..3)
        .map(|_| {
            let moves = generate_legal_moves(&mut board.clone(), board.to_move());
            let mut best_move = moves[0];
            let mut best_score = -1_000_000;

            for mv in moves {
                let mut b = board.clone();
                let _undo = b.make_move(&mv);
                let score = alphabeta(&mut b, 4, -1_000_000, 1_000_000, false);
                if score > best_score {
                    best_score = score;
                    best_move = mv;
                }
            }
            (best_move, best_score)
        })
        .collect();

    for i in 1..results.len() {
        assert_eq!(results[0].0.to_algebraic(), results[i].0.to_algebraic(),
            "Non-deterministic: run {} vs run 0", i);
        assert_eq!(results[0].1, results[i].1);
    }
}

#[test]
fn repeated_search_is_deterministic() {
    let mut board = ArrayBoard::from_fen(
        "r1bqk2r/pppp1ppp/2n2n2/2b1p3/2B1P3/5N2/PPPP1PPP/RNBQK2R w KQkq - 4 4",
    )
    .unwrap();
    let first = search(&mut board, 3);
    let second = search(&mut board, 3);
    let third = search(&mut board, 3);
    assert_eq!(first.0, second.0);
    assert_eq!(first.1, second.1);
    assert_eq!(first.0, third.0);
    assert_eq!(first.1, third.1);
}

#[test]
fn alphabeta_agrees_with_minimax() {
    let mut board = ArrayBoard::from_fen("8/5k2/8/5P2/8/8/8/4K3 w - - 0 1").unwrap();
    for depth in 0..4u32 {
        let plain = minimax(&mut board, depth, true);
        let pruned = alphabeta(&mut board, depth, -1_000_000, 1_000_000, true);
        assert_eq!(plain, pruned, "depth {}", depth);
    }
}

#[test]
fn stalemate_root_returns_sentinel() {
    let mut board = ArrayBoard::from_fen("k7/2Q5/1K6/8/8/8/8/8 b - - 0 1").unwrap();
    assert_eq!(perft(&mut board, 1), 0);
    let (mv, score) = search(&mut board, 2);
    assert_eq!(score, 0);
    assert_eq!(mv.from.0, 0);
    assert_eq!(mv.to.0, 0);
}

#[test]
fn checkmated_root_returns_mate_score() {
    let mut board = ArrayBoard::from_fen(
        "rnb1kbnr/pppp1ppp/4p3/8/6Pq/5P2/PPPPP2P/RNBQKBNR w KQkq - 1 3",
    )
    .unwrap();
    let (mv, score) = search(&mut board, 2);
    assert_eq!(score, -100_000);
    assert_eq!(mv.from.0, 0);
    assert_eq!(mv.to.0, 0);
}
