//! Move counts against an independent generator.
use schach::game::GameState;

fn oracle_count(fen: &str) -> usize {
    let board = owlchess::Board::from_fen(fen).unwrap();
    owlchess::movegen::legal::gen_all(&board).len()
}

#[test]
fn test_move_counts_match_oracle() {
    let fens = [
        "rnbqkbnr/pppppppp/8/8/8/8/PPPPPPPP/RNBQKBNR w KQkq - 0 1",
        "r3k2r/p1ppqpb1/bn2pnp1/3PN3/1p2P3/2N2Q1p/PPPBBPPP/R3K2R w KQkq - 0 1",
        "rnbqkbnr/pp1ppppp/8/2pP4/8/8/PPP1PPPP/RNBQKBNR w KQkq c6 0 2",
        "8/2p5/3p4/KP5r/1R3p1k/8/4P1P1/8 w - - 0 1",
        "r4rk1/1pp1qppp/p1np1n2/2b1p1B1/2B1P1b1/P1NP1N2/1PP1QPPP/R4RK1 w - - 0 10",
        "8/4P1k1/8/8/8/8/8/4K3 w - - 0 1",
    ];
    for fen in fens {
        let game = GameState::try_from_fen(&fen.as_bytes().to_vec()).unwrap();
        let ours = game.core.legal_moves().len();
        let theirs = oracle_count(fen);
        assert_eq!(ours, theirs, "disagreement on {fen}");
    }
}

#[test]
fn test_step_positions_match_oracle() {
    // every successor of the initial position agrees with the oracle
    let game = GameState::new();
    let legal = game.core.legal_moves();
    for mv in legal.iter() {
        match game.clone().step(*mv, legal.clone()) {
            schach::game::StepResult::Continued(next) => {
                let fen = next.core.to_fen();
                let fen_str = String::from_utf8(fen).unwrap();
                let ours = next.core.legal_moves().len();
                let theirs = oracle_count(&fen_str);
                assert_eq!(ours, theirs, "disagreement on {fen_str}");
            }
            schach::game::StepResult::Terminated(_) => panic!("no first move ends the game"),
        }
    }
}

#[test]
fn test_kiwipete_successors_match_oracle() {
    // a position rich in castling, pins and promotions: every successor
    // agrees with the oracle too
    let game = GameState::try_from_fen(
        &b"r3k2r/p1ppqpb1/bn2pnp1/3PN3/1p2P3/2N2Q1p/PPPBBPPP/R3K2R w KQkq - 0 1".to_vec(),
    )
    .unwrap();
    let legal = game.core.legal_moves();
    assert_eq!(legal.len(), 48);
    for mv in legal.iter() {
        match game.clone().step(*mv, legal.clone()) {
            schach::game::StepResult::Continued(next) => {
                let fen_str = String::from_utf8(next.core.to_fen()).unwrap();
                let ours = next.core.legal_moves().len();
                let theirs = oracle_count(&fen_str);
                assert_eq!(ours, theirs, "disagreement on {fen_str}");
            }
            schach::game::StepResult::Terminated(_) => {}
        }
    }
}
