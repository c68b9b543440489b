//! The move generator on concrete positions: counts, pawn pushes,
//! castling denial, the en-passant window, and the tree enumerators.
use schach::coord::Col;
use schach::coord::Row;
use schach::coord::Square;
use schach::game::GameState;
use schach::game::StepResult;
use schach::mv::Move;
use schach::mv::MoveKind;
use schach::mv::PawnMove;

#[test]
fn move_gen_search() {
    let depth = 2;
    let game = GameState::default();

    let before = std::time::Instant::now();

    let stats = game.search(depth);

    println!("---------------------------");
    println!("depth: {depth}");
    println!("{stats:?}");
    println!("elapsed: {:?}", before.elapsed());
    println!("---------------------------");
}

#[test]
fn perft() {
    let depth = 2;
    let game = GameState::perft();

    let before = std::time::Instant::now();

    let stats = game.search(depth);

    println!("---------------------------");
    println!("depth: {depth}");
    println!("{stats:?}");
    println!("elapsed: {:?}", before.elapsed());
    println!("---------------------------");
}

#[test]
fn many_random_walks() {
    let max_depth = 40;
    let walk_count = 5;
    let game = GameState::new();

    for i in 0..walk_count {
        match game.clone().random_walk(max_depth) {
            StepResult::Continued(g) => println!("{i}: {:?}", g.core.full_move_count),
            StepResult::Terminated(gr) => {
                println!("{i}: {:?}", gr.final_game_state.core.full_move_count)
            }
        }
    }
}

#[test]
fn test_initial_position_move_count() {
    let game = GameState::try_from_fen(
        &b"rnbqkbnr/pppppppp/8/8/8/8/PPPPPPPP/RNBQKBNR w KQkq - 0 1".to_vec(),
    )
    .unwrap();
    assert_eq!(game.core.legal_moves().len(), 20);
}

#[test]
fn test_kiwipete_depth_one_move_count() {
    let game = GameState::try_from_fen(
        &b"r3k2r/p1ppqpb1/bn2pnp1/3PN3/1p2P3/2N2Q1p/PPPBBPPP/R3K2R w KQkq - 0 1".to_vec(),
    )
    .unwrap();
    assert_eq!(game.core.legal_moves().len(), 48);
}

#[test]
fn test_pawn_single_and_double_step() {
    // every white pawn on its starting rank offers both pushes
    let game = GameState::new();
    let legal = game.core.legal_moves();
    let e2 = Square { col: Col::_5, row: Row::_2 };
    let e3 = Square { col: Col::_5, row: Row::_3 };
    let e4 = Square { col: Col::_5, row: Row::_4 };
    let single = Move {
        kind: MoveKind::Pawn(PawnMove::SingleStep { promotion_replacement: None }),
        origin: e2,
        destination: e3,
    };
    let double = Move {
        kind: MoveKind::Pawn(PawnMove::DoubleStep),
        origin: e2,
        destination: e4,
    };
    assert!(legal.contains(&single));
    assert!(legal.contains(&double));
}

#[test]
fn test_promotion_yields_four_moves() {
    // a white pawn on the seventh rank with an empty square ahead offers
    // one single step per replacement piece
    let game =
        GameState::try_from_fen(&b"8/4P1k1/8/8/8/8/8/4K3 w - - 0 1".to_vec()).unwrap();
    let legal = game.core.legal_moves();
    let promotions = legal
        .iter()
        .filter(|m| {
            matches!(
                m.kind,
                MoveKind::Pawn(PawnMove::SingleStep { promotion_replacement: Some(_) })
            )
        })
        .count();
    assert_eq!(promotions, 4);
    let plain = legal.iter().any(|m| {
        matches!(
            m.kind,
            MoveKind::Pawn(PawnMove::SingleStep { promotion_replacement: None })
        ) && m.origin == Square { col: Col::_5, row: Row::_7 }
    });
    assert!(!plain);
}

#[test]
fn test_castling_denied_through_check() {
    // white: K e1, R h1; black: R e8 pinning the transit; O-O must not appear
    let game =
        GameState::try_from_fen(&b"k3r3/8/8/8/8/8/8/4K2R w K - 0 1".to_vec()).unwrap();
    let legal = game.core.legal_moves();
    let castles = legal
        .iter()
        .filter(|m| matches!(m.kind, MoveKind::King(schach::mv::KingMove::Castle { .. })))
        .count();
    assert_eq!(castles, 0);
}

#[test]
fn test_castling_allowed_when_safe() {
    let game =
        GameState::try_from_fen(&b"k7/8/8/8/8/8/8/4K2R w K - 0 1".to_vec()).unwrap();
    let legal = game.core.legal_moves();
    let castles = legal
        .iter()
        .filter(|m| matches!(m.kind, MoveKind::King(schach::mv::KingMove::Castle { .. })))
        .count();
    assert_eq!(castles, 1);
}

#[test]
fn test_en_passant_window() {
    let game = GameState::try_from_fen(
        &b"rnbqkbnr/pp1ppppp/8/2pP4/8/8/PPP1PPPP/RNBQKBNR w KQkq c6 0 2".to_vec(),
    )
    .unwrap();
    let legal = game.core.legal_moves();
    let d5 = Square { col: Col::_4, row: Row::_5 };
    let c6 = Square { col: Col::_3, row: Row::_6 };
    let c5 = Square { col: Col::_3, row: Row::_5 };
    let ep = Move {
        kind: MoveKind::Pawn(PawnMove::EnPassant { affected: c5 }),
        origin: d5,
        destination: c6,
    };
    assert!(legal.contains(&ep));
    match game.step(ep, legal) {
        StepResult::Continued(next) => {
            assert_eq!(next.core.board.at(c5), None);
            assert_eq!(
                next.core.board.at(c6),
                Some(schach::piece::Piece {
                    owner: schach::player::PlayerKind::White,
                    kind: schach::piece::PieceKind::Pawn,
                })
            );
            assert_eq!(next.core.board.at(d5), None);
            assert_eq!(next.core.en_passant_target, None);
        }
        StepResult::Terminated(_) => panic!("the game should go on"),
    }
}

#[test]
fn test_random_walk_runs() {
    // exercises the randomness wrapper: every drawn index must stay
    // within the legal-move list, or the walk would fail
    for _ in 0..3 {
        let _ = GameState::new().random_walk(15);
    }
}
