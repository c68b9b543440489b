//! The step state machine end to end: termination kinds, counters,
//! castling-rights bookkeeping and the en-passant window's lifetime.
use schach::game::DrawKind;
use schach::game::GameResultKind;
use schach::game::GameState;
use schach::game::RuleSet;
use schach::game::StepResult;
use schach::mv::Move;
use schach::san::standard_algebraic_notation;

fn game_play_san(game: GameState, san: &[u8]) -> StepResult {
    let legal = game.core.legal_moves();
    let mut picked: Option<Move> = None;
    for mv in legal.iter() {
        if standard_algebraic_notation(game.clone(), *mv) == san.to_vec() {
            picked = Some(*mv);
            break;
        }
    }
    let mv = picked.expect("the position offers no move with that name");
    game.step(mv, legal)
}

fn game_continue(r: StepResult) -> GameState {
    match r {
        StepResult::Continued(g) => g,
        StepResult::Terminated(_) => panic!("the game ended early"),
    }
}

#[test]
fn tests_search() {
    let depth = 1;
    let game = GameState::try_from_fen(
        &b"r3k2r/p1ppqpb1/bn2pnp1/3PN3/1p2P3/2N2Q1p/PPPBBPPP/R3K2R w KQkq - 0 1".to_vec(),
    )
    .unwrap();

    let before = std::time::Instant::now();

    let stats = game.search(depth);

    println!("---------------------------");
    println!("depth: {depth}");
    println!("#checkmate: {}", stats.checkmated_games);
    println!("#drawn games: {}", stats.drawn_games);
    println!("#continued games: {}", stats.continued_games);
    println!("elapsed: {:?}", before.elapsed());
    println!("---------------------------");
}

#[test]
fn test_fools_mate_ends_in_win() {
    let game = GameState::new();
    let game = game_continue(game_play_san(game, b"f3"));
    let game = game_continue(game_play_san(game, b"e5"));
    let game = game_continue(game_play_san(game, b"g4"));
    match game_play_san(game, b"Qh4#") {
        StepResult::Terminated(gr) => {
            assert_eq!(gr.kind, GameResultKind::Win);
            assert_eq!(
                gr.final_game_state.core.active_player,
                schach::player::PlayerKind::Black
            );
        }
        StepResult::Continued(_) => panic!("the mate should end the game"),
    }
}

#[test]
fn test_kings_only_is_insufficient_material() {
    // white king takes the last pawn; two bare kings remain
    let game =
        GameState::try_from_fen(&b"k7/8/8/8/8/8/7p/7K w - - 0 1".to_vec()).unwrap();
    let legal = game.core.legal_moves();
    let capture = *legal
        .iter()
        .find(|m| m.is_capture())
        .expect("the pawn is there for the taking");
    match game.step(capture, legal) {
        StepResult::Terminated(gr) => {
            assert_eq!(gr.kind, GameResultKind::Draw(DrawKind::InsufficientMaterial));
        }
        StepResult::Continued(_) => panic!("two kings cannot play on"),
    }
}

#[test]
fn test_stalemate_is_a_draw() {
    // after Qb5-b6 the black king on a8 has no square and is not in check
    let game =
        GameState::try_from_fen(&b"k7/8/8/1Q6/8/8/8/K7 w - - 0 1".to_vec()).unwrap();
    match game_play_san(game, b"Qb6") {
        StepResult::Terminated(gr) => {
            assert_eq!(gr.kind, GameResultKind::Draw(DrawKind::Stalemate));
        }
        StepResult::Continued(g) => {
            panic!("black still found a move: {:?}", g.core.legal_moves())
        }
    }
}

#[test]
fn test_en_passant_window_lifetime() {
    // the target appears after a double step and is gone one ply later
    let game = GameState::new();
    let game = game_continue(game_play_san(game, b"e4"));
    assert!(game.core.en_passant_target.is_some());
    let game = game_continue(game_play_san(game, b"Nf6"));
    assert_eq!(game.core.en_passant_target, None);
    let game = game_continue(game_play_san(game, b"Nc3"));
    assert_eq!(game.core.en_passant_target, None);
    let game = game_continue(game_play_san(game, b"d5"));
    assert!(game.core.en_passant_target.is_some());
}

#[test]
fn test_castling_rights_fall_monotonically() {
    let game = GameState::new();
    let rights0 = game.core.castling_rights;
    assert_eq!(rights0, schach::game::CastlingRights::all_available());
    let game = game_continue(game_play_san(game, b"Nf3"));
    let game = game_continue(game_play_san(game, b"d5"));
    let game = game_continue(game_play_san(game, b"Rg1"));
    // the kingside rook moved: White may no longer castle kingside
    assert!(!game.core.castling_rights.white_kingside);
    assert!(game.core.castling_rights.white_queenside);
    assert!(game.core.castling_rights.black_kingside);
    assert!(game.core.castling_rights.black_queenside);
}

#[test]
fn test_rook_capture_revokes_opponent_right() {
    // the white rook runs up the open file and takes the untouched rook
    // on h8: black loses kingside castling although that rook never moved
    let game = GameState::try_from_fen(
        &b"rnbqkbnr/ppppppp1/8/8/8/8/PPPPPPP1/RNBQKBNR w KQkq - 0 1".to_vec(),
    )
    .unwrap();
    let game = game_continue(game_play_san(game, b"Rxh8"));
    assert!(!game.core.castling_rights.black_kingside);
    assert!(game.core.castling_rights.black_queenside);
    assert!(!game.core.castling_rights.white_kingside);
    assert!(game.core.castling_rights.white_queenside);
}

#[test]
fn test_fullmove_count_advances_after_black() {
    let game = GameState::new();
    assert_eq!(game.core.full_move_count.0, 1);
    let game = game_continue(game_play_san(game, b"e4"));
    assert_eq!(game.core.full_move_count.0, 1);
    let game = game_continue(game_play_san(game, b"e5"));
    assert_eq!(game.core.full_move_count.0, 2);
}

#[test]
fn test_fifty_move_clock_resets_on_pawn_move() {
    let game = GameState::new();
    let game = game_continue(game_play_san(game, b"Nf3"));
    assert_eq!(game.core.fifty_move_rule_clock.0, 1);
    let game = game_continue(game_play_san(game, b"Nf6"));
    assert_eq!(game.core.fifty_move_rule_clock.0, 2);
    let game = game_continue(game_play_san(game, b"d4"));
    assert_eq!(game.core.fifty_move_rule_clock.0, 0);
}

#[test]
fn test_fifty_move_rule_draw() {
    // one quiet move away from the hundredth halfmove
    let game =
        GameState::try_from_fen(&b"k7/8/8/8/8/8/1R6/1K6 w - - 99 80".to_vec()).unwrap();
    let legal = game.core.legal_moves();
    let quiet = *legal
        .iter()
        .find(|m| !m.is_capture() && !matches!(m.kind, schach::mv::MoveKind::Pawn(_)))
        .unwrap();
    match game.step(quiet, legal) {
        StepResult::Terminated(gr) => {
            assert_eq!(gr.kind, GameResultKind::Draw(DrawKind::FiftyMove));
        }
        StepResult::Continued(_) => panic!("the clock should have run out"),
    }
}

#[test]
fn test_threefold_repetition_draw() {
    // shuffle the same two knight moves until the position recurs enough
    let mut game = GameState::new();
    let moves: [&[u8]; 4] = [b"Nf3", b"Nf6", b"Ng1", b"Ng8"];
    let mut k = 0;
    for _ in 0..12 {
        match game_play_san(game.clone(), moves[k % 4]) {
            StepResult::Continued(next) => {
                game = next;
                k += 1;
            }
            StepResult::Terminated(gr) => {
                assert_eq!(gr.kind, GameResultKind::Draw(DrawKind::ThreefoldRepetition));
                return;
            }
        }
    }
    panic!("the shuffle should have drawn by repetition");
}

#[test]
fn test_perft_mode_ignores_draw_rules() {
    let game = GameState::perft();
    assert_eq!(game.rule_set, RuleSet::Perft);
    let game = GameState {
        core: GameState::try_from_fen(&b"k7/8/8/8/8/8/1R6/1K6 w - - 99 80".to_vec())
            .unwrap()
            .core,
        position_history: Vec::new(),
        rule_set: RuleSet::Perft,
    };
    let legal = game.core.legal_moves();
    let quiet = *legal.iter().find(|m| !m.is_capture()).unwrap();
    match game.step(quiet, legal) {
        StepResult::Continued(_) => {}
        StepResult::Terminated(_) => panic!("perft mode has no fifty-move rule"),
    }
}
