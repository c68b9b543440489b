//! Move notation on concrete positions.
use schach::game::GameState;
use schach::san::long_algebraic_notation;
use schach::san::standard_algebraic_notation;

#[test]
fn algebraic_test_thingy() {
    let game = GameState::new();
    let legal_moves = game.core.legal_moves();
    for mv in legal_moves {
        println!("{:?}", long_algebraic_notation(game.clone(), mv));
    }
}

#[test]
fn san_test_thingy() {
    let game = GameState::new();
    let legal_moves = game.core.legal_moves();
    for mv in legal_moves {
        println!("{:?}", standard_algebraic_notation(game.clone(), mv));
    }
}

#[test]
fn test_san_of_initial_moves() {
    // twenty legal moves, every name as expected, no origin detail needed
    let game = GameState::new();
    let legal = game.core.legal_moves();
    let mut names: Vec<Vec<u8>> = legal
        .iter()
        .map(|m| standard_algebraic_notation(game.clone(), *m))
        .collect();
    names.sort();
    let mut expected: Vec<Vec<u8>> = [
        "a3", "a4", "b3", "b4", "c3", "c4", "d3", "d4", "e3", "e4", "f3", "f4", "g3", "g4",
        "h3", "h4", "Na3", "Nc3", "Nf3", "Nh3",
    ]
    .iter()
    .map(|s| s.as_bytes().to_vec())
    .collect();
    expected.sort();
    assert_eq!(names, expected);
}

#[test]
fn test_lan_of_pawn_push() {
    let game = GameState::new();
    let legal = game.core.legal_moves();
    let e4 = legal
        .iter()
        .find(|m| standard_algebraic_notation(game.clone(), **m) == b"e4".to_vec())
        .copied()
        .unwrap();
    assert_eq!(long_algebraic_notation(game.clone(), e4), b"e2-e4".to_vec());
}

#[test]
fn test_san_castle_and_disambiguation() {
    let game =
        GameState::try_from_fen(&b"4k3/8/8/8/8/8/8/R3K2R w KQ - 0 1".to_vec()).unwrap();
    let legal = game.core.legal_moves();
    let castle_names: Vec<Vec<u8>> = legal
        .iter()
        .map(|m| standard_algebraic_notation(game.clone(), *m))
        .collect();
    assert!(castle_names.contains(&b"O-O".to_vec()));
    assert!(castle_names.contains(&b"O-O-O".to_vec()));

    // two rooks that can both reach d1: the file letter disambiguates
    let game =
        GameState::try_from_fen(&b"4k3/8/8/8/8/8/4K3/R6R w - - 0 1".to_vec()).unwrap();
    let legal = game.core.legal_moves();
    let names: Vec<Vec<u8>> = legal
        .iter()
        .map(|m| standard_algebraic_notation(game.clone(), *m))
        .collect();
    assert!(names.contains(&b"Rad1".to_vec()));
    assert!(names.contains(&b"Rhd1".to_vec()));
}

#[test]
fn test_san_promotion_letters() {
    let game =
        GameState::try_from_fen(&b"8/4P3/8/8/8/8/8/4K2k w - - 0 1".to_vec()).unwrap();
    let legal = game.core.legal_moves();
    let names: Vec<Vec<u8>> = legal
        .iter()
        .map(|m| standard_algebraic_notation(game.clone(), *m))
        .collect();
    assert!(names.contains(&b"e8Q".to_vec()));
    assert!(names.contains(&b"e8N".to_vec()));
    assert!(names.contains(&b"e8R".to_vec()));
    assert!(names.contains(&b"e8B".to_vec()));
}
