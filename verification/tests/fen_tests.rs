//! FEN round trips for every component type, and the strict error kinds.
use schach::board::Board;
use schach::coord::Col;
use schach::coord::Row;
use schach::coord::Square;
use schach::fen::BoardFromFenError;
use schach::fen::GameFromFenError;
use schach::fen::SquareFromFenError;
use schach::game::CastlingRights;
use schach::game::FiftyMoveRuleClock;
use schach::game::FullMoveCount;
use schach::game::GameState;
use schach::game::GameStateCore;
use schach::piece::Piece;
use schach::piece::PieceKind;
use schach::player::PlayerKind;

fn all_squares() -> Vec<Square> {
    let mut v = Vec::new();
    for r in (1..=8u8).rev() {
        for c in 1..=8u8 {
            v.push(Square { col: Col::from_index(c), row: Row::from_index(r) });
        }
    }
    v
}

#[test]
fn test_squares_fen_round_trip() {
    for square in all_squares() {
        println!("{square:?}: {:?}", square.to_fen_repr());
        assert_eq!(
            Some(square),
            Square::try_from_fen_repr(&square.to_fen_repr()).unwrap()
        );
    }
}

#[test]
fn test_columns_fen_round_trip() {
    for c in 1..=8u8 {
        let col = Col::from_index(c);
        println!("{col:?}: {}", col.to_fen_repr());
        assert_eq!(col, Col::try_from_fen_repr(col.to_fen_repr()).unwrap());
    }
}

#[test]
fn test_rows_fen_round_trip() {
    for r in 1..=8u8 {
        let row = Row::from_index(r);
        println!("{row:?}: {}", row.to_fen_repr());
        assert_eq!(row, Row::try_from_fen_repr(row.to_fen_repr()).unwrap());
    }
}

#[test]
fn test_pieces_fen_round_trip() {
    let kinds = [
        PieceKind::Pawn,
        PieceKind::Knight,
        PieceKind::Bishop,
        PieceKind::Rook,
        PieceKind::Queen,
        PieceKind::King,
    ];
    for owner in [PlayerKind::White, PlayerKind::Black] {
        for kind in kinds {
            let piece = Piece { owner, kind };
            println!("{piece:?}: {}", piece.to_fen_repr());
            assert_eq!(piece, Piece::try_from_fen_repr(piece.to_fen_repr()).unwrap());
        }
    }
}

#[test]
fn test_player_kind_fens_round_trip() {
    for player_kind in [PlayerKind::White, PlayerKind::Black] {
        println!("{player_kind:?}: {}", player_kind.to_fen_repr());
        assert_eq!(
            player_kind,
            PlayerKind::try_from_fen_repr(&vec![player_kind.to_fen_repr()]).unwrap()
        );
    }
}

#[test]
fn test_castling_rights_fen_round_trip() {
    for castling_rights in CastlingRights::all() {
        println!("{castling_rights:?}: {:?}", castling_rights.to_fen_repr());
        assert_eq!(
            castling_rights,
            CastlingRights::from_fen_repr(&castling_rights.to_fen_repr())
        );
    }
}

#[test]
fn test_initial_game_state() {
    let starting_position_fen = b"rnbqkbnr/pppppppp/8/8/8/8/PPPPPPPP/RNBQKBNR w KQkq - 0 1";
    assert_eq!(
        starting_position_fen.to_vec(),
        GameStateCore::default().to_fen()
    );
}

#[test]
fn test_board_fen_round_trip() {
    let board = Board::new();
    let emitted = board.to_fen_repr();
    assert_eq!(emitted, b"rnbqkbnr/pppppppp/8/8/8/8/PPPPPPPP/RNBQKBNR".to_vec());
    let parsed = Board::try_from_fen_repr(&emitted).unwrap();
    assert_eq!(parsed, board);
}

#[test]
fn test_full_position_round_trips() {
    let fens: [&[u8]; 4] = [
        b"rnbqkbnr/pppppppp/8/8/8/8/PPPPPPPP/RNBQKBNR w KQkq - 0 1",
        b"r3k2r/p1ppqpb1/bn2pnp1/3PN3/1p2P3/2N2Q1p/PPPBBPPP/R3K2R w KQkq - 0 1",
        b"rnbqkbnr/pp1ppppp/8/2pP4/8/8/PPP1PPPP/RNBQKBNR w KQkq c6 0 2",
        b"8/8/8/8/8/8/4k3/4K3 b - - 99 210",
    ];
    for fen in fens {
        let core = GameStateCore::try_from_fen(&fen.to_vec()).unwrap();
        assert_eq!(core.to_fen(), fen.to_vec());
        let reparsed = GameStateCore::try_from_fen(&core.to_fen()).unwrap();
        assert_eq!(reparsed, core);
    }
}

#[test]
fn test_fen_round_trip_after_play() {
    // positions reached by legal steps parse back to the same core
    let mut game = GameState::new();
    for _ in 0..6 {
        let legal = game.core.legal_moves();
        let mv = legal[0];
        match game.step(mv, legal) {
            schach::game::StepResult::Continued(next) => {
                let fen = next.core.to_fen();
                let reparsed = GameStateCore::try_from_fen(&fen).unwrap();
                assert_eq!(reparsed, next.core);
                game = next;
            }
            schach::game::StepResult::Terminated(_) => return,
        }
    }
}

#[test]
fn test_counter_fen_repr() {
    assert_eq!(FiftyMoveRuleClock::new(100).to_fen_repr(), b"100".to_vec());
    assert_eq!(FullMoveCount::new().to_fen_repr(), b"1".to_vec());
    assert_eq!(
        FiftyMoveRuleClock::try_from_fen_repr(&b"4301".to_vec()).unwrap(),
        FiftyMoveRuleClock::new(4301)
    );
    assert!(FullMoveCount::try_from_fen_repr(&b"0".to_vec()).is_err());
    assert!(FiftyMoveRuleClock::try_from_fen_repr(&b"".to_vec()).is_err());
    assert!(FiftyMoveRuleClock::try_from_fen_repr(&b"12x".to_vec()).is_err());
    assert!(FiftyMoveRuleClock::try_from_fen_repr(&b"99999999999999999999".to_vec()).is_err());
}

#[test]
fn test_fen_error_kinds() {
    let cases: [(&[u8], GameFromFenError); 8] = [
        (b"\xffabc", GameFromFenError::NotAscii),
        (b"just three fields", GameFromFenError::WrongFieldCount),
        (
            b"xnbqkbnr/pppppppp/8/8/8/8/PPPPPPPP/RNBQKBNR w KQkq - 0 1",
            GameFromFenError::MalformedBoard(BoardFromFenError::IllegalCharacter(b'x')),
        ),
        (
            b"rnbqkbnr/pppppppp/8/8/8/8/PPPPPPPP w KQkq - 0 1",
            GameFromFenError::MalformedBoard(BoardFromFenError::WrongRankCount),
        ),
        (
            b"rnbqkbnr/ppppppp/8/8/8/8/PPPPPPPP/RNBQKBNR w KQkq - 0 1",
            GameFromFenError::MalformedBoard(BoardFromFenError::WrongFileCountInRank),
        ),
        (
            b"rnbqkbnr/pppppppp/8/8/8/8/PPPPPPPP/RNBQKBNR z KQkq - 0 1",
            GameFromFenError::MalformedPlayer(schach::fen::InvalidPlayer::IllegalCharacter(
                b'z',
            )),
        ),
        (
            b"rnbqkbnr/pppppppp/8/8/8/8/PPPPPPPP/RNBQKBNR w KQkq e9 0 1",
            GameFromFenError::MalformedEnPassantTarget(SquareFromFenError::OutOfRange(
                schach::coord::SquareOutOfRange::Row(schach::coord::RowIndexOutOfRange::TooHigh),
            )),
        ),
        (
            b"rnbqkbnr/pppppppp/8/8/8/8/PPPPPPPP/RNBQKBNR w KQkq - x 1",
            GameFromFenError::MalformedFiftyRuleClock(schach::fen::NotANumber),
        ),
    ];
    for (fen, expected) in cases {
        let got = GameStateCore::try_from_fen(&fen.to_vec()).unwrap_err();
        assert_eq!(got, expected);
    }
    let bad_count = GameStateCore::try_from_fen(
        &b"rnbqkbnr/pppppppp/8/8/8/8/PPPPPPPP/RNBQKBNR w KQkq - 0 0".to_vec(),
    )
    .unwrap_err();
    assert_eq!(
        bad_count,
        GameFromFenError::MalformedMoveCount(schach::fen::NotANumber)
    );
}

#[test]
fn test_square_colors() {
    // file + rank even means dark
    let a1 = Square { col: Col::_1, row: Row::_1 };
    let h1 = Square { col: Col::_8, row: Row::_1 };
    assert!(a1.is_black());
    assert!(h1.is_white());
}

#[test]
fn test_out_of_range_indices() {
    assert!(matches!(
        Col::try_from_int(0),
        Err(schach::coord::ColIndexOutOfRange::TooLow)
    ));
    assert!(matches!(
        Col::try_from_int(9),
        Err(schach::coord::ColIndexOutOfRange::TooHigh)
    ));
    assert!(matches!(
        Row::try_from_int(0),
        Err(schach::coord::RowIndexOutOfRange::TooLow)
    ));
    assert!(matches!(
        Row::try_from_int(9),
        Err(schach::coord::RowIndexOutOfRange::TooHigh)
    ));
}

#[test]
fn test_all_castling_rights_distinct() {
    let all = CastlingRights::all();
    assert_eq!(all.len(), 16);
    for i in 0..all.len() {
        for j in 0..i {
            assert_ne!(all[i], all[j]);
        }
    }
}

#[test]
fn test_well_formedness_check() {
    // a sound position passes
    let good = GameStateCore::try_from_fen(
        &b"rnbqkbnr/pp1ppppp/8/2pP4/8/8/PPP1PPPP/RNBQKBNR w KQkq c6 0 2".to_vec(),
    )
    .unwrap();
    assert!(good.is_well_formed());

    // an en-passant target with no pawn behind it is untruthful
    let bogus_ep = GameStateCore::try_from_fen(
        &b"rnbqkbnr/pppppppp/8/8/8/8/PPPPPPPP/RNBQKBNR w KQkq c6 0 2".to_vec(),
    )
    .unwrap();
    assert!(!bogus_ep.is_well_formed());

    // a castling right without its rook is untruthful
    let bogus_right = GameStateCore::try_from_fen(
        &b"rnbqkbn1/pppppppp/8/8/8/8/PPPPPPPP/RNBQKBNR w KQkq - 0 1".to_vec(),
    )
    .unwrap();
    assert!(!bogus_right.is_well_formed());

    // two kings of one color are no position at all
    let two_kings = GameStateCore::try_from_fen(
        &b"kk6/8/8/8/8/8/8/K7 w - - 0 1".to_vec(),
    )
    .unwrap();
    assert!(!two_kings.is_well_formed());
}
