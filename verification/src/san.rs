//! Move notation: standard algebraic (SAN) and long algebraic (LAN)
//! emission for a move relative to the position it is played in.
use vstd::prelude::*;
use crate::board::in_check;
use crate::board::lemma_coords_determine_square;
use crate::fen::piece_char;
use crate::fen::square_fen_spec;
use crate::game::CastlingSide;
use crate::game::core_wf;
use crate::game::ep_after_value;
use crate::game::DrawKind;
use crate::game::GameResultKind;
use crate::game::GameState;
use crate::game::history_wf;
use crate::game::rights_after;
use crate::game::RuleSet;
use crate::game::StepResult;
use crate::move_gen::apply_move_spec;
use crate::move_gen::exists_legal;
use crate::move_gen::is_legal;
use crate::mv::is_capture_spec;
use crate::mv::KingMove;
use crate::mv::Move;
use crate::mv::MoveKind;
use crate::mv::PawnMove;
use crate::mv::piece_kind_spec;
use crate::mv::promotion_replacement_spec;
use crate::piece::Piece;
use crate::piece::PieceKind;
use crate::player::opponent_spec;
use crate::player::PlayerKind;

verus! {

/// How much of the origin square a notation spells out.
#[derive(Debug, Copy, Clone, PartialEq, Eq, Structural)]
pub enum AmbiguationLevel {
    OriginEmpty,
    OriginFileOnly,
    OriginRankOnly,
    OriginFull,
}

/// The bytes a notation uses to mark captures and quiet moves.
#[derive(Debug, Copy, Clone, PartialEq, Eq, Structural)]
pub struct CaptureRepresentation {
    pub capture: Option<u8>,
    pub no_capture: Option<u8>,
}

/// Zero or one bytes.
pub open spec fn opt_byte_seq(b: Option<u8>) -> Seq<u8> {
    match b {
        None => Seq::<u8>::empty(),
        Some(c) => seq![c],
    }
}

/// The part of the origin square the level spells out.
pub open spec fn origin_part_spec(m: Move, level: AmbiguationLevel) -> Seq<u8> {
    match level {
        AmbiguationLevel::OriginEmpty => Seq::<u8>::empty(),
        AmbiguationLevel::OriginFileOnly => seq![crate::fen::col_char(m.origin.c())],
        AmbiguationLevel::OriginRankOnly => seq![crate::fen::row_char(m.origin.r())],
        AmbiguationLevel::OriginFull => square_fen_spec(m.origin),
    }
}

/// The move's text before any check suffix: `O-O`/`O-O-O` for castles;
/// else the uppercase piece letter (none for pawns), the requested part
/// of the origin, the capture or quiet marker, the destination, and the
/// uppercase promotion letter.
pub open spec fn move_core_notation_spec(m: Move, level: AmbiguationLevel,
    cap: CaptureRepresentation) -> Seq<u8> {
    match m.kind {
        MoveKind::King(KingMove::Castle { castling_side: CastlingSide::Kingside, .. }) => seq![
            79u8,
            45u8,
            79u8,
        ],
        MoveKind::King(KingMove::Castle { castling_side: CastlingSide::Queenside, .. }) => seq![
            79u8,
            45u8,
            79u8,
            45u8,
            79u8,
        ],
        _ => (if piece_kind_spec(m.kind) == PieceKind::Pawn {
            Seq::<u8>::empty()
        } else {
            seq![piece_char(Piece { owner: PlayerKind::White, kind: piece_kind_spec(m.kind) })]
        }) + origin_part_spec(m, level) + (if is_capture_spec(m) {
            opt_byte_seq(cap.capture)
        } else {
            opt_byte_seq(cap.no_capture)
        }) + square_fen_spec(m.destination) + (match promotion_replacement_spec(m) {
            Some(p) => seq![piece_char(Piece { owner: PlayerKind::White, kind: p.kind })],
            None => Seq::<u8>::empty(),
        }),
    }
}

/// The move mates: afterwards the opponent is in check and has no legal
/// reply.
pub open spec fn check_mate_spec(g: GameState, m: Move) -> bool {
    let ap = apply_move_spec(g.core.cells(), m);
    let opp = opponent_spec(g.core.active_player);
    in_check(ap, opp) && !exists_legal(ap, opp, rights_after(g.core.castling_rights,
        g.core.active_player, m), ep_after_value(g.core.active_player, m))
}

/// A history entry repeats the position the move just produced: the same
/// post-move board, the same rights as before their update, and the same
/// set of legal moves as the position the move was drawn from.
pub open spec fn entry_repeats(e: crate::game::Position, ap: Seq<Option<Piece>>, g: GameState)
    -> bool {
    e.board.squares@ == ap && e.castling_rights == g.core.castling_rights && (forall|m2: Move|
        e.possible_moves@.contains(m2) <==> is_legal(g.core.cells(), g.core.active_player,
            g.core.castling_rights, g.core.en_passant_target, m2))
}

/// How many history entries repeat the position the move produces.
pub open spec fn repeat_count(h: Seq<crate::game::Position>, ap: Seq<Option<Piece>>,
    g: GameState) -> int
    decreases h.len(),
{
    if h.len() == 0 {
        0
    } else {
        repeat_count(h.drop_last(), ap, g) + if entry_repeats(h.last(), ap, g) {
            1int
        } else {
            0int
        }
    }
}

/// The move ends the game in a draw the standard rule set enforces: the
/// just-recorded position reaches the repetition threshold, the halfmove
/// clock runs out, or the material falls to the bare kings.
pub open spec fn standard_draw_spec(g: GameState, m: Move) -> bool {
    let ap = apply_move_spec(g.core.cells(), m);
    g.rule_set == RuleSet::Standard && {
        ||| 1 + repeat_count(g.position_history@, ap, g)
            == crate::game::REPETITIONS_TO_FORCED_DRAW_COUNT
        ||| (if crate::mv::piece_kind_spec(m.kind) == crate::piece::PieceKind::Pawn
            || crate::mv::is_capture_spec(m) {
            0int
        } else {
            g.core.fifty_move_rule_clock.0 + 1
        }) == crate::game::FIFTY_MOVE_RULE_COUNT
        ||| crate::game::material_kings_only(ap)
    }
}

/// What the notation functions promise of their output: it starts with
/// the move's text; `#` is appended exactly for mate; `+` is appended
/// exactly for a check the game survives - one that neither mates nor
/// coincides with a forced draw; nothing follows otherwise.
pub open spec fn notation_result_ok(g: GameState, m: Move, level: AmbiguationLevel,
    cap: CaptureRepresentation, out: Seq<u8>) -> bool {
    let core = move_core_notation_spec(m, level, cap);
    let ap = apply_move_spec(g.core.cells(), m);
    let opp = opponent_spec(g.core.active_player);
    let check = in_check(ap, opp);
    let plus = check && !check_mate_spec(g, m) && !standard_draw_spec(g, m);
    &&& out.take(core.len() as int) == core
    &&& (check_mate_spec(g, m) <==> out == core.push(35u8))
    &&& (plus <==> out == core.push(43u8))
    &&& (!check_mate_spec(g, m) && !plus <==> out == core)
}

/// Matching a history entry against the snapshot the step records is the
/// same as the repetition predicate over the pre-step position.
proof fn lemma_repeat_count_matches(h: Seq<crate::game::Position>, p: crate::game::Position,
    ap: Seq<Option<Piece>>, g: GameState)
    requires
        p.board.squares@ == ap,
        p.castling_rights == g.core.castling_rights,
        forall|m2: Move|
            p.possible_moves@.contains(m2) <==> is_legal(g.core.cells(),
                g.core.active_player, g.core.castling_rights, g.core.en_passant_target, m2),
    ensures
        crate::game::pos_count(h, p) == repeat_count(h, ap, g),
    decreases h.len(),
{
    if h.len() > 0 {
        lemma_repeat_count_matches(h.drop_last(), p, ap, g);
        let e = h.last();
        assert(crate::game::pos_eq(e, p) <==> entry_repeats(e, ap, g)) by {
            if e.board.squares@ == ap && e.castling_rights == g.core.castling_rights {
                if crate::game::same_move_set(e.possible_moves@, p.possible_moves@) {
                    assert forall|m2: Move|
                        e.possible_moves@.contains(m2) <==> is_legal(g.core.cells(),
                            g.core.active_player, g.core.castling_rights,
                            g.core.en_passant_target, m2) by {
                        assert(e.possible_moves@.contains(m2) == p.possible_moves@.contains(
                            m2));
                    }
                }
                if entry_repeats(e, ap, g) {
                    assert forall|m2: Move|
                        e.possible_moves@.contains(m2) <==> p.possible_moves@.contains(m2) by {
                        assert(e.possible_moves@.contains(m2) == is_legal(g.core.cells(),
                            g.core.active_player, g.core.castling_rights,
                            g.core.en_passant_target, m2));
                    }
                    assert(crate::game::same_move_set(e.possible_moves@, p.possible_moves@));
                }
            }
        }
    }
}

/// The occurrence count of the snapshot the step appends, over the whole
/// new history, is one more than the repetitions already on record.
proof fn lemma_recorded_repetitions(g: GameState, m: Move, legal: Seq<Move>,
    newh: Seq<crate::game::Position>)
    requires
        crate::game::history_after(g.position_history@, RuleSet::Standard, apply_move_spec(
            g.core.cells(), m), legal, g.core.castling_rights, newh),
        forall|m2: Move|
            legal.contains(m2) <==> is_legal(g.core.cells(), g.core.active_player,
                g.core.castling_rights, g.core.en_passant_target, m2),
    ensures
        crate::game::pos_count(newh, newh.last()) == 1 + repeat_count(g.position_history@,
            apply_move_spec(g.core.cells(), m), g),
{
    let ap = apply_move_spec(g.core.cells(), m);
    let p = newh.last();
    assert(crate::game::pos_eq(p, p)) by {
        assert(crate::game::same_move_set(p.possible_moves@, p.possible_moves@));
    }
    assert(newh.len() >= 1);
    assert(crate::game::pos_count(newh, p) == crate::game::pos_count(newh.drop_last(), p)
        + 1);
    lemma_repeat_count_matches(g.position_history@, p, ap, g);
}

/// Another legal move that SAN must distinguish this one from: same piece
/// kind, same destination, not the same move, and not merely a different
/// promotion choice from the same squares.
pub open spec fn interferes(g: GameState, m2: Move, m: Move) -> bool {
    &&& is_legal(g.core.cells(), g.core.active_player, g.core.castling_rights,
        g.core.en_passant_target, m2)
    &&& m2 != m
    &&& piece_kind_spec(m2.kind) == piece_kind_spec(m.kind)
    &&& m2.destination == m.destination
    &&& !(matches!(m.kind,
        MoveKind::Pawn(PawnMove::SingleStep { promotion_replacement: Some(_) })
        | MoveKind::Pawn(PawnMove::Capture { promotion_replacement: Some(_) })) && m2.origin
        == m.origin)
}

/// The origin detail SAN needs: none unless another legal move of the
/// same kind targets the same square (pawn captures always name their
/// file); then the file if it distinguishes, else the rank if it does,
/// else the full square.
pub open spec fn san_level_spec(g: GameState, m: Move) -> AmbiguationLevel {
    if !(exists|m2: Move| #[trigger] interferes(g, m2, m)) {
        if piece_kind_spec(m.kind) == PieceKind::Pawn && is_capture_spec(m) {
            AmbiguationLevel::OriginFileOnly
        } else {
            AmbiguationLevel::OriginEmpty
        }
    } else if !(exists|m2: Move| #[trigger] interferes(g, m2, m) && m2.origin.c()
        == m.origin.c()) {
        AmbiguationLevel::OriginFileOnly
    } else if !(exists|m2: Move| #[trigger] interferes(g, m2, m) && m2.origin.r()
        == m.origin.r()) {
        AmbiguationLevel::OriginRankOnly
    } else {
        AmbiguationLevel::OriginFull
    }
}

/// The text of a non-castling move: piece letter, origin detail, capture
/// marker, destination, promotion letter.
#[verifier::rlimit(100)]
fn plain_move_notation(mv: Move, ambiguation_level: AmbiguationLevel,
    capture_representation: CaptureRepresentation) -> (r: Vec<u8>)
    requires
        !matches!(mv.kind, MoveKind::King(KingMove::Castle { .. })),
    ensures
        r@ == move_core_notation_spec(mv, ambiguation_level, capture_representation),
{
    let ghost piece_part = if piece_kind_spec(mv.kind) == PieceKind::Pawn {
        Seq::<u8>::empty()
    } else {
        seq![piece_char(Piece { owner: PlayerKind::White, kind: piece_kind_spec(mv.kind) })]
    };
    let ghost origin_part = origin_part_spec(mv, ambiguation_level);
    let ghost marker_part = if is_capture_spec(mv) {
        opt_byte_seq(capture_representation.capture)
    } else {
        opt_byte_seq(capture_representation.no_capture)
    };
    let ghost promo_part = match promotion_replacement_spec(mv) {
        Some(p) => seq![piece_char(Piece { owner: PlayerKind::White, kind: p.kind })],
        None => Seq::<u8>::empty(),
    };
    proof {
        assert(move_core_notation_spec(mv, ambiguation_level, capture_representation)
            == piece_part + origin_part + marker_part + square_fen_spec(mv.destination)
            + promo_part);
    }
    let mut out: Vec<u8> = Vec::new();
    if !matches!(mv.kind, MoveKind::Pawn(_)) {
        out.push(mv.kind.piece_kind().to_white_piece().to_fen_repr());
    }
    proof {
        assert(out@ =~= piece_part);
    }
    match ambiguation_level {
        AmbiguationLevel::OriginEmpty => {},
        AmbiguationLevel::OriginFileOnly => {
            out.push(mv.origin.col.to_fen_repr());
        },
        AmbiguationLevel::OriginRankOnly => {
            out.push(mv.origin.row.to_fen_repr());
        },
        AmbiguationLevel::OriginFull => {
            out.push(mv.origin.col.to_fen_repr());
            out.push(mv.origin.row.to_fen_repr());
        },
    }
    proof {
        assert(out@ =~= piece_part + origin_part);
    }
    let marker: Option<u8> = if mv.is_capture() {
        capture_representation.capture
    } else {
        capture_representation.no_capture
    };
    if let Some(c) = marker {
        out.push(c);
    }
    proof {
        assert(out@ =~= piece_part + origin_part + marker_part);
    }
    out.push(mv.destination.col.to_fen_repr());
    out.push(mv.destination.row.to_fen_repr());
    proof {
        assert(out@ =~= piece_part + origin_part + marker_part + square_fen_spec(
            mv.destination));
    }
    match mv.kind {
        MoveKind::Pawn(PawnMove::SingleStep { promotion_replacement: Some(rep) }) => {
            out.push(rep.kind.to_white_piece().to_fen_repr());
        },
        MoveKind::Pawn(PawnMove::Capture { promotion_replacement: Some(rep) }) => {
            out.push(rep.kind.to_white_piece().to_fen_repr());
        },
        _ => {},
    }
    proof {
        assert(out@ =~= piece_part + origin_part + marker_part + square_fen_spec(
            mv.destination) + promo_part);
    }
    out
}

/// The move's text before any suffix, built per the level and markers.
fn move_core_notation(mv: Move, ambiguation_level: AmbiguationLevel,
    capture_representation: CaptureRepresentation) -> (r: Vec<u8>)
    ensures
        r@ == move_core_notation_spec(mv, ambiguation_level, capture_representation),
{
    match mv.kind {
        MoveKind::King(KingMove::Castle { castling_side: CastlingSide::Kingside, .. }) => {
            let mut out: Vec<u8> = Vec::new();
            out.push(79);
            out.push(45);
            out.push(79);
            proof {
                assert(out@ =~= move_core_notation_spec(mv, ambiguation_level,
                    capture_representation));
            }
            out
        },
        MoveKind::King(KingMove::Castle { castling_side: CastlingSide::Queenside, .. }) => {
            let mut out: Vec<u8> = Vec::new();
            out.push(79);
            out.push(45);
            out.push(79);
            out.push(45);
            out.push(79);
            proof {
                assert(out@ =~= move_core_notation_spec(mv, ambiguation_level,
                    capture_representation));
            }
            out
        },
        _ => plain_move_notation(mv, ambiguation_level, capture_representation),
    }
}

/// The move's text at the given detail level, with the check suffix the
/// played-out move earns.
#[verifier::rlimit(100)]
fn notation_creator(game: GameState, mv: Move, ambiguation_level: AmbiguationLevel,
    capture_representation: CaptureRepresentation) -> (r: Vec<u8>)
    requires
        core_wf(game.core),
        history_wf(game.position_history@),
        is_legal(game.core.cells(), game.core.active_player, game.core.castling_rights,
            game.core.en_passant_target, mv),
        game.core.fifty_move_rule_clock.0 < u64::MAX,
        game.core.full_move_count.0 < u64::MAX,
    ensures
        notation_result_ok(game, mv, ambiguation_level, capture_representation, r@),
{
    let ghost g0 = game;
    let mut out: Vec<u8> = move_core_notation(mv, ambiguation_level, capture_representation);
    let ghost core = out@;
    proof {
        assert(core.take(core.len() as int) =~= core);
    }
    let all_legal_moves = game.core.legal_moves();
    let outcome = game.step(mv, all_legal_moves);
    proof {
        // the successor's en-passant target is the one the specification
        // names, so the step's verdict matches the mate predicate
        let c: crate::game::GameStateCore = match outcome {
            StepResult::Terminated(ref gr) => gr.final_game_state.core,
            StepResult::Continued(ref g2) => g2.core,
        };
        match c.en_passant_target {
            Some(t) => {
                match ep_after_value(g0.core.active_player, mv) {
                    Some(t2) => {
                        lemma_coords_determine_square(t, t2);
                    },
                    None => {},
                }
            },
            None => {},
        }
        assert(c.en_passant_target == ep_after_value(g0.core.active_player, mv));
    }
    proof {
        // the draw conditions the step just evaluated are the ones the
        // suffix specification names
        if g0.rule_set == RuleSet::Standard {
            let newh = match outcome {
                StepResult::Terminated(ref gr) => gr.final_game_state.position_history@,
                StepResult::Continued(ref g2) => g2.position_history@,
            };
            lemma_recorded_repetitions(g0, mv, all_legal_moves@, newh);
        }
    }
    match outcome {
        StepResult::Continued(future) => {
            let checked = future.core.board.is_king_checked(future.core.active_player);
            proof {
                assert(!check_mate_spec(g0, mv));
                assert(!standard_draw_spec(g0, mv));
            }
            if checked {
                out.push(43);
                proof {
                    assert(out@.take(core.len() as int) =~= core);
                    assert(out@ == core.push(43u8));
                    assert(out@ != core.push(35u8)) by {
                        assert(out@[core.len() as int] == 43);
                        assert(core.push(35u8)[core.len() as int] == 35);
                    }
                    assert(out@ != core) by {
                        assert(out@.len() != core.len());
                    }
                }
            } else {
                proof {
                    assert(out@ =~= core);
                    assert(out@.take(core.len() as int) =~= core);
                    assert(out@ != core.push(35u8)) by {
                        assert(out@.len() != core.push(35u8).len());
                    }
                    assert(out@ != core.push(43u8)) by {
                        assert(out@.len() != core.push(43u8).len());
                    }
                }
            }
        },
        StepResult::Terminated(gr) => {
            match gr.kind {
                GameResultKind::Win => {
                    out.push(35);
                    proof {
                        assert(out@.take(core.len() as int) =~= core);
                        assert(check_mate_spec(g0, mv));
                        assert(out@ == core.push(35u8));
                        assert(out@ != core.push(43u8)) by {
                            assert(out@[core.len() as int] == 35);
                            assert(core.push(43u8)[core.len() as int] == 43);
                        }
                        assert(out@ != core) by {
                            assert(out@.len() != core.len());
                        }
                    }
                },
                GameResultKind::Draw(dk) => {
                    proof {
                        assert(out@ =~= core);
                        assert(out@.take(core.len() as int) =~= core);
                        assert(!check_mate_spec(g0, mv));
                        assert(out@ != core.push(35u8)) by {
                            assert(out@.len() != core.push(35u8).len());
                        }
                        assert(out@ != core.push(43u8)) by {
                            assert(out@.len() != core.push(43u8).len());
                        }
                        // no draw kind leaves the check suffix owed: the
                        // stalemate kind carries no check, and the three
                        // forced draws realize the suffix's draw condition
                        let checked_now = in_check(apply_move_spec(g0.core.cells(), mv),
                            opponent_spec(g0.core.active_player));
                        match dk {
                            DrawKind::Stalemate => {
                                assert(!checked_now);
                            },
                            DrawKind::ThreefoldRepetition => {
                                assert(standard_draw_spec(g0, mv));
                            },
                            DrawKind::FiftyMove => {
                                assert(standard_draw_spec(g0, mv));
                            },
                            DrawKind::InsufficientMaterial => {
                                assert(standard_draw_spec(g0, mv));
                            },
                        }
                    }
                },
            }
        },
    }
    out
}

/// The move in long algebraic notation: the full origin, `x` or `-`, the
/// destination, and the promotion and check marks.
pub fn long_algebraic_notation(game: GameState, mov: Move) -> (r: Vec<u8>)
    requires
        core_wf(game.core),
        history_wf(game.position_history@),
        is_legal(game.core.cells(), game.core.active_player, game.core.castling_rights,
            game.core.en_passant_target, mov),
        game.core.fifty_move_rule_clock.0 < u64::MAX,
        game.core.full_move_count.0 < u64::MAX,
    ensures
        notation_result_ok(game, mov, AmbiguationLevel::OriginFull, (CaptureRepresentation {
            capture: Some(120u8),
            no_capture: Some(45u8),
        }), r@),
{
    notation_creator(game, mov, AmbiguationLevel::OriginFull, CaptureRepresentation {
        capture: Some(120),
        no_capture: Some(45),
    })
}

/// The move in standard algebraic notation: the origin only as far as
/// other legal moves force it, `x` for captures, and the promotion and
/// check marks.
#[verifier::rlimit(100)]
pub fn standard_algebraic_notation(game: GameState, mov: Move) -> (r: Vec<u8>)
    requires
        core_wf(game.core),
        history_wf(game.position_history@),
        is_legal(game.core.cells(), game.core.active_player, game.core.castling_rights,
            game.core.en_passant_target, mov),
        game.core.fifty_move_rule_clock.0 < u64::MAX,
        game.core.full_move_count.0 < u64::MAX,
    ensures
        notation_result_ok(game, mov, san_level_spec(game, mov), (CaptureRepresentation {
            capture: Some(120u8),
            no_capture: None,
        }), r@),
{
    let ghost g0 = game;
    let capture_repr = CaptureRepresentation { capture: Some(120), no_capture: None };
    let legal_moves = game.core.legal_moves();
    let is_promo = mov.kind.is_promotion();
    let mut any_interference = false;
    let mut col_clash = false;
    let mut row_clash = false;
    let mut i: usize = 0;
    while i < legal_moves.len()
        invariant
            i <= legal_moves@.len(),
            forall|m2: Move|
                legal_moves@.contains(m2) <==> is_legal(g0.core.cells(),
                    g0.core.active_player, g0.core.castling_rights,
                    g0.core.en_passant_target, m2),
            is_promo == matches!(mov.kind,
                MoveKind::Pawn(PawnMove::SingleStep { promotion_replacement: Some(_) })
                | MoveKind::Pawn(PawnMove::Capture { promotion_replacement: Some(_) })),
            any_interference <==> exists|j: int|
                0 <= j < i && #[trigger] interferes(g0, legal_moves@[j], mov),
            col_clash <==> exists|j: int|
                0 <= j < i && #[trigger] interferes(g0, legal_moves@[j], mov)
                    && legal_moves@[j].origin.c() == mov.origin.c(),
            row_clash <==> exists|j: int|
                0 <= j < i && #[trigger] interferes(g0, legal_moves@[j], mov)
                    && legal_moves@[j].origin.r() == mov.origin.r(),
        decreases legal_moves@.len() - i,
    {
        let m2 = legal_moves[i];
        proof {
            assert(legal_moves@.contains(m2));
        }
        let same = m2.same_as(&mov);
        let promo_sibling = is_promo && m2.origin == mov.origin;
        let hit = !same && !promo_sibling && m2.kind.piece_kind() == mov.kind.piece_kind()
            && m2.destination == mov.destination;
        let ghost old_any = any_interference;
        let ghost old_col = col_clash;
        let ghost old_row = row_clash;
        if hit {
            any_interference = true;
            if m2.origin.col == mov.origin.col {
                col_clash = true;
            }
            if m2.origin.row == mov.origin.row {
                row_clash = true;
            }
        }
        proof {
            assert(hit == interferes(g0, m2, mov));
            assert(any_interference <==> exists|j: int|
                0 <= j < i + 1 && #[trigger] interferes(g0, legal_moves@[j], mov)) by {
                if any_interference {
                    if old_any {
                        let j = choose|j: int|
                            0 <= j < i && #[trigger] interferes(g0, legal_moves@[j], mov);
                        assert(interferes(g0, legal_moves@[j], mov));
                    } else {
                        assert(interferes(g0, legal_moves@[i as int], mov));
                    }
                }
                if exists|j: int|
                    0 <= j < i + 1 && #[trigger] interferes(g0, legal_moves@[j], mov) {
                    let j = choose|j: int|
                        0 <= j < i + 1 && #[trigger] interferes(g0, legal_moves@[j], mov);
                    if j == i {
                        assert(hit);
                    }
                }
            }
            assert(col_clash <==> exists|j: int|
                0 <= j < i + 1 && #[trigger] interferes(g0, legal_moves@[j], mov)
                    && legal_moves@[j].origin.c() == mov.origin.c()) by {
                if col_clash {
                    if old_col {
                        let j = choose|j: int|
                            0 <= j < i && #[trigger] interferes(g0, legal_moves@[j], mov)
                                && legal_moves@[j].origin.c() == mov.origin.c();
                        assert(interferes(g0, legal_moves@[j], mov) && legal_moves@[j].origin.c()
                            == mov.origin.c());
                    } else {
                        assert(interferes(g0, legal_moves@[i as int], mov)
                            && legal_moves@[i as int].origin.c() == mov.origin.c());
                    }
                }
                if exists|j: int|
                    0 <= j < i + 1 && #[trigger] interferes(g0, legal_moves@[j], mov)
                        && legal_moves@[j].origin.c() == mov.origin.c() {
                    let j = choose|j: int|
                        0 <= j < i + 1 && #[trigger] interferes(g0, legal_moves@[j], mov)
                            && legal_moves@[j].origin.c() == mov.origin.c();
                    if j == i {
                        assert(hit && m2.origin.col == mov.origin.col);
                    }
                }
            }
            assert(row_clash <==> exists|j: int|
                0 <= j < i + 1 && #[trigger] interferes(g0, legal_moves@[j], mov)
                    && legal_moves@[j].origin.r() == mov.origin.r()) by {
                if row_clash {
                    if old_row {
                        let j = choose|j: int|
                            0 <= j < i && #[trigger] interferes(g0, legal_moves@[j], mov)
                                && legal_moves@[j].origin.r() == mov.origin.r();
                        assert(interferes(g0, legal_moves@[j], mov) && legal_moves@[j].origin.r()
                            == mov.origin.r());
                    } else {
                        assert(interferes(g0, legal_moves@[i as int], mov)
                            && legal_moves@[i as int].origin.r() == mov.origin.r());
                    }
                }
                if exists|j: int|
                    0 <= j < i + 1 && #[trigger] interferes(g0, legal_moves@[j], mov)
                        && legal_moves@[j].origin.r() == mov.origin.r() {
                    let j = choose|j: int|
                        0 <= j < i + 1 && #[trigger] interferes(g0, legal_moves@[j], mov)
                            && legal_moves@[j].origin.r() == mov.origin.r();
                    if j == i {
                        assert(hit && m2.origin.row == mov.origin.row);
                    }
                }
            }
        }
        i = i + 1;
    }
    proof {
        assert forall|m2: Move| #[trigger] interferes(g0, m2, mov) implies exists|j: int|
            0 <= j < legal_moves@.len() && interferes(g0, legal_moves@[j], mov) by {
            assert(legal_moves@.contains(m2));
            let j = choose|j: int| 0 <= j < legal_moves@.len() && legal_moves@[j] == m2;
        }
        assert forall|m2: Move|
            #[trigger] interferes(g0, m2, mov) && m2.origin.c() == mov.origin.c() implies
            exists|j: int|
                0 <= j < legal_moves@.len() && interferes(g0, legal_moves@[j], mov)
                    && legal_moves@[j].origin.c() == mov.origin.c() by {
            assert(legal_moves@.contains(m2));
            let j = choose|j: int| 0 <= j < legal_moves@.len() && legal_moves@[j] == m2;
        }
        assert forall|m2: Move|
            #[trigger] interferes(g0, m2, mov) && m2.origin.r() == mov.origin.r() implies
            exists|j: int|
                0 <= j < legal_moves@.len() && interferes(g0, legal_moves@[j], mov)
                    && legal_moves@[j].origin.r() == mov.origin.r() by {
            assert(legal_moves@.contains(m2));
            let j = choose|j: int| 0 <= j < legal_moves@.len() && legal_moves@[j] == m2;
        }
    }
    let level = if !any_interference {
        if matches!(mov.kind, MoveKind::Pawn(_)) && mov.is_capture() {
            AmbiguationLevel::OriginFileOnly
        } else {
            AmbiguationLevel::OriginEmpty
        }
    } else if !col_clash {
        AmbiguationLevel::OriginFileOnly
    } else if !row_clash {
        AmbiguationLevel::OriginRankOnly
    } else {
        AmbiguationLevel::OriginFull
    };
    proof {
        assert(level == san_level_spec(g0, mov));
    }
    notation_creator(game, mov, level, capture_repr)
}

} // verus!
