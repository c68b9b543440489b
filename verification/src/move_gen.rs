//! The move generator: candidate moves from threats, pawn pushes and
//! castling, filtered by king safety; and the application of a move to a
//! board.
use vstd::prelude::*;
use crate::board::at_sq;
use crate::board::attacked;
use crate::board::Board;
use crate::board::in_check;
use crate::board::is_threat_full;
use crate::board::king_count;
use crate::board::lemma_count_update;
use crate::board::lemma_coords_determine_square;
use crate::board::lemma_push_contains;
use crate::board::lemma_square_bounds;
use crate::board::lemma_sq_idx_injective;
use crate::board::dir_threat;
use crate::board::piece_count_seq;
use crate::board::sq_idx;
use crate::board::threat_spec;
use crate::coord::Square;
use crate::game::CastlingRights;
use crate::game::CastlingSide;
use crate::game::ep_wf;
use crate::game::GameStateCore;
use crate::game::has_right_spec;
use crate::game::pawns_ok;
use crate::game::rights_after;
use crate::mv::KingMove;
use crate::mv::Move;
use crate::mv::MoveKind;
use crate::mv::PawnMove;
use crate::mv::Threat;
use crate::piece::Piece;
use crate::piece::PieceKind;
use crate::piece::promotion_kinds;
use crate::piece::threat_dirs_spec;
use crate::piece::threat_range_spec;
use crate::player::castle_free_spec;
use crate::player::castle_transit_spec;
use crate::player::forward_spec;
use crate::player::king_castle_target_spec;
use crate::player::king_start_spec;
use crate::player::opponent_spec;
use crate::player::pawn_promotion_row_spec;
use crate::player::pawn_start_row_spec;
use crate::player::PlayerKind;
use crate::player::rook_castle_target_spec;
use crate::player::rook_start_spec;

verus! {

/// The sequence after the plain part of a move: the target takes what
/// stood on the start, and the start is cleared.
pub open spec fn moved_seq(bs: Seq<Option<Piece>>, from: Square, to: Square)
    -> Seq<Option<Piece>> {
    bs.update(sq_idx(to.c(), to.r()), at_sq(bs, from.c(), from.r())).update(sq_idx(from.c(),
        from.r()), None)
}

/// The board after a move: the ordinary replace-and-clear, then the
/// en-passant victim cleared, a promotion replacement written, or the
/// castling rook moved. Pure data: no legality is assumed or checked.
pub open spec fn apply_move_spec(bs: Seq<Option<Piece>>, m: Move) -> Seq<Option<Piece>> {
    let b1 = moved_seq(bs, m.origin, m.destination);
    match m.kind {
        MoveKind::Pawn(PawnMove::EnPassant { affected }) => b1.update(sq_idx(affected.c(),
            affected.r()), None),
        MoveKind::Pawn(PawnMove::SingleStep { promotion_replacement: Some(rep) }) => b1.update(
            sq_idx(m.destination.c(), m.destination.r()), Some(rep)),
        MoveKind::Pawn(PawnMove::Capture { promotion_replacement: Some(rep) }) => b1.update(
            sq_idx(m.destination.c(), m.destination.r()), Some(rep)),
        MoveKind::King(KingMove::Castle { rook_start, rook_target, .. }) => moved_seq(b1,
            rook_start, rook_target),
        _ => b1,
    }
}

/// What one cell holds after a move, spelled out update by update: the
/// last write to an index wins.
pub open spec fn applied_cell(bs: Seq<Option<Piece>>, m: Move, j: int) -> Option<Piece> {
    let oi = sq_idx(m.origin.c(), m.origin.r());
    let di = sq_idx(m.destination.c(), m.destination.r());
    match m.kind {
        MoveKind::Pawn(PawnMove::EnPassant { affected }) => if j == sq_idx(affected.c(),
            affected.r()) {
            None
        } else if j == oi {
            None
        } else if j == di {
            bs[oi]
        } else {
            bs[j]
        },
        MoveKind::Pawn(PawnMove::SingleStep { promotion_replacement: Some(rep) }) => if j == di {
            Some(rep)
        } else if j == oi {
            None
        } else {
            bs[j]
        },
        MoveKind::Pawn(PawnMove::Capture { promotion_replacement: Some(rep) }) => if j == di {
            Some(rep)
        } else if j == oi {
            None
        } else {
            bs[j]
        },
        MoveKind::King(KingMove::Castle { rook_start, rook_target, .. }) => {
            let rsi = sq_idx(rook_start.c(), rook_start.r());
            let rti = sq_idx(rook_target.c(), rook_target.r());
            if j == rsi {
                None
            } else if j == rti {
                if rsi == oi {
                    None
                } else if rsi == di {
                    bs[oi]
                } else {
                    bs[rsi]
                }
            } else if j == oi {
                None
            } else if j == di {
                bs[oi]
            } else {
                bs[j]
            }
        },
        _ => if j == oi {
            None
        } else if j == di {
            bs[oi]
        } else {
            bs[j]
        },
    }
}

/// The board after a move holds in each cell what `applied_cell` says.
pub proof fn lemma_apply_cell(bs: Seq<Option<Piece>>, m: Move, j: int)
    requires
        bs.len() == 64,
        0 <= j < 64,
    ensures
        apply_move_spec(bs, m).len() == 64,
        apply_move_spec(bs, m)[j] == applied_cell(bs, m, j),
{
    lemma_square_bounds(m.origin);
    lemma_square_bounds(m.destination);
    match m.kind {
        MoveKind::Pawn(PawnMove::EnPassant { affected }) => {
            lemma_square_bounds(affected);
        },
        MoveKind::King(KingMove::Castle { rook_start, rook_target, .. }) => {
            lemma_square_bounds(rook_start);
            lemma_square_bounds(rook_target);
        },
        _ => {},
    }
}

/// Applying a pseudo-legal candidate never leaves a pawn on its own
/// promotion rank, given the board had none.
pub proof fn lemma_candidate_preserves_pawns_ok(bs: Seq<Option<Piece>>, active: PlayerKind,
    rights: CastlingRights, ep: Option<Square>, m: Move)
    requires
        bs.len() == 64,
        pawns_ok(bs),
        ep_wf(bs, active, ep),
        is_candidate(bs, active, rights, ep, m),
    ensures
        pawns_ok(apply_move_spec(bs, m)),
{
    let ap = apply_move_spec(bs, m);
    let wp = Piece { owner: PlayerKind::White, kind: PieceKind::Pawn };
    let bp = Piece { owner: PlayerKind::Black, kind: PieceKind::Pawn };
    let o = m.origin;
    let d = m.destination;
    assert forall|c: int| 1 <= c <= 8 implies #[trigger] at_sq(ap, c, 8) != Some(wp) && at_sq(
        ap, c, 1) != Some(bp) by {
        let j8 = sq_idx(c, 8);
        let j1 = sq_idx(c, 1);
        lemma_apply_cell(bs, m, j8);
        lemma_apply_cell(bs, m, j1);
        lemma_square_bounds(o);
        lemma_square_bounds(d);
        assert(at_sq(bs, c, 8) != Some(wp) && at_sq(bs, c, 1) != Some(bp));
        if is_threat_move_candidate(bs, active, ep, m) || is_pawn_step_candidate(bs, active,
            m) {
            // the one moved or written piece: a pawn reaching its
            // promotion rank is replaced; other pieces are no pawns
            let p = at_sq(bs, o.c(), o.r())->Some_0;
            match m.kind {
                MoveKind::Pawn(PawnMove::SingleStep { promotion_replacement }) => {
                    match promotion_replacement {
                        Some(rep) => {
                            lemma_promo_kind_cases(rep.kind);
                        },
                        None => {
                            assert(d.r() != pawn_promotion_row_spec(active));
                        },
                    }
                },
                MoveKind::Pawn(PawnMove::Capture { promotion_replacement }) => {
                    match promotion_replacement {
                        Some(rep) => {
                            lemma_promo_kind_cases(rep.kind);
                        },
                        None => {
                            assert(d.r() != pawn_promotion_row_spec(active));
                        },
                    }
                },
                _ => {},
            }
        } else {
            // castling moves the contents of the two start squares onto
            // the home rank; a pawn standing there would already break
            // the invariant for the rank the castle happens on
            match m.kind {
                MoveKind::King(KingMove::Castle { rook_start, rook_target,
                    castling_side: side }) => {
                    lemma_square_bounds(rook_start);
                    lemma_square_bounds(rook_target);
                    assert(at_sq(bs, o.c(), o.r()) != Some(wp) || o.r() != 8);
                    if active == PlayerKind::Black {
                        assert(at_sq(bs, o.c(), 8) != Some(wp));
                        assert(at_sq(bs, rook_start.c(), 8) != Some(wp));
                    } else {
                        assert(at_sq(bs, o.c(), 1) != Some(bp));
                        assert(at_sq(bs, rook_start.c(), 1) != Some(bp));
                    }
                },
                _ => {},
            }
        }
    }
}

/// After a legal move the new en-passant target is truthful: it is set
/// exactly behind a double step's destination, the jumped-over square is
/// empty, and the arriving pawn stands in front of it.
pub proof fn lemma_step_ep_wf(bs: Seq<Option<Piece>>, active: PlayerKind,
    rights: CastlingRights, ep: Option<Square>, m: Move, newep: Option<Square>)
    requires
        bs.len() == 64,
        ep_wf(bs, active, ep),
        is_candidate(bs, active, rights, ep, m),
        m.kind == MoveKind::Pawn(PawnMove::DoubleStep) ==> match newep {
            Some(t) => t.c() == m.destination.c() && t.r() == m.destination.r() - forward_spec(
                active),
            None => false,
        },
        m.kind != MoveKind::Pawn(PawnMove::DoubleStep) ==> newep is None,
    ensures
        ep_wf(apply_move_spec(bs, m), opponent_spec(active), newep),
{
    match newep {
        None => {},
        Some(t) => {
            assert(is_pawn_step_candidate(bs, active, m));
            let o = m.origin;
            let d = m.destination;
            lemma_square_bounds(o);
            lemma_square_bounds(d);
            lemma_square_bounds(t);
            let ti = sq_idx(t.c(), t.r());
            let oi = sq_idx(o.c(), o.r());
            let di = sq_idx(d.c(), d.r());
            lemma_apply_cell(bs, m, ti);
            lemma_apply_cell(bs, m, di);
            if ti == oi {
                lemma_sq_idx_injective(t.c(), t.r(), o.c(), o.r());
            }
            if ti == di {
                lemma_sq_idx_injective(t.c(), t.r(), d.c(), d.r());
            }
            assert(apply_move_spec(bs, m)[ti] == bs[ti]);
            assert(at_sq(bs, t.c(), t.r()) == bs[ti]);
            assert(at_sq(bs, o.c(), o.r() + forward_spec(active)) is None);
            assert(apply_move_spec(bs, m)[di] == bs[oi]);
        },
    }
}

/// A promotion replacement fits the destination: one of the four
/// replacement pieces of the mover iff the destination is on the mover's
/// promotion rank, none otherwise.
pub open spec fn promo_matches(active: PlayerKind, dest: Square, promo: Option<Piece>) -> bool {
    if dest.r() == pawn_promotion_row_spec(active) {
        match promo {
            Some(p) => p.owner == active && promotion_kinds().contains(p.kind),
            None => false,
        }
    } else {
        promo is None
    }
}

/// A candidate from the threat stream: the mover's piece on the origin
/// threatens the destination, and the move's tag matches the piece and
/// what stands on the destination. A pawn threat onto an occupied square
/// is a capture (with promotion choices on the last rank); onto an empty
/// square it is a candidate only as the en-passant capture.
pub open spec fn is_threat_move_candidate(bs: Seq<Option<Piece>>, active: PlayerKind,
    ep: Option<Square>, m: Move) -> bool {
    match at_sq(bs, m.origin.c(), m.origin.r()) {
        Some(p) => p.owner == active && threat_spec(bs, active, m.origin, m.destination) && {
            let occupied = at_sq(bs, m.destination.c(), m.destination.r()) is Some;
            match m.kind {
                MoveKind::Knight { is_capture } => p.kind == PieceKind::Knight && is_capture
                    == occupied,
                MoveKind::Bishop { is_capture } => p.kind == PieceKind::Bishop && is_capture
                    == occupied,
                MoveKind::Rook { is_capture } => p.kind == PieceKind::Rook && is_capture
                    == occupied,
                MoveKind::Queen { is_capture } => p.kind == PieceKind::Queen && is_capture
                    == occupied,
                MoveKind::King(KingMove::Normal { is_capture }) => p.kind == PieceKind::King
                    && is_capture == occupied,
                MoveKind::Pawn(PawnMove::Capture { promotion_replacement }) => p.kind
                    == PieceKind::Pawn && occupied && promo_matches(active, m.destination,
                    promotion_replacement),
                MoveKind::Pawn(PawnMove::EnPassant { affected }) => p.kind == PieceKind::Pawn
                    && !occupied && ep == Some(m.destination) && affected.c()
                    == m.destination.c() && affected.r() == m.destination.r() - forward_spec(
                    active),
                _ => false,
            }
        },
        None => false,
    }
}

/// A candidate from the pawn-push stream: a single step onto an empty
/// square (with promotion choices on the last rank), or a double step from
/// the starting rank over two empty squares.
pub open spec fn is_pawn_step_candidate(bs: Seq<Option<Piece>>, active: PlayerKind, m: Move)
    -> bool {
    at_sq(bs, m.origin.c(), m.origin.r()) == Some(Piece { owner: active, kind: PieceKind::Pawn })
        && m.destination.c() == m.origin.c() && match m.kind {
        MoveKind::Pawn(PawnMove::SingleStep { promotion_replacement }) => m.destination.r()
            == m.origin.r() + forward_spec(active) && at_sq(bs, m.destination.c(),
            m.destination.r()) is None && promo_matches(active, m.destination,
            promotion_replacement),
        MoveKind::Pawn(PawnMove::DoubleStep) => m.origin.r() == pawn_start_row_spec(active)
            && m.destination.r() == m.origin.r() + 2 * forward_spec(active) && at_sq(bs,
            m.origin.c(), m.origin.r() + forward_spec(active)) is None && at_sq(bs,
            m.destination.c(), m.destination.r()) is None,
        _ => false,
    }
}

/// The castling path is safe and free: no square the king stands on or
/// crosses is attacked, and the squares between king and rook are empty.
pub open spec fn castle_path_ok(bs: Seq<Option<Piece>>, active: PlayerKind, side: CastlingSide)
    -> bool {
    (forall|i: int|
        0 <= i < castle_transit_spec(active, side).len() ==> !attacked(bs, opponent_spec(
            active), #[trigger] castle_transit_spec(active, side)[i])) && (forall|i: int|
        0 <= i < castle_free_spec(active, side).len() ==> at_sq(bs, #[trigger] castle_free_spec(
            active, side)[i].c(), castle_free_spec(active, side)[i].r()) is None)
}

/// A castling candidate: the right is kept, the path is safe and free,
/// and every field of the move is the one the side dictates.
pub open spec fn is_castle_candidate(bs: Seq<Option<Piece>>, active: PlayerKind,
    rights: CastlingRights, m: Move) -> bool {
    match m.kind {
        MoveKind::King(KingMove::Castle { rook_start, rook_target, castling_side }) => has_right_spec(
            rights, active, castling_side) && castle_path_ok(bs, active, castling_side)
            && rook_start == rook_start_spec(active, castling_side) && rook_target
            == rook_castle_target_spec(active, castling_side) && m.origin == king_start_spec(
            active) && m.destination == king_castle_target_spec(active, castling_side),
        _ => false,
    }
}

/// A pseudo-legal move: one of the three candidate streams.
pub open spec fn is_candidate(bs: Seq<Option<Piece>>, active: PlayerKind,
    rights: CastlingRights, ep: Option<Square>, m: Move) -> bool {
    is_threat_move_candidate(bs, active, ep, m) || is_pawn_step_candidate(bs, active, m)
        || is_castle_candidate(bs, active, rights, m)
}

/// A legal move: a pseudo-legal move that does not leave the mover's own
/// king in check.
pub open spec fn is_legal(bs: Seq<Option<Piece>>, active: PlayerKind, rights: CastlingRights,
    ep: Option<Square>, m: Move) -> bool {
    is_candidate(bs, active, rights, ep, m) && !in_check(apply_move_spec(bs, m), active)
}

/// The set of all legal moves of a position.
pub open spec fn legal_move_set(bs: Seq<Option<Piece>>, active: PlayerKind,
    rights: CastlingRights, ep: Option<Square>) -> Set<Move> {
    Set::new(|m: Move| is_legal(bs, active, rights, ep, m))
}

/// The position offers at least one legal move.
pub open spec fn exists_legal(bs: Seq<Option<Piece>>, active: PlayerKind,
    rights: CastlingRights, ep: Option<Square>) -> bool {
    exists|m: Move| #[trigger] is_legal(bs, active, rights, ep, m)
}

/// `x` occurs among the first `n` entries of `s`.
pub open spec fn contains_prefix<T>(s: Seq<T>, n: int, x: T) -> bool {
    exists|j: int| 0 <= j < n && s[j] == x
}

/// The threat record a threat-stream candidate move came from.
pub open spec fn threat_of(bs: Seq<Option<Piece>>, m: Move) -> Threat {
    Threat {
        piece: at_sq(bs, m.origin.c(), m.origin.r())->Some_0,
        origin: m.origin,
        destination: m.destination,
    }
}

/// What the plain replace-and-clear does to each cell and to the count of
/// any piece: the count drops by what stood on the target.
pub proof fn lemma_moved_seq_count(s: Seq<Option<Piece>>, from: Square, to: Square, p: Piece)
    requires
        s.len() == 64,
        !(from.c() == to.c() && from.r() == to.r()),
    ensures
        moved_seq(s, from, to).len() == 64,
        moved_seq(s, from, to)[sq_idx(from.c(), from.r())] is None,
        moved_seq(s, from, to)[sq_idx(to.c(), to.r())] == at_sq(s, from.c(), from.r()),
        forall|j: int|
            0 <= j < 64 && j != sq_idx(from.c(), from.r()) && j != sq_idx(to.c(), to.r())
                ==> moved_seq(s, from, to)[j] == s[j],
        piece_count_seq(moved_seq(s, from, to), p) == piece_count_seq(s, p) - (if at_sq(s,
            to.c(), to.r()) == Some(p) {
            1int
        } else {
            0int
        }),
{
    lemma_square_bounds(from);
    lemma_square_bounds(to);
    let fi = sq_idx(from.c(), from.r());
    let ti = sq_idx(to.c(), to.r());
    if fi == ti {
        lemma_sq_idx_injective(from.c(), from.r(), to.c(), to.r());
    }
    let s1 = s.update(ti, at_sq(s, from.c(), from.r()));
    lemma_count_update(s, p, ti, at_sq(s, from.c(), from.r()));
    lemma_count_update(s1, p, fi, None);
}

/// A threatened square is never the threatening piece's own square.
proof fn lemma_threat_origin_ne_dest(bs: Seq<Option<Piece>>, pl: PlayerKind, o: Square,
    d: Square)
    requires
        threat_spec(bs, pl, o, d),
    ensures
        !(o.c() == d.c() && o.r() == d.r()),
{
    let p = at_sq(bs, o.c(), o.r())->Some_0;
    let di = choose|di: int|
        0 <= di < threat_dirs_spec(p).len() && #[trigger] dir_threat(bs, pl, o, threat_dirs_spec(
            p)[di].col as int, threat_dirs_spec(p)[di].row as int, threat_range_spec(p), d);
    let dc = threat_dirs_spec(p)[di].col as int;
    let dr = threat_dirs_spec(p)[di].row as int;
    crate::board::lemma_dirs_bounded(p, di);
    let k = choose|k: int|
        1 <= k <= threat_range_spec(p) && #[trigger] crate::board::ray_c(o, dc, k) == d.c()
            && crate::board::ray_r(o, dr, k) == d.r() && crate::board::path_clear_to(bs, o, dc,
            dr, k) && !crate::board::occupied_by(bs, d, pl);
    if o.c() == d.c() && o.r() == d.r() {
        assert(k * dc == 0 && k * dr == 0);
        assert(dc == 0) by (nonlinear_arith)
            requires
                k * dc == 0,
                k >= 1,
        ;
        assert(dr == 0) by (nonlinear_arith)
            requires
                k * dr == 0,
                k >= 1,
        ;
    }
}

/// A pawn's capture threat always changes file and moves one rank
/// forward.
pub proof fn lemma_pawn_threat_changes_file(bs: Seq<Option<Piece>>, pl: PlayerKind, o: Square,
    d: Square)
    requires
        threat_spec(bs, pl, o, d),
        at_sq(bs, o.c(), o.r())->Some_0.kind == PieceKind::Pawn,
        at_sq(bs, o.c(), o.r())->Some_0.owner == pl,
    ensures
        o.c() != d.c(),
        d.r() == o.r() + forward_spec(pl),
{
    let p = at_sq(bs, o.c(), o.r())->Some_0;
    let di = choose|di: int|
        0 <= di < threat_dirs_spec(p).len() && #[trigger] dir_threat(bs, pl, o, threat_dirs_spec(
            p)[di].col as int, threat_dirs_spec(p)[di].row as int, threat_range_spec(p), d);
    let dc = threat_dirs_spec(p)[di].col as int;
    let dr = threat_dirs_spec(p)[di].row as int;
    let k = choose|k: int|
        1 <= k <= threat_range_spec(p) && #[trigger] crate::board::ray_c(o, dc, k) == d.c()
            && crate::board::ray_r(o, dr, k) == d.r() && crate::board::path_clear_to(bs, o, dc,
            dr, k) && !crate::board::occupied_by(bs, d, pl);
    assert(k == 1);
    assert(dc == 1 || dc == -1);
}

/// Applying any pseudo-legal candidate keeps the board's size, keeps the
/// mover's king count, and — when the opponent is not already in check —
/// the opponent's king count too.
pub proof fn lemma_candidate_preserves_kings(bs: Seq<Option<Piece>>, active: PlayerKind,
    rights: CastlingRights, ep: Option<Square>, m: Move)
    requires
        bs.len() == 64,
        ep_wf(bs, active, ep),
        is_candidate(bs, active, rights, ep, m),
    ensures
        apply_move_spec(bs, m).len() == 64,
        king_count(apply_move_spec(bs, m), active) == king_count(bs, active),
        !in_check(bs, opponent_spec(active)) ==> king_count(apply_move_spec(bs, m),
            opponent_spec(active)) == king_count(bs, opponent_spec(active)),
{
    let o = m.origin;
    let d = m.destination;
    let opp = opponent_spec(active);
    let ka = Piece { owner: active, kind: PieceKind::King };
    let ko = Piece { owner: opp, kind: PieceKind::King };
    lemma_square_bounds(o);
    lemma_square_bounds(d);
    let oi = sq_idx(o.c(), o.r());
    let di = sq_idx(d.c(), d.r());
    if is_threat_move_candidate(bs, active, ep, m) {
        lemma_threat_origin_ne_dest(bs, active, o, d);
        lemma_moved_seq_count(bs, o, d, ka);
        lemma_moved_seq_count(bs, o, d, ko);
        let b1 = moved_seq(bs, o, d);
        // the destination holds no piece of the mover, so never the
        // mover's king; it holds the opponent's king only in check
        assert(at_sq(bs, d.c(), d.r()) != Some(ka));
        if at_sq(bs, d.c(), d.r()) == Some(ko) {
            assert(attacked(bs, active, d)) by {
                assert(threat_spec(bs, active, o, d));
            }
            assert(in_check(bs, opp));
        }
        match m.kind {
            MoveKind::Pawn(PawnMove::EnPassant { affected }) => {
                let p = at_sq(bs, o.c(), o.r())->Some_0;
                lemma_pawn_threat_changes_file(bs, active, o, d);
                let ai = sq_idx(affected.c(), affected.r());
                lemma_square_bounds(affected);
                if ai == oi {
                    lemma_sq_idx_injective(affected.c(), affected.r(), o.c(), o.r());
                }
                if ai == di {
                    lemma_sq_idx_injective(affected.c(), affected.r(), d.c(), d.r());
                }
                assert(b1[ai] == bs[ai]);
                assert(bs[ai] == Some(Piece { owner: opp, kind: PieceKind::Pawn }));
                lemma_count_update(b1, ka, ai, None);
                lemma_count_update(b1, ko, ai, None);
            },
            MoveKind::Pawn(PawnMove::Capture { promotion_replacement: Some(rep) }) => {
                assert(b1[di] == at_sq(bs, o.c(), o.r()));
                lemma_promo_kind_cases(rep.kind);
                lemma_count_update(b1, ka, di, Some(rep));
                lemma_count_update(b1, ko, di, Some(rep));
            },
            _ => {},
        }
    } else if is_pawn_step_candidate(bs, active, m) {
        assert(!(o.c() == d.c() && o.r() == d.r()));
        lemma_moved_seq_count(bs, o, d, ka);
        lemma_moved_seq_count(bs, o, d, ko);
        let b1 = moved_seq(bs, o, d);
        assert(at_sq(bs, d.c(), d.r()) is None);
        if let MoveKind::Pawn(PawnMove::SingleStep { promotion_replacement: Some(rep) }) =
            m.kind {
            assert(b1[di] == at_sq(bs, o.c(), o.r()));
            lemma_promo_kind_cases(rep.kind);
            lemma_count_update(b1, ka, di, Some(rep));
            lemma_count_update(b1, ko, di, Some(rep));
        }
    } else {
        // castling: king start to king target, then rook start to rook
        // target; all four squares are distinct and the crossed squares
        // are empty
        match m.kind {
            MoveKind::King(KingMove::Castle { rook_start: rs, rook_target: rt,
                castling_side: side }) => {
                lemma_square_bounds(rs);
                lemma_square_bounds(rt);
                assert(at_sq(bs, d.c(), d.r()) is None) by {
                    assert(castle_free_spec(active, side)[1] == d);
                }
                assert(at_sq(bs, rt.c(), rt.r()) is None) by {
                    assert(castle_free_spec(active, side)[0] == rt);
                }
                lemma_moved_seq_count(bs, o, d, ka);
                lemma_moved_seq_count(bs, o, d, ko);
                let b1 = moved_seq(bs, o, d);
                let rti = sq_idx(rt.c(), rt.r());
                if rti == oi {
                    lemma_sq_idx_injective(rt.c(), rt.r(), o.c(), o.r());
                }
                if rti == di {
                    lemma_sq_idx_injective(rt.c(), rt.r(), d.c(), d.r());
                }
                assert(b1[rti] == bs[rti]);
                lemma_moved_seq_count(b1, rs, rt, ka);
                lemma_moved_seq_count(b1, rs, rt, ko);
            },
            _ => {
                assert(false);
            },
        }
    }
}

/// A pseudo-legal move of a position whose side not to move is safe from
/// check keeps every surviving castling right truthful: the king and the
/// rook of a kept right still stand on their starting squares afterwards.
#[verifier::rlimit(100)]
pub proof fn lemma_candidate_preserves_rights_ok(bs: Seq<Option<Piece>>, active: PlayerKind,
    rights: CastlingRights, ep: Option<Square>, m: Move)
    requires
        bs.len() == 64,
        ep_wf(bs, active, ep),
        !in_check(bs, opponent_spec(active)),
        crate::game::rights_ok(bs, rights),
        is_candidate(bs, active, rights, ep, m),
    ensures
        crate::game::rights_ok(apply_move_spec(bs, m), rights_after(rights, active, m)),
{
    let ap = apply_move_spec(bs, m);
    let ra = rights_after(rights, active, m);
    let o = m.origin;
    let d = m.destination;
    lemma_square_bounds(o);
    lemma_square_bounds(d);
    let oi = sq_idx(o.c(), o.r());
    let di = sq_idx(d.c(), d.r());
    assert forall|pl: PlayerKind, side: CastlingSide| #[trigger] has_right_spec(ra, pl,
        side) implies at_sq(ap, crate::player::king_start_spec(pl).c(),
        crate::player::king_start_spec(pl).r()) == Some(Piece {
        owner: pl,
        kind: PieceKind::King,
    }) && at_sq(ap, rook_start_spec(pl, side).c(), rook_start_spec(pl, side).r()) == Some(
        Piece { owner: pl, kind: PieceKind::Rook }) by {
        assert(has_right_spec(rights, pl, side));
        let king = Piece { owner: pl, kind: PieceKind::King };
        let rook = Piece { owner: pl, kind: PieceKind::Rook };
        let ks = crate::player::king_start_spec(pl);
        let rsq = rook_start_spec(pl, side);
        lemma_square_bounds(ks);
        lemma_square_bounds(rsq);
        let ki = sq_idx(ks.c(), ks.r());
        let ri = sq_idx(rsq.c(), rsq.r());
        lemma_apply_cell(bs, m, ki);
        lemma_apply_cell(bs, m, ri);
        if is_threat_move_candidate(bs, active, ep, m) || is_pawn_step_candidate(bs, active,
            m) {
            let p = at_sq(bs, o.c(), o.r())->Some_0;
            // the origin is neither start square of a surviving right: a
            // king or corner rook moving away revokes it
            if ki == oi {
                lemma_sq_idx_injective(ks.c(), ks.r(), o.c(), o.r());
                assert(p == king);
                assert(pl == active);
                assert(matches!(m.kind, MoveKind::King(KingMove::Normal { .. })));
                assert(!has_right_spec(ra, pl, side));
            }
            if ri == oi {
                lemma_sq_idx_injective(rsq.c(), rsq.r(), o.c(), o.r());
                assert(p == rook);
                assert(pl == active);
                assert(matches!(m.kind, MoveKind::Rook { .. }));
                lemma_coords_determine_square(o, rsq);
                assert(!has_right_spec(ra, pl, side));
            }
            // the destination is neither start square: landing on one's
            // own piece is no candidate, capturing the king is excluded
            // by the absent check, and capturing the rook revokes
            if ki == di {
                lemma_sq_idx_injective(ks.c(), ks.r(), d.c(), d.r());
                assert(at_sq(bs, d.c(), d.r()) == Some(king));
                if pl == active {
                    assert(!crate::board::occupied_by(bs, d, active));
                } else {
                    assert(threat_spec(bs, active, o, d));
                    assert(attacked(bs, active, d));
                    assert(in_check(bs, opponent_spec(active)));
                }
            }
            if ri == di {
                lemma_sq_idx_injective(rsq.c(), rsq.r(), d.c(), d.r());
                assert(at_sq(bs, d.c(), d.r()) == Some(rook));
                if pl == active {
                    assert(!crate::board::occupied_by(bs, d, active));
                } else {
                    lemma_coords_determine_square(d, rsq);
                    assert(crate::mv::capture_affected_square_spec(m) == Some(rsq));
                    assert(!has_right_spec(ra, pl, side));
                }
            }
            // the en-passant victim is a pawn, never a king or rook
            match m.kind {
                MoveKind::Pawn(PawnMove::EnPassant { affected }) => {
                    lemma_square_bounds(affected);
                    let ai = sq_idx(affected.c(), affected.r());
                    assert(at_sq(bs, affected.c(), affected.r()) == Some(Piece {
                        owner: opponent_spec(active),
                        kind: PieceKind::Pawn,
                    }));
                    if ki == ai {
                        lemma_sq_idx_injective(ks.c(), ks.r(), affected.c(), affected.r());
                    }
                    if ri == ai {
                        lemma_sq_idx_injective(rsq.c(), rsq.r(), affected.c(), affected.r());
                    }
                },
                _ => {},
            }
        } else {
            // castling: it revokes both of the mover's own rights, so a
            // surviving right belongs to the opponent, whose home rank
            // the four touched squares never reach
            match m.kind {
                MoveKind::King(KingMove::Castle { rook_start: crs, rook_target: crt,
                    castling_side: side2 }) => {
                    assert(pl != active);
                    lemma_square_bounds(crs);
                    lemma_square_bounds(crt);
                    if ki == oi || ri == oi {
                        lemma_sq_idx_injective(ks.c(), ks.r(), o.c(), o.r());
                        lemma_sq_idx_injective(rsq.c(), rsq.r(), o.c(), o.r());
                    }
                    if ki == di || ri == di {
                        lemma_sq_idx_injective(ks.c(), ks.r(), d.c(), d.r());
                        lemma_sq_idx_injective(rsq.c(), rsq.r(), d.c(), d.r());
                    }
                    if ki == sq_idx(crs.c(), crs.r()) || ri == sq_idx(crs.c(), crs.r()) {
                        lemma_sq_idx_injective(ks.c(), ks.r(), crs.c(), crs.r());
                        lemma_sq_idx_injective(rsq.c(), rsq.r(), crs.c(), crs.r());
                    }
                    if ki == sq_idx(crt.c(), crt.r()) || ri == sq_idx(crt.c(), crt.r()) {
                        lemma_sq_idx_injective(ks.c(), ks.r(), crt.c(), crt.r());
                        lemma_sq_idx_injective(rsq.c(), rsq.r(), crt.c(), crt.r());
                    }
                },
                _ => {
                    assert(false);
                },
            }
        }
    }
}

/// A kind the promotion table holds is one of the four replacement kinds.
proof fn lemma_promo_kind_cases(k: PieceKind)
    requires
        promotion_kinds().contains(k),
    ensures
        k == PieceKind::Knight || k == PieceKind::Bishop || k == PieceKind::Rook || k
            == PieceKind::Queen,
{
    let i = choose|i: int| 0 <= i < promotion_kinds().len() && promotion_kinds()[i] == k;
}

/// Whether the vector holds the square.
fn vec_contains_square(v: &Vec<Square>, s: Square) -> (r: bool)
    ensures
        r == v@.contains(s),
{
    let mut i: usize = 0;
    let mut found = false;
    while i < v.len()
        invariant
            i <= v@.len(),
            found <==> exists|j: int| 0 <= j < i && v@[j] == s,
        decreases v@.len() - i,
    {
        if v[i] == s {
            found = true;
        }
        i = i + 1;
    }
    found
}

impl GameStateCore {
    /// The moves one threat gives rise to: one move for a non-pawn, one or
    /// four captures for a pawn onto an occupied square, the en-passant
    /// capture for a pawn onto the empty target square.
    pub(crate) fn threat_to_move_candidates(&self, threat: Threat, out: &mut Vec<Move>)
        requires
            self.board.wf(),
            at_sq(self.cells(), threat.origin.c(), threat.origin.r()) == Some(threat.piece),
            threat.piece.owner == self.active_player,
            threat_spec(self.cells(), self.active_player, threat.origin, threat.destination),
            ep_wf(self.cells(), self.active_player, self.en_passant_target),
        ensures
            forall|m: Move|
                final(out)@.contains(m) <==> old(out)@.contains(m) || (m.origin == threat.origin
                    && m.destination == threat.destination && is_threat_move_candidate(
                    self.cells(), self.active_player, self.en_passant_target, m)),
    {
        let ghost bs = self.cells();
        let ghost active = self.active_player;
        let ghost ep = self.en_passant_target;
        let origin = threat.origin;
        let destination = threat.destination;
        let is_capture = self.board.at(destination).is_some();
        match threat.piece.kind {
            PieceKind::Knight => {
                let ghost prev = out@;
                out.push(Move { kind: MoveKind::Knight { is_capture }, origin, destination });
                proof {
                    lemma_push_contains(prev, out@, Move { kind: MoveKind::Knight { is_capture },
                        origin, destination });
                }
            },
            PieceKind::Bishop => {
                let ghost prev = out@;
                out.push(Move { kind: MoveKind::Bishop { is_capture }, origin, destination });
                proof {
                    lemma_push_contains(prev, out@, Move { kind: MoveKind::Bishop { is_capture },
                        origin, destination });
                }
            },
            PieceKind::Rook => {
                let ghost prev = out@;
                out.push(Move { kind: MoveKind::Rook { is_capture }, origin, destination });
                proof {
                    lemma_push_contains(prev, out@, Move { kind: MoveKind::Rook { is_capture },
                        origin, destination });
                }
            },
            PieceKind::Queen => {
                let ghost prev = out@;
                out.push(Move { kind: MoveKind::Queen { is_capture }, origin, destination });
                proof {
                    lemma_push_contains(prev, out@, Move { kind: MoveKind::Queen { is_capture },
                        origin, destination });
                }
            },
            PieceKind::King => {
                let ghost prev = out@;
                out.push(Move { kind: MoveKind::King(KingMove::Normal { is_capture }), origin,
                    destination });
                proof {
                    lemma_push_contains(prev, out@, Move { kind: MoveKind::King(
                        KingMove::Normal { is_capture }), origin, destination });
                }
            },
            PieceKind::Pawn => {
                if is_capture {
                    let promo_row = self.active_player.pawn_promotion_row();
                    if destination.row == promo_row {
                        let options = PieceKind::promotion_options();
                        let mut oi: usize = 0;
                        while oi < options.len()
                            invariant
                                options@ == promotion_kinds(),
                                oi <= options@.len(),
                                active == self.active_player,
                                at_sq(bs, destination.c(), destination.r()) is Some,
                                destination.r() == pawn_promotion_row_spec(active),
                                forall|m: Move|
                                    out@.contains(m) <==> old(out)@.contains(m) || (exists|
                                    j: int|
                                        0 <= j < oi && m == (Move {
                                            kind: MoveKind::Pawn(PawnMove::Capture {
                                                promotion_replacement: Some(Piece {
                                                    owner: active,
                                                    kind: promotion_kinds()[j],
                                                }),
                                            }),
                                            origin,
                                            destination,
                                        })),
                            decreases options@.len() - oi,
                        {
                            let ghost prev = out@;
                            let rep = Piece { owner: self.active_player, kind: options[oi] };
                            out.push(Move {
                                kind: MoveKind::Pawn(PawnMove::Capture {
                                    promotion_replacement: Some(rep),
                                }),
                                origin,
                                destination,
                            });
                            proof {
                                let pushed = Move {
                                    kind: MoveKind::Pawn(PawnMove::Capture {
                                        promotion_replacement: Some(rep),
                                    }),
                                    origin,
                                    destination,
                                };
                                lemma_push_contains(prev, out@, pushed);
                                assert(rep.kind == promotion_kinds()[oi as int]);
                                assert forall|m: Move|
                                    out@.contains(m) implies (old(out)@.contains(m) || exists|
                                j: int|
                                    0 <= j < oi + 1 && m == (Move {
                                        kind: MoveKind::Pawn(PawnMove::Capture {
                                            promotion_replacement: Some(Piece {
                                                owner: active,
                                                kind: promotion_kinds()[j],
                                            }),
                                        }),
                                        origin,
                                        destination,
                                    })) by {
                                    if !old(out)@.contains(m) {
                                        if prev.contains(m) {
                                            let j = choose|j: int|
                                                0 <= j < oi && m == (Move {
                                                    kind: MoveKind::Pawn(PawnMove::Capture {
                                                        promotion_replacement: Some(Piece {
                                                            owner: active,
                                                            kind: promotion_kinds()[j],
                                                        }),
                                                    }),
                                                    origin,
                                                    destination,
                                                });
                                        } else {
                                            assert(m == pushed);
                                            assert(m == (Move {
                                                kind: MoveKind::Pawn(PawnMove::Capture {
                                                    promotion_replacement: Some(Piece {
                                                        owner: active,
                                                        kind: promotion_kinds()[oi as int],
                                                    }),
                                                }),
                                                origin,
                                                destination,
                                            }));
                                        }
                                    }
                                }
                                assert forall|m: Move|
                                    (exists|j: int|
                                        0 <= j < oi + 1 && m == (Move {
                                            kind: MoveKind::Pawn(PawnMove::Capture {
                                                promotion_replacement: Some(Piece {
                                                    owner: active,
                                                    kind: promotion_kinds()[j],
                                                }),
                                            }),
                                            origin,
                                            destination,
                                        })) implies out@.contains(m) by {
                                    let j = choose|j: int|
                                        0 <= j < oi + 1 && m == (Move {
                                            kind: MoveKind::Pawn(PawnMove::Capture {
                                                promotion_replacement: Some(Piece {
                                                    owner: active,
                                                    kind: promotion_kinds()[j],
                                                }),
                                            }),
                                            origin,
                                            destination,
                                        });
                                    if j == oi {
                                        assert(m == pushed);
                                    } else {
                                        assert(prev.contains(m));
                                    }
                                }
                            }
                            oi = oi + 1;
                        }
                        proof {
                            assert forall|m: Move|
                                (m.origin == origin && m.destination == destination
                                    && is_threat_move_candidate(bs, active, ep, m)) implies
                                out@.contains(m) by {
                                if let MoveKind::Pawn(PawnMove::Capture {
                                    promotion_replacement: Some(p) }) = m.kind {
                                    lemma_promo_kind_cases(p.kind);
                                    if p.kind == PieceKind::Knight {
                                        assert(promotion_kinds()[0] == p.kind);
                                    } else if p.kind == PieceKind::Bishop {
                                        assert(promotion_kinds()[1] == p.kind);
                                    } else if p.kind == PieceKind::Rook {
                                        assert(promotion_kinds()[2] == p.kind);
                                    } else {
                                        assert(promotion_kinds()[3] == p.kind);
                                    }
                                }
                            }
                            assert forall|m: Move|
                                out@.contains(m) && !old(out)@.contains(m) implies (m.origin
                                == origin && m.destination == destination
                                && is_threat_move_candidate(bs, active, ep, m)) by {
                                let j = choose|j: int|
                                    0 <= j < 4 && m == (Move {
                                        kind: MoveKind::Pawn(PawnMove::Capture {
                                            promotion_replacement: Some(Piece {
                                                owner: active,
                                                kind: promotion_kinds()[j],
                                            }),
                                        }),
                                        origin,
                                        destination,
                                    });
                                assert(promotion_kinds().contains(promotion_kinds()[j]));
                            }
                        }
                    } else {
                        let ghost prev = out@;
                        out.push(Move {
                            kind: MoveKind::Pawn(PawnMove::Capture {
                                promotion_replacement: None,
                            }),
                            origin,
                            destination,
                        });
                        proof {
                            lemma_push_contains(prev, out@, Move {
                                kind: MoveKind::Pawn(PawnMove::Capture {
                                    promotion_replacement: None,
                                }),
                                origin,
                                destination,
                            });
                        }
                    }
                } else {
                    let ep_matches: bool = match &self.en_passant_target {
                        Some(t) => *t == destination,
                        None => false,
                    };
                    if ep_matches {
                        let back = self.active_player.backwards_one_row();
                        match destination.plus(back) {
                            Ok(affected) => {
                                let ghost prev = out@;
                                out.push(Move {
                                    kind: MoveKind::Pawn(PawnMove::EnPassant { affected }),
                                    origin,
                                    destination,
                                });
                                proof {
                                    lemma_push_contains(prev, out@, Move {
                                        kind: MoveKind::Pawn(PawnMove::EnPassant { affected }),
                                        origin,
                                        destination,
                                    });
                                    assert forall|m: Move|
                                        (m.origin == origin && m.destination == destination
                                            && is_threat_move_candidate(bs, active, ep, m))
                                        implies out@.contains(m) by {
                                        if let MoveKind::Pawn(PawnMove::EnPassant {
                                            affected: a2 }) = m.kind {
                                            lemma_coords_determine_square(a2, affected);
                                        }
                                    }
                                }
                            },
                            Err(_) => {
                                proof {
                                    assert(false);
                                }
                            },
                        }
                    } else {
                        proof {
                            assert forall|m: Move|
                                !(m.origin == origin && m.destination == destination
                                    && is_threat_move_candidate(bs, active, ep, m)) by {}
                        }
                    }
                }
            },
        }
    }
}

impl GameStateCore {
    /// The single-step moves of the pawn on `origin` onto the empty square
    /// `dest`: four when `dest` is the promotion rank, else one.
    fn pawn_single_steps(&self, origin: Square, dest: Square, out: &mut Vec<Move>)
        requires
            self.board.wf(),
            at_sq(self.cells(), origin.c(), origin.r()) == Some(Piece {
                owner: self.active_player,
                kind: PieceKind::Pawn,
            }),
            dest.c() == origin.c(),
            dest.r() == origin.r() + forward_spec(self.active_player),
            at_sq(self.cells(), dest.c(), dest.r()) is None,
        ensures
            forall|m: Move|
                final(out)@.contains(m) <==> old(out)@.contains(m) || (m.origin == origin
                    && matches!(m.kind, MoveKind::Pawn(PawnMove::SingleStep { .. }))
                    && is_pawn_step_candidate(self.cells(), self.active_player, m)),
    {
        let ghost bs = self.cells();
        let ghost active = self.active_player;
        let promo_row = self.active_player.pawn_promotion_row();
        if dest.row == promo_row {
            let options = PieceKind::promotion_options();
            let mut oi: usize = 0;
            while oi < options.len()
                invariant
                    options@ == promotion_kinds(),
                    oi <= options@.len(),
                    active == self.active_player,
                    forall|m: Move|
                        out@.contains(m) <==> old(out)@.contains(m) || (exists|j: int|
                            0 <= j < oi && m == (Move {
                                kind: MoveKind::Pawn(PawnMove::SingleStep {
                                    promotion_replacement: Some(Piece {
                                        owner: active,
                                        kind: promotion_kinds()[j],
                                    }),
                                }),
                                origin,
                                destination: dest,
                            })),
                decreases options@.len() - oi,
            {
                let ghost prev = out@;
                let rep = Piece { owner: self.active_player, kind: options[oi] };
                let pushed = Move {
                    kind: MoveKind::Pawn(PawnMove::SingleStep {
                        promotion_replacement: Some(rep),
                    }),
                    origin,
                    destination: dest,
                };
                out.push(pushed);
                proof {
                    lemma_push_contains(prev, out@, pushed);
                    assert(rep.kind == promotion_kinds()[oi as int]);
                    assert forall|m: Move|
                        out@.contains(m) implies (old(out)@.contains(m) || exists|j: int|
                        0 <= j < oi + 1 && m == (Move {
                            kind: MoveKind::Pawn(PawnMove::SingleStep {
                                promotion_replacement: Some(Piece {
                                    owner: active,
                                    kind: promotion_kinds()[j],
                                }),
                            }),
                            origin,
                            destination: dest,
                        })) by {
                        if !old(out)@.contains(m) {
                            if prev.contains(m) {
                                let j = choose|j: int|
                                    0 <= j < oi && m == (Move {
                                        kind: MoveKind::Pawn(PawnMove::SingleStep {
                                            promotion_replacement: Some(Piece {
                                                owner: active,
                                                kind: promotion_kinds()[j],
                                            }),
                                        }),
                                        origin,
                                        destination: dest,
                                    });
                            } else {
                                assert(m == (Move {
                                    kind: MoveKind::Pawn(PawnMove::SingleStep {
                                        promotion_replacement: Some(Piece {
                                            owner: active,
                                            kind: promotion_kinds()[oi as int],
                                        }),
                                    }),
                                    origin,
                                    destination: dest,
                                }));
                            }
                        }
                    }
                    assert forall|m: Move|
                        (exists|j: int|
                            0 <= j < oi + 1 && m == (Move {
                                kind: MoveKind::Pawn(PawnMove::SingleStep {
                                    promotion_replacement: Some(Piece {
                                        owner: active,
                                        kind: promotion_kinds()[j],
                                    }),
                                }),
                                origin,
                                destination: dest,
                            })) implies out@.contains(m) by {
                        let j = choose|j: int|
                            0 <= j < oi + 1 && m == (Move {
                                kind: MoveKind::Pawn(PawnMove::SingleStep {
                                    promotion_replacement: Some(Piece {
                                        owner: active,
                                        kind: promotion_kinds()[j],
                                    }),
                                }),
                                origin,
                                destination: dest,
                            });
                        if j == oi {
                            assert(m == pushed);
                        } else {
                            assert(prev.contains(m));
                        }
                    }
                }
                oi = oi + 1;
            }
            proof {
                assert forall|m: Move|
                    (m.origin == origin && matches!(m.kind, MoveKind::Pawn(
                        PawnMove::SingleStep { .. })) && is_pawn_step_candidate(bs, active, m))
                    implies out@.contains(m) by {
                    if let MoveKind::Pawn(PawnMove::SingleStep { promotion_replacement }) =
                        m.kind {
                        lemma_coords_determine_square(m.destination, dest);
                        if let Some(p) = promotion_replacement {
                            lemma_promo_kind_cases(p.kind);
                            if p.kind == PieceKind::Knight {
                                assert(promotion_kinds()[0] == p.kind);
                            } else if p.kind == PieceKind::Bishop {
                                assert(promotion_kinds()[1] == p.kind);
                            } else if p.kind == PieceKind::Rook {
                                assert(promotion_kinds()[2] == p.kind);
                            } else {
                                assert(promotion_kinds()[3] == p.kind);
                            }
                        }
                    }
                }
                assert forall|m: Move|
                    out@.contains(m) && !old(out)@.contains(m) implies (m.origin == origin
                    && matches!(m.kind, MoveKind::Pawn(PawnMove::SingleStep { .. }))
                    && is_pawn_step_candidate(bs, active, m)) by {
                    let j = choose|j: int|
                        0 <= j < 4 && m == (Move {
                            kind: MoveKind::Pawn(PawnMove::SingleStep {
                                promotion_replacement: Some(Piece {
                                    owner: active,
                                    kind: promotion_kinds()[j],
                                }),
                            }),
                            origin,
                            destination: dest,
                        });
                    assert(promotion_kinds().contains(promotion_kinds()[j]));
                }
            }
        } else {
            let ghost prev = out@;
            let pushed = Move {
                kind: MoveKind::Pawn(PawnMove::SingleStep { promotion_replacement: None }),
                origin,
                destination: dest,
            };
            out.push(pushed);
            proof {
                lemma_push_contains(prev, out@, pushed);
                assert forall|m: Move|
                    (m.origin == origin && matches!(m.kind, MoveKind::Pawn(
                        PawnMove::SingleStep { .. })) && is_pawn_step_candidate(bs, active, m))
                    implies out@.contains(m) by {
                    if let MoveKind::Pawn(PawnMove::SingleStep { promotion_replacement }) =
                        m.kind {
                        lemma_coords_determine_square(m.destination, dest);
                    }
                }
            }
        }
    }

    /// The double-step move of the pawn on `origin`, when its starting
    /// rank and both forward squares allow one.
    fn pawn_double_step(&self, origin: Square, out: &mut Vec<Move>)
        requires
            self.board.wf(),
            at_sq(self.cells(), origin.c(), origin.r()) == Some(Piece {
                owner: self.active_player,
                kind: PieceKind::Pawn,
            }),
        ensures
            forall|m: Move|
                final(out)@.contains(m) <==> old(out)@.contains(m) || (m.origin == origin
                    && m.kind == MoveKind::Pawn(PawnMove::DoubleStep) && is_pawn_step_candidate(
                    self.cells(), self.active_player, m)),
    {
        let ghost bs = self.cells();
        let ghost active = self.active_player;
        let start_row = self.active_player.pawn_starting_row();
        if !(origin.row == start_row) {
            return ;
        }
        let fwd = self.active_player.forwards_one_row();
        match origin.plus(fwd) {
            Err(_) => {
                proof {
                    assert(false);
                }
            },
            Ok(one_in_front) => {
                if self.board.at(one_in_front).is_some() {
                    proof {
                        assert forall|m: Move|
                            !(m.origin == origin && m.kind == MoveKind::Pawn(
                                PawnMove::DoubleStep) && is_pawn_step_candidate(bs, active,
                                m)) by {}
                    }
                    return ;
                }
                match origin.plus(fwd.times(2)) {
                    Err(_) => {
                        proof {
                            assert(false);
                        }
                    },
                    Ok(two_in_front) => {
                        if self.board.at(two_in_front).is_some() {
                            proof {
                                assert forall|m: Move|
                                    (m.origin == origin && m.kind == MoveKind::Pawn(
                                        PawnMove::DoubleStep)) implies !is_pawn_step_candidate(
                                    bs, active, m) by {
                                    if m.destination.c() == origin.c() && m.destination.r()
                                        == origin.r() + 2 * forward_spec(active) {
                                        lemma_coords_determine_square(m.destination,
                                            two_in_front);
                                    }
                                }
                            }
                            return ;
                        }
                        let ghost prev = out@;
                        let pushed = Move {
                            kind: MoveKind::Pawn(PawnMove::DoubleStep),
                            origin,
                            destination: two_in_front,
                        };
                        out.push(pushed);
                        proof {
                            lemma_push_contains(prev, out@, pushed);
                            assert(is_pawn_step_candidate(bs, active, pushed));
                            assert forall|m: Move|
                                (m.origin == origin && m.kind == MoveKind::Pawn(
                                    PawnMove::DoubleStep) && is_pawn_step_candidate(bs, active,
                                    m)) implies out@.contains(m) by {
                                lemma_coords_determine_square(m.destination, two_in_front);
                            }
                        }
                    },
                }
            },
        }
    }

    /// Every pawn push whose origin is `square`, which holds a pawn of the
    /// side to move.
    fn pawn_square_candidates(&self, square: Square, out: &mut Vec<Move>)
        requires
            self.board.wf(),
            pawns_ok(self.cells()),
            at_sq(self.cells(), square.c(), square.r()) == Some(Piece {
                owner: self.active_player,
                kind: PieceKind::Pawn,
            }),
        ensures
            forall|m: Move|
                final(out)@.contains(m) <==> old(out)@.contains(m) || (m.origin == square
                    && is_pawn_step_candidate(self.cells(), self.active_player, m)),
    {
        let ghost bs = self.cells();
        let ghost active = self.active_player;
        let fwd = self.active_player.forwards_one_row();
        match square.plus(fwd) {
            Err(_) => {
                proof {
                    lemma_square_bounds(square);
                    assert(at_sq(bs, square.c(), 8) != Some(Piece {
                        owner: PlayerKind::White,
                        kind: PieceKind::Pawn,
                    }));
                    assert(at_sq(bs, square.c(), 1) != Some(Piece {
                        owner: PlayerKind::Black,
                        kind: PieceKind::Pawn,
                    }));
                    assert(false);
                }
            },
            Ok(one_in_front) => {
                let front_empty = self.board.at(one_in_front).is_none();
                if front_empty {
                    self.pawn_single_steps(square, one_in_front, out);
                }
                self.pawn_double_step(square, out);
                proof {
                    assert forall|m: Move|
                        (m.origin == square && is_pawn_step_candidate(bs, active, m)) implies
                        out@.contains(m) by {
                        match m.kind {
                            MoveKind::Pawn(PawnMove::SingleStep { .. }) => {
                                lemma_coords_determine_square(m.destination, one_in_front);
                            },
                            _ => {},
                        }
                    }
                    assert forall|m: Move|
                        out@.contains(m) && !old(out)@.contains(m) implies (m.origin == square
                        && is_pawn_step_candidate(bs, active, m)) by {}
                }
            },
        }
    }

    /// All pawn single and double pushes of the side to move.
    pub(crate) fn pawn_step_candidates(&self, out: &mut Vec<Move>)
        requires
            self.board.wf(),
            pawns_ok(self.cells()),
        ensures
            forall|m: Move|
                final(out)@.contains(m) <==> old(out)@.contains(m) || is_pawn_step_candidate(
                    self.cells(), self.active_player, m),
    {
        let ghost bs = self.cells();
        let ghost active = self.active_player;
        let ghost out0 = out@;
        let mut i: usize = 0;
        while i < 64
            invariant
                self.board.wf(),
                bs == self.cells(),
                active == self.active_player,
                pawns_ok(bs),
                i <= 64,
                forall|m: Move|
                    #![trigger out@.contains(m)]
                    #![trigger is_pawn_step_candidate(bs, active, m)]
                    out@.contains(m) <==> out0.contains(m) || (is_pawn_step_candidate(bs,
                        active, m) && sq_idx(m.origin.c(), m.origin.r()) < i),
            decreases 64 - i,
        {
            let c: u8 = (i % 8 + 1) as u8;
            let r2: u8 = (8 - i / 8) as u8;
            let square = Square {
                col: crate::coord::Col::from_index(c),
                row: crate::coord::Row::from_index(r2),
            };
            let ghost prev0 = out@;
            proof {
                assert(sq_idx(square.c(), square.r()) == i);
            }
            let pawn_here: bool = match self.board.at(square) {
                Some(p) => p.owner == self.active_player && matches!(p.kind, PieceKind::Pawn),
                None => false,
            };
            if pawn_here {
                self.pawn_square_candidates(square, out);
            } else {
                proof {
                    assert forall|m: Move|
                        !(is_pawn_step_candidate(bs, active, m) && m.origin == square) by {}
                }
            }
            proof {
                assert forall|m: Move|
                    out@.contains(m) implies (out0.contains(m) || (is_pawn_step_candidate(bs,
                    active, m) && sq_idx(m.origin.c(), m.origin.r()) < i + 1)) by {
                    if !prev0.contains(m) {
                        assert(m.origin == square);
                        assert(sq_idx(m.origin.c(), m.origin.r()) == i);
                    }
                }
                assert forall|m: Move|
                    (is_pawn_step_candidate(bs, active, m) && sq_idx(m.origin.c(),
                        m.origin.r()) < i + 1) implies out@.contains(m) by {
                    if sq_idx(m.origin.c(), m.origin.r()) == i {
                        lemma_square_bounds(m.origin);
                        lemma_sq_idx_injective(m.origin.c(), m.origin.r(), square.c(),
                            square.r());
                        lemma_coords_determine_square(m.origin, square);
                    } else {
                        assert(sq_idx(m.origin.c(), m.origin.r()) < i);
                        assert(out0.contains(m) || (is_pawn_step_candidate(bs, active, m)
                            && sq_idx(m.origin.c(), m.origin.r()) < i));
                        assert(prev0.contains(m));
                    }
                }
            }
            i = i + 1;
        }
        proof {
            assert forall|m: Move| is_pawn_step_candidate(bs, active, m) implies sq_idx(
                m.origin.c(), m.origin.r()) < 64 by {
                lemma_square_bounds(m.origin);
            }
        }
    }

    /// Whether the king's castling path on the given side is free of enemy
    /// threats and the squares between king and rook are empty.
    pub(crate) fn are_castle_squares_free_from_checks_and_pieces(&self,
        castling_side: CastlingSide) -> (r: bool)
        requires
            self.board.wf(),
        ensures
            r == castle_path_ok(self.cells(), self.active_player, castling_side),
    {
        let ghost bs = self.cells();
        let ghost active = self.active_player;
        let threatened: Vec<Square> = self.board.threatened_squares_by(
            self.active_player.opponent());
        let transit: Vec<Square> = self.active_player.castling_non_check_needed_squares(
            castling_side);
        let mut no_checks = true;
        let mut i: usize = 0;
        while i < transit.len()
            invariant
                i <= transit@.len(),
                transit@ == castle_transit_spec(active, castling_side),
                forall|s: Square|
                    threatened@.contains(s) <==> attacked(bs, opponent_spec(active), s),
                no_checks <==> forall|j: int|
                    0 <= j < i ==> !attacked(bs, opponent_spec(active), #[trigger] transit@[j]),
            decreases transit@.len() - i,
        {
            if vec_contains_square(&threatened, transit[i]) {
                no_checks = false;
            }
            i = i + 1;
        }
        let free: Vec<Square> = self.active_player.castling_free_needed_squares(castling_side);
        let mut no_pieces = true;
        let mut j: usize = 0;
        while j < free.len()
            invariant
                self.board.wf(),
                bs == self.cells(),
                j <= free@.len(),
                free@ == castle_free_spec(active, castling_side),
                no_pieces <==> forall|k: int|
                    0 <= k < j ==> at_sq(bs, #[trigger] free@[k].c(), free@[k].r()) is None,
            decreases free@.len() - j,
        {
            if self.board.at(free[j]).is_some() {
                no_pieces = false;
            }
            j = j + 1;
        }
        no_checks && no_pieces
    }

    /// The castling moves currently available: per side, the right must be
    /// kept and the path must be safe and free.
    pub(crate) fn castle_candidates(&self, out: &mut Vec<Move>)
        requires
            self.board.wf(),
        ensures
            forall|m: Move|
                final(out)@.contains(m) <==> old(out)@.contains(m) || is_castle_candidate(
                    self.cells(), self.active_player, self.castling_rights, m),
    {
        let ghost bs = self.cells();
        let ghost active = self.active_player;
        let ghost rights = self.castling_rights;
        let ghost prev0 = out@;
        if self.has_castling_right(CastlingSide::Kingside)
            && self.are_castle_squares_free_from_checks_and_pieces(CastlingSide::Kingside) {
            let ghost prev = out@;
            let pushed = Move {
                kind: MoveKind::King(KingMove::Castle {
                    rook_start: self.active_player.rook_start(CastlingSide::Kingside),
                    rook_target: self.active_player.rook_castling_target(
                        CastlingSide::Kingside),
                    castling_side: CastlingSide::Kingside,
                }),
                origin: self.active_player.king_start(),
                destination: self.active_player.king_castling_target(CastlingSide::Kingside),
            };
            out.push(pushed);
            proof {
                lemma_push_contains(prev, out@, pushed);
            }
        }
        if self.has_castling_right(CastlingSide::Queenside)
            && self.are_castle_squares_free_from_checks_and_pieces(CastlingSide::Queenside) {
            let ghost prev = out@;
            let pushed = Move {
                kind: MoveKind::King(KingMove::Castle {
                    rook_start: self.active_player.rook_start(CastlingSide::Queenside),
                    rook_target: self.active_player.rook_castling_target(
                        CastlingSide::Queenside),
                    castling_side: CastlingSide::Queenside,
                }),
                origin: self.active_player.king_start(),
                destination: self.active_player.king_castling_target(CastlingSide::Queenside),
            };
            out.push(pushed);
            proof {
                lemma_push_contains(prev, out@, pushed);
            }
        }
    }
}

impl GameStateCore {
    /// Every legal move of the position: the three candidate streams
    /// (threats, pawn pushes, castling), filtered by king safety. A move
    /// is in the result exactly when it is legal, each exactly once, so
    /// the length is the number of legal moves.
    pub fn legal_moves(&self) -> (r: Vec<Move>)
        requires
            self.movegen_wf(),
        ensures
            forall|m: Move|
                r@.contains(m) <==> is_legal(self.cells(), self.active_player,
                    self.castling_rights, self.en_passant_target, m),
            r@.no_duplicates(),
            legal_move_set(self.cells(), self.active_player, self.castling_rights,
                self.en_passant_target).finite(),
            r@.len() == legal_move_set(self.cells(), self.active_player, self.castling_rights,
                self.en_passant_target).len(),
    {
        let ghost bs = self.cells();
        let ghost active = self.active_player;
        let ghost rights = self.castling_rights;
        let ghost ep = self.en_passant_target;
        let mut candidates: Vec<Move> = Vec::new();
        let threats: Vec<Threat> = self.board.threatening_moves_by(self.active_player);
        let mut ti: usize = 0;
        while ti < threats.len()
            invariant
                self.board.wf(),
                bs == self.cells(),
                active == self.active_player,
                ep == self.en_passant_target,
                ep_wf(bs, active, ep),
                forall|t: Threat| threats@.contains(t) <==> is_threat_full(bs, active, t),
                ti <= threats@.len(),
                forall|m: Move|
                    #![trigger candidates@.contains(m)]
                    #![trigger is_threat_move_candidate(bs, active, ep, m)]
                    candidates@.contains(m) <==> (is_threat_move_candidate(bs, active, ep, m)
                        && contains_prefix(threats@, ti as int, threat_of(bs, m))),
            decreases threats@.len() - ti,
        {
            let t = threats[ti];
            proof {
                assert(threats@.contains(t));
            }
            self.threat_to_move_candidates(t, &mut candidates);
            proof {
                assert forall|m: Move|
                    candidates@.contains(m) implies (is_threat_move_candidate(bs, active, ep,
                    m) && contains_prefix(threats@, ti + 1, threat_of(bs, m))) by {
                    if m.origin == t.origin && m.destination == t.destination
                        && is_threat_move_candidate(bs, active, ep, m) {
                        assert(threat_of(bs, m) == t);
                        assert(threats@[ti as int] == threat_of(bs, m));
                    } else {
                        let j = choose|j: int|
                            0 <= j < ti && threats@[j] == threat_of(bs, m);
                    }
                }
                assert forall|m: Move|
                    (is_threat_move_candidate(bs, active, ep, m) && contains_prefix(threats@,
                        ti + 1, threat_of(bs, m))) implies candidates@.contains(m) by {
                    let j = choose|j: int| 0 <= j < ti + 1 && threats@[j] == threat_of(bs, m);
                    if j == ti {
                        assert(m.origin == t.origin && m.destination == t.destination);
                    }
                }
            }
            ti = ti + 1;
        }
        proof {
            assert forall|m: Move|
                candidates@.contains(m) <==> is_threat_move_candidate(bs, active, ep, m) by {
                if is_threat_move_candidate(bs, active, ep, m) {
                    assert(is_threat_full(bs, active, threat_of(bs, m)));
                    assert(threats@.contains(threat_of(bs, m)));
                    let j = choose|j: int|
                        0 <= j < threats@.len() && threats@[j] == threat_of(bs, m);
                }
            }
        }
        self.pawn_step_candidates(&mut candidates);
        self.castle_candidates(&mut candidates);
        let ghost canseq = candidates@;
        proof {
            assert(forall|m: Move|
                canseq.contains(m) <==> is_candidate(bs, active, rights, ep, m));
        }
        let mut result: Vec<Move> = Vec::new();
        let mut i: usize = 0;
        while i < candidates.len()
            invariant
                self.board.wf(),
                bs == self.cells(),
                active == self.active_player,
                rights == self.castling_rights,
                ep == self.en_passant_target,
                ep_wf(bs, active, ep),
                king_count(bs, active) == 1,
                canseq == candidates@,
                forall|m: Move| canseq.contains(m) <==> is_candidate(bs, active, rights, ep, m),
                i <= canseq.len(),
                result@.no_duplicates(),
                forall|m: Move|
                    #![trigger result@.contains(m)]
                    #![trigger is_legal(bs, active, rights, ep, m)]
                    result@.contains(m) <==> (is_legal(bs, active, rights, ep, m)
                        && contains_prefix(canseq, i as int, m)),
            decreases canseq.len() - i,
        {
            let mv = candidates[i];
            proof {
                assert(canseq.contains(mv));
                lemma_candidate_preserves_kings(bs, active, rights, ep, mv);
            }
            let nb = self.board.with_move_applied(mv);
            let checked = nb.is_king_checked(self.active_player);
            if !checked && !crate::game::moves_contain(&result, mv) {
                let ghost prev = result@;
                result.push(mv);
                proof {
                    lemma_push_contains(prev, result@, mv);
                    assert(is_legal(bs, active, rights, ep, mv));
                    assert(result@.no_duplicates()) by {
                        assert forall|x: int, y: int|
                            0 <= x < y < result@.len() implies result@[x] != result@[y] by {
                            if y == prev.len() {
                                if result@[x] == mv {
                                    assert(prev[x] == mv);
                                    assert(prev.contains(mv));
                                }
                            }
                        }
                    }
                    assert forall|m: Move|
                        result@.contains(m) implies (is_legal(bs, active, rights, ep, m)
                        && contains_prefix(canseq, i + 1, m)) by {
                        if m == mv {
                            assert(canseq[i as int] == m);
                        } else {
                            let j = choose|j: int| 0 <= j < i && canseq[j] == m;
                        }
                    }
                    assert forall|m: Move|
                        (is_legal(bs, active, rights, ep, m) && contains_prefix(canseq, i + 1,
                            m)) implies result@.contains(m) by {
                        let j = choose|j: int| 0 <= j < i + 1 && canseq[j] == m;
                    }
                }
            } else if !checked {
                // the move is legal but was already collected
                proof {
                    assert(is_legal(bs, active, rights, ep, mv));
                    assert forall|m: Move|
                        (is_legal(bs, active, rights, ep, m) && contains_prefix(canseq, i + 1,
                            m)) implies result@.contains(m) by {
                        let j = choose|j: int| 0 <= j < i + 1 && canseq[j] == m;
                        if j == i {
                            assert(m == mv);
                        }
                    }
                    assert forall|m: Move|
                        result@.contains(m) implies (is_legal(bs, active, rights, ep, m)
                        && contains_prefix(canseq, i + 1, m)) by {
                        let j = choose|j: int| 0 <= j < i && canseq[j] == m;
                    }
                }
            } else {
                proof {
                    assert(!is_legal(bs, active, rights, ep, mv));
                    assert forall|m: Move|
                        (is_legal(bs, active, rights, ep, m) && contains_prefix(canseq, i + 1,
                            m)) implies result@.contains(m) by {
                        let j = choose|j: int| 0 <= j < i + 1 && canseq[j] == m;
                        if j == i {
                            assert(m == mv);
                        }
                    }
                    assert forall|m: Move|
                        result@.contains(m) implies (is_legal(bs, active, rights, ep, m)
                        && contains_prefix(canseq, i + 1, m)) by {
                        let j = choose|j: int| 0 <= j < i && canseq[j] == m;
                    }
                }
            }
            i = i + 1;
        }
        proof {
            assert forall|m: Move|
                result@.contains(m) <==> is_legal(bs, active, rights, ep, m) by {
                if is_legal(bs, active, rights, ep, m) {
                    assert(canseq.contains(m));
                    let j = choose|j: int| 0 <= j < canseq.len() && canseq[j] == m;
                }
            }
            broadcast use vstd::seq_lib::seq_to_set_is_finite;

            assert(result@.to_set() =~= legal_move_set(bs, active, rights, ep));
            result@.unique_seq_to_set();
        }
        result
    }
}

/// What a move-tree enumeration found: how many games went on at the
/// horizon, and how many ended in mate or a draw on the way.
#[derive(Debug, Copy, Clone, PartialEq, Eq, Structural)]
pub struct SearchStats {
    pub continued_games: usize,
    pub checkmated_games: usize,
    pub drawn_games: usize,
}

/// A copy of a move list.
fn copy_moves(v: &Vec<Move>) -> (r: Vec<Move>)
    ensures
        r@ == v@,
{
    let mut out: Vec<Move> = Vec::new();
    let mut i: usize = 0;
    while i < v.len()
        invariant
            i <= v@.len(),
            out@ == v@.take(i as int),
        decreases v@.len() - i,
    {
        out.push(v[i]);
        proof {
            assert(out@ =~= v@.take(i + 1));
        }
        i = i + 1;
    }
    proof {
        assert(v@.take(v@.len() as int) =~= v@);
    }
    out
}

/// Relies on rand::random_range: a value drawn uniformly from the given
/// range, which must not be empty; the result lies within it.
#[verifier::external_body]
fn random_index(len: usize) -> (r: usize)
    requires
        len > 0,
    ensures
        r < len,
{
    rand::random_range(0..len)
}

impl crate::game::GameState {
    /// A deep copy: the same position, history and rule set.
    pub fn duplicate(&self) -> (r: crate::game::GameState)
        requires
            self.core.board.wf(),
            crate::game::history_wf(self.position_history@),
        ensures
            r.core.board.squares@ == self.core.board.squares@,
            r.core.fifty_move_rule_clock == self.core.fifty_move_rule_clock,
            r.core.castling_rights == self.core.castling_rights,
            r.core.en_passant_target == self.core.en_passant_target,
            r.core.active_player == self.core.active_player,
            r.core.full_move_count == self.core.full_move_count,
            r.rule_set == self.rule_set,
            r.position_history@.len() == self.position_history@.len(),
            forall|i: int|
                0 <= i < self.position_history@.len() ==> (#[trigger] r.position_history@[i])
                    .board.squares@ == self.position_history@[i].board.squares@
                    && r.position_history@[i].board.wf() && r.position_history@[i]
                    .possible_moves@ == self.position_history@[i].possible_moves@
                    && r.position_history@[i].castling_rights == self.position_history@[i]
                    .castling_rights,
    {
        let core = GameStateCore {
            board: self.core.board.duplicate(),
            fifty_move_rule_clock: self.core.fifty_move_rule_clock,
            castling_rights: self.core.castling_rights,
            en_passant_target: self.core.en_passant_target,
            active_player: self.core.active_player,
            full_move_count: self.core.full_move_count,
        };
        let mut history: Vec<crate::game::Position> = Vec::new();
        let mut i: usize = 0;
        while i < self.position_history.len()
            invariant
                self.core.board.wf(),
                crate::game::history_wf(self.position_history@),
                i <= self.position_history@.len(),
                history@.len() == i,
                forall|k: int|
                    0 <= k < i ==> (#[trigger] history@[k]).board.squares@
                        == self.position_history@[k].board.squares@ && history@[k].board.wf()
                        && history@[k].possible_moves@ == self.position_history@[k]
                        .possible_moves@ && history@[k].castling_rights
                        == self.position_history@[k].castling_rights,
            decreases self.position_history@.len() - i,
        {
            proof {
                assert(self.position_history@[i as int].board.wf());
            }
            let entry = crate::game::Position {
                board: self.position_history[i].board.duplicate(),
                possible_moves: copy_moves(&self.position_history[i].possible_moves),
                castling_rights: self.position_history[i].castling_rights,
            };
            history.push(entry);
            i = i + 1;
        }
        crate::game::GameState { core, position_history: history, rule_set: self.rule_set }
    }

    /// Enumerate the move tree to the given depth, stepping every legal
    /// move of every game still running, and count what was found. The
    /// counters saturate rather than wrap; at the first level they are
    /// exact: the outcomes counted are one per legal move.
    pub fn search(self, max_depth: u32) -> (r: SearchStats)
        requires
            max_depth < u32::MAX,
            crate::game::core_wf(self.core),
            crate::game::history_wf(self.position_history@),
            self.core.full_move_count.0 + max_depth < u64::MAX,
            self.core.fifty_move_rule_clock.0 + max_depth < u64::MAX,
        ensures
            max_depth == 0 ==> r.checkmated_games + r.drawn_games + r.continued_games
                == legal_move_set(self.core.cells(), self.core.active_player,
                self.core.castling_rights, self.core.en_passant_target).len(),
    {
        let ghost core0 = self.core;
        let ghost n0 = legal_move_set(self.core.cells(), self.core.active_player,
            self.core.castling_rights, self.core.en_passant_target).len();
        let ghost fmc0 = self.core.full_move_count.0;
        let ghost clock0 = self.core.fifty_move_rule_clock.0;
        let mut checkmated: usize = 0;
        let mut drawn: usize = 0;
        let mut continued_games: Vec<crate::game::GameState> = Vec::new();
        continued_games.push(self);
        let mut depth: u32 = 0;
        while depth <= max_depth
            invariant
                max_depth < u32::MAX,
                depth <= max_depth + 1,
                fmc0 + max_depth < u64::MAX,
                clock0 + max_depth < u64::MAX,
                forall|i: int|
                    0 <= i < continued_games@.len() ==> crate::game::core_wf(
                        (#[trigger] continued_games@[i]).core) && crate::game::history_wf(
                        continued_games@[i].position_history@) && continued_games@[i]
                        .core.full_move_count.0 <= fmc0 + depth && continued_games@[i]
                        .core.fifty_move_rule_clock.0 <= clock0 + depth,
                max_depth == 0 ==> n0 == legal_move_set(core0.cells(), core0.active_player,
                    core0.castling_rights, core0.en_passant_target).len(),
                max_depth == 0 && depth == 0 ==> checkmated == 0 && drawn == 0
                    && continued_games@.len() == 1 && continued_games@[0].core == core0,
                max_depth == 0 && depth == 1 ==> checkmated + drawn + continued_games@.len()
                    == n0,
            decreases max_depth + 1 - depth,
        {
            let mut new_continued: Vec<crate::game::GameState> = Vec::new();
            let mut gi: usize = 0;
            while gi < continued_games.len()
                invariant
                    depth <= max_depth,
                    fmc0 + max_depth < u64::MAX,
                    clock0 + max_depth < u64::MAX,
                    gi <= continued_games@.len(),
                    forall|i: int|
                        0 <= i < continued_games@.len() ==> crate::game::core_wf(
                            (#[trigger] continued_games@[i]).core) && crate::game::history_wf(
                            continued_games@[i].position_history@) && continued_games@[i]
                            .core.full_move_count.0 <= fmc0 + depth && continued_games@[i]
                            .core.fifty_move_rule_clock.0 <= clock0 + depth,
                    forall|i: int|
                        0 <= i < new_continued@.len() ==> crate::game::core_wf(
                            (#[trigger] new_continued@[i]).core) && crate::game::history_wf(
                            new_continued@[i].position_history@) && new_continued@[i]
                            .core.full_move_count.0 <= fmc0 + depth + 1 && new_continued@[i]
                            .core.fifty_move_rule_clock.0 <= clock0 + depth + 1,
                    max_depth == 0 ==> continued_games@.len() == 1 && continued_games@[0].core
                        == core0 && n0 == legal_move_set(core0.cells(), core0.active_player,
                        core0.castling_rights, core0.en_passant_target).len(),
                    max_depth == 0 && gi == 0 ==> checkmated == 0 && drawn == 0
                        && new_continued@.len() == 0,
                    max_depth == 0 && gi == 1 ==> checkmated + drawn + new_continued@.len()
                        == n0,
                decreases continued_games@.len() - gi,
            {
                let game = &continued_games[gi];
                let legal = game.core.legal_moves();
                proof {
                    if max_depth == 0 {
                        assert(gi == 0);
                        assert(continued_games@[0].core == core0);
                        assert(legal@.len() == legal_move_set(
                            continued_games@[0].core.cells(),
                            continued_games@[0].core.active_player,
                            continued_games@[0].core.castling_rights,
                            continued_games@[0].core.en_passant_target).len());
                        assert(legal_move_set(continued_games@[0].core.cells(),
                            continued_games@[0].core.active_player,
                            continued_games@[0].core.castling_rights,
                            continued_games@[0].core.en_passant_target) =~= legal_move_set(
                            core0.cells(), core0.active_player, core0.castling_rights,
                            core0.en_passant_target));
                        assert(legal@.len() == n0);
                    }
                }
                let mut mi: usize = 0;
                while mi < legal.len()
                    invariant
                        depth <= max_depth,
                        fmc0 + max_depth < u64::MAX,
                        clock0 + max_depth < u64::MAX,
                        gi < continued_games@.len(),
                        mi <= legal@.len(),
                        crate::game::core_wf(continued_games@[gi as int].core),
                        crate::game::history_wf(continued_games@[gi as int].position_history@),
                        continued_games@[gi as int].core.full_move_count.0 <= fmc0 + depth,
                        continued_games@[gi as int].core.fifty_move_rule_clock.0 <= clock0
                            + depth,
                        forall|m: Move|
                            legal@.contains(m) <==> is_legal(
                                continued_games@[gi as int].core.cells(),
                                continued_games@[gi as int].core.active_player,
                                continued_games@[gi as int].core.castling_rights,
                                continued_games@[gi as int].core.en_passant_target, m),
                        forall|i: int|
                            0 <= i < new_continued@.len() ==> crate::game::core_wf(
                                (#[trigger] new_continued@[i]).core)
                                && crate::game::history_wf(
                                new_continued@[i].position_history@) && new_continued@[i]
                                .core.full_move_count.0 <= fmc0 + depth + 1
                                && new_continued@[i].core.fifty_move_rule_clock.0 <= clock0
                                + depth + 1,
                        max_depth == 0 ==> gi == 0 && legal@.len() == n0 && checkmated + drawn
                            + new_continued@.len() == mi,
                    decreases legal@.len() - mi,
                {
                    let mv = legal[mi];
                    proof {
                        assert(legal@.contains(mv));
                        if max_depth == 0 {
                            assert(checkmated + drawn + new_continued@.len() < legal@.len());
                        }
                    }
                    let game_copy = continued_games[gi].duplicate();
                    let legal_copy = copy_moves(&legal);
                    match game_copy.step(mv, legal_copy) {
                        crate::game::StepResult::Continued(next) => {
                            new_continued.push(next);
                        },
                        crate::game::StepResult::Terminated(gr) => {
                            match gr.kind {
                                crate::game::GameResultKind::Win => {
                                    if checkmated < usize::MAX {
                                        checkmated = checkmated + 1;
                                    } else {
                                        proof {
                                            if max_depth == 0 {
                                                assert(false);
                                            }
                                        }
                                    }
                                },
                                crate::game::GameResultKind::Draw(_) => {
                                    if drawn < usize::MAX {
                                        drawn = drawn + 1;
                                    } else {
                                        proof {
                                            if max_depth == 0 {
                                                assert(false);
                                            }
                                        }
                                    }
                                },
                            }
                        },
                    }
                    mi = mi + 1;
                }
                gi = gi + 1;
            }
            continued_games = new_continued;
            depth = depth + 1;
        }
        SearchStats {
            continued_games: continued_games.len(),
            checkmated_games: checkmated,
            drawn_games: drawn,
        }
    }

    /// Play random legal moves until the game ends or the depth runs out;
    /// the walk returns the terminal result, or the game still running
    /// after exactly `max_depth` plies, each on record under the standard
    /// rules.
    pub fn random_walk(self, max_depth: u32) -> (r: crate::game::StepResult)
        requires
            crate::game::core_wf(self.core),
            crate::game::history_wf(self.position_history@),
            exists_legal(self.core.cells(), self.core.active_player, self.core.castling_rights,
                self.core.en_passant_target),
            self.core.full_move_count.0 + max_depth < u64::MAX,
            self.core.fifty_move_rule_clock.0 + max_depth < u64::MAX,
        ensures
            match r {
                crate::game::StepResult::Continued(g) => crate::game::core_wf(g.core)
                    && g.rule_set == self.rule_set && (self.rule_set
                    == crate::game::RuleSet::Standard ==> g.position_history@.len()
                    == self.position_history@.len() + max_depth),
                crate::game::StepResult::Terminated(_) => true,
            },
    {
        let ghost fmc0 = self.core.full_move_count.0;
        let ghost clock0 = self.core.fifty_move_rule_clock.0;
        let ghost rules0 = self.rule_set;
        let ghost hist0_len = self.position_history@.len();
        let mut game = self;
        let mut depth: u32 = 0;
        while depth < max_depth
            invariant
                depth <= max_depth,
                crate::game::core_wf(game.core),
                crate::game::history_wf(game.position_history@),
                exists_legal(game.core.cells(), game.core.active_player,
                    game.core.castling_rights, game.core.en_passant_target),
                game.core.full_move_count.0 <= fmc0 + depth,
                game.core.fifty_move_rule_clock.0 <= clock0 + depth,
                fmc0 + max_depth < u64::MAX,
                clock0 + max_depth < u64::MAX,
                game.rule_set == rules0,
                rules0 == crate::game::RuleSet::Standard ==> game.position_history@.len()
                    == hist0_len + depth,
                rules0 != crate::game::RuleSet::Standard ==> game.position_history@.len()
                    == hist0_len,
            decreases max_depth - depth,
        {
            let legal = game.core.legal_moves();
            proof {
                let w = choose|m: Move|
                    is_legal(game.core.cells(), game.core.active_player,
                        game.core.castling_rights, game.core.en_passant_target, m);
                assert(legal@.contains(w));
            }
            let idx = random_index(legal.len());
            let mv = legal[idx];
            proof {
                assert(legal@.contains(mv));
            }
            match game.step(mv, legal) {
                crate::game::StepResult::Continued(next) => {
                    game = next;
                },
                crate::game::StepResult::Terminated(gr) => {
                    return crate::game::StepResult::Terminated(gr);
                },
            }
            depth = depth + 1;
        }
        crate::game::StepResult::Continued(game)
    }
}

impl Board {
    /// The board after the move, built without touching this one.
    pub fn with_move_applied(&self, m: Move) -> (r: Board)
        requires
            self.wf(),
        ensures
            r.wf(),
            r.squares@ == apply_move_spec(self.squares@, m),
    {
        let mut b = self.duplicate();
        b.mov(m.origin, m.destination);
        match m.kind {
            MoveKind::Pawn(PawnMove::EnPassant { affected }) => {
                b.set(affected, None);
            },
            MoveKind::Pawn(PawnMove::SingleStep { promotion_replacement: Some(rep) }) => {
                b.set(m.destination, Some(rep));
            },
            MoveKind::Pawn(PawnMove::Capture { promotion_replacement: Some(rep) }) => {
                b.set(m.destination, Some(rep));
            },
            MoveKind::King(KingMove::Castle { rook_start, rook_target, .. }) => {
                b.mov(rook_start, rook_target);
            },
            _ => {},
        }
        b
    }

    /// Apply the move to this board in place.
    pub fn apply_move(&mut self, m: Move)
        requires
            old(self).wf(),
        ensures
            final(self).wf(),
            final(self).squares@ == apply_move_spec(old(self).squares@, m),
    {
        let b = self.with_move_applied(m);
        *self = b;
    }
}

} // verus!
