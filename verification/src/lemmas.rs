//! The library's stated laws, proved once and for all: what legality
//! guarantees, how rights evolve, and that the notations invert.
use vstd::prelude::*;
use crate::board::at_sq;
use crate::board::attacked;
use crate::board::in_check;
use crate::coord::Square;
use crate::fen::castling_fen_spec;
use crate::fen::castling_parse_spec;
use crate::fen::col_char;
use crate::fen::col_from_int;
use crate::fen::piece_char;
use crate::fen::piece_of_char;
use crate::fen::player_parse_spec;
use crate::fen::row_char;
use crate::fen::row_from_int;
use crate::fen::square_fen_spec;
use crate::fen::square_parse_spec;
use crate::game::CastlingRights;
use crate::game::CastlingSide;
use crate::game::ep_wf;
use crate::game::has_right_spec;
use crate::game::rights_after;
use crate::game::rights_subset;
use crate::move_gen::apply_move_spec;
use crate::move_gen::is_candidate;
use crate::move_gen::is_castle_candidate;
use crate::move_gen::is_legal;
use crate::move_gen::is_pawn_step_candidate;
use crate::move_gen::lemma_apply_cell;
use crate::mv::capture_affected_square_spec;
use crate::mv::KingMove;
use crate::mv::Move;
use crate::mv::MoveKind;
use crate::mv::PawnMove;
use crate::piece::Piece;
use crate::piece::PieceKind;
use crate::piece::promotion_kinds;
use crate::player::castle_transit_spec;
use crate::player::forward_spec;
use crate::player::opponent_spec;
use crate::player::pawn_promotion_row_spec;
use crate::player::pawn_start_row_spec;
use crate::player::PlayerKind;

verus! {

/// A legal move never leaves the mover's own king in check: the post-move
/// board never has the mover's king on an attacked square.
pub proof fn lemma_king_never_captured(bs: Seq<Option<Piece>>, active: PlayerKind,
    rights: CastlingRights, ep: Option<Square>, m: Move)
    requires
        is_legal(bs, active, rights, ep, m),
    ensures
        !in_check(apply_move_spec(bs, m), active),
{
}

/// Castling rights only ever shrink: whatever a move leaves is a subset of
/// what stood before it.
pub proof fn lemma_castling_rights_monotone(rights: CastlingRights, active: PlayerKind,
    m: Move)
    ensures
        rights_subset(rights_after(rights, active, m), rights),
{
}

/// A capture whose affected square is the opponent's rook start revokes
/// the opponent's castling on that side, whatever happened before.
pub proof fn lemma_rook_capture_revokes_right(rights: CastlingRights, active: PlayerKind,
    m: Move, side: CastlingSide)
    requires
        capture_affected_square_spec(m) == Some(crate::player::rook_start_spec(opponent_spec(
            active), side)),
    ensures
        !has_right_spec(rights_after(rights, active, m), opponent_spec(active), side),
{
}

/// A pawn on its starting rank with both forward squares empty offers the
/// single step and the double step alike.
pub proof fn lemma_pawn_single_and_double(bs: Seq<Option<Piece>>, active: PlayerKind,
    origin: Square, mid: Square, dst: Square)
    requires
        at_sq(bs, origin.c(), origin.r()) == Some(Piece {
            owner: active,
            kind: PieceKind::Pawn,
        }),
        origin.r() == pawn_start_row_spec(active),
        mid.c() == origin.c(),
        mid.r() == origin.r() + forward_spec(active),
        dst.c() == origin.c(),
        dst.r() == origin.r() + 2 * forward_spec(active),
        at_sq(bs, mid.c(), mid.r()) is None,
        at_sq(bs, dst.c(), dst.r()) is None,
    ensures
        is_pawn_step_candidate(bs, active, Move {
            kind: MoveKind::Pawn(PawnMove::SingleStep { promotion_replacement: None }),
            origin,
            destination: mid,
        }),
        is_pawn_step_candidate(bs, active, Move {
            kind: MoveKind::Pawn(PawnMove::DoubleStep),
            origin,
            destination: dst,
        }),
{
}

/// A pawn one step short of its promotion rank, with the square in front
/// empty, offers a single step for each of the four replacement pieces.
pub proof fn lemma_promotion_choices(bs: Seq<Option<Piece>>, active: PlayerKind,
    origin: Square, front: Square, kind: PieceKind)
    requires
        at_sq(bs, origin.c(), origin.r()) == Some(Piece {
            owner: active,
            kind: PieceKind::Pawn,
        }),
        front.c() == origin.c(),
        front.r() == origin.r() + forward_spec(active),
        front.r() == pawn_promotion_row_spec(active),
        at_sq(bs, front.c(), front.r()) is None,
        promotion_kinds().contains(kind),
    ensures
        is_pawn_step_candidate(bs, active, Move {
            kind: MoveKind::Pawn(PawnMove::SingleStep {
                promotion_replacement: Some(Piece { owner: active, kind }),
            }),
            origin,
            destination: front,
        }),
{
}

/// Castling is denied while any square of the king's path is attacked,
/// even an empty one: no such castle is ever legal.
pub proof fn lemma_castle_denied_through_check(bs: Seq<Option<Piece>>, active: PlayerKind,
    rights: CastlingRights, ep: Option<Square>, m: Move, side: CastlingSide, i: int)
    requires
        m.kind matches MoveKind::King(KingMove::Castle { castling_side, .. })
            && castling_side == side,
        0 <= i < castle_transit_spec(active, side).len(),
        attacked(bs, opponent_spec(active), castle_transit_spec(active, side)[i]),
    ensures
        !is_legal(bs, active, rights, ep, m),
{
    if is_candidate(bs, active, rights, ep, m) {
        assert(is_castle_candidate(bs, active, rights, m));
    }
}

/// The en-passant capture clears the square on the file of its
/// destination and the rank of its origin - never the destination, where
/// the capturing pawn lands.
pub proof fn lemma_en_passant_clears_victim(bs: Seq<Option<Piece>>, active: PlayerKind,
    rights: CastlingRights, ep: Option<Square>, m: Move, affected: Square)
    requires
        bs.len() == 64,
        ep_wf(bs, active, ep),
        is_candidate(bs, active, rights, ep, m),
        m.kind == MoveKind::Pawn(PawnMove::EnPassant { affected }),
    ensures
        affected.c() == m.destination.c(),
        affected.r() == m.origin.r(),
        at_sq(apply_move_spec(bs, m), affected.c(), affected.r()) is None,
        at_sq(apply_move_spec(bs, m), m.destination.c(), m.destination.r()) == Some(Piece {
            owner: active,
            kind: PieceKind::Pawn,
        }),
        at_sq(apply_move_spec(bs, m), m.origin.c(), m.origin.r()) is None,
{
    let o = m.origin;
    let d = m.destination;
    crate::board::lemma_square_bounds(o);
    crate::board::lemma_square_bounds(d);
    crate::board::lemma_square_bounds(affected);
    assert(crate::move_gen::is_threat_move_candidate(bs, active, ep, m));
    crate::move_gen::lemma_pawn_threat_changes_file(bs, active, o, d);
    lemma_apply_cell(bs, m, crate::board::sq_idx(affected.c(), affected.r()));
    lemma_apply_cell(bs, m, crate::board::sq_idx(d.c(), d.r()));
    lemma_apply_cell(bs, m, crate::board::sq_idx(o.c(), o.r()));
    if crate::board::sq_idx(d.c(), d.r()) == crate::board::sq_idx(affected.c(), affected.r()) {
        crate::board::lemma_sq_idx_injective(d.c(), d.r(), affected.c(), affected.r());
    }
    if crate::board::sq_idx(o.c(), o.r()) == crate::board::sq_idx(affected.c(), affected.r()) {
        crate::board::lemma_sq_idx_injective(o.c(), o.r(), affected.c(), affected.r());
    }
}

/// Reading back the run-length encoding of some cells consumes it
/// entirely and appends exactly those cells.
#[verifier::rlimit(100)]
proof fn lemma_rle_parses(cells: Seq<Option<Piece>>, p: int, rest: Seq<u8>, row_len: int,
    rows_done: int, acc: Seq<Option<Piece>>)
    requires
        0 <= p,
        0 <= row_len,
        row_len + p + cells.len() <= 8,
    ensures
        crate::fen::board_parse_rec(crate::fen::rle_row(cells, p) + rest, row_len, rows_done,
            acc) == crate::fen::board_parse_rec(rest, row_len + p + cells.len(), rows_done, acc
            + crate::fen::empties(p) + cells),
    decreases cells.len(),
{
    let lhs_s = crate::fen::rle_row(cells, p) + rest;
    if cells.len() == 0 {
        if p == 0 {
            assert(crate::fen::rle_row(cells, p) + rest =~= rest);
            assert(acc + crate::fen::empties(0) + cells =~= acc);
            assert(crate::fen::board_parse_rec(crate::fen::rle_row(cells, p) + rest, row_len, rows_done,
            acc) == crate::fen::board_parse_rec(rest, row_len + p + cells.len(), rows_done, acc
            + crate::fen::empties(p) + cells));
        } else {
            let digit = (p + 48) as u8;
            assert(lhs_s[0] == digit);
            assert(lhs_s.skip(1) =~= rest);
            assert(acc + crate::fen::empties(p) + cells =~= acc + crate::fen::empties(p));
            assert(crate::fen::board_parse_rec(crate::fen::rle_row(cells, p) + rest, row_len, rows_done,
            acc) == crate::fen::board_parse_rec(rest, row_len + p + cells.len(), rows_done, acc
            + crate::fen::empties(p) + cells));
        }
    } else {
        match cells[0] {
            None => {
                assert(crate::fen::rle_row(cells, p) == crate::fen::rle_row(cells.skip(1), p
                    + 1));
                lemma_rle_parses(cells.skip(1), p + 1, rest, row_len, rows_done, acc);
                assert(acc + crate::fen::empties(p + 1) + cells.skip(1) =~= acc
                    + crate::fen::empties(p) + cells);
                assert(crate::fen::board_parse_rec(crate::fen::rle_row(cells, p) + rest, row_len, rows_done,
            acc) == crate::fen::board_parse_rec(rest, row_len + p + cells.len(), rows_done, acc
            + crate::fen::empties(p) + cells));
            },
            Some(q) => {
                let ch = crate::fen::piece_char(q);
                lemma_piece_fen_round_trip(q);
                assert(!(49 <= ch <= 56) && ch != 47);
                let tail = seq![ch] + crate::fen::rle_row(cells.skip(1), 0) + rest;
                if p > 0 {
                    let digit = (p + 48) as u8;
                    assert(crate::fen::rle_row(cells, p) == seq![digit] + seq![ch]
                        + crate::fen::rle_row(cells.skip(1), 0));
                    assert(lhs_s[0] == digit);
                    assert(lhs_s.skip(1) =~= tail);
                    // the digit adds its empties, then the piece letter
                    assert(tail[0] == ch);
                    assert(tail.skip(1) =~= crate::fen::rle_row(cells.skip(1), 0) + rest);
                    assert(crate::fen::board_parse_rec(lhs_s, row_len, rows_done, acc)
                        == crate::fen::board_parse_rec(tail, row_len + p, rows_done, acc
                        + crate::fen::empties(p)));
                    assert(crate::fen::board_parse_rec(tail, row_len + p, rows_done, acc
                        + crate::fen::empties(p)) == crate::fen::board_parse_rec(tail.skip(1),
                        row_len + p + 1, rows_done, (acc + crate::fen::empties(p)).push(Some(
                        q))));
                    lemma_rle_parses(cells.skip(1), 0, rest, row_len + p + 1, rows_done, acc
                        + crate::fen::empties(p) + seq![Some(q)]);
                    assert(acc + crate::fen::empties(p) + seq![Some(q)]
                        + crate::fen::empties(0) + cells.skip(1) =~= acc
                        + crate::fen::empties(p) + cells);
                    assert((acc + crate::fen::empties(p)).push(Some(q)) =~= acc
                        + crate::fen::empties(p) + seq![Some(q)]);
                    assert(crate::fen::board_parse_rec(crate::fen::rle_row(cells, p) + rest, row_len, rows_done,
            acc) == crate::fen::board_parse_rec(rest, row_len + p + cells.len(), rows_done, acc
            + crate::fen::empties(p) + cells));
                } else {
                    assert(crate::fen::rle_row(cells, p) == seq![ch] + crate::fen::rle_row(
                        cells.skip(1), 0));
                    assert(lhs_s[0] == ch);
                    assert(lhs_s.skip(1) =~= crate::fen::rle_row(cells.skip(1), 0) + rest);
                    lemma_rle_parses(cells.skip(1), 0, rest, row_len + 1, rows_done, acc.push(
                        Some(q)));
                    assert(acc.push(Some(q)) + crate::fen::empties(0) + cells.skip(1) =~= acc
                        + crate::fen::empties(0) + cells);
                    assert(crate::fen::board_parse_rec(crate::fen::rle_row(cells, p) + rest, row_len, rows_done,
            acc) == crate::fen::board_parse_rec(rest, row_len + p + cells.len(), rows_done, acc
            + crate::fen::empties(p) + cells));
                }
            },
        }
    }
}

/// Reading back the placement field from some rank downward completes the
/// board: the cells read so far plus the remaining ranks give the whole.
proof fn lemma_rows_parse(bs: Seq<Option<Piece>>, rank: int, acc: Seq<Option<Piece>>)
    requires
        bs.len() == 64,
        1 <= rank <= 8,
        acc == bs.take((8 - rank) * 8),
    ensures
        crate::fen::board_parse_rec(crate::fen::rows_from(bs, rank), 0, 8 - rank, acc)
            == Ok::<Seq<Option<Piece>>, crate::fen::BoardFromFenError>(bs),
    decreases rank,
{
    let cells = crate::fen::rank_cells(bs, rank);
    if rank == 1 {
        assert(crate::fen::rows_from(bs, rank) =~= crate::fen::rle_row(cells, 0)
            + Seq::<u8>::empty());
        lemma_rle_parses(cells, 0, Seq::<u8>::empty(), 0, 7, acc);
        assert(acc + crate::fen::empties(0) + cells =~= bs);
    } else {
        let rest = seq![47u8] + crate::fen::rows_from(bs, rank - 1);
        assert(crate::fen::rows_from(bs, rank) =~= crate::fen::rle_row(cells, 0) + rest);
        lemma_rle_parses(cells, 0, rest, 0, 8 - rank, acc);
        let acc2 = acc + crate::fen::empties(0) + cells;
        assert(rest[0] == 47);
        assert(rest.skip(1) =~= crate::fen::rows_from(bs, rank - 1));
        assert(acc2 =~= bs.take((8 - (rank - 1)) * 8));
        lemma_rows_parse(bs, rank - 1, acc2);
    }
}

/// The placement field of any board parses back to the board.
pub proof fn lemma_board_fen_round_trip(bs: Seq<Option<Piece>>)
    requires
        bs.len() == 64,
    ensures
        crate::fen::board_parse_spec(crate::fen::board_fen_spec(bs)) == Ok::<
            Seq<Option<Piece>>,
            crate::fen::BoardFromFenError,
        >(bs),
{
    assert(Seq::<Option<Piece>>::empty() =~= bs.take(0));
    lemma_rows_parse(bs, 8, Seq::<Option<Piece>>::empty());
}

/// The en-passant window lives one ply: after any step the target is set
/// exactly when the move just made was a pawn double step, and then it
/// names the square one rank behind that pawn.
pub proof fn lemma_en_passant_one_ply(c0: crate::game::GameStateCore, m: Move,
    c1: crate::game::GameStateCore)
    requires
        crate::game::stepped_core(c0, m, c1),
    ensures
        c1.en_passant_target is Some <==> m.kind == MoveKind::Pawn(PawnMove::DoubleStep),
        m.kind == MoveKind::Pawn(PawnMove::DoubleStep) ==> c1.en_passant_target->Some_0.c()
            == m.destination.c() && c1.en_passant_target->Some_0.r() == m.destination.r()
            - forward_spec(c0.active_player),
{
}

/// Counting a piece that the initial position places exactly once, on
/// the cell with index `ki`.
proof fn lemma_initial_piece_count(bs: Seq<Option<Piece>>, j: int, p: Piece, ki: int)
    requires
        bs.len() == 64,
        forall|cc: int, rr: int|
            crate::coord::on_board(cc, rr) ==> #[trigger] at_sq(bs, cc, rr)
                == crate::board::initial_piece_at(cc, rr),
        0 <= j <= 64,
        0 <= ki < 64,
        forall|cc: int, rr: int|
            crate::coord::on_board(cc, rr) ==> (crate::board::initial_piece_at(cc, rr) == Some(
                p) <==> crate::board::sq_idx(cc, rr) == ki),
    ensures
        crate::board::piece_count_seq(bs.take(j), p) == if j > ki {
            1int
        } else {
            0int
        },
    decreases j,
{
    if j > 0 {
        lemma_initial_piece_count(bs, j - 1, p, ki);
        assert(bs.take(j).drop_last() =~= bs.take(j - 1));
        let cc = (j - 1) % 8 + 1;
        let rr = 8 - (j - 1) / 8;
        assert(crate::coord::on_board(cc, rr));
        assert(crate::board::sq_idx(cc, rr) == j - 1);
        assert(bs.take(j).last() == bs[j - 1]);
        assert(bs[j - 1] == at_sq(bs, cc, rr));
    }
}

/// The initial position satisfies everything `step` relies on: a full
/// well-formed board with one king each, no pawn on a promotion rank, no
/// en-passant target, and the side not to move free of check.
pub proof fn lemma_initial_core_wf(c: crate::game::GameStateCore)
    requires
        crate::game::is_initial_core(c),
    ensures
        crate::game::core_wf(c),
{
    let bs = c.cells();
    let wk = Piece { owner: PlayerKind::White, kind: PieceKind::King };
    let bk = Piece { owner: PlayerKind::Black, kind: PieceKind::King };
    lemma_initial_piece_count(bs, 64, wk, 60);
    lemma_initial_piece_count(bs, 64, bk, 4);
    assert(bs.take(64) =~= bs);
    // the kings and all four rooks stand on their starting squares
    assert forall|pl: PlayerKind, side: CastlingSide| #[trigger] crate::game::has_right_spec(
        c.castling_rights, pl, side) implies at_sq(bs, crate::player::king_start_spec(pl).c(),
        crate::player::king_start_spec(pl).r()) == Some(Piece {
        owner: pl,
        kind: PieceKind::King,
    }) && at_sq(bs, crate::player::rook_start_spec(pl, side).c(),
        crate::player::rook_start_spec(pl, side).r()) == Some(Piece {
        owner: pl,
        kind: PieceKind::Rook,
    }) by {
        let ks = crate::player::king_start_spec(pl);
        let rs = crate::player::rook_start_spec(pl, side);
        assert(at_sq(bs, ks.c(), ks.r()) == crate::board::initial_piece_at(ks.c(), ks.r()));
        assert(at_sq(bs, rs.c(), rs.r()) == crate::board::initial_piece_at(rs.c(), rs.r()));
    }
    // no white piece reaches e8: short-range pieces stand too far away,
    // and every long ray from the first two ranks is stopped by the
    // black pawn wall on rank seven
    assert forall|o: Square| !crate::board::threat_spec(bs, PlayerKind::White, o, (Square {
        col: crate::coord::Col::_5,
        row: crate::coord::Row::_8,
    })) by {
        let ks = Square { col: crate::coord::Col::_5, row: crate::coord::Row::_8 };
        crate::board::lemma_square_bounds(o);
        if crate::board::threat_spec(bs, PlayerKind::White, o, ks) {
            let p = at_sq(bs, o.c(), o.r())->Some_0;
            assert(at_sq(bs, o.c(), o.r()) == crate::board::initial_piece_at(o.c(), o.r()));
            assert(o.r() == 1 || o.r() == 2);
            let di = choose|di: int|
                0 <= di < crate::piece::threat_dirs_spec(p).len()
                    && #[trigger] crate::board::dir_threat(bs, PlayerKind::White, o,
                    crate::piece::threat_dirs_spec(p)[di].col as int,
                    crate::piece::threat_dirs_spec(p)[di].row as int,
                    crate::piece::threat_range_spec(p), ks);
            let dc = crate::piece::threat_dirs_spec(p)[di].col as int;
            let dr = crate::piece::threat_dirs_spec(p)[di].row as int;
            crate::board::lemma_dirs_bounded(p, di);
            let k = choose|k: int|
                1 <= k <= crate::piece::threat_range_spec(p) && #[trigger] crate::board::ray_c(
                    o, dc, k) == ks.c() && crate::board::ray_r(o, dr, k) == ks.r()
                    && crate::board::path_clear_to(bs, o, dc, dr, k) && !crate::board::occupied_by(
                    bs, ks, PlayerKind::White);
            assert(k * dr == 8 - o.r());
            if crate::piece::threat_range_spec(p) == 1 {
                assert(k == 1);
                assert(dr >= 6) by (nonlinear_arith)
                    requires
                        k == 1,
                        k * dr == 8 - o.r(),
                        o.r() == 1 || o.r() == 2,
                ;
            } else {
                assert(-1 <= dr <= 1 && -1 <= dc <= 1);
                assert(dr == 1 && k >= 6) by (nonlinear_arith)
                    requires
                        k * dr == 8 - o.r(),
                        o.r() == 1 || o.r() == 2,
                        1 <= k <= 7,
                        -1 <= dr <= 1,
                ;
                let c7 = crate::board::ray_c(o, dc, k - 1);
                assert(o.r() + (k - 1) * dr == 7) by (nonlinear_arith)
                    requires
                        o.r() + k * dr == 8,
                        dr == 1,
                ;
                assert(crate::board::ray_r(o, dr, k - 1) == 7);
                assert(c7 == 5 - dc) by (nonlinear_arith)
                    requires
                        c7 == o.c() + (k - 1) * dc,
                        o.c() + k * dc == 5,
                ;
                assert(at_sq(bs, c7, 7) is None);
                assert(crate::coord::on_board(c7, 7));
                assert(at_sq(bs, c7, 7) == crate::board::initial_piece_at(c7, 7));
            }
        }
    }
    assert(!crate::board::in_check(bs, PlayerKind::Black)) by {
        if crate::board::in_check(bs, PlayerKind::Black) {
            let ks = choose|ks: Square|
                #[trigger] at_sq(bs, ks.c(), ks.r()) == Some(bk) && attacked(bs,
                    PlayerKind::White, ks);
            crate::board::lemma_square_bounds(ks);
            assert(at_sq(bs, ks.c(), ks.r()) == crate::board::initial_piece_at(ks.c(),
                ks.r()));
            assert(ks.c() == 5 && ks.r() == 8);
            crate::board::lemma_coords_determine_square(ks, (Square {
                col: crate::coord::Col::_5,
                row: crate::coord::Row::_8,
            }));
            let o = choose|o: Square|
                #[trigger] crate::board::threat_spec(bs, PlayerKind::White, o, ks);
        }
    }
    assert forall|cc: int| 1 <= cc <= 8 implies #[trigger] at_sq(bs, cc, 8) != Some(Piece {
        owner: PlayerKind::White,
        kind: PieceKind::Pawn,
    }) && at_sq(bs, cc, 1) != Some(Piece { owner: PlayerKind::Black, kind: PieceKind::Pawn })
        by {
        assert(at_sq(bs, cc, 8) == crate::board::initial_piece_at(cc, 8));
        assert(at_sq(bs, cc, 1) == crate::board::initial_piece_at(cc, 1));
    }
}

/// A well-behaved FEN field: nonempty, free of whitespace, 7-bit.
pub open spec fn plain_token(s: Seq<u8>) -> bool {
    s.len() > 0 && forall|i: int|
        0 <= i < s.len() ==> !crate::fen::is_fen_ws(#[trigger] s[i]) && s[i] < 128
}

/// The run-length encoding of at most one rank's cells holds only
/// digits, piece letters and separators, and is nonempty as long as
/// there is anything to encode.
proof fn lemma_rle_plain(cells: Seq<Option<Piece>>, p: int)
    requires
        0 <= p,
        p + cells.len() <= 8,
    ensures
        forall|i: int|
            0 <= i < crate::fen::rle_row(cells, p).len() ==> !crate::fen::is_fen_ws(
                #[trigger] crate::fen::rle_row(cells, p)[i]) && crate::fen::rle_row(cells,
                p)[i] < 128,
        p + cells.len() > 0 ==> crate::fen::rle_row(cells, p).len() > 0,
    decreases cells.len(),
{
    let s = crate::fen::rle_row(cells, p);
    if cells.len() == 0 {
    } else {
        match cells[0] {
            None => {
                lemma_rle_plain(cells.skip(1), p + 1);
                assert forall|i: int|
                    0 <= i < s.len() implies !crate::fen::is_fen_ws(#[trigger] s[i]) && s[i]
                    < 128 by {
                    assert(s[i] == crate::fen::rle_row(cells.skip(1), p + 1)[i]);
                }
            },
            Some(q) => {
                lemma_rle_plain(cells.skip(1), 0);
                let head = (if p > 0 {
                    seq![(p + 48) as u8]
                } else {
                    Seq::<u8>::empty()
                }) + seq![crate::fen::piece_char(q)];
                let tail = crate::fen::rle_row(cells.skip(1), 0);
                assert(s == head + tail);
                assert forall|i: int|
                    0 <= i < s.len() implies !crate::fen::is_fen_ws(#[trigger] s[i]) && s[i]
                    < 128 by {
                    if i < head.len() {
                        assert(s[i] == head[i]);
                    } else {
                        assert(s[i] == tail[i - head.len()]);
                    }
                }
            },
        }
    }
}

/// The whole placement field is a well-behaved token.
proof fn lemma_rows_plain(bs: Seq<Option<Piece>>, rank: int)
    requires
        bs.len() == 64,
        1 <= rank <= 8,
    ensures
        plain_token(crate::fen::rows_from(bs, rank)),
    decreases rank,
{
    lemma_rle_plain(crate::fen::rank_cells(bs, rank), 0);
    if rank > 1 {
        lemma_rows_plain(bs, rank - 1);
    } else {
        assert(crate::fen::rank_cells(bs, 1).len() == 8);
    }
}

/// The decimal digits of a counter are a well-behaved token.
proof fn lemma_dec_plain(n: int)
    requires
        n >= 0,
    ensures
        plain_token(crate::fen::dec_spec(n)),
{
    crate::fen::lemma_dec_spec_val(n);
    assert forall|i: int| 0 <= i < crate::fen::dec_spec(n).len() implies !crate::fen::is_fen_ws(
        #[trigger] crate::fen::dec_spec(n)[i]) && crate::fen::dec_spec(n)[i] < 128 by {
        assert(crate::fen::is_ascii_digit(crate::fen::dec_spec(n)[i]));
    }
}

/// The castling field is a well-behaved token.
proof fn lemma_castling_plain(cr: CastlingRights)
    ensures
        plain_token(castling_fen_spec(cr)),
{
    let s = castling_fen_spec(cr);
    assert forall|i: int| 0 <= i < s.len() implies !crate::fen::is_fen_ws(#[trigger] s[i])
        && s[i] < 128 by {
        assert(s[i] == 45 || s[i] == 75 || s[i] == 81 || s[i] == 107 || s[i] == 113);
    }
}

/// The en-passant field is a well-behaved token.
proof fn lemma_ep_plain(ep: Option<Square>)
    ensures
        plain_token(crate::fen::ep_fen_spec(ep)),
{
    match ep {
        None => {},
        Some(s) => {
            crate::board::lemma_square_bounds(s);
        },
    }
}

/// Reading a whitespace-free token accumulates it whole.
proof fn lemma_tokens_token(t: Seq<u8>, rest: Seq<u8>, cur: Seq<u8>, done: Seq<Seq<u8>>)
    requires
        forall|i: int| 0 <= i < t.len() ==> !crate::fen::is_fen_ws(#[trigger] t[i]),
    ensures
        crate::fen::tokens_acc(t + rest, cur, done) == crate::fen::tokens_acc(rest, cur + t,
            done),
    decreases t.len(),
{
    if t.len() == 0 {
        assert(t + rest =~= rest);
        assert(cur + t =~= cur);
    } else {
        assert((t + rest)[0] == t[0]);
        assert((t + rest).skip(1) =~= t.skip(1) + rest);
        assert(forall|i: int|
            0 <= i < t.skip(1).len() ==> !crate::fen::is_fen_ws(#[trigger] t.skip(1)[i]));
        lemma_tokens_token(t.skip(1), rest, cur.push(t[0]), done);
        assert(cur.push(t[0]) + t.skip(1) =~= cur + t);
    }
}

/// A space after a token closes it.
proof fn lemma_tokens_space(rest: Seq<u8>, cur: Seq<u8>, done: Seq<Seq<u8>>)
    requires
        cur.len() > 0,
    ensures
        crate::fen::tokens_acc(seq![32u8] + rest, cur, done) == crate::fen::tokens_acc(rest,
            Seq::<u8>::empty(), done.push(cur)),
{
    assert((seq![32u8] + rest)[0] == 32);
    assert((seq![32u8] + rest).skip(1) =~= rest);
}

/// A whole emitted position splits back into its six fields.
proof fn lemma_game_fen_tokens(c: crate::game::GameStateCore)
    requires
        c.board.wf(),
    ensures
        crate::fen::tokens_of(crate::fen::game_fen_spec(c)) == seq![
            crate::fen::board_fen_spec(c.cells()),
            seq![
                (if c.active_player == PlayerKind::White {
                    119u8
                } else {
                    98u8
                }),
            ],
            castling_fen_spec(c.castling_rights),
            crate::fen::ep_fen_spec(c.en_passant_target),
            crate::fen::dec_spec(c.fifty_move_rule_clock.0 as int),
            crate::fen::dec_spec(c.full_move_count.0 as int),
        ],
{
    let f1 = crate::fen::board_fen_spec(c.cells());
    let f2: Seq<u8> = seq![
        (if c.active_player == PlayerKind::White {
            119u8
        } else {
            98u8
        }),
    ];
    let f3 = castling_fen_spec(c.castling_rights);
    let f4 = crate::fen::ep_fen_spec(c.en_passant_target);
    let f5 = crate::fen::dec_spec(c.fifty_move_rule_clock.0 as int);
    let f6 = crate::fen::dec_spec(c.full_move_count.0 as int);
    let sp = seq![32u8];
    lemma_rows_plain(c.cells(), 8);
    lemma_castling_plain(c.castling_rights);
    lemma_ep_plain(c.en_passant_target);
    lemma_dec_plain(c.fifty_move_rule_clock.0 as int);
    lemma_dec_plain(c.full_move_count.0 as int);
    let whole = crate::fen::game_fen_spec(c);
    assert(whole =~= f1 + (sp + (f2 + (sp + (f3 + (sp + (f4 + (sp + (f5 + (sp + f6))))))))));
    let e: Seq<u8> = Seq::<u8>::empty();
    let d0: Seq<Seq<u8>> = Seq::<Seq<u8>>::empty();
    lemma_tokens_token(f1, sp + (f2 + (sp + (f3 + (sp + (f4 + (sp + (f5 + (sp + f6)))))))), e,
        d0);
    assert(e + f1 =~= f1);
    lemma_tokens_space(f2 + (sp + (f3 + (sp + (f4 + (sp + (f5 + (sp + f6)))))))  , f1, d0);
    lemma_tokens_token(f2, sp + (f3 + (sp + (f4 + (sp + (f5 + (sp + f6)))))), e, d0.push(f1));
    assert(e + f2 =~= f2);
    lemma_tokens_space(f3 + (sp + (f4 + (sp + (f5 + (sp + f6))))), f2, d0.push(f1));
    lemma_tokens_token(f3, sp + (f4 + (sp + (f5 + (sp + f6)))), e, d0.push(f1).push(f2));
    assert(e + f3 =~= f3);
    lemma_tokens_space(f4 + (sp + (f5 + (sp + f6))), f3, d0.push(f1).push(f2));
    lemma_tokens_token(f4, sp + (f5 + (sp + f6)), e, d0.push(f1).push(f2).push(f3));
    assert(e + f4 =~= f4);
    lemma_tokens_space(f5 + (sp + f6), f4, d0.push(f1).push(f2).push(f3));
    lemma_tokens_token(f5, sp + f6, e, d0.push(f1).push(f2).push(f3).push(f4));
    assert(e + f5 =~= f5);
    lemma_tokens_space(f6, f5, d0.push(f1).push(f2).push(f3).push(f4));
    lemma_tokens_token(f6, e, e, d0.push(f1).push(f2).push(f3).push(f4).push(f5));
    assert(e + f6 =~= f6);
    assert(f6 + e =~= f6);
    assert(crate::fen::tokens_acc(e, f6, d0.push(f1).push(f2).push(f3).push(f4).push(f5))
        == d0.push(f1).push(f2).push(f3).push(f4).push(f5).push(f6));
    assert(d0.push(f1).push(f2).push(f3).push(f4).push(f5).push(f6) =~= seq![
        f1,
        f2,
        f3,
        f4,
        f5,
        f6,
    ]);
}

/// The emitted position parses back to the position, field for field: the
/// round trip of the whole notation.
#[verifier::rlimit(100)]
pub proof fn lemma_game_fen_round_trip(c: crate::game::GameStateCore)
    requires
        c.board.wf(),
        c.full_move_count.0 >= 1,
    ensures
        crate::fen::game_parse_spec(crate::fen::game_fen_spec(c)) == Ok::<
            (Seq<Option<Piece>>, PlayerKind, CastlingRights, Option<Square>, u64, u64),
            crate::fen::GameFromFenError,
        >((c.cells(), c.active_player, c.castling_rights, c.en_passant_target,
            c.fifty_move_rule_clock.0, c.full_move_count.0)),
{
    let whole = crate::fen::game_fen_spec(c);
    lemma_game_fen_tokens(c);
    lemma_rows_plain(c.cells(), 8);
    lemma_castling_plain(c.castling_rights);
    lemma_ep_plain(c.en_passant_target);
    lemma_dec_plain(c.fifty_move_rule_clock.0 as int);
    lemma_dec_plain(c.full_move_count.0 as int);
    let f1 = crate::fen::board_fen_spec(c.cells());
    let f2: Seq<u8> = seq![
        (if c.active_player == PlayerKind::White {
            119u8
        } else {
            98u8
        }),
    ];
    let f3 = castling_fen_spec(c.castling_rights);
    let f4 = crate::fen::ep_fen_spec(c.en_passant_target);
    let f5 = crate::fen::dec_spec(c.fifty_move_rule_clock.0 as int);
    let f6 = crate::fen::dec_spec(c.full_move_count.0 as int);
    let sp = seq![32u8];
    assert(whole =~= f1 + (sp + (f2 + (sp + (f3 + (sp + (f4 + (sp + (f5 + (sp + f6))))))))));
    assert forall|i: int| 0 <= i < whole.len() implies #[trigger] whole[i] < 128 by {}
    lemma_board_fen_round_trip(c.cells());
    crate::fen::lemma_dec_spec_val(c.fifty_move_rule_clock.0 as int);
    crate::fen::lemma_dec_spec_val(c.full_move_count.0 as int);
    lemma_castling_fen_round_trip(c.castling_rights);
    match c.en_passant_target {
        None => {},
        Some(s) => {
            lemma_square_fen_round_trip(s);
        },
    }
}

/// A square's name parses back to the square.
pub proof fn lemma_square_fen_round_trip(s: Square)
    ensures
        square_parse_spec(square_fen_spec(s)) == Ok::<Option<Square>,
            crate::fen::SquareFromFenError>(Some(s)),
{
    crate::board::lemma_square_bounds(s);
    lemma_col_from_char(s);
}

/// The name's two characters map back to the square's file and rank.
proof fn lemma_col_from_char(s: Square)
    ensures
        col_from_int((col_char(s.c()) - 96) as int) == s.col,
        row_from_int((row_char(s.r()) - 48) as int) == s.row,
{
}

/// A piece's letter parses back to the piece.
pub proof fn lemma_piece_fen_round_trip(p: Piece)
    ensures
        piece_of_char(piece_char(p)) == Some(p),
{
}

/// The color letter parses back to the player.
pub proof fn lemma_player_fen_round_trip(p: PlayerKind)
    ensures
        player_parse_spec(seq![
            (if p == PlayerKind::White {
                119u8
            } else {
                98u8
            }),
        ]) == Ok::<PlayerKind, crate::fen::InvalidPlayer>(p),
{
}

/// The castling field parses back to the rights that produced it.
pub proof fn lemma_castling_fen_round_trip(cr: CastlingRights)
    ensures
        castling_parse_spec(castling_fen_spec(cr)) == cr,
{
    let s = castling_fen_spec(cr);
    if !cr.white_kingside && !cr.white_queenside && !cr.black_kingside && !cr.black_queenside {
        assert(s =~= seq![45u8]);
        assert(!s.contains(75) && !s.contains(81) && !s.contains(107) && !s.contains(113));
    } else {
        let a = if cr.white_kingside {
            seq![75u8]
        } else {
            Seq::<u8>::empty()
        };
        let b = if cr.white_queenside {
            seq![81u8]
        } else {
            Seq::<u8>::empty()
        };
        let c = if cr.black_kingside {
            seq![107u8]
        } else {
            Seq::<u8>::empty()
        };
        let d = if cr.black_queenside {
            seq![113u8]
        } else {
            Seq::<u8>::empty()
        };
        assert(s == a + b + c + d);
        assert forall|x: u8| s.contains(x) implies (x == 75 && cr.white_kingside) || (x == 81
            && cr.white_queenside) || (x == 107 && cr.black_kingside) || (x == 113
            && cr.black_queenside) by {
            let j = choose|j: int| 0 <= j < s.len() && s[j] == x;
        }
        if cr.white_kingside {
            assert(s[0] == 75);
            assert(s.contains(75));
        }
        if cr.white_queenside {
            assert(s[a.len() as int] == 81);
            assert(s.contains(81));
        }
        if cr.black_kingside {
            assert(s[a.len() as int + b.len() as int] == 107);
            assert(s.contains(107));
        }
        if cr.black_queenside {
            assert(s[a.len() as int + b.len() as int + c.len() as int] == 113);
            assert(s.contains(113));
        }
    }
}

} // verus!
