//! Game-level types: castling rights, counters, results, the position
//! core, and the `step` state machine.
use vstd::prelude::*;
use crate::board::at_sq;
use crate::board::Board;
use crate::board::king_count;
use crate::coord::Square;
use crate::mv::Move;
use crate::mv::MoveKind;
use crate::mv::PawnMove;
use crate::move_gen::lemma_step_ep_wf;
use crate::piece::Piece;
use crate::piece::PieceKind;
use crate::player::forward_spec;
use crate::player::opponent_spec;
use crate::player::PlayerKind;

verus! {

/// The two wings a king may castle to.
#[derive(Debug, Copy, Clone, PartialEq, Eq, Structural)]
pub enum CastlingSide {
    Kingside,
    Queenside,
}

/// The four ways a game ends drawn.
#[derive(Debug, Copy, Clone, Hash, PartialEq, Eq, Structural)]
pub enum DrawKind {
    Stalemate,
    ThreefoldRepetition,
    FiftyMove,
    InsufficientMaterial,
}

/// How a finished game ended: a win for the side that just moved, or a draw.
#[derive(Debug, Copy, Clone, Hash, PartialEq, Eq, Structural)]
pub enum GameResultKind {
    Draw(DrawKind),
    Win,
}

/// Which of a game's termination rules are enforced. `Perft` disables the
/// repetition, fifty-move and insufficient-material draws and keeps no
/// position history, for move-tree enumeration.
#[derive(Debug, Copy, Clone, PartialEq, Eq, Structural)]
pub enum RuleSet {
    Standard,
    Perft,
}

/// The four independent castling permissions.
#[derive(Debug, Copy, Clone, PartialEq, Eq, Hash, Structural)]
pub struct CastlingRights {
    pub white_kingside: bool,
    pub white_queenside: bool,
    pub black_kingside: bool,
    pub black_queenside: bool,
}

impl CastlingRights {
    pub fn new(white_kingside: bool, white_queenside: bool, black_kingside: bool,
        black_queenside: bool) -> (r: CastlingRights)
        ensures
            r == (CastlingRights { white_kingside, white_queenside, black_kingside,
                black_queenside }),
    {
        CastlingRights { white_kingside, white_queenside, black_kingside, black_queenside }
    }

    pub fn all_available() -> (r: CastlingRights)
        ensures
            r == (CastlingRights {
                white_kingside: true,
                white_queenside: true,
                black_kingside: true,
                black_queenside: true,
            }),
    {
        CastlingRights {
            white_kingside: true,
            white_queenside: true,
            black_kingside: true,
            black_queenside: true,
        }
    }

    pub fn none_available() -> (r: CastlingRights)
        ensures
            r == (CastlingRights {
                white_kingside: false,
                white_queenside: false,
                black_kingside: false,
                black_queenside: false,
            }),
    {
        CastlingRights {
            white_kingside: false,
            white_queenside: false,
            black_kingside: false,
            black_queenside: false,
        }
    }

    /// Every combination of the four permissions; sixteen in all, each once.
    pub fn all() -> (r: Vec<CastlingRights>)
        ensures
            r@.len() == 16,
            forall|cr: CastlingRights| r@.contains(cr),
            forall|i: int, j: int| 0 <= i < j < 16 ==> r@[i] != r@[j],
    {
        let mut v: Vec<CastlingRights> = Vec::new();
        let mut i: usize = 0;
        while i < 16
            invariant
                i <= 16,
                v@.len() == i,
                forall|k: int| #![trigger v@[k]]
                    0 <= k < i ==> v@[k] == (CastlingRights {
                        white_kingside: k / 8 % 2 == 1,
                        white_queenside: k / 4 % 2 == 1,
                        black_kingside: k / 2 % 2 == 1,
                        black_queenside: k % 2 == 1,
                    }),
            decreases 16 - i,
        {
            v.push(CastlingRights {
                white_kingside: i / 8 % 2 == 1,
                white_queenside: i / 4 % 2 == 1,
                black_kingside: i / 2 % 2 == 1,
                black_queenside: i % 2 == 1,
            });
            i = i + 1;
        }
        proof {
            assert forall|cr: CastlingRights| v@.contains(cr) by {
                let k: int = (if cr.white_kingside { 8int } else { 0int }) + (if cr.white_queenside
                    { 4int } else { 0int }) + (if cr.black_kingside { 2int } else { 0int }) + (
                if cr.black_queenside { 1int } else { 0int });
                assert(v@[k] == cr);
            }
        }
        v
    }
}

impl Default for CastlingRights {
    fn default() -> (r: Self)
        ensures
            r == (CastlingRights {
                white_kingside: true,
                white_queenside: true,
                black_kingside: true,
                black_queenside: true,
            }),
    {
        CastlingRights::all_available()
    }
}

/// The multiplicity of each of the twelve pieces on a board.
#[derive(Debug, Copy, Clone, PartialEq, Eq, Hash, Structural)]
pub struct PieceCounts {
    pub white_pawn: u8,
    pub white_knight: u8,
    pub white_bishop: u8,
    pub white_rook: u8,
    pub white_queen: u8,
    pub white_king: u8,
    pub black_pawn: u8,
    pub black_knight: u8,
    pub black_bishop: u8,
    pub black_rook: u8,
    pub black_queen: u8,
    pub black_king: u8,
}

impl PieceCounts {
    /// The material of a dead draw: one king each and nothing else.
    pub fn kings_only() -> (r: PieceCounts)
        ensures
            r == (PieceCounts {
                white_pawn: 0,
                white_knight: 0,
                white_bishop: 0,
                white_rook: 0,
                white_queen: 0,
                white_king: 1,
                black_pawn: 0,
                black_knight: 0,
                black_bishop: 0,
                black_rook: 0,
                black_queen: 0,
                black_king: 1,
            }),
    {
        PieceCounts {
            white_pawn: 0,
            white_knight: 0,
            white_bishop: 0,
            white_rook: 0,
            white_queen: 0,
            white_king: 1,
            black_pawn: 0,
            black_knight: 0,
            black_bishop: 0,
            black_rook: 0,
            black_queen: 0,
            black_king: 1,
        }
    }
}

/// The number of completed move pairs, starting at 1 and never decreasing.
#[derive(Debug, Copy, Clone, PartialEq, Eq, Hash, Structural)]
pub struct FullMoveCount(pub u64);

impl FullMoveCount {
    pub fn new() -> (r: FullMoveCount)
        ensures
            r.0 == 1,
    {
        FullMoveCount(1)
    }

    pub fn increase(&mut self)
        requires
            old(self).0 < u64::MAX,
        ensures
            final(self).0 == old(self).0 + 1,
    {
        self.0 = self.0 + 1;
    }
}

impl Default for FullMoveCount {
    fn default() -> (r: Self)
        ensures
            r.0 == 1,
    {
        FullMoveCount(1)
    }
}

/// Halfmoves since the last pawn move or capture; 100 forces the
/// fifty-move draw.
#[derive(Debug, Copy, Clone, PartialEq, Eq, Hash, Structural)]
pub struct FiftyMoveRuleClock(pub u64);

impl FiftyMoveRuleClock {
    pub fn new(initial: u64) -> (r: FiftyMoveRuleClock)
        ensures
            r.0 == initial,
    {
        FiftyMoveRuleClock(initial)
    }

    pub fn increase(&mut self)
        requires
            old(self).0 < u64::MAX,
        ensures
            final(self).0 == old(self).0 + 1,
    {
        self.0 = self.0 + 1;
    }

    pub fn reset(&mut self)
        ensures
            final(self).0 == 0,
    {
        self.0 = 0;
    }
}

impl Default for FiftyMoveRuleClock {
    fn default() -> (r: Self)
        ensures
            r.0 == 0,
    {
        FiftyMoveRuleClock(0)
    }
}

/// Whether `rights` allows `player` to castle on `side`.
pub open spec fn has_right_spec(rights: CastlingRights, player: PlayerKind, side: CastlingSide)
    -> bool {
    match (player, side) {
        (PlayerKind::White, CastlingSide::Kingside) => rights.white_kingside,
        (PlayerKind::White, CastlingSide::Queenside) => rights.white_queenside,
        (PlayerKind::Black, CastlingSide::Kingside) => rights.black_kingside,
        (PlayerKind::Black, CastlingSide::Queenside) => rights.black_queenside,
    }
}

/// `rights` with the one permission of `player` on `side` revoked.
pub open spec fn deny_spec(rights: CastlingRights, player: PlayerKind, side: CastlingSide)
    -> CastlingRights {
    match (player, side) {
        (PlayerKind::White, CastlingSide::Kingside) => CastlingRights {
            white_kingside: false,
            ..rights
        },
        (PlayerKind::White, CastlingSide::Queenside) => CastlingRights {
            white_queenside: false,
            ..rights
        },
        (PlayerKind::Black, CastlingSide::Kingside) => CastlingRights {
            black_kingside: false,
            ..rights
        },
        (PlayerKind::Black, CastlingSide::Queenside) => CastlingRights {
            black_queenside: false,
            ..rights
        },
    }
}

/// Every permission of `a` is also a permission of `b`.
pub open spec fn rights_subset(a: CastlingRights, b: CastlingRights) -> bool {
    (a.white_kingside ==> b.white_kingside) && (a.white_queenside ==> b.white_queenside)
        && (a.black_kingside ==> b.black_kingside) && (a.black_queenside ==> b.black_queenside)
}

/// A set en-passant target is truthful for the position: it lies on the
/// rank behind the opponent pawn that just double-stepped, that pawn stands
/// on the adjacent rank, and the target square itself is empty.
pub open spec fn ep_wf(bs: Seq<Option<Piece>>, active: PlayerKind, ep: Option<Square>) -> bool {
    match ep {
        Some(t) => t.r() == (if active == PlayerKind::White {
            6int
        } else {
            3int
        }) && at_sq(bs, t.c(), t.r() - forward_spec(active)) == Some(Piece {
            owner: opponent_spec(active),
            kind: PieceKind::Pawn,
        }) && at_sq(bs, t.c(), t.r()) is None,
        None => true,
    }
}

/// No pawn stands on its own promotion rank.
pub open spec fn pawns_ok(bs: Seq<Option<Piece>>) -> bool {
    forall|c: int|
        1 <= c <= 8 ==> #[trigger] at_sq(bs, c, 8) != Some(Piece {
            owner: PlayerKind::White,
            kind: PieceKind::Pawn,
        }) && at_sq(bs, c, 1) != Some(Piece { owner: PlayerKind::Black, kind: PieceKind::Pawn })
}

/// The position core plus side to move, rights, target and counters.
#[derive(Debug, Clone, PartialEq, Eq)]
pub struct GameStateCore {
    pub board: Board,
    pub fifty_move_rule_clock: FiftyMoveRuleClock,
    pub castling_rights: CastlingRights,
    pub en_passant_target: Option<Square>,
    pub active_player: PlayerKind,
    pub full_move_count: FullMoveCount,
}

impl GameStateCore {
    /// The board's cells, for specification.
    pub open spec fn cells(self) -> Seq<Option<Piece>> {
        self.board.squares@
    }

    /// What move generation relies on: a well-formed board holding exactly
    /// one king of each color, a truthful en-passant target, and no pawn on
    /// its promotion rank.
    pub open spec fn movegen_wf(self) -> bool {
        self.board.wf() && king_count(self.cells(), PlayerKind::White) == 1 && king_count(
            self.cells(), PlayerKind::Black) == 1 && ep_wf(self.cells(), self.active_player,
            self.en_passant_target) && pawns_ok(self.cells())
    }

    pub fn has_castling_right(&self, castling_side: CastlingSide) -> (r: bool)
        ensures
            r == has_right_spec(self.castling_rights, self.active_player, castling_side),
    {
        match (self.active_player, castling_side) {
            (PlayerKind::White, CastlingSide::Kingside) => self.castling_rights.white_kingside,
            (PlayerKind::White, CastlingSide::Queenside) => self.castling_rights.white_queenside,
            (PlayerKind::Black, CastlingSide::Kingside) => self.castling_rights.black_kingside,
            (PlayerKind::Black, CastlingSide::Queenside) => self.castling_rights.black_queenside,
        }
    }

    pub fn deny_castling(&mut self, for_player: PlayerKind, castling_side: CastlingSide)
        ensures
            final(self).castling_rights == deny_spec(old(self).castling_rights, for_player,
                castling_side),
            final(self).board == old(self).board,
            final(self).fifty_move_rule_clock == old(self).fifty_move_rule_clock,
            final(self).en_passant_target == old(self).en_passant_target,
            final(self).active_player == old(self).active_player,
            final(self).full_move_count == old(self).full_move_count,
    {
        match (for_player, castling_side) {
            (PlayerKind::White, CastlingSide::Kingside) => {
                self.castling_rights.white_kingside = false;
            },
            (PlayerKind::White, CastlingSide::Queenside) => {
                self.castling_rights.white_queenside = false;
            },
            (PlayerKind::Black, CastlingSide::Kingside) => {
                self.castling_rights.black_kingside = false;
            },
            (PlayerKind::Black, CastlingSide::Queenside) => {
                self.castling_rights.black_queenside = false;
            },
        }
    }
}

impl GameStateCore {
    /// Decide everything `legal_moves` and `step` rely on, so that a
    /// position taken from the outside - a parsed FEN above all - can be
    /// admitted to them once this check passes.
    pub fn is_well_formed(&self) -> (r: bool)
        ensures
            r == core_wf(*self),
    {
        let ghost bs = self.cells();
        if self.board.squares.len() != 64 {
            return false;
        }
        let counts = self.board.piece_counts();
        if !(counts.white_king == 1 && counts.black_king == 1) {
            return false;
        }
        // no pawn on its own promotion rank
        let mut c: u8 = 1;
        while c <= 8
            invariant
                self.board.wf(),
                bs == self.cells(),
                1 <= c <= 9,
                forall|cc: int|
                    1 <= cc < c ==> #[trigger] at_sq(bs, cc, 8) != Some(Piece {
                        owner: PlayerKind::White,
                        kind: PieceKind::Pawn,
                    }) && at_sq(bs, cc, 1) != Some(Piece {
                        owner: PlayerKind::Black,
                        kind: PieceKind::Pawn,
                    }),
            decreases 9 - c,
        {
            let top = self.board.at(Square {
                col: crate::coord::Col::from_index(c),
                row: crate::coord::Row::_8,
            });
            let bottom = self.board.at(Square {
                col: crate::coord::Col::from_index(c),
                row: crate::coord::Row::_1,
            });
            if crate::mv::opt_piece_eq(top, Some(Piece {
                owner: PlayerKind::White,
                kind: PieceKind::Pawn,
            })) {
                return false;
            }
            if crate::mv::opt_piece_eq(bottom, Some(Piece {
                owner: PlayerKind::Black,
                kind: PieceKind::Pawn,
            })) {
                return false;
            }
            c = c + 1;
        }
        // a set en-passant target must be truthful
        match self.en_passant_target {
            Some(t) => {
                let wanted_row: u8 = match self.active_player {
                    PlayerKind::White => 6,
                    PlayerKind::Black => 3,
                };
                if t.row.index() != wanted_row {
                    return false;
                }
                match t.plus(self.active_player.backwards_one_row()) {
                    Ok(behind) => {
                        let pawn = Piece {
                            owner: self.active_player.opponent(),
                            kind: PieceKind::Pawn,
                        };
                        if !crate::mv::opt_piece_eq(self.board.at(behind), Some(pawn)) {
                            return false;
                        }
                    },
                    Err(_) => {
                        proof {
                            assert(false);
                        }
                    },
                }
                if self.board.at(t).is_some() {
                    return false;
                }
            },
            None => {},
        }
        // every kept castling right has its king and rook in place
        let mut pi: u8 = 0;
        while pi < 2
            invariant
                self.board.wf(),
                bs == self.cells(),
                pi <= 2,
                forall|pl: PlayerKind, side: CastlingSide|
                    ((pl == PlayerKind::White && pi >= 1) || (pl == PlayerKind::Black && pi
                        >= 2)) && #[trigger] has_right_spec(self.castling_rights, pl, side)
                        ==> at_sq(bs, crate::player::king_start_spec(pl).c(),
                        crate::player::king_start_spec(pl).r()) == Some(Piece {
                        owner: pl,
                        kind: PieceKind::King,
                    }) && at_sq(bs, crate::player::rook_start_spec(pl, side).c(),
                        crate::player::rook_start_spec(pl, side).r()) == Some(Piece {
                        owner: pl,
                        kind: PieceKind::Rook,
                    }),
            decreases 2 - pi,
        {
            let pl = if pi == 0 {
                PlayerKind::White
            } else {
                PlayerKind::Black
            };
            let king = Piece { owner: pl, kind: PieceKind::King };
            let rook = Piece { owner: pl, kind: PieceKind::Rook };
            let kingside = self.has_right_of(pl, CastlingSide::Kingside);
            let queenside = self.has_right_of(pl, CastlingSide::Queenside);
            if (kingside || queenside) && !crate::mv::opt_piece_eq(self.board.at(
                pl.king_start()), Some(king)) {
                return false;
            }
            if kingside && !crate::mv::opt_piece_eq(self.board.at(pl.rook_start(
                CastlingSide::Kingside)), Some(rook)) {
                return false;
            }
            if queenside && !crate::mv::opt_piece_eq(self.board.at(pl.rook_start(
                CastlingSide::Queenside)), Some(rook)) {
                return false;
            }
            pi = pi + 1;
        }
        // the side not to move must be safe from check
        if self.board.is_king_checked(self.active_player.opponent()) {
            return false;
        }
        proof {
            assert(rights_ok(bs, self.castling_rights));
        }
        true
    }

    /// Whether `rights` allows the given player to castle on `side`.
    pub fn has_right_of(&self, player: PlayerKind, castling_side: CastlingSide) -> (r: bool)
        ensures
            r == has_right_spec(self.castling_rights, player, castling_side),
    {
        match (player, castling_side) {
            (PlayerKind::White, CastlingSide::Kingside) => self.castling_rights.white_kingside,
            (PlayerKind::White, CastlingSide::Queenside) => self.castling_rights.white_queenside,
            (PlayerKind::Black, CastlingSide::Kingside) => self.castling_rights.black_kingside,
            (PlayerKind::Black, CastlingSide::Queenside) => self.castling_rights.black_queenside,
        }
    }
}

impl Default for GameStateCore {
    /// The initial position: full board, White to move, all rights, no
    /// target, clock at zero, move count at one.
    fn default() -> (r: Self)
        ensures
            r.board.wf(),
            forall|c: int, r2: int|
                crate::coord::on_board(c, r2) ==> #[trigger] at_sq(r.board.squares@, c, r2)
                    == crate::board::initial_piece_at(c, r2),
            r.fifty_move_rule_clock.0 == 0,
            r.castling_rights == (CastlingRights {
                white_kingside: true,
                white_queenside: true,
                black_kingside: true,
                black_queenside: true,
            }),
            r.en_passant_target is None,
            r.active_player == PlayerKind::White,
            r.full_move_count.0 == 1,
    {
        GameStateCore {
            board: Board::new(),
            fifty_move_rule_clock: FiftyMoveRuleClock::new(0),
            castling_rights: CastlingRights::all_available(),
            en_passant_target: None,
            active_player: PlayerKind::White,
            full_move_count: FullMoveCount::new(),
        }
    }
}

/// The number of times a position must occur to force the repetition
/// draw. The classic rule draws at three occurrences.
pub const REPETITIONS_TO_FORCED_DRAW_COUNT: usize = 3;

/// The halfmove-clock reading that forces the fifty-move draw.
pub const FIFTY_MOVE_RULE_COUNT: u64 = 100;

/// The mover's own castling rights after the move: a king move revokes
/// both sides; a rook move from a corner start square revokes that side.
pub open spec fn own_rights_after(rights: CastlingRights, active: PlayerKind, m: Move)
    -> CastlingRights {
    match m.kind {
        crate::mv::MoveKind::King(_) => deny_spec(deny_spec(rights, active,
            CastlingSide::Kingside), active, CastlingSide::Queenside),
        crate::mv::MoveKind::Rook { .. } => {
            let r1 = if m.origin == crate::player::rook_start_spec(active,
                CastlingSide::Kingside) {
                deny_spec(rights, active, CastlingSide::Kingside)
            } else {
                rights
            };
            if m.origin == crate::player::rook_start_spec(active, CastlingSide::Queenside) {
                deny_spec(r1, active, CastlingSide::Queenside)
            } else {
                r1
            }
        },
        _ => rights,
    }
}

/// All castling rights after the move: the mover's own revocations, then
/// the opponent's side revoked when the capture emptied that rook's start
/// square.
pub open spec fn rights_after(rights: CastlingRights, active: PlayerKind, m: Move)
    -> CastlingRights {
    let r1 = own_rights_after(rights, active, m);
    match crate::mv::capture_affected_square_spec(m) {
        Some(sq) => {
            let opp = opponent_spec(active);
            let r2 = if sq == crate::player::rook_start_spec(opp, CastlingSide::Kingside) {
                deny_spec(r1, opp, CastlingSide::Kingside)
            } else {
                r1
            };
            if sq == crate::player::rook_start_spec(opp, CastlingSide::Queenside) {
                deny_spec(r2, opp, CastlingSide::Queenside)
            } else {
                r2
            }
        },
        None => r1,
    }
}

/// The en-passant target a move leaves behind: the square one rank
/// behind a double step's destination, else none.
pub open spec fn ep_after_value(active: PlayerKind, m: Move) -> Option<Square> {
    if m.kind == MoveKind::Pawn(PawnMove::DoubleStep) {
        Some(Square {
            col: crate::fen::col_from_int(m.destination.c()),
            row: crate::fen::row_from_int(m.destination.r() - forward_spec(active)),
        })
    } else {
        None
    }
}

/// The material is exactly the two kings.
pub open spec fn material_kings_only(bs: Seq<Option<Piece>>) -> bool {
    crate::board::piece_count_seq(bs, Piece { owner: PlayerKind::White, kind: PieceKind::Pawn })
        == 0 && crate::board::piece_count_seq(bs, Piece {
        owner: PlayerKind::White,
        kind: PieceKind::Knight,
    }) == 0 && crate::board::piece_count_seq(bs, Piece {
        owner: PlayerKind::White,
        kind: PieceKind::Bishop,
    }) == 0 && crate::board::piece_count_seq(bs, Piece {
        owner: PlayerKind::White,
        kind: PieceKind::Rook,
    }) == 0 && crate::board::piece_count_seq(bs, Piece {
        owner: PlayerKind::White,
        kind: PieceKind::Queen,
    }) == 0 && crate::board::piece_count_seq(bs, Piece {
        owner: PlayerKind::White,
        kind: PieceKind::King,
    }) == 1 && crate::board::piece_count_seq(bs, Piece {
        owner: PlayerKind::Black,
        kind: PieceKind::Pawn,
    }) == 0 && crate::board::piece_count_seq(bs, Piece {
        owner: PlayerKind::Black,
        kind: PieceKind::Knight,
    }) == 0 && crate::board::piece_count_seq(bs, Piece {
        owner: PlayerKind::Black,
        kind: PieceKind::Bishop,
    }) == 0 && crate::board::piece_count_seq(bs, Piece {
        owner: PlayerKind::Black,
        kind: PieceKind::Rook,
    }) == 0 && crate::board::piece_count_seq(bs, Piece {
        owner: PlayerKind::Black,
        kind: PieceKind::Queen,
    }) == 0 && crate::board::piece_count_seq(bs, Piece {
        owner: PlayerKind::Black,
        kind: PieceKind::King,
    }) == 1
}

/// The initial position, field by field.
pub open spec fn is_initial_core(c: GameStateCore) -> bool {
    c.board.wf() && (forall|cc: int, rr: int|
        crate::coord::on_board(cc, rr) ==> #[trigger] at_sq(c.cells(), cc, rr)
            == crate::board::initial_piece_at(cc, rr)) && c.fifty_move_rule_clock.0 == 0
        && c.castling_rights == (CastlingRights {
        white_kingside: true,
        white_queenside: true,
        black_kingside: true,
        black_queenside: true,
    }) && c.en_passant_target is None && c.active_player == PlayerKind::White
        && c.full_move_count.0 == 1
}

/// Every kept castling right is truthful: the king and the rook of that
/// side still stand on their starting squares.
pub open spec fn rights_ok(bs: Seq<Option<Piece>>, rights: CastlingRights) -> bool {
    forall|pl: PlayerKind, side: CastlingSide|
        #[trigger] has_right_spec(rights, pl, side) ==> at_sq(bs,
            crate::player::king_start_spec(pl).c(), crate::player::king_start_spec(pl).r())
            == Some(Piece { owner: pl, kind: PieceKind::King }) && at_sq(bs,
            crate::player::rook_start_spec(pl, side).c(), crate::player::rook_start_spec(pl,
            side).r()) == Some(Piece { owner: pl, kind: PieceKind::Rook })
}

/// What `step` relies on beyond the move generator's needs: every kept
/// castling right has its king and rook in place, and the side not to
/// move is not in check (a position a legal move can never produce).
pub open spec fn core_wf(c: GameStateCore) -> bool {
    c.movegen_wf() && rights_ok(c.cells(), c.castling_rights) && !crate::board::in_check(
        c.cells(), opponent_spec(c.active_player))
}

/// A snapshot used for repetition comparison: board, the legal moves of
/// the position the move was chosen from, and the castling rights before
/// their update. En-passant differences show up in the legal moves.
#[derive(Debug, Clone, PartialEq, Eq)]
pub struct Position {
    pub board: Board,
    pub possible_moves: Vec<Move>,
    pub castling_rights: CastlingRights,
}

/// Two move lists name the same moves; the emission order, which no
/// contract fixes, does not matter.
pub open spec fn same_move_set(a: Seq<Move>, b: Seq<Move>) -> bool {
    forall|m: Move| a.contains(m) <==> b.contains(m)
}

/// Two snapshots agree on all three components: the board, the set of
/// legal moves, and the castling rights.
pub open spec fn pos_eq(a: Position, b: Position) -> bool {
    a.board.squares@ == b.board.squares@ && same_move_set(a.possible_moves@,
        b.possible_moves@) && a.castling_rights == b.castling_rights
}

/// How many entries of `h` equal `p` as positions.
pub open spec fn pos_count(h: Seq<Position>, p: Position) -> int
    decreases h.len(),
{
    if h.len() == 0 {
        0
    } else {
        pos_count(h.drop_last(), p) + if pos_eq(h.last(), p) {
            1int
        } else {
            0int
        }
    }
}

/// Every board stored in a history is a well-formed board.
pub open spec fn history_wf(h: Seq<Position>) -> bool {
    forall|i: int| 0 <= i < h.len() ==> (#[trigger] h[i]).board.wf()
}

/// The bookkeeping `step` performs on the core besides flipping the side:
/// the move applied to the board, rights revoked, the en-passant target
/// set for exactly a double step (one rank behind its destination), and
/// the halfmove clock reset by a pawn move or capture, else advanced.
pub open spec fn stepped_core(oldc: GameStateCore, m: Move, newc: GameStateCore) -> bool {
    &&& newc.board.squares@ == crate::move_gen::apply_move_spec(oldc.cells(), m)
    &&& newc.castling_rights == rights_after(oldc.castling_rights, oldc.active_player, m)
    &&& (m.kind == crate::mv::MoveKind::Pawn(crate::mv::PawnMove::DoubleStep) ==> match newc
        .en_passant_target {
        Some(t) => t.c() == m.destination.c() && t.r() == m.destination.r() - forward_spec(
            oldc.active_player),
        None => false,
    })
    &&& (m.kind != crate::mv::MoveKind::Pawn(crate::mv::PawnMove::DoubleStep)
        ==> newc.en_passant_target is None)
    &&& newc.fifty_move_rule_clock.0 == (if crate::mv::piece_kind_spec(m.kind)
        == PieceKind::Pawn || crate::mv::is_capture_spec(m) {
        0int
    } else {
        oldc.fifty_move_rule_clock.0 + 1
    })
}

/// How the history grows: under the standard rules the new snapshot (the
/// post-move board, the legal moves the move was drawn from, and the
/// rights before their update) is appended; under perft it is untouched.
pub open spec fn history_after(oldh: Seq<Position>, rs: RuleSet, applied: Seq<Option<Piece>>,
    legal: Seq<Move>, old_rights: CastlingRights, newh: Seq<Position>) -> bool {
    if rs == RuleSet::Standard {
        &&& newh.len() == oldh.len() + 1
        &&& newh.drop_last() == oldh
        &&& newh.last().board.squares@ == applied
        &&& newh.last().board.wf()
        &&& newh.last().possible_moves@ == legal
        &&& newh.last().castling_rights == old_rights
    } else {
        newh == oldh
    }
}

/// A game in progress: the position core, the snapshots seen so far, and
/// which termination rules are enforced.
#[derive(Debug, Clone, PartialEq, Eq)]
pub struct GameState {
    pub core: GameStateCore,
    pub position_history: Vec<Position>,
    pub rule_set: RuleSet,
}

/// Whether the move list holds the move.
pub fn moves_contain(v: &Vec<Move>, m: Move) -> (r: bool)
    ensures
        r == v@.contains(m),
{
    let mut i: usize = 0;
    while i < v.len()
        invariant
            i <= v@.len(),
            forall|k: int| 0 <= k < i ==> v@[k] != m,
        decreases v@.len() - i,
    {
        if v[i].same_as(&m) {
            proof {
                assert(v@[i as int] == m);
            }
            return true;
        }
        i = i + 1;
    }
    proof {
        if v@.contains(m) {
            let k = choose|k: int| 0 <= k < v@.len() && v@[k] == m;
        }
    }
    false
}

/// Whether every move of the first list occurs in the second.
fn moves_subset(a: &Vec<Move>, b: &Vec<Move>) -> (r: bool)
    ensures
        r == forall|k: int| 0 <= k < a@.len() ==> b@.contains(#[trigger] a@[k]),
{
    let mut i: usize = 0;
    while i < a.len()
        invariant
            i <= a@.len(),
            forall|k: int| 0 <= k < i ==> b@.contains(#[trigger] a@[k]),
        decreases a@.len() - i,
    {
        if !moves_contain(b, a[i]) {
            return false;
        }
        i = i + 1;
    }
    true
}

/// Whether two snapshots agree on all three components.
pub fn position_eq(a: &Position, b: &Position) -> (r: bool)
    requires
        a.board.wf(),
        b.board.wf(),
    ensures
        r == pos_eq(*a, *b),
{
    if !a.board.same_as(&b.board) {
        return false;
    }
    if !(a.castling_rights == b.castling_rights) {
        return false;
    }
    let forward = moves_subset(&a.possible_moves, &b.possible_moves);
    let backward = moves_subset(&b.possible_moves, &a.possible_moves);
    proof {
        if forward && backward {
            assert forall|m: Move|
                a.possible_moves@.contains(m) <==> b.possible_moves@.contains(m) by {
                if a.possible_moves@.contains(m) {
                    let k = choose|k: int|
                        0 <= k < a.possible_moves@.len() && a.possible_moves@[k] == m;
                    assert(b.possible_moves@.contains(a.possible_moves@[k]));
                }
                if b.possible_moves@.contains(m) {
                    let k = choose|k: int|
                        0 <= k < b.possible_moves@.len() && b.possible_moves@[k] == m;
                    assert(a.possible_moves@.contains(b.possible_moves@[k]));
                }
            }
        }
        if !forward {
            let k = choose|k: int|
                !(0 <= k < a.possible_moves@.len() ==> b.possible_moves@.contains(
                    #[trigger] a.possible_moves@[k]));
            assert(a.possible_moves@.contains(a.possible_moves@[k]));
        }
        if !backward {
            let k = choose|k: int|
                !(0 <= k < b.possible_moves@.len() ==> a.possible_moves@.contains(
                    #[trigger] b.possible_moves@[k]));
            assert(b.possible_moves@.contains(b.possible_moves@[k]));
        }
    }
    forward && backward
}

/// Counting one more entry of the history adds one when it matches.
pub proof fn lemma_pos_count_take_step(h: Seq<Position>, p: Position, i: int)
    requires
        0 <= i < h.len(),
    ensures
        pos_count(h.take(i + 1), p) == pos_count(h.take(i), p) + if pos_eq(h[i], p) {
            1int
        } else {
            0int
        },
{
    assert(h.take(i + 1).drop_last() =~= h.take(i));
    assert(h.take(i + 1).last() == h[i]);
}

/// A finished game: how it ended and the state it ended in. A `Win` is
/// always credited to the side that just moved, which is still the
/// `active_player` of the final state.
#[derive(Debug, Clone, PartialEq, Eq)]
pub struct GameResult {
    pub kind: GameResultKind,
    pub final_game_state: GameState,
}

/// What `step` returns: the game goes on, or it just ended.
#[derive(Debug, Clone, PartialEq, Eq)]
pub enum StepResult {
    Terminated(GameResult),
    Continued(GameState),
}

impl GameState {
    /// A fresh game from the initial position under the standard rules.
    pub fn new() -> (r: GameState)
        ensures
            is_initial_core(r.core),
            core_wf(r.core),
            r.position_history@.len() == 0,
            r.rule_set == RuleSet::Standard,
    {
        GameState::default()
    }

    /// A game starting from the given position, standard rules, no history.
    pub fn with_core(core: GameStateCore) -> (r: GameState)
        ensures
            r.core == core,
            r.position_history@.len() == 0,
            r.rule_set == RuleSet::Standard,
    {
        GameState { core, position_history: Vec::new(), rule_set: RuleSet::Standard }
    }

    /// The initial position under the perft rules: only checkmate and
    /// stalemate terminate, and no history is kept.
    pub fn perft() -> (r: GameState)
        ensures
            is_initial_core(r.core),
            core_wf(r.core),
            r.position_history@.len() == 0,
            r.rule_set == RuleSet::Perft,
    {
        let g = GameState::default();
        GameState { rule_set: RuleSet::Perft, ..g }
    }

    /// Apply one legal move, drawn from `all_legal_moves` (the legal moves
    /// of this position, as `legal_moves` returns them), and decide how the
    /// game goes on. The checks run in a fixed order: checkmate and
    /// stalemate first, then the repetition, fifty-move and
    /// insufficient-material draws (standard rules only); otherwise the
    /// game continues with the opponent to move.
    #[verifier::rlimit(100)]
    pub fn step(self, mv: Move, all_legal_moves: Vec<Move>) -> (r: StepResult)
        requires
            core_wf(self.core),
            history_wf(self.position_history@),
            crate::move_gen::is_legal(self.core.cells(), self.core.active_player,
                self.core.castling_rights, self.core.en_passant_target, mv),
            self.core.fifty_move_rule_clock.0 < u64::MAX,
            self.core.full_move_count.0 < u64::MAX,
        ensures
            match r {
                StepResult::Continued(g) => {
                    &&& stepped_core(self.core, mv, g.core)
                    &&& g.core.active_player == opponent_spec(self.core.active_player)
                    &&& g.core.full_move_count.0 == self.core.full_move_count.0 + (
                    if self.core.active_player == PlayerKind::Black {
                        1int
                    } else {
                        0int
                    })
                    &&& g.rule_set == self.rule_set
                    &&& history_after(self.position_history@, self.rule_set,
                        crate::move_gen::apply_move_spec(self.core.cells(), mv),
                        all_legal_moves@, self.core.castling_rights, g.position_history@)
                    &&& history_wf(g.position_history@)
                    &&& crate::move_gen::exists_legal(g.core.cells(), g.core.active_player,
                        g.core.castling_rights, g.core.en_passant_target)
                    &&& (self.rule_set == RuleSet::Standard ==> pos_count(g.position_history@,
                        g.position_history@.last()) != REPETITIONS_TO_FORCED_DRAW_COUNT)
                    &&& (self.rule_set == RuleSet::Standard ==> g.core.fifty_move_rule_clock.0
                        != FIFTY_MOVE_RULE_COUNT)
                    &&& (self.rule_set == RuleSet::Standard ==> !material_kings_only(
                        g.core.cells()))
                    &&& core_wf(g.core)
                },
                StepResult::Terminated(gr) => {
                    let c = gr.final_game_state.core;
                    let nomoves = !crate::move_gen::exists_legal(c.cells(), opponent_spec(
                        c.active_player), c.castling_rights, c.en_passant_target);
                    let check = crate::board::in_check(c.cells(), opponent_spec(
                        c.active_player));
                    let rep = self.rule_set == RuleSet::Standard && pos_count(
                        gr.final_game_state.position_history@,
                        gr.final_game_state.position_history@.last())
                        == REPETITIONS_TO_FORCED_DRAW_COUNT;
                    let fifty = self.rule_set == RuleSet::Standard && c.fifty_move_rule_clock.0
                        == FIFTY_MOVE_RULE_COUNT;
                    let material = self.rule_set == RuleSet::Standard && material_kings_only(
                        c.cells());
                    &&& stepped_core(self.core, mv, c)
                    &&& c.active_player == self.core.active_player
                    &&& c.full_move_count == self.core.full_move_count
                    &&& gr.final_game_state.rule_set == self.rule_set
                    &&& history_after(self.position_history@, self.rule_set,
                        crate::move_gen::apply_move_spec(self.core.cells(), mv),
                        all_legal_moves@, self.core.castling_rights,
                        gr.final_game_state.position_history@)
                    &&& history_wf(gr.final_game_state.position_history@)
                    &&& (gr.kind == GameResultKind::Win <==> nomoves && check)
                    &&& (gr.kind == GameResultKind::Draw(DrawKind::Stalemate) <==> nomoves
                        && !check)
                    &&& (gr.kind == GameResultKind::Draw(DrawKind::ThreefoldRepetition)
                        <==> !nomoves && rep)
                    &&& (gr.kind == GameResultKind::Draw(DrawKind::FiftyMove) <==> !nomoves
                        && !rep && fifty)
                    &&& (gr.kind == GameResultKind::Draw(DrawKind::InsufficientMaterial)
                        <==> !nomoves && !rep && !fifty && material)
                },
            },
    {
        let ghost bs0 = self.core.cells();
        let ghost active0 = self.core.active_player;
        let ghost rights0 = self.core.castling_rights;
        let ghost ep0 = self.core.en_passant_target;
        let ghost hist0 = self.position_history@;
        let mut game = self;
        let mover = game.core.active_player;
        game.core.board.apply_move(mv);
        let ghost ap = game.core.cells();
        proof {
            crate::move_gen::lemma_candidate_preserves_kings(bs0, active0, rights0, ep0, mv);
            crate::move_gen::lemma_candidate_preserves_pawns_ok(bs0, active0, rights0, ep0,
                mv);
            crate::move_gen::lemma_candidate_preserves_rights_ok(bs0, active0, rights0, ep0,
                mv);
        }
        // record the snapshot for repetition detection (standard rules)
        if matches!(game.rule_set, RuleSet::Standard) {
            let snapshot = Position {
                board: game.core.board.duplicate(),
                possible_moves: all_legal_moves,
                castling_rights: game.core.castling_rights,
            };
            game.position_history.push(snapshot);
            proof {
                assert(game.position_history@.drop_last() =~= hist0);
            }
        }
        // the fifty-move clock resets on pawn moves and captures
        if mv.is_pawn_or_capture() {
            game.core.fifty_move_rule_clock.reset();
        } else {
            game.core.fifty_move_rule_clock.increase();
        }
        // the mover's own castling rights
        match mv.kind {
            MoveKind::King(_) => {
                game.core.deny_castling(mover, CastlingSide::Kingside);
                game.core.deny_castling(mover, CastlingSide::Queenside);
            },
            MoveKind::Rook { .. } => {
                if mv.origin == mover.rook_start(CastlingSide::Kingside) {
                    game.core.deny_castling(mover, CastlingSide::Kingside);
                }
                if mv.origin == mover.rook_start(CastlingSide::Queenside) {
                    game.core.deny_castling(mover, CastlingSide::Queenside);
                }
            },
            _ => {},
        }
        // the opponent's rights fall with a capture on the rook's start
        match mv.capture_affected_square() {
            Some(affected_square) => {
                if affected_square == mover.opponent().rook_start(CastlingSide::Kingside) {
                    game.core.deny_castling(mover.opponent(), CastlingSide::Kingside);
                }
                if affected_square == mover.opponent().rook_start(CastlingSide::Queenside) {
                    game.core.deny_castling(mover.opponent(), CastlingSide::Queenside);
                }
            },
            None => {},
        }
        proof {
            assert(game.core.castling_rights == rights_after(rights0, active0, mv));
        }
        // the en-passant window opens for exactly one ply
        if mv.kind.is_pawn_double_step() {
            proof {
                assert(crate::move_gen::is_pawn_step_candidate(bs0, active0, mv));
            }
            match mv.destination.plus(mover.backwards_one_row()) {
                Ok(behind) => {
                    game.core.en_passant_target = Some(behind);
                },
                Err(_) => {
                    proof {
                        assert(false);
                    }
                },
            }
        } else {
            game.core.en_passant_target = None;
        }
        // establish that the opponent's move generation is safe on the new
        // position before asking whether the opponent has any legal reply
        proof {
            lemma_step_ep_wf(bs0, active0, rights0, ep0, mv,
                game.core.en_passant_target);
        }
        game.core.active_player = mover.opponent();
        let future_moves = game.core.legal_moves();
        let opponent_has_moves = future_moves.len() > 0;
        let ghost newc_flipped = game.core;
        proof {
            if opponent_has_moves {
                assert(future_moves@.contains(future_moves@[0]));
            } else {
                if crate::move_gen::exists_legal(ap, opponent_spec(active0),
                    game.core.castling_rights, game.core.en_passant_target) {
                    let w = choose|m: Move|
                        crate::move_gen::is_legal(ap, opponent_spec(active0),
                            game.core.castling_rights, game.core.en_passant_target, m);
                    assert(future_moves@.contains(w));
                }
            }
        }
        if !opponent_has_moves {
            let in_check_now = game.core.board.is_king_checked(game.core.active_player);
            game.core.active_player = mover;
            if in_check_now {
                return StepResult::Terminated(GameResult {
                    kind: GameResultKind::Win,
                    final_game_state: game,
                });
            } else {
                return StepResult::Terminated(GameResult {
                    kind: GameResultKind::Draw(DrawKind::Stalemate),
                    final_game_state: game,
                });
            }
        }
        game.core.active_player = mover;
        if matches!(game.rule_set, RuleSet::Standard) {
            // count how often the just-recorded position has occurred
            let ghost hist = game.position_history@;
            let last_index = game.position_history.len() - 1;
            let mut occurrences: usize = 0;
            let mut i: usize = 0;
            while i < game.position_history.len()
                invariant
                    hist == game.position_history@,
                    history_wf(hist),
                    hist.len() >= 1,
                    last_index == hist.len() - 1,
                    i <= hist.len(),
                    occurrences <= i,
                    occurrences == pos_count(hist.take(i as int), hist.last()),
                decreases hist.len() - i,
            {
                proof {
                    lemma_pos_count_take_step(hist, hist.last(), i as int);
                }
                if position_eq(&game.position_history[i], &game.position_history[last_index]) {
                    occurrences = occurrences + 1;
                }
                i = i + 1;
            }
            proof {
                assert(hist.take(hist.len() as int) =~= hist);
            }
            if occurrences == REPETITIONS_TO_FORCED_DRAW_COUNT {
                return StepResult::Terminated(GameResult {
                    kind: GameResultKind::Draw(DrawKind::ThreefoldRepetition),
                    final_game_state: game,
                });
            }
            if game.core.fifty_move_rule_clock.0 == FIFTY_MOVE_RULE_COUNT {
                return StepResult::Terminated(GameResult {
                    kind: GameResultKind::Draw(DrawKind::FiftyMove),
                    final_game_state: game,
                });
            }
            let counts = game.core.board.piece_counts();
            if counts == PieceCounts::kings_only() {
                return StepResult::Terminated(GameResult {
                    kind: GameResultKind::Draw(DrawKind::InsufficientMaterial),
                    final_game_state: game,
                });
            }
        }
        if matches!(mover, PlayerKind::Black) {
            game.core.full_move_count.increase();
        }
        game.core.active_player = mover.opponent();
        StepResult::Continued(game)
    }

    /// The same game with the side to move flipped.
    pub fn with_opponent_active(self) -> (r: GameState)
        ensures
            r.core.board == self.core.board,
            r.core.fifty_move_rule_clock == self.core.fifty_move_rule_clock,
            r.core.castling_rights == self.core.castling_rights,
            r.core.en_passant_target == self.core.en_passant_target,
            r.core.active_player == opponent_spec(self.core.active_player),
            r.core.full_move_count == self.core.full_move_count,
            r.position_history == self.position_history,
            r.rule_set == self.rule_set,
    {
        let mut g = self;
        g.core.active_player = g.core.active_player.opponent();
        g
    }
}

impl Default for GameState {
    fn default() -> (r: Self)
        ensures
            is_initial_core(r.core),
            core_wf(r.core),
            r.position_history@.len() == 0,
            r.rule_set == RuleSet::Standard,
    {
        let core = GameStateCore::default();
        proof {
            crate::lemmas::lemma_initial_core_wf(core);
        }
        GameState { core, position_history: Vec::new(), rule_set: RuleSet::Standard }
    }
}

impl StepResult {
    /// The state carried either way.
    pub fn game_state(self) -> (r: GameState)
        ensures
            match self {
                StepResult::Terminated(gr) => r == gr.final_game_state,
                StepResult::Continued(g) => r == g,
            },
    {
        match self {
            StepResult::Terminated(GameResult { final_game_state: game_state, .. }) => game_state,
            StepResult::Continued(game_state) => game_state,
        }
    }
}

} // verus!
