//! The two players and their per-color geometry: pawn rows, forward
//! direction, and the squares involved in castling.
use vstd::prelude::*;
use crate::coord::Col;
use crate::coord::Offset;
use crate::coord::Row;
use crate::coord::Square;
use crate::game::CastlingSide;

verus! {

/// White or Black.
#[derive(Debug, Copy, Clone, PartialEq, Eq, Hash, Structural)]
pub enum PlayerKind {
    White,
    Black,
}

/// The rank a player's pawns start on: 2 for White, 7 for Black.
pub open spec fn pawn_start_row_spec(p: PlayerKind) -> int {
    match p {
        PlayerKind::White => 2,
        PlayerKind::Black => 7,
    }
}

/// The rank a player's pawns promote on: 8 for White, 1 for Black.
pub open spec fn pawn_promotion_row_spec(p: PlayerKind) -> int {
    match p {
        PlayerKind::White => 8,
        PlayerKind::Black => 1,
    }
}

/// The rank step of a forward pawn move: +1 for White, -1 for Black.
pub open spec fn forward_spec(p: PlayerKind) -> int {
    match p {
        PlayerKind::White => 1,
        PlayerKind::Black => -1,
    }
}

pub open spec fn opponent_spec(p: PlayerKind) -> PlayerKind {
    match p {
        PlayerKind::White => PlayerKind::Black,
        PlayerKind::Black => PlayerKind::White,
    }
}

/// The player's home rank: 1 for White, 8 for Black.
pub open spec fn home_row_spec(p: PlayerKind) -> Row {
    match p {
        PlayerKind::White => Row::_1,
        PlayerKind::Black => Row::_8,
    }
}

pub open spec fn king_start_spec(p: PlayerKind) -> Square {
    Square { col: Col::_5, row: home_row_spec(p) }
}

pub open spec fn king_castle_target_spec(p: PlayerKind, side: CastlingSide) -> Square {
    match side {
        CastlingSide::Kingside => Square { col: Col::_7, row: home_row_spec(p) },
        CastlingSide::Queenside => Square { col: Col::_3, row: home_row_spec(p) },
    }
}

pub open spec fn rook_start_spec(p: PlayerKind, side: CastlingSide) -> Square {
    match side {
        CastlingSide::Kingside => Square { col: Col::_8, row: home_row_spec(p) },
        CastlingSide::Queenside => Square { col: Col::_1, row: home_row_spec(p) },
    }
}

pub open spec fn rook_castle_target_spec(p: PlayerKind, side: CastlingSide) -> Square {
    match side {
        CastlingSide::Kingside => Square { col: Col::_6, row: home_row_spec(p) },
        CastlingSide::Queenside => Square { col: Col::_4, row: home_row_spec(p) },
    }
}

/// The squares the castling king stands on or passes through, none of which
/// may be attacked: its start, the square it crosses, and its destination.
pub open spec fn castle_transit_spec(p: PlayerKind, side: CastlingSide) -> Seq<Square> {
    match side {
        CastlingSide::Kingside => seq![
            Square { col: Col::_5, row: home_row_spec(p) },
            Square { col: Col::_6, row: home_row_spec(p) },
            Square { col: Col::_7, row: home_row_spec(p) },
        ],
        CastlingSide::Queenside => seq![
            Square { col: Col::_5, row: home_row_spec(p) },
            Square { col: Col::_4, row: home_row_spec(p) },
            Square { col: Col::_3, row: home_row_spec(p) },
        ],
    }
}

/// The squares strictly between king start and rook start, which must be
/// empty for castling.
pub open spec fn castle_free_spec(p: PlayerKind, side: CastlingSide) -> Seq<Square> {
    match side {
        CastlingSide::Kingside => seq![
            Square { col: Col::_6, row: home_row_spec(p) },
            Square { col: Col::_7, row: home_row_spec(p) },
        ],
        CastlingSide::Queenside => seq![
            Square { col: Col::_4, row: home_row_spec(p) },
            Square { col: Col::_3, row: home_row_spec(p) },
            Square { col: Col::_2, row: home_row_spec(p) },
        ],
    }
}

impl PlayerKind {
    pub fn opponent(self) -> (r: PlayerKind)
        ensures
            r == opponent_spec(self),
    {
        match self {
            PlayerKind::White => PlayerKind::Black,
            PlayerKind::Black => PlayerKind::White,
        }
    }

    pub fn pawn_starting_row(self) -> (r: Row)
        ensures
            r.as_int() == pawn_start_row_spec(self),
    {
        match self {
            PlayerKind::White => Row::_2,
            PlayerKind::Black => Row::_7,
        }
    }

    pub fn pawn_promotion_row(self) -> (r: Row)
        ensures
            r.as_int() == pawn_promotion_row_spec(self),
    {
        match self {
            PlayerKind::White => Row::_8,
            PlayerKind::Black => Row::_1,
        }
    }

    /// The castling king's path, which must be free of enemy threats.
    pub fn castling_non_check_needed_squares(self, castling_side: CastlingSide) -> (r: Vec<Square>)
        ensures
            r@ == castle_transit_spec(self, castling_side),
    {
        let home: Row = match self {
            PlayerKind::White => Row::_1,
            PlayerKind::Black => Row::_8,
        };
        let mut v: Vec<Square> = Vec::new();
        match castling_side {
            CastlingSide::Kingside => {
                v.push(Square { col: Col::_5, row: home });
                v.push(Square { col: Col::_6, row: home });
                v.push(Square { col: Col::_7, row: home });
            },
            CastlingSide::Queenside => {
                v.push(Square { col: Col::_5, row: home });
                v.push(Square { col: Col::_4, row: home });
                v.push(Square { col: Col::_3, row: home });
            },
        }
        proof {
            assert(v@ =~= castle_transit_spec(self, castling_side));
        }
        v
    }

    /// The squares between king and rook, which must hold no piece.
    pub fn castling_free_needed_squares(self, castling_side: CastlingSide) -> (r: Vec<Square>)
        ensures
            r@ == castle_free_spec(self, castling_side),
    {
        let home: Row = match self {
            PlayerKind::White => Row::_1,
            PlayerKind::Black => Row::_8,
        };
        let mut v: Vec<Square> = Vec::new();
        match castling_side {
            CastlingSide::Kingside => {
                v.push(Square { col: Col::_6, row: home });
                v.push(Square { col: Col::_7, row: home });
            },
            CastlingSide::Queenside => {
                v.push(Square { col: Col::_4, row: home });
                v.push(Square { col: Col::_3, row: home });
                v.push(Square { col: Col::_2, row: home });
            },
        }
        proof {
            assert(v@ =~= castle_free_spec(self, castling_side));
        }
        v
    }

    pub fn king_start(&self) -> (r: Square)
        ensures
            r == king_start_spec(*self),
    {
        match self {
            PlayerKind::White => Square { col: Col::_5, row: Row::_1 },
            PlayerKind::Black => Square { col: Col::_5, row: Row::_8 },
        }
    }

    pub fn king_castling_target(&self, castling_side: CastlingSide) -> (r: Square)
        ensures
            r == king_castle_target_spec(*self, castling_side),
    {
        let home: Row = match self {
            PlayerKind::White => Row::_1,
            PlayerKind::Black => Row::_8,
        };
        match castling_side {
            CastlingSide::Kingside => Square { col: Col::_7, row: home },
            CastlingSide::Queenside => Square { col: Col::_3, row: home },
        }
    }

    pub fn rook_start(&self, castling_side: CastlingSide) -> (r: Square)
        ensures
            r == rook_start_spec(*self, castling_side),
    {
        let home: Row = match self {
            PlayerKind::White => Row::_1,
            PlayerKind::Black => Row::_8,
        };
        match castling_side {
            CastlingSide::Kingside => Square { col: Col::_8, row: home },
            CastlingSide::Queenside => Square { col: Col::_1, row: home },
        }
    }

    pub fn rook_castling_target(&self, castling_side: CastlingSide) -> (r: Square)
        ensures
            r == rook_castle_target_spec(*self, castling_side),
    {
        let home: Row = match self {
            PlayerKind::White => Row::_1,
            PlayerKind::Black => Row::_8,
        };
        match castling_side {
            CastlingSide::Kingside => Square { col: Col::_6, row: home },
            CastlingSide::Queenside => Square { col: Col::_4, row: home },
        }
    }

    pub fn forwards_one_row(&self) -> (r: Offset)
        ensures
            r.col == 0 && r.row == forward_spec(*self),
    {
        match self {
            PlayerKind::White => Offset { col: 0, row: 1 },
            PlayerKind::Black => Offset { col: 0, row: -1 },
        }
    }

    pub fn backwards_one_row(&self) -> (r: Offset)
        ensures
            r.col == 0 && r.row == -forward_spec(*self),
    {
        match self {
            PlayerKind::White => Offset { col: 0, row: -1 },
            PlayerKind::Black => Offset { col: 0, row: 1 },
        }
    }
}

} // verus!
