//! Piece kinds, colored pieces, and the directions each piece threatens.
use vstd::prelude::*;
use crate::coord::Offset;
use crate::player::PlayerKind;

verus! {

/// The six kinds of chessmen.
#[derive(Debug, Copy, Clone, Eq, PartialEq, Hash, Structural)]
pub enum PieceKind {
    Pawn,
    Knight,
    Bishop,
    Rook,
    Queen,
    King,
}

/// A piece on the board: a kind owned by a player.
#[derive(Debug, Copy, Clone, PartialEq, Eq, Hash, Structural)]
pub struct Piece {
    pub owner: PlayerKind,
    pub kind: PieceKind,
}

/// How far a piece may travel along each of its directions.
#[derive(Debug, Copy, Clone, PartialEq, Eq, Structural)]
pub enum Range {
    One,
    Unlimited,
}

/// The kinds a pawn may promote to, in the order they are generated.
pub open spec fn promotion_kinds() -> Seq<PieceKind> {
    seq![PieceKind::Knight, PieceKind::Bishop, PieceKind::Rook, PieceKind::Queen]
}

/// The ray directions of a piece, for threat generation. Pawns list only
/// their two capture diagonals; forward pushes are no threats.
pub open spec fn threat_dirs_spec(p: Piece) -> Seq<Offset> {
    match (p.kind, p.owner) {
        (PieceKind::Pawn, PlayerKind::White) => seq![
            Offset { col: -1i8, row: 1i8 },
            Offset { col: 1i8, row: 1i8 },
        ],
        (PieceKind::Pawn, PlayerKind::Black) => seq![
            Offset { col: -1i8, row: -1i8 },
            Offset { col: 1i8, row: -1i8 },
        ],
        (PieceKind::Knight, _) => seq![
            Offset { col: -1i8, row: 2i8 },
            Offset { col: 1i8, row: 2i8 },
            Offset { col: -2i8, row: 1i8 },
            Offset { col: 2i8, row: 1i8 },
            Offset { col: -1i8, row: -2i8 },
            Offset { col: 1i8, row: -2i8 },
            Offset { col: -2i8, row: -1i8 },
            Offset { col: 2i8, row: -1i8 },
        ],
        (PieceKind::Bishop, _) => seq![
            Offset { col: -1i8, row: 1i8 },
            Offset { col: 1i8, row: 1i8 },
            Offset { col: -1i8, row: -1i8 },
            Offset { col: 1i8, row: -1i8 },
        ],
        (PieceKind::Rook, _) => seq![
            Offset { col: 0i8, row: 1i8 },
            Offset { col: 0i8, row: -1i8 },
            Offset { col: -1i8, row: 0i8 },
            Offset { col: 1i8, row: 0i8 },
        ],
        (PieceKind::Queen, _) | (PieceKind::King, _) => seq![
            Offset { col: 0i8, row: 1i8 },
            Offset { col: 0i8, row: -1i8 },
            Offset { col: -1i8, row: 0i8 },
            Offset { col: 1i8, row: 0i8 },
            Offset { col: -1i8, row: 1i8 },
            Offset { col: 1i8, row: 1i8 },
            Offset { col: -1i8, row: -1i8 },
            Offset { col: 1i8, row: -1i8 },
        ],
    }
}

/// The greatest number of steps a piece takes along one direction: 1 for
/// pawns, knights and kings; 7 (the width of the board less one) for the
/// sliding pieces.
pub open spec fn threat_range_spec(p: Piece) -> int {
    match p.kind {
        PieceKind::Pawn | PieceKind::Knight | PieceKind::King => 1,
        PieceKind::Bishop | PieceKind::Rook | PieceKind::Queen => 7,
    }
}

impl PieceKind {
    pub fn to_black_piece(self) -> (r: Piece)
        ensures
            r == (Piece { kind: self, owner: PlayerKind::Black }),
    {
        Piece { kind: self, owner: PlayerKind::Black }
    }

    pub fn to_white_piece(self) -> (r: Piece)
        ensures
            r == (Piece { kind: self, owner: PlayerKind::White }),
    {
        Piece { kind: self, owner: PlayerKind::White }
    }

    pub fn to_player_piece(self, player: PlayerKind) -> (r: Piece)
        ensures
            r == (Piece { kind: self, owner: player }),
    {
        Piece { kind: self, owner: player }
    }

    /// The four promotion choices, in generation order.
    pub fn promotion_options() -> (r: Vec<PieceKind>)
        ensures
            r@ == promotion_kinds(),
    {
        let mut v: Vec<PieceKind> = Vec::new();
        v.push(PieceKind::Knight);
        v.push(PieceKind::Bishop);
        v.push(PieceKind::Rook);
        v.push(PieceKind::Queen);
        proof {
            assert(v@ =~= promotion_kinds());
        }
        v
    }
}

impl Piece {
    pub fn new(owner: PlayerKind, kind: PieceKind) -> (r: Piece)
        ensures
            r == (Piece { owner, kind }),
    {
        Piece { owner, kind }
    }

    /// The directions this piece threatens along, and how far.
    pub fn threat_directions(&self) -> (r: (Vec<Offset>, Range))
        ensures
            r.0@ == threat_dirs_spec(*self),
            r.1 == (Range::One) <==> threat_range_spec(*self) == 1,
            r.1 == (Range::Unlimited) <==> threat_range_spec(*self) == 7,
    {
        let mut v: Vec<Offset> = Vec::new();
        let range: Range;
        match (self.kind, self.owner) {
            (PieceKind::Pawn, PlayerKind::White) => {
                v.push(Offset { col: -1, row: 1 });
                v.push(Offset { col: 1, row: 1 });
                range = Range::One;
            },
            (PieceKind::Pawn, PlayerKind::Black) => {
                v.push(Offset { col: -1, row: -1 });
                v.push(Offset { col: 1, row: -1 });
                range = Range::One;
            },
            (PieceKind::Knight, _) => {
                v.push(Offset { col: -1, row: 2 });
                v.push(Offset { col: 1, row: 2 });
                v.push(Offset { col: -2, row: 1 });
                v.push(Offset { col: 2, row: 1 });
                v.push(Offset { col: -1, row: -2 });
                v.push(Offset { col: 1, row: -2 });
                v.push(Offset { col: -2, row: -1 });
                v.push(Offset { col: 2, row: -1 });
                range = Range::One;
            },
            (PieceKind::Bishop, _) => {
                v.push(Offset { col: -1, row: 1 });
                v.push(Offset { col: 1, row: 1 });
                v.push(Offset { col: -1, row: -1 });
                v.push(Offset { col: 1, row: -1 });
                range = Range::Unlimited;
            },
            (PieceKind::Rook, _) => {
                v.push(Offset { col: 0, row: 1 });
                v.push(Offset { col: 0, row: -1 });
                v.push(Offset { col: -1, row: 0 });
                v.push(Offset { col: 1, row: 0 });
                range = Range::Unlimited;
            },
            (PieceKind::Queen, _) => {
                v.push(Offset { col: 0, row: 1 });
                v.push(Offset { col: 0, row: -1 });
                v.push(Offset { col: -1, row: 0 });
                v.push(Offset { col: 1, row: 0 });
                v.push(Offset { col: -1, row: 1 });
                v.push(Offset { col: 1, row: 1 });
                v.push(Offset { col: -1, row: -1 });
                v.push(Offset { col: 1, row: -1 });
                range = Range::Unlimited;
            },
            (PieceKind::King, _) => {
                v.push(Offset { col: 0, row: 1 });
                v.push(Offset { col: 0, row: -1 });
                v.push(Offset { col: -1, row: 0 });
                v.push(Offset { col: 1, row: 0 });
                v.push(Offset { col: -1, row: 1 });
                v.push(Offset { col: 1, row: 1 });
                v.push(Offset { col: -1, row: -1 });
                v.push(Offset { col: 1, row: -1 });
                range = Range::One;
            },
        }
        proof {
            assert(v@ =~= threat_dirs_spec(*self));
        }
        (v, range)
    }
}

} // verus!
