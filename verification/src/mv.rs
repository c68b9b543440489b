//! The move model: tagged move variants carrying all data needed to apply
//! them, and the predicates derived from a move.
use vstd::prelude::*;
use crate::coord::Square;
use crate::game::CastlingSide;
use crate::piece::Piece;
use crate::piece::PieceKind;

verus! {

/// One pseudo-legal move target: a piece, where it stands, and a square it
/// could move onto ignoring king safety.
#[derive(Debug, Copy, Clone, PartialEq, Eq)]
pub struct Threat {
    pub piece: Piece,
    pub origin: Square,
    pub destination: Square,
}

/// What a move does, beyond moving from origin to destination.
#[derive(Debug, Copy, Clone, PartialEq, Eq)]
pub enum MoveKind {
    Pawn(PawnMove),
    Knight { is_capture: bool },
    Bishop { is_capture: bool },
    Rook { is_capture: bool },
    Queen { is_capture: bool },
    King(KingMove),
}

/// The pawn move variants. A promotion replacement is carried iff the
/// destination lies on the promotion rank.
#[derive(Debug, Copy, Clone, PartialEq, Eq)]
pub enum PawnMove {
    SingleStep { promotion_replacement: Option<Piece> },
    DoubleStep,
    Capture { promotion_replacement: Option<Piece> },
    EnPassant { affected: Square },
}

/// The king move variants. A castle carries its rook's path explicitly, so
/// applying it needs no branching on the side.
#[derive(Debug, Copy, Clone, PartialEq, Eq)]
pub enum KingMove {
    Normal { is_capture: bool },
    Castle { rook_start: Square, rook_target: Square, castling_side: CastlingSide },
}

/// A move: what it does, where it starts, and where it lands.
#[derive(Debug, Copy, Clone, PartialEq, Eq)]
pub struct Move {
    pub kind: MoveKind,
    pub origin: Square,
    pub destination: Square,
}

/// The kind of piece a move is made with.
pub open spec fn piece_kind_spec(k: MoveKind) -> PieceKind {
    match k {
        MoveKind::Pawn(_) => PieceKind::Pawn,
        MoveKind::Knight { .. } => PieceKind::Knight,
        MoveKind::Bishop { .. } => PieceKind::Bishop,
        MoveKind::Rook { .. } => PieceKind::Rook,
        MoveKind::Queen { .. } => PieceKind::Queen,
        MoveKind::King(_) => PieceKind::King,
    }
}

/// Whether a move takes an opposing piece off the board.
pub open spec fn is_capture_spec(m: Move) -> bool {
    match m.kind {
        MoveKind::Knight { is_capture } => is_capture,
        MoveKind::Bishop { is_capture } => is_capture,
        MoveKind::Rook { is_capture } => is_capture,
        MoveKind::Queen { is_capture } => is_capture,
        MoveKind::King(KingMove::Normal { is_capture }) => is_capture,
        MoveKind::Pawn(PawnMove::Capture { .. }) => true,
        MoveKind::Pawn(PawnMove::EnPassant { .. }) => true,
        MoveKind::Pawn(PawnMove::SingleStep { .. }) => false,
        MoveKind::Pawn(PawnMove::DoubleStep) => false,
        MoveKind::King(KingMove::Castle { .. }) => false,
    }
}

/// The square a capture clears: the en-passant victim's square, else the
/// destination; `None` for a quiet move.
pub open spec fn capture_affected_square_spec(m: Move) -> Option<Square> {
    match m.kind {
        MoveKind::Pawn(PawnMove::EnPassant { affected }) => Some(affected),
        _ => if is_capture_spec(m) {
            Some(m.destination)
        } else {
            None
        },
    }
}

/// The promotion replacement a move carries, if any.
pub open spec fn promotion_replacement_spec(m: Move) -> Option<Piece> {
    match m.kind {
        MoveKind::Pawn(PawnMove::SingleStep { promotion_replacement }) => promotion_replacement,
        MoveKind::Pawn(PawnMove::Capture { promotion_replacement }) => promotion_replacement,
        _ => None,
    }
}

impl MoveKind {
    pub fn piece_kind(&self) -> (r: PieceKind)
        ensures
            r == piece_kind_spec(*self),
    {
        match self {
            MoveKind::Pawn(_) => PieceKind::Pawn,
            MoveKind::Knight { .. } => PieceKind::Knight,
            MoveKind::Bishop { .. } => PieceKind::Bishop,
            MoveKind::Rook { .. } => PieceKind::Rook,
            MoveKind::Queen { .. } => PieceKind::Queen,
            MoveKind::King(_) => PieceKind::King,
        }
    }

    pub fn is_pawn_double_step(&self) -> (r: bool)
        ensures
            r == (*self == MoveKind::Pawn(PawnMove::DoubleStep)),
    {
        matches!(self, MoveKind::Pawn(PawnMove::DoubleStep))
    }

    pub fn is_pawn_en_passant(&self) -> (r: bool)
        ensures
            r == matches!(*self, MoveKind::Pawn(PawnMove::EnPassant { .. })),
    {
        matches!(self, MoveKind::Pawn(PawnMove::EnPassant { .. }))
    }

    pub fn is_promotion(&self) -> (r: bool)
        ensures
            r == matches!(*self,
                MoveKind::Pawn(PawnMove::SingleStep { promotion_replacement: Some(_) })
                | MoveKind::Pawn(PawnMove::Capture { promotion_replacement: Some(_) })),
    {
        matches!(self,
            MoveKind::Pawn(PawnMove::SingleStep { promotion_replacement: Some(_) })
            | MoveKind::Pawn(PawnMove::Capture { promotion_replacement: Some(_) }))
    }
}

impl Move {
    pub fn is_capture(&self) -> (r: bool)
        ensures
            r == is_capture_spec(*self),
    {
        match self.kind {
            MoveKind::Knight { is_capture } => is_capture,
            MoveKind::Bishop { is_capture } => is_capture,
            MoveKind::Rook { is_capture } => is_capture,
            MoveKind::Queen { is_capture } => is_capture,
            MoveKind::King(KingMove::Normal { is_capture }) => is_capture,
            MoveKind::Pawn(PawnMove::Capture { .. }) => true,
            MoveKind::Pawn(PawnMove::EnPassant { .. }) => true,
            MoveKind::Pawn(PawnMove::SingleStep { .. }) => false,
            MoveKind::Pawn(PawnMove::DoubleStep) => false,
            MoveKind::King(KingMove::Castle { .. }) => false,
        }
    }

    /// The square this move empties by capture, if it captures.
    pub fn capture_affected_square(&self) -> (r: Option<Square>)
        ensures
            r == capture_affected_square_spec(*self),
    {
        if let MoveKind::Pawn(PawnMove::EnPassant { affected }) = self.kind {
            return Some(affected);
        }
        if self.is_capture() {
            Some(self.destination)
        } else {
            None
        }
    }

    /// Whether the move resets the fifty-move clock.
    pub fn is_pawn_or_capture(&self) -> (r: bool)
        ensures
            r == (piece_kind_spec(self.kind) == PieceKind::Pawn || is_capture_spec(*self)),
    {
        matches!(self.kind, MoveKind::Pawn(_)) || self.is_capture()
    }

    /// Structural equality, usable from verified code.
    pub fn same_as(&self, other: &Move) -> (r: bool)
        ensures
            r == (*self == *other),
    {
        if !(self.origin == other.origin && self.destination == other.destination) {
            return false;
        }
        match (self.kind, other.kind) {
            (MoveKind::Pawn(a), MoveKind::Pawn(b)) => match (a, b) {
                (
                    PawnMove::SingleStep { promotion_replacement: x },
                    PawnMove::SingleStep { promotion_replacement: y },
                ) => opt_piece_eq(x, y),
                (PawnMove::DoubleStep, PawnMove::DoubleStep) => true,
                (
                    PawnMove::Capture { promotion_replacement: x },
                    PawnMove::Capture { promotion_replacement: y },
                ) => opt_piece_eq(x, y),
                (PawnMove::EnPassant { affected: x }, PawnMove::EnPassant { affected: y }) => x
                    == y,
                _ => false,
            },
            (MoveKind::Knight { is_capture: x }, MoveKind::Knight { is_capture: y }) => x == y,
            (MoveKind::Bishop { is_capture: x }, MoveKind::Bishop { is_capture: y }) => x == y,
            (MoveKind::Rook { is_capture: x }, MoveKind::Rook { is_capture: y }) => x == y,
            (MoveKind::Queen { is_capture: x }, MoveKind::Queen { is_capture: y }) => x == y,
            (MoveKind::King(a), MoveKind::King(b)) => match (a, b) {
                (KingMove::Normal { is_capture: x }, KingMove::Normal { is_capture: y }) => x
                    == y,
                (
                    KingMove::Castle { rook_start: rs, rook_target: rt, castling_side: cs },
                    KingMove::Castle { rook_start: os, rook_target: ot, castling_side: oc },
                ) => rs == os && rt == ot && cs == oc,
                _ => false,
            },
            _ => false,
        }
    }
}

/// Structural equality of optional pieces, usable from verified code.
pub fn opt_piece_eq(a: Option<Piece>, b: Option<Piece>) -> (r: bool)
    ensures
        r == (a == b),
{
    match (a, b) {
        (None, None) => true,
        (Some(x), Some(y)) => x == y,
        _ => false,
    }
}

} // verus!
