//! The 8x8 board: storage, basic mutation, attack-ray traversal, and the
//! check predicate.
use vstd::prelude::*;
use crate::coord::Col;
use crate::coord::on_board;
use crate::coord::Offset;
use crate::coord::Row;
use crate::coord::Square;
use crate::game::PieceCounts;
use crate::mv::Threat;
use crate::piece::Piece;
use crate::piece::PieceKind;
use crate::piece::Range;
use crate::piece::threat_dirs_spec;
use crate::piece::threat_range_spec;
use crate::player::opponent_spec;
use crate::player::PlayerKind;

verus! {

/// Index of the square (file `c`, rank `r`) in the stored sequence, which
/// runs rank 8 to rank 1, file a to file h: the order FEN lists squares in.
pub open spec fn sq_idx(c: int, r: int) -> int {
    (8 - r) * 8 + (c - 1)
}

/// The content of the square (file `c`, rank `r`) of a 64-cell sequence.
pub open spec fn at_sq(bs: Seq<Option<Piece>>, c: int, r: int) -> Option<Piece> {
    bs[sq_idx(c, r)]
}

/// Whether the given player owns a piece on square `s`.
pub open spec fn occupied_by(bs: Seq<Option<Piece>>, s: Square, pl: PlayerKind) -> bool {
    match at_sq(bs, s.c(), s.r()) {
        Some(p) => p.owner == pl,
        None => false,
    }
}

/// File reached after `k` steps of a ray with file-delta `dc`.
pub open spec fn ray_c(o: Square, dc: int, k: int) -> int {
    o.c() + k * dc
}

/// Rank reached after `k` steps of a ray with rank-delta `dr`.
pub open spec fn ray_r(o: Square, dr: int, k: int) -> int {
    o.r() + k * dr
}

/// All squares strictly between the origin and step `k` of the ray are empty.
pub open spec fn path_clear_to(bs: Seq<Option<Piece>>, o: Square, dc: int, dr: int, k: int)
    -> bool {
    forall|j: int|
        1 <= j < k ==> #[trigger] at_sq(bs, ray_c(o, dc, j), ray_r(o, dr, j)) is None
}

/// Square `t` is reached from `o` along direction (`dc`, `dr`) within
/// `maxr` steps, over empty squares, and is not held by `pl`'s own piece.
pub open spec fn dir_threat(bs: Seq<Option<Piece>>, pl: PlayerKind, o: Square, dc: int, dr: int,
    maxr: int, t: Square) -> bool {
    exists|k: int|
        1 <= k <= maxr && #[trigger] ray_c(o, dc, k) == t.c() && ray_r(o, dr, k) == t.r()
            && path_clear_to(bs, o, dc, dr, k) && !occupied_by(bs, t, pl)
}

/// The piece `pl` owns on `o` threatens square `t`: `t` lies along one of
/// the piece's directions within its range, the path to it is clear, and it
/// does not hold one of `pl`'s own pieces. For pawns only the two capture
/// diagonals count, never the forward squares.
pub open spec fn threat_spec(bs: Seq<Option<Piece>>, pl: PlayerKind, o: Square, t: Square)
    -> bool {
    match at_sq(bs, o.c(), o.r()) {
        Some(p) => p.owner == pl && exists|di: int|
            0 <= di < threat_dirs_spec(p).len() && #[trigger] dir_threat(bs, pl, o,
                threat_dirs_spec(p)[di].col as int, threat_dirs_spec(p)[di].row as int,
                threat_range_spec(p), t),
        None => false,
    }
}

/// A `Threat` record is truthful for the board: its piece stands on its
/// origin, owned by `pl`, and threatens its destination.
pub open spec fn is_threat_full(bs: Seq<Option<Piece>>, pl: PlayerKind, t: Threat) -> bool {
    at_sq(bs, t.origin.c(), t.origin.r()) == Some(t.piece) && threat_spec(bs, pl, t.origin,
        t.destination)
}

/// Some piece of `pl` threatens square `s`.
pub open spec fn attacked(bs: Seq<Option<Piece>>, pl: PlayerKind, s: Square) -> bool {
    exists|o: Square| #[trigger] threat_spec(bs, pl, o, s)
}

/// `pl`'s king stands on a square threatened by the opponent.
pub open spec fn in_check(bs: Seq<Option<Piece>>, pl: PlayerKind) -> bool {
    exists|ks: Square|
        #[trigger] at_sq(bs, ks.c(), ks.r()) == Some(Piece { owner: pl, kind: PieceKind::King })
            && attacked(bs, opponent_spec(pl), ks)
}

/// How many cells of the sequence hold exactly the given piece.
pub open spec fn piece_count_seq(bs: Seq<Option<Piece>>, p: Piece) -> int
    decreases bs.len(),
{
    if bs.len() == 0 {
        0
    } else {
        piece_count_seq(bs.drop_last(), p) + if bs.last() == Some(p) {
            1int
        } else {
            0int
        }
    }
}

/// How many kings of the given color the board holds.
pub open spec fn king_count(bs: Seq<Option<Piece>>, pl: PlayerKind) -> int {
    piece_count_seq(bs, Piece { owner: pl, kind: PieceKind::King })
}

/// The piece standing on (file `c`, rank `r`) in the initial position.
pub open spec fn initial_piece_at(c: int, r: int) -> Option<Piece> {
    if r == 2 {
        Some(Piece { owner: PlayerKind::White, kind: PieceKind::Pawn })
    } else if r == 7 {
        Some(Piece { owner: PlayerKind::Black, kind: PieceKind::Pawn })
    } else if r == 1 || r == 8 {
        let owner = if r == 1 {
            PlayerKind::White
        } else {
            PlayerKind::Black
        };
        let kind = if c == 1 || c == 8 {
            PieceKind::Rook
        } else if c == 2 || c == 7 {
            PieceKind::Knight
        } else if c == 3 || c == 6 {
            PieceKind::Bishop
        } else if c == 4 {
            PieceKind::Queen
        } else {
            PieceKind::King
        };
        Some(Piece { owner, kind })
    } else {
        None
    }
}

/// Every square's coordinates lie in 1..=8.
pub proof fn lemma_square_bounds(s: Square)
    ensures
        1 <= s.c() <= 8,
        1 <= s.r() <= 8,
        0 <= sq_idx(s.c(), s.r()) < 64,
{
}

/// Two squares with the same coordinates are the same square.
pub proof fn lemma_coords_determine_square(a: Square, b: Square)
    requires
        a.c() == b.c(),
        a.r() == b.r(),
    ensures
        a == b,
{
}

/// Distinct on-board coordinates give distinct storage indices.
pub proof fn lemma_sq_idx_injective(c1: int, r1: int, c2: int, r2: int)
    requires
        on_board(c1, r1),
        on_board(c2, r2),
        sq_idx(c1, r1) == sq_idx(c2, r2),
    ensures
        c1 == c2,
        r1 == r2,
{
}

pub proof fn lemma_count_le_len(bs: Seq<Option<Piece>>, p: Piece)
    ensures
        0 <= piece_count_seq(bs, p) <= bs.len(),
    decreases bs.len(),
{
    if bs.len() > 0 {
        lemma_count_le_len(bs.drop_last(), p);
    }
}

/// Counting a one-longer prefix adds one when the new cell holds the piece.
pub proof fn lemma_count_take_step(bs: Seq<Option<Piece>>, p: Piece, i: int)
    requires
        0 <= i < bs.len(),
    ensures
        piece_count_seq(bs.take(i + 1), p) == piece_count_seq(bs.take(i), p) + if bs[i] == Some(p)
            {
            1int
        } else {
            0int
        },
{
    assert(bs.take(i + 1).drop_last() =~= bs.take(i));
    assert(bs.take(i + 1).last() == bs[i]);
}

/// A sequence holds no cell with the piece exactly when its count is zero.
pub proof fn lemma_count_zero_iff_absent(bs: Seq<Option<Piece>>, p: Piece)
    ensures
        piece_count_seq(bs, p) == 0 <==> forall|i: int| 0 <= i < bs.len() ==> bs[i] != Some(p),
    decreases bs.len(),
{
    if bs.len() > 0 {
        lemma_count_zero_iff_absent(bs.drop_last(), p);
        assert(forall|i: int| 0 <= i < bs.len() - 1 ==> bs[i] == bs.drop_last()[i]);
        lemma_count_le_len(bs.drop_last(), p);
    }
}

/// Replacing one cell changes the count by what leaves and what arrives.
pub proof fn lemma_count_update(bs: Seq<Option<Piece>>, p: Piece, i: int, v: Option<Piece>)
    requires
        0 <= i < bs.len(),
    ensures
        piece_count_seq(bs.update(i, v), p) == piece_count_seq(bs, p) - (if bs[i] == Some(p) {
            1int
        } else {
            0int
        }) + (if v == Some(p) {
            1int
        } else {
            0int
        }),
    decreases bs.len(),
{
    let upd = bs.update(i, v);
    if i == bs.len() - 1 {
        assert(upd.drop_last() =~= bs.drop_last());
        assert(upd.last() == v);
    } else {
        assert(upd.drop_last() =~= bs.drop_last().update(i, v));
        assert(upd.last() == bs.last());
        lemma_count_update(bs.drop_last(), p, i, v);
    }
}

/// A ray with unit steps that has left the board never returns to it.
pub proof fn lemma_ray_off_monotone(o: Square, dc: int, dr: int, k: int, k2: int)
    requires
        -1 <= dc <= 1,
        -1 <= dr <= 1,
        1 <= k <= k2,
        !on_board(ray_c(o, dc, k), ray_r(o, dr, k)),
    ensures
        !on_board(ray_c(o, dc, k2), ray_r(o, dr, k2)),
{
    lemma_square_bounds(o);
    let oc = o.c();
    let orr = o.r();
    assert(!(1 <= oc + k2 * dc <= 8 && 1 <= orr + k2 * dr <= 8)) by (nonlinear_arith)
        requires
            1 <= oc <= 8,
            1 <= orr <= 8,
            -1 <= dc <= 1,
            -1 <= dr <= 1,
            1 <= k <= k2,
            !(1 <= oc + k * dc <= 8 && 1 <= orr + k * dr <= 8),
    ;
}

/// Each entry of a piece's direction table is a small offset, and the
/// sliding pieces (range 7) use unit steps only.
pub proof fn lemma_dirs_bounded(p: Piece, i: int)
    requires
        0 <= i < threat_dirs_spec(p).len(),
    ensures
        -2 <= threat_dirs_spec(p)[i].col <= 2,
        -2 <= threat_dirs_spec(p)[i].row <= 2,
        !(threat_dirs_spec(p)[i].col == 0 && threat_dirs_spec(p)[i].row == 0),
        threat_range_spec(p) == 7 ==> -1 <= threat_dirs_spec(p)[i].col <= 1 && -1
            <= threat_dirs_spec(p)[i].row <= 1,
{
}

/// A threat within some range is a threat within any larger range.
pub proof fn lemma_dir_threat_mono(bs: Seq<Option<Piece>>, pl: PlayerKind, o: Square, dc: int,
    dr: int, m1: int, m2: int, t: Square)
    requires
        m1 <= m2,
        dir_threat(bs, pl, o, dc, dr, m1, t),
    ensures
        dir_threat(bs, pl, o, dc, dr, m2, t),
{
    let k = choose|k: int|
        1 <= k <= m1 && #[trigger] ray_c(o, dc, k) == t.c() && ray_r(o, dr, k) == t.r()
            && path_clear_to(bs, o, dc, dr, k) && !occupied_by(bs, t, pl);
    assert(1 <= k <= m2 && ray_c(o, dc, k) == t.c() && ray_r(o, dr, k) == t.r()
        && path_clear_to(bs, o, dc, dr, k) && !occupied_by(bs, t, pl));
}

/// Pushing onto a sequence adds exactly the pushed element.
pub proof fn lemma_push_contains<T>(prev: Seq<T>, cur: Seq<T>, x: T)
    requires
        cur == prev.push(x),
    ensures
        forall|t: T| cur.contains(t) <==> prev.contains(t) || t == x,
{
    assert forall|t: T| cur.contains(t) implies prev.contains(t) || t == x by {
        let j = choose|j: int| 0 <= j < cur.len() && cur[j] == t;
        if j < prev.len() {
            assert(prev[j] == t);
        }
    }
    assert forall|t: T| prev.contains(t) || t == x implies cur.contains(t) by {
        if t == x {
            assert(cur[prev.len() as int] == t);
        } else {
            let j = choose|j: int| 0 <= j < prev.len() && prev[j] == t;
            assert(cur[j] == t);
        }
    }
}

/// A blocker found at step `k` closes the rest of the ray: nothing beyond
/// `k` is a threat.
proof fn lemma_ray_blocked(bs: Seq<Option<Piece>>, pl: PlayerKind, o: Square, dc: int, dr: int,
    k: int, maxr: int)
    requires
        1 <= k <= maxr,
        at_sq(bs, ray_c(o, dc, k), ray_r(o, dr, k)) is Some,
    ensures
        forall|t: Square|
            dir_threat(bs, pl, o, dc, dr, maxr, t) <==> dir_threat(bs, pl, o, dc, dr, k, t),
{
    assert forall|t: Square|
        dir_threat(bs, pl, o, dc, dr, maxr, t) implies dir_threat(bs, pl, o, dc, dr, k, t) by {
        let k2 = choose|k2: int|
            1 <= k2 <= maxr && #[trigger] ray_c(o, dc, k2) == t.c() && ray_r(o, dr, k2) == t.r()
                && path_clear_to(bs, o, dc, dr, k2) && !occupied_by(bs, t, pl);
        if k2 > k {
            assert(at_sq(bs, ray_c(o, dc, k), ray_r(o, dr, k)) is None);
        }
    }
    assert forall|t: Square|
        dir_threat(bs, pl, o, dc, dr, k, t) implies dir_threat(bs, pl, o, dc, dr, maxr, t) by {
        lemma_dir_threat_mono(bs, pl, o, dc, dr, k, maxr, t);
    }
}

/// An own piece at step `k` is itself no threat target, so the threats
/// within `k` steps are the threats within `k - 1`.
proof fn lemma_ray_own(bs: Seq<Option<Piece>>, pl: PlayerKind, o: Square, dc: int, dr: int,
    k: int)
    requires
        1 <= k,
        occupied_at(bs, ray_c(o, dc, k), ray_r(o, dr, k), pl),
    ensures
        forall|t: Square|
            dir_threat(bs, pl, o, dc, dr, k, t) <==> dir_threat(bs, pl, o, dc, dr, k - 1, t),
{
    assert forall|t: Square|
        dir_threat(bs, pl, o, dc, dr, k, t) implies dir_threat(bs, pl, o, dc, dr, k - 1, t) by {
        let k2 = choose|k2: int|
            1 <= k2 <= k && #[trigger] ray_c(o, dc, k2) == t.c() && ray_r(o, dr, k2) == t.r()
                && path_clear_to(bs, o, dc, dr, k2) && !occupied_by(bs, t, pl);
        if k2 == k {
            assert(occupied_by(bs, t, pl));
        }
    }
    assert forall|t: Square|
        dir_threat(bs, pl, o, dc, dr, k - 1, t) implies dir_threat(bs, pl, o, dc, dr, k, t) by {
        lemma_dir_threat_mono(bs, pl, o, dc, dr, k - 1, k, t);
    }
}

/// The ray left the board at step `k`: the threats within any wider bound
/// are the threats within `k - 1` steps.
proof fn lemma_ray_off_board(bs: Seq<Option<Piece>>, pl: PlayerKind, o: Square, dc: int,
    dr: int, k: int, maxr: int)
    requires
        1 <= k <= maxr,
        !on_board(ray_c(o, dc, k), ray_r(o, dr, k)),
        maxr == 1 || (-1 <= dc <= 1 && -1 <= dr <= 1),
    ensures
        forall|t: Square|
            dir_threat(bs, pl, o, dc, dr, maxr, t) <==> dir_threat(bs, pl, o, dc, dr, k - 1, t),
{
    assert forall|t: Square|
        dir_threat(bs, pl, o, dc, dr, maxr, t) implies dir_threat(bs, pl, o, dc, dr, k - 1,
        t) by {
        lemma_square_bounds(t);
        let k2 = choose|k2: int|
            1 <= k2 <= maxr && #[trigger] ray_c(o, dc, k2) == t.c() && ray_r(o, dr, k2) == t.r()
                && path_clear_to(bs, o, dc, dr, k2) && !occupied_by(bs, t, pl);
        if k2 >= k {
            if k2 > k {
                lemma_ray_off_monotone(o, dc, dr, k, k2);
            }
            assert(!on_board(ray_c(o, dc, k2), ray_r(o, dr, k2)));
            assert(false);
        }
    }
    assert forall|t: Square|
        dir_threat(bs, pl, o, dc, dr, k - 1, t) implies dir_threat(bs, pl, o, dc, dr, maxr,
        t) by {
        lemma_dir_threat_mono(bs, pl, o, dc, dr, k - 1, maxr, t);
    }
}

/// Seeing one more reachable square extends the threats by exactly it.
proof fn lemma_ray_extend(bs: Seq<Option<Piece>>, pl: PlayerKind, o: Square, dc: int, dr: int,
    k: int, sq: Square)
    requires
        1 <= k,
        sq.c() == ray_c(o, dc, k),
        sq.r() == ray_r(o, dr, k),
        dir_threat(bs, pl, o, dc, dr, k, sq),
    ensures
        forall|t: Square|
            dir_threat(bs, pl, o, dc, dr, k, t) <==> dir_threat(bs, pl, o, dc, dr, k - 1, t)
                || t == sq,
{
    assert forall|t: Square|
        dir_threat(bs, pl, o, dc, dr, k, t) implies dir_threat(bs, pl, o, dc, dr, k - 1, t) || t
        == sq by {
        let k2 = choose|k2: int|
            1 <= k2 <= k && #[trigger] ray_c(o, dc, k2) == t.c() && ray_r(o, dr, k2) == t.r()
                && path_clear_to(bs, o, dc, dr, k2) && !occupied_by(bs, t, pl);
        if k2 == k {
            lemma_coords_determine_square(t, sq);
        }
    }
    assert forall|t: Square|
        dir_threat(bs, pl, o, dc, dr, k - 1, t) || t == sq implies dir_threat(bs, pl, o, dc, dr,
        k, t) by {
        if t == sq {
        } else {
            lemma_dir_threat_mono(bs, pl, o, dc, dr, k - 1, k, t);
        }
    }
}

/// Whether the (possibly off-board) coordinates hold a piece of `pl`.
pub open spec fn occupied_at(bs: Seq<Option<Piece>>, c: int, r: int, pl: PlayerKind) -> bool {
    match bs[sq_idx(c, r)] {
        Some(p) => p.owner == pl,
        None => false,
    }
}

/// A piece present at two positions of the sequence at least twice counts
/// at least twice.
pub proof fn lemma_count_two(bs: Seq<Option<Piece>>, p: Piece, i: int, j: int)
    requires
        0 <= i < j < bs.len(),
        bs[i] == Some(p),
        bs[j] == Some(p),
    ensures
        piece_count_seq(bs, p) >= 2,
    decreases bs.len(),
{
    if j == bs.len() - 1 {
        lemma_count_zero_iff_absent(bs.drop_last(), p);
        lemma_count_le_len(bs.drop_last(), p);
        assert(bs.drop_last()[i] == Some(p));
    } else {
        lemma_count_two(bs.drop_last(), p, i, j);
    }
}

/// The 8x8 board: a 64-cell mapping from square to optional piece, stored
/// rank 8 down to rank 1, file a to file h.
#[derive(Debug, Clone, PartialEq, Eq)]
pub struct Board {
    pub squares: Vec<Option<Piece>>,
}

impl Board {
    /// A board holds exactly 64 cells.
    pub open spec fn wf(self) -> bool {
        self.squares@.len() == 64
    }

    /// The piece on square `s`, if any.
    pub open spec fn spec_at(self, s: Square) -> Option<Piece> {
        at_sq(self.squares@, s.c(), s.r())
    }

    /// The board with no pieces.
    pub fn empty() -> (r: Board)
        ensures
            r.wf(),
            forall|i: int| 0 <= i < 64 ==> r.squares@[i] is None,
    {
        let mut v: Vec<Option<Piece>> = Vec::new();
        let mut i: usize = 0;
        while i < 64
            invariant
                v@.len() == i,
                i <= 64,
                forall|k: int| 0 <= k < i ==> v@[k] is None,
            decreases 64 - i,
        {
            v.push(None);
            i = i + 1;
        }
        Board { squares: v }
    }

    pub fn at(&self, s: Square) -> (r: Option<Piece>)
        requires
            self.wf(),
        ensures
            r == self.spec_at(s),
    {
        proof {
            lemma_square_bounds(s);
        }
        let idx: usize = (8 - s.row.index() as usize) * 8 + (s.col.index() as usize - 1);
        self.squares[idx]
    }

    pub fn set(&mut self, s: Square, p: Option<Piece>)
        requires
            old(self).wf(),
        ensures
            final(self).squares@ == old(self).squares@.update(sq_idx(s.c(), s.r()), p),
            final(self).wf(),
    {
        proof {
            lemma_square_bounds(s);
        }
        let idx: usize = (8 - s.row.index() as usize) * 8 + (s.col.index() as usize - 1);
        self.squares[idx] = p;
    }

    /// Pure data movement: the target takes whatever stood on the start,
    /// and the start is cleared. No legality check of any kind.
    pub fn mov(&mut self, start: Square, target: Square)
        requires
            old(self).wf(),
        ensures
            final(self).wf(),
            final(self).squares@ == old(self).squares@.update(sq_idx(target.c(), target.r()),
                old(self).spec_at(start)).update(sq_idx(start.c(), start.r()), None),
    {
        let moving: Option<Piece> = self.at(start);
        self.set(target, moving);
        self.set(start, None);
    }

    /// A field-by-field copy of the board.
    pub fn duplicate(&self) -> (r: Board)
        requires
            self.wf(),
        ensures
            r.squares@ == self.squares@,
            r.wf(),
    {
        let mut v: Vec<Option<Piece>> = Vec::new();
        let mut i: usize = 0;
        while i < 64
            invariant
                self.wf(),
                v@.len() == i,
                i <= 64,
                forall|k: int| 0 <= k < i ==> v@[k] == self.squares@[k],
            decreases 64 - i,
        {
            v.push(self.squares[i]);
            i = i + 1;
        }
        proof {
            assert(v@ =~= self.squares@);
        }
        Board { squares: v }
    }

    /// The standard initial position.
    pub fn new() -> (r: Board)
        ensures
            r.wf(),
            forall|c: int, r2: int|
                on_board(c, r2) ==> #[trigger] at_sq(r.squares@, c, r2) == initial_piece_at(c,
                    r2),
    {
        let mut v: Vec<Option<Piece>> = Vec::new();
        let mut i: usize = 0;
        while i < 64
            invariant
                v@.len() == i,
                i <= 64,
                forall|k: int|
                    0 <= k < i ==> v@[k] == initial_piece_at(k % 8 + 1, 8 - k / 8),
            decreases 64 - i,
        {
            let c: u8 = (i % 8 + 1) as u8;
            let r2: u8 = (8 - i / 8) as u8;
            v.push(Board::initial_piece(c, r2));
            i = i + 1;
        }
        let b = Board { squares: v };
        proof {
            assert forall|c: int, r2: int| on_board(c, r2) implies #[trigger] at_sq(b.squares@,
                c, r2) == initial_piece_at(c, r2) by {
                let k = sq_idx(c, r2);
                assert(b.squares@[k] == initial_piece_at(k % 8 + 1, 8 - k / 8));
                assert(k % 8 + 1 == c && 8 - k / 8 == r2);
            }
        }
        b
    }

    /// The piece the initial position puts on (file `c`, rank `r`).
    fn initial_piece(c: u8, r: u8) -> (res: Option<Piece>)
        requires
            1 <= c <= 8,
            1 <= r <= 8,
        ensures
            res == initial_piece_at(c as int, r as int),
    {
        if r == 2 {
            Some(Piece { owner: PlayerKind::White, kind: PieceKind::Pawn })
        } else if r == 7 {
            Some(Piece { owner: PlayerKind::Black, kind: PieceKind::Pawn })
        } else if r == 1 || r == 8 {
            let owner = if r == 1 {
                PlayerKind::White
            } else {
                PlayerKind::Black
            };
            let kind = if c == 1 || c == 8 {
                PieceKind::Rook
            } else if c == 2 || c == 7 {
                PieceKind::Knight
            } else if c == 3 || c == 6 {
                PieceKind::Bishop
            } else if c == 4 {
                PieceKind::Queen
            } else {
                PieceKind::King
            };
            Some(Piece { owner, kind })
        } else {
            None
        }
    }

    /// Where the given player's king stands. The board must hold exactly
    /// one king of that color.
    pub fn king_position(&self, king_owner: PlayerKind) -> (r: Square)
        requires
            self.wf(),
            king_count(self.squares@, king_owner) == 1,
        ensures
            self.spec_at(r) == Some(Piece { owner: king_owner, kind: PieceKind::King }),
    {
        let king = Piece { owner: king_owner, kind: PieceKind::King };
        let mut i: usize = 0;
        while i < 64
            invariant
                self.wf(),
                i <= 64,
                king == (Piece { owner: king_owner, kind: PieceKind::King }),
                king_count(self.squares@, king_owner) == 1,
                forall|k: int| 0 <= k < i ==> self.squares@[k] != Some(king),
            decreases 64 - i,
        {
            if let Some(p) = self.squares[i] {
                if p.owner == king_owner && matches!(p.kind, PieceKind::King) {
                    let c: u8 = (i % 8 + 1) as u8;
                    let r2: u8 = (8 - i / 8) as u8;
                    let sq = Square { col: Col::from_index(c), row: Row::from_index(r2) };
                    proof {
                        assert(sq_idx(sq.c(), sq.r()) == i);
                    }
                    return sq;
                }
            }
            i = i + 1;
        }
        proof {
            lemma_count_zero_iff_absent(self.squares@, king);
            assert(false);
        }
        Square { col: Col::_1, row: Row::_1 }
    }

    /// The multiplicity of every piece on the board.
    pub fn piece_counts(&self) -> (r: PieceCounts)
        requires
            self.wf(),
        ensures
            r.white_pawn == piece_count_seq(self.squares@, Piece { owner: PlayerKind::White,
                kind: PieceKind::Pawn }),
            r.white_knight == piece_count_seq(self.squares@, Piece { owner: PlayerKind::White,
                kind: PieceKind::Knight }),
            r.white_bishop == piece_count_seq(self.squares@, Piece { owner: PlayerKind::White,
                kind: PieceKind::Bishop }),
            r.white_rook == piece_count_seq(self.squares@, Piece { owner: PlayerKind::White,
                kind: PieceKind::Rook }),
            r.white_queen == piece_count_seq(self.squares@, Piece { owner: PlayerKind::White,
                kind: PieceKind::Queen }),
            r.white_king == piece_count_seq(self.squares@, Piece { owner: PlayerKind::White,
                kind: PieceKind::King }),
            r.black_pawn == piece_count_seq(self.squares@, Piece { owner: PlayerKind::Black,
                kind: PieceKind::Pawn }),
            r.black_knight == piece_count_seq(self.squares@, Piece { owner: PlayerKind::Black,
                kind: PieceKind::Knight }),
            r.black_bishop == piece_count_seq(self.squares@, Piece { owner: PlayerKind::Black,
                kind: PieceKind::Bishop }),
            r.black_rook == piece_count_seq(self.squares@, Piece { owner: PlayerKind::Black,
                kind: PieceKind::Rook }),
            r.black_queen == piece_count_seq(self.squares@, Piece { owner: PlayerKind::Black,
                kind: PieceKind::Queen }),
            r.black_king == piece_count_seq(self.squares@, Piece { owner: PlayerKind::Black,
                kind: PieceKind::King }),
    {
        let bs = Ghost(self.squares@);
        let mut counts = PieceCounts {
            white_pawn: 0,
            white_knight: 0,
            white_bishop: 0,
            white_rook: 0,
            white_queen: 0,
            white_king: 0,
            black_pawn: 0,
            black_knight: 0,
            black_bishop: 0,
            black_rook: 0,
            black_queen: 0,
            black_king: 0,
        };
        let mut i: usize = 0;
        while i < 64
            invariant
                self.wf(),
                bs@ == self.squares@,
                i <= 64,
                counts.white_pawn == piece_count_seq(bs@.take(i as int), Piece {
                    owner: PlayerKind::White, kind: PieceKind::Pawn }),
                counts.white_knight == piece_count_seq(bs@.take(i as int), Piece {
                    owner: PlayerKind::White, kind: PieceKind::Knight }),
                counts.white_bishop == piece_count_seq(bs@.take(i as int), Piece {
                    owner: PlayerKind::White, kind: PieceKind::Bishop }),
                counts.white_rook == piece_count_seq(bs@.take(i as int), Piece {
                    owner: PlayerKind::White, kind: PieceKind::Rook }),
                counts.white_queen == piece_count_seq(bs@.take(i as int), Piece {
                    owner: PlayerKind::White, kind: PieceKind::Queen }),
                counts.white_king == piece_count_seq(bs@.take(i as int), Piece {
                    owner: PlayerKind::White, kind: PieceKind::King }),
                counts.black_pawn == piece_count_seq(bs@.take(i as int), Piece {
                    owner: PlayerKind::Black, kind: PieceKind::Pawn }),
                counts.black_knight == piece_count_seq(bs@.take(i as int), Piece {
                    owner: PlayerKind::Black, kind: PieceKind::Knight }),
                counts.black_bishop == piece_count_seq(bs@.take(i as int), Piece {
                    owner: PlayerKind::Black, kind: PieceKind::Bishop }),
                counts.black_rook == piece_count_seq(bs@.take(i as int), Piece {
                    owner: PlayerKind::Black, kind: PieceKind::Rook }),
                counts.black_queen == piece_count_seq(bs@.take(i as int), Piece {
                    owner: PlayerKind::Black, kind: PieceKind::Queen }),
                counts.black_king == piece_count_seq(bs@.take(i as int), Piece {
                    owner: PlayerKind::Black, kind: PieceKind::King }),
            decreases 64 - i,
        {
            proof {
                lemma_count_take_step(bs@, Piece { owner: PlayerKind::White,
                    kind: PieceKind::Pawn }, i as int);
                lemma_count_take_step(bs@, Piece { owner: PlayerKind::White,
                    kind: PieceKind::Knight }, i as int);
                lemma_count_take_step(bs@, Piece { owner: PlayerKind::White,
                    kind: PieceKind::Bishop }, i as int);
                lemma_count_take_step(bs@, Piece { owner: PlayerKind::White,
                    kind: PieceKind::Rook }, i as int);
                lemma_count_take_step(bs@, Piece { owner: PlayerKind::White,
                    kind: PieceKind::Queen }, i as int);
                lemma_count_take_step(bs@, Piece { owner: PlayerKind::White,
                    kind: PieceKind::King }, i as int);
                lemma_count_take_step(bs@, Piece { owner: PlayerKind::Black,
                    kind: PieceKind::Pawn }, i as int);
                lemma_count_take_step(bs@, Piece { owner: PlayerKind::Black,
                    kind: PieceKind::Knight }, i as int);
                lemma_count_take_step(bs@, Piece { owner: PlayerKind::Black,
                    kind: PieceKind::Bishop }, i as int);
                lemma_count_take_step(bs@, Piece { owner: PlayerKind::Black,
                    kind: PieceKind::Rook }, i as int);
                lemma_count_take_step(bs@, Piece { owner: PlayerKind::Black,
                    kind: PieceKind::Queen }, i as int);
                lemma_count_take_step(bs@, Piece { owner: PlayerKind::Black,
                    kind: PieceKind::King }, i as int);
                lemma_count_le_len(bs@.take(i as int), Piece { owner: PlayerKind::White,
                    kind: PieceKind::Pawn });
            }
            if let Some(p) = self.squares[i] {
                proof {
                    lemma_count_le_len(bs@.take(i as int), p);
                }
                match (p.owner, p.kind) {
                    (PlayerKind::White, PieceKind::Pawn) => {
                        counts.white_pawn = counts.white_pawn + 1;
                    },
                    (PlayerKind::White, PieceKind::Knight) => {
                        counts.white_knight = counts.white_knight + 1;
                    },
                    (PlayerKind::White, PieceKind::Bishop) => {
                        counts.white_bishop = counts.white_bishop + 1;
                    },
                    (PlayerKind::White, PieceKind::Rook) => {
                        counts.white_rook = counts.white_rook + 1;
                    },
                    (PlayerKind::White, PieceKind::Queen) => {
                        counts.white_queen = counts.white_queen + 1;
                    },
                    (PlayerKind::White, PieceKind::King) => {
                        counts.white_king = counts.white_king + 1;
                    },
                    (PlayerKind::Black, PieceKind::Pawn) => {
                        counts.black_pawn = counts.black_pawn + 1;
                    },
                    (PlayerKind::Black, PieceKind::Knight) => {
                        counts.black_knight = counts.black_knight + 1;
                    },
                    (PlayerKind::Black, PieceKind::Bishop) => {
                        counts.black_bishop = counts.black_bishop + 1;
                    },
                    (PlayerKind::Black, PieceKind::Rook) => {
                        counts.black_rook = counts.black_rook + 1;
                    },
                    (PlayerKind::Black, PieceKind::Queen) => {
                        counts.black_queen = counts.black_queen + 1;
                    },
                    (PlayerKind::Black, PieceKind::King) => {
                        counts.black_king = counts.black_king + 1;
                    },
                }
            }
            i = i + 1;
        }
        proof {
            assert(bs@.take(64) =~= bs@);
        }
        counts
    }

    /// Whether two boards hold the same pieces on every square.
    pub fn same_as(&self, other: &Board) -> (r: bool)
        requires
            self.wf(),
            other.wf(),
        ensures
            r == (self.squares@ == other.squares@),
    {
        let mut i: usize = 0;
        while i < 64
            invariant
                self.wf(),
                other.wf(),
                i <= 64,
                forall|k: int| 0 <= k < i ==> self.squares@[k] == other.squares@[k],
            decreases 64 - i,
        {
            if !crate::mv::opt_piece_eq(self.squares[i], other.squares[i]) {
                return false;
            }
            i = i + 1;
        }
        proof {
            assert(self.squares@ =~= other.squares@);
        }
        true
    }

    /// Walk one ray from `origin` and add every threatened square: empty
    /// squares are threatened and passed over, an opposing piece is
    /// threatened and stops the ray, an own piece stops it unthreatened.
    #[verifier::rlimit(100)]
    fn ray_threats(&self, piece: Piece, origin: Square, dir: Offset, max_range: u8,
        out: &mut Vec<Threat>)
        requires
            self.wf(),
            -2 <= dir.col <= 2,
            -2 <= dir.row <= 2,
            !(dir.col == 0 && dir.row == 0),
            max_range == 1 || (max_range == 7 && -1 <= dir.col <= 1 && -1 <= dir.row <= 1),
        ensures
            forall|t: Threat|
                final(out)@.contains(t) <==> old(out)@.contains(t) || (t.piece == piece
                    && t.origin == origin && dir_threat(self.squares@, piece.owner, origin,
                    dir.col as int, dir.row as int, max_range as int, t.destination)),
    {
        let ghost bs = self.squares@;
        let ghost dc: int = dir.col as int;
        let ghost dr: int = dir.row as int;
        let ghost pl = piece.owner;
        let mut k: u8 = 1;
        while k <= max_range
            invariant
                self.wf(),
                bs == self.squares@,
                dc == dir.col as int,
                dr == dir.row as int,
                pl == piece.owner,
                -2 <= dir.col <= 2,
                -2 <= dir.row <= 2,
                !(dir.col == 0 && dir.row == 0),
                max_range == 1 || (max_range == 7 && -1 <= dir.col <= 1 && -1 <= dir.row <= 1),
                1 <= k <= max_range + 1,
                forall|j: int|
                    1 <= j < k ==> on_board(#[trigger] ray_c(origin, dc, j), ray_r(origin, dr,
                        j)),
                forall|j: int|
                    1 <= j < k ==> #[trigger] at_sq(bs, ray_c(origin, dc, j), ray_r(origin, dr,
                        j)) is None,
                forall|t: Threat|
                    out@.contains(t) <==> old(out)@.contains(t) || (t.piece == piece && t.origin
                        == origin && dir_threat(bs, pl, origin, dc, dr, k - 1, t.destination)),
            decreases max_range + 1 - k,
        {
            proof {
                assert(dir.col as int * (k as int) == (k as int) * dc);
                assert(dir.row as int * (k as int) == (k as int) * dr);
            }
            match origin.plus(dir.times(k)) {
                Err(_) => {
                    proof {
                        lemma_ray_off_board(bs, pl, origin, dc, dr, k as int, max_range as int);
                    }
                    return ;
                },
                Ok(sq) => {
                    proof {
                        lemma_square_bounds(sq);
                        assert(sq.c() == ray_c(origin, dc, k as int));
                        assert(sq.r() == ray_r(origin, dr, k as int));
                    }
                    let here: Option<Piece> = self.at(sq);
                    match here {
                        None => {
                            let ghost prev = out@;
                            let t_new = Threat { piece, origin, destination: sq };
                            out.push(t_new);
                            proof {
                                lemma_push_contains(prev, out@, t_new);
                                assert(dir_threat(bs, pl, origin, dc, dr, k as int, sq)) by {
                                    assert(ray_c(origin, dc, k as int) == sq.c()
                                        && ray_r(origin, dr, k as int) == sq.r()
                                        && path_clear_to(bs, origin, dc, dr, k as int)
                                        && !occupied_by(bs, sq, pl));
                                }
                                lemma_ray_extend(bs, pl, origin, dc, dr, k as int, sq);
                            }
                            k = k + 1;
                        },
                        Some(other) => {
                            if other.owner == piece.owner {
                                proof {
                                    assert(occupied_at(bs, ray_c(origin, dc, k as int),
                                        ray_r(origin, dr, k as int), pl));
                                    lemma_ray_blocked(bs, pl, origin, dc, dr, k as int,
                                        max_range as int);
                                    lemma_ray_own(bs, pl, origin, dc, dr, k as int);
                                }
                                return ;
                            } else {
                                let ghost prev = out@;
                                let t_new = Threat { piece, origin, destination: sq };
                                out.push(t_new);
                                proof {
                                    lemma_push_contains(prev, out@, t_new);
                                    assert(dir_threat(bs, pl, origin, dc, dr, k as int,
                                        sq)) by {
                                        assert(ray_c(origin, dc, k as int) == sq.c()
                                            && ray_r(origin, dr, k as int) == sq.r()
                                            && path_clear_to(bs, origin, dc, dr, k as int)
                                            && !occupied_by(bs, sq, pl));
                                    }
                                    lemma_ray_extend(bs, pl, origin, dc, dr, k as int, sq);
                                    lemma_ray_blocked(bs, pl, origin, dc, dr, k as int,
                                        max_range as int);
                                }
                                return ;
                            }
                        },
                    }
                },
            }
        }
    }

    /// Every threat by `threatened_by` on the whole board: for each piece
    /// of that player, each square it could move onto ignoring king safety.
    pub(crate) fn threatening_moves_by(&self, threatened_by: PlayerKind) -> (r: Vec<Threat>)
        requires
            self.wf(),
        ensures
            forall|t: Threat|
                r@.contains(t) <==> is_threat_full(self.squares@, threatened_by, t),
    {
        let ghost bs = self.squares@;
        let mut out: Vec<Threat> = Vec::new();
        let mut i: usize = 0;
        while i < 64
            invariant
                self.wf(),
                bs == self.squares@,
                i <= 64,
                forall|t: Threat|
                    out@.contains(t) <==> is_threat_full(bs, threatened_by, t) && sq_idx(
                        t.origin.c(), t.origin.r()) < i,
            decreases 64 - i,
        {
            let c: u8 = (i % 8 + 1) as u8;
            let r2: u8 = (8 - i / 8) as u8;
            let origin = Square { col: Col::from_index(c), row: Row::from_index(r2) };
            proof {
                assert(sq_idx(origin.c(), origin.r()) == i);
            }
            attacked_squares(self, origin, threatened_by, &mut out);
            proof {
                assert forall|t: Threat|
                    out@.contains(t) implies (is_threat_full(bs, threatened_by, t) && sq_idx(
                    t.origin.c(), t.origin.r()) < i + 1) by {
                    if t.origin == origin {
                    } else {
                        lemma_square_bounds(t.origin);
                    }
                }
                assert forall|t: Threat|
                    (is_threat_full(bs, threatened_by, t) && sq_idx(t.origin.c(), t.origin.r())
                        < i + 1) implies out@.contains(t) by {
                    if sq_idx(t.origin.c(), t.origin.r()) == i {
                        lemma_square_bounds(t.origin);
                        lemma_sq_idx_injective(t.origin.c(), t.origin.r(), origin.c(),
                            origin.r());
                        lemma_coords_determine_square(t.origin, origin);
                    }
                }
            }
            i = i + 1;
        }
        proof {
            assert forall|t: Threat| is_threat_full(bs, threatened_by, t) implies sq_idx(
                t.origin.c(), t.origin.r()) < 64 by {
                lemma_square_bounds(t.origin);
            }
        }
        out
    }

    /// Every square some piece of `threatened_by` threatens.
    pub fn threatened_squares_by(&self, threatened_by: PlayerKind) -> (r: Vec<Square>)
        requires
            self.wf(),
        ensures
            forall|s: Square| r@.contains(s) <==> attacked(self.squares@, threatened_by, s),
    {
        let ghost bs = self.squares@;
        let threats: Vec<Threat> = self.threatening_moves_by(threatened_by);
        let mut out: Vec<Square> = Vec::new();
        let mut i: usize = 0;
        while i < threats.len()
            invariant
                i <= threats@.len(),
                out@.len() == i,
                forall|t: Threat|
                    threats@.contains(t) <==> is_threat_full(bs, threatened_by, t),
                forall|s: Square|
                    out@.contains(s) <==> exists|j: int|
                        0 <= j < i && #[trigger] threats@[j].destination == s,
            decreases threats@.len() - i,
        {
            let ghost prev = out@;
            out.push(threats[i].destination);
            proof {
                assert forall|s: Square|
                    out@.contains(s) implies exists|j: int|
                    0 <= j < i + 1 && #[trigger] threats@[j].destination == s by {
                    let jj = choose|jj: int| 0 <= jj < out@.len() && out@[jj] == s;
                    if jj < prev.len() {
                        assert(prev.contains(s));
                        let j = choose|j: int|
                            0 <= j < i && #[trigger] threats@[j].destination == s;
                    } else {
                        assert(threats@[i as int].destination == s);
                    }
                }
                assert forall|s: Square|
                    (exists|j: int| 0 <= j < i + 1 && #[trigger] threats@[j].destination == s)
                    implies out@.contains(s) by {
                    let j = choose|j: int|
                        0 <= j < i + 1 && #[trigger] threats@[j].destination == s;
                    if j < i {
                        assert(prev.contains(s));
                        let jj = choose|jj: int| 0 <= jj < prev.len() && prev[jj] == s;
                        assert(out@[jj] == s);
                    } else {
                        assert(out@[i as int] == s);
                    }
                }
            }
            i = i + 1;
        }
        proof {
            assert forall|s: Square|
                out@.contains(s) <==> attacked(bs, threatened_by, s) by {
                if out@.contains(s) {
                    let j = choose|j: int|
                        0 <= j < threats@.len() && #[trigger] threats@[j].destination == s;
                    let t = threats@[j];
                    assert(threats@.contains(t));
                    assert(threat_spec(bs, threatened_by, t.origin, s));
                }
                if attacked(bs, threatened_by, s) {
                    let o = choose|o: Square| #[trigger] threat_spec(bs, threatened_by, o, s);
                    let p = at_sq(bs, o.c(), o.r())->Some_0;
                    let t = Threat { piece: p, origin: o, destination: s };
                    assert(is_threat_full(bs, threatened_by, t));
                    assert(threats@.contains(t));
                    let j = choose|j: int| 0 <= j < threats@.len() && threats@[j] == t;
                    assert(threats@[j].destination == s);
                }
            }
        }
        out
    }

    /// Whether the given player's king stands on a square the opponent
    /// threatens. The board must hold exactly one king of that color.
    pub fn is_king_checked(&self, king_owner: PlayerKind) -> (r: bool)
        requires
            self.wf(),
            king_count(self.squares@, king_owner) == 1,
        ensures
            r == in_check(self.squares@, king_owner),
    {
        let ghost bs = self.squares@;
        let king_square = self.king_position(king_owner);
        let threatened: Vec<Square> = self.threatened_squares_by(king_owner.opponent());
        let mut i: usize = 0;
        let mut found = false;
        while i < threatened.len()
            invariant
                i <= threatened@.len(),
                found <==> exists|j: int|
                    0 <= j < i && #[trigger] threatened@[j] == king_square,
            decreases threatened@.len() - i,
        {
            if threatened[i] == king_square {
                found = true;
            }
            i = i + 1;
        }
        proof {
            let king = Piece { owner: king_owner, kind: PieceKind::King };
            if found {
                let j = choose|j: int|
                    0 <= j < threatened@.len() && #[trigger] threatened@[j] == king_square;
                assert(threatened@.contains(king_square));
            }
            if in_check(bs, king_owner) {
                let ks = choose|ks: Square|
                    #[trigger] at_sq(bs, ks.c(), ks.r()) == Some(king) && attacked(bs,
                        opponent_spec(king_owner), ks);
                lemma_square_bounds(ks);
                lemma_square_bounds(king_square);
                if ks != king_square {
                    let ia = sq_idx(ks.c(), ks.r());
                    let ib = sq_idx(king_square.c(), king_square.r());
                    if ia == ib {
                        lemma_sq_idx_injective(ks.c(), ks.r(), king_square.c(), king_square.r());
                        lemma_coords_determine_square(ks, king_square);
                    } else if ia < ib {
                        lemma_count_two(bs, king, ia, ib);
                    } else {
                        lemma_count_two(bs, king, ib, ia);
                    }
                    assert(false);
                }
                assert(threatened@.contains(king_square));
                let j = choose|j: int|
                    0 <= j < threatened@.len() && threatened@[j] == king_square;
            }
            if threatened@.contains(king_square) {
                assert(attacked(bs, opponent_spec(king_owner), king_square));
                assert(in_check(bs, king_owner));
            }
        }
        found
    }
}

/// All the threats whose origin is the given square: none when the square
/// is empty or holds an opposing piece, else one per reachable ray square.
pub(crate) fn attacked_squares(board: &Board, origin: Square, active_player: PlayerKind,
    out: &mut Vec<Threat>)
    requires
        board.wf(),
    ensures
        forall|t: Threat|
            final(out)@.contains(t) <==> old(out)@.contains(t) || (t.origin == origin && at_sq(
                board.squares@, origin.c(), origin.r()) == Some(t.piece) && threat_spec(
                board.squares@, active_player, origin, t.destination)),
{
    let ghost bs = board.squares@;
    let piece: Piece = match board.at(origin) {
        Some(p) => p,
        None => {
            return ;
        },
    };
    if !(piece.owner == active_player) {
        return ;
    }
    let (dirs, range) = piece.threat_directions();
    let max_range: u8 = match range {
        Range::One => 1,
        Range::Unlimited => 7,
    };
    let ghost n = threat_dirs_spec(piece).len();
    let mut di: usize = 0;
    while di < dirs.len()
        invariant
            board.wf(),
            bs == board.squares@,
            at_sq(bs, origin.c(), origin.r()) == Some(piece),
            piece.owner == active_player,
            dirs@ == threat_dirs_spec(piece),
            max_range as int == threat_range_spec(piece),
            n == dirs@.len(),
            di <= n,
            forall|t: Threat|
                out@.contains(t) <==> old(out)@.contains(t) || (t.piece == piece && t.origin
                    == origin && exists|d2: int|
                    0 <= d2 < di && #[trigger] dir_threat(bs, active_player, origin,
                        dirs@[d2].col as int, dirs@[d2].row as int, max_range as int,
                        t.destination)),
        decreases n - di,
    {
        let dir = dirs[di];
        proof {
            lemma_dirs_bounded(piece, di as int);
        }
        board.ray_threats(piece, origin, dir, max_range, out);
        di = di + 1;
    }
    proof {
        assert forall|t: Threat|
            out@.contains(t) <==> old(out)@.contains(t) || (t.origin == origin && at_sq(bs,
                origin.c(), origin.r()) == Some(t.piece) && threat_spec(bs, active_player,
                origin, t.destination)) by {
            if out@.contains(t) && !old(out)@.contains(t) {
                assert(t.piece == piece);
            }
            if t.origin == origin && at_sq(bs, origin.c(), origin.r()) == Some(t.piece)
                && threat_spec(bs, active_player, origin, t.destination) {
                assert(t.piece == piece);
                let d2 = choose|d2: int|
                    0 <= d2 < threat_dirs_spec(piece).len() && #[trigger] dir_threat(bs,
                        active_player, origin, threat_dirs_spec(piece)[d2].col as int,
                        threat_dirs_spec(piece)[d2].row as int, threat_range_spec(piece),
                        t.destination);
                assert(dir_threat(bs, active_player, origin, dirs@[d2].col as int,
                    dirs@[d2].row as int, max_range as int, t.destination));
            }
        }
    }
}

} // verus!
