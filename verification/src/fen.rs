//! Forsyth-Edwards Notation: parsing and emitting positions as six
//! whitespace-separated ASCII fields.
use vstd::prelude::*;
use crate::board::Board;
use crate::coord::Col;
use crate::coord::ColIndexOutOfRange;
use crate::coord::Row;
use crate::coord::RowIndexOutOfRange;
use crate::coord::Square;
use crate::coord::SquareOutOfRange;
use crate::game::CastlingRights;
use crate::game::FiftyMoveRuleClock;
use crate::game::FullMoveCount;
use crate::game::GameState;
use crate::game::GameStateCore;
use crate::game::RuleSet;
use crate::piece::Piece;
use crate::piece::PieceKind;
use crate::player::PlayerKind;

verus! {

/// A numeric FEN field that is empty, has a stray character, or does not
/// fit the counter.
#[derive(Debug, Copy, Clone, PartialEq, Eq, Structural)]
pub struct NotANumber;

/// A byte that names no piece.
#[derive(Debug, Copy, Clone, PartialEq, Eq, Structural)]
pub struct MalformedPieceError;

/// The ways the active-color field can be malformed.
#[derive(Debug, Copy, Clone, PartialEq, Eq, Structural)]
pub enum InvalidPlayer {
    IllegalCharacter(u8),
    TooShort(usize),
    TooLong(usize),
}

/// The ways the piece-placement field can be malformed.
#[derive(Debug, Copy, Clone, PartialEq, Eq, Structural)]
pub enum BoardFromFenError {
    IllegalCharacter(u8),
    WrongRankCount,
    WrongFileCountInRank,
}

/// The ways a square field can be malformed.
#[derive(Debug, Copy, Clone, PartialEq, Eq, Structural)]
pub enum SquareFromFenError {
    OutOfRange(SquareOutOfRange),
    IllegalCharacter(u8),
    TooShort(usize),
    TooLong(usize),
}

/// The ways a whole FEN string can be malformed.
#[derive(Debug, Copy, Clone, PartialEq, Eq, Structural)]
pub enum GameFromFenError {
    NotAscii,
    WrongFieldCount,
    MalformedBoard(BoardFromFenError),
    MalformedPlayer(InvalidPlayer),
    MalformedEnPassantTarget(SquareFromFenError),
    MalformedFiftyRuleClock(NotANumber),
    MalformedMoveCount(NotANumber),
}

/// The ASCII whitespace bytes FEN fields are separated by.
pub open spec fn is_fen_ws(b: u8) -> bool {
    b == 32 || b == 9 || b == 10 || b == 12 || b == 13
}

pub open spec fn is_ascii_digit(b: u8) -> bool {
    48 <= b <= 57
}

/// The value of a digit string, most significant first.
pub open spec fn digits_val(s: Seq<u8>) -> int
    decreases s.len(),
{
    if s.len() == 0 {
        0
    } else {
        digits_val(s.drop_last()) * 10 + (s.last() - 48)
    }
}

pub open spec fn all_digits(s: Seq<u8>) -> bool {
    forall|i: int| 0 <= i < s.len() ==> is_ascii_digit(#[trigger] s[i])
}

/// The canonical decimal digits of a non-negative number.
pub open spec fn dec_spec(n: int) -> Seq<u8>
    decreases n,
{
    if n < 10 {
        seq![(n + 48) as u8]
    } else {
        dec_spec(n / 10).push((n % 10 + 48) as u8)
    }
}

/// A number parses back to itself: its digit string is all digits and has
/// its value.
pub proof fn lemma_dec_spec_val(n: int)
    requires
        n >= 0,
    ensures
        dec_spec(n).len() >= 1,
        all_digits(dec_spec(n)),
        digits_val(dec_spec(n)) == n,
    decreases n,
{
    if n < 10 {
        assert(dec_spec(n) =~= seq![(n + 48) as u8]);
        assert(dec_spec(n).drop_last() =~= Seq::<u8>::empty());
        assert(dec_spec(n).last() == (n + 48) as u8);
        assert(digits_val(dec_spec(n)) == digits_val(Seq::<u8>::empty()) * 10 + ((n + 48) as u8
            - 48));
    } else {
        lemma_dec_spec_val(n / 10);
        assert(dec_spec(n).drop_last() =~= dec_spec(n / 10));
        assert(dec_spec(n).last() == (n % 10 + 48) as u8);
        assert(digits_val(dec_spec(n)) == digits_val(dec_spec(n / 10)) * 10 + ((n % 10 + 48) as u8
            - 48));
        assert((n / 10) * 10 + n % 10 == n);
    }
}

/// One more digit can only grow the value.
pub proof fn lemma_digits_val_monotone(s: Seq<u8>, i: int)
    requires
        0 <= i < s.len(),
        all_digits(s),
    ensures
        digits_val(s.take(i + 1)) <= digits_val(s),
    decreases s.len() - i,
{
    if i == s.len() - 1 {
        assert(s.take(i + 1) =~= s);
    } else {
        lemma_digits_val_monotone(s, i + 1);
        assert(s.take(i + 2).drop_last() =~= s.take(i + 1));
        assert(digits_val(s.take(i + 1)) >= 0) by {
            lemma_digits_val_nonneg(s.take(i + 1));
        }
    }
}

pub proof fn lemma_digits_val_nonneg(s: Seq<u8>)
    requires
        all_digits(s),
    ensures
        digits_val(s) >= 0,
    decreases s.len(),
{
    if s.len() > 0 {
        assert(all_digits(s.drop_last())) by {
            assert(forall|i: int| 0 <= i < s.len() - 1 ==> s.drop_last()[i] == s[i]);
        }
        lemma_digits_val_nonneg(s.drop_last());
    }
}

/// The FEN letter of a piece: uppercase for White, lowercase for Black.
pub open spec fn piece_char(p: Piece) -> u8 {
    let base: u8 = match p.kind {
        PieceKind::Pawn => 112,
        PieceKind::Knight => 110,
        PieceKind::Bishop => 98,
        PieceKind::Rook => 114,
        PieceKind::Queen => 113,
        PieceKind::King => 107,
    };
    if p.owner == PlayerKind::White {
        (base - 32) as u8
    } else {
        base
    }
}

/// The piece a FEN letter names, if any.
pub open spec fn piece_of_char(b: u8) -> Option<Piece> {
    if b == 80 {
        Some(Piece { owner: PlayerKind::White, kind: PieceKind::Pawn })
    } else if b == 78 {
        Some(Piece { owner: PlayerKind::White, kind: PieceKind::Knight })
    } else if b == 66 {
        Some(Piece { owner: PlayerKind::White, kind: PieceKind::Bishop })
    } else if b == 82 {
        Some(Piece { owner: PlayerKind::White, kind: PieceKind::Rook })
    } else if b == 81 {
        Some(Piece { owner: PlayerKind::White, kind: PieceKind::Queen })
    } else if b == 75 {
        Some(Piece { owner: PlayerKind::White, kind: PieceKind::King })
    } else if b == 112 {
        Some(Piece { owner: PlayerKind::Black, kind: PieceKind::Pawn })
    } else if b == 110 {
        Some(Piece { owner: PlayerKind::Black, kind: PieceKind::Knight })
    } else if b == 98 {
        Some(Piece { owner: PlayerKind::Black, kind: PieceKind::Bishop })
    } else if b == 114 {
        Some(Piece { owner: PlayerKind::Black, kind: PieceKind::Rook })
    } else if b == 113 {
        Some(Piece { owner: PlayerKind::Black, kind: PieceKind::Queen })
    } else if b == 107 {
        Some(Piece { owner: PlayerKind::Black, kind: PieceKind::King })
    } else {
        None
    }
}

/// The letter of a file: `a` through `h`.
pub open spec fn col_char(c: int) -> u8 {
    (c + 96) as u8
}

/// The digit of a rank: `1` through `8`.
pub open spec fn row_char(r: int) -> u8 {
    (r + 48) as u8
}

/// The two-byte name of a square, file letter then rank digit.
pub open spec fn square_fen_spec(s: Square) -> Seq<u8> {
    seq![col_char(s.c()), row_char(s.r())]
}

/// The column with the given 1-based number.
pub open spec fn col_from_int(c: int) -> Col {
    if c == 1 {
        Col::_1
    } else if c == 2 {
        Col::_2
    } else if c == 3 {
        Col::_3
    } else if c == 4 {
        Col::_4
    } else if c == 5 {
        Col::_5
    } else if c == 6 {
        Col::_6
    } else if c == 7 {
        Col::_7
    } else {
        Col::_8
    }
}

pub open spec fn row_from_int(r: int) -> Row {
    if r == 1 {
        Row::_1
    } else if r == 2 {
        Row::_2
    } else if r == 3 {
        Row::_3
    } else if r == 4 {
        Row::_4
    } else if r == 5 {
        Row::_5
    } else if r == 6 {
        Row::_6
    } else if r == 7 {
        Row::_7
    } else {
        Row::_8
    }
}

/// What the active-color field parses to.
pub open spec fn player_parse_spec(s: Seq<u8>) -> Result<PlayerKind, InvalidPlayer> {
    if s.len() == 0 {
        Err(InvalidPlayer::TooShort(0))
    } else if s.len() > 1 {
        Err(InvalidPlayer::TooLong(s.len() as usize))
    } else if s[0] == 119 {
        Ok(PlayerKind::White)
    } else if s[0] == 98 {
        Ok(PlayerKind::Black)
    } else {
        Err(InvalidPlayer::IllegalCharacter(s[0]))
    }
}

/// What the castling field parses to: each letter grants its right; `-`
/// or anything else grants none it does not name.
pub open spec fn castling_parse_spec(s: Seq<u8>) -> CastlingRights {
    CastlingRights {
        white_kingside: s.contains(75),
        white_queenside: s.contains(81),
        black_kingside: s.contains(107),
        black_queenside: s.contains(113),
    }
}

/// The castling field emitted: `K`, `Q`, `k`, `q` in that order for the
/// rights kept, or `-` for none.
pub open spec fn castling_fen_spec(cr: CastlingRights) -> Seq<u8> {
    if !cr.white_kingside && !cr.white_queenside && !cr.black_kingside && !cr.black_queenside {
        seq![45u8]
    } else {
        (if cr.white_kingside {
            seq![75u8]
        } else {
            Seq::<u8>::empty()
        }) + (if cr.white_queenside {
            seq![81u8]
        } else {
            Seq::<u8>::empty()
        }) + (if cr.black_kingside {
            seq![107u8]
        } else {
            Seq::<u8>::empty()
        }) + (if cr.black_queenside {
            seq![113u8]
        } else {
            Seq::<u8>::empty()
        })
    }
}

/// What a square field parses to: `-` for none, else file letter and
/// rank digit, with out-of-range parts reported as such.
pub open spec fn square_parse_spec(s: Seq<u8>) -> Result<Option<Square>, SquareFromFenError> {
    if s.len() == 0 {
        Err(SquareFromFenError::TooShort(0))
    } else if s.len() == 1 {
        if s[0] == 45 {
            Ok(None)
        } else {
            Err(SquareFromFenError::IllegalCharacter(s[0]))
        }
    } else if s.len() > 2 {
        Err(SquareFromFenError::TooLong(s.len() as usize))
    } else {
        let c = s[0] - 96;
        let r = s[1] - 48;
        if s[0] < 97 {
            Err(SquareFromFenError::OutOfRange(SquareOutOfRange::Col(
                ColIndexOutOfRange::TooLow)))
        } else if s[0] > 104 {
            Err(SquareFromFenError::OutOfRange(SquareOutOfRange::Col(
                ColIndexOutOfRange::TooHigh)))
        } else if s[1] < 49 {
            Err(SquareFromFenError::OutOfRange(SquareOutOfRange::Row(
                RowIndexOutOfRange::TooLow)))
        } else if s[1] > 56 {
            Err(SquareFromFenError::OutOfRange(SquareOutOfRange::Row(
                RowIndexOutOfRange::TooHigh)))
        } else {
            Ok(Some(Square { col: col_from_int(c as int), row: row_from_int(r as int) }))
        }
    }
}

/// A run of `n` empty cells.
pub open spec fn empties(n: int) -> Seq<Option<Piece>> {
    Seq::new(n as nat, |i: int| None)
}

/// The run-length encoding of one rank, left to right: runs of empty
/// squares become their length's digit, pieces their letter. `pending`
/// carries the empty squares seen so far.
pub open spec fn rle_row(cells: Seq<Option<Piece>>, pending: int) -> Seq<u8>
    decreases cells.len(),
{
    if cells.len() == 0 {
        if pending > 0 {
            seq![(pending + 48) as u8]
        } else {
            Seq::<u8>::empty()
        }
    } else {
        match cells[0] {
            None => rle_row(cells.skip(1), pending + 1),
            Some(p) => (if pending > 0 {
                seq![(pending + 48) as u8]
            } else {
                Seq::<u8>::empty()
            }) + seq![piece_char(p)] + rle_row(cells.skip(1), 0),
        }
    }
}

/// The eight cells of rank `r`, file a to file h.
pub open spec fn rank_cells(bs: Seq<Option<Piece>>, r: int) -> Seq<Option<Piece>> {
    bs.subrange((8 - r) * 8, (8 - r) * 8 + 8)
}

/// The placement field from rank `rank` down to rank 1, `/`-separated.
pub open spec fn rows_from(bs: Seq<Option<Piece>>, rank: int) -> Seq<u8>
    decreases rank,
{
    if rank <= 1 {
        rle_row(rank_cells(bs, 1), 0)
    } else {
        rle_row(rank_cells(bs, rank), 0) + seq![47u8] + rows_from(bs, rank - 1)
    }
}

/// The whole placement field: ranks 8 down to 1.
pub open spec fn board_fen_spec(bs: Seq<Option<Piece>>) -> Seq<u8> {
    rows_from(bs, 8)
}

/// What the placement field parses to, scanned left to right. `row_len`
/// counts the current rank's squares (capped just past the limit),
/// `rows_done` the completed ranks, and `acc` the cells read so far.
pub open spec fn board_parse_rec(s: Seq<u8>, row_len: int, rows_done: int,
    acc: Seq<Option<Piece>>) -> Result<Seq<Option<Piece>>, BoardFromFenError>
    decreases s.len(),
{
    if s.len() == 0 {
        if row_len != 8 {
            Err(BoardFromFenError::WrongFileCountInRank)
        } else if rows_done != 7 {
            Err(BoardFromFenError::WrongRankCount)
        } else {
            Ok(acc)
        }
    } else {
        let b = s[0];
        if b == 47 {
            if row_len != 8 {
                Err(BoardFromFenError::WrongFileCountInRank)
            } else {
                board_parse_rec(s.skip(1), 0, rows_done + 1, acc)
            }
        } else if 49 <= b <= 56 {
            let d = b - 48;
            board_parse_rec(s.skip(1), if row_len + d > 8 {
                9
            } else {
                row_len + d
            }, rows_done, acc + empties(d as int))
        } else {
            match piece_of_char(b) {
                Some(p) => board_parse_rec(s.skip(1), if row_len + 1 > 8 {
                    9
                } else {
                    row_len + 1
                }, rows_done, acc.push(Some(p))),
                None => Err(BoardFromFenError::IllegalCharacter(b)),
            }
        }
    }
}

/// What the placement field parses to.
pub open spec fn board_parse_spec(s: Seq<u8>) -> Result<Seq<Option<Piece>>, BoardFromFenError> {
    board_parse_rec(s, 0, 0, Seq::<Option<Piece>>::empty())
}

/// Once a rank has overflowed, the parse can only fail.
pub proof fn lemma_board_parse_nine(s: Seq<u8>, rows_done: int, acc: Seq<Option<Piece>>)
    ensures
        board_parse_rec(s, 9, rows_done, acc) is Err,
    decreases s.len(),
{
    if s.len() > 0 {
        let b = s[0];
        if b == 47 {
        } else if 49 <= b <= 56 {
            lemma_board_parse_nine(s.skip(1), rows_done, acc + empties((b - 48) as int));
        } else {
            match piece_of_char(b) {
                Some(p) => {
                    lemma_board_parse_nine(s.skip(1), rows_done, acc.push(Some(p)));
                },
                None => {},
            }
        }
    }
}

/// A successful placement parse reads exactly what fills the 64 cells.
pub proof fn lemma_board_parse_len(s: Seq<u8>, row_len: int, rows_done: int,
    acc: Seq<Option<Piece>>, res: Seq<Option<Piece>>)
    requires
        0 <= row_len <= 9,
        board_parse_rec(s, row_len, rows_done, acc) == Ok::<_, BoardFromFenError>(res),
    ensures
        res.len() == acc.len() + (8 - row_len) + (7 - rows_done) * 8,
    decreases s.len(),
{
    if s.len() == 0 {
    } else {
        let b = s[0];
        if b == 47 {
            lemma_board_parse_len(s.skip(1), 0, rows_done + 1, acc, res);
        } else if 49 <= b <= 56 {
            let d = b - 48;
            if row_len + d > 8 {
                lemma_board_parse_nine(s.skip(1), rows_done, acc + empties(d as int));
            } else {
                lemma_board_parse_len(s.skip(1), row_len + d, rows_done, acc + empties(
                    d as int), res);
            }
        } else {
            match piece_of_char(b) {
                Some(p) => {
                    if row_len + 1 > 8 {
                        lemma_board_parse_nine(s.skip(1), rows_done, acc.push(Some(p)));
                    } else {
                        lemma_board_parse_len(s.skip(1), row_len + 1, rows_done, acc.push(
                            Some(p)), res);
                    }
                },
                None => {},
            }
        }
    }
}

impl Board {
    /// The placement field of this board.
    pub fn to_fen_repr(&self) -> (r: Vec<u8>)
        requires
            self.wf(),
        ensures
            r@ == board_fen_spec(self.squares@),
    {
        let ghost bs = self.squares@;
        let mut out: Vec<u8> = Vec::new();
        let mut rank: u8 = 8;
        loop
            invariant_except_break
                out@ + rows_from(bs, rank as int) == board_fen_spec(bs),
            invariant
                self.wf(),
                bs == self.squares@,
                1 <= rank <= 8,
            ensures
                out@ == board_fen_spec(bs),
            decreases rank,
        {
            let ghost cells = rank_cells(bs, rank as int);
            let ghost out_rank = out@;
            proof {
                assert(cells.skip(0) =~= cells);
            }
            let mut pending: u8 = 0;
            let mut j: u8 = 0;
            while j < 8
                invariant
                    self.wf(),
                    bs == self.squares@,
                    1 <= rank <= 8,
                    cells == rank_cells(bs, rank as int),
                    j <= 8,
                    pending <= j,
                    out_rank + rle_row(cells, 0) == out@ + rle_row(cells.skip(j as int),
                        pending as int),
                decreases 8 - j,
            {
                let idx: usize = (8 - rank as usize) * 8 + j as usize;
                proof {
                    assert(cells.skip(j as int)[0] == bs[(8 - rank) * 8 + j]);
                    assert(cells.skip(j as int).skip(1) =~= cells.skip(j + 1));
                }
                match self.squares[idx] {
                    None => {
                        pending = pending + 1;
                    },
                    Some(p) => {
                        if pending > 0 {
                            out.push(pending + 48);
                        }
                        out.push(p.to_fen_repr());
                        pending = 0;
                        proof {
                            assert(out_rank + rle_row(cells, 0) =~= out@ + rle_row(cells.skip(
                                j + 1), 0));
                        }
                    },
                }
                j = j + 1;
            }
            if pending > 0 {
                out.push(pending + 48);
            }
            proof {
                assert(cells.skip(8) =~= Seq::<Option<Piece>>::empty());
                assert(out_rank + rle_row(cells, 0) =~= out@);
            }
            if rank == 1 {
                proof {
                    assert(out@ =~= board_fen_spec(bs));
                }
                break ;
            }
            out.push(47);
            proof {
                assert(out@ + rows_from(bs, rank - 1) =~= board_fen_spec(bs));
            }
            rank = rank - 1;
        }
        out
    }

    /// The board a placement field describes.
    pub fn try_from_fen_repr(value: &Vec<u8>) -> (r: Result<Board, BoardFromFenError>)
        ensures
            match board_parse_spec(value@) {
                Ok(cells) => match r {
                    Ok(b) => b.wf() && b.squares@ == cells,
                    Err(_) => false,
                },
                Err(e) => r == Err::<Board, BoardFromFenError>(e),
            },
    {
        let ghost whole = value@;
        let mut cells: Vec<Option<Piece>> = Vec::new();
        let mut row_len: u8 = 0;
        let mut rows_done: usize = 0;
        let mut i: usize = 0;
        proof {
            assert(whole.skip(0) =~= whole);
            assert(cells@ =~= Seq::<Option<Piece>>::empty());
        }
        while i < value.len()
            invariant
                whole == value@,
                i <= whole.len(),
                row_len <= 9,
                rows_done <= i,
                board_parse_spec(whole) == board_parse_rec(whole.skip(i as int),
                    row_len as int, rows_done as int, cells@),
            decreases whole.len() - i,
        {
            let b = value[i];
            proof {
                assert(whole.skip(i as int)[0] == whole[i as int]);
                assert(whole.skip(i as int).skip(1) =~= whole.skip(i + 1));
            }
            if b == 47 {
                if row_len != 8 {
                    return Err(BoardFromFenError::WrongFileCountInRank);
                }
                row_len = 0;
                rows_done = rows_done + 1;
            } else if 49 <= b && b <= 56 {
                let d = b - 48;
                let ghost prev = cells@;
                let mut k: u8 = 0;
                while k < d
                    invariant
                        k <= d,
                        cells@ == prev + empties(k as int),
                    decreases d - k,
                {
                    cells.push(None);
                    proof {
                        assert(cells@ =~= prev + empties(k + 1));
                    }
                    k = k + 1;
                }
                row_len = if row_len + d > 8 {
                    9
                } else {
                    row_len + d
                };
            } else {
                match Piece::try_from_fen_repr(b) {
                    Ok(p) => {
                        cells.push(Some(p));
                        row_len = if row_len + 1 > 8 {
                            9
                        } else {
                            row_len + 1
                        };
                    },
                    Err(_) => {
                        return Err(BoardFromFenError::IllegalCharacter(b));
                    },
                }
            }
            i = i + 1;
        }
        proof {
            assert(whole.skip(whole.len() as int) =~= Seq::<u8>::empty());
        }
        if row_len != 8 {
            return Err(BoardFromFenError::WrongFileCountInRank);
        }
        if rows_done != 7 {
            return Err(BoardFromFenError::WrongRankCount);
        }
        proof {
            lemma_board_parse_len(whole, 0, 0, Seq::<Option<Piece>>::empty(), cells@);
        }
        Ok(Board { squares: cells })
    }
}

/// The whitespace-separated tokens of a byte string, scanned left to
/// right: `cur` is the token being read, `done` the tokens finished.
pub open spec fn tokens_acc(s: Seq<u8>, cur: Seq<u8>, done: Seq<Seq<u8>>) -> Seq<Seq<u8>>
    decreases s.len(),
{
    if s.len() == 0 {
        if cur.len() > 0 {
            done.push(cur)
        } else {
            done
        }
    } else if is_fen_ws(s[0]) {
        if cur.len() > 0 {
            tokens_acc(s.skip(1), Seq::<u8>::empty(), done.push(cur))
        } else {
            tokens_acc(s.skip(1), Seq::<u8>::empty(), done)
        }
    } else {
        tokens_acc(s.skip(1), cur.push(s[0]), done)
    }
}

/// The whitespace-separated tokens of a byte string.
pub open spec fn tokens_of(s: Seq<u8>) -> Seq<Seq<u8>> {
    tokens_acc(s, Seq::<u8>::empty(), Seq::<Seq<u8>>::empty())
}

/// Split a byte string on ASCII whitespace.
fn tokenize(s: &Vec<u8>) -> (r: Vec<Vec<u8>>)
    ensures
        r@.map_values(|t: Vec<u8>| t@) == tokens_of(s@),
{
    let ghost whole = s@;
    let mut done: Vec<Vec<u8>> = Vec::new();
    let mut cur: Vec<u8> = Vec::new();
    let mut i: usize = 0;
    proof {
        assert(whole.skip(0) =~= whole);
        assert(done@.map_values(|t: Vec<u8>| t@) =~= Seq::<Seq<u8>>::empty());
        assert(cur@ =~= Seq::<u8>::empty());
    }
    while i < s.len()
        invariant
            whole == s@,
            i <= whole.len(),
            tokens_of(whole) == tokens_acc(whole.skip(i as int), cur@, done@.map_values(
                |t: Vec<u8>| t@)),
        decreases whole.len() - i,
    {
        let b = s[i];
        proof {
            assert(whole.skip(i as int)[0] == whole[i as int]);
            assert(whole.skip(i as int).skip(1) =~= whole.skip(i + 1));
        }
        if b == 32 || b == 9 || b == 10 || b == 12 || b == 13 {
            if cur.len() > 0 {
                let ghost dv = done@.map_values(|t: Vec<u8>| t@);
                let ghost cv = cur@;
                done.push(cur);
                cur = Vec::new();
                proof {
                    assert(done@.map_values(|t: Vec<u8>| t@) =~= dv.push(cv));
                    assert(cur@ =~= Seq::<u8>::empty());
                    assert(tokens_acc(whole.skip(i as int), cv, dv) == tokens_acc(whole.skip(
                        i + 1), Seq::<u8>::empty(), dv.push(cv)));
                }
            } else {
                proof {
                    assert(cur@ =~= Seq::<u8>::empty());
                    assert(tokens_acc(whole.skip(i as int), cur@, done@.map_values(
                        |t: Vec<u8>| t@)) == tokens_acc(whole.skip(i + 1), Seq::<u8>::empty(),
                        done@.map_values(|t: Vec<u8>| t@)));
                }
            }
        } else {
            let ghost cv = cur@;
            cur.push(b);
            proof {
                assert(cur@ == cv.push(b));
                assert(tokens_acc(whole.skip(i as int), cv, done@.map_values(|t: Vec<u8>| t@))
                    == tokens_acc(whole.skip(i + 1), cv.push(b), done@.map_values(
                    |t: Vec<u8>| t@)));
            }
        }
        i = i + 1;
    }
    proof {
        assert(whole.skip(whole.len() as int) =~= Seq::<u8>::empty());
    }
    if cur.len() > 0 {
        let ghost dv = done@.map_values(|t: Vec<u8>| t@);
        let ghost cv = cur@;
        done.push(cur);
        proof {
            assert(done@.map_values(|t: Vec<u8>| t@) =~= dv.push(cv));
        }
    }
    done
}

/// The en-passant field: the target square's name, or `-`.
pub open spec fn ep_fen_spec(ep: Option<Square>) -> Seq<u8> {
    match ep {
        None => seq![45u8],
        Some(s) => square_fen_spec(s),
    }
}

/// A whole position as its six FEN fields, single-space-separated:
/// placement, active color, castling, en-passant target, halfmove clock,
/// fullmove number.
pub open spec fn game_fen_spec(c: GameStateCore) -> Seq<u8> {
    board_fen_spec(c.cells()) + seq![32u8] + seq![
        (if c.active_player == PlayerKind::White {
            119u8
        } else {
            98u8
        }),
    ] + seq![32u8] + castling_fen_spec(c.castling_rights) + seq![32u8] + ep_fen_spec(
        c.en_passant_target) + seq![32u8] + dec_spec(c.fifty_move_rule_clock.0 as int) + seq![
        32u8,
    ] + dec_spec(c.full_move_count.0 as int)
}

/// What a numeric field parses to.
pub open spec fn clock_parse_spec(s: Seq<u8>) -> Result<u64, NotANumber> {
    if s.len() > 0 && all_digits(s) && digits_val(s) <= u64::MAX {
        Ok(digits_val(s) as u64)
    } else {
        Err(NotANumber)
    }
}

/// What the fullmove field parses to: a positive number.
pub open spec fn fmc_parse_spec(s: Seq<u8>) -> Result<u64, NotANumber> {
    match clock_parse_spec(s) {
        Ok(0) => Err(NotANumber),
        other => other,
    }
}

/// What a whole FEN string parses to: the six fields in order, each
/// strict, with the first failure reported. The fields are examined in
/// the order placement, halfmove clock, castling, active color,
/// en-passant target, fullmove number.
pub open spec fn game_parse_spec(s: Seq<u8>) -> Result<
    (Seq<Option<Piece>>, PlayerKind, CastlingRights, Option<Square>, u64, u64),
    GameFromFenError,
> {
    if exists|i: int| 0 <= i < s.len() && #[trigger] s[i] >= 128 {
        Err(GameFromFenError::NotAscii)
    } else {
        let toks = tokens_of(s);
        if toks.len() != 6 {
            Err(GameFromFenError::WrongFieldCount)
        } else {
            match board_parse_spec(toks[0]) {
                Err(e) => Err(GameFromFenError::MalformedBoard(e)),
                Ok(cells) => match clock_parse_spec(toks[4]) {
                    Err(e) => Err(GameFromFenError::MalformedFiftyRuleClock(e)),
                    Ok(clock) => {
                        let rights = castling_parse_spec(toks[2]);
                        match player_parse_spec(toks[1]) {
                            Err(e) => Err(GameFromFenError::MalformedPlayer(e)),
                            Ok(active) => match square_parse_spec(toks[3]) {
                                Err(e) => Err(GameFromFenError::MalformedEnPassantTarget(e)),
                                Ok(ep) => match fmc_parse_spec(toks[5]) {
                                    Err(e) => Err(GameFromFenError::MalformedMoveCount(e)),
                                    Ok(fmc) => Ok((cells, active, rights, ep, clock, fmc)),
                                },
                            },
                        }
                    },
                },
            }
        }
    }
}

impl GameStateCore {
    /// The position a FEN string describes. Parsing is strict: a stray
    /// byte, a wrong field count or a malformed field fails with the
    /// matching error kind.
    pub fn try_from_fen(fen: &Vec<u8>) -> (r: Result<GameStateCore, GameFromFenError>)
        ensures
            match game_parse_spec(fen@) {
                Ok(t) => match r {
                    Ok(c) => c.board.wf() && c.board.squares@ == t.0 && c.active_player == t.1
                        && c.castling_rights == t.2 && c.en_passant_target == t.3
                        && c.fifty_move_rule_clock.0 == t.4 && c.full_move_count.0 == t.5,
                    Err(_) => false,
                },
                Err(e) => r == Err::<GameStateCore, GameFromFenError>(e),
            },
    {
        let mut i: usize = 0;
        while i < fen.len()
            invariant
                i <= fen@.len(),
                forall|j: int| 0 <= j < i ==> #[trigger] fen@[j] < 128,
            decreases fen@.len() - i,
        {
            if fen[i] >= 128 {
                return Err(GameFromFenError::NotAscii);
            }
            i = i + 1;
        }
        let tokens = tokenize(fen);
        if tokens.len() != 6 {
            proof {
                assert(tokens@.map_values(|t: Vec<u8>| t@).len() == tokens@.len());
            }
            return Err(GameFromFenError::WrongFieldCount);
        }
        proof {
            assert(tokens@.map_values(|t: Vec<u8>| t@)[0] == tokens@[0]@);
            assert(tokens@.map_values(|t: Vec<u8>| t@)[1] == tokens@[1]@);
            assert(tokens@.map_values(|t: Vec<u8>| t@)[2] == tokens@[2]@);
            assert(tokens@.map_values(|t: Vec<u8>| t@)[3] == tokens@[3]@);
            assert(tokens@.map_values(|t: Vec<u8>| t@)[4] == tokens@[4]@);
            assert(tokens@.map_values(|t: Vec<u8>| t@)[5] == tokens@[5]@);
        }
        let board = match Board::try_from_fen_repr(&tokens[0]) {
            Ok(b) => b,
            Err(e) => {
                return Err(GameFromFenError::MalformedBoard(e));
            },
        };
        let fifty_move_rule_clock = match FiftyMoveRuleClock::try_from_fen_repr(&tokens[4]) {
            Ok(c) => c,
            Err(e) => {
                return Err(GameFromFenError::MalformedFiftyRuleClock(e));
            },
        };
        let castling_rights = CastlingRights::from_fen_repr(&tokens[2]);
        let active_player = match PlayerKind::try_from_fen_repr(&tokens[1]) {
            Ok(p) => p,
            Err(e) => {
                return Err(GameFromFenError::MalformedPlayer(e));
            },
        };
        let en_passant_target = match Square::try_from_fen_repr(&tokens[3]) {
            Ok(sq) => sq,
            Err(e) => {
                return Err(GameFromFenError::MalformedEnPassantTarget(e));
            },
        };
        let full_move_count = match FullMoveCount::try_from_fen_repr(&tokens[5]) {
            Ok(n) => n,
            Err(e) => {
                return Err(GameFromFenError::MalformedMoveCount(e));
            },
        };
        Ok(GameStateCore {
            board,
            fifty_move_rule_clock,
            castling_rights,
            en_passant_target,
            active_player,
            full_move_count,
        })
    }

    /// The position as a FEN string.
    pub fn to_fen(&self) -> (r: Vec<u8>)
        requires
            self.board.wf(),
        ensures
            r@ == game_fen_spec(*self),
    {
        let mut out: Vec<u8> = self.board.to_fen_repr();
        out.push(32);
        out.push(self.active_player.to_fen_repr());
        out.push(32);
        let mut castling = self.castling_rights.to_fen_repr();
        out.append(&mut castling);
        out.push(32);
        let mut ep = Square::option_to_fen_repr(self.en_passant_target);
        out.append(&mut ep);
        out.push(32);
        let mut clock = self.fifty_move_rule_clock.to_fen_repr();
        out.append(&mut clock);
        out.push(32);
        let mut fmc = self.full_move_count.to_fen_repr();
        out.append(&mut fmc);
        proof {
            assert(out@ =~= game_fen_spec(*self));
        }
        out
    }
}

impl GameState {
    /// A fresh standard-rules game from a FEN position.
    pub fn try_from_fen(fen: &Vec<u8>) -> (r: Result<GameState, GameFromFenError>)
        ensures
            match game_parse_spec(fen@) {
                Ok(t) => match r {
                    Ok(g) => g.core.board.wf() && g.core.board.squares@ == t.0
                        && g.core.active_player == t.1 && g.core.castling_rights == t.2
                        && g.core.en_passant_target == t.3 && g.core.fifty_move_rule_clock.0
                        == t.4 && g.core.full_move_count.0 == t.5 && g.position_history@.len()
                        == 0 && g.rule_set == RuleSet::Standard,
                    Err(_) => false,
                },
                Err(e) => r == Err::<GameState, GameFromFenError>(e),
            },
    {
        match GameStateCore::try_from_fen(fen) {
            Ok(core) => Ok(GameState::with_core(core)),
            Err(e) => Err(e),
        }
    }

    /// The game's position as a FEN string; history and rule set are not
    /// part of the notation.
    pub fn to_fen(&self) -> (r: Vec<u8>)
        requires
            self.core.board.wf(),
        ensures
            r@ == game_fen_spec(self.core),
    {
        self.core.to_fen()
    }
}

impl PieceKind {
    /// The lowercase FEN letter of the kind, as Black's pieces are written.
    pub fn to_ascii_lower(self) -> (r: u8)
        ensures
            r == piece_char(Piece { owner: PlayerKind::Black, kind: self }),
    {
        match self {
            PieceKind::Pawn => 112,
            PieceKind::Knight => 110,
            PieceKind::Bishop => 98,
            PieceKind::Rook => 114,
            PieceKind::Queen => 113,
            PieceKind::King => 107,
        }
    }

    /// The uppercase FEN letter of the kind, as White's pieces are written.
    pub fn to_ascii_upper(self) -> (r: u8)
        ensures
            r == piece_char(Piece { owner: PlayerKind::White, kind: self }),
    {
        match self {
            PieceKind::Pawn => 80,
            PieceKind::Knight => 78,
            PieceKind::Bishop => 66,
            PieceKind::Rook => 82,
            PieceKind::Queen => 81,
            PieceKind::King => 75,
        }
    }
}

impl Piece {
    /// The piece a FEN letter names.
    pub fn try_from_fen_repr(value: u8) -> (r: Result<Piece, MalformedPieceError>)
        ensures
            match r {
                Ok(p) => piece_of_char(value) == Some(p),
                Err(_) => piece_of_char(value) is None,
            },
    {
        match value {
            80 => Ok(Piece { owner: PlayerKind::White, kind: PieceKind::Pawn }),
            78 => Ok(Piece { owner: PlayerKind::White, kind: PieceKind::Knight }),
            66 => Ok(Piece { owner: PlayerKind::White, kind: PieceKind::Bishop }),
            82 => Ok(Piece { owner: PlayerKind::White, kind: PieceKind::Rook }),
            81 => Ok(Piece { owner: PlayerKind::White, kind: PieceKind::Queen }),
            75 => Ok(Piece { owner: PlayerKind::White, kind: PieceKind::King }),
            112 => Ok(Piece { owner: PlayerKind::Black, kind: PieceKind::Pawn }),
            110 => Ok(Piece { owner: PlayerKind::Black, kind: PieceKind::Knight }),
            98 => Ok(Piece { owner: PlayerKind::Black, kind: PieceKind::Bishop }),
            114 => Ok(Piece { owner: PlayerKind::Black, kind: PieceKind::Rook }),
            113 => Ok(Piece { owner: PlayerKind::Black, kind: PieceKind::Queen }),
            107 => Ok(Piece { owner: PlayerKind::Black, kind: PieceKind::King }),
            _ => Err(MalformedPieceError),
        }
    }

    /// The FEN letter of the piece.
    pub fn to_fen_repr(self) -> (r: u8)
        ensures
            r == piece_char(self),
    {
        match self.owner {
            PlayerKind::White => self.kind.to_ascii_upper(),
            PlayerKind::Black => self.kind.to_ascii_lower(),
        }
    }
}

impl PlayerKind {
    /// The player a one-letter color field names.
    pub fn try_from_fen_repr(value: &Vec<u8>) -> (r: Result<PlayerKind, InvalidPlayer>)
        ensures
            r == player_parse_spec(value@),
    {
        if value.len() == 0 {
            Err(InvalidPlayer::TooShort(0))
        } else if value.len() > 1 {
            Err(InvalidPlayer::TooLong(value.len()))
        } else if value[0] == 119 {
            Ok(PlayerKind::White)
        } else if value[0] == 98 {
            Ok(PlayerKind::Black)
        } else {
            Err(InvalidPlayer::IllegalCharacter(value[0]))
        }
    }

    /// The color letter: `w` or `b`.
    pub fn to_fen_repr(self) -> (r: u8)
        ensures
            self == PlayerKind::White ==> r == 119,
            self == PlayerKind::Black ==> r == 98,
    {
        match self {
            PlayerKind::White => 119,
            PlayerKind::Black => 98,
        }
    }
}

impl Col {
    /// The file a letter `a` through `h` names.
    pub fn try_from_fen_repr(value: u8) -> (r: Result<Col, ColIndexOutOfRange>)
        ensures
            match r {
                Ok(c) => 97 <= value <= 104 && c.as_int() == value - 96,
                Err(ColIndexOutOfRange::TooLow) => value < 97,
                Err(ColIndexOutOfRange::TooHigh) => value > 104,
            },
    {
        Col::try_from_int(value as i32 - 96)
    }

    /// The file's letter.
    pub fn to_fen_repr(self) -> (r: u8)
        ensures
            r == col_char(self.as_int()),
    {
        self.index() + 96
    }
}

impl Row {
    /// The rank a digit `1` through `8` names.
    pub fn try_from_fen_repr(value: u8) -> (r: Result<Row, RowIndexOutOfRange>)
        ensures
            match r {
                Ok(c) => 49 <= value <= 56 && c.as_int() == value - 48,
                Err(RowIndexOutOfRange::TooLow) => value < 49,
                Err(RowIndexOutOfRange::TooHigh) => value > 56,
            },
    {
        Row::try_from_int(value as i32 - 48)
    }

    /// The rank's digit.
    pub fn to_fen_repr(self) -> (r: u8)
        ensures
            r == row_char(self.as_int()),
    {
        self.index() + 48
    }
}

impl Square {
    /// The square an algebraic field names, or `None` for `-`.
    pub fn try_from_fen_repr(value: &Vec<u8>) -> (r: Result<Option<Square>, SquareFromFenError>)
        ensures
            r == square_parse_spec(value@),
    {
        if value.len() == 0 {
            return Err(SquareFromFenError::TooShort(0));
        }
        if value.len() == 1 {
            if value[0] == 45 {
                return Ok(None);
            }
            return Err(SquareFromFenError::IllegalCharacter(value[0]));
        }
        if value.len() > 2 {
            return Err(SquareFromFenError::TooLong(value.len()));
        }
        let col = match Col::try_from_fen_repr(value[0]) {
            Ok(c) => c,
            Err(e) => {
                return Err(SquareFromFenError::OutOfRange(SquareOutOfRange::Col(e)));
            },
        };
        let row = match Row::try_from_fen_repr(value[1]) {
            Ok(c) => c,
            Err(e) => {
                return Err(SquareFromFenError::OutOfRange(SquareOutOfRange::Row(e)));
            },
        };
        Ok(Some(Square { col, row }))
    }

    /// The square's algebraic name.
    pub fn to_fen_repr(self) -> (r: Vec<u8>)
        ensures
            r@ == square_fen_spec(self),
    {
        let mut v: Vec<u8> = Vec::new();
        v.push(self.col.to_fen_repr());
        v.push(self.row.to_fen_repr());
        proof {
            assert(v@ =~= square_fen_spec(self));
        }
        v
    }

    /// An optional square's field: the name, or `-` for none.
    pub fn option_to_fen_repr(value: Option<Square>) -> (r: Vec<u8>)
        ensures
            match value {
                None => r@ =~= seq![45u8],
                Some(s) => r@ == square_fen_spec(s),
            },
    {
        match value {
            None => {
                let mut v: Vec<u8> = Vec::new();
                v.push(45);
                v
            },
            Some(square) => square.to_fen_repr(),
        }
    }
}

impl CastlingRights {
    /// The rights a castling field grants: one per letter it holds.
    pub fn from_fen_repr(value: &Vec<u8>) -> (r: CastlingRights)
        ensures
            r == castling_parse_spec(value@),
    {
        let mut wk = false;
        let mut wq = false;
        let mut bk = false;
        let mut bq = false;
        let mut i: usize = 0;
        while i < value.len()
            invariant
                i <= value@.len(),
                wk <==> value@.take(i as int).contains(75),
                wq <==> value@.take(i as int).contains(81),
                bk <==> value@.take(i as int).contains(107),
                bq <==> value@.take(i as int).contains(113),
            decreases value@.len() - i,
        {
            let b = value[i];
            proof {
                assert forall|x: u8| value@.take(i + 1).contains(x) implies (value@.take(
                    i as int).contains(x) || x == b) by {
                    let j = choose|j: int| 0 <= j < i + 1 && #[trigger] value@.take(i + 1)[j] == x;
                    if j < i {
                        assert(value@.take(i as int)[j] == x);
                    }
                }
                assert forall|x: u8| (value@.take(i as int).contains(x) || x == b) implies
                    value@.take(i + 1).contains(x) by {
                    if x == b {
                        assert(value@.take(i + 1)[i as int] == x);
                    } else {
                        let j = choose|j: int| 0 <= j < i && #[trigger] value@.take(i as int)[j] == x;
                        assert(value@.take(i + 1)[j] == x);
                    }
                }
            }
            if b == 75 {
                wk = true;
            }
            if b == 81 {
                wq = true;
            }
            if b == 107 {
                bk = true;
            }
            if b == 113 {
                bq = true;
            }
            i = i + 1;
        }
        proof {
            assert(value@.take(value@.len() as int) =~= value@);
        }
        CastlingRights {
            white_kingside: wk,
            white_queenside: wq,
            black_kingside: bk,
            black_queenside: bq,
        }
    }

    /// The castling field: the kept rights in `KQkq` order, or `-`.
    pub fn to_fen_repr(self) -> (r: Vec<u8>)
        ensures
            r@ == castling_fen_spec(self),
    {
        let mut v: Vec<u8> = Vec::new();
        if !self.white_kingside && !self.white_queenside && !self.black_kingside
            && !self.black_queenside {
            v.push(45);
            proof {
                assert(v@ =~= castling_fen_spec(self));
            }
            return v;
        }
        if self.white_kingside {
            v.push(75);
        }
        if self.white_queenside {
            v.push(81);
        }
        if self.black_kingside {
            v.push(107);
        }
        if self.black_queenside {
            v.push(113);
        }
        proof {
            assert(v@ =~= castling_fen_spec(self));
        }
        v
    }
}

/// The decimal digits of a counter, appended to `out`.
fn push_decimal(n: u64, out: &mut Vec<u8>)
    ensures
        final(out)@ == old(out)@ + dec_spec(n as int),
    decreases n,
{
    if n < 10 {
        out.push((n + 48) as u8);
        proof {
            assert(out@ =~= old(out)@ + dec_spec(n as int));
        }
    } else {
        push_decimal(n / 10, out);
        out.push((n % 10 + 48) as u8);
        proof {
            assert(out@ =~= old(out)@ + dec_spec(n as int));
        }
    }
}

/// The value of an all-digit field, or `NotANumber` when it is empty,
/// holds a stray byte, or exceeds the counter's range.
fn parse_u64(s: &Vec<u8>) -> (r: Result<u64, NotANumber>)
    ensures
        match r {
            Ok(n) => s@.len() > 0 && all_digits(s@) && n == digits_val(s@),
            Err(_) => s@.len() == 0 || !all_digits(s@) || digits_val(s@) > u64::MAX,
        },
{
    if s.len() == 0 {
        return Err(NotANumber);
    }
    let mut val: u64 = 0;
    let mut i: usize = 0;
    while i < s.len()
        invariant
            i <= s@.len(),
            all_digits(s@.take(i as int)),
            val == digits_val(s@.take(i as int)),
        decreases s@.len() - i,
    {
        let b = s[i];
        proof {
            assert(s@.take(i + 1).drop_last() =~= s@.take(i as int));
            assert(s@.take(i + 1).last() == b);
        }
        if b < 48 || b > 57 {
            return Err(NotANumber);
        }
        let d = b - 48;
        if val > (u64::MAX - d as u64) / 10 {
            proof {
                assert(val * 10 + d > u64::MAX) by (nonlinear_arith)
                    requires
                        val > (u64::MAX - d as u64) / 10,
                        0 <= d <= 9,
                ;
                assert(digits_val(s@.take(i + 1)) > u64::MAX);
                if all_digits(s@) {
                    lemma_digits_val_monotone(s@, i as int);
                }
            }
            return Err(NotANumber);
        }
        val = val * 10 + d as u64;
        i = i + 1;
    }
    proof {
        assert(s@.take(s@.len() as int) =~= s@);
    }
    Ok(val)
}

impl FullMoveCount {
    /// The fullmove field's value, which must be a positive number.
    pub fn try_from_fen_repr(value: &Vec<u8>) -> (r: Result<FullMoveCount, NotANumber>)
        ensures
            match r {
                Ok(n) => value@.len() > 0 && all_digits(value@) && n.0 == digits_val(value@)
                    && n.0 >= 1,
                Err(_) => value@.len() == 0 || !all_digits(value@) || digits_val(value@)
                    > u64::MAX || digits_val(value@) == 0,
            },
    {
        match parse_u64(value) {
            Ok(0) => Err(NotANumber),
            Ok(n) => Ok(FullMoveCount(n)),
            Err(e) => Err(e),
        }
    }

    pub fn to_fen_repr(self) -> (r: Vec<u8>)
        ensures
            r@ == dec_spec(self.0 as int),
    {
        let mut v: Vec<u8> = Vec::new();
        push_decimal(self.0, &mut v);
        proof {
            assert(v@ =~= dec_spec(self.0 as int));
        }
        v
    }
}

impl FiftyMoveRuleClock {
    /// The halfmove-clock field's value.
    pub fn try_from_fen_repr(value: &Vec<u8>) -> (r: Result<FiftyMoveRuleClock, NotANumber>)
        ensures
            match r {
                Ok(n) => value@.len() > 0 && all_digits(value@) && n.0 == digits_val(value@),
                Err(_) => value@.len() == 0 || !all_digits(value@) || digits_val(value@)
                    > u64::MAX,
            },
    {
        match parse_u64(value) {
            Ok(n) => Ok(FiftyMoveRuleClock(n)),
            Err(e) => Err(e),
        }
    }

    pub fn to_fen_repr(self) -> (r: Vec<u8>)
        ensures
            r@ == dec_spec(self.0 as int),
    {
        let mut v: Vec<u8> = Vec::new();
        push_decimal(self.0, &mut v);
        proof {
            assert(v@ =~= dec_spec(self.0 as int));
        }
        v
    }
}

} // verus!
