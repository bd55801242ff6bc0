use vstd::prelude::*;
use vstd::string::*;
use crate::types::{Color, Piece, PieceType, Square, WK, WQ, BK, BQ};
use crate::board::{ArrayBoard, BoardView};
use crate::text::ascii_to_string;

verus! {

broadcast use vstd::string::group_string_axioms;

/// Why a FEN string was rejected.
#[derive(Debug, Clone, Copy, PartialEq, Eq, Structural)]
pub enum FenError {
    /// Fewer than four whitespace-separated fields.
    NotEnoughFields,
    /// The placement field does not hold exactly eight ranks.
    BadRankCount,
    /// A rank names more than eight files.
    RankOverflow,
    /// A character in the placement field is neither a piece nor a digit.
    BadPiece,
    /// The side-to-move field is neither `w` nor `b`.
    BadSideToMove,
    /// A character in the castling field is not one of `KQkq`.
    BadCastling,
    /// The en-passant field is neither `-` nor a square name.
    BadEnPassant,
}

pub open spec fn is_ws(c: u8) -> bool {
    c == (' ' as u8) || c == ('\t' as u8) || c == ('\n' as u8) || c == ('\r' as u8) || c == 12
}

/// Split on runs of ASCII whitespace, as the fields of a FEN line are: the
/// fold state after the first `i` bytes is the finished tokens and the
/// token being read.
pub open spec fn split_ws_state(s: Seq<u8>, i: int) -> (Seq<Seq<u8>>, Seq<u8>)
    decreases i,
{
    if i <= 0 {
        (Seq::<Seq<u8>>::empty(), Seq::<u8>::empty())
    } else {
        let (toks, cur) = split_ws_state(s, i - 1);
        if is_ws(s[i - 1]) {
            if cur.len() > 0 {
                (toks.push(cur), Seq::<u8>::empty())
            } else {
                (toks, Seq::<u8>::empty())
            }
        } else {
            (toks, cur.push(s[i - 1]))
        }
    }
}

pub open spec fn spec_split_ws(s: Seq<u8>) -> Seq<Seq<u8>> {
    let (toks, cur) = split_ws_state(s, s.len() as int);
    if cur.len() > 0 {
        toks.push(cur)
    } else {
        toks
    }
}

/// Split on `/`, keeping empty pieces, as the ranks of the placement field
/// are.
pub open spec fn split_slash_state(s: Seq<u8>, i: int) -> (Seq<Seq<u8>>, Seq<u8>)
    decreases i,
{
    if i <= 0 {
        (Seq::<Seq<u8>>::empty(), Seq::<u8>::empty())
    } else {
        let (toks, cur) = split_slash_state(s, i - 1);
        if s[i - 1] == ('/' as u8) {
            (toks.push(cur), Seq::<u8>::empty())
        } else {
            (toks, cur.push(s[i - 1]))
        }
    }
}

pub open spec fn spec_split_slash(s: Seq<u8>) -> Seq<Seq<u8>> {
    let (toks, cur) = split_slash_state(s, s.len() as int);
    toks.push(cur)
}

/// The piece a placement byte names.  A byte of a multi-byte character is
/// no piece letter, so such input errs at this byte.
pub open spec fn spec_char_piece(c: u8) -> Option<Piece> {
    if c == ('P' as u8) {
        Some(Piece { piece_type: PieceType::Pawn, color: Color::White })
    } else if c == ('N' as u8) {
        Some(Piece { piece_type: PieceType::Knight, color: Color::White })
    } else if c == ('B' as u8) {
        Some(Piece { piece_type: PieceType::Bishop, color: Color::White })
    } else if c == ('R' as u8) {
        Some(Piece { piece_type: PieceType::Rook, color: Color::White })
    } else if c == ('Q' as u8) {
        Some(Piece { piece_type: PieceType::Queen, color: Color::White })
    } else if c == ('K' as u8) {
        Some(Piece { piece_type: PieceType::King, color: Color::White })
    } else if c == ('p' as u8) {
        Some(Piece { piece_type: PieceType::Pawn, color: Color::Black })
    } else if c == ('n' as u8) {
        Some(Piece { piece_type: PieceType::Knight, color: Color::Black })
    } else if c == ('b' as u8) {
        Some(Piece { piece_type: PieceType::Bishop, color: Color::Black })
    } else if c == ('r' as u8) {
        Some(Piece { piece_type: PieceType::Rook, color: Color::Black })
    } else if c == ('q' as u8) {
        Some(Piece { piece_type: PieceType::Queen, color: Color::Black })
    } else if c == ('k' as u8) {
        Some(Piece { piece_type: PieceType::King, color: Color::Black })
    } else {
        None
    }
}

pub open spec fn is_digit(c: u8) -> bool {
    ('0' as u8) <= c && c <= ('9' as u8)
}

pub open spec fn digit_val(c: u8) -> int {
    c as int - '0' as int
}

/// Parse one rank of the placement field onto the squares: the fold state
/// after `i` bytes is the squares filled so far and the next file, or the
/// error met first.  A piece past the eighth file is an error; a digit may
/// step past it silently, as the reference notation never does.
pub open spec fn parse_rank_state(squares: Seq<Option<Piece>>, rank: int, s: Seq<u8>, i: int) -> Result<(Seq<Option<Piece>>, int), FenError>
    decreases i,
{
    if i <= 0 {
        Ok((squares, 0))
    } else {
        match parse_rank_state(squares, rank, s, i - 1) {
            Ok((sq, file)) => {
                if file >= 8 {
                    Err(FenError::RankOverflow)
                } else if is_digit(s[i - 1]) {
                    Ok((sq, file + digit_val(s[i - 1])))
                } else {
                    match spec_char_piece(s[i - 1]) {
                        Some(p) => Ok((sq.update(rank * 8 + file, Some(p)), file + 1)),
                        None => Err(FenError::BadPiece),
                    }
                }
            },
            Err(e) => Err(e),
        }
    }
}

/// Parse all eight ranks, topmost first.
pub open spec fn parse_ranks(squares: Seq<Option<Piece>>, ranks: Seq<Seq<u8>>, n: int) -> Result<Seq<Option<Piece>>, FenError>
    decreases n,
{
    if n <= 0 {
        Ok(squares)
    } else {
        match parse_ranks(squares, ranks, n - 1) {
            Ok(sq) => {
                let rank = 8 - n;
                match parse_rank_state(sq, rank, ranks[n - 1], ranks[n - 1].len() as int) {
                    Ok((sq2, _file)) => Ok(sq2),
                    Err(e) => Err(e),
                }
            },
            Err(e) => Err(e),
        }
    }
}

/// Parse the castling field: `-`, or any string over `KQkq`, each letter
/// setting its right.
pub open spec fn parse_castling(s: Seq<u8>, i: int) -> Result<u8, FenError>
    decreases i,
{
    if i <= 0 {
        Ok(0)
    } else {
        match parse_castling(s, i - 1) {
            Ok(r) => {
                let c = s[i - 1];
                if c == ('K' as u8) {
                    Ok(r | WK)
                } else if c == ('Q' as u8) {
                    Ok(r | WQ)
                } else if c == ('k' as u8) {
                    Ok(r | BK)
                } else if c == ('q' as u8) {
                    Ok(r | BQ)
                } else {
                    Err(FenError::BadCastling)
                }
            },
            Err(e) => Err(e),
        }
    }
}

/// Parse an unsigned decimal as `str::parse` does — an optional `+`, then
/// digits only — capped at `max`; anything else falls back to `default`.
/// A non-ASCII byte is no digit, so a clock field holding one defaults.
pub open spec fn parse_uint_digits(s: Seq<u8>, i: int) -> Option<int>
    decreases i,
{
    if i <= 0 {
        Some(0)
    } else {
        match parse_uint_digits(s, i - 1) {
            Some(acc) => {
                if is_digit(s[i - 1]) {
                    let v = acc * 10 + digit_val(s[i - 1]);
                    if v > 0xffff_ffff {
                        Some(0x1_0000_0000)
                    } else {
                        Some(v)
                    }
                } else {
                    None
                }
            },
            None => None,
        }
    }
}

pub open spec fn spec_parse_uint_or(s: Seq<u8>, max: int, default: int) -> int {
    let body = if s.len() > 0 && s[0] == ('+' as u8) {
        s.drop_first()
    } else {
        s
    };
    if body.len() == 0 {
        default
    } else {
        match parse_uint_digits(body, body.len() as int) {
            Some(v) => if v <= max {
                v
            } else {
                default
            },
            None => default,
        }
    }
}

/// What `from_fen` computes from the bytes of its input.
pub open spec fn spec_parse_fen(s: Seq<u8>) -> Result<BoardView, FenError> {
    let parts = spec_split_ws(s);
    if parts.len() < 4 {
        Err(FenError::NotEnoughFields)
    } else {
        let ranks = spec_split_slash(parts[0]);
        if ranks.len() != 8 {
            Err(FenError::BadRankCount)
        } else {
            match parse_ranks(Seq::new(64, |i: int| None::<Piece>), ranks, 8) {
                Err(e) => Err(e),
                Ok(squares) => {
                    if parts[1] != seq![('w' as u8)] && parts[1] != seq![('b' as u8)] {
                        Err(FenError::BadSideToMove)
                    } else {
                        let to_move = if parts[1] == seq![('w' as u8)] {
                            Color::White
                        } else {
                            Color::Black
                        };
                        let castling = if parts[2] == seq![('-' as u8)] {
                            Ok(0u8)
                        } else {
                            parse_castling(parts[2], parts[2].len() as int)
                        };
                        match castling {
                            Err(e) => Err(e),
                            Ok(rights) => {
                                let ep = if parts[3] == seq![('-' as u8)] {
                                    Ok(None::<Square>)
                                } else if parts[3].len() != 2 {
                                    Err(FenError::BadEnPassant)
                                } else {
                                    let f = parts[3][0] as int - 'a' as int;
                                    let r = parts[3][1] as int - '1' as int;
                                    if 0 <= f <= 7 && 0 <= r <= 7 {
                                        Ok(Some(Square((r * 8 + f) as u8)))
                                    } else {
                                        Err(FenError::BadEnPassant)
                                    }
                                };
                                match ep {
                                    Err(e) => Err(e),
                                    Ok(en_passant) => {
                                        let half = if parts.len() > 4 {
                                            spec_parse_uint_or(parts[4], 255, 0)
                                        } else {
                                            0
                                        };
                                        let full = if parts.len() > 5 {
                                            spec_parse_uint_or(parts[5], 65535, 1)
                                        } else {
                                            1
                                        };
                                        Ok(BoardView {
                                            squares: squares,
                                            to_move: to_move,
                                            castling_rights: rights,
                                            en_passant: en_passant,
                                            halfmove_clock: half as u8,
                                            fullmove_clock: full as u16,
                                        })
                                    },
                                }
                            },
                        }
                    }
                },
            }
        }
    }
}

/// The placement characters of one rank, files a to h, with runs of empty
/// squares as digits: the fold state after `file` files is the characters
/// emitted and the empty run not yet flushed.
pub open spec fn fen_rank_state(b: BoardView, rank: int, file: int) -> (Seq<char>, int)
    decreases file,
{
    if file <= 0 {
        (Seq::<char>::empty(), 0)
    } else {
        let (s, e) = fen_rank_state(b, rank, file - 1);
        match b.piece_at(rank * 8 + file - 1) {
            Some(p) => {
                let flushed = if e > 0 {
                    s.push(('0' as u8 + e as u8) as char)
                } else {
                    s
                };
                (flushed.push(spec_piece_char(p)), 0)
            },
            None => (s, e + 1),
        }
    }
}

pub open spec fn spec_fen_rank(b: BoardView, rank: int) -> Seq<char> {
    let (s, e) = fen_rank_state(b, rank, 8);
    if e > 0 {
        s.push(('0' as u8 + e as u8) as char)
    } else {
        s
    }
}

pub open spec fn spec_piece_char(p: Piece) -> char {
    match (p.piece_type, p.color) {
        (PieceType::Pawn, Color::White) => 'P',
        (PieceType::Knight, Color::White) => 'N',
        (PieceType::Bishop, Color::White) => 'B',
        (PieceType::Rook, Color::White) => 'R',
        (PieceType::Queen, Color::White) => 'Q',
        (PieceType::King, Color::White) => 'K',
        (PieceType::Pawn, Color::Black) => 'p',
        (PieceType::Knight, Color::Black) => 'n',
        (PieceType::Bishop, Color::Black) => 'b',
        (PieceType::Rook, Color::Black) => 'r',
        (PieceType::Queen, Color::Black) => 'q',
        (PieceType::King, Color::Black) => 'k',
    }
}

/// The eight ranks, topmost first, joined with `/`.
pub open spec fn spec_fen_placement(b: BoardView, n: int) -> Seq<char>
    decreases n,
{
    if n <= 0 {
        Seq::<char>::empty()
    } else {
        let prefix = spec_fen_placement(b, n - 1);
        let sep = if n > 1 {
            prefix.push('/')
        } else {
            prefix
        };
        sep + spec_fen_rank(b, 8 - n)
    }
}

/// A number in decimal.
pub open spec fn spec_decimal(n: int) -> Seq<char>
    decreases n,
{
    if n <= 9 {
        seq![('0' as u8 + n as u8) as char]
    } else {
        spec_decimal(n / 10).push(('0' as u8 + (n % 10) as u8) as char)
    }
}

/// The castling field: the held rights as `KQkq`, or `-` for none.
pub open spec fn spec_fen_castling(rights: u8) -> Seq<char> {
    if rights == 0 {
        seq!['-']
    } else {
        let s = Seq::<char>::empty();
        let s = if rights & WK != 0 {
            s.push('K')
        } else {
            s
        };
        let s = if rights & WQ != 0 {
            s.push('Q')
        } else {
            s
        };
        let s = if rights & BK != 0 {
            s.push('k')
        } else {
            s
        };
        if rights & BQ != 0 {
            s.push('q')
        } else {
            s
        }
    }
}

/// What `to_fen` emits: placement, side to move, castling, en passant and
/// the two clocks, separated by single spaces.
pub open spec fn spec_fen(b: BoardView) -> Seq<char> {
    let stm = if b.to_move == Color::White {
        'w'
    } else {
        'b'
    };
    let ep = match b.en_passant {
        Some(t) => t.spec_alg(),
        None => seq!['-'],
    };
    spec_fen_placement(b, 8) + seq![' ', stm, ' '] + spec_fen_castling(b.castling_rights)
        + seq![' '] + ep + seq![' '] + spec_decimal(b.halfmove_clock as int) + seq![' ']
        + spec_decimal(b.fullmove_clock as int)
}

/// Exec mirror of `spec_char_piece`.
fn char_piece(c: u8) -> (r: Option<Piece>)
    ensures
        r == spec_char_piece(c),
{
    match c {
        80 => Some(Piece { piece_type: PieceType::Pawn, color: Color::White }),
        78 => Some(Piece { piece_type: PieceType::Knight, color: Color::White }),
        66 => Some(Piece { piece_type: PieceType::Bishop, color: Color::White }),
        82 => Some(Piece { piece_type: PieceType::Rook, color: Color::White }),
        81 => Some(Piece { piece_type: PieceType::Queen, color: Color::White }),
        75 => Some(Piece { piece_type: PieceType::King, color: Color::White }),
        112 => Some(Piece { piece_type: PieceType::Pawn, color: Color::Black }),
        110 => Some(Piece { piece_type: PieceType::Knight, color: Color::Black }),
        98 => Some(Piece { piece_type: PieceType::Bishop, color: Color::Black }),
        114 => Some(Piece { piece_type: PieceType::Rook, color: Color::Black }),
        113 => Some(Piece { piece_type: PieceType::Queen, color: Color::Black }),
        107 => Some(Piece { piece_type: PieceType::King, color: Color::Black }),
        _ => None,
    }
}

/// Exec mirror of `spec_piece_char`, as an ASCII byte.
fn piece_char(p: Piece) -> (r: u8)
    ensures
        r < 128,
        r as char == spec_piece_char(p),
{
    match (p.piece_type, p.color) {
        (PieceType::Pawn, Color::White) => 80,
        (PieceType::Knight, Color::White) => 78,
        (PieceType::Bishop, Color::White) => 66,
        (PieceType::Rook, Color::White) => 82,
        (PieceType::Queen, Color::White) => 81,
        (PieceType::King, Color::White) => 75,
        (PieceType::Pawn, Color::Black) => 112,
        (PieceType::Knight, Color::Black) => 110,
        (PieceType::Bishop, Color::Black) => 98,
        (PieceType::Rook, Color::Black) => 114,
        (PieceType::Queen, Color::Black) => 113,
        (PieceType::King, Color::Black) => 107,
    }
}

/// Exec whitespace test on a byte.
fn byte_is_ws(c: u8) -> (r: bool)
    ensures
        r == is_ws(c),
{
    c == 32 || c == 9 || c == 10 || c == 13 || c == 12
}

/// The byte sequences a token list holds.
pub open spec fn token_views(v: Seq<Vec<u8>>) -> Seq<Seq<u8>> {
    v.map_values(|t: Vec<u8>| t@)
}

/// Split a byte buffer on ASCII whitespace runs.
fn split_ws(v: &Vec<u8>) -> (r: Vec<Vec<u8>>)
    ensures
        token_views(r@) == spec_split_ws(v@),
{
    let mut toks: Vec<Vec<u8>> = Vec::new();
    let mut cur: Vec<u8> = Vec::new();
    let mut i: usize = 0;
    proof {
        assert(token_views(toks@) =~= split_ws_state(v@, 0).0);
        assert(cur@ =~= split_ws_state(v@, 0).1);
    }
    while i < v.len()
        invariant
            0 <= i <= v@.len(),
            token_views(toks@) == split_ws_state(v@, i as int).0,
            cur@ == split_ws_state(v@, i as int).1,
        decreases v@.len() - i,
    {
        let c = v[i];
        if byte_is_ws(c) {
            if cur.len() > 0 {
                toks.push(cur);
                cur = Vec::new();
            }
        } else {
            cur.push(c);
        }
        proof {
            assert(token_views(toks@) =~= split_ws_state(v@, i as int + 1).0);
            assert(cur@ =~= split_ws_state(v@, i as int + 1).1);
        }
        i = i + 1;
    }
    if cur.len() > 0 {
        toks.push(cur);
    }
    proof {
        assert(token_views(toks@) =~= spec_split_ws(v@));
    }
    toks
}

/// The characters an ASCII byte buffer holds.
pub open spec fn chars_of(v: Seq<u8>) -> Seq<char> {
    v.map_values(|c: u8| c as char)
}

/// Split a byte buffer on `/`, keeping empty pieces.
fn split_slash(v: &Vec<u8>) -> (r: Vec<Vec<u8>>)
    ensures
        token_views(r@) == spec_split_slash(v@),
{
    let mut toks: Vec<Vec<u8>> = Vec::new();
    let mut cur: Vec<u8> = Vec::new();
    let mut i: usize = 0;
    proof {
        assert(token_views(toks@) =~= split_slash_state(v@, 0).0);
        assert(cur@ =~= split_slash_state(v@, 0).1);
    }
    while i < v.len()
        invariant
            0 <= i <= v@.len(),
            token_views(toks@) == split_slash_state(v@, i as int).0,
            cur@ == split_slash_state(v@, i as int).1,
        decreases v@.len() - i,
    {
        let c = v[i];
        if c == 47 {
            toks.push(cur);
            cur = Vec::new();
        } else {
            cur.push(c);
        }
        proof {
            assert(token_views(toks@) =~= split_slash_state(v@, i as int + 1).0);
            assert(cur@ =~= split_slash_state(v@, i as int + 1).1);
        }
        i = i + 1;
    }
    toks.push(cur);
    proof {
        assert(token_views(toks@) =~= spec_split_slash(v@));
    }
    toks
}

/// Exec mirror of `spec_parse_uint_or` on a byte token.
fn parse_uint_or(t: &Vec<u8>, max: u32, default: u32) -> (r: u32)
    ensures
        r as int == spec_parse_uint_or(t@, max as int, default as int),
{
    let start: usize = if t.len() > 0 && t[0] == 43 {
        1
    } else {
        0
    };
    let ghost body = if t@.len() > 0 && t@[0] == ('+' as u8) {
        t@.drop_first()
    } else {
        t@
    };
    proof {
        assert(body =~= t@.skip(start as int));
    }
    if t.len() == start {
        return default;
    }
    let mut acc: u64 = 0;
    let mut ok = true;
    let mut i: usize = start;
    while i < t.len()
        invariant
            start <= i <= t@.len(),
            body == t@.skip(start as int),
            ok ==> parse_uint_digits(body, i - start as int) == Some(acc as int),
            !ok ==> parse_uint_digits(body, i - start as int) is None,
            acc <= 0x1_0000_0000,
        decreases t@.len() - i,
    {
        let c = t[i];
        if ok {
            if c >= 48 && c <= 57 {
                let d = (c - 48) as u64;
                let v = acc * 10 + d;
                if v > 0xffff_ffff {
                    acc = 0x1_0000_0000;
                } else {
                    acc = v;
                }
            } else {
                ok = false;
            }
        }
        i = i + 1;
    }
    proof {
        assert(body.len() == t@.len() - start as int);
    }
    if ok && acc <= max as u64 {
        acc as u32
    } else {
        default
    }
}

/// An error met while reading a rank stands for the rest of the rank.
proof fn lemma_rank_state_err_persists(squares: Seq<Option<Piece>>, rank: int, s: Seq<u8>, i: int, j: int)
    requires
        0 <= i <= j,
        parse_rank_state(squares, rank, s, i) is Err,
    ensures
        parse_rank_state(squares, rank, s, j) == parse_rank_state(squares, rank, s, i),
    decreases j - i,
{
    if j > i {
        lemma_rank_state_err_persists(squares, rank, s, i, j - 1);
    }
}

/// An error met in one rank stands for the remaining ranks.
proof fn lemma_parse_ranks_err_persists(squares: Seq<Option<Piece>>, ranks: Seq<Seq<u8>>, n: int, m: int)
    requires
        0 <= n <= m,
        parse_ranks(squares, ranks, n) is Err,
    ensures
        parse_ranks(squares, ranks, m) == parse_ranks(squares, ranks, n),
    decreases m - n,
{
    if m > n {
        lemma_parse_ranks_err_persists(squares, ranks, n, m - 1);
    }
}

/// An error met in the castling field stands for the rest of it.
proof fn lemma_parse_castling_err_persists(s: Seq<u8>, i: int, j: int)
    requires
        0 <= i <= j,
        parse_castling(s, i) is Err,
    ensures
        parse_castling(s, j) == parse_castling(s, i),
    decreases j - i,
{
    if j > i {
        lemma_parse_castling_err_persists(s, i, j - 1);
    }
}

impl ArrayBoard {
    /// Render the position in the standard six-field notation.
    #[verifier::rlimit(100)]
    #[verifier::loop_isolation(false)]
    pub fn to_fen(&self) -> (r: String)
        requires
            self@.wf(),
            self@.en_passant is Some ==> (self@.en_passant->0).0 < 64,
        ensures
            r@ == spec_fen(self@),
    {
        let mut out: Vec<u8> = Vec::new();

        // Placement, rank 8 down to rank 1.
        let mut n: u8 = 1;
        while n <= 8
            invariant
                self@.wf(),
                1 <= n <= 9,
                chars_of(out@) == spec_fen_placement(self@, n as int - 1),
                forall|k: int| 0 <= k < out@.len() ==> out@[k] < 128,
            decreases 9 - n,
        {
            if n > 1 {
                out.push(47);
            }
            let rank: u8 = 8 - n;
            let ghost before = chars_of(out@);
            let mut empty_count: u8 = 0;
            let mut file: u8 = 0;
            while file < 8
                invariant
                    self@.wf(),
                    rank < 8,
                    0 <= file <= 8,
                    0 <= empty_count <= file,
                    chars_of(out@) == before + fen_rank_state(self@, rank as int, file as int).0,
                    empty_count as int == fen_rank_state(self@, rank as int, file as int).1,
                    forall|k: int| 0 <= k < out@.len() ==> out@[k] < 128,
                decreases 8 - file,
            {
                let ghost st = fen_rank_state(self@, rank as int, file as int);
                match self.get_piece(Square(rank * 8 + file)) {
                    Some(piece) => {
                        let ghost flushed = if st.1 > 0 {
                            st.0.push(('0' as u8 + st.1 as u8) as char)
                        } else {
                            st.0
                        };
                        proof {
                            assert(fen_rank_state(self@, rank as int, file as int + 1) == (
                                flushed.push(spec_piece_char(piece)),
                                0int,
                            ));
                        }
                        if empty_count > 0 {
                            out.push(48 + empty_count);
                            empty_count = 0;
                            assert('0' as u8 == 48);
                            assert((48 + (st.1 as u8)) as char == ('0' as u8 + st.1 as u8) as char);
                            assert(chars_of(out@) =~= (before + st.0).push(('0' as u8 + st.1 as u8) as char));
                            assert(chars_of(out@) =~= before + flushed);
                        } else {
                            assert(chars_of(out@) =~= before + flushed);
                        }
                        out.push(piece_char(piece));
                        assert(chars_of(out@) =~= (before + flushed).push(spec_piece_char(piece)));
                        assert(chars_of(out@) =~= before + flushed.push(spec_piece_char(piece)));
                    }
                    None => {
                        empty_count = empty_count + 1;
                    }
                }
                proof {
                    assert(chars_of(out@) =~= before + fen_rank_state(self@, rank as int, file as int + 1).0);
                }
                file = file + 1;
            }
            let ghost st8 = fen_rank_state(self@, rank as int, 8);
            proof {
                assert(chars_of(out@) == before + st8.0);
                assert(empty_count as int == st8.1);
            }
            if empty_count > 0 {
                out.push(48 + empty_count);
                assert('0' as u8 == 48);
                assert((48 + empty_count) as char == ('0' as u8 + st8.1 as u8) as char);
                assert(chars_of(out@) =~= (before + st8.0).push(('0' as u8 + st8.1 as u8) as char));
                assert(chars_of(out@) =~= before + st8.0.push(('0' as u8 + st8.1 as u8) as char));
            }
            proof {
                assert(chars_of(out@) =~= before + spec_fen_rank(self@, rank as int));
                assert(chars_of(out@) =~= spec_fen_placement(self@, n as int));
            }
            n = n + 1;
        }

        // Side to move.
        out.push(32);
        out.push(if self.to_move() == Color::White {
            119
        } else {
            98
        });

        // Castling rights.
        out.push(32);
        let rights = self.castling_rights();
        if rights == 0 {
            out.push(45);
        } else {
            if rights & WK != 0 {
                out.push(75);
            }
            if rights & WQ != 0 {
                out.push(81);
            }
            if rights & BK != 0 {
                out.push(107);
            }
            if rights & BQ != 0 {
                out.push(113);
            }
        }
        proof {
            assert(chars_of(out@) =~= spec_fen_placement(self@, 8) + seq![
                ' ',
                if self@.to_move == Color::White {
                    'w'
                } else {
                    'b'
                },
                ' ',
            ] + spec_fen_castling(self@.castling_rights));
        }

        let ghost upto_castling = spec_fen_placement(self@, 8) + seq![
            ' ',
            if self@.to_move == Color::White {
                'w'
            } else {
                'b'
            },
            ' ',
        ] + spec_fen_castling(self@.castling_rights);

        // En passant target.
        out.push(32);
        match self.en_passant() {
            Some(ep) => {
                out.push(97 + ep.0 % 8);
                out.push(49 + ep.0 / 8);
                proof {
                    assert('a' as u8 == 97 && '1' as u8 == 49);
                    assert(chars_of(out@) =~= upto_castling + seq![' '] + ep.spec_alg());
                }
            }
            None => {
                out.push(45);
                proof {
                    assert(chars_of(out@) =~= upto_castling + seq![' '] + seq!['-']);
                }
            }
        }
        let ghost upto_ep = upto_castling + seq![' '] + (match self@.en_passant {
            Some(t) => t.spec_alg(),
            None => seq!['-'],
        });
        proof {
            assert(chars_of(out@) =~= upto_ep);
        }

        // Clocks.
        out.push(32);
        push_decimal(&mut out, self.halfmove_clock() as u32);
        proof {
            assert(chars_of(out@) =~= upto_ep + seq![' '] + spec_decimal(self@.halfmove_clock as int));
        }
        out.push(32);
        push_decimal(&mut out, self.fullmove_clock() as u32);
        proof {
            assert(chars_of(out@) =~= upto_ep + seq![' '] + spec_decimal(self@.halfmove_clock as int)
                + seq![' '] + spec_decimal(self@.fullmove_clock as int));
            assert(chars_of(out@) =~= spec_fen(self@));
        }
        let s = ascii_to_string(out);
        proof {
            assert(s@ =~= spec_fen(self@));
        }
        s
    }

    /// Parse the standard notation, accepting four-, five- or six-field
    /// forms; a missing halfmove clock is 0 and a missing move number 1.
    /// The fields are split on ASCII whitespace and read byte-wise: `Ok`
    /// exactly when the placement, side, castling and en-passant fields are
    /// well formed; a clock field that is not a plain number — a word, a
    /// multi-byte character — falls back to its default; the error names
    /// the first field refused.
    #[verifier::rlimit(100)]
    #[verifier::loop_isolation(false)]
    pub fn from_fen(fen: &str) -> (r: Result<ArrayBoard, FenError>)
        ensures
            match r {
                Ok(b) => spec_parse_fen(fen.spec_bytes()) == Ok::<BoardView, FenError>(b@) && b@.wf(),
                Err(e) => spec_parse_fen(fen.spec_bytes()) == Err::<BoardView, FenError>(e),
            },
    {
        let bytes = fen.as_bytes_vec();

        let parts = split_ws(&bytes);
        if parts.len() < 4 {
            return Err(FenError::NotEnoughFields);
        }
        proof {
            assert(token_views(parts@)[0] == parts@[0]@);
            assert(token_views(parts@)[1] == parts@[1]@);
            assert(token_views(parts@)[2] == parts@[2]@);
            assert(token_views(parts@)[3] == parts@[3]@);
        }

        let ranks = split_slash(&parts[0]);
        if ranks.len() != 8 {
            return Err(FenError::BadRankCount);
        }

        // Placement.
        let mut board = ArrayBoard::new();
        board.clear();
        let ghost empty_squares = Seq::new(64, |i: int| None::<Piece>);
        let ghost ranks_bytes = spec_split_slash(parts@[0]@);

        let mut n: usize = 0;
        while n < 8
            invariant
                0 <= n <= 8,
                ranks@.len() == 8,
                ranks_bytes.len() == 8,
                forall|a: int| 0 <= a < 8 ==> ranks_bytes[a] == (#[trigger] ranks@[a])@,
                board@.wf(),
                parse_ranks(empty_squares, ranks_bytes, n as int) == Ok::<Seq<Option<Piece>>, FenError>(board@.squares),
                board@.to_move == Color::White,
                board@.castling_rights == 15,
                board@.en_passant is None,
                board@.halfmove_clock == 0,
                board@.fullmove_clock == 1,
            decreases 9 - n,
        {
            let rank: u8 = 7 - (n as u8);
            let rank_bytes = &ranks[n];
            let ghost rc = ranks_bytes[n as int];
            let ghost sq_in = board@.squares;
            let mut file: u8 = 0;
            let mut ci: usize = 0;
            while ci < rank_bytes.len()
                invariant
                    0 <= ci <= rank_bytes@.len(),
                    rc == rank_bytes@,
                    rank < 8,
                    file <= 25,
                    board@.wf(),
                    parse_rank_state(sq_in, rank as int, rc, ci as int) == Ok::<(Seq<Option<Piece>>, int), FenError>((board@.squares, file as int)),
                    board@.to_move == Color::White,
                    board@.castling_rights == 15,
                    board@.en_passant is None,
                    board@.halfmove_clock == 0,
                    board@.fullmove_clock == 1,
                decreases rank_bytes@.len() - ci,
            {
                let c = rank_bytes[ci];
                if file >= 8 {
                    proof {
                        assert(parse_rank_state(sq_in, rank as int, rc, ci as int + 1) == Err::<(Seq<Option<Piece>>, int), FenError>(FenError::RankOverflow));
                        lemma_rank_state_err_persists(sq_in, rank as int, rc, ci as int + 1, rc.len() as int);
                        assert(parse_ranks(empty_squares, ranks_bytes, n as int + 1) == Err::<Seq<Option<Piece>>, FenError>(FenError::RankOverflow));
                        lemma_parse_ranks_err_persists(empty_squares, ranks_bytes, n as int + 1, 8);
                    }
                    return Err(FenError::RankOverflow);
                }
                if c >= 48 && c <= 57 {
                    file = file + (c - 48);
                } else {
                    match char_piece(c) {
                        Some(p) => {
                            board.set_piece(Square(rank * 8 + file), Some(p));
                            file = file + 1;
                        }
                        None => {
                            proof {
                                assert(parse_rank_state(sq_in, rank as int, rc, ci as int + 1) == Err::<(Seq<Option<Piece>>, int), FenError>(FenError::BadPiece));
                                lemma_rank_state_err_persists(sq_in, rank as int, rc, ci as int + 1, rc.len() as int);
                                assert(parse_ranks(empty_squares, ranks_bytes, n as int + 1) == Err::<Seq<Option<Piece>>, FenError>(FenError::BadPiece));
                                lemma_parse_ranks_err_persists(empty_squares, ranks_bytes, n as int + 1, 8);
                            }
                            return Err(FenError::BadPiece);
                        }
                    }
                }
                ci = ci + 1;
            }
            n = n + 1;
        }

        // Side to move.
        let stm = &parts[1];
        let white = stm.len() == 1 && stm[0] == 119;
        let black = stm.len() == 1 && stm[0] == 98;
        proof {
            if white {
                assert(parts@[1]@ =~= seq![('w' as u8)]);
            }
            if black {
                assert(parts@[1]@ =~= seq![('b' as u8)]);
                assert(parts@[1]@ != seq![('w' as u8)]);
            }
            if !white && !black {
                assert(parts@[1]@ != seq![('w' as u8)] && parts@[1]@ != seq![('b' as u8)]);
            }
        }
        if !white && !black {
            return Err(FenError::BadSideToMove);
        }
        board.set_to_move(if white {
            Color::White
        } else {
            Color::Black
        });

        // Castling rights.
        let cas = &parts[2];
        let dash_cas = cas.len() == 1 && cas[0] == 45;
        proof {
            if dash_cas {
                assert(parts@[2]@ =~= seq![('-' as u8)]);
            } else {
                assert(parts@[2]@ != seq![('-' as u8)]);
            }
        }
        let mut rights: u8 = 0;
        if !dash_cas {
            let mut ci: usize = 0;
            while ci < cas.len()
                invariant
                    0 <= ci <= cas@.len(),
                    parse_castling(cas@, ci as int) == Ok::<u8, FenError>(rights),
                decreases cas@.len() - ci,
            {
                let c = cas[ci];
                if c == 75 {
                    rights = rights | WK;
                } else if c == 81 {
                    rights = rights | WQ;
                } else if c == 107 {
                    rights = rights | BK;
                } else if c == 113 {
                    rights = rights | BQ;
                } else {
                    proof {
                        assert(parse_castling(cas@, ci as int + 1) == Err::<u8, FenError>(FenError::BadCastling));
                        lemma_parse_castling_err_persists(cas@, ci as int + 1, cas@.len() as int);
                    }
                    return Err(FenError::BadCastling);
                }
                ci = ci + 1;
            }
        }
        board.set_castling_rights(rights);

        // En passant.
        let ep = &parts[3];
        let dash_ep = ep.len() == 1 && ep[0] == 45;
        proof {
            if dash_ep {
                assert(parts@[3]@ =~= seq![('-' as u8)]);
            } else {
                assert(parts@[3]@ != seq![('-' as u8)]);
            }
        }
        if !dash_ep {
            if ep.len() != 2 {
                return Err(FenError::BadEnPassant);
            }
            let f = ep[0] as i32 - 97;
            let r = ep[1] as i32 - 49;
            if f < 0 || f > 7 || r < 0 || r > 7 {
                return Err(FenError::BadEnPassant);
            }
            board.set_en_passant(Some(Square((r * 8 + f) as u8)));
        }

        // Clocks.
        if parts.len() > 4 {
            proof {
                assert(token_views(parts@)[4] == parts@[4]@);
            }
            let h = parse_uint_or(&parts[4], 255, 0);
            board.set_halfmove_clock(h as u8);
        } else {
            board.set_halfmove_clock(0);
        }
        if parts.len() > 5 {
            proof {
                assert(token_views(parts@)[5] == parts@[5]@);
            }
            let fm = parse_uint_or(&parts[5], 65535, 1);
            board.set_fullmove_clock(fm as u16);
        } else {
            board.set_fullmove_clock(1);
        }

        proof {
            assert('a' as int == 97 && '1' as int == 49 && '+' as int == 43);
            assert(bytes@ == fen.spec_bytes());
            assert(parse_ranks(empty_squares, ranks_bytes, 8) == Ok::<Seq<Option<Piece>>, FenError>(board@.squares));
            match spec_parse_fen(fen.spec_bytes()) {
                Ok(bv) => {
                    assert(bv.squares == board@.squares);
                    assert(bv.to_move == board@.to_move);
                    assert(bv.castling_rights == board@.castling_rights);
                    assert(bv.en_passant == board@.en_passant);
                    assert(bv.halfmove_clock == board@.halfmove_clock);
                    assert(bv.fullmove_clock == board@.fullmove_clock);
                    assert(bv =~= board@);
                }
                Err(_) => {
                    assert(false);
                }
            }
        }
        Ok(board)
    }
}

/// Append a number in decimal.
fn push_decimal(out: &mut Vec<u8>, n: u32)
    ensures
        final(out)@.len() > old(out)@.len(),
        chars_of(final(out)@) == chars_of(old(out)@) + spec_decimal(n as int),
        (forall|k: int| 0 <= k < old(out)@.len() ==> old(out)@[k] < 128) ==> forall|k: int|
            0 <= k < final(out)@.len() ==> final(out)@[k] < 128,
    decreases n,
{
    if n <= 9 {
        out.push(48 + n as u8);
        assert(spec_decimal(n as int) =~= seq![('0' as u8 + n as u8) as char]);
        assert(chars_of(out@) =~= chars_of(old(out)@) + spec_decimal(n as int));
    } else {
        push_decimal(out, n / 10);
        let ghost mid = out@;
        out.push(48 + (n % 10) as u8);
        assert(chars_of(mid) == chars_of(old(out)@) + spec_decimal(n as int / 10));
        assert(chars_of(out@) =~= chars_of(mid).push(('0' as u8 + (n as int % 10) as u8) as char));
        assert(chars_of(out@) =~= chars_of(old(out)@) + spec_decimal(n as int));
    }
}

} // verus!
