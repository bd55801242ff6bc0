use vstd::prelude::*;
use crate::types::{Color, Piece, PieceType, Square, SpecialMove, Move, WK, WQ, BK, BQ, ALL_CASTLING};

verus! {

broadcast use vstd::array::group_array_axioms;

/// The mathematical model of a board: the 64 squares in little-endian
/// rank-file order together with the game-state fields.
#[verifier::ext_equal]
pub struct BoardView {
    pub squares: Seq<Option<Piece>>,
    pub to_move: Color,
    pub castling_rights: u8,
    pub en_passant: Option<Square>,
    pub halfmove_clock: u8,
    pub fullmove_clock: u16,
}

impl BoardView {
    /// A model is well formed when it has exactly 64 squares.
    pub open spec fn wf(self) -> bool {
        self.squares.len() == 64
    }

    pub open spec fn piece_at(self, i: int) -> Option<Piece> {
        self.squares[i]
    }
}

/// Home and destination square of the rook in a castle, by color and wing.
pub open spec fn castle_rook_from(color: Color, king_side: bool) -> int {
    match (color, king_side) {
        (Color::White, true) => 7,
        (Color::White, false) => 0,
        (Color::Black, true) => 63,
        (Color::Black, false) => 56,
    }
}

pub open spec fn castle_rook_to(color: Color, king_side: bool) -> int {
    match (color, king_side) {
        (Color::White, true) => 5,
        (Color::White, false) => 3,
        (Color::Black, true) => 61,
        (Color::Black, false) => 59,
    }
}

/// The square holding the pawn captured en passant: one rank behind the
/// target square from the mover's point of view.
pub open spec fn ep_capture_square(mover: Color, to: int) -> int {
    match mover {
        Color::White => to - 8,
        Color::Black => to + 8,
    }
}

/// What a move needs from the position for `make_move` to run, except for
/// the presence of the pawn an en-passant capture removes.  Every move the
/// generators emit satisfies this.
pub open spec fn near_makeable(b: BoardView, m: Move) -> bool {
    &&& b.wf()
    &&& m.in_range()
    &&& m.from != m.to
    &&& b.piece_at(m.from.0 as int) is Some
    &&& {
        let p = b.piece_at(m.from.0 as int)->0;
        &&& (m.special_move == Some(SpecialMove::Promotion) ==> {
            &&& m.promotion is Some
            &&& p.piece_type == PieceType::Pawn
        })
        &&& (m.special_move == Some(SpecialMove::EnPassant) ==> {
            let cap = ep_capture_square(p.color, m.to.0 as int);
            &&& p.piece_type == PieceType::Pawn
            &&& b.en_passant == Some(m.to)
            &&& 0 <= cap < 64
            &&& cap != m.from.0 as int
        })
        &&& (m.special_move == Some(SpecialMove::Castle) ==> {
            let king_side = m.to.0 > m.from.0;
            let rf = castle_rook_from(p.color, king_side);
            let rt = castle_rook_to(p.color, king_side);
            &&& p.piece_type == PieceType::King
            &&& (p.color == Color::White ==> m.from.0 == 4 && (m.to.0 == 6 || m.to.0 == 2))
            &&& (p.color == Color::Black ==> m.from.0 == 60 && (m.to.0 == 62 || m.to.0 == 58))
            &&& b.piece_at(rf) == Some(Piece { piece_type: PieceType::Rook, color: p.color })
            &&& b.piece_at(rt) is None
        })
    }
}

/// For an en-passant capture, the pawn to be captured really stands on its
/// square; any other move asks nothing.  Without this, undoing the capture
/// would put a pawn on a square that held none.
pub open spec fn ep_victim_ok(b: BoardView, m: Move) -> bool {
    m.special_move == Some(SpecialMove::EnPassant) && b.piece_at(m.from.0 as int) is Some ==> {
        let p = b.piece_at(m.from.0 as int)->0;
        b.piece_at(ep_capture_square(p.color, m.to.0 as int)) == Some(
            Piece { piece_type: PieceType::Pawn, color: p.color.spec_opposite() },
        )
    }
}

/// What a move needs for `make_move` to run and for `unmake_move` to
/// restore the position exactly: the legal-move filter hands out only such
/// moves.
pub open spec fn makeable(b: BoardView, m: Move) -> bool {
    near_makeable(b, m) && ep_victim_ok(b, m)
}

/// Castling rights after the move: capturing on a rook home square, leaving a
/// rook home square, or moving the king each clear the corresponding bits.
pub open spec fn spec_rights_after(rights: u8, m: Move, moving: Piece, captured: Option<Piece>) -> u8 {
    let r0 = if captured is Some {
        if m.to.0 == 0 {
            rights & !WQ
        } else if m.to.0 == 7 {
            rights & !WK
        } else if m.to.0 == 56 {
            rights & !BQ
        } else if m.to.0 == 63 {
            rights & !BK
        } else {
            rights
        }
    } else {
        rights
    };
    let r1 = if m.from.0 == 0 {
        r0 & !WQ
    } else if m.from.0 == 7 {
        r0 & !WK
    } else if m.from.0 == 56 {
        r0 & !BQ
    } else if m.from.0 == 63 {
        r0 & !BK
    } else {
        r0
    };
    if moving.piece_type == PieceType::King {
        match moving.color {
            Color::White => r1 & !(WK | WQ),
            Color::Black => r1 & !(BK | BQ),
        }
    } else {
        r1
    }
}

/// The squares after the move: the mover (or the promoted piece) lands on
/// `to`, `from` empties, and en passant or castling adjust one more square
/// or move the rook.
pub open spec fn spec_squares_after(b: BoardView, m: Move) -> Seq<Option<Piece>> {
    let moving = b.piece_at(m.from.0 as int)->0;
    let placed = if m.special_move == Some(SpecialMove::Promotion) && m.promotion is Some {
        Piece { piece_type: m.promotion->0, color: moving.color }
    } else {
        moving
    };
    let s1 = b.squares.update(m.from.0 as int, None).update(m.to.0 as int, Some(placed));
    match m.special_move {
        Some(SpecialMove::EnPassant) => s1.update(ep_capture_square(moving.color, m.to.0 as int), None),
        Some(SpecialMove::Castle) => {
            let king_side = m.to.0 > m.from.0;
            let rf = castle_rook_from(moving.color, king_side);
            let rt = castle_rook_to(moving.color, king_side);
            if s1[rf] is Some {
                s1.update(rf, None).update(rt, s1[rf])
            } else {
                s1
            }
        },
        _ => s1,
    }
}

/// Whether the move is a double pawn push, which leaves an en-passant target
/// on the square it jumped over.
pub open spec fn spec_double_push(moving: Piece, m: Move) -> bool {
    moving.piece_type == PieceType::Pawn
        && (m.to.0 as int - m.from.0 as int == 16 || m.from.0 as int - m.to.0 as int == 16)
}

/// The full effect of a move on the position.
pub open spec fn spec_make(b: BoardView, m: Move) -> BoardView {
    let moving = b.piece_at(m.from.0 as int)->0;
    let captured = b.piece_at(m.to.0 as int);
    let next_to_move = b.to_move.spec_opposite();
    BoardView {
        squares: spec_squares_after(b, m),
        to_move: next_to_move,
        castling_rights: spec_rights_after(b.castling_rights, m, moving, captured),
        en_passant: if spec_double_push(moving, m) {
            Some(Square(((m.from.0 + m.to.0) / 2) as u8))
        } else {
            None
        },
        halfmove_clock: if moving.piece_type == PieceType::Pawn || captured is Some {
            0
        } else if b.halfmove_clock < 255 {
            (b.halfmove_clock + 1) as u8
        } else {
            255
        },
        fullmove_clock: if next_to_move == Color::White {
            if b.fullmove_clock < 65535 {
                (b.fullmove_clock + 1) as u16
            } else {
                65535
            }
        } else {
            b.fullmove_clock
        },
    }
}

/// The snapshot that `make_move` hands back so the move can be undone.
pub open spec fn spec_undo(b: BoardView, m: Move) -> UndoMove {
    UndoMove {
        captured_piece: b.piece_at(m.to.0 as int),
        previous_en_passant: b.en_passant,
        previous_castling_rights: b.castling_rights,
        previous_halfmove_clock: b.halfmove_clock,
        previous_fullmove_clock: b.fullmove_clock,
        previous_to_move: b.to_move,
    }
}

/// The effect of `unmake_move`: put the mover back (a pawn, if the move
/// promoted), restore the captured piece, the en-passant pawn or the rook,
/// and the saved state fields.
pub open spec fn spec_unmake(b: BoardView, m: Move, undo: UndoMove) -> BoardView {
    let at_dest = b.piece_at(m.to.0 as int)->0;
    let restored = if m.special_move == Some(SpecialMove::Promotion) {
        Piece { piece_type: PieceType::Pawn, color: at_dest.color }
    } else {
        at_dest
    };
    let s1 = b.squares.update(m.from.0 as int, Some(restored)).update(m.to.0 as int, undo.captured_piece);
    let s2 = match m.special_move {
        Some(SpecialMove::EnPassant) => s1.update(
            ep_capture_square(restored.color, m.to.0 as int),
            Some(Piece { piece_type: PieceType::Pawn, color: restored.color.spec_opposite() }),
        ),
        Some(SpecialMove::Castle) => {
            let king_side = m.to.0 > m.from.0;
            let rf = castle_rook_from(restored.color, king_side);
            let rt = castle_rook_to(restored.color, king_side);
            if s1[rt] is Some {
                s1.update(rt, None).update(rf, s1[rt])
            } else {
                s1
            }
        },
        _ => s1,
    };
    BoardView {
        squares: s2,
        to_move: undo.previous_to_move,
        castling_rights: undo.previous_castling_rights,
        en_passant: undo.previous_en_passant,
        halfmove_clock: undo.previous_halfmove_clock,
        fullmove_clock: undo.previous_fullmove_clock,
    }
}

/// Undoing a move restores the position exactly.
pub proof fn lemma_make_unmake(b: BoardView, m: Move)
    requires
        makeable(b, m),
    ensures
        spec_unmake(spec_make(b, m), m, spec_undo(b, m)) == b,
{
    let made = spec_make(b, m);
    let undone = spec_unmake(made, m, spec_undo(b, m));
    assert(undone.squares =~= b.squares);
    assert(undone =~= b);
}

/// The piece standing on square `i` in the opening position.
pub open spec fn spec_start_piece(i: int) -> Option<Piece> {
    if 8 <= i < 16 {
        Some(Piece { piece_type: PieceType::Pawn, color: Color::White })
    } else if 48 <= i < 56 {
        Some(Piece { piece_type: PieceType::Pawn, color: Color::Black })
    } else if i == 0 || i == 7 {
        Some(Piece { piece_type: PieceType::Rook, color: Color::White })
    } else if i == 1 || i == 6 {
        Some(Piece { piece_type: PieceType::Knight, color: Color::White })
    } else if i == 2 || i == 5 {
        Some(Piece { piece_type: PieceType::Bishop, color: Color::White })
    } else if i == 3 {
        Some(Piece { piece_type: PieceType::Queen, color: Color::White })
    } else if i == 4 {
        Some(Piece { piece_type: PieceType::King, color: Color::White })
    } else if i == 56 || i == 63 {
        Some(Piece { piece_type: PieceType::Rook, color: Color::Black })
    } else if i == 57 || i == 62 {
        Some(Piece { piece_type: PieceType::Knight, color: Color::Black })
    } else if i == 58 || i == 61 {
        Some(Piece { piece_type: PieceType::Bishop, color: Color::Black })
    } else if i == 59 {
        Some(Piece { piece_type: PieceType::Queen, color: Color::Black })
    } else if i == 60 {
        Some(Piece { piece_type: PieceType::King, color: Color::Black })
    } else {
        None
    }
}

/// The opening position: the usual array, White to move, full castling
/// rights, no en-passant target, clocks at 0 and 1.
pub open spec fn spec_start_board() -> BoardView {
    BoardView {
        squares: Seq::new(64, |i: int| spec_start_piece(i)),
        to_move: Color::White,
        castling_rights: 15,
        en_passant: None,
        halfmove_clock: 0,
        fullmove_clock: 1,
    }
}

/// Exec mirror of `spec_start_piece`.
fn starting_piece(i: u8) -> (r: Option<Piece>)
    requires
        i < 64,
    ensures
        r == spec_start_piece(i as int),
{
    if 8 <= i && i < 16 {
        Some(Piece { piece_type: PieceType::Pawn, color: Color::White })
    } else if 48 <= i && i < 56 {
        Some(Piece { piece_type: PieceType::Pawn, color: Color::Black })
    } else if i == 0 || i == 7 {
        Some(Piece { piece_type: PieceType::Rook, color: Color::White })
    } else if i == 1 || i == 6 {
        Some(Piece { piece_type: PieceType::Knight, color: Color::White })
    } else if i == 2 || i == 5 {
        Some(Piece { piece_type: PieceType::Bishop, color: Color::White })
    } else if i == 3 {
        Some(Piece { piece_type: PieceType::Queen, color: Color::White })
    } else if i == 4 {
        Some(Piece { piece_type: PieceType::King, color: Color::White })
    } else if i == 56 || i == 63 {
        Some(Piece { piece_type: PieceType::Rook, color: Color::Black })
    } else if i == 57 || i == 62 {
        Some(Piece { piece_type: PieceType::Knight, color: Color::Black })
    } else if i == 58 || i == 61 {
        Some(Piece { piece_type: PieceType::Bishop, color: Color::Black })
    } else if i == 59 {
        Some(Piece { piece_type: PieceType::Queen, color: Color::Black })
    } else if i == 60 {
        Some(Piece { piece_type: PieceType::King, color: Color::Black })
    } else {
        None
    }
}

/// Everything `make_move` saves so that `unmake_move` can restore the
/// position: the piece standing on the destination square and the five
/// game-state fields the move may overwrite.
#[derive(Debug, Clone, Copy, PartialEq, Eq, Structural)]
pub struct UndoMove {
    pub captured_piece: Option<Piece>,
    pub previous_en_passant: Option<Square>,
    pub previous_castling_rights: u8,
    pub previous_halfmove_clock: u8,
    pub previous_fullmove_clock: u16,
    pub previous_to_move: Color,
}

/// A 64-square mailbox board plus the game-state fields.
#[derive(Debug, Clone, Copy)]
pub struct ArrayBoard {
    pub squares: [Option<Piece>; 64],
    pub to_move: Color,
    pub castling_rights: u8,
    pub en_passant: Option<Square>,
    pub halfmove_clock: u8,
    pub fullmove_clock: u16,
}

pub type Board = ArrayBoard;

impl View for ArrayBoard {
    type V = BoardView;

    open spec fn view(&self) -> BoardView {
        BoardView {
            squares: self.squares@,
            to_move: self.to_move,
            castling_rights: self.castling_rights,
            en_passant: self.en_passant,
            halfmove_clock: self.halfmove_clock,
            fullmove_clock: self.fullmove_clock,
        }
    }
}

impl ArrayBoard {
    /// An empty board: White to move, all castling rights, no en-passant
    /// target, clocks at 0 and 1.
    pub fn new() -> (r: ArrayBoard)
        ensures
            r@.wf(),
            r@.squares == Seq::new(64, |i: int| None::<Piece>),
            r@.to_move == Color::White,
            r@.castling_rights == ALL_CASTLING,
            r@.en_passant is None,
            r@.halfmove_clock == 0,
            r@.fullmove_clock == 1,
    {
        let b = ArrayBoard {
            squares: [None; 64],
            to_move: Color::White,
            castling_rights: 15,
            en_passant: None,
            halfmove_clock: 0,
            fullmove_clock: 1,
        };
        proof {
            assert(b@.squares =~= Seq::new(64, |i: int| None::<Piece>));
        }
        b
    }

    pub fn get_piece(&self, square: Square) -> (r: Option<Piece>)
        requires
            square.0 < 64,
        ensures
            r == self@.piece_at(square.0 as int),
    {
        self.squares[square.0 as usize]
    }

    pub fn set_piece(&mut self, square: Square, piece: Option<Piece>)
        requires
            square.0 < 64,
        ensures
            final(self)@ == (BoardView {
                squares: old(self)@.squares.update(square.0 as int, piece),
                ..old(self)@
            }),
    {
        self.squares[square.0 as usize] = piece;
        proof {
            assert(self@ =~= (BoardView {
                squares: old(self)@.squares.update(square.0 as int, piece),
                ..old(self)@
            }));
        }
    }

    pub fn is_empty(&self, square: Square) -> (r: bool)
        requires
            square.0 < 64,
        ensures
            r == (self@.piece_at(square.0 as int) is None),
    {
        self.squares[square.0 as usize].is_none()
    }

    pub fn to_move(&self) -> (r: Color)
        ensures
            r == self@.to_move,
    {
        self.to_move
    }

    pub fn set_to_move(&mut self, color: Color)
        ensures
            final(self)@ == (BoardView { to_move: color, ..old(self)@ }),
    {
        self.to_move = color;
        proof {
            assert(self@ =~= (BoardView { to_move: color, ..old(self)@ }));
        }
    }

    pub fn en_passant(&self) -> (r: Option<Square>)
        ensures
            r == self@.en_passant,
    {
        self.en_passant
    }

    pub fn set_en_passant(&mut self, square: Option<Square>)
        ensures
            final(self)@ == (BoardView { en_passant: square, ..old(self)@ }),
    {
        self.en_passant = square;
        proof {
            assert(self@ =~= (BoardView { en_passant: square, ..old(self)@ }));
        }
    }

    pub fn castling_rights(&self) -> (r: u8)
        ensures
            r == self@.castling_rights,
    {
        self.castling_rights
    }

    pub fn set_castling_rights(&mut self, rights: u8)
        ensures
            final(self)@ == (BoardView { castling_rights: rights, ..old(self)@ }),
    {
        self.castling_rights = rights;
        proof {
            assert(self@ =~= (BoardView { castling_rights: rights, ..old(self)@ }));
        }
    }

    pub fn halfmove_clock(&self) -> (r: u8)
        ensures
            r == self@.halfmove_clock,
    {
        self.halfmove_clock
    }

    pub fn set_halfmove_clock(&mut self, clock: u8)
        ensures
            final(self)@ == (BoardView { halfmove_clock: clock, ..old(self)@ }),
    {
        self.halfmove_clock = clock;
        proof {
            assert(self@ =~= (BoardView { halfmove_clock: clock, ..old(self)@ }));
        }
    }

    pub fn fullmove_clock(&self) -> (r: u16)
        ensures
            r == self@.fullmove_clock,
    {
        self.fullmove_clock
    }

    pub fn set_fullmove_clock(&mut self, clock: u16)
        ensures
            final(self)@ == (BoardView { fullmove_clock: clock, ..old(self)@ }),
    {
        self.fullmove_clock = clock;
        proof {
            assert(self@ =~= (BoardView { fullmove_clock: clock, ..old(self)@ }));
        }
    }

    /// Empty every square, leaving the game-state fields alone.
    pub fn clear(&mut self)
        ensures
            final(self)@ == (BoardView {
                squares: Seq::new(64, |i: int| None::<Piece>),
                ..old(self)@
            }),
    {
        self.squares = [None; 64];
        proof {
            assert(self@.squares =~= Seq::new(64, |i: int| None::<Piece>));
            assert(self@ =~= (BoardView {
                squares: Seq::new(64, |i: int| None::<Piece>),
                ..old(self)@
            }));
        }
    }

    /// Fill the board with the opening array and reset every state field.
    pub fn setup_starting_position(&mut self)
        ensures
            final(self)@ == spec_start_board(),
    {
        self.squares = [None; 64];
        self.to_move = Color::White;
        self.castling_rights = 15;
        self.en_passant = None;
        self.halfmove_clock = 0;
        self.fullmove_clock = 1;

        let mut i: u8 = 0;
        while i < 64
            invariant
                0 <= i <= 64,
                self@.squares.len() == 64,
                forall|j: int| 0 <= j < i ==> self@.squares[j] == spec_start_piece(j),
                forall|j: int| i <= j < 64 ==> self@.squares[j] is None,
                self@.to_move == Color::White,
                self@.castling_rights == 15,
                self@.en_passant is None,
                self@.halfmove_clock == 0,
                self@.fullmove_clock == 1,
            decreases 64 - i,
        {
            self.squares[i as usize] = starting_piece(i);
            i = i + 1;
        }
        proof {
            assert(self@.squares =~= spec_start_board().squares);
            assert(self@ =~= spec_start_board());
        }
    }

    /// Apply the move and return the snapshot that undoes it.
    pub fn make_move(&mut self, mv: &Move) -> (undo: UndoMove)
        requires
            makeable(old(self)@, *mv),
        ensures
            final(self)@ == spec_make(old(self)@, *mv),
            undo == spec_undo(old(self)@, *mv),
    {
        let undo = UndoMove {
            captured_piece: self.get_piece(mv.to),
            previous_en_passant: self.en_passant,
            previous_castling_rights: self.castling_rights,
            previous_halfmove_clock: self.halfmove_clock,
            previous_fullmove_clock: self.fullmove_clock,
            previous_to_move: self.to_move,
        };

        let moving_piece = self.get_piece(mv.from).unwrap();

        self.set_piece(mv.from, None);

        let piece_to_place = if mv.special_move == Some(SpecialMove::Promotion) {
            match mv.promotion {
                Some(promoted) => Piece::new(promoted, moving_piece.color),
                None => moving_piece,
            }
        } else {
            moving_piece
        };

        self.set_piece(mv.to, Some(piece_to_place));

        // Clear the en-passant target; a double push below re-creates it.
        self.set_en_passant(None);

        match mv.special_move {
            Some(SpecialMove::EnPassant) => {
                let captured_pawn_square = match moving_piece.color {
                    Color::White => Square(mv.to.0 - 8),
                    Color::Black => Square(mv.to.0 + 8),
                };
                self.set_piece(captured_pawn_square, None);
            }
            Some(SpecialMove::Castle) => {
                let king_side = mv.to.0 > mv.from.0;
                let (rook_from, rook_to) = match (moving_piece.color, king_side) {
                    (Color::White, true) => (Square(7), Square(5)),
                    (Color::White, false) => (Square(0), Square(3)),
                    (Color::Black, true) => (Square(63), Square(61)),
                    (Color::Black, false) => (Square(56), Square(59)),
                };
                match self.get_piece(rook_from) {
                    Some(rook) => {
                        self.set_piece(rook_from, None);
                        self.set_piece(rook_to, Some(rook));
                    }
                    None => {}
                }
            }
            _ => {}
        }

        // Castling rights: capturing on a rook home square clears the
        // victim's right.
        if undo.captured_piece.is_some() {
            if mv.to.0 == 0 {
                self.castling_rights = self.castling_rights & !WQ;
            } else if mv.to.0 == 7 {
                self.castling_rights = self.castling_rights & !WK;
            } else if mv.to.0 == 56 {
                self.castling_rights = self.castling_rights & !BQ;
            } else if mv.to.0 == 63 {
                self.castling_rights = self.castling_rights & !BK;
            }
        }

        // Leaving a rook home square clears that right.
        if mv.from.0 == 0 {
            self.castling_rights = self.castling_rights & !WQ;
        } else if mv.from.0 == 7 {
            self.castling_rights = self.castling_rights & !WK;
        } else if mv.from.0 == 56 {
            self.castling_rights = self.castling_rights & !BQ;
        } else if mv.from.0 == 63 {
            self.castling_rights = self.castling_rights & !BK;
        }

        // A king move clears both of its side's rights.
        if moving_piece.piece_type == PieceType::King {
            match moving_piece.color {
                Color::White => {
                    self.castling_rights = self.castling_rights & !(WK | WQ);
                }
                Color::Black => {
                    self.castling_rights = self.castling_rights & !(BK | BQ);
                }
            }
        }

        // A double pawn push leaves an en-passant target on the square it
        // jumped over.
        if moving_piece.piece_type == PieceType::Pawn {
            let bigger = if mv.to.0 > mv.from.0 {
                mv.to.0 - mv.from.0
            } else {
                mv.from.0 - mv.to.0
            };
            if bigger == 16 {
                self.en_passant = Some(Square((mv.from.0 + mv.to.0) / 2));
            }
        }

        // Halfmove clock resets on a pawn move or capture, else counts up.
        if moving_piece.piece_type == PieceType::Pawn || undo.captured_piece.is_some() {
            self.halfmove_clock = 0;
        } else if self.halfmove_clock < 255 {
            self.halfmove_clock = self.halfmove_clock + 1;
        }

        self.to_move = match self.to_move {
            Color::White => Color::Black,
            Color::Black => Color::White,
        };

        if self.to_move == Color::White {
            if self.fullmove_clock < 65535 {
                self.fullmove_clock = self.fullmove_clock + 1;
            }
        }

        proof {
            assert(self@.squares =~= spec_make(old(self)@, *mv).squares);
            assert(self@ =~= spec_make(old(self)@, *mv));
        }
        undo
    }

    /// Take the move back, restoring the position the snapshot was taken in.
    pub fn unmake_move(&mut self, mv: &Move, undo: UndoMove)
        requires
            old(self)@.wf(),
            mv.in_range(),
            mv.from != mv.to,
            old(self)@.piece_at(mv.to.0 as int) is Some,
            mv.special_move == Some(SpecialMove::EnPassant) ==> {
                let cap = ep_capture_square(
                    old(self)@.piece_at(mv.to.0 as int)->0.color,
                    mv.to.0 as int,
                );
                0 <= cap < 64
            },
        ensures
            final(self)@ == spec_unmake(old(self)@, *mv, undo),
    {
        let piece_at_dest = self.get_piece(mv.to).unwrap();

        let piece_to_restore = if mv.special_move == Some(SpecialMove::Promotion) {
            Piece::new(PieceType::Pawn, piece_at_dest.color)
        } else {
            piece_at_dest
        };

        self.set_piece(mv.from, Some(piece_to_restore));
        self.set_piece(mv.to, undo.captured_piece);

        match mv.special_move {
            Some(SpecialMove::EnPassant) => {
                let captured_pawn_square = match piece_to_restore.color {
                    Color::White => Square(mv.to.0 - 8),
                    Color::Black => Square(mv.to.0 + 8),
                };
                let captured_pawn = Piece {
                    piece_type: PieceType::Pawn,
                    color: piece_to_restore.color.opposite(),
                };
                self.set_piece(captured_pawn_square, Some(captured_pawn));
            }
            Some(SpecialMove::Castle) => {
                let king_side = mv.to.0 > mv.from.0;
                let (rook_from, rook_to) = match (piece_to_restore.color, king_side) {
                    (Color::White, true) => (Square(7), Square(5)),
                    (Color::White, false) => (Square(0), Square(3)),
                    (Color::Black, true) => (Square(63), Square(61)),
                    (Color::Black, false) => (Square(56), Square(59)),
                };
                match self.get_piece(rook_to) {
                    Some(rook) => {
                        self.set_piece(rook_to, None);
                        self.set_piece(rook_from, Some(rook));
                    }
                    None => {}
                }
            }
            _ => {}
        }

        self.to_move = undo.previous_to_move;
        self.en_passant = undo.previous_en_passant;
        self.castling_rights = undo.previous_castling_rights;
        self.halfmove_clock = undo.previous_halfmove_clock;
        self.fullmove_clock = undo.previous_fullmove_clock;

        proof {
            assert(self@.squares =~= spec_unmake(old(self)@, *mv, undo).squares);
            assert(self@ =~= spec_unmake(old(self)@, *mv, undo));
        }
    }
}

} // verus!
