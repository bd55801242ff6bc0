use vstd::prelude::*;
use crate::text::ascii_to_string;

verus! {

#[derive(Debug, Clone, Copy, PartialEq, Eq, Structural)]
pub enum Color {
    White,
    Black,
}

impl Color {
    /// The other side.
    pub open spec fn spec_opposite(self) -> Color {
        match self {
            Color::White => Color::Black,
            Color::Black => Color::White,
        }
    }

    pub fn opposite(self) -> (r: Color)
        ensures
            r == self.spec_opposite(),
    {
        match self {
            Color::White => Color::Black,
            Color::Black => Color::White,
        }
    }
}

#[derive(Debug, Clone, Copy, PartialEq, Eq, Structural)]
pub enum PieceType {
    Pawn,
    Knight,
    Bishop,
    Rook,
    Queen,
    King,
}

#[derive(Debug, Clone, Copy, PartialEq, Eq, Structural)]
pub enum SpecialMove {
    Castle,
    Promotion,
    EnPassant,
}

pub type CastleMask = u8;

pub const WK: CastleMask = 1;
pub const WQ: CastleMask = 2;
pub const BK: CastleMask = 4;
pub const BQ: CastleMask = 8;

pub const ALL_CASTLING: CastleMask = 15;

#[derive(Debug, Clone, Copy, PartialEq, Eq, Structural)]
pub struct Piece {
    pub piece_type: PieceType,
    pub color: Color,
}

impl Piece {
    pub fn new(p_type: PieceType, color: Color) -> (r: Piece)
        ensures
            r == (Piece { piece_type: p_type, color: color }),
    {
        Piece { piece_type: p_type, color: color }
    }
}

/// A board square, numbered 0..64 in little-endian rank-file order:
/// square = rank * 8 + file, a1 = 0, h8 = 63.
#[derive(Debug, Clone, Copy, PartialEq, Eq, Structural)]
pub struct Square(pub u8);

impl Square {
    pub fn new(val: u8) -> (r: Square)
        requires
            val < 64,
        ensures
            r == Square(val),
    {
        Square(val)
    }

    /// The file letter 'a'..'h' of this square.
    pub open spec fn spec_file(self) -> char {
        (97 + (self.0 % 8)) as char
    }

    /// The rank digit '1'..'8' of this square.
    pub open spec fn spec_rank(self) -> char {
        (49 + (self.0 / 8)) as char
    }

    pub fn file(self) -> (r: char)
        requires
            self.0 < 64,
        ensures
            r == self.spec_file(),
    {
        (97 + (self.0 % 8)) as char
    }

    pub fn rank(self) -> (r: char)
        requires
            self.0 < 64,
        ensures
            r == self.spec_rank(),
    {
        (49 + (self.0 / 8)) as char
    }

    /// Algebraic name of the square: file letter then rank digit.
    pub open spec fn spec_alg(self) -> Seq<char> {
        seq![self.spec_file(), self.spec_rank()]
    }

    pub fn to_alg(self) -> (r: String)
        requires
            self.0 < 64,
        ensures
            r@ == self.spec_alg(),
    {
        let mut bytes: Vec<u8> = Vec::new();
        bytes.push(97 + (self.0 % 8));
        bytes.push(49 + (self.0 / 8));
        let s = ascii_to_string(bytes);
        proof {
            assert(s@ =~= self.spec_alg());
        }
        s
    }
}

/// A move: source and destination squares, an optional special-move tag
/// (castle, promotion, en passant) and, for promotions, the piece promoted to.
#[derive(Debug, Clone, Copy, PartialEq, Eq, Structural)]
pub struct Move {
    pub from: Square,
    pub to: Square,
    pub special_move: Option<SpecialMove>,
    pub promotion: Option<PieceType>,
}

impl Move {
    pub fn new(_from: Square, _to: Square, special: Option<SpecialMove>, _promo: Option<PieceType>) -> (r: Move)
        ensures
            r == (Move { from: _from, to: _to, special_move: special, promotion: _promo }),
    {
        Move { from: _from, to: _to, special_move: special, promotion: _promo }
    }

    /// A move's squares both lie on the board.
    pub open spec fn in_range(self) -> bool {
        self.from.0 < 64 && self.to.0 < 64
    }

    /// The letter appended to a promotion move's algebraic form.
    pub open spec fn spec_promo_letter(pt: PieceType) -> char {
        match pt {
            PieceType::Queen => 'q',
            PieceType::Rook => 'r',
            PieceType::Bishop => 'b',
            PieceType::Knight => 'n',
            _ => '?',
        }
    }

    /// Algebraic form: castles render as O-O / O-O-O; any other move as
    /// source square, destination square and, for promotions, the piece letter.
    pub open spec fn spec_algebraic(self) -> Seq<char> {
        if self.special_move == Some(SpecialMove::Castle) {
            if self.to.0 > self.from.0 {
                seq!['O', '-', 'O']
            } else {
                seq!['O', '-', 'O', '-', 'O']
            }
        } else {
            let base = self.from.spec_alg() + self.to.spec_alg();
            match self.promotion {
                Some(pt) => base.push(Move::spec_promo_letter(pt)),
                None => base,
            }
        }
    }

    pub fn to_algebraic(&self) -> (r: String)
        requires
            self.in_range(),
        ensures
            r@ == self.spec_algebraic(),
    {
        if self.special_move == Some(SpecialMove::Castle) {
            let mut bytes: Vec<u8> = Vec::new();
            bytes.push(79);
            bytes.push(45);
            bytes.push(79);
            if !(self.to.0 > self.from.0) {
                bytes.push(45);
                bytes.push(79);
            }
            let s = ascii_to_string(bytes);
            proof {
                assert(s@ =~= self.spec_algebraic());
            }
            s
        } else {
            let mut bytes: Vec<u8> = Vec::new();
            bytes.push(97 + (self.from.0 % 8));
            bytes.push(49 + (self.from.0 / 8));
            bytes.push(97 + (self.to.0 % 8));
            bytes.push(49 + (self.to.0 / 8));
            match self.promotion {
                Some(pt) => {
                    let c: u8 = match pt {
                        PieceType::Queen => 113,
                        PieceType::Rook => 114,
                        PieceType::Bishop => 98,
                        PieceType::Knight => 110,
                        _ => 63,
                    };
                    bytes.push(c);
                }
                None => {}
            }
            let s = ascii_to_string(bytes);
            proof {
                assert(s@ =~= self.spec_algebraic());
            }
            s
        }
    }
}

/// Which scheduling bucket a probed root move was placed in.
#[derive(Debug, Clone, Copy, PartialEq, Eq, Structural)]
pub enum MovePhase {
    Heavy,
    Light,
}

/// A root move together with its probed sub-tree size and its bucket.
#[derive(Debug, Clone, Copy, PartialEq, Eq, Structural)]
pub struct ClassifiedMove {
    pub mv: Move,
    pub subtree_nodes: u64,
    pub phase: MovePhase,
}

} // verus!
