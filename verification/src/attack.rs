use vstd::prelude::*;
use crate::types::{Color, Piece, PieceType, Square};
use crate::board::{ArrayBoard, BoardView};

verus! {

pub open spec fn on_board(i: int) -> bool {
    0 <= i < 64
}

pub open spec fn abs_diff(a: int, b: int) -> int {
    if a >= b {
        a - b
    } else {
        b - a
    }
}

/// A pawn of `by` stands on `from` and `from` is one file away from `sq`.
/// Which `from` squares are probed is the caller's business: a White pawn
/// attacks the two squares diagonally above it, a Black pawn the two below.
pub open spec fn pawn_attack_from(b: BoardView, sq: int, by: Color, from: int) -> bool {
    &&& on_board(from)
    &&& abs_diff(sq % 8, from % 8) == 1
    &&& b.piece_at(from) == Some(Piece { piece_type: PieceType::Pawn, color: by })
}

pub open spec fn spec_pawn_attack(b: BoardView, sq: int, by: Color) -> bool {
    match by {
        Color::White => pawn_attack_from(b, sq, by, sq - 7) || pawn_attack_from(b, sq, by, sq - 9),
        Color::Black => pawn_attack_from(b, sq, by, sq + 7) || pawn_attack_from(b, sq, by, sq + 9),
    }
}

/// A knight of `by` stands on `from`, and the jump from `from` to `sq` stays
/// within two files and two ranks (which rules out board-edge wrap-around).
pub open spec fn knight_attack_from(b: BoardView, sq: int, by: Color, from: int) -> bool {
    &&& on_board(from)
    &&& abs_diff(from % 8, sq % 8) <= 2
    &&& abs_diff(from / 8, sq / 8) <= 2
    &&& b.piece_at(from) == Some(Piece { piece_type: PieceType::Knight, color: by })
}

pub open spec fn spec_knight_attack(b: BoardView, sq: int, by: Color) -> bool {
    ||| knight_attack_from(b, sq, by, sq + 17)
    ||| knight_attack_from(b, sq, by, sq + 15)
    ||| knight_attack_from(b, sq, by, sq + 10)
    ||| knight_attack_from(b, sq, by, sq + 6)
    ||| knight_attack_from(b, sq, by, sq - 6)
    ||| knight_attack_from(b, sq, by, sq - 10)
    ||| knight_attack_from(b, sq, by, sq - 15)
    ||| knight_attack_from(b, sq, by, sq - 17)
}

/// A king of `by` stands on `from`, adjacent to `sq`.
pub open spec fn king_attack_from(b: BoardView, sq: int, by: Color, from: int) -> bool {
    &&& on_board(from)
    &&& abs_diff(from % 8, sq % 8) <= 1
    &&& abs_diff(from / 8, sq / 8) <= 1
    &&& b.piece_at(from) == Some(Piece { piece_type: PieceType::King, color: by })
}

pub open spec fn spec_king_attack(b: BoardView, sq: int, by: Color) -> bool {
    ||| king_attack_from(b, sq, by, sq + 1)
    ||| king_attack_from(b, sq, by, sq - 1)
    ||| king_attack_from(b, sq, by, sq + 7)
    ||| king_attack_from(b, sq, by, sq - 7)
    ||| king_attack_from(b, sq, by, sq + 8)
    ||| king_attack_from(b, sq, by, sq - 8)
    ||| king_attack_from(b, sq, by, sq + 9)
    ||| king_attack_from(b, sq, by, sq - 9)
}

/// Walking from `pos` in lateral direction `dir` (+1 or -1 stays on the
/// rank, +8 or -8 moves along the file): does the first piece met belong to
/// `by` and slide orthogonally?  A lateral step that falls off the starting
/// rank (its file no longer advances past `start_file`) ends the walk.
pub open spec fn ortho_ray_hits(b: BoardView, start_file: int, pos: int, dir: int, by: Color, fuel: nat) -> bool
    decreases fuel,
{
    if fuel == 0 {
        false
    } else {
        let next = pos + dir;
        if !on_board(next) {
            false
        } else if dir == 1 && next % 8 <= start_file {
            false
        } else if dir == -1 && next % 8 >= start_file {
            false
        } else {
            match b.piece_at(next) {
                Some(p) => p.color == by && (p.piece_type == PieceType::Rook
                    || p.piece_type == PieceType::Queen),
                None => ortho_ray_hits(b, start_file, next, dir, by, (fuel - 1) as nat),
            }
        }
    }
}

pub open spec fn spec_ortho_attack(b: BoardView, sq: int, by: Color) -> bool {
    ||| ortho_ray_hits(b, sq % 8, sq, 1, by, 8)
    ||| ortho_ray_hits(b, sq % 8, sq, -1, by, 8)
    ||| ortho_ray_hits(b, sq % 8, sq, 8, by, 8)
    ||| ortho_ray_hits(b, sq % 8, sq, -8, by, 8)
}

/// Walking from `pos` in diagonal direction `dir` (one of 7, -7, 9, -9):
/// does the first piece met belong to `by` and slide diagonally?  A step
/// whose file offset and rank offset from the starting square no longer
/// match has wrapped around the board edge and ends the walk.
pub open spec fn diag_ray_hits(b: BoardView, start_file: int, start_rank: int, pos: int, dir: int, by: Color, fuel: nat) -> bool
    decreases fuel,
{
    if fuel == 0 {
        false
    } else {
        let next = pos + dir;
        if !on_board(next) {
            false
        } else if abs_diff(start_file, next % 8) != abs_diff(start_rank, next / 8) {
            false
        } else {
            match b.piece_at(next) {
                Some(p) => p.color == by && (p.piece_type == PieceType::Bishop
                    || p.piece_type == PieceType::Queen),
                None => diag_ray_hits(b, start_file, start_rank, next, dir, by, (fuel - 1) as nat),
            }
        }
    }
}

pub open spec fn spec_diag_attack(b: BoardView, sq: int, by: Color) -> bool {
    ||| diag_ray_hits(b, sq % 8, sq / 8, sq, 7, by, 8)
    ||| diag_ray_hits(b, sq % 8, sq / 8, sq, -7, by, 8)
    ||| diag_ray_hits(b, sq % 8, sq / 8, sq, 9, by, 8)
    ||| diag_ray_hits(b, sq % 8, sq / 8, sq, -9, by, 8)
}

/// Some piece of `by` attacks `sq`.
pub open spec fn spec_attacked(b: BoardView, sq: int, by: Color) -> bool {
    ||| spec_pawn_attack(b, sq, by)
    ||| spec_knight_attack(b, sq, by)
    ||| spec_ortho_attack(b, sq, by)
    ||| spec_diag_attack(b, sq, by)
    ||| spec_king_attack(b, sq, by)
}

/// How many of the two pawn squares hold an attacking pawn.
pub open spec fn spec_pawn_attack_count(b: BoardView, sq: int, by: Color) -> int {
    match by {
        Color::White => (if pawn_attack_from(b, sq, by, sq - 7) { 1int } else { 0 })
            + (if pawn_attack_from(b, sq, by, sq - 9) { 1int } else { 0 }),
        Color::Black => (if pawn_attack_from(b, sq, by, sq + 7) { 1int } else { 0 })
            + (if pawn_attack_from(b, sq, by, sq + 9) { 1int } else { 0 }),
    }
}

/// How many of the eight knight squares hold an attacking knight.
pub open spec fn spec_knight_attack_count(b: BoardView, sq: int, by: Color) -> int {
    (if knight_attack_from(b, sq, by, sq + 17) { 1int } else { 0 })
        + (if knight_attack_from(b, sq, by, sq + 15) { 1int } else { 0 })
        + (if knight_attack_from(b, sq, by, sq + 10) { 1int } else { 0 })
        + (if knight_attack_from(b, sq, by, sq + 6) { 1int } else { 0 })
        + (if knight_attack_from(b, sq, by, sq - 6) { 1int } else { 0 })
        + (if knight_attack_from(b, sq, by, sq - 10) { 1int } else { 0 })
        + (if knight_attack_from(b, sq, by, sq - 15) { 1int } else { 0 })
        + (if knight_attack_from(b, sq, by, sq - 17) { 1int } else { 0 })
}

/// How many of the four lateral rays end on an attacking rook or queen.
pub open spec fn spec_ortho_attack_count(b: BoardView, sq: int, by: Color) -> int {
    (if ortho_ray_hits(b, sq % 8, sq, 1, by, 8) { 1int } else { 0 })
        + (if ortho_ray_hits(b, sq % 8, sq, -1, by, 8) { 1int } else { 0 })
        + (if ortho_ray_hits(b, sq % 8, sq, 8, by, 8) { 1int } else { 0 })
        + (if ortho_ray_hits(b, sq % 8, sq, -8, by, 8) { 1int } else { 0 })
}

/// How many of the four diagonal rays end on an attacking bishop or queen.
pub open spec fn spec_diag_attack_count(b: BoardView, sq: int, by: Color) -> int {
    (if diag_ray_hits(b, sq % 8, sq / 8, sq, 7, by, 8) { 1int } else { 0 })
        + (if diag_ray_hits(b, sq % 8, sq / 8, sq, -7, by, 8) { 1int } else { 0 })
        + (if diag_ray_hits(b, sq % 8, sq / 8, sq, 9, by, 8) { 1int } else { 0 })
        + (if diag_ray_hits(b, sq % 8, sq / 8, sq, -9, by, 8) { 1int } else { 0 })
}

/// How many of the eight neighbouring squares hold an attacking king.
pub open spec fn spec_king_attack_count(b: BoardView, sq: int, by: Color) -> int {
    (if king_attack_from(b, sq, by, sq + 1) { 1int } else { 0 })
        + (if king_attack_from(b, sq, by, sq - 1) { 1int } else { 0 })
        + (if king_attack_from(b, sq, by, sq + 7) { 1int } else { 0 })
        + (if king_attack_from(b, sq, by, sq - 7) { 1int } else { 0 })
        + (if king_attack_from(b, sq, by, sq + 8) { 1int } else { 0 })
        + (if king_attack_from(b, sq, by, sq - 8) { 1int } else { 0 })
        + (if king_attack_from(b, sq, by, sq + 9) { 1int } else { 0 })
        + (if king_attack_from(b, sq, by, sq - 9) { 1int } else { 0 })
}

/// The number of attackers `count_attackers` reports: the same checks as
/// the attack test — the two pawn squares, the eight knight squares, the
/// eight rays and the eight king squares — each contributing at most one.
pub open spec fn spec_count_attackers(b: BoardView, sq: int, by: Color) -> int {
    spec_pawn_attack_count(b, sq, by) + spec_knight_attack_count(b, sq, by)
        + spec_ortho_attack_count(b, sq, by) + spec_diag_attack_count(b, sq, by)
        + spec_king_attack_count(b, sq, by)
}

/// The count is positive exactly when the square is attacked: the two
/// functions accumulate the same checks.
pub proof fn lemma_count_positive_iff_attacked(b: BoardView, sq: int, by: Color)
    ensures
        spec_count_attackers(b, sq, by) > 0 <==> spec_attacked(b, sq, by),
{
}

/// The first square holding a king of `color`, scanning from `i` upward.
pub open spec fn find_king_from(b: BoardView, color: Color, i: int) -> Option<Square>
    decreases 64 - i,
{
    if i < 0 || i >= 64 {
        None
    } else if b.piece_at(i) == Some(Piece { piece_type: PieceType::King, color: color }) {
        Some(Square(i as u8))
    } else {
        find_king_from(b, color, i + 1)
    }
}

pub open spec fn spec_find_king(b: BoardView, color: Color) -> Option<Square> {
    find_king_from(b, color, 0)
}

/// The side `color` is in check when its king's square is attacked by the
/// other side; with no king on the board it is not in check.
pub open spec fn spec_in_check(b: BoardView, color: Color) -> bool {
    match spec_find_king(b, color) {
        Some(k) => spec_attacked(b, k.0 as int, color.spec_opposite()),
        None => false,
    }
}

/// Being in check is the same thing as the king's square being attacked by
/// the opposite color: the check test does not re-enter move generation.
pub proof fn lemma_in_check_iff_king_attacked(b: BoardView, c: Color, k: Square)
    requires
        b.wf(),
        spec_find_king(b, c) == Some(k),
    ensures
        spec_in_check(b, c) == spec_attacked(b, k.0 as int, c.spec_opposite()),
{
}

/// One when the flag holds, zero otherwise.
fn bit(flag: bool) -> (r: u8)
    ensures
        r == if flag { 1u8 } else { 0u8 },
{
    if flag {
        1
    } else {
        0
    }
}

impl ArrayBoard {
    /// Is there a piece of exactly this type and color on square `at` (given
    /// as a possibly off-board offset target)?
    fn piece_matches(&self, at: i32, pt: PieceType, color: Color) -> (r: bool)
        requires
            self@.wf(),
        ensures
            r == (on_board(at as int) && self@.piece_at(at as int) == Some(
                Piece { piece_type: pt, color: color },
            )),
    {
        if at >= 0 && at < 64 {
            match self.get_piece(Square(at as u8)) {
                Some(p) => p.piece_type == pt && p.color == color,
                None => false,
            }
        } else {
            false
        }
    }

    fn pawn_attack_from_exec(&self, sq: u8, by: Color, from: i32) -> (r: bool)
        requires
            self@.wf(),
            sq < 64,
        ensures
            r == pawn_attack_from(self@, sq as int, by, from as int),
    {
        if from >= 0 && from < 64 {
            let fd = {
                let a = (sq % 8) as i32;
                let b = from % 8;
                if a >= b {
                    a - b
                } else {
                    b - a
                }
            };
            fd == 1 && self.piece_matches(from, PieceType::Pawn, by)
        } else {
            false
        }
    }

    fn knight_attack_from_exec(&self, sq: u8, by: Color, from: i32) -> (r: bool)
        requires
            self@.wf(),
            sq < 64,
        ensures
            r == knight_attack_from(self@, sq as int, by, from as int),
    {
        if from >= 0 && from < 64 {
            let fd = {
                let a = from % 8;
                let b = (sq % 8) as i32;
                if a >= b {
                    a - b
                } else {
                    b - a
                }
            };
            let rd = {
                let a = from / 8;
                let b = (sq / 8) as i32;
                if a >= b {
                    a - b
                } else {
                    b - a
                }
            };
            fd <= 2 && rd <= 2 && self.piece_matches(from, PieceType::Knight, by)
        } else {
            false
        }
    }

    fn king_attack_from_exec(&self, sq: u8, by: Color, from: i32) -> (r: bool)
        requires
            self@.wf(),
            sq < 64,
        ensures
            r == king_attack_from(self@, sq as int, by, from as int),
    {
        if from >= 0 && from < 64 {
            let fd = {
                let a = from % 8;
                let b = (sq % 8) as i32;
                if a >= b {
                    a - b
                } else {
                    b - a
                }
            };
            let rd = {
                let a = from / 8;
                let b = (sq / 8) as i32;
                if a >= b {
                    a - b
                } else {
                    b - a
                }
            };
            fd <= 1 && rd <= 1 && self.piece_matches(from, PieceType::King, by)
        } else {
            false
        }
    }

    fn ortho_ray_exec(&self, start_file: i32, pos: i32, dir: i32, by: Color, fuel: u8) -> (r: bool)
        requires
            self@.wf(),
            -64 <= pos < 128,
            -8 <= dir <= 8,
        ensures
            r == ortho_ray_hits(self@, start_file as int, pos as int, dir as int, by, fuel as nat),
        decreases fuel,
    {
        if fuel == 0 {
            false
        } else {
            let next = pos + dir;
            if next < 0 || next >= 64 {
                false
            } else if dir == 1 && next % 8 <= start_file {
                false
            } else if dir == -1 && next % 8 >= start_file {
                false
            } else {
                match self.get_piece(Square(next as u8)) {
                    Some(p) => p.color == by && (p.piece_type == PieceType::Rook
                        || p.piece_type == PieceType::Queen),
                    None => self.ortho_ray_exec(start_file, next, dir, by, fuel - 1),
                }
            }
        }
    }

    fn diag_ray_exec(&self, start_file: i32, start_rank: i32, pos: i32, dir: i32, by: Color, fuel: u8) -> (r: bool)
        requires
            self@.wf(),
            0 <= start_file < 8,
            0 <= start_rank < 8,
            -64 <= pos < 128,
            -9 <= dir <= 9,
        ensures
            r == diag_ray_hits(self@, start_file as int, start_rank as int, pos as int, dir as int, by, fuel as nat),
        decreases fuel,
    {
        if fuel == 0 {
            false
        } else {
            let next = pos + dir;
            if next < 0 || next >= 64 {
                false
            } else {
                let fd = {
                    let a = start_file;
                    let b = next % 8;
                    if a >= b {
                        a - b
                    } else {
                        b - a
                    }
                };
                let rd = {
                    let a = start_rank;
                    let b = next / 8;
                    if a >= b {
                        a - b
                    } else {
                        b - a
                    }
                };
                if fd != rd {
                    false
                } else {
                    match self.get_piece(Square(next as u8)) {
                        Some(p) => p.color == by && (p.piece_type == PieceType::Bishop
                            || p.piece_type == PieceType::Queen),
                        None => self.diag_ray_exec(start_file, start_rank, next, dir, by, fuel - 1),
                    }
                }
            }
        }
    }

    /// Can any piece of `by_color` capture on `square` right now?  Rays stop
    /// at the first occupied square and reject wrap-around at the board edge.
    pub fn is_square_attacked(&self, square: Square, by_color: Color) -> (r: bool)
        requires
            self@.wf(),
            square.0 < 64,
        ensures
            r == spec_attacked(self@, square.0 as int, by_color),
    {
        let sq = square.0;
        let s = sq as i32;

        let pawn_hit = match by_color {
            Color::White => self.pawn_attack_from_exec(sq, by_color, s - 7)
                || self.pawn_attack_from_exec(sq, by_color, s - 9),
            Color::Black => self.pawn_attack_from_exec(sq, by_color, s + 7)
                || self.pawn_attack_from_exec(sq, by_color, s + 9),
        };
        if pawn_hit {
            return true;
        }

        if self.knight_attack_from_exec(sq, by_color, s + 17)
            || self.knight_attack_from_exec(sq, by_color, s + 15)
            || self.knight_attack_from_exec(sq, by_color, s + 10)
            || self.knight_attack_from_exec(sq, by_color, s + 6)
            || self.knight_attack_from_exec(sq, by_color, s - 6)
            || self.knight_attack_from_exec(sq, by_color, s - 10)
            || self.knight_attack_from_exec(sq, by_color, s - 15)
            || self.knight_attack_from_exec(sq, by_color, s - 17)
        {
            return true;
        }

        let file = s % 8;
        let rank = s / 8;
        if self.ortho_ray_exec(file, s, 1, by_color, 8)
            || self.ortho_ray_exec(file, s, -1, by_color, 8)
            || self.ortho_ray_exec(file, s, 8, by_color, 8)
            || self.ortho_ray_exec(file, s, -8, by_color, 8)
        {
            return true;
        }

        if self.diag_ray_exec(file, rank, s, 7, by_color, 8)
            || self.diag_ray_exec(file, rank, s, -7, by_color, 8)
            || self.diag_ray_exec(file, rank, s, 9, by_color, 8)
            || self.diag_ray_exec(file, rank, s, -9, by_color, 8)
        {
            return true;
        }

        self.king_attack_from_exec(sq, by_color, s + 1)
            || self.king_attack_from_exec(sq, by_color, s - 1)
            || self.king_attack_from_exec(sq, by_color, s + 7)
            || self.king_attack_from_exec(sq, by_color, s - 7)
            || self.king_attack_from_exec(sq, by_color, s + 8)
            || self.king_attack_from_exec(sq, by_color, s - 8)
            || self.king_attack_from_exec(sq, by_color, s + 9)
            || self.king_attack_from_exec(sq, by_color, s - 9)
    }

    fn count_pawn_attacks(&self, sq: u8, by: Color) -> (r: u8)
        requires
            self@.wf(),
            sq < 64,
        ensures
            r as int == spec_pawn_attack_count(self@, sq as int, by),
            r <= 2,
    {
        let s = sq as i32;
        match by {
            Color::White => bit(self.pawn_attack_from_exec(sq, by, s - 7))
                + bit(self.pawn_attack_from_exec(sq, by, s - 9)),
            Color::Black => bit(self.pawn_attack_from_exec(sq, by, s + 7))
                + bit(self.pawn_attack_from_exec(sq, by, s + 9)),
        }
    }

    fn count_knight_attacks(&self, sq: u8, by: Color) -> (r: u8)
        requires
            self@.wf(),
            sq < 64,
        ensures
            r as int == spec_knight_attack_count(self@, sq as int, by),
            r <= 8,
    {
        let s = sq as i32;
        bit(self.knight_attack_from_exec(sq, by, s + 17))
            + bit(self.knight_attack_from_exec(sq, by, s + 15))
            + bit(self.knight_attack_from_exec(sq, by, s + 10))
            + bit(self.knight_attack_from_exec(sq, by, s + 6))
            + bit(self.knight_attack_from_exec(sq, by, s - 6))
            + bit(self.knight_attack_from_exec(sq, by, s - 10))
            + bit(self.knight_attack_from_exec(sq, by, s - 15))
            + bit(self.knight_attack_from_exec(sq, by, s - 17))
    }

    fn count_ortho_attacks(&self, sq: u8, by: Color) -> (r: u8)
        requires
            self@.wf(),
            sq < 64,
        ensures
            r as int == spec_ortho_attack_count(self@, sq as int, by),
            r <= 4,
    {
        let s = sq as i32;
        let file = s % 8;
        bit(self.ortho_ray_exec(file, s, 1, by, 8))
            + bit(self.ortho_ray_exec(file, s, -1, by, 8))
            + bit(self.ortho_ray_exec(file, s, 8, by, 8))
            + bit(self.ortho_ray_exec(file, s, -8, by, 8))
    }

    fn count_diag_attacks(&self, sq: u8, by: Color) -> (r: u8)
        requires
            self@.wf(),
            sq < 64,
        ensures
            r as int == spec_diag_attack_count(self@, sq as int, by),
            r <= 4,
    {
        let s = sq as i32;
        let file = s % 8;
        let rank = s / 8;
        bit(self.diag_ray_exec(file, rank, s, 7, by, 8))
            + bit(self.diag_ray_exec(file, rank, s, -7, by, 8))
            + bit(self.diag_ray_exec(file, rank, s, 9, by, 8))
            + bit(self.diag_ray_exec(file, rank, s, -9, by, 8))
    }

    fn count_king_attacks(&self, sq: u8, by: Color) -> (r: u8)
        requires
            self@.wf(),
            sq < 64,
        ensures
            r as int == spec_king_attack_count(self@, sq as int, by),
            r <= 8,
    {
        let s = sq as i32;
        bit(self.king_attack_from_exec(sq, by, s + 1))
            + bit(self.king_attack_from_exec(sq, by, s - 1))
            + bit(self.king_attack_from_exec(sq, by, s + 7))
            + bit(self.king_attack_from_exec(sq, by, s - 7))
            + bit(self.king_attack_from_exec(sq, by, s + 8))
            + bit(self.king_attack_from_exec(sq, by, s - 8))
            + bit(self.king_attack_from_exec(sq, by, s + 9))
            + bit(self.king_attack_from_exec(sq, by, s - 9))
    }

    /// How many pieces of `by_color` attack `square`: the same checks as
    /// `is_square_attacked`, accumulated.
    pub fn count_attackers(&self, square: Square, by_color: Color) -> (r: u8)
        requires
            self@.wf(),
            square.0 < 64,
        ensures
            r as int == spec_count_attackers(self@, square.0 as int, by_color),
    {
        let sq = square.0;
        self.count_pawn_attacks(sq, by_color) + self.count_knight_attacks(sq, by_color)
            + self.count_ortho_attacks(sq, by_color) + self.count_diag_attacks(sq, by_color)
            + self.count_king_attacks(sq, by_color)
    }

    /// The square of the first king of `color` found, scanning a1 to h8.
    pub fn find_king(&self, color: Color) -> (r: Option<Square>)
        requires
            self@.wf(),
        ensures
            r == spec_find_king(self@, color),
            r is Some ==> (r->0).0 < 64,
    {
        let mut i: u8 = 0;
        while i < 64
            invariant
                self@.wf(),
                0 <= i <= 64,
                spec_find_king(self@, color) == find_king_from(self@, color, i as int),
            decreases 64 - i,
        {
            match self.get_piece(Square(i)) {
                Some(p) => {
                    if p.piece_type == PieceType::King && p.color == color {
                        return Some(Square(i));
                    }
                }
                None => {}
            }
            i = i + 1;
        }
        None
    }

    /// Whether `color`'s king is attacked by the other side.
    pub fn is_in_check(&self, color: Color) -> (r: bool)
        requires
            self@.wf(),
        ensures
            r == spec_in_check(self@, color),
    {
        match self.find_king(color) {
            Some(king_location) => {
                self.is_square_attacked(king_location, color.opposite())
            }
            None => false,
        }
    }

    /// The number of pieces of this type and color on the board.
    pub fn count_pieces(&self, piece_type: PieceType, color: Color) -> (r: u8)
        requires
            self@.wf(),
        ensures
            r as int == spec_count_pieces(self@, piece_type, color, 64),
    {
        let mut count: u8 = 0;
        let mut i: u8 = 0;
        while i < 64
            invariant
                self@.wf(),
                0 <= i <= 64,
                count as int == spec_count_pieces(self@, piece_type, color, i as int),
                count <= i,
            decreases 64 - i,
        {
            match self.get_piece(Square(i)) {
                Some(p) => {
                    if p.piece_type == piece_type && p.color == color {
                        count = count + 1;
                    }
                }
                None => {}
            }
            i = i + 1;
        }
        count
    }
}

/// How many squares among the first `n` hold a piece of this type and color.
pub open spec fn spec_count_pieces(b: BoardView, pt: PieceType, color: Color, n: int) -> int
    decreases n,
{
    if n <= 0 {
        0
    } else {
        spec_count_pieces(b, pt, color, n - 1) + if b.piece_at(n - 1) == Some(
            Piece { piece_type: pt, color: color },
        ) {
            1int
        } else {
            0
        }
    }
}

} // verus!
