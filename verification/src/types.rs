//! Colors, piece kinds, pieces, squares and castling rights.

use vstd::prelude::*;
use vstd::string::*;
use crate::text::push_char;

verus! {

#[derive(Clone, Copy, PartialEq, Eq, Debug, Hash, Structural)]
pub enum Color {
    White,
    Black,
}

impl Color {
    pub open spec fn spec_opposite(self) -> Color {
        match self {
            Color::White => Color::Black,
            Color::Black => Color::White,
        }
    }

    pub open spec fn spec_index(self) -> nat {
        match self {
            Color::White => 0,
            Color::Black => 1,
        }
    }

    #[verifier::when_used_as_spec(spec_opposite)]
    pub fn opposite(self) -> (c: Color)
        ensures
            c == self.spec_opposite(),
    {
        match self {
            Color::White => Color::Black,
            Color::Black => Color::White,
        }
    }

    /// 0 for White, 1 for Black.
    pub fn index(self) -> (i: usize)
        ensures
            i == self.spec_index(),
    {
        match self {
            Color::White => 0,
            Color::Black => 1,
        }
    }
}

#[derive(Clone, Copy, PartialEq, Eq, Debug, Hash, PartialOrd, Ord, Structural)]
pub enum PieceKind {
    Pawn,
    Knight,
    Bishop,
    Rook,
    Queen,
    King,
}

impl PieceKind {
    pub open spec fn spec_index(self) -> nat {
        match self {
            PieceKind::Pawn => 0,
            PieceKind::Knight => 1,
            PieceKind::Bishop => 2,
            PieceKind::Rook => 3,
            PieceKind::Queen => 4,
            PieceKind::King => 5,
        }
    }

    /// The kind whose `index` is `i`.
    pub open spec fn from_index(i: nat) -> PieceKind {
        if i == 0 {
            PieceKind::Pawn
        } else if i == 1 {
            PieceKind::Knight
        } else if i == 2 {
            PieceKind::Bishop
        } else if i == 3 {
            PieceKind::Rook
        } else if i == 4 {
            PieceKind::Queen
        } else {
            PieceKind::King
        }
    }

    /// Lowercase FEN letter of a kind.
    pub open spec fn letter(self) -> char {
        match self {
            PieceKind::Pawn => 'p',
            PieceKind::Knight => 'n',
            PieceKind::Bishop => 'b',
            PieceKind::Rook => 'r',
            PieceKind::Queen => 'q',
            PieceKind::King => 'k',
        }
    }

    /// Kind named by a letter of either case.
    pub open spec fn spec_from_char(c: char) -> Option<PieceKind> {
        if c == 'p' || c == 'P' {
            Some(PieceKind::Pawn)
        } else if c == 'n' || c == 'N' {
            Some(PieceKind::Knight)
        } else if c == 'b' || c == 'B' {
            Some(PieceKind::Bishop)
        } else if c == 'r' || c == 'R' {
            Some(PieceKind::Rook)
        } else if c == 'q' || c == 'Q' {
            Some(PieceKind::Queen)
        } else if c == 'k' || c == 'K' {
            Some(PieceKind::King)
        } else {
            None
        }
    }

    pub fn index(self) -> (i: usize)
        ensures
            i == self.spec_index(),
            i < 6,
            PieceKind::from_index(i as nat) == self,
    {
        match self {
            PieceKind::Pawn => 0,
            PieceKind::Knight => 1,
            PieceKind::Bishop => 2,
            PieceKind::Rook => 3,
            PieceKind::Queen => 4,
            PieceKind::King => 5,
        }
    }

    /// Lowercase letter used in FEN and UCI promotion suffixes.
    pub fn to_char(self) -> (c: char)
        ensures
            c == self.letter(),
    {
        match self {
            PieceKind::Pawn => 'p',
            PieceKind::Knight => 'n',
            PieceKind::Bishop => 'b',
            PieceKind::Rook => 'r',
            PieceKind::Queen => 'q',
            PieceKind::King => 'k',
        }
    }

    pub fn from_char(c: char) -> (k: Option<PieceKind>)
        ensures
            k == PieceKind::spec_from_char(c),
    {
        if c == 'p' || c == 'P' {
            Some(PieceKind::Pawn)
        } else if c == 'n' || c == 'N' {
            Some(PieceKind::Knight)
        } else if c == 'b' || c == 'B' {
            Some(PieceKind::Bishop)
        } else if c == 'r' || c == 'R' {
            Some(PieceKind::Rook)
        } else if c == 'q' || c == 'Q' {
            Some(PieceKind::Queen)
        } else if c == 'k' || c == 'K' {
            Some(PieceKind::King)
        } else {
            None
        }
    }
}

/// Uppercase form of a lowercase ASCII letter; other characters unchanged.
pub open spec fn ascii_upper(c: char) -> char {
    if 'a' <= c && c <= 'z' {
        ((c as u32) - 32) as char
    } else {
        c
    }
}

pub fn to_ascii_upper(c: char) -> (u: char)
    ensures
        u == ascii_upper(c),
{
    if 'a' <= c && c <= 'z' {
        let v: u32 = (c as u32) - 32;
        (v as u8) as char
    } else {
        c
    }
}

#[derive(Clone, Copy, PartialEq, Eq, Debug, Hash, Structural)]
pub struct Piece {
    pub color: Color,
    pub kind: PieceKind,
}

impl Piece {
    /// FEN letter: uppercase for White, lowercase for Black.
    pub open spec fn letter(self) -> char {
        match self.color {
            Color::White => ascii_upper(self.kind.letter()),
            Color::Black => self.kind.letter(),
        }
    }

    pub open spec fn spec_from_char(c: char) -> Option<Piece> {
        match PieceKind::spec_from_char(c) {
            Some(kind) => Some(
                Piece { color: if 'A' <= c && c <= 'Z' { Color::White } else { Color::Black }, kind },
            ),
            None => None,
        }
    }

    pub fn new(color: Color, kind: PieceKind) -> (p: Piece)
        ensures
            p == (Piece { color, kind }),
    {
        Piece { color, kind }
    }

    pub fn to_char(self) -> (c: char)
        ensures
            c == self.letter(),
    {
        let c = self.kind.to_char();
        match self.color {
            Color::White => to_ascii_upper(c),
            Color::Black => c,
        }
    }

    pub fn from_char(c: char) -> (p: Option<Piece>)
        ensures
            p == Piece::spec_from_char(c),
    {
        let kind = match PieceKind::from_char(c) {
            Some(k) => k,
            None => return None,
        };
        let color = if 'A' <= c && c <= 'Z' { Color::White } else { Color::Black };
        Some(Piece { color, kind })
    }
}

/// A board square, 0 = a1 .. 63 = h8 (little-endian rank-file mapping).
#[derive(Clone, Copy, PartialEq, Eq, Debug, Hash, PartialOrd, Ord, Structural)]
pub struct Square(pub u8);

/// File (0 = a .. 7 = h) of a square index.
pub open spec fn file_of(i: int) -> int {
    i % 8
}

/// Rank (0 = rank 1 .. 7 = rank 8) of a square index.
pub open spec fn rank_of(i: int) -> int {
    i / 8
}

/// The square index at a file and rank, when both are on the board.
pub open spec fn square_at(f: int, r: int) -> Option<int> {
    if 0 <= f < 8 && 0 <= r < 8 {
        Some(r * 8 + f)
    } else {
        None
    }
}

/// The two-character name of a square, such as `e4`.
pub open spec fn square_name(i: int) -> Seq<char> {
    seq![((file_of(i) + 97) as u32) as char, ((rank_of(i) + 49) as u32) as char]
}

/// The square a two-character name denotes, if any.
pub open spec fn parse_square_name(s: Seq<char>) -> Option<Square> {
    if s.len() == 2 && 'a' <= s[0] && s[0] <= 'h' && '1' <= s[1] && s[1] <= '8' {
        Some(Square((((s[1] as int) - 49) * 8 + ((s[0] as int) - 97)) as u8))
    } else {
        None
    }
}

pub broadcast proof fn lemma_u8_file_rank(x: u8)
    ensures
        #[trigger] (x & 7u8) == x % 8,
        #[trigger] (x >> 3u8) == x / 8,
{
    assert(x & 7u8 == x % 8 && x >> 3u8 == x / 8) by (bit_vector);
}

impl Square {

    /// On the board.
    pub open spec fn wf(self) -> bool {
        self.0 < 64
    }

    pub open spec fn spec_file(self) -> u8 {
        (self.0 % 8) as u8
    }

    pub open spec fn spec_rank(self) -> u8 {
        (self.0 / 8) as u8
    }

    pub fn new(file: u8, rank: u8) -> (sq: Square)
        requires
            rank * 8 + file < 256,
        ensures
            sq.0 == rank * 8 + file,
    {
        Square(rank * 8 + file)
    }

    /// 0 = a-file .. 7 = h-file.
    #[verifier::when_used_as_spec(spec_file)]
    pub fn file(self) -> (f: u8)
        ensures
            f == self.0 % 8,
            f < 8,
    {
        proof {
            lemma_u8_file_rank(self.0);
        }
        self.0 & 7
    }

    /// 0 = rank 1 .. 7 = rank 8.
    #[verifier::when_used_as_spec(spec_rank)]
    pub fn rank(self) -> (r: u8)
        ensures
            r == self.0 / 8,
    {
        proof {
            lemma_u8_file_rank(self.0);
        }
        self.0 >> 3
    }

    pub fn index(self) -> (i: usize)
        ensures
            i == self.0,
    {
        self.0 as usize
    }

    /// Offset by (dfile, drank), returning None if it walks off the board.
    pub fn offset(self, dfile: i8, drank: i8) -> (res: Option<Square>)
        requires
            (self.0 % 8) + dfile <= 127,
            (self.0 / 8) + drank <= 127,
            (self.0 / 8) + drank >= -128,
        ensures
            res == (match square_at(file_of(self.0 as int) + dfile, rank_of(self.0 as int) + drank) {
                Some(i) => Some(Square(i as u8)),
                None => None,
            }),
    {
        let f: i8 = self.file() as i8 + dfile;
        let r: i8 = self.rank() as i8 + drank;
        if 0 <= f && f < 8 && 0 <= r && r < 8 {
            Some(Square::new(f as u8, r as u8))
        } else {
            None
        }
    }

    /// The square's name, such as `e4`.
    pub fn to_string(self) -> (s: String)
        requires
            self.wf(),
        ensures
            s@ == square_name(self.0 as int),
    {
        let mut s = String::new();
        push_char(&mut s, ((self.file() + 97) as u8) as char);
        push_char(&mut s, ((self.rank() + 49) as u8) as char);
        s
    }

    /// Parses a square name such as `e4`.
    pub fn from_name(s: &str) -> (res: Option<Square>)
        ensures
            res == parse_square_name(s@),
            res matches Some(sq) ==> sq.wf(),
    {
        let n = s.unicode_len();
        if n != 2 {
            return None;
        }
        let file = s.get_char(0);
        let rank = s.get_char(1);
        if !('a' <= file && file <= 'h' && '1' <= rank && rank <= '8') {
            return None;
        }
        let f: u8 = (file as u32 - 97) as u8;
        let r: u8 = (rank as u32 - 49) as u8;
        Some(Square::new(f, r))
    }
}

impl core::str::FromStr for Square {
    type Err = ();

    fn from_str(s: &str) -> Result<Square, ()> {
        match Square::from_name(s) {
            Some(sq) => Ok(sq),
            None => Err(()),
        }
    }
}

/// Castling availability, one bit per right.
#[derive(Clone, Copy, PartialEq, Eq, Debug, Hash, Structural)]
pub struct CastlingRights(pub u8);

impl CastlingRights {
    pub const WHITE_KING: u8 = 1;
    pub const WHITE_QUEEN: u8 = 2;
    pub const BLACK_KING: u8 = 4;
    pub const BLACK_QUEEN: u8 = 8;

    pub open spec fn spec_has(self, right: u8) -> bool {
        self.0 & right != 0
    }

    pub open spec fn spec_king_side(self, color: Color) -> bool {
        match color {
            Color::White => self.0 & 1 != 0,
            Color::Black => self.0 & 4 != 0,
        }
    }

    pub open spec fn spec_queen_side(self, color: Color) -> bool {
        match color {
            Color::White => self.0 & 2 != 0,
            Color::Black => self.0 & 8 != 0,
        }
    }

    #[verifier::when_used_as_spec(spec_has)]
    pub fn has(self, right: u8) -> (b: bool)
        ensures
            b == (self.0 & right != 0),
    {
        self.0 & right != 0
    }

    pub fn remove(&mut self, rights: u8)
        ensures
            final(self).0 == old(self).0 & !rights,
    {
        self.0 = self.0 & !rights;
    }

    #[verifier::when_used_as_spec(spec_king_side)]
    pub fn king_side(self, color: Color) -> (b: bool)
        ensures
            b == self.spec_king_side(color),
    {
        match color {
            Color::White => self.has(Self::WHITE_KING),
            Color::Black => self.has(Self::BLACK_KING),
        }
    }

    #[verifier::when_used_as_spec(spec_queen_side)]
    pub fn queen_side(self, color: Color) -> (b: bool)
        ensures
            b == self.spec_queen_side(color),
    {
        match color {
            Color::White => self.has(Self::WHITE_QUEEN),
            Color::Black => self.has(Self::BLACK_QUEEN),
        }
    }
}

} // verus!
