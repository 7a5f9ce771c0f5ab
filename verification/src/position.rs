//! Full board state at one ply. Copy-make: `apply` returns a new Position.
//!
//! Bitboards are the source of truth for move generation; the mailbox mirrors
//! them for O(1) "what sits here" lookups.

use vstd::prelude::*;
use crate::attacks::{
    bishop_attacks, bishop_geo, king_attacks, king_geo, knight_attacks, knight_geo, pawn_attacks,
    pawn_geo, queen_geo, rook_attacks, rook_geo,
};
use crate::bitboard::Bitboard;
use crate::moves::{Move, MoveFlags};
use crate::types::{file_of, rank_of, CastlingRights, Color, Piece, PieceKind, Square};
use crate::zobrist::{
    lemma_xor, CASTLING_KEYS, EN_PASSANT_KEYS, PIECE_KEYS, SIDE_TO_MOVE_KEY,
};

verus! {

/// The mathematical content of a position: what stands on each square and
/// the side, castling, en-passant and clock fields.
pub struct Model {
    pub board: Seq<Option<Piece>>,
    pub side: Color,
    pub castling: u8,
    pub ep: Option<Square>,
    pub halfmove: u16,
    pub fullmove: u16,
}

/// Index of a piece's bitboard: color * 6 + kind.
pub open spec fn piece_slot(p: Piece) -> int {
    (p.color.spec_index() * 6 + p.kind.spec_index()) as int
}

pub open spec fn piece_key(p: Piece, sq: int) -> u64 {
    PIECE_KEYS@[piece_slot(p) * 64 + sq]
}

pub open spec fn square_key(v: Option<Piece>, sq: int) -> u64 {
    match v {
        Some(p) => piece_key(p, sq),
        None => 0,
    }
}

/// XOR of the keys of the pieces on squares below `n`.
pub open spec fn pieces_hash(board: Seq<Option<Piece>>, n: int) -> u64
    decreases n,
{
    if n <= 0 {
        0
    } else {
        pieces_hash(board, n - 1) ^ square_key(board[n - 1], n - 1)
    }
}

pub open spec fn side_key(c: Color) -> u64 {
    match c {
        Color::White => 0,
        Color::Black => SIDE_TO_MOVE_KEY,
    }
}

pub open spec fn ep_key(ep: Option<Square>) -> u64 {
    match ep {
        Some(e) => EN_PASSANT_KEYS@[file_of(e.0 as int)],
        None => 0,
    }
}

pub open spec fn castling_key(c: u8) -> u64 {
    CASTLING_KEYS@[c as int]
}

/// The Zobrist hash of a position's content.
pub open spec fn model_hash(m: Model) -> u64 {
    pieces_hash(m.board, 64) ^ side_key(m.side) ^ castling_key(m.castling) ^ ep_key(m.ep)
}

/// Occupancy of a board, as a predicate on square indices.
pub open spec fn board_occ(board: Seq<Option<Piece>>) -> spec_fn(int) -> bool {
    |i: int| 0 <= i < 64 && board[i] is Some
}

/// The piece on `s` belongs to `by` and attacks `sq` under occupancy `occ`.
pub open spec fn attacker(
    board: Seq<Option<Piece>>,
    sq: int,
    by: Color,
    occ: spec_fn(int) -> bool,
    s: int,
) -> bool {
    &&& 0 <= s < 64
    &&& board[s] is Some
    &&& board[s].unwrap().color == by
    &&& match board[s].unwrap().kind {
        PieceKind::Pawn => pawn_geo(by.spec_opposite(), sq, s),
        PieceKind::Knight => knight_geo(sq, s),
        PieceKind::Bishop => bishop_geo(sq, occ, s),
        PieceKind::Rook => rook_geo(sq, occ, s),
        PieceKind::Queen => queen_geo(sq, occ, s),
        PieceKind::King => king_geo(sq, s),
    }
}

/// Square `sq` is attacked by a piece of `by` on the board.
pub open spec fn attacked(board: Seq<Option<Piece>>, sq: int, by: Color) -> bool {
    exists|s: int| attacker(board, sq, by, board_occ(board), s)
}

/// `s` holds the lowest-indexed king of `c`.
pub open spec fn lowest_king(board: Seq<Option<Piece>>, c: Color, s: int) -> bool {
    &&& 0 <= s < 64
    &&& board[s] == Some(Piece { color: c, kind: PieceKind::King })
    &&& forall|j: int| 0 <= j < s ==> board[j] != Some(Piece { color: c, kind: PieceKind::King })
}

pub open spec fn has_king(board: Seq<Option<Piece>>, c: Color) -> bool {
    exists|s: int| 0 <= s < 64 && board[s] == Some(Piece { color: c, kind: PieceKind::King })
}

/// The king of `c` (the lowest one, should there be several) is attacked.
pub open spec fn in_check_on(board: Seq<Option<Piece>>, c: Color) -> bool {
    exists|s: int| lowest_king(board, c, s) && attacked(board, s, c.spec_opposite())
}

pub open spec fn is_capture_flag(f: MoveFlags) -> bool {
    f == MoveFlags::Capture || f == MoveFlags::PromoCaptureKnight || f
        == MoveFlags::PromoCaptureBishop || f == MoveFlags::PromoCaptureRook || f
        == MoveFlags::PromoCaptureQueen
}

pub open spec fn is_castle_flag(f: MoveFlags) -> bool {
    f == MoveFlags::CastleKing || f == MoveFlags::CastleQueen
}

/// The pawn removed by an en-passant capture from `from` to `to`.
pub open spec fn ep_victim(from: int, to: int) -> int {
    rank_of(from) * 8 + file_of(to)
}

pub open spec fn rook_from(from: int, f: MoveFlags) -> int {
    rank_of(from) * 8 + if f == MoveFlags::CastleKing {
        7int
    } else {
        0int
    }
}

pub open spec fn rook_to(from: int, f: MoveFlags) -> int {
    rank_of(from) * 8 + if f == MoveFlags::CastleKing {
        5int
    } else {
        3int
    }
}

/// Castling rights lost when a move touches this square (moves *or* captures).
pub open spec fn touched(sq: int) -> u8 {
    if sq == 4 {
        3
    } else if sq == 0 {
        2
    } else if sq == 7 {
        1
    } else if sq == 60 {
        12
    } else if sq == 56 {
        8
    } else if sq == 63 {
        4
    } else {
        0
    }
}

/// The board after a move.
pub open spec fn apply_board(m: Model, mv: Move) -> Seq<Option<Piece>> {
    let from = mv.spec_from().0 as int;
    let to = mv.spec_to().0 as int;
    let f = mv.spec_flags();
    let piece = m.board[from].unwrap();
    let b1 = m.board.update(from, None);
    let b2 = if is_capture_flag(f) {
        b1.update(to, None)
    } else if f == MoveFlags::EnPassant {
        b1.update(ep_victim(from, to), None)
    } else {
        b1
    };
    if is_castle_flag(f) {
        let b3 = b2.update(to, Some(piece));
        let rook = b3[rook_from(from, f)].unwrap();
        b3.update(rook_from(from, f), None).update(rook_to(from, f), Some(rook))
    } else {
        let placed = match flag_promotion_of(f) {
            Some(kind) => Piece { color: m.side, kind },
            None => piece,
        };
        b2.update(to, Some(placed))
    }
}

pub open spec fn flag_promotion_of(f: MoveFlags) -> Option<PieceKind> {
    crate::moves::flag_promotion(f)
}

/// The position after a move: pieces moved, rights, en-passant square,
/// clocks and side to move updated.
pub open spec fn apply_model(m: Model, mv: Move) -> Model {
    let from = mv.spec_from().0 as int;
    let to = mv.spec_to().0 as int;
    let f = mv.spec_flags();
    let piece = m.board[from].unwrap();
    Model {
        board: apply_board(m, mv),
        side: m.side.spec_opposite(),
        castling: m.castling & !(touched(from) | touched(to)),
        ep: if f == MoveFlags::DoublePush {
            Some(Square((((rank_of(from) + rank_of(to)) / 2) * 8 + file_of(from)) as u8))
        } else {
            None
        },
        halfmove: if piece.kind == PieceKind::Pawn || is_capture_flag(f) || f
            == MoveFlags::EnPassant {
            0
        } else {
            (m.halfmove + 1) as u16
        },
        fullmove: if m.side == Color::Black {
            (m.fullmove + 1) as u16
        } else {
            m.fullmove
        },
    }
}

/// What `apply` needs of a move to keep the position consistent: the origin
/// holds a piece, captured squares hold pieces, squares moved onto are free,
/// and the clocks have room to advance.
pub open spec fn apply_ok(m: Model, mv: Move) -> bool {
    let from = mv.spec_from().0 as int;
    let to = mv.spec_to().0 as int;
    let f = mv.spec_flags();
    &&& mv.wf()
    &&& m.board.len() == 64
    &&& m.board[from] is Some
    &&& to != from
    &&& m.halfmove < 65535
    &&& (m.side == Color::Black ==> m.fullmove < 65535)
    &&& if is_capture_flag(f) {
        m.board[to] is Some
    } else if f == MoveFlags::EnPassant {
        &&& m.board[ep_victim(from, to)] is Some
        &&& ep_victim(from, to) != from
        &&& ep_victim(from, to) != to
        &&& m.board[to] is None
    } else if is_castle_flag(f) {
        &&& m.board[to] is None
        &&& rook_from(from, f) != from
        &&& rook_from(from, f) != to
        &&& m.board[rook_from(from, f)] is Some
        &&& rook_to(from, f) != to
        &&& rook_to(from, f) != rook_from(from, f)
        &&& (m.board[rook_to(from, f)] is None || rook_to(from, f) == from)
    } else {
        m.board[to] is None
    }
}

pub proof fn lemma_pieces_hash_update(board: Seq<Option<Piece>>, sq: int, v: Option<Piece>, n: int)
    requires
        0 <= sq < board.len(),
        n <= board.len(),
    ensures
        pieces_hash(board.update(sq, v), n) == if 0 <= sq < n {
            pieces_hash(board, n) ^ square_key(board[sq], sq) ^ square_key(v, sq)
        } else {
            pieces_hash(board, n)
        },
    decreases n,
{
    if n > 0 {
        lemma_pieces_hash_update(board, sq, v, n - 1);
        let b2 = board.update(sq, v);
        let h = pieces_hash(board, n - 1);
        let a = square_key(board[sq], sq);
        let c = square_key(v, sq);
        let k = square_key(board[n - 1], n - 1);
        if sq == n - 1 {
            lemma_xor(h, a, c);
            lemma_xor(h ^ a, a, c);
            lemma_xor(a, a, c);
            lemma_xor(h, 0, c);
            lemma_xor(h, a, a);
            lemma_xor(h, a ^ a, c);
            assert(pieces_hash(b2, n) == h ^ c);
            assert((h ^ a) ^ a ^ c == h ^ c) by {
                lemma_xor(h, a, a);
                lemma_xor(h ^ a, a, c);
                lemma_xor(h ^ (a ^ a), c, 0);
            }
        } else if sq < n - 1 {
            lemma_xor(h, a, c);
            lemma_xor(h ^ a, c, k);
            lemma_xor(h, k, a);
            lemma_xor(h ^ k, a, c);
            lemma_xor(h ^ a, k, c);
            lemma_xor(h, a, k);
            lemma_xor(a, k, 0);
            lemma_xor(c, k, 0);
            assert(pieces_hash(b2, n) == (h ^ a ^ c) ^ k);
            assert((h ^ a ^ c) ^ k == (h ^ k) ^ a ^ c) by {
                lemma_xor(h ^ a, c, k);
                lemma_xor(c, k, 0);
                lemma_xor(h ^ a, k, c);
                lemma_xor(h, a, k);
                lemma_xor(a, k, 0);
                lemma_xor(h, k, a);
            }
        }
    }
}

pub proof fn lemma_xor4(p: u64, s: u64, c: u64, e: u64, x: u64)
    ensures
        (p ^ s ^ c ^ e) ^ e ^ x == p ^ s ^ c ^ x,
        (p ^ s ^ c ^ e) ^ c ^ x == p ^ s ^ x ^ e,
        (p ^ s ^ c ^ e) ^ s ^ x == p ^ x ^ c ^ e,
        (p ^ s ^ c ^ e) ^ x == (p ^ x) ^ s ^ c ^ e,
{
    assert((p ^ s ^ c ^ e) ^ e ^ x == p ^ s ^ c ^ x && (p ^ s ^ c ^ e) ^ c ^ x == p ^ s ^ x ^ e
        && (p ^ s ^ c ^ e) ^ s ^ x == p ^ x ^ c ^ e && (p ^ s ^ c ^ e) ^ x == (p ^ x) ^ s ^ c ^ e)
        by (bit_vector);
}

proof fn lemma_u8_and_not(c: u8, x: u8)
    ensures
        c & !x <= c,
{
    assert(c & !x <= c) by (bit_vector);
}

/// Castling rights lost when a move touches this square (moves *or* captures).
pub fn castling_touched(sq: Square) -> (r: u8)
    ensures
        r == touched(sq.0 as int),
{
    if sq.0 == 4 {
        3
    } else if sq.0 == 0 {
        2
    } else if sq.0 == 7 {
        1
    } else if sq.0 == 60 {
        12
    } else if sq.0 == 56 {
        8
    } else if sq.0 == 63 {
        4
    } else {
        0
    }
}

/// The kind standing on file `f` of the back ranks at the start.
pub open spec fn back_kind(f: int) -> PieceKind {
    if f == 0 || f == 7 {
        PieceKind::Rook
    } else if f == 1 || f == 6 {
        PieceKind::Knight
    } else if f == 2 || f == 5 {
        PieceKind::Bishop
    } else if f == 3 {
        PieceKind::Queen
    } else {
        PieceKind::King
    }
}

/// What stands on square `i` in the starting position.
pub open spec fn start_piece(i: int) -> Option<Piece> {
    let r = rank_of(i);
    let f = file_of(i);
    if r == 0 {
        Some(Piece { color: Color::White, kind: back_kind(f) })
    } else if r == 1 {
        Some(Piece { color: Color::White, kind: PieceKind::Pawn })
    } else if r == 6 {
        Some(Piece { color: Color::Black, kind: PieceKind::Pawn })
    } else if r == 7 {
        Some(Piece { color: Color::Black, kind: back_kind(f) })
    } else {
        None
    }
}

/// The starting position: White to move, all castling rights, clocks 0 and 1.
pub open spec fn start_model() -> Model {
    Model {
        board: Seq::new(64, |i: int| start_piece(i)),
        side: Color::White,
        castling: 15,
        ep: None,
        halfmove: 0,
        fullmove: 1,
    }
}

fn back_kind_exec(f: u8) -> (k: PieceKind)
    ensures
        k == back_kind(f as int),
{
    if f == 0 || f == 7 {
        PieceKind::Rook
    } else if f == 1 || f == 6 {
        PieceKind::Knight
    } else if f == 2 || f == 5 {
        PieceKind::Bishop
    } else if f == 3 {
        PieceKind::Queen
    } else {
        PieceKind::King
    }
}

pub proof fn lemma_pieces_hash_empty(n: int)
    requires
        n <= 64,
    ensures
        pieces_hash(Seq::new(64, |i: int| None::<Piece>), n) == 0,
    decreases n,
{
    if n > 0 {
        lemma_pieces_hash_empty(n - 1);
        lemma_xor(0, 0, 0);
    }
}

/// Full board state at one ply.
#[derive(Clone, Copy, PartialEq, Eq, Debug)]
pub struct Position {
    /// Squares of each piece, indexed by color * 6 + kind.
    pub piece_bb: [Bitboard; 12],
    /// Squares of each color.
    pub color_bb: [Bitboard; 2],
    /// What stands on each square.
    pub mailbox: [Option<Piece>; 64],
    pub side_to_move: Color,
    pub castling: CastlingRights,
    pub en_passant: Option<Square>,
    pub halfmove_clock: u16,
    pub fullmove_number: u16,
    pub hash: u64,
}

impl View for Position {
    type V = Model;

    open spec fn view(&self) -> Model {
        Model {
            board: self.mailbox@,
            side: self.side_to_move,
            castling: self.castling.0,
            ep: self.en_passant,
            halfmove: self.halfmove_clock,
            fullmove: self.fullmove_number,
        }
    }
}

impl Position {
    /// Bitboards and mailbox agree; castling fits its table; the en-passant
    /// square is on the board.
    pub open spec fn bb_wf(self) -> bool {
        &&& forall|j: int, i: int|
            0 <= j < 12 ==> #[trigger] self.piece_bb[j].has(i) == (0 <= i < 64
                && self.mailbox@[i] is Some && piece_slot(self.mailbox@[i].unwrap()) == j)
        &&& forall|c: int, i: int|
            0 <= c < 2 ==> #[trigger] self.color_bb[c].has(i) == (0 <= i < 64
                && self.mailbox@[i] is Some && self.mailbox@[i].unwrap().color.spec_index() == c)
        &&& self.castling.0 < 16
        &&& (self.en_passant matches Some(e) ==> e.wf())
    }

    /// Consistent, with the hash matching the content.
    pub open spec fn wf(self) -> bool {
        &&& self.bb_wf()
        &&& self.hash == model_hash(self@)
    }

    pub proof fn lemma_wf_facts(self)
        requires
            self.bb_wf(),
        ensures
            self@.board.len() == 64,
            self@.castling < 16,
            self@.ep matches Some(e) ==> e.wf(),
    {
    }

    pub fn empty() -> (pos: Position)
        ensures
            pos.bb_wf(),
            pos@.board == Seq::new(64, |i: int| None::<Piece>),
            pos@.side == Color::White,
            pos@.castling == 0,
            pos@.ep is None,
            pos@.halfmove == 0,
            pos@.fullmove == 1,
            pos.hash == 0,
    {
        let e = Bitboard::empty();
        let pos = Position {
            piece_bb: [e, e, e, e, e, e, e, e, e, e, e, e],
            color_bb: [e, e],
            mailbox: [None; 64],
            side_to_move: Color::White,
            castling: CastlingRights(0),
            en_passant: None,
            halfmove_clock: 0,
            fullmove_number: 1,
            hash: 0,
        };
        assert(pos@.board =~= Seq::new(64, |i: int| None::<Piece>));
        pos
    }

    /// The standard starting position.
    #[verifier::rlimit(60)]
    pub fn startpos() -> (pos: Position)
        ensures
            pos.wf(),
            pos@ == start_model(),
    {
        let mut pos = Position::empty();
        let mut f: u8 = 0;
        proof {
            lemma_pieces_hash_empty(64);
            assert(pos@.board =~= Seq::new(64, |i: int| if file_of(i) < 0 { start_piece(i) } else { None }));
        }
        while f < 8
            invariant
                f <= 8,
                pos.bb_wf(),
                pos@.board == Seq::new(64, |i: int| if file_of(i) < f { start_piece(i) } else { None }),
                pos.hash == pieces_hash(pos@.board, 64),
                pos@.side == Color::White,
                pos@.castling == 0,
                pos@.ep is None,
                pos@.halfmove == 0,
                pos@.fullmove == 1,
            decreases 8 - f,
        {
            let kind = back_kind_exec(f);
            let squares = [Square::new(f, 0), Square::new(f, 1), Square::new(f, 6), Square::new(f, 7)];
            let pieces = [
                Piece::new(Color::White, kind),
                Piece::new(Color::White, PieceKind::Pawn),
                Piece::new(Color::Black, PieceKind::Pawn),
                Piece::new(Color::Black, kind),
            ];
            let mut j: usize = 0;
            while j < 4
                invariant
                    f < 8,
                    j <= 4,
                    pos.bb_wf(),
                    squares@ == seq![Square((f) as u8), Square((8 + f) as u8), Square((48 + f) as u8), Square((56 + f) as u8)],
                    forall|k: int| 0 <= k < 4 ==> Some(pieces@[k]) == start_piece(#[trigger] squares@[k].0 as int),
                    pos@.board == Seq::new(64, |i: int| if file_of(i) < f || (file_of(i) == f && (rank_of(i) == 0 && j > 0 || rank_of(i) == 1 && j > 1 || rank_of(i) == 6 && j > 2 || rank_of(i) == 7 && j > 3)) { start_piece(i) } else { None }),
                    pos.hash == pieces_hash(pos@.board, 64),
                    pos@.side == Color::White,
                    pos@.castling == 0,
                    pos@.ep is None,
                    pos@.halfmove == 0,
                    pos@.fullmove == 1,
                decreases 4 - j,
            {
                let ghost before = pos;
                let sq = squares[j];
                proof {
                    assert(pos@.board[sq.0 as int] is None);
                }
                pos.put(sq, pieces[j]);
                proof {
                    lemma_pieces_hash_update(before@.board, sq.0 as int, Some(pieces[j as int]), 64);
                    lemma_xor(pieces_hash(before@.board, 64), 0, 0);
                }
                j = j + 1;
                proof {
                    assert(pos@.board =~= Seq::new(64, |i: int| if file_of(i) < f || (file_of(i) == f && (rank_of(i) == 0 && j > 0 || rank_of(i) == 1 && j > 1 || rank_of(i) == 6 && j > 2 || rank_of(i) == 7 && j > 3)) { start_piece(i) } else { None }));
                }
            }
            f = f + 1;
            proof {
                assert(pos@.board =~= Seq::new(64, |i: int| if file_of(i) < f { start_piece(i) } else { None }));
            }
        }
        pos.castling = CastlingRights(15);
        pos.finish_hash();
        proof {
            assert(pos@.board =~= start_model().board);
        }
        pos
    }

    pub fn pieces(&self, color: Color, kind: PieceKind) -> (b: Bitboard)
        requires
            self.bb_wf(),
        ensures
            forall|i: int|
                b.has(i) == (0 <= i < 64 && self@.board[i] == Some(Piece { color, kind })),
    {
        let j = color.index() * 6 + kind.index();
        let b = self.piece_bb[j];
        proof {
            assert forall|i: int|
                b.has(i) == (0 <= i < 64 && self@.board[i] == Some(Piece { color, kind })) by {
                assert(self.piece_bb[j as int].has(i) == (0 <= i < 64 && self.mailbox@[i] is Some
                    && piece_slot(self.mailbox@[i].unwrap()) == j));
            }
        }
        b
    }

    pub fn occupied_by(&self, color: Color) -> (b: Bitboard)
        requires
            self.bb_wf(),
        ensures
            forall|i: int|
                b.has(i) == (0 <= i < 64 && self@.board[i] is Some && self@.board[i].unwrap().color
                    == color),
    {
        let c = color.index();
        let b = self.color_bb[c];
        proof {
            assert forall|i: int|
                b.has(i) == (0 <= i < 64 && self@.board[i] is Some
                    && self@.board[i].unwrap().color == color) by {
                assert(self.color_bb[c as int].has(i) == (0 <= i < 64 && self.mailbox@[i] is Some
                    && self.mailbox@[i].unwrap().color.spec_index() == c));
            }
        }
        b
    }

    pub fn occupied(&self) -> (b: Bitboard)
        requires
            self.bb_wf(),
        ensures
            forall|i: int| b.has(i) == (0 <= i < 64 && self@.board[i] is Some),
            b.occ() == board_occ(self@.board),
    {
        let b = self.color_bb[0].union(self.color_bb[1]);
        proof {
            assert forall|i: int| b.has(i) == (0 <= i < 64 && self@.board[i] is Some) by {
                assert(self.color_bb[0].has(i) == (0 <= i < 64 && self.mailbox@[i] is Some
                    && self.mailbox@[i].unwrap().color.spec_index() == 0));
                assert(self.color_bb[1].has(i) == (0 <= i < 64 && self.mailbox@[i] is Some
                    && self.mailbox@[i].unwrap().color.spec_index() == 1));
            }
            assert(b.occ() =~= board_occ(self@.board));
        }
        b
    }

    pub fn piece_at(&self, sq: Square) -> (p: Option<Piece>)
        requires
            sq.wf(),
        ensures
            p == self@.board[sq.0 as int],
    {
        self.mailbox[sq.index()]
    }

    pub fn king_square(&self, color: Color) -> (sq: Square)
        requires
            self.bb_wf(),
            has_king(self@.board, color),
        ensures
            sq.wf(),
            lowest_king(self@.board, color, sq.0 as int),
    {
        let kings = self.pieces(color, PieceKind::King);
        match kings.first() {
            Some(sq) => {
                proof {
                    assert forall|j: int| 0 <= j < sq.0 implies self@.board[j] != Some(
                        Piece { color, kind: PieceKind::King },
                    ) by {
                        assert(!kings.has(j));
                    }
                }
                sq
            },
            None => {
                proof {
                    let s = choose|s: int|
                        0 <= s < 64 && self@.board[s] == Some(
                            Piece { color, kind: PieceKind::King },
                        );
                    assert(kings.has(s));
                    crate::bitboard::lemma_lowest_bit(kings.0);
                }
                Square(0)
            },
        }
    }

    #[verifier::rlimit(40)]
    pub(crate) fn put(&mut self, sq: Square, piece: Piece)
        requires
            old(self).bb_wf(),
            sq.wf(),
            old(self)@.board[sq.0 as int] is None,
        ensures
            final(self).bb_wf(),
            final(self)@ == (Model { board: old(self)@.board.update(sq.0 as int, Some(piece)), ..old(self)@ }),
            final(self).hash == old(self).hash ^ piece_key(piece, sq.0 as int),
            old(self).hash == model_hash(old(self)@) ==> final(self).hash == model_hash(final(self)@),
    {
        let ghost old_self = *self;
        let j = piece.color.index() * 6 + piece.kind.index();
        let c = piece.color.index();
        let mut b = self.piece_bb[j];
        b.set(sq);
        self.piece_bb[j] = b;
        let mut cb = self.color_bb[c];
        cb.set(sq);
        self.color_bb[c] = cb;
        self.mailbox[sq.index()] = Some(piece);
        self.hash = self.hash ^ PIECE_KEYS[j * 64 + sq.index()];
        proof {
            assert(self@.board =~= old_self@.board.update(sq.0 as int, Some(piece)));
            assert forall|jj: int, i: int| 0 <= jj < 12 implies #[trigger] self.piece_bb[jj].has(i)
                == (0 <= i < 64 && self.mailbox@[i] is Some && piece_slot(self.mailbox@[i].unwrap())
                == jj) by {
                assert(old_self.piece_bb[jj].has(i) == (0 <= i < 64 && old_self.mailbox@[i] is Some
                    && piece_slot(old_self.mailbox@[i].unwrap()) == jj));
            }
            assert forall|cc: int, i: int| 0 <= cc < 2 implies #[trigger] self.color_bb[cc].has(i)
                == (0 <= i < 64 && self.mailbox@[i] is Some
                && self.mailbox@[i].unwrap().color.spec_index() == cc) by {
                assert(old_self.color_bb[cc].has(i) == (0 <= i < 64 && old_self.mailbox@[i] is Some
                    && old_self.mailbox@[i].unwrap().color.spec_index() == cc));
            }
            assert(old_self@.board.len() == 64);
            lemma_pieces_hash_update(old_self@.board, sq.0 as int, Some(piece), 64);
            lemma_xor(pieces_hash(old_self@.board, 64), 0, piece_key(piece, sq.0 as int));
            Self::lemma_rehash(old_self@, self@, old_self.hash, piece_key(piece, sq.0 as int));
        }
    }

    #[verifier::rlimit(40)]
    fn take(&mut self, sq: Square) -> (piece: Piece)
        requires
            old(self).bb_wf(),
            sq.wf(),
            old(self)@.board[sq.0 as int] is Some,
        ensures
            final(self).bb_wf(),
            piece == old(self)@.board[sq.0 as int].unwrap(),
            final(self)@ == (Model { board: old(self)@.board.update(sq.0 as int, None), ..old(self)@ }),
            final(self).hash == old(self).hash ^ piece_key(piece, sq.0 as int),
            old(self).hash == model_hash(old(self)@) ==> final(self).hash == model_hash(final(self)@),
    {
        let ghost old_self = *self;
        let piece = match self.mailbox[sq.index()] {
            Some(p) => p,
            None => Piece { color: Color::White, kind: PieceKind::Pawn },
        };
        let j = piece.color.index() * 6 + piece.kind.index();
        let c = piece.color.index();
        let mut b = self.piece_bb[j];
        b.clear(sq);
        self.piece_bb[j] = b;
        let mut cb = self.color_bb[c];
        cb.clear(sq);
        self.color_bb[c] = cb;
        self.mailbox[sq.index()] = None;
        self.hash = self.hash ^ PIECE_KEYS[j * 64 + sq.index()];
        proof {
            assert(self@.board =~= old_self@.board.update(sq.0 as int, None));
            assert forall|jj: int, i: int| 0 <= jj < 12 implies #[trigger] self.piece_bb[jj].has(i)
                == (0 <= i < 64 && self.mailbox@[i] is Some && piece_slot(self.mailbox@[i].unwrap())
                == jj) by {
                assert(old_self.piece_bb[jj].has(i) == (0 <= i < 64 && old_self.mailbox@[i] is Some
                    && piece_slot(old_self.mailbox@[i].unwrap()) == jj));
            }
            assert forall|cc: int, i: int| 0 <= cc < 2 implies #[trigger] self.color_bb[cc].has(i)
                == (0 <= i < 64 && self.mailbox@[i] is Some
                && self.mailbox@[i].unwrap().color.spec_index() == cc) by {
                assert(old_self.color_bb[cc].has(i) == (0 <= i < 64 && old_self.mailbox@[i] is Some
                    && old_self.mailbox@[i].unwrap().color.spec_index() == cc));
            }
            assert(old_self@.board.len() == 64);
            lemma_pieces_hash_update(old_self@.board, sq.0 as int, None, 64);
            lemma_xor(pieces_hash(old_self@.board, 64) ^ piece_key(piece, sq.0 as int), 0, 0);
            Self::lemma_rehash(old_self@, self@, old_self.hash, piece_key(piece, sq.0 as int));
        }
        piece
    }

    /// All pieces of `by` attacking `sq` under the given occupancy.
    #[verifier::rlimit(60)]
    pub fn attackers_to(&self, sq: Square, by: Color, occupied: Bitboard) -> (b: Bitboard)
        requires
            self.bb_wf(),
            sq.wf(),
        ensures
            forall|s: int| b.has(s) == attacker(self@.board, sq.0 as int, by, occupied.occ(), s),
    {
        // Symmetry trick: knights that attack sq are on knight-attack squares
        // from sq; a pawn of `by` attacks sq iff it sits on a square that a
        // pawn of the *other* color on sq would attack.
        let queens = self.pieces(by, PieceKind::Queen);
        let knights = knight_attacks(sq).intersection(self.pieces(by, PieceKind::Knight));
        let kings = king_attacks(sq).intersection(self.pieces(by, PieceKind::King));
        let pawns = pawn_attacks(by.opposite(), sq).intersection(self.pieces(by, PieceKind::Pawn));
        let diag = bishop_attacks(sq, occupied).intersection(
            self.pieces(by, PieceKind::Bishop).union(queens),
        );
        let line = rook_attacks(sq, occupied).intersection(
            self.pieces(by, PieceKind::Rook).union(queens),
        );
        let b = knights.union(kings).union(pawns).union(diag).union(line);
        proof {
            assert forall|s: int| b.has(s) == attacker(
                self@.board,
                sq.0 as int,
                by,
                occupied.occ(),
                s,
            ) by {
                if 0 <= s < 64 && self@.board[s] is Some {
                    let p = self@.board[s].unwrap();
                    assert(self@.board[s] == Some(Piece { color: p.color, kind: p.kind }));
                }
            }
        }
        b
    }

    pub fn is_attacked(&self, sq: Square, by: Color) -> (a: bool)
        requires
            self.bb_wf(),
            sq.wf(),
        ensures
            a == attacked(self@.board, sq.0 as int, by),
    {
        let occ = self.occupied();
        let att = self.attackers_to(sq, by, occ);
        let e = att.is_empty();
        proof {
            if e {
                assert forall|s: int| !attacker(self@.board, sq.0 as int, by, board_occ(self@.board), s) by {
                    assert(!att.has(s));
                }
            } else {
                crate::bitboard::lemma_lowest_bit(att.0);
                let t = vstd::std_specs::bits::u64_trailing_zeros(att.0) as int;
                assert(att.has(t));
                assert(attacker(self@.board, sq.0 as int, by, board_occ(self@.board), t));
            }
        }
        !e
    }

    pub fn in_check(&self, color: Color) -> (c: bool)
        requires
            self.bb_wf(),
            has_king(self@.board, color),
        ensures
            c == in_check_on(self@.board, color),
    {
        let k = self.king_square(color);
        let a = self.is_attacked(k, color.opposite());
        proof {
            let ks = k.0 as int;
            assert forall|s: int| lowest_king(self@.board, color, s) implies s == ks by {
                if s < ks {
                    assert(self@.board[s] != Some(Piece { color, kind: PieceKind::King }));
                } else if s > ks {
                    assert(self@.board[ks] != Some(Piece { color, kind: PieceKind::King }));
                }
            }
            if a {
                assert(lowest_king(self@.board, color, ks) && attacked(self@.board, ks, color.spec_opposite()));
            }
        }
        a
    }

    /// The piece-moving half of `apply`: takes and puts pieces and
    /// advances the halfmove clock.
    #[verifier::rlimit(80)]
    fn move_pieces(&mut self, mv: Move)
        requires
            old(self).bb_wf(),
            old(self).hash == model_hash(old(self)@),
            apply_ok(old(self)@, mv),
        ensures
            final(self).bb_wf(),
            final(self).hash == model_hash(final(self)@),
            final(self)@ == (Model {
                board: apply_board(old(self)@, mv),
                halfmove: apply_model(old(self)@, mv).halfmove,
                ..old(self)@
            }),
    {
        let ghost m0 = self@;
        let ghost fi = mv.spec_from().0 as int;
        let ghost ti = mv.spec_to().0 as int;
        let us = self.side_to_move;
        let from = mv.from();
        let to = mv.to();
        let flags = mv.flags();
        let piece = self.take(from);
        self.halfmove_clock = self.halfmove_clock + 1;
        if piece.kind == PieceKind::Pawn {
            self.halfmove_clock = 0;
        }
        let ghost b1 = m0.board.update(fi, None);
        proof {
            assert(self@.board == b1);
        }
        match flags {
            MoveFlags::Capture
            | MoveFlags::PromoCaptureKnight
            | MoveFlags::PromoCaptureBishop
            | MoveFlags::PromoCaptureRook
            | MoveFlags::PromoCaptureQueen => {
                self.take(to);
                self.halfmove_clock = 0;
            },
            MoveFlags::EnPassant => {
                let victim = Square::new(to.file(), from.rank());
                self.take(victim);
                self.halfmove_clock = 0;
            },
            _ => {},
        }
        let ghost b2 = self@.board;
        proof {
            assert(b2 == if is_capture_flag(flags) {
                b1.update(ti, None)
            } else if flags == MoveFlags::EnPassant {
                b1.update(ep_victim(fi, ti), None)
            } else {
                b1
            });
        }
        match flags {
            MoveFlags::CastleKing | MoveFlags::CastleQueen => {
                self.put(to, piece);
                let rank = from.rank();
                let rook_from_sq = if flags == MoveFlags::CastleKing {
                    Square::new(7, rank)
                } else {
                    Square::new(0, rank)
                };
                let rook_to_sq = if flags == MoveFlags::CastleKing {
                    Square::new(5, rank)
                } else {
                    Square::new(3, rank)
                };
                let rook = self.take(rook_from_sq);
                self.put(rook_to_sq, rook);
            },
            _ => {
                let placed = match mv.promotion() {
                    Some(kind) => Piece::new(us, kind),
                    None => piece,
                };
                self.put(to, placed);
            },
        }
        proof {
            assert(self@.board =~= apply_board(m0, mv));
        }
    }

    /// Applies a move assumed to be pseudo-legal for the side to move.
    #[verifier::rlimit(80)]
    pub fn apply(&self, mv: Move) -> (next: Position)
        requires
            self.wf(),
            apply_ok(self@, mv),
        ensures
            next.wf(),
            next@ == apply_model(self@, mv),
    {
        let mut pos = *self;
        let us = pos.side_to_move;
        let from = mv.from();
        let to = mv.to();
        let flags = mv.flags();
        let ghost m0 = self@;
        let ghost fi = from.0 as int;
        let ghost ti = to.0 as int;
        // Clear the old en-passant file from the hash before recomputing it.
        match pos.en_passant {
            Some(ep) => {
                pos.hash = pos.hash ^ EN_PASSANT_KEYS[ep.file() as usize];
                pos.en_passant = None;
                proof {
                    lemma_xor4(pieces_hash(m0.board, 64), side_key(m0.side), castling_key(m0.castling), ep_key(m0.ep), 0);
                    lemma_xor(self.hash ^ ep_key(m0.ep), 0, 0);
                }
            },
            None => {},
        }
        proof {
            assert(pos.hash == model_hash(pos@));
        }
        pos.move_pieces(mv);
        proof {
            assert(pos@.board == apply_board(m0, mv));
            assert(pos.hash == model_hash(pos@));
        }
        if flags == MoveFlags::DoublePush {
            let ep = Square::new(from.file(), (from.rank() + to.rank()) / 2);
            pos.en_passant = Some(ep);
            pos.hash = pos.hash ^ EN_PASSANT_KEYS[ep.file() as usize];
            proof {
                lemma_xor4(pieces_hash(pos@.board, 64), side_key(m0.side), castling_key(m0.castling), 0, ep_key(Some(ep)));
                lemma_xor(pieces_hash(pos@.board, 64) ^ side_key(m0.side) ^ castling_key(m0.castling) ^ 0, 0, 0);
            }
        }
        proof {
            assert(pos.hash == model_hash(pos@));
        }
        let old_castling = pos.castling;
        let lost = castling_touched(from) | castling_touched(to);
        pos.castling.remove(lost);
        proof {
            lemma_u8_and_not(old_castling.0, lost);
        }
        if pos.castling.0 != old_castling.0 {
            pos.hash = pos.hash ^ CASTLING_KEYS[old_castling.0 as usize];
            pos.hash = pos.hash ^ CASTLING_KEYS[pos.castling.0 as usize];
            proof {
                lemma_xor4(pieces_hash(pos@.board, 64), side_key(m0.side), castling_key(old_castling.0), ep_key(pos.en_passant), castling_key(pos.castling.0));
            }
        }
        proof {
            assert(pos.hash == model_hash(pos@));
        }
        if us == Color::Black {
            pos.fullmove_number = pos.fullmove_number + 1;
        }
        let ghost h_before = pos.hash;
        pos.side_to_move = us.opposite();
        pos.hash = pos.hash ^ SIDE_TO_MOVE_KEY;
        proof {
            let p = pieces_hash(pos@.board, 64);
            let c = castling_key(pos.castling.0);
            let e = ep_key(pos.en_passant);
            lemma_xor4(p, side_key(us), c, e, side_key(us.spec_opposite()));
            lemma_xor(h_before, 0, 0);
            lemma_xor(h_before ^ SIDE_TO_MOVE_KEY, 0, 0);
            lemma_xor(p ^ SIDE_TO_MOVE_KEY, 0, 0);
            lemma_xor(p, 0, 0);
            assert(h_before == p ^ side_key(us) ^ c ^ e);
            if us == Color::White {
                assert(pos.hash == ((p ^ 0 ^ c ^ e) ^ 0) ^ SIDE_TO_MOVE_KEY);
                assert(pos.hash == p ^ SIDE_TO_MOVE_KEY ^ c ^ e);
            } else {
                assert(pos.hash == ((p ^ SIDE_TO_MOVE_KEY ^ c ^ e) ^ SIDE_TO_MOVE_KEY) ^ 0);
                assert(pos.hash == p ^ 0 ^ c ^ e);
            }
            assert(pos@ == apply_model(m0, mv));
            assert(pos.hash == model_hash(pos@));
            lemma_u8_and_not(old_castling.0, lost);
            assert(pos.bb_wf());
        }
        pos
    }

    /// Recomputes the hash from scratch; test oracle for incremental updates.
    pub fn recompute_hash(&self) -> (h: u64)
        requires
            self.castling.0 < 16,
        ensures
            h == model_hash(self@),
    {
        let mut hash: u64 = 0;
        let mut sq: u8 = 0;
        while sq < 64
            invariant
                sq <= 64,
                self.mailbox@.len() == 64,
                hash == pieces_hash(self@.board, sq as int),
            decreases 64 - sq,
        {
            match self.mailbox[sq as usize] {
                Some(piece) => {
                    hash = hash ^ PIECE_KEYS[(piece.color.index() * 6 + piece.kind.index()) * 64 + sq as usize];
                },
                None => {
                    proof {
                        lemma_xor(hash, 0, 0);
                    }
                },
            }
            sq = sq + 1;
        }
        if self.side_to_move == Color::Black {
            hash = hash ^ SIDE_TO_MOVE_KEY;
        } else {
            proof {
                lemma_xor(hash, 0, 0);
            }
        }
        hash = hash ^ CASTLING_KEYS[self.castling.0 as usize];
        match self.en_passant {
            Some(ep) => {
                hash = hash ^ EN_PASSANT_KEYS[ep.file() as usize];
            },
            None => {
                proof {
                    lemma_xor(hash, 0, 0);
                }
            },
        }
        hash
    }

    /// Called once after building a position to fold in the non-piece state
    /// that `put` alone doesn't cover.
    pub(crate) fn finish_hash(&mut self)
        requires
            old(self).bb_wf(),
            old(self).hash == pieces_hash(old(self)@.board, 64),
        ensures
            final(self).wf(),
            final(self)@ == old(self)@,
    {
        let ghost h0 = self.hash;
        if self.side_to_move == Color::Black {
            self.hash = self.hash ^ SIDE_TO_MOVE_KEY;
        } else {
            proof {
                lemma_xor(h0, 0, 0);
            }
        }
        self.hash = self.hash ^ CASTLING_KEYS[self.castling.0 as usize];
        match self.en_passant {
            Some(ep) => {
                self.hash = self.hash ^ EN_PASSANT_KEYS[ep.file() as usize];
            },
            None => {
                let ghost h = self.hash;
                proof {
                    lemma_xor(h, 0, 0);
                }
            },
        }
    }

    /// Changing only the board by a single XOR of the pieces' hash keeps the
    /// hash in step when the hash changes by the same XOR.
    proof fn lemma_rehash(m1: Model, m2: Model, h: u64, k: u64)
        requires
            pieces_hash(m2.board, 64) == pieces_hash(m1.board, 64) ^ k,
            m1.side == m2.side,
            m1.castling == m2.castling,
            m1.ep == m2.ep,
        ensures
            h == model_hash(m1) ==> h ^ k == model_hash(m2),
    {
        let p = pieces_hash(m1.board, 64);
        let s = side_key(m1.side);
        let c = castling_key(m1.castling);
        let e = ep_key(m1.ep);
        lemma_xor(p, k, s);
        lemma_xor(p ^ s, k, c);
        lemma_xor(p, s, k);
        lemma_xor(p ^ s ^ c, k, e);
        lemma_xor(p ^ s, c, k);
        lemma_xor(k, s, 0);
        lemma_xor(k, c, 0);
        lemma_xor(k, e, 0);
        lemma_xor(p ^ s ^ c, e, k);
        lemma_xor(p ^ s, k, c);
        lemma_xor(p ^ k, s, c);
        lemma_xor(p ^ k ^ s, c, e);
        lemma_xor(p ^ s ^ k, c, e);
        lemma_xor(p ^ s ^ c, k, e);
    }
}

/// In a consistent position a square is on at most one of the twelve piece
/// bitboards and never on both color bitboards, and it is on a color's
/// bitboard exactly when it is on one of that color's six piece bitboards.
pub proof fn law_bitboards_agree(p: Position, i: int, j: int, k: int)
    requires
        p.bb_wf(),
        0 <= j < 12,
        0 <= k < 12,
        j != k,
    ensures
        !(p.piece_bb[j].has(i) && p.piece_bb[k].has(i)),
        !(p.color_bb[0].has(i) && p.color_bb[1].has(i)),
        p.color_bb[0].has(i) <==> exists|s: int| 0 <= s < 6 && #[trigger] p.piece_bb[s].has(i),
        p.color_bb[1].has(i) <==> exists|s: int| 6 <= s < 12 && #[trigger] p.piece_bb[s].has(i),
{
    assert(p.piece_bb[j].has(i) == (0 <= i < 64 && p.mailbox@[i] is Some && piece_slot(
        p.mailbox@[i].unwrap(),
    ) == j));
    assert(p.piece_bb[k].has(i) == (0 <= i < 64 && p.mailbox@[i] is Some && piece_slot(
        p.mailbox@[i].unwrap(),
    ) == k));
    assert(p.color_bb[0].has(i) == (0 <= i < 64 && p.mailbox@[i] is Some
        && p.mailbox@[i].unwrap().color.spec_index() == 0));
    assert(p.color_bb[1].has(i) == (0 <= i < 64 && p.mailbox@[i] is Some
        && p.mailbox@[i].unwrap().color.spec_index() == 1));
    if 0 <= i < 64 && p.mailbox@[i] is Some {
        let s = piece_slot(p.mailbox@[i].unwrap());
        assert(p.piece_bb[s].has(i));
    }
    assert forall|s: int| 0 <= s < 12 && #[trigger] p.piece_bb[s].has(i) implies (s < 6
        <==> p.color_bb[0].has(i)) && (s >= 6 <==> p.color_bb[1].has(i)) by {
        assert(p.piece_bb[s].has(i) == (0 <= i < 64 && p.mailbox@[i] is Some && piece_slot(
            p.mailbox@[i].unwrap(),
        ) == s));
    }
}

/// The move takes a piece: a plain or promoting capture, or en passant.
pub open spec fn takes_piece(f: MoveFlags) -> bool {
    ||| f == MoveFlags::Capture
    ||| f == MoveFlags::EnPassant
    ||| f == MoveFlags::PromoCaptureKnight
    ||| f == MoveFlags::PromoCaptureBishop
    ||| f == MoveFlags::PromoCaptureRook
    ||| f == MoveFlags::PromoCaptureQueen
}

/// The halfmove clock after a move: a pawn move or a move that takes a
/// piece resets it, and any other move advances it by one.
pub proof fn law_halfmove_clock(m: Model, mv: Move)
    requires
        m.board[mv.spec_from().0 as int] is Some,
        m.halfmove < 65535,
    ensures
        (takes_piece(mv.spec_flags()) || m.board[mv.spec_from().0 as int].unwrap().kind
            == PieceKind::Pawn) ==> apply_model(m, mv).halfmove == 0,
        !(takes_piece(mv.spec_flags()) || m.board[mv.spec_from().0 as int].unwrap().kind
            == PieceKind::Pawn) ==> apply_model(m, mv).halfmove == m.halfmove + 1,
{
}

/// After a move the other side is to move, and the move number grows after
/// Black's move and only then.
pub proof fn law_turn_passes(m: Model, mv: Move)
    requires
        m.fullmove < 65535,
    ensures
        apply_model(m, mv).side != m.side,
        m.side == Color::White ==> apply_model(m, mv).fullmove == m.fullmove,
        m.side == Color::Black ==> apply_model(m, mv).fullmove == m.fullmove + 1,
{
}

/// An en-passant square is set exactly after a double push, on the pawn's
/// file, halfway between its two ranks.
pub proof fn law_en_passant_square(m: Model, mv: Move)
    requires
        mv.spec_from().wf(),
        mv.spec_to().wf(),
    ensures
        apply_model(m, mv).ep is Some <==> mv.spec_flags() == MoveFlags::DoublePush,
        apply_model(m, mv).ep matches Some(e) ==> file_of(e.0 as int) == file_of(
            mv.spec_from().0 as int,
        ) && rank_of(e.0 as int) == (rank_of(mv.spec_from().0 as int) + rank_of(
            mv.spec_to().0 as int,
        )) / 2,
{
    let from = mv.spec_from().0 as int;
    let to = mv.spec_to().0 as int;
    if mv.spec_flags() == MoveFlags::DoublePush {
        let r = (rank_of(from) + rank_of(to)) / 2;
        let fl = file_of(from);
        assert(0 <= r < 8 && 0 <= fl < 8);
        assert((r * 8 + fl) % 8 == fl && (r * 8 + fl) / 8 == r) by (nonlinear_arith)
            requires
                0 <= r < 8,
                0 <= fl < 8,
        ;
    }
}

/// A move never grants a castling right.
pub proof fn law_no_right_gained(m: Model, mv: Move)
    ensures
        apply_model(m, mv).castling & !m.castling == 0,
{
    let from = mv.spec_from().0 as int;
    let to = mv.spec_to().0 as int;
    let t = touched(from) | touched(to);
    let c = m.castling;
    assert((c & !t) & !c == 0) by (bit_vector);
}

/// The piece a promoting move turns the pawn into.
pub open spec fn promotes_to(f: MoveFlags) -> Option<PieceKind> {
    if f == MoveFlags::PromoKnight || f == MoveFlags::PromoCaptureKnight {
        Some(PieceKind::Knight)
    } else if f == MoveFlags::PromoBishop || f == MoveFlags::PromoCaptureBishop {
        Some(PieceKind::Bishop)
    } else if f == MoveFlags::PromoRook || f == MoveFlags::PromoCaptureRook {
        Some(PieceKind::Rook)
    } else if f == MoveFlags::PromoQueen || f == MoveFlags::PromoCaptureQueen {
        Some(PieceKind::Queen)
    } else {
        None
    }
}

proof fn lemma_promotes_to(f: MoveFlags)
    ensures
        flag_promotion_of(f) == promotes_to(f),
{
    match f {
        MoveFlags::Quiet => {},
        MoveFlags::DoublePush => {},
        MoveFlags::CastleKing => {},
        MoveFlags::CastleQueen => {},
        MoveFlags::Capture => {},
        MoveFlags::EnPassant => {},
        MoveFlags::PromoKnight => {},
        MoveFlags::PromoBishop => {},
        MoveFlags::PromoRook => {},
        MoveFlags::PromoQueen => {},
        MoveFlags::PromoCaptureKnight => {},
        MoveFlags::PromoCaptureBishop => {},
        MoveFlags::PromoCaptureRook => {},
        MoveFlags::PromoCaptureQueen => {},
    }
}

/// Where the mover goes after a move other than castling: the origin is
/// emptied, and the target holds the mover, or the piece it promotes to in
/// the mover's color; en passant also empties the square of the pawn passed
/// by (on the origin's rank, the target's file).
pub proof fn law_move_board(m: Model, mv: Move)
    requires
        m.board.len() == 64,
        mv.spec_from().wf(),
        mv.spec_to().wf(),
        mv.spec_from() != mv.spec_to(),
        mv.spec_flags() != MoveFlags::CastleKing,
        mv.spec_flags() != MoveFlags::CastleQueen,
        m.board[mv.spec_from().0 as int] is Some,
    ensures
        apply_board(m, mv)[mv.spec_from().0 as int] is None,
        promotes_to(mv.spec_flags()) is None ==> apply_board(m, mv)[mv.spec_to().0 as int]
            == m.board[mv.spec_from().0 as int],
        promotes_to(mv.spec_flags()) matches Some(k) ==> apply_board(m, mv)[mv.spec_to().0 as int]
            == Some(Piece { color: m.side, kind: k }),
        mv.spec_flags() == MoveFlags::EnPassant ==> apply_board(m, mv)[rank_of(
            mv.spec_from().0 as int,
        ) * 8 + file_of(mv.spec_to().0 as int)] is None || rank_of(mv.spec_from().0 as int) * 8
            + file_of(mv.spec_to().0 as int) == mv.spec_to().0,
{
    let from = mv.spec_from().0 as int;
    let to = mv.spec_to().0 as int;
    let f = mv.spec_flags();
    let piece = m.board[from].unwrap();
    lemma_promotes_to(f);
    let b1 = m.board.update(from, None);
    let b2 = if is_capture_flag(f) {
        b1.update(to, None)
    } else if f == MoveFlags::EnPassant {
        b1.update(ep_victim(from, to), None)
    } else {
        b1
    };
    let placed = match flag_promotion_of(f) {
        Some(kind) => Piece { color: m.side, kind },
        None => piece,
    };
    assert(apply_board(m, mv) == b2.update(to, Some(placed)));
    if f == MoveFlags::EnPassant {
        let v = ep_victim(from, to);
        assert(0 <= rank_of(from) < 8 && 0 <= file_of(to) < 8);
        assert(0 <= v < 64);
    }
}

/// Castling moves the king from its square to the target and the rook from
/// its corner (h-file for the king's side, a-file for the queen's) to the
/// square the king crossed (f-file or d-file), on the king's rank.
pub proof fn law_castle_board(m: Model, mv: Move)
    requires
        m.board.len() == 64,
        mv.spec_from().0 == 4 || mv.spec_from().0 == 60,
        mv.spec_flags() == MoveFlags::CastleKing && mv.spec_to().0 == mv.spec_from().0 + 2
            || mv.spec_flags() == MoveFlags::CastleQueen && mv.spec_to().0 == mv.spec_from().0 - 2,
        m.board[mv.spec_from().0 as int] is Some,
        m.board[if mv.spec_flags() == MoveFlags::CastleKing {
            mv.spec_from().0 + 3
        } else {
            mv.spec_from().0 - 4
        }] is Some,
    ensures
        ({
            let from = mv.spec_from().0 as int;
            let corner = if mv.spec_flags() == MoveFlags::CastleKing { from + 3 } else { from - 4 };
            let crossed = if mv.spec_flags() == MoveFlags::CastleKing { from + 1 } else { from - 1 };
            &&& apply_board(m, mv)[from] is None
            &&& apply_board(m, mv)[mv.spec_to().0 as int] == m.board[from]
            &&& apply_board(m, mv)[corner] is None
            &&& apply_board(m, mv)[crossed] == m.board[corner]
        }),
{
    let from = mv.spec_from().0 as int;
    let to = mv.spec_to().0 as int;
    let f = mv.spec_flags();
    assert(rank_of(from) * 8 == if from == 4 { 0int } else { 56int });
    let rf = rook_from(from, f);
    let rt = rook_to(from, f);
    assert(rf == if f == MoveFlags::CastleKing { from + 3 } else { from - 4 });
    assert(rt == if f == MoveFlags::CastleKing { from + 1 } else { from - 1 });
    assert(!is_capture_flag(f) && f != MoveFlags::EnPassant && is_castle_flag(f));
    let b1 = m.board.update(from, None);
    let b3 = b1.update(to, Some(m.board[from].unwrap()));
    assert(b3[rf] == m.board[rf]);
    assert(apply_board(m, mv) == b3.update(rf, None).update(rt, Some(b3[rf].unwrap())));
}

/// A move leaves every square it does not touch as it was: all but the
/// origin, the target, the square passed by in en passant, and the rook's
/// corner and landing square in castling.
pub proof fn law_move_frame(m: Model, mv: Move, sq: int)
    requires
        m.board.len() == 64,
        0 <= sq < 64,
        sq != mv.spec_from().0,
        sq != mv.spec_to().0,
        mv.spec_flags() == MoveFlags::EnPassant ==> sq != rank_of(mv.spec_from().0 as int) * 8
            + file_of(mv.spec_to().0 as int),
        mv.spec_flags() == MoveFlags::CastleKing ==> sq != rank_of(mv.spec_from().0 as int) * 8 + 7
            && sq != rank_of(mv.spec_from().0 as int) * 8 + 5,
        mv.spec_flags() == MoveFlags::CastleQueen ==> sq != rank_of(mv.spec_from().0 as int) * 8
            && sq != rank_of(mv.spec_from().0 as int) * 8 + 3,
    ensures
        apply_board(m, mv)[sq] == m.board[sq],
{
    let from = mv.spec_from().0 as int;
    let to = mv.spec_to().0 as int;
    let f = mv.spec_flags();
    let piece = m.board[from].unwrap();
    let b1 = m.board.update(from, None);
    assert(b1[sq] == m.board[sq]);
    if is_castle_flag(f) {
        let rf = rook_from(from, f);
        let rt = rook_to(from, f);
        assert(rf != sq && rt != sq);
        let b3 = b1.update(to, Some(piece));
        assert(apply_board(m, mv) == b3.update(rf, None).update(rt, Some(b3[rf].unwrap())));
    } else {
        let b2 = if is_capture_flag(f) {
            b1.update(to, None)
        } else if f == MoveFlags::EnPassant {
            b1.update(ep_victim(from, to), None)
        } else {
            b1
        };
        if f == MoveFlags::EnPassant {
            assert(ep_victim(from, to) != sq);
        }
        assert(b2[sq] == m.board[sq]);
        let placed = match flag_promotion_of(f) {
            Some(kind) => Piece { color: m.side, kind },
            None => piece,
        };
        assert(apply_board(m, mv) == b2.update(to, Some(placed)));
    }
}

/// Castling rights after a move: a move from or to e1 ends both of White's
/// rights, from or to h1 its king-side right (bit 1), from or to a1 its
/// queen-side right (bit 2); likewise e8, h8 (bit 4) and a8 (bit 8) for
/// Black. A right whose squares the move does not touch is kept.
pub proof fn law_castling_rights(m: Model, mv: Move)
    ensures
        ({
            let from = mv.spec_from().0 as int;
            let to = mv.spec_to().0 as int;
            let c = apply_model(m, mv).castling;
            &&& (from == 4 || to == 4 || from == 7 || to == 7) ==> c & 1 == 0
            &&& (from == 4 || to == 4 || from == 0 || to == 0) ==> c & 2 == 0
            &&& (from == 60 || to == 60 || from == 63 || to == 63) ==> c & 4 == 0
            &&& (from == 60 || to == 60 || from == 56 || to == 56) ==> c & 8 == 0
            &&& !(from == 4 || to == 4 || from == 7 || to == 7) ==> c & 1 == m.castling & 1
            &&& !(from == 4 || to == 4 || from == 0 || to == 0) ==> c & 2 == m.castling & 2
            &&& !(from == 60 || to == 60 || from == 63 || to == 63) ==> c & 4 == m.castling & 4
            &&& !(from == 60 || to == 60 || from == 56 || to == 56) ==> c & 8 == m.castling & 8
        }),
{
    let from = mv.spec_from().0 as int;
    let to = mv.spec_to().0 as int;
    let a = touched(from);
    let b = touched(to);
    let x = m.castling;
    assert(a == 3 || a == 2 || a == 1 || a == 12 || a == 8 || a == 4 || a == 0);
    assert(b == 3 || b == 2 || b == 1 || b == 12 || b == 8 || b == 4 || b == 0);
    assert(a & 1 != 0 <==> (from == 4 || from == 7)) by {
        assert(3u8 & 1 != 0 && 2u8 & 1 == 0 && 1u8 & 1 != 0 && 12u8 & 1 == 0 && 8u8 & 1 == 0
            && 4u8 & 1 == 0 && 0u8 & 1 == 0) by (bit_vector);
    }
    assert(b & 1 != 0 <==> (to == 4 || to == 7)) by {
        assert(3u8 & 1 != 0 && 2u8 & 1 == 0 && 1u8 & 1 != 0 && 12u8 & 1 == 0 && 8u8 & 1 == 0
            && 4u8 & 1 == 0 && 0u8 & 1 == 0) by (bit_vector);
    }
    assert(a & 2 != 0 <==> (from == 4 || from == 0)) by {
        assert(3u8 & 2 != 0 && 2u8 & 2 != 0 && 1u8 & 2 == 0 && 12u8 & 2 == 0 && 8u8 & 2 == 0
            && 4u8 & 2 == 0 && 0u8 & 2 == 0) by (bit_vector);
    }
    assert(b & 2 != 0 <==> (to == 4 || to == 0)) by {
        assert(3u8 & 2 != 0 && 2u8 & 2 != 0 && 1u8 & 2 == 0 && 12u8 & 2 == 0 && 8u8 & 2 == 0
            && 4u8 & 2 == 0 && 0u8 & 2 == 0) by (bit_vector);
    }
    assert(a & 4 != 0 <==> (from == 60 || from == 63)) by {
        assert(3u8 & 4 == 0 && 2u8 & 4 == 0 && 1u8 & 4 == 0 && 12u8 & 4 != 0 && 8u8 & 4 == 0
            && 4u8 & 4 != 0 && 0u8 & 4 == 0) by (bit_vector);
    }
    assert(b & 4 != 0 <==> (to == 60 || to == 63)) by {
        assert(3u8 & 4 == 0 && 2u8 & 4 == 0 && 1u8 & 4 == 0 && 12u8 & 4 != 0 && 8u8 & 4 == 0
            && 4u8 & 4 != 0 && 0u8 & 4 == 0) by (bit_vector);
    }
    assert(a & 8 != 0 <==> (from == 60 || from == 56)) by {
        assert(3u8 & 8 == 0 && 2u8 & 8 == 0 && 1u8 & 8 == 0 && 12u8 & 8 != 0 && 8u8 & 8 != 0
            && 4u8 & 8 == 0 && 0u8 & 8 == 0) by (bit_vector);
    }
    assert(b & 8 != 0 <==> (to == 60 || to == 56)) by {
        assert(3u8 & 8 == 0 && 2u8 & 8 == 0 && 1u8 & 8 == 0 && 12u8 & 8 != 0 && 8u8 & 8 != 0
            && 4u8 & 8 == 0 && 0u8 & 8 == 0) by (bit_vector);
    }
    assert(((a | b) & 1 != 0 <==> (a & 1 != 0 || b & 1 != 0)) && ((a | b) & 2 != 0 <==> (a & 2
        != 0 || b & 2 != 0)) && ((a | b) & 4 != 0 <==> (a & 4 != 0 || b & 4 != 0)) && ((a | b)
        & 8 != 0 <==> (a & 8 != 0 || b & 8 != 0))) by (bit_vector);
    let t = a | b;
    assert((t & 1 != 0 ==> (x & !t) & 1 == 0) && (t & 1 == 0 ==> (x & !t) & 1 == x & 1)) by (bit_vector);
    assert((t & 2 != 0 ==> (x & !t) & 2 == 0) && (t & 2 == 0 ==> (x & !t) & 2 == x & 2)) by (bit_vector);
    assert((t & 4 != 0 ==> (x & !t) & 4 == 0) && (t & 4 == 0 ==> (x & !t) & 4 == x & 4)) by (bit_vector);
    assert((t & 8 != 0 ==> (x & !t) & 8 == 0) && (t & 8 == 0 ==> (x & !t) & 8 == x & 8)) by (bit_vector);
}

} // verus!
