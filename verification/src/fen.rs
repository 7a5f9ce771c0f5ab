//! Forsyth-Edwards Notation: parsing and formatting positions.

use vstd::prelude::*;
use vstd::string::*;
use crate::bitboard::{bit, count_below};
use crate::position::{model_hash, Model, Position};
use crate::text::{chars_of, decimal, push_char, split_words, words};
use crate::types::{parse_square_name, square_name, CastlingRights, Color, Piece, PieceKind, Square};

verus! {

/// Why a FEN string was refused.
#[derive(Clone, PartialEq, Eq, Debug)]
pub struct FenError(pub String);

impl FenError {
    /// The message shown to users: "invalid FEN: " and the reason.
    pub fn to_string(&self) -> (s: String)
        ensures
            s@ == "invalid FEN: "@ + self.0@,
    {
        let mut s = String::from_str("invalid FEN: ");
        s.append(self.0.as_str());
        s
    }
}

pub fn err(msg: &str) -> (e: FenError)
    ensures
        e.0@ == msg@,
{
    FenError(String::from_str(msg))
}

/// Value of a decimal digit character.
pub open spec fn digit_value(c: char) -> int {
    (c as int) - 48
}

pub open spec fn is_digit(c: char) -> bool {
    '0' <= c && c <= '9'
}

/// Reading the board field from index `i`, at the given rank and file, with
/// the pieces placed so far.
pub open spec fn board_go(b: Seq<char>, i: int, rank: int, file: int, board: Seq<Option<Piece>>) -> Option<
    Seq<Option<Piece>>,
>
    decreases b.len() - i,
{
    if i < 0 || i >= b.len() {
        if rank == 0 && file == 8 {
            Some(board)
        } else {
            None
        }
    } else {
        let c = b[i];
        if c == '/' {
            if file != 8 || rank - 1 < 0 {
                None
            } else {
                board_go(b, i + 1, rank - 1, 0, board)
            }
        } else if '1' <= c && c <= '8' {
            board_go(b, i + 1, rank, file + digit_value(c), board)
        } else {
            match Piece::spec_from_char(c) {
                None => None,
                Some(p) => if file > 7 {
                    None
                } else {
                    board_go(b, i + 1, rank, file + 1, board.update(rank * 8 + file, Some(p)))
                },
            }
        }
    }
}

pub open spec fn empty_board() -> Seq<Option<Piece>> {
    Seq::new(64, |i: int| None::<Piece>)
}

/// Why reading the board field from index `i` fails, at the given rank and
/// file: the message of the first fault met, or `None` when it succeeds.
pub open spec fn board_error(b: Seq<char>, i: int, rank: int, file: int) -> Option<Seq<char>>
    decreases b.len() - i,
{
    if i < 0 || i >= b.len() {
        if rank == 0 && file == 8 {
            None
        } else {
            Some("board field is not 8x8"@)
        }
    } else {
        let c = b[i];
        if c == '/' {
            if file != 8 {
                Some("rank "@ + decimal((rank + 1) as nat) + " has "@ + decimal(file as nat) + " files"@)
            } else if rank - 1 < 0 {
                Some("too many ranks"@)
            } else {
                board_error(b, i + 1, rank - 1, 0)
            }
        } else if '1' <= c && c <= '8' {
            board_error(b, i + 1, rank, file + digit_value(c))
        } else {
            match Piece::spec_from_char(c) {
                None => Some("bad piece '"@ + seq![c] + "'"@),
                Some(p) => if file > 7 {
                    Some("rank "@ + decimal((rank + 1) as nat) + " overflows"@)
                } else {
                    board_error(b, i + 1, rank, file + 1)
                },
            }
        }
    }
}

proof fn lemma_board_error(b: Seq<char>, i: int, rank: int, file: int, board: Seq<Option<Piece>>)
    ensures
        board_go(b, i, rank, file, board) is None <==> board_error(b, i, rank, file) is Some,
    decreases b.len() - i,
{
    if 0 <= i < b.len() {
        let c = b[i];
        if c == '/' {
            if file == 8 && rank - 1 >= 0 {
                lemma_board_error(b, i + 1, rank - 1, 0, board);
            }
        } else if '1' <= c && c <= '8' {
            lemma_board_error(b, i + 1, rank, file + digit_value(c), board);
        } else {
            match Piece::spec_from_char(c) {
                None => {},
                Some(p) => if file <= 7 {
                    lemma_board_error(b, i + 1, rank, file + 1, board.update(rank * 8 + file, Some(p)));
                },
            }
        }
    }
}

/// The first character of the castling field, from index `i`, that names
/// no right.
pub open spec fn castling_bad(c: Seq<char>, i: int) -> Option<char>
    decreases c.len() - i,
{
    if i < 0 || i >= c.len() {
        None
    } else if c[i] == 'K' || c[i] == 'Q' || c[i] == 'k' || c[i] == 'q' {
        castling_bad(c, i + 1)
    } else {
        Some(c[i])
    }
}

proof fn lemma_castling_bad(c: Seq<char>, i: int, bits: u8)
    ensures
        castling_go(c, i, bits) is None <==> castling_bad(c, i) is Some,
    decreases c.len() - i,
{
    if 0 <= i < c.len() {
        if c[i] == 'K' {
            lemma_castling_bad(c, i + 1, bits | 1);
        } else if c[i] == 'Q' {
            lemma_castling_bad(c, i + 1, bits | 2);
        } else if c[i] == 'k' {
            lemma_castling_bad(c, i + 1, bits | 4);
        } else if c[i] == 'q' {
            lemma_castling_bad(c, i + 1, bits | 8);
        }
    }
}

/// The castling field, read from index `i` with the rights gathered so far.
pub open spec fn castling_go(c: Seq<char>, i: int, bits: u8) -> Option<u8>
    decreases c.len() - i,
{
    if i < 0 || i >= c.len() {
        Some(bits)
    } else if c[i] == 'K' {
        castling_go(c, i + 1, bits | 1)
    } else if c[i] == 'Q' {
        castling_go(c, i + 1, bits | 2)
    } else if c[i] == 'k' {
        castling_go(c, i + 1, bits | 4)
    } else if c[i] == 'q' {
        castling_go(c, i + 1, bits | 8)
    } else {
        None
    }
}

pub open spec fn all_digits(d: Seq<char>) -> bool {
    forall|k: int| 0 <= k < d.len() ==> is_digit(#[trigger] d[k])
}

/// The number a string of decimal digits denotes.
pub open spec fn digits_value(d: Seq<char>) -> nat
    decreases d.len(),
{
    if d.len() == 0 {
        0
    } else {
        (digits_value(d.drop_last()) * 10 + digit_value(d.last())) as nat
    }
}

/// A `u16` as `str::parse` reads it: an optional `+`, then at least one
/// decimal digit, with a value that fits.
pub open spec fn parse_u16(s: Seq<char>) -> Option<u16> {
    let d = if s.len() > 0 && s[0] == '+' {
        s.drop_first()
    } else {
        s
    };
    if d.len() == 0 || !all_digits(d) || digits_value(d) > 65535 {
        None
    } else {
        Some(digits_value(d) as u16)
    }
}

/// Number of squares below `n` holding `p`.
pub open spec fn count_piece(board: Seq<Option<Piece>>, p: Piece, n: int) -> nat
    decreases n,
{
    if n <= 0 {
        0
    } else {
        count_piece(board, p, n - 1) + if board[n - 1] == Some(p) {
            1nat
        } else {
            0nat
        }
    }
}

/// The `k`-th field, or a default when there are fewer fields.
pub open spec fn field_or(w: Seq<Seq<char>>, k: int, default: Seq<char>) -> Seq<char> {
    if k < w.len() {
        w[k]
    } else {
        default
    }
}

/// The position a FEN string denotes, if it is valid. Missing trailing
/// fields default to `w - - 0 1`; extra fields are ignored.
pub open spec fn fen_model(s: Seq<char>) -> Option<Model> {
    let w = words(s);
    if w.len() == 0 {
        None
    } else {
        let side = field_or(w, 1, seq!['w']);
        let castling = field_or(w, 2, seq!['-']);
        let ep = field_or(w, 3, seq!['-']);
        let half = field_or(w, 4, seq!['0']);
        let full = field_or(w, 5, seq!['1']);
        let board = board_go(w[0], 0, 7, 0, empty_board());
        let bits = if castling == seq!['-'] {
            Some(0u8)
        } else {
            castling_go(castling, 0, 0)
        };
        if board is None || !(side == seq!['w'] || side == seq!['b']) || bits is None || (ep
            != seq!['-'] && parse_square_name(ep) is None) || parse_u16(half) is None || parse_u16(
            full,
        ) is None {
            None
        } else if count_piece(
            board.unwrap(),
            Piece { color: Color::White, kind: PieceKind::King },
            64,
        ) != 1 || count_piece(board.unwrap(), Piece { color: Color::Black, kind: PieceKind::King }, 64)
            != 1 {
            None
        } else {
            Some(
                Model {
                    board: board.unwrap(),
                    side: if side == seq!['w'] {
                        Color::White
                    } else {
                        Color::Black
                    },
                    castling: bits.unwrap(),
                    ep: if ep == seq!['-'] {
                        None
                    } else {
                        parse_square_name(ep)
                    },
                    halfmove: parse_u16(half).unwrap(),
                    fullmove: parse_u16(full).unwrap(),
                },
            )
        }
    }
}

/// The message of a refused FEN string: the first fault met, reading the
/// fields in order (board, side, castling, en passant, clocks, kings).
pub open spec fn fen_error(s: Seq<char>) -> Seq<char> {
    let w = words(s);
    if w.len() == 0 {
        "empty string"@
    } else {
        let side = field_or(w, 1, seq!['w']);
        let castling = field_or(w, 2, seq!['-']);
        let ep = field_or(w, 3, seq!['-']);
        if board_error(w[0], 0, 7, 0) is Some {
            board_error(w[0], 0, 7, 0).unwrap()
        } else if !(side == seq!['w'] || side == seq!['b']) {
            "bad side '"@ + side + "'"@
        } else if castling != seq!['-'] && castling_bad(castling, 0) is Some {
            "bad castling '"@ + seq![castling_bad(castling, 0).unwrap()] + "'"@
        } else if ep != seq!['-'] && parse_square_name(ep) is None {
            "bad ep '"@ + ep + "'"@
        } else if parse_u16(field_or(w, 4, seq!['0'])) is None {
            "bad halfmove clock"@
        } else if parse_u16(field_or(w, 5, seq!['1'])) is None {
            "bad fullmove number"@
        } else {
            "each side needs exactly one king"@
        }
    }
}

proof fn lemma_digits_grow(d: Seq<char>, k: int)
    requires
        0 <= k <= d.len(),
        all_digits(d),
    ensures
        digits_value(d.take(k)) <= digits_value(d),
    decreases d.len() - k,
{
    if k < d.len() {
        lemma_digits_grow(d, k + 1);
        assert(d.take(k + 1).drop_last() =~= d.take(k));
    } else {
        assert(d.take(k) =~= d);
    }
}

/// Reads a `u16` the way `str::parse::<u16>` does.
pub fn parse_u16_chars(s: &Vec<char>) -> (r: Option<u16>)
    ensures
        r == parse_u16(s@),
{
    let mut i: usize = 0;
    if s.len() > 0 && s[0] == '+' {
        i = 1;
    }
    let ghost d = if s@.len() > 0 && s@[0] == '+' {
        s@.drop_first()
    } else {
        s@
    };
    let start = i;
    if i >= s.len() {
        proof {
            assert(d.len() == 0);
        }
        return None;
    }
    proof {
        assert(s@.subrange(start as int, start as int) =~= Seq::<char>::empty());
        assert(d =~= s@.subrange(start as int, s@.len() as int));
    }
    let mut value: u32 = 0;
    while i < s.len()
        invariant
            start <= i <= s@.len(),
            start == 0 || start == 1,
            d == s@.subrange(start as int, s@.len() as int),
            d == (if s@.len() > 0 && s@[0] == '+' {
                s@.drop_first()
            } else {
                s@
            }),
            all_digits(s@.subrange(start as int, i as int)),
            value == digits_value(s@.subrange(start as int, i as int)),
            value <= 65535,
        decreases s@.len() - i,
    {
        let c = s[i];
        if !('0' <= c && c <= '9') {
            proof {
                assert(d[i - start] == c);
                assert(!is_digit(d[i - start]));
                assert(!all_digits(d));
                assert(d == (if s@.len() > 0 && s@[0] == '+' { s@.drop_first() } else { s@ }));
                assert(parse_u16(s@) is None);
            }
            return None;
        }
        let v: u32 = (c as u32) - 48;
        proof {
            assert(s@.subrange(start as int, i + 1).drop_last() =~= s@.subrange(start as int, i as int));
            assert(all_digits(s@.subrange(start as int, i + 1)));
        }
        value = value * 10 + v;
        i = i + 1;
        if value > 65535 {
            proof {
                assert(d.take(i - start) =~= s@.subrange(start as int, i as int));
                if all_digits(d) {
                    lemma_digits_grow(d, i - start);
                    assert(digits_value(d) > 65535);
                }
                assert(parse_u16(s@) is None);
            }
            return None;
        }
    }
    proof {
        assert(d =~= s@.subrange(start as int, i as int));
    }
    Some(value as u16)
}

/// The squares not yet reached while reading the board: lower ranks, and
/// the current rank from the current file on.
pub open spec fn squares_ahead_vacant(board: Seq<Option<Piece>>, rank: int, file: int) -> bool {
    forall|idx: int|
        0 <= idx < 64 && (idx / 8 < rank || (idx / 8 == rank && idx % 8 >= file)) ==> (
        #[trigger] board[idx]) is None
}

/// "rank R has F files" and friends, with numbers in decimal.
fn rank_message(prefix: &str, rank: i64, middle: &str, file: i64, suffix: &str) -> (e: FenError)
    requires
        rank >= 0,
    ensures
        file >= 0 ==> e.0@ == prefix@ + decimal(rank as nat) + middle@ + decimal(file as nat) + suffix@,
        file < 0 ==> e.0@ == prefix@ + decimal(rank as nat) + middle@ + suffix@,
{
    let mut s = String::from_str(prefix);
    if rank >= 0 {
        crate::text::push_decimal(&mut s, rank as u64);
    }
    s.append(middle);
    if file >= 0 {
        crate::text::push_decimal(&mut s, file as u64);
    }
    s.append(suffix);
    FenError(s)
}

fn char_message(prefix: &str, c: char, suffix: &str) -> (e: FenError)
    ensures
        e.0@ == prefix@ + seq![c] + suffix@,
{
    let mut s = String::from_str(prefix);
    push_char(&mut s, c);
    s.append(suffix);
    FenError(s)
}

/// Places the pieces of the board field on an empty position.
#[verifier::rlimit(60)]
fn parse_board(b: &Vec<char>, pos: &mut Position) -> (r: Result<(), FenError>)
    requires
        old(pos).bb_wf(),
        old(pos)@.board == empty_board(),
        old(pos).hash == 0,
        b@.len() < 0x0100_0000_0000_0000,
    ensures
        r is Ok <==> board_go(b@, 0, 7, 0, empty_board()) is Some,
        r matches Err(e) ==> board_error(b@, 0, 7, 0) == Some(e.0@),
        r is Ok ==> {
            &&& final(pos).bb_wf()
            &&& final(pos)@ == (Model { board: board_go(b@, 0, 7, 0, empty_board()).unwrap(), ..old(pos)@ })
            &&& final(pos).hash == crate::position::pieces_hash(final(pos)@.board, 64)
        },
{
    let ghost target = board_go(b@, 0, 7, 0, empty_board());
    let ghost m0 = pos@;
    let mut rank: i64 = 7;
    let mut file: i64 = 0;
    let mut i: usize = 0;
    proof {
        assert(crate::position::pieces_hash(empty_board(), 64) == 0) by {
            crate::position::lemma_pieces_hash_empty(64);
        }
    }
    while i < b.len()
        invariant
            0 <= rank <= 7,
            0 <= file <= 8 * i + 8,
            i <= b@.len(),
            b@.len() < 0x0100_0000_0000_0000,
            pos.bb_wf(),
            pos@.board.len() == 64,
            pos@ == (Model { board: pos@.board, ..m0 }),
            pos.hash == crate::position::pieces_hash(pos@.board, 64),
            squares_ahead_vacant(pos@.board, rank as int, file as int),
            board_go(b@, i as int, rank as int, file as int, pos@.board) == target,
            target == board_go(b@, 0, 7, 0, empty_board()),
            board_error(b@, i as int, rank as int, file as int) == board_error(b@, 0, 7, 0),
        decreases b@.len() - i,
    {
        let c = b[i];
        if c == '/' {
            if file != 8 {
                proof {
                    assert(b@[i as int] == '/');
                    assert(board_go(b@, i as int, rank as int, file as int, pos@.board) is None);
                }
                return Err(rank_message("rank ", rank + 1, " has ", file, " files"));
            }
            rank = rank - 1;
            file = 0;
            if rank < 0 {
                return Err(err("too many ranks"));
            }
        } else if '1' <= c && c <= '8' {
            file = file + ((c as u32) - 48) as i64;
        } else {
            let piece = match Piece::from_char(c) {
                Some(p) => p,
                None => {
                    proof {
                        assert(b@[i as int] == c);
                        assert(board_go(b@, i as int, rank as int, file as int, pos@.board) is None);
                    }
                    return Err(char_message("bad piece '", c, "'"));
                },
            };
            if file > 7 {
                let e = rank_message("rank ", rank + 1, " overflows", -1, "");
                proof {
                    reveal_strlit("");
                    assert(e.0@ =~= "rank "@ + decimal((rank + 1) as nat) + " overflows"@);
                }
                return Err(e);
            }
            let sq = Square::new(file as u8, rank as u8);
            let ghost before = *pos;
            proof {
                assert(pos@.board[sq.0 as int] is None);
                pos.lemma_wf_facts();
            }
            pos.put(sq, piece);
            proof {
                crate::position::lemma_pieces_hash_update(before@.board, sq.0 as int, Some(piece), 64);
                crate::zobrist::lemma_xor(crate::position::pieces_hash(before@.board, 64), 0, 0);
                assert forall|idx: int|
                    0 <= idx < 64 && (idx / 8 < rank || (idx / 8 == rank && idx % 8 >= file + 1))
                    implies (#[trigger] pos@.board[idx]) is None by {
                    assert(idx != sq.0);
                    assert(before@.board[idx] is None);
                }
            }
            file = file + 1;
        }
        i = i + 1;
    }
    if rank != 0 || file != 8 {
        return Err(err("board field is not 8x8"));
    }
    Ok(())
}


fn parse_castling(c: &Vec<char>) -> (r: Result<u8, FenError>)
    ensures
        match r {
            Ok(x) => castling_go(c@, 0, 0) == Some(x),
            Err(e) => castling_go(c@, 0, 0) is None && castling_bad(c@, 0) is Some && e.0@
                == "bad castling '"@ + seq![castling_bad(c@, 0).unwrap()] + "'"@,
        },
{
    let mut bits: u8 = 0;
    let mut i: usize = 0;
    while i < c.len()
        invariant
            i <= c@.len(),
            castling_go(c@, i as int, bits) == castling_go(c@, 0, 0),
            castling_bad(c@, i as int) == castling_bad(c@, 0),
        decreases c@.len() - i,
    {
        let ch = c[i];
        let right: u8 = if ch == 'K' {
            CastlingRights::WHITE_KING
        } else if ch == 'Q' {
            CastlingRights::WHITE_QUEEN
        } else if ch == 'k' {
            CastlingRights::BLACK_KING
        } else if ch == 'q' {
            CastlingRights::BLACK_QUEEN
        } else {
            return Err(char_message("bad castling '", ch, "'"));
        };
        bits = bits | right;
        i = i + 1;
    }
    Ok(bits)
}

proof fn lemma_count_piece(x: u64, board: Seq<Option<Piece>>, p: Piece, n: int)
    requires
        0 <= n <= 64,
        forall|i: int| 0 <= i < 64 ==> bit(x, i) == (board[i] == Some(p)),
    ensures
        count_below(x, n) == count_piece(board, p, n),
    decreases n,
{
    if n > 0 {
        lemma_count_piece(x, board, p, n - 1);
    }
}

/// The characters of a single-character field.
fn is_single(f: &Vec<char>, c: char) -> (b: bool)
    ensures
        b == (f@ == seq![c]),
{
    let b = f.len() == 1 && f[0] == c;
    proof {
        if f@.len() == 1 && f@[0] == c {
            assert(f@ =~= seq![c]);
        }
    }
    b
}

/// Parses a FEN string. Missing trailing fields default to `w - - 0 1`.
#[verifier::rlimit(60)]
pub fn parse(fen: &str) -> (r: Result<Position, FenError>)
    requires
        fen@.len() < 0x0100_0000_0000_0000,
    ensures
        match r {
            Ok(pos) => fen_model(fen@) == Some(pos@) && pos.wf(),
            Err(e) => fen_model(fen@) is None && e.0@ == fen_error(fen@),
        },
{
    let chars = chars_of(fen);
    let fields = split_words(&chars);
    let ghost w = words(fen@);
    if fields.len() == 0 {
        return Err(err("empty string"));
    }
    let board = &fields[0];
    let default_side = vec!['w'];
    let default_castling = vec!['-'];
    let default_ep = vec!['-'];
    let default_half = vec!['0'];
    let default_full = vec!['1'];
    let side = if fields.len() > 1 { &fields[1] } else { &default_side };
    let castling = if fields.len() > 2 { &fields[2] } else { &default_castling };
    let en_passant = if fields.len() > 3 { &fields[3] } else { &default_ep };
    let halfmove = if fields.len() > 4 { &fields[4] } else { &default_half };
    let fullmove = if fields.len() > 5 { &fields[5] } else { &default_full };
    proof {
        assert(default_side@ =~= seq!['w']);
        assert(default_castling@ =~= seq!['-']);
        assert(default_ep@ =~= seq!['-']);
        assert(default_half@ =~= seq!['0']);
        assert(default_full@ =~= seq!['1']);
        assert(side@ == field_or(w, 1, seq!['w']));
        assert(castling@ == field_or(w, 2, seq!['-']));
        assert(en_passant@ == field_or(w, 3, seq!['-']));
        assert(halfmove@ == field_or(w, 4, seq!['0']));
        assert(fullmove@ == field_or(w, 5, seq!['1']));
        assert(board@ == w[0]);
        assert(board@.len() <= fen@.len()) by {
            crate::text::lemma_words_short(fen@);
        }
    }
    let mut pos = Position::empty();
    match parse_board(board, &mut pos) {
        Ok(()) => {},
        Err(e) => return Err(e),
    }
    proof {
        lemma_board_error(board@, 0, 7, 0, empty_board());
        lemma_castling_bad(castling@, 0, 0);
    }
    pos.side_to_move = if is_single(side, 'w') {
        Color::White
    } else if is_single(side, 'b') {
        Color::Black
    } else {
        let mut s = String::from_str("bad side '");
        s.append(crate::text::string_of(side).as_str());
        s.append("'");
        return Err(FenError(s));
    };
    if !is_single(castling, '-') {
        match parse_castling(castling) {
            Ok(bits) => {
                proof {
                    lemma_castling_small(castling@, 0, 0);
                }
                pos.castling = CastlingRights(bits);
            },
            Err(e) => return Err(e),
        }
    }
    if !is_single(en_passant, '-') {
        let name = crate::text::string_of(en_passant);
        match Square::from_name(name.as_str()) {
            Some(sq) => {
                pos.en_passant = Some(sq);
            },
            None => {
                let mut s = String::from_str("bad ep '");
                s.append(name.as_str());
                s.append("'");
                return Err(FenError(s));
            },
        }
    }
    match parse_u16_chars(halfmove) {
        Some(v) => {
            pos.halfmove_clock = v;
        },
        None => return Err(err("bad halfmove clock")),
    }
    match parse_u16_chars(fullmove) {
        Some(v) => {
            pos.fullmove_number = v;
        },
        None => return Err(err("bad fullmove number")),
    }
    let white_kings = pos.pieces(Color::White, PieceKind::King);
    let black_kings = pos.pieces(Color::Black, PieceKind::King);
    proof {
        assert forall|i: int| 0 <= i < 64 implies bit(white_kings.0, i) == (pos@.board[i] == Some(Piece { color: Color::White, kind: PieceKind::King })) by {
            assert(white_kings.has(i) == (0 <= i < 64 && pos@.board[i] == Some(Piece { color: Color::White, kind: PieceKind::King })));
        }
        assert forall|i: int| 0 <= i < 64 implies bit(black_kings.0, i) == (pos@.board[i] == Some(Piece { color: Color::Black, kind: PieceKind::King })) by {
            assert(black_kings.has(i) == (0 <= i < 64 && pos@.board[i] == Some(Piece { color: Color::Black, kind: PieceKind::King })));
        }
        lemma_count_piece(white_kings.0, pos@.board, Piece { color: Color::White, kind: PieceKind::King }, 64);
        lemma_count_piece(black_kings.0, pos@.board, Piece { color: Color::Black, kind: PieceKind::King }, 64);
        lemma_castling_small(castling@, 0, 0);
    }
    if white_kings.count() != 1 || black_kings.count() != 1 {
        return Err(err("each side needs exactly one king"));
    }
    pos.finish_hash();
    proof {
        assert(fen_model(fen@) == Some(pos@));
    }
    Ok(pos)
}

proof fn lemma_castling_small(c: Seq<char>, i: int, bits: u8)
    requires
        bits < 16,
    ensures
        castling_go(c, i, bits) matches Some(x) ==> x < 16,
    decreases c.len() - i,
{
    if 0 <= i < c.len() {
        assert(bits | 1 < 16 && bits | 2 < 16 && bits | 4 < 16 && bits | 8 < 16) by (bit_vector)
            requires
                bits < 16,
        ;
        lemma_castling_small(c, i + 1, bits | 1);
        lemma_castling_small(c, i + 1, bits | 2);
        lemma_castling_small(c, i + 1, bits | 4);
        lemma_castling_small(c, i + 1, bits | 8);
    }
}

/// A rank's field text from file `f` on, with `empty` vacant squares pending.
pub open spec fn rank_text(board: Seq<Option<Piece>>, r: int, f: int, empty: nat) -> Seq<char>
    decreases 8 - f,
{
    let pending = if empty > 0 {
        seq![crate::text::digit_char(empty)]
    } else {
        Seq::empty()
    };
    if f >= 8 {
        pending
    } else {
        match board[r * 8 + f] {
            Some(p) => pending + seq![p.letter()] + rank_text(board, r, f + 1, 0),
            None => rank_text(board, r, f + 1, empty + 1),
        }
    }
}

/// The board field from rank `r` down to rank 1.
pub open spec fn board_text(board: Seq<Option<Piece>>, r: int) -> Seq<char>
    decreases r + 1,
{
    if r < 0 {
        Seq::empty()
    } else {
        rank_text(board, r, 0, 0) + (if r > 0 {
            seq!['/']
        } else {
            Seq::empty()
        }) + board_text(board, r - 1)
    }
}

pub open spec fn castling_text(c: u8) -> Seq<char> {
    if c == 0 {
        seq!['-']
    } else {
        (if c & 1 != 0 {
            seq!['K']
        } else {
            Seq::empty()
        }) + (if c & 2 != 0 {
            seq!['Q']
        } else {
            Seq::empty()
        }) + (if c & 4 != 0 {
            seq!['k']
        } else {
            Seq::empty()
        }) + (if c & 8 != 0 {
            seq!['q']
        } else {
            Seq::empty()
        })
    }
}

/// The FEN text of a position.
pub open spec fn fen_text(m: Model) -> Seq<char> {
    board_text(m.board, 7) + seq![' ', if m.side == Color::White {
        'w'
    } else {
        'b'
    }, ' '] + castling_text(m.castling) + seq![' '] + match m.ep {
        Some(e) => square_name(e.0 as int),
        None => seq!['-'],
    } + seq![' '] + crate::text::decimal(m.halfmove as nat) + seq![' '] + crate::text::decimal(
        m.fullmove as nat,
    )
}

/// Appends the text of rank `rank`.
fn push_rank(out: &mut String, pos: &Position, rank: u8)
    requires
        rank < 8,
        pos@.board.len() == 64,
    ensures
        final(out)@ == old(out)@ + rank_text(pos@.board, rank as int, 0, 0),
{
    let mut empty: u8 = 0;
    let mut file: u8 = 0;
    while file < 8
        invariant
            rank < 8,
            file <= 8,
            empty <= file,
            pos@.board.len() == 64,
            old(out)@ + rank_text(pos@.board, rank as int, 0, 0) == out@ + rank_text(
                pos@.board,
                rank as int,
                file as int,
                empty as nat,
            ),
        decreases 8 - file,
    {
        let ghost before = out@;
        let ghost e0 = empty;
        match pos.piece_at(Square::new(file, rank)) {
            Some(piece) => {
                if empty > 0 {
                    push_char(out, (48 + empty) as char);
                    empty = 0;
                }
                push_char(out, piece.to_char());
                proof {
                    assert(out@ + rank_text(pos@.board, rank as int, file + 1, 0) =~= before
                        + rank_text(pos@.board, rank as int, file as int, e0 as nat));
                }
            },
            None => {
                empty = empty + 1;
            },
        }
        file = file + 1;
    }
    if empty > 0 {
        push_char(out, (48 + empty) as char);
    }
    proof {
        assert(old(out)@ + rank_text(pos@.board, rank as int, 0, 0) =~= out@);
    }
}

fn push_castling(out: &mut String, c: u8)
    ensures
        final(out)@ == old(out)@ + castling_text(c),
{
    if c == 0 {
        push_char(out, '-');
    } else {
        let rights = CastlingRights(c);
        if rights.has(CastlingRights::WHITE_KING) {
            push_char(out, 'K');
        }
        if rights.has(CastlingRights::WHITE_QUEEN) {
            push_char(out, 'Q');
        }
        if rights.has(CastlingRights::BLACK_KING) {
            push_char(out, 'k');
        }
        if rights.has(CastlingRights::BLACK_QUEEN) {
            push_char(out, 'q');
        }
    }
    proof {
        assert(final(out)@ =~= old(out)@ + castling_text(c));
    }
}

fn push_ep(out: &mut String, ep: Option<Square>)
    requires
        ep matches Some(e) ==> e.wf(),
    ensures
        final(out)@ == old(out)@ + match ep {
            Some(e) => square_name(e.0 as int),
            None => seq!['-'],
        },
{
    match ep {
        Some(sq) => {
            let name = sq.to_string();
            out.append(name.as_str());
        },
        None => push_char(out, '-'),
    }
}

/// Formats a position as FEN.
#[verifier::rlimit(40)]
pub fn format(pos: &Position) -> (s: String)
    requires
        pos.bb_wf(),
    ensures
        s@ == fen_text(pos@),
{
    let mut out = String::new();
    let mut rank: u8 = 8;
    proof {
        pos.lemma_wf_facts();
    }
    while rank > 0
        invariant
            rank <= 8,
            pos@.board.len() == 64,
            out@ + board_text(pos@.board, rank - 1) == board_text(pos@.board, 7),
        decreases rank,
    {
        rank = rank - 1;
        let ghost before = out@;
        push_rank(&mut out, pos, rank);
        if rank > 0 {
            push_char(&mut out, '/');
        }
        proof {
            assert(out@ + board_text(pos@.board, rank - 1) =~= before + board_text(pos@.board, rank as int));
        }
    }
    proof {
        assert(out@ =~= board_text(pos@.board, 7));
    }
    let ghost b = out@;
    push_char(&mut out, ' ');
    push_char(&mut out, if pos.side_to_move == Color::White { 'w' } else { 'b' });
    push_char(&mut out, ' ');
    push_castling(&mut out, pos.castling.0);
    push_char(&mut out, ' ');
    push_ep(&mut out, pos.en_passant);
    push_char(&mut out, ' ');
    crate::text::push_decimal(&mut out, pos.halfmove_clock as u64);
    push_char(&mut out, ' ');
    crate::text::push_decimal(&mut out, pos.fullmove_number as u64);
    proof {
        assert(out@ =~= fen_text(pos@));
    }
    out
}

} // verus!
