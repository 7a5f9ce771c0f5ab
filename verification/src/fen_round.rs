//! Reading back what formatting wrote: FEN text read again gives the
//! position it was written from.

use vstd::prelude::*;
use crate::fen::{
    all_digits, board_go, board_text, castling_go, castling_text, digit_value, digits_value,
    empty_board, fen_model, fen_text, is_digit, parse_u16, rank_text, count_piece,
};
use crate::position::Model;
use crate::types::{parse_square_name, square_name, Color, Piece, PieceKind, Square};

verus! {

/// A piece's letter reads back as the piece.
proof fn lemma_letter_round(p: Piece)
    ensures
        Piece::spec_from_char(p.letter()) == Some(p),
        !('1' <= p.letter() && p.letter() <= '8'),
        p.letter() != '/',
        !crate::text::is_ws(p.letter()),
{
}

/// The digits of a number read back as the number.
proof fn lemma_decimal_round(n: nat)
    ensures
        crate::text::decimal(n).len() >= 1,
        all_digits(crate::text::decimal(n)),
        digits_value(crate::text::decimal(n)) == n,
        crate::text::decimal(n)[0] != '+',
        forall|k: int|
            0 <= k < crate::text::decimal(n).len() ==> !crate::text::is_ws(
                #[trigger] crate::text::decimal(n)[k],
            ),
    decreases n,
{
    let d = crate::text::decimal(n);
    let last = crate::text::digit_char(n % 10);
    assert(last as int == n % 10 + 48);
    assert(digit_value(last) == n % 10);
    if n >= 10 {
        lemma_decimal_round(n / 10);
        assert(d == crate::text::decimal(n / 10).push(last));
        assert(d.drop_last() =~= crate::text::decimal(n / 10));
        assert(d.last() == last);
        assert(digits_value(d) == digits_value(crate::text::decimal(n / 10)) * 10 + n % 10);
        assert((n / 10) * 10 + n % 10 == n);
        assert forall|k: int| 0 <= k < d.len() implies is_digit(#[trigger] d[k]) by {
            if k < d.len() - 1 {
                assert(d[k] == crate::text::decimal(n / 10)[k]);
            }
        }
    } else {
        assert(d == seq![last]);
        assert(d.drop_last() =~= Seq::<char>::empty());
        assert(digits_value(d.drop_last()) == 0);
        assert(digits_value(d) == digits_value(d.drop_last()) * 10 + digit_value(d.last()));
    }
}

proof fn lemma_parse_decimal(n: u16)
    ensures
        parse_u16(crate::text::decimal(n as nat)) == Some(n),
{
    lemma_decimal_round(n as nat);
}

/// The rights gathered after reading the letter of `bit`, if `c` has it.
pub open spec fn add_right(c: u8, bit: u8, bits: u8) -> u8 {
    if c & bit != 0 {
        bits | bit
    } else {
        bits
    }
}

proof fn lemma_castling_bits(c: u8)
    by (bit_vector)
    requires
        c < 16,
    ensures
        add_right(c, 8, add_right(c, 4, add_right(c, 2, add_right(c, 1, 0)))) == c,
        c != 0 ==> (c & 1 != 0 || c & 2 != 0 || c & 4 != 0 || c & 8 != 0),
{
}

proof fn lemma_castling_shift(t: Seq<char>, i: int, bits: u8)
    requires
        0 <= i <= t.len(),
    ensures
        castling_go(t, i, bits) == castling_go(t.subrange(i, t.len() as int), 0, bits),
    decreases t.len() - i,
{
    let u = t.subrange(i, t.len() as int);
    if i < t.len() {
        assert(u[0] == t[i]);
        assert(u.subrange(1, u.len() as int) =~= t.subrange(i + 1, t.len() as int));
        if t[i] == 'K' {
            lemma_castling_shift(t, i + 1, bits | 1);
            lemma_castling_shift(u, 1, bits | 1);
        } else if t[i] == 'Q' {
            lemma_castling_shift(t, i + 1, bits | 2);
            lemma_castling_shift(u, 1, bits | 2);
        } else if t[i] == 'k' {
            lemma_castling_shift(t, i + 1, bits | 4);
            lemma_castling_shift(u, 1, bits | 4);
        } else if t[i] == 'q' {
            lemma_castling_shift(t, i + 1, bits | 8);
            lemma_castling_shift(u, 1, bits | 8);
        }
    }
}

/// Reading the optional letter of one right, then the rest.
proof fn lemma_castling_seg(c: u8, bit: u8, ch: char, rest: Seq<char>, bits: u8)
    requires
        (bit == 1 && ch == 'K') || (bit == 2 && ch == 'Q') || (bit == 4 && ch == 'k') || (bit == 8
            && ch == 'q'),
    ensures
        castling_go(
            (if c & bit != 0 {
                seq![ch]
            } else {
                Seq::empty()
            }) + rest,
            0,
            bits,
        ) == castling_go(rest, 0, add_right(c, bit, bits)),
{
    if c & bit != 0 {
        let t = seq![ch] + rest;
        lemma_castling_shift(t, 1, add_right(c, bit, bits));
        assert(t.subrange(1, t.len() as int) =~= rest);
    } else {
        assert(Seq::<char>::empty() + rest =~= rest);
    }
}

/// The rights written as letters read back as the rights.
proof fn lemma_castling_round(c: u8)
    requires
        c < 16,
    ensures
        castling_text(c).len() >= 1,
        no_ws(castling_text(c)),
        (if castling_text(c) == seq!['-'] {
            Some(0u8)
        } else {
            castling_go(castling_text(c), 0, 0)
        }) == Some(c),
{
    lemma_castling_bits(c);
    if c != 0 {
        let sk = if c & 1 != 0 {
            seq!['K']
        } else {
            Seq::<char>::empty()
        };
        let sq = if c & 2 != 0 {
            seq!['Q']
        } else {
            Seq::<char>::empty()
        };
        let bk = if c & 4 != 0 {
            seq!['k']
        } else {
            Seq::<char>::empty()
        };
        let bq = if c & 8 != 0 {
            seq!['q']
        } else {
            Seq::<char>::empty()
        };
        let t = castling_text(c);
        assert(t =~= sk + (sq + (bk + (bq + Seq::<char>::empty()))));
        lemma_castling_seg(c, 1, 'K', sq + (bk + (bq + Seq::<char>::empty())), 0);
        lemma_castling_seg(c, 2, 'Q', bk + (bq + Seq::<char>::empty()), add_right(c, 1, 0));
        lemma_castling_seg(c, 4, 'k', bq + Seq::<char>::empty(), add_right(c, 2, add_right(c, 1, 0)));
        lemma_castling_seg(
            c,
            8,
            'q',
            Seq::<char>::empty(),
            add_right(c, 4, add_right(c, 2, add_right(c, 1, 0))),
        );
        assert(t[0] != '-');
    }
}

/// A text found at `i` in `b`: its characters and stretches are `b`'s.
proof fn lemma_found(b: Seq<char>, i: int, t: Seq<char>)
    requires
        0 <= i,
        i + t.len() <= b.len(),
        b.subrange(i, i + t.len()) == t,
    ensures
        forall|k: int| 0 <= k < t.len() ==> b[i + k] == #[trigger] t[k],
        forall|a: int, c: int|
            0 <= a <= c <= t.len() ==> #[trigger] b.subrange(i + a, i + c) == t.subrange(a, c),
{
    assert forall|k: int| 0 <= k < t.len() implies b[i + k] == #[trigger] t[k] by {
        assert(b.subrange(i, i + t.len())[k] == b[i + k]);
    }
    assert forall|a: int, c: int| 0 <= a <= c <= t.len() implies #[trigger] b.subrange(i + a, i + c)
        == t.subrange(a, c) by {
        assert(b.subrange(i + a, i + c) =~= t.subrange(a, c));
    }
}

pub open spec fn no_ws(w: Seq<char>) -> bool {
    forall|k: int| 0 <= k < w.len() ==> !crate::text::is_ws(#[trigger] w[k])
}

/// Splitting reads a word without whitespace as part of the current one.
proof fn lemma_split_word(s: Seq<char>, i: int, w: Seq<char>, cur: Seq<char>, acc: Seq<Seq<char>>)
    requires
        0 <= i,
        i + w.len() <= s.len(),
        s.subrange(i, i + w.len()) == w,
        no_ws(w),
    ensures
        crate::text::split_go(s, i, cur, acc) == crate::text::split_go(s, i + w.len(), cur + w, acc),
    decreases w.len(),
{
    if w.len() > 0 {
        assert(s[i] == w[0]);
        assert(s.subrange(i + 1, i + w.len()) =~= w.drop_first());
        lemma_split_word(s, i + 1, w.drop_first(), cur.push(w[0]), acc);
        assert(cur.push(w[0]) + w.drop_first() =~= cur + w);
    } else {
        assert(cur + w =~= cur);
    }
}

/// A word followed by a space is split off as one field.
proof fn lemma_split_field(s: Seq<char>, i: int, w: Seq<char>, acc: Seq<Seq<char>>)
    requires
        0 <= i,
        i + w.len() < s.len(),
        s.subrange(i, i + w.len()) == w,
        no_ws(w),
        w.len() > 0,
        s[i + w.len()] == ' ',
    ensures
        crate::text::split_go(s, i, Seq::empty(), acc) == crate::text::split_go(
            s,
            i + w.len() + 1,
            Seq::empty(),
            acc.push(w),
        ),
{
    lemma_split_word(s, i, w, Seq::empty(), acc);
    assert(Seq::<char>::empty() + w =~= w);
}

/// The last word runs to the end.
proof fn lemma_split_last(s: Seq<char>, i: int, w: Seq<char>, acc: Seq<Seq<char>>)
    requires
        0 <= i,
        i + w.len() == s.len(),
        s.subrange(i, i + w.len()) == w,
        no_ws(w),
        w.len() > 0,
    ensures
        crate::text::split_go(s, i, Seq::empty(), acc) == acc.push(w),
{
    lemma_split_word(s, i, w, Seq::empty(), acc);
    assert(Seq::<char>::empty() + w =~= w);
}

/// The board restricted to the squares read so far: ranks above `r`, and
/// rank `r` left of file `f`.
pub open spec fn read_so_far(board: Seq<Option<Piece>>, r: int, f: int) -> Seq<Option<Piece>> {
    Seq::new(
        64,
        |j: int|
            if j / 8 > r || (j / 8 == r && j % 8 < f) {
                board[j]
            } else {
                None
            },
    )
}

proof fn lemma_digit_round(e: nat)
    requires
        1 <= e <= 8,
    ensures
        '1' <= crate::text::digit_char(e) && crate::text::digit_char(e) <= '8',
        digit_value(crate::text::digit_char(e)) == e,
        !crate::text::is_ws(crate::text::digit_char(e)),
{
}

/// The square on rank `r`, file `f`.
pub open spec fn on_rank(board: Seq<Option<Piece>>, r: int, f: int) -> Option<Piece> {
    board[r * 8 + f]
}

/// Reading a rank's text from file `f - e`, with `e` vacant squares
/// pending, places that rank's pieces and ends at file 8.
proof fn lemma_rank_round(
    b: Seq<char>,
    i: int,
    board: Seq<Option<Piece>>,
    r: int,
    f: int,
    e: nat,
)
    requires
        board.len() == 64,
        0 <= r < 8,
        0 <= e <= f <= 8,
        0 <= i,
        i + rank_text(board, r, f, e).len() <= b.len(),
        b.subrange(i, i + rank_text(board, r, f, e).len()) == rank_text(board, r, f, e),
        forall|ff: int| f - e <= ff < f ==> #[trigger] on_rank(board, r, ff) is None,
    ensures
        board_go(b, i, r, f - e, read_so_far(board, r, f)) == board_go(
            b,
            i + rank_text(board, r, f, e).len(),
            r,
            8,
            read_so_far(board, r, 8),
        ),
        no_ws(rank_text(board, r, f, e)),
    decreases 8 - f,
{
    let t = rank_text(board, r, f, e);
    lemma_found(b, i, t);
    if e > 0 {
        lemma_digit_round(e);
    }
    if f >= 8 {
        assert(read_so_far(board, r, f) =~= read_so_far(board, r, 8));
        if e > 0 {
            assert(t[0] == crate::text::digit_char(e));
            assert(b[i] == crate::text::digit_char(e));
            assert(board_go(b, i, r, f - e, read_so_far(board, r, f)) == board_go(
                b,
                i + 1,
                r,
                f,
                read_so_far(board, r, f),
            ));
        }
    } else {
        match board[r * 8 + f] {
            Some(p) => {
                lemma_letter_round(p);
                let pend = if e > 0 {
                    1int
                } else {
                    0int
                };
                let rest = rank_text(board, r, f + 1, 0);
                let pending = if e > 0 {
                    seq![crate::text::digit_char(e)]
                } else {
                    Seq::<char>::empty()
                };
                assert(t == pending + seq![p.letter()] + rest);
                if e > 0 {
                    assert(t[0] == crate::text::digit_char(e));
                    assert(b[i] == crate::text::digit_char(e));
                }
                assert(t[pend] == p.letter());
                assert(b[i + pend] == p.letter());
                assert(t.subrange(pend + 1, t.len() as int) =~= rest);
                assert(b.subrange(i + pend + 1, i + t.len()) == rest);
                if e > 0 {
                    assert(board_go(b, i, r, f - e, read_so_far(board, r, f)) == board_go(
                        b,
                        i + 1,
                        r,
                        f,
                        read_so_far(board, r, f),
                    ));
                }
                assert(board_go(b, i + pend, r, f, read_so_far(board, r, f)) == board_go(
                    b,
                    i + pend + 1,
                    r,
                    f + 1,
                    read_so_far(board, r, f).update(r * 8 + f, Some(p)),
                ));
                lemma_rank_round(b, i + pend + 1, board, r, f + 1, 0);
                assert(read_so_far(board, r, f).update(r * 8 + f, Some(p)) =~= read_so_far(
                    board,
                    r,
                    f + 1,
                ));
                assert(no_ws(t));
            },
            None => {
                assert(on_rank(board, r, f) is None);
                lemma_rank_round(b, i, board, r, f + 1, e + 1);
                assert(read_so_far(board, r, f) =~= read_so_far(board, r, f + 1));
            },
        }
    }
}

/// Reading the board text from rank `r` down, with the ranks above placed,
/// gives the whole board.
proof fn lemma_board_round(b: Seq<char>, i: int, board: Seq<Option<Piece>>, r: int)
    requires
        board.len() == 64,
        0 <= r < 8,
        0 <= i,
        i + board_text(board, r).len() == b.len(),
        b.subrange(i, b.len() as int) == board_text(board, r),
    ensures
        board_go(b, i, r, 0, read_so_far(board, r, 0)) == Some(board),
        no_ws(board_text(board, r)),
    decreases r,
{
    let rt = rank_text(board, r, 0, 0);
    let bt = board_text(board, r);
    lemma_found(b, i, bt);
    assert(bt.subrange(0, rt.len() as int) =~= rt);
    assert(b.subrange(i, i + rt.len()) == rt);
    lemma_rank_round(b, i, board, r, 0, 0);
    if r > 0 {
        assert(bt[rt.len() as int] == '/');
        assert(b[i + rt.len()] == '/');
        assert(bt.subrange(rt.len() as int + 1, bt.len() as int) =~= board_text(board, r - 1));
        assert(b.subrange(i + rt.len() + 1, b.len() as int) == board_text(board, r - 1));
        lemma_board_round(b, i + rt.len() + 1, board, r - 1);
        assert(read_so_far(board, r, 8) =~= read_so_far(board, r - 1, 0));
    } else {
        assert(read_so_far(board, 0, 8) =~= board);
    }
}

proof fn lemma_square_name_round(i: int)
    requires
        0 <= i < 64,
    ensures
        parse_square_name(square_name(i)) == Some(Square(i as u8)),
        square_name(i).len() == 2,
        square_name(i) != seq!['-'],
        no_ws(square_name(i)),
{
    assert(i == (i / 8) * 8 + i % 8);
}

/// Writing a position as FEN and reading the text back gives the position,
/// for every position the reader accepts: a full board with one king a
/// side, castling rights among the four, and an en-passant square on the
/// board.
#[verifier::rlimit(50)]
pub proof fn law_fen_round_trip(m: Model)
    requires
        m.board.len() == 64,
        count_piece(m.board, Piece { color: Color::White, kind: PieceKind::King }, 64) == 1,
        count_piece(m.board, Piece { color: Color::Black, kind: PieceKind::King }, 64) == 1,
        m.castling < 16,
        m.ep matches Some(e) ==> e.wf(),
    ensures
        fen_model(fen_text(m)) == Some(m),
{
    let t0 = board_text(m.board, 7);
    let t1 = seq![if m.side == Color::White { 'w' } else { 'b' }];
    let t2 = castling_text(m.castling);
    let t3 = match m.ep {
        Some(e) => square_name(e.0 as int),
        None => seq!['-'],
    };
    let t4 = crate::text::decimal(m.halfmove as nat);
    let t5 = crate::text::decimal(m.fullmove as nat);
    let sp = seq![' '];
    let s = fen_text(m);
    assert(s =~= t0 + sp + t1 + sp + t2 + sp + t3 + sp + t4 + sp + t5);
    assert(t0.subrange(0, t0.len() as int) =~= t0);
    lemma_board_round(t0, 0, m.board, 7);
    assert(read_so_far(m.board, 7, 0) =~= empty_board());
    lemma_castling_round(m.castling);
    lemma_decimal_round(m.halfmove as nat);
    lemma_decimal_round(m.fullmove as nat);
    lemma_parse_decimal(m.halfmove);
    lemma_parse_decimal(m.fullmove);
    match m.ep {
        Some(e) => lemma_square_name_round(e.0 as int),
        None => {},
    }
    assert(t0.len() > 0);
    let i1: int = t0.len() as int + 1;
    let i2: int = i1 + t1.len() + 1;
    let i3: int = i2 + t2.len() + 1;
    let i4: int = i3 + t3.len() + 1;
    let i5: int = i4 + t4.len() + 1;
    assert(s.subrange(0, t0.len() as int) =~= t0);
    assert(s.subrange(i1, i1 + t1.len() as int) =~= t1);
    assert(s.subrange(i2, i2 + t2.len() as int) =~= t2);
    assert(s.subrange(i3, i3 + t3.len() as int) =~= t3);
    assert(s.subrange(i4, i4 + t4.len() as int) =~= t4);
    assert(s.subrange(i5, i5 + t5.len() as int) =~= t5);
    let e0 = Seq::<Seq<char>>::empty();
    lemma_split_field(s, 0, t0, e0);
    lemma_split_field(s, i1, t1, e0.push(t0));
    lemma_split_field(s, i2, t2, e0.push(t0).push(t1));
    lemma_split_field(s, i3, t3, e0.push(t0).push(t1).push(t2));
    lemma_split_field(s, i4, t4, e0.push(t0).push(t1).push(t2).push(t3));
    lemma_split_last(s, i5, t5, e0.push(t0).push(t1).push(t2).push(t3).push(t4));
    let w = crate::text::words(s);
    assert(w =~= seq![t0, t1, t2, t3, t4, t5]);
}

} // verus!
