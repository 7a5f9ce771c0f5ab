//! Long algebraic notation ("e2e4", "e7e8q"): the wire and storage format.

use vstd::prelude::*;
use crate::movegen::{all_gen_ok, gen_move_ok, gen_ok, legal_moves, legal_moves_of};
use crate::legality::{lemma_generated_moves_distinct, lemma_pseudo_shape, one_king, sane, sole_king};
use crate::movegen::law_legal_moves_are_safe;
use crate::moves::{
    first_where, lemma_first_where_member, lemma_first_where_none, lemma_first_where_step, Move,
};
use crate::position::{apply_model, lowest_king, Model, Position};
use crate::san::{format_ok, parse_ok};
use crate::text::push_char;
use crate::types::{parse_square_name, square_name, PieceKind, Square};

verus! {

/// The promotion suffix of a move: its piece letter, or nothing.
pub open spec fn promo_suffix(p: Option<PieceKind>) -> Seq<char> {
    match p {
        Some(k) => seq![k.letter()],
        None => Seq::empty(),
    }
}

/// A move's text: origin, target, and the promotion letter if any.
pub open spec fn uci_text(mv: Move) -> Seq<char> {
    square_name(mv.spec_from().0 as int) + square_name(mv.spec_to().0 as int) + promo_suffix(
        mv.spec_promotion(),
    )
}

/// Origin, target and promotion named by a text, when it has that shape.
pub open spec fn uci_fields(s: Seq<char>) -> Option<(Square, Square, Option<PieceKind>)> {
    if s.len() < 4 || s.len() > 5 {
        None
    } else {
        match (parse_square_name(s.subrange(0, 2)), parse_square_name(s.subrange(2, 4))) {
            (Some(from), Some(to)) => if s.len() == 5 {
                match PieceKind::spec_from_char(s[4]) {
                    Some(k) => Some((from, to, Some(k))),
                    None => None,
                }
            } else {
                Some((from, to, None))
            },
            _ => None,
        }
    }
}

/// A move goes from `from` to `to` with promotion `promo`.
pub open spec fn uci_pred(from: Square, to: Square, promo: Option<PieceKind>) -> spec_fn(
    Move,
) -> bool {
    |mv: Move| mv.spec_from() == from && mv.spec_to() == to && mv.spec_promotion() == promo
}

/// The legal move a text names: the first legal move with its fields.
pub open spec fn uci_move(m: Model, s: Seq<char>) -> Option<Move> {
    match uci_fields(s) {
        Some((from, to, promo)) => first_where(legal_moves_of(m), uci_pred(from, to, promo)),
        None => None,
    }
}

fn push_square(s: &mut String, sq: Square)
    requires
        sq.wf(),
    ensures
        final(s)@ == old(s)@ + square_name(sq.0 as int),
{
    push_char(s, ((sq.file() + 97) as u8) as char);
    push_char(s, ((sq.rank() + 49) as u8) as char);
    assert(final(s)@ =~= old(s)@ + square_name(sq.0 as int));
}

/// The text of a move, such as `e2e4` or `e7e8q`.
pub fn format(mv: Move) -> (s: String)
    requires
        mv.wf(),
    ensures
        s@ == uci_text(mv),
{
    let mut s = String::new();
    push_square(&mut s, mv.from());
    push_square(&mut s, mv.to());
    match mv.promotion() {
        Some(kind) => push_char(&mut s, kind.to_char()),
        None => {},
    }
    assert(s@ =~= uci_text(mv));
    s
}

/// The square named by two characters.
fn square_of(file: char, rank: char) -> (res: Option<Square>)
    ensures
        res == parse_square_name(seq![file, rank]),
        res matches Some(sq) ==> sq.wf(),
{
    if !('a' <= file && file <= 'h' && '1' <= rank && rank <= '8') {
        return None;
    }
    let f: u8 = (file as u32 - 97) as u8;
    let r: u8 = (rank as u32 - 49) as u8;
    Some(Square::new(f, r))
}

fn same_promotion(a: Option<PieceKind>, b: Option<PieceKind>) -> (r: bool)
    ensures
        r == (a == b),
{
    match (a, b) {
        (Some(x), Some(y)) => x == y,
        (None, None) => true,
        _ => false,
    }
}

/// Reads the fields of a move text.
fn fields(s: &str) -> (res: Option<(Square, Square, Option<PieceKind>)>)
    ensures
        res == uci_fields(s@),
        res matches Some((f, t, _)) ==> f.wf() && t.wf(),
{
    let n = s.unicode_len();
    if n < 4 || n > 5 {
        return None;
    }
    assert(s@.subrange(0, 2) =~= seq![s@[0], s@[1]]);
    assert(s@.subrange(2, 4) =~= seq![s@[2], s@[3]]);
    let from = match square_of(s.get_char(0), s.get_char(1)) {
        Some(sq) => sq,
        None => return None,
    };
    let to = match square_of(s.get_char(2), s.get_char(3)) {
        Some(sq) => sq,
        None => return None,
    };
    if n == 5 {
        match PieceKind::from_char(s.get_char(4)) {
            Some(k) => Some((from, to, Some(k))),
            None => None,
        }
    } else {
        Some((from, to, None))
    }
}

/// Resolves a move text against the legal moves of `pos`, so that the
/// flags (castling, en passant, capture) come from the position rather
/// than from the sender.
pub fn parse(pos: &Position, s: &str) -> (res: Option<Move>)
    requires
        pos.wf(),
        uci_fields(s@) is Some ==> gen_ok(pos@),
    ensures
        res == uci_move(pos@, s@),
        res matches Some(mv) ==> gen_move_ok(pos@, mv) && (parse_ok(pos@) ==> format_ok(pos@, mv)),
{
    let (from, to, promo) = match fields(s) {
        Some(f) => f,
        None => return None,
    };
    let legal = legal_moves(pos);
    let ghost p = uci_pred(from, to, promo);
    let mut i: usize = 0;
    while i < legal.len()
        invariant
            i <= legal@.len(),
            legal@.take(i as int).filter(p).len() == 0,
            p == uci_pred(from, to, promo),
            uci_fields(s@) == Some((from, to, promo)),
            legal@ == legal_moves_of(pos@),
            all_gen_ok(pos@, legal@),
        decreases legal@.len() - i,
    {
        let mv = legal.get(i);
        proof {
            lemma_first_where_step(legal@, p, i as int);
        }
        if mv.from() == from && mv.to() == to && same_promotion(mv.promotion(), promo) {
            assert(p(legal@[i as int]));
            assert(gen_move_ok(pos@, legal@[i as int]));
            assert(parse_ok(pos@) ==> crate::san::mark_ok(apply_model(pos@, legal_moves_of(pos@)[i as int])));
            return Some(mv);
        }
        i = i + 1;
    }
    proof {
        lemma_first_where_none(legal@, p);
    }
    None
}

proof fn lemma_square_name_round(i: int)
    requires
        0 <= i < 64,
    ensures
        parse_square_name(square_name(i)) == Some(Square(i as u8)),
{
    assert(i == (i / 8) * 8 + i % 8);
}

proof fn lemma_uci_fields(mv: Move)
    requires
        mv.wf(),
    ensures
        uci_fields(uci_text(mv)) == Some((mv.spec_from(), mv.spec_to(), mv.spec_promotion())),
{
    let f = mv.spec_from().0 as int;
    let t = mv.spec_to().0 as int;
    let text = uci_text(mv);
    lemma_square_name_round(f);
    lemma_square_name_round(t);
    assert(text.subrange(0, 2) =~= square_name(f));
    assert(text.subrange(2, 4) =~= square_name(t));
}

/// The text of a legal move names that very move again, in any position
/// that can arise in play.
pub proof fn law_uci_round_trip(m: Model, i: int)
    requires
        sane(m),
        0 <= i < legal_moves_of(m).len(),
    ensures
        uci_move(m, uci_text(legal_moves_of(m)[i])) == Some(legal_moves_of(m)[i]),
{
    let legal = legal_moves_of(m);
    let mv = legal[i];
    law_legal_moves_are_safe(m, i);
    let k0 = choose|k: int| sole_king(m.board, m.side, k);
    assert(one_king(m.board, m.side));
    assert(lowest_king(m.board, m.side, k0));
    lemma_pseudo_shape(m, mv);
    lemma_uci_fields(mv);
    let p = uci_pred(mv.spec_from(), mv.spec_to(), mv.spec_promotion());
    assert(p(legal[i]));
    legal.lemma_filter_contains(p, i);
    lemma_first_where_member(legal, p);
    let r = first_where(legal, p).unwrap();
    let k = choose|k: int| 0 <= k < legal.len() && legal[k] == r;
    law_legal_moves_are_safe(m, k);
    lemma_pseudo_shape(m, r);
    lemma_generated_moves_distinct(m, r, mv);
}

} // verus!
