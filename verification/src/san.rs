//! Standard Algebraic Notation. Formatting builds the text from the move and
//! the position; parsing compares the input with the text of each legal
//! move, so no grammar of disambiguation is needed.

use vstd::prelude::*;
use crate::movegen::{all_gen_ok, gen_move_ok, gen_ok, legal_moves, legal_moves_of};
use crate::moves::{first_where, lemma_first_where_none, lemma_first_where_step, Move, MoveFlags};
use crate::legality::{lemma_generated_moves_distinct, lemma_pseudo_shape, move_shape, one_king, sane, sole_king};
use crate::movegen::law_legal_moves_are_safe;
use crate::position::{apply_model, has_king, in_check_on, lowest_king, Model, Position};
use crate::text::{chars_of, is_whitespace, is_ws, string_of};
use crate::types::{ascii_upper, file_of, rank_of, square_name, to_ascii_upper, PieceKind, Square};

verus! {

pub open spec fn file_char(sq: Square) -> char {
    square_name(sq.0 as int)[0]
}

pub open spec fn rank_char(sq: Square) -> char {
    square_name(sq.0 as int)[1]
}

/// Another legal move of a piece of the same kind to the same target;
/// `sel` 1 asks for one from the same file, 2 for one from the same rank.
pub open spec fn rival(m: Model, mv: Move, kind: PieceKind, o: Move, sel: int) -> bool {
    let from = o.spec_from().0 as int;
    &&& o != mv
    &&& o.spec_to() == mv.spec_to()
    &&& m.board[from] is Some
    &&& m.board[from].unwrap().kind == kind
    &&& (sel == 1 ==> file_of(from) == file_of(mv.spec_from().0 as int))
    &&& (sel == 2 ==> rank_of(from) == rank_of(mv.spec_from().0 as int))
}

pub open spec fn rival_in(m: Model, mv: Move, kind: PieceKind, s: Seq<Move>, sel: int) -> bool {
    exists|k: int| 0 <= k < s.len() && #[trigger] rival(m, mv, kind, s[k], sel)
}

/// File, rank, or both: the shortest tag that tells the origin apart from
/// those of the other same-kind pieces that can reach the target.
pub open spec fn disambiguation(m: Model, mv: Move, kind: PieceKind) -> Seq<char> {
    let legal = legal_moves_of(m);
    let from = mv.spec_from();
    if !rival_in(m, mv, kind, legal, 0) {
        Seq::empty()
    } else if !rival_in(m, mv, kind, legal, 1) {
        seq![file_char(from)]
    } else if !rival_in(m, mv, kind, legal, 2) {
        seq![rank_char(from)]
    } else {
        square_name(from.0 as int)
    }
}

pub open spec fn promotion_text(p: Option<PieceKind>) -> Seq<char> {
    match p {
        Some(k) => seq!['=', ascii_upper(k.letter())],
        None => Seq::empty(),
    }
}

/// The text of a move without its check mark.
pub open spec fn san_body(m: Model, mv: Move) -> Seq<char> {
    let f = mv.spec_flags();
    let from = mv.spec_from();
    let piece = m.board[from.0 as int].unwrap();
    if f == MoveFlags::CastleKing {
        seq!['O', '-', 'O']
    } else if f == MoveFlags::CastleQueen {
        seq!['O', '-', 'O', '-', 'O']
    } else {
        let lead = if piece.kind == PieceKind::Pawn {
            if mv.spec_is_capture() {
                seq![file_char(from)]
            } else {
                Seq::empty()
            }
        } else {
            seq![ascii_upper(piece.kind.letter())] + disambiguation(m, mv, piece.kind)
        };
        let takes = if mv.spec_is_capture() {
            seq!['x']
        } else {
            Seq::empty()
        };
        lead + takes + square_name(mv.spec_to().0 as int) + promotion_text(mv.spec_promotion())
    }
}

/// `#` when the move mates, `+` when it checks, nothing otherwise.
pub open spec fn check_mark(m: Model, mv: Move) -> Seq<char> {
    let next = apply_model(m, mv);
    if in_check_on(next.board, next.side) {
        if legal_moves_of(next).len() == 0 {
            seq!['#']
        } else {
            seq!['+']
        }
    } else {
        Seq::empty()
    }
}

pub open spec fn san_text(m: Model, mv: Move) -> Seq<char> {
    san_body(m, mv) + check_mark(m, mv)
}

/// What the next position needs for the check mark: the side to move has a
/// king, and when it is in check its replies can be generated.
pub open spec fn mark_ok(next: Model) -> bool {
    &&& has_king(next.board, next.side)
    &&& (in_check_on(next.board, next.side) ==> gen_ok(next))
}

/// What formatting a move needs: the position can generate moves, and the
/// position after it can be checked for check (and mate).
pub open spec fn format_ok(m: Model, mv: Move) -> bool {
    &&& gen_ok(m)
    &&& gen_move_ok(m, mv)
    &&& mark_ok(apply_model(m, mv))
}

/// Every legal move of the position can be formatted.
pub open spec fn parse_ok(m: Model) -> bool {
    &&& gen_ok(m)
    &&& forall|k: int|
        0 <= k < legal_moves_of(m).len() ==> mark_ok(
            #[trigger] apply_model(m, legal_moves_of(m)[k]),
        )
}

proof fn lemma_rival_in_step(m: Model, mv: Move, kind: PieceKind, s: Seq<Move>, i: int, sel: int)
    requires
        0 <= i < s.len(),
    ensures
        rival_in(m, mv, kind, s.take(i + 1), sel) == (rival_in(m, mv, kind, s.take(i), sel)
            || rival(m, mv, kind, s[i], sel)),
{
    if rival_in(m, mv, kind, s.take(i + 1), sel) {
        let k = choose|k: int| 0 <= k < s.take(i + 1).len() && #[trigger] rival(m, mv, kind, s.take(i + 1)[k], sel);
        if k < i {
            assert(s.take(i)[k] == s[k]);
        }
    }
    if rival_in(m, mv, kind, s.take(i), sel) {
        let k = choose|k: int| 0 <= k < s.take(i).len() && #[trigger] rival(m, mv, kind, s.take(i)[k], sel);
        assert(s.take(i + 1)[k] == s[k]);
    }
    if rival(m, mv, kind, s[i], sel) {
        assert(s.take(i + 1)[i] == s[i]);
    }
}

fn push_square(v: &mut Vec<char>, sq: Square)
    requires
        sq.wf(),
    ensures
        final(v)@ == old(v)@ + square_name(sq.0 as int),
{
    v.push(((sq.file() + 97) as u8) as char);
    v.push(((sq.rank() + 49) as u8) as char);
    assert(final(v)@ =~= old(v)@ + square_name(sq.0 as int));
}

fn disambiguate(pos: &Position, mv: Move, kind: PieceKind) -> (d: Vec<char>)
    requires
        pos.wf(),
        gen_ok(pos@),
    ensures
        d@ == disambiguation(pos@, mv, kind),
{
    let ghost m = pos@;
    let legal = legal_moves(pos);
    let mut any = false;
    let mut same_file = false;
    let mut same_rank = false;
    let mut i: usize = 0;
    while i < legal.len()
        invariant
            pos.wf(),
            m == pos@,
            i <= legal@.len(),
            any == rival_in(m, mv, kind, legal@.take(i as int), 0),
            same_file == rival_in(m, mv, kind, legal@.take(i as int), 1),
            same_rank == rival_in(m, mv, kind, legal@.take(i as int), 2),
        decreases legal@.len() - i,
    {
        let other = legal.get(i);
        proof {
            lemma_rival_in_step(m, mv, kind, legal@, i as int, 0);
            lemma_rival_in_step(m, mv, kind, legal@, i as int, 1);
            lemma_rival_in_step(m, mv, kind, legal@, i as int, 2);
        }
        if other.0 != mv.0 && other.to().0 == mv.to().0 {
            match pos.piece_at(other.from()) {
                Some(p) => {
                    if p.kind == kind {
                        any = true;
                        if other.from().file() == mv.from().file() {
                            same_file = true;
                        }
                        if other.from().rank() == mv.from().rank() {
                            same_rank = true;
                        }
                    }
                },
                None => {},
            }
        }
        i = i + 1;
    }
    proof {
        assert(legal@.take(legal@.len() as int) =~= legal@);
    }
    let mut d: Vec<char> = Vec::new();
    let from = mv.from();
    if !any {
    } else if !same_file {
        d.push(((from.file() + 97) as u8) as char);
    } else if !same_rank {
        d.push(((from.rank() + 49) as u8) as char);
    } else {
        push_square(&mut d, from);
    }
    assert(d@ =~= disambiguation(m, mv, kind));
    d
}

/// The characters of a move's text.
fn san_chars(pos: &Position, mv: Move) -> (v: Vec<char>)
    requires
        pos.wf(),
        format_ok(pos@, mv),
    ensures
        v@ == san_text(pos@, mv),
{
    let ghost m = pos@;
    let mut v: Vec<char> = Vec::new();
    let flags = mv.flags();
    match flags {
        MoveFlags::CastleKing => {
            v.push('O');
            v.push('-');
            v.push('O');
        },
        MoveFlags::CastleQueen => {
            v.push('O');
            v.push('-');
            v.push('O');
            v.push('-');
            v.push('O');
        },
        _ => {
            let from = mv.from();
            let piece = match pos.piece_at(from) {
                Some(p) => p,
                None => {
                    proof {
                        assert(false);
                    }
                    return v;
                },
            };
            if piece.kind == PieceKind::Pawn {
                if mv.is_capture() {
                    v.push(((from.file() + 97) as u8) as char);
                }
            } else {
                v.push(to_ascii_upper(piece.kind.to_char()));
                let d = disambiguate(pos, mv, piece.kind);
                let mut j: usize = 0;
                let ghost start = v@;
                while j < d.len()
                    invariant
                        j <= d@.len(),
                        v@ == start + d@.take(j as int),
                    decreases d@.len() - j,
                {
                    v.push(d[j]);
                    j = j + 1;
                    assert(v@ =~= start + d@.take(j as int));
                }
                assert(d@.take(d@.len() as int) =~= d@);
            }
            if mv.is_capture() {
                v.push('x');
            }
            push_square(&mut v, mv.to());
            match mv.promotion() {
                Some(kind) => {
                    v.push('=');
                    v.push(to_ascii_upper(kind.to_char()));
                },
                None => {},
            }
        },
    }
    let ghost body = v@;
    assert(body =~= san_body(m, mv));
    let next = pos.apply(mv);
    if next.in_check(next.side_to_move) {
        let replies = legal_moves(&next);
        if replies.is_empty() {
            v.push('#');
        } else {
            v.push('+');
        }
    }
    assert(v@ =~= san_text(m, mv));
    v
}

/// The Standard Algebraic Notation of a move, with `+` or `#` when it
/// checks or mates.
pub fn format(pos: &Position, mv: Move) -> (s: String)
    requires
        pos.wf(),
        format_ok(pos@, mv),
    ensures
        s@ == san_text(pos@, mv),
{
    let v = san_chars(pos, mv);
    string_of(&v)
}

pub open spec fn is_mark(c: char) -> bool {
    c == '+' || c == '#' || c == '!' || c == '?'
}

pub open spec fn trim_start(s: Seq<char>) -> Seq<char>
    decreases s.len(),
{
    if s.len() > 0 && is_ws(s[0]) {
        trim_start(s.drop_first())
    } else {
        s
    }
}

pub open spec fn trim_end_ws(s: Seq<char>) -> Seq<char>
    decreases s.len(),
{
    if s.len() > 0 && is_ws(s.last()) {
        trim_end_ws(s.drop_last())
    } else {
        s
    }
}

pub open spec fn trim_end_marks(s: Seq<char>) -> Seq<char>
    decreases s.len(),
{
    if s.len() > 0 && is_mark(s.last()) {
        trim_end_marks(s.drop_last())
    } else {
        s
    }
}

pub open spec fn zero_as_o(c: char) -> char {
    if c == '0' {
        'O'
    } else {
        c
    }
}

/// Whitespace trimmed, trailing `+ # ! ?` dropped, each `0` read as `O`.
pub open spec fn normalized(s: Seq<char>) -> Seq<char> {
    trim_end_marks(trim_end_ws(trim_start(s))).map_values(|c: char| zero_as_o(c))
}

fn normalize(v: &Vec<char>) -> (out: Vec<char>)
    ensures
        out@ == normalized(v@),
{
    let n = v.len();
    let mut lo: usize = 0;
    assert(v@.subrange(0, n as int) =~= v@);
    while lo < n && is_whitespace(v[lo])
        invariant
            n == v@.len(),
            lo <= n,
            trim_start(v@) == trim_start(v@.subrange(lo as int, n as int)),
        decreases n - lo,
    {
        assert(v@.subrange(lo as int, n as int).drop_first() =~= v@.subrange(lo + 1, n as int));
        lo = lo + 1;
    }
    let ghost t = v@.subrange(lo as int, n as int);
    assert(trim_start(v@) == t);
    let mut hi: usize = n;
    while hi > lo && is_whitespace(v[hi - 1])
        invariant
            n == v@.len(),
            lo <= hi <= n,
            t == v@.subrange(lo as int, n as int),
            trim_end_ws(t) == trim_end_ws(v@.subrange(lo as int, hi as int)),
        decreases hi - lo,
    {
        assert(v@.subrange(lo as int, hi as int).drop_last() =~= v@.subrange(lo as int, hi - 1));
        hi = hi - 1;
    }
    let ghost u = v@.subrange(lo as int, hi as int);
    assert(trim_end_ws(t) == u);
    while hi > lo && (v[hi - 1] == '+' || v[hi - 1] == '#' || v[hi - 1] == '!' || v[hi - 1] == '?')
        invariant
            n == v@.len(),
            lo <= hi <= n,
            trim_end_marks(u) == trim_end_marks(v@.subrange(lo as int, hi as int)),
        decreases hi - lo,
    {
        assert(v@.subrange(lo as int, hi as int).drop_last() =~= v@.subrange(lo as int, hi - 1));
        hi = hi - 1;
    }
    let ghost w = v@.subrange(lo as int, hi as int);
    assert(trim_end_marks(u) == w);
    let mut out: Vec<char> = Vec::new();
    let mut j: usize = lo;
    while j < hi
        invariant
            n == v@.len(),
            lo <= j <= hi <= n,
            w == v@.subrange(lo as int, hi as int),
            out@ == v@.subrange(lo as int, j as int).map_values(|c: char| zero_as_o(c)),
        decreases hi - j,
    {
        let c = v[j];
        out.push(if c == '0' { 'O' } else { c });
        j = j + 1;
        assert(out@ =~= v@.subrange(lo as int, j as int).map_values(|c: char| zero_as_o(c)));
    }
    assert(out@ =~= normalized(v@));
    out
}

fn same_chars(a: &Vec<char>, b: &Vec<char>) -> (r: bool)
    ensures
        r == (a@ == b@),
{
    if a.len() != b.len() {
        return false;
    }
    let mut i: usize = 0;
    while i < a.len()
        invariant
            a@.len() == b@.len(),
            i <= a@.len(),
            a@.take(i as int) == b@.take(i as int),
        decreases a@.len() - i,
    {
        if a[i] != b[i] {
            assert(a@[i as int] != b@[i as int]);
            return false;
        }
        assert(a@.take(i + 1) =~= a@.take(i as int).push(a@[i as int]));
        assert(b@.take(i + 1) =~= b@.take(i as int).push(b@[i as int]));
        i = i + 1;
    }
    assert(a@ =~= a@.take(a@.len() as int));
    assert(b@ =~= b@.take(b@.len() as int));
    true
}

/// A legal move whose normalized text is `wanted`.
pub open spec fn san_pred(m: Model, wanted: Seq<char>) -> spec_fn(Move) -> bool {
    |mv: Move| normalized(san_text(m, mv)) == wanted
}

/// The legal move an input names: the first whose text matches it, with
/// or without the check mark, and with `0-0` read as `O-O`.
pub open spec fn san_move(m: Model, input: Seq<char>) -> Option<Move> {
    first_where(legal_moves_of(m), san_pred(m, normalized(input)))
}

/// Finds the legal move an input in Standard Algebraic Notation names.
pub fn parse(pos: &Position, input: &str) -> (res: Option<Move>)
    requires
        pos.wf(),
        parse_ok(pos@),
    ensures
        res == san_move(pos@, input@),
        res matches Some(mv) ==> format_ok(pos@, mv),
{
    let ghost m = pos@;
    let wanted = normalize(&chars_of(input));
    let legal = legal_moves(pos);
    let ghost p = san_pred(m, wanted@);
    let mut i: usize = 0;
    while i < legal.len()
        invariant
            pos.wf(),
            m == pos@,
            parse_ok(m),
            wanted@ == normalized(input@),
            p == san_pred(m, wanted@),
            legal@ == legal_moves_of(m),
            all_gen_ok(m, legal@),
            i <= legal@.len(),
            legal@.take(i as int).filter(p).len() == 0,
        decreases legal@.len() - i,
    {
        let mv = legal.get(i);
        proof {
            lemma_first_where_step(legal@, p, i as int);
            assert(gen_move_ok(m, legal@[i as int]));
            assert(mark_ok(apply_model(m, legal_moves_of(m)[i as int])));
        }
        let text = normalize(&san_chars(pos, mv));
        if same_chars(&text, &wanted) {
            assert(p(legal@[i as int]));
            return Some(mv);
        }
        i = i + 1;
    }
    proof {
        lemma_first_where_none(legal@, p);
    }
    None
}

/// Whether every legal move of a position can be formatted and parsed
/// (see `parse_ok`).
pub fn can_parse(pos: &Position) -> (b: bool)
    requires
        pos.wf(),
    ensures
        b == parse_ok(pos@),
{
    let ghost m = pos@;
    if !crate::movegen::can_generate(pos) {
        return false;
    }
    let legal = legal_moves(pos);
    let mut i: usize = 0;
    while i < legal.len()
        invariant
            pos.wf(),
            m == pos@,
            gen_ok(m),
            legal@ == legal_moves_of(m),
            all_gen_ok(m, legal@),
            i <= legal@.len(),
            forall|k: int| 0 <= k < i ==> mark_ok(#[trigger] apply_model(m, legal_moves_of(m)[k])),
        decreases legal@.len() - i,
    {
        let mv = legal.get(i);
        assert(gen_move_ok(m, legal@[i as int]));
        let next = pos.apply(mv);
        if !can_mark(&next) {
            assert(!mark_ok(apply_model(m, legal_moves_of(m)[i as int])));
            return false;
        }
        i = i + 1;
    }
    true
}

/// Whether the check mark of a move into this position can be computed
/// (see `mark_ok`).
pub fn can_mark(next: &Position) -> (b: bool)
    requires
        next.wf(),
    ensures
        b == mark_ok(next@),
{
    let us = next.side_to_move;
    let kings = next.pieces(us, PieceKind::King);
    if kings.is_empty() {
        assert forall|s: int| 0 <= s < 64 implies next@.board[s] != Some(
            crate::types::Piece { color: us, kind: PieceKind::King },
        ) by {
            assert(!kings.has(s));
        }
        return false;
    }
    assert(exists|i: int| kings.has(i));
    let ghost k = choose|i: int| kings.has(i);
    assert(next@.board[k] == Some(crate::types::Piece { color: us, kind: PieceKind::King }));
    if next.in_check(us) {
        crate::movegen::can_generate(next)
    } else {
        true
    }
}

/// Characters the text of a move is made of.
pub open spec fn san_char(c: char) -> bool {
    ||| c == 'O' || c == '-' || c == 'x' || c == '='
    ||| ('A' <= c && c <= 'Z')
    ||| ('a' <= c && c <= 'h')
    ||| ('1' <= c && c <= '8')
}

proof fn lemma_square_name_chars(i: int)
    requires
        0 <= i < 64,
    ensures
        square_name(i).len() == 2,
        'a' <= square_name(i)[0] && square_name(i)[0] <= 'h',
        '1' <= square_name(i)[1] && square_name(i)[1] <= '8',
        square_name(i)[0] as int == file_of(i) + 97,
        square_name(i)[1] as int == rank_of(i) + 49,
{
}

proof fn lemma_upper_letter(k: PieceKind)
    ensures
        ascii_upper(k.letter()) == match k {
            PieceKind::Pawn => 'P',
            PieceKind::Knight => 'N',
            PieceKind::Bishop => 'B',
            PieceKind::Rook => 'R',
            PieceKind::Queen => 'Q',
            PieceKind::King => 'K',
        },
{
}

/// The body of a move's text, its piece of each kind.
proof fn lemma_body_chars(m: Model, mv: Move)
    requires
        m.board.len() == 64,
        mv.wf(),
    ensures
        san_body(m, mv).len() >= 2,
        forall|j: int| 0 <= j < san_body(m, mv).len() ==> san_char(#[trigger] san_body(m, mv)[j]),
{
    let from = mv.spec_from();
    let to = mv.spec_to();
    lemma_square_name_chars(from.0 as int);
    lemma_square_name_chars(to.0 as int);
    let piece = m.board[from.0 as int].unwrap();
    lemma_upper_letter(piece.kind);
    match mv.spec_promotion() {
        Some(k) => lemma_upper_letter(k),
        None => {},
    }
    let body = san_body(m, mv);
    assert forall|j: int| 0 <= j < body.len() implies san_char(#[trigger] body[j]) by {
    }
}

/// Normalizing the full text of a move gives its body back: the check mark
/// goes, and the body holds no space, mark or zero.
proof fn lemma_normalized_text(m: Model, mv: Move)
    requires
        m.board.len() == 64,
        mv.wf(),
    ensures
        normalized(san_text(m, mv)) == san_body(m, mv),
{
    let body = san_body(m, mv);
    let mark = check_mark(m, mv);
    let t = san_text(m, mv);
    lemma_body_chars(m, mv);
    assert(san_char(body[0]));
    assert(san_char(body[body.len() - 1]));
    assert(trim_start(t) == t);
    assert(trim_end_ws(t) == t);
    if mark.len() > 0 {
        assert(t.drop_last() =~= body);
        assert(trim_end_marks(t) == trim_end_marks(body));
    } else {
        assert(t =~= body);
    }
    assert(trim_end_marks(body) == body);
    assert(body.map_values(|c: char| zero_as_o(c)) =~= body) by {
        assert forall|j: int| 0 <= j < body.len() implies zero_as_o(body[j]) == body[j] by {
            assert(san_char(body[j]));
        }
    }
}

proof fn lemma_capture_bit(mv: Move)
    requires
        mv.wf(),
    ensures
        mv.spec_is_capture() == (crate::position::is_capture_flag(mv.spec_flags())
            || mv.spec_flags() == MoveFlags::EnPassant),
{
}

/// Two squares with the same name are the same square.
proof fn lemma_square_name_injective(i: int, j: int)
    requires
        0 <= i < 64,
        0 <= j < 64,
        square_name(i) == square_name(j),
    ensures
        i == j,
{
    lemma_square_name_chars(i);
    lemma_square_name_chars(j);
    assert(square_name(i)[0] == square_name(j)[0]);
    assert(square_name(i)[1] == square_name(j)[1]);
    assert(i == rank_of(i) * 8 + file_of(i));
    assert(j == rank_of(j) * 8 + file_of(j));
}

/// A legal move in a position that can arise in play has the generated
/// shape.
proof fn lemma_legal_shape(m: Model, mv: Move)
    requires
        sane(m),
        legal_moves_of(m).contains(mv),
    ensures
        move_shape(m, mv),
        mv.wf(),
        mv.spec_from().wf(),
        mv.spec_to().wf(),
{
    let k = choose|k: int| 0 <= k < legal_moves_of(m).len() && legal_moves_of(m)[k] == mv;
    law_legal_moves_are_safe(m, k);
    let s = choose|s: int| sole_king(m.board, m.side, s);
    assert(one_king(m.board, m.side));
    assert(lowest_king(m.board, m.side, s));
    lemma_pseudo_shape(m, mv);
}

/// What the injectivity cases share: both moves legal, their texts equal,
/// their shapes and the character facts of their squares and pieces.
pub open spec fn same_text(m: Model, a: Move, b: Move) -> bool {
    &&& sane(m)
    &&& legal_moves_of(m).contains(a)
    &&& legal_moves_of(m).contains(b)
    &&& san_body(m, a) == san_body(m, b)
}

proof fn lemma_same_text_facts(m: Model, a: Move, b: Move)
    requires
        same_text(m, a, b),
    ensures
        move_shape(m, a),
        move_shape(m, b),
        a.wf(),
        b.wf(),
        a.spec_from().wf(),
        a.spec_to().wf(),
        b.spec_from().wf(),
        b.spec_to().wf(),
        a.spec_is_capture() == (crate::position::is_capture_flag(a.spec_flags()) || a.spec_flags()
            == MoveFlags::EnPassant),
        b.spec_is_capture() == (crate::position::is_capture_flag(b.spec_flags()) || b.spec_flags()
            == MoveFlags::EnPassant),
{
    lemma_legal_shape(m, a);
    lemma_legal_shape(m, b);
    lemma_capture_bit(a);
    lemma_capture_bit(b);
}

proof fn lemma_castle_text(m: Model, a: Move, b: Move)
    requires
        same_text(m, a, b),
        crate::position::is_castle_flag(a.spec_flags()) || crate::position::is_castle_flag(
            b.spec_flags(),
        ),
    ensures
        a == b,
{
    lemma_same_text_facts(m, a, b);
    let fa = a.spec_from().0 as int;
    let ta = a.spec_to().0 as int;
    let fb = b.spec_from().0 as int;
    let tb = b.spec_to().0 as int;
    lemma_square_name_chars(fa);
    lemma_square_name_chars(fb);
    lemma_square_name_chars(ta);
    lemma_square_name_chars(tb);
    lemma_upper_letter(m.board[fa].unwrap().kind);
    lemma_upper_letter(m.board[fb].unwrap().kind);
    let ca = crate::position::is_castle_flag(a.spec_flags());
    let cb = crate::position::is_castle_flag(b.spec_flags());
    assert(san_body(m, a)[0] == san_body(m, b)[0]);
    assert(ca && cb);
    assert(san_body(m, a).len() == san_body(m, b).len());
    assert(a.spec_flags() == b.spec_flags());
    crate::movegen::lemma_lowest_king_unique(m.board, m.side, fa, fb);
    lemma_generated_moves_distinct(m, a, b);
}

proof fn lemma_pawn_text(m: Model, a: Move, b: Move)
    requires
        same_text(m, a, b),
        !crate::position::is_castle_flag(a.spec_flags()),
        !crate::position::is_castle_flag(b.spec_flags()),
        m.board[a.spec_from().0 as int].unwrap().kind == PieceKind::Pawn || m.board[b.spec_from().0 as int].unwrap().kind
            == PieceKind::Pawn,
    ensures
        a == b,
{
    lemma_same_text_facts(m, a, b);
    let fa = a.spec_from().0 as int;
    let ta = a.spec_to().0 as int;
    let fb = b.spec_from().0 as int;
    let tb = b.spec_to().0 as int;
    let us = m.side;
    let dir = crate::attacks::pawn_dir(us);
    let body_a = san_body(m, a);
    let body_b = san_body(m, b);
    lemma_square_name_chars(fa);
    lemma_square_name_chars(fb);
    lemma_square_name_chars(ta);
    lemma_square_name_chars(tb);
    lemma_upper_letter(m.board[fa].unwrap().kind);
    lemma_upper_letter(m.board[fb].unwrap().kind);
    assert(body_a[0] == body_b[0]);
    assert(m.board[fa].unwrap().kind == PieceKind::Pawn && m.board[fb].unwrap().kind
        == PieceKind::Pawn);
    let xa = a.spec_is_capture();
    let xb = b.spec_is_capture();
    assert(body_a[1] == body_b[1]);
    assert(xa == xb);
    assert(body_a.len() == body_b.len());
    match a.spec_promotion() {
        Some(k) => lemma_upper_letter(k),
        None => {},
    }
    match b.spec_promotion() {
        Some(k) => lemma_upper_letter(k),
        None => {},
    }
    assert(body_a[body_a.len() - 1] == body_b[body_b.len() - 1]);
    assert(a.spec_promotion() == b.spec_promotion());
    if xa {
        assert(body_a.subrange(2, 4) =~= square_name(ta));
        assert(body_b.subrange(2, 4) =~= square_name(tb));
    } else {
        assert(body_a.subrange(0, 2) =~= square_name(ta));
        assert(body_b.subrange(0, 2) =~= square_name(tb));
    }
    lemma_square_name_injective(ta, tb);
    crate::legality::lemma_coords_pub(fa);
    crate::legality::lemma_coords_pub(fb);
    crate::legality::lemma_coords_pub(ta);
    if xa {
        assert(file_of(fa) == file_of(fb));
        assert(rank_of(fa) == rank_of(ta) - dir);
        assert(rank_of(fb) == rank_of(tb) - dir);
    } else {
        if a.spec_flags() == MoveFlags::DoublePush && b.spec_flags() != MoveFlags::DoublePush {
            assert(m.board[fb] is Some);
        } else if b.spec_flags() == MoveFlags::DoublePush && a.spec_flags() != MoveFlags::DoublePush {
            assert(m.board[fa] is Some);
        }
    }
    assert(fa == fb);
    lemma_generated_moves_distinct(m, a, b);
}

proof fn lemma_piece_text(m: Model, a: Move, b: Move)
    requires
        same_text(m, a, b),
        !crate::position::is_castle_flag(a.spec_flags()),
        !crate::position::is_castle_flag(b.spec_flags()),
        m.board[a.spec_from().0 as int].unwrap().kind != PieceKind::Pawn,
        m.board[b.spec_from().0 as int].unwrap().kind != PieceKind::Pawn,
    ensures
        a == b,
{
    lemma_same_text_facts(m, a, b);
    let legal = legal_moves_of(m);
    let fa = a.spec_from().0 as int;
    let ta = a.spec_to().0 as int;
    let fb = b.spec_from().0 as int;
    let tb = b.spec_to().0 as int;
    let ka = m.board[fa].unwrap().kind;
    let kb = m.board[fb].unwrap().kind;
    let body_a = san_body(m, a);
    let body_b = san_body(m, b);
    lemma_square_name_chars(fa);
    lemma_square_name_chars(fb);
    lemma_square_name_chars(ta);
    lemma_square_name_chars(tb);
    lemma_upper_letter(ka);
    lemma_upper_letter(kb);
    assert(body_a[0] == body_b[0]);
    assert(ka == kb);
    let k = ka;
    let da = disambiguation(m, a, k);
    let db = disambiguation(m, b, k);
    let n = body_a.len() as int;
    assert(body_a.subrange(n - 2, n) =~= square_name(ta));
    assert(body_b.subrange(n - 2, n) =~= square_name(tb));
    lemma_square_name_injective(ta, tb);
    assert(a.spec_is_capture() == b.spec_is_capture());
    assert(da.len() == db.len());
    assert(body_a.subrange(1, 1 + da.len() as int) =~= da);
    assert(body_b.subrange(1, 1 + db.len() as int) =~= db);
    assert(da == db);
    if fa != fb {
        let ia = choose|i: int| 0 <= i < legal.len() && legal[i] == a;
        let ib = choose|i: int| 0 <= i < legal.len() && legal[i] == b;
        assert(rival(m, a, k, legal[ib], 0));
        assert(rival(m, b, k, legal[ia], 0));
        assert(rival_in(m, a, k, legal, 0));
        assert(rival_in(m, b, k, legal, 0));
        crate::legality::lemma_coords_pub(fa);
        crate::legality::lemma_coords_pub(fb);
        if !rival_in(m, a, k, legal, 1) {
            if file_of(fa) == file_of(fb) {
                assert(rival(m, a, k, legal[ib], 1));
            }
            assert(da[0] != db[0]);
        } else if !rival_in(m, a, k, legal, 2) {
            if rank_of(fa) == rank_of(fb) {
                assert(rival(m, a, k, legal[ib], 2));
            }
            assert(da[0] != db[0]);
        } else {
            lemma_square_name_injective(fa, fb);
        }
    }
    lemma_generated_moves_distinct(m, a, b);
}

proof fn lemma_body_injective(m: Model, a: Move, b: Move)
    requires
        same_text(m, a, b),
    ensures
        a == b,
{
    lemma_same_text_facts(m, a, b);
    if crate::position::is_castle_flag(a.spec_flags()) || crate::position::is_castle_flag(
        b.spec_flags(),
    ) {
        lemma_castle_text(m, a, b);
    } else if m.board[a.spec_from().0 as int].unwrap().kind == PieceKind::Pawn
        || m.board[b.spec_from().0 as int].unwrap().kind == PieceKind::Pawn {
        lemma_pawn_text(m, a, b);
    } else {
        lemma_piece_text(m, a, b);
    }
}

/// The text of a legal move names that very move again, in any position
/// that can arise in play: parsing what formatting wrote gives the move.
#[verifier::rlimit(50)]
pub proof fn law_san_round_trip(m: Model, i: int)
    requires
        sane(m),
        0 <= i < legal_moves_of(m).len(),
    ensures
        san_move(m, san_text(m, legal_moves_of(m)[i])) == Some(legal_moves_of(m)[i]),
{
    let legal = legal_moves_of(m);
    let mv = legal[i];
    assert(legal.contains(mv));
    lemma_legal_shape(m, mv);
    lemma_normalized_text(m, mv);
    let wanted = normalized(san_text(m, mv));
    let p = san_pred(m, wanted);
    assert(p(legal[i]));
    legal.lemma_filter_contains(p, i);
    crate::moves::lemma_first_where_member(legal, p);
    let r = first_where(legal, p).unwrap();
    let k = choose|k: int| 0 <= k < legal.len() && legal[k] == r;
    assert(legal.contains(r));
    lemma_legal_shape(m, r);
    lemma_normalized_text(m, r);
    lemma_body_injective(m, r, mv);
}

} // verus!
