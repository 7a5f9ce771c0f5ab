//! Packed moves and move lists.

use vstd::prelude::*;
use crate::types::{PieceKind, Square};
use vstd::std_specs::iter::IteratorSpec;

verus! {

/// Move flags, stored in the top 4 bits of a packed move.
///
/// The encoding follows the classic from-to-flags scheme: bit 2 marks a
/// capture, bit 3 marks a promotion, and the low two bits select the variant.
#[derive(Clone, Copy, PartialEq, Eq, Debug, Structural)]
pub enum MoveFlags {
    Quiet,
    DoublePush,
    CastleKing,
    CastleQueen,
    Capture,
    EnPassant,
    PromoKnight,
    PromoBishop,
    PromoRook,
    PromoQueen,
    PromoCaptureKnight,
    PromoCaptureBishop,
    PromoCaptureRook,
    PromoCaptureQueen,
}

/// The 4-bit code of each flag.
pub open spec fn flag_code(f: MoveFlags) -> u16 {
    match f {
        MoveFlags::Quiet => 0,
        MoveFlags::DoublePush => 1,
        MoveFlags::CastleKing => 2,
        MoveFlags::CastleQueen => 3,
        MoveFlags::Capture => 4,
        MoveFlags::EnPassant => 5,
        MoveFlags::PromoKnight => 8,
        MoveFlags::PromoBishop => 9,
        MoveFlags::PromoRook => 10,
        MoveFlags::PromoQueen => 11,
        MoveFlags::PromoCaptureKnight => 12,
        MoveFlags::PromoCaptureBishop => 13,
        MoveFlags::PromoCaptureRook => 14,
        MoveFlags::PromoCaptureQueen => 15,
    }
}

/// A 4-bit value that is the code of some flag (6 and 7 are unused).
pub open spec fn valid_code(c: int) -> bool {
    0 <= c < 16 && c != 6 && c != 7
}

/// The flag with code `c`.
pub open spec fn flag_of_code(c: int) -> MoveFlags {
    if c == 0 {
        MoveFlags::Quiet
    } else if c == 1 {
        MoveFlags::DoublePush
    } else if c == 2 {
        MoveFlags::CastleKing
    } else if c == 3 {
        MoveFlags::CastleQueen
    } else if c == 4 {
        MoveFlags::Capture
    } else if c == 5 {
        MoveFlags::EnPassant
    } else if c == 8 {
        MoveFlags::PromoKnight
    } else if c == 9 {
        MoveFlags::PromoBishop
    } else if c == 10 {
        MoveFlags::PromoRook
    } else if c == 11 {
        MoveFlags::PromoQueen
    } else if c == 12 {
        MoveFlags::PromoCaptureKnight
    } else if c == 13 {
        MoveFlags::PromoCaptureBishop
    } else if c == 14 {
        MoveFlags::PromoCaptureRook
    } else {
        MoveFlags::PromoCaptureQueen
    }
}

/// The promotion flag for a kind; kinds that cannot be promoted to give the queen flags.
pub open spec fn promo_flag(kind: PieceKind, capture: bool) -> MoveFlags {
    match (kind, capture) {
        (PieceKind::Knight, false) => MoveFlags::PromoKnight,
        (PieceKind::Bishop, false) => MoveFlags::PromoBishop,
        (PieceKind::Rook, false) => MoveFlags::PromoRook,
        (PieceKind::Queen, false) => MoveFlags::PromoQueen,
        (PieceKind::Knight, true) => MoveFlags::PromoCaptureKnight,
        (PieceKind::Bishop, true) => MoveFlags::PromoCaptureBishop,
        (PieceKind::Rook, true) => MoveFlags::PromoCaptureRook,
        (PieceKind::Queen, true) => MoveFlags::PromoCaptureQueen,
        _ => MoveFlags::PromoQueen,
    }
}

/// The piece a flag promotes to, if it is a promotion.
pub open spec fn flag_promotion(f: MoveFlags) -> Option<PieceKind> {
    match f {
        MoveFlags::PromoKnight | MoveFlags::PromoCaptureKnight => Some(PieceKind::Knight),
        MoveFlags::PromoBishop | MoveFlags::PromoCaptureBishop => Some(PieceKind::Bishop),
        MoveFlags::PromoRook | MoveFlags::PromoCaptureRook => Some(PieceKind::Rook),
        MoveFlags::PromoQueen | MoveFlags::PromoCaptureQueen => Some(PieceKind::Queen),
        _ => None,
    }
}

pub proof fn lemma_flag_code(f: MoveFlags)
    ensures
        valid_code(flag_code(f) as int),
        flag_of_code(flag_code(f) as int) == f,
{
}

impl MoveFlags {
    pub fn promo(kind: PieceKind, capture: bool) -> (f: MoveFlags)
        ensures
            f == promo_flag(kind, capture),
    {
        match (kind, capture) {
            (PieceKind::Knight, false) => MoveFlags::PromoKnight,
            (PieceKind::Bishop, false) => MoveFlags::PromoBishop,
            (PieceKind::Rook, false) => MoveFlags::PromoRook,
            (PieceKind::Queen, false) => MoveFlags::PromoQueen,
            (PieceKind::Knight, true) => MoveFlags::PromoCaptureKnight,
            (PieceKind::Bishop, true) => MoveFlags::PromoCaptureBishop,
            (PieceKind::Rook, true) => MoveFlags::PromoCaptureRook,
            (PieceKind::Queen, true) => MoveFlags::PromoCaptureQueen,
            _ => MoveFlags::PromoQueen,
        }
    }

    /// The 4-bit code of the flag.
    pub fn code(self) -> (c: u16)
        ensures
            c == flag_code(self),
    {
        match self {
            MoveFlags::Quiet => 0,
            MoveFlags::DoublePush => 1,
            MoveFlags::CastleKing => 2,
            MoveFlags::CastleQueen => 3,
            MoveFlags::Capture => 4,
            MoveFlags::EnPassant => 5,
            MoveFlags::PromoKnight => 8,
            MoveFlags::PromoBishop => 9,
            MoveFlags::PromoRook => 10,
            MoveFlags::PromoQueen => 11,
            MoveFlags::PromoCaptureKnight => 12,
            MoveFlags::PromoCaptureBishop => 13,
            MoveFlags::PromoCaptureRook => 14,
            MoveFlags::PromoCaptureQueen => 15,
        }
    }
}

proof fn lemma_pack(a: u16, b: u16, c: u16)
    requires
        a < 64,
        b < 64,
        c < 16,
    ensures
        a | (b << 6u16) | (c << 12u16) == a + 64 * b + 4096 * c,
{
    assert(a | (b << 6u16) | (c << 12u16) == a + 64 * b + 4096 * c) by (bit_vector)
        requires
            a < 64,
            b < 64,
            c < 16,
    ;
}

proof fn lemma_unpack(x: u16)
    ensures
        x & 63u16 == x % 64,
        (x >> 6u16) & 63u16 == (x / 64) % 64,
        x >> 12u16 == x / 4096,
        (x >> 12u16) & 4u16 != 0 <==> (x / 4096) % 8 >= 4,
        (x >> 12u16) & 8u16 != 0 <==> x / 4096 >= 8,
{
    assert(x & 63u16 == x % 64) by (bit_vector);
    assert((x >> 6u16) & 63u16 == (x / 64) % 64) by (bit_vector);
    assert(x >> 12u16 == x / 4096) by (bit_vector);
    assert((x >> 12u16) & 4u16 != 0 <==> (x / 4096) % 8 >= 4) by (bit_vector);
    assert((x >> 12u16) & 8u16 != 0 <==> x / 4096 >= 8) by (bit_vector);
}

/// A move packed into 16 bits: from (6) | to (6) | flags (4).
#[derive(Clone, Copy, PartialEq, Eq, Hash, Debug, Structural)]
pub struct Move(pub u16);

impl Move {
    /// The packed value of a move.
    pub open spec fn pack(from: Square, to: Square, flags: MoveFlags) -> Move {
        Move((from.0 + 64 * to.0 + 4096 * flag_code(flags)) as u16)
    }

    /// The flag field holds the code of a flag.
    pub open spec fn wf(self) -> bool {
        valid_code((self.0 / 4096) as int)
    }

    pub open spec fn spec_from(self) -> Square {
        Square((self.0 % 64) as u8)
    }

    pub open spec fn spec_to(self) -> Square {
        Square(((self.0 / 64) % 64) as u8)
    }

    pub open spec fn spec_flags(self) -> MoveFlags {
        flag_of_code((self.0 / 4096) as int)
    }

    pub open spec fn spec_promotion(self) -> Option<PieceKind> {
        flag_promotion(self.spec_flags())
    }

    pub open spec fn spec_is_capture(self) -> bool {
        (self.0 / 4096) % 8 >= 4
    }

    pub open spec fn spec_is_castle(self) -> bool {
        self.spec_flags() == MoveFlags::CastleKing || self.spec_flags() == MoveFlags::CastleQueen
    }

    pub proof fn lemma_pack_fields(from: Square, to: Square, flags: MoveFlags)
        requires
            from.wf(),
            to.wf(),
        ensures
            Move::pack(from, to, flags).wf(),
            Move::pack(from, to, flags).spec_from() == from,
            Move::pack(from, to, flags).spec_to() == to,
            Move::pack(from, to, flags).spec_flags() == flags,
            Move::pack(from, to, flags).0 / 4096 == flag_code(flags),
    {
        lemma_flag_code(flags);
    }

    pub fn new(from: Square, to: Square, flags: MoveFlags) -> (m: Move)
        requires
            from.wf(),
            to.wf(),
        ensures
            m == Move::pack(from, to, flags),
            m.wf(),
            m.spec_from() == from,
            m.spec_to() == to,
            m.spec_flags() == flags,
    {
        let c = flags.code();
        proof {
            lemma_pack(from.0 as u16, to.0 as u16, c);
            Move::lemma_pack_fields(from, to, flags);
        }
        Move(from.0 as u16 | (to.0 as u16) << 6u16 | c << 12u16)
    }

    #[verifier::when_used_as_spec(spec_from)]
    pub fn from(self) -> (s: Square)
        ensures
            s == self.spec_from(),
            s.wf(),
    {
        proof {
            lemma_unpack(self.0);
        }
        Square((self.0 & 63) as u8)
    }

    #[verifier::when_used_as_spec(spec_to)]
    pub fn to(self) -> (s: Square)
        ensures
            s == self.spec_to(),
            s.wf(),
    {
        proof {
            lemma_unpack(self.0);
        }
        Square((self.0 >> 6 & 63) as u8)
    }

    #[verifier::when_used_as_spec(spec_flags)]
    pub fn flags(self) -> (f: MoveFlags)
        requires
            self.wf(),
        ensures
            f == self.spec_flags(),
    {
        proof {
            lemma_unpack(self.0);
        }
        let c = self.0 >> 12;
        if c == 0 {
            MoveFlags::Quiet
        } else if c == 1 {
            MoveFlags::DoublePush
        } else if c == 2 {
            MoveFlags::CastleKing
        } else if c == 3 {
            MoveFlags::CastleQueen
        } else if c == 4 {
            MoveFlags::Capture
        } else if c == 5 {
            MoveFlags::EnPassant
        } else if c == 8 {
            MoveFlags::PromoKnight
        } else if c == 9 {
            MoveFlags::PromoBishop
        } else if c == 10 {
            MoveFlags::PromoRook
        } else if c == 11 {
            MoveFlags::PromoQueen
        } else if c == 12 {
            MoveFlags::PromoCaptureKnight
        } else if c == 13 {
            MoveFlags::PromoCaptureBishop
        } else if c == 14 {
            MoveFlags::PromoCaptureRook
        } else {
            MoveFlags::PromoCaptureQueen
        }
    }

    #[verifier::when_used_as_spec(spec_is_capture)]
    pub fn is_capture(self) -> (b: bool)
        ensures
            b == self.spec_is_capture(),
    {
        proof {
            lemma_unpack(self.0);
        }
        self.0 >> 12 & 4 != 0
    }

    pub fn is_promotion(self) -> (b: bool)
        ensures
            b == (self.0 / 4096 >= 8),
            self.wf() ==> (b <==> self.spec_promotion() is Some),
    {
        proof {
            lemma_unpack(self.0);
        }
        self.0 >> 12 & 8 != 0
    }

    #[verifier::when_used_as_spec(spec_is_castle)]
    pub fn is_castle(self) -> (b: bool)
        requires
            self.wf(),
        ensures
            b == self.spec_is_castle(),
    {
        match self.flags() {
            MoveFlags::CastleKing | MoveFlags::CastleQueen => true,
            _ => false,
        }
    }

    #[verifier::when_used_as_spec(spec_promotion)]
    pub fn promotion(self) -> (p: Option<PieceKind>)
        requires
            self.wf(),
        ensures
            p == self.spec_promotion(),
    {
        match self.flags() {
            MoveFlags::PromoKnight | MoveFlags::PromoCaptureKnight => Some(PieceKind::Knight),
            MoveFlags::PromoBishop | MoveFlags::PromoCaptureBishop => Some(PieceKind::Bishop),
            MoveFlags::PromoRook | MoveFlags::PromoCaptureRook => Some(PieceKind::Rook),
            MoveFlags::PromoQueen | MoveFlags::PromoCaptureQueen => Some(PieceKind::Queen),
            _ => None,
        }
    }
}

/// The first move of a list that satisfies a predicate, if any.
pub open spec fn first_where(s: Seq<Move>, p: spec_fn(Move) -> bool) -> Option<Move> {
    let f = s.filter(p);
    if f.len() > 0 {
        Some(f[0])
    } else {
        None
    }
}

/// One step of a front-to-back search: with nothing found before `i`,
/// either `s[i]` is the first match or nothing matches up to `i + 1`.
pub proof fn lemma_first_where_step(s: Seq<Move>, p: spec_fn(Move) -> bool, i: int)
    requires
        0 <= i < s.len(),
        s.take(i).filter(p).len() == 0,
    ensures
        !p(s[i]) ==> s.take(i + 1).filter(p).len() == 0,
        p(s[i]) ==> first_where(s, p) == Some(s[i]),
{
    reveal_with_fuel(Seq::filter, 1);
    assert(s.take(i + 1).drop_last() =~= s.take(i));
    assert(s.take(i).filter(p) =~= Seq::<Move>::empty());
    if p(s[i]) {
        assert(s =~= s.take(i + 1) + s.skip(i + 1));
        Seq::filter_distributes_over_add(s.take(i + 1), s.skip(i + 1), p);
        assert(s.take(i + 1).filter(p) =~= seq![s[i]]);
    }
}

/// What a search finds is a member of the list that satisfies the predicate.
pub proof fn lemma_first_where_member(s: Seq<Move>, p: spec_fn(Move) -> bool)
    requires
        first_where(s, p) is Some,
    ensures
        exists|k: int| 0 <= k < s.len() && s[k] == first_where(s, p).unwrap(),
        p(first_where(s, p).unwrap()),
    decreases s.len(),
{
    reveal_with_fuel(Seq::filter, 1);
    s.lemma_filter_pred(p, 0);
    lemma_filter_first_member(s, p);
}

proof fn lemma_filter_first_member(s: Seq<Move>, p: spec_fn(Move) -> bool)
    requires
        s.filter(p).len() > 0,
    ensures
        exists|k: int| 0 <= k < s.len() && s[k] == s.filter(p)[0],
    decreases s.len(),
{
    reveal_with_fuel(Seq::filter, 1);
    if s.len() > 0 {
        let sub = s.drop_last().filter(p);
        if sub.len() > 0 {
            lemma_filter_first_member(s.drop_last(), p);
            let k = choose|k: int| 0 <= k < s.drop_last().len() && s.drop_last()[k] == sub[0];
            assert(s[k] == s.filter(p)[0]);
        } else {
            assert(s[s.len() - 1] == s.filter(p)[0]);
        }
    }
}

/// A search that found nothing in the whole list: no move matches.
pub proof fn lemma_first_where_none(s: Seq<Move>, p: spec_fn(Move) -> bool)
    requires
        s.take(s.len() as int).filter(p).len() == 0,
    ensures
        first_where(s, p) is None,
{
    assert(s.take(s.len() as int) =~= s);
}

/// A growable list of moves.
pub struct MoveList {
    moves: Vec<Move>,
}

impl View for MoveList {
    type V = Seq<Move>;

    closed spec fn view(&self) -> Seq<Move> {
        self.moves@
    }
}

impl MoveList {
    pub fn new() -> (l: MoveList)
        ensures
            l@ == Seq::<Move>::empty(),
    {
        MoveList { moves: Vec::new() }
    }

    pub fn push(&mut self, mv: Move)
        ensures
            final(self)@ == old(self)@.push(mv),
    {
        self.moves.push(mv);
    }

    pub fn len(&self) -> (n: usize)
        ensures
            n == self@.len(),
    {
        self.moves.len()
    }

    pub fn is_empty(&self) -> (e: bool)
        ensures
            e == (self@.len() == 0),
    {
        self.moves.len() == 0
    }

    pub fn as_slice(&self) -> (s: &[Move])
        ensures
            s@ == self@,
    {
        self.moves.as_slice()
    }

    /// The move at `i`.
    pub fn get(&self, i: usize) -> (m: Move)
        requires
            i < self@.len(),
        ensures
            m == self@[i as int],
    {
        self.moves[i]
    }

    /// Iterates over the moves in order.
    pub fn iter(&self) -> (it: std::slice::Iter<'_, Move>)
        ensures
            it.remaining() == self@.as_ref(),
            vstd::std_specs::slice::into_iter_elts(it) == self@,
    {
        let s = self.moves.as_slice();
        let it = s.iter();
        proof {
            vstd::std_specs::slice::axiom_spec_slice_iter(s);
        }
        it
    }
}

impl Default for MoveList {
    fn default() -> (l: MoveList)
        ensures
            l@ == Seq::<Move>::empty(),
    {
        MoveList::new()
    }
}

} // verus!
