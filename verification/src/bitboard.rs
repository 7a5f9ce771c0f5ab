//! Sets of squares, one bit each; bit 0 = a1, bit 63 = h8.

use vstd::prelude::*;
use vstd::std_specs::bits::{u64_trailing_zeros, axiom_u64_trailing_zeros};
use vstd::std_specs::ops::{BitAndSpecImpl, BitOrSpecImpl, BitXorSpecImpl, NotSpecImpl};
use crate::types::Square;

verus! {

/// Bit `i` of `x` is set.
pub open spec fn bit(x: u64, i: int) -> bool {
    0 <= i < 64 && (x >> (i as u64)) & 1u64 == 1u64
}

/// The squares whose bits are set in `x`, from index `i` upwards, ascending.
pub open spec fn squares_from(x: u64, i: int) -> Seq<Square>
    decreases 64 - i,
{
    if i < 0 || i >= 64 {
        Seq::empty()
    } else if bit(x, i) {
        seq![Square(i as u8)] + squares_from(x, i + 1)
    } else {
        squares_from(x, i + 1)
    }
}

/// The squares from index `i` upwards that satisfy `p`, ascending.
pub open spec fn squares_where(p: spec_fn(int) -> bool, i: int) -> Seq<Square>
    decreases 64 - i,
{
    if i < 0 || i >= 64 {
        Seq::empty()
    } else if p(i) {
        seq![Square(i as u8)] + squares_where(p, i + 1)
    } else {
        squares_where(p, i + 1)
    }
}

/// Listing the set bits of `x` is listing the squares that satisfy a
/// predicate agreeing with those bits.
pub proof fn lemma_squares_from_where(x: u64, p: spec_fn(int) -> bool, i: int)
    requires
        0 <= i <= 64,
        forall|j: int| 0 <= j < 64 ==> bit(x, j) == p(j),
    ensures
        squares_from(x, i) == squares_where(p, i),
    decreases 64 - i,
{
    if i < 64 {
        lemma_squares_from_where(x, p, i + 1);
    }
}

/// Every square listed is on the board, at or above `i`, satisfies `p`, and
/// every such square is listed once.
pub proof fn lemma_squares_where_members(p: spec_fn(int) -> bool, i: int)
    requires
        0 <= i <= 64,
    ensures
        forall|k: int|
            0 <= k < squares_where(p, i).len() ==> {
                &&& (#[trigger] squares_where(p, i)[k]).0 >= i
                &&& squares_where(p, i)[k].0 < 64
                &&& p(squares_where(p, i)[k].0 as int)
            },
        forall|s: int| i <= s < 64 && #[trigger] p(s) ==> squares_where(p, i).contains(Square(s as u8)),
        squares_where(p, i).no_duplicates(),
    decreases 64 - i,
{
    if i < 64 {
        lemma_squares_where_members(p, i + 1);
        let rest = squares_where(p, i + 1);
        if p(i) {
            let all = seq![Square(i as u8)] + rest;
            assert(squares_where(p, i) == all);
            assert forall|k: int| 0 <= k < all.len() implies {
                &&& (#[trigger] all[k]).0 >= i
                &&& all[k].0 < 64
                &&& p(all[k].0 as int)
            } by {
                if k > 0 {
                    assert(all[k] == rest[k - 1]);
                }
            }
            assert forall|s: int| i <= s < 64 && #[trigger] p(s) implies all.contains(Square(s as u8)) by {
                if s == i {
                    assert(all[0] == Square(s as u8));
                } else {
                    let k = choose|k: int| 0 <= k < rest.len() && rest[k] == Square(s as u8);
                    assert(all[k + 1] == Square(s as u8));
                }
            }
            assert forall|a: int, b: int| 0 <= a < all.len() && 0 <= b < all.len() && a != b
                implies all[a] != all[b] by {
                if a > 0 && b > 0 {
                    assert(all[a] == rest[a - 1]);
                    assert(all[b] == rest[b - 1]);
                } else if a == 0 {
                    assert(all[b] == rest[b - 1]);
                } else {
                    assert(all[a] == rest[a - 1]);
                }
            }
        } else {
            assert forall|s: int| i <= s < 64 && #[trigger] p(s) implies rest.contains(Square(s as u8)) by {
                assert(s != i);
            }
        }
    }
}

/// Number of set bits of `x` below index `n`.
pub open spec fn count_below(x: u64, n: int) -> nat
    decreases n,
{
    if n <= 0 {
        0
    } else {
        count_below(x, n - 1) + if bit(x, n - 1) { 1nat } else { 0nat }
    }
}

pub proof fn lemma_bit_ops(x: u64, y: u64, i: u64)
    requires
        i < 64,
    ensures
        ((x & y) >> i) & 1u64 == 1u64 <==> ((x >> i) & 1u64 == 1u64 && (y >> i) & 1u64 == 1u64),
        ((x | y) >> i) & 1u64 == 1u64 <==> ((x >> i) & 1u64 == 1u64 || (y >> i) & 1u64 == 1u64),
        ((x ^ y) >> i) & 1u64 == 1u64 <==> ((x >> i) & 1u64 == 1u64) != ((y >> i) & 1u64 == 1u64),
        ((!x) >> i) & 1u64 == 1u64 <==> !((x >> i) & 1u64 == 1u64),
        ((0u64 >> i) & 1u64) != 1u64,
{
    assert(((x & y) >> i) & 1u64 == 1u64 <==> ((x >> i) & 1u64 == 1u64 && (y >> i) & 1u64 == 1u64))
        by (bit_vector);
    assert(((x | y) >> i) & 1u64 == 1u64 <==> ((x >> i) & 1u64 == 1u64 || (y >> i) & 1u64 == 1u64))
        by (bit_vector);
    assert(((x ^ y) >> i) & 1u64 == 1u64 <==> ((x >> i) & 1u64 == 1u64) != ((y >> i) & 1u64
        == 1u64)) by (bit_vector);
    assert(((!x) >> i) & 1u64 == 1u64 <==> !((x >> i) & 1u64 == 1u64)) by (bit_vector)
        requires
            i < 64,
    ;
    assert(((0u64 >> i) & 1u64) != 1u64) by (bit_vector);
}

pub proof fn lemma_bit_single(s: u64, i: u64)
    requires
        s < 64,
        i < 64,
    ensures
        ((1u64 << s) >> i) & 1u64 == 1u64 <==> i == s,
{
    assert(((1u64 << s) >> i) & 1u64 == 1u64 <==> i == s) by (bit_vector)
        requires
            s < 64,
            i < 64,
    ;
}

pub broadcast proof fn lemma_bits_and(x: u64, y: u64, i: int)
    ensures
        #[trigger] bit(x & y, i) == (bit(x, i) && bit(y, i)),
{
    if 0 <= i < 64 {
        lemma_bit_ops(x, y, i as u64);
    }
}

pub broadcast proof fn lemma_bits_or(x: u64, y: u64, i: int)
    ensures
        #[trigger] bit(x | y, i) == (bit(x, i) || bit(y, i)),
{
    if 0 <= i < 64 {
        lemma_bit_ops(x, y, i as u64);
    }
}

pub broadcast proof fn lemma_bits_xor(x: u64, y: u64, i: int)
    ensures
        #[trigger] bit(x ^ y, i) == (bit(x, i) != bit(y, i)),
{
    if 0 <= i < 64 {
        lemma_bit_ops(x, y, i as u64);
    }
}

pub broadcast proof fn lemma_bits_not(x: u64, i: int)
    ensures
        #[trigger] bit(!x, i) == (0 <= i < 64 && !bit(x, i)),
{
    if 0 <= i < 64 {
        lemma_bit_ops(x, x, i as u64);
    }
}

pub broadcast proof fn lemma_bits_single(s: u64, i: int)
    requires
        s < 64,
    ensures
        #[trigger] bit(1u64 << s, i) == (i == s),
{
    if 0 <= i < 64 {
        lemma_bit_single(s, i as u64);
    }
}

pub broadcast group group_bits {
    lemma_bits_and,
    lemma_bits_or,
    lemma_bits_xor,
    lemma_bits_not,
    lemma_bits_single,
}

pub proof fn lemma_bits_and_all(x: u64, y: u64)
    ensures
        forall|i: int| #[trigger] bit(x & y, i) == (bit(x, i) && bit(y, i)),
{
    assert forall|i: int| #[trigger] bit(x & y, i) == (bit(x, i) && bit(y, i)) by {
        lemma_bits_and(x, y, i);
    }
}

pub proof fn lemma_bits_zero(i: int)
    ensures
        !bit(0u64, i),
{
    if 0 <= i < 64 {
        lemma_bit_ops(0u64, 0u64, i as u64);
    }
}

/// A nonzero word has its lowest set bit at its trailing-zero count.
pub proof fn lemma_lowest_bit(x: u64)
    ensures
        x != 0 ==> {
            &&& u64_trailing_zeros(x) < 64
            &&& bit(x, u64_trailing_zeros(x) as int)
            &&& forall|j: int| 0 <= j < u64_trailing_zeros(x) ==> !bit(x, j)
        },
        x == 0 ==> forall|j: int| !bit(x, j),
{
    axiom_u64_trailing_zeros(x);
    if x == 0 {
        assert forall|j: int| !bit(x, j) by {
            lemma_bits_zero(j);
        }
    } else {
        let t = u64_trailing_zeros(x);
        assert forall|j: int| 0 <= j < t implies !bit(x, j) by {
            let ju = j as u64;
            assert((x >> ju) & 1u64 == 0u64);
        }
    }
}

pub proof fn lemma_squares_skip(x: u64, i: int, j: int)
    requires
        0 <= i <= j <= 64,
        forall|k: int| i <= k < j ==> !bit(x, k),
    ensures
        squares_from(x, i) == squares_from(x, j),
    decreases j - i,
{
    if i < j {
        lemma_squares_skip(x, i + 1, j);
    }
}

pub proof fn lemma_squares_agree(x: u64, y: u64, i: int)
    requires
        0 <= i <= 64,
        forall|k: int| i <= k < 64 ==> bit(x, k) == bit(y, k),
    ensures
        squares_from(x, i) == squares_from(y, i),
    decreases 64 - i,
{
    if i < 64 {
        lemma_squares_agree(x, y, i + 1);
    }
}

/// Every square listed from index `i` is on the board, at or above `i`, and set.
pub proof fn lemma_squares_members(x: u64, i: int)
    requires
        0 <= i <= 64,
    ensures
        forall|k: int|
            0 <= k < squares_from(x, i).len() ==> {
                &&& (#[trigger] squares_from(x, i)[k]).0 >= i
                &&& squares_from(x, i)[k].0 < 64
                &&& bit(x, squares_from(x, i)[k].0 as int)
            },
        forall|s: int| i <= s < 64 && bit(x, s) ==> squares_from(x, i).contains(Square(s as u8)),
        squares_from(x, i).no_duplicates(),
    decreases 64 - i,
{
    if i < 64 {
        lemma_squares_members(x, i + 1);
        let rest = squares_from(x, i + 1);
        if bit(x, i) {
            let all = seq![Square(i as u8)] + rest;
            assert(squares_from(x, i) == all);
            assert forall|k: int| 0 <= k < all.len() implies {
                &&& (#[trigger] all[k]).0 >= i
                &&& all[k].0 < 64
                &&& bit(x, all[k].0 as int)
            } by {
                if k > 0 {
                    assert(all[k] == rest[k - 1]);
                }
            }
            assert forall|s: int| i <= s < 64 && bit(x, s) implies all.contains(
                Square(s as u8),
            ) by {
                if s == i {
                    assert(all[0] == Square(s as u8));
                } else {
                    let k = choose|k: int| 0 <= k < rest.len() && rest[k] == Square(s as u8);
                    assert(all[k + 1] == Square(s as u8));
                }
            }
            assert forall|a: int, b: int| 0 <= a < all.len() && 0 <= b < all.len() && a != b
                implies all[a] != all[b] by {
                if a > 0 && b > 0 {
                    assert(all[a] == rest[a - 1]);
                    assert(all[b] == rest[b - 1]);
                } else if a == 0 {
                    assert(all[b] == rest[b - 1]);
                } else {
                    assert(all[a] == rest[a - 1]);
                }
            }
        } else {
            assert forall|s: int| i <= s < 64 && bit(x, s) implies rest.contains(
                Square(s as u8),
            ) by {
                assert(s != i);
            }
        }
    }
}

/// A set of squares, one bit each; bit 0 = a1, bit 63 = h8.
#[derive(Clone, Copy, PartialEq, Eq, Debug, Default, Hash, Structural)]
pub struct Bitboard(pub u64);

impl Bitboard {
    pub const EMPTY_BITS: u64 = 0;
    pub const FILE_A_BITS: u64 = 0x0101_0101_0101_0101;
    pub const FILE_H_BITS: u64 = 0x8080_8080_8080_8080;
    pub const RANK_1_BITS: u64 = 0x0000_0000_0000_00FF;
    pub const RANK_8_BITS: u64 = 0xFF00_0000_0000_0000;

    /// Square index `i` is in the set.
    pub open spec fn has(self, i: int) -> bool {
        bit(self.0, i)
    }

    /// Membership as a predicate on square indices.
    pub open spec fn occ(self) -> spec_fn(int) -> bool {
        |i: int| self.has(i)
    }

    /// The members, ascending.
    pub open spec fn squares(self) -> Seq<Square> {
        squares_from(self.0, 0)
    }

    /// The empty set.
    pub fn empty() -> (b: Bitboard)
        ensures
            forall|i: int| !b.has(i),
            b.squares() == Seq::<Square>::empty(),
    {
        proof {
            assert forall|i: int| !bit(0u64, i) by {
                lemma_bits_zero(i);
            }
            lemma_squares_skip(0u64, 0, 64);
        }
        Bitboard(0)
    }

    pub fn from_square(sq: Square) -> (b: Bitboard)
        requires
            sq.wf(),
        ensures
            forall|i: int| b.has(i) <==> i == sq.0,
    {
        proof {
            broadcast use group_bits;
        }
        Bitboard(1u64 << sq.0)
    }

    pub fn is_empty(self) -> (e: bool)
        ensures
            e == (self.0 == 0),
            e == (forall|i: int| !self.has(i)),
            e ==> self.squares() == Seq::<Square>::empty(),
    {
        proof {
            lemma_lowest_bit(self.0);
            if self.0 == 0 {
                lemma_squares_skip(self.0, 0, 64);
            } else {
                assert(self.has(u64_trailing_zeros(self.0) as int));
            }
        }
        self.0 == 0
    }

    pub fn contains(self, sq: Square) -> (b: bool)
        requires
            sq.wf(),
        ensures
            b == self.has(sq.0 as int),
    {
        proof {
            broadcast use group_bits;
            assert(bit(self.0 & (1u64 << sq.0), sq.0 as int) == bit(self.0, sq.0 as int));
            lemma_lowest_bit(self.0 & (1u64 << sq.0));
            if self.0 & (1u64 << sq.0) != 0 {
                let t = u64_trailing_zeros(self.0 & (1u64 << sq.0)) as int;
                assert(bit(1u64 << sq.0, t));
            }
        }
        self.0 & (1u64 << sq.0) != 0
    }

    pub fn set(&mut self, sq: Square)
        requires
            sq.wf(),
        ensures
            forall|i: int| final(self).has(i) == (old(self).has(i) || i == sq.0),
            final(self).0 == old(self).0 | (1u64 << sq.0),
            count_below(final(self).0, 64) == count_below(old(self).0, 64) + if old(self).has(
                sq.0 as int,
            ) {
                0nat
            } else {
                1nat
            },
    {
        proof {
            broadcast use group_bits;
            law_set_counts_once(*old(self), sq);
        }
        self.0 = self.0 | (1u64 << sq.0);
    }

    pub fn clear(&mut self, sq: Square)
        requires
            sq.wf(),
        ensures
            forall|i: int| final(self).has(i) == (old(self).has(i) && i != sq.0),
            final(self).0 == old(self).0 & !(1u64 << sq.0),
            count_below(final(self).0, 64) + (if old(self).has(sq.0 as int) {
                1nat
            } else {
                0nat
            }) == count_below(old(self).0, 64),
    {
        proof {
            broadcast use group_bits;
            law_clear_counts_once(*old(self), sq);
        }
        self.0 = self.0 & !(1u64 << sq.0);
    }

    /// Number of squares in the set.
    pub fn count(self) -> (n: u32)
        ensures
            n == count_below(self.0, 64),
    {
        let mut n: u32 = 0;
        let mut i: u64 = 0;
        while i < 64
            invariant
                i <= 64,
                n == count_below(self.0, i as int),
                n <= i,
            decreases 64 - i,
        {
            if (self.0 >> i) & 1 == 1 {
                n = n + 1;
            }
            i = i + 1;
        }
        n
    }

    /// Lowest set square, if any.
    pub fn first(self) -> (res: Option<Square>)
        ensures
            res is None <==> self.0 == 0,
            res matches Some(sq) ==> {
                &&& sq.wf()
                &&& self.has(sq.0 as int)
                &&& forall|j: int| 0 <= j < sq.0 ==> !self.has(j)
                &&& self.squares().len() > 0
                &&& self.squares()[0] == sq
            },
    {
        proof {
            lemma_lowest_bit(self.0);
        }
        if self.0 == 0 {
            None
        } else {
            let t = self.0.trailing_zeros();
            proof {
                lemma_squares_skip(self.0, 0, t as int);
            }
            Some(Square(t as u8))
        }
    }

    /// Removes and returns the lowest set square.
    pub fn next(&mut self) -> (res: Option<Square>)
        ensures
            res is None ==> old(self).0 == 0 && *final(self) == *old(self) && old(self).squares()
                == Seq::<Square>::empty(),
            res matches Some(sq) ==> {
                &&& sq.wf()
                &&& old(self).squares() == seq![sq] + final(self).squares()
                &&& forall|i: int| final(self).has(i) == (old(self).has(i) && i != sq.0)
            },
    {
        proof {
            lemma_lowest_bit(self.0);
        }
        match self.first() {
            None => {
                proof {
                    lemma_squares_skip(self.0, 0, 64);
                }
                None
            },
            Some(sq) => {
                let ghost before = *self;
                self.clear(sq);
                proof {
                    let t = sq.0 as int;
                    assert forall|k: int| 0 <= k < t + 1 implies !bit(self.0, k) by {
                        assert(!self.has(k));
                    }
                    assert forall|k: int| t + 1 <= k < 64 implies bit(self.0, k) == bit(before.0, k) by {
                        assert(self.has(k) == before.has(k));
                    }
                    lemma_squares_skip(self.0, 0, t + 1);
                    lemma_squares_agree(self.0, before.0, t + 1);
                    assert forall|k: int| 0 <= k < t implies !bit(before.0, k) by {
                        assert(!before.has(k));
                    }
                    lemma_squares_skip(before.0, 0, t);
                    assert(squares_from(before.0, t) == seq![sq] + squares_from(before.0, t + 1));
                }
                Some(sq)
            },
        }
    }

    pub fn union(self, rhs: Bitboard) -> (r: Bitboard)
        ensures
            r.0 == self.0 | rhs.0,
            forall|i: int| r.has(i) == (self.has(i) || rhs.has(i)),
    {
        proof {
            broadcast use group_bits;
        }
        Bitboard(self.0 | rhs.0)
    }

    pub fn intersection(self, rhs: Bitboard) -> (r: Bitboard)
        ensures
            r.0 == self.0 & rhs.0,
            forall|i: int| r.has(i) == (self.has(i) && rhs.has(i)),
    {
        proof {
            broadcast use group_bits;
        }
        Bitboard(self.0 & rhs.0)
    }

    pub fn complement(self) -> (r: Bitboard)
        ensures
            r.0 == !self.0,
            forall|i: int| r.has(i) == (0 <= i < 64 && !self.has(i)),
    {
        proof {
            broadcast use group_bits;
        }
        Bitboard(!self.0)
    }
}

impl core::ops::BitAnd for Bitboard {
    type Output = Bitboard;

    fn bitand(self, rhs: Bitboard) -> (r: Bitboard) {
        Bitboard(self.0 & rhs.0)
    }
}

impl BitAndSpecImpl for Bitboard {
    open spec fn obeys_bitand_spec() -> bool {
        true
    }

    open spec fn bitand_req(self, rhs: Bitboard) -> bool {
        true
    }

    open spec fn bitand_spec(self, rhs: Bitboard) -> Bitboard {
        Bitboard(self.0 & rhs.0)
    }
}

impl core::ops::BitOr for Bitboard {
    type Output = Bitboard;

    fn bitor(self, rhs: Bitboard) -> (r: Bitboard) {
        Bitboard(self.0 | rhs.0)
    }
}

impl BitOrSpecImpl for Bitboard {
    open spec fn obeys_bitor_spec() -> bool {
        true
    }

    open spec fn bitor_req(self, rhs: Bitboard) -> bool {
        true
    }

    open spec fn bitor_spec(self, rhs: Bitboard) -> Bitboard {
        Bitboard(self.0 | rhs.0)
    }
}

impl core::ops::BitXor for Bitboard {
    type Output = Bitboard;

    fn bitxor(self, rhs: Bitboard) -> (r: Bitboard) {
        Bitboard(self.0 ^ rhs.0)
    }
}

impl BitXorSpecImpl for Bitboard {
    open spec fn obeys_bitxor_spec() -> bool {
        true
    }

    open spec fn bitxor_req(self, rhs: Bitboard) -> bool {
        true
    }

    open spec fn bitxor_spec(self, rhs: Bitboard) -> Bitboard {
        Bitboard(self.0 ^ rhs.0)
    }
}

impl core::ops::Not for Bitboard {
    type Output = Bitboard;

    fn not(self) -> (r: Bitboard) {
        Bitboard(!self.0)
    }
}

impl NotSpecImpl for Bitboard {
    open spec fn obeys_not_spec() -> bool {
        true
    }

    open spec fn not_req(self) -> bool {
        true
    }

    open spec fn not_spec(self) -> Bitboard {
        Bitboard(!self.0)
    }
}

proof fn lemma_count_set(x: u64, s: u64, n: int)
    requires
        s < 64,
        0 <= n <= 64,
    ensures
        count_below(x | (1u64 << s), n) == count_below(x, n) + if s < n && !bit(x, s as int) {
            1nat
        } else {
            0nat
        },
    decreases n,
{
    broadcast use group_bits;

    if n > 0 {
        lemma_count_set(x, s, n - 1);
        assert(bit(x | (1u64 << s), n - 1) == (bit(x, n - 1) || n - 1 == s));
    }
}

proof fn lemma_count_clear(x: u64, s: u64, n: int)
    requires
        s < 64,
        0 <= n <= 64,
    ensures
        count_below(x & !(1u64 << s), n) + (if s < n && bit(x, s as int) {
            1nat
        } else {
            0nat
        }) == count_below(x, n),
    decreases n,
{
    broadcast use group_bits;

    if n > 0 {
        lemma_count_clear(x, s, n - 1);
        assert(bit(x & !(1u64 << s), n - 1) == (bit(x, n - 1) && n - 1 != s));
    }
}

/// Setting a square (`Bitboard::set`) adds one to the count exactly when
/// the square was empty, and setting it a second time changes nothing.
pub proof fn law_set_counts_once(b: Bitboard, sq: Square)
    requires
        sq.wf(),
    ensures
        count_below(b.0 | (1u64 << sq.0), 64) == count_below(b.0, 64) + if b.has(sq.0 as int) {
            0nat
        } else {
            1nat
        },
        (b.0 | (1u64 << sq.0)) | (1u64 << sq.0) == b.0 | (1u64 << sq.0),
{
    let s = sq.0 as u64;
    lemma_count_set(b.0, s, 64);
    assert((1u64 << sq.0) == (1u64 << s));
    let x = b.0;
    assert((x | (1u64 << s)) | (1u64 << s) == x | (1u64 << s)) by (bit_vector);
}

/// Clearing a square (`Bitboard::clear`) takes one off the count exactly
/// when the square was set, and clearing it a second time changes nothing.
pub proof fn law_clear_counts_once(b: Bitboard, sq: Square)
    requires
        sq.wf(),
    ensures
        count_below(b.0 & !(1u64 << sq.0), 64) + (if b.has(sq.0 as int) {
            1nat
        } else {
            0nat
        }) == count_below(b.0, 64),
        (b.0 & !(1u64 << sq.0)) & !(1u64 << sq.0) == b.0 & !(1u64 << sq.0),
{
    let s = sq.0 as u64;
    lemma_count_clear(b.0, s, 64);
    assert((1u64 << sq.0) == (1u64 << s));
    let x = b.0;
    assert((x & !(1u64 << s)) & !(1u64 << s) == x & !(1u64 << s)) by (bit_vector);
}

/// Clearing a square that setting just filled gives the set back, and so
/// does setting a square that clearing just emptied.
pub proof fn law_clear_undoes_set(b: Bitboard, sq: Square)
    requires
        sq.wf(),
    ensures
        !b.has(sq.0 as int) ==> (b.0 | (1u64 << sq.0)) & !(1u64 << sq.0) == b.0,
        b.has(sq.0 as int) ==> (b.0 & !(1u64 << sq.0)) | (1u64 << sq.0) == b.0,
{
    let s = sq.0 as u64;
    let x = b.0;
    assert((1u64 << sq.0) == (1u64 << s));
    if !b.has(sq.0 as int) {
        assert((x | (1u64 << s)) & !(1u64 << s) == x) by (bit_vector)
            requires
                s < 64,
                (x >> s) & 1u64 != 1u64,
        ;
    } else {
        assert((x & !(1u64 << s)) | (1u64 << s) == x) by (bit_vector)
            requires
                s < 64,
                (x >> s) & 1u64 == 1u64,
        ;
    }
}

} // verus!
