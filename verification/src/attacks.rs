//! Attack sets: leapers by fixed offsets, sliders by ray scan.
//!
//! Each set is stated geometrically, from the file and rank distance between
//! the attacking square `s` and the attacked square `t`.

use vstd::prelude::*;
use crate::bitboard::Bitboard;
use crate::types::{file_of, rank_of, square_at, Color, Square};

verus! {

pub open spec fn abs(x: int) -> int {
    if x < 0 {
        -x
    } else {
        x
    }
}

pub open spec fn dfile(s: int, t: int) -> int {
    file_of(t) - file_of(s)
}

pub open spec fn drank(s: int, t: int) -> int {
    rank_of(t) - rank_of(s)
}

/// A square index on the board.
pub open spec fn on_board(i: int) -> bool {
    0 <= i < 64
}

/// A knight on `s` attacks `t`.
pub open spec fn knight_geo(s: int, t: int) -> bool {
    &&& on_board(s)
    &&& on_board(t)
    &&& ((abs(dfile(s, t)) == 1 && abs(drank(s, t)) == 2) || (abs(dfile(s, t)) == 2 && abs(
        drank(s, t),
    ) == 1))
}

/// A king on `s` attacks `t`.
pub open spec fn king_geo(s: int, t: int) -> bool {
    &&& on_board(s)
    &&& on_board(t)
    &&& abs(dfile(s, t)) <= 1
    &&& abs(drank(s, t)) <= 1
    &&& s != t
}

/// The rank direction in which pawns of `color` advance.
pub open spec fn pawn_dir(color: Color) -> int {
    match color {
        Color::White => 1,
        Color::Black => -1,
    }
}

/// A pawn of `color` on `s` attacks (captures towards) `t`.
pub open spec fn pawn_geo(color: Color, s: int, t: int) -> bool {
    &&& on_board(s)
    &&& on_board(t)
    &&& abs(dfile(s, t)) == 1
    &&& drank(s, t) == pawn_dir(color)
}

/// Coordinate `a` moved `n` steps in direction `d` (-1, 0 or 1).
pub open spec fn step(a: int, d: int, n: int) -> int {
    if d > 0 {
        a + n
    } else if d < 0 {
        a - n
    } else {
        a
    }
}

/// The square `k` steps from `s` in direction (df, dr).
pub open spec fn ray_point(s: int, df: int, dr: int, k: int) -> int {
    step(rank_of(s), dr, k) * 8 + step(file_of(s), df, k)
}

/// Number of steps from `s` to `t` along direction (df, dr), if `t` lies on that ray.
pub open spec fn ray_dist(s: int, df: int, dr: int, t: int) -> int {
    if df > 0 {
        file_of(t) - file_of(s)
    } else if df < 0 {
        file_of(s) - file_of(t)
    } else if dr > 0 {
        rank_of(t) - rank_of(s)
    } else {
        rank_of(s) - rank_of(t)
    }
}

/// `t` lies on the ray from `s` in direction (df, dr), at least one step away.
pub open spec fn on_ray(s: int, df: int, dr: int, t: int) -> bool {
    let n = ray_dist(s, df, dr, t);
    &&& on_board(s)
    &&& on_board(t)
    &&& n >= 1
    &&& 0 <= step(file_of(s), df, n) < 8
    &&& 0 <= step(rank_of(s), dr, n) < 8
    &&& t == ray_point(s, df, dr, n)
}

/// A slider on `s` moving in direction (df, dr) reaches `t`: `t` is on the
/// ray and every square strictly between is empty in `occ`.
pub open spec fn ray_hits(s: int, df: int, dr: int, occ: spec_fn(int) -> bool, t: int) -> bool {
    &&& on_ray(s, df, dr, t)
    &&& forall|k: int| 1 <= k < ray_dist(s, df, dr, t) ==> !occ(#[trigger] ray_point(s, df, dr, k))
}

pub open spec fn bishop_geo(s: int, occ: spec_fn(int) -> bool, t: int) -> bool {
    ||| ray_hits(s, -1, -1, occ, t)
    ||| ray_hits(s, -1, 1, occ, t)
    ||| ray_hits(s, 1, -1, occ, t)
    ||| ray_hits(s, 1, 1, occ, t)
}

pub open spec fn rook_geo(s: int, occ: spec_fn(int) -> bool, t: int) -> bool {
    ||| ray_hits(s, -1, 0, occ, t)
    ||| ray_hits(s, 1, 0, occ, t)
    ||| ray_hits(s, 0, -1, occ, t)
    ||| ray_hits(s, 0, 1, occ, t)
}

pub open spec fn queen_geo(s: int, occ: spec_fn(int) -> bool, t: int) -> bool {
    bishop_geo(s, occ, t) || rook_geo(s, occ, t)
}

proof fn lemma_square_at_coords(a: int, b: int, t: int)
    requires
        0 <= t < 64,
    ensures
        (square_at(a, b) == Some(t)) <==> (a == file_of(t) && b == rank_of(t)),
{
}

/// Adds the square at offset (df, dr) from `sq`, when it is on the board.
fn add_offset(acc: &mut Bitboard, sq: Square, df: i8, dr: i8)
    requires
        sq.wf(),
        -2 <= df <= 2,
        -2 <= dr <= 2,
    ensures
        forall|u: int|
            final(acc).has(u) == (old(acc).has(u) || square_at(
                file_of(sq.0 as int) + df,
                rank_of(sq.0 as int) + dr,
            ) == Some(u)),
{
    match sq.offset(df, dr) {
        Some(t) => acc.set(t),
        None => {},
    }
}

pub fn knight_attacks(sq: Square) -> (b: Bitboard)
    requires
        sq.wf(),
    ensures
        forall|t: int| b.has(t) <==> knight_geo(sq.0 as int, t),
{
    let mut acc = Bitboard::empty();
    add_offset(&mut acc, sq, -2, -1);
    add_offset(&mut acc, sq, -2, 1);
    add_offset(&mut acc, sq, -1, -2);
    add_offset(&mut acc, sq, -1, 2);
    add_offset(&mut acc, sq, 1, -2);
    add_offset(&mut acc, sq, 1, 2);
    add_offset(&mut acc, sq, 2, -1);
    add_offset(&mut acc, sq, 2, 1);
    proof {
        let s = sq.0 as int;
        let f = file_of(s);
        let r = rank_of(s);
        assert forall|t: int| acc.has(t) <==> knight_geo(s, t) by {
            if acc.has(t) {
                assert(0 <= t < 64);
            }
            if 0 <= t < 64 {
                lemma_square_at_coords(f - 2, r - 1, t);
                lemma_square_at_coords(f - 2, r + 1, t);
                lemma_square_at_coords(f - 1, r - 2, t);
                lemma_square_at_coords(f - 1, r + 2, t);
                lemma_square_at_coords(f + 1, r - 2, t);
                lemma_square_at_coords(f + 1, r + 2, t);
                lemma_square_at_coords(f + 2, r - 1, t);
                lemma_square_at_coords(f + 2, r + 1, t);
            }
        }
    }
    acc
}

#[verifier::rlimit(40)]
pub fn king_attacks(sq: Square) -> (b: Bitboard)
    requires
        sq.wf(),
    ensures
        forall|t: int| b.has(t) <==> king_geo(sq.0 as int, t),
{
    let mut acc = Bitboard::empty();
    add_offset(&mut acc, sq, -1, -1);
    add_offset(&mut acc, sq, -1, 0);
    add_offset(&mut acc, sq, -1, 1);
    add_offset(&mut acc, sq, 0, -1);
    add_offset(&mut acc, sq, 0, 1);
    add_offset(&mut acc, sq, 1, -1);
    add_offset(&mut acc, sq, 1, 0);
    add_offset(&mut acc, sq, 1, 1);
    proof {
        assert forall|t: int| acc.has(t) <==> king_geo(sq.0 as int, t) by {
            if acc.has(t) {
                assert(0 <= t < 64);
            }
        }
    }
    acc
}

/// Squares a pawn of `color` on `sq` attacks (captures only).
pub fn pawn_attacks(color: Color, sq: Square) -> (b: Bitboard)
    requires
        sq.wf(),
    ensures
        forall|t: int| b.has(t) <==> pawn_geo(color, sq.0 as int, t),
{
    let mut acc = Bitboard::empty();
    let dr: i8 = match color {
        Color::White => 1,
        Color::Black => -1,
    };
    add_offset(&mut acc, sq, -1, dr);
    add_offset(&mut acc, sq, 1, dr);
    proof {
        assert forall|t: int| acc.has(t) <==> pawn_geo(color, sq.0 as int, t) by {
            if acc.has(t) {
                assert(0 <= t < 64);
            }
        }
    }
    acc
}

/// Squares a slider on `sq` reaches in direction (df, dr), stopping at the
/// first occupied square (which is included).
#[verifier::rlimit(50)]
fn ray_attacks(sq: Square, occupied: Bitboard, df: i8, dr: i8) -> (b: Bitboard)
    requires
        sq.wf(),
        -1 <= df <= 1,
        -1 <= dr <= 1,
        df != 0 || dr != 0,
    ensures
        forall|t: int| b.has(t) <==> ray_hits(sq.0 as int, df as int, dr as int, occupied.occ(), t),
{
    let ghost s = sq.0 as int;
    let ghost dfi = df as int;
    let ghost dri = dr as int;
    let mut acc = Bitboard::empty();
    let mut current = sq;
    let ghost mut k: int = 0;
    loop
        invariant_except_break
            0 <= k <= 7,
            current.wf(),
            current.0 == ray_point(s, dfi, dri, k),
            0 <= step(file_of(s), dfi, k) < 8,
            0 <= step(rank_of(s), dri, k) < 8,
            forall|j: int| 1 <= j <= k ==> !occupied.has(#[trigger] ray_point(s, dfi, dri, j)),
            forall|u: int| acc.has(u) <==> (on_ray(s, dfi, dri, u) && ray_dist(s, dfi, dri, u) <= k),
        invariant
            sq.wf(),
            s == sq.0,
            -1 <= dfi <= 1,
            -1 <= dri <= 1,
            dfi != 0 || dri != 0,
            dfi == df,
            dri == dr,
        ensures
            forall|t: int| acc.has(t) <==> ray_hits(s, dfi, dri, occupied.occ(), t),
        decreases 7 - k,
    {
        match current.offset(df, dr) {
            None => {
                proof {
                    assert forall|t: int| acc.has(t) <==> ray_hits(s, dfi, dri, occupied.occ(), t) by {
                        if on_ray(s, dfi, dri, t) && ray_dist(s, dfi, dri, t) > k {
                            assert(0 <= step(file_of(s), dfi, k + 1) < 8);
                            assert(0 <= step(rank_of(s), dri, k + 1) < 8);
                        }
                    }
                }
                break ;
            },
            Some(next) => {
                acc.set(next);
                proof {
                    assert(next.0 == ray_point(s, dfi, dri, k + 1));
                    assert(ray_dist(s, dfi, dri, next.0 as int) == k + 1);
                }
                if occupied.contains(next) {
                    proof {
                        assert(forall|x: int| #[trigger] (occupied.occ())(x) == occupied.has(x));
                        assert forall|t: int| acc.has(t) <==> ray_hits(s, dfi, dri, occupied.occ(), t) by {
                            if ray_hits(s, dfi, dri, occupied.occ(), t) && ray_dist(s, dfi, dri, t) > k + 1 {
                                assert(!occupied.has(ray_point(s, dfi, dri, k + 1)));
                            }
                            if acc.has(t) {
                                assert forall|j: int| 1 <= j < ray_dist(s, dfi, dri, t) implies !occupied.has(
                                    #[trigger] ray_point(s, dfi, dri, j),
                                ) by {}
                            }
                        }
                    }
                    break ;
                }
                proof {
                    k = k + 1;
                }
                current = next;
                proof {
                    assert(k <= 7);
                }
            },
        }
    }
    acc
}

pub fn bishop_attacks(sq: Square, occupied: Bitboard) -> (b: Bitboard)
    requires
        sq.wf(),
    ensures
        forall|t: int| b.has(t) <==> bishop_geo(sq.0 as int, occupied.occ(), t),
{
    let a = ray_attacks(sq, occupied, -1, -1);
    let b = ray_attacks(sq, occupied, -1, 1);
    let c = ray_attacks(sq, occupied, 1, -1);
    let d = ray_attacks(sq, occupied, 1, 1);
    a.union(b).union(c).union(d)
}

pub fn rook_attacks(sq: Square, occupied: Bitboard) -> (b: Bitboard)
    requires
        sq.wf(),
    ensures
        forall|t: int| b.has(t) <==> rook_geo(sq.0 as int, occupied.occ(), t),
{
    let a = ray_attacks(sq, occupied, -1, 0);
    let b = ray_attacks(sq, occupied, 1, 0);
    let c = ray_attacks(sq, occupied, 0, -1);
    let d = ray_attacks(sq, occupied, 0, 1);
    a.union(b).union(c).union(d)
}

pub fn queen_attacks(sq: Square, occupied: Bitboard) -> (b: Bitboard)
    requires
        sq.wf(),
    ensures
        forall|t: int| b.has(t) <==> queen_geo(sq.0 as int, occupied.occ(), t),
{
    bishop_attacks(sq, occupied).union(rook_attacks(sq, occupied))
}

proof fn lemma_ray_coords(s: int, df: int, dr: int, t: int)
    requires
        on_ray(s, df, dr, t),
    ensures
        file_of(t) == step(file_of(s), df, ray_dist(s, df, dr, t)),
        rank_of(t) == step(rank_of(s), dr, ray_dist(s, df, dr, t)),
{
    let n = ray_dist(s, df, dr, t);
    let f = step(file_of(s), df, n);
    let r = step(rank_of(s), dr, n);
    assert(t == r * 8 + f);
    assert((r * 8 + f) % 8 == f && (r * 8 + f) / 8 == r) by (nonlinear_arith)
        requires
            0 <= f < 8,
            0 <= r < 8,
    ;
}

/// No square lies both on a diagonal and on a line through `s`: the
/// bishop's and the rook's attacks, which make up the queen's, never
/// overlap.
pub proof fn law_queen_parts_disjoint(s: int, occ: spec_fn(int) -> bool, t: int)
    ensures
        !(bishop_geo(s, occ, t) && rook_geo(s, occ, t)),
{
    if bishop_geo(s, occ, t) && rook_geo(s, occ, t) {
        let dd = if ray_hits(s, -1, -1, occ, t) {
            (-1int, -1int)
        } else if ray_hits(s, -1, 1, occ, t) {
            (-1int, 1int)
        } else if ray_hits(s, 1, -1, occ, t) {
            (1int, -1int)
        } else {
            (1int, 1int)
        };
        let ld = if ray_hits(s, -1, 0, occ, t) {
            (-1int, 0int)
        } else if ray_hits(s, 1, 0, occ, t) {
            (1int, 0int)
        } else if ray_hits(s, 0, -1, occ, t) {
            (0int, -1int)
        } else {
            (0int, 1int)
        };
        lemma_ray_coords(s, dd.0, dd.1, t);
        lemma_ray_coords(s, ld.0, ld.1, t);
    }
}

} // verus!
