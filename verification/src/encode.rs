//! The side-to-move frame and the policy-head index of a move, shared with
//! the network's training code.

use vstd::prelude::*;
use crate::legality::{lemma_generated_moves_distinct, lemma_pseudo_shape, move_shape, one_king, promo_shape, sane, sole_king};
use crate::movegen::{law_legal_moves_are_safe, legal_moves_of};
use crate::moves::Move;
use crate::position::{lowest_king, Model, Position};
use crate::types::{file_of, rank_of, CastlingRights, Color, Piece, PieceKind, Square};

verus! {

/// Planes of the position tensor.
pub const PLANE_COUNT: usize = 19;

/// Entries of the policy head: 64 * 64 from-to pairs, then 72 slots for
/// underpromotions.
pub const POLICY_SIZE: usize = 4168;

/// A square seen from `side`: Black sees the ranks mirrored.
pub open spec fn pov(sq: int, side: Color) -> int {
    match side {
        Color::White => sq,
        Color::Black => (7 - rank_of(sq)) * 8 + file_of(sq),
    }
}

/// Maps a square into the side-to-move frame: for Black the ranks are
/// mirrored (files untouched), so that "us" always plays up the board.
pub fn pov_square(sq: Square, side: Color) -> (r: Square)
    requires
        sq.wf(),
    ensures
        r.wf(),
        r.0 == pov(sq.0 as int, side),
{
    match side {
        Color::White => sq,
        Color::Black => {
            let x = sq.0;
            assert(x < 64 ==> (x ^ 56u8) == (7 - x / 8) * 8 + x % 8 && (x ^ 56u8) < 64) by (bit_vector);
            Square(x ^ 56)
        },
    }
}

/// The policy index of a move by `side`: from * 64 + to in the side's
/// frame, or for an underpromotion 4096 + file * 9 + direction * 3 + piece
/// (direction 0 straight, 1 toward file - 1, 2 toward file + 1; piece 0
/// knight, 1 bishop, 2 rook).
pub open spec fn policy_of(mv: Move, side: Color) -> int {
    let from = pov(mv.spec_from().0 as int, side);
    let to = pov(mv.spec_to().0 as int, side);
    let piece: int = match mv.spec_promotion() {
        Some(PieceKind::Knight) => 0,
        Some(PieceKind::Bishop) => 1,
        _ => 2,
    };
    let direction: int = if file_of(to) == file_of(from) {
        0
    } else if file_of(to) == file_of(from) - 1 {
        1
    } else {
        2
    };
    match mv.spec_promotion() {
        None => from * 64 + to,
        Some(PieceKind::Queen) => from * 64 + to,
        _ => 4096 + file_of(from) * 9 + direction * 3 + piece,
    }
}

/// Policy-head index (below `POLICY_SIZE`) of a move played by `side`.
pub fn policy_index(mv: Move, side: Color) -> (i: usize)
    requires
        mv.wf(),
    ensures
        i == policy_of(mv, side),
        i < POLICY_SIZE,
{
    let from = pov_square(mv.from(), side);
    let to = pov_square(mv.to(), side);
    let piece: usize = match mv.promotion() {
        None => return from.index() * 64 + to.index(),
        Some(PieceKind::Queen) => return from.index() * 64 + to.index(),
        Some(PieceKind::Knight) => 0,
        Some(PieceKind::Bishop) => 1,
        _ => 2,
    };
    let direction: usize = if to.file() == from.file() {
        0
    } else if to.file() + 1 == from.file() {
        1
    } else {
        2
    };
    4096 + from.file() as usize * 9 + direction * 3 + piece
}

/// Cell `cell` of the input planes of `m`, flattened as `plane * 64 +
/// square` with the square in the side to move's frame: planes 0-5 mark the
/// side to move's pieces and 6-11 the other side's, by kind (pawn, knight,
/// bishop, rook, queen, king); planes 12-15 are filled with the castling
/// rights (ours king-side, ours queen-side, theirs king-side, theirs
/// queen-side); plane 16 marks the en-passant square; plane 17, the clock
/// plane, is 0 here; plane 18 is all ones.
pub open spec fn plane_bit(m: Model, cell: int) -> u8 {
    let plane = cell / 64;
    let i = cell % 64;
    let us = m.side;
    let them = us.spec_opposite();
    let rights = CastlingRights(m.castling);
    let on = |b: bool| if b { 1u8 } else { 0u8 };
    if plane < 12 {
        let color = if plane < 6 { us } else { them };
        on(m.board[pov(i, us)] == Some(
            Piece { color, kind: PieceKind::from_index((plane % 6) as nat) },
        ))
    } else if plane == 12 {
        on(rights.spec_king_side(us))
    } else if plane == 13 {
        on(rights.spec_queen_side(us))
    } else if plane == 14 {
        on(rights.spec_king_side(them))
    } else if plane == 15 {
        on(rights.spec_queen_side(them))
    } else if plane == 16 {
        on(m.ep matches Some(e) && pov(e.0 as int, us) == i)
    } else if plane == 17 {
        0
    } else {
        1
    }
}

fn plane_cell(pos: &Position, cell: usize) -> (b: u8)
    requires
        pos.wf(),
        cell < PLANE_COUNT * 64,
    ensures
        b == plane_bit(pos@, cell as int),
{
    let plane = cell / 64;
    let i = cell % 64;
    let us = pos.side_to_move;
    let them = us.opposite();
    if plane < 12 {
        let color = if plane < 6 { us } else { them };
        let k = plane % 6;
        let kind = if k == 0 {
            PieceKind::Pawn
        } else if k == 1 {
            PieceKind::Knight
        } else if k == 2 {
            PieceKind::Bishop
        } else if k == 3 {
            PieceKind::Rook
        } else if k == 4 {
            PieceKind::Queen
        } else {
            PieceKind::King
        };
        let sq = pov_square(Square(i as u8), us);
        match pos.piece_at(sq) {
            Some(p) => if p.color == color && p.kind == kind {
                1
            } else {
                0
            },
            None => 0,
        }
    } else if plane < 16 {
        let on = if plane == 12 {
            pos.castling.king_side(us)
        } else if plane == 13 {
            pos.castling.queen_side(us)
        } else if plane == 14 {
            pos.castling.king_side(them)
        } else {
            pos.castling.queen_side(them)
        };
        if on {
            1
        } else {
            0
        }
    } else if plane == 16 {
        match pos.en_passant {
            Some(e) => if pov_square(e, us).0 as usize == i {
                1
            } else {
                0
            },
            None => 0,
        }
    } else if plane == 17 {
        0
    } else {
        1
    }
}

/// The input planes of a position as 0/1 cells, `PLANE_COUNT` planes of 64
/// (see `plane_bit`). The clock plane is left at 0: it holds the halfmove
/// clock divided by 100, which the caller fills in.
pub fn plane_bits(pos: &Position) -> (t: Vec<u8>)
    requires
        pos.wf(),
    ensures
        t@.len() == PLANE_COUNT * 64,
        forall|cell: int| 0 <= cell < PLANE_COUNT * 64 ==> t@[cell] == plane_bit(pos@, cell),
{
    let mut t: Vec<u8> = Vec::new();
    let mut cell: usize = 0;
    while cell < PLANE_COUNT * 64
        invariant
            pos.wf(),
            cell <= PLANE_COUNT * 64,
            t@.len() == cell,
            forall|c: int| 0 <= c < cell ==> t@[c] == plane_bit(pos@, c),
        decreases PLANE_COUNT * 64 - cell,
    {
        let b = plane_cell(pos, cell);
        t.push(b);
        cell = cell + 1;
    }
    t
}

/// Every piece is marked on its kind's plane, at its square seen from the
/// side to move: the side to move's pieces on planes 0-5, the other side's
/// on planes 6-11; and the en-passant plane marks the en-passant square.
pub proof fn law_planes_mark_pieces(m: Model, s: int, k: int)
    requires
        0 <= s < 64,
        0 <= k < 6,
    ensures
        plane_bit(m, k * 64 + pov(s, m.side)) == 1 <==> m.board[s] == Some(
            Piece { color: m.side, kind: PieceKind::from_index(k as nat) },
        ),
        plane_bit(m, (k + 6) * 64 + pov(s, m.side)) == 1 <==> m.board[s] == Some(
            Piece { color: m.side.spec_opposite(), kind: PieceKind::from_index(k as nat) },
        ),
        plane_bit(m, 16 * 64 + pov(s, m.side)) == 1 <==> m.ep == Some(Square(s as u8)),
{
    law_pov_involution(s, m.side);
    let x = pov(s, m.side);
    assert(forall|j: int|
        0 <= j < 18 ==> #[trigger] ((j * 64 + x) / 64) == j && (j * 64 + x) % 64 == x) by {
        assert forall|j: int| 0 <= j < 18 implies #[trigger] ((j * 64 + x) / 64) == j && (j * 64
            + x) % 64 == x by {
            assert((j * 64 + x) / 64 == j && (j * 64 + x) % 64 == x) by (nonlinear_arith)
                requires
                    0 <= x < 64,
                    0 <= j < 18,
            ;
        }
    }
    assert((k * 64 + x) / 64 == k && (k * 64 + x) % 64 == x);
    assert(((k + 6) * 64 + x) / 64 == k + 6 && ((k + 6) * 64 + x) % 64 == x);
    assert((16 * 64 + x) / 64 == 16 && (16 * 64 + x) % 64 == x);
    assert((k + 6) % 6 == k);
    if let Some(e) = m.ep {
        if pov(e.0 as int, m.side) == x {
            law_pov_involution(e.0 as int, m.side);
        }
    }
}

/// Material worth of a piece kind in pawns; the king counts nothing.
pub open spec fn piece_value(kind: PieceKind) -> int {
    match kind {
        PieceKind::Pawn => 1,
        PieceKind::Knight => 3,
        PieceKind::Bishop => 3,
        PieceKind::Rook => 5,
        PieceKind::Queen => 9,
        PieceKind::King => 0,
    }
}

/// Material of `side` minus that of the other side, over the first `n`
/// squares.
pub open spec fn material_below(board: Seq<Option<Piece>>, side: Color, n: int) -> int
    decreases n,
{
    if n <= 0 {
        0
    } else {
        material_below(board, side, n - 1) + match board[n - 1] {
            Some(p) => if p.color == side {
                piece_value(p.kind)
            } else {
                -piece_value(p.kind)
            },
            None => 0,
        }
    }
}

proof fn lemma_material_bound(board: Seq<Option<Piece>>, side: Color, n: int)
    requires
        0 <= n,
    ensures
        -9 * n <= material_below(board, side, n) <= 9 * n,
    decreases n,
{
    if n > 0 {
        lemma_material_bound(board, side, n - 1);
    }
}

/// The same board weighed from the other side gives the opposite balance.
pub proof fn law_material_antisymmetric(board: Seq<Option<Piece>>, side: Color, n: int)
    ensures
        material_below(board, side, n) == -material_below(board, side.spec_opposite(), n),
    decreases n,
{
    if n > 0 {
        law_material_antisymmetric(board, side, n - 1);
    }
}

/// The material balance of a position in pawns, from the side to move's
/// point of view: its pieces' worth minus the other side's.
pub fn material_balance(pos: &Position) -> (v: i32)
    requires
        pos.wf(),
    ensures
        v == material_below(pos@.board, pos@.side, 64),
{
    let us = pos.side_to_move;
    let mut v: i32 = 0;
    let mut i: usize = 0;
    while i < 64
        invariant
            i <= 64,
            pos@.board == pos.mailbox@,
            us == pos@.side,
            v == material_below(pos@.board, us, i as int),
        decreases 64 - i,
    {
        proof {
            lemma_material_bound(pos@.board, us, i as int + 1);
        }
        match pos.mailbox[i] {
            Some(p) => {
                let w: i32 = match p.kind {
                    PieceKind::Pawn => 1,
                    PieceKind::Knight => 3,
                    PieceKind::Bishop => 3,
                    PieceKind::Rook => 5,
                    PieceKind::Queen => 9,
                    PieceKind::King => 0,
                };
                if p.color == us {
                    v = v + w;
                } else {
                    v = v - w;
                }
            },
            None => {},
        }
        i = i + 1;
    }
    v
}

/// The castling planes carry the rights of the side to move, then those of
/// the other side, on every cell: plane 12 is 1 exactly when the side to
/// move may still castle king-side (bit 1 of the rights for White, bit 4 for
/// Black), plane 13 queen-side (bit 2 for White, bit 8 for Black), planes 14
/// and 15 the same for the other side. Plane 17 is 0 and plane 18 is 1
/// throughout.
pub proof fn law_castling_planes(m: Model, i: int)
    requires
        0 <= i < 64,
    ensures
        plane_bit(m, 12 * 64 + i) == (if (if m.side == Color::White {
            m.castling & 1
        } else {
            m.castling & 4
        }) != 0 {
            1u8
        } else {
            0u8
        }),
        plane_bit(m, 13 * 64 + i) == (if (if m.side == Color::White {
            m.castling & 2
        } else {
            m.castling & 8
        }) != 0 {
            1u8
        } else {
            0u8
        }),
        plane_bit(m, 14 * 64 + i) == (if (if m.side == Color::White {
            m.castling & 4
        } else {
            m.castling & 1
        }) != 0 {
            1u8
        } else {
            0u8
        }),
        plane_bit(m, 15 * 64 + i) == (if (if m.side == Color::White {
            m.castling & 8
        } else {
            m.castling & 2
        }) != 0 {
            1u8
        } else {
            0u8
        }),
        plane_bit(m, 17 * 64 + i) == 0,
        plane_bit(m, 18 * 64 + i) == 1,
{
    assert forall|j: int| 12 <= j < 19 implies #[trigger] ((j * 64 + i) / 64) == j && (j * 64 + i)
        % 64 == i by {
        assert((j * 64 + i) / 64 == j && (j * 64 + i) % 64 == i) by (nonlinear_arith)
            requires
                0 <= i < 64,
                12 <= j < 19,
        ;
    }
    assert((12 * 64 + i) / 64 == 12);
    assert((13 * 64 + i) / 64 == 13);
    assert((14 * 64 + i) / 64 == 14);
    assert((15 * 64 + i) / 64 == 15);
    assert((17 * 64 + i) / 64 == 17);
    assert((18 * 64 + i) / 64 == 18);
}

/// Seen twice from the same side, a square is itself.
pub proof fn law_pov_involution(sq: int, side: Color)
    requires
        0 <= sq < 64,
    ensures
        0 <= pov(sq, side) < 64,
        pov(pov(sq, side), side) == sq,
{
}

/// A move by White and its mirror image by Black share one policy index,
/// so a pattern is learned once for both sides.
pub proof fn law_policy_mirror(from: Square, to: Square, flags: crate::moves::MoveFlags)
    requires
        from.wf(),
        to.wf(),
    ensures
        policy_of(Move::pack(from, to, flags), Color::White) == policy_of(
            Move::pack(
                Square(pov(from.0 as int, Color::Black) as u8),
                Square(pov(to.0 as int, Color::Black) as u8),
                flags,
            ),
            Color::Black,
        ),
{
    let f2 = Square(pov(from.0 as int, Color::Black) as u8);
    let t2 = Square(pov(to.0 as int, Color::Black) as u8);
    Move::lemma_pack_fields(from, to, flags);
    Move::lemma_pack_fields(f2, t2, flags);
    law_pov_involution(from.0 as int, Color::Black);
    law_pov_involution(to.0 as int, Color::Black);
}

proof fn lemma_legal_facts(m: Model, k: int)
    requires
        sane(m),
        0 <= k < legal_moves_of(m).len(),
    ensures
        move_shape(m, legal_moves_of(m)[k]),
        promo_shape(m, legal_moves_of(m)[k]),
        legal_moves_of(m)[k].wf(),
{
    law_legal_moves_are_safe(m, k);
    let s = choose|s: int| sole_king(m.board, m.side, s);
    assert(one_king(m.board, m.side));
    assert(lowest_king(m.board, m.side, s));
    lemma_pseudo_shape(m, legal_moves_of(m)[k]);
}

/// The policy index of a move is below `POLICY_SIZE`.
pub proof fn law_policy_in_range(mv: Move, side: Color)
    requires
        mv.wf(),
    ensures
        0 <= policy_of(mv, side) < POLICY_SIZE,
{
    law_pov_involution(mv.spec_from().0 as int, side);
    law_pov_involution(mv.spec_to().0 as int, side);
}

/// Distinct legal moves of a position that can arise in play get distinct
/// policy indices, so the policy head names each legal move once.
#[verifier::rlimit(60)]
pub proof fn law_policy_distinct(m: Model, i: int, j: int)
    requires
        sane(m),
        0 <= i < legal_moves_of(m).len(),
        0 <= j < legal_moves_of(m).len(),
        legal_moves_of(m)[i] != legal_moves_of(m)[j],
    ensures
        policy_of(legal_moves_of(m)[i], m.side) != policy_of(legal_moves_of(m)[j], m.side),
{
    let a = legal_moves_of(m)[i];
    let b = legal_moves_of(m)[j];
    let side = m.side;
    lemma_legal_facts(m, i);
    lemma_legal_facts(m, j);
    let fa = a.spec_from().0 as int;
    let ta = a.spec_to().0 as int;
    let fb = b.spec_from().0 as int;
    let tb = b.spec_to().0 as int;
    law_pov_involution(fa, side);
    law_pov_involution(ta, side);
    law_pov_involution(fb, side);
    law_pov_involution(tb, side);
    let pfa = pov(fa, side);
    let pta = pov(ta, side);
    let pfb = pov(fb, side);
    let ptb = pov(tb, side);
    assert(file_of(pfa) == file_of(fa) && file_of(pta) == file_of(ta));
    assert(file_of(pfb) == file_of(fb) && file_of(ptb) == file_of(tb));
    if policy_of(a, side) == policy_of(b, side) {
        let low_a = a.spec_promotion() is None || a.spec_promotion() == Some(PieceKind::Queen);
        let low_b = b.spec_promotion() is None || b.spec_promotion() == Some(PieceKind::Queen);
        if low_a && low_b {
            assert(pfa * 64 + pta == pfb * 64 + ptb);
            assert(pfa == pfb && pta == ptb) by (nonlinear_arith)
                requires
                    pfa * 64 + pta == pfb * 64 + ptb,
                    0 <= pta < 64,
                    0 <= ptb < 64,
                    0 <= pfa < 64,
                    0 <= pfb < 64,
            ;
            assert(fa == fb && ta == tb);
            assert(a.spec_from() == b.spec_from() && a.spec_to() == b.spec_to());
            if a.spec_promotion() != b.spec_promotion() {
                if a.spec_promotion() is Some {
                    assert(b.spec_flags() == crate::moves::MoveFlags::EnPassant);
                } else {
                    assert(a.spec_flags() == crate::moves::MoveFlags::EnPassant);
                }
                assert(false);
            }
            lemma_generated_moves_distinct(m, a, b);
        } else if !low_a && !low_b {
            assert(rank_of(pfa) == 6 && rank_of(pfb) == 6);
            assert(rank_of(pta) == 7 && rank_of(ptb) == 7);
            assert(pfa == pfb && pta == ptb);
            assert(fa == fb && ta == tb);
            assert(a.spec_from() == b.spec_from() && a.spec_to() == b.spec_to());
            lemma_generated_moves_distinct(m, a, b);
        } else {
            assert(false);
        }
    }
}

} // verus!
