//! Positions that can arise in play, and why legal moves keep them so.

use vstd::prelude::*;
use crate::attacks::{
    bishop_geo, king_geo, knight_geo, on_ray, pawn_dir, pawn_geo, queen_geo, ray_dist, ray_hits,
    ray_point, rook_geo, step,
};
use crate::bitboard::{lemma_squares_where_members, squares_where};
use crate::movegen::{
    attack_set, capture_targets, castle_moves, concat_map, enemy, king_sq, origins, own_kind,
    back_rank, castle_backed, clocks_ok, ep_backed, ep_rank, ep_sane, gen_ok, legal_moves_of, pawn_capture,
    pawn_from, pawn_moves, pawn_pushes, pawn_targets, piece_moves,
    pseudo_legal_moves, promotions, quiet_targets, start_rank, target_moves, vacant,
};
use crate::moves::{flag_code, flag_of_code, flag_promotion, promo_flag, valid_code, Move, MoveFlags};
use crate::position::{
    apply_board, apply_model, attacked, attacker, board_occ, ep_victim, in_check_on, is_capture_flag,
    is_castle_flag, lowest_king, rook_from, rook_to, start_model, start_piece, touched, Model,
};
use crate::types::{file_of, rank_of, square_at, Color, Piece, PieceKind, Square};

verus! {

proof fn lemma_coords(s: int)
    requires
        0 <= s < 64,
    ensures
        s == rank_of(s) * 8 + file_of(s),
        0 <= file_of(s) < 8,
        0 <= rank_of(s) < 8,
{
}

/// A square index is its rank times eight plus its file.
pub proof fn lemma_coords_pub(s: int)
    requires
        0 <= s < 64,
    ensures
        s == rank_of(s) * 8 + file_of(s),
        0 <= file_of(s) < 8,
        0 <= rank_of(s) < 8,
{
}

proof fn lemma_point_coords(r: int, f: int)
    requires
        0 <= r < 8,
        0 <= f < 8,
    ensures
        rank_of(r * 8 + f) == r,
        file_of(r * 8 + f) == f,
{
}

/// A ray from `s` reaching `t` is, read backwards, a ray from `t` reaching
/// `s` over the same squares.
pub proof fn lemma_ray_symmetric(s: int, df: int, dr: int, occ: spec_fn(int) -> bool, t: int)
    requires
        ray_hits(s, df, dr, occ, t),
        -1 <= df <= 1,
        -1 <= dr <= 1,
        df != 0 || dr != 0,
    ensures
        ray_hits(t, -df, -dr, occ, s),
{
    let n = ray_dist(s, df, dr, t);
    let rs = rank_of(s);
    let fs = file_of(s);
    lemma_coords(s);
    lemma_point_coords(step(rs, dr, n), step(fs, df, n));
    assert(rank_of(t) == step(rs, dr, n));
    assert(file_of(t) == step(fs, df, n));
    assert(ray_dist(t, -df, -dr, s) == n);
    assert(on_ray(t, -df, -dr, s));
    assert forall|k: int| 1 <= k < ray_dist(t, -df, -dr, s) implies !occ(
        #[trigger] ray_point(t, -df, -dr, k),
    ) by {
        assert(ray_point(t, -df, -dr, k) == ray_point(s, df, dr, n - k));
    }
}

pub proof fn lemma_bishop_symmetric(s: int, occ: spec_fn(int) -> bool, t: int)
    requires
        bishop_geo(s, occ, t),
    ensures
        bishop_geo(t, occ, s),
{
    if ray_hits(s, -1, -1, occ, t) {
        lemma_ray_symmetric(s, -1, -1, occ, t);
    } else if ray_hits(s, -1, 1, occ, t) {
        lemma_ray_symmetric(s, -1, 1, occ, t);
    } else if ray_hits(s, 1, -1, occ, t) {
        lemma_ray_symmetric(s, 1, -1, occ, t);
    } else {
        lemma_ray_symmetric(s, 1, 1, occ, t);
    }
}

pub proof fn lemma_rook_symmetric(s: int, occ: spec_fn(int) -> bool, t: int)
    requires
        rook_geo(s, occ, t),
    ensures
        rook_geo(t, occ, s),
{
    if ray_hits(s, -1, 0, occ, t) {
        lemma_ray_symmetric(s, -1, 0, occ, t);
    } else if ray_hits(s, 1, 0, occ, t) {
        lemma_ray_symmetric(s, 1, 0, occ, t);
    } else if ray_hits(s, 0, -1, occ, t) {
        lemma_ray_symmetric(s, 0, -1, occ, t);
    } else {
        lemma_ray_symmetric(s, 0, 1, occ, t);
    }
}

pub proof fn lemma_queen_symmetric(s: int, occ: spec_fn(int) -> bool, t: int)
    requires
        queen_geo(s, occ, t),
    ensures
        queen_geo(t, occ, s),
{
    if bishop_geo(s, occ, t) {
        lemma_bishop_symmetric(s, occ, t);
    } else {
        lemma_rook_symmetric(s, occ, t);
    }
}

pub proof fn lemma_leapers_symmetric(c: Color, s: int, t: int)
    ensures
        knight_geo(s, t) ==> knight_geo(t, s),
        king_geo(s, t) ==> king_geo(t, s),
        pawn_geo(c, s, t) ==> pawn_geo(c.spec_opposite(), t, s),
{
}

proof fn lemma_add_contains(a: Seq<Move>, b: Seq<Move>, x: Move)
    requires
        (a + b).contains(x),
    ensures
        a.contains(x) || b.contains(x),
{
    let j = choose|j: int| 0 <= j < (a + b).len() && (a + b)[j] == x;
    if j < a.len() {
        assert(a[j] == x);
    } else {
        assert(b[j - a.len()] == x);
    }
}

proof fn lemma_concat_map_contains(s: Seq<Square>, f: spec_fn(Square) -> Seq<Move>, x: Move)
    requires
        concat_map(s, f).contains(x),
    ensures
        exists|i: int| 0 <= i < s.len() && #[trigger] f(s[i]).contains(x),
    decreases s.len(),
{
    if s.len() > 0 {
        lemma_add_contains(concat_map(s.drop_last(), f), f(s.last()), x);
        if concat_map(s.drop_last(), f).contains(x) {
            lemma_concat_map_contains(s.drop_last(), f, x);
            let i = choose|i: int| 0 <= i < s.drop_last().len() && #[trigger] f(s.drop_last()[i]).contains(x);
            assert(s[i] == s.drop_last()[i]);
        } else {
            assert(f(s[s.len() - 1]).contains(x));
        }
    }
}

/// What the generator guarantees of the shape of a move beyond `apply`'s
/// needs: captures go to squares the moving piece attacks, other moves to
/// empty squares, a double push jumps over an empty square from the start
/// rank, en passant lands on the en-passant square, castling starts from
/// the king with the right still held.
pub open spec fn move_shape(m: Model, mv: Move) -> bool {
    let from = mv.spec_from().0 as int;
    let to = mv.spec_to().0 as int;
    let f = mv.spec_flags();
    let us = m.side;
    &&& m.board[from] is Some
    &&& m.board[from].unwrap().color == us
    &&& (flag_promotion(f) is Some ==> m.board[from] == Some(Piece { color: us, kind: PieceKind::Pawn }))
    &&& (is_capture_flag(f) ==> attacker(m.board, to, us, board_occ(m.board), from) && enemy(m, to))
    &&& (!is_capture_flag(f) && f != MoveFlags::EnPassant ==> m.board[to] is None)
    &&& (f == MoveFlags::DoublePush ==> {
        &&& m.board[from] == Some(Piece { color: us, kind: PieceKind::Pawn })
        &&& rank_of(from) == start_rank(us)
        &&& to == from + 16 * pawn_dir(us)
        &&& m.board[from + 8 * pawn_dir(us)] is None
    })
    &&& (f == MoveFlags::EnPassant ==> m.ep == Some(Square(to as u8)) && pawn_geo(us, from, to)
        && m.board[from] == Some(Piece { color: us, kind: PieceKind::Pawn }))
    &&& (!is_capture_flag(f) && f != MoveFlags::EnPassant && f != MoveFlags::DoublePush
        && !is_castle_flag(f) && m.board[from] == Some(Piece { color: us, kind: PieceKind::Pawn })
        ==> to == from + 8 * pawn_dir(us))
    &&& (f == MoveFlags::Quiet && m.board[from] == Some(Piece { color: us, kind: PieceKind::King })
        ==> king_geo(from, to))
    &&& (is_castle_flag(f) ==> {
        &&& lowest_king(m.board, us, from)
        &&& (f == MoveFlags::CastleKing ==> m.board[back_rank(us) * 8 + 5] is None && to
            == back_rank(us) * 8 + 6)
        &&& (f == MoveFlags::CastleQueen ==> m.board[back_rank(us) * 8 + 3] is None && to
            == back_rank(us) * 8 + 2)
        &&& (f == MoveFlags::CastleKing ==> if us == Color::White {
            m.castling & 1 != 0
        } else {
            m.castling & 4 != 0
        })
        &&& (f == MoveFlags::CastleQueen ==> if us == Color::White {
            m.castling & 2 != 0
        } else {
            m.castling & 8 != 0
        })
    })
}

/// Promotions are exactly the pawn moves onto the last rank (en passant
/// aside), and a promoting pawn steps from the rank before it to a file at
/// most one away.
pub open spec fn promo_shape(m: Model, mv: Move) -> bool {
    let from = mv.spec_from().0 as int;
    let to = mv.spec_to().0 as int;
    let f = mv.spec_flags();
    let us = m.side;
    &&& (flag_promotion(f) is Some ==> {
        &&& rank_of(to) == crate::movegen::promo_rank(us)
        &&& rank_of(from) == crate::movegen::promo_rank(us) - pawn_dir(us)
        &&& -1 <= file_of(to) - file_of(from) <= 1
    })
    &&& (m.board[from] == Some(Piece { color: us, kind: PieceKind::Pawn }) && flag_promotion(f) is None
        && f != MoveFlags::EnPassant ==> rank_of(to) != crate::movegen::promo_rank(us))
}

/// Moves to attacked squares, from a piece of the side to move on `from`.
proof fn lemma_target_shape(m: Model, from: Square, attack: spec_fn(int) -> bool, mv: Move)
    requires
        from.wf(),
        target_moves(m, from, attack).contains(mv),
    ensures
        mv.spec_from() == from,
        mv.spec_to().wf(),
        (mv.spec_flags() == MoveFlags::Capture && attack(mv.spec_to().0 as int) && enemy(m, mv.spec_to().0 as int))
            || (mv.spec_flags() == MoveFlags::Quiet && attack(mv.spec_to().0 as int) && vacant(
            m,
            mv.spec_to().0 as int,
        )),
{
    let caps = squares_where(capture_targets(m, attack), 0);
    let quiets = squares_where(quiet_targets(m, attack), 0);
    lemma_squares_where_members(capture_targets(m, attack), 0);
    lemma_squares_where_members(quiet_targets(m, attack), 0);
    let a = caps.map_values(|t: Square| Move::pack(from, t, MoveFlags::Capture));
    let b = quiets.map_values(|t: Square| Move::pack(from, t, MoveFlags::Quiet));
    lemma_add_contains(a, b, mv);
    if a.contains(mv) {
        let j = choose|j: int| 0 <= j < a.len() && a[j] == mv;
        assert(caps[j].0 < 64);
        Move::lemma_pack_fields(from, caps[j], MoveFlags::Capture);
    } else {
        let j = choose|j: int| 0 <= j < b.len() && b[j] == mv;
        assert(quiets[j].0 < 64);
        Move::lemma_pack_fields(from, quiets[j], MoveFlags::Quiet);
    }
}

proof fn lemma_piece_shape(m: Model, kind: PieceKind, mv: Move)
    requires
        m.board.len() == 64,
        kind == PieceKind::Knight || kind == PieceKind::Bishop || kind == PieceKind::Rook || kind
            == PieceKind::Queen,
        piece_moves(m, kind).contains(mv),
    ensures
        move_shape(m, mv),
        promo_shape(m, mv),
        mv.wf(),
{
    let occ = board_occ(m.board);
    let f = |from: Square| target_moves(m, from, attack_set(kind, from.0 as int, occ));
    lemma_concat_map_contains(origins(m, kind), f, mv);
    let i = choose|i: int| 0 <= i < origins(m, kind).len() && #[trigger] f(origins(m, kind)[i]).contains(mv);
    let from = origins(m, kind)[i];
    lemma_squares_where_members(own_kind(m, kind), 0);
    assert(from.0 < 64);
    assert(m.board[from.0 as int] == Some(Piece { color: m.side, kind }));
    lemma_target_shape(m, from, attack_set(kind, from.0 as int, occ), mv);
    let to = mv.spec_to().0 as int;
    Move::lemma_pack_fields(from, mv.spec_to(), mv.spec_flags());
    if mv.spec_flags() == MoveFlags::Capture {
        lemma_leapers_symmetric(m.side, from.0 as int, to);
        if kind == PieceKind::Bishop {
            lemma_bishop_symmetric(from.0 as int, occ, to);
        } else if kind == PieceKind::Rook {
            lemma_rook_symmetric(from.0 as int, occ, to);
        } else if kind == PieceKind::Queen {
            lemma_queen_symmetric(from.0 as int, occ, to);
        }
    }
}

proof fn lemma_promotions_shape(m: Model, from: Square, to: Square, capture: bool, mv: Move)
    requires
        from.wf(),
        to.wf(),
        promotions(from, to, capture).contains(mv),
    ensures
        mv.wf(),
        mv.spec_from() == from,
        mv.spec_to() == to,
        is_capture_flag(mv.spec_flags()) == capture,
        mv.spec_flags() != MoveFlags::EnPassant,
        !is_castle_flag(mv.spec_flags()),
        mv.spec_flags() != MoveFlags::DoublePush,
{
    let ps = promotions(from, to, capture);
    let j = choose|j: int| 0 <= j < ps.len() && ps[j] == mv;
    Move::lemma_pack_fields(from, to, promo_flag(PieceKind::Queen, capture));
    Move::lemma_pack_fields(from, to, promo_flag(PieceKind::Rook, capture));
    Move::lemma_pack_fields(from, to, promo_flag(PieceKind::Bishop, capture));
    Move::lemma_pack_fields(from, to, promo_flag(PieceKind::Knight, capture));
}

proof fn lemma_pawn_shape(m: Model, mv: Move)
    requires
        m.board.len() == 64,
        pawn_moves(m).contains(mv),
    ensures
        move_shape(m, mv),
        mv.wf(),
{
    let us = m.side;
    let f = |from: Square| pawn_from(m, from);
    lemma_concat_map_contains(origins(m, PieceKind::Pawn), f, mv);
    let i = choose|i: int|
        0 <= i < origins(m, PieceKind::Pawn).len() && #[trigger] f(origins(m, PieceKind::Pawn)[i]).contains(mv);
    let from = origins(m, PieceKind::Pawn)[i];
    lemma_squares_where_members(own_kind(m, PieceKind::Pawn), 0);
    assert(from.0 < 64);
    let fi = from.0 as int;
    assert(m.board[fi] == Some(Piece { color: us, kind: PieceKind::Pawn }));
    lemma_coords(fi);
    let g = |to: Square| pawn_capture(m, from, to);
    let targets = squares_where(pawn_targets(us, fi), 0);
    lemma_add_contains(pawn_pushes(m, from), concat_map(targets, g), mv);
    if pawn_pushes(m, from).contains(mv) {
        let dir = pawn_dir(us);
        let r = rank_of(fi);
        let fl = file_of(fi);
        let one = square_at(fl, r + dir).unwrap();
        assert(one == fi + 8 * dir);
        lemma_coords(one);
        if rank_of(one) == crate::movegen::promo_rank(us) {
            lemma_promotions_shape(m, from, Square(one as u8), false, mv);
        } else {
            let two = one + 8 * dir;
            let quiet = Move::pack(from, Square(one as u8), MoveFlags::Quiet);
            Move::lemma_pack_fields(from, Square(one as u8), MoveFlags::Quiet);
            if mv != quiet {
                assert(0 <= two < 64);
                Move::lemma_pack_fields(from, Square(two as u8), MoveFlags::DoublePush);
            }
        }
    } else {
        lemma_concat_map_contains(targets, g, mv);
        let k = choose|k: int| 0 <= k < targets.len() && #[trigger] g(targets[k]).contains(mv);
        let to = targets[k];
        lemma_squares_where_members(pawn_targets(us, fi), 0);
        assert(to.0 < 64);
        assert(pawn_geo(us, fi, to.0 as int));
        lemma_leapers_symmetric(us, fi, to.0 as int);
        if enemy(m, to.0 as int) {
            if rank_of(to.0 as int) == crate::movegen::promo_rank(us) {
                lemma_promotions_shape(m, from, to, true, mv);
            } else {
                Move::lemma_pack_fields(from, to, MoveFlags::Capture);
            }
        } else {
            Move::lemma_pack_fields(from, to, MoveFlags::EnPassant);
        }
    }
}

#[verifier::rlimit(40)]
proof fn lemma_pawn_promo_shape(m: Model, mv: Move)
    requires
        m.board.len() == 64,
        pawn_moves(m).contains(mv),
    ensures
        promo_shape(m, mv),
{
    let us = m.side;
    let f = |from: Square| pawn_from(m, from);
    lemma_concat_map_contains(origins(m, PieceKind::Pawn), f, mv);
    let i = choose|i: int|
        0 <= i < origins(m, PieceKind::Pawn).len() && #[trigger] f(origins(m, PieceKind::Pawn)[i]).contains(mv);
    let from = origins(m, PieceKind::Pawn)[i];
    lemma_squares_where_members(own_kind(m, PieceKind::Pawn), 0);
    assert(from.0 < 64);
    let fi = from.0 as int;
    lemma_coords(fi);
    let g = |to: Square| pawn_capture(m, from, to);
    let targets = squares_where(pawn_targets(us, fi), 0);
    lemma_add_contains(pawn_pushes(m, from), concat_map(targets, g), mv);
    if pawn_pushes(m, from).contains(mv) {
        let dir = pawn_dir(us);
        let r = rank_of(fi);
        let fl = file_of(fi);
        let one = square_at(fl, r + dir).unwrap();
        assert(one == fi + 8 * dir);
        lemma_coords(one);
        assert(rank_of(one) == r + dir && file_of(one) == fl);
        if rank_of(one) == crate::movegen::promo_rank(us) {
            lemma_promotions_shape(m, from, Square(one as u8), false, mv);
        } else {
            let two = one + 8 * dir;
            Move::lemma_pack_fields(from, Square(one as u8), MoveFlags::Quiet);
            if mv != Move::pack(from, Square(one as u8), MoveFlags::Quiet) {
                assert(0 <= two < 64);
                lemma_coords(two);
                Move::lemma_pack_fields(from, Square(two as u8), MoveFlags::DoublePush);
            }
        }
    } else {
        lemma_concat_map_contains(targets, g, mv);
        let k = choose|k: int| 0 <= k < targets.len() && #[trigger] g(targets[k]).contains(mv);
        let to = targets[k];
        lemma_squares_where_members(pawn_targets(us, fi), 0);
        assert(to.0 < 64);
        assert(pawn_geo(us, fi, to.0 as int));
        lemma_coords(to.0 as int);
        if enemy(m, to.0 as int) {
            if rank_of(to.0 as int) == crate::movegen::promo_rank(us) {
                lemma_promotions_shape(m, from, to, true, mv);
            } else {
                Move::lemma_pack_fields(from, to, MoveFlags::Capture);
            }
        } else {
            Move::lemma_pack_fields(from, to, MoveFlags::EnPassant);
        }
    }
}

proof fn lemma_castle_shape(m: Model, mv: Move)
    requires
        m.board.len() == 64,
        exists|s: int| lowest_king(m.board, m.side, s),
        castle_moves(m).contains(mv),
    ensures
        move_shape(m, mv),
        promo_shape(m, mv),
        mv.wf(),
{
    let us = m.side;
    let rank = if us == Color::White {
        0int
    } else {
        7int
    };
    let ks = king_sq(m, us);
    assert(lowest_king(m.board, us, ks));
    let king = Square(ks as u8);
    let a = Move::pack(king, Square((rank * 8 + 6) as u8), MoveFlags::CastleKing);
    let b = Move::pack(king, Square((rank * 8 + 2) as u8), MoveFlags::CastleQueen);
    Move::lemma_pack_fields(king, Square((rank * 8 + 6) as u8), MoveFlags::CastleKing);
    Move::lemma_pack_fields(king, Square((rank * 8 + 2) as u8), MoveFlags::CastleQueen);
    let j = choose|j: int| 0 <= j < castle_moves(m).len() && castle_moves(m)[j] == mv;
}

proof fn lemma_king_shape(m: Model, mv: Move)
    requires
        m.board.len() == 64,
        exists|s: int| lowest_king(m.board, m.side, s),
        target_moves(
            m,
            Square(king_sq(m, m.side) as u8),
            attack_set(PieceKind::King, king_sq(m, m.side), board_occ(m.board)),
        ).contains(mv),
    ensures
        move_shape(m, mv),
        promo_shape(m, mv),
        mv.wf(),
{
    let ks = king_sq(m, m.side);
    assert(lowest_king(m.board, m.side, ks));
    let from = Square(ks as u8);
    let attack = attack_set(PieceKind::King, ks, board_occ(m.board));
    lemma_target_shape(m, from, attack, mv);
    Move::lemma_pack_fields(from, mv.spec_to(), mv.spec_flags());
    lemma_leapers_symmetric(m.side, ks, mv.spec_to().0 as int);
    assert(from.0 as int == ks);
}

/// Every pseudo-legal move has the generated shape.
pub proof fn lemma_pseudo_shape(m: Model, mv: Move)
    requires
        m.board.len() == 64,
        exists|s: int| lowest_king(m.board, m.side, s),
        pseudo_legal_moves(m).contains(mv),
    ensures
        move_shape(m, mv),
        promo_shape(m, mv),
        mv.wf(),
{
    reveal(pseudo_legal_moves);
    let occ = board_occ(m.board);
    let p = pawn_moves(m);
    let n = piece_moves(m, PieceKind::Knight);
    let b = piece_moves(m, PieceKind::Bishop);
    let r = piece_moves(m, PieceKind::Rook);
    let q = piece_moves(m, PieceKind::Queen);
    let k = target_moves(
        m,
        Square(king_sq(m, m.side) as u8),
        attack_set(PieceKind::King, king_sq(m, m.side), occ),
    );
    let c = castle_moves(m);
    lemma_add_contains(p + n + b + r + q + k, c, mv);
    if c.contains(mv) {
        lemma_castle_shape(m, mv);
    } else {
        lemma_add_contains(p + n + b + r + q, k, mv);
        if k.contains(mv) {
            lemma_king_shape(m, mv);
        } else {
            lemma_add_contains(p + n + b + r, q, mv);
            if q.contains(mv) {
                lemma_piece_shape(m, PieceKind::Queen, mv);
            } else {
                lemma_add_contains(p + n + b, r, mv);
                if r.contains(mv) {
                    lemma_piece_shape(m, PieceKind::Rook, mv);
                } else {
                    lemma_add_contains(p + n, b, mv);
                    if b.contains(mv) {
                        lemma_piece_shape(m, PieceKind::Bishop, mv);
                    } else {
                        lemma_add_contains(p, n, mv);
                        if n.contains(mv) {
                            lemma_piece_shape(m, PieceKind::Knight, mv);
                        } else {
                            lemma_pawn_shape(m, mv);
                            lemma_pawn_promo_shape(m, mv);
                        }
                    }
                }
            }
        }
    }
}

/// `s` holds the one king of `c` on the board.
pub open spec fn sole_king(board: Seq<Option<Piece>>, c: Color, s: int) -> bool {
    &&& 0 <= s < 64
    &&& board[s] == Some(Piece { color: c, kind: PieceKind::King })
    &&& forall|j: int|
        0 <= j < 64 && j != s ==> board[j] != Some(Piece { color: c, kind: PieceKind::King })
}

pub open spec fn one_king(board: Seq<Option<Piece>>, c: Color) -> bool {
    exists|s: int| sole_king(board, c, s)
}

/// A position that can arise in play: one king a side, the side that just
/// moved not in check, and an en-passant square and castling rights that
/// the board backs.
pub open spec fn sane(m: Model) -> bool {
    &&& m.board.len() == 64
    &&& one_king(m.board, Color::White)
    &&& one_king(m.board, Color::Black)
    &&& !in_check_on(m.board, m.side.spec_opposite())
    &&& ep_backed(m)
    &&& castle_backed(m, Color::White)
    &&& castle_backed(m, Color::Black)
}

proof fn lemma_sole_is_lowest(board: Seq<Option<Piece>>, c: Color, s: int, t: int)
    requires
        sole_king(board, c, s),
    ensures
        lowest_king(board, c, s),
        lowest_king(board, c, t) ==> t == s,
{
}

/// The piece a move puts on its target square.
pub open spec fn placed(m: Model, mv: Move) -> Piece {
    match flag_promotion(mv.spec_flags()) {
        Some(k) => Piece { color: m.side, kind: k },
        None => m.board[mv.spec_from().0 as int].unwrap(),
    }
}

/// The squares a move changes and what they hold afterwards; every other
/// square keeps its piece.
pub open spec fn after(m: Model, mv: Move, i: int) -> Option<Piece> {
    let from = mv.spec_from().0 as int;
    let to = mv.spec_to().0 as int;
    let f = mv.spec_flags();
    if i == to {
        Some(placed(m, mv))
    } else if i == from {
        None
    } else if f == MoveFlags::EnPassant && i == ep_victim(from, to) {
        None
    } else if is_castle_flag(f) && i == rook_from(from, f) {
        None
    } else if is_castle_flag(f) && i == rook_to(from, f) {
        m.board[rook_from(from, f)]
    } else {
        m.board[i]
    }
}

/// The changed squares are distinct, so the board after a move is `after`.
proof fn lemma_frame(m: Model, mv: Move)
    requires
        sane(m),
        move_shape(m, mv),
        mv.wf(),
    ensures
        apply_board(m, mv).len() == 64,
        forall|i: int| 0 <= i < 64 ==> #[trigger] apply_board(m, mv)[i] == after(m, mv, i),
        mv.spec_from() != mv.spec_to(),
        mv.spec_flags() == MoveFlags::EnPassant ==> {
            let v = ep_victim(mv.spec_from().0 as int, mv.spec_to().0 as int);
            &&& 0 <= v < 64
            &&& rank_of(v) == 3 || rank_of(v) == 4
            &&& m.board[v] == Some(Piece { color: m.side.spec_opposite(), kind: PieceKind::Pawn })
        },
        is_castle_flag(mv.spec_flags()) ==> {
            let from = mv.spec_from().0 as int;
            let f = mv.spec_flags();
            &&& from == back_rank(m.side) * 8 + 4
            &&& rook_from(from, f) == back_rank(m.side) * 8 + (if f == MoveFlags::CastleKing {
                7int
            } else {
                0int
            })
            &&& rook_to(from, f) == back_rank(m.side) * 8 + (if f == MoveFlags::CastleKing {
                5int
            } else {
                3int
            })
            &&& m.board[rook_from(from, f)] == Some(Piece { color: m.side, kind: PieceKind::Rook })
        },
{
    let from = mv.spec_from().0 as int;
    let to = mv.spec_to().0 as int;
    let f = mv.spec_flags();
    let us = m.side;
    let nb = apply_board(m, mv);
    lemma_coords(from);
    lemma_coords(to);
    if is_castle_flag(f) {
        let b = back_rank(us) * 8;
        let k = choose|k: int| sole_king(m.board, us, k);
        lemma_sole_is_lowest(m.board, us, k, from);
        lemma_sole_is_lowest(m.board, us, k, b + 4);
        assert(from == b + 4);
        lemma_point_coords(back_rank(us), 4);
        assert forall|i: int| 0 <= i < 64 implies #[trigger] nb[i] == after(m, mv, i) by {
        }
    } else if f == MoveFlags::EnPassant {
        let e = m.ep.unwrap().0 as int;
        assert(e == to);
        let v = ep_victim(from, to);
        lemma_point_coords(rank_of(from), file_of(to));
        assert(v == to - 8 * pawn_dir(us));
        assert forall|i: int| 0 <= i < 64 implies #[trigger] nb[i] == after(m, mv, i) by {
        }
    } else {
        assert forall|i: int| 0 <= i < 64 implies #[trigger] nb[i] == after(m, mv, i) by {
        }
    }
}

/// Capturing the only king of the side not to move would mean it was in check.
proof fn lemma_no_king_capture(m: Model, mv: Move, s: int)
    requires
        sane(m),
        move_shape(m, mv),
        sole_king(m.board, m.side.spec_opposite(), s),
    ensures
        mv.spec_to().0 != s,
{
    let to = mv.spec_to().0 as int;
    let from = mv.spec_from().0 as int;
    let them = m.side.spec_opposite();
    if to == s {
        assert(is_capture_flag(mv.spec_flags()));
        assert(attacker(m.board, s, m.side, board_occ(m.board), from));
        assert(attacked(m.board, s, m.side));
        lemma_sole_is_lowest(m.board, them, s, s);
        assert(them.spec_opposite() == m.side);
        assert(in_check_on(m.board, them));
    }
}

/// After a generated move each side still has exactly one king.
proof fn lemma_next_kings(m: Model, mv: Move, c: Color)
    requires
        sane(m),
        move_shape(m, mv),
        mv.wf(),
    ensures
        one_king(apply_board(m, mv), c),
        c == m.side ==> sole_king(
            apply_board(m, mv),
            c,
            if m.board[mv.spec_from().0 as int] == Some(Piece { color: c, kind: PieceKind::King }) {
                mv.spec_to().0 as int
            } else {
                choose|k: int| sole_king(m.board, c, k)
            },
        ),
        c != m.side ==> sole_king(apply_board(m, mv), c, choose|k: int| sole_king(m.board, c, k)),
{
    let from = mv.spec_from().0 as int;
    let to = mv.spec_to().0 as int;
    let f = mv.spec_flags();
    let us = m.side;
    let nb = apply_board(m, mv);
    let king = Piece { color: c, kind: PieceKind::King };
    lemma_frame(m, mv);
    let k = choose|k: int| sole_king(m.board, c, k);
    assert(one_king(m.board, c) && sole_king(m.board, c, k));
    if c != us {
        assert(c == us.spec_opposite());
        lemma_no_king_capture(m, mv, k);
        assert(nb[k] == after(m, mv, k));
        assert forall|j: int| 0 <= j < 64 && j != k implies nb[j] != Some(king) by {
            assert(nb[j] == after(m, mv, j));
        }
        assert(sole_king(nb, c, k));
    } else if m.board[from] == Some(king) {
        assert(from == k);
        assert(nb[to] == after(m, mv, to));
        assert forall|j: int| 0 <= j < 64 && j != to implies nb[j] != Some(king) by {
            assert(nb[j] == after(m, mv, j));
        }
        assert(sole_king(nb, c, to));
    } else {
        assert(from != k);
        assert(to != k);
        assert(nb[k] == after(m, mv, k));
        assert forall|j: int| 0 <= j < 64 && j != k implies nb[j] != Some(king) by {
            assert(nb[j] == after(m, mv, j));
        }
        assert(sole_king(nb, c, k));
    }
}

proof fn lemma_kept_right(c: u8, x: u8, y: u8, bit: u8)
    by (bit_vector)
    requires
        bit == 1 || bit == 2 || bit == 4 || bit == 8,
    ensures
        (c & !(x | y)) & bit != 0 ==> c & bit != 0 && x & bit == 0 && y & bit == 0,
{
}

proof fn lemma_touched(sq: int)
    ensures
        touched(sq) & 1 == 0 ==> sq != 4 && sq != 7,
        touched(sq) & 2 == 0 ==> sq != 4 && sq != 0,
        touched(sq) & 4 == 0 ==> sq != 60 && sq != 63,
        touched(sq) & 8 == 0 ==> sq != 60 && sq != 56,
{
    assert(3u8 & 1u8 != 0 && 1u8 & 1u8 != 0 && 3u8 & 2u8 != 0 && 2u8 & 2u8 != 0 && 12u8 & 4u8
        != 0 && 4u8 & 4u8 != 0 && 12u8 & 8u8 != 0 && 8u8 & 8u8 != 0) by (bit_vector);
}

/// After a generated move the en-passant square, if any, is backed.
proof fn lemma_next_ep(m: Model, mv: Move)
    requires
        sane(m),
        move_shape(m, mv),
        mv.wf(),
    ensures
        ep_backed(apply_model(m, mv)),
{
    let from = mv.spec_from().0 as int;
    let to = mv.spec_to().0 as int;
    let next = apply_model(m, mv);
    lemma_frame(m, mv);
    if mv.spec_flags() == MoveFlags::DoublePush {
        lemma_coords(from);
        let r = rank_of(from);
        let fl = file_of(from);
        let dir = pawn_dir(m.side);
        lemma_point_coords(r + 2 * dir, fl);
        assert(to == (r + 2 * dir) * 8 + fl);
        let e = ((rank_of(from) + rank_of(to)) / 2) * 8 + file_of(from);
        assert(e == from + 8 * dir);
        lemma_point_coords(r + dir, fl);
        assert(next.ep == Some(Square(e as u8)));
        assert(apply_board(m, mv)[e] == after(m, mv, e));
        assert(apply_board(m, mv)[to] == after(m, mv, to));
        assert(e - 8 * pawn_dir(next.side) == to);
    }
}

/// After a generated move every castling right still held is backed by
/// the king on its square and the rook in its corner.
proof fn lemma_next_castle(m: Model, mv: Move, c: Color)
    requires
        sane(m),
        move_shape(m, mv),
        mv.wf(),
    ensures
        castle_backed(apply_model(m, mv), c),
{
    let from = mv.spec_from().0 as int;
    let to = mv.spec_to().0 as int;
    let f = mv.spec_flags();
    let next = apply_model(m, mv);
    let nb = next.board;
    let b = back_rank(c) * 8;
    lemma_frame(m, mv);
    lemma_next_kings(m, mv, c);
    lemma_touched(from);
    lemma_touched(to);
    let ks_bit: u8 = if c == Color::White { 1 } else { 4 };
    let qs_bit: u8 = if c == Color::White { 2 } else { 8 };
    lemma_kept_right(m.castling, touched(from), touched(to), ks_bit);
    lemma_kept_right(m.castling, touched(from), touched(to), qs_bit);
    let s2 = choose|k: int| sole_king(nb, c, k);
    assert(sole_king(nb, c, s2));
    if next.castling & ks_bit != 0 || next.castling & qs_bit != 0 {
        assert(nb[b + 4] == after(m, mv, b + 4));
        assert(nb[b + 4] == Some(Piece { color: c, kind: PieceKind::King }));
        lemma_sole_is_lowest(nb, c, s2, b + 4);
        assert(s2 == b + 4);
    }
    if next.castling & ks_bit != 0 {
        assert(nb[b + 7] == after(m, mv, b + 7));
    }
    if next.castling & qs_bit != 0 {
        assert(nb[b] == after(m, mv, b));
    }
}

/// A legal move played in a position that can arise in play leads to
/// another such position: each side keeps exactly one king (no legal move
/// takes a king), the side that moved is not in check, and the new
/// en-passant square and the castling rights that remain are backed.
pub proof fn law_legal_moves_keep_sanity(m: Model, i: int)
    requires
        sane(m),
        0 <= i < legal_moves_of(m).len(),
    ensures
        sane(apply_model(m, legal_moves_of(m)[i])),
{
    let mv = legal_moves_of(m)[i];
    crate::movegen::law_legal_moves_are_safe(m, i);
    let k = choose|k: int| sole_king(m.board, m.side, k);
    assert(one_king(m.board, m.side));
    lemma_sole_is_lowest(m.board, m.side, k, k);
    lemma_pseudo_shape(m, mv);
    lemma_next_kings(m, mv, Color::White);
    lemma_next_kings(m, mv, Color::Black);
    lemma_next_ep(m, mv);
    lemma_next_castle(m, mv, Color::White);
    lemma_next_castle(m, mv, Color::Black);
    lemma_frame(m, mv);
    assert(m.side.spec_opposite().spec_opposite() == m.side);
}

/// A position that can arise in play, with room left on its clocks, can
/// generate its moves.
pub proof fn lemma_sane_gen_ok(m: Model)
    requires
        sane(m),
        clocks_ok(m),
    ensures
        gen_ok(m),
{
    let k = choose|k: int| sole_king(m.board, m.side, k);
    assert(one_king(m.board, m.side));
}

/// In a position that can arise in play, with room on the clocks for one
/// more move, every legal move can be formatted, parsed and played.
pub proof fn law_sane_positions_can_be_played(m: Model)
    requires
        sane(m),
        m.halfmove < 65534,
        m.fullmove < 65535,
    ensures
        crate::san::parse_ok(m),
{
    lemma_sane_gen_ok(m);
    assert forall|k: int| 0 <= k < legal_moves_of(m).len() implies gen_ok(
        #[trigger] apply_model(m, legal_moves_of(m)[k]),
    ) by {
        law_legal_moves_keep_sanity(m, k);
        lemma_sane_gen_ok(apply_model(m, legal_moves_of(m)[k]));
    }
}

proof fn lemma_code_of_flag(x: u16)
    requires
        valid_code((x / 4096) as int),
    ensures
        flag_code(flag_of_code((x / 4096) as int)) == x / 4096,
{
}

/// Two moves with the same squares and flags are the same move.
proof fn lemma_move_fields_eq(a: Move, b: Move)
    requires
        a.wf(),
        b.wf(),
        a.spec_from() == b.spec_from(),
        a.spec_to() == b.spec_to(),
        a.spec_flags() == b.spec_flags(),
    ensures
        a == b,
{
    lemma_code_of_flag(a.0);
    lemma_code_of_flag(b.0);
    assert(a.0 / 4096 == b.0 / 4096);
    assert(a.0 == (a.0 % 64) + 64 * ((a.0 / 64) % 64) + 4096 * (a.0 / 4096)) by (nonlinear_arith);
    assert(b.0 == (b.0 % 64) + 64 * ((b.0 / 64) % 64) + 4096 * (b.0 / 4096)) by (nonlinear_arith);
}

/// In a position that can arise in play, the origin, target and promotion
/// of a generated move determine it.
pub proof fn lemma_generated_moves_distinct(m: Model, a: Move, b: Move)
    requires
        sane(m),
        move_shape(m, a),
        move_shape(m, b),
        a.wf(),
        b.wf(),
        a.spec_from() == b.spec_from(),
        a.spec_to() == b.spec_to(),
        a.spec_promotion() == b.spec_promotion(),
    ensures
        a == b,
{
    let from = a.spec_from().0 as int;
    let to = a.spec_to().0 as int;
    let fa = a.spec_flags();
    let fb = b.spec_flags();
    lemma_coords(from);
    lemma_coords(to);
    if is_castle_flag(fa) || is_castle_flag(fb) {
        let b8 = back_rank(m.side) * 8;
        let k = choose|k: int| sole_king(m.board, m.side, k);
        assert(one_king(m.board, m.side));
        lemma_sole_is_lowest(m.board, m.side, k, from);
        lemma_sole_is_lowest(m.board, m.side, k, b8 + 4);
        assert(from == b8 + 4);
        lemma_point_coords(back_rank(m.side), 4);
        lemma_point_coords(back_rank(m.side), 6);
        lemma_point_coords(back_rank(m.side), 2);
    }
    if fa == MoveFlags::DoublePush || fb == MoveFlags::DoublePush {
        lemma_point_coords(rank_of(from) + 2 * pawn_dir(m.side), file_of(from));
        lemma_point_coords(rank_of(from) + pawn_dir(m.side), file_of(from));
    }
    assert(fa == fb);
    lemma_move_fields_eq(a, b);
}

proof fn lemma_start_square(j: int)
    requires
        0 <= j < 64,
    ensures
        start_model().board[j] == start_piece(j),
        start_piece(j) is Some ==> rank_of(j) <= 1 || rank_of(j) >= 6,
        start_piece(j) is Some && start_piece(j).unwrap().color == Color::White ==> j < 16,
        start_piece(j) == Some(Piece { color: Color::White, kind: PieceKind::King }) ==> j == 4,
        start_piece(j) == Some(Piece { color: Color::Black, kind: PieceKind::King }) ==> j == 60,
{
    lemma_coords(j);
}

/// No white piece attacks the black king's square at the start.
proof fn lemma_start_e8_safe(a: int)
    ensures
        !attacker(start_model().board, 60, Color::White, board_occ(start_model().board), a),
{
    let m = start_model();
    if 0 <= a < 64 {
        lemma_start_square(a);
        lemma_coords(a);
        if m.board[a] is Some && m.board[a].unwrap().color == Color::White {
            assert(a < 16);
            let occ = board_occ(m.board);
            assert(!ray_hits(60, -1, -1, occ, a));
            assert(!ray_hits(60, -1, 1, occ, a));
            assert(!ray_hits(60, 1, -1, occ, a));
            assert(!ray_hits(60, 1, 1, occ, a));
            assert(!ray_hits(60, -1, 0, occ, a));
            assert(!ray_hits(60, 1, 0, occ, a));
            assert(!ray_hits(60, 0, 1, occ, a));
            lemma_start_square(52);
            assert(ray_point(60, 0, -1, 1) == 52);
            assert(occ(52));
            assert(!ray_hits(60, 0, -1, occ, a));
        }
    }
}

/// The starting position can arise in play.
pub proof fn law_start_is_sane()
    ensures
        sane(start_model()),
{
    let m = start_model();
    let b = m.board;
    let wk = Piece { color: Color::White, kind: PieceKind::King };
    let bk = Piece { color: Color::Black, kind: PieceKind::King };
    lemma_start_square(4);
    lemma_start_square(60);
    assert forall|j: int| 0 <= j < 64 && j != 4 implies b[j] != Some(wk) by {
        lemma_start_square(j);
    }
    assert forall|j: int| 0 <= j < 64 && j != 60 implies b[j] != Some(bk) by {
        lemma_start_square(j);
    }
    assert(sole_king(b, Color::White, 4));
    assert(sole_king(b, Color::Black, 60));
    lemma_start_square(0);
    lemma_start_square(7);
    lemma_start_square(56);
    lemma_start_square(63);
    assert forall|s: int| lowest_king(b, Color::Black, s) implies !attacked(b, s, Color::White) by {
        lemma_sole_is_lowest(b, Color::Black, 60, s);
        assert forall|a: int| !attacker(b, s, Color::White, board_occ(b), a) by {
            lemma_start_e8_safe(a);
        }
    }
    assert(!in_check_on(b, Color::White.spec_opposite()));
}

} // verus!
