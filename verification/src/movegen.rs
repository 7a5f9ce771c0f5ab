//! Pseudo-legal generation plus a legality filter.
//!
//! The generation order is part of the contract: pawns first, then knights,
//! bishops, rooks and queens, then the king and castling; within a piece
//! kind the origins ascend, and for each origin captures (ascending target)
//! come before quiet moves (ascending target).

use vstd::prelude::*;
use crate::attacks::{
    bishop_attacks, bishop_geo, king_attacks, king_geo, knight_attacks, knight_geo, pawn_attacks,
    pawn_dir, pawn_geo, queen_attacks, queen_geo, rook_attacks, rook_geo,
};
use crate::bitboard::{lemma_squares_from_where, squares_where, Bitboard};
use crate::moves::{promo_flag, Move, MoveFlags, MoveList};
use crate::position::{
    apply_board, apply_ok, attacked, board_occ, ep_victim, has_king, in_check_on, is_capture_flag,
    is_castle_flag, lowest_king, rook_from, Model, Position,
};
use crate::types::{file_of, rank_of, square_at, Color, Piece, PieceKind, Square};

verus! {

/// Square `t` holds a piece of the side not to move.
pub open spec fn enemy(m: Model, t: int) -> bool {
    0 <= t < 64 && m.board[t] is Some && m.board[t].unwrap().color == m.side.spec_opposite()
}

pub open spec fn vacant(m: Model, t: int) -> bool {
    0 <= t < 64 && m.board[t] is None
}

/// Squares holding the side to move's pieces of a kind.
pub open spec fn own_kind(m: Model, kind: PieceKind) -> spec_fn(int) -> bool {
    |i: int| m.board[i] == Some(Piece { color: m.side, kind })
}

/// The origins, ascending, of the side to move's pieces of a kind.
pub open spec fn origins(m: Model, kind: PieceKind) -> Seq<Square> {
    squares_where(own_kind(m, kind), 0)
}

/// Attacked squares holding an enemy piece.
pub open spec fn capture_targets(m: Model, attack: spec_fn(int) -> bool) -> spec_fn(int) -> bool {
    |t: int| attack(t) && enemy(m, t)
}

/// Attacked squares that are vacant.
pub open spec fn quiet_targets(m: Model, attack: spec_fn(int) -> bool) -> spec_fn(int) -> bool {
    |t: int| attack(t) && vacant(m, t)
}

/// Squares a pawn of `c` on `from` attacks.
pub open spec fn pawn_targets(c: Color, from: int) -> spec_fn(int) -> bool {
    |t: int| pawn_geo(c, from, t)
}

/// Moves of each origin, concatenated in origin order.
pub open spec fn concat_map(s: Seq<Square>, f: spec_fn(Square) -> Seq<Move>) -> Seq<Move>
    decreases s.len(),
{
    if s.len() == 0 {
        Seq::empty()
    } else {
        concat_map(s.drop_last(), f) + f(s.last())
    }
}

/// Captures then quiet moves from `from` to the squares of `attack`.
pub open spec fn target_moves(m: Model, from: Square, attack: spec_fn(int) -> bool) -> Seq<Move> {
    squares_where(capture_targets(m, attack), 0).map_values(
        |t: Square| Move::pack(from, t, MoveFlags::Capture),
    ) + squares_where(quiet_targets(m, attack), 0).map_values(
        |t: Square| Move::pack(from, t, MoveFlags::Quiet),
    )
}

/// Squares a piece of `kind` on `from` attacks (knight, bishop, rook, queen; king otherwise).
pub open spec fn attack_set(kind: PieceKind, from: int, occ: spec_fn(int) -> bool) -> spec_fn(
    int,
) -> bool {
    match kind {
        PieceKind::Knight => |t: int| knight_geo(from, t),
        PieceKind::Bishop => |t: int| bishop_geo(from, occ, t),
        PieceKind::Rook => |t: int| rook_geo(from, occ, t),
        PieceKind::Queen => |t: int| queen_geo(from, occ, t),
        _ => |t: int| king_geo(from, t),
    }
}

/// Moves of the side to move's pieces of a (non-pawn) kind.
pub open spec fn piece_moves(m: Model, kind: PieceKind) -> Seq<Move> {
    concat_map(
        origins(m, kind),
        |from: Square| target_moves(m, from, attack_set(kind, from.0 as int, board_occ(m.board))),
    )
}

/// The four promotions from `from` to `to`: queen, rook, bishop, knight.
pub open spec fn promotions(from: Square, to: Square, capture: bool) -> Seq<Move> {
    seq![
        Move::pack(from, to, promo_flag(PieceKind::Queen, capture)),
        Move::pack(from, to, promo_flag(PieceKind::Rook, capture)),
        Move::pack(from, to, promo_flag(PieceKind::Bishop, capture)),
        Move::pack(from, to, promo_flag(PieceKind::Knight, capture)),
    ]
}

pub open spec fn start_rank(c: Color) -> int {
    match c {
        Color::White => 1,
        Color::Black => 6,
    }
}

pub open spec fn promo_rank(c: Color) -> int {
    match c {
        Color::White => 7,
        Color::Black => 0,
    }
}

/// Pushes of the pawn on `from`: one step to a vacant square (promoting on
/// the last rank), and two steps from the start rank over vacant squares.
pub open spec fn pawn_pushes(m: Model, from: Square) -> Seq<Move> {
    let us = m.side;
    let f = file_of(from.0 as int);
    let r = rank_of(from.0 as int);
    let dir = pawn_dir(us);
    match square_at(f, r + dir) {
        None => Seq::empty(),
        Some(one) => if m.board[one] is Some {
            Seq::empty()
        } else if rank_of(one) == promo_rank(us) {
            promotions(from, Square(one as u8), false)
        } else {
            let two = one + 8 * dir;
            seq![Move::pack(from, Square(one as u8), MoveFlags::Quiet)] + if r == start_rank(us)
                && m.board[two] is None {
                seq![Move::pack(from, Square(two as u8), MoveFlags::DoublePush)]
            } else {
                Seq::empty()
            }
        },
    }
}

/// The pawn on `from` capturing towards `to`: onto an enemy (promoting on
/// the last rank) or onto the en-passant square.
pub open spec fn pawn_capture(m: Model, from: Square, to: Square) -> Seq<Move> {
    if enemy(m, to.0 as int) {
        if rank_of(to.0 as int) == promo_rank(m.side) {
            promotions(from, to, true)
        } else {
            seq![Move::pack(from, to, MoveFlags::Capture)]
        }
    } else if m.ep == Some(to) {
        seq![Move::pack(from, to, MoveFlags::EnPassant)]
    } else {
        Seq::empty()
    }
}

pub open spec fn pawn_from(m: Model, from: Square) -> Seq<Move> {
    pawn_pushes(m, from) + concat_map(
        squares_where(pawn_targets(m.side, from.0 as int), 0),
        |to: Square| pawn_capture(m, from, to),
    )
}

pub open spec fn pawn_moves(m: Model) -> Seq<Move> {
    concat_map(origins(m, PieceKind::Pawn), |from: Square| pawn_from(m, from))
}

/// The lowest square holding a king of `c`.
pub open spec fn king_sq(m: Model, c: Color) -> int {
    choose|s: int| lowest_king(m.board, c, s)
}

/// Castling: the king may not be in check, pass through or land on an
/// attacked square; the squares between king and rook must be empty.
pub open spec fn castle_moves(m: Model) -> Seq<Move> {
    let us = m.side;
    let them = us.spec_opposite();
    let rank = if us == Color::White {
        0int
    } else {
        7int
    };
    let king = Square(king_sq(m, us) as u8);
    if in_check_on(m.board, us) {
        Seq::empty()
    } else {
        let ks = if (if us == Color::White {
            m.castling & 1 != 0
        } else {
            m.castling & 4 != 0
        }) && m.board[rank * 8 + 5] is None && m.board[rank * 8 + 6] is None && !attacked(
            m.board,
            rank * 8 + 5,
            them,
        ) && !attacked(m.board, rank * 8 + 6, them) {
            seq![Move::pack(king, Square((rank * 8 + 6) as u8), MoveFlags::CastleKing)]
        } else {
            Seq::empty()
        };
        let qs = if (if us == Color::White {
            m.castling & 2 != 0
        } else {
            m.castling & 8 != 0
        }) && m.board[rank * 8 + 1] is None && m.board[rank * 8 + 2] is None && m.board[rank * 8
            + 3] is None && !attacked(m.board, rank * 8 + 2, them) && !attacked(
            m.board,
            rank * 8 + 3,
            them,
        ) {
            seq![Move::pack(king, Square((rank * 8 + 2) as u8), MoveFlags::CastleQueen)]
        } else {
            Seq::empty()
        };
        ks + qs
    }
}

/// All pseudo-legal moves, in generation order.
#[verifier::opaque]
pub open spec fn pseudo_legal_moves(m: Model) -> Seq<Move> {
    pawn_moves(m) + piece_moves(m, PieceKind::Knight) + piece_moves(m, PieceKind::Bishop)
        + piece_moves(m, PieceKind::Rook) + piece_moves(m, PieceKind::Queen) + target_moves(
        m,
        Square(king_sq(m, m.side) as u8),
        attack_set(PieceKind::King, king_sq(m, m.side), board_occ(m.board)),
    ) + castle_moves(m)
}

/// The legal moves: pseudo-legal moves that do not leave the mover's king in check.
pub open spec fn legal_moves_of(m: Model) -> Seq<Move> {
    pseudo_legal_moves(m).filter(|mv: Move| !in_check_on(apply_board(m, mv), m.side))
}

pub proof fn lemma_concat_map_push(s: Seq<Square>, x: Square, f: spec_fn(Square) -> Seq<Move>)
    ensures
        concat_map(s.push(x), f) == concat_map(s, f) + f(x),
{
    assert(s.push(x).drop_last() =~= s);
}

/// The shape a generated move has: `apply` accepts it, the origin holds a
/// piece of the side to move, captures land on enemies, en passant removes an
/// enemy pawn, and castling moves the king with its rook.
pub open spec fn gen_move_ok(m: Model, mv: Move) -> bool {
    let from = mv.spec_from().0 as int;
    let to = mv.spec_to().0 as int;
    let f = mv.spec_flags();
    &&& apply_ok(m, mv)
    &&& m.board[from] is Some
    &&& m.board[from].unwrap().color == m.side
    &&& (is_capture_flag(f) ==> enemy(m, to))
    &&& (f == MoveFlags::EnPassant ==> enemy(m, ep_victim(from, to)))
    &&& (is_castle_flag(f) ==> m.board[from] == Some(Piece { color: m.side, kind: PieceKind::King })
        && m.board[rook_from(from, f)] == Some(Piece { color: m.side, kind: PieceKind::Rook }))
    &&& (crate::moves::flag_promotion(f) is Some ==> m.board[from] == Some(
        Piece { color: m.side, kind: PieceKind::Pawn },
    ))
}

/// All moves of a list have the generated shape.
pub open spec fn all_gen_ok(m: Model, s: Seq<Move>) -> bool {
    forall|k: int| 0 <= k < s.len() ==> gen_move_ok(m, #[trigger] s[k])
}

pub proof fn lemma_all_gen_ok_push(m: Model, s: Seq<Move>, mv: Move)
    requires
        all_gen_ok(m, s),
        gen_move_ok(m, mv),
    ensures
        all_gen_ok(m, s.push(mv)),
{
    assert forall|k: int| 0 <= k < s.push(mv).len() implies gen_move_ok(m, #[trigger] s.push(mv)[k]) by {
        if k < s.len() {
            assert(s.push(mv)[k] == s[k]);
        }
    }
}

/// Appends captures then quiet moves from `from` to the targets.
fn push_targets(
    list: &mut MoveList,
    from: Square,
    targets: Bitboard,
    enemies: Bitboard,
    empty: Bitboard,
    Ghost(m): Ghost<Model>,
)
    requires
        from.wf(),
        all_gen_ok(m, old(list)@),
        forall|t: int| #[trigger] targets.has(t) && enemies.has(t) ==> gen_move_ok(m, Move::pack(from, Square(t as u8), MoveFlags::Capture)),
        forall|t: int| #[trigger] targets.has(t) && empty.has(t) ==> gen_move_ok(m, Move::pack(from, Square(t as u8), MoveFlags::Quiet)),
    ensures
        all_gen_ok(m, final(list)@),
        final(list)@ == old(list)@ + Bitboard(targets.0 & enemies.0).squares().map_values(
            |t: Square| Move::pack(from, t, MoveFlags::Capture),
        ) + Bitboard(targets.0 & empty.0).squares().map_values(
            |t: Square| Move::pack(from, t, MoveFlags::Quiet),
        ),
{
    let caps = targets.intersection(enemies);
    push_all(list, from, caps, MoveFlags::Capture, Ghost(m));
    let quiets = targets.intersection(empty);
    push_all(list, from, quiets, MoveFlags::Quiet, Ghost(m));
}

/// Appends a move from `from` to each square of `targets`, ascending.
fn push_all(list: &mut MoveList, from: Square, targets: Bitboard, flags: MoveFlags, Ghost(m): Ghost<Model>)
    requires
        from.wf(),
        all_gen_ok(m, old(list)@),
        forall|t: int| #[trigger] targets.has(t) ==> gen_move_ok(m, Move::pack(from, Square(t as u8), flags)),
    ensures
        all_gen_ok(m, final(list)@),
        final(list)@ == old(list)@ + targets.squares().map_values(
            |t: Square| Move::pack(from, t, flags),
        ),
{
    let ghost start = list@;
    let ghost orig = targets;
    let ghost mut done: Seq<Square> = Seq::empty();
    let mut bb = targets;
    proof {
        assert(start + done.map_values(|t: Square| Move::pack(from, t, flags)) =~= start);
        assert(done + bb.squares() =~= orig.squares());
        crate::bitboard::lemma_squares_members(bb.0, 0);
    }
    loop
        invariant
            from.wf(),
            orig.squares() == done + bb.squares(),
            list@ == start + done.map_values(|t: Square| Move::pack(from, t, flags)),
            forall|k: int| 0 <= k < bb.squares().len() ==> (#[trigger] bb.squares()[k]).wf(),
            forall|t: int| #[trigger] bb.has(t) ==> orig.has(t),
            forall|t: int| #[trigger] orig.has(t) ==> gen_move_ok(m, Move::pack(from, Square(t as u8), flags)),
            all_gen_ok(m, list@),
        ensures
            list@ == start + orig.squares().map_values(|t: Square| Move::pack(from, t, flags)),
            all_gen_ok(m, list@),
        decreases bb.squares().len(),
    {
        let ghost before = bb;
        match bb.next() {
            None => {
                proof {
                    assert(done + bb.squares() =~= done);
                }
                break ;
            },
            Some(to) => {
                proof {
                    crate::bitboard::lemma_squares_members(before.0, 0);
                    crate::bitboard::lemma_squares_members(bb.0, 0);
                    assert(before.squares()[0] == to);
                    assert(before.has(to.0 as int));
                    assert(Square(to.0 as u8) == to);
                }
                let mv = Move::new(from, to, flags);
                proof {
                    lemma_all_gen_ok_push(m, list@, mv);
                }
                list.push(mv);
                proof {
                    assert(done.push(to).map_values(|t: Square| Move::pack(from, t, flags))
                        =~= done.map_values(|t: Square| Move::pack(from, t, flags)).push(
                        Move::pack(from, to, flags),
                    ));
                    assert(done.push(to) + bb.squares() =~= done + before.squares());
                    done = done.push(to);
                }
            },
        }
    }
}

/// Facts the generators share about the position and the three masks.
pub open spec fn masks_ok(pos: Position, occupied: Bitboard, enemies: Bitboard, empty: Bitboard) -> bool {
    &&& pos.bb_wf()
    &&& forall|i: int| #[trigger] occupied.has(i) == (0 <= i < 64 && pos@.board[i] is Some)
    &&& forall|i: int| #[trigger] enemies.has(i) == enemy(pos@, i)
    &&& forall|i: int| #[trigger] empty.has(i) == vacant(pos@, i)
    &&& occupied.occ() == board_occ(pos@.board)
}

/// A simple move of the side to move's piece: the origin holds our piece,
/// the target is an enemy (capture) or vacant (quiet), and the clocks have room.
pub open spec fn clocks_ok(m: Model) -> bool {
    &&& m.halfmove < 65535
    &&& (m.side == Color::Black ==> m.fullmove < 65535)
}

proof fn lemma_simple_move_ok(m: Model, from: Square, to: Square, flags: MoveFlags)
    requires
        from.wf(),
        to.wf(),
        m.board.len() == 64,
        clocks_ok(m),
        m.board[from.0 as int] is Some,
        m.board[from.0 as int].unwrap().color == m.side,
        flags == MoveFlags::Capture ==> enemy(m, to.0 as int),
        flags == MoveFlags::Quiet ==> vacant(m, to.0 as int),
        flags == MoveFlags::Capture || flags == MoveFlags::Quiet,
    ensures
        gen_move_ok(m, Move::pack(from, to, flags)),
{
    Move::lemma_pack_fields(from, to, flags);
}

/// Appends the moves of the side to move's pieces of `kind`.
fn push_piece_moves(
    pos: &Position,
    list: &mut MoveList,
    kind: PieceKind,
    occupied: Bitboard,
    enemies: Bitboard,
    empty: Bitboard,
)
    requires
        masks_ok(*pos, occupied, enemies, empty),
        clocks_ok(pos@),
        kind == PieceKind::Knight || kind == PieceKind::Bishop || kind == PieceKind::Rook || kind
            == PieceKind::Queen,
        all_gen_ok(pos@, old(list)@),
    ensures
        all_gen_ok(pos@, final(list)@),
        final(list)@ == old(list)@ + piece_moves(pos@, kind),
{
    let ghost m = pos@;
    let ghost f = |from: Square|
        target_moves(m, from, attack_set(kind, from.0 as int, board_occ(m.board)));
    let ghost start = list@;
    let us = pos.side_to_move;
    let mut bb = pos.pieces(us, kind);
    let ghost mut done: Seq<Square> = Seq::empty();
    proof {
        pos.lemma_wf_facts();
        assert forall|j: int| 0 <= j < 64 implies crate::bitboard::bit(bb.0, j) == (own_kind(m, kind))(j) by {
            assert(bb.has(j) == (0 <= j < 64 && m.board[j] == Some(Piece { color: us, kind })));
        }
        lemma_squares_from_where(bb.0, own_kind(m, kind), 0);
        assert(done + bb.squares() =~= origins(m, kind));
        assert(list@ =~= start + concat_map(done, f));
        crate::bitboard::lemma_squares_members(bb.0, 0);
    }
    loop
        invariant
            masks_ok(*pos, occupied, enemies, empty),
            clocks_ok(m),
            m == pos@,
            m.board.len() == 64,
            us == m.side,
            kind == PieceKind::Knight || kind == PieceKind::Bishop || kind == PieceKind::Rook
                || kind == PieceKind::Queen,
            origins(m, kind) == done + bb.squares(),
            list@ == start + concat_map(done, f),
            forall|t: int| #[trigger] bb.has(t) ==> m.board[t] == Some(Piece { color: us, kind }),
            all_gen_ok(m, list@),
            f == (|from: Square| target_moves(m, from, attack_set(kind, from.0 as int, board_occ(m.board)))),
        ensures
            list@ == start + concat_map(origins(m, kind), f),
            all_gen_ok(m, list@),
        decreases bb.squares().len(),
    {
        let ghost before = bb;
        match bb.next() {
            None => {
                proof {
                    assert(done + bb.squares() =~= done);
                }
                break ;
            },
            Some(from) => {
                proof {
                    crate::bitboard::lemma_squares_members(before.0, 0);
                    assert(before.squares()[0] == from);
                    assert(before.has(from.0 as int));
                }
                let targets = match kind {
                    PieceKind::Knight => knight_attacks(from),
                    PieceKind::Bishop => bishop_attacks(from, occupied),
                    PieceKind::Rook => rook_attacks(from, occupied),
                    _ => queen_attacks(from, occupied),
                };
                let ghost attack = attack_set(kind, from.0 as int, board_occ(m.board));
                proof {
                    assert forall|t: int| #[trigger] targets.has(t) == attack(t) by {}
                    assert forall|t: int| #[trigger] targets.has(t) && enemies.has(t) implies gen_move_ok(
                        m,
                        Move::pack(from, Square(t as u8), MoveFlags::Capture),
                    ) by {
                        lemma_simple_move_ok(m, from, Square(t as u8), MoveFlags::Capture);
                    }
                    assert forall|t: int| #[trigger] targets.has(t) && empty.has(t) implies gen_move_ok(
                        m,
                        Move::pack(from, Square(t as u8), MoveFlags::Quiet),
                    ) by {
                        lemma_simple_move_ok(m, from, Square(t as u8), MoveFlags::Quiet);
                    }
                }
                push_targets(list, from, targets, enemies, empty, Ghost(m));
                proof {
                    crate::bitboard::lemma_bits_and_all(targets.0, enemies.0);
                    crate::bitboard::lemma_bits_and_all(targets.0, empty.0);
                    assert forall|j: int| 0 <= j < 64 implies crate::bitboard::bit(targets.0 & enemies.0, j)
                        == (capture_targets(m, attack))(j) by {
                        assert(targets.has(j) == attack(j));
                        assert(enemies.has(j) == enemy(m, j));
                    }
                    assert forall|j: int| 0 <= j < 64 implies crate::bitboard::bit(targets.0 & empty.0, j)
                        == (quiet_targets(m, attack))(j) by {
                        assert(targets.has(j) == attack(j));
                        assert(empty.has(j) == vacant(m, j));
                    }
                    lemma_squares_from_where(targets.0 & enemies.0, capture_targets(m, attack), 0);
                    lemma_squares_from_where(targets.0 & empty.0, quiet_targets(m, attack), 0);
                    assert(f(from) == target_moves(m, from, attack));
                    lemma_concat_map_push(done, from, f);
                    assert(done.push(from) + bb.squares() =~= done + before.squares());
                    done = done.push(from);
                }
            },
        }
    }
}

/// The rank of a valid en-passant target square when `c` is to move.
pub open spec fn ep_rank(c: Color) -> int {
    match c {
        Color::White => 5,
        Color::Black => 2,
    }
}

/// En passant is reached by the generator: a pawn of the side to move
/// attacks the en-passant square, and no enemy piece stands on it.
pub open spec fn ep_reached(m: Model) -> bool {
    m.ep matches Some(e) && !enemy(m, e.0 as int) && exists|s: int|
        0 <= s < 64 && m.board[s] == Some(Piece { color: m.side, kind: PieceKind::Pawn })
            && #[trigger] pawn_geo(m.side, s, e.0 as int)
}

/// An en-passant capture the generator reaches lands on a vacant square and
/// has an enemy piece to take right behind it.
pub open spec fn ep_sane(m: Model) -> bool {
    &&& (m.ep matches Some(e) ==> e.wf())
    &&& (ep_reached(m) ==> {
        let e = m.ep.unwrap();
        &&& m.board[e.0 as int] is None
        &&& enemy(m, e.0 - 8 * pawn_dir(m.side))
    })
}

/// An en-passant square is on the right rank, vacant, and has the enemy
/// pawn that just passed it right behind it.
pub open spec fn ep_backed(m: Model) -> bool {
    m.ep matches Some(e) ==> {
        &&& e.wf()
        &&& rank_of(e.0 as int) == ep_rank(m.side)
        &&& m.board[e.0 as int] is None
        &&& m.board[e.0 - 8 * pawn_dir(m.side)] == Some(
            Piece { color: m.side.spec_opposite(), kind: PieceKind::Pawn },
        )
    }
}

/// The back rank of a color.
pub open spec fn back_rank(c: Color) -> int {
    match c {
        Color::White => 0,
        Color::Black => 7,
    }
}

/// A color's castling rights are backed by its king on the e-file and the
/// rooks in their corners.
pub open spec fn castle_backed(m: Model, c: Color) -> bool {
    let b = back_rank(c) * 8;
    let king_side = if c == Color::White {
        m.castling & 1 != 0
    } else {
        m.castling & 4 != 0
    };
    let queen_side = if c == Color::White {
        m.castling & 2 != 0
    } else {
        m.castling & 8 != 0
    };
    &&& king_side ==> lowest_king(m.board, c, b + 4) && m.board[b + 7] == Some(
        Piece { color: c, kind: PieceKind::Rook },
    )
    &&& queen_side ==> lowest_king(m.board, c, b + 4) && m.board[b] == Some(
        Piece { color: c, kind: PieceKind::Rook },
    )
}

/// The king-side castle of `c` is reached by the generator: the right is
/// held, `c` is not in check, and the f and g squares are empty and not
/// attacked.
pub open spec fn king_castle_reached(m: Model, c: Color) -> bool {
    let b = back_rank(c) * 8;
    let them = c.spec_opposite();
    &&& (if c == Color::White {
        m.castling & 1 != 0
    } else {
        m.castling & 4 != 0
    })
    &&& !in_check_on(m.board, c)
    &&& m.board[b + 5] is None
    &&& m.board[b + 6] is None
    &&& !attacked(m.board, b + 5, them)
    &&& !attacked(m.board, b + 6, them)
}

/// The queen-side castle of `c` is reached by the generator: the right is
/// held, `c` is not in check, the b, c and d squares are empty and c and d
/// are not attacked.
pub open spec fn queen_castle_reached(m: Model, c: Color) -> bool {
    let b = back_rank(c) * 8;
    let them = c.spec_opposite();
    &&& (if c == Color::White {
        m.castling & 2 != 0
    } else {
        m.castling & 8 != 0
    })
    &&& !in_check_on(m.board, c)
    &&& m.board[b + 1] is None
    &&& m.board[b + 2] is None
    &&& m.board[b + 3] is None
    &&& !attacked(m.board, b + 2, them)
    &&& !attacked(m.board, b + 3, them)
}

/// Each castle the generator reaches has its king on the e-file and its
/// rook in the corner; rights whose path is blocked or attacked are not
/// looked at.
pub open spec fn castle_sane(m: Model, c: Color) -> bool {
    let b = back_rank(c) * 8;
    &&& king_castle_reached(m, c) ==> lowest_king(m.board, c, b + 4) && m.board[b + 7] == Some(
        Piece { color: c, kind: PieceKind::Rook },
    )
    &&& queen_castle_reached(m, c) ==> lowest_king(m.board, c, b + 4) && m.board[b] == Some(
        Piece { color: c, kind: PieceKind::Rook },
    )
}

/// What move generation needs of a position: the side to move has a king,
/// its en-passant square and castling rights are sane, and the clocks have
/// room to advance.
pub open spec fn gen_ok(m: Model) -> bool {
    &&& m.board.len() == 64
    &&& has_king(m.board, m.side)
    &&& clocks_ok(m)
    &&& ep_sane(m)
    &&& castle_sane(m, m.side)
}

pub proof fn lemma_lowest_king_unique(board: Seq<Option<Piece>>, c: Color, s1: int, s2: int)
    requires
        lowest_king(board, c, s1),
        lowest_king(board, c, s2),
    ensures
        s1 == s2,
{
    if s1 < s2 {
        assert(board[s1] != Some(Piece { color: c, kind: PieceKind::King }));
    } else if s2 < s1 {
        assert(board[s2] != Some(Piece { color: c, kind: PieceKind::King }));
    }
}

/// Appends the four promotions from `from` to `to`.
fn push_promotions(list: &mut MoveList, from: Square, to: Square, capture: bool, Ghost(m): Ghost<Model>)
    requires
        from.wf(),
        to.wf(),
        all_gen_ok(m, old(list)@),
        forall|i: int| 0 <= i < 4 ==> gen_move_ok(m, #[trigger] promotions(from, to, capture)[i]),
    ensures
        all_gen_ok(m, final(list)@),
        final(list)@ == old(list)@ + promotions(from, to, capture),
{
    let ghost start = list@;
    let ghost ps = promotions(from, to, capture);
    proof {
        assert(gen_move_ok(m, ps[0]));
        assert(gen_move_ok(m, ps[1]));
        assert(gen_move_ok(m, ps[2]));
        assert(gen_move_ok(m, ps[3]));
        lemma_all_gen_ok_push(m, list@, ps[0]);
        lemma_all_gen_ok_push(m, list@.push(ps[0]), ps[1]);
        lemma_all_gen_ok_push(m, list@.push(ps[0]).push(ps[1]), ps[2]);
        lemma_all_gen_ok_push(m, list@.push(ps[0]).push(ps[1]).push(ps[2]), ps[3]);
    }
    list.push(Move::new(from, to, MoveFlags::promo(PieceKind::Queen, capture)));
    list.push(Move::new(from, to, MoveFlags::promo(PieceKind::Rook, capture)));
    list.push(Move::new(from, to, MoveFlags::promo(PieceKind::Bishop, capture)));
    list.push(Move::new(from, to, MoveFlags::promo(PieceKind::Knight, capture)));
    proof {
        assert(list@ =~= start + ps);
    }
}

proof fn lemma_promotions_ok(m: Model, from: Square, to: Square, capture: bool)
    requires
        from.wf(),
        to.wf(),
        from != to,
        m.board.len() == 64,
        clocks_ok(m),
        m.board[from.0 as int] == Some(Piece { color: m.side, kind: PieceKind::Pawn }),
        capture ==> enemy(m, to.0 as int),
        !capture ==> vacant(m, to.0 as int),
    ensures
        forall|i: int| 0 <= i < 4 ==> gen_move_ok(m, #[trigger] promotions(from, to, capture)[i]),
{
    Move::lemma_pack_fields(from, to, promo_flag(PieceKind::Queen, capture));
    Move::lemma_pack_fields(from, to, promo_flag(PieceKind::Rook, capture));
    Move::lemma_pack_fields(from, to, promo_flag(PieceKind::Bishop, capture));
    Move::lemma_pack_fields(from, to, promo_flag(PieceKind::Knight, capture));
}

/// Appends the pushes of the pawn on `from`.
fn push_pawn_pushes(pos: &Position, list: &mut MoveList, from: Square, occupied: Bitboard, empty: Bitboard, enemies: Bitboard)
    requires
        masks_ok(*pos, occupied, enemies, empty),
        gen_ok(pos@),
        from.wf(),
        pos@.board[from.0 as int] == Some(Piece { color: pos@.side, kind: PieceKind::Pawn }),
        all_gen_ok(pos@, old(list)@),
    ensures
        all_gen_ok(pos@, final(list)@),
        final(list)@ == old(list)@ + pawn_pushes(pos@, from),
{
    let ghost m = pos@;
    let ghost start = list@;
    let us = pos.side_to_move;
    let dir: i8 = match us {
        Color::White => 1,
        Color::Black => -1,
    };
    let start_rank: u8 = match us {
        Color::White => 1,
        Color::Black => 6,
    };
    let promo_rank: u8 = match us {
        Color::White => 7,
        Color::Black => 0,
    };
    match from.offset(0, dir) {
        Some(one) => {
            if !occupied.contains(one) {
                if one.rank() == promo_rank {
                    proof {
                        lemma_promotions_ok(m, from, one, false);
                    }
                    push_promotions(list, from, one, false, Ghost(m));
                } else {
                    let mv = Move::new(from, one, MoveFlags::Quiet);
                    proof {
                        lemma_simple_move_ok(m, from, one, MoveFlags::Quiet);
                        lemma_all_gen_ok_push(m, list@, mv);
                    }
                    list.push(mv);
                    if from.rank() == start_rank {
                        match from.offset(0, 2 * dir) {
                            Some(two) => {
                                proof {
                                    assert(two.0 == one.0 + 8 * pawn_dir(us));
                                }
                                if !occupied.contains(two) {
                                    let dp = Move::new(from, two, MoveFlags::DoublePush);
                                    proof {
                                        Move::lemma_pack_fields(from, two, MoveFlags::DoublePush);
                                        lemma_all_gen_ok_push(m, list@, dp);
                                    }
                                    list.push(dp);
                                    proof {
                                        assert(list@ =~= start + pawn_pushes(m, from));
                                    }
                                } else {
                                    proof {
                                        assert(list@ =~= start + pawn_pushes(m, from));
                                    }
                                }
                            },
                            None => {
                                proof {
                                    assert(false);
                                }
                            },
                        }
                    } else {
                        proof {
                            assert(list@ =~= start + pawn_pushes(m, from));
                        }
                    }
                }
            } else {
                proof {
                    assert(list@ =~= start + pawn_pushes(m, from));
                }
            }
        },
        None => {
            proof {
                assert(list@ =~= start + pawn_pushes(m, from));
            }
        },
    }
}

/// Appends the captures (en passant included) of the pawn on `from`.
#[verifier::rlimit(40)]
fn push_pawn_captures(pos: &Position, list: &mut MoveList, from: Square, occupied: Bitboard, empty: Bitboard, enemies: Bitboard)
    requires
        masks_ok(*pos, occupied, enemies, empty),
        gen_ok(pos@),
        from.wf(),
        pos@.board[from.0 as int] == Some(Piece { color: pos@.side, kind: PieceKind::Pawn }),
        all_gen_ok(pos@, old(list)@),
    ensures
        all_gen_ok(pos@, final(list)@),
        final(list)@ == old(list)@ + concat_map(
            squares_where(pawn_targets(pos@.side, from.0 as int), 0),
            |to: Square| pawn_capture(pos@, from, to),
        ),
{
    let ghost m = pos@;
    let ghost start = list@;
    let ghost f = |to: Square| pawn_capture(m, from, to);
    let us = pos.side_to_move;
    let promo_rank: u8 = match us {
        Color::White => 7,
        Color::Black => 0,
    };
    let mut bb = pawn_attacks(us, from);
    let ghost mut done: Seq<Square> = Seq::empty();
    proof {
        pos.lemma_wf_facts();
        assert forall|j: int| 0 <= j < 64 implies crate::bitboard::bit(bb.0, j) == (pawn_targets(us, from.0 as int))(j) by {
            assert(bb.has(j) == pawn_geo(us, from.0 as int, j));
        }
        lemma_squares_from_where(bb.0, pawn_targets(us, from.0 as int), 0);
        assert(done + bb.squares() =~= squares_where(pawn_targets(us, from.0 as int), 0));
        assert(list@ =~= start + concat_map(done, f));
    }
    loop
        invariant
            masks_ok(*pos, occupied, enemies, empty),
            gen_ok(m),
            m == pos@,
            us == m.side,
            from.wf(),
            m.board[from.0 as int] == Some(Piece { color: m.side, kind: PieceKind::Pawn }),
            promo_rank as int == crate::movegen::promo_rank(us),
            squares_where(pawn_targets(us, from.0 as int), 0) == done + bb.squares(),
            list@ == start + concat_map(done, f),
            forall|t: int| #[trigger] bb.has(t) ==> pawn_geo(us, from.0 as int, t),
            all_gen_ok(m, list@),
            f == (|to: Square| pawn_capture(m, from, to)),
        ensures
            list@ == start + concat_map(squares_where(pawn_targets(us, from.0 as int), 0), f),
            all_gen_ok(m, list@),
        decreases bb.squares().len(),
    {
        let ghost before = bb;
        let ghost before_list = list@;
        match bb.next() {
            None => {
                proof {
                    assert(done + bb.squares() =~= done);
                }
                break ;
            },
            Some(to) => {
                proof {
                    crate::bitboard::lemma_squares_members(before.0, 0);
                    assert(before.squares()[0] == to);
                    assert(before.has(to.0 as int));
                    assert(pawn_geo(us, from.0 as int, to.0 as int));
                }
                if enemies.contains(to) {
                    if to.rank() == promo_rank {
                        proof {
                            lemma_promotions_ok(m, from, to, true);
                        }
                        push_promotions(list, from, to, true, Ghost(m));
                    } else {
                        let mv = Move::new(from, to, MoveFlags::Capture);
                        proof {
                            lemma_simple_move_ok(m, from, to, MoveFlags::Capture);
                            lemma_all_gen_ok_push(m, list@, mv);
                        }
                        list.push(mv);
                    }
                } else {
                    let is_ep = match pos.en_passant {
                        Some(e) => e == to,
                        None => false,
                    };
                    if is_ep {
                        let mv = Move::new(from, to, MoveFlags::EnPassant);
                        proof {
                            Move::lemma_pack_fields(from, to, MoveFlags::EnPassant);
                            assert(ep_victim(from.0 as int, to.0 as int) == to.0 - 8 * pawn_dir(us));
                            lemma_all_gen_ok_push(m, list@, mv);
                        }
                        list.push(mv);
                    }
                }
                proof {
                    assert(list@ =~= before_list + f(to));
                    lemma_concat_map_push(done, to, f);
                    assert(done.push(to) + bb.squares() =~= done + before.squares());
                    done = done.push(to);
                }
            },
        }
    }
}

/// Appends the moves of the side to move's pawns.
fn push_pawn_moves(pos: &Position, list: &mut MoveList, occupied: Bitboard, enemies: Bitboard, empty: Bitboard)
    requires
        masks_ok(*pos, occupied, enemies, empty),
        gen_ok(pos@),
        all_gen_ok(pos@, old(list)@),
    ensures
        all_gen_ok(pos@, final(list)@),
        final(list)@ == old(list)@ + pawn_moves(pos@),
{
    let ghost m = pos@;
    let ghost f = |from: Square| pawn_from(m, from);
    let ghost start = list@;
    let us = pos.side_to_move;
    let mut bb = pos.pieces(us, PieceKind::Pawn);
    let ghost mut done: Seq<Square> = Seq::empty();
    proof {
        pos.lemma_wf_facts();
        assert forall|j: int| 0 <= j < 64 implies crate::bitboard::bit(bb.0, j) == (own_kind(m, PieceKind::Pawn))(j) by {
            assert(bb.has(j) == (0 <= j < 64 && m.board[j] == Some(Piece { color: us, kind: PieceKind::Pawn })));
        }
        lemma_squares_from_where(bb.0, own_kind(m, PieceKind::Pawn), 0);
        assert(done + bb.squares() =~= origins(m, PieceKind::Pawn));
        assert(list@ =~= start + concat_map(done, f));
    }
    loop
        invariant
            masks_ok(*pos, occupied, enemies, empty),
            gen_ok(m),
            m == pos@,
            us == m.side,
            origins(m, PieceKind::Pawn) == done + bb.squares(),
            list@ == start + concat_map(done, f),
            forall|t: int| #[trigger] bb.has(t) ==> m.board[t] == Some(Piece { color: us, kind: PieceKind::Pawn }),
            all_gen_ok(m, list@),
            f == (|from: Square| pawn_from(m, from)),
        ensures
            list@ == start + concat_map(origins(m, PieceKind::Pawn), f),
            all_gen_ok(m, list@),
        decreases bb.squares().len(),
    {
        let ghost before = bb;
        let ghost before_list = list@;
        match bb.next() {
            None => {
                proof {
                    assert(done + bb.squares() =~= done);
                }
                break ;
            },
            Some(from) => {
                proof {
                    crate::bitboard::lemma_squares_members(before.0, 0);
                    assert(before.squares()[0] == from);
                    assert(before.has(from.0 as int));
                }
                push_pawn_pushes(pos, list, from, occupied, empty, enemies);
                push_pawn_captures(pos, list, from, occupied, empty, enemies);
                proof {
                    assert(list@ =~= before_list + f(from));
                    lemma_concat_map_push(done, from, f);
                    assert(done.push(from) + bb.squares() =~= done + before.squares());
                    done = done.push(from);
                }
            },
        }
    }
}

/// A generated move keeps the mover's king on the board.
pub proof fn lemma_gen_move_keeps_king(m: Model, mv: Move)
    requires
        gen_move_ok(m, mv),
        has_king(m.board, m.side),
    ensures
        has_king(apply_board(m, mv), m.side),
{
    let from = mv.spec_from().0 as int;
    let to = mv.spec_to().0 as int;
    let f = mv.spec_flags();
    let king = Piece { color: m.side, kind: PieceKind::King };
    let ks = choose|s: int| 0 <= s < 64 && m.board[s] == Some(king);
    let nb = apply_board(m, mv);
    if ks == from {
        assert(nb[to] == Some(king));
    } else {
        assert(nb[ks] == Some(king));
    }
}

/// Appends castling moves of the side to move, whose king is on `king`.
fn castling_moves(pos: &Position, us: Color, king: Square, list: &mut MoveList, occupied: Bitboard, enemies: Bitboard, empty: Bitboard)
    requires
        masks_ok(*pos, occupied, enemies, empty),
        gen_ok(pos@),
        us == pos@.side,
        king.wf(),
        lowest_king(pos@.board, us, king.0 as int),
        all_gen_ok(pos@, old(list)@),
    ensures
        all_gen_ok(pos@, final(list)@),
        final(list)@ == old(list)@ + castle_moves(pos@),
{
    let ghost m = pos@;
    let ghost start = list@;
    proof {
        pos.lemma_wf_facts();
        assert(lowest_king(m.board, us, king_sq(m, us)));
        lemma_lowest_king_unique(m.board, us, king.0 as int, king_sq(m, us));
    }
    if pos.in_check(us) {
        proof {
            assert(list@ =~= start + castle_moves(m));
        }
        return;
    }
    let them = us.opposite();
    let rank: u8 = if us == Color::White {
        0
    } else {
        7
    };
    let ghost ks_part: Seq<Move> = Seq::empty();
    if pos.castling.king_side(us) {
        let f = Square::new(5, rank);
        let g = Square::new(6, rank);
        if !occupied.contains(f) && !occupied.contains(g) && !pos.is_attacked(f, them)
            && !pos.is_attacked(g, them) {
            let mv = Move::new(king, g, MoveFlags::CastleKing);
            proof {
                Move::lemma_pack_fields(king, g, MoveFlags::CastleKing);
                lemma_lowest_king_unique(m.board, us, king.0 as int, back_rank(us) * 8 + 4);
                lemma_all_gen_ok_push(m, list@, mv);
            }
            list.push(mv);
        }
    }
    let ghost mid = list@;
    if pos.castling.queen_side(us) {
        let b = Square::new(1, rank);
        let c = Square::new(2, rank);
        let d = Square::new(3, rank);
        if !occupied.contains(b) && !occupied.contains(c) && !occupied.contains(d)
            && !pos.is_attacked(c, them) && !pos.is_attacked(d, them) {
            let mv = Move::new(king, c, MoveFlags::CastleQueen);
            proof {
                Move::lemma_pack_fields(king, c, MoveFlags::CastleQueen);
                lemma_lowest_king_unique(m.board, us, king.0 as int, back_rank(us) * 8 + 4);
                lemma_all_gen_ok_push(m, list@, mv);
            }
            list.push(mv);
        }
    }
    proof {
        assert(list@ =~= start + castle_moves(m));
    }
}

/// All pseudo-legal moves of the side to move, in generation order.
fn pseudo_legal(pos: &Position) -> (list: MoveList)
    requires
        pos.bb_wf(),
        gen_ok(pos@),
    ensures
        list@ == pseudo_legal_moves(pos@),
        all_gen_ok(pos@, list@),
{
    let ghost m = pos@;
    let mut list = MoveList::new();
    let us = pos.side_to_move;
    let them = us.opposite();
    let occupied = pos.occupied();
    let enemies = pos.occupied_by(them);
    let empty = occupied.complement();
    proof {
        pos.lemma_wf_facts();
        assert forall|i: int| #[trigger] enemies.has(i) == enemy(m, i) by {}
        assert forall|i: int| #[trigger] empty.has(i) == vacant(m, i) by {}
        assert(all_gen_ok(m, list@));
    }
    push_pawn_moves(pos, &mut list, occupied, enemies, empty);
    push_piece_moves(pos, &mut list, PieceKind::Knight, occupied, enemies, empty);
    push_piece_moves(pos, &mut list, PieceKind::Bishop, occupied, enemies, empty);
    push_piece_moves(pos, &mut list, PieceKind::Rook, occupied, enemies, empty);
    push_piece_moves(pos, &mut list, PieceKind::Queen, occupied, enemies, empty);
    let king = pos.king_square(us);
    let ghost ksq = king_sq(m, us);
    proof {
        assert(lowest_king(m.board, us, ksq));
        lemma_lowest_king_unique(m.board, us, king.0 as int, ksq);
    }
    let targets = king_attacks(king);
    let ghost attack = attack_set(PieceKind::King, king.0 as int, board_occ(m.board));
    proof {
        assert forall|t: int| #[trigger] targets.has(t) == attack(t) by {}
        assert forall|t: int| #[trigger] targets.has(t) && enemies.has(t) implies gen_move_ok(
            m,
            Move::pack(king, Square(t as u8), MoveFlags::Capture),
        ) by {
            lemma_simple_move_ok(m, king, Square(t as u8), MoveFlags::Capture);
        }
        assert forall|t: int| #[trigger] targets.has(t) && empty.has(t) implies gen_move_ok(
            m,
            Move::pack(king, Square(t as u8), MoveFlags::Quiet),
        ) by {
            lemma_simple_move_ok(m, king, Square(t as u8), MoveFlags::Quiet);
        }
    }
    let ghost before_king = list@;
    push_targets(&mut list, king, targets, enemies, empty, Ghost(m));
    proof {
        crate::bitboard::lemma_bits_and_all(targets.0, enemies.0);
        crate::bitboard::lemma_bits_and_all(targets.0, empty.0);
        assert forall|j: int| 0 <= j < 64 implies crate::bitboard::bit(targets.0 & enemies.0, j)
            == (capture_targets(m, attack))(j) by {
            assert(targets.has(j) == attack(j));
            assert(enemies.has(j) == enemy(m, j));
        }
        assert forall|j: int| 0 <= j < 64 implies crate::bitboard::bit(targets.0 & empty.0, j)
            == (quiet_targets(m, attack))(j) by {
            assert(targets.has(j) == attack(j));
            assert(empty.has(j) == vacant(m, j));
        }
        lemma_squares_from_where(targets.0 & enemies.0, capture_targets(m, attack), 0);
        lemma_squares_from_where(targets.0 & empty.0, quiet_targets(m, attack), 0);
        assert(list@ == before_king + target_moves(m, king, attack));
    }
    castling_moves(pos, us, king, &mut list, occupied, enemies, empty);
    proof {
        reveal(pseudo_legal_moves);
        assert(list@ =~= pseudo_legal_moves(m));
    }
    list
}

/// The legal moves of the side to move, in generation order.
#[verifier::rlimit(60)]
pub fn legal_moves(pos: &Position) -> (legal: MoveList)
    requires
        pos.wf(),
        gen_ok(pos@),
    ensures
        legal@ == legal_moves_of(pos@),
        all_gen_ok(pos@, legal@),
{
    let ghost m = pos@;
    let ghost pred = |mv: Move| !in_check_on(apply_board(m, mv), m.side);
    let mut legal = MoveList::new();
    let us = pos.side_to_move;
    let pseudo = pseudo_legal(pos);
    let n = pseudo.len();
    let mut i: usize = 0;
    proof {
        assert(pseudo@.take(0).filter(pred) =~= Seq::<Move>::empty());
    }
    while i < n
        invariant
            pos.wf(),
            gen_ok(m),
            m == pos@,
            us == m.side,
            n == pseudo@.len(),
            i <= n,
            pseudo@ == pseudo_legal_moves(m),
            all_gen_ok(m, pseudo@),
            legal@ == pseudo@.take(i as int).filter(pred),
            all_gen_ok(m, legal@),
            pred == (|mv: Move| !in_check_on(apply_board(m, mv), m.side)),
        decreases n - i,
    {
        let mv = pseudo.get(i);
        proof {
            assert(gen_move_ok(m, pseudo@[i as int]));
            lemma_gen_move_keeps_king(m, mv);
            assert(pseudo@.take(i + 1).drop_last() =~= pseudo@.take(i as int));
        }
        let next = pos.apply(mv);
        let ghost before = legal@;
        let check = next.in_check(us);
        proof {
            assert(next@.board == apply_board(m, mv));
            assert(pred(mv) == !check);
            let t = pseudo@.take(i + 1);
            assert(t.last() == mv);
            assert(t.len() > 0);
            assert(t.drop_last() == pseudo@.take(i as int));
            reveal_with_fuel(Seq::filter, 1);
            assert(t.filter(pred) == if pred(t.last()) {
                t.drop_last().filter(pred).push(t.last())
            } else {
                t.drop_last().filter(pred)
            });
            assert(pseudo@.take(i + 1).filter(pred) == if pred(mv) {
                before.push(mv)
            } else {
                before
            });
        }
        if !check {
            proof {
                lemma_all_gen_ok_push(m, legal@, mv);
            }
            legal.push(mv);
        }
        i = i + 1;
    }
    proof {
        assert(pseudo@.take(n as int) =~= pseudo@);
    }
    legal
}

/// No legal move leaves the mover's own king attacked, and every legal
/// move is one the generator produces.
pub proof fn law_legal_moves_are_safe(m: Model, i: int)
    requires
        0 <= i < legal_moves_of(m).len(),
    ensures
        !in_check_on(apply_board(m, legal_moves_of(m)[i]), m.side),
        pseudo_legal_moves(m).contains(legal_moves_of(m)[i]),
{
    let pred = |mv: Move| !in_check_on(apply_board(m, mv), m.side);
    pseudo_legal_moves(m).lemma_filter_pred(pred, i);
    lemma_filter_member(pseudo_legal_moves(m), pred, i);
}

proof fn lemma_filter_member(s: Seq<Move>, p: spec_fn(Move) -> bool, i: int)
    requires
        0 <= i < s.filter(p).len(),
    ensures
        s.contains(s.filter(p)[i]),
    decreases s.len(),
{
    reveal_with_fuel(Seq::filter, 1);
    if s.len() > 0 {
        let sub = s.drop_last().filter(p);
        if i < sub.len() {
            lemma_filter_member(s.drop_last(), p, i);
            let j = choose|j: int| 0 <= j < s.drop_last().len() && s.drop_last()[j] == sub[i];
            assert(s[j] == s.filter(p)[i]);
        } else {
            assert(s[s.len() - 1] == s.filter(p)[i]);
        }
    }
}

fn is_piece(v: Option<Piece>, c: Color, k: PieceKind) -> (b: bool)
    ensures
        b == (v == Some(Piece { color: c, kind: k })),
{
    match v {
        Some(p) => p.color == c && p.kind == k,
        None => false,
    }
}

fn is_lowest_king(pos: &Position, c: Color, s: usize) -> (b: bool)
    requires
        pos.wf(),
        s < 64,
    ensures
        b == lowest_king(pos@.board, c, s as int),
{
    if !is_piece(pos.mailbox[s], c, PieceKind::King) {
        return false;
    }
    let mut j: usize = 0;
    while j < s
        invariant
            pos.wf(),
            j <= s < 64,
            forall|k: int| 0 <= k < j ==> pos@.board[k] != Some(Piece { color: c, kind: PieceKind::King }),
        decreases s - j,
    {
        if is_piece(pos.mailbox[j], c, PieceKind::King) {
            return false;
        }
        j = j + 1;
    }
    true
}

/// Whether an en-passant capture the generator would reach is backed by
/// the board (see `ep_sane`).
fn ep_checks(pos: &Position) -> (b: bool)
    requires
        pos.wf(),
    ensures
        b == ep_sane(pos@),
{
    let ghost m = pos@;
    let e = match pos.en_passant {
        Some(e) => e,
        None => return true,
    };
    let us = pos.side_to_move;
    let them = us.opposite();
    let attackers = crate::attacks::pawn_attacks(them, e).intersection(pos.pieces(us, PieceKind::Pawn));
    proof {
        assert forall|s: int| #[trigger] pawn_geo(us, s, e.0 as int) implies pawn_geo(
            them,
            e.0 as int,
            s,
        ) by {
            crate::legality::lemma_leapers_symmetric(us, s, e.0 as int);
        }
        assert forall|s: int| #[trigger] pawn_geo(them, e.0 as int, s) implies pawn_geo(
            us,
            s,
            e.0 as int,
        ) by {
            crate::legality::lemma_leapers_symmetric(them, e.0 as int, s);
        }
    }
    let enemy_there = match pos.mailbox[e.0 as usize] {
        Some(p) => p.color == them,
        None => false,
    };
    if attackers.is_empty() || enemy_there {
        proof {
            if !enemy_there {
                assert forall|s: int|
                    0 <= s < 64 && m.board[s] == Some(Piece { color: m.side, kind: PieceKind::Pawn })
                        implies !#[trigger] pawn_geo(m.side, s, e.0 as int) by {
                    assert(!attackers.has(s));
                }
            }
        }
        return true;
    }
    assert(exists|s: int| attackers.has(s));
    let ghost s0 = choose|s: int| attackers.has(s);
    assert(pawn_geo(m.side, s0, e.0 as int));
    assert(ep_reached(m));
    if pos.mailbox[e.0 as usize].is_some() {
        return false;
    }
    let behind: usize = match us {
        Color::White => (e.0 - 8) as usize,
        Color::Black => (e.0 + 8) as usize,
    };
    match pos.mailbox[behind] {
        Some(p) => p.color == them,
        None => false,
    }
}

/// Whether move generation can run on a position (see `gen_ok`).
pub fn can_generate(pos: &Position) -> (b: bool)
    requires
        pos.wf(),
    ensures
        b == gen_ok(pos@),
{
    let ghost m = pos@;
    let us = pos.side_to_move;
    let kings = pos.pieces(us, PieceKind::King);
    if kings.is_empty() {
        assert forall|s: int| 0 <= s < 64 implies m.board[s] != Some(
            Piece { color: m.side, kind: PieceKind::King },
        ) by {
            assert(!kings.has(s));
        }
        return false;
    }
    assert(exists|i: int| kings.has(i));
    if pos.halfmove_clock >= 65535 {
        return false;
    }
    match us {
        Color::Black => {
            if pos.fullmove_number >= 65535 {
                return false;
            }
        },
        Color::White => {},
    }
    if !ep_checks(pos) {
        return false;
    }
    let ghost k = choose|i: int| kings.has(i);
    assert(m.board[k] == Some(Piece { color: m.side, kind: PieceKind::King }));
    castles_backed(pos)
}

/// Whether each castle the generator would reach for the side to move has
/// its king and rook in place (see `castle_sane`).
fn castles_backed(pos: &Position) -> (b: bool)
    requires
        pos.wf(),
        has_king(pos@.board, pos@.side),
    ensures
        b == castle_sane(pos@, pos@.side),
{
    let us = pos.side_to_move;
    let them = us.opposite();
    let rank: u8 = match us {
        Color::White => 0,
        Color::Black => 7,
    };
    let b: usize = match us {
        Color::White => 0,
        Color::Black => 56,
    };
    let king_side = match us {
        Color::White => pos.castling.has(1),
        Color::Black => pos.castling.has(4),
    };
    let queen_side = match us {
        Color::White => pos.castling.has(2),
        Color::Black => pos.castling.has(8),
    };
    let checked = pos.in_check(us);
    let ks_reached = king_side && !checked && pos.mailbox[b + 5].is_none() && pos.mailbox[b
        + 6].is_none() && !pos.is_attacked(Square::new(5, rank), them) && !pos.is_attacked(
        Square::new(6, rank),
        them,
    );
    assert(ks_reached == king_castle_reached(pos@, us));
    let qs_reached = queen_side && !checked && pos.mailbox[b + 1].is_none() && pos.mailbox[b
        + 2].is_none() && pos.mailbox[b + 3].is_none() && !pos.is_attacked(Square::new(2, rank), them)
        && !pos.is_attacked(Square::new(3, rank), them);
    assert(qs_reached == queen_castle_reached(pos@, us));
    if ks_reached && !(is_lowest_king(pos, us, b + 4) && is_piece(pos.mailbox[b + 7], us, PieceKind::Rook)) {
        return false;
    }
    if qs_reached && !(is_lowest_king(pos, us, b + 4) && is_piece(pos.mailbox[b], us, PieceKind::Rook)) {
        return false;
    }
    true
}

} // verus!
