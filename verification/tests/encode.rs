use gambito::encode::{policy_index, pov_square, POLICY_SIZE};
use gambito::{Color, Move, MoveFlags, PieceKind, Square};

fn sq(name: &str) -> Square {
    name.parse().unwrap()
}

#[test]
fn plain_move_uses_from_64_plus_to() {
    // e2=12, e4=28 -> 12*64+28 = 796.
    let mv = Move::new(sq("e2"), sq("e4"), MoveFlags::DoublePush);
    assert_eq!(policy_index(mv, Color::White), 796);
}

#[test]
fn black_mirror_move_shares_the_index() {
    // e7e5 by Black mirrors to e2e4: the same index, 796.
    let mv = Move::new(sq("e7"), sq("e5"), MoveFlags::DoublePush);
    assert_eq!(policy_index(mv, Color::Black), 796);
}

#[test]
fn queen_promotion_stays_in_the_flat_range() {
    // a7=48, a8=56 -> 48*64+56 = 3128.
    let mv = Move::new(sq("a7"), sq("a8"), MoveFlags::promo(PieceKind::Queen, false));
    assert_eq!(policy_index(mv, Color::White), 3128);
}

#[test]
fn underpromotions_use_the_tail_slots() {
    // a7a8=N push: 4096 + 0*9 + 0*3 + 0 = 4096.
    let push = Move::new(sq("a7"), sq("a8"), MoveFlags::promo(PieceKind::Knight, false));
    assert_eq!(policy_index(push, Color::White), 4096);
    // a7xb8=R, capture toward file+1: 4096 + 0*9 + 2*3 + 2 = 4104.
    let cap = Move::new(sq("a7"), sq("b8"), MoveFlags::promo(PieceKind::Rook, true));
    assert_eq!(policy_index(cap, Color::White), 4104);
}

#[test]
fn black_underpromotion_is_mirrored_first() {
    // g2g1=B by Black mirrors to g7g8: 4096 + 6*9 + 0*3 + 1 = 4151.
    let mv = Move::new(sq("g2"), sq("g1"), MoveFlags::promo(PieceKind::Bishop, false));
    assert_eq!(policy_index(mv, Color::Black), 4151);
}

#[test]
fn pov_mirrors_ranks_only_for_black() {
    assert_eq!(pov_square(sq("e2"), Color::White), sq("e2"));
    assert_eq!(pov_square(sq("e2"), Color::Black), sq("e7"));
    assert_eq!(pov_square(sq("a1"), Color::Black), sq("a8"));
}

#[test]
fn largest_underpromotion_slot_is_the_last() {
    // h7xg8=R toward file - 1: 4096 + 7*9 + 1*3 + 2 = 4164; toward
    // file + 1 is impossible from h, so the top slots stay below 4168.
    let mv = Move::new(sq("h7"), sq("g8"), MoveFlags::promo(PieceKind::Rook, true));
    assert_eq!(policy_index(mv, Color::White), 4164);
    assert!(4164 < POLICY_SIZE);
}

#[test]
fn legal_moves_get_distinct_policy_indices() {
    for fen in [
        "rnbqkbnr/pppppppp/8/8/8/8/PPPPPPPP/RNBQKBNR w KQkq - 0 1",
        "r3k2r/1P6/8/8/8/8/1p6/R3K2R w KQkq - 0 1",
        "r3k2r/1P6/8/8/8/8/1p6/R3K2R b KQkq - 0 1",
    ] {
        let pos = gambito::fen::parse(fen).unwrap();
        let legal = gambito::movegen::legal_moves(&pos);
        let mut seen: Vec<usize> = Vec::new();
        for &mv in legal.as_slice() {
            let i = gambito::encode::policy_index(mv, pos.side_to_move);
            assert!(i < gambito::encode::POLICY_SIZE);
            assert!(!seen.contains(&i), "{fen}: index {i} twice");
            seen.push(i);
        }
        assert_eq!(seen.len(), legal.len());
    }
}

fn planes(fen: &str) -> Vec<u8> {
    gambito::encode::plane_bits(&gambito::fen::parse(fen).unwrap())
}

#[test]
fn startpos_looks_identical_from_both_sides() {
    // The start position is symmetric, so after the POV mirror the planes
    // do not depend on who is to move.
    let white = planes("rnbqkbnr/pppppppp/8/8/8/8/PPPPPPPP/RNBQKBNR w KQkq - 0 1");
    let black = planes("rnbqkbnr/pppppppp/8/8/8/8/PPPPPPPP/RNBQKBNR b KQkq - 0 1");
    assert_eq!(white, black);
}

#[test]
fn startpos_plane_shapes() {
    let t = gambito::encode::plane_bits(&gambito::position::Position::startpos());
    assert_eq!(t.len(), gambito::encode::PLANE_COUNT * 64);
    // Our pawns: 8 ones, all on rank 2 (index 1).
    let pawns = &t[0..64];
    assert_eq!(pawns.iter().map(|&v| v as u32).sum::<u32>(), 8);
    assert!(pawns[8..16].iter().all(|&v| v == 1));
    // All four castling planes lit, ep empty, clock 0, ones plane full.
    for p in 12..16 {
        assert!(t[p * 64..(p + 1) * 64].iter().all(|&v| v == 1));
    }
    assert_eq!(t[16 * 64..17 * 64].iter().map(|&v| v as u32).sum::<u32>(), 0);
    assert!(t[17 * 64..18 * 64].iter().all(|&v| v == 0));
    assert!(t[18 * 64..].iter().all(|&v| v == 1));
}

#[test]
fn en_passant_square_is_mirrored_for_black() {
    // White just played f2f4; Black to move, ep target f3. In Black's
    // frame f3 mirrors to f6 = rank 5, file 5.
    let t = planes("rnbqkbnr/pppp1ppp/8/8/4pP2/8/PPPPP1PP/RNBQKBNR b KQkq f3 0 2");
    let plane = &t[16 * 64..17 * 64];
    assert_eq!(plane.iter().map(|&v| v as u32).sum::<u32>(), 1);
    assert_eq!(plane[5 * 8 + 5], 1);
}

#[test]
fn clock_plane_is_left_to_the_caller() {
    let t = planes("8/8/4k3/8/8/4K3/8/R7 w - - 37 60");
    assert!(t[17 * 64..18 * 64].iter().all(|&v| v == 0));
    // Our rook on a1 (rook = plane 3), not on the other side's rook plane.
    assert_eq!(t[(6 + 3) * 64], 0);
    assert_eq!(t[3 * 64], 1);
    assert!(t[12 * 64..16 * 64].iter().all(|&v| v == 0));
}

#[test]
fn startpos_is_balanced() {
    assert_eq!(gambito::encode::material_balance(&gambito::position::Position::startpos()), 0);
}

#[test]
fn material_is_from_side_to_move_perspective() {
    let up = gambito::fen::parse("4k3/8/8/8/8/8/8/QQ2K3 w - - 0 1").unwrap();
    let down = gambito::fen::parse("4k3/8/8/8/8/8/8/QQ2K3 b - - 0 1").unwrap();
    assert_eq!(gambito::encode::material_balance(&up), 18);
    assert_eq!(gambito::encode::material_balance(&down), -18);
    let crushed = gambito::fen::parse("4k3/8/8/8/QQ2QQ2/QQ1QQ3/8/Q3K3 w - - 0 1").unwrap();
    assert_eq!(gambito::encode::material_balance(&crushed), 81);
}
