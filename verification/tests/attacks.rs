use gambito::attacks::{bishop_attacks, king_attacks, knight_attacks, pawn_attacks, queen_attacks, rook_attacks};
use gambito::{Bitboard, Color, Square};

fn sq(name: &str) -> Square {
    name.parse().unwrap()
}

#[test]
fn knight_corner_and_center() {
    assert_eq!(knight_attacks(Square(0)).count(), 2);
    assert_eq!(knight_attacks(sq("d4")).count(), 8);
}

#[test]
fn king_edges() {
    assert_eq!(king_attacks(Square(0)).count(), 3);
    assert_eq!(king_attacks(sq("e4")).count(), 8);
}

#[test]
fn pawn_attack_direction() {
    let e4 = sq("e4");
    let white = pawn_attacks(Color::White, e4);
    assert!(white.contains(sq("d5")));
    assert!(white.contains(sq("f5")));
    let black = pawn_attacks(Color::Black, e4);
    assert!(black.contains(sq("d3")));
}

#[test]
fn rook_blocked_by_occupancy() {
    let e4 = sq("e4");
    let blocker = sq("e6");
    let attacks = rook_attacks(e4, Bitboard::from_square(blocker));
    assert!(attacks.contains(blocker));
    assert!(!attacks.contains(sq("e7")));
    assert!(attacks.contains(sq("a4")));
}

#[test]
fn pawn_attacks_stay_on_the_board() {
    // A pawn on the a-file attacks one square only; one on the last rank none.
    assert_eq!(pawn_attacks(Color::White, sq("a2")).count(), 1);
    assert_eq!(pawn_attacks(Color::White, sq("e8")).count(), 0);
    assert_eq!(pawn_attacks(Color::Black, sq("h7")).count(), 1);
}

#[test]
fn queen_is_bishop_and_rook_without_overlap() {

    let d4 = sq("d4");
    let empty = Bitboard::empty();
    let q = queen_attacks(d4, empty);
    let b = bishop_attacks(d4, empty);
    let r = rook_attacks(d4, empty);
    assert_eq!(q.count(), 27);
    assert!(b.intersection(r).is_empty());
    assert_eq!(q, b.union(r));
    let mut occ = Bitboard::empty();
    occ.set(sq("d6"));
    occ.set(sq("f6"));
    assert!(bishop_attacks(d4, occ).intersection(rook_attacks(d4, occ)).is_empty());
}

#[test]
fn set_and_clear_count_once() {
    let mut b = Bitboard::empty();
    b.set(sq("e4"));
    assert_eq!(b.count(), 1);
    let once = b;
    b.set(sq("e4"));
    assert_eq!(b, once);
    assert_eq!(b.count(), 1);
    b.set(sq("a1"));
    assert_eq!(b.count(), 2);
    b.clear(sq("a1"));
    assert_eq!(b, once);
    b.clear(sq("a1"));
    assert_eq!(b, once);
    b.clear(sq("e4"));
    assert!(b.is_empty());
}
