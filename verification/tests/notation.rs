use gambito::fen;
use gambito::movegen::{can_generate, legal_moves};
use gambito::position::Position;
use gambito::san::can_parse;
use gambito::uci;
use gambito::zobrist::{
    key_table, CASTLING_KEYS, CASTLING_SEED, EN_PASSANT_KEYS, EN_PASSANT_SEED, PIECE_KEYS, PIECE_SEED,
    SIDE_TO_MOVE_KEY, SIDE_TO_MOVE_SEED,
};
use gambito::{Move, MoveFlags, PieceKind, Square};

fn sq(name: &str) -> Square {
    name.parse().unwrap()
}

#[test]
fn uci_text_of_moves() {
    assert_eq!(uci::format(Move::new(sq("e2"), sq("e4"), MoveFlags::DoublePush)), "e2e4");
    let promo = Move::new(sq("e7"), sq("e8"), MoveFlags::promo(PieceKind::Queen, false));
    assert_eq!(uci::format(promo), "e7e8q");
}

#[test]
fn uci_parse_takes_flags_from_the_position() {
    let pos = fen::parse("r3k2r/8/8/3Pp3/8/8/8/R3K2R w KQkq e6 0 2").unwrap();
    let castle = uci::parse(&pos, "e1g1").unwrap();
    assert_eq!(castle.flags(), MoveFlags::CastleKing);
    let ep = uci::parse(&pos, "d5e6").unwrap();
    assert_eq!(ep.flags(), MoveFlags::EnPassant);
    assert!(ep.is_capture());
}

#[test]
fn uci_parse_refuses_malformed_or_illegal() {
    let pos = Position::startpos();
    assert!(uci::parse(&pos, "e2e5").is_none());
    assert!(uci::parse(&pos, "e2").is_none());
    assert!(uci::parse(&pos, "e2e4qq").is_none());
    assert!(uci::parse(&pos, "i2e4").is_none());
    assert!(uci::parse(&pos, "e2e4x").is_none());
    // A promotion letter on a move that does not promote finds nothing.
    assert!(uci::parse(&pos, "e2e4q").is_none());
}

#[test]
fn uci_promotion_needs_its_letter() {
    let pos = fen::parse("4k3/P7/8/8/8/8/8/4K3 w - - 0 1").unwrap();
    assert!(uci::parse(&pos, "a7a8").is_none());
    let n = uci::parse(&pos, "a7a8n").unwrap();
    assert_eq!(n.promotion(), Some(PieceKind::Knight));
    assert_eq!(uci::format(n), "a7a8n");
}

#[test]
fn uci_round_trip_over_all_legal_moves() {
    let pos = fen::parse("r3k2r/p1ppqpb1/bn2pnp1/3PN3/1p2P3/2N2Q1p/PPPBBPPP/R3K2R w KQkq - 0 1").unwrap();
    let moves = legal_moves(&pos);
    assert_eq!(moves.len(), 48);
    for &mv in moves.iter() {
        assert_eq!(uci::parse(&pos, &uci::format(mv)), Some(mv));
    }
}

#[test]
fn san_round_trip_over_all_legal_moves() {
    let pos = fen::parse("r3k2r/p1ppqpb1/bn2pnp1/3PN3/1p2P3/2N2Q1p/PPPBBPPP/R3K2R w KQkq - 0 1").unwrap();
    for &mv in legal_moves(&pos).iter() {
        let text = gambito::san::format(&pos, mv);
        assert_eq!(gambito::san::parse(&pos, &text), Some(mv), "{text}");
    }
}

#[test]
fn readiness_checks() {
    let pos = Position::startpos();
    assert!(can_generate(&pos));
    assert!(can_parse(&pos));
    // Castling rights without the rook in its corner.
    let bad = fen::parse("4k3/8/8/8/8/8/8/4K3 w K - 0 1").unwrap();
    assert!(!can_generate(&bad));
    // The side not to move is in check: its king could be taken.
    let open = fen::parse("4k3/8/8/8/8/8/8/4K2R w - - 0 1").unwrap();
    assert!(can_generate(&open));
    let taken = fen::parse("4k2R/8/8/8/8/8/8/4K3 w - - 0 1").unwrap();
    assert!(!can_parse(&taken));
}

#[test]
fn apply_keeps_the_hash_in_step() {
    let pos = Position::startpos();
    for &mv in legal_moves(&pos).iter() {
        let next = pos.apply(mv);
        assert_eq!(next.hash, next.recompute_hash());
        assert_ne!(next.hash, pos.hash);
    }
}

#[test]
fn zobrist_tables_come_from_their_seeds() {
    let pieces = key_table(PIECE_SEED, 768);
    assert_eq!(pieces.as_slice(), &PIECE_KEYS[..]);
    assert_eq!(key_table(SIDE_TO_MOVE_SEED, 1)[0], SIDE_TO_MOVE_KEY);
    assert_eq!(key_table(CASTLING_SEED, 16).as_slice(), &CASTLING_KEYS[..]);
    assert_eq!(key_table(EN_PASSANT_SEED, 8).as_slice(), &EN_PASSANT_KEYS[..]);
}
