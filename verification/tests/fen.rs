use gambito::fen::parse;
use gambito::Color;

#[test]
fn startpos_round_trip() {
    let fen = "rnbqkbnr/pppppppp/8/8/8/8/PPPPPPPP/RNBQKBNR w KQkq - 0 1";
    assert_eq!(gambito::fen::format(&parse(fen).unwrap()), fen);
}

#[test]
fn kiwipete_round_trip() {
    let fen = "r3k2r/p1ppqpb1/bn2pnp1/3PN3/1p2P3/2N2Q1p/PPPBBPPP/R3K2R w KQkq - 0 1";
    assert_eq!(gambito::fen::format(&parse(fen).unwrap()), fen);
}

#[test]
fn hash_matches_recompute_after_parse() {
    let pos = parse("r3k2r/p1ppqpb1/bn2pnp1/3PN3/1p2P3/2N2Q1p/PPPBBPPP/R3K2R b KQkq e3 4 12").unwrap();
    assert_eq!(pos.hash, pos.recompute_hash());
}

#[test]
fn rejects_garbage() {
    assert!(parse("").is_err());
    assert!(parse("8/8/8/8/8/8/8/8 w - - 0 1").is_err()); // no kings
    assert!(parse("rnbqkbnr/pppppppp/8/8/8/8/PPPPPPPP w KQkq - 0 1").is_err());
}

#[test]
fn missing_fields_take_defaults() {
    let pos = parse("4k3/8/8/8/8/8/8/4K3").unwrap();
    assert_eq!(pos.side_to_move, Color::White);
    assert_eq!(pos.halfmove_clock, 0);
    assert_eq!(pos.fullmove_number, 1);
    assert_eq!(gambito::fen::format(&pos), "4k3/8/8/8/8/8/8/4K3 w - - 0 1");
}

#[test]
fn startpos_matches_its_fen() {
    let pos = gambito::position::Position::startpos();
    assert_eq!(gambito::fen::format(&pos), "rnbqkbnr/pppppppp/8/8/8/8/PPPPPPPP/RNBQKBNR w KQkq - 0 1");
    assert_eq!(pos.hash, pos.recompute_hash());
}

#[test]
fn error_messages_name_the_problem() {
    match parse("") {
        Err(e) => assert!(e.to_string().starts_with("invalid FEN: ")),
        Ok(_) => panic!("an empty string is no position"),
    }
}

fn message(fen: &str) -> String {
    match parse(fen) {
        Ok(_) => panic!("{fen} should be refused"),
        Err(e) => e.0,
    }
}

#[test]
fn refusals_name_the_first_fault() {
    assert_eq!(message(""), "empty string");
    assert_eq!(message("8/8/8/8/8/8/8/8 w - - 0 1"), "each side needs exactly one king");
    assert_eq!(message("rnbqkbnr/pppppppp/8/8/8/8/PPPPPPPP w KQkq - 0 1"), "board field is not 8x8");
    assert_eq!(message("rnbqkbnr/ppppppp/8/8/8/8/PPPPPPPP/RNBQKBNR w KQkq - 0 1"), "rank 7 has 7 files");
    assert_eq!(message("88/8/8/8/8/8/8/8 w - - 0 1"), "rank 8 has 16 files");
    assert_eq!(message("8/8/8/8/8/8/8/8/8 w - - 0 1"), "too many ranks");
    assert_eq!(message("4k3/8/8/8/8/8/8/4X3 w - - 0 1"), "bad piece 'X'");
    assert_eq!(message("4k3/8/8/8/8/8/8/8K w - - 0 1"), "rank 1 overflows");
    assert_eq!(message("4k3/8/8/8/8/8/8/4K3 x - - 0 1"), "bad side 'x'");
    assert_eq!(message("4k3/8/8/8/8/8/8/4K3 w Kz - 0 1"), "bad castling 'z'");
    assert_eq!(message("4k3/8/8/8/8/8/8/4K3 w - e9 0 1"), "bad ep 'e9'");
    assert_eq!(message("4k3/8/8/8/8/8/8/4K3 w - - x 1"), "bad halfmove clock");
    assert_eq!(message("4k3/8/8/8/8/8/8/4K3 w - - 0 70000"), "bad fullmove number");
    let e = gambito::game::Game::from_fen("4k3/8/8/8/8/8/8/4K3 b - - 0 1 extra").err();
    assert!(e.is_none());
    let e = gambito::game::Game::from_fen("4k3/8/8/8/8/8/8/4K3 q").err().unwrap();
    assert_eq!(e.0, "bad side 'q'");
    assert_eq!(e.to_string(), "invalid FEN: bad side 'q'");
}
