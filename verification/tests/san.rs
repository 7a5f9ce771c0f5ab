use gambito::fen;
use gambito::san::parse;

fn roundtrip(fen: &str, san: &str) {
    let pos = fen::parse(fen).unwrap();
    let mv = parse(&pos, san).unwrap_or_else(|| panic!("'{san}' not found in {fen}"));
    assert_eq!(gambito::san::format(&pos, mv), san);
}

#[test]
fn pawn_and_piece_moves() {
    let start = "rnbqkbnr/pppppppp/8/8/8/8/PPPPPPPP/RNBQKBNR w KQkq - 0 1";
    roundtrip(start, "e4");
    roundtrip(start, "Nf3");
}

#[test]
fn file_disambiguation() {
    // Two knights on b1 and f3 can both reach d2.
    roundtrip("rnbqkb1r/pppppppp/8/8/8/5N2/PPP1PPPP/RNBQKB1R w KQkq - 0 1", "Nbd2");
}

#[test]
fn rank_disambiguation() {
    // Rooks on a1 and a5: same file, so ranks disambiguate.
    roundtrip("4k3/8/8/R7/8/8/8/R3K3 w - - 0 1", "R5a3");
}

#[test]
fn full_square_disambiguation() {
    // Queens on d1, d5, h1 all reach h5: the full origin square is needed
    // (and h5 eyes e8, so the move checks).
    roundtrip("4k3/8/8/3Q4/8/8/8/3QK2Q w - - 0 1", "Qd1h5+");
}

#[test]
fn en_passant_is_a_pawn_capture() {
    roundtrip("4k3/8/8/3Pp3/8/8/8/4K3 w - e6 0 2", "dxe6");
}

#[test]
fn underpromotion_with_capture() {
    roundtrip("2k3r1/5P2/8/8/8/8/8/4K3 w - - 0 1", "fxg8=N");
}

#[test]
fn castle_mate_suffix() {
    let pos = fen::parse("4k3/8/4K3/8/8/8/8/R7 w - - 0 1").unwrap();
    let mv = parse(&pos, "Ra8#").unwrap();
    assert_eq!(gambito::san::format(&pos, mv), "Ra8#");
}

#[test]
fn check_suffix() {
    roundtrip("4k3/8/8/8/8/8/8/R3K3 w - - 0 1", "Ra8+");
}

#[test]
fn castling_accepts_zeros_and_marks() {
    let pos = fen::parse("r3k2r/8/8/8/8/8/8/R3K2R w KQkq - 0 1").unwrap();
    let short = parse(&pos, "O-O").unwrap();
    assert_eq!(gambito::san::format(&pos, short), "O-O");
    assert_eq!(parse(&pos, "0-0"), Some(short));
    assert_eq!(parse(&pos, "  O-O+!? "), Some(short));
    let long = parse(&pos, "0-0-0").unwrap();
    assert_eq!(gambito::san::format(&pos, long), "O-O-O");
}

#[test]
fn check_mark_is_optional_on_input() {
    let pos = fen::parse("4k3/8/8/8/8/8/8/R3K3 w - - 0 1").unwrap();
    assert_eq!(parse(&pos, "Ra8"), parse(&pos, "Ra8+"));
    assert!(parse(&pos, "Ra8").is_some());
}

#[test]
fn unknown_text_finds_nothing() {
    let pos = fen::parse("rnbqkbnr/pppppppp/8/8/8/8/PPPPPPPP/RNBQKBNR w KQkq - 0 1").unwrap();
    assert!(parse(&pos, "e5").is_none());
    assert!(parse(&pos, "").is_none());
    assert!(parse(&pos, "Nf4").is_none());
}
