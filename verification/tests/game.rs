use gambito::game::{Game, GameStatus};
use gambito::Color;

#[test]
fn fools_mate() {
    let mut game = Game::new();
    for m in ["f3", "e5", "g4", "Qh4#"] {
        game.play_san(m).unwrap_or_else(|| panic!("{m} should be legal"));
    }
    assert_eq!(game.status(), GameStatus::Checkmate { winner: Color::Black });
}

#[test]
fn stalemate_detected() {
    let game = Game::from_fen("7k/5Q2/6K1/8/8/8/8/8 b - - 0 1").unwrap();
    assert_eq!(game.status(), GameStatus::Stalemate);
}

#[test]
fn undo_restores_position() {
    let mut game = Game::new();
    let before = game.position().hash;
    game.play_san("e4").unwrap();
    assert!(game.undo());
    assert_eq!(game.position().hash, before);
    assert!(!game.undo());
}

#[test]
fn threefold_by_shuffling() {
    let mut game = Game::new();
    for m in ["Nf3", "Nf6", "Ng1", "Ng8", "Nf3", "Nf6", "Ng1", "Ng8"] {
        game.play_san(m).unwrap();
    }
    assert_eq!(game.status(), GameStatus::ThreefoldRepetition);
}

#[test]
fn fifty_move_rule() {
    let game = Game::from_fen("4k3/8/8/8/8/8/8/R3K3 w - - 100 80").unwrap();
    assert_eq!(game.status(), GameStatus::FiftyMoveRule);
}

#[test]
fn play_records_both_notations() {
    let mut game = Game::new();
    let mv = game.play_uci("g1f3").unwrap();
    let played = game.moves_played();
    assert_eq!(played.len(), 1);
    assert_eq!(played[0].mv, mv);
    assert_eq!(played[0].san, "Nf3");
    assert_eq!(played[0].uci, "g1f3");
    assert_eq!(game.status(), GameStatus::Ongoing);
    assert!(!game.status().is_over());
}

#[test]
fn refused_input_changes_nothing() {
    let mut game = Game::new();
    assert!(game.play_san("e5").is_none());
    assert!(game.play_uci("e2e5").is_none());
    assert!(game.moves_played().is_empty());
    assert_eq!(game.legal_moves().len(), 20);
}

#[test]
fn two_repetitions_are_not_threefold() {
    let mut game = Game::new();
    for m in ["Nf3", "Nf6", "Ng1", "Ng8"] {
        game.play_san(m).unwrap();
    }
    assert_eq!(game.status(), GameStatus::Ongoing);
}

#[test]
fn bad_fen_is_refused() {
    assert!(Game::from_fen("not a position").is_err());
}

#[test]
fn bare_kings_are_a_dead_position() {
    let game = Game::from_fen("4k3/8/8/8/8/8/8/4K3 w - - 0 1").unwrap();
    assert_eq!(game.status(), GameStatus::InsufficientMaterial);
    assert!(game.status().is_over());
}

#[test]
fn a_lone_minor_piece_cannot_mate() {
    let knight = Game::from_fen("4k3/8/8/8/8/8/8/1N2K3 w - - 0 1").unwrap();
    assert_eq!(knight.status(), GameStatus::InsufficientMaterial);
    let bishop = Game::from_fen("4k3/8/8/3b4/8/8/8/4K3 w - - 0 1").unwrap();
    assert_eq!(bishop.status(), GameStatus::InsufficientMaterial);
}

#[test]
fn two_minor_pieces_or_a_pawn_play_on() {
    let minors = Game::from_fen("4k3/8/8/8/8/8/8/1NB1K3 w - - 0 1").unwrap();
    assert_eq!(minors.status(), GameStatus::Ongoing);
    let opposed = Game::from_fen("4k1n1/8/8/8/8/8/8/1N2K3 w - - 0 1").unwrap();
    assert_eq!(opposed.status(), GameStatus::Ongoing);
    let pawn = Game::from_fen("4k3/8/8/8/8/8/4P3/4K3 w - - 0 1").unwrap();
    assert_eq!(pawn.status(), GameStatus::Ongoing);
}

#[test]
fn a_capture_down_to_bare_kings_ends_the_game() {
    let mut game = Game::from_fen("4k3/8/8/8/8/8/4r3/4K3 w - - 0 1").unwrap();
    game.play_san("Kxe2").unwrap();
    assert_eq!(game.status(), GameStatus::InsufficientMaterial);
}

#[test]
fn rights_without_their_rook_do_not_stop_play() {
    let mut game = Game::from_fen("4k3/8/8/8/8/8/8/R3K3 w k - 0 1").unwrap();
    assert!(gambito::san::can_parse(game.position()));
    let mv = game.play_san("Ra2").unwrap();
    assert_eq!(game.moves_played()[0].mv, mv);
    assert_eq!(game.moves_played()[0].san, "Ra2");
    assert!(game.undo());

    let knight = Game::from_fen("4k3/8/8/8/8/8/8/1N2K3 w Q - 0 1").unwrap();
    assert!(gambito::movegen::can_generate(knight.position()));
    assert!(gambito::san::can_parse(knight.position()));
    assert_eq!(knight.legal_moves().len(), 8);
}

#[test]
fn an_unreachable_en_passant_square_does_not_stop_play() {
    let mut game = Game::from_fen("4k3/8/8/8/8/8/8/4K3 w - e6 0 1").unwrap();
    assert!(gambito::movegen::can_generate(game.position()));
    assert!(gambito::san::can_parse(game.position()));
    assert_eq!(game.legal_moves().len(), 5);
    game.play_san("Kd2").unwrap();
    let backed = Game::from_fen("4k3/8/8/3Pp3/8/8/8/4K3 w - e6 0 1").unwrap();
    assert!(gambito::movegen::can_generate(backed.position()));
    let unbacked = Game::from_fen("4k3/8/8/3P4/8/8/8/4K3 w - e6 0 1").unwrap();
    assert!(!gambito::movegen::can_generate(unbacked.position()));
}

#[test]
fn en_passant_takes_whatever_enemy_piece_stands_behind() {
    // The piece behind the en-passant square is a knight, not a pawn.
    let game = Game::from_fen("4k3/8/8/3Pn3/8/8/8/4K3 w - e6 0 1").unwrap();
    assert!(gambito::movegen::can_generate(game.position()));
    let mut g = game.clone();
    let mv = g.play_uci("d5e6").unwrap();
    assert_eq!(mv.flags(), gambito::MoveFlags::EnPassant);
    assert!(g.position().piece_at("e5".parse().unwrap()).is_none());
    assert_eq!(game.moves_played().len(), 0);
}
