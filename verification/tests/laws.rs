use gambito::brain::{Brain, RandomBrain};
use gambito::fen;
use gambito::game::Game;
use gambito::movegen::legal_moves;
use gambito::san::can_parse;
use gambito::uci;

/// Random games: every position reached stays playable, its hash stays in
/// step, its FEN text reads back as itself, and every legal move's SAN and
/// long algebraic texts name that move again.
#[test]
fn random_games_keep_every_law() {
    for seed in [1u64, 42] {
        let mut brain = RandomBrain::new(seed);
        let mut game = Game::new();
        for ply in 0..60 {
            let pos = *game.position();
            assert!(can_parse(&pos));
            assert_eq!(pos.hash, pos.recompute_hash());
            let text = fen::format(&pos);
            let back = fen::parse(&text).unwrap();
            assert_eq!(fen::format(&back), text);
            assert_eq!(back.hash, pos.hash);
            if ply % 15 == 0 {
                for &mv in legal_moves(&pos).iter() {
                    assert_eq!(gambito::san::parse(&pos, &gambito::san::format(&pos, mv)), Some(mv));
                    assert_eq!(uci::parse(&pos, &uci::format(mv)), Some(mv));
                }
            }
            let Some(mv) = brain.choose_move(&game) else { break };
            game.play(mv);
        }
    }
}

#[test]
fn undo_after_play_restores_the_record() {
    let mut game = Game::new();
    game.play_san("e4").unwrap();
    game.play_san("c5").unwrap();
    let before = fen::format(game.position());
    let count = game.moves_played().len();
    game.play_san("Nf3").unwrap();
    assert!(game.undo());
    assert_eq!(fen::format(game.position()), before);
    assert_eq!(game.moves_played().len(), count);
}

#[test]
fn bitboards_agree_with_the_board() {
    let pos = fen::parse("r3k2r/1P6/8/3pP3/8/8/1p6/R3K2R w KQkq d6 0 1").unwrap();
    let kinds = [
        gambito::PieceKind::Pawn,
        gambito::PieceKind::Knight,
        gambito::PieceKind::Bishop,
        gambito::PieceKind::Rook,
        gambito::PieceKind::Queen,
        gambito::PieceKind::King,
    ];
    let white = pos.occupied_by(gambito::Color::White);
    let black = pos.occupied_by(gambito::Color::Black);
    assert!(white.intersection(black).is_empty());
    assert_eq!(white.union(black), pos.occupied());
    for i in 0..64u8 {
        let sq = gambito::Square(i);
        let mut hits = 0;
        for c in [gambito::Color::White, gambito::Color::Black] {
            for k in kinds {
                let on = pos.pieces(c, k).contains(sq);
                assert_eq!(on, pos.piece_at(sq) == Some(gambito::Piece::new(c, k)));
                if on {
                    hits += 1;
                }
            }
        }
        assert!(hits <= 1);
    }
}
