use gambito::game::Game;
use gambito::screen::GameScreen;
use gambito::ui::{Action, BoardGeometry, Rect, Transition};
use gambito::Square;

fn test_geom() -> BoardGeometry {
    BoardGeometry { area: Rect::new(0, 0, 34, 17), square_w: 4, square_h: 2 }
}

fn screen() -> GameScreen {
    let mut s = GameScreen::new(Game::new(), true);
    // Fixed geometry so clicks can be computed: board at origin.
    s.geom = test_geom();
    s
}

fn click_square(s: &mut GameScreen, name: &str) {
    let sq: Square = name.parse().unwrap();
    let column = 2 + sq.file() as u16 * 4 + 1;
    let row = (7 - sq.rank() as u16) * 2;
    s.handle(Action::Click { column, row });
}

#[test]
fn click_to_move() {
    let mut s = screen();
    click_square(&mut s, "e2");
    assert_eq!(s.selected, Some("e2".parse().unwrap()));
    click_square(&mut s, "e4");
    assert_eq!(s.game.moves_played().len(), 1);
    assert_eq!(s.game.moves_played()[0].san, "e4");
}

#[test]
fn san_input_flow() {
    let mut s = screen();
    s.handle(Action::FocusInput);
    for c in "Nf3".chars() {
        s.handle(Action::Char(c));
    }
    s.handle(Action::Enter);
    assert_eq!(s.game.moves_played()[0].san, "Nf3");
    assert!(!s.text_entry());
}

#[test]
fn invalid_san_keeps_focus_and_reports() {
    let mut s = screen();
    s.handle(Action::FocusInput);
    s.handle(Action::Char('z'));
    s.handle(Action::Enter);
    assert!(s.message.is_some());
    assert!(s.text_entry());
}

#[test]
fn promotion_asks_for_piece() {
    let mut s = GameScreen::new(Game::from_fen("2k3r1/5P2/8/8/8/8/8/4K3 w - - 0 1").unwrap(), true);
    s.geom = test_geom();
    click_square(&mut s, "f7");
    click_square(&mut s, "g8");
    assert!(s.promo.is_some());
    s.handle(Action::Char('n')); // underpromotes to knight
    assert_eq!(s.game.moves_played()[0].san, "fxg8=N");
}

#[test]
fn quit_needs_confirmation() {
    let mut s = screen();
    assert!(matches!(s.handle(Action::Quit), Transition::Stay));
    assert!(matches!(s.handle(Action::Char('x')), Transition::Stay)); // cancels
    assert!(matches!(s.handle(Action::Quit), Transition::Stay));
    assert!(matches!(s.handle(Action::Enter), Transition::Quit));
}

#[test]
fn backspace_and_escape_edit_the_prompt() {
    let mut s = screen();
    s.handle(Action::FocusInput);
    s.handle(Action::Char('e'));
    s.handle(Action::Char('x'));
    s.handle(Action::Backspace);
    assert_eq!(s.input.as_deref(), Some("e"));
    s.handle(Action::Backspace);
    s.handle(Action::Backspace);
    assert_eq!(s.input.as_deref(), Some(""));
    s.handle(Action::Escape);
    assert!(!s.text_entry());
    assert!(s.game.moves_played().is_empty());
}

#[test]
fn invalid_san_message_quotes_the_input() {
    let mut s = screen();
    s.handle(Action::FocusInput);
    s.handle(Action::Char('z'));
    s.handle(Action::Enter);
    assert_eq!(s.message.as_deref(), Some("Invalid move: z"));
}

#[test]
fn undo_flip_and_menu() {
    let mut s = screen();
    s.handle(Action::Undo);
    assert_eq!(s.message.as_deref(), Some("Nothing to undo."));
    click_square(&mut s, "e2");
    click_square(&mut s, "e4");
    s.handle(Action::Undo);
    assert!(s.game.moves_played().is_empty());
    assert!(s.message.is_none());
    s.handle(Action::Flip);
    assert!(s.flipped);
    assert!(matches!(s.handle(Action::ToMenu), Transition::ToMenu));
    assert!(matches!(s.handle(Action::Escape), Transition::ToMenu));
}

#[test]
fn targets_of_the_selected_knight() {
    let mut s = screen();
    assert_eq!(s.targets().count(), 0);
    click_square(&mut s, "g1");
    let t = s.targets();
    assert_eq!(t.count(), 2);
    assert!(t.contains("f3".parse().unwrap()));
    assert!(t.contains("h3".parse().unwrap()));
}

#[test]
fn clicking_an_enemy_piece_selects_nothing() {
    let mut s = screen();
    click_square(&mut s, "e7");
    assert_eq!(s.selected, None);
    click_square(&mut s, "e3");
    assert_eq!(s.selected, None);
}
