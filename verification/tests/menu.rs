use gambito::brain::{Brain, RandomBrain};
use gambito::game::Game;
use gambito::ui::{map_input, menu_item, Action, Input, MenuScreen, Transition, MENU_LEN};

#[test]
fn menu_wraps_and_starts() {
    let mut m = MenuScreen::new();
    assert!(matches!(m.handle(Action::Up), Transition::Stay));
    assert_eq!(m.selected, MENU_LEN - 1);
    assert!(matches!(m.handle(Action::Enter), Transition::Quit));
    m.handle(Action::Down);
    assert_eq!(m.selected, 0);
    assert!(matches!(m.handle(Action::Enter), Transition::StartHotseat));
}

#[test]
fn menu_notes_unavailable_entries() {
    let mut m = MenuScreen::new();
    m.handle(Action::Down);
    m.handle(Action::Down);
    assert!(matches!(m.handle(Action::Enter), Transition::Stay));
    assert!(m.note.is_some());
    m.handle(Action::Down);
    assert!(m.note.is_none());
    assert!(matches!(m.handle(Action::Escape), Transition::Quit));
    assert!(menu_item(0).1);
    assert!(menu_item(1).1);
    assert!(!menu_item(2).1);
    assert!(!menu_item(3).1);
}

#[test]
fn menu_starts_a_game_against_the_ai() {
    let mut m = MenuScreen::new();
    m.handle(Action::Down);
    assert_eq!(m.selected, 1);
    assert!(matches!(m.handle(Action::Enter), Transition::StartVsAi));
    assert!(m.note.is_none());
}

#[test]
fn random_brain_plays_legal_moves() {
    let mut brain = RandomBrain::new(7);
    assert_eq!(brain.name(), "Random");
    let mut game = Game::new();
    for _ in 0..20 {
        let Some(mv) = brain.choose_move(&game) else { break };
        assert!(game.legal_moves().as_slice().contains(&mv));
        game.play(mv);
    }
    let mate = Game::from_fen("7k/5Q2/6K1/8/8/8/8/8 b - - 0 1").unwrap();
    assert!(brain.choose_move(&mate).is_none());
}

#[test]
fn keys_map_to_actions() {
    use_inputs();
}

fn use_inputs() {
    assert_eq!(map_input(Input::Char('q'), false), Some(Action::Quit));
    assert_eq!(map_input(Input::Char('q'), true), Some(Action::Char('q')));
    assert_eq!(map_input(Input::Char('k'), false), Some(Action::Up));
    assert_eq!(map_input(Input::Char('j'), false), Some(Action::Down));
    assert_eq!(map_input(Input::Char(':'), false), Some(Action::FocusInput));
    assert_eq!(map_input(Input::Char('e'), false), Some(Action::Char('e')));
    assert_eq!(map_input(Input::Escape, true), Some(Action::Escape));
    assert_eq!(map_input(Input::LeftClick { column: 3, row: 4 }, false), Some(Action::Click { column: 3, row: 4 }));
    assert_eq!(map_input(Input::Other, false), None);
}
