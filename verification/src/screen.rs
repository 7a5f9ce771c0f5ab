//! The game screen's state and its response to input actions.

use vstd::prelude::*;
use vstd::string::*;
use crate::bitboard::Bitboard;
use crate::game::{
    lemma_play_found_keeps_all_sane, lemma_undo_keeps_all_sane, played, status_of, Game, GameStatus,
};
use crate::movegen::{all_gen_ok, gen_move_ok, gen_ok, legal_moves_of};
use crate::moves::{first_where, lemma_first_where_none, lemma_first_where_step, Move};
use crate::position::apply_model;
use crate::san::{format_ok, parse_ok};
use crate::text::{chars_of, is_ws, push_char, string_of};
use crate::types::{PieceKind, Square};
use crate::uci::uci_pred;
use crate::ui::{Action, BoardGeometry, Rect, Transition, SQUARE_H, SQUARE_W};

verus! {

pub struct GameScreen {
    pub game: Game,
    pub ascii: bool,
    pub flipped: bool,
    pub selected: Option<Square>,
    /// Some while the move prompt has focus.
    pub input: Option<String>,
    pub message: Option<String>,
    /// Pending promotion: origin and target chosen, piece kind not yet.
    pub promo: Option<(Square, Square)>,
    pub confirm_quit: bool,
    /// Board geometry from the last render, for mouse hit-testing.
    pub geom: BoardGeometry,
}

/// The screen can take input: the game is consistent, every legal move of
/// its position can be played and named, and hit-testing is defined.
pub open spec fn ready(s: GameScreen) -> bool {
    &&& s.game.wf()
    &&& parse_ok(s.game.current())
    &&& s.geom.wf()
}

/// The prompt text without its last character (unchanged when empty).
pub open spec fn without_last(t: Seq<char>) -> Seq<char> {
    if t.len() > 0 {
        t.drop_last()
    } else {
        t
    }
}

/// What the screen asks the application to do after an action.
pub open spec fn transition_of(s: GameScreen, action: Action) -> Transition {
    if s.confirm_quit {
        match action {
            Action::Enter | Action::Quit => Transition::Quit,
            Action::Char(c) => if c == 'y' || c == 's' {
                Transition::Quit
            } else {
                Transition::Stay
            },
            _ => Transition::Stay,
        }
    } else if s.promo is Some || s.input is Some {
        Transition::Stay
    } else {
        match action {
            Action::ToMenu => Transition::ToMenu,
            Action::Escape => if s.selected is Some {
                Transition::Stay
            } else {
                Transition::ToMenu
            },
            _ => Transition::Stay,
        }
    }
}

/// The piece kind an action picks in the promotion popup (`q` is queen).
pub open spec fn promo_choice(action: Action) -> Option<PieceKind> {
    match action {
        Action::Quit => Some(PieceKind::Queen),
        Action::Char(c) => if c == 'r' {
            Some(PieceKind::Rook)
        } else if c == 'b' {
            Some(PieceKind::Bishop)
        } else if c == 'n' {
            Some(PieceKind::Knight)
        } else {
            None
        },
        _ => None,
    }
}

/// The legal move from `from` to `to` with promotion `promo`.
pub open spec fn move_between(s: GameScreen, from: Square, to: Square, promo: Option<PieceKind>) -> Option<Move> {
    first_where(legal_moves_of(s.game.current()), uci_pred(from, to, promo))
}

/// Screens equal but for the game.
pub open spec fn same_but_game(a: GameScreen, b: GameScreen) -> bool {
    &&& a.ascii == b.ascii
    &&& a.flipped == b.flipped
    &&& a.selected == b.selected
    &&& a.input == b.input
    &&& a.message == b.message
    &&& a.promo == b.promo
    &&& a.confirm_quit == b.confirm_quit
    &&& a.geom == b.geom
}

fn literal(s: &str) -> (r: String)
    ensures
        r@ == s@,
{
    string_of(&chars_of(s))
}

impl GameScreen {
    pub fn new(game: Game, ascii: bool) -> (s: GameScreen)
        ensures
            s.game == game,
            s.ascii == ascii,
            !s.flipped,
            s.selected is None,
            s.input is None,
            s.message is None,
            s.promo is None,
            !s.confirm_quit,
            s.geom == (BoardGeometry {
                area: Rect { x: 0, y: 0, width: 0, height: 0 },
                square_w: SQUARE_W,
                square_h: SQUARE_H,
            }),
    {
        GameScreen {
            game,
            ascii,
            flipped: false,
            selected: None,
            input: None,
            message: None,
            promo: None,
            confirm_quit: false,
            geom: BoardGeometry::default(),
        }
    }

    /// The move prompt has focus, so printable keys are text.
    pub fn text_entry(&self) -> (b: bool)
        ensures
            b == self.input is Some,
    {
        self.input.is_some()
    }

    /// Looks up the legal move from `from` to `to`; `promo` picks the
    /// promotion (`None` matches only moves that do not promote).
    pub fn find_move(&self, from: Square, to: Square, promo: Option<PieceKind>) -> (r: Option<Move>)
        requires
            self.game.wf(),
            gen_ok(self.game.current()),
        ensures
            r == move_between(*self, from, to, promo),
            r matches Some(mv) ==> gen_move_ok(self.game.current(), mv) && (parse_ok(
                self.game.current(),
            ) ==> format_ok(self.game.current(), mv)),
    {
        let ghost m = self.game.current();
        let legal = self.game.legal_moves();
        let ghost p = uci_pred(from, to, promo);
        let mut i: usize = 0;
        while i < legal.len()
            invariant
                m == self.game.current(),
                i <= legal@.len(),
                legal@ == legal_moves_of(m),
                all_gen_ok(m, legal@),
                p == uci_pred(from, to, promo),
                legal@.take(i as int).filter(p).len() == 0,
            decreases legal@.len() - i,
        {
            let mv = legal.get(i);
            proof {
                lemma_first_where_step(legal@, p, i as int);
                assert(gen_move_ok(m, legal@[i as int]));
            }
            if mv.from() == from && mv.to() == to && same_promotion(mv.promotion(), promo) {
                assert(p(legal@[i as int]));
                assert(parse_ok(m) ==> crate::position::apply_model(m, legal_moves_of(m)[i as int])
                    == crate::position::apply_model(m, mv));
                return Some(mv);
            }
            i = i + 1;
        }
        proof {
            lemma_first_where_none(legal@, p);
        }
        None
    }
}

/// The square under a cell, by the last render's geometry.
pub open spec fn click_square(s: GameScreen, column: u16, row: u16) -> Option<Square> {
    crate::ui::square_under(
        s.geom.area,
        s.geom.square_w as int,
        s.geom.square_h as int,
        column as int,
        row as int,
        s.flipped,
    )
}

/// The square holds a piece of the side to move.
pub open spec fn own_piece(s: GameScreen, sq: Square) -> bool {
    let m = s.game.current();
    m.board[sq.0 as int] is Some && m.board[sq.0 as int].unwrap().color == m.side
}

pub open spec fn is_over(s: GameScreen) -> bool {
    status_of(s.game.models()) != GameStatus::Ongoing
}

/// A click: on an empty cell or a finished game nothing happens; with a
/// piece selected, a click on a promotion target opens the popup and one on
/// another target plays the move; otherwise the click selects the clicked
/// piece of the side to move, or clears the selection.
pub open spec fn click_post(a: GameScreen, column: u16, row: u16, b: GameScreen) -> bool {
    match click_square(a, column, row) {
        None => b == a,
        Some(sq) => if is_over(a) {
            b == a
        } else {
            let reselect = b == GameScreen { selected: if own_piece(a, sq) { Some(sq) } else { None }, ..a };
            match a.selected {
                Some(from) => if move_between(a, from, sq, Some(PieceKind::Queen)) is Some {
                    b == GameScreen { selected: None, promo: Some((from, sq)), ..a }
                } else if move_between(a, from, sq, None) is Some {
                    &&& played(a.game, move_between(a, from, sq, None).unwrap(), b.game)
                    &&& same_but_game(b, GameScreen { selected: None, message: None, input: None, ..a })
                } else {
                    reselect
                },
                None => reselect,
            }
        },
    }
}

/// The prompt's text.
pub open spec fn prompt(s: GameScreen) -> Seq<char> {
    match s.input {
        Some(t) => t@,
        None => Seq::empty(),
    }
}

pub open spec fn blank(t: Seq<char>) -> bool {
    forall|i: int| 0 <= i < t.len() ==> is_ws(t[i])
}

/// Submitting the prompt: a blank one just closes; in a finished game the
/// prompt closes with a notice; a move the prompt names is played (and the
/// prompt closes); otherwise the prompt stays open with an error.
pub open spec fn submit_post(a: GameScreen, b: GameScreen) -> bool {
    let t = prompt(a);
    if blank(t) {
        b == GameScreen { input: None, ..a }
    } else if is_over(a) {
        &&& b.message matches Some(msg) && msg@ == "The game is over."@
        &&& b == GameScreen { input: None, message: b.message, ..a }
    } else {
        match crate::san::san_move(a.game.current(), t) {
            Some(mv) => {
                &&& played(a.game, mv, b.game)
                &&& same_but_game(b, GameScreen { selected: None, message: None, input: None, ..a })
            },
            None => {
                &&& b.message matches Some(msg) && msg@ == "Invalid move: "@ + t
                &&& b == GameScreen { message: b.message, ..a }
            },
        }
    }
}

/// Picking a piece in the promotion popup: the popup closes and the
/// promotion is played if legal.
pub open spec fn promote_post(a: GameScreen, from: Square, to: Square, k: PieceKind, b: GameScreen) -> bool {
    match move_between(a, from, to, Some(k)) {
        Some(mv) => {
            &&& played(a.game, mv, b.game)
            &&& same_but_game(b, GameScreen { promo: None, message: None, input: None, ..a })
        },
        None => b == GameScreen { promo: None, ..a },
    }
}

pub open spec fn quit_prompt() -> Seq<char> {
    "Quit gambito? Enter/y confirms, any other key cancels."@
}

/// The effect of an action on the screen.
pub open spec fn handle_post(a: GameScreen, action: Action, b: GameScreen) -> bool {
    if a.confirm_quit {
        if transition_of(a, action) == Transition::Quit {
            b == a
        } else {
            b == GameScreen { confirm_quit: false, message: None, ..a }
        }
    } else {
        match a.promo {
            Some((from, to)) => if action is Escape {
                b == GameScreen { promo: None, ..a }
            } else {
                match promo_choice(action) {
                    Some(k) => promote_post(a, from, to, k, b),
                    None => b == a,
                }
            },
            None => match a.input {
                Some(t) => input_post(a, t@, action, b),
                None => board_post(a, action, b),
            },
        }
    }
}

/// An action while the prompt has focus.
pub open spec fn input_post(a: GameScreen, t: Seq<char>, action: Action, b: GameScreen) -> bool {
    match action {
        Action::Escape => b == GameScreen { input: None, ..a },
        Action::Enter => submit_post(a, b),
        Action::Backspace => {
            &&& b.input matches Some(u) && u@ == without_last(t)
            &&& b == GameScreen { input: b.input, ..a }
        },
        Action::Char(c) => {
            &&& b.input matches Some(u) && u@ == t.push(c)
            &&& b == GameScreen { input: b.input, ..a }
        },
        Action::Click { column, row } => click_post(a, column, row, b),
        _ => b == a,
    }
}

/// An action on the board, with no prompt, popup or question open.
pub open spec fn board_post(a: GameScreen, action: Action, b: GameScreen) -> bool {
    match action {
        Action::Quit => {
            &&& b.message matches Some(msg) && msg@ == quit_prompt()
            &&& b == GameScreen { confirm_quit: true, message: b.message, ..a }
        },
        Action::Undo => if a.game.record().len() > 0 {
            &&& crate::game::undone(a.game, b.game)
            &&& same_but_game(b, GameScreen { selected: None, message: None, ..a })
        } else {
            &&& b.message matches Some(msg) && msg@ == "Nothing to undo."@
            &&& b == GameScreen { message: b.message, ..a }
        },
        Action::Flip => b == GameScreen { flipped: !a.flipped, ..a },
        Action::FocusInput => {
            &&& b.input matches Some(u) && u@ == Seq::<char>::empty()
            &&& b == GameScreen { input: b.input, selected: None, ..a }
        },
        Action::Escape => if a.selected is Some {
            b == GameScreen { selected: None, ..a }
        } else {
            b == a
        },
        Action::Click { column, row } => click_post(a, column, row, b),
        _ => b == a,
    }
}

impl GameScreen {
    /// Plays a move and closes the prompt and any message.
    fn play(&mut self, mv: Move)
        requires
            old(self).game.wf(),
            format_ok(old(self).game.current(), mv),
        ensures
            played(old(self).game, mv, final(self).game),
            same_but_game(*final(self), GameScreen { message: None, input: None, ..*old(self) }),
    {
        self.game.play(mv);
        self.message = None;
        self.input = None;
    }

    /// Squares the selected piece can move to, for highlighting.
    pub fn targets(&self) -> (b: Bitboard)
        requires
            self.game.wf(),
            gen_ok(self.game.current()),
        ensures
            forall|i: int|
                b.has(i) == match self.selected {
                    Some(from) => exists|k: int|
                        0 <= k < legal_moves_of(self.game.current()).len() && (
                        #[trigger] legal_moves_of(self.game.current())[k]).spec_from() == from
                            && legal_moves_of(self.game.current())[k].spec_to().0 == i,
                    None => false,
                },
    {
        let mut targets = Bitboard::empty();
        let from = match self.selected {
            Some(f) => f,
            None => return targets,
        };
        let ghost m = self.game.current();
        let legal = self.game.legal_moves();
        let mut j: usize = 0;
        while j < legal.len()
            invariant
                legal@ == legal_moves_of(m),
                j <= legal@.len(),
                forall|i: int|
                    targets.has(i) == exists|k: int|
                        0 <= k < j && (#[trigger] legal@[k]).spec_from() == from && legal@[k].spec_to().0
                            == i,
            decreases legal@.len() - j,
        {
            let mv = legal.get(j);
            if mv.from() == from {
                targets.set(mv.to());
            }
            proof {
                assert forall|i: int|
                    targets.has(i) == exists|k: int|
                        0 <= k < j + 1 && (#[trigger] legal@[k]).spec_from() == from && legal@[k].spec_to().0
                            == i by {
                    if targets.has(i) && !(exists|k: int|
                        0 <= k < j && (#[trigger] legal@[k]).spec_from() == from && legal@[k].spec_to().0
                            == i) {
                        assert(legal@[j as int].spec_from() == from && legal@[j as int].spec_to().0 == i);
                    }
                }
            }
            j = j + 1;
        }
        targets
    }

    fn click(&mut self, column: u16, row: u16)
        requires
            ready(*old(self)),
        ensures
            click_post(*old(self), column, row, *final(self)),
    {
        let sq = match self.geom.square_at(column, row, self.flipped) {
            Some(s) => s,
            None => return ,
        };
        if self.game.status().is_over() {
            return ;
        }
        let pos = self.game.position();
        let own = match pos.piece_at(sq) {
            Some(p) => p.color == pos.side_to_move,
            None => false,
        };
        match self.selected {
            Some(from) => {
                if self.find_move(from, sq, Some(PieceKind::Queen)).is_some() {
                    self.selected = None;
                    self.promo = Some((from, sq));
                    return ;
                }
                match self.find_move(from, sq, None) {
                    Some(mv) => {
                        self.selected = None;
                        self.play(mv);
                        return ;
                    },
                    None => {},
                }
            },
            None => {},
        }
        self.selected = if own {
            Some(sq)
        } else {
            None
        };
    }

    fn submit_san(&mut self)
        requires
            ready(*old(self)),
        ensures
            submit_post(*old(self), *final(self)),
    {
        let text: String = match &self.input {
            Some(t) => t.clone(),
            None => String::new(),
        };
        if is_blank(&text) {
            self.input = None;
            return ;
        }
        if self.game.status().is_over() {
            self.message = Some(literal("The game is over."));
            self.input = None;
            return ;
        }
        match self.game.play_san(text.as_str()) {
            Some(_) => {
                self.selected = None;
                self.message = None;
                self.input = None;
            },
            None => {
                let mut msg = literal("Invalid move: ");
                msg.append(text.as_str());
                self.message = Some(msg);
            },
        }
    }

    /// Responds to an action and says what the application should do next.
    pub fn handle(&mut self, action: Action) -> (t: Transition)
        requires
            ready(*old(self)),
        ensures
            t == transition_of(*old(self), action),
            handle_post(*old(self), action, *final(self)),
            final(self).game.wf(),
            final(self).geom == old(self).geom,
    {
        if self.confirm_quit {
            match action {
                Action::Enter | Action::Quit => return Transition::Quit,
                Action::Char(c) => {
                    if c == 'y' || c == 's' {
                        return Transition::Quit;
                    }
                },
                _ => {},
            }
            self.confirm_quit = false;
            self.message = None;
            return Transition::Stay;
        }
        match self.promo {
            Some((from, to)) => {
                let kind = match action {
                    Action::Quit => Some(PieceKind::Queen),
                    Action::Char(c) => {
                        if c == 'r' {
                            Some(PieceKind::Rook)
                        } else if c == 'b' {
                            Some(PieceKind::Bishop)
                        } else if c == 'n' {
                            Some(PieceKind::Knight)
                        } else {
                            None
                        }
                    },
                    Action::Escape => {
                        self.promo = None;
                        return Transition::Stay;
                    },
                    _ => None,
                };
                match kind {
                    Some(kind) => {
                        self.promo = None;
                        match self.find_move(from, to, Some(kind)) {
                            Some(mv) => self.play(mv),
                            None => {},
                        }
                    },
                    None => {},
                }
                return Transition::Stay;
            },
            None => {},
        }
        if self.input.is_some() {
            match action {
                Action::Escape => self.input = None,
                Action::Enter => self.submit_san(),
                Action::Backspace => {
                    let t = match &self.input {
                        Some(t) => chars_of(t.as_str()),
                        None => Vec::new(),
                    };
                    let mut u = t;
                    if u.len() > 0 {
                        u.pop();
                    }
                    self.input = Some(string_of(&u));
                },
                Action::Char(c) => {
                    let mut t = match &self.input {
                        Some(t) => t.clone(),
                        None => String::new(),
                    };
                    push_char(&mut t, c);
                    self.input = Some(t);
                },
                Action::Click { column, row } => self.click(column, row),
                _ => {},
            }
            return Transition::Stay;
        }
        match action {
            Action::Quit => {
                self.confirm_quit = true;
                self.message = Some(literal("Quit gambito? Enter/y confirms, any other key cancels."));
            },
            Action::ToMenu => return Transition::ToMenu,
            Action::Undo => {
                if self.game.undo() {
                    self.selected = None;
                    self.message = None;
                } else {
                    self.message = Some(literal("Nothing to undo."));
                }
            },
            Action::Flip => self.flipped = !self.flipped,
            Action::FocusInput => {
                self.input = Some(String::new());
                self.selected = None;
            },
            Action::Escape => {
                if self.selected.is_some() {
                    self.selected = None;
                } else {
                    return Transition::ToMenu;
                }
            },
            Action::Click { column, row } => self.click(column, row),
            _ => {},
        }
        Transition::Stay
    }
}

fn is_blank(t: &String) -> (b: bool)
    ensures
        b == blank(t@),
{
    let v = chars_of(t.as_str());
    let mut i: usize = 0;
    while i < v.len()
        invariant
            v@ == t@,
            i <= v@.len(),
            forall|k: int| 0 <= k < i ==> is_ws(v@[k]),
        decreases v@.len() - i,
    {
        if !crate::text::is_whitespace(v[i]) {
            return false;
        }
        i = i + 1;
    }
    true
}

proof fn lemma_click_keeps_all_sane(a: GameScreen, column: u16, row: u16, b: GameScreen)
    requires
        a.game.wf(),
        a.game.all_sane(),
        click_post(a, column, row, b),
    ensures
        b.game.all_sane(),
{
    match click_square(a, column, row) {
        Some(sq) => if !is_over(a) {
            match a.selected {
                Some(from) => if move_between(a, from, sq, Some(PieceKind::Queen)) is None
                    && move_between(a, from, sq, None) is Some {
                    lemma_play_found_keeps_all_sane(a.game, uci_pred(from, sq, None), b.game);
                },
                None => {},
            }
        },
        None => {},
    }
}

proof fn lemma_submit_keeps_all_sane(a: GameScreen, b: GameScreen)
    requires
        a.game.wf(),
        a.game.all_sane(),
        submit_post(a, b),
    ensures
        b.game.all_sane(),
{
    let t = prompt(a);
    if !blank(t) && !is_over(a) {
        if crate::san::san_move(a.game.current(), t) is Some {
            lemma_play_found_keeps_all_sane(
                a.game,
                crate::san::san_pred(a.game.current(), crate::san::normalized(t)),
                b.game,
            );
        }
    }
}

/// The game screen only ever reaches positions that can arise in play:
/// when every position of its game could arise in play before an action,
/// every one can after it.
pub proof fn law_screen_keeps_positions_sane(a: GameScreen, action: Action, b: GameScreen)
    requires
        a.game.wf(),
        a.game.all_sane(),
        handle_post(a, action, b),
    ensures
        b.game.all_sane(),
{
    if !a.confirm_quit {
        match a.promo {
            Some((from, to)) => if !(action is Escape) {
                match promo_choice(action) {
                    Some(k) => if move_between(a, from, to, Some(k)) is Some {
                        lemma_play_found_keeps_all_sane(a.game, uci_pred(from, to, Some(k)), b.game);
                    },
                    None => {},
                }
            },
            None => match a.input {
                Some(t) => match action {
                    Action::Enter => lemma_submit_keeps_all_sane(a, b),
                    Action::Click { column, row } => lemma_click_keeps_all_sane(a, column, row, b),
                    _ => {},
                },
                None => match action {
                    Action::Undo => if a.game.record().len() > 0 {
                        lemma_undo_keeps_all_sane(a.game, b.game);
                    },
                    Action::Click { column, row } => lemma_click_keeps_all_sane(a, column, row, b),
                    _ => {},
                },
            },
        }
    }
}

fn same_promotion(a: Option<PieceKind>, b: Option<PieceKind>) -> (r: bool)
    ensures
        r == (a == b),
{
    match (a, b) {
        (Some(x), Some(y)) => x == y,
        (None, None) => true,
        _ => false,
    }
}

} // verus!
