//! Terminal front-end logic that does not draw: input actions, screen
//! transitions, the menu, and the board's hit-testing geometry.

use vstd::prelude::*;
use crate::types::{ascii_upper, file_of, rank_of, Color, PieceKind, Square};

verus! {

/// Semantic input, decoupled from the terminal library so that screens can
/// be driven by sequences of actions.
#[derive(Clone, Copy, PartialEq, Eq, Debug, Structural)]
pub enum Action {
    Quit,
    Undo,
    Flip,
    FocusInput,
    ToMenu,
    Escape,
    Enter,
    Backspace,
    Up,
    Down,
    Char(char),
    Click { column: u16, row: u16 },
}

/// A terminal input as the front-end reads it: a key press, a left click,
/// or anything else.
#[derive(Clone, Copy, PartialEq, Eq, Debug, Structural)]
pub enum Input {
    Escape,
    Enter,
    Backspace,
    Up,
    Down,
    Char(char),
    LeftClick { column: u16, row: u16 },
    Other,
}

/// The action of an input. While text is being entered every character is
/// text; otherwise `q`, `u`, `f`, `:`, `m`, `k` and `j` are shortcuts
/// (quit, undo, flip, prompt, menu, up, down) and other characters are text.
pub open spec fn input_action(input: Input, text_entry: bool) -> Option<Action> {
    match input {
        Input::Escape => Some(Action::Escape),
        Input::Enter => Some(Action::Enter),
        Input::Backspace => Some(Action::Backspace),
        Input::Up => Some(Action::Up),
        Input::Down => Some(Action::Down),
        Input::Char(c) => Some(
            if text_entry {
                Action::Char(c)
            } else if c == 'q' {
                Action::Quit
            } else if c == 'u' {
                Action::Undo
            } else if c == 'f' {
                Action::Flip
            } else if c == ':' {
                Action::FocusInput
            } else if c == 'm' {
                Action::ToMenu
            } else if c == 'k' {
                Action::Up
            } else if c == 'j' {
                Action::Down
            } else {
                Action::Char(c)
            },
        ),
        Input::LeftClick { column, row } => Some(Action::Click { column, row }),
        Input::Other => None,
    }
}

pub fn map_input(input: Input, text_entry: bool) -> (a: Option<Action>)
    ensures
        a == input_action(input, text_entry),
{
    match input {
        Input::Escape => Some(Action::Escape),
        Input::Enter => Some(Action::Enter),
        Input::Backspace => Some(Action::Backspace),
        Input::Up => Some(Action::Up),
        Input::Down => Some(Action::Down),
        Input::Char(c) => {
            let a = if text_entry {
                Action::Char(c)
            } else if c == 'q' {
                Action::Quit
            } else if c == 'u' {
                Action::Undo
            } else if c == 'f' {
                Action::Flip
            } else if c == ':' {
                Action::FocusInput
            } else if c == 'm' {
                Action::ToMenu
            } else if c == 'k' {
                Action::Up
            } else if c == 'j' {
                Action::Down
            } else {
                Action::Char(c)
            };
            Some(a)
        },
        Input::LeftClick { column, row } => Some(Action::Click { column, row }),
        Input::Other => None,
    }
}

/// What a screen asks the application to do after handling an action.
#[derive(Clone, Copy, PartialEq, Eq, Debug, Structural)]
pub enum Transition {
    Stay,
    Quit,
    ToMenu,
    StartHotseat,
    StartVsAi,
}

/// Start-up options of the front-end.
pub struct Options {
    /// Start the game screen directly from this position.
    pub fen: Option<String>,
    /// ASCII piece letters instead of Unicode glyphs.
    pub ascii: bool,
}

/// Number of menu entries.
pub const MENU_LEN: usize = 5;

/// The label of a menu entry and whether it can be chosen.
pub fn menu_item(i: usize) -> (item: (&'static str, bool))
    requires
        i < MENU_LEN,
    ensures
        item.1 == (i == 0 || i == 1 || i == 4),
        i == 0 ==> item.0@ == "Local game (hotseat)"@,
        i == 1 ==> item.0@ == "Play the AI        (M2)"@,
        i == 2 ==> item.0@ == "Online blitz        (M3)"@,
        i == 3 ==> item.0@ == "Correspondence      (M4)"@,
        i == 4 ==> item.0@ == "Quit"@,
{
    if i == 0 {
        ("Local game (hotseat)", true)
    } else if i == 1 {
        ("Play the AI        (M2)", true)
    } else if i == 2 {
        ("Online blitz        (M3)", false)
    } else if i == 3 {
        ("Correspondence      (M4)", false)
    } else {
        ("Quit", true)
    }
}

pub struct MenuScreen {
    pub selected: usize,
    pub note: Option<&'static str>,
}

impl MenuScreen {
    pub open spec fn wf(self) -> bool {
        self.selected < MENU_LEN
    }

    pub fn new() -> (s: MenuScreen)
        ensures
            s.wf(),
            s.selected == 0,
            s.note is None,
    {
        MenuScreen { selected: 0, note: None }
    }

    /// Up and down move the cursor (wrapping around), Enter picks the
    /// entry under it, `q` and Escape quit.
    pub fn handle(&mut self, action: Action) -> (t: Transition)
        requires
            old(self).wf(),
        ensures
            final(self).wf(),
            t == match action {
                Action::Quit | Action::Escape => Transition::Quit,
                Action::Enter => if old(self).selected == 0 {
                    Transition::StartHotseat
                } else if old(self).selected == 1 {
                    Transition::StartVsAi
                } else if old(self).selected == 4 {
                    Transition::Quit
                } else {
                    Transition::Stay
                },
                _ => Transition::Stay,
            },
            action is Up ==> final(self).selected == (if old(self).selected == 0 {
                (MENU_LEN - 1) as usize
            } else {
                (old(self).selected - 1) as usize
            }) && final(self).note is None,
            action is Down ==> final(self).selected == (old(self).selected + 1) % (MENU_LEN as int)
                && final(self).note is None,
            action is Enter && 2 <= old(self).selected <= 3
                ==> final(self).selected == old(self).selected && (final(self).note matches Some(n)
                && n@ == "Not available yet: coming in a later milestone."@),
            !(action is Up || action is Down || (action is Enter && 2 <= old(self).selected <= 3))
                ==> *final(self) == *old(self),
    {
        match action {
            Action::Quit | Action::Escape => return Transition::Quit,
            Action::Up => {
                self.selected = if self.selected == 0 {
                    MENU_LEN - 1
                } else {
                    self.selected - 1
                };
                self.note = None;
            },
            Action::Down => {
                self.selected = (self.selected + 1) % MENU_LEN;
                self.note = None;
            },
            Action::Enter => {
                if self.selected == 0 {
                    return Transition::StartHotseat;
                } else if self.selected == 1 {
                    return Transition::StartVsAi;
                } else if self.selected == 4 {
                    return Transition::Quit;
                } else {
                    self.note = Some("Not available yet: coming in a later milestone.");
                }
            },
            _ => {},
        }
        Transition::Stay
    }
}

/// A rectangle of terminal cells.
#[derive(Clone, Copy, PartialEq, Eq, Debug, Structural)]
pub struct Rect {
    pub x: u16,
    pub y: u16,
    pub width: u16,
    pub height: u16,
}

impl Rect {
    pub fn new(x: u16, y: u16, width: u16, height: u16) -> (r: Rect)
        ensures
            r == (Rect { x, y, width, height }),
    {
        Rect { x, y, width, height }
    }
}

/// Cells of the rank labels left of the squares.
pub const MARGIN_X: u16 = 2;

/// Default square size in cells.
pub const SQUARE_W: u16 = 4;

pub const SQUARE_H: u16 = 2;

/// Cells the board takes at the default square size: rank labels and
/// squares across, squares and the file-label row down.
pub const BOARD_W: u16 = MARGIN_X + 8 * SQUARE_W;

pub const BOARD_H: u16 = 8 * SQUARE_H + 1;

/// The square under a cell, for a board drawn in `area` with squares of
/// `w` by `h` cells (rank 8 on top unless flipped).
pub open spec fn square_under(area: Rect, w: int, h: int, column: int, row: int, flipped: bool) -> Option<
    Square,
> {
    let bx = area.x + MARGIN_X;
    if column < bx || row < area.y {
        None
    } else {
        let file_disp = (column - bx) / w;
        let rank_disp = (row - area.y) / h;
        if file_disp > 7 || rank_disp > 7 || row >= area.y + 8 * h {
            None
        } else {
            let file = if flipped {
                7 - file_disp
            } else {
                file_disp
            };
            let rank = if flipped {
                rank_disp
            } else {
                7 - rank_disp
            };
            Some(Square((rank * 8 + file) as u8))
        }
    }
}

fn hit(area: Rect, w: u16, h: u16, column: u16, row: u16, flipped: bool) -> (sq: Option<Square>)
    requires
        w > 0,
        h > 0,
        area.x + MARGIN_X <= u16::MAX,
        area.y + 8 * h <= u16::MAX,
    ensures
        sq == square_under(area, w as int, h as int, column as int, row as int, flipped),
        sq matches Some(s) ==> s.wf(),
{
    let bx = area.x + MARGIN_X;
    if column < bx || row < area.y {
        return None;
    }
    let file_disp = (column - bx) / w;
    let rank_disp = (row - area.y) / h;
    if file_disp > 7 || rank_disp > 7 || row >= area.y + 8 * h {
        return None;
    }
    let file = if flipped {
        7 - file_disp
    } else {
        file_disp
    };
    let rank = if flipped {
        rank_disp
    } else {
        7 - rank_disp
    };
    Some(Square::new(file as u8, rank as u8))
}

/// Maps a terminal cell inside `area` back to a board square, for squares
/// of the default size.
pub fn square_at(area: Rect, column: u16, row: u16, flipped: bool) -> (sq: Option<Square>)
    requires
        area.x + MARGIN_X <= u16::MAX,
        area.y + 8 * SQUARE_H <= u16::MAX,
    ensures
        sq == square_under(area, SQUARE_W as int, SQUARE_H as int, column as int, row as int, flipped),
{
    hit(area, SQUARE_W, SQUARE_H, column, row, flipped)
}

/// Where the board was last drawn, for mouse hit-testing.
#[derive(Clone, Copy, PartialEq, Eq, Debug, Structural)]
pub struct BoardGeometry {
    pub area: Rect,
    pub square_w: u16,
    pub square_h: u16,
}

/// The square height that `BoardGeometry::fit` picks: the most rows of
/// eight squares (plus the label row) that the height allows, capped by
/// the width at two cells per row, and one at least.
pub open spec fn fit_side(area: Rect) -> int {
    let by_height = if area.height > 1 {
        (area.height - 1) / 8
    } else {
        0
    };
    let by_width = if area.width > MARGIN_X {
        (area.width - MARGIN_X) / 16
    } else {
        0
    };
    let s = if by_height < by_width {
        by_height
    } else {
        by_width
    };
    if s == 0 {
        1
    } else {
        s
    }
}

impl BoardGeometry {
    /// Hit-testing is defined: squares have a size and the board's cells
    /// have coordinates.
    pub open spec fn wf(self) -> bool {
        &&& self.square_w > 0
        &&& self.square_h > 0
        &&& self.area.x + MARGIN_X <= u16::MAX
        &&& self.area.y + 8 * self.square_h <= u16::MAX
    }

    /// The largest squares, twice as wide as tall, that fit in `area`
    /// together with the rank labels and the file-label row; one cell tall
    /// at least.
    pub fn fit(area: Rect) -> (g: BoardGeometry)
        requires
            area.x + area.width + MARGIN_X <= u16::MAX,
            area.y + area.height + 8 <= u16::MAX,
        ensures
            g.wf(),
            g.area == area,
            g.square_w == 2 * g.square_h,
            g.square_h == fit_side(area),
            area.height >= 9 && area.width >= 18 ==> 8 * g.square_h + 1 <= area.height && MARGIN_X
                + 8 * g.square_w <= area.width,
    {
        let by_height: u16 = if area.height > 1 {
            (area.height - 1) / 8
        } else {
            0
        };
        let by_width: u16 = if area.width > MARGIN_X {
            (area.width - MARGIN_X) / 16
        } else {
            0
        };
        let s = if by_height < by_width {
            by_height
        } else {
            by_width
        };
        let s = if s == 0 {
            1
        } else {
            s
        };
        BoardGeometry { area, square_w: 2 * s, square_h: s }
    }

    /// The square under a terminal cell, if any.
    pub fn square_at(&self, column: u16, row: u16, flipped: bool) -> (sq: Option<Square>)
        requires
            self.wf(),
        ensures
            sq == square_under(
                self.area,
                self.square_w as int,
                self.square_h as int,
                column as int,
                row as int,
                flipped,
            ),
            sq matches Some(s) ==> s.wf(),
    {
        hit(self.area, self.square_w, self.square_h, column, row, flipped)
    }
}

impl Default for BoardGeometry {
    fn default() -> (g: BoardGeometry)
        ensures
            g.wf(),
            g == (BoardGeometry {
                area: Rect { x: 0, y: 0, width: 0, height: 0 },
                square_w: SQUARE_W,
                square_h: SQUARE_H,
            }),
    {
        BoardGeometry { area: Rect::new(0, 0, 0, 0), square_w: SQUARE_W, square_h: SQUARE_H }
    }
}

/// Smallest square, in cells, where drawn sprites beat a single glyph.
pub fn fits(square_w: u16, square_h: u16) -> (b: bool)
    ensures
        b == (square_w >= 6 && square_h >= 3),
{
    square_w >= 6 && square_h >= 3
}

/// The character that shows a piece: its letter (uppercase for White) in
/// ASCII mode, else the filled chess symbol, the color telling the sides apart.
pub open spec fn glyph_of(kind: PieceKind, ascii: bool, side: Color) -> char {
    if ascii {
        if side == Color::White {
            ascii_upper(kind.letter())
        } else {
            kind.letter()
        }
    } else {
        match kind {
            PieceKind::King => '\u{265A}',
            PieceKind::Queen => '\u{265B}',
            PieceKind::Rook => '\u{265C}',
            PieceKind::Bishop => '\u{265D}',
            PieceKind::Knight => '\u{265E}',
            PieceKind::Pawn => '\u{265F}',
        }
    }
}

pub fn glyph(kind: PieceKind, ascii: bool, side: Color) -> (c: char)
    ensures
        c == glyph_of(kind, ascii, side),
{
    if ascii {
        let c = kind.to_char();
        return if side == Color::White {
            crate::types::to_ascii_upper(c)
        } else {
            c
        };
    }
    match kind {
        PieceKind::King => '\u{265A}',
        PieceKind::Queen => '\u{265B}',
        PieceKind::Rook => '\u{265C}',
        PieceKind::Bishop => '\u{265D}',
        PieceKind::Knight => '\u{265E}',
        PieceKind::Pawn => '\u{265F}',
    }
}

/// Side of the detailed sprites, in pixels.
pub const SPRITE_BASE: usize = 12;

/// Side of the small sprites, in pixels.
pub const SPRITE_SMALL: usize = 8;

/// A row of `n` sprite pixels, each `#` (filled) or `.` (empty).
pub open spec fn is_pixel_row(s: Seq<char>, n: int) -> bool {
    &&& s.len() == n
    &&& forall|i: int| 0 <= i < n ==> s[i] == '#' || s[i] == '.'
}

/// Row `row` of the silhouette of the piece kind with index `kind` (pawn,
/// knight, bishop, rook, queen, king), in the detailed set when `large`,
/// else in the small set; `#` is filled, `.` empty.
pub open spec fn sprite_text(kind: int, large: bool, row: int) -> Seq<char> {
    if large {
        if kind == 0 {
            if row == 0 {
                "............"@
            } else if row == 1 {
                "............"@
            } else if row == 2 {
                ".....##....."@
            } else if row == 3 {
                "....####...."@
            } else if row == 4 {
                "....####...."@
            } else if row == 5 {
                ".....##....."@
            } else if row == 6 {
                "....####...."@
            } else if row == 7 {
                "...######..."@
            } else if row == 8 {
                "...######..."@
            } else if row == 9 {
                "....####...."@
            } else if row == 10 {
                "..########.."@
            } else {
                ".##########."@
            }
        } else if kind == 1 {
            if row == 0 {
                "............"@
            } else if row == 1 {
                "....##.#...."@
            } else if row == 2 {
                "...#####...."@
            } else if row == 3 {
                "..#######..."@
            } else if row == 4 {
                ".########..."@
            } else if row == 5 {
                ".##..####..."@
            } else if row == 6 {
                "....#####..."@
            } else if row == 7 {
                "...#####...."@
            } else if row == 8 {
                "..#####....."@
            } else if row == 9 {
                "..######...."@
            } else if row == 10 {
                ".########..."@
            } else {
                ".#########.."@
            }
        } else if kind == 2 {
            if row == 0 {
                ".....##....."@
            } else if row == 1 {
                "....####...."@
            } else if row == 2 {
                "...##.###..."@
            } else if row == 3 {
                "...##.###..."@
            } else if row == 4 {
                "...######..."@
            } else if row == 5 {
                "....####...."@
            } else if row == 6 {
                "....####...."@
            } else if row == 7 {
                ".....##....."@
            } else if row == 8 {
                "...######..."@
            } else if row == 9 {
                "....####...."@
            } else if row == 10 {
                "..########.."@
            } else {
                ".##########."@
            }
        } else if kind == 3 {
            if row == 0 {
                "............"@
            } else if row == 1 {
                ".##.####.##."@
            } else if row == 2 {
                ".##########."@
            } else if row == 3 {
                ".##########."@
            } else if row == 4 {
                "..########.."@
            } else if row == 5 {
                "...######..."@
            } else if row == 6 {
                "...######..."@
            } else if row == 7 {
                "...######..."@
            } else if row == 8 {
                "...######..."@
            } else if row == 9 {
                "..########.."@
            } else if row == 10 {
                ".##########."@
            } else {
                ".##########."@
            }
        } else if kind == 4 {
            if row == 0 {
                ".#...##...#."@
            } else if row == 1 {
                ".#...##...#."@
            } else if row == 2 {
                ".##..##..##."@
            } else if row == 3 {
                ".##########."@
            } else if row == 4 {
                "..########.."@
            } else if row == 5 {
                "...######..."@
            } else if row == 6 {
                "...######..."@
            } else if row == 7 {
                "....####...."@
            } else if row == 8 {
                "...######..."@
            } else if row == 9 {
                "....####...."@
            } else if row == 10 {
                "..########.."@
            } else {
                ".##########."@
            }
        } else if kind == 5 {
            if row == 0 {
                ".....##....."@
            } else if row == 1 {
                "....####...."@
            } else if row == 2 {
                ".....##....."@
            } else if row == 3 {
                "..########.."@
            } else if row == 4 {
                ".##########."@
            } else if row == 5 {
                ".##########."@
            } else if row == 6 {
                "..########.."@
            } else if row == 7 {
                "...######..."@
            } else if row == 8 {
                "...######..."@
            } else if row == 9 {
                "...######..."@
            } else if row == 10 {
                "..########.."@
            } else {
                ".##########."@
            }
        } else {
            Seq::empty()
        }
    } else {
        if kind == 0 {
            if row == 0 {
                "........"@
            } else if row == 1 {
                "...##..."@
            } else if row == 2 {
                "..####.."@
            } else if row == 3 {
                "...##..."@
            } else if row == 4 {
                "...##..."@
            } else if row == 5 {
                "..####.."@
            } else if row == 6 {
                ".######."@
            } else {
                ".######."@
            }
        } else if kind == 1 {
            if row == 0 {
                "..#....."@
            } else if row == 1 {
                ".####..."@
            } else if row == 2 {
                "######.."@
            } else if row == 3 {
                "##.###.."@
            } else if row == 4 {
                "..####.."@
            } else if row == 5 {
                "..###..."@
            } else if row == 6 {
                ".#####.."@
            } else {
                "#######."@
            }
        } else if kind == 2 {
            if row == 0 {
                "...##..."@
            } else if row == 1 {
                "..#.##.."@
            } else if row == 2 {
                "..####.."@
            } else if row == 3 {
                "...##..."@
            } else if row == 4 {
                "..####.."@
            } else if row == 5 {
                "...##..."@
            } else if row == 6 {
                ".######."@
            } else {
                ".######."@
            }
        } else if kind == 3 {
            if row == 0 {
                ".#.##.#."@
            } else if row == 1 {
                ".######."@
            } else if row == 2 {
                "..####.."@
            } else if row == 3 {
                "..####.."@
            } else if row == 4 {
                "..####.."@
            } else if row == 5 {
                "..####.."@
            } else if row == 6 {
                ".######."@
            } else {
                "########"@
            }
        } else if kind == 4 {
            if row == 0 {
                "#..##..#"@
            } else if row == 1 {
                "##.##.##"@
            } else if row == 2 {
                ".######."@
            } else if row == 3 {
                "..####.."@
            } else if row == 4 {
                "..####.."@
            } else if row == 5 {
                "...##..."@
            } else if row == 6 {
                ".######."@
            } else {
                "########"@
            }
        } else if kind == 5 {
            if row == 0 {
                "...##..."@
            } else if row == 1 {
                "..####.."@
            } else if row == 2 {
                "...##..."@
            } else if row == 3 {
                ".######."@
            } else if row == 4 {
                "########"@
            } else if row == 5 {
                "..####.."@
            } else if row == 6 {
                "..####.."@
            } else {
                ".######."@
            }
        } else {
            Seq::empty()
        }
    }
}

/// Row `row` of the silhouette of the piece kind with index `kind`
/// (pawn, knight, bishop, rook, queen, king), in the detailed set when
/// `large`, else in the small set; `#` is filled, `.` empty.
pub fn sprite_row(kind: usize, large: bool, row: usize) -> (s: &'static str)
    requires
        kind < 6,
        row < (if large { SPRITE_BASE } else { SPRITE_SMALL }),
    ensures
        s@ == sprite_text(kind as int, large, row as int),
        is_pixel_row(s@, (if large { SPRITE_BASE } else { SPRITE_SMALL }) as int),
{
    if large {
        if kind == 0 {
            if row == 0 {
                proof {
                    reveal_strlit("............");
                }
                "............"
            } else if row == 1 {
                proof {
                    reveal_strlit("............");
                }
                "............"
            } else if row == 2 {
                proof {
                    reveal_strlit(".....##.....");
                }
                ".....##....."
            } else if row == 3 {
                proof {
                    reveal_strlit("....####....");
                }
                "....####...."
            } else if row == 4 {
                proof {
                    reveal_strlit("....####....");
                }
                "....####...."
            } else if row == 5 {
                proof {
                    reveal_strlit(".....##.....");
                }
                ".....##....."
            } else if row == 6 {
                proof {
                    reveal_strlit("....####....");
                }
                "....####...."
            } else if row == 7 {
                proof {
                    reveal_strlit("...######...");
                }
                "...######..."
            } else if row == 8 {
                proof {
                    reveal_strlit("...######...");
                }
                "...######..."
            } else if row == 9 {
                proof {
                    reveal_strlit("....####....");
                }
                "....####...."
            } else if row == 10 {
                proof {
                    reveal_strlit("..########..");
                }
                "..########.."
            } else {
                proof {
                    reveal_strlit(".##########.");
                }
                ".##########."
            }
        } else if kind == 1 {
            if row == 0 {
                proof {
                    reveal_strlit("............");
                }
                "............"
            } else if row == 1 {
                proof {
                    reveal_strlit("....##.#....");
                }
                "....##.#...."
            } else if row == 2 {
                proof {
                    reveal_strlit("...#####....");
                }
                "...#####...."
            } else if row == 3 {
                proof {
                    reveal_strlit("..#######...");
                }
                "..#######..."
            } else if row == 4 {
                proof {
                    reveal_strlit(".########...");
                }
                ".########..."
            } else if row == 5 {
                proof {
                    reveal_strlit(".##..####...");
                }
                ".##..####..."
            } else if row == 6 {
                proof {
                    reveal_strlit("....#####...");
                }
                "....#####..."
            } else if row == 7 {
                proof {
                    reveal_strlit("...#####....");
                }
                "...#####...."
            } else if row == 8 {
                proof {
                    reveal_strlit("..#####.....");
                }
                "..#####....."
            } else if row == 9 {
                proof {
                    reveal_strlit("..######....");
                }
                "..######...."
            } else if row == 10 {
                proof {
                    reveal_strlit(".########...");
                }
                ".########..."
            } else {
                proof {
                    reveal_strlit(".#########..");
                }
                ".#########.."
            }
        } else if kind == 2 {
            if row == 0 {
                proof {
                    reveal_strlit(".....##.....");
                }
                ".....##....."
            } else if row == 1 {
                proof {
                    reveal_strlit("....####....");
                }
                "....####...."
            } else if row == 2 {
                proof {
                    reveal_strlit("...##.###...");
                }
                "...##.###..."
            } else if row == 3 {
                proof {
                    reveal_strlit("...##.###...");
                }
                "...##.###..."
            } else if row == 4 {
                proof {
                    reveal_strlit("...######...");
                }
                "...######..."
            } else if row == 5 {
                proof {
                    reveal_strlit("....####....");
                }
                "....####...."
            } else if row == 6 {
                proof {
                    reveal_strlit("....####....");
                }
                "....####...."
            } else if row == 7 {
                proof {
                    reveal_strlit(".....##.....");
                }
                ".....##....."
            } else if row == 8 {
                proof {
                    reveal_strlit("...######...");
                }
                "...######..."
            } else if row == 9 {
                proof {
                    reveal_strlit("....####....");
                }
                "....####...."
            } else if row == 10 {
                proof {
                    reveal_strlit("..########..");
                }
                "..########.."
            } else {
                proof {
                    reveal_strlit(".##########.");
                }
                ".##########."
            }
        } else if kind == 3 {
            if row == 0 {
                proof {
                    reveal_strlit("............");
                }
                "............"
            } else if row == 1 {
                proof {
                    reveal_strlit(".##.####.##.");
                }
                ".##.####.##."
            } else if row == 2 {
                proof {
                    reveal_strlit(".##########.");
                }
                ".##########."
            } else if row == 3 {
                proof {
                    reveal_strlit(".##########.");
                }
                ".##########."
            } else if row == 4 {
                proof {
                    reveal_strlit("..########..");
                }
                "..########.."
            } else if row == 5 {
                proof {
                    reveal_strlit("...######...");
                }
                "...######..."
            } else if row == 6 {
                proof {
                    reveal_strlit("...######...");
                }
                "...######..."
            } else if row == 7 {
                proof {
                    reveal_strlit("...######...");
                }
                "...######..."
            } else if row == 8 {
                proof {
                    reveal_strlit("...######...");
                }
                "...######..."
            } else if row == 9 {
                proof {
                    reveal_strlit("..########..");
                }
                "..########.."
            } else if row == 10 {
                proof {
                    reveal_strlit(".##########.");
                }
                ".##########."
            } else {
                proof {
                    reveal_strlit(".##########.");
                }
                ".##########."
            }
        } else if kind == 4 {
            if row == 0 {
                proof {
                    reveal_strlit(".#...##...#.");
                }
                ".#...##...#."
            } else if row == 1 {
                proof {
                    reveal_strlit(".#...##...#.");
                }
                ".#...##...#."
            } else if row == 2 {
                proof {
                    reveal_strlit(".##..##..##.");
                }
                ".##..##..##."
            } else if row == 3 {
                proof {
                    reveal_strlit(".##########.");
                }
                ".##########."
            } else if row == 4 {
                proof {
                    reveal_strlit("..########..");
                }
                "..########.."
            } else if row == 5 {
                proof {
                    reveal_strlit("...######...");
                }
                "...######..."
            } else if row == 6 {
                proof {
                    reveal_strlit("...######...");
                }
                "...######..."
            } else if row == 7 {
                proof {
                    reveal_strlit("....####....");
                }
                "....####...."
            } else if row == 8 {
                proof {
                    reveal_strlit("...######...");
                }
                "...######..."
            } else if row == 9 {
                proof {
                    reveal_strlit("....####....");
                }
                "....####...."
            } else if row == 10 {
                proof {
                    reveal_strlit("..########..");
                }
                "..########.."
            } else {
                proof {
                    reveal_strlit(".##########.");
                }
                ".##########."
            }
        } else if kind == 5 {
            if row == 0 {
                proof {
                    reveal_strlit(".....##.....");
                }
                ".....##....."
            } else if row == 1 {
                proof {
                    reveal_strlit("....####....");
                }
                "....####...."
            } else if row == 2 {
                proof {
                    reveal_strlit(".....##.....");
                }
                ".....##....."
            } else if row == 3 {
                proof {
                    reveal_strlit("..########..");
                }
                "..########.."
            } else if row == 4 {
                proof {
                    reveal_strlit(".##########.");
                }
                ".##########."
            } else if row == 5 {
                proof {
                    reveal_strlit(".##########.");
                }
                ".##########."
            } else if row == 6 {
                proof {
                    reveal_strlit("..########..");
                }
                "..########.."
            } else if row == 7 {
                proof {
                    reveal_strlit("...######...");
                }
                "...######..."
            } else if row == 8 {
                proof {
                    reveal_strlit("...######...");
                }
                "...######..."
            } else if row == 9 {
                proof {
                    reveal_strlit("...######...");
                }
                "...######..."
            } else if row == 10 {
                proof {
                    reveal_strlit("..########..");
                }
                "..########.."
            } else {
                proof {
                    reveal_strlit(".##########.");
                }
                ".##########."
            }
        } else {
            ""
        }
    } else {
        if kind == 0 {
            if row == 0 {
                proof {
                    reveal_strlit("........");
                }
                "........"
            } else if row == 1 {
                proof {
                    reveal_strlit("...##...");
                }
                "...##..."
            } else if row == 2 {
                proof {
                    reveal_strlit("..####..");
                }
                "..####.."
            } else if row == 3 {
                proof {
                    reveal_strlit("...##...");
                }
                "...##..."
            } else if row == 4 {
                proof {
                    reveal_strlit("...##...");
                }
                "...##..."
            } else if row == 5 {
                proof {
                    reveal_strlit("..####..");
                }
                "..####.."
            } else if row == 6 {
                proof {
                    reveal_strlit(".######.");
                }
                ".######."
            } else {
                proof {
                    reveal_strlit(".######.");
                }
                ".######."
            }
        } else if kind == 1 {
            if row == 0 {
                proof {
                    reveal_strlit("..#.....");
                }
                "..#....."
            } else if row == 1 {
                proof {
                    reveal_strlit(".####...");
                }
                ".####..."
            } else if row == 2 {
                proof {
                    reveal_strlit("######..");
                }
                "######.."
            } else if row == 3 {
                proof {
                    reveal_strlit("##.###..");
                }
                "##.###.."
            } else if row == 4 {
                proof {
                    reveal_strlit("..####..");
                }
                "..####.."
            } else if row == 5 {
                proof {
                    reveal_strlit("..###...");
                }
                "..###..."
            } else if row == 6 {
                proof {
                    reveal_strlit(".#####..");
                }
                ".#####.."
            } else {
                proof {
                    reveal_strlit("#######.");
                }
                "#######."
            }
        } else if kind == 2 {
            if row == 0 {
                proof {
                    reveal_strlit("...##...");
                }
                "...##..."
            } else if row == 1 {
                proof {
                    reveal_strlit("..#.##..");
                }
                "..#.##.."
            } else if row == 2 {
                proof {
                    reveal_strlit("..####..");
                }
                "..####.."
            } else if row == 3 {
                proof {
                    reveal_strlit("...##...");
                }
                "...##..."
            } else if row == 4 {
                proof {
                    reveal_strlit("..####..");
                }
                "..####.."
            } else if row == 5 {
                proof {
                    reveal_strlit("...##...");
                }
                "...##..."
            } else if row == 6 {
                proof {
                    reveal_strlit(".######.");
                }
                ".######."
            } else {
                proof {
                    reveal_strlit(".######.");
                }
                ".######."
            }
        } else if kind == 3 {
            if row == 0 {
                proof {
                    reveal_strlit(".#.##.#.");
                }
                ".#.##.#."
            } else if row == 1 {
                proof {
                    reveal_strlit(".######.");
                }
                ".######."
            } else if row == 2 {
                proof {
                    reveal_strlit("..####..");
                }
                "..####.."
            } else if row == 3 {
                proof {
                    reveal_strlit("..####..");
                }
                "..####.."
            } else if row == 4 {
                proof {
                    reveal_strlit("..####..");
                }
                "..####.."
            } else if row == 5 {
                proof {
                    reveal_strlit("..####..");
                }
                "..####.."
            } else if row == 6 {
                proof {
                    reveal_strlit(".######.");
                }
                ".######."
            } else {
                proof {
                    reveal_strlit("########");
                }
                "########"
            }
        } else if kind == 4 {
            if row == 0 {
                proof {
                    reveal_strlit("#..##..#");
                }
                "#..##..#"
            } else if row == 1 {
                proof {
                    reveal_strlit("##.##.##");
                }
                "##.##.##"
            } else if row == 2 {
                proof {
                    reveal_strlit(".######.");
                }
                ".######."
            } else if row == 3 {
                proof {
                    reveal_strlit("..####..");
                }
                "..####.."
            } else if row == 4 {
                proof {
                    reveal_strlit("..####..");
                }
                "..####.."
            } else if row == 5 {
                proof {
                    reveal_strlit("...##...");
                }
                "...##..."
            } else if row == 6 {
                proof {
                    reveal_strlit(".######.");
                }
                ".######."
            } else {
                proof {
                    reveal_strlit("########");
                }
                "########"
            }
        } else if kind == 5 {
            if row == 0 {
                proof {
                    reveal_strlit("...##...");
                }
                "...##..."
            } else if row == 1 {
                proof {
                    reveal_strlit("..####..");
                }
                "..####.."
            } else if row == 2 {
                proof {
                    reveal_strlit("...##...");
                }
                "...##..."
            } else if row == 3 {
                proof {
                    reveal_strlit(".######.");
                }
                ".######."
            } else if row == 4 {
                proof {
                    reveal_strlit("########");
                }
                "########"
            } else if row == 5 {
                proof {
                    reveal_strlit("..####..");
                }
                "..####.."
            } else if row == 6 {
                proof {
                    reveal_strlit("..####..");
                }
                "..####.."
            } else {
                proof {
                    reveal_strlit(".######.");
                }
                ".######."
            }
        } else {
            ""
        }
    }
}


/// Largest sprite drawn, in pixels.
pub const SPRITE_MAX: usize = 32;

/// Where a sprite goes in a square of `square_w` by `square_h` cells, two
/// pixels to a cell vertically and one pixel margin all round: its side in
/// pixels (at most `SPRITE_MAX`), whether the detailed set is used, the
/// side of the set's rows, the cells left of it and the pixels above it.
/// No sprite below four pixels.
pub open spec fn layout_of(square_w: u16, square_h: u16) -> Option<(usize, bool, usize, u16, usize)> {
    let pw: int = if square_w >= 2 { square_w - 2 } else { 0 };
    let ph: int = square_h * 2 - 2;
    let m1: int = if pw < ph { pw } else { ph };
    let size: int = if m1 < SPRITE_MAX { m1 } else { SPRITE_MAX as int };
    if size < 4 {
        None
    } else {
        let large = size >= SPRITE_BASE;
        Some(
            (
                size as usize,
                large,
                if large { SPRITE_BASE } else { SPRITE_SMALL },
                ((square_w - size) / 2) as u16,
                ((square_h * 2 - size) / 2) as usize,
            ),
        )
    }
}

pub fn sprite_layout(square_w: u16, square_h: u16) -> (r: Option<(usize, bool, usize, u16, usize)>)
    requires
        square_h >= 1,
    ensures
        r == layout_of(square_w, square_h),
        r matches Some((size, large, base, ox, oy)) ==> 4 <= size <= SPRITE_MAX && base == (if large {
            SPRITE_BASE
        } else {
            SPRITE_SMALL
        }) && ox as int + size <= square_w && oy + size <= square_h * 2,
{
    let pw: usize = if square_w >= 2 { (square_w - 2) as usize } else { 0 };
    let ph: usize = (square_h as usize) * 2 - 2;
    let m1: usize = if pw < ph { pw } else { ph };
    let size: usize = if m1 < SPRITE_MAX { m1 } else { SPRITE_MAX };
    if size < 4 {
        return None;
    }
    let large = size >= SPRITE_BASE;
    let base = if large { SPRITE_BASE } else { SPRITE_SMALL };
    let ox: u16 = (square_w - size as u16) / 2;
    let oy: usize = (square_h as usize * 2 - size) / 2;
    Some((size, large, base, ox, oy))
}

/// The square drawn in display column `col` and row `row` (rows counted
/// from the top); flipped, Black's side is at the bottom.
pub open spec fn display_index(col: int, row: int, flipped: bool) -> int {
    let file = if flipped { 7 - col } else { col };
    let rank = if flipped { row } else { 7 - row };
    rank * 8 + file
}

pub fn display_square(col: u8, row: u8, flipped: bool) -> (sq: Square)
    requires
        col < 8,
        row < 8,
    ensures
        sq.wf(),
        sq.0 == display_index(col as int, row as int, flipped),
{
    let file: u8 = if flipped { 7 - col } else { col };
    let rank: u8 = if flipped { row } else { 7 - row };
    Square::new(file, rank)
}

/// The digit beside display row `row`: its rank, 1 to 8.
pub fn rank_label(row: u8, flipped: bool) -> (c: char)
    requires
        row < 8,
    ensures
        c as int == 48 + (if flipped { row as int + 1 } else { 8 - row as int }),
        c as int == 49 + rank_of(display_index(0, row as int, flipped)),
{
    let n: u8 = if flipped { row + 1 } else { 8 - row };
    (48 + n) as char
}

/// The letter under display column `col`: its file, a to h.
pub fn file_label(col: u8, flipped: bool) -> (c: char)
    requires
        col < 8,
    ensures
        c as int == 97 + (if flipped { 7 - col as int } else { col as int }),
        c as int == 97 + file_of(display_index(col as int, 0, flipped)),
{
    let f: u8 = if flipped { 7 - col } else { col };
    (97 + f) as char
}

/// What marks a square the selected piece can move to.
#[derive(Clone, Copy, PartialEq, Eq, Debug, Structural)]
pub enum Mark {
    Nothing,
    Dot,
    Cross,
}

/// A target square shows a dot when empty and a cross beside the piece it
/// would capture; other squares show nothing.
pub fn target_mark(target: bool, occupied: bool) -> (m: Mark)
    ensures
        m == (if !target {
            Mark::Nothing
        } else if occupied {
            Mark::Cross
        } else {
            Mark::Dot
        }),
{
    if !target {
        Mark::Nothing
    } else if occupied {
        Mark::Cross
    } else {
        Mark::Dot
    }
}

/// How a board square is tinted.
#[derive(Clone, Copy, PartialEq, Eq, Debug, Structural)]
pub enum Shade {
    Light,
    Dark,
    LastMoveLight,
    LastMoveDark,
    Selected,
    Check,
}

/// The tint of square `i`: the checked king's square first, then the
/// selected square, then the two squares of the last move, else the
/// board's own color (a1 dark).
pub open spec fn shade_of(
    i: int,
    selected: Option<Square>,
    last_move: Option<(Square, Square)>,
    check: Option<Square>,
) -> Shade {
    let dark = (i % 8 + i / 8) % 2 == 0;
    if check matches Some(c) && c.0 == i {
        Shade::Check
    } else if selected matches Some(s) && s.0 == i {
        Shade::Selected
    } else if last_move matches Some((f, t)) && (f.0 == i || t.0 == i) {
        if dark {
            Shade::LastMoveDark
        } else {
            Shade::LastMoveLight
        }
    } else if dark {
        Shade::Dark
    } else {
        Shade::Light
    }
}

pub fn shade(
    sq: Square,
    selected: Option<Square>,
    last_move: Option<(Square, Square)>,
    check: Option<Square>,
) -> (s: Shade)
    requires
        sq.wf(),
    ensures
        s == shade_of(sq.0 as int, selected, last_move, check),
{
    let dark = (sq.0 % 8 + sq.0 / 8) % 2 == 0;
    if let Some(c) = check {
        if c.0 == sq.0 {
            return Shade::Check;
        }
    }
    if let Some(s) = selected {
        if s.0 == sq.0 {
            return Shade::Selected;
        }
    }
    if let Some((f, t)) = last_move {
        if f.0 == sq.0 || t.0 == sq.0 {
            return if dark {
                Shade::LastMoveDark
            } else {
                Shade::LastMoveLight
            };
        }
    }
    if dark {
        Shade::Dark
    } else {
        Shade::Light
    }
}

/// A pixel of a drawn sprite: empty, silhouette, or outline.
#[derive(Clone, Copy, PartialEq, Eq, Debug, Structural)]
pub enum Px {
    Empty,
    Fill,
    Edge,
}

/// The sprite pixel at (`y`, `x`) of a `size`-pixel square is filled: the
/// nearest source pixel of the `base`-pixel rows is `#`.
pub open spec fn filled(rows: Seq<Seq<char>>, base: int, size: int, y: int, x: int) -> bool {
    0 <= y < size && 0 <= x < size && rows[y * base / size][x * base / size] == '#'
}

/// Filled pixels, then the outline: empty pixels next to a filled one
/// (up, down, left or right), so the piece shows on either square color.
pub open spec fn pixel(rows: Seq<Seq<char>>, base: int, size: int, y: int, x: int) -> Px {
    if filled(rows, base, size, y, x) {
        Px::Fill
    } else if filled(rows, base, size, y - 1, x) || filled(rows, base, size, y + 1, x) || filled(
        rows,
        base,
        size,
        y,
        x - 1,
    ) || filled(rows, base, size, y, x + 1) {
        Px::Edge
    } else {
        Px::Empty
    }
}

proof fn lemma_scaled_index(p: int, base: int, size: int)
    requires
        0 <= p < size <= 64,
        0 < base <= 64,
    ensures
        0 <= p * base / size < base,
        p * base < 4096,
{
    assert(p * base < 4096) by (nonlinear_arith)
        requires
            0 <= p < 64,
            0 < base <= 64,
    ;
    assert(0 <= p * base) by (nonlinear_arith)
        requires
            0 <= p,
            0 < base,
    ;
    assert(p * base < size * base) by (nonlinear_arith)
        requires
            p < size,
            0 < base,
    ;
    assert(p * base / size < base) by (nonlinear_arith)
        requires
            p * base < size * base,
            0 < size,
            0 <= p * base,
    ;
}

/// Scales `base`-pixel sprite rows to a `size`-pixel square by nearest
/// neighbor and outlines the silhouette.
pub fn sprite_grid(rows: &Vec<Vec<char>>, base: usize, size: usize) -> (g: Vec<Vec<Px>>)
    requires
        0 < base <= 64,
        0 < size <= 64,
        rows@.len() == base,
        forall|i: int| 0 <= i < base ==> (#[trigger] rows@[i])@.len() == base,
    ensures
        g@.len() == size,
        forall|y: int|
            0 <= y < size ==> {
                &&& (#[trigger] g@[y])@.len() == size
                &&& forall|x: int|
                    0 <= x < size ==> g@[y]@[x] == pixel(
                        rows@.map_values(|r: Vec<char>| r@),
                        base as int,
                        size as int,
                        y,
                        x,
                    )
            },
{
    let ghost view = rows@.map_values(|r: Vec<char>| r@);
    let mut fill: Vec<Vec<bool>> = Vec::new();
    let mut py: usize = 0;
    while py < size
        invariant
            0 < base <= 64,
            0 < size <= 64,
            rows@.len() == base,
            forall|i: int| 0 <= i < base ==> (#[trigger] rows@[i])@.len() == base,
            view == rows@.map_values(|r: Vec<char>| r@),
            py <= size,
            fill@.len() == py,
            forall|y: int|
                0 <= y < py ==> {
                    &&& (#[trigger] fill@[y])@.len() == size
                    &&& forall|x: int|
                        0 <= x < size ==> fill@[y]@[x] == filled(view, base as int, size as int, y, x)
                },
        decreases size - py,
    {
        proof {
            lemma_scaled_index(py as int, base as int, size as int);
        }
        let src = &rows[py * base / size];
        let mut row: Vec<bool> = Vec::new();
        let mut px: usize = 0;
        while px < size
            invariant
                0 < base <= 64,
                0 < size <= 64,
                py < size,
                (py as int) * (base as int) / (size as int) < base,
                rows@.len() == base,
                forall|i: int| 0 <= i < base ==> (#[trigger] rows@[i])@.len() == base,
                view == rows@.map_values(|r: Vec<char>| r@),
                *src == rows@[(py as int) * (base as int) / (size as int)],
                px <= size,
                row@.len() == px,
                forall|x: int|
                    0 <= x < px ==> row@[x] == filled(view, base as int, size as int, py as int, x),
            decreases size - px,
        {
            proof {
                lemma_scaled_index(px as int, base as int, size as int);
            }
            row.push(src[px * base / size] == '#');
            px = px + 1;
        }
        fill.push(row);
        py = py + 1;
    }
    let mut g: Vec<Vec<Px>> = Vec::new();
    let mut y: usize = 0;
    while y < size
        invariant
            0 < size <= 64,
            fill@.len() == size,
            forall|yy: int|
                0 <= yy < size ==> {
                    &&& (#[trigger] fill@[yy])@.len() == size
                    &&& forall|x: int|
                        0 <= x < size ==> fill@[yy]@[x] == filled(view, base as int, size as int, yy, x)
                },
            y <= size,
            g@.len() == y,
            forall|yy: int|
                0 <= yy < y ==> {
                    &&& (#[trigger] g@[yy])@.len() == size
                    &&& forall|x: int|
                        0 <= x < size ==> g@[yy]@[x] == pixel(view, base as int, size as int, yy, x)
                },
        decreases size - y,
    {
        let mut row: Vec<Px> = Vec::new();
        let mut x: usize = 0;
        while x < size
            invariant
                0 < size <= 64,
                y < size,
                fill@.len() == size,
                forall|yy: int|
                    0 <= yy < size ==> {
                        &&& (#[trigger] fill@[yy])@.len() == size
                        &&& forall|xx: int|
                            0 <= xx < size ==> fill@[yy]@[xx] == filled(
                                view,
                                base as int,
                                size as int,
                                yy,
                                xx,
                            )
                    },
                x <= size,
                row@.len() == x,
                forall|xx: int|
                    0 <= xx < x ==> row@[xx] == pixel(view, base as int, size as int, y as int, xx),
            decreases size - x,
        {
            let here = fill[y][x];
            let up = y > 0 && fill[y - 1][x];
            let down = y + 1 < size && fill[y + 1][x];
            let left = x > 0 && fill[y][x - 1];
            let right = x + 1 < size && fill[y][x + 1];
            let p = if here {
                Px::Fill
            } else if up || down || left || right {
                Px::Edge
            } else {
                Px::Empty
            };
            row.push(p);
            x = x + 1;
        }
        g.push(row);
        y = y + 1;
    }
    g
}

/// Outside text entry each shortcut key gives its action: `q` quits, `u`
/// takes a move back, `f` flips the board, `:` opens the prompt, `m` goes
/// to the menu, `k` and `j` move up and down, and any other character is
/// text. While text is entered every character is text. Escape, Enter,
/// Backspace, the arrows and clicks mean the same either way, and other
/// input means nothing.
pub proof fn law_key_bindings(c: char, text_entry: bool, column: u16, row: u16)
    ensures
        input_action(Input::Char('q'), false) == Some(Action::Quit),
        input_action(Input::Char('u'), false) == Some(Action::Undo),
        input_action(Input::Char('f'), false) == Some(Action::Flip),
        input_action(Input::Char(':'), false) == Some(Action::FocusInput),
        input_action(Input::Char('m'), false) == Some(Action::ToMenu),
        input_action(Input::Char('k'), false) == Some(Action::Up),
        input_action(Input::Char('j'), false) == Some(Action::Down),
        c != 'q' && c != 'u' && c != 'f' && c != ':' && c != 'm' && c != 'k' && c != 'j'
            ==> input_action(Input::Char(c), false) == Some(Action::Char(c)),
        input_action(Input::Char(c), true) == Some(Action::Char(c)),
        input_action(Input::Escape, text_entry) == Some(Action::Escape),
        input_action(Input::Enter, text_entry) == Some(Action::Enter),
        input_action(Input::Backspace, text_entry) == Some(Action::Backspace),
        input_action(Input::Up, text_entry) == Some(Action::Up),
        input_action(Input::Down, text_entry) == Some(Action::Down),
        input_action(Input::LeftClick { column, row }, text_entry) == Some(
            Action::Click { column, row },
        ),
        input_action(Input::Other, text_entry) is None,
{
}

/// In Unicode mode each piece kind is drawn with its own chess symbol,
/// whatever its color (king U+265A, queen U+265B, rook U+265C, bishop
/// U+265D, knight U+265E, pawn U+265F); in ASCII mode with its letter,
/// upper case for White and lower case for Black.
pub proof fn law_piece_glyphs(side: Color)
    ensures
        glyph_of(PieceKind::King, false, side) == '\u{265A}',
        glyph_of(PieceKind::Queen, false, side) == '\u{265B}',
        glyph_of(PieceKind::Rook, false, side) == '\u{265C}',
        glyph_of(PieceKind::Bishop, false, side) == '\u{265D}',
        glyph_of(PieceKind::Knight, false, side) == '\u{265E}',
        glyph_of(PieceKind::Pawn, false, side) == '\u{265F}',
        glyph_of(PieceKind::King, true, Color::White) == 'K',
        glyph_of(PieceKind::Queen, true, Color::White) == 'Q',
        glyph_of(PieceKind::Rook, true, Color::White) == 'R',
        glyph_of(PieceKind::Bishop, true, Color::White) == 'B',
        glyph_of(PieceKind::Knight, true, Color::White) == 'N',
        glyph_of(PieceKind::Pawn, true, Color::White) == 'P',
        glyph_of(PieceKind::King, true, Color::Black) == 'k',
        glyph_of(PieceKind::Queen, true, Color::Black) == 'q',
        glyph_of(PieceKind::Rook, true, Color::Black) == 'r',
        glyph_of(PieceKind::Bishop, true, Color::Black) == 'b',
        glyph_of(PieceKind::Knight, true, Color::Black) == 'n',
        glyph_of(PieceKind::Pawn, true, Color::Black) == 'p',
{
}

} // verus!
