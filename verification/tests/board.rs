use gambito::ui::{fits, glyph, sprite_grid, square_at, sprite_row, Px, BoardGeometry, Rect, BOARD_H, BOARD_W, MARGIN_X, SPRITE_BASE, SPRITE_SMALL, SQUARE_H, SQUARE_W};
use gambito::ui::{shade, Shade};
use gambito::{Color, PieceKind, Square};

fn area() -> Rect {
    Rect::new(0, 0, BOARD_W, BOARD_H)
}

#[test]
fn hit_test_corners() {
    // Top-left square is a8 in normal orientation, h1 flipped.
    assert_eq!(square_at(area(), MARGIN_X, 0, false), Some("a8".parse().unwrap()));
    assert_eq!(square_at(area(), MARGIN_X, 0, true), Some("h1".parse().unwrap()));
    // Bottom-right of the grid.
    let col = MARGIN_X + 8 * SQUARE_W - 1;
    let row = 8 * SQUARE_H - 1;
    assert_eq!(square_at(area(), col, row, false), Some("h1".parse().unwrap()));
    // Label row and left margin miss.
    assert_eq!(square_at(area(), MARGIN_X, 8 * SQUARE_H, false), None);
    assert_eq!(square_at(area(), 0, 0, false), None);
}

#[test]
fn hit_test_inverts_render_geometry() {
    // Every square maps back to itself through render coordinates.
    for file in 0..8u16 {
        for rank in 0..8u16 {
            let sq = Square::new(file as u8, rank as u8);
            let col = MARGIN_X + file * SQUARE_W + 1;
            let row = (7 - rank) * SQUARE_H;
            assert_eq!(square_at(area(), col, row, false), Some(sq));
        }
    }
}

#[test]
fn sprites_are_well_formed() {
    for kind in 0..6 {
        for row in 0..SPRITE_BASE {
            let r = sprite_row(kind, true, row);
            assert_eq!(r.len(), SPRITE_BASE);
            assert!(r.bytes().all(|b| b == b'.' || b == b'#'));
        }
        for row in 0..SPRITE_SMALL {
            let r = sprite_row(kind, false, row);
            assert_eq!(r.len(), SPRITE_SMALL);
            assert!(r.bytes().all(|b| b == b'.' || b == b'#'));
        }
    }
}

#[test]
fn sprites_need_room() {
    assert!(fits(6, 3));
    assert!(!fits(5, 3));
    assert!(!fits(6, 2));
}

#[test]
fn glyphs_by_mode_and_side() {
    assert_eq!(glyph(PieceKind::King, true, Color::White), 'K');
    assert_eq!(glyph(PieceKind::Queen, true, Color::Black), 'q');
    assert_eq!(glyph(PieceKind::Knight, false, Color::White), '\u{265E}');
}

#[test]
fn fitted_geometry_hits_its_corners() {
    let g = BoardGeometry::fit(Rect::new(3, 1, 80, 30));
    assert_eq!(g.square_h, 3);
    assert_eq!(g.square_w, 6);
    // a8 starts just right of the labels.
    assert_eq!(g.square_at(3 + MARGIN_X, 1, false), Some("a8".parse().unwrap()));
    assert_eq!(g.square_at(3 + MARGIN_X + 8 * 6 - 1, 1 + 8 * 3 - 1, false), Some("h1".parse().unwrap()));
    assert_eq!(g.square_at(3 + MARGIN_X + 8 * 6, 1, false), None);
}

#[test]
fn sprite_grid_outlines_the_silhouette() {
    // A single filled pixel in a 2x2 source, shown at 4x4: the top-left
    // quarter fills and its neighbours form the outline.
    let rows = vec![vec!['#', '.'], vec!['.', '.']];
    let g = sprite_grid(&rows, 2, 4);
    assert_eq!(g.len(), 4);
    assert_eq!(g[0][0], Px::Fill);
    assert_eq!(g[1][1], Px::Fill);
    assert_eq!(g[0][2], Px::Edge);
    assert_eq!(g[2][0], Px::Edge);
    assert_eq!(g[2][2], Px::Empty);
    assert_eq!(g[3][3], Px::Empty);
}

#[test]
fn king_sprite_has_a_body_and_an_outline() {
    let rows: Vec<Vec<char>> = (0..SPRITE_BASE).map(|r| sprite_row(5, true, r).chars().collect()).collect();
    let g = sprite_grid(&rows, SPRITE_BASE, 10);
    let fills = g.iter().flatten().filter(|p| **p == Px::Fill).count();
    let edges = g.iter().flatten().filter(|p| **p == Px::Edge).count();
    assert!(fills > 10, "{fills}");
    assert!(edges > 0);
}

#[test]
fn move_list_iterates_in_order() {
    let pos = gambito::position::Position::startpos();
    let list = gambito::movegen::legal_moves(&pos);
    let seen: Vec<gambito::Move> = list.iter().copied().collect();
    assert_eq!(seen.as_slice(), list.as_slice());
    assert_eq!(seen.len(), 20);
}

#[test]
fn sprites_are_laid_out_centered() {
    assert_eq!(gambito::ui::sprite_layout(4, 2), None);
    assert_eq!(gambito::ui::sprite_layout(14, 7), Some((12, true, SPRITE_BASE, 1, 1)));
    assert_eq!(gambito::ui::sprite_layout(40, 20), Some((32, true, SPRITE_BASE, 4, 4)));
    assert_eq!(gambito::ui::sprite_layout(10, 4), Some((6, false, SPRITE_SMALL, 2, 1)));
}

#[test]
fn display_squares_follow_the_orientation() {
    assert_eq!(gambito::ui::display_square(0, 0, false), Square(56));
    assert_eq!(gambito::ui::display_square(0, 7, false), Square(0));
    assert_eq!(gambito::ui::display_square(0, 0, true), Square(7));
    assert_eq!(gambito::ui::display_square(7, 7, true), Square(56));
}

#[test]
fn square_tints_rank_check_over_selection_over_last_move() {
    assert_eq!(shade(Square(0), None, None, None), Shade::Dark);
    assert_eq!(shade(Square(1), None, None, None), Shade::Light);
    let last = Some((Square(12), Square(27)));
    assert_eq!(shade(Square(12), None, last, None), Shade::LastMoveLight);
    assert_eq!(shade(Square(27), None, last, None), Shade::LastMoveDark);
    assert_eq!(shade(Square(27), Some(Square(27)), last, None), Shade::Selected);
    assert_eq!(shade(Square(27), Some(Square(27)), last, Some(Square(27))), Shade::Check);
}

#[test]
fn labels_and_marks() {
    use_labels();
}

fn use_labels() {
    assert_eq!(gambito::ui::rank_label(0, false), '8');
    assert_eq!(gambito::ui::rank_label(7, false), '1');
    assert_eq!(gambito::ui::rank_label(0, true), '1');
    assert_eq!(gambito::ui::file_label(0, false), 'a');
    assert_eq!(gambito::ui::file_label(0, true), 'h');
    assert_eq!(gambito::ui::target_mark(false, true), gambito::ui::Mark::Nothing);
    assert_eq!(gambito::ui::target_mark(true, false), gambito::ui::Mark::Dot);
    assert_eq!(gambito::ui::target_mark(true, true), gambito::ui::Mark::Cross);
}

#[test]
fn sprite_rows_are_the_silhouettes() {
    assert_eq!(sprite_row(0, true, 2), ".....##.....");
    assert_eq!(sprite_row(5, true, 0), ".....##.....");
    assert_eq!(sprite_row(4, false, 0), "#..##..#");
    assert_eq!(sprite_row(3, false, 7), "########");
}
