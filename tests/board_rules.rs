use tetris::board::{Board, Glyph, Point, BOARD_HEIGHT, BOARD_WIDTH, HIDDEN_ROWS};
use tetris::piece::{Color, Piece};

#[test]
fn empty_board_is_empty() {
    let b = Board::new();
    for y in 0..BOARD_HEIGHT {
        for x in 0..BOARD_WIDTH {
            assert_eq!(b.cell(x, y), None);
        }
    }
}

#[test]
fn collision_free_inside_the_walls() {
    let b = Board::new();
    let o = Piece::new_o();
    assert!(!b.collision_test(&o, Point { x: 0, y: 0 }));
    assert!(!b.collision_test(&o, Point { x: 8, y: 18 }));
}

#[test]
fn collision_at_each_boundary() {
    let b = Board::new();
    let o = Piece::new_o();
    assert!(b.collision_test(&o, Point { x: -1, y: 0 }));
    assert!(b.collision_test(&o, Point { x: 9, y: 0 }));
    assert!(b.collision_test(&o, Point { x: 0, y: -1 }));
    assert!(b.collision_test(&o, Point { x: 8, y: 19 }));
    assert!(b.collision_test(&o, Point { x: i32::MAX, y: i32::MIN }));
}

#[test]
fn empty_rows_of_a_shape_may_leave_the_board() {
    let b = Board::new();
    let i = Piece::new_i();
    assert!(!b.collision_test(&i, Point { x: 0, y: -1 }));
    assert!(b.collision_test(&i, Point { x: 0, y: -2 }));
    assert!(!b.collision_test(&i, Point { x: 6, y: 18 }));
    assert!(b.collision_test(&i, Point { x: 7, y: 18 }));
    let t = Piece::new_t();
    assert!(!b.collision_test(&t, Point { x: 0, y: 18 }));
    assert!(b.collision_test(&t, Point { x: 0, y: 19 }));
}

#[test]
fn lock_writes_the_piece_colour() {
    let mut b = Board::new();
    b.lock_piece(&Piece::new_o(), Point { x: 4, y: 18 });
    assert_eq!(b.cell(4, 18), Some(Color::Cyan));
    assert_eq!(b.cell(5, 18), Some(Color::Cyan));
    assert_eq!(b.cell(4, 19), Some(Color::Cyan));
    assert_eq!(b.cell(5, 19), Some(Color::Cyan));
    assert_eq!(b.cell(3, 18), None);
    assert_eq!(b.cell(6, 19), None);
    assert_eq!(b.cell(4, 17), None);
}

#[test]
fn lock_overwrites_unconditionally() {
    let mut b = Board::new();
    b.lock_piece(&Piece::new_o(), Point { x: 0, y: 0 });
    b.lock_piece(&Piece::new_z(), Point { x: 0, y: 0 });
    assert_eq!(b.cell(0, 0), Some(Color::Red));
    assert_eq!(b.cell(0, 1), Some(Color::Cyan));
    assert_eq!(b.cell(1, 1), Some(Color::Red));
}

#[test]
fn overlapping_a_locked_cell_collides() {
    let mut b = Board::new();
    let t = Piece::new_t();
    assert!(!b.collision_test(&t, Point { x: 4, y: 17 }));
    b.lock_piece(&Piece::new_o(), Point { x: 4, y: 18 });
    assert!(b.collision_test(&t, Point { x: 4, y: 17 }));
    assert!(b.collision_test(&Piece::new_o(), Point { x: 5, y: 17 }));
    assert!(!b.collision_test(&Piece::new_o(), Point { x: 6, y: 18 }));
    assert!(!b.collision_test(&t, Point { x: 3, y: 16 }));
}

#[test]
fn render_empty_board() {
    let b = Board::new();
    let mut out = Vec::new();
    b.render(&mut out);
    let walls = 2 * (BOARD_HEIGHT - HIDDEN_ROWS);
    let floor = 2 * BOARD_WIDTH + 1;
    assert_eq!(out.len(), walls + floor);
    assert_eq!(out[0].glyph, Glyph::Wall);
    assert_eq!((out[0].x, out[0].y), (0, 2));
    assert_eq!((out[1].x, out[1].y), (20, 2));
    assert_eq!(out[walls].glyph, Glyph::Floor);
    assert_eq!((out[walls].x, out[walls].y), (0, 20));
    assert_eq!(out[walls + floor - 1].x, 20);
    assert!(out.iter().all(|p| p.color == Color::Red));
}

#[test]
fn render_locked_cells_at_doubled_columns() {
    let mut b = Board::new();
    b.lock_piece(&Piece::new_o(), Point { x: 4, y: 0 });
    let mut out = Vec::new();
    b.render(&mut out);
    let blocks: Vec<_> = out.iter().filter(|p| p.glyph == Glyph::Block).collect();
    assert_eq!(blocks.len(), 4);
    assert_eq!((blocks[0].x, blocks[0].y), (9, 0));
    assert_eq!((blocks[1].x, blocks[1].y), (11, 0));
    assert_eq!((blocks[2].x, blocks[2].y), (9, 1));
    assert_eq!(blocks[3].color, Color::Cyan);
}
