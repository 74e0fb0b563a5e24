use tetris::board::{Board, Glyph, Point};
use tetris::game::{decode_key, Game, Key, Outcome};
use tetris::piece::{Color, Direction, Piece};

fn top_row_full() -> Board {
    let mut b = Board::new();
    let i = Piece::new_i();
    b.lock_piece(&i, Point { x: 0, y: -1 });
    b.lock_piece(&i, Point { x: 4, y: -1 });
    b.lock_piece(&i, Point { x: 6, y: -1 });
    b
}

#[test]
fn new_game_spawns_t_centred() {
    let g = Game::new();
    assert_eq!(g.position(), Point { x: 3, y: 0 });
    assert_eq!(g.piece().color(), Color::Purple);
    assert!(!g.is_over());
}

#[test]
fn spawn_centering() {
    let mut g = Game::new();
    assert!(g.place_new_piece(&Piece::new_l()));
    assert_eq!(g.position(), Point { x: 3, y: 0 });
    assert!(g.place_new_piece(&Piece::new_o()));
    assert_eq!(g.position(), Point { x: 4, y: 0 });
    assert!(g.place_new_piece(&Piece::new_i()));
    assert_eq!(g.position(), Point { x: 3, y: 0 });
}

#[test]
fn square_falls_locks_and_respawns() {
    let mut g = Game::with_board(Board::new(), &Piece::new_o()).unwrap();
    assert_eq!(g.position(), Point { x: 4, y: 0 });
    for step in 1..=18 {
        assert!(g.advance_piece());
        assert_eq!(g.position(), Point { x: 4, y: step });
        assert_eq!(g.board().cell(4, 19), None);
    }
    assert!(g.advance_piece());
    assert_eq!(g.board().cell(4, 18), Some(Color::Cyan));
    assert_eq!(g.board().cell(5, 18), Some(Color::Cyan));
    assert_eq!(g.board().cell(4, 19), Some(Color::Cyan));
    assert_eq!(g.board().cell(5, 19), Some(Color::Cyan));
    assert_eq!(g.position(), Point { x: 3, y: 0 });
    assert_eq!(g.piece().color(), Color::Orange);
    assert!(!g.board().collision_test(g.piece(), g.position()));
    assert!(!g.is_over());
}

#[test]
fn full_spawn_row_refuses_new_piece() {
    let b = top_row_full();
    for x in 0..10 {
        assert_eq!(b.cell(x, 0), Some(Color::Cyan));
    }
    let mut g = Game::with_board(b, &Piece::new_i()).unwrap();
    assert_eq!(g.position(), Point { x: 3, y: 0 });
    assert!(!g.place_new_piece(&Piece::new_t()));
    assert!(!g.place_new_piece(&Piece::new_o()));
    assert_eq!(g.position(), Point { x: 3, y: 0 });
    assert_eq!(g.piece().name(), "I");
    assert!(Game::with_board(top_row_full(), &Piece::new_l()).is_none());
}

#[test]
fn move_is_rejected_at_the_wall() {
    let mut g = Game::new();
    assert!(g.move_piece(-1, 0));
    assert!(g.move_piece(-2, 0));
    assert_eq!(g.position(), Point { x: 0, y: 0 });
    assert!(!g.move_piece(-1, 0));
    assert_eq!(g.position(), Point { x: 0, y: 0 });
    assert!(!g.move_piece(i32::MIN, i32::MIN));
    assert!(!g.move_piece(0, -1));
    assert!(g.move_piece(7, 3));
    assert_eq!(g.position(), Point { x: 7, y: 3 });
    assert!(!g.move_piece(1, 0));
}

#[test]
fn rotation_near_wall_fails_without_kick() {
    let mut g = Game::with_board(Board::new(), &Piece::new_i()).unwrap();
    assert!(g.rotate_piece(Direction::Right));
    assert_eq!(g.piece().cell(0, 2), 1);
    assert!(g.move_piece(-5, 0));
    assert_eq!(g.position(), Point { x: -2, y: 0 });
    assert!(!g.rotate_piece(Direction::Right));
    assert_eq!(g.piece().cell(0, 2), 1);
    assert_eq!(g.position(), Point { x: -2, y: 0 });
}

#[test]
fn drop_rests_on_the_floor_and_locks() {
    let mut g = Game::new();
    assert!(g.drop_piece());
    assert_eq!(g.board().cell(4, 18), Some(Color::Purple));
    assert_eq!(g.board().cell(3, 19), Some(Color::Purple));
    assert_eq!(g.board().cell(4, 19), Some(Color::Purple));
    assert_eq!(g.board().cell(5, 19), Some(Color::Purple));
    assert_eq!(g.board().cell(3, 18), None);
    assert_eq!(g.position(), Point { x: 3, y: 0 });
    assert_eq!(g.piece().color(), Color::Orange);
}

#[test]
fn drop_rests_on_locked_cells() {
    let mut g = Game::new();
    assert!(g.drop_piece());
    // the L piece falls onto the T: its bottom row lands on row 17
    assert!(g.drop_piece());
    assert_eq!(g.board().cell(3, 17), Some(Color::Orange));
    assert_eq!(g.board().cell(4, 17), Some(Color::Orange));
    assert_eq!(g.board().cell(5, 17), Some(Color::Orange));
    assert_eq!(g.board().cell(5, 16), Some(Color::Orange));
}

#[test]
fn game_ends_when_the_stack_reaches_the_top() {
    let mut g = Game::new();
    let mut drops = 0;
    while g.keypress(Key::Space) == Outcome::Continued {
        drops += 1;
        assert!(drops < 20);
    }
    assert!(g.is_over());
    assert_eq!(g.keypress(Key::Space), Outcome::GameOver);
    assert_eq!(g.keypress(Key::Down), Outcome::GameOver);
    let at = g.position();
    assert_eq!(g.keypress(Key::Left), Outcome::Rejected);
    assert_eq!(g.keypress(Key::Up), Outcome::Rejected);
    assert_eq!(g.position(), at);
    assert!(!g.place_new_piece(&Piece::new_o()));
}

#[test]
fn keypress_dispatch() {
    let mut g = Game::new();
    assert_eq!(g.keypress(Key::Left), Outcome::Continued);
    assert_eq!(g.position(), Point { x: 2, y: 0 });
    assert_eq!(g.keypress(Key::Right), Outcome::Continued);
    assert_eq!(g.keypress(Key::Down), Outcome::Continued);
    assert_eq!(g.position(), Point { x: 3, y: 1 });
    assert_eq!(g.keypress(Key::Char('e')), Outcome::Continued);
    assert_eq!(g.piece().cell(1, 2), 1);
    assert_eq!(g.keypress(Key::Char('q')), Outcome::Continued);
    assert_eq!(g.keypress(Key::Up), Outcome::Continued);
    assert_eq!(g.piece().cell(1, 0), 1);
    assert_eq!(g.piece().cell(1, 2), 0);
    assert_eq!(g.keypress(Key::Char('x')), Outcome::Rejected);
    assert_eq!(g.keypress(Key::Char('o')), Outcome::Quit);
    assert_eq!(g.position(), Point { x: 3, y: 1 });
}

#[test]
fn decode_keys() {
    assert_eq!(decode_key(b'w'), Some(Key::Up));
    assert_eq!(decode_key(b'a'), Some(Key::Left));
    assert_eq!(decode_key(b's'), Some(Key::Down));
    assert_eq!(decode_key(b'd'), Some(Key::Right));
    assert_eq!(decode_key(b' '), Some(Key::Space));
    assert_eq!(decode_key(b'q'), Some(Key::Char('q')));
    assert_eq!(decode_key(b'z'), Some(Key::Char('z')));
    assert_eq!(decode_key(0xc3), None);
}

#[test]
fn render_draws_board_then_piece() {
    let g = Game::new();
    let mut out = Vec::new();
    g.render(&mut out);
    assert_eq!(out.len(), 36 + 21 + 4);
    let blocks: Vec<_> = out.iter().filter(|p| p.glyph == Glyph::Block).collect();
    assert_eq!(blocks.len(), 4);
    assert_eq!((blocks[0].x, blocks[0].y), (9, 0));
    assert_eq!((blocks[1].x, blocks[1].y), (7, 1));
    assert_eq!((blocks[3].x, blocks[3].y), (11, 1));
    assert!(blocks.iter().all(|p| p.color == Color::Purple));
}
