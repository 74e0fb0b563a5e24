use tetris::piece::{Color, Direction, Piece};

fn grid(p: &Piece) -> Vec<Vec<u8>> {
    let n = p.size();
    let mut g = Vec::new();
    for r in 0..n {
        let mut row = Vec::new();
        for c in 0..n {
            row.push(p.cell(r, c));
        }
        g.push(row);
    }
    g
}

fn all_pieces() -> Vec<Piece> {
    vec![
        Piece::new_o(),
        Piece::new_l(),
        Piece::new_j(),
        Piece::new_t(),
        Piece::new_s(),
        Piece::new_z(),
        Piece::new_i(),
    ]
}

#[test]
fn constructors_give_square_shapes() {
    assert_eq!(grid(&Piece::new_o()), vec![vec![1, 1], vec![1, 1]]);
    assert_eq!(grid(&Piece::new_t()), vec![vec![0, 1, 0], vec![1, 1, 1], vec![0, 0, 0]]);
    assert_eq!(
        grid(&Piece::new_i()),
        vec![vec![0, 0, 0, 0], vec![1, 1, 1, 1], vec![0, 0, 0, 0], vec![0, 0, 0, 0]]
    );
    assert_eq!(Piece::new_l().color(), Color::Orange);
    assert_eq!(Piece::new_z().color(), Color::Red);
    assert_eq!(Piece::new_l().name(), "L");
    for p in all_pieces() {
        assert_eq!(grid(&p).len(), p.size());
        for row in grid(&p) {
            assert_eq!(row.len(), p.size());
        }
    }
}

#[test]
fn rotate_l_clockwise() {
    let mut p = Piece::new_l();
    p.rotate(Direction::Right);
    assert_eq!(grid(&p), vec![vec![0, 1, 0], vec![0, 1, 0], vec![0, 1, 1]]);
    assert_eq!(p.color(), Color::Orange);
}

#[test]
fn rotate_l_counter_clockwise() {
    let mut p = Piece::new_l();
    p.rotate(Direction::Left);
    assert_eq!(grid(&p), vec![vec![1, 1, 0], vec![0, 1, 0], vec![0, 1, 0]]);
}

#[test]
fn rotate_line_clockwise() {
    let mut p = Piece::new_i();
    p.rotate(Direction::Right);
    assert_eq!(
        grid(&p),
        vec![vec![0, 0, 1, 0], vec![0, 0, 1, 0], vec![0, 0, 1, 0], vec![0, 0, 1, 0]]
    );
}

#[test]
fn four_turns_restore_every_piece() {
    for d in [Direction::Left, Direction::Right] {
        for p in all_pieces() {
            let before = grid(&p);
            let mut q = p.clone();
            for _ in 0..4 {
                q.rotate(d);
            }
            assert_eq!(grid(&q), before);
        }
    }
}

#[test]
fn turn_and_turn_back_restores() {
    for p in all_pieces() {
        let before = grid(&p);
        let mut q = p.clone();
        q.rotate(Direction::Right);
        q.rotate(Direction::Left);
        assert_eq!(grid(&q), before);
        q.rotate(Direction::Left);
        q.rotate(Direction::Right);
        assert_eq!(grid(&q), before);
    }
}

#[test]
fn clone_is_independent_copy() {
    let p = Piece::new_s();
    let mut q = p.clone();
    q.rotate(Direction::Right);
    assert_eq!(grid(&p), vec![vec![0, 1, 1], vec![1, 1, 0], vec![0, 0, 0]]);
    assert_ne!(grid(&q), grid(&p));
    assert_eq!(q.name(), "S");
}
