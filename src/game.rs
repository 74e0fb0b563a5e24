use vstd::prelude::*;
use crate::board::{
    fits, in_board, lemma_free_fits, occupied, pixel, Board, Glyph, Pixel, Point, BOARD_HEIGHT,
    BOARD_WIDTH,
};
use crate::piece::{has_block, is_square, l_shape, rotate_grid, t_shape, Color, Direction, Piece};

verus! {

/// One decoded key press.
#[derive(Clone, Copy, Debug, PartialEq, Eq, Structural)]
pub enum Key {
    Up,
    Down,
    Left,
    Right,
    Space,
    Char(char),
}

/// What a key press came to.
#[derive(Clone, Copy, Debug, PartialEq, Eq, Structural)]
pub enum Outcome {
    /// The press took effect and the game goes on.
    Continued,
    /// The press changed nothing.
    Rejected,
    /// No new piece could be placed: the game is over.
    GameOver,
    /// The player asked to quit.
    Quit,
}

/// The column where a piece of side `n` appears: centred, rounding left.
pub open spec fn spawn_x(n: int) -> int {
    (BOARD_WIDTH - n) / 2
}

/// Two pieces have the same shape, colour and name.
pub open spec fn same_piece(a: Piece, b: Piece) -> bool {
    &&& a.grid() == b.grid()
    &&& a.color_spec() == b.color_spec()
    &&& a.name_spec() == b.name_spec()
}

/// A game: the board, the falling piece, the piece's top-left corner on the
/// board, and whether the game is over.
pub struct Game {
    board: Board,
    piece: Piece,
    position: Point,
    over: bool,
}

impl Game {
    pub closed spec fn board_spec(&self) -> Board {
        self.board
    }

    pub closed spec fn piece_spec(&self) -> Piece {
        self.piece
    }

    pub closed spec fn origin(&self) -> Point {
        self.position
    }

    pub closed spec fn over_spec(&self) -> bool {
        self.over
    }

    /// The board and piece are well formed and every block of the piece is
    /// on the board.
    pub open spec fn wf_base(&self) -> bool {
        &&& self.board_spec().wf()
        &&& self.piece_spec().wf()
        &&& fits(self.piece_spec().grid(), self.origin().x as int, self.origin().y as int)
    }

    /// Moreover, while the game runs the piece overlaps no taken cell.
    pub open spec fn wf(&self) -> bool {
        &&& self.wf_base()
        &&& !self.over_spec() ==> !self.board_spec().collides(
            self.piece_spec().grid(),
            self.origin().x as int,
            self.origin().y as int,
        )
    }
}

/// `ok` tells whether the piece of `before` could move by (`dx`, `dy`);
/// `after` is `before` with the piece moved if so, and `before` unchanged if not.
pub open spec fn move_step(before: Game, after: Game, dx: int, dy: int, ok: bool) -> bool {
    let g = before.piece_spec().grid();
    let nx = before.origin().x + dx;
    let ny = before.origin().y + dy;
    &&& ok == (!before.over_spec() && !before.board_spec().collides(g, nx, ny))
    &&& if ok {
        &&& after.board_spec() == before.board_spec()
        &&& after.piece_spec() == before.piece_spec()
        &&& !after.over_spec()
        &&& after.origin().x == nx
        &&& after.origin().y == ny
    } else {
        after == before
    }
}

/// `ok` tells whether the piece of `before` turned a quarter in `d` fits
/// where it is; `after` holds the turned piece if so, and is `before` if not.
pub open spec fn rotate_step(before: Game, after: Game, d: Direction, ok: bool) -> bool {
    let turned = rotate_grid(before.piece_spec().grid(), d);
    &&& ok == (!before.over_spec() && !before.board_spec().collides(
        turned,
        before.origin().x as int,
        before.origin().y as int,
    ))
    &&& if ok {
        &&& after.board_spec() == before.board_spec()
        &&& after.piece_spec().grid() == turned
        &&& after.piece_spec().color_spec() == before.piece_spec().color_spec()
        &&& after.piece_spec().name_spec() == before.piece_spec().name_spec()
        &&& after.origin() == before.origin()
        &&& !after.over_spec()
    } else {
        after == before
    }
}

/// `ok` tells whether `p` fits at the top centre of the board of `before`;
/// `after` has `p` there as its falling piece if so, and is `before` if not.
pub open spec fn spawn_step(before: Game, after: Game, p: Piece, ok: bool) -> bool {
    let x = spawn_x(p.size_spec());
    &&& ok == (!before.over_spec() && !before.board_spec().collides(p.grid(), x, 0))
    &&& if ok {
        &&& after.board_spec() == before.board_spec()
        &&& same_piece(after.piece_spec(), p)
        &&& after.origin().x == x
        &&& after.origin().y == 0
        &&& !after.over_spec()
    } else {
        after == before
    }
}

/// The piece of `before` is locked at (`x`, `y`) into the board of `after`,
/// and an L piece is then placed at the top centre: `ok` tells whether it
/// fit; if not the game is over and the old piece stays at (`x`, `y`).
pub open spec fn lock_step(before: Game, after: Game, x: int, y: int, ok: bool) -> bool {
    let p = before.piece_spec();
    let sx = spawn_x(3);
    &&& after.board_spec().locked_from(&before.board_spec(), p.grid(), p.color_spec(), x, y)
    &&& ok == !after.board_spec().collides(l_shape(), sx, 0)
    &&& if ok {
        &&& after.piece_spec().grid() == l_shape()
        &&& after.piece_spec().color_spec() == Color::Orange
        &&& after.origin().x == sx
        &&& after.origin().y == 0
        &&& !after.over_spec()
    } else {
        &&& after.over_spec()
        &&& after.piece_spec() == p
        &&& after.origin().x == x
        &&& after.origin().y == y
    }
}

/// One gravity step: the piece moves down a row if it can; if it rests, it
/// is locked where it is and a new piece is placed. `ok` is false only when
/// the game is, or becomes, over.
pub open spec fn advance_step(before: Game, after: Game, ok: bool) -> bool {
    let g = before.piece_spec().grid();
    let x = before.origin().x as int;
    let y = before.origin().y as int;
    if before.over_spec() {
        !ok && after == before
    } else if !before.board_spec().collides(g, x, y + 1) {
        &&& ok
        &&& after.board_spec() == before.board_spec()
        &&& after.piece_spec() == before.piece_spec()
        &&& after.origin().x == x
        &&& after.origin().y == y + 1
        &&& !after.over_spec()
    } else {
        lock_step(before, after, x, y, ok)
    }
}

/// Row `y` is where grid `g` comes to rest falling in column `x` from row
/// `y0`: every row from `y0` to `y` is free and the next one is not.
pub open spec fn rests_at(board: Board, g: Seq<Seq<u8>>, x: int, y0: int, y: int) -> bool {
    &&& y0 <= y
    &&& forall|k: int| y0 <= k <= y ==> !#[trigger] board.collides(g, x, k)
    &&& board.collides(g, x, y + 1)
}

/// The row where a hard drop comes to rest is unique: it is the last row of
/// the free run below the start.
pub proof fn lemma_rest_unique(board: Board, g: Seq<Seq<u8>>, x: int, y0: int, y1: int, y2: int)
    requires
        rests_at(board, g, x, y0, y1),
        rests_at(board, g, x, y0, y2),
    ensures
        y1 == y2,
{
    if y1 < y2 {
        assert(!board.collides(g, x, y1 + 1));
    } else if y2 < y1 {
        assert(!board.collides(g, x, y2 + 1));
    }
}

/// A hard drop: the piece falls as far as it can, is locked there, and a
/// new piece is placed.
pub open spec fn drop_step(before: Game, after: Game, ok: bool) -> bool {
    let g = before.piece_spec().grid();
    let x = before.origin().x as int;
    let y0 = before.origin().y as int;
    if before.over_spec() {
        !ok && after == before
    } else {
        exists|y: int| #[trigger]
            rests_at(before.board_spec(), g, x, y0, y) && lock_step(before, after, x, y, ok)
    }
}

/// What a key press does: `a` and `d` move, `w` and `q` turn left, `e`
/// turns right, `s` is one gravity step, space drops, `o` quits, and other
/// characters do nothing.
pub open spec fn key_step(before: Game, after: Game, key: Key, r: Outcome) -> bool {
    match key {
        Key::Left => (r == Outcome::Continued || r == Outcome::Rejected) && move_step(
            before,
            after,
            -1,
            0,
            r == Outcome::Continued,
        ),
        Key::Right => (r == Outcome::Continued || r == Outcome::Rejected) && move_step(
            before,
            after,
            1,
            0,
            r == Outcome::Continued,
        ),
        Key::Down => (r == Outcome::Continued || r == Outcome::GameOver) && advance_step(
            before,
            after,
            r == Outcome::Continued,
        ),
        Key::Space => (r == Outcome::Continued || r == Outcome::GameOver) && drop_step(
            before,
            after,
            r == Outcome::Continued,
        ),
        Key::Up => (r == Outcome::Continued || r == Outcome::Rejected) && rotate_step(
            before,
            after,
            Direction::Left,
            r == Outcome::Continued,
        ),
        Key::Char(c) => if c == 'q' {
            (r == Outcome::Continued || r == Outcome::Rejected) && rotate_step(
                before,
                after,
                Direction::Left,
                r == Outcome::Continued,
            )
        } else if c == 'e' {
            (r == Outcome::Continued || r == Outcome::Rejected) && rotate_step(
                before,
                after,
                Direction::Right,
                r == Outcome::Continued,
            )
        } else if c == 'o' {
            r == Outcome::Quit && after == before
        } else {
            r == Outcome::Rejected && after == before
        },
    }
}

/// The key that one byte read from the terminal stands for: `w`, `a`, `s`,
/// `d` and space are the arrows and the drop key, other ASCII characters
/// stand for themselves, and a byte that is not ASCII (so not a whole
/// UTF-8 character) stands for nothing.
pub open spec fn key_of_byte(b: u8) -> Option<Key> {
    if b >= 0x80 {
        None
    } else if b == 0x77 {
        Some(Key::Up)
    } else if b == 0x61 {
        Some(Key::Left)
    } else if b == 0x73 {
        Some(Key::Down)
    } else if b == 0x64 {
        Some(Key::Right)
    } else if b == 0x20 {
        Some(Key::Space)
    } else {
        Some(Key::Char(b as char))
    }
}

/// Decodes one byte read from the terminal into a key.
pub fn decode_key(b: u8) -> (r: Option<Key>)
    ensures
        r == key_of_byte(b),
{
    if b >= 0x80 {
        None
    } else if b == 0x77 {
        Some(Key::Up)
    } else if b == 0x61 {
        Some(Key::Left)
    } else if b == 0x73 {
        Some(Key::Down)
    } else if b == 0x64 {
        Some(Key::Right)
    } else if b == 0x20 {
        Some(Key::Space)
    } else {
        Some(Key::Char(b as char))
    }
}

/// The draw command for cell (`r`, `c`) of grid `g` placed at (`ox`, `oy`), if it holds a block.
pub open spec fn piece_cell_pixel(g: Seq<Seq<u8>>, color: Color, ox: int, oy: int, r: int, c: int) -> Seq<Pixel> {
    if occupied(g, r, c) {
        seq![pixel(Glyph::Block, 1 + 2 * (ox + c), oy + r, color)]
    } else {
        seq![]
    }
}

/// The draw commands for the first `k` cells of row `r` of `g`.
pub open spec fn piece_row_pixels(g: Seq<Seq<u8>>, color: Color, ox: int, oy: int, r: int, k: nat) -> Seq<Pixel>
    decreases k,
{
    if k == 0 {
        seq![]
    } else {
        piece_row_pixels(g, color, ox, oy, r, (k - 1) as nat) + piece_cell_pixel(g, color, ox, oy, r, k - 1)
    }
}

/// The draw commands for the blocks of the first `k` rows of `g`.
pub open spec fn piece_pixels(g: Seq<Seq<u8>>, color: Color, ox: int, oy: int, k: nat) -> Seq<Pixel>
    decreases k,
{
    if k == 0 {
        seq![]
    } else {
        piece_pixels(g, color, ox, oy, (k - 1) as nat) + piece_row_pixels(g, color, ox, oy, k - 1, g.len())
    }
}

/// A piece with a block placed far off the board collides.
proof fn lemma_far_collides(board: &Board, g: Seq<Seq<u8>>, ox: int, oy: int)
    requires
        is_square(g),
        has_block(g),
        g.len() <= 8,
        ox < -8 || ox >= BOARD_WIDTH || oy < -8 || oy >= BOARD_HEIGHT,
    ensures
        board.collides(g, ox, oy),
{
    let (r, c) = choose|r: int, c: int| 0 <= r < g.len() && 0 <= c < g[r].len() && #[trigger] g[r][c] == 1;
    assert(occupied(g, r, c));
    assert(board.blocked(ox + c, oy + r));
}

impl Game {
    /// A new game: an empty board with a T piece at the top centre.
    pub fn new() -> (game: Game)
        ensures
            game.wf(),
            !game.over_spec(),
            forall|x: int, y: int| in_board(x, y) ==> #[trigger] game.board_spec().cell_spec(x, y) is None,
            game.piece_spec().grid() == t_shape(),
            game.piece_spec().color_spec() == Color::Purple,
            game.origin().x == spawn_x(3),
            game.origin().y == 0,
    {
        let board = Board::new();
        let piece = Piece::new_t();
        let position = Point { x: ((BOARD_WIDTH - piece.size()) / 2) as i32, y: 0 };
        proof {
            assert forall|r: int, c: int| #[trigger] occupied(t_shape(), r, c) implies !board.blocked(
                position.x + c,
                position.y + r,
            ) by {
                assert(in_board(position.x + c, position.y + r));
            }
            lemma_free_fits(&board, t_shape(), position.x as int, 0);
        }
        Game { board, piece, position, over: false }
    }

    /// A game on `board` with a copy of `piece` at the top centre, or `None`
    /// if the piece does not fit there.
    pub fn with_board(board: Board, piece: &Piece) -> (r: Option<Game>)
        requires
            board.wf(),
            piece.wf(),
        ensures
            r is Some <==> !board.collides(piece.grid(), spawn_x(piece.size_spec()), 0),
            r matches Some(game) ==> {
                &&& game.wf()
                &&& !game.over_spec()
                &&& game.board_spec() == board
                &&& same_piece(game.piece_spec(), *piece)
                &&& game.origin().x == spawn_x(piece.size_spec())
                &&& game.origin().y == 0
            },
    {
        let origin = Point { x: ((BOARD_WIDTH - piece.size()) / 2) as i32, y: 0 };
        if board.collision_test(piece, origin) {
            None
        } else {
            proof {
                lemma_free_fits(&board, piece.grid(), origin.x as int, 0);
            }
            Some(Game { board, piece: piece.clone(), position: origin, over: false })
        }
    }

    pub fn board(&self) -> (r: &Board)
        ensures
            *r == self.board_spec(),
    {
        &self.board
    }

    pub fn piece(&self) -> (r: &Piece)
        ensures
            *r == self.piece_spec(),
    {
        &self.piece
    }

    /// The top-left corner of the falling piece on the board.
    pub fn position(&self) -> (r: Point)
        ensures
            r == self.origin(),
    {
        self.position
    }

    pub fn is_over(&self) -> (r: bool)
        ensures
            r == self.over_spec(),
    {
        self.over
    }

    /// Appends to `out` the draw commands for the board, then one block per
    /// block of the falling piece.
    pub fn render(&self, out: &mut Vec<Pixel>)
        requires
            self.wf(),
        ensures
            final(out)@ == old(out)@ + self.board_spec().pixels() + piece_pixels(
                self.piece_spec().grid(),
                self.piece_spec().color_spec(),
                self.origin().x as int,
                self.origin().y as int,
                self.piece_spec().size_spec() as nat,
            ),
    {
        self.board.render(out);
        let ghost g = self.piece.grid();
        let ghost ox = self.position.x as int;
        let ghost oy = self.position.y as int;
        let ghost color = self.piece.color_spec();
        let ghost start = out@;
        let n = self.piece.size();
        let color = self.piece.color();
        let mut y: usize = 0;
        while y < n
            invariant
                self.wf(),
                g == self.piece.grid(),
                ox == self.position.x,
                oy == self.position.y,
                color == self.piece.color_spec(),
                n == g.len(),
                n <= 8,
                y <= n,
                out@ == start + piece_pixels(g, color, ox, oy, y as nat),
            decreases n - y,
        {
            let ghost line = out@;
            let mut x: usize = 0;
            while x < n
                invariant
                    self.wf(),
                    g == self.piece.grid(),
                    ox == self.position.x,
                    oy == self.position.y,
                    color == self.piece.color_spec(),
                    n == g.len(),
                    n <= 8,
                    y < n,
                    x <= n,
                    out@ == line + piece_row_pixels(g, color, ox, oy, y as int, x as nat),
                decreases n - x,
            {
                if self.piece.cell(y, x) == 1 {
                    assert(occupied(g, y as int, x as int));
                    assert(in_board(ox + x, oy + y));
                    let sx: i32 = 1 + 2 * (self.position.x + x as i32);
                    let sy: i32 = self.position.y + y as i32;
                    out.push(Pixel { glyph: Glyph::Block, x: sx as u32, y: sy as u32, color });
                }
                assert(out@ =~= line + piece_row_pixels(g, color, ox, oy, y as int, (x + 1) as nat));
                x += 1;
            }
            assert(out@ =~= start + piece_pixels(g, color, ox, oy, (y + 1) as nat));
            y += 1;
        }
    }

    /// Applies one key press: `a` and `d` (left and right) move the piece a
    /// column, `s` (down) is one gravity step, `w` (up) and `q` turn it
    /// left, `e` turns it right, space drops it, `o` asks to quit, and any
    /// other character is ignored.
    pub fn keypress(&mut self, key: Key) -> (r: Outcome)
        requires
            old(self).wf(),
        ensures
            final(self).wf(),
            key_step(*old(self), *final(self), key, r),
    {
        match key {
            Key::Left => if self.move_piece(-1, 0) {
                Outcome::Continued
            } else {
                Outcome::Rejected
            },
            Key::Right => if self.move_piece(1, 0) {
                Outcome::Continued
            } else {
                Outcome::Rejected
            },
            Key::Down => if self.advance_piece() {
                Outcome::Continued
            } else {
                Outcome::GameOver
            },
            Key::Space => if self.drop_piece() {
                Outcome::Continued
            } else {
                Outcome::GameOver
            },
            Key::Up => if self.rotate_piece(Direction::Left) {
                Outcome::Continued
            } else {
                Outcome::Rejected
            },
            Key::Char(c) => if c == 'q' {
                if self.rotate_piece(Direction::Left) {
                    Outcome::Continued
                } else {
                    Outcome::Rejected
                }
            } else if c == 'e' {
                if self.rotate_piece(Direction::Right) {
                    Outcome::Continued
                } else {
                    Outcome::Rejected
                }
            } else if c == 'o' {
                Outcome::Quit
            } else {
                Outcome::Rejected
            },
        }
    }

    /// Moves the piece by (`x`, `y`) if it does not collide there; returns
    /// whether it moved.
    pub fn move_piece(&mut self, x: i32, y: i32) -> (r: bool)
        requires
            old(self).wf(),
        ensures
            final(self).wf(),
            move_step(*old(self), *final(self), x as int, y as int, r),
    {
        if self.over {
            return false;
        }
        let nx: i64 = self.position.x as i64 + x as i64;
        let ny: i64 = self.position.y as i64 + y as i64;
        if nx < -8 || nx >= BOARD_WIDTH as i64 || ny < -8 || ny >= BOARD_HEIGHT as i64 {
            proof {
                lemma_far_collides(&self.board, self.piece.grid(), nx as int, ny as int);
            }
            return false;
        }
        let p = Point { x: nx as i32, y: ny as i32 };
        if self.board.collision_test(&self.piece, p) {
            false
        } else {
            proof {
                lemma_free_fits(&self.board, self.piece.grid(), nx as int, ny as int);
            }
            self.position = p;
            true
        }
    }

    /// Turns a copy of the piece a quarter in `direction` and keeps it if it
    /// fits at the same origin; no other position is tried. Returns whether
    /// the piece turned.
    pub fn rotate_piece(&mut self, direction: Direction) -> (r: bool)
        requires
            old(self).wf(),
        ensures
            final(self).wf(),
            rotate_step(*old(self), *final(self), direction, r),
    {
        if self.over {
            return false;
        }
        let mut turned = self.piece.clone();
        turned.rotate(direction);
        if self.board.collision_test(&turned, self.position) {
            false
        } else {
            proof {
                lemma_free_fits(&self.board, turned.grid(), self.position.x as int, self.position.y as int);
            }
            self.piece = turned;
            true
        }
    }

    /// Makes a copy of `piece` the falling piece at the top centre of the
    /// board, if it fits there. Returns whether it did; false signals that
    /// the game cannot go on.
    pub fn place_new_piece(&mut self, piece: &Piece) -> (r: bool)
        requires
            old(self).wf_base(),
            piece.wf(),
        ensures
            final(self).wf_base(),
            r ==> final(self).wf(),
            spawn_step(*old(self), *final(self), *piece, r),
    {
        if self.over {
            return false;
        }
        let origin = Point { x: ((BOARD_WIDTH - piece.size()) / 2) as i32, y: 0 };
        if self.board.collision_test(piece, origin) {
            false
        } else {
            proof {
                lemma_free_fits(&self.board, piece.grid(), origin.x as int, 0);
            }
            self.position = origin;
            self.piece = piece.clone();
            true
        }
    }

    /// One gravity step: moves the piece down a row; if it cannot move, locks
    /// it where it is and places a new L piece. Returns false when the game
    /// is over.
    pub fn advance_piece(&mut self) -> (r: bool)
        requires
            old(self).wf(),
        ensures
            final(self).wf(),
            advance_step(*old(self), *final(self), r),
    {
        if self.over {
            return false;
        }
        if !self.move_piece(0, 1) {
            self.board.lock_piece(&self.piece, self.position);
            let next = Piece::new_l();
            if !self.place_new_piece(&next) {
                self.over = true;
                return false;
            }
        }
        true
    }

    /// Moves the piece down as far as it goes, then takes one gravity step,
    /// which locks it and places a new piece. Returns false when the game is
    /// over.
    pub fn drop_piece(&mut self) -> (r: bool)
        requires
            old(self).wf(),
        ensures
            final(self).wf(),
            drop_step(*old(self), *final(self), r),
    {
        if self.over {
            return false;
        }
        let ghost start = *self;
        let ghost g = self.piece.grid();
        let ghost x = self.position.x as int;
        let ghost y0 = self.position.y as int;
        while self.move_piece(0, 1)
            invariant
                self.wf(),
                !self.over,
                self.board == start.board,
                self.piece == start.piece,
                g == self.piece.grid(),
                self.position.x == x,
                y0 <= self.position.y,
                forall|k: int| y0 <= k <= self.position.y ==> !#[trigger] self.board.collides(g, x, k),
            decreases BOARD_HEIGHT - self.position.y,
        {
            proof {
                let (r, c) = choose|r: int, c: int| 0 <= r < g.len() && 0 <= c < g[r].len() && #[trigger] g[r][c] == 1;
                assert(occupied(g, r, c));
            }
        }
        let ghost y = self.position.y as int;
        let r = self.advance_piece();
        assert(rests_at(start.board, g, x, y0, y));
        assert(lock_step(start, *self, x, y, r));
        r
    }
}

} // verus!
