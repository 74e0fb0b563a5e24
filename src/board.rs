use vstd::prelude::*;
use crate::piece::{Color, Piece};

verus! {

/// Columns of the board.
pub const BOARD_WIDTH: usize = 10;

/// Rows of the board.
pub const BOARD_HEIGHT: usize = 20;

/// Top rows where pieces appear; they are drawn without side walls.
pub const HIDDEN_ROWS: usize = 2;

/// A board or piece position: a column `x` and a row `y`, row 0 at the top.
#[derive(Clone, Copy, Debug, PartialEq, Eq, Structural)]
pub struct Point {
    pub x: i32,
    pub y: i32,
}

/// What is drawn at one screen cell.
#[derive(Clone, Copy, Debug, PartialEq, Eq, Structural)]
pub enum Glyph {
    /// A side wall, `|`.
    Wall,
    /// The floor, `-`.
    Floor,
    /// A block of a piece or of a locked cell, `*`.
    Block,
}

/// One draw command: put `glyph` in `color` at screen column `x`, row `y`.
#[derive(Clone, Copy, Debug, PartialEq, Eq, Structural)]
pub struct Pixel {
    pub glyph: Glyph,
    pub x: u32,
    pub y: u32,
    pub color: Color,
}

/// (`x`, `y`) lies on the board.
pub open spec fn in_board(x: int, y: int) -> bool {
    0 <= x < BOARD_WIDTH && 0 <= y < BOARD_HEIGHT
}

/// Cell (`r`, `c`) of the square grid `g` holds a block.
pub open spec fn occupied(g: Seq<Seq<u8>>, r: int, c: int) -> bool {
    0 <= r < g.len() && 0 <= c < g.len() && g[r][c] == 1
}

/// A grid `g` placed with its top-left corner at (`ox`, `oy`) puts a block on board cell (`x`, `y`).
pub open spec fn covers(g: Seq<Seq<u8>>, ox: int, oy: int, x: int, y: int) -> bool {
    occupied(g, y - oy, x - ox)
}

/// Every block of `g` placed at (`ox`, `oy`) lies on the board.
pub open spec fn fits(g: Seq<Seq<u8>>, ox: int, oy: int) -> bool {
    forall|r: int, c: int| #[trigger] occupied(g, r, c) ==> in_board(ox + c, oy + r)
}

/// The draw command for a screen cell.
pub open spec fn pixel(glyph: Glyph, x: int, y: int, color: Color) -> Pixel {
    Pixel { glyph, x: x as u32, y: y as u32, color }
}

/// The two side walls of the visible rows, from row `HIDDEN_ROWS` for `k` rows.
pub open spec fn wall_pixels(k: nat) -> Seq<Pixel>
    decreases k,
{
    if k == 0 {
        seq![]
    } else {
        let y = HIDDEN_ROWS + k - 1;
        wall_pixels((k - 1) as nat) + seq![
            pixel(Glyph::Wall, 0, y, Color::Red),
            pixel(Glyph::Wall, 2 * BOARD_WIDTH as int, y, Color::Red),
        ]
    }
}

/// The floor below the last row, one glyph per screen column.
pub open spec fn floor_pixels() -> Seq<Pixel> {
    Seq::new(
        (2 * BOARD_WIDTH + 1) as nat,
        |x: int| pixel(Glyph::Floor, x, BOARD_HEIGHT as int, Color::Red),
    )
}

/// The playfield: a fixed grid of cells, each empty or holding the colour
/// of a locked block.
pub struct Board {
    cells: Vec<Option<Color>>,
}

impl Board {
    /// The content of cell (`x`, `y`).
    pub closed spec fn cell_spec(&self, x: int, y: int) -> Option<Color> {
        self.cells@[y * BOARD_WIDTH + x]
    }

    /// The board holds one value per cell.
    pub closed spec fn wf(&self) -> bool {
        self.cells@.len() == BOARD_WIDTH * BOARD_HEIGHT
    }

    /// Cell (`x`, `y`) is off the board or taken.
    pub open spec fn blocked(&self, x: int, y: int) -> bool {
        !in_board(x, y) || self.cell_spec(x, y) is Some
    }

    /// Some block of `g` placed at (`ox`, `oy`) is off the board or on a taken cell.
    pub open spec fn collides(&self, g: Seq<Seq<u8>>, ox: int, oy: int) -> bool {
        exists|r: int, c: int| #[trigger] occupied(g, r, c) && self.blocked(ox + c, oy + r)
    }

    /// `self` is `before` with the blocks of `g` placed at (`ox`, `oy`)
    /// written in `color`, and nothing else changed.
    pub open spec fn locked_from(
        &self,
        before: &Board,
        g: Seq<Seq<u8>>,
        color: Color,
        ox: int,
        oy: int,
    ) -> bool {
        &&& self.wf()
        &&& forall|x: int, y: int|
            in_board(x, y) ==> #[trigger] self.cell_spec(x, y) == if covers(g, ox, oy, x, y) {
                Some(color)
            } else {
                before.cell_spec(x, y)
            }
    }

    /// The draw command for cell (`x`, `y`), if it is taken.
    pub open spec fn cell_pixel(&self, x: int, y: int) -> Seq<Pixel> {
        match self.cell_spec(x, y) {
            Some(color) => seq![pixel(Glyph::Block, 1 + 2 * x, y, color)],
            None => seq![],
        }
    }

    /// The draw commands for the first `k` cells of row `y`.
    pub open spec fn row_pixels(&self, y: int, k: nat) -> Seq<Pixel>
        decreases k,
    {
        if k == 0 {
            seq![]
        } else {
            self.row_pixels(y, (k - 1) as nat) + self.cell_pixel(k - 1, y)
        }
    }

    /// The draw commands for the taken cells of the first `k` rows.
    pub open spec fn rows_pixels(&self, k: nat) -> Seq<Pixel>
        decreases k,
    {
        if k == 0 {
            seq![]
        } else {
            self.rows_pixels((k - 1) as nat) + self.row_pixels(k - 1, BOARD_WIDTH as nat)
        }
    }

    /// Everything `render` draws, in order: walls, floor, then taken cells row by row.
    pub open spec fn pixels(&self) -> Seq<Pixel> {
        wall_pixels((BOARD_HEIGHT - HIDDEN_ROWS) as nat) + floor_pixels() + self.rows_pixels(
            BOARD_HEIGHT as nat,
        )
    }

    /// An empty board.
    pub fn new() -> (b: Board)
        ensures
            b.wf(),
            forall|x: int, y: int| in_board(x, y) ==> #[trigger] b.cell_spec(x, y) is None,
    {
        let mut cells: Vec<Option<Color>> = Vec::new();
        let mut i: usize = 0;
        while i < BOARD_WIDTH * BOARD_HEIGHT
            invariant
                i <= BOARD_WIDTH * BOARD_HEIGHT,
                cells@.len() == i,
                forall|k: int| 0 <= k < i ==> #[trigger] cells@[k] is None,
            decreases BOARD_WIDTH * BOARD_HEIGHT - i,
        {
            cells.push(None);
            i += 1;
        }
        Board { cells }
    }

    /// The content of cell (`x`, `y`).
    pub fn cell(&self, x: usize, y: usize) -> (r: Option<Color>)
        requires
            self.wf(),
            x < BOARD_WIDTH,
            y < BOARD_HEIGHT,
        ensures
            r == self.cell_spec(x as int, y as int),
    {
        self.cells[y * BOARD_WIDTH + x]
    }

    /// Appends to `out` the draw commands for the board: both side walls of
    /// each visible row, the floor, and one block per taken cell at screen
    /// column `1 + 2 * x`.
    pub fn render(&self, out: &mut Vec<Pixel>)
        requires
            self.wf(),
        ensures
            final(out)@ == old(out)@ + self.pixels(),
    {
        let ghost start = out@;
        let mut y: usize = HIDDEN_ROWS;
        while y < BOARD_HEIGHT
            invariant
                HIDDEN_ROWS <= y <= BOARD_HEIGHT,
                out@ == start + wall_pixels((y - HIDDEN_ROWS) as nat),
            decreases BOARD_HEIGHT - y,
        {
            out.push(Pixel { glyph: Glyph::Wall, x: 0, y: y as u32, color: Color::Red });
            out.push(
                Pixel { glyph: Glyph::Wall, x: (BOARD_WIDTH * 2) as u32, y: y as u32, color: Color::Red },
            );
            proof {
                let k = (y + 1 - HIDDEN_ROWS) as nat;
                assert(wall_pixels(k) == wall_pixels((k - 1) as nat) + seq![
                    pixel(Glyph::Wall, 0, y as int, Color::Red),
                    pixel(Glyph::Wall, 2 * BOARD_WIDTH as int, y as int, Color::Red),
                ]);
                assert(out@ =~= start + wall_pixels(k));
            }
            y += 1;
        }
        let ghost walls = out@;
        let mut x: usize = 0;
        while x < BOARD_WIDTH * 2 + 1
            invariant
                x <= BOARD_WIDTH * 2 + 1,
                out@ == walls + floor_pixels().take(x as int),
            decreases BOARD_WIDTH * 2 + 1 - x,
        {
            out.push(Pixel { glyph: Glyph::Floor, x: x as u32, y: BOARD_HEIGHT as u32, color: Color::Red });
            assert(out@ =~= walls + floor_pixels().take(x + 1));
            x += 1;
        }
        assert(floor_pixels().take(x as int) =~= floor_pixels());
        let ghost floor = out@;
        let mut row: usize = 0;
        while row < BOARD_HEIGHT
            invariant
                self.wf(),
                row <= BOARD_HEIGHT,
                out@ == floor + self.rows_pixels(row as nat),
            decreases BOARD_HEIGHT - row,
        {
            let ghost line = out@;
            let mut col: usize = 0;
            while col < BOARD_WIDTH
                invariant
                    self.wf(),
                    row < BOARD_HEIGHT,
                    col <= BOARD_WIDTH,
                    out@ == line + self.row_pixels(row as int, col as nat),
                decreases BOARD_WIDTH - col,
            {
                let ghost prev = out@;
                match self.cell(col, row) {
                    Some(color) => {
                        out.push(
                            Pixel { glyph: Glyph::Block, x: (1 + col * 2) as u32, y: row as u32, color },
                        );
                    },
                    None => {},
                }
                assert(self.row_pixels(row as int, (col + 1) as nat) == self.row_pixels(
                    row as int,
                    col as nat,
                ) + self.cell_pixel(col as int, row as int));
                assert(out@ =~= line + self.row_pixels(row as int, (col + 1) as nat));
                col += 1;
            }
            assert(out@ =~= floor + self.rows_pixels((row + 1) as nat));
            row += 1;
        }
        assert(out@ =~= start + self.pixels());
    }

    /// Whether `piece` placed with its top-left corner at `origin` has a
    /// block off the board or on a taken cell.
    pub fn collision_test(&self, piece: &Piece, origin: Point) -> (r: bool)
        requires
            self.wf(),
            piece.wf(),
        ensures
            r == self.collides(piece.grid(), origin.x as int, origin.y as int),
    {
        let n = piece.size();
        let ghost g = piece.grid();
        let ghost ox = origin.x as int;
        let ghost oy = origin.y as int;
        let mut row: usize = 0;
        while row < n
            invariant
                self.wf(),
                n == g.len(),
                g == piece.grid(),
                piece.wf(),
                ox == origin.x,
                oy == origin.y,
                n <= 8,
                row <= n,
                forall|r: int, c: int|
                    #[trigger] occupied(g, r, c) && r < row ==> !self.blocked(ox + c, oy + r),
            decreases n - row,
        {
            let mut col: usize = 0;
            while col < n
                invariant
                    self.wf(),
                    n == g.len(),
                    g == piece.grid(),
                    piece.wf(),
                    ox == origin.x,
                    oy == origin.y,
                    n <= 8,
                    row < n,
                    col <= n,
                    forall|r: int, c: int|
                        #[trigger] occupied(g, r, c) && (r < row || (r == row && c < col))
                            ==> !self.blocked(ox + c, oy + r),
                decreases n - col,
            {
                if piece.cell(row, col) == 1 {
                    assert(occupied(g, row as int, col as int));
                    let x: i64 = origin.x as i64 + col as i64;
                    let y: i64 = origin.y as i64 + row as i64;
                    if x < 0 || x >= BOARD_WIDTH as i64 || y < 0 || y >= BOARD_HEIGHT as i64 {
                        assert(self.blocked(ox + col, oy + row));
                        return true;
                    }
                    match self.cells[(y as usize) * BOARD_WIDTH + (x as usize)] {
                        Some(_) => {
                            assert(self.blocked(ox + col, oy + row));
                            return true;
                        },
                        None => {},
                    }
                }
                col += 1;
            }
            row += 1;
        }
        false
    }

    /// Writes the colour of `piece` into every cell its blocks cover when
    /// placed at `origin`, whatever the cell held.
    pub fn lock_piece(&mut self, piece: &Piece, origin: Point)
        requires
            old(self).wf(),
            piece.wf(),
            fits(piece.grid(), origin.x as int, origin.y as int),
        ensures
            final(self).locked_from(
                old(self),
                piece.grid(),
                piece.color_spec(),
                origin.x as int,
                origin.y as int,
            ),
    {
        let n = piece.size();
        let color = piece.color();
        let ghost g = piece.grid();
        let ghost ox = origin.x as int;
        let ghost oy = origin.y as int;
        let ghost before = *self;
        let mut row: usize = 0;
        while row < n
            invariant
                self.wf(),
                before.wf(),
                n == g.len(),
                g == piece.grid(),
                piece.wf(),
                color == piece.color_spec(),
                ox == origin.x,
                oy == origin.y,
                n <= 8,
                row <= n,
                fits(g, ox, oy),
                forall|x: int, y: int|
                    in_board(x, y) ==> #[trigger] self.cell_spec(x, y) == if covers(g, ox, oy, x, y)
                        && y - oy < row {
                        Some(color)
                    } else {
                        before.cell_spec(x, y)
                    },
            decreases n - row,
        {
            let mut col: usize = 0;
            while col < n
                invariant
                    self.wf(),
                    before.wf(),
                    n == g.len(),
                    g == piece.grid(),
                    piece.wf(),
                    color == piece.color_spec(),
                    ox == origin.x,
                    oy == origin.y,
                    n <= 8,
                    row < n,
                    col <= n,
                    fits(g, ox, oy),
                    forall|x: int, y: int|
                        in_board(x, y) ==> #[trigger] self.cell_spec(x, y) == if covers(
                            g,
                            ox,
                            oy,
                            x,
                            y,
                        ) && (y - oy < row || (y - oy == row && x - ox < col)) {
                            Some(color)
                        } else {
                            before.cell_spec(x, y)
                        },
                decreases n - col,
            {
                if piece.cell(row, col) == 1 {
                    assert(occupied(g, row as int, col as int));
                    let x: i64 = origin.x as i64 + col as i64;
                    let y: i64 = origin.y as i64 + row as i64;
                    let ghost prev = *self;
                    let idx = (y as usize) * BOARD_WIDTH + (x as usize);
                    self.cells.set(idx, Some(color));
                    assert forall|a: int, b: int| in_board(a, b) implies #[trigger] self.cell_spec(a, b)
                        == if a == x && b == y {
                        Some(color)
                    } else {
                        prev.cell_spec(a, b)
                    } by {
                        assert(self.cells@[b * BOARD_WIDTH + a] == self.cell_spec(a, b));
                        assert(prev.cells@[b * BOARD_WIDTH + a] == prev.cell_spec(a, b));
                    }
                }
                col += 1;
            }
            row += 1;
        }
    }
}

/// A placement with no collision keeps every block on the board.
pub proof fn lemma_free_fits(board: &Board, g: Seq<Seq<u8>>, ox: int, oy: int)
    requires
        !board.collides(g, ox, oy),
    ensures
        fits(g, ox, oy),
{
    assert forall|r: int, c: int| #[trigger] occupied(g, r, c) implies in_board(ox + c, oy + r) by {
        assert(!board.blocked(ox + c, oy + r));
    }
}

/// A placement with no collision keeps every block on the board, and
/// shifting it so that any block leaves the board makes it collide.
pub proof fn lemma_boundary_exact(
    board: &Board,
    g: Seq<Seq<u8>>,
    ox: int,
    oy: int,
    dx: int,
    dy: int,
    r: int,
    c: int,
)
    requires
        board.wf(),
        !board.collides(g, ox, oy),
        occupied(g, r, c),
        !in_board(ox + dx + c, oy + dy + r),
    ensures
        fits(g, ox, oy),
        board.collides(g, ox + dx, oy + dy),
{
    lemma_free_fits(board, g, ox, oy);
    assert(board.blocked(ox + dx + c, oy + dy + r));
}

/// Once a piece is locked, any placement that puts a block on one of its
/// cells collides.
pub proof fn lemma_locked_cells_collide(
    after: &Board,
    before: &Board,
    p: Seq<Seq<u8>>,
    color: Color,
    ox: int,
    oy: int,
    q: Seq<Seq<u8>>,
    qx: int,
    qy: int,
    r: int,
    c: int,
)
    requires
        after.locked_from(before, p, color, ox, oy),
        fits(p, ox, oy),
        occupied(q, r, c),
        covers(p, ox, oy, qx + c, qy + r),
    ensures
        after.collides(q, qx, qy),
{
    assert(occupied(p, qy + r - oy, qx + c - ox));
    assert(in_board(qx + c, qy + r));
    assert(after.cell_spec(qx + c, qy + r) == Some(color));
    assert(after.blocked(qx + c, qy + r));
}

} // verus!
