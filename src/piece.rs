use vstd::prelude::*;

verus! {

/// The colour a piece or a locked cell is drawn with.
#[derive(Clone, Copy, Debug, PartialEq, Eq, Structural)]
pub enum Color {
    Red,
    Orange,
    Blue,
    Cyan,
    Purple,
    Green,
}

/// The sense of a quarter turn.
#[derive(Clone, Copy, Debug, PartialEq, Eq, Structural)]
pub enum Direction {
    /// Counter-clockwise.
    Left,
    /// Clockwise.
    Right,
}

/// A square grid is one whose every row is as long as the grid is tall.
pub open spec fn is_square(g: Seq<Seq<u8>>) -> bool {
    forall|i: int| 0 <= i < g.len() ==> (#[trigger] g[i]).len() == g.len()
}

/// Some cell of the grid holds a block.
pub open spec fn has_block(g: Seq<Seq<u8>>) -> bool {
    exists|i: int, j: int| 0 <= i < g.len() && 0 <= j < g[i].len() && #[trigger] g[i][j] == 1
}

/// The value that lands at row `i`, column `j` when the square grid `g`
/// is turned a quarter in direction `d`.
pub open spec fn turned_cell(g: Seq<Seq<u8>>, d: Direction, i: int, j: int) -> u8 {
    let n = g.len() as int;
    match d {
        Direction::Right => g[n - 1 - j][i],
        Direction::Left => g[j][n - 1 - i],
    }
}

/// The square grid `g` turned a quarter in direction `d`.
pub open spec fn rotate_grid(g: Seq<Seq<u8>>, d: Direction) -> Seq<Seq<u8>> {
    Seq::new(g.len(), |i: int| Seq::new(g.len(), |j: int| turned_cell(g, d, i, j)))
}

/// The ring of cell (`i`, `j`) in an `n` by `n` grid: its distance to the nearest edge.
pub open spec fn ring(n: int, i: int, j: int) -> int {
    let a = if i < j { i } else { j };
    let b = if n - 1 - i < n - 1 - j { n - 1 - i } else { n - 1 - j };
    if a < b { a } else { b }
}

/// Which step along ring `k` moves cell (`i`, `j`): the cells
/// (k, c), (c, n-1-k), (n-1-k, n-1-c) and (n-1-c, k) share step `c`.
pub open spec fn step_of(n: int, k: int, i: int, j: int) -> int {
    if i == k && j < n - 1 - k {
        j
    } else if j == n - 1 - k && i < n - 1 - k {
        i
    } else if i == n - 1 - k && j > k {
        n - 1 - j
    } else {
        n - 1 - i
    }
}

/// Cell (`i`, `j`) has been moved once rings below `k`, and steps below `c` of ring `k`, are done.
pub open spec fn moved(n: int, k: int, c: int, i: int, j: int) -> bool {
    ring(n, i, j) < k || (ring(n, i, j) == k && step_of(n, k, i, j) < c)
}

/// The shape of the square piece.
pub open spec fn o_shape() -> Seq<Seq<u8>> {
    seq![seq![1u8, 1], seq![1u8, 1]]
}

/// The shape of the L piece.
pub open spec fn l_shape() -> Seq<Seq<u8>> {
    seq![seq![0u8, 0, 1], seq![1u8, 1, 1], seq![0u8, 0, 0]]
}

/// The shape of the J piece.
pub open spec fn j_shape() -> Seq<Seq<u8>> {
    seq![seq![1u8, 0, 0], seq![1u8, 1, 1], seq![0u8, 0, 0]]
}

/// The shape of the T piece.
pub open spec fn t_shape() -> Seq<Seq<u8>> {
    seq![seq![0u8, 1, 0], seq![1u8, 1, 1], seq![0u8, 0, 0]]
}

/// The shape of the S piece.
pub open spec fn s_shape() -> Seq<Seq<u8>> {
    seq![seq![0u8, 1, 1], seq![1u8, 1, 0], seq![0u8, 0, 0]]
}

/// The shape of the Z piece.
pub open spec fn z_shape() -> Seq<Seq<u8>> {
    seq![seq![1u8, 1, 0], seq![0u8, 1, 1], seq![0u8, 0, 0]]
}

/// The shape of the line piece.
pub open spec fn i_shape() -> Seq<Seq<u8>> {
    seq![seq![0u8, 0, 0, 0], seq![1u8, 1, 1, 1], seq![0u8, 0, 0, 0], seq![0u8, 0, 0, 0]]
}

/// Four quarter turns in the same direction give back the grid they started from.
pub proof fn lemma_rotate_four_times(g: Seq<Seq<u8>>, d: Direction)
    requires
        is_square(g),
    ensures
        rotate_grid(rotate_grid(rotate_grid(rotate_grid(g, d), d), d), d) == g,
{
    let g1 = rotate_grid(g, d);
    let g2 = rotate_grid(g1, d);
    let g3 = rotate_grid(g2, d);
    let g4 = rotate_grid(g3, d);
    assert(g4 =~~= g);
}

/// A quarter turn one way followed by a quarter turn the other way gives
/// back the grid it started from.
pub proof fn lemma_rotate_undo(g: Seq<Seq<u8>>)
    requires
        is_square(g),
    ensures
        rotate_grid(rotate_grid(g, Direction::Right), Direction::Left) == g,
        rotate_grid(rotate_grid(g, Direction::Left), Direction::Right) == g,
{
    assert(rotate_grid(rotate_grid(g, Direction::Right), Direction::Left) =~~= g);
    assert(rotate_grid(rotate_grid(g, Direction::Left), Direction::Right) =~~= g);
}

/// Facts about one step of ring `k`: its four cells are not yet moved
/// before it and are exactly the cells it adds.
proof fn lemma_step(n: int, k: int, c: int, i: int, j: int)
    requires
        0 <= k,
        2 * k < n - 1,
        k <= c <= n - 1 - k,
        0 <= i < n,
        0 <= j < n,
    ensures
        ring(n, i, j) == k ==> k <= step_of(n, k, i, j) < n - 1 - k,
        c == k ==> (moved(n, k, c, i, j) <==> ring(n, i, j) < k),
        c == n - 1 - k ==> (moved(n, k, c, i, j) <==> ring(n, i, j) <= k),
        c < n - 1 - k ==> (moved(n, k, c + 1, i, j) <==> (moved(n, k, c, i, j) || (i == k && j
            == c) || (i == c && j == n - 1 - k) || (i == n - 1 - k && j == n - 1 - c) || (i == n
            - 1 - c && j == k))),
        c < n - 1 - k && ((i == k && j == c) || (i == c && j == n - 1 - k) || (i == n - 1 - k
            && j == n - 1 - c) || (i == n - 1 - c && j == k)) ==> !moved(n, k, c, i, j),
{
}

/// Moves four distinct cells of `m` round a cycle: the first takes the
/// second's value, the second the third's, the third the fourth's, and the
/// fourth the first's.
fn cycle4(
    m: &mut Vec<Vec<u8>>,
    r0: usize,
    c0: usize,
    r1: usize,
    c1: usize,
    r2: usize,
    c2: usize,
    r3: usize,
    c3: usize,
)
    requires
        r0 < old(m)@.len() && c0 < old(m)@[r0 as int]@.len(),
        r1 < old(m)@.len() && c1 < old(m)@[r1 as int]@.len(),
        r2 < old(m)@.len() && c2 < old(m)@[r2 as int]@.len(),
        r3 < old(m)@.len() && c3 < old(m)@[r3 as int]@.len(),
        (r0, c0) != (r1, c1),
        (r0, c0) != (r2, c2),
        (r0, c0) != (r3, c3),
        (r1, c1) != (r2, c2),
        (r1, c1) != (r3, c3),
        (r2, c2) != (r3, c3),
    ensures
        final(m)@.len() == old(m)@.len(),
        forall|i: int| 0 <= i < old(m)@.len() ==> (#[trigger] final(m)@[i])@.len() == old(m)@[i]@.len(),
        forall|i: int, j: int|
            0 <= i < old(m)@.len() && 0 <= j < old(m)@[i]@.len() ==> (#[trigger] final(m)@[i]@[j])
                == if i == r0 && j == c0 {
                old(m)@[r1 as int]@[c1 as int]
            } else if i == r1 && j == c1 {
                old(m)@[r2 as int]@[c2 as int]
            } else if i == r2 && j == c2 {
                old(m)@[r3 as int]@[c3 as int]
            } else if i == r3 && j == c3 {
                old(m)@[r0 as int]@[c0 as int]
            } else {
                old(m)@[i]@[j]
            },
{
    let t = m[r0][c0];
    m[r0][c0] = m[r1][c1];
    m[r1][c1] = m[r2][c2];
    m[r2][c2] = m[r3][c3];
    m[r3][c3] = t;
}

/// A falling piece: a square matrix of cells (1 for a block, 0 for none),
/// its colour and its name. It has no position of its own.
pub struct Piece {
    name: &'static str,
    color: Color,
    shape: Vec<Vec<u8>>,
}

impl Piece {
    /// The shape as a grid of values.
    pub closed spec fn grid(&self) -> Seq<Seq<u8>> {
        self.shape@.map_values(|r: Vec<u8>| r@)
    }

    pub open spec fn size_spec(&self) -> int {
        self.grid().len() as int
    }

    pub closed spec fn color_spec(&self) -> Color {
        self.color
    }

    pub closed spec fn name_spec(&self) -> &'static str {
        self.name
    }

    /// The shape is square, not empty of blocks, and small enough for
    /// board coordinates.
    pub open spec fn wf(&self) -> bool {
        &&& is_square(self.grid())
        &&& has_block(self.grid())
        &&& self.size_spec() <= 8
    }

    /// Cell (`r`, `c`) of the shape holds a block.
    pub open spec fn occupied(&self, r: int, c: int) -> bool {
        0 <= r < self.size_spec() && 0 <= c < self.size_spec() && self.grid()[r][c] == 1
    }

    /// The side length of the shape.
    pub fn size(&self) -> (r: usize)
        ensures
            r == self.size_spec(),
    {
        self.shape.len()
    }

    pub fn color(&self) -> (r: Color)
        ensures
            r == self.color_spec(),
    {
        self.color
    }

    pub fn name(&self) -> (r: &'static str)
        ensures
            r == self.name_spec(),
    {
        self.name
    }

    /// The value at row `r`, column `c` of the shape.
    pub fn cell(&self, r: usize, c: usize) -> (v: u8)
        requires
            self.wf(),
            r < self.size_spec(),
            c < self.size_spec(),
        ensures
            v == self.grid()[r as int][c as int],
    {
        assert(self.grid()[r as int] == self.shape@[r as int]@);
        self.shape[r][c]
    }

    /// The square piece, two cells on a side.
    pub fn new_o() -> (p: Piece)
        ensures
            p.wf(),
            p.grid() == o_shape(),
            p.color_spec() == Color::Cyan,
    {
        let p = Piece { name: "O", color: Color::Cyan, shape: vec![vec![1, 1], vec![1, 1]] };
        assert(p.grid() =~~= o_shape());
        assert(p.grid()[0][0] == 1);
        p
    }

    /// The L piece.
    pub fn new_l() -> (p: Piece)
        ensures
            p.wf(),
            p.grid() == l_shape(),
            p.color_spec() == Color::Orange,
    {
        let p = Piece {
            name: "L",
            color: Color::Orange,
            shape: vec![vec![0, 0, 1], vec![1, 1, 1], vec![0, 0, 0]],
        };
        assert(p.grid() =~~= l_shape());
        assert(p.grid()[1][1] == 1);
        p
    }

    /// The J piece.
    pub fn new_j() -> (p: Piece)
        ensures
            p.wf(),
            p.grid() == j_shape(),
            p.color_spec() == Color::Blue,
    {
        let p = Piece {
            name: "J",
            color: Color::Blue,
            shape: vec![vec![1, 0, 0], vec![1, 1, 1], vec![0, 0, 0]],
        };
        assert(p.grid() =~~= j_shape());
        assert(p.grid()[1][1] == 1);
        p
    }

    /// The T piece.
    pub fn new_t() -> (p: Piece)
        ensures
            p.wf(),
            p.grid() == t_shape(),
            p.color_spec() == Color::Purple,
    {
        let p = Piece {
            name: "T",
            color: Color::Purple,
            shape: vec![vec![0, 1, 0], vec![1, 1, 1], vec![0, 0, 0]],
        };
        assert(p.grid() =~~= t_shape());
        assert(p.grid()[1][1] == 1);
        p
    }

    /// The S piece.
    pub fn new_s() -> (p: Piece)
        ensures
            p.wf(),
            p.grid() == s_shape(),
            p.color_spec() == Color::Green,
    {
        let p = Piece {
            name: "S",
            color: Color::Green,
            shape: vec![vec![0, 1, 1], vec![1, 1, 0], vec![0, 0, 0]],
        };
        assert(p.grid() =~~= s_shape());
        assert(p.grid()[1][1] == 1);
        p
    }

    /// The Z piece.
    pub fn new_z() -> (p: Piece)
        ensures
            p.wf(),
            p.grid() == z_shape(),
            p.color_spec() == Color::Red,
    {
        let p = Piece {
            name: "Z",
            color: Color::Red,
            shape: vec![vec![1, 1, 0], vec![0, 1, 1], vec![0, 0, 0]],
        };
        assert(p.grid() =~~= z_shape());
        assert(p.grid()[1][1] == 1);
        p
    }

    /// The line piece, four cells long.
    pub fn new_i() -> (p: Piece)
        ensures
            p.wf(),
            p.grid() == i_shape(),
            p.color_spec() == Color::Cyan,
    {
        let p = Piece {
            name: "I",
            color: Color::Cyan,
            shape: vec![vec![0, 0, 0, 0], vec![1, 1, 1, 1], vec![0, 0, 0, 0], vec![0, 0, 0, 0]],
        };
        assert(p.grid() =~~= i_shape());
        assert(p.grid()[1][1] == 1);
        p
    }

    /// Turns the shape a quarter in `direction`, in place: ring by ring from
    /// the outside in, each step moving four cells round a cycle.
    pub fn rotate(&mut self, direction: Direction)
        requires
            old(self).wf(),
        ensures
            final(self).wf(),
            final(self).grid() == rotate_grid(old(self).grid(), direction),
            final(self).color_spec() == old(self).color_spec(),
            final(self).name_spec() == old(self).name_spec(),
    {
        let size = self.shape.len();
        let ghost g = self.grid();
        let ghost n = size as int;
        let ghost color = self.color;
        let ghost name = self.name;
        assert forall|i: int| 0 <= i < n implies (#[trigger] self.shape@[i])@.len() == n by {
            assert(g[i] == self.shape@[i]@);
        }
        let mut row: usize = 0;
        while row < size / 2
            invariant
                n == size,
                g.len() == n,
                is_square(g),
                n <= 8,
                has_block(g),
                self.shape@.len() == n,
                self.color == color,
                self.name == name,
                forall|i: int| 0 <= i < n ==> (#[trigger] self.shape@[i])@.len() == n,
                row <= size / 2,
                forall|i: int, j: int|
                    0 <= i < n && 0 <= j < n ==> (#[trigger] self.shape@[i]@[j]) == if ring(
                        n,
                        i,
                        j,
                    ) < row {
                        turned_cell(g, direction, i, j)
                    } else {
                        g[i][j]
                    },
            decreases size / 2 - row,
        {
            let mut col: usize = row;
            proof {
                assert forall|i: int, j: int| 0 <= i < n && 0 <= j < n implies moved(n, row as int, row as int, i, j) == (ring(n, i, j) < row) by {
                    lemma_step(n, row as int, row as int, i, j);
                }
            }
            while col < size - row - 1
                invariant
                    n == size,
                    g.len() == n,
                    is_square(g),
                    n <= 8,
                    has_block(g),
                    self.shape@.len() == n,
                    self.color == color,
                    self.name == name,
                    forall|i: int| 0 <= i < n ==> (#[trigger] self.shape@[i])@.len() == n,
                    row < size / 2,
                    row <= col <= size - row - 1,
                    forall|i: int, j: int|
                        0 <= i < n && 0 <= j < n ==> (#[trigger] self.shape@[i]@[j]) == if moved(
                            n,
                            row as int,
                            col as int,
                            i,
                            j,
                        ) {
                            turned_cell(g, direction, i, j)
                        } else {
                            g[i][j]
                        },
                decreases size - row - 1 - col,
            {
                let last = size - row - 1;
                let opp = size - col - 1;
                let ghost before = self.shape@;
                match direction {
                    Direction::Left => {
                        cycle4(&mut self.shape, row, col, col, last, last, opp, opp, row);
                    },
                    Direction::Right => {
                        cycle4(&mut self.shape, row, col, opp, row, last, opp, col, last);
                    },
                }
                proof {
                    assert forall|i: int, j: int| 0 <= i < n && 0 <= j < n implies (
                    #[trigger] self.shape@[i]@[j]) == if moved(n, row as int, col + 1, i, j) {
                        turned_cell(g, direction, i, j)
                    } else {
                        g[i][j]
                    } by {
                        lemma_step(n, row as int, col as int, i, j);
                        lemma_step(n, row as int, col as int, row as int, col as int);
                        lemma_step(n, row as int, col as int, col as int, last as int);
                        lemma_step(n, row as int, col as int, last as int, opp as int);
                        lemma_step(n, row as int, col as int, opp as int, row as int);
                        assert(before[i]@[j] == self.shape@[i]@[j] || moved(n, row as int, col + 1, i, j));
                    }
                }
                col += 1;
            }
            proof {
                assert forall|i: int, j: int| 0 <= i < n && 0 <= j < n implies moved(n, row as int, col as int, i, j) == (ring(n, i, j) < row + 1) by {
                    lemma_step(n, row as int, col as int, i, j);
                }
            }
            row += 1;
        }
        proof {
            assert forall|i: int, j: int| 0 <= i < n && 0 <= j < n implies ring(n, i, j) < row
                || (i == j && i == n - 1 - i) by {}
            assert(self.grid() =~~= rotate_grid(g, direction));
            let (a, b) = choose|a: int, b: int|
                0 <= a < g.len() && 0 <= b < g[a].len() && #[trigger] g[a][b] == 1;
            match direction {
                Direction::Right => {
                    assert(self.grid()[b][n - 1 - a] == 1);
                },
                Direction::Left => {
                    assert(self.grid()[n - 1 - b][a] == 1);
                },
            }
        }
    }
}

impl Clone for Piece {
    /// A deep copy: the shape's rows are copied one by one.
    fn clone(&self) -> (p: Piece)
        ensures
            p.grid() == self.grid(),
            p.color_spec() == self.color_spec(),
            p.name_spec() == self.name_spec(),
    {
        let mut shape: Vec<Vec<u8>> = Vec::with_capacity(self.shape.len());
        let mut r: usize = 0;
        while r < self.shape.len()
            invariant
                r <= self.shape@.len(),
                shape@.len() == r,
                forall|i: int| 0 <= i < r ==> (#[trigger] shape@[i])@ == self.shape@[i]@,
            decreases self.shape@.len() - r,
        {
            let src = &self.shape[r];
            let mut row: Vec<u8> = Vec::with_capacity(src.len());
            let mut c: usize = 0;
            while c < src.len()
                invariant
                    c <= src@.len(),
                    row@ == src@.subrange(0, c as int),
                decreases src@.len() - c,
            {
                row.push(src[c]);
                c += 1;
            }
            assert(row@ =~= src@);
            shape.push(row);
            r += 1;
        }
        let p = Piece { name: self.name, color: self.color, shape };
        assert(p.grid() =~= self.grid());
        p
    }
}

} // verus!
