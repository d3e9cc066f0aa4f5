use vstd::prelude::*;
use crate::cell::Cell;
use ndarray::Array2;

verus! {

/// A rectangular grid of cells, stored as an ndarray two-dimensional array.
#[verifier::external_body]
pub struct Grid {
    cells: Array2<Cell>,
}

/// The cells of a grid, in row-major order.
pub uninterp spec fn grid_cells(g: Grid) -> Seq<Cell>;

/// The shape of a grid: (rows, columns).
pub uninterp spec fn grid_shape(g: Grid) -> (nat, nat);

/// Relies on ndarray's `Array2::from_shape_vec`: with the default (row-major)
/// layout and a non-empty shape whose size is the vector's length, it
/// succeeds (a non-empty vector never holds more than `isize::MAX` elements)
/// and keeps the vector's elements in order.
#[verifier::external_body]
pub(crate) fn grid_from_vec(rows: usize, cols: usize, cells: Vec<Cell>) -> (r: Option<Grid>)
    ensures
        rows > 0 && cols > 0 && rows * cols == cells@.len() ==> r is Some,
        r matches Some(g) ==> grid_cells(g) == cells@ && grid_shape(g) == (rows as nat, cols as nat),
{
    Array2::from_shape_vec((rows, cols), cells).ok().map(|a| Grid { cells: a })
}

/// Relies on ndarray's `ArrayBase::dim`: the shape as (rows, columns).
#[verifier::external_body]
fn grid_dim(g: &Grid) -> (r: (usize, usize))
    ensures
        r.0 as nat == grid_shape(*g).0,
        r.1 as nat == grid_shape(*g).1,
{
    g.cells.dim()
}

/// Relies on ndarray's indexing by `[row, col]`: in bounds, it reads the
/// element at `row * cols + col` of a row-major array.
#[verifier::external_body]
fn grid_get(g: &Grid, row: usize, col: usize) -> (r: Cell)
    requires
        row < grid_shape(*g).0,
        col < grid_shape(*g).1,
    ensures
        r == grid_cells(*g)[row * grid_shape(*g).1 + col],
{
    g.cells[[row, col]]
}

/// Relies on ndarray's mutable indexing by `[row, col]`: in bounds, it
/// replaces the element at `row * cols + col` and keeps the shape.
#[verifier::external_body]
fn grid_set(g: &mut Grid, row: usize, col: usize, c: Cell)
    requires
        row < grid_shape(*old(g)).0,
        col < grid_shape(*old(g)).1,
    ensures
        grid_shape(*final(g)) == grid_shape(*old(g)),
        grid_cells(*final(g)) == grid_cells(*old(g)).update(row * grid_shape(*old(g)).1 + col, c),
{
    g.cells[[row, col]] = c;
}

/// Relies on ndarray's `Clone` for owned arrays: same shape, same elements.
#[verifier::external_body]
fn grid_clone(g: &Grid) -> (r: Grid)
    ensures
        grid_shape(r) == grid_shape(*g),
        grid_cells(r) == grid_cells(*g),
{
    Grid { cells: g.cells.clone() }
}

/// A (row, column) position on a grid.
#[derive(Debug, Clone, Copy, PartialEq, Eq, Hash, Structural)]
pub struct Coord(pub usize, pub usize);

impl Coord {
    pub open spec fn row(self) -> int {
        self.0 as int
    }

    pub open spec fn col(self) -> int {
        self.1 as int
    }

    pub fn new(pos: (usize, usize)) -> (r: Coord)
        ensures
            r.0 == pos.0,
            r.1 == pos.1,
    {
        Coord(pos.0, pos.1)
    }
}

/// Cells that area effects leave alone.
pub open spec fn immune(c: Cell) -> bool {
    c == Cell::MetalWall || c == Cell::Water
}

/// The offset (rows, columns) of the `k`-th cell of a blast, `k < 9`: the
/// 3x3 block is walked column by column, top to bottom.
pub open spec fn blast_offset(k: int) -> (int, int) {
    (k % 3 - 1, k / 3 - 1)
}

/// One level: its grid, where the player starts and where the player is.
pub struct Level {
    pub name: String,
    pub author: String,
    pub number: usize,
    pub map: Grid,
    pub start_pos: Coord,
    pub player_pos: Coord,
}

impl Level {
    pub open spec fn rows(&self) -> nat {
        grid_shape(self.map).0
    }

    pub open spec fn cols(&self) -> nat {
        grid_shape(self.map).1
    }

    pub open spec fn cells(&self) -> Seq<Cell> {
        grid_cells(self.map)
    }

    pub open spec fn in_bounds(&self, c: Coord) -> bool {
        c.row() < self.rows() && c.col() < self.cols()
    }

    pub open spec fn index_of(&self, c: Coord) -> int {
        c.row() * self.cols() + c.col()
    }

    /// The cell at a position.
    pub open spec fn at(&self, c: Coord) -> Cell {
        self.cells()[self.index_of(c)]
    }

    /// The grid holds rows times columns cells, its sides fit in `usize`,
    /// and both positions lie on it.
    pub open spec fn wf(&self) -> bool {
        &&& self.cells().len() == self.rows() * self.cols()
        &&& self.rows() <= usize::MAX
        &&& self.cols() <= usize::MAX
        &&& self.in_bounds(self.start_pos)
        &&& self.in_bounds(self.player_pos)
    }

    pub open spec fn neighbor_of(&self, c: Coord, delta: (int, int)) -> Option<Coord> {
        let j = c.row() + delta.0;
        let i = c.col() + delta.1;
        if 0 <= j < self.rows() && 0 <= i < self.cols() {
            Some(Coord(j as usize, i as usize))
        } else {
            None
        }
    }

    /// The cells hit by an explosion at `c`, over the first `k` cells of the block.
    pub open spec fn blast_upto(&self, c: Coord, k: nat) -> Seq<Coord>
        decreases k,
    {
        if k == 0 {
            seq![]
        } else {
            let prev = self.blast_upto(c, (k - 1) as nat);
            match self.neighbor_of(c, blast_offset(k - 1)) {
                Some(n) => if immune(self.at(n)) {
                    prev
                } else {
                    prev.push(n)
                },
                None => prev,
            }
        }
    }

    /// The cells hit by an explosion at `c`.
    pub open spec fn blast(&self, c: Coord) -> Seq<Coord> {
        self.blast_upto(c, 9)
    }

    /// A copy of the level with the same grid, names, number and positions.
    pub fn clone_level(&self) -> (r: Level)
        ensures
            r.name == self.name,
            r.author == self.author,
            r.number == self.number,
            r.rows() == self.rows(),
            r.cols() == self.cols(),
            r.cells() == self.cells(),
            r.start_pos == self.start_pos,
            r.player_pos == self.player_pos,
    {
        Level {
            name: self.name.clone(),
            author: self.author.clone(),
            number: self.number,
            map: grid_clone(&self.map),
            start_pos: self.start_pos,
            player_pos: self.player_pos,
        }
    }

    /// Number of rows and of columns.
    pub fn dim(&self) -> (r: (usize, usize))
        ensures
            r.0 == self.rows(),
            r.1 == self.cols(),
    {
        grid_dim(&self.map)
    }

    /// The cell at a position on the grid.
    pub fn cell(&self, c: Coord) -> (r: Cell)
        requires
            self.in_bounds(c),
        ensures
            r == self.at(c),
    {
        grid_get(&self.map, c.0, c.1)
    }

    /// The position one step `delta` away from `c`, if it lies on the grid.
    pub fn neighbor(&self, c: Coord, delta: (isize, isize)) -> (r: Option<Coord>)
        ensures
            r == self.neighbor_of(c, (delta.0 as int, delta.1 as int)),
    {
        self.offset(c, delta.0 as i128, delta.1 as i128)
    }

    pub(crate) fn offset(&self, c: Coord, dr: i128, dc: i128) -> (r: Option<Coord>)
        requires
            -0x1_0000_0000_0000_0000 < dr < 0x1_0000_0000_0000_0000,
            -0x1_0000_0000_0000_0000 < dc < 0x1_0000_0000_0000_0000,
        ensures
            r == self.neighbor_of(c, (dr as int, dc as int)),
    {
        let (height, width) = grid_dim(&self.map);
        let j: i128 = c.0 as i128 + dr;
        let i: i128 = c.1 as i128 + dc;
        if j < 0 || i < 0 || j >= height as i128 || i >= width as i128 {
            return None;
        }
        Some(Coord::new((j as usize, i as usize)))
    }

    /// Replaces the cell at a position on the grid.
    pub(crate) fn set_cell(&mut self, c: Coord, v: Cell)
        requires
            old(self).wf(),
            old(self).in_bounds(c),
        ensures
            final(self).wf(),
            final(self).cells() == old(self).cells().update(old(self).index_of(c), v),
            final(self).rows() == old(self).rows(),
            final(self).cols() == old(self).cols(),
            final(self).name == old(self).name,
            final(self).author == old(self).author,
            final(self).number == old(self).number,
            final(self).start_pos == old(self).start_pos,
            final(self).player_pos == old(self).player_pos,
    {
        proof {
            lemma_index_in_grid(c.row(), c.col(), self.rows() as int, self.cols() as int);
        }
        grid_set(&mut self.map, c.0, c.1, v);
    }

    /// The cells an explosion at `c` reaches: the 3x3 block around `c`
    /// clipped to the grid, without metal walls and water.
    pub fn explode_cells(&self, c: Coord) -> (r: Vec<Coord>)
        requires
            self.wf(),
        ensures
            r@ == self.blast(c),
    {
        let mut r: Vec<Coord> = Vec::new();
        let mut k: usize = 0;
        while k < 9
            invariant
                k <= 9,
                self.wf(),
                r@ == self.blast_upto(c, k as nat),
            decreases 9 - k,
        {
            let dr: isize = (k % 3) as isize - 1;
            let dc: isize = (k / 3) as isize - 1;
            if let Some(n) = self.neighbor(c, (dr, dc)) {
                proof {
                    lemma_index_in_grid(n.row(), n.col(), self.rows() as int, self.cols() as int);
                }
                let cell = self.cell(n);
                if cell != Cell::MetalWall && cell != Cell::Water {
                    r.push(n);
                }
            }
            k = k + 1;
        }
        r
    }
}

/// A position on the grid indexes a cell of it.
pub proof fn lemma_index_in_grid(r: int, c: int, h: int, w: int)
    requires
        0 <= r < h,
        0 <= c < w,
    ensures
        0 <= r * w + c < h * w,
{
    assert(0 <= r * w + c < h * w) by (nonlinear_arith)
        requires
            0 <= r < h,
            0 <= c < w,
    ;
}

/// Two positions on a grid `w` wide share a cell only if they are equal.
pub proof fn lemma_index_injective(r1: int, c1: int, r2: int, c2: int, w: int)
    requires
        0 <= c1 < w,
        0 <= c2 < w,
        0 <= r1,
        0 <= r2,
        r1 * w + c1 == r2 * w + c2,
    ensures
        r1 == r2 && c1 == c2,
{
    assert(r1 == r2) by (nonlinear_arith)
        requires
            0 <= c1 < w,
            0 <= c2 < w,
            0 <= r1,
            0 <= r2,
            r1 * w + c1 == r2 * w + c2,
    ;
}

pub proof fn lemma_blast_upto_contains(lv: Level, c: Coord, k: nat, n: Coord)
    ensures
        lv.blast_upto(c, k).contains(n) <==> exists|t: int|
            0 <= t < k && lv.neighbor_of(c, #[trigger] blast_offset(t)) == Some(n) && !immune(lv.at(n)),
    decreases k,
{
    if k > 0 {
        lemma_blast_upto_contains(lv, c, (k - 1) as nat, n);
        let prev = lv.blast_upto(c, (k - 1) as nat);
        let cur = lv.blast_upto(c, k);
        if prev.contains(n) {
            let i = choose|i: int| 0 <= i < prev.len() && prev[i] == n;
            assert(cur[i] == n);
        }
        if cur.contains(n) && !prev.contains(n) {
            let i = choose|i: int| 0 <= i < cur.len() && cur[i] == n;
            assert(i == prev.len());
        }
        if lv.neighbor_of(c, blast_offset(k - 1)) == Some(n) && !immune(lv.at(n)) {
            assert(cur[prev.len() as int] == n);
        }
    }
}

/// The cells an explosion at `c` reaches are exactly those of the 3x3 block
/// around `c` that lie on the grid and are neither metal walls nor water.
pub proof fn lemma_blast_members(lv: Level, c: Coord, n: Coord)
    requires
        lv.wf(),
    ensures
        lv.blast(c).contains(n) <==> (lv.in_bounds(n) && -1 <= n.row() - c.row() <= 1 && -1 <= n.col()
            - c.col() <= 1 && !immune(lv.at(n))),
{
    lemma_blast_upto_contains(lv, c, 9, n);
    let dr = n.row() - c.row();
    let dc = n.col() - c.col();
    if lv.in_bounds(n) && -1 <= dr <= 1 && -1 <= dc <= 1 && !immune(lv.at(n)) {
        let t = (dr + 1) + 3 * (dc + 1);
        assert(blast_offset(t) == (dr, dc));
        assert(lv.neighbor_of(c, blast_offset(t)) == Some(n));
    }
    if lv.blast(c).contains(n) {
        let t = choose|t: int|
            0 <= t < 9 && lv.neighbor_of(c, #[trigger] blast_offset(t)) == Some(n) && !immune(lv.at(n));
        assert(-1 <= blast_offset(t).0 <= 1 && -1 <= blast_offset(t).1 <= 1);
    }
}

} // verus!
