use vstd::prelude::*;

use crate::map::{GameMap, TileType};
use crate::map_builders::BuilderMap;
use crate::rng::roll_dice;

verus! {

/// Side of a cell: up.
pub const TOP: usize = 0;
/// Side of a cell: right.
pub const RIGHT: usize = 1;
/// Side of a cell: down.
pub const BOTTOM: usize = 2;
/// Side of a cell: left.
pub const LEFT: usize = 3;

/// One cell of the maze grid: where it is, which of its four sides are walled, and whether
/// the carver has been there.
#[derive(Copy, Clone, Debug)]
pub struct Cell {
    pub row: i32,
    pub col: i32,
    pub walls: [bool; 4],
    pub visited: bool,
}

/// The side of `a` that faces `b`: left or right when their columns differ by one (the
/// column is looked at first), else top or bottom when their rows differ by one; `-1`
/// when they are not so placed.
pub open spec fn side_toward(a: Cell, b: Cell) -> int {
    let x = a.col - b.col;
    let y = a.row - b.row;
    if x == 1 {
        LEFT as int
    } else if x == -1 {
        RIGHT as int
    } else if y == 1 {
        TOP as int
    } else if y == -1 {
        BOTTOM as int
    } else {
        -1
    }
}

/// The side across from side `s`.
pub open spec fn opposite(s: int) -> int {
    (s + 2) % 4
}

impl Cell {
    /// A cell at `(row, col)` with all four walls standing, not yet visited.
    pub fn new(row: i32, col: i32) -> (c: Cell)
        ensures
            c.row == row,
            c.col == col,
            c.walls@ == seq![true, true, true, true],
            !c.visited,
    {
        let c = Cell { row, col, walls: [true, true, true, true], visited: false };
        assert(c.walls@ =~= seq![true, true, true, true]);
        c
    }

    /// Opens the wall between this cell and `next`: the side of each that faces the other.
    /// Cells that are not placed side by side keep their walls.
    pub fn remove_walls(&mut self, next: &mut Cell)
        requires
            old(self).col - old(next).col == 1 || old(self).col - old(next).col == -1 || old(self).col - old(next).col == 0,
            old(self).row - old(next).row == 1 || old(self).row - old(next).row == -1 || old(self).row - old(next).row == 0,
        ensures
            final(self).row == old(self).row,
            final(self).col == old(self).col,
            final(self).visited == old(self).visited,
            final(next).row == old(next).row,
            final(next).col == old(next).col,
            final(next).visited == old(next).visited,
            side_toward(*old(self), *old(next)) == -1 ==> final(self).walls@ == old(self).walls@ && final(next).walls@ == old(next).walls@,
            side_toward(*old(self), *old(next)) != -1 ==> {
                &&& final(self).walls@ == old(self).walls@.update(side_toward(*old(self), *old(next)), false)
                &&& final(next).walls@ == old(next).walls@.update(opposite(side_toward(*old(self), *old(next))), false)
            },
    {
        let x = self.col - next.col;
        let y = self.row - next.row;
        if x == 1 {
            self.walls[LEFT] = false;
            next.walls[RIGHT] = false;
        } else if x == -1 {
            self.walls[RIGHT] = false;
            next.walls[LEFT] = false;
        } else if y == 1 {
            self.walls[TOP] = false;
            next.walls[BOTTOM] = false;
        } else if y == -1 {
            self.walls[BOTTOM] = false;
            next.walls[TOP] = false;
        }
    }
}

/// The index of the cell at `(row, col)` in a grid `w` cells wide and `h` high, stored row
/// by row; `-1` off the grid.
pub open spec fn cell_index(w: int, h: int, row: int, col: int) -> int {
    if row < 0 || col < 0 || col > w - 1 || row > h - 1 {
        -1
    } else {
        row * w + col
    }
}

/// The index of the neighbour of `c` on side `k` (up, right, down, left), or `-1`.
pub open spec fn neighbour_index(w: int, h: int, c: Cell, k: int) -> int {
    if k == 0 {
        cell_index(w, h, c.row - 1, c.col as int)
    } else if k == 1 {
        cell_index(w, h, c.row as int, c.col + 1)
    } else if k == 2 {
        cell_index(w, h, c.row + 1, c.col as int)
    } else {
        cell_index(w, h, c.row as int, c.col - 1)
    }
}

/// The indices of the unvisited neighbours of cell `i` among its first `k` sides, in the
/// order up, right, down, left.
pub open spec fn available(cells: Seq<Cell>, w: int, h: int, i: int, k: nat) -> Seq<usize>
    decreases k,
{
    if k == 0 {
        seq![]
    } else {
        let prev = available(cells, w, h, i, (k - 1) as nat);
        let j = neighbour_index(w, h, cells[i], k - 1);
        if j != -1 && !cells[j].visited {
            prev.push(j as usize)
        } else {
            prev
        }
    }
}

/// Cell `i` has a neighbour that is not visited yet.
pub open spec fn has_unvisited_neighbour(cells: Seq<Cell>, w: int, h: int, i: int) -> bool {
    exists|k: int| #![trigger neighbour_index(w, h, cells[i], k)]
        0 <= k < 4 && neighbour_index(w, h, cells[i], k) != -1 && !cells[neighbour_index(w, h, cells[i], k)].visited
}

/// The cells of a `w` by `h` grid, row by row, each knowing its own place.
pub open spec fn cells_wf(cells: Seq<Cell>, w: int, h: int) -> bool {
    &&& 0 < w
    &&& 0 < h
    &&& cells.len() == w * h
    &&& forall|i: int| #![trigger cells[i]] 0 <= i < cells.len() ==> {
        &&& 0 <= cells[i].row < h
        &&& 0 <= cells[i].col < w
        &&& cells[i].row * w + cells[i].col == i
    }
}

/// The number of cells not yet visited.
pub open spec fn unvisited_count(cells: Seq<Cell>) -> nat
    decreases cells.len(),
{
    if cells.len() == 0 {
        0
    } else {
        unvisited_count(cells.drop_last()) + if cells.last().visited {
            0nat
        } else {
            1nat
        }
    }
}

/// Every visited cell has only visited neighbours.
pub open spec fn closed(cells: Seq<Cell>, w: int, h: int) -> bool {
    forall|i: int| #![trigger cells[i]] 0 <= i < cells.len() && cells[i].visited ==> !has_unvisited_neighbour(cells, w, h, i)
}

/// Cell `c` of a maze whose grid starts at map tile `(2, 2)` makes tile `(x, y)` floor:
/// its own tile, and the tile beside it on each side whose wall is open.
pub open spec fn carves(c: Cell, x: int, y: int) -> bool {
    let cx = (c.col + 1) * 2;
    let cy = (c.row + 1) * 2;
    ||| x == cx && y == cy
    ||| x == cx && y == cy - 1 && !c.walls@[0]
    ||| x == cx + 1 && y == cy && !c.walls@[1]
    ||| x == cx && y == cy + 1 && !c.walls@[2]
    ||| x == cx - 1 && y == cy && !c.walls@[3]
}

/// The tile that the maze in `cells` puts at `(x, y)`.
pub open spec fn maze_tile(cells: Seq<Cell>, x: int, y: int) -> TileType {
    if exists|i: int| 0 <= i < cells.len() && carves(#[trigger] cells[i], x, y) {
        TileType::Floor
    } else {
        TileType::Wall
    }
}

/// The map shows the maze in `cells` and nothing else.
pub open spec fn shows_maze(map: GameMap, cells: Seq<Cell>) -> bool {
    forall|x: int, y: int| #![trigger map.tile(x, y)] map.on_map(x, y) ==> map.tile(x, y) == maze_tile(cells, x, y)
}

proof fn lemma_index_unique(w: int, r1: int, c1: int, r2: int, c2: int)
    by (nonlinear_arith)
    requires
        0 <= c1 < w,
        0 <= c2 < w,
        r1 * w + c1 == r2 * w + c2,
    ensures
        r1 == r2,
        c1 == c2,
{
}

proof fn lemma_index_bound(w: int, h: int, r: int, c: int)
    by (nonlinear_arith)
    requires
        0 <= r < h,
        0 <= c < w,
    ensures
        0 <= r * w + c < w * h,
{
}

/// A cell at `(r, c)` of a well-formed grid sits at index `r * w + c`.
proof fn lemma_cell_at(cells: Seq<Cell>, w: int, h: int, r: int, c: int)
    requires
        cells_wf(cells, w, h),
        0 <= r < h,
        0 <= c < w,
    ensures
        0 <= r * w + c < cells.len(),
        cells[r * w + c].row == r,
        cells[r * w + c].col == c,
{
    lemma_index_bound(w, h, r, c);
    let i = r * w + c;
    assert(cells[i].row * w + cells[i].col == i);
    lemma_index_unique(w, cells[i].row as int, cells[i].col as int, r, c);
}

proof fn lemma_neighbour_in_grid(cells: Seq<Cell>, w: int, h: int, i: int, k: int)
    requires
        cells_wf(cells, w, h),
        0 <= i < cells.len(),
        neighbour_index(w, h, cells[i], k) != -1,
    ensures
        0 <= neighbour_index(w, h, cells[i], k) < cells.len(),
{
    let c = cells[i];
    if k == 0 {
        lemma_index_bound(w, h, c.row - 1, c.col as int);
    } else if k == 1 {
        lemma_index_bound(w, h, c.row as int, c.col + 1);
    } else if k == 2 {
        lemma_index_bound(w, h, c.row + 1, c.col as int);
    } else {
        lemma_index_bound(w, h, c.row as int, c.col - 1);
    }
}

proof fn lemma_walk_row(cells: Seq<Cell>, w: int, h: int, r: int, c0: int, c: int)
    requires
        cells_wf(cells, w, h),
        closed(cells, w, h),
        0 <= r < h,
        0 <= c0 < w,
        0 <= c < w,
        cells[r * w + c0].visited,
    ensures
        cells[r * w + c].visited,
    decreases if c > c0 { c - c0 } else { c0 - c },
{
    if c > c0 {
        lemma_walk_row(cells, w, h, r, c0, c - 1);
        lemma_cell_at(cells, w, h, r, c - 1);
        let i = r * w + (c - 1);
        assert(!has_unvisited_neighbour(cells, w, h, i));
        assert(neighbour_index(w, h, cells[i], 1) == r * w + c);
    } else if c < c0 {
        lemma_walk_row(cells, w, h, r, c0, c + 1);
        lemma_cell_at(cells, w, h, r, c + 1);
        let i = r * w + (c + 1);
        assert(!has_unvisited_neighbour(cells, w, h, i));
        assert(neighbour_index(w, h, cells[i], 3) == r * w + c);
    }
}

proof fn lemma_walk_col(cells: Seq<Cell>, w: int, h: int, c: int, r0: int, r: int)
    requires
        cells_wf(cells, w, h),
        closed(cells, w, h),
        0 <= c < w,
        0 <= r0 < h,
        0 <= r < h,
        cells[r0 * w + c].visited,
    ensures
        cells[r * w + c].visited,
    decreases if r > r0 { r - r0 } else { r0 - r },
{
    if r > r0 {
        lemma_walk_col(cells, w, h, c, r0, r - 1);
        lemma_cell_at(cells, w, h, r - 1, c);
        let i = (r - 1) * w + c;
        assert(!has_unvisited_neighbour(cells, w, h, i));
        assert(neighbour_index(w, h, cells[i], 2) == r * w + c);
    } else if r < r0 {
        lemma_walk_col(cells, w, h, c, r0, r + 1);
        lemma_cell_at(cells, w, h, r + 1, c);
        let i = (r + 1) * w + c;
        assert(!has_unvisited_neighbour(cells, w, h, i));
        assert(neighbour_index(w, h, cells[i], 0) == r * w + c);
    }
}

/// On a grid, a set of visited cells that is closed under moving to a neighbour and holds
/// one cell holds every cell.
pub proof fn lemma_closed_visits_all(cells: Seq<Cell>, w: int, h: int, i0: int)
    requires
        cells_wf(cells, w, h),
        closed(cells, w, h),
        0 <= i0 < cells.len(),
        cells[i0].visited,
    ensures
        forall|j: int| 0 <= j < cells.len() ==> (#[trigger] cells[j]).visited,
{
    let r0 = cells[i0].row as int;
    let c0 = cells[i0].col as int;
    assert forall|j: int| 0 <= j < cells.len() implies (#[trigger] cells[j]).visited by {
        let r = cells[j].row as int;
        let c = cells[j].col as int;
        lemma_walk_row(cells, w, h, r0, c0, c);
        lemma_walk_col(cells, w, h, c, r0, r);
    }
}

proof fn lemma_unvisited_update(cells: Seq<Cell>, i: int, v: Cell)
    requires
        0 <= i < cells.len(),
    ensures
        unvisited_count(cells.update(i, v)) + (if cells[i].visited { 0int } else { 1int })
            == unvisited_count(cells) + (if v.visited { 0int } else { 1int }),
    decreases cells.len(),
{
    let s = cells.update(i, v);
    if i == cells.len() - 1 {
        assert(s.drop_last() =~= cells.drop_last());
    } else {
        lemma_unvisited_update(cells.drop_last(), i, v);
        assert(s.drop_last() =~= cells.drop_last().update(i, v));
    }
}

proof fn lemma_available_empty(cells: Seq<Cell>, w: int, h: int, i: int)
    ensures
        available(cells, w, h, i, 4).len() == 0 <==> !has_unvisited_neighbour(cells, w, h, i),
{
    reveal_with_fuel(available, 5);
    if available(cells, w, h, i, 4).len() == 0 {
        assert forall|k: int| 0 <= k < 4 implies !(neighbour_index(w, h, cells[i], k) != -1
            && !cells[neighbour_index(w, h, cells[i], k)].visited) by {
            if k == 0 {
            } else if k == 1 {
            } else if k == 2 {
            } else {
                assert(available(cells, w, h, i, 3).len() == 0);
            }
        }
    } else {
        let a1 = available(cells, w, h, i, 1);
        let a2 = available(cells, w, h, i, 2);
        let a3 = available(cells, w, h, i, 3);
        if a1.len() > 0 {
            assert(neighbour_index(w, h, cells[i], 0) != -1);
        } else if a2.len() > 0 {
            assert(neighbour_index(w, h, cells[i], 1) != -1);
        } else if a3.len() > 0 {
            assert(neighbour_index(w, h, cells[i], 2) != -1);
        } else {
            assert(neighbour_index(w, h, cells[i], 3) != -1);
        }
    }
}

proof fn lemma_available_members(cells: Seq<Cell>, w: int, h: int, i: int, k: nat)
    requires
        cells_wf(cells, w, h),
        0 <= i < cells.len(),
        cells.len() <= usize::MAX,
        k <= 4,
    ensures
        forall|m: int| 0 <= m < available(cells, w, h, i, k).len() ==> {
            let j = #[trigger] available(cells, w, h, i, k)[m] as int;
            &&& 0 <= j < cells.len()
            &&& !cells[j].visited
            &&& exists|q: int| 0 <= q < 4 && neighbour_index(w, h, cells[i], q) == j
        },
        available(cells, w, h, i, k).len() <= k,
    decreases k,
{
    if k > 0 {
        lemma_available_members(cells, w, h, i, (k - 1) as nat);
        let j = neighbour_index(w, h, cells[i], k - 1);
        if j != -1 {
            lemma_neighbour_in_grid(cells, w, h, i, k - 1);
        }
        let a = available(cells, w, h, i, k);
        let p = available(cells, w, h, i, (k - 1) as nat);
        assert forall|m: int| 0 <= m < a.len() implies {
            let j2 = #[trigger] a[m] as int;
            exists|q: int| 0 <= q < 4 && neighbour_index(w, h, cells[i], q) == j2
        } by {
            if m < p.len() {
                assert(a[m] == p[m]);
            } else {
                assert(neighbour_index(w, h, cells[i], k - 1) == a[m] as int);
            }
        }
    }
}

/// The neighbour on side `k` of a cell lies one row or one column away from it.
proof fn lemma_neighbour_cell(cells: Seq<Cell>, w: int, h: int, i: int, k: int)
    requires
        cells_wf(cells, w, h),
        0 <= i < cells.len(),
        0 <= k < 4,
        neighbour_index(w, h, cells[i], k) != -1,
    ensures
        ({
            let n = cells[neighbour_index(w, h, cells[i], k)];
            &&& -1 <= n.row - cells[i].row <= 1
            &&& -1 <= n.col - cells[i].col <= 1
        }),
{
    let c = cells[i];
    if k == 0 {
        lemma_cell_at(cells, w, h, c.row - 1, c.col as int);
    } else if k == 1 {
        lemma_cell_at(cells, w, h, c.row as int, c.col + 1);
    } else if k == 2 {
        lemma_cell_at(cells, w, h, c.row + 1, c.col as int);
    } else {
        lemma_cell_at(cells, w, h, c.row as int, c.col - 1);
    }
}

/// Visiting more cells, and changing walls, leaves a cell with no more unvisited
/// neighbours than before.
proof fn lemma_more_visited(old_cells: Seq<Cell>, new_cells: Seq<Cell>, w: int, h: int, i: int)
    requires
        old_cells.len() == new_cells.len(),
        forall|j: int| 0 <= j < old_cells.len() ==> {
            &&& (#[trigger] new_cells[j]).row == old_cells[j].row
            &&& new_cells[j].col == old_cells[j].col
            &&& (old_cells[j].visited ==> new_cells[j].visited)
        },
        0 <= i < old_cells.len(),
        cells_wf(old_cells, w, h),
        has_unvisited_neighbour(new_cells, w, h, i),
    ensures
        has_unvisited_neighbour(old_cells, w, h, i),
{
    let k = choose|k: int| #![trigger neighbour_index(w, h, new_cells[i], k)]
        0 <= k < 4 && neighbour_index(w, h, new_cells[i], k) != -1 && !new_cells[neighbour_index(w, h, new_cells[i], k)].visited;
    assert(new_cells[i].row == old_cells[i].row && new_cells[i].col == old_cells[i].col);
    assert(neighbour_index(w, h, new_cells[i], k) == neighbour_index(w, h, old_cells[i], k));
    lemma_neighbour_in_grid(old_cells, w, h, i, k);
}

proof fn lemma_unvisited_all(cells: Seq<Cell>)
    requires
        forall|i: int| 0 <= i < cells.len() ==> !(#[trigger] cells[i]).visited,
    ensures
        unvisited_count(cells) == cells.len(),
    decreases cells.len(),
{
    if cells.len() > 0 {
        lemma_unvisited_all(cells.drop_last());
    }
}

/// Every visited cell that still has an unvisited neighbour is the current cell or lies
/// on the way back.
pub open spec fn frontier_tracked(cells: Seq<Cell>, w: int, h: int, current: int, backtrace: Seq<usize>) -> bool {
    forall|i: int| #![trigger cells[i]]
        0 <= i < cells.len() && cells[i].visited && has_unvisited_neighbour(cells, w, h, i)
            ==> i == current || backtrace.contains(i as usize)
}

/// The carving grid of the maze builder: the cells, the path back through the cells
/// carved so far, and the cell being worked on.
pub struct Grid {
    pub width: i32,
    pub height: i32,
    pub cells: Vec<Cell>,
    pub backtrace: Vec<usize>,
    pub current: usize,
}

impl Grid {
    /// The cells form a `width` by `height` grid, and the current cell and the cells on the
    /// way back lie on it.
    pub open spec fn wf(&self) -> bool {
        &&& cells_wf(self.cells@, self.width as int, self.height as int)
        &&& self.width <= 10_000
        &&& self.height <= 10_000
        &&& self.current < self.cells@.len()
        &&& forall|k: int| 0 <= k < self.backtrace@.len() ==> #[trigger] self.backtrace@[k] < self.cells@.len()
    }

    /// A `width` by `height` grid of walled, unvisited cells, with the first cell current.
    pub fn new(width: i32, height: i32) -> (g: Grid)
        requires
            0 < width <= 10_000,
            0 < height <= 10_000,
        ensures
            g.wf(),
            g.width == width,
            g.height == height,
            g.current == 0,
            g.backtrace@.len() == 0,
            forall|i: int| 0 <= i < g.cells@.len() ==> {
                &&& !(#[trigger] g.cells@[i]).visited
                &&& g.cells@[i].walls@ == seq![true, true, true, true]
            },
    {
        let mut cells: Vec<Cell> = Vec::new();
        let mut row: i32 = 0;
        while row < height
            invariant
                0 < width <= 10_000,
                0 < height <= 10_000,
                0 <= row <= height,
                cells@.len() == row * width,
                forall|i: int| #![trigger cells@[i]] 0 <= i < cells@.len() ==> {
                    &&& 0 <= cells@[i].row < row
                    &&& 0 <= cells@[i].col < width
                    &&& cells@[i].row * width + cells@[i].col == i
                    &&& !cells@[i].visited
                    &&& cells@[i].walls@ == seq![true, true, true, true]
                },
            decreases height - row,
        {
            let mut col: i32 = 0;
            while col < width
                invariant
                    0 < width <= 10_000,
                    0 < height <= 10_000,
                    0 <= row < height,
                    0 <= col <= width,
                    cells@.len() == row * width + col,
                    forall|i: int| #![trigger cells@[i]] 0 <= i < cells@.len() ==> {
                        &&& 0 <= cells@[i].row <= row
                        &&& 0 <= cells@[i].col < width
                        &&& cells@[i].row * width + cells@[i].col == i
                        &&& !cells@[i].visited
                        &&& cells@[i].walls@ == seq![true, true, true, true]
                    },
                decreases width - col,
            {
                cells.push(Cell::new(row, col));
                col = col + 1;
            }
            assert((row + 1) * width == row * width + width) by (nonlinear_arith);
            row = row + 1;
        }
        assert(height * width == width * height && width * height > 0) by (nonlinear_arith)
            requires
                0 < width,
                0 < height,
        ;
        Grid { width, height, cells, backtrace: Vec::new(), current: 0 }
    }

    /// The index of the cell at `(row, col)`, or `-1` when that is off the grid.
    pub fn calculate_index(&self, row: i32, col: i32) -> (idx: i32)
        requires
            self.wf(),
            -1 <= row <= self.height,
            -1 <= col <= self.width,
        ensures
            idx == cell_index(self.width as int, self.height as int, row as int, col as int),
    {
        if row < 0 || col < 0 || col > self.width - 1 || row > self.height - 1 {
            -1
        } else {
            proof {
                lemma_index_bound(self.width as int, self.height as int, row as int, col as int);
                assert(self.width * self.height <= 100_000_000) by (nonlinear_arith)
                    requires
                        0 < self.width <= 10_000,
                        0 < self.height <= 10_000,
                ;
            }
            col + (row * self.width)
        }
    }

    /// The unvisited neighbours of the current cell, in the order up, right, down, left.
    pub fn get_available_neighbors(&self) -> (neighbors: Vec<usize>)
        requires
            self.wf(),
        ensures
            neighbors@ == available(self.cells@, self.width as int, self.height as int, self.current as int, 4),
    {
        let ghost w = self.width as int;
        let ghost h = self.height as int;
        let mut neighbors: Vec<usize> = Vec::new();
        let current_row = self.cells[self.current].row;
        let current_col = self.cells[self.current].col;
        let neighbor_indices: [i32; 4] = [
            self.calculate_index(current_row - 1, current_col),
            self.calculate_index(current_row, current_col + 1),
            self.calculate_index(current_row + 1, current_col),
            self.calculate_index(current_row, current_col - 1),
        ];
        let mut k: usize = 0;
        while k < 4
            invariant
                self.wf(),
                w == self.width,
                h == self.height,
                k <= 4,
                forall|m: int| 0 <= m < 4 ==> neighbor_indices@[m] == neighbour_index(w, h, self.cells@[self.current as int], m),
                neighbors@ == available(self.cells@, w, h, self.current as int, k as nat),
            decreases 4 - k,
        {
            let i = neighbor_indices[k];
            if i != -1 {
                proof {
                    lemma_neighbour_in_grid(self.cells@, w, h, self.current as int, k as int);
                }
                if !self.cells[i as usize].visited {
                    neighbors.push(i as usize);
                }
            }
            k = k + 1;
        }
        neighbors
    }

    /// Picks an unvisited neighbour of the current cell, at random when there are several;
    /// `None` when there is none.
    pub fn find_next_cell(&self, rng: &mut bracket_lib::random::RandomNumberGenerator) -> (next: Option<usize>)
        requires
            self.wf(),
        ensures
            available(self.cells@, self.width as int, self.height as int, self.current as int, 4).len() == 0 <==> next is None,
            next is Some ==> available(self.cells@, self.width as int, self.height as int, self.current as int, 4).contains(next->0),
    {
        let neighbors = self.get_available_neighbors();
        proof {
            assert(self.width * self.height <= 100_000_000) by (nonlinear_arith)
                requires
                    0 < self.width <= 10_000,
                    0 < self.height <= 10_000,
            ;
            lemma_available_members(self.cells@, self.width as int, self.height as int, self.current as int, 4);
        }
        if neighbors.len() != 0 {
            if neighbors.len() == 1 {
                assert(neighbors@.contains(neighbors@[0]));
                Some(neighbors[0])
            } else {
                let roll = roll_dice(rng, 1, neighbors.len() as i32);
                let pick = neighbors[(roll - 1) as usize];
                assert(neighbors@.contains(neighbors@[roll - 1]));
                Some(pick)
            }
        } else {
            None
        }
    }

    /// Draws the maze on the map: every tile wall, then each cell's tile and the tiles
    /// through its open walls floor. Cell `(row, col)` sits at tile `(2 col + 2, 2 row + 2)`.
    pub fn copy_to_map(&self, map: &mut GameMap)
        requires
            self.wf(),
            old(map).wf(),
            2 * self.width + 3 <= old(map).width,
            2 * self.height + 3 <= old(map).height,
        ensures
            final(map).wf(),
            final(map).same_frame(*old(map)),
            shows_maze(*final(map), self.cells@),
    {
        let ghost m0 = *map;
        let w = map.width;
        let h = map.height;
        let mut x: i32 = 0;
        while x < w
            invariant
                map.wf(),
                map.same_frame(m0),
                w == map.width,
                h == map.height,
                0 <= x <= w,
                forall|a: int, b: int| #![trigger map.tile(a, b)] 0 <= a < x && 0 <= b < h ==> map.tile(a, b) == TileType::Wall,
            decreases w - x,
        {
            let mut y: i32 = 0;
            while y < h
                invariant
                    map.wf(),
                    map.same_frame(m0),
                    w == map.width,
                    h == map.height,
                    0 <= x < w,
                    0 <= y <= h,
                    forall|a: int, b: int| #![trigger map.tile(a, b)] 0 <= a < w && 0 <= b < h && (a < x || (a == x && b < y)) ==> map.tile(a, b) == TileType::Wall,
                decreases h - y,
            {
                map.set_tile(x as usize, y as usize, TileType::Wall);
                y = y + 1;
            }
            x = x + 1;
        }
        let ghost cells = self.cells@;
        let mut i: usize = 0;
        while i < self.cells.len()
            invariant
                self.wf(),
                cells == self.cells@,
                map.wf(),
                map.same_frame(m0),
                w == map.width,
                h == map.height,
                2 * self.width + 3 <= w,
                2 * self.height + 3 <= h,
                i <= cells.len(),
                forall|a: int, b: int| #![trigger map.tile(a, b)] 0 <= a < w && 0 <= b < h ==> map.tile(a, b) == maze_tile(cells.subrange(0, i as int), a, b),
            decreases cells.len() - i,
        {
            let cell = self.cells[i];
            let cx = ((cell.col + 1) * 2) as usize;
            let cy = ((cell.row + 1) * 2) as usize;
            let ghost before = *map;
            map.set_tile(cx, cy, TileType::Floor);
            if !cell.walls[TOP] {
                map.set_tile(cx, cy - 1, TileType::Floor);
            }
            if !cell.walls[RIGHT] {
                map.set_tile(cx + 1, cy, TileType::Floor);
            }
            if !cell.walls[BOTTOM] {
                map.set_tile(cx, cy + 1, TileType::Floor);
            }
            if !cell.walls[LEFT] {
                map.set_tile(cx - 1, cy, TileType::Floor);
            }
            proof {
                let prev = cells.subrange(0, i as int);
                let next = cells.subrange(0, i + 1);
                assert forall|a: int, b: int| #![trigger map.tile(a, b)] 0 <= a < w && 0 <= b < h implies map.tile(a, b) == maze_tile(next, a, b) by {
                    assert(before.tile(a, b) == maze_tile(prev, a, b));
                    assert(next[i as int] == cell);
                    if carves(cell, a, b) {
                        assert(map.tile(a, b) == TileType::Floor);
                        assert(carves(next[i as int], a, b));
                    } else {
                        assert(map.tile(a, b) == before.tile(a, b));
                        if exists|j: int| 0 <= j < next.len() && carves(#[trigger] next[j], a, b) {
                            let j = choose|j: int| 0 <= j < next.len() && carves(#[trigger] next[j], a, b);
                            assert(prev[j] == next[j]);
                        }
                        if exists|j: int| 0 <= j < prev.len() && carves(#[trigger] prev[j], a, b) {
                            let j = choose|j: int| 0 <= j < prev.len() && carves(#[trigger] prev[j], a, b);
                            assert(prev[j] == next[j]);
                        }
                    }
                }
            }
            i = i + 1;
        }
        assert(cells.subrange(0, cells.len() as int) =~= cells);
    }

    /// Carves the maze: from the current cell, move to a random unvisited neighbour and open
    /// the wall between them, remembering the cell left; when there is none, go back to the
    /// oldest remembered cell; stop when nothing is left to go back to. The map shows the
    /// maze after every step. Every cell ends up visited.
    pub fn generate_maze(&mut self, rng: &mut bracket_lib::random::RandomNumberGenerator, build_data: &mut BuilderMap)
        requires
            old(self).wf(),
            old(self).backtrace@.len() == 0,
            forall|i: int| 0 <= i < old(self).cells@.len() ==> !(#[trigger] old(self).cells@[i]).visited,
            old(build_data).wf(),
            2 * old(self).width + 3 <= old(build_data).map.width,
            2 * old(self).height + 3 <= old(build_data).map.height,
        ensures
            final(self).wf(),
            final(self).width == old(self).width,
            final(self).height == old(self).height,
            forall|i: int| 0 <= i < final(self).cells@.len() ==> (#[trigger] final(self).cells@[i]).visited,
            final(build_data).wf(),
            final(build_data).same_but_tiles(*old(build_data)),
            shows_maze(final(build_data).map, final(self).cells@),
    {
        let ghost b0 = *build_data;
        let ghost w = self.width as int;
        let ghost h = self.height as int;
        let ghost n = self.cells@.len();
        proof {
            lemma_unvisited_all(self.cells@);
            assert(self.width * self.height <= 100_000_000) by (nonlinear_arith)
                requires
                    0 < self.width <= 10_000,
                    0 < self.height <= 10_000,
            ;
        }
        let mut i: usize = 0;
        loop
            invariant_except_break
                i + 2 * unvisited_count(self.cells@) + self.backtrace@.len() <= 2 * n,
            invariant
                self.wf(),
                w == self.width,
                h == self.height,
                n == self.cells@.len(),
                n <= 100_000_000,
                build_data.wf(),
                build_data.same_but_tiles(b0),
                2 * w + 3 <= build_data.map.width,
                2 * h + 3 <= build_data.map.height,
                frontier_tracked(self.cells@, w, h, self.current as int, self.backtrace@),
            ensures
                self.wf(),
                w == self.width,
                h == self.height,
                forall|j: int| 0 <= j < self.cells@.len() ==> (#[trigger] self.cells@[j]).visited,
                build_data.wf(),
                build_data.same_but_tiles(b0),
                shows_maze(build_data.map, self.cells@),
            decreases 2 * unvisited_count(self.cells@) + self.backtrace@.len(),
        {
            let ghost cells0 = self.cells@;
            let ghost measure0 = 2 * unvisited_count(cells0) + self.backtrace@.len();
            let cur = self.current;
            let mut c = self.cells[cur];
            c.visited = true;
            self.cells.set(cur, c);
            let ghost cells1 = self.cells@;
            proof {
                lemma_unvisited_update(cells0, cur as int, c);
                assert forall|j: int| 0 <= j < cells0.len() implies {
                    &&& (#[trigger] cells1[j]).row == cells0[j].row
                    &&& cells1[j].col == cells0[j].col
                    &&& (cells0[j].visited ==> cells1[j].visited)
                } by {}
                assert forall|j: int| #![trigger cells1[j]]
                    0 <= j < cells1.len() && cells1[j].visited && has_unvisited_neighbour(cells1, w, h, j)
                        implies j == cur || self.backtrace@.contains(j as usize) by {
                    lemma_more_visited(cells0, cells1, w, h, j);
                    assert(cells0[j] == cells1[j] || j == cur);
                }
            }
            let next = self.find_next_cell(rng);
            let mut done = false;
            match next {
                Some(nx) => {
                    proof {
                        lemma_available_members(cells1, w, h, cur as int, 4);
                        let m = choose|m: int| 0 <= m < available(cells1, w, h, cur as int, 4).len()
                            && available(cells1, w, h, cur as int, 4)[m] == nx;
                        assert(available(cells1, w, h, cur as int, 4)[m] == nx);
                        let q = choose|q: int| 0 <= q < 4 && neighbour_index(w, h, cells1[cur as int], q) == nx as int;
                        lemma_neighbour_cell(cells1, w, h, cur as int, q);
                    }
                    let mut b = self.cells[nx];
                    b.visited = true;
                    self.cells.set(nx, b);
                    let ghost cells2 = self.cells@;
                    let ghost bt1 = self.backtrace@;
                    self.backtrace.push(cur);
                    let mut a = self.cells[cur];
                    let mut b2 = self.cells[nx];
                    a.remove_walls(&mut b2);
                    self.cells.set(cur, a);
                    self.cells.set(nx, b2);
                    self.current = nx;
                    proof {
                        let cells3 = self.cells@;
                        lemma_unvisited_update(cells1, nx as int, b);
                        lemma_unvisited_update(cells2, cur as int, a);
                        lemma_unvisited_update(cells2.update(cur as int, a), nx as int, b2);
                        assert(cells3 == cells2.update(cur as int, a).update(nx as int, b2));
                        assert forall|j: int| 0 <= j < cells1.len() implies {
                            &&& (#[trigger] cells3[j]).row == cells1[j].row
                            &&& cells3[j].col == cells1[j].col
                            &&& (cells1[j].visited ==> cells3[j].visited)
                        } by {}
                        assert forall|j: int| #![trigger cells3[j]]
                            0 <= j < cells3.len() && cells3[j].visited && has_unvisited_neighbour(cells3, w, h, j)
                                implies j == nx || self.backtrace@.contains(j as usize) by {
                            if j != nx {
                                lemma_more_visited(cells1, cells3, w, h, j);
                                if j == cur {
                                    assert(self.backtrace@[self.backtrace@.len() - 1] == cur);
                                } else {
                                    assert(cells1[j] == cells3[j]);
                                    assert(bt1.contains(j as usize));
                                    let t = choose|t: int| 0 <= t < bt1.len() && bt1[t] == j as usize;
                                    assert(self.backtrace@[t] == bt1[t]);
                                }
                            }
                        }
                        assert forall|j: int| 0 <= j < cells3.len() implies {
                            &&& 0 <= (#[trigger] cells3[j]).row < h
                            &&& 0 <= cells3[j].col < w
                            &&& cells3[j].row * w + cells3[j].col == j
                        } by {
                            assert(cells3[j].row == cells1[j].row && cells3[j].col == cells1[j].col);
                        }
                    }
                },
                None => {
                    proof {
                        lemma_available_empty(cells1, w, h, cur as int);
                    }
                    if self.backtrace.len() > 0 {
                        let ghost bt0 = self.backtrace@;
                        let back = self.backtrace.remove(0);
                        self.current = back;
                        proof {
                            assert forall|j: int| #![trigger cells1[j]]
                                0 <= j < cells1.len() && cells1[j].visited && has_unvisited_neighbour(cells1, w, h, j)
                                    implies j == back || self.backtrace@.contains(j as usize) by {
                                let t = choose|t: int| 0 <= t < bt0.len() && bt0[t] == j as usize;
                                if t > 0 {
                                    assert(self.backtrace@[t - 1] == bt0[t]);
                                }
                            }
                        }
                    } else {
                        done = true;
                        proof {
                            assert forall|j: int| #![trigger cells1[j]]
                                0 <= j < cells1.len() && cells1[j].visited implies !has_unvisited_neighbour(cells1, w, h, j) by {
                                if has_unvisited_neighbour(cells1, w, h, j) {
                                    assert(j == cur || self.backtrace@.contains(j as usize));
                                }
                            }
                            assert(closed(cells1, w, h));
                        }
                    }
                },
            }
            self.copy_to_map(&mut build_data.map);
            if i % 50 == 0 {
                build_data.take_snapshot();
            }
            i = i + 1;
            if done {
                proof {
                    lemma_closed_visits_all(self.cells@, w, h, cur as int);
                }
                break;
            }
        }
    }
}

/// Builds a maze over the whole map: cells two tiles apart, joined by carving.
pub struct MazeBuilder {}

impl MazeBuilder {
    /// A maze builder.
    pub fn new() -> (b: Box<MazeBuilder>) {
        Box::new(MazeBuilder {})
    }

    /// Carves a maze of `(width / 2 - 2)` by `(height / 2 - 2)` cells into the map: each
    /// cell is visited once the carving is done, and the map shows exactly that maze.
    pub fn build(&mut self, rng: &mut bracket_lib::random::RandomNumberGenerator, build_data: &mut BuilderMap)
        requires
            old(build_data).wf(),
            old(build_data).map.width >= 6,
            old(build_data).map.height >= 6,
        ensures
            final(build_data).wf(),
            final(build_data).same_but_tiles(*old(build_data)),
            exists|cells: Seq<Cell>| {
                &&& cells_wf(cells, old(build_data).map.width / 2 - 2, old(build_data).map.height / 2 - 2)
                &&& forall|i: int| 0 <= i < cells.len() ==> (#[trigger] cells[i]).visited
                &&& shows_maze(final(build_data).map, cells)
            },
    {
        let mut grid = Grid::new((build_data.map.width / 2) - 2, (build_data.map.height / 2) - 2);
        grid.generate_maze(rng, build_data);
    }
}

} // verus!
