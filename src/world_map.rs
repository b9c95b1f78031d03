//! The wall grid of a level and the queries that collision runs on.
use crate::geometry::{Rect, Vec2};
use crate::tile::{
    collider_overlap, colliders_meet, inside_tile, lemma_wall_rects_inside_tile, rects_wf, translate,
    wall_rects, Collider, Ground, Wall, TILE_SIZE,
};
use vstd::prelude::*;

verus! {

/// Largest number of rows, and of cells in a row, of a grid.
pub const MAX_CELLS: usize = 0x10_0000;

/// Side of the square that every wall of a grid lies in.
pub const GRID_EXTENT: i64 = 0x10_0000 * TILE_SIZE;

pub struct WorldMap {
    pub ground: Vec<Vec<Ground>>,
    pub walls: Vec<Vec<Option<Wall>>>,
    pub width: u32,
    pub height: u32,
}

/// World position of the top-left corner of cell `(x, y)`.
pub open spec fn cell_origin(x: int, y: int) -> Vec2 {
    Vec2 { x: (x * TILE_SIZE) as i64, y: (y * TILE_SIZE) as i64 }
}

/// The world-space collider of a cell: empty where the cell has no wall.
pub open spec fn cell_rects(cell: Option<Wall>, x: int, y: int) -> Seq<Rect> {
    match cell {
        Some(w) => translate(wall_rects(w), cell_origin(x, y)),
        None => seq![],
    }
}

/// The wall rectangles of cells `0..x` of row `y`, in order.
pub open spec fn row_rects(row: Seq<Option<Wall>>, y: int, x: int) -> Seq<Rect>
    decreases x,
{
    if x <= 0 {
        seq![]
    } else {
        row_rects(row, y, x - 1) + cell_rects(row[x - 1], x - 1, y)
    }
}

/// The wall rectangles of rows `0..y`, row by row.
pub open spec fn grid_rects_upto(walls: Seq<Seq<Option<Wall>>>, y: int) -> Seq<Rect>
    decreases y,
{
    if y <= 0 {
        seq![]
    } else {
        grid_rects_upto(walls, y - 1) + row_rects(walls[y - 1], y - 1, walls[y - 1].len() as int)
    }
}

/// Every wall rectangle of the grid in world space, in row-major cell order.
pub open spec fn grid_rects(walls: Seq<Seq<Option<Wall>>>) -> Seq<Rect> {
    grid_rects_upto(walls, walls.len() as int)
}

/// A rectangle inside the square that holds every grid.
pub open spec fn in_grid_extent(r: Rect) -> bool {
    0 <= r.x && r.x + r.width <= GRID_EXTENT && 0 <= r.y && r.y + r.height <= GRID_EXTENT
        && r.width >= 0 && r.height >= 0
}

pub open spec fn all_in_grid_extent(s: Seq<Rect>) -> bool {
    forall|i: int| 0 <= i < s.len() ==> in_grid_extent(#[trigger] s[i])
}

/// The rectangles of a wall at cell `(x, y)` lie in the cell's square.
pub proof fn lemma_cell_rects_in_cell(w: Wall, x: int, y: int)
    requires
        0 <= x < MAX_CELLS,
        0 <= y < MAX_CELLS,
    ensures
        forall|i: int|
            0 <= i < cell_rects(Some(w), x, y).len() ==> {
                let r = #[trigger] cell_rects(Some(w), x, y)[i];
                &&& x * TILE_SIZE <= r.x
                &&& r.x + r.width <= (x + 1) * TILE_SIZE
                &&& y * TILE_SIZE <= r.y
                &&& r.y + r.height <= (y + 1) * TILE_SIZE
                &&& r.width >= 0
                &&& r.height >= 0
                &&& r.wf()
                &&& in_grid_extent(r)
            },
{
    lemma_wall_rects_inside_tile(w);
    assert(TILE_SIZE == 32000);
    assert(0 <= x * 32000 <= 0xF_FFFF * 32000) by (nonlinear_arith)
        requires 0 <= x < 0x10_0000;
    assert(0 <= y * 32000 <= 0xF_FFFF * 32000) by (nonlinear_arith)
        requires 0 <= y < 0x10_0000;
    assert((x + 1) * TILE_SIZE == x * TILE_SIZE + TILE_SIZE) by (nonlinear_arith);
    assert((y + 1) * TILE_SIZE == y * TILE_SIZE + TILE_SIZE) by (nonlinear_arith);
    let o = cell_origin(x, y);
    assert(o.x == x * TILE_SIZE && o.y == y * TILE_SIZE);
    assert forall|i: int| 0 <= i < wall_rects(w).len() implies {
        let r = #[trigger] cell_rects(Some(w), x, y)[i];
        &&& r.x == wall_rects(w)[i].x + x * TILE_SIZE
        &&& r.y == wall_rects(w)[i].y + y * TILE_SIZE
        &&& r.width == wall_rects(w)[i].width
        &&& r.height == wall_rects(w)[i].height
    } by {
        assert(inside_tile(wall_rects(w)[i]));
    }
}

impl WorldMap {
    pub open spec fn wall_grid(&self) -> Seq<Seq<Option<Wall>>> {
        self.walls@.map_values(|row: Vec<Option<Wall>>| row@)
    }

    /// The grid is small enough for every wall to lie in the coordinate range.
    pub open spec fn wf(&self) -> bool {
        &&& self.walls.len() <= MAX_CELLS
        &&& forall|y: int| 0 <= y < self.walls.len() ==> #[trigger] self.walls@[y].len() <= MAX_CELLS
    }

    pub open spec fn wall_at(&self, x: int, y: int) -> Option<Wall> {
        if 0 <= y < self.walls.len() && 0 <= x < self.walls@[y].len() {
            self.walls@[y]@[x]
        } else {
            None
        }
    }

    /// The world-space collider of cell `(x, y)`: empty where the cell holds
    /// no wall or lies outside the grid.
    pub fn wall_collider_at(&self, x: usize, y: usize) -> (r: Collider)
        requires
            self.wf(),
        ensures
            r.rects@ == cell_rects(self.wall_at(x as int, y as int), x as int, y as int),
            r.wf(),
            all_in_grid_extent(r.rects@),
    {
        if y < self.walls.len() && x < self.walls[y].len() {
            match self.walls[y][x] {
                Some(wall) => {
                    proof {
                        lemma_cell_rects_in_cell(wall, x as int, y as int);
                        assert(self.walls@[y as int].len() <= MAX_CELLS);
                    }
                    let origin = Vec2 { x: (x as i64) * TILE_SIZE, y: (y as i64) * TILE_SIZE };
                    let local = wall.get_collider();
                    proof {
                        lemma_wall_rects_inside_tile(wall);
                        assert forall|i: int| 0 <= i < local.rects@.len() implies (
                        #[trigger] local.rects@[i]).wf() by {
                            assert(inside_tile(wall_rects(wall)[i]));
                        }
                    }
                    local.with_pos(origin)
                },
                None => Collider { rects: Vec::new() },
            }
        } else {
            Collider { rects: Vec::new() }
        }
    }

    /// Every wall rectangle of the grid in world space, in row-major cell order.
    pub fn wall_rects(&self) -> (r: Vec<Rect>)
        requires
            self.wf(),
        ensures
            r@ == grid_rects(self.wall_grid()),
            rects_wf(r@),
            all_in_grid_extent(r@),
    {
        let ghost grid = self.wall_grid();
        let mut out: Vec<Rect> = Vec::new();
        let mut y: usize = 0;
        while y < self.walls.len()
            invariant
                self.wf(),
                grid == self.wall_grid(),
                0 <= y <= self.walls.len(),
                out@ == grid_rects_upto(grid, y as int),
                rects_wf(out@),
                all_in_grid_extent(out@),
            decreases self.walls.len() - y,
        {
            let row = &self.walls[y];
            assert(row@ == grid[y as int]);
            let mut x: usize = 0;
            while x < row.len()
                invariant
                    self.wf(),
                    grid == self.wall_grid(),
                    0 <= y < self.walls.len(),
                    row@ == grid[y as int],
                    0 <= x <= row.len(),
                    out@ == grid_rects_upto(grid, y as int) + row_rects(grid[y as int], y as int, x as int),
                    rects_wf(out@),
                    all_in_grid_extent(out@),
                decreases row.len() - x,
            {
                let cell = self.wall_collider_at(x, y);
                assert(self.wall_at(x as int, y as int) == row@[x as int]);
                let mut k: usize = 0;
                let ghost before = out@;
                while k < cell.rects.len()
                    invariant
                        cell.wf(),
                        all_in_grid_extent(cell.rects@),
                        0 <= k <= cell.rects.len(),
                        out@ == before + cell.rects@.take(k as int),
                        rects_wf(out@),
                        all_in_grid_extent(out@),
                    decreases cell.rects.len() - k,
                {
                    out.push(cell.rects[k]);
                    assert(out@ =~= before + cell.rects@.take(k as int + 1));
                    k += 1;
                }
                assert(cell.rects@.take(k as int) =~= cell.rects@);
                assert(out@ =~= grid_rects_upto(grid, y as int) + row_rects(grid[y as int], y as int, x as int + 1));
                x += 1;
            }
            y += 1;
        }
        out
    }

    /// The first overlap between a wall of the grid and the collider, walls
    /// taken in row-major cell order; `None` where no wall meets it.
    pub fn collides_with_wall(&self, collider: &Collider) -> (r: Option<Rect>)
        requires
            self.wf(),
            collider.wf(),
        ensures
            r == collider_overlap(grid_rects(self.wall_grid()), collider.rects@),
            r is Some <==> colliders_meet(grid_rects(self.wall_grid()), collider.rects@),
    {
        let walls = Collider { rects: self.wall_rects() };
        walls.collides(collider)
    }
}

} // verus!
