//! Map cells and the tile grid.
//!
//! A grid is a rectangular `Vec` of columns, indexed `[x][y]`. Every cell is
//! either floor (passable, transparent) or wall (blocked, sight-blocking),
//! and carries a persistent `explored` mark that is set once a cell has ever
//! been visible.

use vstd::prelude::*;

verus! {

/// One map cell: whether it blocks movement, whether it blocks sight, and
/// whether it has ever been seen.
#[derive(Clone, Copy, Debug, PartialEq, Eq, Structural)]
pub struct Tile {
    pub blocked: bool,
    pub block_sight: bool,
    pub explored: bool,
}

impl Tile {
    /// A floor cell: passable and transparent, not yet explored.
    pub fn empty() -> (t: Tile)
        ensures
            t == (Tile { blocked: false, block_sight: false, explored: false }),
    {
        Tile { blocked: false, block_sight: false, explored: false }
    }

    /// A wall cell: impassable and sight-blocking, not yet explored.
    pub fn wall() -> (t: Tile)
        ensures
            t == (Tile { blocked: true, block_sight: true, explored: false }),
    {
        Tile { blocked: true, block_sight: true, explored: false }
    }
}

/// The tile grid, a column-major rectangle: `grid[x][y]` is the cell at
/// column `x`, row `y`.
pub type TileGrid = Vec<Vec<Tile>>;

/// The floor tile value.
pub open spec fn empty_tile() -> Tile {
    Tile { blocked: false, block_sight: false, explored: false }
}

/// The wall tile value.
pub open spec fn wall_tile() -> Tile {
    Tile { blocked: true, block_sight: true, explored: false }
}

/// The grid as a sequence of columns of cells.
pub open spec fn grid_view(g: Vec<Vec<Tile>>) -> Seq<Seq<Tile>> {
    Seq::new(g@.len(), |x: int| g@[x]@)
}

/// The width of a grid: its number of columns.
pub open spec fn gw(g: Seq<Seq<Tile>>) -> int {
    g.len() as int
}

/// The height of a grid: the number of cells in its first column.
pub open spec fn gh(g: Seq<Seq<Tile>>) -> int {
    g[0].len() as int
}

/// The grid is a nonempty rectangle, with both dimensions small enough
/// that squared distances between cells fit comfortably in `i64`.
pub open spec fn grid_wf(g: Seq<Seq<Tile>>) -> bool {
    &&& 0 < gw(g) <= 4096
    &&& 0 < gh(g) <= 4096
    &&& forall|x: int| 0 <= x < gw(g) ==> (#[trigger] g[x]).len() == gh(g)
}

/// The cell (x, y) lies on the grid.
pub open spec fn in_bounds(g: Seq<Seq<Tile>>, x: int, y: int) -> bool {
    0 <= x < gw(g) && 0 <= y < gh(g)
}

/// The cell of the grid at column `x`, row `y`.
pub open spec fn cell(g: Seq<Seq<Tile>>, x: int, y: int) -> Tile {
    g[x][y]
}

/// A fixed test arena: open floor with two wall pillars, at (30, 22) and
/// (50, 22).
pub fn make_map(height: usize, width: usize) -> (m: TileGrid)
    requires
        50 < width <= 4096,
        22 < height <= 4096,
    ensures
        grid_wf(grid_view(m)),
        gw(grid_view(m)) == width,
        gh(grid_view(m)) == height,
        forall|x: int, y: int|
            0 <= x < width && 0 <= y < height ==> #[trigger] cell(grid_view(m), x, y) == if (x
                == 30 && y == 22) || (x == 50 && y == 22) {
                wall_tile()
            } else {
                empty_tile()
            },
{
    let mut map: TileGrid = Vec::new();
    while map.len() < width
        invariant
            map@.len() <= width,
            22 < height <= 4096,
            forall|i: int| 0 <= i < map@.len() ==> (#[trigger] grid_view(map)[i]).len() == height,
            forall|cx: int, cy: int|
                0 <= cx < map@.len() && 0 <= cy < height ==> #[trigger] cell(grid_view(map), cx, cy)
                    == empty_tile(),
        decreases width - map@.len(),
    {
        let mut col: Vec<Tile> = Vec::new();
        while col.len() < height
            invariant
                col@.len() <= height,
                forall|cy: int| 0 <= cy < col@.len() ==> #[trigger] col@[cy] == empty_tile(),
            decreases height - col@.len(),
        {
            col.push(Tile::empty());
        }
        let ghost gv0: Seq<Seq<Tile>> = grid_view(map);
        let ghost m0: Seq<Vec<Tile>> = map@;
        let ghost colv: Seq<Tile> = col@;
        map.push(col);
        proof {
            assert forall|cx: int, cy: int|
                0 <= cx < map@.len() && 0 <= cy < height implies #[trigger] cell(
                grid_view(map),
                cx,
                cy,
            ) == empty_tile() by {
                assert(grid_view(map)[cx] == map@[cx]@);
                if cx < m0.len() {
                    assert(map@[cx] == m0[cx]);
                    assert(gv0[cx] == m0[cx]@);
                    assert(cell(gv0, cx, cy) == empty_tile());
                } else {
                    assert(map@[cx]@ == colv);
                }
            }
            assert forall|i: int|
                0 <= i < map@.len() implies (#[trigger] grid_view(map)[i]).len() == height by {
                assert(grid_view(map)[i] == map@[i]@);
                if i < m0.len() {
                    assert(map@[i] == m0[i]);
                    assert(gv0[i] == m0[i]@);
                } else {
                    assert(map@[i]@ == colv);
                }
            }
        }
    }

    let ghost g1: Seq<Seq<Tile>> = grid_view(map);
    crate::mapgen::set_tile(&mut map, 30, 22, Tile::wall());
    let ghost g2: Seq<Seq<Tile>> = grid_view(map);
    crate::mapgen::set_tile(&mut map, 50, 22, Tile::wall());
    proof {
        assert forall|x: int, y: int|
            0 <= x < width && 0 <= y < height implies #[trigger] cell(grid_view(map), x, y) == (
        if (x == 30 && y == 22) || (x == 50 && y == 22) {
            wall_tile()
        } else {
            empty_tile()
        }) by {
            if x == 50 {
                assert(grid_view(map)[x] == g2[x].update(22, Tile { blocked: true, block_sight: true, explored: false }));
                assert(g2[x] == g1[x]);
                if y != 22 {
                    assert(cell(grid_view(map), x, y) == cell(g1, x, y));
                }
            } else if x == 30 {
                assert(grid_view(map)[x] == g2[x]);
                assert(g2[x] == g1[x].update(22, Tile { blocked: true, block_sight: true, explored: false }));
                if y != 22 {
                    assert(cell(grid_view(map), x, y) == cell(g1, x, y));
                }
            } else {
                assert(grid_view(map)[x] == g2[x]);
                assert(g2[x] == g1[x]);
                assert(cell(grid_view(map), x, y) == cell(g1, x, y));
            }
        }
    }
    map
}

} // verus!
