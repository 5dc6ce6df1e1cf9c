//! The visibility engine.
//!
//! A cell is visible from an origin when it lies within the radius and the
//! discrete line from the origin to it — the ray of repeated one-cell
//! steps toward the target — meets no sight-blocking cell on the way.
//! Whether the visible area's bounding walls count as seen is decided by
//! `light_walls`. Recomputing visibility marks every visible cell as
//! explored, permanently.

use vstd::prelude::*;

use crate::mapgen::imax;
use crate::mapgen::same_dims;
use crate::mapgen::set_tile;
use crate::object::step_coord;
use crate::tile::Tile;
use crate::tile::TileGrid;
use crate::tile::cell;
use crate::tile::gh;
use crate::tile::grid_view;
use crate::tile::grid_wf;
use crate::tile::gw;
use crate::tile::in_bounds;

verus! {

/// The absolute value.
pub open spec fn iabs(a: int) -> int {
    if a >= 0 {
        a
    } else {
        -a
    }
}

/// The squared Euclidean distance between two cells.
pub open spec fn dist2(ax: int, ay: int, bx: int, by: int) -> int {
    (bx - ax) * (bx - ax) + (by - ay) * (by - ay)
}

/// One step of the ray strictly shrinks the larger coordinate offset, and
/// never grows either offset.
pub proof fn lemma_step_decreases(dx: int, dy: int)
    requires
        !(dx == 0 && dy == 0),
    ensures
        imax(iabs(dx - step_coord(dx, dy)), iabs(dy - step_coord(dy, dx))) < imax(
            iabs(dx),
            iabs(dy),
        ),
        iabs(dx - step_coord(dx, dy)) <= iabs(dx),
        iabs(dy - step_coord(dy, dx)) <= iabs(dy),
{
    if iabs(dx) >= iabs(dy) {
        assert(dx != 0);
        assert(3 * dx * dx >= dy * dy) by (nonlinear_arith)
            requires
                iabs(dx) >= iabs(dy),
        ;
        assert(step_coord(dx, dy) == if dx > 0 {
            1int
        } else {
            -1int
        });
        if iabs(dy) == iabs(dx) {
            assert(dy != 0);
            assert(3 * dy * dy >= dx * dx) by (nonlinear_arith)
                requires
                    iabs(dy) >= iabs(dx),
            ;
        }
    } else {
        assert(dy != 0);
        assert(3 * dy * dy >= dx * dx) by (nonlinear_arith)
            requires
                iabs(dy) >= iabs(dx),
        ;
        assert(step_coord(dy, dx) == if dy > 0 {
            1int
        } else {
            -1int
        });
    }
}

/// The discrete line from (x, y) to (tx, ty) meets no sight-blocking cell
/// strictly between its endpoints: each step moves one cell toward the
/// target (the rounded unit vector), and every cell entered before the
/// target must be transparent.
pub open spec fn ray_clear(g: Seq<Seq<Tile>>, x: int, y: int, tx: int, ty: int) -> bool
    decreases imax(iabs(tx - x), iabs(ty - y)),
    via ray_clear_decreases
{
    if x == tx && y == ty {
        true
    } else {
        let nx = x + step_coord(tx - x, ty - y);
        let ny = y + step_coord(ty - y, tx - x);
        ((nx == tx && ny == ty) || !g[nx][ny].block_sight) && ray_clear(g, nx, ny, tx, ty)
    }
}

#[via_fn]
proof fn ray_clear_decreases(g: Seq<Seq<Tile>>, x: int, y: int, tx: int, ty: int) {
    if !(x == tx && y == ty) {
        lemma_step_decreases(tx - x, ty - y);
    }
}

/// The cell (tx, ty) is visible from (ox, oy): it lies on the grid within
/// the radius, the ray to it is unobstructed, and — unless walls are lit —
/// it is not itself a sight-blocking cell.
pub open spec fn spec_visible(
    g: Seq<Seq<Tile>>,
    ox: int,
    oy: int,
    tx: int,
    ty: int,
    radius: int,
    light_walls: bool,
) -> bool {
    &&& in_bounds(g, tx, ty)
    &&& dist2(ox, oy, tx, ty) <= radius * radius
    &&& ray_clear(g, ox, oy, tx, ty)
    &&& (light_walls || !g[tx][ty].block_sight)
}

/// Visibility is symmetric in the mutually unobstructed case: two cells
/// within the radius whose connecting rays are both clear (and which are
/// both lit, if walls stay dark) see each other.
pub proof fn lemma_visibility_symmetric(
    g: Seq<Seq<Tile>>,
    ax: int,
    ay: int,
    bx: int,
    by: int,
    radius: int,
    light_walls: bool,
)
    requires
        in_bounds(g, ax, ay),
        in_bounds(g, bx, by),
        ray_clear(g, ax, ay, bx, by),
        ray_clear(g, bx, by, ax, ay),
        dist2(ax, ay, bx, by) <= radius * radius,
        light_walls || (!g[ax][ay].block_sight && !g[bx][by].block_sight),
    ensures
        spec_visible(g, ax, ay, bx, by, radius, light_walls),
        spec_visible(g, bx, by, ax, ay, radius, light_walls),
{
    assert(dist2(bx, by, ax, ay) == dist2(ax, ay, bx, by)) by (nonlinear_arith);
}

/// Walk the ray from (x, y) to (tx, ty) and report whether it is clear.
fn ray_clear_exec(map: &TileGrid, x: i32, y: i32, tx: i32, ty: i32) -> (b: bool)
    requires
        grid_wf(grid_view(*map)),
        in_bounds(grid_view(*map), x as int, y as int),
        in_bounds(grid_view(*map), tx as int, ty as int),
    ensures
        b == ray_clear(grid_view(*map), x as int, y as int, tx as int, ty as int),
    decreases imax(iabs(tx - x), iabs(ty - y)),
{
    if x == tx && y == ty {
        return true;
    }
    let dx: i64 = tx as i64 - x as i64;
    let dy: i64 = ty as i64 - y as i64;
    proof {
        assert(0 <= 3 * dx * dx <= 603979776 && 0 <= 3 * dy * dy <= 603979776 && 0 <= dx * dx
            <= 201326592 && 0 <= dy * dy <= 201326592) by (nonlinear_arith)
            requires
                -8192 <= dx <= 8192,
                -8192 <= dy <= 8192,
        ;
        lemma_step_decreases(dx as int, dy as int);
    }
    let sx: i32 = if 3 * dx * dx >= dy * dy {
        if dx > 0 {
            1
        } else if dx < 0 {
            -1
        } else {
            0
        }
    } else {
        0
    };
    let sy: i32 = if 3 * dy * dy >= dx * dx {
        if dy > 0 {
            1
        } else if dy < 0 {
            -1
        } else {
            0
        }
    } else {
        0
    };
    let nx: i32 = x + sx;
    let ny: i32 = y + sy;
    let pass: bool = (nx == tx && ny == ty) || {
        proof {
            assert(grid_view(*map)[nx as int] == map@[nx as int]@);
        }
        !map[nx as usize][ny as usize].block_sight
    };
    if pass {
        ray_clear_exec(map, nx, ny, tx, ty)
    } else {
        false
    }
}

/// The set of currently visible cells, as one flag per grid cell.
pub struct Fov {
    pub cells: Vec<Vec<bool>>,
}

/// The visibility flags as a sequence of columns.
pub open spec fn fov_view(f: Fov) -> Seq<Seq<bool>> {
    Seq::new(f.cells@.len(), |x: int| f.cells@[x]@)
}

impl Fov {
    /// The flags form a rectangle matching the grid `g`.
    pub open spec fn matches(self, g: Seq<Seq<Tile>>) -> bool {
        &&& fov_view(self).len() == gw(g)
        &&& forall|x: int|
            0 <= x < gw(g) ==> (#[trigger] fov_view(self)[x]).len() == gh(g)
    }

    /// The flag stored for cell (x, y); false off the grid.
    pub open spec fn spec_in_fov(self, x: int, y: int) -> bool {
        &&& 0 <= x < fov_view(self).len()
        &&& 0 <= y < fov_view(self)[x].len()
        &&& fov_view(self)[x][y]
    }

    /// Whether the cell (x, y) is currently visible; cells off the grid
    /// are not.
    pub fn is_in_fov(&self, x: i32, y: i32) -> (b: bool)
        ensures
            b == self.spec_in_fov(x as int, y as int),
    {
        if x < 0 || y < 0 {
            return false;
        }
        let xu = x as usize;
        let yu = y as usize;
        if xu >= self.cells.len() {
            return false;
        }
        proof {
            assert(fov_view(*self)[x as int] == self.cells@[x as int]@);
        }
        if yu >= self.cells[xu].len() {
            return false;
        }
        self.cells[xu][yu]
    }
}

/// Compute the set of cells visible from (ox, oy) within `radius` against
/// the grid's sight-blocking flags, and mark every visible cell explored.
/// A cell's `explored` flag, once set, is never cleared again.
pub fn compute_fov(map: &mut TileGrid, ox: i32, oy: i32, radius: i32, light_walls: bool) -> (f:
    Fov)
    requires
        grid_wf(grid_view(*old(map))),
        in_bounds(grid_view(*old(map)), ox as int, oy as int),
    ensures
        f.matches(grid_view(*old(map))),
        forall|x: int, y: int|
            0 <= x < gw(grid_view(*old(map))) && 0 <= y < gh(grid_view(*old(map)))
                ==> #[trigger] fov_view(f)[x][y] == spec_visible(
                grid_view(*old(map)),
                ox as int,
                oy as int,
                x,
                y,
                radius as int,
                light_walls,
            ),
        same_dims(grid_view(*old(map)), grid_view(*final(map))),
        forall|x: int, y: int|
            0 <= x < gw(grid_view(*old(map))) && 0 <= y < gh(grid_view(*old(map)))
                ==> #[trigger] cell(grid_view(*final(map)), x, y) == (Tile {
                explored: cell(grid_view(*old(map)), x, y).explored || fov_view(f)[x][y],
                ..cell(grid_view(*old(map)), x, y)
            }),
        forall|x: int, y: int|
            0 <= x < gw(grid_view(*old(map))) && 0 <= y < gh(grid_view(*old(map))) && cell(
                grid_view(*old(map)),
                x,
                y,
            ).explored ==> #[trigger] cell(grid_view(*final(map)), x, y).explored,
{
    let ghost g: Seq<Seq<Tile>> = grid_view(*map);
    let width: usize = map.len();
    let height: usize = map[0].len();

    let mut cells: Vec<Vec<bool>> = Vec::new();
    let mut x: usize = 0;
    while x < width
        invariant
            grid_wf(g),
            g == grid_view(*map),
            width == gw(g),
            height == gh(g),
            in_bounds(g, ox as int, oy as int),
            x == cells@.len() <= width,
            forall|cx: int, cy: int|
                0 <= cx < cells@.len() && 0 <= cy < height ==> #[trigger] cells@[cx]@[cy]
                    == spec_visible(g, ox as int, oy as int, cx, cy, radius as int, light_walls),
            forall|cx: int| 0 <= cx < cells@.len() ==> (#[trigger] cells@[cx]@).len() == height,
        decreases width - x,
    {
        let mut col: Vec<bool> = Vec::new();
        let mut y: usize = 0;
        while y < height
            invariant
                grid_wf(g),
                g == grid_view(*map),
                width == gw(g),
                height == gh(g),
                in_bounds(g, ox as int, oy as int),
                x < width,
                y == col@.len() <= height,
                forall|cy: int|
                    0 <= cy < col@.len() ==> #[trigger] col@[cy] == spec_visible(
                        g,
                        ox as int,
                        oy as int,
                        x as int,
                        cy,
                        radius as int,
                        light_walls,
                    ),
            decreases height - y,
        {
            let ddx: i64 = x as i64 - ox as i64;
            let ddy: i64 = y as i64 - oy as i64;
            proof {
                assert(0 <= ddx * ddx <= 201326592 && 0 <= ddy * ddy <= 201326592)
                    by (nonlinear_arith)
                    requires
                        -8192 <= ddx <= 8192,
                        -8192 <= ddy <= 8192,
                ;
            }
            let rr: i64 = radius as i64;
            proof {
                assert(0 <= rr * rr <= 4611686018427387904) by (nonlinear_arith)
                    requires
                        -2147483648 <= rr <= 2147483647,
                ;
            }
            let in_radius: bool = ddx * ddx + ddy * ddy <= rr * rr;
            let vis: bool = if in_radius {
                if ray_clear_exec(map, ox, oy, x as i32, y as i32) {
                    proof {
                        assert(grid_view(*map)[x as int] == map@[x as int]@);
                    }
                    light_walls || !map[x][y].block_sight
                } else {
                    false
                }
            } else {
                false
            };
            col.push(vis);
            y += 1;
        }
        let ghost colv: Seq<bool> = col@;
        let ghost c0: Seq<Vec<bool>> = cells@;
        cells.push(col);
        proof {
            assert forall|cx: int, cy: int|
                0 <= cx < cells@.len() && 0 <= cy < height implies #[trigger] cells@[cx]@[cy]
                == spec_visible(g, ox as int, oy as int, cx, cy, radius as int, light_walls) by {
                if cx < c0.len() {
                    assert(cells@[cx] == c0[cx]);
                } else {
                    assert(cells@[cx]@ == colv);
                }
            }
            assert forall|cx: int|
                0 <= cx < cells@.len() implies (#[trigger] cells@[cx]@).len() == height by {
                if cx < c0.len() {
                    assert(cells@[cx] == c0[cx]);
                } else {
                    assert(cells@[cx]@ == colv);
                }
            }
        }
        x += 1;
    }

    let fov = Fov { cells };
    proof {
        assert forall|cx: int|
            0 <= cx < gw(g) implies (#[trigger] fov_view(fov)[cx]).len() == gh(g) by {
            assert(fov_view(fov)[cx] == fov.cells@[cx]@);
        }
        assert forall|cx: int, cy: int|
            0 <= cx < gw(g) && 0 <= cy < gh(g) implies #[trigger] fov_view(fov)[cx][cy]
            == spec_visible(g, ox as int, oy as int, cx, cy, radius as int, light_walls) by {
            assert(fov_view(fov)[cx] == fov.cells@[cx]@);
        }
    }

    let mut ex: usize = 0;
    while ex < width
        invariant
            grid_wf(g),
            width == gw(g),
            height == gh(g),
            0 <= ex <= width,
            fov.matches(g),
            forall|cx: int, cy: int|
                0 <= cx < gw(g) && 0 <= cy < gh(g) ==> #[trigger] fov_view(fov)[cx][cy]
                    == spec_visible(g, ox as int, oy as int, cx, cy, radius as int, light_walls),
            same_dims(g, grid_view(*map)),
            forall|cx: int, cy: int|
                0 <= cx < gw(g) && 0 <= cy < gh(g) ==> #[trigger] cell(grid_view(*map), cx, cy)
                    == (Tile {
                    explored: cell(g, cx, cy).explored || (cx < ex && fov_view(fov)[cx][cy]),
                    ..cell(g, cx, cy)
                }),
        decreases width - ex,
    {
        let mut ey: usize = 0;
        while ey < height
            invariant
                grid_wf(g),
                width == gw(g),
                height == gh(g),
                0 <= ex < width,
                0 <= ey <= height,
                fov.matches(g),
                forall|cx: int, cy: int|
                    0 <= cx < gw(g) && 0 <= cy < gh(g) ==> #[trigger] fov_view(fov)[cx][cy]
                        == spec_visible(
                        g,
                        ox as int,
                        oy as int,
                        cx,
                        cy,
                        radius as int,
                        light_walls,
                    ),
                same_dims(g, grid_view(*map)),
                forall|cx: int, cy: int|
                    0 <= cx < gw(g) && 0 <= cy < gh(g) ==> #[trigger] cell(grid_view(*map), cx, cy)
                        == (Tile {
                        explored: cell(g, cx, cy).explored || (cx < ex && fov_view(fov)[cx][cy])
                            || (cx == ex && cy < ey && fov_view(fov)[cx][cy]),
                        ..cell(g, cx, cy)
                    }),
            decreases height - ey,
        {
            proof {
                assert(fov_view(fov)[ex as int] == fov.cells@[ex as int]@);
                assert(grid_view(*map)[ex as int] == map@[ex as int]@);
            }
            let visible: bool = fov.cells[ex][ey];
            if visible {
                let mut t: Tile = map[ex][ey];
                t.explored = true;
                proof {
                    assert(cell(grid_view(*map), ex as int, ey as int) == map@[ex as int]@[ey
                        as int]);
                    assert(t == (Tile {
                        explored: true,
                        ..cell(grid_view(*map), ex as int, ey as int)
                    }));
                }
                let ghost g0: Seq<Seq<Tile>> = grid_view(*map);
                set_tile(map, ex, ey, t);
                proof {
                    assert forall|cx: int, cy: int|
                        0 <= cx < gw(g) && 0 <= cy < gh(g) implies #[trigger] cell(
                        grid_view(*map),
                        cx,
                        cy,
                    ) == (Tile {
                        explored: cell(g, cx, cy).explored || (cx < ex && fov_view(fov)[cx][cy])
                            || (cx == ex && cy < ey + 1 && fov_view(fov)[cx][cy]),
                        ..cell(g, cx, cy)
                    }) by {
                        if cx == ex as int {
                            assert(grid_view(*map)[cx] == g0[cx].update(ey as int, t));
                            if cy != ey as int {
                                assert(cell(grid_view(*map), cx, cy) == cell(g0, cx, cy));
                            } else {
                                assert(cell(grid_view(*map), cx, cy) == t);
                                assert(cell(g0, cx, cy) == (Tile {
                                    explored: cell(g, cx, cy).explored || (cx < ex && fov_view(
                                        fov,
                                    )[cx][cy]),
                                    ..cell(g, cx, cy)
                                }));
                            }
                        } else {
                            assert(grid_view(*map)[cx] == g0[cx]);
                            assert(cell(grid_view(*map), cx, cy) == cell(g0, cx, cy));
                        }
                    }
                }
            }
            ey += 1;
        }
        ex += 1;
    }
    fov
}

} // verus!
