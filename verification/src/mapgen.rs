//! The room-and-tunnel dungeon generator.
//!
//! Rooms are sampled at random and accepted only when their bounding box
//! overlaps no previously accepted room; accepted rooms are carved to floor
//! and linked to their predecessor with an L-shaped corridor. The first
//! room's center becomes the player start; later rooms are populated with
//! monsters and items.

use vstd::prelude::*;

use crate::color::Color;
use crate::object::Ai;
use crate::object::DeathCallback;
use crate::object::HitPoints;
use crate::object::Item;
use crate::object::Melee;
use crate::object::Object;
use crate::reach::reachable;
use crate::rng::rand_chance;
use crate::rng::rand_coin;
use crate::rng::rand_range_i32;
use crate::tile::Tile;
use crate::tile::TileGrid;
use crate::tile::cell;
use crate::tile::empty_tile;
use crate::tile::gh;
use crate::tile::grid_view;
use crate::tile::grid_wf;
use crate::tile::gw;
use crate::tile::in_bounds;
use crate::tile::wall_tile;

verus! {

/// A room footprint during generation: the half-open box from (x1, y1) to
/// (x2, y2), used only while the map is built.
#[derive(Clone, Copy, Debug, PartialEq, Eq, Structural)]
pub struct Rect {
    pub x1: i32,
    pub y1: i32,
    pub x2: i32,
    pub y2: i32,
}

/// Two room footprints overlap, edges included.
pub open spec fn spec_intersects(a: Rect, b: Rect) -> bool {
    a.x1 <= b.x2 && a.x2 >= b.x1 && a.y1 <= b.y2 && a.y2 >= b.y1
}

/// The cell (x, y) lies strictly inside the room, off its one-cell border.
pub open spec fn rect_interior(r: Rect, x: int, y: int) -> bool {
    r.x1 < x < r.x2 && r.y1 < y < r.y2
}

impl Rect {
    /// The footprint sits at nonnegative coordinates with nonnegative extent.
    pub open spec fn wf(self) -> bool {
        0 <= self.x1 <= self.x2 && 0 <= self.y1 <= self.y2
    }

    pub fn new(x: i32, y: i32, w: i32, h: i32) -> (r: Rect)
        requires
            i32::MIN <= x + w <= i32::MAX,
            i32::MIN <= y + h <= i32::MAX,
        ensures
            r == (Rect { x1: x, y1: y, x2: (x + w) as i32, y2: (y + h) as i32 }),
    {
        Rect { x1: x, y1: y, x2: x + w, y2: y + h }
    }

    /// The room's center cell, rounding the midpoint down.
    pub fn center(&self) -> (c: (i32, i32))
        requires
            self.wf(),
        ensures
            c.0 == (self.x1 + self.x2) / 2,
            c.1 == (self.y1 + self.y2) / 2,
            self.x1 <= c.0 <= self.x2,
            self.y1 <= c.1 <= self.y2,
    {
        let cx: i32 = ((self.x1 as i64 + self.x2 as i64) / 2) as i32;
        let cy: i32 = ((self.y1 as i64 + self.y2 as i64) / 2) as i32;
        (cx, cy)
    }

    /// Whether this room's bounding box overlaps another's, edges included:
    /// the rejection criterion of the generator.
    pub fn intersects_with(&self, other: &Rect) -> (r: bool)
        ensures
            r == spec_intersects(*self, *other),
    {
        (self.x1 <= other.x2) && (self.x2 >= other.x1) && (self.y1 <= other.y2) && (self.y2
            >= other.y1)
    }

    /// A uniformly random cell strictly inside the room.
    pub fn rand_inside(&self) -> (p: (i32, i32))
        requires
            self.x1 + 1 < self.x2,
            self.y1 + 1 < self.y2,
        ensures
            rect_interior(*self, p.0 as int, p.1 as int),
    {
        let x = rand_range_i32(self.x1 + 1, self.x2);
        let y = rand_range_i32(self.y1 + 1, self.y2);
        (x, y)
    }
}

/// The two grids have the same width and the same column heights.
pub open spec fn same_dims(pre: Seq<Seq<Tile>>, post: Seq<Seq<Tile>>) -> bool {
    post.len() == pre.len() && forall|x: int|
        0 <= x < pre.len() ==> (#[trigger] post[x]).len() == pre[x].len()
}

/// Set one cell of the grid.
pub(crate) fn set_tile(map: &mut TileGrid, x: usize, y: usize, t: Tile)
    requires
        x < grid_view(*old(map)).len(),
        y < grid_view(*old(map))[x as int].len(),
    ensures
        same_dims(grid_view(*old(map)), grid_view(*final(map))),
        forall|i: int|
            0 <= i < grid_view(*old(map)).len() && i != x ==> #[trigger] grid_view(
                *final(map),
            )[i] == grid_view(*old(map))[i],
        grid_view(*final(map))[x as int] == grid_view(*old(map))[x as int].update(y as int, t),
{
    proof {
        assert(grid_view(*map)[x as int] == map@[x as int]@);
    }
    let col = &mut map[x];
    col[y] = t;
    proof {
        assert(grid_view(*map)[x as int] == map@[x as int]@);
        assert(forall|i: int|
            0 <= i < map@.len() ==> #[trigger] grid_view(*map)[i] == map@[i]@);
        assert(forall|i: int|
            0 <= i < old(map)@.len() ==> #[trigger] grid_view(*old(map))[i] == old(map)@[i]@);
        assert(same_dims(grid_view(*old(map)), grid_view(*map)));
    }
}

/// Carve the interior of `room` (exclusive of its one-cell border) to
/// floor, leaving every other cell unchanged.
pub fn create_room(room: Rect, map: &mut TileGrid)
    requires
        grid_wf(grid_view(*old(map))),
        room.wf(),
        room.x2 <= gw(grid_view(*old(map))),
        room.y2 <= gh(grid_view(*old(map))),
    ensures
        same_dims(grid_view(*old(map)), grid_view(*final(map))),
        forall|x: int, y: int|
            0 <= x < gw(grid_view(*old(map))) && 0 <= y < gh(grid_view(*old(map)))
                ==> #[trigger] cell(grid_view(*final(map)), x, y) == if rect_interior(room, x, y) {
                empty_tile()
            } else {
                cell(grid_view(*old(map)), x, y)
            },
{
    let ghost pre: Seq<Seq<Tile>> = grid_view(*old(map));
    let x_end: usize = room.x2 as usize;
    let y_end: usize = room.y2 as usize;
    let mut x: usize = room.x1 as usize + 1;
    while x < x_end
        invariant
            grid_wf(pre),
            room.wf(),
            room.x2 <= gw(pre),
            room.y2 <= gh(pre),
            x_end == room.x2,
            y_end == room.y2,
            room.x1 + 1 <= x,
            x <= x_end || x == room.x1 as usize + 1,
            same_dims(pre, grid_view(*map)),
            forall|cx: int, cy: int|
                0 <= cx < gw(pre) && 0 <= cy < gh(pre) ==> #[trigger] cell(
                    grid_view(*map),
                    cx,
                    cy,
                ) == if rect_interior(room, cx, cy) && cx < x {
                    empty_tile()
                } else {
                    cell(pre, cx, cy)
                },
        decreases x_end - x,
    {
        let mut y: usize = room.y1 as usize + 1;
        while y < y_end
            invariant
                grid_wf(pre),
                room.wf(),
                room.x2 <= gw(pre),
                room.y2 <= gh(pre),
                x_end == room.x2,
                y_end == room.y2,
                room.x1 + 1 <= x < x_end,
                room.y1 + 1 <= y,
                y <= y_end || y == room.y1 as usize + 1,
                same_dims(pre, grid_view(*map)),
                forall|cx: int, cy: int|
                    0 <= cx < gw(pre) && 0 <= cy < gh(pre) ==> #[trigger] cell(
                        grid_view(*map),
                        cx,
                        cy,
                    ) == if rect_interior(room, cx, cy) && (cx < x || (cx == x && cy < y)) {
                        empty_tile()
                    } else {
                        cell(pre, cx, cy)
                    },
            decreases y_end - y,
        {
            let ghost g0: Seq<Seq<Tile>> = grid_view(*map);
            set_tile(map, x, y, Tile::empty());
            proof {
                assert forall|cx: int, cy: int|
                    0 <= cx < gw(pre) && 0 <= cy < gh(pre) implies #[trigger] cell(
                    grid_view(*map),
                    cx,
                    cy,
                ) == (if rect_interior(room, cx, cy) && (cx < x || (cx == x && cy < y + 1)) {
                    empty_tile()
                } else {
                    cell(pre, cx, cy)
                }) by {
                    if cx == x as int {
                        assert(grid_view(*map)[cx] == g0[cx].update(y as int, empty_tile()));
                        if cy != y as int {
                            assert(cell(grid_view(*map), cx, cy) == cell(g0, cx, cy));
                        }
                    } else {
                        assert(grid_view(*map)[cx] == g0[cx]);
                        assert(cell(grid_view(*map), cx, cy) == cell(g0, cx, cy));
                    }
                }
            }
            y += 1;
        }
        x += 1;
    }
}

/// The smaller of two numbers.
pub open spec fn imin(a: int, b: int) -> int {
    if a <= b {
        a
    } else {
        b
    }
}

/// The larger of two numbers.
pub open spec fn imax(a: int, b: int) -> int {
    if a >= b {
        a
    } else {
        b
    }
}

/// The cell (cx, cy) lies on the horizontal segment at row `y` between
/// columns `x1` and `x2`, endpoints included.
pub open spec fn on_h_seg(x1: int, x2: int, y: int, cx: int, cy: int) -> bool {
    cy == y && imin(x1, x2) <= cx <= imax(x1, x2)
}

/// The cell (cx, cy) lies on the vertical segment at column `x` between
/// rows `y1` and `y2`, endpoints included.
pub open spec fn on_v_seg(y1: int, y2: int, x: int, cx: int, cy: int) -> bool {
    cx == x && imin(y1, y2) <= cy <= imax(y1, y2)
}

/// Carve a horizontal corridor at row `y` between columns `x1` and `x2`,
/// endpoints included, to floor.
pub fn create_h_tunnel(x1: i32, x2: i32, y: i32, map: &mut TileGrid)
    requires
        grid_wf(grid_view(*old(map))),
        0 <= x1 < gw(grid_view(*old(map))),
        0 <= x2 < gw(grid_view(*old(map))),
        0 <= y < gh(grid_view(*old(map))),
    ensures
        same_dims(grid_view(*old(map)), grid_view(*final(map))),
        forall|cx: int, cy: int|
            0 <= cx < gw(grid_view(*old(map))) && 0 <= cy < gh(grid_view(*old(map)))
                ==> #[trigger] cell(grid_view(*final(map)), cx, cy) == if on_h_seg(
                x1 as int,
                x2 as int,
                y as int,
                cx,
                cy,
            ) {
                empty_tile()
            } else {
                cell(grid_view(*old(map)), cx, cy)
            },
{
    let ghost pre: Seq<Seq<Tile>> = grid_view(*old(map));
    let lo: i32 = if x1 <= x2 {
        x1
    } else {
        x2
    };
    let hi: i32 = if x1 <= x2 {
        x2
    } else {
        x1
    };
    let mut x: usize = lo as usize;
    let x_end: usize = hi as usize;
    while x <= x_end
        invariant
            grid_wf(pre),
            lo == imin(x1 as int, x2 as int),
            hi == imax(x1 as int, x2 as int),
            0 <= lo,
            hi < gw(pre),
            0 <= y < gh(pre),
            x_end == hi,
            lo <= x,
            same_dims(pre, grid_view(*map)),
            forall|cx: int, cy: int|
                0 <= cx < gw(pre) && 0 <= cy < gh(pre) ==> #[trigger] cell(
                    grid_view(*map),
                    cx,
                    cy,
                ) == if on_h_seg(x1 as int, x2 as int, y as int, cx, cy) && cx < x {
                    empty_tile()
                } else {
                    cell(pre, cx, cy)
                },
        decreases x_end + 1 - x,
    {
        let ghost g0: Seq<Seq<Tile>> = grid_view(*map);
        set_tile(map, x, y as usize, Tile::empty());
        proof {
            assert forall|cx: int, cy: int|
                0 <= cx < gw(pre) && 0 <= cy < gh(pre) implies #[trigger] cell(
                grid_view(*map),
                cx,
                cy,
            ) == (if on_h_seg(x1 as int, x2 as int, y as int, cx, cy) && cx < x + 1 {
                empty_tile()
            } else {
                cell(pre, cx, cy)
            }) by {
                if cx == x as int {
                    assert(grid_view(*map)[cx] == g0[cx].update(y as int, empty_tile()));
                    if cy != y as int {
                        assert(cell(grid_view(*map), cx, cy) == cell(g0, cx, cy));
                    }
                } else {
                    assert(grid_view(*map)[cx] == g0[cx]);
                    assert(cell(grid_view(*map), cx, cy) == cell(g0, cx, cy));
                }
            }
        }
        x += 1;
    }
}

/// Carve a vertical corridor at column `x` between rows `y1` and `y2`,
/// endpoints included, to floor.
pub fn create_v_tunnel(y1: i32, y2: i32, x: i32, map: &mut TileGrid)
    requires
        grid_wf(grid_view(*old(map))),
        0 <= y1 < gh(grid_view(*old(map))),
        0 <= y2 < gh(grid_view(*old(map))),
        0 <= x < gw(grid_view(*old(map))),
    ensures
        same_dims(grid_view(*old(map)), grid_view(*final(map))),
        forall|cx: int, cy: int|
            0 <= cx < gw(grid_view(*old(map))) && 0 <= cy < gh(grid_view(*old(map)))
                ==> #[trigger] cell(grid_view(*final(map)), cx, cy) == if on_v_seg(
                y1 as int,
                y2 as int,
                x as int,
                cx,
                cy,
            ) {
                empty_tile()
            } else {
                cell(grid_view(*old(map)), cx, cy)
            },
{
    let ghost pre: Seq<Seq<Tile>> = grid_view(*old(map));
    let lo: i32 = if y1 <= y2 {
        y1
    } else {
        y2
    };
    let hi: i32 = if y1 <= y2 {
        y2
    } else {
        y1
    };
    let mut y: usize = lo as usize;
    let y_end: usize = hi as usize;
    while y <= y_end
        invariant
            grid_wf(pre),
            lo == imin(y1 as int, y2 as int),
            hi == imax(y1 as int, y2 as int),
            0 <= lo,
            hi < gh(pre),
            0 <= x < gw(pre),
            y_end == hi,
            lo <= y,
            same_dims(pre, grid_view(*map)),
            forall|cx: int, cy: int|
                0 <= cx < gw(pre) && 0 <= cy < gh(pre) ==> #[trigger] cell(
                    grid_view(*map),
                    cx,
                    cy,
                ) == if on_v_seg(y1 as int, y2 as int, x as int, cx, cy) && cy < y {
                    empty_tile()
                } else {
                    cell(pre, cx, cy)
                },
        decreases y_end + 1 - y,
    {
        let ghost g0: Seq<Seq<Tile>> = grid_view(*map);
        set_tile(map, x as usize, y, Tile::empty());
        proof {
            assert forall|cx: int, cy: int|
                0 <= cx < gw(pre) && 0 <= cy < gh(pre) implies #[trigger] cell(
                grid_view(*map),
                cx,
                cy,
            ) == (if on_v_seg(y1 as int, y2 as int, x as int, cx, cy) && cy < y + 1 {
                empty_tile()
            } else {
                cell(pre, cx, cy)
            }) by {
                if cx == x as int {
                    assert(grid_view(*map)[cx] == g0[cx].update(y as int, empty_tile()));
                    if cy != y as int {
                        assert(cell(grid_view(*map), cx, cy) == cell(g0, cx, cy));
                    }
                } else {
                    assert(grid_view(*map)[cx] == g0[cx]);
                    assert(cell(grid_view(*map), cx, cy) == cell(g0, cx, cy));
                }
            }
        }
        y += 1;
    }
}

/// Largest room extent sampled by the generator.
pub const ROOM_MAX_SIZE: i32 = 10;

/// Smallest room extent sampled by the generator.
pub const ROOM_MIN_SIZE: i32 = 6;

/// How many room placements the generator attempts.
pub const MAX_ROOMS: usize = 30;

/// Every cell of the room's strict interior is floor.
pub open spec fn interior_floor(g: Seq<Seq<Tile>>, r: Rect) -> bool {
    forall|cx: int, cy: int| #[trigger] rect_interior(r, cx, cy) ==> cell(g, cx, cy)
        == empty_tile()
}

/// An accepted room: well formed, at least the minimum extent, and lying
/// strictly inside the grid border.
pub open spec fn room_in_grid(r: Rect, w: int, h: int) -> bool {
    &&& r.wf()
    &&& r.x1 + 6 <= r.x2
    &&& r.x2 <= w - 1
    &&& r.y1 + 6 <= r.y2
    &&& r.y2 <= h - 1
}

/// Most monsters placed per populated room.
pub const MAX_ROOM_MONSTERS: i32 = 3;

/// Most items placed per populated room.
pub const MAX_ROOM_ITEMS: i32 = 2;

/// The weak, common monster archetype: an orc, alive, with combat, melee
/// and AI capability.
pub open spec fn is_orc(o: Object) -> bool {
    &&& o.rep == 'o'
    &&& o.color == (Color { r: 63, g: 127, b: 63 })
    &&& o.name@ == "orc"@
    &&& o.blocks
    &&& o.alive
    &&& o.hp == Some(HitPoints { max: 10, current: 10, on_death: DeathCallback::Monster })
    &&& o.melee == Some(Melee { attack: 3, defense: 0 })
    &&& o.ai == Some(Ai)
    &&& o.item is None
}

/// The strong, rare monster archetype: a troll, alive, with combat, melee
/// and AI capability.
pub open spec fn is_troll(o: Object) -> bool {
    &&& o.rep == 'T'
    &&& o.color == (Color { r: 0, g: 127, b: 0 })
    &&& o.name@ == "troll"@
    &&& o.blocks
    &&& o.alive
    &&& o.hp == Some(HitPoints { max: 16, current: 16, on_death: DeathCallback::Monster })
    &&& o.melee == Some(Melee { attack: 4, defense: 1 })
    &&& o.ai == Some(Ai)
    &&& o.item is None
}

/// A healing potion: a non-blocking, inert pickup entity.
pub open spec fn is_potion(o: Object) -> bool {
    &&& o.rep == '!'
    &&& o.color == (Color { r: 127, g: 0, b: 255 })
    &&& o.name@ == "healing potion"@
    &&& !o.blocks
    &&& !o.alive
    &&& o.hp is None
    &&& o.melee is None
    &&& o.ai is None
    &&& o.item == Some(Item::Heal)
}

/// An entity the generator may spawn into a room: a monster or an item,
/// standing strictly inside the room.
pub open spec fn spawned_in(o: Object, room: Rect) -> bool {
    &&& rect_interior(room, o.x as int, o.y as int)
    &&& (is_orc(o) || is_troll(o) || is_potion(o))
}

/// The entity stands strictly inside one of the accepted rooms after the
/// first: only those rooms are populated, so the player's starting room
/// never holds a spawn.
pub open spec fn in_populated_room(o: Object, rooms: Seq<Rect>) -> bool {
    exists|i: int| 1 <= i < rooms.len() && rect_interior(#[trigger] rooms[i], o.x as int, o.y as int)
}

/// The cell lies on the grid's one-cell outer border.
pub open spec fn on_border(w: int, h: int, x: int, y: int) -> bool {
    0 <= x < w && 0 <= y < h && (x == 0 || x == w - 1 || y == 0 || y == h - 1)
}

/// The room's center cell, the midpoint rounded down.
pub open spec fn rect_center(r: Rect) -> (int, int) {
    ((r.x1 + r.x2) / 2, (r.y1 + r.y2) / 2)
}

/// The cell lies on one of the two L-shaped corridors between the centers
/// of rooms `a` and `b` — horizontal-then-vertical or vertical-then-
/// horizontal; the generator carves exactly one of the two.
pub open spec fn on_link(a: Rect, b: Rect, x: int, y: int) -> bool {
    let ac = rect_center(a);
    let bc = rect_center(b);
    ||| on_h_seg(ac.0, bc.0, ac.1, x, y)
    ||| on_v_seg(ac.1, bc.1, bc.0, x, y)
    ||| on_v_seg(ac.1, bc.1, ac.0, x, y)
    ||| on_h_seg(ac.0, bc.0, bc.1, x, y)
}

/// Every floor cell is accounted for: it lies strictly inside an accepted
/// room, or on an L-corridor between two consecutive accepted rooms'
/// centers. Every other cell stays wall.
pub open spec fn floor_accounted(rooms: Seq<Rect>, x: int, y: int) -> bool {
    ||| exists|i: int| 0 <= i < rooms.len() && rect_interior(#[trigger] rooms[i], x, y)
    ||| exists|i: int| 1 <= i < rooms.len() && on_link(rooms[i - 1], #[trigger] rooms[i], x, y)
}

/// Whether (x, y) occurs in the list of positions.
fn pos_in_list(list: &Vec<(i32, i32)>, x: i32, y: i32) -> (b: bool)
    ensures
        b == exists|i: int| 0 <= i < list@.len() && #[trigger] list@[i] == (x, y),
{
    let n: usize = list.len();
    let mut i: usize = 0;
    while i < n
        invariant
            n == list@.len(),
            0 <= i <= n,
            forall|k: int| 0 <= k < i ==> #[trigger] list@[k] != (x, y),
        decreases n - i,
    {
        let p = list[i];
        if p.0 == x && p.1 == y {
            return true;
        }
        i += 1;
    }
    false
}

/// How one placement call lays out what it appends, from index `from` to
/// the end of the registry: first its monsters, up to the split `nm` — at
/// most `MAX_ROOM_MONSTERS` of them — then its items, at most
/// `MAX_ROOM_ITEMS`, each item on a cell that none of those monsters took.
pub open spec fn spawn_layout(from: int, nm: int, objs: Seq<Object>) -> bool {
    &&& from <= nm <= from + MAX_ROOM_MONSTERS
    &&& nm <= objs.len() <= nm + MAX_ROOM_ITEMS
    &&& forall|k: int| from <= k < nm ==> is_orc(#[trigger] objs[k]) || is_troll(objs[k])
    &&& forall|k: int| nm <= k < objs.len() ==> is_potion(#[trigger] objs[k])
    &&& forall|k: int, j: int|
        nm <= k < objs.len() && from <= j < nm ==> (#[trigger] objs[k]).x != (
        #[trigger] objs[j]).x || objs[k].y != objs[j].y
}

/// Populate a room: first a number of monsters drawn from 0 to 3 (orcs
/// four times out of five, trolls otherwise), then a number of items drawn
/// from 0 to 2, each at a random cell strictly inside the room; an item is
/// only placed on a cell that none of this call's monsters took. Existing
/// entities are untouched.
pub fn place_objects(room: Rect, objects: &mut Vec<Object>)
    requires
        room.x1 + 1 < room.x2,
        room.y1 + 1 < room.y2,
    ensures
        old(objects)@.len() <= final(objects)@.len() <= old(objects)@.len() + (
        MAX_ROOM_MONSTERS + MAX_ROOM_ITEMS),
        forall|k: int|
            0 <= k < old(objects)@.len() ==> #[trigger] final(objects)@[k] == old(objects)@[k],
        forall|k: int|
            old(objects)@.len() <= k < final(objects)@.len() ==> spawned_in(
                #[trigger] final(objects)@[k],
                room,
            ),
        exists|nm: int| spawn_layout(old(objects)@.len() as int, nm, final(objects)@),
{
    let ghost n0: int = objects@.len() as int;
    let num_monsters: i32 = rand_range_i32(0, MAX_ROOM_MONSTERS + 1);

    let mut monsters_pos: Vec<(i32, i32)> = Vec::new();

    let mut m: i32 = 0;
    while m < num_monsters
        invariant
            n0 == old(objects)@.len(),
            objects@.len() == n0 + m,
            monsters_pos@.len() == m,
            0 <= m,
            m <= num_monsters || m == 0,
            num_monsters <= MAX_ROOM_MONSTERS,
            room.x1 + 1 < room.x2,
            room.y1 + 1 < room.y2,
            forall|k: int| 0 <= k < n0 ==> #[trigger] objects@[k] == old(objects)@[k],
            forall|k: int|
                n0 <= k < objects@.len() ==> spawned_in(#[trigger] objects@[k], room),
            forall|k: int|
                n0 <= k < objects@.len() ==> is_orc(#[trigger] objects@[k]) || is_troll(
                    objects@[k],
                ),
            forall|j: int|
                0 <= j < monsters_pos@.len() ==> #[trigger] monsters_pos@[j] == (
                    objects@[n0 + j].x,
                    objects@[n0 + j].y,
                ),
        decreases num_monsters - m,
    {
        let (x, y) = room.rand_inside();

        monsters_pos.push((x, y));

        let mut monster = if rand_chance(4, 5) {
            let mut orc = Object::new(x, y, 'o', Color::desaturated_green(), "orc", true);
            orc.hp = Some(HitPoints { max: 10, current: 10, on_death: DeathCallback::Monster });
            orc.melee = Some(Melee { attack: 3, defense: 0 });
            orc.ai = Some(Ai);
            orc
        } else {
            let mut troll = Object::new(x, y, 'T', Color::darker_green(), "troll", true);
            troll.hp = Some(HitPoints { max: 16, current: 16, on_death: DeathCallback::Monster });
            troll.melee = Some(Melee { attack: 4, defense: 1 });
            troll.ai = Some(Ai);
            troll
        };

        monster.alive = true;

        objects.push(monster);
        m += 1;
    }

    let ghost nm_g: int = objects@.len() as int;
    let num_items: i32 = rand_range_i32(0, MAX_ROOM_ITEMS + 1);

    let mut it: i32 = 0;
    while it < num_items
        invariant
            n0 == old(objects)@.len(),
            n0 <= nm_g <= n0 + MAX_ROOM_MONSTERS,
            monsters_pos@.len() == nm_g - n0,
            nm_g <= objects@.len() <= nm_g + it,
            0 <= it,
            it <= num_items || it == 0,
            num_items <= MAX_ROOM_ITEMS,
            room.x1 + 1 < room.x2,
            room.y1 + 1 < room.y2,
            forall|k: int| 0 <= k < n0 ==> #[trigger] objects@[k] == old(objects)@[k],
            forall|k: int|
                n0 <= k < objects@.len() ==> spawned_in(#[trigger] objects@[k], room),
            forall|k: int|
                n0 <= k < nm_g ==> is_orc(#[trigger] objects@[k]) || is_troll(objects@[k]),
            forall|j: int|
                0 <= j < monsters_pos@.len() ==> #[trigger] monsters_pos@[j] == (
                    objects@[n0 + j].x,
                    objects@[n0 + j].y,
                ),
            forall|k: int| nm_g <= k < objects@.len() ==> is_potion(#[trigger] objects@[k]),
            forall|k: int, j: int|
                nm_g <= k < objects@.len() && n0 <= j < nm_g ==> (#[trigger] objects@[k]).x != (
                #[trigger] objects@[j]).x || objects@[k].y != objects@[j].y,
        decreases num_items - it,
    {
        let x = rand_range_i32(room.x1 + 1, room.x2);
        let y = rand_range_i32(room.y1 + 1, room.y2);

        if !pos_in_list(&monsters_pos, x, y) {
            let mut object = Object::new(x, y, '!', Color::violet(), "healing potion", false);
            object.item = Some(Item::Heal);
            objects.push(object);
            proof {
                assert forall|k: int, j: int|
                    nm_g <= k < objects@.len() && n0 <= j < nm_g implies (
                #[trigger] objects@[k]).x != (#[trigger] objects@[j]).x || objects@[k].y
                    != objects@[j].y by {
                    if k == objects@.len() - 1 {
                        assert(monsters_pos@[j - n0] == (objects@[j].x, objects@[j].y));
                        assert(monsters_pos@[j - n0] != (x, y));
                    }
                }
            }
        }
        it += 1;
    }

    proof {
        assert(spawn_layout(n0, nm_g, objects@));
    }
}

/// A generated entity as the finished map ensures it: a monster or item
/// archetype, standing off the grid border on a floor cell.
pub open spec fn spawn_ok(o: Object, g: Seq<Seq<Tile>>, w: int, h: int) -> bool {
    &&& is_orc(o) || is_troll(o) || is_potion(o)
    &&& 1 <= o.x < w - 1
    &&& 1 <= o.y < h - 1
    &&& cell(g, o.x as int, o.y as int) == empty_tile()
}

/// Carving only ever turns cells to floor, so room interiors that were
/// fully floor stay fully floor, and entities standing on floor keep
/// standing on floor.
proof fn lemma_carve_preserves(
    pre: Seq<Seq<Tile>>,
    post: Seq<Seq<Tile>>,
    rooms: Seq<Rect>,
    objs: Seq<Object>,
    from: int,
    w: int,
    h: int,
)
    requires
        gw(pre) == w,
        gh(pre) == h,
        same_dims(pre, post),
        forall|cx: int, cy: int|
            0 <= cx < w && 0 <= cy < h ==> #[trigger] cell(post, cx, cy) == empty_tile() || cell(
                post,
                cx,
                cy,
            ) == cell(pre, cx, cy),
        forall|i: int| 0 <= i < rooms.len() ==> room_in_grid(#[trigger] rooms[i], w, h),
        forall|i: int| 0 <= i < rooms.len() ==> interior_floor(pre, #[trigger] rooms[i]),
        forall|k: int| from <= k < objs.len() ==> spawn_ok(#[trigger] objs[k], pre, w, h),
    ensures
        forall|i: int| 0 <= i < rooms.len() ==> interior_floor(post, #[trigger] rooms[i]),
        forall|k: int| from <= k < objs.len() ==> spawn_ok(#[trigger] objs[k], post, w, h),
{
    assert forall|i: int| 0 <= i < rooms.len() implies interior_floor(
        post,
        #[trigger] rooms[i],
    ) by {
        assert forall|cx: int, cy: int| #[trigger] rect_interior(rooms[i], cx, cy) implies cell(
            post,
            cx,
            cy,
        ) == empty_tile() by {
            assert(room_in_grid(rooms[i], w, h));
            assert(0 <= cx < w && 0 <= cy < h);
            assert(cell(pre, cx, cy) == empty_tile());
        }
    }
    assert forall|k: int| from <= k < objs.len() implies spawn_ok(#[trigger] objs[k], post, w, h) by {
        assert(spawn_ok(objs[k], pre, w, h));
        assert(cell(pre, objs[k].x as int, objs[k].y as int) == empty_tile());
    }
}

/// Any two cells strictly inside a fully carved room are connected, by an
/// L-shaped walk through its interior.
pub proof fn lemma_room_connected(
    g: Seq<Seq<Tile>>,
    room: Rect,
    ax: int,
    ay: int,
    bx: int,
    by: int,
)
    requires
        room_in_grid(room, gw(g), gh(g)),
        interior_floor(g, room),
        rect_interior(room, ax, ay),
        rect_interior(room, bx, by),
    ensures
        reachable(g, (ax, ay), (bx, by)),
{
    assert forall|x: int| imin(ax, bx) <= x <= imax(ax, bx) implies in_bounds(g, x, ay) && !(
    #[trigger] cell(g, x, ay)).blocked by {
        assert(rect_interior(room, x, ay));
        assert(cell(g, x, ay) == empty_tile());
    }
    crate::reach::lemma_seg_h(g, ax, bx, ay);
    assert forall|y: int| imin(ay, by) <= y <= imax(ay, by) implies in_bounds(g, bx, y) && !(
    #[trigger] cell(g, bx, y)).blocked by {
        assert(rect_interior(room, bx, y));
        assert(cell(g, bx, y) == empty_tile());
    }
    crate::reach::lemma_seg_v(g, ay, by, bx);
    crate::reach::lemma_reach_trans(g, (ax, ay), (bx, ay), (bx, by));
}

/// One generation step keeps the dungeon connected: after carving a new
/// room and its L-corridor (horizontal run at row `hy`, vertical run at
/// column `vx`, joined at the corner), every floor cell still reaches the
/// player start.
proof fn lemma_link_step(
    g_pre: Seq<Seq<Tile>>,
    cur: Seq<Seq<Tile>>,
    room: Rect,
    pcx: int,
    pcy: int,
    ncx: int,
    ncy: int,
    hy: int,
    vx: int,
    start: (int, int),
)
    requires
        grid_wf(g_pre),
        same_dims(g_pre, cur),
        room_in_grid(room, gw(g_pre), gh(g_pre)),
        rect_interior(room, ncx, ncy),
        0 <= pcx < gw(g_pre),
        0 <= pcy < gh(g_pre),
        (hy == pcy && vx == ncx) || (hy == ncy && vx == pcx),
        forall|x: int, y: int|
            0 <= x < gw(g_pre) && 0 <= y < gh(g_pre) ==> #[trigger] cell(cur, x, y)
                == empty_tile() || cell(cur, x, y) == cell(g_pre, x, y),
        forall|x: int, y: int|
            0 <= x < gw(g_pre) && 0 <= y < gh(g_pre) && (on_h_seg(pcx, ncx, hy, x, y) || on_v_seg(
                pcy,
                ncy,
                vx,
                x,
                y,
            ) || rect_interior(room, x, y)) ==> #[trigger] cell(cur, x, y) == empty_tile(),
        forall|x: int, y: int|
            0 <= x < gw(g_pre) && 0 <= y < gh(g_pre) && !(#[trigger] cell(cur, x, y)).blocked
                ==> on_h_seg(pcx, ncx, hy, x, y) || on_v_seg(pcy, ncy, vx, x, y) || rect_interior(
                room,
                x,
                y,
            ) || !cell(g_pre, x, y).blocked,
        forall|x: int, y: int|
            0 <= x < gw(g_pre) && 0 <= y < gh(g_pre) && !(#[trigger] cell(g_pre, x, y)).blocked
                ==> reachable(g_pre, (x, y), start),
        !cell(g_pre, pcx, pcy).blocked,
    ensures
        forall|x: int, y: int|
            0 <= x < gw(g_pre) && 0 <= y < gh(g_pre) && !(#[trigger] cell(cur, x, y)).blocked
                ==> reachable(cur, (x, y), start),
{
    let w = gw(g_pre);
    let h = gh(g_pre);
    assert(gw(cur) == w);
    assert(cur[0].len() == g_pre[0].len());
    assert(gh(cur) == h);
    assert(room_in_grid(room, gw(cur), gh(cur)));
    assert forall|x: int, y: int| #[trigger] rect_interior(room, x, y) implies cell(cur, x, y)
        == empty_tile() by {
        assert(0 <= x < w && 0 <= y < h);
    }
    assert(interior_floor(cur, room));

    // The previous room's center keeps its connection to the start.
    crate::reach::lemma_floor_monotone(g_pre, cur, (pcx, pcy), start);

    // Both corridor runs are fully floor.
    assert forall|x: int| imin(pcx, ncx) <= x <= imax(pcx, ncx) implies in_bounds(cur, x, hy)
        && !(#[trigger] cell(cur, x, hy)).blocked by {
        assert(0 <= hy < h);
        assert(on_h_seg(pcx, ncx, hy, x, hy));
        assert(cell(cur, x, hy) == empty_tile());
    }
    assert forall|y: int| imin(pcy, ncy) <= y <= imax(pcy, ncy) implies in_bounds(cur, vx, y)
        && !(#[trigger] cell(cur, vx, y)).blocked by {
        assert(0 <= vx < w);
        assert(on_v_seg(pcy, ncy, vx, vx, y));
        assert(cell(cur, vx, y) == empty_tile());
    }
    crate::reach::lemma_seg_h(cur, ncx, pcx, hy);
    crate::reach::lemma_seg_v(cur, ncy, pcy, vx);

    // The new room's center reaches the previous center through the corner.
    if hy == pcy && vx == ncx {
        crate::reach::lemma_reach_trans(cur, (ncx, ncy), (ncx, pcy), (pcx, pcy));
    } else {
        crate::reach::lemma_reach_trans(cur, (ncx, ncy), (pcx, ncy), (pcx, pcy));
    }
    crate::reach::lemma_reach_trans(cur, (ncx, ncy), (pcx, pcy), start);

    // Every floor cell now reaches the start.
    assert forall|x: int, y: int|
        0 <= x < w && 0 <= y < h && !(#[trigger] cell(cur, x, y)).blocked implies reachable(
        cur,
        (x, y),
        start,
    ) by {
        if rect_interior(room, x, y) {
            lemma_room_connected(cur, room, x, y, ncx, ncy);
            crate::reach::lemma_reach_trans(cur, (x, y), (ncx, ncy), start);
        } else if on_h_seg(pcx, ncx, hy, x, y) {
            crate::reach::lemma_seg_h(cur, x, pcx, hy);
            if hy == pcy {
                crate::reach::lemma_reach_trans(cur, (x, hy), (pcx, pcy), start);
            } else {
                crate::reach::lemma_reach_trans(cur, (x, hy), (pcx, ncy), (pcx, pcy));
                crate::reach::lemma_reach_trans(cur, (x, hy), (pcx, pcy), start);
            }
        } else if on_v_seg(pcy, ncy, vx, x, y) {
            crate::reach::lemma_seg_v(cur, y, pcy, vx);
            if vx == pcx {
                crate::reach::lemma_reach_trans(cur, (vx, y), (pcx, pcy), start);
            } else {
                crate::reach::lemma_reach_trans(cur, (vx, y), (ncx, pcy), (pcx, pcy));
                crate::reach::lemma_reach_trans(cur, (vx, y), (pcx, pcy), start);
            }
        } else {
            assert(!cell(g_pre, x, y).blocked);
            assert(reachable(g_pre, (x, y), start));
            crate::reach::lemma_floor_monotone(g_pre, cur, (x, y), start);
        }
    }
}

/// Generate a dungeon and also hand back the accepted rooms.
///
/// Up to `MAX_ROOMS` candidate rooms are sampled; a candidate whose
/// bounding box overlaps an accepted room is rejected. Each accepted room
/// is carved to floor; the first holds the player start at its center,
/// every later one is linked to its predecessor's center by an L-shaped
/// corridor (bend order chosen at random) and populated with monsters and
/// items. The first candidate is never rejected, so at least one room is
/// always accepted.
pub fn make_map_with_rooms(height: usize, width: usize, objects: &mut Vec<Object>) -> (r: (
    TileGrid,
    (i32, i32),
    Vec<Rect>,
))
    requires
        11 <= width <= 4096,
        11 <= height <= 4096,
    ensures
        grid_wf(grid_view(r.0)),
        gw(grid_view(r.0)) == width,
        gh(grid_view(r.0)) == height,
        forall|cx: int, cy: int|
            0 <= cx < width && 0 <= cy < height ==> #[trigger] cell(grid_view(r.0), cx, cy)
                == empty_tile() || cell(grid_view(r.0), cx, cy) == wall_tile(),
        r.2@.len() >= 1,
        forall|i: int|
            0 <= i < r.2@.len() ==> room_in_grid(#[trigger] r.2@[i], width as int, height as int),
        forall|i: int, j: int|
            0 <= i < j < r.2@.len() ==> !spec_intersects(r.2@[i], r.2@[j]),
        forall|i: int| 0 <= i < r.2@.len() ==> interior_floor(grid_view(r.0), #[trigger] r.2@[i]),
        r.1.0 == (r.2@[0].x1 + r.2@[0].x2) / 2,
        r.1.1 == (r.2@[0].y1 + r.2@[0].y2) / 2,
        rect_interior(r.2@[0], r.1.0 as int, r.1.1 as int),
        forall|cx: int, cy: int|
            0 <= cx < width && 0 <= cy < height && !(#[trigger] cell(
                grid_view(r.0),
                cx,
                cy,
            )).blocked ==> reachable(grid_view(r.0), (cx, cy), (r.1.0 as int, r.1.1 as int)),
        forall|cx: int, cy: int|
            on_border(width as int, height as int, cx, cy) ==> #[trigger] cell(
                grid_view(r.0),
                cx,
                cy,
            ) == wall_tile(),
        forall|cx: int, cy: int|
            0 <= cx < width && 0 <= cy < height && !(#[trigger] cell(
                grid_view(r.0),
                cx,
                cy,
            )).blocked ==> floor_accounted(r.2@, cx, cy),
        forall|k: int|
            0 <= k < old(objects)@.len() ==> #[trigger] final(objects)@[k] == old(objects)@[k],
        old(objects)@.len() <= final(objects)@.len(),
        forall|k: int|
            old(objects)@.len() <= k < final(objects)@.len() ==> spawn_ok(
                #[trigger] final(objects)@[k],
                grid_view(r.0),
                width as int,
                height as int,
            ),
        forall|k: int|
            old(objects)@.len() <= k < final(objects)@.len() ==> in_populated_room(
                #[trigger] final(objects)@[k],
                r.2@,
            ),
{
    let mut map: TileGrid = Vec::new();
    while map.len() < width
        invariant
            map@.len() <= width,
            11 <= height <= 4096,
            forall|i: int| 0 <= i < map@.len() ==> (#[trigger] grid_view(map)[i]).len() == height,
            forall|cx: int, cy: int|
                0 <= cx < map@.len() && 0 <= cy < height ==> #[trigger] cell(grid_view(map), cx, cy)
                    == wall_tile(),
        decreases width - map@.len(),
    {
        let mut col: Vec<Tile> = Vec::new();
        while col.len() < height
            invariant
                col@.len() <= height,
                forall|cy: int| 0 <= cy < col@.len() ==> #[trigger] col@[cy] == wall_tile(),
            decreases height - col@.len(),
        {
            col.push(Tile::wall());
        }
        let ghost gv0: Seq<Seq<Tile>> = grid_view(map);
        let ghost m0: Seq<Vec<Tile>> = map@;
        let ghost colv: Seq<Tile> = col@;
        map.push(col);
        proof {
            assert forall|cx: int, cy: int|
                0 <= cx < map@.len() && 0 <= cy < height implies #[trigger] cell(
                grid_view(map),
                cx,
                cy,
            ) == wall_tile() by {
                assert(grid_view(map)[cx] == map@[cx]@);
                if cx < m0.len() {
                    assert(map@[cx] == m0[cx]);
                    assert(gv0[cx] == m0[cx]@);
                    assert(cell(gv0, cx, cy) == wall_tile());
                } else {
                    assert(map@[cx]@ == colv);
                }
            }
            assert forall|i: int|
                0 <= i < map@.len() implies (#[trigger] grid_view(map)[i]).len() == height by {
                assert(grid_view(map)[i] == map@[i]@);
                if i < m0.len() {
                    assert(map@[i] == m0[i]);
                    assert(gv0[i] == m0[i]@);
                } else {
                    assert(map@[i]@ == colv);
                }
            }
        }
    }
    proof {
        assert(grid_wf(grid_view(map)));
    }

    let mut rooms: Vec<Rect> = Vec::new();

    let mut starting_position: (i32, i32) = (0, 0);

    let ghost w_int: int = width as int;
    let ghost h_int: int = height as int;
    let ghost n0: int = objects@.len() as int;

    let mut attempt: usize = 0;
    while attempt < MAX_ROOMS
        invariant
            11 <= width <= 4096,
            11 <= height <= 4096,
            w_int == width,
            h_int == height,
            n0 == old(objects)@.len(),
            grid_wf(grid_view(map)),
            gw(grid_view(map)) == width,
            gh(grid_view(map)) == height,
            forall|cx: int, cy: int|
                0 <= cx < width && 0 <= cy < height ==> #[trigger] cell(grid_view(map), cx, cy)
                    == empty_tile() || cell(grid_view(map), cx, cy) == wall_tile(),
            forall|i: int| 0 <= i < rooms@.len() ==> room_in_grid(#[trigger] rooms@[i], w_int, h_int),
            forall|i: int, j: int|
                0 <= i < j < rooms@.len() ==> !spec_intersects(rooms@[i], rooms@[j]),
            forall|i: int| 0 <= i < rooms@.len() ==> interior_floor(grid_view(map), #[trigger] rooms@[i]),
            attempt >= 1 ==> rooms@.len() >= 1,
            rooms@.len() == 0 ==> forall|cx: int, cy: int|
                0 <= cx < width && 0 <= cy < height ==> #[trigger] cell(grid_view(map), cx, cy)
                    == wall_tile(),
            forall|cx: int, cy: int|
                0 <= cx < width && 0 <= cy < height && !(#[trigger] cell(
                    grid_view(map),
                    cx,
                    cy,
                )).blocked ==> reachable(
                    grid_view(map),
                    (cx, cy),
                    (starting_position.0 as int, starting_position.1 as int),
                ),
            rooms@.len() >= 1 ==> {
                &&& starting_position.0 == (rooms@[0].x1 + rooms@[0].x2) / 2
                &&& starting_position.1 == (rooms@[0].y1 + rooms@[0].y2) / 2
                &&& rect_interior(
                    rooms@[0],
                    starting_position.0 as int,
                    starting_position.1 as int,
                )
            },
            forall|k: int| 0 <= k < n0 ==> #[trigger] objects@[k] == old(objects)@[k],
            n0 <= objects@.len(),
            forall|k: int|
                n0 <= k < objects@.len() ==> spawn_ok(
                    #[trigger] objects@[k],
                    grid_view(map),
                    w_int,
                    h_int,
                ),
            forall|k: int|
                n0 <= k < objects@.len() ==> in_populated_room(#[trigger] objects@[k], rooms@),
            forall|cx: int, cy: int|
                on_border(w_int, h_int, cx, cy) ==> #[trigger] cell(grid_view(map), cx, cy)
                    == wall_tile(),
            forall|cx: int, cy: int|
                0 <= cx < width && 0 <= cy < height && !(#[trigger] cell(
                    grid_view(map),
                    cx,
                    cy,
                )).blocked ==> floor_accounted(rooms@, cx, cy),
        decreases MAX_ROOMS - attempt,
    {
        let w = rand_range_i32(ROOM_MIN_SIZE, ROOM_MAX_SIZE + 1);
        let h = rand_range_i32(ROOM_MIN_SIZE, ROOM_MAX_SIZE + 1);
        let x = rand_range_i32(0, width as i32 - w);
        let y = rand_range_i32(0, height as i32 - h);

        let new_room = Rect::new(x, y, w, h);

        let nrooms: usize = rooms.len();
        let mut failed: bool = false;
        let mut ri: usize = 0;
        while ri < nrooms
            invariant
                nrooms == rooms@.len(),
                0 <= ri <= nrooms,
                failed == exists|k: int|
                    0 <= k < ri && spec_intersects(new_room, #[trigger] rooms@[k]),
            decreases nrooms - ri,
        {
            if new_room.intersects_with(&rooms[ri]) {
                failed = true;
            }
            ri += 1;
        }

        if !failed {
            let ghost objs_entry: Seq<Object> = objects@;
            let ghost g_pre: Seq<Seq<Tile>> = grid_view(map);
            create_room(new_room, &mut map);
            proof {
                lemma_carve_preserves(
                    g_pre,
                    grid_view(map),
                    rooms@,
                    objects@,
                    n0,
                    w_int,
                    h_int,
                );
                assert forall|cx: int, cy: int| #[trigger] rect_interior(new_room, cx, cy) implies cell(
                    grid_view(map),
                    cx,
                    cy,
                ) == empty_tile() by {
                    assert(0 <= cx < w_int && 0 <= cy < h_int);
                }
                assert(interior_floor(grid_view(map), new_room));
            }

            let (new_x, new_y) = new_room.center();
            proof {
                assert(room_in_grid(new_room, w_int, h_int));
                assert(new_room.x1 + 3 <= (new_room.x1 + new_room.x2) / 2 <= new_room.x2 - 3);
                assert(new_room.y1 + 3 <= (new_room.y1 + new_room.y2) / 2 <= new_room.y2 - 3);
                assert(rect_interior(new_room, new_x as int, new_y as int));
            }

            if rooms.len() == 0 {
                starting_position = (new_x, new_y);
                proof {
                    let g1 = grid_view(map);
                    assert forall|cx: int, cy: int|
                        0 <= cx < w_int && 0 <= cy < h_int && !(#[trigger] cell(
                            g1,
                            cx,
                            cy,
                        )).blocked implies reachable(
                        g1,
                        (cx, cy),
                        (new_x as int, new_y as int),
                    ) by {
                        if !rect_interior(new_room, cx, cy) {
                            assert(cell(g1, cx, cy) == cell(g_pre, cx, cy));
                            assert(cell(g_pre, cx, cy) == wall_tile());
                            assert(false);
                        }
                        lemma_room_connected(g1, new_room, cx, cy, new_x as int, new_y as int);
                    }
                    assert forall|cx: int, cy: int|
                        on_border(w_int, h_int, cx, cy) implies #[trigger] cell(
                        grid_view(map),
                        cx,
                        cy,
                    ) == wall_tile() by {
                        assert(cell(g_pre, cx, cy) == wall_tile());
                        assert(!rect_interior(new_room, cx, cy));
                        assert(cell(grid_view(map), cx, cy) == cell(g_pre, cx, cy));
                    }
                }
            } else {
                let prev = rooms[rooms.len() - 1];
                let (prev_x, prev_y) = prev.center();
                proof {
                    assert(room_in_grid(prev, w_int, h_int));
                    assert(prev.x1 + 3 <= (prev.x1 + prev.x2) / 2 <= prev.x2 - 3);
                    assert(prev.y1 + 3 <= (prev.y1 + prev.y2) / 2 <= prev.y2 - 3);
                    assert(rect_interior(prev, prev_x as int, prev_y as int));
                    assert(interior_floor(g_pre, prev));
                    assert(cell(g_pre, prev_x as int, prev_y as int) == empty_tile());
                }

                let ghost objs_pre: Seq<Object> = objects@;
                place_objects(new_room, objects);
                proof {
                    assert forall|k: int| n0 <= k < objects@.len() implies spawn_ok(
                        #[trigger] objects@[k],
                        grid_view(map),
                        w_int,
                        h_int,
                    ) by {
                        if k < objs_pre.len() {
                            assert(objects@[k] == objs_pre[k]);
                        } else {
                            assert(spawned_in(objects@[k], new_room));
                            assert(rect_interior(
                                new_room,
                                objects@[k].x as int,
                                objects@[k].y as int,
                            ));
                        }
                    }
                }

                if rand_coin() {
                    let ghost g_a: Seq<Seq<Tile>> = grid_view(map);
                    create_h_tunnel(prev_x, new_x, prev_y, &mut map);
                    proof {
                        lemma_carve_preserves(
                            g_a,
                            grid_view(map),
                            rooms@,
                            objects@,
                            n0,
                            w_int,
                            h_int,
                        );
                    }
                    let ghost g_b: Seq<Seq<Tile>> = grid_view(map);
                    create_v_tunnel(prev_y, new_y, new_x, &mut map);
                    proof {
                        lemma_carve_preserves(
                            g_b,
                            grid_view(map),
                            rooms@,
                            objects@,
                            n0,
                            w_int,
                            h_int,
                        );
                        let cur = grid_view(map);
                        let px = prev_x as int;
                        let py = prev_y as int;
                        let nxi = new_x as int;
                        let nyi = new_y as int;
                        let sp = (starting_position.0 as int, starting_position.1 as int);
                        assert forall|x0: int|
                            0 <= x0 < g_pre.len() implies (#[trigger] cur[x0]).len()
                            == g_pre[x0].len() by {
                            assert(g_a[x0].len() == g_pre[x0].len());
                            assert(g_b[x0].len() == g_a[x0].len());
                            assert(cur[x0].len() == g_b[x0].len());
                        }
                        assert(same_dims(g_pre, cur));
                        assert forall|cx: int, cy: int|
                            0 <= cx < w_int && 0 <= cy < h_int implies {
                            &&& (#[trigger] cell(cur, cx, cy) == empty_tile() || cell(cur, cx, cy)
                                == cell(g_pre, cx, cy))
                            &&& ((on_h_seg(px, nxi, py, cx, cy) || on_v_seg(py, nyi, nxi, cx, cy)
                                || rect_interior(new_room, cx, cy)) ==> cell(cur, cx, cy)
                                == empty_tile())
                            &&& (!cell(cur, cx, cy).blocked ==> on_h_seg(px, nxi, py, cx, cy)
                                || on_v_seg(py, nyi, nxi, cx, cy) || rect_interior(
                                new_room,
                                cx,
                                cy,
                            ) || !cell(g_pre, cx, cy).blocked)
                        } by {
                            assert(cell(g_b, cx, cy) == empty_tile() || cell(g_b, cx, cy) == cell(
                                g_a,
                                cx,
                                cy,
                            ));
                            assert(cell(g_a, cx, cy) == empty_tile() || cell(g_a, cx, cy) == cell(
                                g_pre,
                                cx,
                                cy,
                            ));
                        }
                        lemma_link_step(
                            g_pre,
                            cur,
                            new_room,
                            px,
                            py,
                            nxi,
                            nyi,
                            py,
                            nxi,
                            sp,
                        );
                    }
                } else {
                    let ghost g_a: Seq<Seq<Tile>> = grid_view(map);
                    create_v_tunnel(prev_y, new_y, prev_x, &mut map);
                    proof {
                        lemma_carve_preserves(
                            g_a,
                            grid_view(map),
                            rooms@,
                            objects@,
                            n0,
                            w_int,
                            h_int,
                        );
                    }
                    let ghost g_b: Seq<Seq<Tile>> = grid_view(map);
                    create_h_tunnel(prev_x, new_x, new_y, &mut map);
                    proof {
                        lemma_carve_preserves(
                            g_b,
                            grid_view(map),
                            rooms@,
                            objects@,
                            n0,
                            w_int,
                            h_int,
                        );
                        let cur = grid_view(map);
                        let px = prev_x as int;
                        let py = prev_y as int;
                        let nxi = new_x as int;
                        let nyi = new_y as int;
                        let sp = (starting_position.0 as int, starting_position.1 as int);
                        assert forall|x0: int|
                            0 <= x0 < g_pre.len() implies (#[trigger] cur[x0]).len()
                            == g_pre[x0].len() by {
                            assert(g_a[x0].len() == g_pre[x0].len());
                            assert(g_b[x0].len() == g_a[x0].len());
                            assert(cur[x0].len() == g_b[x0].len());
                        }
                        assert(same_dims(g_pre, cur));
                        assert forall|cx: int, cy: int|
                            0 <= cx < w_int && 0 <= cy < h_int implies {
                            &&& (#[trigger] cell(cur, cx, cy) == empty_tile() || cell(cur, cx, cy)
                                == cell(g_pre, cx, cy))
                            &&& ((on_h_seg(px, nxi, nyi, cx, cy) || on_v_seg(py, nyi, px, cx, cy)
                                || rect_interior(new_room, cx, cy)) ==> cell(cur, cx, cy)
                                == empty_tile())
                            &&& (!cell(cur, cx, cy).blocked ==> on_h_seg(px, nxi, nyi, cx, cy)
                                || on_v_seg(py, nyi, px, cx, cy) || rect_interior(
                                new_room,
                                cx,
                                cy,
                            ) || !cell(g_pre, cx, cy).blocked)
                        } by {
                            assert(cell(g_b, cx, cy) == empty_tile() || cell(g_b, cx, cy) == cell(
                                g_a,
                                cx,
                                cy,
                            ));
                            assert(cell(g_a, cx, cy) == empty_tile() || cell(g_a, cx, cy) == cell(
                                g_pre,
                                cx,
                                cy,
                            ));
                        }
                        lemma_link_step(
                            g_pre,
                            cur,
                            new_room,
                            px,
                            py,
                            nxi,
                            nyi,
                            nyi,
                            px,
                            sp,
                        );
                    }
                }
                proof {
                    assert forall|cx: int, cy: int| #[trigger] rect_interior(
                        new_room,
                        cx,
                        cy,
                    ) implies cell(grid_view(map), cx, cy) == empty_tile() by {
                        assert(0 <= cx < w_int && 0 <= cy < h_int);
                    }
                    assert(interior_floor(grid_view(map), new_room));
                    assert forall|cx: int, cy: int|
                        on_border(w_int, h_int, cx, cy) implies #[trigger] cell(
                        grid_view(map),
                        cx,
                        cy,
                    ) == wall_tile() by {
                        assert(cell(g_pre, cx, cy) == wall_tile());
                        assert(!rect_interior(new_room, cx, cy));
                        if cell(grid_view(map), cx, cy) != cell(g_pre, cx, cy) {
                            assert(cell(grid_view(map), cx, cy) == empty_tile());
                            assert(!cell(grid_view(map), cx, cy).blocked);
                            assert(false);
                        }
                    }
                }
            }

            let ghost rooms_pre: Seq<Rect> = rooms@;
            rooms.push(new_room);
            proof {
                assert(forall|i: int| 0 <= i < rooms_pre.len() ==> rooms@[i] == rooms_pre[i]);
                assert(rooms@[rooms@.len() - 1] == new_room);
                assert(rect_interior(
                    new_room,
                    (new_room.x1 + new_room.x2) / 2,
                    (new_room.y1 + new_room.y2) / 2,
                ));
                assert forall|cx: int, cy: int|
                    0 <= cx < w_int && 0 <= cy < h_int && !(#[trigger] cell(
                        grid_view(map),
                        cx,
                        cy,
                    )).blocked implies floor_accounted(rooms@, cx, cy) by {
                    let last = rooms@.len() - 1;
                    if !cell(g_pre, cx, cy).blocked {
                        assert(floor_accounted(rooms_pre, cx, cy));
                        if exists|i: int|
                            0 <= i < rooms_pre.len() && rect_interior(
                                #[trigger] rooms_pre[i],
                                cx,
                                cy,
                            ) {
                            let i0 = choose|i: int|
                                0 <= i < rooms_pre.len() && rect_interior(
                                    #[trigger] rooms_pre[i],
                                    cx,
                                    cy,
                                );
                            assert(rooms@[i0] == rooms_pre[i0]);
                            assert(rect_interior(rooms@[i0], cx, cy));
                        } else {
                            let i0 = choose|i: int|
                                1 <= i < rooms_pre.len() && on_link(
                                    rooms_pre[i - 1],
                                    #[trigger] rooms_pre[i],
                                    cx,
                                    cy,
                                );
                            assert(rooms@[i0] == rooms_pre[i0] && rooms@[i0 - 1] == rooms_pre[i0
                                - 1]);
                            assert(on_link(rooms@[i0 - 1], rooms@[i0], cx, cy));
                        }
                    } else if rect_interior(new_room, cx, cy) {
                        assert(rooms@[last] == new_room);
                        assert(rect_interior(rooms@[last], cx, cy));
                    } else {
                        assert(rooms_pre.len() >= 1);
                        let prevr = rooms_pre[rooms_pre.len() - 1];
                        assert(rooms@[last - 1] == prevr && rooms@[last] == new_room);
                        assert(rect_center(prevr) == ((prevr.x1 + prevr.x2) / 2, (prevr.y1
                            + prevr.y2) / 2));
                        assert(on_link(rooms@[last - 1], rooms@[last], cx, cy));
                        assert(1 <= last);
                    }
                }
                assert forall|k: int|
                    n0 <= k < objects@.len() implies in_populated_room(
                    #[trigger] objects@[k],
                    rooms@,
                ) by {
                    if k < objs_entry.len() {
                        assert(in_populated_room(objs_entry[k], rooms_pre));
                        let i0 = choose|i: int|
                            1 <= i < rooms_pre.len() && rect_interior(
                                rooms_pre[i],
                                objs_entry[k].x as int,
                                objs_entry[k].y as int,
                            );
                        assert(objects@[k] == objs_entry[k]);
                        assert(rooms@[i0] == rooms_pre[i0]);
                        assert(rect_interior(
                            rooms@[i0],
                            objects@[k].x as int,
                            objects@[k].y as int,
                        ));
                    } else {
                        assert(spawned_in(objects@[k], new_room));
                        let last = rooms@.len() - 1;
                        assert(rooms@[last] == new_room);
                        assert(1 <= last < rooms@.len());
                        assert(rect_interior(
                            rooms@[last],
                            objects@[k].x as int,
                            objects@[k].y as int,
                        ));
                    }
                }
            }
        }
        attempt += 1;
    }

    (map, starting_position, rooms)
}

/// Generate a dungeon: the tile grid and the player start position, with
/// the spawned monsters and items appended to `objects`.
pub fn make_map(height: usize, width: usize, objects: &mut Vec<Object>) -> (r: (
    TileGrid,
    (i32, i32),
))
    requires
        11 <= width <= 4096,
        11 <= height <= 4096,
    ensures
        grid_wf(grid_view(r.0)),
        gw(grid_view(r.0)) == width,
        gh(grid_view(r.0)) == height,
        forall|cx: int, cy: int|
            0 <= cx < width && 0 <= cy < height ==> #[trigger] cell(grid_view(r.0), cx, cy)
                == empty_tile() || cell(grid_view(r.0), cx, cy) == wall_tile(),
        in_bounds(grid_view(r.0), r.1.0 as int, r.1.1 as int),
        !cell(grid_view(r.0), r.1.0 as int, r.1.1 as int).blocked,
        forall|cx: int, cy: int|
            0 <= cx < width && 0 <= cy < height && !(#[trigger] cell(
                grid_view(r.0),
                cx,
                cy,
            )).blocked ==> reachable(grid_view(r.0), (cx, cy), (r.1.0 as int, r.1.1 as int)),
        forall|cx: int, cy: int|
            on_border(width as int, height as int, cx, cy) ==> #[trigger] cell(
                grid_view(r.0),
                cx,
                cy,
            ) == wall_tile(),
        forall|k: int|
            0 <= k < old(objects)@.len() ==> #[trigger] final(objects)@[k] == old(objects)@[k],
        old(objects)@.len() <= final(objects)@.len(),
        forall|k: int|
            old(objects)@.len() <= k < final(objects)@.len() ==> spawn_ok(
                #[trigger] final(objects)@[k],
                grid_view(r.0),
                width as int,
                height as int,
            ),
{
    let (map, starting_position, rooms) = make_map_with_rooms(height, width, objects);
    proof {
        let g = grid_view(map);
        assert(room_in_grid(rooms@[0], width as int, height as int));
        assert(rect_interior(rooms@[0], starting_position.0 as int, starting_position.1 as int));
        assert(interior_floor(g, rooms@[0]));
        assert(cell(g, starting_position.0 as int, starting_position.1 as int) == empty_tile());
    }
    (map, starting_position)
}

} // verus!
