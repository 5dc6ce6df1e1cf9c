//! Reachability over floor cells: paths of orthogonally adjacent,
//! unblocked cells. The generator's connectivity guarantee — every carved
//! floor cell reaches the player start — is stated and proved with these.

use vstd::prelude::*;

use crate::fov::iabs;
use crate::mapgen::imax;
use crate::mapgen::imin;
use crate::mapgen::same_dims;
use crate::tile::Tile;
use crate::tile::cell;
use crate::tile::empty_tile;
use crate::tile::gh;
use crate::tile::grid_wf;
use crate::tile::gw;
use crate::tile::in_bounds;

verus! {

/// Two cells share an edge.
pub open spec fn adjacent(a: (int, int), b: (int, int)) -> bool {
    iabs(a.0 - b.0) + iabs(a.1 - b.1) == 1
}

/// A walk over the grid: every cell on it is an unblocked cell of the
/// grid, and consecutive cells share an edge.
pub open spec fn path_ok(g: Seq<Seq<Tile>>, p: Seq<(int, int)>) -> bool {
    &&& p.len() >= 1
    &&& forall|i: int|
        0 <= i < p.len() ==> in_bounds(g, (#[trigger] p[i]).0, p[i].1) && !cell(
            g,
            p[i].0,
            p[i].1,
        ).blocked
    &&& forall|i: int| 0 <= i < p.len() - 1 ==> adjacent(#[trigger] p[i], p[i + 1])
}

/// There is a walk over floor cells from `a` to `b`.
pub open spec fn reachable(g: Seq<Seq<Tile>>, a: (int, int), b: (int, int)) -> bool {
    exists|p: Seq<(int, int)>| path_ok(g, p) && p[0] == a && p[p.len() - 1] == b
}

/// Walks compose.
pub proof fn lemma_reach_trans(g: Seq<Seq<Tile>>, a: (int, int), b: (int, int), c: (int, int))
    requires
        reachable(g, a, b),
        reachable(g, b, c),
    ensures
        reachable(g, a, c),
{
    let p1 = choose|p: Seq<(int, int)>| path_ok(g, p) && p[0] == a && p[p.len() - 1] == b;
    let p2 = choose|p: Seq<(int, int)>| path_ok(g, p) && p[0] == b && p[p.len() - 1] == c;
    if p2.len() == 1 {
        assert(path_ok(g, p1) && p1[0] == a && p1[p1.len() - 1] == c);
    } else {
        let p = p1 + p2.subrange(1, p2.len() as int);
        let n1 = p1.len() as int;
        assert forall|i: int|
            0 <= i < p.len() implies in_bounds(g, (#[trigger] p[i]).0, p[i].1) && !cell(
            g,
            p[i].0,
            p[i].1,
        ).blocked by {
            if i < n1 {
                assert(p[i] == p1[i]);
            } else {
                assert(p[i] == p2[i - n1 + 1]);
            }
        }
        assert forall|i: int| 0 <= i < p.len() - 1 implies adjacent(#[trigger] p[i], p[i + 1]) by {
            if i < n1 - 1 {
                assert(p[i] == p1[i] && p[i + 1] == p1[i + 1]);
            } else if i == n1 - 1 {
                assert(p[i] == p1[n1 - 1] && p1[n1 - 1] == b && p2[0] == b);
                assert(p[i + 1] == p2[1]);
                assert(adjacent(p2[0], p2[1]));
            } else {
                assert(p[i] == p2[i - n1 + 1] && p[i + 1] == p2[i - n1 + 2]);
                assert(adjacent(p2[i - n1 + 1], p2[i - n1 + 2]));
            }
        }
        assert(p[0] == a && p[p.len() - 1] == c);
        assert(path_ok(g, p));
    }
}

/// A horizontal run of unblocked cells connects its two ends.
pub proof fn lemma_seg_h(g: Seq<Seq<Tile>>, xa: int, xb: int, y: int)
    requires
        forall|x: int|
            imin(xa, xb) <= x <= imax(xa, xb) ==> in_bounds(g, x, y) && !(#[trigger] cell(
                g,
                x,
                y,
            )).blocked,
    ensures
        reachable(g, (xa, y), (xb, y)),
{
    if xb >= xa {
        let n = xb - xa + 1;
        let p = Seq::new(n as nat, |i: int| (xa + i, y));
        assert forall|i: int|
            0 <= i < p.len() implies in_bounds(g, (#[trigger] p[i]).0, p[i].1) && !cell(
            g,
            p[i].0,
            p[i].1,
        ).blocked by {
            assert(p[i] == (xa + i, y));
            assert(imin(xa, xb) <= xa + i <= imax(xa, xb));
            assert(!cell(g, xa + i, y).blocked);
        }
        assert forall|i: int| 0 <= i < p.len() - 1 implies adjacent(#[trigger] p[i], p[i + 1]) by {
            assert(p[i] == (xa + i, y) && p[i + 1] == (xa + i + 1, y));
        }
        assert(path_ok(g, p) && p[0] == (xa, y) && p[p.len() - 1] == (xb, y));
    } else {
        let n = xa - xb + 1;
        let p = Seq::new(n as nat, |i: int| (xa - i, y));
        assert forall|i: int|
            0 <= i < p.len() implies in_bounds(g, (#[trigger] p[i]).0, p[i].1) && !cell(
            g,
            p[i].0,
            p[i].1,
        ).blocked by {
            assert(p[i] == (xa - i, y));
            assert(imin(xa, xb) <= xa - i <= imax(xa, xb));
            assert(!cell(g, xa - i, y).blocked);
        }
        assert forall|i: int| 0 <= i < p.len() - 1 implies adjacent(#[trigger] p[i], p[i + 1]) by {
            assert(p[i] == (xa - i, y) && p[i + 1] == (xa - i - 1, y));
        }
        assert(path_ok(g, p) && p[0] == (xa, y) && p[p.len() - 1] == (xb, y));
    }
}

/// A vertical run of unblocked cells connects its two ends.
pub proof fn lemma_seg_v(g: Seq<Seq<Tile>>, ya: int, yb: int, x: int)
    requires
        forall|y: int|
            imin(ya, yb) <= y <= imax(ya, yb) ==> in_bounds(g, x, y) && !(#[trigger] cell(
                g,
                x,
                y,
            )).blocked,
    ensures
        reachable(g, (x, ya), (x, yb)),
{
    if yb >= ya {
        let n = yb - ya + 1;
        let p = Seq::new(n as nat, |i: int| (x, ya + i));
        assert forall|i: int|
            0 <= i < p.len() implies in_bounds(g, (#[trigger] p[i]).0, p[i].1) && !cell(
            g,
            p[i].0,
            p[i].1,
        ).blocked by {
            assert(p[i] == (x, ya + i));
            assert(imin(ya, yb) <= ya + i <= imax(ya, yb));
            assert(!cell(g, x, ya + i).blocked);
        }
        assert forall|i: int| 0 <= i < p.len() - 1 implies adjacent(#[trigger] p[i], p[i + 1]) by {
            assert(p[i] == (x, ya + i) && p[i + 1] == (x, ya + i + 1));
        }
        assert(path_ok(g, p) && p[0] == (x, ya) && p[p.len() - 1] == (x, yb));
    } else {
        let n = ya - yb + 1;
        let p = Seq::new(n as nat, |i: int| (x, ya - i));
        assert forall|i: int|
            0 <= i < p.len() implies in_bounds(g, (#[trigger] p[i]).0, p[i].1) && !cell(
            g,
            p[i].0,
            p[i].1,
        ).blocked by {
            assert(p[i] == (x, ya - i));
            assert(imin(ya, yb) <= ya - i <= imax(ya, yb));
            assert(!cell(g, x, ya - i).blocked);
        }
        assert forall|i: int| 0 <= i < p.len() - 1 implies adjacent(#[trigger] p[i], p[i + 1]) by {
            assert(p[i] == (x, ya - i) && p[i + 1] == (x, ya - i - 1));
        }
        assert(path_ok(g, p) && p[0] == (x, ya) && p[p.len() - 1] == (x, yb));
    }
}

/// Turning cells to floor never disconnects anything: a walk stays valid
/// when every cell is either carved to floor or left unchanged.
pub proof fn lemma_floor_monotone(
    g1: Seq<Seq<Tile>>,
    g2: Seq<Seq<Tile>>,
    a: (int, int),
    b: (int, int),
)
    requires
        grid_wf(g1),
        same_dims(g1, g2),
        forall|x: int, y: int|
            0 <= x < gw(g1) && 0 <= y < gh(g1) ==> #[trigger] cell(g2, x, y) == empty_tile()
                || cell(g2, x, y) == cell(g1, x, y),
        reachable(g1, a, b),
    ensures
        reachable(g2, a, b),
{
    let p = choose|p: Seq<(int, int)>| path_ok(g1, p) && p[0] == a && p[p.len() - 1] == b;
    assert forall|i: int|
        0 <= i < p.len() implies in_bounds(g2, (#[trigger] p[i]).0, p[i].1) && !cell(
        g2,
        p[i].0,
        p[i].1,
    ).blocked by {
        assert(in_bounds(g1, p[i].0, p[i].1));
        assert(gw(g2) == gw(g1));
        assert(g2[0].len() == g1[0].len());
        assert(cell(g2, p[i].0, p[i].1) == empty_tile() || cell(g2, p[i].0, p[i].1) == cell(
            g1,
            p[i].0,
            p[i].1,
        ));
    }
    assert(path_ok(g2, p));
}

} // verus!
