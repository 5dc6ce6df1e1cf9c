//! The turn engine: one command resolved per cycle.
//!
//! A cycle resolves the player's command first — exit, a bump (attack or
//! move), or nothing — and, exactly when the player took a turn and is
//! alive, drives every AI-capable entity once, in registry order. An AI
//! entity acts only while it stands in the player's visible set ("if you
//! can see it, it can see you"); it steps toward the player when far and
//! strikes when adjacent and the player is alive.

use vstd::prelude::*;

use crate::fov::Fov;
use crate::fov::dist2;
use crate::object::Object;
use crate::object::bump_effect;
use crate::object::move_effect;
use crate::object::step_coord;
use crate::object::strike;
use crate::object::strike_effect;
use crate::object::strike_targets_safe;
use crate::resources::MesLogs;
use crate::resources::VirtualKey;
use crate::tile::Tile;
use crate::tile::TileGrid;
use crate::tile::gh;
use crate::tile::gw;
use crate::tile::grid_view;
use crate::tile::grid_wf;
use crate::tile::in_bounds;

verus! {

/// What resolving one command amounted to: the player spent its turn, did
/// not, or asked to leave.
#[derive(Clone, Copy, Debug, PartialEq, Eq, Structural)]
pub enum PlayerAction {
    TookTurn,
    NoTurn,
    Exit,
}

/// The one-cell displacement a movement command asks for; `None` for
/// commands that are no movement.
pub open spec fn key_delta(k: VirtualKey) -> Option<(int, int)> {
    match k {
        VirtualKey::MoveUp => Some((0int, -1int)),
        VirtualKey::MoveDown => Some((0int, 1int)),
        VirtualKey::MoveLeft => Some((-1int, 0int)),
        VirtualKey::MoveRight => Some((1int, 0int)),
        _ => None,
    }
}

/// Every entity stands on a cell of the grid.
pub open spec fn positions_in_bounds(objs: Seq<Object>, g: Seq<Seq<Tile>>) -> bool {
    forall|i: int|
        0 <= i < objs.len() ==> in_bounds(
            g,
            (#[trigger] objs[i]).x as int,
            objs[i].y as int,
        )
}

/// Resolve the player's command. Exit commands end the game; while the
/// player is alive a movement command bumps it in that direction — an
/// attack on an occupied destination, a movement attempt otherwise — and
/// consumes the turn even when the move is rejected by a wall. All other
/// commands, and every command while the player is dead, take no turn and
/// change nothing.
pub fn handle_keys(
    key: VirtualKey,
    map: &TileGrid,
    objects: &mut Vec<Object>,
    log: &mut MesLogs,
) -> (r: PlayerAction)
    requires
        old(objects)@.len() >= 1,
        grid_wf(grid_view(*map)),
        in_bounds(grid_view(*map), old(objects)@[0].x as int, old(objects)@[0].y as int),
        strike_targets_safe(old(objects)@, 0),
    ensures
        (r is Exit) == (key is Exit),
        (r is TookTurn) == (!(key is Exit) && key_delta(key) is Some && old(objects)@[0].alive),
        r is TookTurn ==> bump_effect(
            grid_view(*map),
            old(objects)@,
            final(objects)@,
            0,
            key_delta(key).unwrap().0,
            key_delta(key).unwrap().1,
            old(log).lines(),
            final(log).lines(),
        ),
        !(r is TookTurn) ==> final(objects)@ == old(objects)@ && *final(log) == *old(log),
        final(log).logs == old(log).logs,
{
    let player_alive: bool = objects[0].alive;

    match (key, player_alive) {
        (VirtualKey::Exit, _) => PlayerAction::Exit,
        (VirtualKey::MoveUp, true) => {
            Object::attack_move(0, 0, -1, map, objects, log);
            PlayerAction::TookTurn
        },
        (VirtualKey::MoveDown, true) => {
            Object::attack_move(0, 0, 1, map, objects, log);
            PlayerAction::TookTurn
        },
        (VirtualKey::MoveLeft, true) => {
            Object::attack_move(0, -1, 0, map, objects, log);
            PlayerAction::TookTurn
        },
        (VirtualKey::MoveRight, true) => {
            Object::attack_move(0, 1, 0, map, objects, log);
            PlayerAction::TookTurn
        },
        _ => PlayerAction::NoTurn,
    }
}

/// What one AI entity's turn does, as a relation between the registry and
/// narration before and after. Outside the player's visible set the entity
/// does nothing at all ("if you can see it, it can see you"). Inside it,
/// at squared distance at least 4 from the player (Euclidean distance at
/// least 2) it takes one rounded unit step toward the player; closer than
/// that it strikes the player, but only while the player is still alive.
pub open spec fn ai_turn_rel(
    g: Seq<Seq<Tile>>,
    f: Fov,
    pre: Seq<Object>,
    post: Seq<Object>,
    logpre: Seq<Seq<char>>,
    logpost: Seq<Seq<char>>,
    idx: int,
) -> bool {
    let mx = pre[idx].x as int;
    let my = pre[idx].y as int;
    let px = pre[0].x as int;
    let py = pre[0].y as int;
    if !f.spec_in_fov(mx, my) {
        post == pre && logpost == logpre
    } else if dist2(mx, my, px, py) >= 4 {
        move_effect(g, pre, post, idx, step_coord(px - mx, py - my), step_coord(py - my, px - mx))
            && logpost == logpre
    } else {
        let alive = match pre[0].hp {
            Some(h) => h.current > 0,
            None => false,
        };
        if alive {
            &&& post.len() == pre.len()
            &&& forall|k: int| 1 <= k < pre.len() ==> post[k] == pre[k]
            &&& strike_effect(pre[idx].name@, pre[idx].melee, pre[0], post[0], logpre, logpost)
        } else {
            post == pre && logpost == logpre
        }
    }
}

/// One step of the AI pass at index `i`: the entity reacts per
/// `ai_turn_rel` when it carries an AI slot, and is skipped otherwise.
pub open spec fn ai_step_rel(
    g: Seq<Seq<Tile>>,
    f: Fov,
    pre: Seq<Object>,
    post: Seq<Object>,
    logpre: Seq<Seq<char>>,
    logpost: Seq<Seq<char>>,
    i: int,
) -> bool {
    if pre[i].ai is Some {
        ai_turn_rel(g, f, pre, post, logpre, logpost, i)
    } else {
        post == pre && logpost == logpre
    }
}

/// The AI pass as a chain of steps: from state `pre`, the entities at
/// indices `i`, `i + 1`, ..., `i + left - 1` react one after another, in
/// registry order, ending in state `post`.
pub open spec fn ai_pass_rel(
    g: Seq<Seq<Tile>>,
    f: Fov,
    pre: Seq<Object>,
    post: Seq<Object>,
    logpre: Seq<Seq<char>>,
    logpost: Seq<Seq<char>>,
    i: int,
    left: nat,
) -> bool
    decreases left,
{
    if left == 0 {
        post == pre && logpost == logpre
    } else {
        exists|mid: Seq<Object>, logmid: Seq<Seq<char>>|
            ai_step_rel(g, f, pre, mid, logpre, logmid, i) && ai_pass_rel(
                g,
                f,
                mid,
                post,
                logmid,
                logpost,
                i + 1,
                (left - 1) as nat,
            )
    }
}

/// A step chain extends by one more step at its end.
proof fn lemma_ai_pass_snoc(
    g: Seq<Seq<Tile>>,
    f: Fov,
    a: Seq<Object>,
    b: Seq<Object>,
    c: Seq<Object>,
    la: Seq<Seq<char>>,
    lb: Seq<Seq<char>>,
    lc: Seq<Seq<char>>,
    i: int,
    left: nat,
)
    requires
        ai_pass_rel(g, f, a, b, la, lb, i, left),
        ai_step_rel(g, f, b, c, lb, lc, i + left),
    ensures
        ai_pass_rel(g, f, a, c, la, lc, i, (left + 1) as nat),
    decreases left,
{
    if left == 0 {
        assert(ai_step_rel(g, f, a, c, la, lc, i));
        assert(ai_pass_rel(g, f, c, c, lc, lc, i + 1, 0));
        assert(ai_pass_rel(g, f, a, c, la, lc, i, 1));
    } else {
        let (mid, logmid) = choose|mid: Seq<Object>, logmid: Seq<Seq<char>>|
            ai_step_rel(g, f, a, mid, la, logmid, i) && ai_pass_rel(
                g,
                f,
                mid,
                b,
                logmid,
                lb,
                i + 1,
                (left - 1) as nat,
            );
        lemma_ai_pass_snoc(g, f, mid, b, c, logmid, lb, lc, i + 1, (left - 1) as nat);
        assert(ai_step_rel(g, f, a, mid, la, logmid, i) && ai_pass_rel(
            g,
            f,
            mid,
            c,
            logmid,
            lc,
            i + 1,
            left,
        ));
        assert(ai_pass_rel(g, f, a, c, la, lc, i, (left + 1) as nat));
    }
}

/// Drive one AI entity for this cycle, exactly as `ai_turn_rel` relates
/// the registry and narration before and after.
pub fn ai_take_turn(
    idx: usize,
    map: &TileGrid,
    objects: &mut Vec<Object>,
    fov: &Fov,
    log: &mut MesLogs,
)
    requires
        1 <= idx < old(objects)@.len(),
        grid_wf(grid_view(*map)),
        in_bounds(
            grid_view(*map),
            old(objects)@[idx as int].x as int,
            old(objects)@[idx as int].y as int,
        ),
        in_bounds(grid_view(*map), old(objects)@[0].x as int, old(objects)@[0].y as int),
    ensures
        ai_turn_rel(
            grid_view(*map),
            *fov,
            old(objects)@,
            final(objects)@,
            old(log).lines(),
            final(log).lines(),
            idx as int,
        ),
        final(objects)@.len() == old(objects)@.len(),
        positions_in_bounds(old(objects)@, grid_view(*map)) ==> positions_in_bounds(
            final(objects)@,
            grid_view(*map),
        ),
        final(objects)@[0].ai == old(objects)@[0].ai || final(objects)@[0].ai is None,
        final(log).logs == old(log).logs,
{
    let mx: i32 = objects[idx].x;
    let my: i32 = objects[idx].y;
    if fov.is_in_fov(mx, my) {
        let d2: i64 = objects[idx].distance_sq(&objects[0]);
        if d2 >= 4 {
            let px: i32 = objects[0].x;
            let py: i32 = objects[0].y;
            Object::move_towards(idx, px, py, map, objects);
            proof {
                if positions_in_bounds(old(objects)@, grid_view(*map)) {
                    assert forall|i: int| 0 <= i < objects@.len() implies in_bounds(
                        grid_view(*map),
                        (#[trigger] objects@[i]).x as int,
                        objects@[i].y as int,
                    ) by {
                        if objects@ != old(objects)@ && i == idx {
                        } else {
                            assert(objects@[i] == old(objects)@[i]);
                        }
                    }
                }
            }
        } else {
            let player_alive: bool = match &objects[0].hp {
                Some(h) => h.current > 0,
                None => false,
            };
            if player_alive {
                let att_name = objects[idx].name.clone();
                let att_melee = objects[idx].melee;
                strike(&att_name, &att_melee, &mut objects[0], log);
                proof {
                    if positions_in_bounds(old(objects)@, grid_view(*map)) {
                        assert forall|i: int| 0 <= i < objects@.len() implies in_bounds(
                            grid_view(*map),
                            (#[trigger] objects@[i]).x as int,
                            objects@[i].y as int,
                        ) by {
                            if i != 0 {
                                assert(objects@[i] == old(objects)@[i]);
                            }
                        }
                    }
                }
            }
        }
    }
}

/// Run one full cycle: resolve the player's command, then — exactly when
/// the player took its turn and is alive — drive every AI-capable entity
/// once, in registry order. On a taken turn the final registry and
/// narration are the player's bump followed by the chain of AI reactions,
/// as `bump_effect` and `ai_pass_rel` relate them.
pub fn run_cycle(
    key: VirtualKey,
    map: &TileGrid,
    objects: &mut Vec<Object>,
    fov: &Fov,
    log: &mut MesLogs,
) -> (r: PlayerAction)
    requires
        old(objects)@.len() >= 1,
        grid_wf(grid_view(*map)),
        positions_in_bounds(old(objects)@, grid_view(*map)),
        strike_targets_safe(old(objects)@, 0),
        old(objects)@[0].ai is None,
    ensures
        (r is Exit) == (key is Exit),
        (r is TookTurn) == (!(key is Exit) && key_delta(key) is Some && old(objects)@[0].alive),
        !(r is TookTurn) ==> final(objects)@ == old(objects)@ && *final(log) == *old(log),
        r is TookTurn ==> exists|mid: Seq<Object>, logmid: Seq<Seq<char>>|
            {
                &&& bump_effect(
                    grid_view(*map),
                    old(objects)@,
                    mid,
                    0,
                    key_delta(key).unwrap().0,
                    key_delta(key).unwrap().1,
                    old(log).lines(),
                    logmid,
                )
                &&& ai_pass_rel(
                    grid_view(*map),
                    *fov,
                    mid,
                    final(objects)@,
                    logmid,
                    final(log).lines(),
                    0,
                    old(objects)@.len() as nat,
                )
            },
        final(objects)@.len() == old(objects)@.len(),
        positions_in_bounds(final(objects)@, grid_view(*map)),
        final(objects)@[0].ai is None,
        final(log).logs == old(log).logs,
{
    let ghost g: Seq<Seq<Tile>> = grid_view(*map);
    let action = handle_keys(key, map, objects, log);
    let ghost mid0: Seq<Object> = objects@;
    let ghost logmid0: Seq<Seq<char>> = log.lines();
    proof {
        if action is TookTurn {
            lemma_bump_preserves(
                g,
                old(objects)@,
                objects@,
                key_delta(key).unwrap().0,
                key_delta(key).unwrap().1,
                old(log).lines(),
                log.lines(),
            );
        }
    }

    let player_alive: bool = objects[0].alive;
    if player_alive && action == PlayerAction::TookTurn {
        let n: usize = objects.len();
        let mut idx: usize = 0;
        while idx < n
            invariant
                n == objects@.len(),
                n >= 1,
                0 <= idx <= n,
                grid_wf(g),
                g == grid_view(*map),
                positions_in_bounds(objects@, g),
                objects@[0].ai is None,
                log.logs == old(log).logs,
                ai_pass_rel(g, *fov, mid0, objects@, logmid0, log.lines(), 0, idx as nat),
            decreases n - idx,
        {
            let ghost s_pre: Seq<Object> = objects@;
            let ghost l_pre: Seq<Seq<char>> = log.lines();
            let has_ai: bool = objects[idx].ai.is_some();
            if has_ai {
                ai_take_turn(idx, map, objects, fov, log);
            }
            proof {
                assert(ai_step_rel(g, *fov, s_pre, objects@, l_pre, log.lines(), idx as int));
                lemma_ai_pass_snoc(
                    g,
                    *fov,
                    mid0,
                    s_pre,
                    objects@,
                    logmid0,
                    l_pre,
                    log.lines(),
                    0,
                    idx as nat,
                );
            }
            idx += 1;
        }
    }
    proof {
        if action is TookTurn {
            assert(ai_pass_rel(
                g,
                *fov,
                mid0,
                objects@,
                logmid0,
                log.lines(),
                0,
                old(objects)@.len() as nat,
            ));
        }
    }
    action
}

/// The names collected from the first `n` entities that stand on the
/// visible cell (x, y), in registry order.
pub open spec fn names_upto(objs: Seq<Object>, f: Fov, x: int, y: int, n: int) -> Seq<Seq<char>>
    decreases n,
{
    if n <= 0 {
        Seq::empty()
    } else {
        let prefix = names_upto(objs, f, x, y, n - 1);
        if objs[n - 1].x == x && objs[n - 1].y == y && f.spec_in_fov(x, y) {
            prefix.push(objs[n - 1].name@)
        } else {
            prefix
        }
    }
}

/// The names of every entity standing on cell (x, y) while that cell is
/// visible, in registry order: what a HUD shows for a hovered cell.
pub fn names_at(x: i32, y: i32, objects: &Vec<Object>, fov: &Fov) -> (names: Vec<String>)
    ensures
        names.deep_view() == names_upto(objects@, *fov, x as int, y as int, objects@.len() as int),
{
    let mut names: Vec<String> = Vec::new();
    let n: usize = objects.len();
    let mut i: usize = 0;
    while i < n
        invariant
            n == objects@.len(),
            0 <= i <= n,
            names.deep_view() == names_upto(objects@, *fov, x as int, y as int, i as int),
        decreases n - i,
    {
        let o = &objects[i];
        if o.x == x && o.y == y && fov.is_in_fov(o.x, o.y) {
            names.push(o.name.clone());
            proof {
                assert(names.deep_view() =~= names_upto(
                    objects@,
                    *fov,
                    x as int,
                    y as int,
                    i + 1,
                ));
            }
        }
        i += 1;
    }
    names
}

/// A bump by the player keeps every entity on the grid, keeps the
/// registry's length, and leaves the player's AI slot empty.
proof fn lemma_bump_preserves(
    g: Seq<Seq<Tile>>,
    pre: Seq<Object>,
    post: Seq<Object>,
    dx: int,
    dy: int,
    lp: Seq<Seq<char>>,
    lq: Seq<Seq<char>>,
)
    requires
        grid_wf(g),
        pre.len() >= 1,
        positions_in_bounds(pre, g),
        pre[0].ai is None,
        !(dx == 0 && dy == 0),
        bump_effect(g, pre, post, 0, dx, dy, lp, lq),
    ensures
        post.len() == pre.len(),
        positions_in_bounds(post, g),
        post[0].ai is None,
        post[0].alive == pre[0].alive,
{
    match crate::object::first_melee_at(pre, pre[0].x + dx, pre[0].y + dy, 0) {
        Some(j) => {
            crate::object::lemma_first_melee_at_found(pre, pre[0].x + dx, pre[0].y + dy, 0, j);
            assert(pre[j].x == pre[0].x + dx && pre[j].y == pre[0].y + dy);
            assert(j != 0);
            crate::object::lemma_strike_keeps(
                pre[0].name@,
                pre[0].melee,
                pre[j],
                post[j],
                lp,
                lq,
            );
            assert forall|i: int| 0 <= i < post.len() implies in_bounds(
                g,
                (#[trigger] post[i]).x as int,
                post[i].y as int,
            ) by {
                assert(0 <= i < pre.len());
                assert(in_bounds(g, pre[i].x as int, pre[i].y as int));
                if i == j {
                    assert(post[j].x == pre[j].x && post[j].y == pre[j].y);
                } else {
                    assert(post[i] == pre[i]);
                }
                assert(post[i].x == pre[i].x && post[i].y == pre[i].y);
                assert(0 <= post[i].x as int && (post[i].x as int) < gw(g));
                assert(0 <= post[i].y as int && (post[i].y as int) < gh(g));
            }
        },
        None => {
            let tx = pre[0].x + dx;
            let ty = pre[0].y + dy;
            if in_bounds(g, tx, ty) && !crate::object::spec_is_blocked(g, pre, tx, ty) {
                assert(post == pre.update(0, crate::object::moved_to(pre[0], tx, ty)));
                assert forall|i: int| 0 <= i < post.len() implies in_bounds(
                    g,
                    (#[trigger] post[i]).x as int,
                    post[i].y as int,
                ) by {
                    if i == 0 {
                        assert(post[0].x == tx && post[0].y == ty);
                    } else {
                        assert(post[i] == pre[i]);
                        assert(in_bounds(g, pre[i].x as int, pre[i].y as int));
                    }
                }
            } else {
                assert(post == pre);
                assert forall|i: int| 0 <= i < post.len() implies in_bounds(
                    g,
                    (#[trigger] post[i]).x as int,
                    post[i].y as int,
                ) by {
                    assert(post[i] == pre[i]);
                    assert(in_bounds(g, pre[i].x as int, pre[i].y as int));
                }
            }
        },
    }
}

} // verus!
