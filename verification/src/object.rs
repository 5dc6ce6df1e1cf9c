//! The shared entity model and its combat, death and movement rules.
//!
//! Every thing in the dungeon — the player, monsters, items, corpses — is
//! one `Object` with optional capability slots: `hp` (combat stats and a
//! death behavior), `melee` (attack and defense), `ai` (chases the player),
//! `item` (can be picked up). Presence of a slot, not a type tag, decides
//! participation in combat, AI and pickup logic.

use vstd::prelude::*;
use vstd::string::StrSliceExecFns;
use vstd::string::StringExecFns;

use crate::color::Color;
use crate::color::spec_dark_red;
use crate::resources::MesLogs;
use crate::text::dec_rep;
use crate::text::u64_to_string;
use crate::tile::Tile;
use crate::tile::TileGrid;
use crate::tile::grid_view;
use crate::tile::grid_wf;
use crate::tile::in_bounds;

verus! {

/// Combat stats: maximum and current hit points, and which death behavior
/// fires when the current hit points drop to zero or below.
#[derive(Clone, Copy, Debug, PartialEq, Eq, Structural)]
pub struct HitPoints {
    pub max: i64,
    pub current: i64,
    pub on_death: DeathCallback,
}

impl HitPoints {
    /// An entity with combat stats is alive while its hit points are positive.
    pub fn alive(&self) -> (r: bool)
        ensures
            r == (self.current > 0),
    {
        self.current > 0
    }
}

/// The two death behaviors: the player becomes a corpse but keeps its name
/// and slots; a monster becomes inert remains.
#[derive(Clone, Copy, Debug, PartialEq, Eq, Structural)]
pub enum DeathCallback {
    Player,
    Monster,
}

/// Melee capability: flat attack and defense scores.
#[derive(Clone, Copy, Debug, PartialEq, Eq, Structural)]
pub struct Melee {
    pub attack: i32,
    pub defense: i32,
}

/// AI capability marker: the entity chases and attacks the player.
#[derive(Clone, Copy, Debug, PartialEq, Eq, Structural)]
pub struct Ai;

/// Item capability: what picking the entity up does.
#[derive(Clone, Copy, Debug, PartialEq, Eq, Structural)]
pub enum Item {
    Heal,
}

/// One entity: a position it owns exclusively, render hints, physical and
/// liveness flags, and the optional capability slots.
#[derive(Debug)]
pub struct Object {
    pub x: i32,
    pub y: i32,
    pub rep: char,
    pub color: Color,
    pub name: String,
    pub blocks: bool,
    pub alive: bool,
    pub hp: Option<HitPoints>,
    pub melee: Option<Melee>,
    pub ai: Option<Ai>,
    pub item: Option<Item>,
}

/// The effective attack score: zero without melee capability.
pub open spec fn melee_atk(m: Option<Melee>) -> int {
    match m {
        Some(mm) => mm.attack as int,
        None => 0,
    }
}

/// The effective defense score: zero without melee capability.
pub open spec fn melee_def(m: Option<Melee>) -> int {
    match m {
        Some(mm) => mm.defense as int,
        None => 0,
    }
}

/// Damage of one melee attack: attacker's attack minus defender's defense.
pub open spec fn spec_damage(a: Object, d: Object) -> int {
    melee_atk(a.melee) - melee_def(d.melee)
}

/// The combat stats after taking `damage`: positive damage is subtracted
/// from the current hit points, other damage has no effect.
pub open spec fn hp_after(hp: Option<HitPoints>, damage: int) -> Option<HitPoints> {
    match hp {
        Some(h) => if damage > 0 {
            Some(HitPoints { current: (h.current - damage) as i64, ..h })
        } else {
            Some(h)
        },
        None => None,
    }
}

/// The death transition fires on an entity that is still marked alive while
/// its current hit points have dropped to zero or below.
pub open spec fn death_fires(o: Object) -> bool {
    o.alive && match o.hp {
        Some(h) => h.current <= 0,
        None => false,
    }
}

/// What dying does to an entity `o` (already past the hp drop), giving
/// `post`, and what it narrates (`logpre` becoming `logpost`).
///
/// Player death keeps name and slots, only swapping the glyph and color to
/// a corpse. Monster death additionally clears the blocking flag and the
/// combat, melee and AI slots, and renames the entity to
/// "remains of <name>", leaving it permanently inert.
pub open spec fn death_effect(
    o: Object,
    post: Object,
    logpre: Seq<Seq<char>>,
    logpost: Seq<Seq<char>>,
) -> bool {
    match o.hp {
        Some(h) => match h.on_death {
            DeathCallback::Player => {
                &&& post == (Object { alive: false, rep: '%', color: spec_dark_red(), ..o })
                &&& logpost == logpre.push("You died!"@)
            },
            DeathCallback::Monster => {
                &&& post.x == o.x
                &&& post.y == o.y
                &&& post.rep == '%'
                &&& post.color == spec_dark_red()
                &&& post.name@ == "remains of "@ + o.name@
                &&& !post.blocks
                &&& !post.alive
                &&& post.hp is None
                &&& post.melee is None
                &&& post.ai is None
                &&& post.item == o.item
                &&& logpost == logpre.push(o.name@ + " is dead!"@)
            },
        },
        None => false,
    }
}

/// What taking `damage` does to an entity: the hp drop, then the death
/// transition if it fires. The transition is guarded by the alive flag, so
/// it fires at most once per entity.
pub open spec fn damage_effect(
    damage: int,
    pre: Object,
    post: Object,
    logpre: Seq<Seq<char>>,
    logpost: Seq<Seq<char>>,
) -> bool {
    let mid = Object { hp: hp_after(pre.hp, damage), alive: pre.alive, ..pre };
    if death_fires(mid) {
        death_effect(Object { alive: false, ..mid }, post, logpre, logpost)
    } else {
        post == mid && logpost == logpre
    }
}

/// The narration line for a damaging attack.
pub open spec fn attack_line(att: Seq<char>, def: Seq<char>, damage: int) -> Seq<char> {
    att + " attacks "@ + def + " for "@ + dec_rep(damage) + " hit points."@
}

/// The narration line for an attack without effect.
pub open spec fn no_effect_line(att: Seq<char>, def: Seq<char>) -> Seq<char> {
    att + " attacks "@ + def + " but it has no effect!"@
}

/// What one melee strike by an attacker with name `att_name` and melee slot
/// `att_melee` does to the defender, and what it narrates.
pub open spec fn strike_effect(
    att_name: Seq<char>,
    att_melee: Option<Melee>,
    pre: Object,
    post: Object,
    logpre: Seq<Seq<char>>,
    logpost: Seq<Seq<char>>,
) -> bool {
    let damage = melee_atk(att_melee) - melee_def(pre.melee);
    if damage > 0 {
        damage_effect(
            damage,
            pre,
            post,
            logpre.push(attack_line(att_name, pre.name@, damage)),
            logpost,
        )
    } else {
        post == pre && logpost == logpre.push(no_effect_line(att_name, pre.name@))
    }
}

/// Taking `damage` must not underflow the hit-point counter. Whenever the
/// defender is still alive this holds trivially; it only constrains attacks
/// on corpses that kept their combat stats.
pub open spec fn damage_in_range(hp: Option<HitPoints>, damage: int) -> bool {
    match hp {
        Some(h) => damage > 0 ==> h.current > 0 || h.current - damage >= i64::MIN,
        None => true,
    }
}

impl Object {
    /// A bare entity: no capabilities, not alive.
    pub fn new(x: i32, y: i32, rep: char, color: Color, name: &str, blocks: bool) -> (o: Object)
        ensures
            o.x == x,
            o.y == y,
            o.rep == rep,
            o.color == color,
            o.name@ == name@,
            o.blocks == blocks,
            !o.alive,
            o.hp is None,
            o.melee is None,
            o.ai is None,
            o.item is None,
    {
        Object {
            x,
            y,
            rep,
            color,
            name: String::from_str(name),
            blocks,
            alive: false,
            hp: None,
            melee: None,
            ai: None,
            item: None,
        }
    }

    pub fn pos(&self) -> (p: (i32, i32))
        ensures
            p == (self.x, self.y),
    {
        (self.x, self.y)
    }

    pub fn set_pos(&mut self, x: i32, y: i32)
        ensures
            *final(self) == (Object { x, y, ..*old(self) }),
    {
        self.x = x;
        self.y = y;
    }

    /// The squared Euclidean distance to another entity.
    pub fn distance_sq(&self, other: &Object) -> (d: i64)
        requires
            -1000000 <= self.x <= 1000000,
            -1000000 <= self.y <= 1000000,
            -1000000 <= other.x <= 1000000,
            -1000000 <= other.y <= 1000000,
        ensures
            d == (other.x - self.x) * (other.x - self.x) + (other.y - self.y) * (other.y
                - self.y),
    {
        let dx: i64 = other.x as i64 - self.x as i64;
        let dy: i64 = other.y as i64 - self.y as i64;
        proof {
            assert(0 <= dx * dx <= 4000000000000 && 0 <= dy * dy <= 4000000000000)
                by (nonlinear_arith)
                requires
                    -2000000 <= dx <= 2000000,
                    -2000000 <= dy <= 2000000,
            ;
        }
        dx * dx + dy * dy
    }

    /// Apply damage, then fire the death transition if the hit points
    /// dropped to zero or below while the entity was still alive.
    pub fn take_damage(&mut self, damage: i64, log: &mut MesLogs)
        requires
            damage_in_range(old(self).hp, damage as int),
        ensures
            damage_effect(
                damage as int,
                *old(self),
                *final(self),
                old(log).lines(),
                final(log).lines(),
            ),
            final(log).logs == old(log).logs,
    {
        if damage > 0 {
            if let Some(hp) = self.hp.as_mut() {
                hp.current = hp.current - damage;
            }
        }

        let fires: bool = match &self.hp {
            Some(hp) => self.alive && hp.current <= 0,
            None => false,
        };
        if fires {
            self.alive = false;
            let cb: DeathCallback = match &self.hp {
                Some(hp) => hp.on_death,
                None => DeathCallback::Player,
            };
            cb.callback(self, log);
        }
    }

    /// One melee strike against `target`: damage is the attacker's attack
    /// score minus the defender's defense score; positive damage is applied
    /// and narrated, other damage only narrates "no effect".
    pub fn melee_attack(&self, target: &mut Object, log: &mut MesLogs)
        requires
            damage_in_range(
                old(target).hp,
                melee_atk(self.melee) - melee_def(old(target).melee),
            ),
        ensures
            strike_effect(
                self.name@,
                self.melee,
                *old(target),
                *final(target),
                old(log).lines(),
                final(log).lines(),
            ),
            final(log).logs == old(log).logs,
    {
        strike(&self.name, &self.melee, target, log);
    }
}

/// The strike core shared by the entity method and the registry-level
/// attack: the attacker is given by its name and melee slot alone, since
/// nothing else of it takes part in combat.
pub(crate) fn strike(
    att_name: &String,
    att_melee: &Option<Melee>,
    target: &mut Object,
    log: &mut MesLogs,
)
    requires
        damage_in_range(old(target).hp, melee_atk(*att_melee) - melee_def(old(target).melee)),
    ensures
        strike_effect(
            att_name@,
            *att_melee,
            *old(target),
            *final(target),
            old(log).lines(),
            final(log).lines(),
        ),
        final(log).logs == old(log).logs,
{
    let atk: i64 = match att_melee {
        Some(m) => m.attack as i64,
        None => 0,
    };
    let def: i64 = match &target.melee {
        Some(m) => m.defense as i64,
        None => 0,
    };
    let damage: i64 = atk - def;
    if damage > 0 {
        let mut line = att_name.clone();
        line.append(" attacks ");
        line.append(target.name.as_str());
        line.append(" for ");
        let num = u64_to_string(damage as u64);
        line.append(num.as_str());
        line.append(" hit points.");
        proof {
            assert(line@ =~= attack_line(
                att_name@,
                old(target).name@,
                melee_atk(*att_melee) - melee_def(old(target).melee),
            ));
        }
        log.emit(line);
        target.take_damage(damage, log);
    } else {
        let mut line = att_name.clone();
        line.append(" attacks ");
        line.append(target.name.as_str());
        line.append(" but it has no effect!");
        proof {
            assert(line@ =~= no_effect_line(att_name@, old(target).name@));
        }
        log.emit(line);
    }
}

impl DeathCallback {
    /// Fire the death behavior chosen at spawn time: a plain function of
    /// the tag, not dynamic dispatch.
    pub fn callback(self, object: &mut Object, log: &mut MesLogs)
        ensures
            self is Player ==> *final(object) == (Object {
                rep: '%',
                color: spec_dark_red(),
                ..*old(object)
            }) && final(log).lines() == old(log).lines().push("You died!"@),
            self is Monster ==> {
                &&& final(object).x == old(object).x
                &&& final(object).y == old(object).y
                &&& final(object).rep == '%'
                &&& final(object).color == spec_dark_red()
                &&& final(object).name@ == "remains of "@ + old(object).name@
                &&& !final(object).blocks
                &&& final(object).alive == old(object).alive
                &&& final(object).hp is None
                &&& final(object).melee is None
                &&& final(object).ai is None
                &&& final(object).item == old(object).item
                &&& final(log).lines() == old(log).lines().push(old(object).name@ + " is dead!"@)
            },
            final(log).logs == old(log).logs,
    {
        match self {
            DeathCallback::Player => player_death(object, log),
            DeathCallback::Monster => monster_death(object, log),
        }
    }
}

/// The entity `o` physically occupies the cell (x, y).
pub open spec fn blocks_at(o: Object, x: int, y: int) -> bool {
    o.blocks && o.x == x && o.y == y
}

/// The cell (x, y) cannot be entered: either the map tile blocks, or some
/// blocking entity occupies it.
pub open spec fn spec_is_blocked(
    g: Seq<Seq<Tile>>,
    objs: Seq<Object>,
    x: int,
    y: int,
) -> bool {
    g[x][y].blocked || exists|i: int| 0 <= i < objs.len() && blocks_at(#[trigger] objs[i], x, y)
}

/// The entity `o` moved to the cell (x, y).
pub open spec fn moved_to(o: Object, x: int, y: int) -> Object {
    Object { x: x as i32, y: y as i32, ..o }
}

/// What attempting to move entity `idx` by (dx, dy) does: the move happens
/// exactly when the destination lies on the grid and is not blocked;
/// otherwise the attempt is silently rejected and nothing changes.
pub open spec fn move_effect(
    g: Seq<Seq<Tile>>,
    pre: Seq<Object>,
    post: Seq<Object>,
    idx: int,
    dx: int,
    dy: int,
) -> bool {
    let tx = pre[idx].x + dx;
    let ty = pre[idx].y + dy;
    if in_bounds(g, tx, ty) && !spec_is_blocked(g, pre, tx, ty) {
        post == pre.update(idx, moved_to(pre[idx], tx, ty))
    } else {
        post == pre
    }
}

/// What resolving a bump of entity `idx` in direction (dx, dy) does: a
/// melee strike on the first melee-capable entity at the destination if
/// there is one, else a movement attempt.
pub open spec fn bump_effect(
    g: Seq<Seq<Tile>>,
    pre: Seq<Object>,
    post: Seq<Object>,
    idx: int,
    dx: int,
    dy: int,
    logpre: Seq<Seq<char>>,
    logpost: Seq<Seq<char>>,
) -> bool {
    match first_melee_at(pre, pre[idx].x + dx, pre[idx].y + dy, 0) {
        Some(j) => {
            &&& post.len() == pre.len()
            &&& forall|k: int| 0 <= k < pre.len() && k != j ==> post[k] == pre[k]
            &&& strike_effect(pre[idx].name@, pre[idx].melee, pre[j], post[j], logpre, logpost)
        },
        None => move_effect(g, pre, post, idx, dx, dy) && logpost == logpre,
    }
}

/// Every entity with melee capability can safely be struck by entity
/// `idx`: applying the resulting damage cannot underflow its hit points.
pub open spec fn strike_targets_safe(objs: Seq<Object>, idx: int) -> bool {
    forall|j: int|
        0 <= j < objs.len() && (#[trigger] objs[j]).melee is Some ==> damage_in_range(
            objs[j].hp,
            spec_damage(objs[idx], objs[j]),
        )
}

/// The first entity with melee capability standing on (x, y), searching
/// from index `i` up.
pub open spec fn first_melee_at(objs: Seq<Object>, x: int, y: int, i: int) -> Option<int>
    decreases objs.len() - i,
{
    if i < 0 || i >= objs.len() {
        None
    } else if objs[i].melee is Some && objs[i].x == x && objs[i].y == y {
        Some(i)
    } else {
        first_melee_at(objs, x, y, i + 1)
    }
}

/// A melee strike never moves the defender, never grants it an AI slot,
/// and never brings it back to life.
pub proof fn lemma_strike_keeps(
    att_name: Seq<char>,
    att_melee: Option<Melee>,
    pre: Object,
    post: Object,
    logpre: Seq<Seq<char>>,
    logpost: Seq<Seq<char>>,
)
    requires
        strike_effect(att_name, att_melee, pre, post, logpre, logpost),
    ensures
        post.x == pre.x,
        post.y == pre.y,
        pre.ai is None ==> post.ai is None,
        post.alive ==> pre.alive,
{
    let damage = melee_atk(att_melee) - melee_def(pre.melee);
    if damage > 0 {
        let mid = Object { hp: hp_after(pre.hp, damage), alive: pre.alive, ..pre };
        if death_fires(mid) {
            let o = Object { alive: false, ..mid };
            assert(death_effect(o, post, logpre.push(attack_line(att_name, pre.name@, damage)), logpost));
            match o.hp {
                Some(h) => {
                    match h.on_death {
                        DeathCallback::Player => {
                            assert(post == (Object {
                                alive: false,
                                rep: '%',
                                color: spec_dark_red(),
                                ..o
                            }));
                        },
                        DeathCallback::Monster => {
                            assert(post.x == o.x && post.y == o.y);
                        },
                    }
                },
                None => {},
            }
        } else {
            assert(post == mid);
        }
    } else {
        assert(post == pre);
    }
}

/// A found first-melee index points at an entity with melee capability
/// standing on the searched cell.
pub proof fn lemma_first_melee_at_found(objs: Seq<Object>, x: int, y: int, i: int, j: int)
    requires
        first_melee_at(objs, x, y, i) == Some(j),
    ensures
        i <= j < objs.len(),
        objs[j].melee is Some,
        objs[j].x == x,
        objs[j].y == y,
    decreases objs.len() - i,
{
    if i < 0 || i >= objs.len() {
    } else if objs[i].melee is Some && objs[i].x == x && objs[i].y == y {
    } else {
        lemma_first_melee_at_found(objs, x, y, i + 1, j);
    }
}

/// True if the map tile at (x, y) blocks movement or any blocking entity
/// occupies (x, y).
pub fn is_blocked(x: i32, y: i32, map: &TileGrid, objects: &Vec<Object>) -> (b: bool)
    requires
        grid_wf(grid_view(*map)),
        in_bounds(grid_view(*map), x as int, y as int),
    ensures
        b == spec_is_blocked(grid_view(*map), objects@, x as int, y as int),
{
    proof {
        assert(grid_view(*map)[x as int] == map@[x as int]@);
    }
    if map[x as usize][y as usize].blocked {
        return true;
    }
    let n: usize = objects.len();
    let mut i: usize = 0;
    while i < n
        invariant
            n == objects@.len(),
            0 <= i <= n,
            forall|k: int| 0 <= k < i ==> !blocks_at(#[trigger] objects@[k], x as int, y as int),
        decreases n - i,
    {
        let o = &objects[i];
        if o.blocks && o.x == x && o.y == y {
            return true;
        }
        i += 1;
    }
    false
}

impl Object {
    /// Move entity `idx` by (dx, dy) if the destination cell is free;
    /// silently do nothing otherwise (rejection is normal gameplay, not a
    /// failure). An index past the registry is ignored.
    pub fn try_move(idx: usize, dx: i32, dy: i32, map: &TileGrid, objects: &mut Vec<Object>)
        requires
            grid_wf(grid_view(*map)),
            idx < old(objects)@.len() ==> in_bounds(
                grid_view(*map),
                old(objects)@[idx as int].x as int,
                old(objects)@[idx as int].y as int,
            ),
        ensures
            idx < old(objects)@.len() ==> move_effect(
                grid_view(*map),
                old(objects)@,
                final(objects)@,
                idx as int,
                dx as int,
                dy as int,
            ),
            idx >= old(objects)@.len() ==> final(objects)@ == old(objects)@,
    {
        if idx >= objects.len() {
            return;
        }
        let x: i32 = objects[idx].x;
        let y: i32 = objects[idx].y;
        let tx64: i64 = x as i64 + dx as i64;
        let ty64: i64 = y as i64 + dy as i64;
        let w: usize = map.len();
        let h: usize = map[0].len();
        if 0 <= tx64 && tx64 < w as i64 && 0 <= ty64 && ty64 < h as i64 {
            let tx: i32 = tx64 as i32;
            let ty: i32 = ty64 as i32;
            if !is_blocked(tx, ty, map, objects) {
                objects[idx].set_pos(tx, ty);
            }
        }
    }

    /// Resolve entity `idx`'s bump in direction (dx, dy): a melee attack if
    /// an entity with melee capability occupies the destination, a movement
    /// attempt otherwise. An index past the registry is ignored.
    pub fn attack_move(
        idx: usize,
        dx: i32,
        dy: i32,
        map: &TileGrid,
        objects: &mut Vec<Object>,
        log: &mut MesLogs,
    )
        requires
            grid_wf(grid_view(*map)),
            !(dx == 0 && dy == 0),
            idx < old(objects)@.len() ==> in_bounds(
                grid_view(*map),
                old(objects)@[idx as int].x as int,
                old(objects)@[idx as int].y as int,
            ),
            idx < old(objects)@.len() ==> forall|j: int|
                0 <= j < old(objects)@.len() && (#[trigger] old(objects)@[j]).melee is Some
                    && old(objects)@[j].x == old(objects)@[idx as int].x + dx
                    && old(objects)@[j].y == old(objects)@[idx as int].y + dy
                    ==> damage_in_range(
                    old(objects)@[j].hp,
                    spec_damage(old(objects)@[idx as int], old(objects)@[j]),
                ),
        ensures
            idx >= old(objects)@.len() ==> final(objects)@ == old(objects)@ && *final(log)
                == *old(log),
            idx < old(objects)@.len() ==> bump_effect(
                grid_view(*map),
                old(objects)@,
                final(objects)@,
                idx as int,
                dx as int,
                dy as int,
                old(log).lines(),
                final(log).lines(),
            ),
            final(log).logs == old(log).logs,
    {
        if idx >= objects.len() {
            return;
        }
        let x: i32 = objects[idx].x;
        let y: i32 = objects[idx].y;
        let tx64: i64 = x as i64 + dx as i64;
        let ty64: i64 = y as i64 + dy as i64;

        let n: usize = objects.len();
        let mut t: usize = 0;
        let mut found: bool = false;
        let ghost gobjs: Seq<Object> = objects@;
        while t < n && !found
            invariant
                n == objects@.len(),
                gobjs == objects@,
                0 <= t <= n,
                !found ==> first_melee_at(gobjs, tx64 as int, ty64 as int, 0) == first_melee_at(
                    gobjs,
                    tx64 as int,
                    ty64 as int,
                    t as int,
                ),
                found ==> t < n && first_melee_at(gobjs, tx64 as int, ty64 as int, 0) == Some(
                    t as int,
                ) && gobjs[t as int].melee is Some && gobjs[t as int].x == tx64
                    && gobjs[t as int].y == ty64,
            decreases n - t + if found {
                0int
            } else {
                1int
            },
        {
            let o = &objects[t];
            if o.melee.is_some() && o.x as i64 == tx64 && o.y as i64 == ty64 {
                found = true;
            } else {
                t += 1;
            }
        }

        if found {
            proof {
                assert(old(objects)@[t as int].melee is Some);
                assert(old(objects)@[t as int].x == old(objects)@[idx as int].x + dx);
            }
            let att_name = objects[idx].name.clone();
            let att_melee: Option<Melee> = objects[idx].melee;
            strike(&att_name, &att_melee, &mut objects[t], log);
        } else {
            proof {
                assert(first_melee_at(gobjs, tx64 as int, ty64 as int, 0) is None);
            }
            Self::try_move(idx, dx, dy, map, objects);
        }
    }

    /// Step entity `idx` one cell toward (target_x, target_y): the vector
    /// to the target is normalized to one grid step, preserving direction,
    /// and handed to `try_move`. A target equal to the entity's own
    /// position yields the zero step.
    pub fn move_towards(
        idx: usize,
        target_x: i32,
        target_y: i32,
        map: &TileGrid,
        objects: &mut Vec<Object>,
    )
        requires
            grid_wf(grid_view(*map)),
            idx < old(objects)@.len(),
            in_bounds(
                grid_view(*map),
                old(objects)@[idx as int].x as int,
                old(objects)@[idx as int].y as int,
            ),
            in_bounds(grid_view(*map), target_x as int, target_y as int),
        ensures
            move_effect(
                grid_view(*map),
                old(objects)@,
                final(objects)@,
                idx as int,
                step_coord(
                    target_x - old(objects)@[idx as int].x,
                    target_y - old(objects)@[idx as int].y,
                ),
                step_coord(
                    target_y - old(objects)@[idx as int].y,
                    target_x - old(objects)@[idx as int].x,
                ),
            ),
    {
        let dx: i64 = target_x as i64 - objects[idx].x as i64;
        let dy: i64 = target_y as i64 - objects[idx].y as i64;
        proof {
            assert(0 <= dx * dx <= 201326592 && 0 <= 3 * dx * dx <= 603979776 && 0 <= dy * dy
                <= 201326592 && 0 <= 3 * dy * dy <= 603979776) by (nonlinear_arith)
                requires
                    -8192 <= dx <= 8192,
                    -8192 <= dy <= 8192,
            ;
        }
        let sx: i32 = if 3 * dx * dx >= dy * dy {
            if dx > 0 {
                1
            } else if dx < 0 {
                -1
            } else {
                0
            }
        } else {
            0
        };
        let sy: i32 = if 3 * dy * dy >= dx * dx {
            if dy > 0 {
                1
            } else if dy < 0 {
                -1
            } else {
                0
            }
        } else {
            0
        };
        Self::try_move(idx, sx, sy, map, objects);
    }
}

/// The horizontal or vertical component of the one-cell step toward a
/// target at relative offset (d, other): the component moves exactly when
/// rounding d over the Euclidean distance away from zero gives a full step,
/// that is when 3*d*d >= other*other.
pub open spec fn step_coord(d: int, other: int) -> int {
    if 3 * d * d >= other * other {
        if d > 0 {
            1
        } else if d < 0 {
            -1
        } else {
            0
        }
    } else {
        0
    }
}

/// The player entity: alive, blocking, with combat and melee capability
/// but no AI — it is driven by commands, not by the AI pass.
pub fn create_player(pos: (i32, i32)) -> (o: Object)
    ensures
        o.x == pos.0,
        o.y == pos.1,
        o.rep == '@',
        o.color == (Color { r: 0, g: 255, b: 255 }),
        o.name@ == "aquarhead"@,
        o.blocks,
        o.alive,
        o.hp == Some(HitPoints { max: 30, current: 30, on_death: DeathCallback::Player }),
        o.melee == Some(Melee { attack: 5, defense: 2 }),
        o.ai is None,
        o.item is None,
{
    let (x, y) = pos;
    let mut player = Object::new(x, y, '@', Color::cyan(), "aquarhead", true);
    player.alive = true;
    player.hp = Some(HitPoints { max: 30, current: 30, on_death: DeathCallback::Player });
    player.melee = Some(Melee { attack: 5, defense: 2 });

    player
}

/// The player's death: the game is over; the player turns into a corpse
/// but keeps its name and slots.
fn player_death(player: &mut Object, log: &mut MesLogs)
    ensures
        *final(player) == (Object { rep: '%', color: spec_dark_red(), ..*old(player) }),
        final(log).lines() == old(log).lines().push("You died!"@),
        final(log).logs == old(log).logs,
{
    log.emit(String::from_str("You died!"));
    player.rep = '%';
    player.color = Color::dark_red();
}

/// A monster's death: it becomes inert remains that no longer block, fight
/// or act, renamed to "remains of <name>".
fn monster_death(monster: &mut Object, log: &mut MesLogs)
    ensures
        final(monster).x == old(monster).x,
        final(monster).y == old(monster).y,
        final(monster).rep == '%',
        final(monster).color == spec_dark_red(),
        final(monster).name@ == "remains of "@ + old(monster).name@,
        !final(monster).blocks,
        final(monster).alive == old(monster).alive,
        final(monster).hp is None,
        final(monster).melee is None,
        final(monster).ai is None,
        final(monster).item == old(monster).item,
        final(log).lines() == old(log).lines().push(old(monster).name@ + " is dead!"@),
        final(log).logs == old(log).logs,
{
    let mut line = monster.name.clone();
    line.append(" is dead!");
    log.emit(line);
    monster.rep = '%';
    monster.color = Color::dark_red();
    monster.blocks = false;
    monster.hp = None;
    monster.melee = None;
    monster.ai = None;
    let mut renamed = String::from_str("remains of ");
    renamed.append(monster.name.as_str());
    monster.name = renamed;
}

} // verus!
