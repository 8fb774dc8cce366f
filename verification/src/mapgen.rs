//! Dungeon generation: room carving, tunnels, level-scaled tables, and
//! weighted random choice.

use vstd::prelude::*;
use vstd::string::StringExecFns;
use crate::{MAP_WIDTH, MAP_HEIGHT, MAX_ROOMS, ROOM_MIN_SIZE, ROOM_MAX_SIZE};
use crate::color::{white, violet, red, desaturated_green, darker_green, light_yellow, sky,
    darker_orange};
use crate::game::{Game, is_blocked, spec_blocked, msgs_extended};
use crate::object::{
    Object, Fighter, Ai, DeathCallback, Item, Equipment, Slot, obj_wf, objs_wf, pos_ok, inv_ok,
    world_unequipped, spec_max_hp, XP_CAP,
};
use crate::reach::{
    connected, lemma_connected_refl, lemma_connected_trans, lemma_connected_monotone,
    lemma_h_segment_connected, lemma_v_segment_connected,
};
use crate::rect::Rect;
use crate::rng::{rand_range_i32, rand_range_u32, rand_bool};
use crate::tile::{Tile, DungeonMap, map_dims, map_ok, tile_at, in_bounds, interior, open_at,
    opens_monotone};

verus! {

/// Store tile `t` at `(x, y)`, leaving the rest of the grid unchanged.
fn set_tile(m: &mut DungeonMap, x: usize, y: usize, t: Tile)
    requires
        map_dims(*old(m)),
        x < MAP_WIDTH as usize,
        y < MAP_HEIGHT as usize,
    ensures
        map_dims(*final(m)),
        final(m)@.len() == old(m)@.len(),
        final(m)@[x as int]@ == old(m)@[x as int]@.update(y as int, t),
        forall|i: int| 0 <= i < final(m)@.len() && i != x as int ==> final(m)@[i] == old(m)@[i],
{
    let col = &mut m[x];
    col[y] = t;
}

/// `(x, y)` lies strictly inside `room`: on a carved (floor) tile.
pub open spec fn room_interior(room: Rect, x: int, y: int) -> bool {
    room.x1 < x < room.x2 && room.y1 < y < room.y2
}

/// Carve `room` open: every tile strictly inside the rectangle becomes an
/// empty floor tile; the one-tile border of the room and everything else
/// is untouched.
pub fn create_room(room: Rect, map: &mut DungeonMap)
    requires
        map_dims(*old(map)),
        0 <= room.x1 < MAP_WIDTH,
        room.x2 < MAP_WIDTH,
        0 <= room.y1 < MAP_HEIGHT,
        room.y2 < MAP_HEIGHT,
    ensures
        map_dims(*final(map)),
        forall|x: int, y: int|
            in_bounds(x, y) && room_interior(room, x, y) ==> tile_at(*final(map), x, y) == (Tile {
                blocked: false,
                explored: false,
                block_sight: false,
            }),
        forall|x: int, y: int|
            in_bounds(x, y) && !room_interior(room, x, y) ==> tile_at(*final(map), x, y) == tile_at(
                *old(map),
                x,
                y,
            ),
{
    let mut x = room.x1 + 1;
    while x < room.x2
        invariant
            room.x1 < x,
            x <= if room.x1 + 1 <= room.x2 { room.x2 as int } else { room.x1 + 1 },
            map_dims(*map),
            0 <= room.x1 < MAP_WIDTH,
            room.x2 < MAP_WIDTH,
            0 <= room.y1 < MAP_HEIGHT,
            room.y2 < MAP_HEIGHT,
            forall|a: int, b: int|
                in_bounds(a, b) && room_interior(room, a, b) && a < x ==> tile_at(*map, a, b)
                    == (Tile { blocked: false, explored: false, block_sight: false }),
            forall|a: int, b: int|
                in_bounds(a, b) && !room_interior(room, a, b) ==> tile_at(*map, a, b) == tile_at(
                    *old(map),
                    a,
                    b,
                ),
        decreases room.x2 - x,
    {
        let mut y = room.y1 + 1;
        while y < room.y2
            invariant
                room.x1 < x < room.x2,
                room.y1 < y,
                y <= if room.y1 + 1 <= room.y2 { room.y2 as int } else { room.y1 + 1 },
                map_dims(*map),
                0 <= room.x1 < MAP_WIDTH,
                room.x2 < MAP_WIDTH,
                0 <= room.y1 < MAP_HEIGHT,
                room.y2 < MAP_HEIGHT,
                forall|a: int, b: int|
                    in_bounds(a, b) && room_interior(room, a, b) && (a < x || (a == x && b < y))
                        ==> tile_at(*map, a, b) == (Tile {
                        blocked: false,
                        explored: false,
                        block_sight: false,
                    }),
                forall|a: int, b: int|
                    in_bounds(a, b) && !room_interior(room, a, b) ==> tile_at(*map, a, b)
                        == tile_at(*old(map), a, b),
            decreases room.y2 - y,
        {
            set_tile(map, x as usize, y as usize, Tile::empty());
            y += 1;
        }
        x += 1;
    }
}

/// Carve a horizontal tunnel at row `y` covering every column between
/// `x1` and `x2` inclusive, in either order.
pub fn create_h_tunnel(x1: i32, x2: i32, y: i32, map: &mut DungeonMap)
    requires
        map_dims(*old(map)),
        0 <= x1 < MAP_WIDTH,
        0 <= x2 < MAP_WIDTH,
        0 <= y < MAP_HEIGHT,
    ensures
        map_dims(*final(map)),
        forall|a: int, b: int|
            in_bounds(a, b) && (if x1 <= x2 {
                x1 <= a <= x2
            } else {
                x2 <= a <= x1
            }) && b == y ==> tile_at(*final(map), a, b) == (Tile {
                blocked: false,
                explored: false,
                block_sight: false,
            }),
        forall|a: int, b: int|
            in_bounds(a, b) && !((if x1 <= x2 {
                x1 <= a <= x2
            } else {
                x2 <= a <= x1
            }) && b == y) ==> tile_at(*final(map), a, b) == tile_at(*old(map), a, b),
{
    let lo = if x1 <= x2 { x1 } else { x2 };
    let hi = if x1 <= x2 { x2 } else { x1 };
    let mut x = lo;
    while x < hi + 1
        invariant
            lo <= x <= hi + 1,
            0 <= lo,
            hi < MAP_WIDTH,
            0 <= y < MAP_HEIGHT,
            map_dims(*map),
            forall|a: int, b: int|
                in_bounds(a, b) && lo <= a < x && b == y ==> tile_at(*map, a, b) == (Tile {
                    blocked: false,
                    explored: false,
                    block_sight: false,
                }),
            forall|a: int, b: int|
                in_bounds(a, b) && !(lo <= a < x && b == y) ==> tile_at(*map, a, b) == tile_at(
                    *old(map),
                    a,
                    b,
                ),
        decreases hi + 1 - x,
    {
        set_tile(map, x as usize, y as usize, Tile::empty());
        x += 1;
    }
}

/// Carve a vertical tunnel at column `x` covering every row between
/// `y1` and `y2` inclusive, in either order.
pub fn create_v_tunnel(y1: i32, y2: i32, x: i32, map: &mut DungeonMap)
    requires
        map_dims(*old(map)),
        0 <= y1 < MAP_HEIGHT,
        0 <= y2 < MAP_HEIGHT,
        0 <= x < MAP_WIDTH,
    ensures
        map_dims(*final(map)),
        forall|a: int, b: int|
            in_bounds(a, b) && (if y1 <= y2 {
                y1 <= b <= y2
            } else {
                y2 <= b <= y1
            }) && a == x ==> tile_at(*final(map), a, b) == (Tile {
                blocked: false,
                explored: false,
                block_sight: false,
            }),
        forall|a: int, b: int|
            in_bounds(a, b) && !((if y1 <= y2 {
                y1 <= b <= y2
            } else {
                y2 <= b <= y1
            }) && a == x) ==> tile_at(*final(map), a, b) == tile_at(*old(map), a, b),
{
    let lo = if y1 <= y2 { y1 } else { y2 };
    let hi = if y1 <= y2 { y2 } else { y1 };
    let mut y = lo;
    while y < hi + 1
        invariant
            lo <= y <= hi + 1,
            0 <= lo,
            hi < MAP_HEIGHT,
            0 <= x < MAP_WIDTH,
            map_dims(*map),
            forall|a: int, b: int|
                in_bounds(a, b) && lo <= b < y && a == x ==> tile_at(*map, a, b) == (Tile {
                    blocked: false,
                    explored: false,
                    block_sight: false,
                }),
            forall|a: int, b: int|
                in_bounds(a, b) && !(lo <= b < y && a == x) ==> tile_at(*map, a, b) == tile_at(
                    *old(map),
                    a,
                    b,
                ),
        decreases hi + 1 - y,
    {
        set_tile(map, x as usize, y as usize, Tile::empty());
        y += 1;
    }
}

/// One row of a level-scaled table: from dungeon level `level` on, the
/// parameter has value `value`.
#[derive(Clone, Copy, Debug, PartialEq, Eq, Structural)]
pub struct Transition {
    pub level: u32,
    pub value: u32,
}

/// The value the table yields for `level`: the value of the last row whose
/// minimum level is met, or 0 if none is.
pub open spec fn spec_from_dungeon_level(table: Seq<Transition>, level: u32) -> u32
    decreases table.len(),
{
    if table.len() == 0 {
        0u32
    } else if level >= table.last().level {
        table.last().value
    } else {
        spec_from_dungeon_level(table.drop_last(), level)
    }
}

/// Returns a value that depends on the dungeon level. The table specifies
/// what value occurs after each level; the default is 0.
pub fn from_dungeon_level(table: &Vec<Transition>, level: u32) -> (v: u32)
    ensures
        v == spec_from_dungeon_level(table@, level),
{
    let mut i = table.len();
    assert(table@.subrange(0, table@.len() as int) == table@);
    while i > 0
        invariant
            i <= table.len(),
            spec_from_dungeon_level(table@, level) == spec_from_dungeon_level(
                table@.subrange(0, i as int),
                level,
            ),
        decreases i,
    {
        i -= 1;
        if level >= table[i].level {
            assert(table@.subrange(0, i + 1).last() == table@[i as int]);
            return table[i].value;
        }
        assert(table@.subrange(0, i + 1).drop_last() == table@.subrange(0, i as int));
    }
    assert(table@.subrange(0, 0).len() == 0);
    0
}

/// Sum of a weight table.
pub open spec fn total_weight(weights: Seq<u32>) -> int
    decreases weights.len(),
{
    if weights.len() == 0 {
        0
    } else {
        weights.first() + total_weight(weights.drop_first())
    }
}

/// The index the weighted table selects for a roll: the first index whose
/// cumulative weight exceeds the roll.
pub open spec fn spec_weighted_pick(weights: Seq<u32>, roll: int) -> int
    decreases weights.len(),
{
    if weights.len() == 0 {
        0
    } else if roll < weights.first() {
        0
    } else {
        1 + spec_weighted_pick(weights.drop_first(), roll - weights.first())
    }
}

pub proof fn lemma_total_weight_nonneg(weights: Seq<u32>)
    ensures
        total_weight(weights) >= 0,
    decreases weights.len(),
{
    if weights.len() > 0 {
        lemma_total_weight_nonneg(weights.drop_first());
    }
}

/// Any roll below the total selects a category inside the table, and that
/// category has a nonzero weight: a weight of 0 is never drawn.
pub proof fn lemma_weighted_pick_in_range(weights: Seq<u32>, roll: int)
    requires
        0 <= roll < total_weight(weights),
    ensures
        0 <= spec_weighted_pick(weights, roll) < weights.len(),
        weights[spec_weighted_pick(weights, roll)] > 0,
    decreases weights.len(),
{
    if weights.len() > 0 && roll >= weights.first() {
        lemma_weighted_pick_in_range(weights.drop_first(), roll - weights.first());
    }
}

/// All weights zero means the total is zero.
pub proof fn lemma_total_weight_zero(weights: Seq<u32>)
    requires
        forall|j: int| 0 <= j < weights.len() ==> weights[j] == 0,
    ensures
        total_weight(weights) == 0,
    decreases weights.len(),
{
    if weights.len() > 0 {
        lemma_total_weight_zero(weights.drop_first());
    }
}

/// If exactly one category has a nonzero weight, every roll selects it.
pub proof fn lemma_weighted_pick_only_nonzero(weights: Seq<u32>, roll: int, i: int)
    requires
        0 <= roll < total_weight(weights),
        0 <= i < weights.len(),
        weights[i] > 0,
        forall|j: int| 0 <= j < weights.len() && j != i ==> weights[j] == 0,
    ensures
        spec_weighted_pick(weights, roll) == i,
    decreases weights.len(),
{
    if i == 0 {
        assert(forall|j: int|
            0 <= j < weights.drop_first().len() ==> weights.drop_first()[j] == 0);
        lemma_total_weight_zero(weights.drop_first());
        assert(roll < weights.first());
    } else {
        assert(weights.first() == 0);
        lemma_weighted_pick_only_nonzero(weights.drop_first(), roll, i - 1);
    }
}

/// Sum the weight table.
pub fn sum_weights(weights: &Vec<u32>) -> (t: u64)
    requires
        total_weight(weights@) <= u64::MAX,
    ensures
        t == total_weight(weights@),
{
    let ghost all = weights@;
    let mut t: u64 = 0;
    let mut i: usize = 0;
    proof {
        assert(weights@.skip(0) == weights@);
        lemma_total_weight_nonneg(weights@);
    }
    while i < weights.len()
        invariant
            i <= weights.len(),
            total_weight(weights@) <= u64::MAX,
            total_weight(weights@) == t + total_weight(weights@.skip(i as int)),
            t <= total_weight(weights@),
        decreases weights.len() - i,
    {
        proof {
            assert(weights@.skip(i as int).drop_first() =~= weights@.skip(i as int + 1));
            lemma_total_weight_nonneg(weights@.skip(i as int + 1));
        }
        t += weights[i] as u64;
        i += 1;
    }
    t
}

/// Weighted random choice: given a roll uniform in `[0, total)`, select the
/// category whose cumulative weight bucket contains the roll. Selection
/// probability is proportional to weight, and a zero-weight category is
/// never selected.
pub fn weighted_pick(weights: &Vec<u32>, roll: u32) -> (idx: usize)
    requires
        roll < total_weight(weights@),
    ensures
        idx < weights.len(),
        idx == spec_weighted_pick(weights@, roll as int),
        weights@[idx as int] > 0,
{
    proof {
        lemma_weighted_pick_in_range(weights@, roll as int);
        assert(weights@.skip(0) == weights@);
    }
    let mut i: usize = 0;
    let mut r = roll;
    loop
        invariant
            i <= weights.len(),
            r <= roll,
            r < total_weight(weights@.skip(i as int)),
            spec_weighted_pick(weights@, roll as int) == i + spec_weighted_pick(
                weights@.skip(i as int),
                r as int,
            ),
        decreases weights.len() - i,
    {
        proof {
            lemma_total_weight_nonneg(weights@.skip(i as int));
            if i == weights.len() {
                assert(weights@.skip(i as int).len() == 0);
                assert(false);
            }
            assert(weights@.skip(i as int).drop_first() =~= weights@.skip(i as int + 1));
        }
        assert(weights@.skip(i as int).first() == weights@[i as int]);
        if r < weights[i] {
            return i;
        }
        r -= weights[i];
        i += 1;
    }
}

/// The table never yields more than the largest value it holds.
pub proof fn lemma_from_dungeon_level_bound(table: Seq<Transition>, level: u32, bound: u32)
    requires
        forall|i: int| 0 <= i < table.len() ==> (#[trigger] table[i]).value <= bound,
    ensures
        spec_from_dungeon_level(table, level) <= bound,
    decreases table.len(),
{
    if table.len() > 0 && level < table.last().level {
        assert(forall|i: int|
            0 <= i < table.drop_last().len() ==> (#[trigger] table.drop_last()[i]).value <= bound);
        lemma_from_dungeon_level_bound(table.drop_last(), level, bound);
    }
}

/// The fixed combat record of a freshly spawned orc.
pub open spec fn orc_fighter() -> Fighter {
    Fighter {
        base_max_hp: 20,
        hp: 20,
        base_defense: 0,
        base_power: 4,
        xp: 35,
        on_death: DeathCallback::Monster,
    }
}

/// The fixed combat record of a freshly spawned troll.
pub open spec fn troll_fighter() -> Fighter {
    Fighter {
        base_max_hp: 30,
        hp: 30,
        base_defense: 2,
        base_power: 8,
        xp: 100,
        on_death: DeathCallback::Monster,
    }
}

/// The fixed equipment block of a spawned sword.
pub open spec fn sword_equipment() -> Equipment {
    Equipment {
        slot: Slot::RightHand,
        equipped: false,
        power_bonus: 3,
        defense_bonus: 0,
        max_hp_bonus: 0,
    }
}

/// The fixed equipment block of a spawned shield.
pub open spec fn shield_equipment() -> Equipment {
    Equipment {
        slot: Slot::LeftHand,
        equipped: false,
        power_bonus: 0,
        defense_bonus: 1,
        max_hp_bonus: 0,
    }
}

/// A freshly spawned monster: alive and blocking, with a Basic AI and one
/// of the two fixed combat records.
pub open spec fn monster_spawn(o: Object) -> bool {
    &&& o.blocks && o.alive && o.ai == Some(Ai::Basic)
    &&& o.item is None && o.equipment is None && !o.always_visible
    &&& (o.fighter == Some(orc_fighter()) || o.fighter == Some(troll_fighter()))
}

/// A freshly spawned item: non-blocking and always visible, one of the six
/// item kinds; only the sword and the shield carry equipment data, with
/// their fixed bonuses, unequipped.
pub open spec fn item_spawn(o: Object) -> bool {
    &&& !o.blocks && !o.alive && o.always_visible && o.fighter is None && o.ai is None
    &&& match o.item {
        Some(Item::Heal) | Some(Item::Lightning) | Some(Item::Confuse) | Some(Item::Fireball) => o.equipment is None,
        Some(Item::Sword) => o.equipment == Some(sword_equipment()),
        Some(Item::Shield) => o.equipment == Some(shield_equipment()),
        None => false,
    }
}

/// A spawned world entity is a monster or an item of the fixed catalog.
pub open spec fn spawn_ok(o: Object) -> bool {
    monster_spawn(o) || item_spawn(o)
}

/// The level-scaled cap on monsters per room.
pub open spec fn max_monsters_at(level: u32) -> u32 {
    spec_from_dungeon_level(
        seq![
            Transition { level: 1, value: 2 },
            Transition { level: 4, value: 3 },
            Transition { level: 6, value: 5 },
        ],
        level,
    )
}

/// The level-scaled cap on items per room.
pub open spec fn max_items_at(level: u32) -> u32 {
    spec_from_dungeon_level(
        seq![Transition { level: 1, value: 1 }, Transition { level: 4, value: 2 }],
        level,
    )
}

/// The level-scaled weight of the troll in the monster table.
pub open spec fn troll_chance_at(level: u32) -> u32 {
    spec_from_dungeon_level(
        seq![
            Transition { level: 3, value: 15 },
            Transition { level: 5, value: 30 },
            Transition { level: 7, value: 60 },
        ],
        level,
    )
}

/// A table whose every row demands a deeper level yields the default 0.
pub proof fn lemma_from_dungeon_level_zero(table: Seq<Transition>, level: u32)
    requires
        forall|i: int| 0 <= i < table.len() ==> level < (#[trigger] table[i]).level,
    ensures
        spec_from_dungeon_level(table, level) == 0,
    decreases table.len(),
{
    if table.len() > 0 {
        assert(forall|i: int|
            0 <= i < table.drop_last().len() ==> level < (#[trigger] table.drop_last()[i]).level);
        lemma_from_dungeon_level_zero(table.drop_last(), level);
    }
}

/// All new entries of the grown collection are entities of the fixed spawn
/// catalog, standing strictly inside `room` on an unblocked map tile that
/// no earlier blocking entity holds; below dungeon level 3 every monster
/// is an orc.
pub open spec fn placed_in_room(
    objs_old: Seq<Object>,
    objs_new: Seq<Object>,
    room: Rect,
    m: DungeonMap,
    level: u32,
) -> bool {
    &&& objs_old.is_prefix_of(objs_new)
    &&& forall|i: int|
        objs_old.len() <= i < objs_new.len() ==> {
            let o = #[trigger] objs_new[i];
            &&& obj_wf(o)
            &&& spawn_ok(o)
            &&& room_interior(room, o.x as int, o.y as int)
            &&& !tile_at(m, o.x as int, o.y as int).blocked
            &&& (o.blocks && level < 3 ==> o.fighter == Some(orc_fighter()))
        }
    &&& forall|i: int, j: int|
        objs_old.len() <= i < objs_new.len() && 0 <= j < i ==> !((#[trigger] objs_new[j]).blocks
            && objs_new[j].x == (#[trigger] objs_new[i]).x && objs_new[j].y == objs_new[i].y)
}

/// Appending one catalog entity on a free tile extends the placement
/// relation.
proof fn lemma_placed_extend(
    base: Seq<Object>,
    pre: Seq<Object>,
    cur: Seq<Object>,
    room: Rect,
    m: DungeonMap,
    level: u32,
    o: Object,
)
    requires
        placed_in_room(base, pre, room, m, level),
        cur == pre.push(o),
        obj_wf(o),
        spawn_ok(o),
        room_interior(room, o.x as int, o.y as int),
        !tile_at(m, o.x as int, o.y as int).blocked,
        o.blocks && level < 3 ==> o.fighter == Some(orc_fighter()),
        !spec_blocked(o.x as int, o.y as int, m, pre),
    ensures
        placed_in_room(base, cur, room, m, level),
{
    assert(base =~= cur.subrange(0, base.len() as int)) by {
        assert(base =~= pre.subrange(0, base.len() as int));
        assert forall|i: int| 0 <= i < base.len() implies cur[i] == base[i] by {
            assert(cur[i] == pre[i]);
            assert(pre[i] == pre.subrange(0, base.len() as int)[i]);
        }
    }
    assert forall|i: int, j: int|
        base.len() <= i < cur.len() && 0 <= j < i implies !((#[trigger] cur[j]).blocks && cur[j].x
        == (#[trigger] cur[i]).x && cur[j].y == cur[i].y) by {
        if i < pre.len() {
            assert(cur[i] == pre[i] && cur[j] == pre[j]);
        } else {
            assert(cur[i] == o);
            assert(cur[j] == pre[j]);
            assert(!(pre[j].blocks && pre[j].x == o.x && pre[j].y == o.y));
        }
    }
}

/// Populate the room with a level-scaled random number of monsters and
/// items, each of a level-scaled weighted random type, skipping (without a
/// retry) any candidate tile that is already blocked.
pub fn place_objects(room: Rect, map: &DungeonMap, objects: &mut Vec<Object>, level: u32)
    requires
        map_dims(*map),
        0 <= room.x1,
        room.x1 + 2 <= room.x2 < MAP_WIDTH,
        0 <= room.y1,
        room.y1 + 2 <= room.y2 < MAP_HEIGHT,
        forall|i: int| 0 <= i < old(objects)@.len() ==> obj_wf(#[trigger] old(objects)@[i]),
        world_unequipped(old(objects)@),
    ensures
        placed_in_room(old(objects)@, final(objects)@, room, *map, level),
        final(objects)@.len() <= old(objects)@.len() + max_monsters_at(level) + max_items_at(level),
        forall|i: int| 0 <= i < final(objects)@.len() ==> obj_wf(#[trigger] final(objects)@[i]),
        world_unequipped(final(objects)@),
{
    // maximum number of monsters per room
    let mut monster_table: Vec<Transition> = Vec::new();
    monster_table.push(Transition { level: 1, value: 2 });
    monster_table.push(Transition { level: 4, value: 3 });
    monster_table.push(Transition { level: 6, value: 5 });
    let max_monsters = from_dungeon_level(&monster_table, level);
    proof {
        lemma_from_dungeon_level_bound(monster_table@, level, 5);
        assert(monster_table@ =~= seq![
            Transition { level: 1, value: 2 },
            Transition { level: 4, value: 3 },
            Transition { level: 6, value: 5 },
        ]);
        assert(max_monsters == max_monsters_at(level));
    }

    // choose a random number of monsters
    let num_monsters = rand_range_u32(0, max_monsters + 1);

    // monster random table
    let mut troll_table: Vec<Transition> = Vec::new();
    troll_table.push(Transition { level: 3, value: 15 });
    troll_table.push(Transition { level: 5, value: 30 });
    troll_table.push(Transition { level: 7, value: 60 });
    let troll_chance = from_dungeon_level(&troll_table, level);
    proof {
        lemma_from_dungeon_level_bound(troll_table@, level, 60);
        assert(troll_table@ =~= seq![
            Transition { level: 3, value: 15 },
            Transition { level: 5, value: 30 },
            Transition { level: 7, value: 60 },
        ]);
        assert(troll_chance == troll_chance_at(level));
    }
    let mut monster_chances: Vec<u32> = Vec::new();
    monster_chances.push(80);
    monster_chances.push(troll_chance);
    proof {
        let s2 = monster_chances@;
        let s1 = s2.drop_first();
        let s0 = s1.drop_first();
        assert(s0 =~= Seq::<u32>::empty());
        assert(total_weight(s0) == 0);
        assert(s1.first() == troll_chance && s1.len() == 1);
        assert(total_weight(s1) == troll_chance + total_weight(s0));
        assert(total_weight(s2) == 80 + total_weight(s1));
    }

    let mut placed: u32 = 0;
    while placed < num_monsters
        invariant
            map_dims(*map),
            0 <= room.x1,
            room.x1 + 2 <= room.x2 < MAP_WIDTH,
            0 <= room.y1,
            room.y1 + 2 <= room.y2 < MAP_HEIGHT,
            placed_in_room(old(objects)@, objects@, room, *map, level),
            objects@.len() <= old(objects)@.len() + placed,
            placed <= num_monsters,
            num_monsters <= max_monsters_at(level),
            forall|i: int| 0 <= i < objects@.len() ==> obj_wf(#[trigger] objects@[i]),
            world_unequipped(objects@),
            total_weight(monster_chances@) == 80 + troll_chance,
            troll_chance <= 60,
            troll_chance == troll_chance_at(level),
            monster_chances@.len() == 2,
            monster_chances@[1] == troll_chance,
        decreases num_monsters - placed,
    {
        // choose a random spot for this monster
        let x = rand_range_i32(room.x1 + 1, room.x2);
        let y = rand_range_i32(room.y1 + 1, room.y2);

        // only place it if the tile is not blocked
        if !is_blocked(x, y, map, objects) {
            let total = sum_weights(&monster_chances);
            let roll = rand_range_u32(0, total as u32);
            let pick = weighted_pick(&monster_chances, roll);
            let mut monster = if pick == 0 {
                // create an orc
                let mut orc = Object::new(x, y, 'o', "orc", desaturated_green(), true);
                orc.fighter = Some(
                    Fighter {
                        base_max_hp: 20,
                        hp: 20,
                        base_defense: 0,
                        base_power: 4,
                        xp: 35,
                        on_death: DeathCallback::Monster,
                    },
                );
                orc.ai = Some(Ai::Basic);
                orc
            } else {
                proof {
                    // the troll weight is gated behind dungeon level 3
                    if level < 3 {
                        let t = seq![
                            Transition { level: 3, value: 15 },
                            Transition { level: 5, value: 30 },
                            Transition { level: 7, value: 60 },
                        ];
                        assert forall|i: int| 0 <= i < t.len() implies level < (#[trigger] t[i]).level by {
                            if i == 0 {
                                assert(t[0].level == 3);
                            } else if i == 1 {
                                assert(t[1].level == 5);
                            } else {
                                assert(t[2].level == 7);
                            }
                        }
                        lemma_from_dungeon_level_zero(t, level);
                        assert(troll_chance == 0);
                        assert(monster_chances@[pick as int] > 0);
                        assert(false);
                    }
                }
                // create a troll
                let mut troll = Object::new(x, y, 'T', "troll", darker_green(), true);
                troll.fighter = Some(
                    Fighter {
                        base_max_hp: 30,
                        hp: 30,
                        base_defense: 2,
                        base_power: 8,
                        xp: 100,
                        on_death: DeathCallback::Monster,
                    },
                );
                troll.ai = Some(Ai::Basic);
                troll
            };
            monster.alive = true;
            let ghost pre = objects@;
            let ghost pushed = monster;
            objects.push(monster);
            proof {
                lemma_placed_extend(old(objects)@, pre, objects@, room, *map, level, pushed);
            }
        }
        placed += 1;
    }

    // maximum number of items per room
    let mut item_table: Vec<Transition> = Vec::new();
    item_table.push(Transition { level: 1, value: 1 });
    item_table.push(Transition { level: 4, value: 2 });
    let max_items = from_dungeon_level(&item_table, level);
    proof {
        lemma_from_dungeon_level_bound(item_table@, level, 2);
        assert(item_table@ =~= seq![
            Transition { level: 1, value: 1 },
            Transition { level: 4, value: 2 },
        ]);
        assert(max_items == max_items_at(level));
    }

    // item random table: the healing potion always shows up
    let mut lightning_table: Vec<Transition> = Vec::new();
    lightning_table.push(Transition { level: 4, value: 25 });
    let mut fireball_table: Vec<Transition> = Vec::new();
    fireball_table.push(Transition { level: 6, value: 25 });
    let mut confuse_table: Vec<Transition> = Vec::new();
    confuse_table.push(Transition { level: 2, value: 10 });
    let mut sword_table: Vec<Transition> = Vec::new();
    sword_table.push(Transition { level: 4, value: 5 });
    let mut shield_table: Vec<Transition> = Vec::new();
    shield_table.push(Transition { level: 8, value: 15 });
    let w_lightning = from_dungeon_level(&lightning_table, level);
    let w_fireball = from_dungeon_level(&fireball_table, level);
    let w_confuse = from_dungeon_level(&confuse_table, level);
    let w_sword = from_dungeon_level(&sword_table, level);
    let w_shield = from_dungeon_level(&shield_table, level);
    proof {
        lemma_from_dungeon_level_bound(lightning_table@, level, 25);
        lemma_from_dungeon_level_bound(fireball_table@, level, 25);
        lemma_from_dungeon_level_bound(confuse_table@, level, 10);
        lemma_from_dungeon_level_bound(sword_table@, level, 5);
        lemma_from_dungeon_level_bound(shield_table@, level, 15);
    }
    let mut item_chances: Vec<u32> = Vec::new();
    item_chances.push(35);
    item_chances.push(w_lightning);
    item_chances.push(w_fireball);
    item_chances.push(w_confuse);
    item_chances.push(w_sword);
    item_chances.push(w_shield);
    proof {
        let s6 = item_chances@;
        let s5 = s6.drop_first();
        let s4 = s5.drop_first();
        let s3 = s4.drop_first();
        let s2 = s3.drop_first();
        let s1 = s2.drop_first();
        let s0 = s1.drop_first();
        assert(s0 =~= Seq::<u32>::empty());
        assert(total_weight(s0) == 0);
        assert(s1.len() == 1 && s1.first() == w_shield);
        assert(total_weight(s1) == w_shield + total_weight(s0));
        assert(s2.len() == 2 && s2.first() == w_sword);
        assert(total_weight(s2) == w_sword + total_weight(s1));
        assert(s3.len() == 3 && s3.first() == w_confuse);
        assert(total_weight(s3) == w_confuse + total_weight(s2));
        assert(s4.len() == 4 && s4.first() == w_fireball);
        assert(total_weight(s4) == w_fireball + total_weight(s3));
        assert(s5.len() == 5 && s5.first() == w_lightning);
        assert(total_weight(s5) == w_lightning + total_weight(s4));
        assert(total_weight(s6) == 35 + total_weight(s5));
    }

    // choose a random number of items
    let num_items = rand_range_u32(0, max_items + 1);

    let mut placed_items: u32 = 0;
    while placed_items < num_items
        invariant
            map_dims(*map),
            0 <= room.x1,
            room.x1 + 2 <= room.x2 < MAP_WIDTH,
            0 <= room.y1,
            room.y1 + 2 <= room.y2 < MAP_HEIGHT,
            placed_in_room(old(objects)@, objects@, room, *map, level),
            objects@.len() <= old(objects)@.len() + max_monsters_at(level) + placed_items,
            placed_items <= num_items,
            num_items <= max_items_at(level),
            forall|i: int| 0 <= i < objects@.len() ==> obj_wf(#[trigger] objects@[i]),
            world_unequipped(objects@),
            total_weight(item_chances@) == 35 + w_lightning + w_fireball + w_confuse + w_sword
                + w_shield,
            w_lightning <= 25 && w_fireball <= 25 && w_confuse <= 10 && w_sword <= 5 && w_shield
                <= 15,
            item_chances@.len() == 6,
        decreases num_items - placed_items,
    {
        // choose a random spot for this item
        let x = rand_range_i32(room.x1 + 1, room.x2);
        let y = rand_range_i32(room.y1 + 1, room.y2);

        // only place it if the tile is not blocked
        if !is_blocked(x, y, map, objects) {
            let total = sum_weights(&item_chances);
            let roll = rand_range_u32(0, total as u32);
            let pick = weighted_pick(&item_chances, roll);
            let mut item = if pick == 0 {
                // create a healing potion
                let mut object = Object::new(x, y, '!', "healing potion", violet(), false);
                object.item = Some(Item::Heal);
                object
            } else if pick == 1 {
                // create a lightning bolt scroll
                let mut object = Object::new(
                    x,
                    y,
                    '#',
                    "scroll of lightning bolt",
                    light_yellow(),
                    false,
                );
                object.item = Some(Item::Lightning);
                object
            } else if pick == 2 {
                // create a fireball scroll
                let mut object = Object::new(x, y, '#', "scroll of fireball", light_yellow(), false);
                object.item = Some(Item::Fireball);
                object
            } else if pick == 3 {
                // create a confusion scroll
                let mut object = Object::new(x, y, '#', "scroll of confusion", light_yellow(), false);
                object.item = Some(Item::Confuse);
                object
            } else if pick == 4 {
                // create a sword
                let mut object = Object::new(x, y, '/', "sword", sky(), false);
                object.item = Some(Item::Sword);
                object.equipment = Some(
                    Equipment {
                        equipped: false,
                        slot: Slot::RightHand,
                        power_bonus: 3,
                        defense_bonus: 0,
                        max_hp_bonus: 0,
                    },
                );
                object
            } else {
                // create a shield
                let mut object = Object::new(x, y, '[', "shield", darker_orange(), false);
                object.item = Some(Item::Shield);
                object.equipment = Some(
                    Equipment {
                        equipped: false,
                        slot: Slot::LeftHand,
                        power_bonus: 0,
                        defense_bonus: 1,
                        max_hp_bonus: 0,
                    },
                );
                object
            };
            item.always_visible = true;
            let ghost pre = objects@;
            let ghost pushed = item;
            objects.push(item);
            proof {
                lemma_placed_extend(old(objects)@, pre, objects@, room, *map, level, pushed);
            }
        }
        placed_items += 1;
    }
}

/// A grid of solid wall with the map dimensions.
fn make_wall_grid() -> (m: DungeonMap)
    ensures
        map_dims(m),
        forall|x: int, y: int| in_bounds(x, y) ==> tile_at(m, x, y).blocked,
        map_ok(m),
{
    let mut grid: Vec<Vec<Tile>> = Vec::new();
    let mut x: usize = 0;
    while x < MAP_WIDTH as usize
        invariant
            x <= MAP_WIDTH as usize,
            grid@.len() == x as int,
            forall|a: int| 0 <= a < x as int ==> (#[trigger] grid@[a])@.len() == MAP_HEIGHT as int,
            forall|a: int, b: int|
                0 <= a < x as int && 0 <= b < MAP_HEIGHT as int ==> #[trigger] grid@[a]@[b].blocked,
        decreases MAP_WIDTH as usize - x,
    {
        let mut column: Vec<Tile> = Vec::new();
        let mut y: usize = 0;
        while y < MAP_HEIGHT as usize
            invariant
                y <= MAP_HEIGHT as usize,
                column@.len() == y as int,
                forall|b: int| 0 <= b < y as int ==> (#[trigger] column@[b]).blocked,
            decreases MAP_HEIGHT as usize - y,
        {
            column.push(Tile::wall());
            y += 1;
        }
        grid.push(column);
        x += 1;
    }
    grid
}

/// `(x, y)` lies on the L-shaped tunnel carved between the centers `a` and
/// `b` of two consecutive rooms: the horizontal run at `a`'s row between
/// the two columns, or the vertical run at `b`'s column between the two
/// rows. Both carving orders of the coin flip open exactly this set.
pub open spec fn tunnel_tile(x: int, y: int, a: (int, int), b: (int, int)) -> bool {
    ||| (y == a.1 && (if a.0 <= b.0 {
        a.0 <= x <= b.0
    } else {
        b.0 <= x <= a.0
    }))
    ||| (x == b.0 && (if a.1 <= b.1 {
        a.1 <= y <= b.1
    } else {
        b.1 <= y <= a.1
    }))
}

/// `(x, y)` was carved by the generator: it lies strictly inside an
/// accepted room, or on the tunnel between two consecutive room centers.
pub open spec fn carved_tile(rooms: Seq<Rect>, x: int, y: int) -> bool {
    ||| exists|k: int| 0 <= k < rooms.len() && room_interior(#[trigger] rooms[k], x, y)
    ||| exists|k: int|
        1 <= k < rooms.len() && tunnel_tile(
            x,
            y,
            rooms[k - 1].spec_center(),
            (#[trigger] rooms[k]).spec_center(),
        )
}

/// How accepting one room extends the carved tile set: the new room's
/// interior and, past the first room, the tunnel from the previous room's
/// center.
proof fn lemma_carved_push(rooms: Seq<Rect>, r: Rect, x: int, y: int)
    ensures
        carved_tile(rooms.push(r), x, y) <==> (carved_tile(rooms, x, y) || room_interior(r, x, y)
            || (rooms.len() >= 1 && tunnel_tile(x, y, rooms.last().spec_center(), r.spec_center()))),
{
    let pushed = rooms.push(r);
    assert(pushed[rooms.len() as int] == r);
    if carved_tile(pushed, x, y) {
        if exists|k: int| 0 <= k < pushed.len() && room_interior(#[trigger] pushed[k], x, y) {
            let k = choose|k: int| 0 <= k < pushed.len() && room_interior(#[trigger] pushed[k], x, y);
            if k < rooms.len() {
                assert(pushed[k] == rooms[k]);
                assert(room_interior(rooms[k], x, y));
            } else {
                assert(room_interior(r, x, y));
            }
        }
        if exists|k: int|
            1 <= k < pushed.len() && tunnel_tile(
                x,
                y,
                pushed[k - 1].spec_center(),
                (#[trigger] pushed[k]).spec_center(),
            ) {
            let k = choose|k: int|
                1 <= k < pushed.len() && tunnel_tile(
                    x,
                    y,
                    pushed[k - 1].spec_center(),
                    (#[trigger] pushed[k]).spec_center(),
                );
            if k < rooms.len() {
                assert(pushed[k] == rooms[k] && pushed[k - 1] == rooms[k - 1]);
                assert(tunnel_tile(x, y, rooms[k - 1].spec_center(), rooms[k].spec_center()));
            } else {
                assert(pushed[k - 1] == rooms[rooms.len() - 1]);
                assert(tunnel_tile(x, y, rooms.last().spec_center(), r.spec_center()));
            }
        }
    }
    if carved_tile(rooms, x, y) {
        if exists|k: int| 0 <= k < rooms.len() && room_interior(#[trigger] rooms[k], x, y) {
            let k = choose|k: int| 0 <= k < rooms.len() && room_interior(#[trigger] rooms[k], x, y);
            assert(pushed[k] == rooms[k]);
            assert(room_interior(pushed[k], x, y));
        }
        if exists|k: int|
            1 <= k < rooms.len() && tunnel_tile(
                x,
                y,
                rooms[k - 1].spec_center(),
                (#[trigger] rooms[k]).spec_center(),
            ) {
            let k = choose|k: int|
                1 <= k < rooms.len() && tunnel_tile(
                    x,
                    y,
                    rooms[k - 1].spec_center(),
                    (#[trigger] rooms[k]).spec_center(),
                );
            assert(pushed[k] == rooms[k] && pushed[k - 1] == rooms[k - 1]);
            assert(tunnel_tile(x, y, pushed[k - 1].spec_center(), pushed[k].spec_center()));
        }
    }
    if room_interior(r, x, y) {
        assert(room_interior(pushed[rooms.len() as int], x, y));
    }
    if rooms.len() >= 1 && tunnel_tile(x, y, rooms.last().spec_center(), r.spec_center()) {
        let k = rooms.len() as int;
        assert(pushed[k - 1] == rooms.last());
        assert(tunnel_tile(x, y, pushed[k - 1].spec_center(), (pushed[k]).spec_center()));
    }
}

/// The entity stands strictly inside one of the accepted rooms.
pub open spec fn in_some_room(o: Object, rooms: Seq<Rect>) -> bool {
    exists|k: int| 0 <= k < rooms.len() && room_interior(#[trigger] rooms[k], o.x as int, o.y as int)
}

/// Every accepted room lies inside the map with a side length between the
/// configured minimum and maximum.
pub open spec fn rooms_bounds(rooms: Seq<Rect>) -> bool {
    forall|i: int|
        0 <= i < rooms.len() ==> {
            let r = #[trigger] rooms[i];
            &&& 0 <= r.x1
            &&& r.x1 + ROOM_MIN_SIZE <= r.x2 <= r.x1 + ROOM_MAX_SIZE
            &&& r.x2 < MAP_WIDTH
            &&& 0 <= r.y1
            &&& r.y1 + ROOM_MIN_SIZE <= r.y2 <= r.y1 + ROOM_MAX_SIZE
            &&& r.y2 < MAP_HEIGHT
        }
}

/// The acceptance facts kept of every room of a generated level: it lies
/// inside the map with at least the minimum size, its center is an open
/// tile, and that center is reachable from the first room's center.
pub open spec fn rooms_ok(m: DungeonMap, rooms: Seq<Rect>) -> bool {
    &&& rooms_bounds(rooms)
    &&& forall|i: int|
        0 <= i < rooms.len() ==> open_at(
            m,
            (#[trigger] rooms[i]).spec_center().0,
            rooms[i].spec_center().1,
        )
    &&& forall|i: int|
        0 <= i < rooms.len() ==> connected(
            m,
            rooms[0].spec_center(),
            (#[trigger] rooms[i]).spec_center(),
        )
}

/// Accepted rooms never intersect, under the inclusive bounding-box test.
pub open spec fn rooms_disjoint(rooms: Seq<Rect>) -> bool {
    forall|i: int, j: int|
        0 <= i < j < rooms.len() ==> !(#[trigger] rooms[i]).spec_intersects(#[trigger] rooms[j])
}

/// Center openness and reachability survive any carving, since carving
/// only opens tiles.
proof fn lemma_rooms_ok_monotone(m1: DungeonMap, m2: DungeonMap, rooms: Seq<Rect>)
    requires
        opens_monotone(m1, m2),
        rooms_ok(m1, rooms),
    ensures
        rooms_ok(m2, rooms),
{
    assert forall|i: int|
        0 <= i < rooms.len() implies connected(
        m2,
        rooms[0].spec_center(),
        (#[trigger] rooms[i]).spec_center(),
    ) by {
        lemma_connected_monotone(m1, m2, rooms[0].spec_center(), rooms[i].spec_center());
    }
}

/// Whether any accepted room intersects the candidate.
fn any_intersects(rooms: &Vec<Rect>, new_room: &Rect) -> (b: bool)
    ensures
        b == exists|i: int| 0 <= i < rooms@.len() && (#[trigger] rooms@[i]).spec_intersects(*new_room),
{
    let mut i: usize = 0;
    while i < rooms.len()
        invariant
            i <= rooms@.len(),
            forall|j: int| 0 <= j < i as int ==> !(#[trigger] rooms@[j]).spec_intersects(*new_room),
        decreases rooms@.len() - i,
    {
        if new_room.intersects_with(&rooms[i]) {
            return true;
        }
        i += 1;
    }
    false
}

/// Generate a new level for the given dungeon depth: a map of carved,
/// tunnel-connected rooms, the world repopulated around the retained
/// player, the stairs at the center of the last room. Returns the map and
/// the accepted rooms: the rooms are pairwise non-intersecting, every
/// room's center is an open tile reachable from the first room's center,
/// the player stands at the first room's center and the stairs at the
/// last one's.
#[verifier::rlimit(100)]
#[verifier::spinoff_prover]
pub fn build_map(objects: &mut Vec<Object>, level: u32) -> (res: (DungeonMap, Vec<Rect>))
    requires
        old(objects)@.len() >= 1,
        obj_wf(old(objects)@[0]),
        old(objects)@[0].equipment is Some ==> !old(objects)@[0].equipment->0.equipped,
    ensures
        ({
            let m = res.0;
            let rooms = res.1@;
            &&& map_ok(m)
            &&& rooms.len() >= 1
            &&& rooms_disjoint(rooms)
            &&& rooms_ok(m, rooms)
            &&& final(objects)@.len() >= 2
            &&& final(objects)@[0] == (Object {
                x: rooms[0].spec_center().0 as i32,
                y: rooms[0].spec_center().1 as i32,
                ..old(objects)@[0]
            })
            &&& ({
                let stairs = final(objects)@.last();
                &&& stairs.glyph == '<'
                &&& stairs.name@ == "stairs"@
                &&& !stairs.blocks
                &&& stairs.always_visible
                &&& stairs.fighter is None
                &&& stairs.ai is None
                &&& (stairs.x as int, stairs.y as int) == rooms[rooms.len() - 1].spec_center()
            })
            &&& forall|i: int|
                1 <= i < final(objects)@.len() - 1 ==> spawn_ok(#[trigger] final(objects)@[i])
            &&& forall|x: int, y: int|
                in_bounds(x, y) ==> (#[trigger] open_at(m, x, y) <==> carved_tile(rooms, x, y))
            &&& forall|i: int|
                1 <= i < final(objects)@.len() ==> in_some_room(#[trigger] final(objects)@[i], rooms)
            &&& objs_wf(final(objects)@)
            &&& world_unequipped(final(objects)@)
        }),
{
    // fill the map with blocked tiles
    let mut map = make_wall_grid();

    // the player is the first entity; remove everything else
    objects.truncate(1);

    let mut rooms: Vec<Rect> = Vec::new();
    proof {
        assert forall|x: int, y: int|
            in_bounds(x, y) implies (#[trigger] open_at(map, x, y) <==> carved_tile(
            rooms@,
            x,
            y,
        )) by {
            assert(!open_at(map, x, y));
        }
    }

    let mut attempt: i32 = 0;
    while attempt < MAX_ROOMS
        invariant
            map_ok(map),
            rooms_disjoint(rooms@),
            rooms_ok(map, rooms@),
            forall|x: int, y: int|
                in_bounds(x, y) ==> (#[trigger] open_at(map, x, y) <==> carved_tile(rooms@, x, y)),
            forall|i: int| 1 <= i < objects@.len() ==> in_some_room(#[trigger] objects@[i], rooms@),
            attempt >= 1 ==> rooms@.len() >= 1,
            0 <= attempt,
            objects@.len() >= 1,
            objects@[0] == (Object { x: objects@[0].x, y: objects@[0].y, ..old(objects)@[0] }),
            rooms@.len() >= 1 ==> (objects@[0].x as int, objects@[0].y as int)
                == rooms@[0].spec_center(),
            forall|i: int| 0 <= i < objects@.len() ==> obj_wf(#[trigger] objects@[i]),
            forall|i: int| 1 <= i < objects@.len() ==> pos_ok(#[trigger] objects@[i]),
            forall|i: int| 1 <= i < objects@.len() ==> spawn_ok(#[trigger] objects@[i]),
            world_unequipped(objects@),
        decreases MAX_ROOMS - attempt,
    {
        // random width and height
        let w = rand_range_i32(ROOM_MIN_SIZE, ROOM_MAX_SIZE + 1);
        let h = rand_range_i32(ROOM_MIN_SIZE, ROOM_MAX_SIZE + 1);
        // random position without going out of the boundaries of the map
        let x = rand_range_i32(0, MAP_WIDTH - w);
        let y = rand_range_i32(0, MAP_HEIGHT - h);

        let new_room = Rect::new(x, y, w, h);

        // run through the other rooms and see if they intersect with this one
        let failed = any_intersects(&rooms, &new_room);

        if !failed {
            // no intersections, so this room is valid
            accept_room(new_room, &mut map, &mut rooms, objects, level);
        }
        attempt += 1;
    }

    // create the stairs at the center of the last room
    let ghost before_stairs = objects@;
    place_stairs(&rooms, objects);
    proof {
        assert forall|i: int|
            1 <= i < objects@.len() implies in_some_room(#[trigger] objects@[i], rooms@) by {
            if i < before_stairs.len() {
                assert(objects@[i] == before_stairs[i]);
            } else {
                assert(room_interior(
                    rooms@[rooms@.len() - 1],
                    objects@[i].x as int,
                    objects@[i].y as int,
                ));
            }
        }
    }

    (map, rooms)
}

/// A horizontal tunnel only opens tiles, and what was carved stays interior.
proof fn tunnel_monotone_h(m1: DungeonMap, m2: DungeonMap, x1: i32, x2: i32, y: i32)
    requires
        map_ok(m1),
        map_dims(m2),
        interior(x1 as int, y as int),
        interior(x2 as int, y as int),
        forall|a: int, b: int|
            in_bounds(a, b) && (if x1 <= x2 {
                x1 as int <= a <= x2 as int
            } else {
                x2 as int <= a <= x1 as int
            }) && b == y as int ==> tile_at(m2, a, b) == (Tile {
                blocked: false,
                explored: false,
                block_sight: false,
            }),
        forall|a: int, b: int|
            in_bounds(a, b) && !((if x1 <= x2 {
                x1 as int <= a <= x2 as int
            } else {
                x2 as int <= a <= x1 as int
            }) && b == y as int) ==> tile_at(m2, a, b) == tile_at(m1, a, b),
    ensures
        opens_monotone(m1, m2),
        map_ok(m2),
{
    assert forall|a: int, b: int| #[trigger] open_at(m1, a, b) implies open_at(m2, a, b) by {
        if !((if x1 <= x2 {
            x1 as int <= a <= x2 as int
        } else {
            x2 as int <= a <= x1 as int
        }) && b == y as int) {
            assert(tile_at(m2, a, b) == tile_at(m1, a, b));
        }
    }
    assert forall|a: int, b: int| #[trigger] open_at(m2, a, b) implies interior(a, b) by {
        if !((if x1 <= x2 {
            x1 as int <= a <= x2 as int
        } else {
            x2 as int <= a <= x1 as int
        }) && b == y as int) {
            assert(open_at(m1, a, b));
        }
    }
}

/// A vertical tunnel only opens tiles, and what was carved stays interior.
proof fn tunnel_monotone_v(m1: DungeonMap, m2: DungeonMap, y1: i32, y2: i32, x: i32)
    requires
        map_ok(m1),
        map_dims(m2),
        interior(x as int, y1 as int),
        interior(x as int, y2 as int),
        forall|a: int, b: int|
            in_bounds(a, b) && (if y1 <= y2 {
                y1 as int <= b <= y2 as int
            } else {
                y2 as int <= b <= y1 as int
            }) && a == x as int ==> tile_at(m2, a, b) == (Tile {
                blocked: false,
                explored: false,
                block_sight: false,
            }),
        forall|a: int, b: int|
            in_bounds(a, b) && !((if y1 <= y2 {
                y1 as int <= b <= y2 as int
            } else {
                y2 as int <= b <= y1 as int
            }) && a == x as int) ==> tile_at(m2, a, b) == tile_at(m1, a, b),
    ensures
        opens_monotone(m1, m2),
        map_ok(m2),
{
    assert forall|a: int, b: int| #[trigger] open_at(m1, a, b) implies open_at(m2, a, b) by {
        if !((if y1 <= y2 {
            y1 as int <= b <= y2 as int
        } else {
            y2 as int <= b <= y1 as int
        }) && a == x as int) {
            assert(tile_at(m2, a, b) == tile_at(m1, a, b));
        }
    }
    assert forall|a: int, b: int| #[trigger] open_at(m2, a, b) implies interior(a, b) by {
        if !((if y1 <= y2 {
            y1 as int <= b <= y2 as int
        } else {
            y2 as int <= b <= y1 as int
        }) && a == x as int) {
            assert(open_at(m1, a, b));
        }
    }
}

/// Carve the accepted room and track the open tile set: afterwards the
/// open tiles are the previously carved ones plus the room's interior.
fn carve_room(new_room: Rect, map: &mut DungeonMap, Ghost(rooms): Ghost<Seq<Rect>>)
    requires
        map_ok(*old(map)),
        0 <= new_room.x1,
        new_room.x1 + ROOM_MIN_SIZE <= new_room.x2 <= new_room.x1 + ROOM_MAX_SIZE,
        new_room.x2 < MAP_WIDTH,
        0 <= new_room.y1,
        new_room.y1 + ROOM_MIN_SIZE <= new_room.y2 <= new_room.y1 + ROOM_MAX_SIZE,
        new_room.y2 < MAP_HEIGHT,
        forall|x: int, y: int|
            in_bounds(x, y) ==> (#[trigger] open_at(*old(map), x, y) <==> carved_tile(rooms, x, y)),
    ensures
        map_ok(*final(map)),
        opens_monotone(*old(map), *final(map)),
        forall|x: int, y: int|
            in_bounds(x, y) ==> (#[trigger] open_at(*final(map), x, y) <==> carved_tile(
                rooms,
                x,
                y,
            ) || room_interior(new_room, x, y)),
        forall|x: int, y: int|
            in_bounds(x, y) && room_interior(new_room, x, y) ==> tile_at(*final(map), x, y) == (Tile {
                blocked: false,
                explored: false,
                block_sight: false,
            }),
{
    let ghost m0 = *map;
    create_room(new_room, map);
    proof {
        assert forall|a: int, b: int| #[trigger] open_at(m0, a, b) implies open_at(*map, a, b) by {
            if !room_interior(new_room, a, b) {
                assert(tile_at(*map, a, b) == tile_at(m0, a, b));
            }
        }
        assert(opens_monotone(m0, *map));
        assert forall|a: int, b: int| #[trigger] open_at(*map, a, b) implies interior(a, b) by {
            if !room_interior(new_room, a, b) {
                assert(open_at(m0, a, b));
            }
        }
        assert forall|a: int, b: int|
            in_bounds(a, b) implies (#[trigger] open_at(*map, a, b) <==> carved_tile(
            rooms,
            a,
            b,
        ) || room_interior(new_room, a, b)) by {
            assert(open_at(m0, a, b) <==> carved_tile(rooms, a, b));
            if !room_interior(new_room, a, b) {
                assert(tile_at(*map, a, b) == tile_at(m0, a, b));
            } else {
                assert(tile_at(*map, a, b) == (Tile {
                    blocked: false,
                    explored: false,
                    block_sight: false,
                }));
            }
        }
    }
}

/// Append the stairway feature at the center of the last accepted room:
/// never blocking, always visible.
fn place_stairs(rooms: &Vec<Rect>, objects: &mut Vec<Object>)
    requires
        rooms@.len() >= 1,
        rooms_bounds(rooms@),
    ensures
        final(objects)@ == old(objects)@.push(final(objects)@.last()),
        ({
            let stairs = final(objects)@.last();
            &&& stairs.glyph == '<'
            &&& stairs.name@ == "stairs"@
            &&& !stairs.blocks
            &&& !stairs.alive
            &&& stairs.always_visible
            &&& stairs.fighter is None
            &&& stairs.ai is None
            &&& stairs.item is None
            &&& stairs.equipment is None
            &&& (stairs.x as int, stairs.y as int) == rooms@[rooms@.len() - 1].spec_center()
            &&& room_interior(rooms@[rooms@.len() - 1], stairs.x as int, stairs.y as int)
        }),
{
    let last_room = rooms[rooms.len() - 1];
    let (last_x, last_y) = last_room.center();
    proof {
        let sx = last_room.x1 + last_room.x2;
        let sy = last_room.y1 + last_room.y2;
        assert(last_x as int == sx / 2 && last_y as int == sy / 2);
        assert(2 * last_room.x1 + ROOM_MIN_SIZE <= sx <= 2 * last_room.x2 - ROOM_MIN_SIZE);
        assert(2 * last_room.y1 + ROOM_MIN_SIZE <= sy <= 2 * last_room.y2 - ROOM_MIN_SIZE);
        assert(last_room.x1 < sx / 2 && sx / 2 < last_room.x2);
        assert(last_room.y1 < sy / 2 && sy / 2 < last_room.y2);
        assert(room_interior(last_room, last_x as int, last_y as int));
    }
    let mut stairs = Object::new(last_x, last_y, '<', "stairs", white(), false);
    stairs.always_visible = true;
    objects.push(stairs);
}

/// Accept a candidate room: carve it, populate it, position the player (in
/// the first room) or tunnel to the previous room's center, and record it.
#[verifier::rlimit(100)]
#[verifier::spinoff_prover]
fn accept_room(
    new_room: Rect,
    map: &mut DungeonMap,
    rooms: &mut Vec<Rect>,
    objects: &mut Vec<Object>,
    level: u32,
)
    requires
        map_ok(*old(map)),
        rooms_disjoint(old(rooms)@),
        rooms_ok(*old(map), old(rooms)@),
        0 <= new_room.x1,
        new_room.x1 + ROOM_MIN_SIZE <= new_room.x2 <= new_room.x1 + ROOM_MAX_SIZE,
        new_room.x2 < MAP_WIDTH,
        0 <= new_room.y1,
        new_room.y1 + ROOM_MIN_SIZE <= new_room.y2 <= new_room.y1 + ROOM_MAX_SIZE,
        new_room.y2 < MAP_HEIGHT,
        forall|i: int|
            0 <= i < old(rooms)@.len() ==> !(#[trigger] old(rooms)@[i]).spec_intersects(new_room),
        forall|x: int, y: int|
            in_bounds(x, y) ==> (#[trigger] open_at(*old(map), x, y) <==> carved_tile(
                old(rooms)@,
                x,
                y,
            )),
        old(objects)@.len() >= 1,
        forall|i: int| 0 <= i < old(objects)@.len() ==> obj_wf(#[trigger] old(objects)@[i]),
        forall|i: int| 1 <= i < old(objects)@.len() ==> pos_ok(#[trigger] old(objects)@[i]),
        forall|i: int| 1 <= i < old(objects)@.len() ==> spawn_ok(#[trigger] old(objects)@[i]),
        forall|i: int|
            1 <= i < old(objects)@.len() ==> in_some_room(#[trigger] old(objects)@[i], old(rooms)@),
        world_unequipped(old(objects)@),
    ensures
        map_ok(*final(map)),
        final(rooms)@ == old(rooms)@.push(new_room),
        rooms_disjoint(final(rooms)@),
        rooms_ok(*final(map), final(rooms)@),
        forall|x: int, y: int|
            in_bounds(x, y) ==> (#[trigger] open_at(*final(map), x, y) <==> carved_tile(
                final(rooms)@,
                x,
                y,
            )),
        forall|i: int|
            1 <= i < final(objects)@.len() ==> in_some_room(
                #[trigger] final(objects)@[i],
                final(rooms)@,
            ),
        final(objects)@.len() >= 1,
        old(rooms)@.len() >= 1 ==> final(objects)@[0] == old(objects)@[0],
        old(rooms)@.len() == 0 ==> final(objects)@[0] == (Object {
            x: new_room.spec_center().0 as i32,
            y: new_room.spec_center().1 as i32,
            ..old(objects)@[0]
        }),
        forall|i: int| 0 <= i < final(objects)@.len() ==> obj_wf(#[trigger] final(objects)@[i]),
        forall|i: int| 1 <= i < final(objects)@.len() ==> pos_ok(#[trigger] final(objects)@[i]),
        forall|i: int| 1 <= i < final(objects)@.len() ==> spawn_ok(#[trigger] final(objects)@[i]),
        world_unequipped(final(objects)@),
{
    // no intersections, so this room is valid

    // "paint" it to the map's tiles
    let ghost m0 = *map;
    carve_room(new_room, map, Ghost(rooms@));
    proof {
        lemma_rooms_ok_monotone(m0, *map, rooms@);
    }

    // add some content to this room, such as monsters
    let ghost before_place = objects@;
    place_objects(new_room, map, objects, level);
    proof {
        assert(before_place =~= objects@.subrange(0, before_place.len() as int));
        assert forall|i: int| 1 <= i < objects@.len() implies pos_ok(#[trigger] objects@[i])
            && spawn_ok(objects@[i]) by {
            if i < before_place.len() {
                assert(objects@[i] == before_place[i]);
            } else {
                assert(room_interior(new_room, objects@[i].x as int, objects@[i].y as int));
            }
        }
        assert(objects@[0] == before_place[0]);
    }

    // center coordinates of the new room
    let (new_x, new_y) = new_room.center();
    proof {
        let sx = new_room.x1 + new_room.x2;
        let sy = new_room.y1 + new_room.y2;
        assert(new_x as int == sx / 2 && new_y as int == sy / 2);
        assert(2 * new_room.x1 + ROOM_MIN_SIZE <= sx <= 2 * new_room.x2 - ROOM_MIN_SIZE);
        assert(2 * new_room.y1 + ROOM_MIN_SIZE <= sy <= 2 * new_room.y2 - ROOM_MIN_SIZE);
        assert(new_room.x1 < sx / 2 && sx / 2 < new_room.x2);
        assert(new_room.y1 < sy / 2 && sy / 2 < new_room.y2);
        assert(room_interior(new_room, new_x as int, new_y as int));
        assert(in_bounds(new_x as int, new_y as int));
        assert(tile_at(*map, new_x as int, new_y as int) == (Tile {
            blocked: false,
            explored: false,
            block_sight: false,
        }));
        assert(open_at(*map, new_x as int, new_y as int));
    }

    let ghost prev_center: (int, int) = if old(rooms)@.len() >= 1 {
        old(rooms)@.last().spec_center()
    } else {
        (0int, 0int)
    };
    if rooms.len() == 0 {
        // this is the first room, where the player starts
        let o = &mut objects[0];
        o.set_pos(new_x, new_y);
    } else {
        // all rooms after the first: connect it to the previous room with
        // a tunnel
        let prev_room = rooms[rooms.len() - 1];
        let ghost m1 = *map;
        proof {
            assert(open_at(m1, prev_room.spec_center().0, prev_room.spec_center().1));
        }
        connect_rooms(prev_room, new_room, map);
        proof {
            lemma_rooms_ok_monotone(m1, *map, rooms@);
            lemma_connected_monotone(m1, *map, rooms@[0].spec_center(), prev_room.spec_center());
            lemma_connected_trans(
                *map,
                rooms@[0].spec_center(),
                prev_room.spec_center(),
                new_room.spec_center(),
            );
            assert(prev_center == prev_room.spec_center());
            assert forall|a: int, b: int|
                in_bounds(a, b) implies (#[trigger] open_at(*map, a, b) <==> carved_tile(
                old(rooms)@,
                a,
                b,
            ) || room_interior(new_room, a, b) || (old(rooms)@.len() >= 1 && tunnel_tile(
                a,
                b,
                prev_center,
                new_room.spec_center(),
            ))) by {
                assert(open_at(*map, a, b) <==> open_at(m1, a, b) || tunnel_tile(
                    a,
                    b,
                    prev_room.spec_center(),
                    new_room.spec_center(),
                ));
            }
        }
    }

    // finally, append the new room to the list
    proof {
        if rooms@.len() == 0 {
            lemma_connected_refl(*map, new_room.spec_center());
        }
    }
    rooms.push(new_room);
    proof {
        assert forall|i: int|
            0 <= i < rooms@.len() implies connected(
            *map,
            rooms@[0].spec_center(),
            (#[trigger] rooms@[i]).spec_center(),
        ) by {
            if i < rooms@.len() - 1 {
                assert(rooms@[i] == rooms@.drop_last()[i]);
            }
        }
        // the open tiles are exactly the carved ones, for the grown list
        assert(rooms@.drop_last() =~= old(rooms)@);
        assert forall|a: int, b: int|
            in_bounds(a, b) implies (#[trigger] open_at(*map, a, b) <==> carved_tile(
            rooms@,
            a,
            b,
        )) by {
            lemma_carved_push(old(rooms)@, new_room, a, b);
        }
        // every non-player entity stands inside one of the rooms
        assert forall|i: int|
            1 <= i < objects@.len() implies in_some_room(#[trigger] objects@[i], rooms@) by {
            if i < old(objects)@.len() {
                assert(objects@[i] == old(objects)@[i]);
                let k = choose|k: int|
                    0 <= k < old(rooms)@.len() && room_interior(
                        #[trigger] old(rooms)@[k],
                        objects@[i].x as int,
                        objects@[i].y as int,
                    );
                assert(rooms@[k] == old(rooms)@[k]);
                assert(room_interior(rooms@[k], objects@[i].x as int, objects@[i].y as int));
            } else {
                assert(room_interior(new_room, objects@[i].x as int, objects@[i].y as int));
                assert(rooms@[rooms@.len() - 1] == new_room);
            }
        }
    }
}


/// Build the map and entity population for the level, returning the map:
/// a playable level, rebuilt wholesale around the retained player. Every
/// entity stands on an open carved tile; every entity between the player
/// and the stairs is a fresh spawn of the fixed catalog; the player can
/// reach the stairs across open tiles.
pub fn make_map(objects: &mut Vec<Object>, level: u32) -> (m: DungeonMap)
    requires
        old(objects)@.len() >= 1,
        obj_wf(old(objects)@[0]),
        old(objects)@[0].equipment is Some ==> !old(objects)@[0].equipment->0.equipped,
    ensures
        map_ok(m),
        forall|i: int|
            0 <= i < final(objects)@.len() ==> open_at(
                m,
                (#[trigger] final(objects)@[i]).x as int,
                final(objects)@[i].y as int,
            ),
        forall|i: int|
            1 <= i < final(objects)@.len() - 1 ==> spawn_ok(#[trigger] final(objects)@[i]),
        final(objects)@.len() >= 2,
        final(objects)@[0] == (Object {
            x: final(objects)@[0].x,
            y: final(objects)@[0].y,
            ..old(objects)@[0]
        }),
        ({
            let player = final(objects)@[0];
            let stairs = final(objects)@.last();
            &&& stairs.glyph == '<'
            &&& stairs.name@ == "stairs"@
            &&& !stairs.blocks
            &&& stairs.always_visible
            &&& stairs.fighter is None
            &&& stairs.ai is None
            &&& open_at(m, player.x as int, player.y as int)
            &&& open_at(m, stairs.x as int, stairs.y as int)
            &&& connected(m, (player.x as int, player.y as int), (stairs.x as int, stairs.y as int))
        }),
        objs_wf(final(objects)@),
        world_unequipped(final(objects)@),
{
    let (map, rooms) = build_map(objects, level);
    proof {
        let r = rooms@;
        assert(connected(map, r[0].spec_center(), r[r.len() - 1].spec_center()));
        assert forall|i: int|
            0 <= i < objects@.len() implies open_at(
            map,
            (#[trigger] objects@[i]).x as int,
            objects@[i].y as int,
        ) by {
            if i == 0 {
                assert(open_at(map, r[0].spec_center().0, r[0].spec_center().1));
            } else {
                let o = objects@[i];
                let k = choose|k: int|
                    0 <= k < r.len() && room_interior(#[trigger] r[k], o.x as int, o.y as int);
                assert(rooms_bounds(r));
                assert(in_bounds(o.x as int, o.y as int));
                assert(carved_tile(r, o.x as int, o.y as int));
            }
        }
    }
    map
}

/// Advance to the next level: heal the player by half its effective
/// maximum, then rebuild the map and entity population one level deeper.
pub fn next_level(game: &mut Game, objects: &mut Vec<Object>)
    requires
        old(objects)@.len() >= 1,
        obj_wf(old(objects)@[0]),
        old(objects)@[0].equipment is Some ==> !old(objects)@[0].equipment->0.equipped,
        inv_ok(old(game).inventory@),
        old(game).dungeon_level < u32::MAX,
    ensures
        final(game).dungeon_level == old(game).dungeon_level + 1,
        final(game).inventory == old(game).inventory,
        msgs_extended(old(game).messages, final(game).messages),
        map_ok(final(game).map),
        forall|i: int|
            0 <= i < final(objects)@.len() ==> open_at(
                final(game).map,
                (#[trigger] final(objects)@[i]).x as int,
                final(objects)@[i].y as int,
            ),
        forall|i: int|
            1 <= i < final(objects)@.len() - 1 ==> spawn_ok(#[trigger] final(objects)@[i]),
        final(objects)@.len() >= 2,
        ({
            let player = final(objects)@[0];
            let stairs = final(objects)@.last();
            &&& open_at(final(game).map, player.x as int, player.y as int)
            &&& connected(
                final(game).map,
                (player.x as int, player.y as int),
                (stairs.x as int, stairs.y as int),
            )
            &&& stairs.name@ == "stairs"@
        }),
        objs_wf(final(objects)@),
        world_unequipped(final(objects)@),
        ({
            // the player is the healed old player, repositioned
            let healed = if old(objects)@[0].fighter is Some {
                Object {
                    fighter: Some(
                        Fighter {
                            hp: (if old(objects)@[0].fighter->0.hp + spec_max_hp(
                                old(objects)@[0],
                                old(game).inventory@,
                            ) / 2 > spec_max_hp(old(objects)@[0], old(game).inventory@) {
                                spec_max_hp(old(objects)@[0], old(game).inventory@)
                            } else {
                                old(objects)@[0].fighter->0.hp + spec_max_hp(
                                    old(objects)@[0],
                                    old(game).inventory@,
                                ) / 2
                            }) as i32,
                            ..old(objects)@[0].fighter->0
                        },
                    ),
                    ..old(objects)@[0]
                }
            } else {
                old(objects)@[0]
            };
            final(objects)@[0] == (Object {
                x: final(objects)@[0].x,
                y: final(objects)@[0].y,
                ..healed
            })
        }),
{
    game.messages.add(
        String::from_str("You take a moment to rest, and recover your strength."),
        violet(),
    );
    proof {
        crate::object::lemma_sum_bonus_bounds(game.inventory@);
    }
    let heal_hp = objects[0].max_hp(game) / 2;
    {
        let o = &mut objects[0];
        o.heal(heal_hp, game);
    }
    game.messages.add(
        String::from_str(
            "After a rare moment of peace, you descend deeper into the heart of the dungeon...",
        ),
        red(),
    );
    game.dungeon_level += 1;
    game.map = make_map(objects, game.dungeon_level);
}

/// Carve an L-shaped unit-width tunnel between the centers of two rooms,
/// horizontal-then-vertical or vertical-then-horizontal on a coin flip:
/// afterwards the two centers are connected over open tiles.
#[verifier::rlimit(60)]
fn connect_rooms(prev_room: Rect, new_room: Rect, map: &mut DungeonMap)
    requires
        map_ok(*old(map)),
        0 <= prev_room.x1,
        prev_room.x1 + ROOM_MIN_SIZE <= prev_room.x2 <= prev_room.x1 + ROOM_MAX_SIZE,
        prev_room.x2 < MAP_WIDTH,
        0 <= prev_room.y1,
        prev_room.y1 + ROOM_MIN_SIZE <= prev_room.y2 <= prev_room.y1 + ROOM_MAX_SIZE,
        prev_room.y2 < MAP_HEIGHT,
        0 <= new_room.x1,
        new_room.x1 + ROOM_MIN_SIZE <= new_room.x2 <= new_room.x1 + ROOM_MAX_SIZE,
        new_room.x2 < MAP_WIDTH,
        0 <= new_room.y1,
        new_room.y1 + ROOM_MIN_SIZE <= new_room.y2 <= new_room.y1 + ROOM_MAX_SIZE,
        new_room.y2 < MAP_HEIGHT,
        open_at(*old(map), prev_room.spec_center().0, prev_room.spec_center().1),
        open_at(*old(map), new_room.spec_center().0, new_room.spec_center().1),
    ensures
        map_ok(*final(map)),
        opens_monotone(*old(map), *final(map)),
        connected(*final(map), prev_room.spec_center(), new_room.spec_center()),
        forall|x: int, y: int|
            in_bounds(x, y) ==> (#[trigger] open_at(*final(map), x, y) <==> open_at(
                *old(map),
                x,
                y,
            ) || tunnel_tile(x, y, prev_room.spec_center(), new_room.spec_center())),
{
    let (prev_x, prev_y) = prev_room.center();
    let (new_x, new_y) = new_room.center();
    let ghost c_prev = prev_room.spec_center();
    let ghost c_new = new_room.spec_center();
    let ghost m1 = *map;

    // toss a coin
    if rand_bool() {
        // first move horizontally, then vertically
        create_h_tunnel(prev_x, new_x, prev_y, map);
        let ghost m2 = *map;
        create_v_tunnel(prev_y, new_y, new_x, map);
        proof {
            tunnel_monotone_h(m1, m2, prev_x, new_x, prev_y);
            tunnel_monotone_v(m2, *map, prev_y, new_y, new_x);
            assert forall|a: int|
                (if prev_x <= new_x {
                    prev_x as int <= a <= new_x as int
                } else {
                    new_x as int <= a <= prev_x as int
                }) implies open_at(*map, a, prev_y as int) by {
                assert(in_bounds(a, prev_y as int));
                assert(tile_at(m2, a, prev_y as int) == (Tile {
                    blocked: false,
                    explored: false,
                    block_sight: false,
                }));
                assert(open_at(m2, a, prev_y as int));
            }
            assert forall|b: int|
                (if prev_y <= new_y {
                    prev_y as int <= b <= new_y as int
                } else {
                    new_y as int <= b <= prev_y as int
                }) implies open_at(*map, new_x as int, b) by {
                assert(in_bounds(new_x as int, b));
                assert(tile_at(*map, new_x as int, b) == (Tile {
                    blocked: false,
                    explored: false,
                    block_sight: false,
                }));
            }
            lemma_h_segment_connected(*map, prev_x as int, new_x as int, prev_y as int);
            lemma_v_segment_connected(*map, prev_y as int, new_y as int, new_x as int);
            lemma_connected_trans(*map, c_prev, (new_x as int, prev_y as int), c_new);
            assert forall|x: int, y: int|
                in_bounds(x, y) implies (#[trigger] open_at(*map, x, y) <==> open_at(m1, x, y)
                || tunnel_tile(x, y, c_prev, c_new)) by {
                let on_h = y == prev_y as int && (if prev_x <= new_x {
                    prev_x as int <= x <= new_x as int
                } else {
                    new_x as int <= x <= prev_x as int
                });
                let on_v = x == new_x as int && (if prev_y <= new_y {
                    prev_y as int <= y <= new_y as int
                } else {
                    new_y as int <= y <= prev_y as int
                });
                if on_v {
                    assert(open_at(*map, x, y));
                } else if on_h {
                    assert(tile_at(*map, x, y) == tile_at(m2, x, y));
                    assert(open_at(*map, x, y));
                } else {
                    assert(tile_at(*map, x, y) == tile_at(m2, x, y));
                    assert(tile_at(m2, x, y) == tile_at(m1, x, y));
                }
                assert(on_h || on_v <==> tunnel_tile(x, y, c_prev, c_new));
            }
        }
    } else {
        // first move vertically, then horizontally
        create_v_tunnel(prev_y, new_y, new_x, map);
        let ghost m2 = *map;
        create_h_tunnel(prev_x, new_x, prev_y, map);
        proof {
            tunnel_monotone_v(m1, m2, prev_y, new_y, new_x);
            tunnel_monotone_h(m2, *map, prev_x, new_x, prev_y);
            assert forall|b: int|
                (if prev_y <= new_y {
                    prev_y as int <= b <= new_y as int
                } else {
                    new_y as int <= b <= prev_y as int
                }) implies open_at(*map, new_x as int, b) by {
                assert(in_bounds(new_x as int, b));
                assert(tile_at(m2, new_x as int, b) == (Tile {
                    blocked: false,
                    explored: false,
                    block_sight: false,
                }));
                assert(open_at(m2, new_x as int, b));
            }
            assert forall|a: int|
                (if prev_x <= new_x {
                    prev_x as int <= a <= new_x as int
                } else {
                    new_x as int <= a <= prev_x as int
                }) implies open_at(*map, a, prev_y as int) by {
                assert(in_bounds(a, prev_y as int));
                assert(tile_at(*map, a, prev_y as int) == (Tile {
                    blocked: false,
                    explored: false,
                    block_sight: false,
                }));
            }
            lemma_v_segment_connected(*map, prev_y as int, new_y as int, new_x as int);
            lemma_h_segment_connected(*map, prev_x as int, new_x as int, prev_y as int);
            lemma_connected_trans(*map, c_prev, (new_x as int, prev_y as int), c_new);
            assert forall|x: int, y: int|
                in_bounds(x, y) implies (#[trigger] open_at(*map, x, y) <==> open_at(m1, x, y)
                || tunnel_tile(x, y, c_prev, c_new)) by {
                let on_h = y == prev_y as int && (if prev_x <= new_x {
                    prev_x as int <= x <= new_x as int
                } else {
                    new_x as int <= x <= prev_x as int
                });
                let on_v = x == new_x as int && (if prev_y <= new_y {
                    prev_y as int <= y <= new_y as int
                } else {
                    new_y as int <= y <= prev_y as int
                });
                if on_h {
                    assert(open_at(*map, x, y));
                } else if on_v {
                    assert(tile_at(*map, x, y) == tile_at(m2, x, y));
                    assert(open_at(*map, x, y));
                } else {
                    assert(tile_at(*map, x, y) == tile_at(m2, x, y));
                    assert(tile_at(m2, x, y) == tile_at(m1, x, y));
                }
                assert(on_h || on_v <==> tunnel_tile(x, y, c_prev, c_new));
            }
        }
    }
}

} // verus!
