//! The game aggregate: map, message log, inventory, and dungeon level.

use vstd::prelude::*;
use vstd::string::StringExecFns;
use crate::{MAP_WIDTH, MAP_HEIGHT};
use crate::color::Color;
use crate::fov::{Fov, fov_wf, fov_at};
use crate::object::{
    Object, pos_ok, objs_wf, inv_ok, spec_dist2, lemma_dist2_nonneg, spec_power, spec_defense,
    spec_reward, spec_damaged, Fighter, XP_CAP,
};
use crate::tile::{DungeonMap, map_dims, map_ok, tile_at, in_bounds, open_at};

verus! {

/// The ordered log of user-visible messages, each with a color.
pub struct Messages {
    pub messages: Vec<(String, Color)>,
}

impl Messages {
    pub fn new() -> (m: Messages)
        ensures
            m.messages@.len() == 0,
    {
        Messages { messages: Vec::new() }
    }

    /// Add the new message as a tuple, with the text and the color.
    pub fn add(&mut self, message: String, color: Color)
        ensures
            final(self).messages@ == old(self).messages@.push((message, color)),
    {
        self.messages.push((message, color));
    }

    /// How many messages the log holds.
    pub fn len(&self) -> (n: usize)
        ensures
            n == self.messages@.len(),
    {
        self.messages.len()
    }

    /// The message at `i`, oldest first.
    pub fn get(&self, i: usize) -> (m: &(String, Color))
        requires
            i < self.messages@.len(),
        ensures
            *m == self.messages@[i as int],
    {
        &self.messages[i]
    }
}

/// The log has only grown: every old entry is still there, in order.
pub open spec fn msgs_extended(old_log: Messages, new_log: Messages) -> bool {
    old_log.messages@.is_prefix_of(new_log.messages@)
}

/// The game aggregate. Entities other than inventory items live in the
/// separate world-entity collection, not here.
pub struct Game {
    pub map: DungeonMap,
    pub messages: Messages,
    pub inventory: Vec<Object>,
    pub dungeon_level: u32,
}

/// Everything but the message log is unchanged, and the log has only grown.
pub open spec fn same_but_messages(old_game: Game, new_game: Game) -> bool {
    &&& new_game.map == old_game.map
    &&& new_game.inventory == old_game.inventory
    &&& new_game.dungeon_level == old_game.dungeon_level
    &&& msgs_extended(old_game.messages, new_game.messages)
}

/// What a player action resolved to.
#[derive(Clone, Copy, Debug, PartialEq, Eq, Structural)]
pub enum PlayerAction {
    TookTurn,
    DidntTakeTurn,
    Exit,
}

/// Mutably borrow two separate elements from the given slice, splitting the
/// underlying storage. The indices must differ and be in bounds: asking for
/// the same element twice is an invariant violation, ruled out statically.
pub fn mut_two<T>(first_index: usize, second_index: usize, items: &mut [T]) -> (r: (&mut T, &mut T))
    requires
        first_index != second_index,
        first_index < old(items).len(),
        second_index < old(items).len(),
    ensures
        *r.0 == old(items)@[first_index as int],
        *r.1 == old(items)@[second_index as int],
        final(items)@ == old(items)@.update(first_index as int, *final(r.0)).update(
            second_index as int,
            *final(r.1),
        ),
{
    let split_at_index = if first_index < second_index {
        second_index
    } else {
        first_index
    };
    let (first_slice, second_slice) = items.split_at_mut(split_at_index);
    if first_index < second_index {
        let a = &mut first_slice[first_index];
        let b = &mut second_slice[0];
        (a, b)
    } else {
        let b = &mut first_slice[second_index];
        let a = &mut second_slice[0];
        (a, b)
    }
}

/// A blocking entity or an impassable tile occupies `(x, y)`.
pub open spec fn spec_blocked(x: int, y: int, m: DungeonMap, objs: Seq<Object>) -> bool {
    ||| tile_at(m, x, y).blocked
    ||| exists|i: int|
        0 <= i < objs.len() && (#[trigger] objs[i]).blocks && objs[i].x == x && objs[i].y == y
}

/// True if the tile is impassable or any blocking entity stands on it.
pub fn is_blocked(x: i32, y: i32, map: &DungeonMap, objects: &Vec<Object>) -> (b: bool)
    requires
        map_dims(*map),
        in_bounds(x as int, y as int),
    ensures
        b == spec_blocked(x as int, y as int, *map, objects@),
{
    // first test the map tile
    if map[x as usize][y as usize].blocked {
        return true;
    }
    // then check for any blocking objects
    let mut i: usize = 0;
    while i < objects.len()
        invariant
            i <= objects.len(),
            forall|j: int|
                0 <= j < i ==> !((#[trigger] objects@[j]).blocks && objects@[j].x == x
                    && objects@[j].y == y),
        decreases objects.len() - i,
    {
        if objects[i].blocks && objects[i].x == x && objects[i].y == y {
            return true;
        }
        i += 1;
    }
    false
}

/// Move by the given amount if the destination is not blocked; otherwise
/// nothing happens.
pub fn move_by(id: usize, dx: i32, dy: i32, map: &DungeonMap, objects: &mut Vec<Object>)
    requires
        map_ok(*map),
        id < old(objects).len(),
        pos_ok(old(objects)@[id as int]),
        -1 <= dx <= 1,
        -1 <= dy <= 1,
    ensures
        ({
            let o = old(objects)@[id as int];
            if !spec_blocked(o.x + dx, o.y + dy, *map, old(objects)@) {
                final(objects)@ == old(objects)@.update(
                    id as int,
                    Object { x: (o.x + dx) as i32, y: (o.y + dy) as i32, ..o },
                )
            } else {
                final(objects)@ == old(objects)@
            }
        }),
        final(objects)@.len() == old(objects)@.len(),
        pos_ok(final(objects)@[id as int]),
{
    let x = objects[id].x;
    let y = objects[id].y;
    if !is_blocked(x + dx, y + dy, map, objects) {
        proof {
            assert(open_at(*map, x + dx, y + dy));
        }
        let o = &mut objects[id];
        o.set_pos(x + dx, y + dy);
    }
}

/// Sign of a coordinate delta.
pub open spec fn spec_sign(d: int) -> int {
    if d > 0 {
        1
    } else if d < 0 {
        -1
    } else {
        0
    }
}

/// The 8-directional unit step toward a target: the delta vector normalized
/// to unit length with each axis rounded independently to the nearest of
/// -1, 0, 1. An axis moves exactly when its share of the squared distance
/// is at least a quarter, which is `round(d / sqrt(dx^2 + dy^2))` stated
/// over integers. At the target itself the step is `(0, 0)`.
pub open spec fn step_toward(dx: int, dy: int) -> (int, int) {
    (
        (if 4 * dx * dx >= dx * dx + dy * dy {
            spec_sign(dx)
        } else {
            0
        }),
        (if 4 * dy * dy >= dx * dx + dy * dy {
            spec_sign(dy)
        } else {
            0
        }),
    )
}

/// Take one grid step toward the target, restricted to the 8 directions,
/// moving only if the destination is unblocked.
pub fn move_towards(
    id: usize,
    target_x: i32,
    target_y: i32,
    map: &DungeonMap,
    objects: &mut Vec<Object>,
)
    requires
        map_ok(*map),
        id < old(objects).len(),
        pos_ok(old(objects)@[id as int]),
        in_bounds(target_x as int, target_y as int),
    ensures
        ({
            let o = old(objects)@[id as int];
            let step = step_toward(target_x - o.x, target_y - o.y);
            if !spec_blocked(o.x + step.0, o.y + step.1, *map, old(objects)@) {
                final(objects)@ == old(objects)@.update(
                    id as int,
                    Object { x: (o.x + step.0) as i32, y: (o.y + step.1) as i32, ..o },
                )
            } else {
                final(objects)@ == old(objects)@
            }
        }),
        final(objects)@.len() == old(objects)@.len(),
        pos_ok(final(objects)@[id as int]),
{
    // vector from this object to the target
    let dx = target_x - objects[id].x;
    let dy = target_y - objects[id].y;
    proof {
        assert(0 <= dx * dx <= 25_600 && 0 <= dy * dy <= 25_600) by (nonlinear_arith)
            requires
                -160 <= dx <= 160,
                -160 <= dy <= 160,
        ;
    }
    let dx2 = dx * dx;
    let dy2 = dy * dy;
    proof {
        assert(4 * (dx * dx) == 4 * dx * dx && 4 * (dy * dy) == 4 * dy * dy) by (nonlinear_arith);
    }
    let d2 = dx2 + dy2;
    // normalize it to length 1 (preserving direction), then round it so the
    // movement is restricted to the map grid
    let sx = if 4 * dx2 >= d2 {
        if dx > 0 {
            1
        } else if dx < 0 {
            -1
        } else {
            0
        }
    } else {
        0
    };
    let sy = if 4 * dy2 >= d2 {
        if dy > 0 {
            1
        } else if dy < 0 {
            -1
        } else {
            0
        }
    } else {
        0
    };
    move_by(id, sx, sy, map, objects);
}

/// `i` is a monster the lightning bolt may strike: a living combatant with
/// an AI, other than the player, currently visible.
pub open spec fn spec_lightning_target(objs: Seq<Object>, fov: Fov, i: int) -> bool {
    &&& 0 < i < objs.len()
    &&& objs[i].fighter is Some
    &&& objs[i].ai is Some
    &&& fov_at(fov, objs[i].x as int, objs[i].y as int)
}

/// Squared distance from the player to entity `i`.
pub open spec fn dist2_to_player(objs: Seq<Object>, i: int) -> int {
    spec_dist2(objs[0].x as int, objs[0].y as int, objs[i].x as int, objs[i].y as int)
}

/// Find the closest enemy, up to a maximum range and in the player's field
/// of view. Strictly closer wins; among equals, the first found.
pub fn closest_monster(fov: &Fov, objects: &Vec<Object>, max_range: i32) -> (r: Option<usize>)
    requires
        fov_wf(*fov),
        objects@.len() > 0,
        forall|i: int| 0 <= i < objects@.len() ==> pos_ok(#[trigger] objects@[i]),
        0 <= max_range <= 1000,
    ensures
        match r {
            Some(id) => {
                &&& spec_lightning_target(objects@, *fov, id as int)
                &&& dist2_to_player(objects@, id as int) < (max_range + 1) * (max_range + 1)
                &&& forall|j: int|
                    spec_lightning_target(objects@, *fov, j) ==> dist2_to_player(objects@, j)
                        >= dist2_to_player(objects@, id as int)
                &&& forall|j: int|
                    spec_lightning_target(objects@, *fov, j) && j < id as int ==> dist2_to_player(
                        objects@,
                        j,
                    ) > dist2_to_player(objects@, id as int)
            },
            None => forall|j: int|
                spec_lightning_target(objects@, *fov, j) ==> dist2_to_player(objects@, j)
                    >= (max_range + 1) * (max_range + 1),
        },
{
    let mut closest_enemy: Option<usize> = None;
    proof {
        assert(0 < (max_range + 1) * (max_range + 1) <= 1_002_001) by (nonlinear_arith)
            requires
                0 <= max_range <= 1000,
        ;
    }
    // start with slightly more than maximum range, squared
    let mut closest_dist2: i32 = (max_range + 1) * (max_range + 1);
    let ghost bound = ((max_range + 1) * (max_range + 1)) as int;
    let mut i: usize = 0;
    while i < objects.len()
        invariant
            i <= objects.len(),
            fov_wf(*fov),
            objects@.len() > 0,
            forall|k: int| 0 <= k < objects@.len() ==> pos_ok(#[trigger] objects@[k]),
            0 <= max_range <= 1000,
            bound == ((max_range + 1) * (max_range + 1)) as int,
            0 <= closest_dist2 <= bound,
            match closest_enemy {
                Some(id) => {
                    &&& (id as int) < i as int
                    &&& spec_lightning_target(objects@, *fov, id as int)
                    &&& closest_dist2 == dist2_to_player(objects@, id as int)
                    &&& closest_dist2 < bound
                    &&& forall|j: int|
                        spec_lightning_target(objects@, *fov, j) && j < i as int
                            ==> dist2_to_player(objects@, j) >= closest_dist2
                    &&& forall|j: int|
                        spec_lightning_target(objects@, *fov, j) && j < id as int
                            ==> dist2_to_player(objects@, j) > closest_dist2
                },
                None => {
                    &&& closest_dist2 == bound
                    &&& forall|j: int|
                        spec_lightning_target(objects@, *fov, j) && j < i as int
                            ==> dist2_to_player(objects@, j) >= bound
                },
            },
        decreases objects.len() - i,
    {
        if i != 0 && objects[i].fighter.is_some() && objects[i].ai.is_some() && fov.is_in_fov(
            objects[i].x,
            objects[i].y,
        ) {
            // calculate the distance between this object and the player
            let d2 = objects[0].distance2_to(&objects[i]);
            proof {
                lemma_dist2_nonneg(
                    objects@[0].x as int,
                    objects@[0].y as int,
                    objects@[i as int].x as int,
                    objects@[i as int].y as int,
                );
            }
            if d2 < closest_dist2 {
                closest_enemy = Some(i);
                closest_dist2 = d2;
            }
        }
        i += 1;
    }
    closest_enemy
}

/// Whether a tile is blocked does not depend on fields other than each
/// entity's position and blocking flag.
pub proof fn lemma_blocked_same(x: int, y: int, m: DungeonMap, objs1: Seq<Object>, objs2: Seq<Object>)
    requires
        objs1.len() == objs2.len(),
        forall|i: int|
            0 <= i < objs1.len() ==> (#[trigger] objs1[i]).blocks == (#[trigger] objs2[i]).blocks
                && objs1[i].x == objs2[i].x && objs1[i].y == objs2[i].y,
    ensures
        spec_blocked(x, y, m, objs1) == spec_blocked(x, y, m, objs2),
{
    if spec_blocked(x, y, m, objs1) && !tile_at(m, x, y).blocked {
        let i = choose|i: int|
            0 <= i < objs1.len() && (#[trigger] objs1[i]).blocks && objs1[i].x == x && objs1[i].y
                == y;
        assert(objs2[i].blocks && objs2[i].x == x && objs2[i].y == y);
    }
    if spec_blocked(x, y, m, objs2) && !tile_at(m, x, y).blocked {
        let i = choose|i: int|
            0 <= i < objs2.len() && (#[trigger] objs2[i]).blocks && objs2[i].x == x && objs2[i].y
                == y;
        assert(objs1[i].blocks && objs1[i].x == x && objs1[i].y == y);
    }
}

/// Entity `j` is an attackable combatant standing at `(x, y)`.
pub open spec fn fighter_at(objs: Seq<Object>, x: int, y: int, j: int) -> bool {
    0 <= j < objs.len() && objs[j].fighter is Some && objs[j].x == x && objs[j].y == y
}

/// The first combatant standing at `(x, y)`, if any.
pub open spec fn first_fighter_at(objs: Seq<Object>, x: int, y: int) -> Option<int>
    decreases objs.len(),
{
    if objs.len() == 0 {
        None
    } else if objs.first().fighter is Some && objs.first().x == x && objs.first().y == y {
        Some(0)
    } else {
        match first_fighter_at(objs.drop_first(), x, y) {
            Some(i) => Some(i + 1),
            None => None,
        }
    }
}

proof fn lemma_first_fighter_none(objs: Seq<Object>, x: int, y: int)
    requires
        forall|j: int| 0 <= j < objs.len() ==> !fighter_at(objs, x, y, j),
    ensures
        first_fighter_at(objs, x, y) is None,
    decreases objs.len(),
{
    if objs.len() > 0 {
        assert(!fighter_at(objs, x, y, 0));
        assert forall|j: int|
            0 <= j < objs.drop_first().len() implies !fighter_at(objs.drop_first(), x, y, j) by {
            assert(objs.drop_first()[j] == objs[j + 1]);
            assert(!fighter_at(objs, x, y, j + 1));
        }
        lemma_first_fighter_none(objs.drop_first(), x, y);
    }
}

proof fn lemma_first_fighter_some(objs: Seq<Object>, x: int, y: int, i: int)
    requires
        fighter_at(objs, x, y, i),
        forall|j: int| 0 <= j < i ==> !fighter_at(objs, x, y, j),
    ensures
        first_fighter_at(objs, x, y) == Some(i),
    decreases objs.len(),
{
    if i > 0 {
        assert(!fighter_at(objs, x, y, 0));
        assert(fighter_at(objs.drop_first(), x, y, i - 1)) by {
            assert(objs.drop_first()[i - 1] == objs[i]);
        }
        assert forall|j: int| 0 <= j < i - 1 implies !fighter_at(objs.drop_first(), x, y, j) by {
            assert(objs.drop_first()[j] == objs[j + 1]);
            assert(!fighter_at(objs, x, y, j + 1));
        }
        lemma_first_fighter_some(objs.drop_first(), x, y, i - 1);
    }
}

proof fn lemma_first_fighter_some_converse(objs: Seq<Object>, x: int, y: int, c: int)
    requires
        first_fighter_at(objs, x, y) == Some(c),
    ensures
        fighter_at(objs, x, y, c),
    decreases objs.len(),
{
    if objs.len() > 0 && !(objs.first().fighter is Some && objs.first().x == x && objs.first().y
        == y) {
        lemma_first_fighter_some_converse(objs.drop_first(), x, y, c - 1);
        assert(objs.drop_first()[c - 1] == objs[c]);
    }
}

/// Resolve the player's directional intent: attack the first combatant on
/// the destination tile if there is one, otherwise try to move there.
pub fn player_move_or_attack(dx: i32, dy: i32, game: &mut Game, objects: &mut Vec<Object>)
    requires
        old(objects)@.len() > 0,
        objs_wf(old(objects)@),
        map_ok(old(game).map),
        inv_ok(old(game).inventory@),
        -1 <= dx <= 1,
        -1 <= dy <= 1,
        !(dx == 0 && dy == 0),
        old(objects)@[0].fighter is Some,
        forall|j: int|
            0 <= j < old(objects)@.len() && (#[trigger] old(objects)@[j]).fighter is Some ==> old(
                objects,
            )@[0].fighter->0.xp + old(objects)@[j].fighter->0.xp <= XP_CAP,
    ensures
        same_but_messages(*old(game), *final(game)),
        final(objects)@.len() == old(objects)@.len(),
        objs_wf(final(objects)@),
        ({
            let objs = old(objects)@;
            let x = objs[0].x + dx;
            let y = objs[0].y + dy;
            match first_fighter_at(objs, x, y) {
                Some(tid) => {
                    let damage = spec_power(objs[0], old(game).inventory@) - spec_defense(
                        objs[tid],
                        old(game).inventory@,
                    );
                    let reward = spec_reward(objs[tid], damage);
                    &&& (damage > 0 ==> spec_damaged(objs[tid], damage, final(objects)@[tid])
                        && final(objects)@[0] == (Object {
                        fighter: Some(
                            Fighter {
                                xp: (objs[0].fighter->0.xp + (if reward is Some {
                                    reward->0 as int
                                } else {
                                    0
                                })) as i32,
                                ..objs[0].fighter->0
                            },
                        ),
                        ..objs[0]
                    }) && (forall|k: int|
                        0 <= k < objs.len() && k != 0 && k != tid ==> final(objects)@[k] == objs[k]))
                    &&& (damage <= 0 ==> final(objects)@ == objs)
                },
                None => {
                    if !spec_blocked(x, y, old(game).map, objs) {
                        final(objects)@ == objs.update(
                            0,
                            Object { x: x as i32, y: y as i32, ..objs[0] },
                        )
                    } else {
                        final(objects)@ == objs
                    }
                },
            }
        }),
{
    // the coordinates the player is moving to or attacking
    let x = objects[0].x + dx;
    let y = objects[0].y + dy;

    // try to find an attackable object there
    let target_id = find_fighter_at(x, y, objects);
    // attack if a target was found, move otherwise
    match target_id {
        Some(tid) => {
            proof {
                lemma_first_fighter_some_converse(objects@, x as int, y as int, tid as int);
            }
            let (player, target) = mut_two(0, tid, objects.as_mut_slice());
            player.attack(target, game);
            proof {
                let objs = old(objects)@;
                assert(objs.update(0, objs[0]).update(tid as int, objs[tid as int]) =~= objs);
            }
        },
        None => {
            move_by(0, dx, dy, &game.map, objects);
        },
    }
}

/// The first combatant standing at `(x, y)`, if any.
fn find_fighter_at(x: i32, y: i32, objects: &Vec<Object>) -> (r: Option<usize>)
    ensures
        r matches Some(id) ==> id < objects@.len() && first_fighter_at(objects@, x as int, y as int)
            == Some(id as int),
        r is None ==> first_fighter_at(objects@, x as int, y as int) is None,
{
    let mut i: usize = 0;
    while i < objects.len()
        invariant
            i <= objects@.len(),
            forall|j: int| 0 <= j < i as int ==> !fighter_at(objects@, x as int, y as int, j),
        decreases objects@.len() - i,
    {
        if objects[i].fighter.is_some() && objects[i].x == x && objects[i].y == y {
            proof {
                lemma_first_fighter_some(objects@, x as int, y as int, i as int);
            }
            return Some(i);
        }
        i += 1;
    }
    proof {
        lemma_first_fighter_none(objects@, x as int, y as int);
    }
    None
}

/// What one polled input event does to an in-progress tile-targeting
/// request.
#[derive(Clone, Copy, Debug, PartialEq, Eq, Structural)]
pub enum TargetDecision {
    Accepted(i32, i32),
    Cancelled,
    Pending,
}

/// Decide one step of the tile-targeting request: accept the mouse tile on
/// a left click inside the field of view (and inside the range bound, when
/// one is given, as a squared distance); cancel on a right click or on
/// escape; otherwise keep waiting.
pub fn target_tile_decision(
    mouse_x: i32,
    mouse_y: i32,
    lbutton_pressed: bool,
    rbutton_pressed: bool,
    escape_pressed: bool,
    fov: &Fov,
    player: &Object,
    max_range2: Option<i32>,
) -> (d: TargetDecision)
    requires
        fov_wf(*fov),
        0 <= mouse_x <= 1000,
        0 <= mouse_y <= 1000,
        -1000 <= player.x <= 1000,
        -1000 <= player.y <= 1000,
    ensures
        ({
            let in_fov = mouse_x < MAP_WIDTH && mouse_y < MAP_HEIGHT && fov_at(
                *fov,
                mouse_x as int,
                mouse_y as int,
            );
            let in_range = match max_range2 {
                Some(r2) => spec_dist2(
                    player.x as int,
                    player.y as int,
                    mouse_x as int,
                    mouse_y as int,
                ) <= r2,
                None => true,
            };
            if lbutton_pressed && in_fov && in_range {
                d == TargetDecision::Accepted(mouse_x, mouse_y)
            } else if rbutton_pressed || escape_pressed {
                d == TargetDecision::Cancelled
            } else {
                d == TargetDecision::Pending
            }
        }),
{
    let in_fov = (mouse_x < MAP_WIDTH) && (mouse_y < MAP_HEIGHT) && fov.is_in_fov(
        mouse_x,
        mouse_y,
    );
    let in_range = match max_range2 {
        Some(r2) => player.distance2(mouse_x, mouse_y) <= r2,
        None => true,
    };
    if lbutton_pressed && in_fov && in_range {
        return TargetDecision::Accepted(mouse_x, mouse_y);
    }
    if rbutton_pressed || escape_pressed {
        return TargetDecision::Cancelled;
    }
    TargetDecision::Pending
}

/// Entity `j` is a selectable monster at `(x, y)`: a combatant other than
/// the player.
pub open spec fn monster_at(objs: Seq<Object>, x: int, y: int, j: int) -> bool {
    0 < j < objs.len() && objs[j].fighter is Some && objs[j].x == x && objs[j].y == y
}

/// The first monster standing on the clicked tile, if any: how a tile
/// selection resolves to a monster selection.
pub fn monster_at_tile(x: i32, y: i32, objects: &Vec<Object>) -> (r: Option<usize>)
    ensures
        r matches Some(id) ==> monster_at(objects@, x as int, y as int, id as int) && forall|j: int|
            0 < j < id as int ==> !monster_at(objects@, x as int, y as int, j),
        r is None ==> forall|j: int|
            0 <= j < objects@.len() ==> !monster_at(objects@, x as int, y as int, j),
{
    let mut id: usize = 1;
    if objects.len() == 0 {
        return None;
    }
    while id < objects.len()
        invariant
            1 <= id,
            id <= objects@.len() || id == 1,
            forall|j: int| 0 < j < id as int ==> !monster_at(objects@, x as int, y as int, j),
        decreases objects@.len() - id,
    {
        if objects[id].fighter.is_some() && objects[id].x == x && objects[id].y == y {
            return Some(id);
        }
        id += 1;
    }
    None
}

/// Entity `j` is a pickable item lying at `(x, y)`.
pub open spec fn item_at(objs: Seq<Object>, x: int, y: int, j: int) -> bool {
    0 <= j < objs.len() && objs[j].item is Some && objs[j].x == x && objs[j].y == y
}

/// The first item lying at `(x, y)`, if any: what a pickup on that tile
/// takes.
pub fn find_item_at(x: i32, y: i32, objects: &Vec<Object>) -> (r: Option<usize>)
    ensures
        r matches Some(id) ==> item_at(objects@, x as int, y as int, id as int) && forall|j: int|
            0 <= j < id as int ==> !item_at(objects@, x as int, y as int, j),
        r is None ==> forall|j: int|
            0 <= j < objects@.len() ==> !item_at(objects@, x as int, y as int, j),
{
    let mut i: usize = 0;
    while i < objects.len()
        invariant
            i <= objects@.len(),
            forall|j: int| 0 <= j < i as int ==> !item_at(objects@, x as int, y as int, j),
        decreases objects@.len() - i,
    {
        if objects[i].item.is_some() && objects[i].x == x && objects[i].y == y {
            return Some(i);
        }
        i += 1;
    }
    None
}

/// Whether the stairway feature stands at `(x, y)`: the test that decides
/// if descending is possible from that tile.
pub fn stairs_at(x: i32, y: i32, objects: &Vec<Object>) -> (r: bool)
    ensures
        r == exists|j: int|
            0 <= j < objects@.len() && (#[trigger] objects@[j]).name@ == "stairs"@ && objects@[j].x
                == x && objects@[j].y == y,
{
    let stairs_name = String::from_str("stairs");
    let mut i: usize = 0;
    while i < objects.len()
        invariant
            i <= objects@.len(),
            stairs_name@ == "stairs"@,
            forall|j: int|
                0 <= j < i as int ==> !((#[trigger] objects@[j]).name@ == "stairs"@ && objects@[j].x
                    == x && objects@[j].y == y),
        decreases objects@.len() - i,
    {
        if objects[i].name == stairs_name && objects[i].x == x && objects[i].y == y {
            return true;
        }
        i += 1;
    }
    false
}

} // verus!
