//! Pickup, drop, equip and dequip, with the slot and capacity invariants.

use vstd::prelude::*;
use vstd::string::StringExecFns;
use crate::{MAX_INVENTORY, HEAL_AMOUNT, LIGHTNING_DAMAGE, LIGHTNING_RANGE, CONFUSE_NUM_TURNS,
    FIREBALL_RADIUS, FIREBALL_DAMAGE};
use crate::color::{green, light_blue, light_violet, orange, red, white, yellow};
use crate::fov::{Fov, fov_wf};
use crate::game::{
    Game, msgs_extended, same_but_messages, closest_monster, spec_lightning_target,
    dist2_to_player,
};
use crate::object::{
    Object, Ai, Fighter, Item, Slot, Equipment, obj_wf, objs_wf, pos_ok, inv_ok,
    world_unequipped, spec_dist2, spec_max_hp, spec_reward, spec_damaged, spec_dies,
    spec_dead_player, spec_survivor, spec_after_damage_player, XP_CAP,
};

verus! {

/// The slot an inventory entry occupies, if it is equipped.
pub open spec fn equipped_slot_of(o: Object) -> Option<Slot> {
    if o.equipment is Some && o.equipment->0.equipped {
        Some(o.equipment->0.slot)
    } else {
        None
    }
}

/// At most one inventory entry is equipped per slot.
pub open spec fn slot_invariant(inv: Seq<Object>) -> bool {
    forall|i: int, j: int|
        0 <= i < j < inv.len() && #[trigger] equipped_slot_of(inv[i]) is Some ==> equipped_slot_of(
            inv[i],
        ) != #[trigger] equipped_slot_of(inv[j])
}

/// The first inventory entry equipped in `slot`, if any.
pub open spec fn first_equipped_in_slot(inv: Seq<Object>, slot: Slot) -> Option<int>
    decreases inv.len(),
{
    if inv.len() == 0 {
        None
    } else if equipped_slot_of(inv.first()) == Some(slot) {
        Some(0)
    } else {
        match first_equipped_in_slot(inv.drop_first(), slot) {
            Some(i) => Some(i + 1),
            None => None,
        }
    }
}

proof fn lemma_first_equipped_none(inv: Seq<Object>, slot: Slot)
    requires
        forall|j: int| 0 <= j < inv.len() ==> equipped_slot_of(#[trigger] inv[j]) != Some(slot),
    ensures
        first_equipped_in_slot(inv, slot) is None,
    decreases inv.len(),
{
    if inv.len() > 0 {
        lemma_first_equipped_none(inv.drop_first(), slot);
    }
}

proof fn lemma_first_equipped_some(inv: Seq<Object>, slot: Slot, i: int)
    requires
        0 <= i < inv.len(),
        equipped_slot_of(inv[i]) == Some(slot),
        forall|j: int| 0 <= j < i ==> equipped_slot_of(#[trigger] inv[j]) != Some(slot),
    ensures
        first_equipped_in_slot(inv, slot) == Some(i),
    decreases inv.len(),
{
    if i > 0 {
        lemma_first_equipped_some(inv.drop_first(), slot, i - 1);
    }
}

/// Appending an entry that does not occupy `slot` leaves the first
/// occupant of `slot` unchanged.
proof fn lemma_first_equipped_push(inv: Seq<Object>, slot: Slot, o: Object)
    requires
        equipped_slot_of(o) != Some(slot),
    ensures
        first_equipped_in_slot(inv.push(o), slot) == first_equipped_in_slot(inv, slot),
    decreases inv.len(),
{
    if inv.len() == 0 {
        assert(inv.push(o).first() == o);
        assert(inv.push(o).drop_first() =~= Seq::<Object>::empty());
        assert(first_equipped_in_slot(Seq::<Object>::empty(), slot) is None);
    } else {
        assert(inv.push(o).first() == inv.first());
        assert(inv.push(o).drop_first() =~= inv.drop_first().push(o));
        lemma_first_equipped_push(inv.drop_first(), slot, o);
    }
}

/// The index of the entry currently equipped in `slot`, if any: the first
/// one, which by the slot invariant is the only one.
pub fn get_equipped_in_slot(slot: Slot, inventory: &Vec<Object>) -> (r: Option<usize>)
    ensures
        r matches Some(id) ==> id < inventory@.len() && first_equipped_in_slot(inventory@, slot)
            == Some(id as int),
        r is None ==> first_equipped_in_slot(inventory@, slot) is None,
{
    let mut inventory_id: usize = 0;
    while inventory_id < inventory.len()
        invariant
            inventory_id <= inventory@.len(),
            forall|j: int|
                0 <= j < inventory_id as int ==> equipped_slot_of(#[trigger] inventory@[j])
                    != Some(slot),
        decreases inventory@.len() - inventory_id,
    {
        let item = &inventory[inventory_id];
        let occupied = match &item.equipment {
            Some(e) => e.equipped && e.slot == slot,
            None => false,
        };
        if occupied {
            proof {
                lemma_first_equipped_some(inventory@, slot, inventory_id as int);
            }
            return Some(inventory_id);
        }
        inventory_id += 1;
    }
    proof {
        lemma_first_equipped_none(inventory@, slot);
    }
    None
}

/// Add an item of the world to the player's inventory and remove it from
/// the map (by swap-removal, which reorders the tail). With the inventory
/// at capacity, nothing changes and the item stays where it is. Equipment
/// picked up while its slot is free is equipped immediately.
pub fn pick_item_up(object_id: usize, game: &mut Game, objects: &mut Vec<Object>)
    requires
        object_id < old(objects).len(),
        objs_wf(old(objects)@),
        inv_ok(old(game).inventory@),
        slot_invariant(old(game).inventory@),
        world_unequipped(old(objects)@),
    ensures
        final(game).map == old(game).map,
        final(game).dungeon_level == old(game).dungeon_level,
        msgs_extended(old(game).messages, final(game).messages),
        old(game).inventory@.len() >= MAX_INVENTORY as int ==> final(objects)@ == old(objects)@
            && final(game).inventory == old(game).inventory,
        old(game).inventory@.len() < MAX_INVENTORY as int ==> {
            let item = old(objects)@[object_id as int];
            &&& final(objects)@ == old(objects)@.update(
                object_id as int,
                old(objects)@.last(),
            ).drop_last()
            &&& if item.equipment is Some && first_equipped_in_slot(
                old(game).inventory@,
                item.equipment->0.slot,
            ) is None {
                final(game).inventory@ == old(game).inventory@.push(
                    Object {
                        equipment: Some(Equipment { equipped: true, ..item.equipment->0 }),
                        ..item
                    },
                )
            } else {
                final(game).inventory@ == old(game).inventory@.push(item)
            }
        },
        objs_wf(final(objects)@),
        world_unequipped(final(objects)@),
        inv_ok(final(game).inventory@),
        slot_invariant(final(game).inventory@),
{
    if game.inventory.len() >= MAX_INVENTORY {
        let mut text = String::from_str("Your inventory is full, cannot pick up ");
        text.append(objects[object_id].name.as_str());
        text.append(".");
        game.messages.add(text, red());
    } else {
        let item = objects.swap_remove(object_id);
        let mut text = String::from_str("You picked up a ");
        text.append(item.name.as_str());
        text.append("!");
        game.messages.add(text, green());
        let index = game.inventory.len();
        let slot_opt = match &item.equipment {
            Some(e) => Some(e.slot),
            None => None,
        };
        game.inventory.push(item);
        proof {
            let pushed = old(game).inventory@.push(old(objects)@[object_id as int]);
            assert(game.inventory@ == pushed);
            if slot_opt is Some {
                lemma_first_equipped_push(
                    old(game).inventory@,
                    slot_opt->0,
                    old(objects)@[object_id as int],
                );
            }
        }
        // automatically equip, if the corresponding equipment slot is unused
        if let Some(slot) = slot_opt {
            if get_equipped_in_slot(slot, &game.inventory).is_none() {
                let ghost pushed = game.inventory@;
                let o = &mut game.inventory[index];
                o.equip(&mut game.messages);
                proof {
                    let item = old(objects)@[object_id as int];
                    let equipped_item = Object {
                        equipment: Some(Equipment { equipped: true, ..item.equipment->0 }),
                        ..item
                    };
                    assert(game.inventory@ =~= old(game).inventory@.push(equipped_item));
                    lemma_first_equipped_none_converse(old(game).inventory@, slot);
                    assert forall|i: int, j: int|
                        0 <= i < j < game.inventory@.len() && #[trigger] equipped_slot_of(
                            game.inventory@[i],
                        ) is Some implies equipped_slot_of(game.inventory@[i])
                        != #[trigger] equipped_slot_of(game.inventory@[j]) by {
                        if j == game.inventory@.len() - 1 {
                            assert(game.inventory@[i] == old(game).inventory@[i]);
                            assert(equipped_slot_of(old(game).inventory@[i]) != Some(slot));
                        } else {
                            assert(game.inventory@[i] == old(game).inventory@[i]);
                            assert(game.inventory@[j] == old(game).inventory@[j]);
                        }
                    }
                }
            } else {
                proof {
                    lemma_slot_invariant_push_unequipped(
                        old(game).inventory@,
                        old(objects)@[object_id as int],
                    );
                }
            }
        } else {
            proof {
                lemma_slot_invariant_push_unequipped(
                    old(game).inventory@,
                    old(objects)@[object_id as int],
                );
            }
        }
    }
}

/// The first occupant of `slot` does occupy it, and nothing before it does.
proof fn lemma_first_equipped_some_converse(inv: Seq<Object>, slot: Slot, c: int)
    requires
        first_equipped_in_slot(inv, slot) == Some(c),
    ensures
        0 <= c < inv.len(),
        equipped_slot_of(inv[c]) == Some(slot),
    decreases inv.len(),
{
    if inv.len() > 0 && equipped_slot_of(inv.first()) != Some(slot) {
        lemma_first_equipped_some_converse(inv.drop_first(), slot, c - 1);
        assert(inv[c] == inv.drop_first()[c - 1]);
    }
}

/// No entry occupies `slot` when the table has no first occupant of it.
proof fn lemma_first_equipped_none_converse(inv: Seq<Object>, slot: Slot)
    requires
        first_equipped_in_slot(inv, slot) is None,
    ensures
        forall|j: int| 0 <= j < inv.len() ==> equipped_slot_of(#[trigger] inv[j]) != Some(slot),
    decreases inv.len(),
{
    if inv.len() > 0 {
        lemma_first_equipped_none_converse(inv.drop_first(), slot);
        assert forall|j: int|
            0 <= j < inv.len() implies equipped_slot_of(#[trigger] inv[j]) != Some(slot) by {
            if j > 0 {
                assert(inv[j] == inv.drop_first()[j - 1]);
            }
        }
    }
}

/// Appending an unequipped entry preserves the slot invariant.
proof fn lemma_slot_invariant_push_unequipped(inv: Seq<Object>, o: Object)
    requires
        slot_invariant(inv),
        equipped_slot_of(o) is None,
    ensures
        slot_invariant(inv.push(o)),
{
    let pushed = inv.push(o);
    assert forall|i: int, j: int|
        0 <= i < j < pushed.len() && #[trigger] equipped_slot_of(pushed[i]) is Some implies
        equipped_slot_of(pushed[i]) != #[trigger] equipped_slot_of(pushed[j]) by {
        if j == pushed.len() - 1 {
            assert(equipped_slot_of(pushed[j]) is None);
        } else {
            assert(pushed[i] == inv[i] && pushed[j] == inv[j]);
        }
    }
}

/// Remove an item from the inventory, dequip it if it was equipped, and
/// place it back into the world at the player's position.
pub fn drop_item(inventory_id: usize, game: &mut Game, objects: &mut Vec<Object>)
    requires
        inventory_id < old(game).inventory@.len(),
        old(objects)@.len() > 0,
        objs_wf(old(objects)@),
        inv_ok(old(game).inventory@),
        slot_invariant(old(game).inventory@),
        world_unequipped(old(objects)@),
    ensures
        final(game).map == old(game).map,
        final(game).dungeon_level == old(game).dungeon_level,
        msgs_extended(old(game).messages, final(game).messages),
        final(game).inventory@ == old(game).inventory@.remove(inventory_id as int),
        ({
            let item = old(game).inventory@[inventory_id as int];
            let player = old(objects)@[0];
            final(objects)@ == old(objects)@.push(
                Object {
                    x: player.x,
                    y: player.y,
                    equipment: match item.equipment {
                        Some(e) => Some(Equipment { equipped: false, ..e }),
                        None => None,
                    },
                    ..item
                },
            )
        }),
        objs_wf(final(objects)@),
        world_unequipped(final(objects)@),
        inv_ok(final(game).inventory@),
        slot_invariant(final(game).inventory@),
{
    let mut item = game.inventory.remove(inventory_id);
    if item.equipment.is_some() {
        item.dequip(&mut game.messages);
    }
    let px = objects[0].x;
    let py = objects[0].y;
    item.set_pos(px, py);
    let mut text = String::from_str("You dropped a ");
    text.append(item.name.as_str());
    text.append(".");
    game.messages.add(text, yellow());
    objects.push(item);
}

/// What using a consumable resolved to.
enum UseResult {
    UsedUp,
    UsedAndKept,
    Cancelled,
}

/// An already-resolved targeting answer handed in by the interactive loop:
/// nothing was selected, a monster was, or a tile was.
#[derive(Clone, Copy, Debug, PartialEq, Eq, Structural)]
pub enum UseTarget {
    Untargeted,
    Monster(usize),
    Tile(i32, i32),
}

/// An entry dequipped, all else equal.
pub open spec fn dequipped(o: Object) -> Object {
    Object { equipment: Some(Equipment { equipped: false, ..o.equipment->0 }), ..o }
}

/// An entry equipped, all else equal.
pub open spec fn with_equipped(o: Object) -> Object {
    Object { equipment: Some(Equipment { equipped: true, ..o.equipment->0 }), ..o }
}

/// What toggling entry `id` leaves of the inventory: a no-op without
/// equipment data; a dequip if it was equipped; otherwise an equip, with
/// the slot's current occupant dequipped first.
pub open spec fn toggle_effect(inv: Seq<Object>, new: Seq<Object>, id: int) -> bool {
    if inv[id].equipment is None {
        new == inv
    } else if inv[id].equipment->0.equipped {
        new == inv.update(id, dequipped(inv[id]))
    } else {
        match first_equipped_in_slot(inv, inv[id].equipment->0.slot) {
            Some(c) => new == inv.update(c, dequipped(inv[c])).update(id, with_equipped(inv[id])),
            None => new == inv.update(id, with_equipped(inv[id])),
        }
    }
}

/// Equip or dequip the item: if it is equipped, dequip it; otherwise
/// dequip whatever occupies its slot and equip it, keeping at most one
/// equipped item per slot.
fn toggle_equipment(inventory_id: usize, game: &mut Game) -> (r: UseResult)
    requires
        inventory_id < old(game).inventory@.len(),
        inv_ok(old(game).inventory@),
        slot_invariant(old(game).inventory@),
    ensures
        final(game).map == old(game).map,
        final(game).dungeon_level == old(game).dungeon_level,
        msgs_extended(old(game).messages, final(game).messages),
        toggle_effect(old(game).inventory@, final(game).inventory@, inventory_id as int),
        old(game).inventory@[inventory_id as int].equipment is None <==> r is Cancelled,
        old(game).inventory@[inventory_id as int].equipment is Some ==> r is UsedAndKept,
        inv_ok(final(game).inventory@),
        slot_invariant(final(game).inventory@),
{
    let equipment = match &game.inventory[inventory_id].equipment {
        Some(e) => *e,
        None => {
            return UseResult::Cancelled;
        },
    };
    if equipment.equipped {
        let o = &mut game.inventory[inventory_id];
        o.dequip(&mut game.messages);
        proof {
            let inv0 = old(game).inventory@;
            let inv1 = game.inventory@;
            assert forall|i: int, j: int|
                0 <= i < j < inv1.len() && #[trigger] equipped_slot_of(inv1[i]) is Some implies
                equipped_slot_of(inv1[i]) != #[trigger] equipped_slot_of(inv1[j]) by {
                if i != inventory_id as int && j != inventory_id as int {
                    assert(inv1[i] == inv0[i] && inv1[j] == inv0[j]);
                } else if i == inventory_id as int {
                    assert(equipped_slot_of(inv1[i]) is None);
                } else {
                    assert(inv1[i] == inv0[i]);
                    assert(equipped_slot_of(inv1[j]) is None);
                }
            }
        }
    } else {
        // if the slot is already being used, dequip whatever is there first
        let ghost inv0 = old(game).inventory@;
        let occupant = get_equipped_in_slot(equipment.slot, &game.inventory);
        if let Some(current) = occupant {
            let o = &mut game.inventory[current];
            o.dequip(&mut game.messages);
        }
        let ghost inv_mid = game.inventory@;
        let o2 = &mut game.inventory[inventory_id];
        o2.equip(&mut game.messages);
        proof {
            let inv1 = game.inventory@;
            let slot = equipment.slot;
            if occupant is Some {
                let c = occupant->0 as int;
                lemma_first_equipped_some_converse(inv0, slot, c);
                assert(equipped_slot_of(inv0[c]) == Some(slot));
                assert(inv1 == inv0.update(c, dequipped(inv0[c])).update(
                    inventory_id as int,
                    with_equipped(inv0[inventory_id as int]),
                ));
                assert forall|k: int|
                    0 <= k < inv0.len() && k != c implies equipped_slot_of(#[trigger] inv0[k])
                    != Some(slot) by {
                    if equipped_slot_of(inv0[k]) == Some(slot) {
                        if k < c {
                            assert(equipped_slot_of(inv0[k]) != equipped_slot_of(inv0[c]));
                        } else {
                            assert(equipped_slot_of(inv0[c]) != equipped_slot_of(inv0[k]));
                        }
                    }
                }
                assert forall|i: int, j: int|
                    0 <= i < j < inv1.len() && #[trigger] equipped_slot_of(inv1[i]) is Some implies
                    equipped_slot_of(inv1[i]) != #[trigger] equipped_slot_of(inv1[j]) by {
                    if i != inventory_id as int && i != c {
                        assert(inv1[i] == inv0[i]);
                    }
                    if j != inventory_id as int && j != c {
                        assert(inv1[j] == inv0[j]);
                    }
                }
            } else {
                lemma_first_equipped_none_converse(inv0, slot);
                assert(inv1 == inv0.update(
                    inventory_id as int,
                    with_equipped(inv0[inventory_id as int]),
                ));
                assert forall|i: int, j: int|
                    0 <= i < j < inv1.len() && #[trigger] equipped_slot_of(inv1[i]) is Some implies
                    equipped_slot_of(inv1[i]) != #[trigger] equipped_slot_of(inv1[j]) by {
                    if i != inventory_id as int {
                        assert(inv1[i] == inv0[i]);
                    }
                    if j != inventory_id as int {
                        assert(inv1[j] == inv0[j]);
                    }
                }
            }
        }
    }
    UseResult::UsedAndKept
}

/// The player healed by the potion amount, clamped to its effective
/// maximum.
pub open spec fn healed_player(o: Object, inv: Seq<Object>) -> Object {
    Object {
        fighter: Some(
            Fighter {
                hp: (if o.fighter->0.hp + HEAL_AMOUNT > spec_max_hp(o, inv) {
                    spec_max_hp(o, inv)
                } else {
                    o.fighter->0.hp + HEAL_AMOUNT
                }) as i32,
                ..o.fighter->0
            },
        ),
        ..o
    }
}

/// The healing potion had no work to do: no fighter, or already at full
/// effective hp.
pub open spec fn heal_cancelled(o: Object, inv: Seq<Object>) -> bool {
    o.fighter is None || o.fighter->0.hp == spec_max_hp(o, inv)
}

/// Heal the player, or cancel at full health.
fn cast_heal(game: &mut Game, objects: &mut Vec<Object>) -> (r: UseResult)
    requires
        old(objects)@.len() > 0,
        objs_wf(old(objects)@),
        inv_ok(old(game).inventory@),
    ensures
        same_but_messages(*old(game), *final(game)),
        heal_cancelled(old(objects)@[0], old(game).inventory@) ==> r is Cancelled
            && final(objects)@ == old(objects)@,
        !heal_cancelled(old(objects)@[0], old(game).inventory@) ==> r is UsedUp && final(objects)@
            == old(objects)@.update(0, healed_player(old(objects)@[0], old(game).inventory@)),
        objs_wf(final(objects)@),
        final(objects)@.len() == old(objects)@.len(),
{
    // heal the player
    let max_hp = objects[0].max_hp(game);
    if let Some(fighter) = objects[0].fighter {
        if fighter.hp == max_hp {
            game.messages.add(String::from_str("You are already at full health."), red());
            return UseResult::Cancelled;
        }
        game.messages.add(String::from_str("Your wounds start to feel better!"), light_violet());
        let o = &mut objects[0];
        o.heal(HEAL_AMOUNT, game);
        return UseResult::UsedUp;
    }
    UseResult::Cancelled
}

/// Some living, visible monster stands within lightning range.
pub open spec fn lightning_has_target(objs: Seq<Object>, fov: Fov) -> bool {
    exists|j: int|
        #[trigger] spec_lightning_target(objs, fov, j) && dist2_to_player(objs, j) < (
        LIGHTNING_RANGE + 1) * (LIGHTNING_RANGE + 1)
}

/// What the lightning bolt does: the closest living, visible monster within
/// range takes the fixed damage, and any death's xp goes to the player.
pub open spec fn lightning_effect(objs_old: Seq<Object>, objs_new: Seq<Object>, fov: Fov) -> bool {
    exists|tid: int|
        {
            &&& #[trigger] spec_lightning_target(objs_old, fov, tid)
            &&& dist2_to_player(objs_old, tid) < (LIGHTNING_RANGE + 1) * (LIGHTNING_RANGE + 1)
            &&& forall|j: int|
                spec_lightning_target(objs_old, fov, j) ==> dist2_to_player(objs_old, j)
                    >= dist2_to_player(objs_old, tid)
            &&& forall|j: int|
                spec_lightning_target(objs_old, fov, j) && j < tid ==> dist2_to_player(objs_old, j)
                    > dist2_to_player(objs_old, tid)
            &&& objs_new.len() == objs_old.len()
            &&& spec_damaged(objs_old[tid], LIGHTNING_DAMAGE as int, objs_new[tid])
            &&& objs_new[0] == (Object {
                fighter: Some(
                    Fighter {
                        xp: (objs_old[0].fighter->0.xp + (
                        if spec_reward(objs_old[tid], LIGHTNING_DAMAGE as int) is Some {
                            spec_reward(objs_old[tid], LIGHTNING_DAMAGE as int)->0 as int
                        } else {
                            0
                        })) as i32,
                        ..objs_old[0].fighter->0
                    },
                ),
                ..objs_old[0]
            })
            &&& forall|k: int|
                0 <= k < objs_old.len() && k != 0 && k != tid ==> objs_new[k] == #[trigger] objs_old[k]
        }
}

/// Strike the closest visible enemy within range, or cancel if none is.
fn cast_lightning(fov: &Fov, game: &mut Game, objects: &mut Vec<Object>) -> (r: UseResult)
    requires
        fov_wf(*fov),
        old(objects)@.len() > 0,
        objs_wf(old(objects)@),
        inv_ok(old(game).inventory@),
        old(objects)@[0].fighter is Some,
        forall|j: int|
            #[trigger] spec_lightning_target(old(objects)@, *fov, j) ==> old(
                objects,
            )@[0].fighter->0.xp + old(objects)@[j].fighter->0.xp <= XP_CAP,
    ensures
        same_but_messages(*old(game), *final(game)),
        !lightning_has_target(old(objects)@, *fov) ==> r is Cancelled
            && final(objects)@ == old(objects)@,
        lightning_has_target(old(objects)@, *fov) ==> r is UsedUp && lightning_effect(
            old(objects)@,
            final(objects)@,
            *fov,
        ),
        objs_wf(final(objects)@),
        final(objects)@.len() == old(objects)@.len(),
{
    // find the closest enemy (inside a maximum range) and damage it
    let monster_id = closest_monster(fov, objects, LIGHTNING_RANGE);
    if let Some(monster_id) = monster_id {
        // zap it!
        let mut text = String::from_str("A lightning bolt strikes the ");
        text.append(objects[monster_id].name.as_str());
        text.append(" with a loud thunder! The damage is ");
        text.append(LIGHTNING_DAMAGE.to_string().as_str());
        text.append(" hit points.");
        game.messages.add(text, light_blue());
        let o = &mut objects[monster_id];
        let reward = o.take_damage(LIGHTNING_DAMAGE, game);
        if let Some(xp) = reward {
            let p = &mut objects[0];
            if let Some(fighter) = p.fighter {
                p.fighter = Some(Fighter { xp: fighter.xp + xp, ..fighter });
            }
        }
        UseResult::UsedUp
    } else {
        // no enemy found within the maximum range
        game.messages.add(String::from_str("No enemy is close enough to strike."), red());
        UseResult::Cancelled
    }
}

/// The confusion transition: the monster's current behavior (Basic when it
/// somehow had none) is wrapped for the fixed number of turns.
pub open spec fn confuse_effect(objs_old: Seq<Object>, objs_new: Seq<Object>, mid: int) -> bool {
    objs_new == objs_old.update(
        mid,
        Object {
            ai: Some(
                Ai::Confused {
                    previous_ai: Box::new(
                        match objs_old[mid].ai {
                            Some(a) => a,
                            None => Ai::Basic,
                        },
                    ),
                    num_turns: CONFUSE_NUM_TURNS,
                },
            ),
            ..objs_old[mid]
        },
    )
}

/// Confuse the selected monster, or cancel without a selection.
fn cast_confuse(target: Option<usize>, game: &mut Game, objects: &mut Vec<Object>) -> (r: UseResult)
    requires
        target matches Some(m) ==> m < old(objects)@.len(),
        objs_wf(old(objects)@),
    ensures
        same_but_messages(*old(game), *final(game)),
        target is None ==> r is Cancelled && final(objects)@ == old(objects)@,
        target matches Some(m) ==> r is UsedUp && confuse_effect(
            old(objects)@,
            final(objects)@,
            m as int,
        ),
        objs_wf(final(objects)@),
        final(objects)@.len() == old(objects)@.len(),
{
    if let Some(monster_id) = target {
        let o = &mut objects[monster_id];
        let old_ai = o.ai.take();
        let previous = match old_ai {
            Some(a) => a,
            None => Ai::Basic,
        };
        // replace the monster's AI with a confused one; after some turns it
        // will restore the old AI
        o.ai = Some(Ai::Confused { previous_ai: Box::new(previous), num_turns: CONFUSE_NUM_TURNS });
        let mut text = String::from_str("The eyes of ");
        text.append(objects[monster_id].name.as_str());
        text.append(" look vacant, as he starts to stumble around!");
        game.messages.add(text, crate::color::light_green());
        UseResult::UsedUp
    } else {
        // no enemy was selected
        game.messages.add(String::from_str("No enemy is close enough to strike."), red());
        UseResult::Cancelled
    }
}

/// The fireball burns this entity: a combatant within the blast radius.
pub open spec fn burned(o: Object, x: int, y: int) -> bool {
    spec_dist2(o.x as int, o.y as int, x, y) <= FIREBALL_RADIUS * FIREBALL_RADIUS
        && o.fighter is Some
}

/// Total xp the blast awards over the first `n` entities: the reward of
/// every kill among them, except a kill of the player itself.
pub open spec fn sum_fireball_xp_upto(objs: Seq<Object>, x: int, y: int, n: int) -> int
    decreases n,
{
    if n <= 0 {
        0
    } else {
        sum_fireball_xp_upto(objs, x, y, n - 1) + (if n - 1 != 0 && burned(objs[n - 1], x, y)
            && spec_reward(objs[n - 1], FIREBALL_DAMAGE as int) is Some {
            spec_reward(objs[n - 1], FIREBALL_DAMAGE as int)->0 as int
        } else {
            0
        })
    }
}

proof fn lemma_sum_fireball_bounds(objs: Seq<Object>, x: int, y: int, n: int)
    requires
        objs_wf(objs),
        n <= objs.len(),
    ensures
        0 <= sum_fireball_xp_upto(objs, x, y, n),
        forall|m: int| n <= m <= objs.len() ==> sum_fireball_xp_upto(objs, x, y, n)
            <= #[trigger] sum_fireball_xp_upto(objs, x, y, m),
    decreases objs.len() - n,
{
    if n < objs.len() {
        lemma_sum_fireball_bounds(objs, x, y, n + 1);
        if n > 0 {
            lemma_sum_fireball_nonneg(objs, x, y, n);
        }
    } else if n > 0 {
        lemma_sum_fireball_nonneg(objs, x, y, n);
    }
}

proof fn lemma_sum_fireball_nonneg(objs: Seq<Object>, x: int, y: int, n: int)
    requires
        objs_wf(objs),
        n <= objs.len(),
    ensures
        0 <= sum_fireball_xp_upto(objs, x, y, n),
    decreases n,
{
    if n > 0 {
        lemma_sum_fireball_nonneg(objs, x, y, n - 1);
    }
}

/// What the fireball does: every combatant within the radius of the target
/// tile, the player included, takes the fixed damage; the xp of the
/// resulting kills accrues to the player, except for the player's own
/// death.
pub open spec fn fireball_effect(objs_old: Seq<Object>, objs_new: Seq<Object>, x: int, y: int) -> bool {
    &&& objs_new.len() == objs_old.len()
    &&& forall|i: int|
        #![trigger objs_new[i]]
        0 < i < objs_old.len() ==> if burned(objs_old[i], x, y) {
            spec_damaged(objs_old[i], FIREBALL_DAMAGE as int, objs_new[i])
        } else {
            objs_new[i] == objs_old[i]
        }
    &&& ({
        let pm = if burned(objs_old[0], x, y) {
            spec_after_damage_player(objs_old[0], FIREBALL_DAMAGE as int)
        } else {
            objs_old[0]
        };
        objs_new[0] == (Object {
            fighter: Some(
                Fighter {
                    xp: (pm.fighter->0.xp + sum_fireball_xp_upto(
                        objs_old,
                        x,
                        y,
                        objs_old.len() as int,
                    )) as i32,
                    ..pm.fighter->0
                },
            ),
            ..pm
        })
    })
}

/// Burn everything within the blast radius of the chosen tile, or cancel
/// without a chosen tile.
fn cast_fireball(
    target: Option<(i32, i32)>,
    game: &mut Game,
    objects: &mut Vec<Object>,
) -> (r: UseResult)
    requires
        old(objects)@.len() > 0,
        objs_wf(old(objects)@),
        old(objects)@[0].fighter is Some,
        old(objects)@[0].fighter->0.on_death is Player,
        target matches Some(t) ==> -1000 <= t.0 <= 1000 && -1000 <= t.1 <= 1000,
        target matches Some(t) ==> old(objects)@[0].fighter->0.xp + sum_fireball_xp_upto(
            old(objects)@,
            t.0 as int,
            t.1 as int,
            old(objects)@.len() as int,
        ) <= XP_CAP,
    ensures
        same_but_messages(*old(game), *final(game)),
        target is None ==> r is Cancelled && final(objects)@ == old(objects)@,
        target matches Some(t) ==> r is UsedUp && fireball_effect(
            old(objects)@,
            final(objects)@,
            t.0 as int,
            t.1 as int,
        ),
        objs_wf(final(objects)@),
        final(objects)@.len() == old(objects)@.len(),
{
    let (x, y) = match target {
        Some(tile_pos) => tile_pos,
        None => {
            return UseResult::Cancelled;
        },
    };
    let mut text = String::from_str("The fireball explodes, burning everything within ");
    text.append(FIREBALL_RADIUS.to_string().as_str());
    text.append(" tiles!");
    game.messages.add(text, orange());

    proof {
        lemma_sum_fireball_bounds(old(objects)@, x as int, y as int, 0);
    }
    let ghost objs0 = old(objects)@;
    let mut xp_to_gain: i32 = 0;
    let mut id: usize = 0;
    while id < objects.len()
        invariant
            0 <= id <= objs0.len(),
            objects@.len() == objs0.len(),
            objs0.len() > 0,
            objs_wf(objs0),
            objs_wf(objects@),
            -1000 <= x <= 1000,
            -1000 <= y <= 1000,
            objs0[0].fighter is Some,
            objs0[0].fighter->0.on_death is Player,
            objs0[0].fighter->0.xp + sum_fireball_xp_upto(
                objs0,
                x as int,
                y as int,
                objs0.len() as int,
            ) <= XP_CAP,
            forall|i: int| id as int <= i < objs0.len() ==> objects@[i] == objs0[i],
            forall|i: int|
                #![trigger objects@[i]]
                0 < i < id as int ==> if burned(objs0[i], x as int, y as int) {
                    spec_damaged(objs0[i], FIREBALL_DAMAGE as int, objects@[i])
                } else {
                    objects@[i] == objs0[i]
                },
            id > 0 ==> objects@[0] == (if burned(objs0[0], x as int, y as int) {
                spec_after_damage_player(objs0[0], FIREBALL_DAMAGE as int)
            } else {
                objs0[0]
            }),
            xp_to_gain == sum_fireball_xp_upto(objs0, x as int, y as int, id as int),
            0 <= xp_to_gain,
            xp_to_gain <= sum_fireball_xp_upto(objs0, x as int, y as int, objs0.len() as int),
            same_but_messages(*old(game), *game),
        decreases objects.len() - id,
    {
        proof {
            lemma_sum_fireball_bounds(objs0, x as int, y as int, id as int + 1);
        }
        let hit = objects[id].distance2(x, y) <= FIREBALL_RADIUS * FIREBALL_RADIUS
            && objects[id].fighter.is_some();
        if hit {
            let mut text = String::from_str("The ");
            text.append(objects[id].name.as_str());
            text.append(" gets burned for ");
            text.append(FIREBALL_DAMAGE.to_string().as_str());
            text.append(" hit points.");
            game.messages.add(text, orange());
            let o = &mut objects[id];
            let reward = o.take_damage(FIREBALL_DAMAGE, game);
            if let Some(xp) = reward {
                if id != 0 {
                    // do not reward the player for burning themself
                    xp_to_gain += xp;
                }
            }
        }
        id += 1;
    }
    let p = &mut objects[0];
    if let Some(fighter) = p.fighter {
        p.fighter = Some(Fighter { xp: fighter.xp + xp_to_gain, ..fighter });
    }
    UseResult::UsedUp
}

/// Use the inventory item: dispatch to its effect, destroy it if it was
/// used up, and log a cancellation otherwise. Targeted effects receive the
/// selection the interactive loop resolved.
pub fn use_item(
    inventory_id: usize,
    target: UseTarget,
    fov: &Fov,
    game: &mut Game,
    objects: &mut Vec<Object>,
)
    requires
        inventory_id < old(game).inventory@.len(),
        old(objects)@.len() > 0,
        objs_wf(old(objects)@),
        inv_ok(old(game).inventory@),
        slot_invariant(old(game).inventory@),
        fov_wf(*fov),
        old(game).inventory@[inventory_id as int].item == Some(Item::Lightning) ==> old(
            objects,
        )@[0].fighter is Some && forall|j: int|
            #[trigger] spec_lightning_target(old(objects)@, *fov, j) ==> old(
                objects,
            )@[0].fighter->0.xp + old(objects)@[j].fighter->0.xp <= XP_CAP,
        old(game).inventory@[inventory_id as int].item == Some(Item::Confuse) ==> (target matches
            UseTarget::Monster(m) ==> m < old(objects)@.len()),
        old(game).inventory@[inventory_id as int].item == Some(Item::Fireball) ==> old(
            objects,
        )@[0].fighter is Some && old(objects)@[0].fighter->0.on_death is Player,
        old(game).inventory@[inventory_id as int].item == Some(Item::Fireball) ==> (target matches
            UseTarget::Tile(x, y) ==> -1000 <= x <= 1000 && -1000 <= y <= 1000
            && old(objects)@[0].fighter->0.xp + sum_fireball_xp_upto(
            old(objects)@,
            x as int,
            y as int,
            old(objects)@.len() as int,
        ) <= XP_CAP),
    ensures
        final(game).map == old(game).map,
        final(game).dungeon_level == old(game).dungeon_level,
        msgs_extended(old(game).messages, final(game).messages),
        objs_wf(final(objects)@),
        final(objects)@.len() == old(objects)@.len(),
        inv_ok(final(game).inventory@),
        slot_invariant(final(game).inventory@),
        ({
            let inv = old(game).inventory@;
            let objs = old(objects)@;
            match inv[inventory_id as int].item {
                None => final(objects)@ == objs && final(game).inventory@ == inv,
                Some(Item::Heal) => if heal_cancelled(objs[0], inv) {
                    final(objects)@ == objs && final(game).inventory@ == inv
                } else {
                    final(objects)@ == objs.update(0, healed_player(objs[0], inv))
                        && final(game).inventory@ == inv.remove(inventory_id as int)
                },
                Some(Item::Lightning) => if lightning_has_target(objs, *fov) {
                    lightning_effect(objs, final(objects)@, *fov) && final(game).inventory@
                        == inv.remove(inventory_id as int)
                } else {
                    final(objects)@ == objs && final(game).inventory@ == inv
                },
                Some(Item::Confuse) => match target {
                    UseTarget::Monster(m) => confuse_effect(objs, final(objects)@, m as int)
                        && final(game).inventory@ == inv.remove(inventory_id as int),
                    _ => final(objects)@ == objs && final(game).inventory@ == inv,
                },
                Some(Item::Fireball) => match target {
                    UseTarget::Tile(x, y) => fireball_effect(
                        objs,
                        final(objects)@,
                        x as int,
                        y as int,
                    ) && final(game).inventory@ == inv.remove(inventory_id as int),
                    _ => final(objects)@ == objs && final(game).inventory@ == inv,
                },
                Some(Item::Sword) | Some(Item::Shield) => final(objects)@ == objs && toggle_effect(
                    inv,
                    final(game).inventory@,
                    inventory_id as int,
                ),
            }
        }),
{
    let item_opt = game.inventory[inventory_id].item;
    if let Some(item) = item_opt {
        let result = match item {
            Item::Heal => cast_heal(game, objects),
            Item::Lightning => cast_lightning(fov, game, objects),
            Item::Confuse => {
                let selection = match target {
                    UseTarget::Monster(m) => Some(m),
                    _ => None,
                };
                cast_confuse(selection, game, objects)
            },
            Item::Fireball => {
                let selection = match target {
                    UseTarget::Tile(x, y) => Some((x, y)),
                    _ => None,
                };
                cast_fireball(selection, game, objects)
            },
            Item::Sword | Item::Shield => toggle_equipment(inventory_id, game),
        };
        match result {
            UseResult::UsedUp => {
                // destroy after use, unless it was cancelled for some reason
                game.inventory.remove(inventory_id);
            },
            UseResult::UsedAndKept => {},
            UseResult::Cancelled => {
                game.messages.add(String::from_str("Cancelled"), white());
            },
        }
    } else {
        let mut text = String::from_str("The ");
        text.append(game.inventory[inventory_id].name.as_str());
        text.append(" cannot be used.");
        game.messages.add(text, white());
    }
}

} // verus!
