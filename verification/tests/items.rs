use rogue_core::color::{sky, violet, white};
use rogue_core::fov::Fov;
use rogue_core::game::{Game, Messages};
use rogue_core::inventory::{drop_item, get_equipped_in_slot, pick_item_up, use_item, UseTarget};
use rogue_core::object::{
    Ai, DeathCallback, Equipment, Fighter, Item, Object, Slot,
};
use rogue_core::tile::{DungeonMap, Tile};
use rogue_core::{MAP_HEIGHT, MAP_WIDTH, MAX_INVENTORY};

fn open_map() -> DungeonMap {
    let mut map = Vec::new();
    for x in 0..MAP_WIDTH as usize {
        let mut col = Vec::new();
        for y in 0..MAP_HEIGHT as usize {
            let border = x == 0 || y == 0 || x == MAP_WIDTH as usize - 1
                || y == MAP_HEIGHT as usize - 1;
            col.push(if border { Tile::wall() } else { Tile::empty() });
        }
        map.push(col);
    }
    map
}

fn player_at(x: i32, y: i32) -> Object {
    let mut player = Object::new(x, y, '@', "player", white(), true);
    player.alive = true;
    player.fighter = Some(Fighter {
        base_max_hp: 100,
        hp: 100,
        base_defense: 1,
        base_power: 5,
        xp: 0,
        on_death: DeathCallback::Player,
    });
    player
}

fn orc_at(x: i32, y: i32) -> Object {
    let mut orc = Object::new(x, y, 'o', "orc", white(), true);
    orc.alive = true;
    orc.fighter = Some(Fighter {
        base_max_hp: 20,
        hp: 20,
        base_defense: 0,
        base_power: 4,
        xp: 35,
        on_death: DeathCallback::Monster,
    });
    orc.ai = Some(Ai::Basic);
    orc
}

fn game_with(map: DungeonMap) -> Game {
    Game { map, messages: Messages::new(), inventory: Vec::new(), dungeon_level: 1 }
}

fn sword_at(x: i32, y: i32) -> Object {
    let mut s = Object::new(x, y, '/', "sword", sky(), false);
    s.item = Some(Item::Sword);
    s.equipment = Some(Equipment {
        slot: Slot::RightHand,
        equipped: false,
        power_bonus: 3,
        defense_bonus: 0,
        max_hp_bonus: 0,
    });
    s
}

fn potion_at(x: i32, y: i32) -> Object {
    let mut p = Object::new(x, y, '!', "healing potion", violet(), false);
    p.item = Some(Item::Heal);
    p
}

fn scroll(item: Item) -> Object {
    let mut s = Object::new(1, 1, '#', "scroll", white(), false);
    s.item = Some(item);
    s
}

fn assert_slot_invariant(inventory: &[Object]) {
    for slot in [Slot::LeftHand, Slot::RightHand, Slot::Head] {
        let equipped = inventory
            .iter()
            .filter(|o| o.equipment.map_or(false, |e| e.equipped && e.slot == slot))
            .count();
        assert!(equipped <= 1, "slot {:?} equipped {} times", slot, equipped);
    }
}

#[test]
fn pickup_moves_the_item_and_auto_equips_into_a_free_slot() {
    let mut game = game_with(open_map());
    let mut objects = vec![player_at(10, 10), sword_at(10, 10)];
    pick_item_up(1, &mut game, &mut objects);
    assert_eq!(objects.len(), 1);
    assert_eq!(game.inventory.len(), 1);
    // the slot was free, so the sword was equipped at once
    assert!(game.inventory[0].equipment.unwrap().equipped);
    assert_slot_invariant(&game.inventory);

    // a second sword is picked up but not equipped: the slot is taken
    objects.push(sword_at(10, 10));
    pick_item_up(1, &mut game, &mut objects);
    assert_eq!(game.inventory.len(), 2);
    assert!(game.inventory[0].equipment.unwrap().equipped);
    assert!(!game.inventory[1].equipment.unwrap().equipped);
    assert_slot_invariant(&game.inventory);
}

#[test]
fn pickup_at_capacity_changes_nothing() {
    let mut game = game_with(open_map());
    for _ in 0..MAX_INVENTORY {
        game.inventory.push(potion_at(0, 0));
    }
    let mut objects = vec![player_at(10, 10), potion_at(10, 10)];
    pick_item_up(1, &mut game, &mut objects);
    // the inventory is unchanged and the item entity is still in the world
    assert_eq!(game.inventory.len(), MAX_INVENTORY);
    assert_eq!(objects.len(), 2);
    assert!(objects[1].item.is_some());
}

#[test]
fn equip_dequip_toggling_keeps_one_item_per_slot() {
    let fov = Fov::new_uniform(true);
    let mut game = game_with(open_map());
    let mut objects = vec![player_at(10, 10)];
    game.inventory.push(sword_at(0, 0));
    game.inventory.push(sword_at(0, 0));

    // equip the first sword
    use_item(0, UseTarget::Untargeted, &fov, &mut game, &mut objects);
    assert!(game.inventory[0].equipment.unwrap().equipped);
    assert_slot_invariant(&game.inventory);

    // equipping the second dequips the first
    use_item(1, UseTarget::Untargeted, &fov, &mut game, &mut objects);
    assert!(!game.inventory[0].equipment.unwrap().equipped);
    assert!(game.inventory[1].equipment.unwrap().equipped);
    assert_slot_invariant(&game.inventory);

    // toggling the equipped one dequips it
    use_item(1, UseTarget::Untargeted, &fov, &mut game, &mut objects);
    assert!(!game.inventory[1].equipment.unwrap().equipped);
    assert_slot_invariant(&game.inventory);
    assert_eq!(game.inventory.len(), 2);
}

#[test]
fn equipped_bonuses_raise_effective_stats() {
    let mut game = game_with(open_map());
    let mut player = player_at(10, 10);
    let mut sword = sword_at(0, 0);
    sword.equipment = Some(Equipment { equipped: true, ..sword.equipment.unwrap() });
    game.inventory.push(sword);
    assert_eq!(player.power(&game), 8);
    assert_eq!(player.defense(&game), 1);
    assert_eq!(player.max_hp(&game), 100);
    // a monster carries no equipment bonus
    let orc = orc_at(1, 1);
    assert_eq!(orc.power(&game), 4);
    // dequipped items contribute nothing
    game.inventory[0].equipment = Some(Equipment {
        equipped: false,
        ..game.inventory[0].equipment.unwrap()
    });
    assert_eq!(player.power(&game), 5);
}

#[test]
fn dropping_an_equipped_item_dequips_it_first() {
    let mut game = game_with(open_map());
    let mut objects = vec![player_at(17, 23)];
    let mut sword = sword_at(0, 0);
    sword.equipment = Some(Equipment { equipped: true, ..sword.equipment.unwrap() });
    game.inventory.push(sword);
    drop_item(0, &mut game, &mut objects);
    assert_eq!(game.inventory.len(), 0);
    let dropped = objects.last().unwrap();
    // dequipped first, then placed at the player's position
    assert!(!dropped.equipment.unwrap().equipped);
    assert_eq!(dropped.pos(), (17, 23));
}

#[test]
fn healing_restores_up_to_the_maximum_and_cancels_at_full() {
    let fov = Fov::new_uniform(true);
    let mut game = game_with(open_map());
    let mut objects = vec![player_at(10, 10)];
    objects[0].fighter = Some(Fighter { hp: 90, ..objects[0].fighter.unwrap() });
    game.inventory.push(scroll(Item::Heal));
    use_item(0, UseTarget::Untargeted, &fov, &mut game, &mut objects);
    // 90 + 40 clamps at the maximum of 100, and the potion is used up
    assert_eq!(objects[0].fighter.unwrap().hp, 100);
    assert_eq!(game.inventory.len(), 0);

    // at full health the potion is not consumed
    game.inventory.push(scroll(Item::Heal));
    use_item(0, UseTarget::Untargeted, &fov, &mut game, &mut objects);
    assert_eq!(objects[0].fighter.unwrap().hp, 100);
    assert_eq!(game.inventory.len(), 1);
}

#[test]
fn lightning_kills_the_closest_monster_and_awards_xp_once() {
    let fov = Fov::new_uniform(true);
    let mut game = game_with(open_map());
    let mut objects = vec![player_at(10, 10), orc_at(13, 10)];
    // lightning does 40 damage to the orc's 20 hp: a kill worth 35 xp
    game.inventory.push(scroll(Item::Lightning));
    use_item(0, UseTarget::Untargeted, &fov, &mut game, &mut objects);
    assert!(objects[1].fighter.is_none());
    assert!(!objects[1].alive);
    assert_eq!(objects[1].name, "remains of orc");
    assert_eq!(objects[0].fighter.unwrap().xp, 35);
    assert_eq!(game.inventory.len(), 0);

    // the corpse is no longer a target: a second bolt finds nothing and
    // awards nothing, so the reward was paid exactly once
    game.inventory.push(scroll(Item::Lightning));
    use_item(0, UseTarget::Untargeted, &fov, &mut game, &mut objects);
    assert_eq!(objects[0].fighter.unwrap().xp, 35);
    assert_eq!(game.inventory.len(), 1);
}

#[test]
fn confusion_wraps_the_previous_state_for_ten_turns() {
    let fov = Fov::new_uniform(true);
    let mut game = game_with(open_map());
    let mut objects = vec![player_at(10, 10), orc_at(13, 10)];
    game.inventory.push(scroll(Item::Confuse));
    use_item(0, UseTarget::Monster(1), &fov, &mut game, &mut objects);
    assert_eq!(
        objects[1].ai,
        Some(Ai::Confused { previous_ai: Box::new(Ai::Basic), num_turns: 10 })
    );
    assert_eq!(game.inventory.len(), 0);

    // without a selection the scroll is not consumed
    game.inventory.push(scroll(Item::Confuse));
    use_item(0, UseTarget::Untargeted, &fov, &mut game, &mut objects);
    assert_eq!(game.inventory.len(), 1);
}

#[test]
fn fireball_burns_everything_in_radius_but_pays_no_self_xp() {
    let fov = Fov::new_uniform(true);
    let mut game = game_with(open_map());
    // the player stands inside the blast radius of the chosen tile
    let mut objects = vec![player_at(11, 10), orc_at(13, 10), orc_at(30, 30)];
    game.inventory.push(scroll(Item::Fireball));
    use_item(0, UseTarget::Tile(12, 10), &fov, &mut game, &mut objects);
    // the orc in range dies (25 damage vs 20 hp): 35 xp, once
    assert!(objects[1].fighter.is_none());
    // the player burned itself for 25 but gains no xp for that
    assert_eq!(objects[0].fighter.unwrap().hp, 75);
    assert_eq!(objects[0].fighter.unwrap().xp, 35);
    // the far orc is untouched
    assert_eq!(objects[2].fighter.unwrap().hp, 20);
    assert_eq!(game.inventory.len(), 0);

    // without a chosen tile the scroll is kept
    game.inventory.push(scroll(Item::Fireball));
    use_item(0, UseTarget::Untargeted, &fov, &mut game, &mut objects);
    assert_eq!(game.inventory.len(), 1);
}

#[test]
fn unusable_objects_are_reported_and_kept() {
    let fov = Fov::new_uniform(true);
    let mut game = game_with(open_map());
    let mut objects = vec![player_at(10, 10)];
    let junk = Object::new(0, 0, '*', "rock", white(), false);
    game.inventory.push(junk);
    use_item(0, UseTarget::Untargeted, &fov, &mut game, &mut objects);
    assert_eq!(game.inventory.len(), 1);
    let last = game.messages.get(game.messages.len() - 1);
    assert_eq!(last.0, "The rock cannot be used.");
}

#[test]
fn get_equipped_in_slot_finds_the_occupant() {
    let mut inventory = vec![sword_at(0, 0), sword_at(0, 0)];
    assert_eq!(get_equipped_in_slot(Slot::RightHand, &inventory), None);
    inventory[1].equipment = Some(Equipment { equipped: true, ..inventory[1].equipment.unwrap() });
    assert_eq!(get_equipped_in_slot(Slot::RightHand, &inventory), Some(1));
    assert_eq!(get_equipped_in_slot(Slot::LeftHand, &inventory), None);
}

#[test]
fn slot_names_are_human_readable() {
    assert_eq!(Slot::LeftHand.describe(), "left hand");
    assert_eq!(Slot::RightHand.describe(), "right hand");
    assert_eq!(Slot::Head.describe(), "head");
}

#[test]
fn monster_death_is_reported_with_its_reward() {
    let mut game = game_with(open_map());
    let mut orc = orc_at(5, 5);
    orc.take_damage(50, &mut game);
    let n = game.messages.len();
    assert_eq!(
        game.messages.get(n - 2).0,
        "orc is dead! You gain 35 experience points."
    );
    assert_eq!(game.messages.get(n - 1).0, "remains of orc");
}
