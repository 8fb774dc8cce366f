use rogue_core::ai::ai_take_turn;
use rogue_core::color::white;
use rogue_core::fov::Fov;
use rogue_core::game::{
    closest_monster, find_item_at, is_blocked, move_by, move_towards, mut_two,
    player_move_or_attack, stairs_at, Game, Messages, TargetDecision, monster_at_tile,
    target_tile_decision,
};
use rogue_core::level::{level_up, needs_level_up, StatChoice};
use rogue_core::object::{Ai, DeathCallback, Fighter, Item, Object};
use rogue_core::tile::{DungeonMap, Tile};
use rogue_core::{MAP_HEIGHT, MAP_WIDTH};

fn open_map() -> DungeonMap {
    let mut map = Vec::new();
    for x in 0..MAP_WIDTH as usize {
        let mut col = Vec::new();
        for y in 0..MAP_HEIGHT as usize {
            let border = x == 0 || y == 0 || x == MAP_WIDTH as usize - 1
                || y == MAP_HEIGHT as usize - 1;
            col.push(if border { Tile::wall() } else { Tile::empty() });
        }
        map.push(col);
    }
    map
}

fn player_at(x: i32, y: i32) -> Object {
    let mut player = Object::new(x, y, '@', "player", white(), true);
    player.alive = true;
    player.fighter = Some(Fighter {
        base_max_hp: 100,
        hp: 100,
        base_defense: 1,
        base_power: 5,
        xp: 0,
        on_death: DeathCallback::Player,
    });
    player
}

fn orc_at(x: i32, y: i32) -> Object {
    let mut orc = Object::new(x, y, 'o', "orc", white(), true);
    orc.alive = true;
    orc.fighter = Some(Fighter {
        base_max_hp: 20,
        hp: 20,
        base_defense: 0,
        base_power: 4,
        xp: 35,
        on_death: DeathCallback::Monster,
    });
    orc.ai = Some(Ai::Basic);
    orc
}

fn game_with(map: DungeonMap) -> Game {
    Game { map, messages: Messages::new(), inventory: Vec::new(), dungeon_level: 1 }
}

#[test]
fn damage_is_power_minus_defense_floored_at_zero() {
    let mut game = game_with(open_map());
    let mut objects = vec![player_at(10, 10), orc_at(11, 10)];
    // player power 5 vs orc defense 0: 5 damage
    player_move_or_attack(1, 0, &mut game, &mut objects);
    assert_eq!(objects[1].fighter.unwrap().hp, 15);
    // an attacker too weak to pierce the defense has no effect
    let mut weak = orc_at(12, 10);
    weak.fighter = Some(Fighter { base_power: 1, ..weak.fighter.unwrap() });
    let mut strong = player_at(13, 10);
    strong.fighter = Some(Fighter { base_defense: 8, ..strong.fighter.unwrap() });
    let mut objects2 = vec![strong, weak];
    let (att, def) = mut_two(1, 0, &mut objects2);
    att.attack(def, &mut game);
    assert_eq!(objects2[0].fighter.unwrap().hp, 100);
}

#[test]
fn hp_never_goes_negative_and_reward_is_paid_once() {
    let mut game = game_with(open_map());
    let mut orc = orc_at(5, 5);
    // massive overkill still floors hp at 0 and pays the xp exactly once
    let first = orc.take_damage(1000, &mut game);
    assert_eq!(first, Some(35));
    assert!(!orc.alive);
    assert!(orc.fighter.is_none());
    assert!(!orc.blocks);
    assert_eq!(orc.name, "remains of orc");
    assert_eq!(orc.glyph, '%');
    let second = orc.take_damage(1000, &mut game);
    assert_eq!(second, None);

    // a dead player keeps its fighter but rewards no further xp either
    let mut player = player_at(4, 4);
    let first = player.take_damage(1000, &mut game);
    assert_eq!(first, Some(0));
    assert!(!player.alive);
    assert_eq!(player.fighter.unwrap().hp, 0);
    let second = player.take_damage(10, &mut game);
    assert_eq!(second, None);
}

#[test]
fn confused_ai_reverts_after_the_turn_count_runs_out() {
    let mut game = game_with(open_map());
    let fov = Fov::new_uniform(false);
    let n = 3;
    let mut objects = vec![player_at(10, 10), orc_at(30, 30)];
    objects[1].ai = Some(Ai::Confused { previous_ai: Box::new(Ai::Basic), num_turns: n });
    // the monster stays confused while the counter is nonnegative: it is
    // decremented on each of the first n + 1 advances
    for k in 0..(n + 1) {
        ai_take_turn(1, &fov, &mut game, &mut objects);
        match &objects[1].ai {
            Some(Ai::Confused { num_turns, .. }) => assert_eq!(*num_turns, n - 1 - k),
            other => panic!("expected a confused state, got {:?}", other),
        }
    }
    // the advance after the counter went negative restores the old state
    ai_take_turn(1, &fov, &mut game, &mut objects);
    assert_eq!(objects[1].ai, Some(Ai::Basic));
}

#[test]
fn basic_ai_approaches_and_attacks_the_player() {
    let mut game = game_with(open_map());
    let fov = Fov::new_uniform(true);
    let mut objects = vec![player_at(10, 10), orc_at(13, 10)];
    // distance 3: the monster steps toward the player
    ai_take_turn(1, &fov, &mut game, &mut objects);
    assert_eq!(objects[1].pos(), (12, 10));
    // distance 2: still >= 2, one more step
    ai_take_turn(1, &fov, &mut game, &mut objects);
    assert_eq!(objects[1].pos(), (11, 10));
    // distance 1 < 2: the monster attacks for power 4 - defense 1 = 3
    ai_take_turn(1, &fov, &mut game, &mut objects);
    assert_eq!(objects[1].pos(), (11, 10));
    assert_eq!(objects[0].fighter.unwrap().hp, 97);
}

#[test]
fn basic_ai_does_nothing_outside_the_field_of_view() {
    let mut game = game_with(open_map());
    let fov = Fov::new_uniform(false);
    let mut objects = vec![player_at(10, 10), orc_at(13, 10)];
    ai_take_turn(1, &fov, &mut game, &mut objects);
    assert_eq!(objects[1].pos(), (13, 10));
    assert_eq!(objects[0].fighter.unwrap().hp, 100);
}

#[test]
fn move_by_respects_blocking() {
    let map = open_map();
    let mut objects = vec![player_at(10, 10), orc_at(11, 10)];
    // blocked by the orc: no move
    move_by(0, 1, 0, &map, &mut objects);
    assert_eq!(objects[0].pos(), (10, 10));
    // open tile: moves
    move_by(0, 0, 1, &map, &mut objects);
    assert_eq!(objects[0].pos(), (10, 11));
    // blocked by the map border wall
    let mut at_edge = vec![player_at(1, 1)];
    move_by(0, -1, 0, &map, &mut at_edge);
    assert_eq!(at_edge[0].pos(), (1, 1));
}

#[test]
fn move_towards_takes_unit_grid_steps() {
    let map = open_map();
    // mostly-vertical direction rounds the horizontal component away
    let mut objects = vec![player_at(10, 10)];
    move_towards(0, 11, 14, &map, &mut objects);
    assert_eq!(objects[0].pos(), (10, 11));
    // diagonal direction moves diagonally
    let mut objects = vec![player_at(10, 10)];
    move_towards(0, 14, 14, &map, &mut objects);
    assert_eq!(objects[0].pos(), (11, 11));
    // already at the target: no move
    let mut objects = vec![player_at(10, 10)];
    move_towards(0, 10, 10, &map, &mut objects);
    assert_eq!(objects[0].pos(), (10, 10));
}

#[test]
fn is_blocked_sees_tiles_and_blocking_entities() {
    let map = open_map();
    let objects = vec![player_at(10, 10)];
    assert!(is_blocked(0, 0, &map, &objects));
    assert!(is_blocked(10, 10, &map, &objects));
    assert!(!is_blocked(11, 10, &map, &objects));
}

#[test]
fn mut_two_borrows_two_separate_elements() {
    let mut values = vec![1, 2, 3];
    {
        let (a, b) = mut_two(0, 2, &mut values);
        std::mem::swap(a, b);
    }
    assert_eq!(values, vec![3, 2, 1]);
}

#[test]
fn closest_monster_prefers_strictly_closer_and_first_found() {
    let fov = Fov::new_uniform(true);
    let objects = vec![player_at(10, 10), orc_at(14, 10), orc_at(13, 10), orc_at(16, 10)];
    assert_eq!(closest_monster(&fov, &objects, 5), Some(2));
    // ties broken by the first found
    let objects = vec![player_at(10, 10), orc_at(13, 10), orc_at(7, 10)];
    assert_eq!(closest_monster(&fov, &objects, 5), Some(1));
    // out of range: none
    let objects = vec![player_at(10, 10), orc_at(16, 10)];
    assert_eq!(closest_monster(&fov, &objects, 5), None);
}

#[test]
fn target_tile_decision_accepts_only_visible_tiles_in_range() {
    let fov = Fov::new_uniform(true);
    let player = player_at(10, 10);
    let d = target_tile_decision(12, 10, true, false, false, &fov, &player, Some(25));
    assert_eq!(d, TargetDecision::Accepted(12, 10));
    // out of range
    let d = target_tile_decision(20, 10, true, false, false, &fov, &player, Some(25));
    assert_eq!(d, TargetDecision::Pending);
    // cancelled on right click or escape
    let d = target_tile_decision(12, 10, false, true, false, &fov, &player, None);
    assert_eq!(d, TargetDecision::Cancelled);
    let d = target_tile_decision(12, 10, false, false, true, &fov, &player, None);
    assert_eq!(d, TargetDecision::Cancelled);
}

#[test]
fn monster_at_tile_finds_the_first_monster_there() {
    let objects = vec![player_at(10, 10), orc_at(12, 10), orc_at(12, 10)];
    assert_eq!(monster_at_tile(12, 10, &objects), Some(1));
    assert_eq!(monster_at_tile(10, 10, &objects), None);
    assert_eq!(monster_at_tile(5, 5, &objects), None);
}

#[test]
fn level_up_applies_the_confirmed_choice() {
    let mut messages = Messages::new();
    let mut player = player_at(10, 10);
    player.fighter = Some(Fighter { xp: 400, ..player.fighter.unwrap() });
    // threshold at level 1 is 200 + 150 = 350
    assert!(needs_level_up(&player));
    level_up(&mut player, StatChoice::Constitution, &mut messages);
    assert_eq!(player.level, 2);
    let f = player.fighter.unwrap();
    assert_eq!(f.xp, 50);
    assert_eq!(f.base_max_hp, 120);
    assert_eq!(f.hp, 120);

    let mut player = player_at(10, 10);
    player.fighter = Some(Fighter { xp: 350, ..player.fighter.unwrap() });
    level_up(&mut player, StatChoice::Strength, &mut messages);
    assert_eq!(player.fighter.unwrap().base_power, 6);

    let mut player = player_at(10, 10);
    player.fighter = Some(Fighter { xp: 350, ..player.fighter.unwrap() });
    level_up(&mut player, StatChoice::Agility, &mut messages);
    assert_eq!(player.fighter.unwrap().base_defense, 2);

    // below the threshold nothing is owed
    let fresh = player_at(0, 0);
    assert!(!needs_level_up(&fresh));
}

#[test]
fn world_queries_find_items_and_stairs() {
    let mut potion = Object::new(12, 10, '!', "healing potion", white(), false);
    potion.item = Some(Item::Heal);
    let mut stairs = Object::new(15, 10, '<', "stairs", white(), false);
    stairs.always_visible = true;
    let objects = vec![player_at(10, 10), potion, stairs];
    assert_eq!(find_item_at(12, 10, &objects), Some(1));
    assert_eq!(find_item_at(10, 10, &objects), None);
    assert!(stairs_at(15, 10, &objects));
    assert!(!stairs_at(12, 10, &objects));
}
