use rogue_core::color::white;
use rogue_core::game::{Game, Messages};
use rogue_core::mapgen::{build_map, from_dungeon_level, next_level, place_objects, sum_weights,
    weighted_pick, Transition};
use rogue_core::object::{DeathCallback, Fighter, Item, Object};
use rogue_core::rect::Rect;
use rogue_core::tile::{DungeonMap, Tile};
use rogue_core::{MAP_HEIGHT, MAP_WIDTH, PLAYER};

fn open_map() -> DungeonMap {
    let mut map = Vec::new();
    for x in 0..MAP_WIDTH as usize {
        let mut col = Vec::new();
        for y in 0..MAP_HEIGHT as usize {
            let border = x == 0 || y == 0 || x == MAP_WIDTH as usize - 1
                || y == MAP_HEIGHT as usize - 1;
            col.push(if border { Tile::wall() } else { Tile::empty() });
        }
        map.push(col);
    }
    map
}

fn player_at(x: i32, y: i32) -> Object {
    let mut player = Object::new(x, y, '@', "player", white(), true);
    player.alive = true;
    player.fighter = Some(Fighter {
        base_max_hp: 100,
        hp: 100,
        base_defense: 1,
        base_power: 4,
        xp: 0,
        on_death: DeathCallback::Player,
    });
    player
}

fn game_with(map: DungeonMap) -> Game {
    Game { map, messages: Messages::new(), inventory: Vec::new(), dungeon_level: 1 }
}

#[test]
fn rect_center_and_intersection() {
    let a = Rect::new(0, 0, 10, 10);
    assert_eq!(a.center(), (5, 5));
    let b = Rect::new(10, 10, 5, 5);
    // inclusive edges count as an intersection
    assert!(a.intersects_with(&b));
    let c = Rect::new(11, 11, 5, 5);
    assert!(!a.intersects_with(&c));
    assert!(!c.intersects_with(&a));
}

#[test]
fn transition_tables_scale_with_level() {
    let monsters = vec![
        Transition { level: 1, value: 2 },
        Transition { level: 4, value: 3 },
        Transition { level: 6, value: 5 },
    ];
    assert_eq!(from_dungeon_level(&monsters, 0), 0);
    assert_eq!(from_dungeon_level(&monsters, 1), 2);
    assert_eq!(from_dungeon_level(&monsters, 3), 2);
    assert_eq!(from_dungeon_level(&monsters, 4), 3);
    assert_eq!(from_dungeon_level(&monsters, 5), 3);
    assert_eq!(from_dungeon_level(&monsters, 6), 5);
    assert_eq!(from_dungeon_level(&monsters, 99), 5);

    let troll = vec![
        Transition { level: 3, value: 15 },
        Transition { level: 5, value: 30 },
        Transition { level: 7, value: 60 },
    ];
    assert_eq!(from_dungeon_level(&troll, 1), 0);
    assert_eq!(from_dungeon_level(&troll, 3), 15);
    assert_eq!(from_dungeon_level(&troll, 5), 30);
    assert_eq!(from_dungeon_level(&troll, 7), 60);
}

#[test]
fn weighted_pick_never_selects_zero_weight() {
    let weights: Vec<u32> = vec![0, 5, 0, 7];
    let total = sum_weights(&weights);
    assert_eq!(total, 12);
    for roll in 0..total as u32 {
        let pick = weighted_pick(&weights, roll);
        assert!(pick == 1 || pick == 3);
    }
}

#[test]
fn weighted_pick_single_nonzero_always_selected() {
    let weights: Vec<u32> = vec![0, 0, 9, 0];
    for roll in 0..9u32 {
        assert_eq!(weighted_pick(&weights, roll), 2);
    }
}

#[test]
fn weighted_pick_buckets_are_proportional() {
    let weights: Vec<u32> = vec![3, 1];
    assert_eq!(weighted_pick(&weights, 0), 0);
    assert_eq!(weighted_pick(&weights, 1), 0);
    assert_eq!(weighted_pick(&weights, 2), 0);
    assert_eq!(weighted_pick(&weights, 3), 1);
}

#[test]
fn generated_rooms_do_not_intersect() {
    for _ in 0..5 {
        let mut objects = vec![player_at(0, 0)];
        let (_map, rooms) = build_map(&mut objects, 1);
        assert!(rooms.len() >= 1);
        for i in 0..rooms.len() {
            for j in (i + 1)..rooms.len() {
                assert!(!rooms[i].intersects_with(&rooms[j]));
            }
        }
    }
}

#[test]
fn generated_level_connects_every_room_center_to_the_first() {
    for _ in 0..3 {
        let mut objects = vec![player_at(0, 0)];
        let (map, rooms) = build_map(&mut objects, 1);

        // breadth-first search over open tiles from the first room's center
        let (sx, sy) = rooms[0].center();
        let mut seen = vec![vec![false; MAP_HEIGHT as usize]; MAP_WIDTH as usize];
        let mut queue = std::collections::VecDeque::new();
        assert!(!map[sx as usize][sy as usize].blocked);
        seen[sx as usize][sy as usize] = true;
        queue.push_back((sx, sy));
        while let Some((x, y)) = queue.pop_front() {
            for (dx, dy) in [(1, 0), (-1, 0), (0, 1), (0, -1)] {
                let (nx, ny) = (x + dx, y + dy);
                if nx >= 0 && nx < MAP_WIDTH && ny >= 0 && ny < MAP_HEIGHT {
                    if !map[nx as usize][ny as usize].blocked && !seen[nx as usize][ny as usize] {
                        seen[nx as usize][ny as usize] = true;
                        queue.push_back((nx, ny));
                    }
                }
            }
        }
        for room in &rooms {
            let (cx, cy) = room.center();
            assert!(seen[cx as usize][cy as usize]);
        }
        // the player starts at the first center, the stairs at the last
        assert_eq!(objects[PLAYER].pos(), rooms[0].center());
        let stairs = objects.last().unwrap();
        assert_eq!(stairs.name, "stairs");
        assert_eq!(stairs.pos(), rooms[rooms.len() - 1].center());
        assert!(seen[stairs.x as usize][stairs.y as usize]);
    }
}

#[test]
fn tiles_have_their_canonical_forms() {
    let e = Tile::empty();
    assert!(!e.blocked && !e.explored && !e.block_sight);
    let w = Tile::wall();
    assert!(w.blocked && !w.explored && w.block_sight);
}

#[test]
fn messages_log_keeps_order() {
    let mut m = Messages::new();
    assert_eq!(m.len(), 0);
    m.add("first".to_string(), white());
    m.add("second".to_string(), white());
    assert_eq!(m.len(), 2);
    assert_eq!(m.get(0).0, "first");
    assert_eq!(m.get(1).0, "second");
}

#[test]
fn next_level_heals_and_descends() {
    let mut objects = vec![player_at(0, 0)];
    let (map, _rooms) = build_map(&mut objects, 1);
    let mut game = game_with(map);
    objects[PLAYER].fighter = Some(Fighter { hp: 40, ..objects[PLAYER].fighter.unwrap() });
    next_level(&mut game, &mut objects);
    assert_eq!(game.dungeon_level, 2);
    // healed by half of the effective maximum: 40 + 50 = 90
    assert_eq!(objects[PLAYER].fighter.unwrap().hp, 90);
    // a fresh playable level: at least the player and the stairs
    assert!(objects.len() >= 2);
    assert_eq!(objects.last().unwrap().name, "stairs");
}

#[test]
fn room_population_follows_the_catalog_and_caps() {
    let map = open_map();
    let room = Rect::new(5, 5, 10, 10);
    for level in [1u32, 7u32] {
        let mut objects = vec![player_at(50, 40)];
        place_objects(room, &map, &mut objects, level);
        // capacity per room is level-scaled
        let max_monsters: usize = if level >= 6 { 5 } else if level >= 4 { 3 } else { 2 };
        let max_items: usize = if level >= 4 { 2 } else { 1 };
        assert!(objects.len() <= 1 + max_monsters + max_items);
        for i in 1..objects.len() {
            let o = &objects[i];
            // strictly inside the room, on a passable tile
            assert!(room.x1 < o.x && o.x < room.x2 && room.y1 < o.y && o.y < room.y2);
            assert!(!map[o.x as usize][o.y as usize].blocked);
            if o.blocks {
                let f = o.fighter.unwrap();
                let stats = (f.base_max_hp, f.base_defense, f.base_power, f.xp);
                // one of the two fixed monster records, orc only early on
                assert!(stats == (20, 0, 4, 35) || stats == (30, 2, 8, 100));
                if level < 3 {
                    assert_eq!(stats, (20, 0, 4, 35));
                }
                assert!(o.alive && o.ai.is_some());
            } else {
                assert!(o.item.is_some() && o.always_visible && o.fighter.is_none());
                match o.item.unwrap() {
                    Item::Sword => {
                        let e = o.equipment.unwrap();
                        assert!(!e.equipped && e.power_bonus == 3);
                    }
                    Item::Shield => {
                        let e = o.equipment.unwrap();
                        assert!(!e.equipped && e.defense_bonus == 1);
                    }
                    _ => assert!(o.equipment.is_none()),
                }
            }
            // placed on a tile no earlier blocking entity holds
            for j in 0..i {
                if objects[j].blocks {
                    assert!(objects[j].pos() != o.pos());
                }
            }
        }
    }
}
