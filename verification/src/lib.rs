//! Simulation core of a turn-based dungeon crawl: procedural level
//! generation, entity state, combat resolution, AI behavior, and
//! inventory/equipment/leveling mechanics.

pub mod ai;
pub mod color;
pub mod fov;
pub mod game;
pub mod inventory;
pub mod level;
pub mod mapgen;
pub mod object;
pub mod reach;
pub mod rect;
pub mod rng;
pub mod tile;

use vstd::prelude::*;

verus! {

/// Width of the dungeon map in tiles.
pub const MAP_WIDTH: i32 = 80;

/// Height of the dungeon map in tiles.
pub const MAP_HEIGHT: i32 = 43;

/// Index of the player in the world entity collection; reserved for
/// the lifetime of the process.
pub const PLAYER: usize = 0;

/// Inventory capacity.
pub const MAX_INVENTORY: usize = 26;

/// Hit points a healing potion restores.
pub const HEAL_AMOUNT: i32 = 40;

/// Damage a lightning bolt scroll inflicts.
pub const LIGHTNING_DAMAGE: i32 = 40;

/// Maximum range of a lightning bolt.
pub const LIGHTNING_RANGE: i32 = 5;

/// Maximum range of a confusion scroll.
pub const CONFUSE_RANGE: i32 = 8;

/// Turns a confusion lasts.
pub const CONFUSE_NUM_TURNS: i32 = 10;

/// Radius of a fireball blast.
pub const FIREBALL_RADIUS: i32 = 3;

/// Damage a fireball inflicts on everything in its radius.
pub const FIREBALL_DAMAGE: i32 = 25;

/// Base of the xp threshold for the next level.
pub const LEVEL_UP_BASE: i32 = 200;

/// Per-level factor of the xp threshold for the next level.
pub const LEVEL_UP_FACTOR: i32 = 150;

/// Number of candidate rooms the generator attempts.
pub const MAX_ROOMS: i32 = 30;

/// Smallest side length of a generated room.
pub const ROOM_MIN_SIZE: i32 = 6;

/// Largest side length of a generated room.
pub const ROOM_MAX_SIZE: i32 = 10;

} // verus!
