//! The static tile grid of a dungeon level.

use vstd::prelude::*;
use crate::{MAP_WIDTH, MAP_HEIGHT};

verus! {

/// A tile of the map and its properties.
#[derive(Clone, Copy, Debug, PartialEq, Eq, Structural)]
pub struct Tile {
    pub blocked: bool,
    pub explored: bool,
    pub block_sight: bool,
}

impl Tile {
    pub fn empty() -> (t: Tile)
        ensures
            t == (Tile { blocked: false, explored: false, block_sight: false }),
    {
        Tile { blocked: false, explored: false, block_sight: false }
    }

    pub fn wall() -> (t: Tile)
        ensures
            t == (Tile { blocked: true, explored: false, block_sight: true }),
    {
        Tile { blocked: true, explored: false, block_sight: true }
    }
}

/// The map is a grid of tiles indexed by `[x][y]`,
/// `0 <= x < MAP_WIDTH`, `0 <= y < MAP_HEIGHT`.
pub type DungeonMap = Vec<Vec<Tile>>;

/// `(x, y)` lies within the map grid.
pub open spec fn in_bounds(x: int, y: int) -> bool {
    0 <= x < MAP_WIDTH as int && 0 <= y < MAP_HEIGHT as int
}

/// `(x, y)` lies strictly inside the map, off the one-tile border.
pub open spec fn interior(x: int, y: int) -> bool {
    1 <= x < MAP_WIDTH as int - 1 && 1 <= y < MAP_HEIGHT as int - 1
}

/// The grid has exactly the fixed dimensions.
pub open spec fn map_dims(m: DungeonMap) -> bool {
    &&& m@.len() == MAP_WIDTH as int
    &&& forall|x: int| 0 <= x < m@.len() ==> (#[trigger] m@[x])@.len() == MAP_HEIGHT as int
}

/// The tile stored at `(x, y)`.
pub open spec fn tile_at(m: DungeonMap, x: int, y: int) -> Tile {
    m@[x]@[y]
}

/// `(x, y)` is a passable tile of the map.
pub open spec fn open_at(m: DungeonMap, x: int, y: int) -> bool {
    in_bounds(x, y) && !tile_at(m, x, y).blocked
}

/// A well-formed dungeon map: fixed dimensions and a solid border, so
/// every passable tile is interior.
pub open spec fn map_ok(m: DungeonMap) -> bool {
    &&& map_dims(m)
    &&& forall|x: int, y: int| #[trigger] open_at(m, x, y) ==> interior(x, y)
}

/// Openness is monotone from `m1` to `m2`: carving only ever opens tiles.
pub open spec fn opens_monotone(m1: DungeonMap, m2: DungeonMap) -> bool {
    forall|x: int, y: int| #[trigger] open_at(m1, x, y) ==> open_at(m2, x, y)
}

} // verus!
