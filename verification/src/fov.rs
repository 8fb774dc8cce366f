//! Current visibility, as computed by the external field-of-view service.
//! The core only ever asks "is this tile visible"; the grid is filled in
//! from outside before each turn.

use vstd::prelude::*;
use crate::{MAP_WIDTH, MAP_HEIGHT};
use crate::tile::in_bounds;

verus! {

/// A grid of visibility flags with the map's dimensions, indexed `[x][y]`.
pub struct Fov {
    pub visible: Vec<Vec<bool>>,
}

/// The grid has exactly the map dimensions.
pub open spec fn fov_wf(f: Fov) -> bool {
    &&& f.visible@.len() == MAP_WIDTH as int
    &&& forall|x: int|
        0 <= x < f.visible@.len() ==> (#[trigger] f.visible@[x])@.len() == MAP_HEIGHT as int
}

/// Whether `(x, y)` is visible.
pub open spec fn fov_at(f: Fov, x: int, y: int) -> bool {
    f.visible@[x]@[y]
}

impl Fov {
    /// A grid with every tile set to `value`.
    pub fn new_uniform(value: bool) -> (f: Fov)
        ensures
            fov_wf(f),
            forall|x: int, y: int| in_bounds(x, y) ==> fov_at(f, x, y) == value,
    {
        let mut visible: Vec<Vec<bool>> = Vec::new();
        let mut x: usize = 0;
        while x < MAP_WIDTH as usize
            invariant
                x <= MAP_WIDTH as usize,
                visible@.len() == x as int,
                forall|a: int|
                    0 <= a < x as int ==> (#[trigger] visible@[a])@.len() == MAP_HEIGHT as int,
                forall|a: int, b: int|
                    0 <= a < x as int && 0 <= b < MAP_HEIGHT as int ==> #[trigger] visible@[a]@[b]
                        == value,
            decreases MAP_WIDTH as usize - x,
        {
            let mut column: Vec<bool> = Vec::new();
            let mut y: usize = 0;
            while y < MAP_HEIGHT as usize
                invariant
                    y <= MAP_HEIGHT as usize,
                    column@.len() == y as int,
                    forall|b: int| 0 <= b < y as int ==> column@[b] == value,
                decreases MAP_HEIGHT as usize - y,
            {
                column.push(value);
                y += 1;
            }
            visible.push(column);
            x += 1;
        }
        Fov { visible }
    }

    /// Mark `(x, y)` as visible or not.
    pub fn set(&mut self, x: usize, y: usize, value: bool)
        requires
            fov_wf(*old(self)),
            x < MAP_WIDTH as usize,
            y < MAP_HEIGHT as usize,
        ensures
            fov_wf(*final(self)),
            fov_at(*final(self), x as int, y as int) == value,
            forall|a: int, b: int|
                in_bounds(a, b) && !(a == x as int && b == y as int) ==> fov_at(*final(self), a, b)
                    == fov_at(*old(self), a, b),
    {
        let col = &mut self.visible[x];
        col[y] = value;
    }

    /// The external service's visibility query for one tile.
    pub fn is_in_fov(&self, x: i32, y: i32) -> (v: bool)
        requires
            fov_wf(*self),
            in_bounds(x as int, y as int),
        ensures
            v == fov_at(*self, x as int, y as int),
    {
        self.visible[x as usize][y as usize]
    }
}

} // verus!
