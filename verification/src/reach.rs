//! Reachability over the open tiles of a map: the specification that the
//! carved tunnels of a generated level connect every room to the first one.

use vstd::prelude::*;
use crate::tile::{DungeonMap, open_at, opens_monotone};

verus! {

/// Two grid positions share an edge (4-directional adjacency).
pub open spec fn adjacent(a: (int, int), b: (int, int)) -> bool {
    ||| (a.0 == b.0 && (a.1 == b.1 + 1 || b.1 == a.1 + 1))
    ||| (a.1 == b.1 && (a.0 == b.0 + 1 || b.0 == a.0 + 1))
}

/// Every position on `p` is an open tile of `m`, and consecutive positions
/// are adjacent.
pub open spec fn is_open_path(m: DungeonMap, p: Seq<(int, int)>) -> bool {
    &&& forall|i: int| 0 <= i < p.len() ==> open_at(m, (#[trigger] p[i]).0, p[i].1)
    &&& forall|i: int| 0 <= i < p.len() - 1 ==> adjacent(#[trigger] p[i], p[i + 1])
}

/// `b` can be reached from `a` by walking open tiles of `m`.
pub open spec fn connected(m: DungeonMap, a: (int, int), b: (int, int)) -> bool {
    exists|p: Seq<(int, int)>|
        #[trigger] is_open_path(m, p) && p.len() > 0 && p.first() == a && p.last() == b
}

/// An open tile is connected to itself.
pub proof fn lemma_connected_refl(m: DungeonMap, a: (int, int))
    requires
        open_at(m, a.0, a.1),
    ensures
        connected(m, a, a),
{
    let p = seq![a];
    assert(is_open_path(m, p));
    assert(p.first() == a && p.last() == a);
}

/// Two adjacent open tiles are connected.
pub proof fn lemma_connected_step(m: DungeonMap, a: (int, int), b: (int, int))
    requires
        open_at(m, a.0, a.1),
        open_at(m, b.0, b.1),
        adjacent(a, b),
    ensures
        connected(m, a, b),
{
    let p = seq![a, b];
    assert(is_open_path(m, p));
    assert(p.first() == a && p.last() == b);
}

/// Opening more tiles preserves connectivity: any path of `m1` is a path
/// of `m2`.
pub proof fn lemma_connected_monotone(m1: DungeonMap, m2: DungeonMap, a: (int, int), b: (int, int))
    requires
        opens_monotone(m1, m2),
        connected(m1, a, b),
    ensures
        connected(m2, a, b),
{
    let p = choose|p: Seq<(int, int)>|
        #[trigger] is_open_path(m1, p) && p.len() > 0 && p.first() == a && p.last() == b;
    assert(is_open_path(m2, p));
}

/// Connectivity is transitive: concatenate the two paths.
pub proof fn lemma_connected_trans(m: DungeonMap, a: (int, int), b: (int, int), c: (int, int))
    requires
        connected(m, a, b),
        connected(m, b, c),
    ensures
        connected(m, a, c),
{
    let p1 = choose|p: Seq<(int, int)>|
        #[trigger] is_open_path(m, p) && p.len() > 0 && p.first() == a && p.last() == b;
    let p2 = choose|p: Seq<(int, int)>|
        #[trigger] is_open_path(m, p) && p.len() > 0 && p.first() == b && p.last() == c;
    let p = p1 + p2.drop_first();
    assert forall|i: int| 0 <= i < p.len() implies open_at(m, (#[trigger] p[i]).0, p[i].1) by {
        if i < p1.len() {
            assert(p[i] == p1[i]);
        } else {
            assert(p[i] == p2[i - p1.len() + 1]);
        }
    }
    assert forall|i: int| 0 <= i < p.len() - 1 implies adjacent(#[trigger] p[i], p[i + 1]) by {
        if i < p1.len() - 1 {
            assert(p[i] == p1[i] && p[i + 1] == p1[i + 1]);
        } else if i == p1.len() - 1 {
            assert(p[i] == p1.last());
            assert(p[i + 1] == p2[1]);
            assert(adjacent(p2[0], p2[1]));
        } else {
            assert(p[i] == p2[i - p1.len() + 1] && p[i + 1] == p2[i - p1.len() + 2]);
        }
    }
    assert(is_open_path(m, p));
    if p2.len() == 1 {
        assert(p =~= p1);
        assert(p.last() == c);
    } else {
        assert(p.last() == p2.last());
    }
    assert(p.first() == a);
}

/// A horizontal run of open tiles connects its two ends.
pub proof fn lemma_h_segment_connected(m: DungeonMap, x1: int, x2: int, y: int)
    requires
        forall|x: int|
            (if x1 <= x2 {
                x1 <= x <= x2
            } else {
                x2 <= x <= x1
            }) ==> open_at(m, x, y),
    ensures
        connected(m, (x1, y), (x2, y)),
    decreases (if x1 <= x2 {
        x2 - x1
    } else {
        x1 - x2
    }),
{
    if x1 == x2 {
        lemma_connected_refl(m, (x1, y));
    } else {
        let step = if x1 < x2 {
            x1 + 1
        } else {
            x1 - 1
        };
        lemma_connected_step(m, (x1, y), (step, y));
        lemma_h_segment_connected(m, step, x2, y);
        lemma_connected_trans(m, (x1, y), (step, y), (x2, y));
    }
}

/// A vertical run of open tiles connects its two ends.
pub proof fn lemma_v_segment_connected(m: DungeonMap, y1: int, y2: int, x: int)
    requires
        forall|y: int|
            (if y1 <= y2 {
                y1 <= y <= y2
            } else {
                y2 <= y <= y1
            }) ==> open_at(m, x, y),
    ensures
        connected(m, (x, y1), (x, y2)),
    decreases (if y1 <= y2 {
        y2 - y1
    } else {
        y1 - y2
    }),
{
    if y1 == y2 {
        lemma_connected_refl(m, (x, y1));
    } else {
        let step = if y1 < y2 {
            y1 + 1
        } else {
            y1 - 1
        };
        lemma_connected_step(m, (x, y1), (x, step));
        lemma_v_segment_connected(m, step, y2, x);
        lemma_connected_trans(m, (x, y1), (x, step), (x, y2));
    }
}

} // verus!
