//! Reachability over floor tiles: the specification that every generated
//! room is connected to the first one, and the lemmas the dungeon
//! generator uses to establish it.

use crate::map::{TileMap, TileType};
use vstd::prelude::*;

verus! {

/// Four-directional adjacency of grid points.
pub open spec fn adjacent(p: (int, int), q: (int, int)) -> bool {
    ||| (p.0 == q.0 && (p.1 == q.1 + 1 || p.1 == q.1 - 1))
    ||| (p.1 == q.1 && (p.0 == q.0 + 1 || p.0 == q.0 - 1))
}

/// An in-bounds floor tile.
pub open spec fn floor_point(m: TileMap, p: (int, int)) -> bool {
    m.spec_in_bounds(p.0, p.1) && m.tile_at(p.0, p.1) == TileType::Floor
}

/// A walk over floor tiles: non-empty, every point an in-bounds floor
/// tile, consecutive points cardinally adjacent.
pub open spec fn is_floor_path(m: TileMap, path: Seq<(int, int)>) -> bool {
    &&& path.len() >= 1
    &&& forall|i: int| 0 <= i < path.len() ==> floor_point(m, #[trigger] path[i])
    &&& forall|i: int| 0 <= i < path.len() - 1 ==> adjacent(#[trigger] path[i], path[i + 1])
}

/// `b` can be walked to from `a` over floor tiles.
pub open spec fn reachable(m: TileMap, a: (int, int), b: (int, int)) -> bool {
    exists|path: Seq<(int, int)>|
        is_floor_path(m, path) && path.first() == a && path.last() == b
}

/// A floor tile reaches itself.
pub proof fn lemma_reachable_refl(m: TileMap, a: (int, int))
    requires
        floor_point(m, a),
    ensures
        reachable(m, a, a),
{
    let path = seq![a];
    assert(is_floor_path(m, path) && path.first() == a && path.last() == a);
}

/// Reachability runs backwards as well: walks reverse.
pub proof fn lemma_reachable_sym(m: TileMap, a: (int, int), b: (int, int))
    requires
        reachable(m, a, b),
    ensures
        reachable(m, b, a),
{
    let path = choose|path: Seq<(int, int)>|
        is_floor_path(m, path) && path.first() == a && path.last() == b;
    let rev = Seq::new(path.len(), |i: int| path[path.len() - 1 - i]);
    assert(is_floor_path(m, rev) && rev.first() == b && rev.last() == a);
}

/// Walks concatenate: reachability is transitive.
pub proof fn lemma_reachable_trans(m: TileMap, a: (int, int), b: (int, int), c: (int, int))
    requires
        reachable(m, a, b),
        reachable(m, b, c),
    ensures
        reachable(m, a, c),
{
    let p1 = choose|p: Seq<(int, int)>| is_floor_path(m, p) && p.first() == a && p.last() == b;
    let p2 = choose|p: Seq<(int, int)>| is_floor_path(m, p) && p.first() == b && p.last() == c;
    let joined = p1 + p2.drop_first();
    assert forall|i: int| 0 <= i < joined.len() implies floor_point(m, #[trigger] joined[i]) by {
        if i >= p1.len() {
            assert(joined[i] == p2[i - p1.len() + 1]);
        }
    }
    assert forall|i: int| 0 <= i < joined.len() - 1 implies adjacent(
        #[trigger] joined[i],
        joined[i + 1],
    ) by {
        if i + 1 < p1.len() {
            assert(adjacent(p1[i], p1[i + 1]));
        } else if i + 1 == p1.len() {
            if p2.len() >= 2 {
                assert(joined[i] == p1[p1.len() - 1] && joined[i + 1] == p2[1]);
                assert(adjacent(p2[0], p2[1]));
            }
        } else {
            assert(joined[i] == p2[i - p1.len() + 1] && joined[i + 1] == p2[i - p1.len() + 2]);
            assert(adjacent(p2[i - p1.len() + 1], p2[i - p1.len() + 2]));
        }
    }
    if p2.len() == 1 {
        assert(joined == p1);
        assert(joined.last() == c);
    } else {
        assert(joined.last() == p2.last());
    }
    assert(is_floor_path(m, joined) && joined.first() == a && joined.last() == c);
}

/// Turning wall to floor never disconnects anything: a walk in `m1` is
/// still a walk in any same-sized map `m2` that keeps every floor tile.
pub proof fn lemma_reachable_monotone(m1: TileMap, m2: TileMap, a: (int, int), b: (int, int))
    requires
        reachable(m1, a, b),
        m1.width == m2.width,
        m1.height == m2.height,
        forall|x: int, y: int|
            m1.spec_in_bounds(x, y) && m1.tile_at(x, y) == TileType::Floor
                ==> #[trigger] m2.tile_at(x, y) == TileType::Floor,
    ensures
        reachable(m2, a, b),
{
    let path = choose|p: Seq<(int, int)>| is_floor_path(m1, p) && p.first() == a && p.last() == b;
    assert forall|i: int| 0 <= i < path.len() implies floor_point(m2, #[trigger] path[i]) by {
        assert(floor_point(m1, path[i]));
    }
    assert(is_floor_path(m2, path) && path.first() == a && path.last() == b);
}

/// A row of floor tiles is a walk: `(x1, y)` reaches `(x2, y)`.
pub proof fn lemma_row_reachable(m: TileMap, x1: int, x2: int, y: int)
    requires
        x1 <= x2,
        forall|a: int| x1 <= a <= x2 ==> floor_point(m, (a, y)),
    ensures
        reachable(m, (x1, y), (x2, y)),
{
    let path = Seq::new((x2 - x1 + 1) as nat, |i: int| (x1 + i, y));
    assert forall|i: int| 0 <= i < path.len() implies floor_point(m, #[trigger] path[i]) by {
        assert(floor_point(m, (x1 + i, y)));
    }
    assert(is_floor_path(m, path) && path.first() == (x1, y) && path.last() == (x2, y));
}

/// A column of floor tiles is a walk: `(x, y1)` reaches `(x, y2)`.
pub proof fn lemma_column_reachable(m: TileMap, y1: int, y2: int, x: int)
    requires
        y1 <= y2,
        forall|b: int| y1 <= b <= y2 ==> floor_point(m, (x, b)),
    ensures
        reachable(m, (x, y1), (x, y2)),
{
    let path = Seq::new((y2 - y1 + 1) as nat, |i: int| (x, y1 + i));
    assert forall|i: int| 0 <= i < path.len() implies floor_point(m, #[trigger] path[i]) by {
        assert(floor_point(m, (x, y1 + i)));
    }
    assert(is_floor_path(m, path) && path.first() == (x, y1) && path.last() == (x, y2));
}

/// Inside a fully carved rectangle every tile reaches every other: walk
/// along the row to the target column, then along the column.
pub proof fn lemma_rect_reachable(
    m: TileMap,
    x1: int,
    x2: int,
    y1: int,
    y2: int,
    p: (int, int),
    q: (int, int),
)
    requires
        forall|a: int, b: int| x1 <= a <= x2 && y1 <= b <= y2 ==> floor_point(m, (a, b)),
        x1 <= p.0 <= x2 && y1 <= p.1 <= y2,
        x1 <= q.0 <= x2 && y1 <= q.1 <= y2,
    ensures
        reachable(m, p, q),
{
    let corner = (q.0, p.1);
    if p.0 <= q.0 {
        lemma_row_reachable(m, p.0, q.0, p.1);
    } else {
        lemma_row_reachable(m, q.0, p.0, p.1);
        lemma_reachable_sym(m, corner, p);
    }
    if p.1 <= q.1 {
        lemma_column_reachable(m, p.1, q.1, q.0);
    } else {
        lemma_column_reachable(m, q.1, p.1, q.0);
        lemma_reachable_sym(m, q, corner);
    }
    lemma_reachable_trans(m, p, corner, q);
}

} // verus!
