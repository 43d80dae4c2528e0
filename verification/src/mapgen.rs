//! Randomized dungeon generation: non-overlapping rectangular rooms joined
//! by L-shaped corridors, on a fixed 80 x 43 grid.

use crate::map::{TileMap, TileType};
use crate::reach::{floor_point, lemma_column_reachable, lemma_reachable_monotone,
    lemma_reachable_refl, lemma_reachable_sym, lemma_reachable_trans, lemma_rect_reachable,
    lemma_row_reachable, reachable};
use crate::rect::{rects_intersect, Rect};
use vstd::prelude::*;

verus! {

pub const MAPWIDTH: i32 = 80;

pub const MAPHEIGHT: i32 = 43;

pub const MAPCOUNT: usize = 3440;

#[verifier::external_type_specification]
#[verifier::external_body]
pub struct ExRandomNumberGenerator(rltk::RandomNumberGenerator);

/// Relies on rltk::RandomNumberGenerator::new: builds a generator from an
/// operating-system seed. Nothing is promised of the values it will yield.
#[verifier::external_body]
pub(crate) fn rng_new() -> rltk::RandomNumberGenerator {
    rltk::RandomNumberGenerator::new()
}

/// Relies on rltk::RandomNumberGenerator::roll_dice: the sum of `n` dice,
/// each drawn from `1 ..= die_type`, so the result lies between `n` and
/// `n * die_type`. The draw would panic on an empty range, hence the bound
/// on `die_type`.
#[verifier::external_body]
pub(crate) fn roll_dice(rng: &mut rltk::RandomNumberGenerator, n: i32, die_type: i32) -> (r: i32)
    requires
        1 <= n,
        1 <= die_type < i32::MAX,
        n * die_type <= i32::MAX,
    ensures
        n <= r <= n * die_type,
{
    rng.roll_dice(n, die_type)
}

/// Relies on rltk::RandomNumberGenerator::range: a value drawn from
/// `min ..= max - 1`, inclusive of `min` and exclusive of `max`. The draw
/// would panic on an empty range, hence `min < max`.
#[verifier::external_body]
pub(crate) fn rng_range(rng: &mut rltk::RandomNumberGenerator, min: i32, max: i32) -> (r: i32)
    requires
        min < max,
    ensures
        min <= r < max,
{
    rng.range(min, max)
}

/// Whether `(a, b)` lies in the carved interior of room `r`.
pub open spec fn in_room_interior(r: Rect, a: int, b: int) -> bool {
    r.x1 < a <= r.x2 && r.y1 < b <= r.y2
}

/// An accepted room: inside the map's interior (a one-tile wall border is
/// always kept), with both sides between 6 and 9 tiles.
pub open spec fn room_in_bounds(m: TileMap, r: Rect) -> bool {
    &&& 0 <= r.x1
    &&& r.x1 + 6 <= r.x2 <= r.x1 + 9
    &&& r.x2 <= m.width - 2
    &&& 0 <= r.y1
    &&& r.y1 + 6 <= r.y2 <= r.y1 + 9
    &&& r.y2 <= m.height - 2
}

/// Every tile of the room's interior has been carved to floor.
pub open spec fn room_interior_floor(m: TileMap, r: Rect) -> bool {
    forall|a: int, b: int| in_room_interior(r, a, b) ==> #[trigger] m.tile_at(a, b)
        == TileType::Floor
}

/// A room's center lies strictly inside its carved interior.
proof fn lemma_center_bounds(x1: int, x2: int)
    requires
        0 <= x1,
        x1 + 6 <= x2 <= x1 + 9,
    ensures
        x1 + 3 <= (x1 + x2) / 2 <= x2 - 3,
{
    let s = x1 + x2;
    assert(x1 + 3 <= s / 2 <= x2 - 3) by (nonlinear_arith)
        requires
            0 <= x1,
            x1 + 6 <= x2 <= x1 + 9,
            s == x1 + x2,
    ;
}

/// An accepted room's center is an in-bounds grid point.
pub proof fn lemma_center_in_bounds(m: TileMap, r: Rect)
    requires
        m.inv(),
        room_in_bounds(m, r),
    ensures
        m.spec_in_bounds(r.spec_center().0, r.spec_center().1),
        in_room_interior(r, r.spec_center().0, r.spec_center().1),
{
    lemma_center_bounds(r.x1 as int, r.x2 as int);
    lemma_center_bounds(r.y1 as int, r.y2 as int);
}

fn filled_walls(n: usize) -> (v: Vec<TileType>)
    ensures
        v@.len() == n,
        forall|i: int| 0 <= i < n ==> v@[i] == TileType::Wall,
{
    let mut v: Vec<TileType> = Vec::new();
    let mut i: usize = 0;
    while i < n
        invariant
            i <= n,
            v@.len() == i,
            forall|j: int| 0 <= j < i ==> v@[j] == TileType::Wall,
        decreases n - i,
    {
        v.push(TileType::Wall);
        i += 1;
    }
    v
}

fn filled_bools(n: usize) -> (v: Vec<bool>)
    ensures
        v@.len() == n,
        forall|i: int| 0 <= i < n ==> !v@[i],
{
    let mut v: Vec<bool> = Vec::new();
    let mut i: usize = 0;
    while i < n
        invariant
            i <= n,
            v@.len() == i,
            forall|j: int| 0 <= j < i ==> !v@[j],
        decreases n - i,
    {
        v.push(false);
        i += 1;
    }
    v
}

fn empty_contents(n: usize) -> (v: Vec<Vec<usize>>)
    ensures
        v@.len() == n,
        forall|i: int| 0 <= i < n ==> #[trigger] v@[i]@ == Seq::<usize>::empty(),
{
    let mut v: Vec<Vec<usize>> = Vec::new();
    let mut i: usize = 0;
    while i < n
        invariant
            i <= n,
            v@.len() == i,
            forall|j: int| 0 <= j < i ==> #[trigger] v@[j]@ == Seq::<usize>::empty(),
        decreases n - i,
    {
        let slot: Vec<usize> = Vec::new();
        v.push(slot);
        i += 1;
    }
    v
}

/// All derived state starts clear: nothing blocked, nothing revealed or
/// visible, every occupant list empty.
pub open spec fn overlays_clear(m: TileMap) -> bool {
    &&& forall|j: int| 0 <= j < m.blocked@.len() ==> !(#[trigger] m.blocked@[j])
    &&& forall|j: int| 0 <= j < m.revealed_tiles@.len() ==> !(#[trigger] m.revealed_tiles@[j])
    &&& forall|j: int| 0 <= j < m.visible_tiles@.len() ==> !(#[trigger] m.visible_tiles@[j])
    &&& forall|j: int|
        0 <= j < m.tile_content@.len() ==> #[trigger] m.tile_content@[j]@ == Seq::<usize>::empty()
}

/// The one-tile frame around the map: the outermost rows and columns.
pub open spec fn on_border(m: TileMap, a: int, b: int) -> bool {
    m.spec_in_bounds(a, b) && (a == 0 || a == m.width - 1 || b == 0 || b == m.height - 1)
}

/// Every tile of the map's frame is a wall: rooms carve strict interiors
/// and corridors run between room centers, so the frame is never touched.
pub open spec fn border_walls(m: TileMap) -> bool {
    forall|a: int, b: int| on_border(m, a, b) ==> #[trigger] m.tile_at(a, b) == TileType::Wall
}

/// Floor tiles of `m1` are floor tiles of `m2`: the relation that carving
/// preserves, under which reachability is transported.
pub open spec fn keeps_floor(m1: TileMap, m2: TileMap) -> bool {
    &&& m1.width == m2.width
    &&& m1.height == m2.height
    &&& forall|x: int, y: int|
        m1.spec_in_bounds(x, y) && m1.tile_at(x, y) == TileType::Floor
            ==> #[trigger] m2.tile_at(x, y) == TileType::Floor
}

/// A map that leaves every frame tile of a walled frame unchanged keeps
/// the frame walled.
proof fn lemma_border_walls_preserved(m1: TileMap, m2: TileMap)
    requires
        border_walls(m1),
        m1.width == m2.width,
        m1.height == m2.height,
        forall|a: int, b: int|
            on_border(m1, a, b) ==> #[trigger] m2.tile_at(a, b) == m1.tile_at(a, b),
    ensures
        border_walls(m2),
{
    assert forall|a: int, b: int| on_border(m2, a, b) implies #[trigger] m2.tile_at(a, b)
        == TileType::Wall by {
        assert(on_border(m1, a, b));
        assert(m1.tile_at(a, b) == TileType::Wall);
    }
}

/// Carves the L-shaped corridor joining the centers of `prev` and
/// `new_room`, bending horizontally first or vertically first as the coin
/// says, and leaves the two centers connected over floor tiles.
#[verifier::rlimit(100)]
fn carve_corridor(map: &mut TileMap, prev: Rect, new_room: Rect, coin: i32)
    requires
        old(map).inv(),
        old(map).width == MAPWIDTH && old(map).height == MAPHEIGHT,
        room_in_bounds(*old(map), prev),
        room_in_bounds(*old(map), new_room),
        room_interior_floor(*old(map), prev),
        room_interior_floor(*old(map), new_room),
    ensures
        final(map).inv(),
        final(map).width == MAPWIDTH && final(map).height == MAPHEIGHT,
        final(map).same_but_tiles(*old(map)),
        final(map).tiles@.len() == old(map).tiles@.len(),
        keeps_floor(*old(map), *final(map)),
        reachable(*final(map), prev.spec_center(), new_room.spec_center()),
        forall|a: int, b: int|
            on_border(*old(map), a, b) ==> #[trigger] final(map).tile_at(a, b) == old(
                map,
            ).tile_at(a, b),
{
    let c_new = new_room.center();
    let c_prev = prev.center();
    proof {
        lemma_center_bounds(new_room.x1 as int, new_room.x2 as int);
        lemma_center_bounds(new_room.y1 as int, new_room.y2 as int);
        lemma_center_bounds(prev.x1 as int, prev.x2 as int);
        lemma_center_bounds(prev.y1 as int, prev.y2 as int);
    }
    let ghost m1 = *map;
    if coin == 1 {
        map.apply_horizontal_tunnel(c_prev.0, c_new.0, c_prev.1);
        let ghost m2 = *map;
        map.apply_vertical_tunnel(c_prev.1, c_new.1, c_new.0);
        proof {
            assert forall|a: int, b: int|
                m1.spec_in_bounds(a, b) && m1.tile_at(a, b) == TileType::Floor implies
                #[trigger] map.tile_at(a, b) == TileType::Floor by {
                assert(m2.tile_at(a, b) == TileType::Floor);
            }
            let pc = (c_prev.0 as int, c_prev.1 as int);
            let nc = (c_new.0 as int, c_new.1 as int);
            let corner = (nc.0, pc.1);
            assert forall|a: int|
                vstd::math::min(pc.0, nc.0) <= a <= vstd::math::max(pc.0, nc.0) implies
                floor_point(*map, (a, pc.1)) by {
                assert(m2.tile_at(a, pc.1) == TileType::Floor);
            }
            assert forall|b: int|
                vstd::math::min(pc.1, nc.1) <= b <= vstd::math::max(pc.1, nc.1) implies
                floor_point(*map, (nc.0, b)) by {
                assert(map.tile_at(nc.0, b) == TileType::Floor);
            }
            if pc.0 <= nc.0 {
                lemma_row_reachable(*map, pc.0, nc.0, pc.1);
            } else {
                lemma_row_reachable(*map, nc.0, pc.0, pc.1);
                lemma_reachable_sym(*map, corner, pc);
            }
            if pc.1 <= nc.1 {
                lemma_column_reachable(*map, pc.1, nc.1, nc.0);
            } else {
                lemma_column_reachable(*map, nc.1, pc.1, nc.0);
                lemma_reachable_sym(*map, nc, corner);
            }
            lemma_reachable_trans(*map, pc, corner, nc);
        }
    } else {
        map.apply_vertical_tunnel(c_prev.1, c_new.1, c_prev.0);
        let ghost m2 = *map;
        map.apply_horizontal_tunnel(c_prev.0, c_new.0, c_new.1);
        proof {
            assert forall|a: int, b: int|
                m1.spec_in_bounds(a, b) && m1.tile_at(a, b) == TileType::Floor implies
                #[trigger] map.tile_at(a, b) == TileType::Floor by {
                assert(m2.tile_at(a, b) == TileType::Floor);
            }
            let pc = (c_prev.0 as int, c_prev.1 as int);
            let nc = (c_new.0 as int, c_new.1 as int);
            let corner = (pc.0, nc.1);
            assert forall|b: int|
                vstd::math::min(pc.1, nc.1) <= b <= vstd::math::max(pc.1, nc.1) implies
                floor_point(*map, (pc.0, b)) by {
                assert(m2.tile_at(pc.0, b) == TileType::Floor);
            }
            assert forall|a: int|
                vstd::math::min(pc.0, nc.0) <= a <= vstd::math::max(pc.0, nc.0) implies
                floor_point(*map, (a, nc.1)) by {
                assert(map.tile_at(a, nc.1) == TileType::Floor);
            }
            if pc.1 <= nc.1 {
                lemma_column_reachable(*map, pc.1, nc.1, pc.0);
            } else {
                lemma_column_reachable(*map, nc.1, pc.1, pc.0);
                lemma_reachable_sym(*map, corner, pc);
            }
            if pc.0 <= nc.0 {
                lemma_row_reachable(*map, pc.0, nc.0, nc.1);
            } else {
                lemma_row_reachable(*map, nc.0, pc.0, nc.1);
                lemma_reachable_sym(*map, nc, corner);
            }
            lemma_reachable_trans(*map, pc, corner, nc);
        }
    }
    proof {
        let pcx = (prev.x1 + prev.x2) / 2;
        let pcy = (prev.y1 + prev.y2) / 2;
        let ncx = (new_room.x1 + new_room.x2) / 2;
        let ncy = (new_room.y1 + new_room.y2) / 2;
        assert forall|a: int, b: int| on_border(*old(map), a, b) implies #[trigger] map.tile_at(
            a,
            b,
        ) == old(map).tile_at(a, b) by {
            assert(3 <= pcx <= old(map).width - 5 && 3 <= pcy <= old(map).height - 5);
            assert(3 <= ncx <= old(map).width - 5 && 3 <= ncy <= old(map).height - 5);
        }
    }
}

/// Carves an accepted candidate room, joins it by a corridor to the
/// previously accepted room (if any), and appends it to the room list,
/// keeping every generator invariant.
#[verifier::rlimit(100)]
fn accept_room(map: &mut TileMap, new_room: Rect, rng: &mut rltk::RandomNumberGenerator)
    requires
        old(map).inv(),
        old(map).width == MAPWIDTH && old(map).height == MAPHEIGHT,
        room_in_bounds(*old(map), new_room),
        forall|k: int|
            0 <= k < old(map).rooms@.len() ==> room_in_bounds(
                *old(map),
                #[trigger] old(map).rooms@[k],
            ),
        forall|k: int|
            0 <= k < old(map).rooms@.len() ==> room_interior_floor(
                *old(map),
                #[trigger] old(map).rooms@[k],
            ),
        forall|k1: int, k2: int|
            0 <= k1 < k2 < old(map).rooms@.len() ==> !rects_intersect(
                old(map).rooms@[k1],
                old(map).rooms@[k2],
            ),
        forall|k: int|
            0 <= k < old(map).rooms@.len() ==> reachable(
                *old(map),
                old(map).rooms@[0].spec_center(),
                (#[trigger] old(map).rooms@[k]).spec_center(),
            ),
        forall|k: int|
            0 <= k < old(map).rooms@.len() ==> !rects_intersect(
                new_room,
                #[trigger] old(map).rooms@[k],
            ),
        overlays_clear(*old(map)),
        border_walls(*old(map)),
    ensures
        final(map).inv(),
        final(map).width == MAPWIDTH && final(map).height == MAPHEIGHT,
        final(map).rooms@ == old(map).rooms@.push(new_room),
        overlays_clear(*final(map)),
        border_walls(*final(map)),
        forall|k: int|
            0 <= k < final(map).rooms@.len() ==> room_in_bounds(
                *final(map),
                #[trigger] final(map).rooms@[k],
            ),
        forall|k: int|
            0 <= k < final(map).rooms@.len() ==> room_interior_floor(
                *final(map),
                #[trigger] final(map).rooms@[k],
            ),
        forall|k1: int, k2: int|
            0 <= k1 < k2 < final(map).rooms@.len() ==> !rects_intersect(
                final(map).rooms@[k1],
                final(map).rooms@[k2],
            ),
        forall|k: int|
            0 <= k < final(map).rooms@.len() ==> reachable(
                *final(map),
                final(map).rooms@[0].spec_center(),
                (#[trigger] final(map).rooms@[k]).spec_center(),
            ),
{
    let ghost m0 = *map;
    map.apply_room_to_map(&new_room);
    proof {
        assert forall|a: int, b: int|
            m0.spec_in_bounds(a, b) && m0.tile_at(a, b) == TileType::Floor implies
            #[trigger] map.tile_at(a, b) == TileType::Floor by {}
        assert forall|a: int, b: int| on_border(m0, a, b) implies #[trigger] map.tile_at(a, b)
            == m0.tile_at(a, b) by {}
        lemma_border_walls_preserved(m0, *map);
    }
    let ghost m1 = *map;
    if map.rooms.len() != 0 {
        let last = map.rooms.len() - 1;
        let prev = map.rooms[last];
        proof {
            assert forall|a: int, b: int|
                in_room_interior(prev, a, b) implies #[trigger] map.tile_at(a, b)
                == TileType::Floor by {
                assert(m0.tile_at(a, b) == TileType::Floor);
            }
            assert forall|a: int, b: int|
                in_room_interior(new_room, a, b) implies #[trigger] map.tile_at(a, b)
                == TileType::Floor by {}
        }
        let coin = rng_range(rng, 0, 2);
        carve_corridor(map, prev, new_room, coin);
        proof {
            lemma_border_walls_preserved(m1, *map);
            let pc = prev.spec_center();
            let nc = new_room.spec_center();
            let c0 = map.rooms@[0].spec_center();
            assert forall|a: int, b: int|
                m0.spec_in_bounds(a, b) && m0.tile_at(a, b) == TileType::Floor implies
                #[trigger] map.tile_at(a, b) == TileType::Floor by {
                assert(m1.tile_at(a, b) == TileType::Floor);
            }
            assert forall|k: int|
                0 <= k < map.rooms@.len() implies reachable(
                *map,
                c0,
                (#[trigger] map.rooms@[k]).spec_center(),
            ) by {
                lemma_reachable_monotone(m0, *map, c0, map.rooms@[k].spec_center());
            }
            lemma_reachable_trans(*map, c0, pc, nc);
            assert forall|k: int|
                0 <= k < map.rooms@.len() implies room_interior_floor(
                *map,
                #[trigger] map.rooms@[k],
            ) by {
                assert forall|a: int, b: int|
                    in_room_interior(map.rooms@[k], a, b) implies #[trigger] map.tile_at(a, b)
                    == TileType::Floor by {
                    assert(m0.tile_at(a, b) == TileType::Floor);
                }
            }
            assert forall|a: int, b: int|
                in_room_interior(new_room, a, b) implies #[trigger] map.tile_at(a, b)
                == TileType::Floor by {
                assert(m1.tile_at(a, b) == TileType::Floor);
            }
        }
    } else {
        proof {
            lemma_center_bounds(new_room.x1 as int, new_room.x2 as int);
            lemma_center_bounds(new_room.y1 as int, new_room.y2 as int);
            let nc = new_room.spec_center();
            assert(map.tile_at(nc.0, nc.1) == TileType::Floor);
            lemma_reachable_refl(*map, nc);
        }
    }
    let ghost m3 = *map;
    let ghost old_rooms = map.rooms@;
    map.rooms.push(new_room);
    proof {
        assert(map.rooms@ == old_rooms.push(new_room));
        lemma_border_walls_preserved(m3, *map);
        assert forall|k: int|
            0 <= k < map.rooms@.len() implies room_interior_floor(
            *map,
            #[trigger] map.rooms@[k],
        ) by {
            if k < old_rooms.len() {
                assert(room_interior_floor(m3, old_rooms[k]));
                assert forall|a: int, b: int|
                    in_room_interior(map.rooms@[k], a, b) implies #[trigger] map.tile_at(a, b)
                    == TileType::Floor by {
                    assert(m3.tile_at(a, b) == TileType::Floor);
                }
            } else {
                assert(map.rooms@[k] == new_room);
                assert(room_interior_floor(m3, new_room));
                assert forall|a: int, b: int|
                    in_room_interior(map.rooms@[k], a, b) implies #[trigger] map.tile_at(a, b)
                    == TileType::Floor by {
                    assert(m3.tile_at(a, b) == TileType::Floor);
                }
            }
        }
        assert forall|k: int|
            0 <= k < map.rooms@.len() implies reachable(
            *map,
            map.rooms@[0].spec_center(),
            (#[trigger] map.rooms@[k]).spec_center(),
        ) by {
            if old_rooms.len() == 0 {
                assert(map.rooms@[k] == new_room && map.rooms@[0] == new_room);
            } else {
                assert(map.rooms@[0] == old_rooms[0]);
                if k < old_rooms.len() {
                    assert(reachable(m3, old_rooms[0].spec_center(), old_rooms[k].spec_center()));
                }
            }
        }
    }
}

impl TileMap {
    /// Builds the dungeon: up to 30 placement attempts of random 6..=9
    /// sized rooms; a candidate overlapping an accepted room is rejected
    /// (the attempt is still consumed); each accepted room after the first
    /// is joined to the previously accepted one by an L-shaped corridor
    /// whose bend order is chosen at random. The first attempt always
    /// succeeds, so at least one room exists. Every accepted room lies
    /// fully inside the map border, no two accepted rooms overlap, every
    /// interior tile of every accepted room is floor and is reachable from
    /// the first room's center over floor tiles. All overlays start clear.
    #[verifier::rlimit(100)]
    pub fn new_map_rooms_and_corridors() -> (m: TileMap)
        ensures
            m.inv(),
            m.width == MAPWIDTH && m.height == MAPHEIGHT,
            1 <= m.rooms@.len() <= 30,
            border_walls(m),
            forall|k: int| 0 <= k < m.rooms@.len() ==> room_in_bounds(m, #[trigger] m.rooms@[k]),
            forall|k: int|
                0 <= k < m.rooms@.len() ==> room_interior_floor(m, #[trigger] m.rooms@[k]),
            forall|k1: int, k2: int|
                0 <= k1 < k2 < m.rooms@.len() ==> !rects_intersect(m.rooms@[k1], m.rooms@[k2]),
            forall|k: int, a: int, b: int|
                0 <= k < m.rooms@.len() && #[trigger] in_room_interior(m.rooms@[k], a, b)
                    ==> reachable(m, m.rooms@[0].spec_center(), (a, b)),
            overlays_clear(m),
    {
        let mut map = TileMap {
            tiles: filled_walls(MAPCOUNT),
            rooms: Vec::new(),
            width: MAPWIDTH,
            height: MAPHEIGHT,
            revealed_tiles: filled_bools(MAPCOUNT),
            visible_tiles: filled_bools(MAPCOUNT),
            blocked: filled_bools(MAPCOUNT),
            tile_content: empty_contents(MAPCOUNT),
        };
        let mut rng = rng_new();
        let mut attempt: usize = 0;
        while attempt < 30
            invariant
                map.inv(),
                map.width == MAPWIDTH && map.height == MAPHEIGHT,
                attempt <= 30,
                attempt >= 1 ==> map.rooms@.len() >= 1,
                map.rooms@.len() <= attempt,
                border_walls(map),
                forall|k: int|
                    0 <= k < map.rooms@.len() ==> room_in_bounds(map, #[trigger] map.rooms@[k]),
                forall|k: int|
                    0 <= k < map.rooms@.len() ==> room_interior_floor(
                        map,
                        #[trigger] map.rooms@[k],
                    ),
                forall|k1: int, k2: int|
                    0 <= k1 < k2 < map.rooms@.len() ==> !rects_intersect(
                        map.rooms@[k1],
                        map.rooms@[k2],
                    ),
                forall|k: int|
                    0 <= k < map.rooms@.len() ==> reachable(
                        map,
                        map.rooms@[0].spec_center(),
                        (#[trigger] map.rooms@[k]).spec_center(),
                    ),
                overlays_clear(map),
            decreases 30 - attempt,
        {
            let w = rng_range(&mut rng, 6, 10);
            let h = rng_range(&mut rng, 6, 10);
            let x = roll_dice(&mut rng, 1, MAPWIDTH - w - 1) - 1;
            let y = roll_dice(&mut rng, 1, MAPHEIGHT - h - 1) - 1;
            let new_room = Rect::new(x, y, w, h);
            let mut ok = true;
            let mut j: usize = 0;
            while j < map.rooms.len()
                invariant
                    j <= map.rooms@.len(),
                    ok <==> (forall|k: int|
                        0 <= k < j ==> !rects_intersect(new_room, #[trigger] map.rooms@[k])),
                decreases map.rooms@.len() - j,
            {
                let other = map.rooms[j];
                if new_room.intersect(&other) {
                    ok = false;
                }
                j += 1;
            }
            if ok {
                accept_room(&mut map, new_room, &mut rng);
            }
            attempt += 1;
        }
        proof {
            assert forall|k: int, a: int, b: int|
                0 <= k < map.rooms@.len() && #[trigger] in_room_interior(map.rooms@[k], a, b)
                    implies reachable(map, map.rooms@[0].spec_center(), (a, b)) by {
                let r = map.rooms@[k];
                let c = r.spec_center();
                lemma_center_bounds(r.x1 as int, r.x2 as int);
                lemma_center_bounds(r.y1 as int, r.y2 as int);
                assert forall|a2: int, b2: int|
                    r.x1 + 1 <= a2 <= r.x2 && r.y1 + 1 <= b2 <= r.y2 implies floor_point(
                    map,
                    (a2, b2),
                ) by {
                    assert(in_room_interior(r, a2, b2));
                    assert(map.tile_at(a2, b2) == TileType::Floor);
                }
                lemma_rect_reachable(
                    map,
                    r.x1 + 1,
                    r.x2 as int,
                    r.y1 + 1,
                    r.y2 as int,
                    c,
                    (a, b),
                );
                lemma_reachable_trans(map, map.rooms@[0].spec_center(), c, (a, b));
            }
        }
        map
    }
}

} // verus!
