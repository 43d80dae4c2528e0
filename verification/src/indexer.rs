//! The spatial indexer: rebuilds the map's blocking flags and per-tile
//! occupant lists from live entity positions, once per tick, before combat
//! resolution reads any occupancy data.

use crate::map::{TileMap, TileType};
use crate::world::{EntityRec, World};
use vstd::prelude::*;

verus! {

/// Entity `e` stands on flat tile `j`.
pub open spec fn entity_at(e: EntityRec, m: TileMap, j: int) -> bool {
    e.alive && (e.position matches Some(p) && m.spec_idx(p.x as int, p.y as int) == j)
}

/// What `blocked[j]` must be after an indexer pass: a wall, or some live
/// blocking entity standing there.
pub open spec fn blocked_spec(w: World, j: int) -> bool {
    ||| w.map.tiles@[j] == TileType::Wall
    ||| exists|i: int|
        0 <= i < w.entities@.len() && entity_at(#[trigger] w.entities@[i], w.map, j)
            && w.entities@[i].blocks_tile
}

/// The occupants of tile `j` among the first `n` entities, in entity-index
/// order.
pub open spec fn content_upto(es: Seq<EntityRec>, m: TileMap, j: int, n: int) -> Seq<usize>
    decreases n,
{
    if n <= 0 {
        Seq::empty()
    } else {
        let prev = content_upto(es, m, j, n - 1);
        if entity_at(es[n - 1], m, j) {
            prev.push((n - 1) as usize)
        } else {
            prev
        }
    }
}

/// What `tile_content[j]` must be after an indexer pass.
pub open spec fn content_spec(w: World, j: int) -> Seq<usize> {
    content_upto(w.entities@, w.map, j, w.entities@.len() as int)
}

/// The world's occupancy index is exactly the one an indexer pass
/// computes from its entities and tiles.
pub open spec fn indexed(w: World) -> bool {
    &&& forall|j: int| 0 <= j < w.map.blocked@.len() ==> #[trigger] w.map.blocked@[j] == blocked_spec(w, j)
    &&& forall|j: int|
        0 <= j < w.map.tile_content@.len() ==> #[trigger] w.map.tile_content@[j]@ == content_spec(
            w,
            j,
        )
}

/// The occupant lists depend only on the entities, the tiles and the grid
/// width.
proof fn lemma_content_upto_same(es: Seq<EntityRec>, m1: TileMap, m2: TileMap, j: int, n: int)
    requires
        m1.width == m2.width,
    ensures
        content_upto(es, m1, j, n) == content_upto(es, m2, j, n),
    decreases n,
{
    if n > 0 {
        lemma_content_upto_same(es, m1, m2, j, n - 1);
    }
}

/// Indexer idempotence: two worlds with the same entities and the same
/// tiles whose indices were both rebuilt carry identical `blocked` and
/// occupant-list state. Running the indexer twice with no intervening
/// movement therefore changes nothing the second time.
pub proof fn lemma_indexer_idempotent(w1: World, w2: World)
    requires
        w1.inv(),
        w2.inv(),
        w2.entities@ == w1.entities@,
        w2.map.tiles@ == w1.map.tiles@,
        w2.map.width == w1.map.width,
        w2.map.height == w1.map.height,
        indexed(w1),
        indexed(w2),
    ensures
        w2.map.blocked@ == w1.map.blocked@,
        forall|j: int|
            0 <= j < w1.map.tile_content@.len() ==> #[trigger] w2.map.tile_content@[j]@
                == w1.map.tile_content@[j]@,
    {
    assert forall|j: int| 0 <= j < w1.map.blocked@.len() implies w2.map.blocked@[j]
        == w1.map.blocked@[j] by {
        assert(blocked_spec(w1, j) == blocked_spec(w2, j)) by {
            if blocked_spec(w1, j) && w1.map.tiles@[j] != TileType::Wall {
                let i = choose|i: int|
                    0 <= i < w1.entities@.len() && entity_at(#[trigger] w1.entities@[i], w1.map, j)
                        && w1.entities@[i].blocks_tile;
                assert(entity_at(w2.entities@[i], w2.map, j));
            }
            if blocked_spec(w2, j) && w2.map.tiles@[j] != TileType::Wall {
                let i = choose|i: int|
                    0 <= i < w2.entities@.len() && entity_at(#[trigger] w2.entities@[i], w2.map, j)
                        && w2.entities@[i].blocks_tile;
                assert(entity_at(w1.entities@[i], w1.map, j));
            }
        }
    }
    assert(w2.map.blocked@ =~= w1.map.blocked@);
    assert forall|j: int| 0 <= j < w1.map.tile_content@.len() implies #[trigger] w2.map.tile_content@[j]@
        == w1.map.tile_content@[j]@ by {
        lemma_content_upto_same(w1.entities@, w1.map, w2.map, j, w1.entities@.len() as int);
    }
}

/// The exact effect of one indexer pass: how `wn` relates to `wo` when
/// `MapIndexingSystem::run` runs. Entities, tiles and player overlays are
/// untouched; `blocked` and `tile_content` are rebuilt to exactly
/// `blocked_spec` and `content_spec`.
pub open spec fn indexer_rel(wo: World, wn: World) -> bool {
    &&& wn.inv()
    &&& wn.entities@ == wo.entities@
    &&& wn.player_pos == wo.player_pos
    &&& wn.map.tiles@ == wo.map.tiles@
    &&& wn.map.rooms@ == wo.map.rooms@
    &&& wn.map.revealed_tiles@ == wo.map.revealed_tiles@
    &&& wn.map.visible_tiles@ == wo.map.visible_tiles@
    &&& wn.map.width == wo.map.width
    &&& wn.map.height == wo.map.height
    &&& wn.map.blocked@.len() == wo.map.blocked@.len()
    &&& wn.map.tile_content@.len() == wo.map.tile_content@.len()
    &&& indexed(wn)
}

/// The spatial indexer. Its output is fully stale before a pass and fully
/// authoritative right after, until the next entity movement.
pub struct MapIndexingSystem {}

impl MapIndexingSystem {
    /// Recomputes `blocked` purely from the wall/floor classification,
    /// clears every occupant list, then walks the live placed entities in
    /// index order, appending each to its tile's occupant list and marking
    /// the tile blocked if the entity blocks movement.
    pub fn run(w: &mut World)
        requires
            old(w).inv(),
        ensures
            indexer_rel(*old(w), *final(w)),
    {
        let ghost w0 = *old(w);
        w.map.populate_blocked();
        w.map.clear_content_index();
        let n = w.entities.len();
        let mut i: usize = 0;
        while i < n
            invariant
                w.inv(),
                n == w.entities@.len(),
                i <= n,
                w.entities@ == w0.entities@,
                w.player_pos == w0.player_pos,
                w.map.tiles@ == w0.map.tiles@,
                w.map.rooms@ == w0.map.rooms@,
                w.map.revealed_tiles@ == w0.map.revealed_tiles@,
                w.map.visible_tiles@ == w0.map.visible_tiles@,
                w.map.width == w0.map.width,
                w.map.height == w0.map.height,
                w.map.blocked@.len() == w0.map.blocked@.len(),
                w.map.tile_content@.len() == w0.map.tile_content@.len(),
                w0.inv(),
                forall|j: int|
                    0 <= j < w.map.blocked@.len() ==> #[trigger] w.map.blocked@[j] == (
                    w.map.tiles@[j] == TileType::Wall || exists|i2: int|
                        0 <= i2 < i && entity_at(#[trigger] w.entities@[i2], w.map, j)
                            && w.entities@[i2].blocks_tile),
                forall|j: int|
                    0 <= j < w.map.tile_content@.len() ==> #[trigger] w.map.tile_content@[j]@
                        == content_upto(w.entities@, w.map, j, i as int),
            decreases n - i,
        {
            let mut has_pos = false;
            let mut pos = crate::components::Position { x: 0, y: 0 };
            match &w.entities[i].position {
                Some(p) => {
                    if w.entities[i].alive {
                        has_pos = true;
                        pos = *p;
                    }
                },
                None => {},
            }
            if has_pos {
                let idx = w.map.xy_idx(pos.x, pos.y);
                let ghost m_entry = w.map;
                let ghost mb = w.map.blocked@;
                let ghost mc = w.map.tile_content@;
                if w.entities[i].blocks_tile {
                    w.map.blocked.set(idx, true);
                }
                let slot = &mut w.map.tile_content[idx];
                slot.push(i);
                proof {
                    assert(w.map.tile_content@ == mc.update(
                        idx as int,
                        w.map.tile_content@[idx as int],
                    ));
                    assert(w.map.tile_content@[idx as int]@ == mc[idx as int]@.push(i));
                    assert(entity_at(w.entities@[i as int], w.map, idx as int));
                    assert forall|j: int| 0 <= j < w.map.blocked@.len() implies #[trigger] w.map.blocked@[j]
                        == (w.map.tiles@[j] == TileType::Wall || exists|i2: int|
                        0 <= i2 < i + 1 && entity_at(#[trigger] w.entities@[i2], w.map, j)
                            && w.entities@[i2].blocks_tile) by {
                        if j == idx as int && w.entities@[i as int].blocks_tile {
                            assert(w.map.blocked@[j]);
                            assert(entity_at(w.entities@[i as int], w.map, j));
                        } else {
                            assert(w.map.blocked@[j] == mb[j]);
                            assert forall|i2: int|
                                0 <= i2 < i + 1 && entity_at(
                                    #[trigger] w.entities@[i2],
                                    w.map,
                                    j,
                                ) && w.entities@[i2].blocks_tile implies i2 < i by {}
                        }
                    }
                    assert forall|j: int| 0 <= j < w.map.tile_content@.len() implies
                        #[trigger] w.map.tile_content@[j]@ == content_upto(
                        w.entities@,
                        w.map,
                        j,
                        i + 1,
                    ) by {
                        lemma_content_upto_same(w.entities@, m_entry, w.map, j, i as int);
                        if j == idx as int {
                            assert(content_upto(w.entities@, w.map, j, i + 1) == content_upto(
                                w.entities@,
                                w.map,
                                j,
                                i as int,
                            ).push(i));
                        } else {
                            assert(!entity_at(w.entities@[i as int], w.map, j));
                            assert(content_upto(w.entities@, w.map, j, i + 1) == content_upto(
                                w.entities@,
                                w.map,
                                j,
                                i as int,
                            ));
                            assert(w.map.tile_content@[j]@ == mc[j]@);
                        }
                    }
                    assert forall|t: int, k: int|
                        0 <= t < w.map.tile_content@.len() && 0 <= k
                            < w.map.tile_content@[t]@.len() implies
                        #[trigger] w.map.tile_content@[t]@[k] < w.entities@.len() by {
                        if t == idx as int && k == w.map.tile_content@[t]@.len() - 1 {
                        } else {
                            assert(w.map.tile_content@[t]@[k] == mc[t]@[k]);
                        }
                    }
                }
            } else {
                proof {
                    assert(!entity_at(w.entities@[i as int], w.map, 0));
                    assert forall|j: int| 0 <= j < w.map.tile_content@.len() implies
                        #[trigger] w.map.tile_content@[j]@ == content_upto(
                        w.entities@,
                        w.map,
                        j,
                        i + 1,
                    ) by {
                        assert(!entity_at(w.entities@[i as int], w.map, j));
                    }
                    assert forall|j: int| 0 <= j < w.map.blocked@.len() implies #[trigger] w.map.blocked@[j]
                        == (w.map.tiles@[j] == TileType::Wall || exists|i2: int|
                        0 <= i2 < i + 1 && entity_at(#[trigger] w.entities@[i2], w.map, j)
                            && w.entities@[i2].blocks_tile) by {
                        assert forall|i2: int|
                            0 <= i2 < i + 1 && entity_at(#[trigger] w.entities@[i2], w.map, j)
                                && w.entities@[i2].blocks_tile implies i2 < i by {
                            assert(!entity_at(w.entities@[i as int], w.map, j));
                        }
                    }
                }
            }
            i += 1;
        }
    }
}

} // verus!
