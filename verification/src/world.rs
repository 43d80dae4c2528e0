//! The simulation context: the map plus an entity table. Entities are rows
//! of the table, referenced everywhere by their index — a weak handle that
//! never owns or extends a lifetime. Removal marks a row dead; indices
//! stay stable.

use crate::components::{CombatStats, Position, Renderable, Viewshed};
use crate::map::TileMap;
use vstd::prelude::*;

verus! {

/// One entity: its liveness, role flags, and optional components.
pub struct EntityRec {
    /// Dead rows are skipped by every system; the row itself stays.
    pub alive: bool,
    /// The designated player: defeated, it is notified, never removed.
    pub player: bool,
    /// A non-player actor driven by the monster turn.
    pub monster: bool,
    /// Occupies its tile exclusively for movement purposes.
    pub blocks_tile: bool,
    pub position: Option<Position>,
    pub viewshed: Option<Viewshed>,
    pub stats: Option<CombatStats>,
    pub renderable: Option<Renderable>,
    /// Transient melee intent: the target's entity index, cleared every
    /// tick by combat resolution.
    pub pending_melee: Option<usize>,
    /// Transient damage accumulator, summed and cleared every tick.
    pub pending_damage: Vec<i32>,
}

/// The simulation context handed by reference into each system.
pub struct World {
    pub map: TileMap,
    pub entities: Vec<EntityRec>,
    /// The shared player-position record kept for external collaborators.
    pub player_pos: Position,
}

impl World {
    /// Well-formedness of one entity row against this world.
    pub open spec fn wf_entity(self, e: EntityRec) -> bool {
        &&& (e.position matches Some(p) ==> self.map.spec_in_bounds(p.x as int, p.y as int))
        &&& (e.viewshed matches Some(v) ==> 0 <= v.range <= 4096)
        &&& (e.stats matches Some(s) ==> 0 <= s.power && 0 <= s.defense)
        &&& (e.pending_melee matches Some(t) ==> t < self.entities@.len())
        &&& forall|k: int|
            0 <= k < e.pending_damage@.len() ==> #[trigger] e.pending_damage@[k] >= 0
    }

    /// Well-formedness of the whole context: a sound map, every entity row
    /// well formed, at most one designated player, and every occupant
    /// handle in the tile index in range.
    pub open spec fn inv(self) -> bool {
        &&& self.map.inv()
        &&& self.map.spec_in_bounds(self.player_pos.x as int, self.player_pos.y as int)
        &&& forall|i: int|
            0 <= i < self.entities@.len() ==> self.wf_entity(#[trigger] self.entities@[i])
        &&& forall|i: int, j: int|
            0 <= i < self.entities@.len() && 0 <= j < self.entities@.len()
                && (#[trigger] self.entities@[i]).player && (#[trigger] self.entities@[j]).player
                ==> i == j
        &&& forall|t: int, k: int|
            0 <= t < self.map.tile_content@.len() && 0 <= k < self.map.tile_content@[t]@.len()
                ==> #[trigger] self.map.tile_content@[t]@[k] < self.entities@.len()
    }

    /// The index of the designated player row, when one exists.
    pub open spec fn spec_player(self) -> Option<int> {
        if exists|i: int| 0 <= i < self.entities@.len() && (#[trigger] self.entities@[i]).player {
            Some(choose|i: int|
                0 <= i < self.entities@.len() && (#[trigger] self.entities@[i]).player)
        } else {
            None
        }
    }

    /// An empty world over `map`.
    pub fn new(map: TileMap) -> (w: World)
        requires
            map.inv(),
            forall|t: int|
                0 <= t < map.tile_content@.len() ==> #[trigger] map.tile_content@[t]@
                    == Seq::<usize>::empty(),
        ensures
            w.inv(),
            w.map == map,
            w.entities@.len() == 0,
            w.player_pos == (Position { x: 0, y: 0 }),
    {
        World { map, entities: Vec::new(), player_pos: Position { x: 0, y: 0 } }
    }

    /// Appends an entity row and hands back its index.
    pub fn push_entity(&mut self, e: EntityRec) -> (id: usize)
        requires
            old(self).inv(),
            e.position matches Some(p) ==> old(self).map.spec_in_bounds(p.x as int, p.y as int),
            e.viewshed matches Some(v) ==> 0 <= v.range <= 4096,
            e.stats matches Some(s) ==> 0 <= s.power && 0 <= s.defense,
            e.pending_melee matches Some(t) ==> t < old(self).entities@.len(),
            forall|k: int| 0 <= k < e.pending_damage@.len() ==> #[trigger] e.pending_damage@[k] >= 0,
            e.player ==> forall|i: int|
                0 <= i < old(self).entities@.len() ==> !(#[trigger] old(self).entities@[i]).player,
        ensures
            final(self).inv(),
            final(self).entities@ == old(self).entities@.push(e),
            id == old(self).entities@.len(),
            final(self).map == old(self).map,
            final(self).player_pos == old(self).player_pos,
    {
        let id = self.entities.len();
        self.entities.push(e);
        proof {
            assert forall|i: int|
                0 <= i < self.entities@.len() implies self.wf_entity(
                #[trigger] self.entities@[i],
            ) by {
                if i < old(self).entities@.len() {
                    assert(old(self).wf_entity(old(self).entities@[i]));
                }
            }
        }
        id
    }

    /// The lowest-indexed live entity flagged as the player, if any.
    pub fn find_player(&self) -> (r: Option<usize>)
        requires
            self.inv(),
        ensures
            match r {
                Some(i) => i < self.entities@.len() && self.entities@[i as int].player,
                None => forall|i: int|
                    0 <= i < self.entities@.len() ==> !(#[trigger] self.entities@[i]).player,
            },
    {
        let n = self.entities.len();
        let mut i: usize = 0;
        while i < n
            invariant
                n == self.entities@.len(),
                i <= n,
                forall|j: int| 0 <= j < i ==> !(#[trigger] self.entities@[j]).player,
            decreases n - i,
        {
            if self.entities[i].player {
                return Some(i);
            }
            i += 1;
        }
        None
    }
}

} // verus!
