//! Player movement and melee intent: validates a step against bounds and
//! blocking, and converts collisions with combat-capable occupants into
//! melee intent.

use crate::components::{Position, Viewshed};
use crate::world::{EntityRec, World};
use vstd::prelude::*;

verus! {

/// A row the movement entry point acts on: the live, placed, sighted
/// player.
pub open spec fn mover_rec(e: EntityRec) -> bool {
    e.alive && e.player && e.position is Some && e.viewshed is Some
}

/// The index of the movable player row, if any (unique: the world holds at
/// most one player).
pub open spec fn mover_idx(w: World) -> Option<int> {
    if exists|i: int| 0 <= i < w.entities@.len() && mover_rec(#[trigger] w.entities@[i]) {
        Some(choose|i: int| 0 <= i < w.entities@.len() && mover_rec(#[trigger] w.entities@[i]))
    } else {
        None
    }
}

/// The last occupant of the examined tile that carries combat stats — the
/// single-valued melee intent keeps only the last qualifying occupant.
pub open spec fn last_combat_target(es: Seq<EntityRec>, content: Seq<usize>) -> Option<usize>
    decreases content.len(),
{
    if content.len() == 0 {
        None
    } else {
        let t = content.last();
        if t < es.len() && es[t as int].alive && es[t as int].stats is Some {
            Some(t)
        } else {
            last_combat_target(es, content.drop_last())
        }
    }
}

/// Whether the step's destination lies inside the walkable interior.
pub open spec fn dest_in_interior(w: World, x: int, y: int) -> bool {
    1 <= x <= w.map.width - 1 && 1 <= y <= w.map.height - 1
}

/// The exact effect of one movement attempt with step `(dx, dy)`: how
/// `wn` relates to `wo` when `try_move_player` runs. With no movable
/// player, or a destination outside the interior, nothing changes. With a
/// destination inside the interior, the last combat-capable occupant of
/// the destination tile (per the last indexer pass) becomes the player's
/// melee intent; and when the destination is not blocked, the player moves
/// there, its viewshed turns dirty, and the shared position record
/// follows. A blocked destination leaves position, dirty flag and the
/// position record untouched.
pub open spec fn move_rel(dx0: int, dy0: int, wo: World, wn: World) -> bool {
    &&& wn.inv()
    &&& wn.entities@.len() == wo.entities@.len()
    &&& wn.map == wo.map
    &&& match mover_idx(wo) {
        None => wn == wo,
        Some(pi) => match wo.entities@[pi].position {
            Some(p) => {
                let dx = p.x + dx0;
                let dy = p.y + dy0;
                if !dest_in_interior(wo, dx, dy) {
                    wn == wo
                } else {
                    let j = wo.map.spec_idx(dx, dy);
                    let tgt = last_combat_target(wo.entities@, wo.map.tile_content@[j]@);
                    let moved = !wo.map.blocked@[j];
                    &&& forall|i: int|
                        0 <= i < wo.entities@.len() && i != pi ==> #[trigger] wn.entities@[i]
                            == wo.entities@[i]
                    &&& wn.entities@[pi].pending_melee == (if tgt is Some {
                        tgt
                    } else {
                        wo.entities@[pi].pending_melee
                    })
                    &&& wn.entities@[pi] == (EntityRec {
                        pending_melee: wn.entities@[pi].pending_melee,
                        position: wn.entities@[pi].position,
                        viewshed: wn.entities@[pi].viewshed,
                        ..wo.entities@[pi]
                    })
                    &&& if moved {
                        &&& wn.entities@[pi].position == Some(
                            Position { x: dx as i32, y: dy as i32 },
                        )
                        &&& match (wo.entities@[pi].viewshed, wn.entities@[pi].viewshed) {
                            (Some(vo), Some(vn)) => vn == (Viewshed { dirty: true, ..vo }),
                            _ => false,
                        }
                        &&& wn.player_pos == (Position { x: dx as i32, y: dy as i32 })
                    } else {
                        &&& wn.entities@[pi].position == wo.entities@[pi].position
                        &&& wn.entities@[pi].viewshed == wo.entities@[pi].viewshed
                        &&& wn.player_pos == wo.player_pos
                    }
                }
            },
            None => false,
        },
    }
}

/// Attempts to move the player by `(delta_x, delta_y)`; the new world is
/// exactly the `move_rel` image of the old one.
pub fn try_move_player(delta_x: i32, delta_y: i32, w: &mut World)
    requires
        old(w).inv(),
    ensures
        move_rel(delta_x as int, delta_y as int, *old(w), *final(w)),
{
    let n = w.entities.len();
    let mut pi: usize = 0;
    let mut found = false;
    while pi < n && !found
        invariant
            w.inv(),
            n == w.entities@.len(),
            pi <= n,
            found ==> pi < n && mover_rec(w.entities@[pi as int]),
            !found ==> forall|j: int| 0 <= j < pi ==> !mover_rec(#[trigger] w.entities@[j]),
        decreases n - pi, (if found { 0int } else { 1int }),
    {
        let e = &w.entities[pi];
        if e.alive && e.player && e.position.is_some() && e.viewshed.is_some() {
            found = true;
        } else {
            pi += 1;
        }
    }
    if !found || pi >= n {
        proof {
            assert(mover_idx(*w) is None);
        }
        return ;
    }
    proof {
        assert(mover_rec(w.entities@[pi as int]));
        assert(mover_idx(*w) matches Some(j) && j == pi as int);
    }
    let p = match &w.entities[pi].position {
        Some(p) => *p,
        None => Position { x: 0, y: 0 },
    };
    let dx64 = (p.x as i64) + (delta_x as i64);
    let dy64 = (p.y as i64) + (delta_y as i64);
    if dx64 < 1 || dx64 > (w.map.width - 1) as i64 || dy64 < 1 || dy64 > (w.map.height - 1) as i64 {
        return ;
    }
    let dx = dx64 as i32;
    let dy = dy64 as i32;
    let dest_idx = w.map.xy_idx(dx, dy);
    let mut tgt: Option<usize> = None;
    let content_len = w.map.tile_content[dest_idx].len();
    let ghost content = w.map.tile_content@[dest_idx as int]@;
    let mut k: usize = 0;
    while k < content_len
        invariant
            w.inv(),
            n == w.entities@.len(),
            pi < n,
            dest_idx < w.map.tile_content@.len(),
            content == w.map.tile_content@[dest_idx as int]@,
            content_len == content.len(),
            k <= content_len,
            tgt == last_combat_target(w.entities@, content.take(k as int)),
            tgt matches Some(t) ==> t < n,
        decreases content_len - k,
    {
        let occ = w.map.tile_content[dest_idx][k];
        proof {
            assert(content.take(k + 1).drop_last() == content.take(k as int));
            assert(content.take(k + 1).last() == content[k as int]);
        }
        if occ < n {
            let orec = &w.entities[occ];
            if orec.alive && orec.stats.is_some() {
                tgt = Some(occ);
            }
        }
        k += 1;
    }
    proof {
        assert(content.take(content_len as int) == content);
    }
    let blocked = w.map.blocked[dest_idx];
    let ghost w_pre = *w;
    let rec = &mut w.entities[pi];
    if let Some(t) = tgt {
        rec.pending_melee = Some(t);
    }
    if !blocked {
        rec.position = Some(Position { x: dx, y: dy });
        match &mut rec.viewshed {
            Some(v) => {
                v.dirty = true;
            },
            None => {},
        }
    }
    proof {
        assert forall|i: int| 0 <= i < w.entities@.len() implies w.wf_entity(
            #[trigger] w.entities@[i],
        ) by {
            if i != pi as int {
                assert(w.entities@[i] == w_pre.entities@[i]);
                assert(w_pre.wf_entity(w_pre.entities@[i]));
            } else {
                assert(w_pre.wf_entity(w_pre.entities@[i]));
            }
        }
    }
    if !blocked {
        w.player_pos = Position { x: dx, y: dy };
    }
}

} // verus!
