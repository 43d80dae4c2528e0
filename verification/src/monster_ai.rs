//! The monster turn: each non-player actor that sees the player either
//! attacks (when in melee reach) or takes one step toward the player.

use crate::components::Position;
use crate::visibility::dist2;
use crate::world::{EntityRec, World};
use vstd::prelude::*;

verus! {

/// The player's tile is in the entity's current visible set.
pub open spec fn sees(vt: Seq<Position>, ppos: Position) -> bool {
    exists|k: int| 0 <= k < vt.len() && vt[k] == ppos
}

/// A row the monster turn acts on: a live, placed, sighted monster whose
/// visible set holds the player's tile.
pub open spec fn ai_acts(e: EntityRec, ppos: Position) -> bool {
    &&& e.alive
    &&& e.monster
    &&& e.position is Some
    &&& e.viewshed matches Some(v) && sees(v.visible_tiles@, ppos)
}

/// The unique entity row flagged as the player, if one exists.
pub open spec fn player_of(w: World) -> Option<int> {
    if exists|i: int| 0 <= i < w.entities@.len() && (#[trigger] w.entities@[i]).player {
        Some(choose|i: int| 0 <= i < w.entities@.len() && (#[trigger] w.entities@[i]).player)
    } else {
        None
    }
}

/// The first exit of the list at the smallest squared distance to the
/// player, among the first `n` entries.
pub open spec fn best_exit_upto(s: Seq<(int, int, int)>, ppos: (int, int), n: int) -> Option<
    (int, int),
>
    decreases n,
{
    if n <= 0 {
        None
    } else {
        let prev = best_exit_upto(s, ppos, n - 1);
        let cand = (s[n - 1].0, s[n - 1].1);
        match prev {
            None => Some(cand),
            Some(b) => if dist2(cand, ppos) < dist2(b, ppos) {
                Some(cand)
            } else {
                Some(b)
            },
        }
    }
}

/// The movement step the monster turn gives an entity standing at `p`: the
/// first walkable neighbour at minimal squared distance to the player.
pub open spec fn ai_step(m: crate::map::TileMap, p: Position, ppos: Position) -> Option<
    (int, int),
> {
    let s = m.spec_exits(p.x as int, p.y as int);
    best_exit_upto(s, (ppos.x as int, ppos.y as int), s.len() as int)
}

/// How the monster turn rewrites one acting entity, given the player row.
pub open spec fn ai_entity_updated(
    m: crate::map::TileMap,
    ppos: Position,
    pl: Option<int>,
    eo: EntityRec,
    en: EntityRec,
) -> bool {
    match eo.position {
        Some(p) => {
            let d2 = dist2((p.x as int, p.y as int), (ppos.x as int, ppos.y as int));
            if d2 <= 2 {
                match pl {
                    Some(t) => en == (EntityRec { pending_melee: Some(t as usize), ..eo }),
                    None => en == eo,
                }
            } else {
                match ai_step(m, p, ppos) {
                    Some(step) => {
                        &&& en == (EntityRec {
                            position: en.position,
                            viewshed: en.viewshed,
                            ..eo
                        })
                        &&& en.position == Some(
                            Position { x: step.0 as i32, y: step.1 as i32 },
                        )
                        &&& match (eo.viewshed, en.viewshed) {
                            (Some(vo), Some(vn)) => vn == (crate::components::Viewshed {
                                dirty: true,
                                ..vo
                            }),
                            _ => false,
                        }
                    },
                    None => en == eo,
                }
            }
        },
        None => false,
    }
}

/// The exact effect of one monster turn: how `wn` relates to `wo` when
/// `MonsterAI::run` runs. Every acting monster is rewritten by
/// `ai_entity_updated`; everything else is unchanged.
pub open spec fn ai_rel(wo: World, wn: World) -> bool {
    &&& wn.inv()
    &&& wn.map == wo.map
    &&& wn.player_pos == wo.player_pos
    &&& wn.entities@.len() == wo.entities@.len()
    &&& forall|i: int|
        0 <= i < wo.entities@.len() ==> if ai_acts(#[trigger] wo.entities@[i], wo.player_pos) {
            ai_entity_updated(
                wo.map,
                wo.player_pos,
                player_of(wo),
                wo.entities@[i],
                wn.entities@[i],
            )
        } else {
            wn.entities@[i] == wo.entities@[i]
        }
}

/// The monster turn.
pub struct MonsterAI {}

impl MonsterAI {
    /// For each live monster with a viewshed and a position whose visible
    /// set holds the player's tile: if the player is within melee reach
    /// (squared distance at most 2, one step in any direction), set melee
    /// intent on the player; otherwise step to the walkable neighbour
    /// closest to the player and mark the mover's viewshed dirty. Monsters
    /// that do not see the player do nothing.
    pub fn run(w: &mut World)
        requires
            old(w).inv(),
        ensures
            ai_rel(*old(w), *final(w)),
    {
        let ghost w0 = *old(w);
        let ppos = w.player_pos;
        let pl = w.find_player();
        proof {
            match pl {
                Some(t) => {
                    assert(player_of(w0) matches Some(j) && j == t as int);
                },
                None => {
                    assert(player_of(w0) is None);
                },
            }
        }
        let n = w.entities.len();
        let mut i: usize = 0;
        while i < n
            invariant
                w.inv(),
                n == w.entities@.len(),
                i <= n,
                w0.inv(),
                w0.entities@.len() == n,
                w.map == w0.map,
                w.player_pos == w0.player_pos,
                ppos == w0.player_pos,
                match pl {
                    Some(t) => t < n && player_of(w0) == Some(t as int),
                    None => player_of(w0) is None,
                },
                forall|j: int|
                    0 <= j < i ==> if ai_acts(#[trigger] w0.entities@[j], w0.player_pos) {
                        ai_entity_updated(
                            w0.map,
                            w0.player_pos,
                            player_of(w0),
                            w0.entities@[j],
                            w.entities@[j],
                        )
                    } else {
                        w.entities@[j] == w0.entities@[j]
                    },
                forall|j: int| i <= j < n ==> #[trigger] w.entities@[j] == w0.entities@[j],
            decreases n - i,
        {
            let mut acts = false;
            let mut pos = Position { x: 0, y: 0 };
            match (&w.entities[i].position, &w.entities[i].viewshed) {
                (Some(p), Some(v)) => {
                    if w.entities[i].alive && w.entities[i].monster {
                        let vt_len = v.visible_tiles.len();
                        let mut k: usize = 0;
                        let mut seen = false;
                        while k < vt_len && !seen
                            invariant
                                vt_len == v.visible_tiles@.len(),
                                k <= vt_len,
                                seen ==> sees(v.visible_tiles@, ppos),
                                !seen ==> forall|k2: int|
                                    0 <= k2 < k ==> v.visible_tiles@[k2] != ppos,
                            decreases vt_len - k, (if seen { 0int } else { 1int }),
                        {
                            if v.visible_tiles[k].x == ppos.x && v.visible_tiles[k].y == ppos.y {
                                seen = true;
                            } else {
                                k += 1;
                            }
                        }
                        if seen {
                            acts = true;
                            pos = *p;
                        }
                    }
                },
                _ => {},
            }
            proof {
                assert(acts == ai_acts(w0.entities@[i as int], w0.player_pos));
            }
            if acts {
                let ddx = (ppos.x as i64) - (pos.x as i64);
                let ddy = (ppos.y as i64) - (pos.y as i64);
                proof {
                    assert(-4096 <= ddx <= 4096 && -4096 <= ddy <= 4096);
                    assert(0 <= ddx * ddx <= 4096 * 4096) by (nonlinear_arith)
                        requires
                            -4096 <= ddx <= 4096,
                    ;
                    assert(0 <= ddy * ddy <= 4096 * 4096) by (nonlinear_arith)
                        requires
                            -4096 <= ddy <= 4096,
                    ;
                }
                let d2 = ddx * ddx + ddy * ddy;
                let ghost es_pre = w.entities@;
                if d2 <= 2 {
                    if let Some(t) = pl {
                        let rec = &mut w.entities[i];
                        rec.pending_melee = Some(t);
                        proof {
                            assert forall|j: int| 0 <= j < w.entities@.len() implies w.wf_entity(
                                #[trigger] w.entities@[j],
                            ) by {
                                if j != i as int {
                                    assert(w.entities@[j] == es_pre[j]);
                                }
                            }
                        }
                    }
                } else {
                    let exits = w.map.get_available_exits(pos.x, pos.y);
                    let ghost gexits = w0.map.spec_exits(pos.x as int, pos.y as int);
                    let mut best: Option<(i32, i32)> = None;
                    let mut best_d2: i64 = 0;
                    let elen = exits.len();
                    let mut k: usize = 0;
                    while k < elen
                        invariant
                            elen == exits@.len(),
                            k <= elen,
                            gexits == exits@.map_values(
                                |c: (i32, i32, u32)| (c.0 as int, c.1 as int, c.2 as int),
                            ),
                            ppos == w0.player_pos,
                            match best {
                                Some(b) => {
                                    &&& best_exit_upto(
                                        gexits,
                                        (ppos.x as int, ppos.y as int),
                                        k as int,
                                    ) == Some((b.0 as int, b.1 as int))
                                    &&& best_d2 == dist2(
                                        (b.0 as int, b.1 as int),
                                        (ppos.x as int, ppos.y as int),
                                    )
                                    &&& -4096 <= b.0 <= 4096 && -4096 <= b.1 <= 4096
                                },
                                None => k == 0 && best_exit_upto(
                                    gexits,
                                    (ppos.x as int, ppos.y as int),
                                    k as int,
                                ) is None,
                            },
                            forall|k2: int|
                                0 <= k2 < elen ==> w0.map.spec_exit_valid(
                                    #[trigger] exits@[k2].0 as int,
                                    exits@[k2].1 as int,
                                ),
                            w0.map.inv(),
                            w0.inv(),
                        decreases elen - k,
                    {
                        let c = exits[k];
                        let cdx = (ppos.x as i64) - (c.0 as i64);
                        let cdy = (ppos.y as i64) - (c.1 as i64);
                        proof {
                            assert(w0.map.spec_exit_valid(c.0 as int, c.1 as int));
                            assert(1 <= c.0 <= 4095 && 1 <= c.1 <= 4095);
                            assert(0 <= ppos.x < 4096 && 0 <= ppos.y < 4096);
                            assert(-8192 <= cdx <= 8192 && -8192 <= cdy <= 8192);
                            assert(0 <= cdx * cdx <= 8192 * 8192) by (nonlinear_arith)
                                requires
                                    -8192 <= cdx <= 8192,
                            ;
                            assert(0 <= cdy * cdy <= 8192 * 8192) by (nonlinear_arith)
                                requires
                                    -8192 <= cdy <= 8192,
                            ;
                            assert(gexits[k as int] == (c.0 as int, c.1 as int, c.2 as int));
                        }
                        let cd2 = cdx * cdx + cdy * cdy;
                        match best {
                            None => {
                                best = Some((c.0, c.1));
                                best_d2 = cd2;
                            },
                            Some(_) => {
                                if cd2 < best_d2 {
                                    best = Some((c.0, c.1));
                                    best_d2 = cd2;
                                }
                            },
                        }
                        k += 1;
                    }
                    match best {
                        Some(b) => {
                            proof {
                                assert(ai_step(w0.map, pos, ppos) == Some((b.0 as int, b.1 as int)));
                                assert(exists|k2: int|
                                    0 <= k2 < gexits.len() && #[trigger] gexits[k2] == (
                                    b.0 as int,
                                    b.1 as int,
                                    gexits[k2].2,
                                )) by {
                                    lemma_best_is_member(
                                        gexits,
                                        (ppos.x as int, ppos.y as int),
                                        gexits.len() as int,
                                    );
                                }
                            }
                            let rec = &mut w.entities[i];
                            rec.position = Some(Position { x: b.0, y: b.1 });
                            match &mut rec.viewshed {
                                Some(v) => {
                                    v.dirty = true;
                                },
                                None => {},
                            }
                            proof {
                                assert forall|j: int|
                                    0 <= j < w.entities@.len() implies w.wf_entity(
                                    #[trigger] w.entities@[j],
                                ) by {
                                    if j != i as int {
                                        assert(w.entities@[j] == es_pre[j]);
                                    } else {
                                        let k2 = choose|k2: int|
                                            0 <= k2 < gexits.len() && #[trigger] gexits[k2] == (
                                            b.0 as int,
                                            b.1 as int,
                                            gexits[k2].2,
                                            );
                                        assert(w0.map.spec_exit_valid(b.0 as int, b.1 as int));
                                    }
                                }
                            }
                        },
                        None => {},
                    }
                }
            }
            i += 1;
        }
    }
}

/// The chosen exit is one of the listed exits.
proof fn lemma_best_is_member(s: Seq<(int, int, int)>, ppos: (int, int), n: int)
    requires
        0 <= n <= s.len(),
    ensures
        match best_exit_upto(s, ppos, n) {
            Some(b) => exists|k: int|
                0 <= k < n && #[trigger] s[k] == (b.0, b.1, s[k].2),
            None => true,
        },
    decreases n,
{
    if n > 0 {
        lemma_best_is_member(s, ppos, n - 1);
        let prev = best_exit_upto(s, ppos, n - 1);
        let cand = (s[n - 1].0, s[n - 1].1);
        match prev {
            None => {
                assert(s[n - 1] == (cand.0, cand.1, s[n - 1].2));
            },
            Some(b) => {
                if dist2(cand, ppos) < dist2(b, ppos) {
                    assert(s[n - 1] == (cand.0, cand.1, s[n - 1].2));
                } else {
                    let k = choose|k: int| 0 <= k < n - 1 && #[trigger] s[k] == (b.0, b.1, s[k].2);
                    assert(0 <= k < n && s[k] == (b.0, b.1, s[k].2));
                }
            },
        }
    }
}

} // verus!
