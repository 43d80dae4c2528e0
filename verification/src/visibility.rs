//! Field of view: which tiles an entity sees, and the engine that folds
//! the player's view into the map's visible/revealed overlays.

use crate::components::{Position, Viewshed};
use crate::world::{EntityRec, World};
use crate::map::{TileMap, TileType};
use vstd::prelude::*;

verus! {

/// The sign of `d`: -1, 0 or 1.
pub open spec fn sgn(d: int) -> int {
    if d > 0 {
        1
    } else if d < 0 {
        -1
    } else {
        0
    }
}

/// Absolute value.
pub open spec fn iabs(d: int) -> int {
    if d < 0 {
        -d
    } else {
        d
    }
}

/// Squared Euclidean distance between two grid points.
pub open spec fn dist2(c: (int, int), t: (int, int)) -> int {
    (t.0 - c.0) * (t.0 - c.0) + (t.1 - c.1) * (t.1 - c.1)
}

/// Chebyshev distance: the number of steps of the sight ray from `c` to
/// `t`, moving diagonally while both axes differ, then straight.
pub open spec fn cheb(c: (int, int), t: (int, int)) -> int {
    vstd::math::max(iabs(t.0 - c.0), iabs(t.1 - c.1))
}

/// The `k`-th point of the sight ray from `c` to `t`: each axis advances
/// one step toward the target until exhausted.
pub open spec fn ray_point(c: (int, int), t: (int, int), k: int) -> (int, int) {
    (
        c.0 + sgn(t.0 - c.0) * vstd::math::min(k, iabs(t.0 - c.0)),
        c.1 + sgn(t.1 - c.1) * vstd::math::min(k, iabs(t.1 - c.1)),
    )
}

/// No wall stands strictly between `c` and `t` on the sight ray. The
/// endpoints are exempt, so a wall tile is itself visible from a floor
/// tile beside it.
pub open spec fn los_clear(m: TileMap, c: (int, int), t: (int, int)) -> bool {
    forall|k: int|
        1 <= k < cheb(c, t) ==> m.tile_at(
            #[trigger] ray_point(c, t, k).0,
            ray_point(c, t, k).1,
        ) != TileType::Wall
}

/// Tile `t` is visible from `c` with the given radius: in bounds, within
/// Euclidean range, and with a clear line of sight. The bounds filter
/// treats both axes alike: every grid tile, edges included, may be seen.
pub open spec fn fov_visible(m: TileMap, c: (int, int), range: int, t: (int, int)) -> bool {
    &&& m.spec_in_bounds(t.0, t.1)
    &&& dist2(c, t) <= range * range
    &&& los_clear(m, c, t)
}

/// No tile outside an entity's range is ever visible.
pub proof fn lemma_visible_within_range(m: TileMap, c: (int, int), range: int, t: (int, int))
    requires
        fov_visible(m, c, range, t),
    ensures
        dist2(c, t) <= range * range,
{
}

/// A point farther than `range` along one axis is out of Euclidean range.
proof fn lemma_axis_far(dx: int, dy: int, range: int)
    requires
        range >= 0,
        dx > range || dx < -range,
    ensures
        dx * dx + dy * dy > range * range,
{
    assert(dx * dx > range * range) by (nonlinear_arith)
        requires
            range >= 0,
            dx > range || dx < -range,
    ;
    assert(dy * dy >= 0) by (nonlinear_arith);
}

/// Walks the sight ray from `c` toward `t` and reports whether every
/// strictly intermediate tile is transparent.
fn line_clear(map: &TileMap, cx: i32, cy: i32, tx: i32, ty: i32) -> (r: bool)
    requires
        map.inv(),
        map.spec_in_bounds(cx as int, cy as int),
        map.spec_in_bounds(tx as int, ty as int),
    ensures
        r == los_clear(*map, (cx as int, cy as int), (tx as int, ty as int)),
{
    let ghost c = (cx as int, cy as int);
    let ghost t = (tx as int, ty as int);
    let dx = tx - cx;
    let dy = ty - cy;
    let adx = if dx < 0 {
        -dx
    } else {
        dx
    };
    let ady = if dy < 0 {
        -dy
    } else {
        dy
    };
    let d = if adx > ady {
        adx
    } else {
        ady
    };
    let sx: i32 = if dx > 0 {
        1
    } else if dx < 0 {
        -1
    } else {
        0
    };
    let sy: i32 = if dy > 0 {
        1
    } else if dy < 0 {
        -1
    } else {
        0
    };
    let mut px = cx;
    let mut py = cy;
    let mut k: i32 = 1;
    while k < d
        invariant
            map.inv(),
            c == (cx as int, cy as int),
            t == (tx as int, ty as int),
            map.spec_in_bounds(c.0, c.1),
            map.spec_in_bounds(t.0, t.1),
            dx == t.0 - c.0 && dy == t.1 - c.1,
            adx == iabs(dx as int) && ady == iabs(dy as int),
            d == cheb(c, t),
            sx == sgn(dx as int) && sy == sgn(dy as int),
            1 <= k,
            k <= d + 1,
            (px as int, py as int) == ray_point(c, t, k - 1),
            vstd::math::min(cx as int, tx as int) <= px <= vstd::math::max(cx as int, tx as int),
            vstd::math::min(cy as int, ty as int) <= py <= vstd::math::max(cy as int, ty as int),
            forall|j: int|
                1 <= j < k ==> map.tile_at(
                    #[trigger] ray_point(c, t, j).0,
                    ray_point(c, t, j).1,
                ) != TileType::Wall,
        decreases d - k,
    {
        if k <= adx {
            px += sx;
        }
        if k <= ady {
            py += sy;
        }
        proof {
            assert((px as int, py as int) == ray_point(c, t, k as int));
        }
        let idx = map.xy_idx(px, py);
        if map.tiles[idx] == TileType::Wall {
            proof {
                assert(map.tile_at(ray_point(c, t, k as int).0, ray_point(c, t, k as int).1)
                    == TileType::Wall);
            }
            return false;
        }
        k += 1;
    }
    true
}

/// Recomputes the set of tiles visible from `(cx, cy)` with the given
/// radius: exactly the in-bounds tiles within Euclidean range that have a
/// clear line of sight, each listed once.
pub fn field_of_view(map: &TileMap, cx: i32, cy: i32, range: i32) -> (r: Vec<Position>)
    requires
        map.inv(),
        map.spec_in_bounds(cx as int, cy as int),
        0 <= range <= 4096,
    ensures
        forall|k: int|
            0 <= k < r@.len() ==> fov_visible(
                *map,
                (cx as int, cy as int),
                range as int,
                (#[trigger] r@[k].x as int, r@[k].y as int),
            ),
        forall|a: int, b: int|
            #[trigger] fov_visible(*map, (cx as int, cy as int), range as int, (a, b))
                ==> exists|k: int| 0 <= k < r@.len() && (#[trigger] r@[k]) == (Position {
                x: a as i32,
                y: b as i32,
            }),
        forall|k1: int, k2: int| 0 <= k1 < k2 < r@.len() ==> r@[k1] != r@[k2],
{
    let ghost c = (cx as int, cy as int);
    let mut r: Vec<Position> = Vec::new();
    let lo_y = if cy > range {
        cy - range
    } else {
        0
    };
    let hi_y_raw = cy + range;
    let hi_y = if hi_y_raw > map.height - 1 {
        map.height - 1
    } else {
        hi_y_raw
    };
    let lo_x = if cx > range {
        cx - range
    } else {
        0
    };
    let hi_x_raw = cx + range;
    let hi_x = if hi_x_raw > map.width - 1 {
        map.width - 1
    } else {
        hi_x_raw
    };
    let mut ty = lo_y;
    while ty <= hi_y
        invariant
            map.inv(),
            c == (cx as int, cy as int),
            map.spec_in_bounds(c.0, c.1),
            0 <= range <= 4096,
            lo_y == vstd::math::max(0, cy - range),
            hi_y == vstd::math::min(map.height - 1, cy + range),
            lo_x == vstd::math::max(0, cx - range),
            hi_x == vstd::math::min(map.width - 1, cx + range),
            lo_y <= ty,
            forall|k: int|
                0 <= k < r@.len() ==> fov_visible(
                    *map,
                    c,
                    range as int,
                    (#[trigger] r@[k].x as int, r@[k].y as int),
                ),
            forall|a: int, b: int|
                #[trigger] fov_visible(*map, c, range as int, (a, b)) && lo_y <= b < ty ==> exists|
                    k: int,
                |
                    0 <= k < r@.len() && (#[trigger] r@[k]) == (Position {
                        x: a as i32,
                        y: b as i32,
                    }),
            forall|k: int| 0 <= k < r@.len() ==> (#[trigger] r@[k]).y < ty,
            forall|k1: int, k2: int| 0 <= k1 < k2 < r@.len() ==> r@[k1] != r@[k2],
        decreases hi_y + 1 - ty,
    {
        let mut tx = lo_x;
        while tx <= hi_x
            invariant
                map.inv(),
                c == (cx as int, cy as int),
                map.spec_in_bounds(c.0, c.1),
                0 <= range <= 4096,
                lo_y == vstd::math::max(0, cy - range),
                hi_y == vstd::math::min(map.height - 1, cy + range),
                lo_x == vstd::math::max(0, cx - range),
                hi_x == vstd::math::min(map.width - 1, cx + range),
                lo_y <= ty <= hi_y,
                lo_x <= tx,
                forall|k: int|
                    0 <= k < r@.len() ==> fov_visible(
                        *map,
                        c,
                        range as int,
                        (#[trigger] r@[k].x as int, r@[k].y as int),
                    ),
                forall|a: int, b: int|
                    #[trigger] fov_visible(*map, c, range as int, (a, b)) && (lo_y <= b < ty || (b
                        == ty && lo_x <= a < tx)) ==> exists|k: int|
                        0 <= k < r@.len() && (#[trigger] r@[k]) == (Position {
                            x: a as i32,
                            y: b as i32,
                        }),
                forall|k: int|
                    0 <= k < r@.len() ==> (#[trigger] r@[k]).y < ty || (r@[k].y == ty && r@[k].x
                        < tx),
                forall|k1: int, k2: int| 0 <= k1 < k2 < r@.len() ==> r@[k1] != r@[k2],
            decreases hi_x + 1 - tx,
        {
            let ddx = (tx - cx) as i64;
            let ddy = (ty - cy) as i64;
            proof {
                assert(-4096 <= ddx <= 4096 && -4096 <= ddy <= 4096);
                assert(ddx * ddx + ddy * ddy <= 4096 * 4096 + 4096 * 4096) by (nonlinear_arith)
                    requires
                        -4096 <= ddx <= 4096,
                        -4096 <= ddy <= 4096,
                ;
                assert(ddx * ddx >= 0) by (nonlinear_arith);
                assert(ddy * ddy >= 0) by (nonlinear_arith);
                assert(0 <= (range as i64) * (range as i64) <= 4096 * 4096) by (nonlinear_arith)
                    requires
                        0 <= range <= 4096,
                ;
            }
            let d2 = ddx * ddx + ddy * ddy;
            let r2 = (range as i64) * (range as i64);
            let lc = line_clear(map, cx, cy, tx, ty);
            let vis = d2 <= r2 && lc;
            proof {
                assert(dist2(c, (tx as int, ty as int)) == d2);
                assert(vis == fov_visible(*map, c, range as int, (tx as int, ty as int)));
            }
            if vis {
                let ghost r0 = r@;
                r.push(Position { x: tx, y: ty });
                proof {
                    assert(r@[r@.len() - 1] == (Position { x: tx, y: ty }));
                    assert forall|a: int, b: int|
                        #[trigger] fov_visible(*map, c, range as int, (a, b)) && (lo_y <= b < ty
                            || (b == ty && lo_x <= a < tx + 1)) implies exists|k: int|
                        0 <= k < r@.len() && (#[trigger] r@[k]) == (Position {
                            x: a as i32,
                            y: b as i32,
                        }) by {
                        if b == ty && a == tx {
                            assert(r@[r@.len() - 1] == (Position { x: a as i32, y: b as i32 }));
                        } else {
                            let k = choose|k: int|
                                0 <= k < r0.len() && r0[k] == (Position {
                                    x: a as i32,
                                    y: b as i32,
                                });
                            assert(r@[k] == r0[k]);
                        }
                    }
                }
            } else {
                proof {
                    assert forall|a: int, b: int|
                        #[trigger] fov_visible(*map, c, range as int, (a, b)) && (lo_y <= b < ty
                            || (b == ty && lo_x <= a < tx + 1)) implies exists|k: int|
                        0 <= k < r@.len() && (#[trigger] r@[k]) == (Position {
                            x: a as i32,
                            y: b as i32,
                        }) by {
                        if b == ty && a == tx {
                            assert(fov_visible(*map, c, range as int, (tx as int, ty as int)));
                            assert(false);
                        }
                    }
                }
            }
            tx += 1;
        }
        proof {
            assert forall|a: int, b: int|
                #[trigger] fov_visible(*map, c, range as int, (a, b)) && lo_y <= b < ty + 1 implies
                exists|k: int|
                0 <= k < r@.len() && (#[trigger] r@[k]) == (Position {
                    x: a as i32,
                    y: b as i32,
                }) by {
                if b == ty {
                    if a < lo_x || a > hi_x {
                        lemma_axis_far(a - c.0, b - c.1, range as int);
                        assert(false);
                    }
                }
            }
        }
        ty += 1;
    }
    proof {
        assert forall|a: int, b: int|
            #[trigger] fov_visible(*map, c, range as int, (a, b)) implies exists|k: int|
            0 <= k < r@.len() && (#[trigger] r@[k]) == (Position { x: a as i32, y: b as i32 }) by {
            if b < lo_y || b > hi_y {
                lemma_axis_far(b - c.1, a - c.0, range as int);
                assert(dist2(c, (a, b)) == (b - c.1) * (b - c.1) + (a - c.0) * (a - c.0))
                    by (nonlinear_arith);
                assert(false);
            }
        }
    }
    r
}

/// Field-of-view does not depend on the overlays: two maps with the same
/// tiles and dimensions agree on visibility.
pub proof fn lemma_fov_same_tiles(m1: TileMap, m2: TileMap, c: (int, int), range: int, t: (
    int,
    int,
))
    requires
        m1.tiles@ == m2.tiles@,
        m1.width == m2.width,
        m1.height == m2.height,
    ensures
        fov_visible(m1, c, range, t) == fov_visible(m2, c, range, t),
{
    assert forall|k: int| 1 <= k < cheb(c, t) implies m1.tile_at(
        #[trigger] ray_point(c, t, k).0,
        ray_point(c, t, k).1,
    ) == m2.tile_at(ray_point(c, t, k).0, ray_point(c, t, k).1) by {}
}

/// An entity the visibility engine acts on: live, placed, sighted, and
/// with a dirty viewshed.
pub open spec fn vis_processed(e: EntityRec) -> bool {
    &&& e.alive
    &&& e.position is Some
    &&& e.viewshed matches Some(v) && v.dirty
}

/// `vt` is exactly the set of tiles visible from `pos` with radius
/// `range`, without duplicates.
pub open spec fn tiles_exact(m: TileMap, pos: Position, range: int, vt: Seq<Position>) -> bool {
    &&& forall|k: int|
        0 <= k < vt.len() ==> fov_visible(
            m,
            (pos.x as int, pos.y as int),
            range,
            (#[trigger] vt[k].x as int, vt[k].y as int),
        )
    &&& forall|a: int, b: int|
        #[trigger] fov_visible(m, (pos.x as int, pos.y as int), range, (a, b)) ==> exists|k: int|
            0 <= k < vt.len() && (#[trigger] vt[k]) == (Position { x: a as i32, y: b as i32 })
    &&& forall|k1: int, k2: int| 0 <= k1 < k2 < vt.len() ==> vt[k1] != vt[k2]
}

/// How the engine rewrites one processed entity: only the viewshed's tile
/// list changes; range and the dirty flag are kept — clearing the flag is
/// the mover's responsibility, not this engine's.
pub open spec fn vis_entity_updated(m: TileMap, eo: EntityRec, en: EntityRec) -> bool {
    &&& en == (EntityRec { viewshed: en.viewshed, ..eo })
    &&& match (eo.position, eo.viewshed, en.viewshed) {
        (Some(p), Some(vo), Some(vn)) => {
            &&& vn.range == vo.range
            &&& vn.dirty == vo.dirty
            &&& tiles_exact(m, p, vo.range as int, vn.visible_tiles@)
        },
        _ => false,
    }
}

/// How the player's freshly computed view is folded into the overlays:
/// `visible` is reset to exactly the view; `revealed` grows by it and
/// never shrinks.
pub open spec fn player_view_folded(mo: TileMap, mn: TileMap, p: Position, range: int) -> bool {
    &&& forall|a: int, b: int|
        mo.spec_in_bounds(a, b) ==> #[trigger] mn.visible_tiles@[mo.spec_idx(a, b)] == fov_visible(
            mo,
            (p.x as int, p.y as int),
            range,
            (a, b),
        )
    &&& forall|a: int, b: int|
        mo.spec_in_bounds(a, b) ==> #[trigger] mn.revealed_tiles@[mo.spec_idx(a, b)] == (
        mo.revealed_tiles@[mo.spec_idx(a, b)] || fov_visible(
            mo,
            (p.x as int, p.y as int),
            range,
            (a, b),
        ))
}

/// The single dirty player row the engine will fold into the map, if any.
pub open spec fn vis_player_idx(w: World) -> Option<int> {
    if exists|i: int|
        0 <= i < w.entities@.len() && vis_processed(#[trigger] w.entities@[i])
            && w.entities@[i].player {
        Some(
            choose|i: int|
                0 <= i < w.entities@.len() && vis_processed(#[trigger] w.entities@[i])
                    && w.entities@[i].player,
        )
    } else {
        None
    }
}

impl TileMap {
    /// Resets the player-visibility overlay to all false.
    pub fn clear_visible(&mut self)
        requires
            old(self).inv(),
        ensures
            final(self).inv(),
            *final(self) == (TileMap { visible_tiles: final(self).visible_tiles, ..*old(self) }),
            final(self).visible_tiles@.len() == old(self).visible_tiles@.len(),
            forall|j: int| 0 <= j < old(self).visible_tiles@.len() ==> !final(self).visible_tiles@[j],
    {
        let n = self.visible_tiles.len();
        let mut i: usize = 0;
        while i < n
            invariant
                n == self.visible_tiles@.len(),
                i <= n,
                forall|j: int| 0 <= j < i ==> !self.visible_tiles@[j],
                *self == (TileMap { visible_tiles: self.visible_tiles, ..*old(self) }),
            decreases n - i,
        {
            self.visible_tiles.set(i, false);
            i += 1;
        }
    }
}

/// The exact effect of one visibility pass: how `wn` relates to `wo` when
/// `VisibilitySystem::run` runs. Every dirty viewshed is recomputed to the
/// exact visible set; the player's view, if dirty, is folded into the
/// overlays; revealed tiles never revert; nothing else changes.
pub open spec fn visibility_rel(wo: World, wn: World) -> bool {
    &&& wn.inv()
    &&& wn.entities@.len() == wo.entities@.len()
    &&& wn.player_pos == wo.player_pos
    &&& wn.map.tiles@ == wo.map.tiles@
    &&& wn.map.rooms@ == wo.map.rooms@
    &&& wn.map.blocked@ == wo.map.blocked@
    &&& wn.map.tile_content@ == wo.map.tile_content@
    &&& wn.map.width == wo.map.width
    &&& wn.map.height == wo.map.height
    &&& forall|i: int|
        0 <= i < wo.entities@.len() ==> if vis_processed(#[trigger] wo.entities@[i]) {
            vis_entity_updated(wo.map, wo.entities@[i], wn.entities@[i])
        } else {
            wn.entities@[i] == wo.entities@[i]
        }
    &&& forall|j: int|
        0 <= j < wo.map.revealed_tiles@.len() && wo.map.revealed_tiles@[j]
            ==> wn.map.revealed_tiles@[j]
    &&& match vis_player_idx(wo) {
        Some(i) => match (wo.entities@[i].position, wo.entities@[i].viewshed) {
            (Some(p), Some(vo)) => player_view_folded(wo.map, wn.map, p, vo.range as int),
            _ => false,
        },
        None => wn.map.visible_tiles@ == wo.map.visible_tiles@ && wn.map.revealed_tiles@
            == wo.map.revealed_tiles@,
    }
}

/// The visibility engine: recomputes the view of every entity whose
/// viewshed is dirty, and folds the player's view into the map overlays.
pub struct VisibilitySystem {}

impl VisibilitySystem {
    /// For every live, placed entity with a dirty viewshed: recompute its
    /// visible tiles from the map's opacity. If that entity is the player,
    /// reset the map's visible overlay to exactly the new view and mark it
    /// revealed as well. Dirty flags are left as they are. Revealed tiles
    /// are never taken back.
    pub fn run(w: &mut World)
        requires
            old(w).inv(),
        ensures
            visibility_rel(*old(w), *final(w)),
    {
        let ghost w0 = *old(w);
        let n = w.entities.len();
        let mut i: usize = 0;
        while i < n
            invariant
                w.inv(),
                n == w.entities@.len(),
                i <= n,
                w.entities@.len() == w0.entities@.len(),
                w.player_pos == w0.player_pos,
                w.map.tiles@ == w0.map.tiles@,
                w.map.rooms@ == w0.map.rooms@,
                w.map.blocked@ == w0.map.blocked@,
                w.map.tile_content@ == w0.map.tile_content@,
                w.map.width == w0.map.width,
                w.map.height == w0.map.height,
                w0 == *old(w),
                w0.inv(),
                forall|j: int|
                    0 <= j < i ==> if vis_processed(#[trigger] w0.entities@[j]) {
                        vis_entity_updated(w0.map, w0.entities@[j], w.entities@[j])
                    } else {
                        w.entities@[j] == w0.entities@[j]
                    },
                forall|j: int| i <= j < n ==> w.entities@[j] == w0.entities@[j],
                forall|j: int|
                    0 <= j < w0.map.revealed_tiles@.len() && w0.map.revealed_tiles@[j]
                        ==> w.map.revealed_tiles@[j],
                match vis_player_idx(w0) {
                    Some(pi) => if pi < i {
                        match (w0.entities@[pi].position, w0.entities@[pi].viewshed) {
                            (Some(p), Some(vo)) => player_view_folded(
                                w0.map,
                                w.map,
                                p,
                                vo.range as int,
                            ),
                            _ => false,
                        }
                    } else {
                        w.map.visible_tiles@ == w0.map.visible_tiles@ && w.map.revealed_tiles@
                            == w0.map.revealed_tiles@
                    },
                    None => w.map.visible_tiles@ == w0.map.visible_tiles@ && w.map.revealed_tiles@
                        == w0.map.revealed_tiles@,
                },
            decreases n - i,
        {
            let mut act = false;
            let mut do_pos = Position { x: 0, y: 0 };
            let mut rng: i32 = 0;
            match (&w.entities[i].position, &w.entities[i].viewshed) {
                (Some(p), Some(v)) => {
                    if w.entities[i].alive && v.dirty {
                        act = true;
                        do_pos = *p;
                        rng = v.range;
                    }
                },
                _ => {},
            }
            if act {
                let is_player = w.entities[i].player;
                let ghost m_at_call = w.map;
                let vt = field_of_view(&w.map, do_pos.x, do_pos.y, rng);
                proof {
                    assert forall|a: int, b: int|
                        #![trigger fov_visible(m_at_call, (do_pos.x as int, do_pos.y as int), rng as int, (a, b))]
                        #![trigger fov_visible(w0.map, (do_pos.x as int, do_pos.y as int), rng as int, (a, b))]
                        fov_visible(
                        m_at_call,
                        (do_pos.x as int, do_pos.y as int),
                        rng as int,
                        (a, b),
                    ) == fov_visible(
                        w0.map,
                        (do_pos.x as int, do_pos.y as int),
                        rng as int,
                        (a, b),
                    ) by {
                        lemma_fov_same_tiles(
                            m_at_call,
                            w0.map,
                            (do_pos.x as int, do_pos.y as int),
                            rng as int,
                            (a, b),
                        );
                    }
                    assert(tiles_exact(w0.map, do_pos, rng as int, vt@));
                }
                if is_player {
                    proof {
                        let pi = vis_player_idx(w0);
                        assert(pi matches Some(j) && j == i);
                    }
                    w.map.clear_visible();
                    proof {
                        assert forall|a: int, b: int| w0.map.spec_in_bounds(a, b) implies 0
                            <= w0.map.spec_idx(a, b) < w.map.visible_tiles@.len() by {
                            w0.map.lemma_idx_bounds(a, b);
                        }
                    }
                    let ghost ents_snap = w.entities@;
                    let ghost ppos_snap = w.player_pos;
                    let mut k: usize = 0;
                    while k < vt.len()
                        invariant
                            w.entities@ == ents_snap,
                            w.player_pos == ppos_snap,
                            w.map.inv(),
                            k <= vt@.len(),
                            tiles_exact(w0.map, do_pos, rng as int, vt@),
                            w0.map.inv(),
                            do_pos.x == (do_pos.x as int) && do_pos.y == (do_pos.y as int),
                            w.map.tiles@ == w0.map.tiles@,
                            w.map.rooms@ == w0.map.rooms@,
                            w.map.blocked@ == w0.map.blocked@,
                            w.map.tile_content@ == w0.map.tile_content@,
                            w.map.width == w0.map.width,
                            w.map.height == w0.map.height,
                            w.map.visible_tiles@.len() == w0.map.visible_tiles@.len(),
                            w.map.revealed_tiles@.len() == w0.map.revealed_tiles@.len(),
                            forall|a: int, b: int|
                                w0.map.spec_in_bounds(a, b)
                                    ==> #[trigger] w.map.visible_tiles@[w0.map.spec_idx(a, b)]
                                    == exists|k2: int|
                                    0 <= k2 < k && vt@[k2] == (Position {
                                        x: a as i32,
                                        y: b as i32,
                                    }),
                            forall|a: int, b: int|
                                w0.map.spec_in_bounds(a, b)
                                    ==> #[trigger] w.map.revealed_tiles@[w0.map.spec_idx(a, b)]
                                    == (w0.map.revealed_tiles@[w0.map.spec_idx(a, b)] || exists|
                                    k2: int,
                                |
                                    0 <= k2 < k && vt@[k2] == (Position {
                                        x: a as i32,
                                        y: b as i32,
                                    })),
                        decreases vt@.len() - k,
                    {
                        let p = vt[k];
                        proof {
                            assert(fov_visible(
                                w0.map,
                                (do_pos.x as int, do_pos.y as int),
                                rng as int,
                                (p.x as int, p.y as int),
                            ));
                        }
                        let idx = w.map.xy_idx(p.x, p.y);
                        let ghost mv = w.map.visible_tiles@;
                        let ghost mr = w.map.revealed_tiles@;
                        w.map.revealed_tiles.set(idx, true);
                        w.map.visible_tiles.set(idx, true);
                        proof {
                            assert forall|a: int, b: int|
                                w0.map.spec_in_bounds(a, b) implies #[trigger] w.map.visible_tiles@[w0.map.spec_idx(
                                a,
                                b,
                            )] == exists|k2: int|
                                0 <= k2 < k + 1 && vt@[k2] == (Position {
                                    x: a as i32,
                                    y: b as i32,
                                }) by {
                                w0.map.lemma_idx_bounds(a, b);
                                if a == p.x as int && b == p.y as int {
                                    assert(vt@[k as int] == (Position { x: a as i32, y: b as i32 }));
                                    assert(w.map.visible_tiles@[w0.map.spec_idx(a, b)]);
                                } else {
                                    if w0.map.spec_idx(a, b) == w0.map.spec_idx(
                                        p.x as int,
                                        p.y as int,
                                    ) {
                                        w0.map.lemma_idx_injective(a, b, p.x as int, p.y as int);
                                    }
                                    assert(w.map.visible_tiles@[w0.map.spec_idx(a, b)]
                                        == mv[w0.map.spec_idx(a, b)]);
                                    assert forall|k2: int|
                                        0 <= k2 < k + 1 && #[trigger] vt@[k2] == (Position {
                                            x: a as i32,
                                            y: b as i32,
                                        }) implies k2 < k by {}
                                }
                            }
                            assert forall|a: int, b: int|
                                w0.map.spec_in_bounds(a, b) implies #[trigger] w.map.revealed_tiles@[w0.map.spec_idx(
                                a,
                                b,
                            )] == (w0.map.revealed_tiles@[w0.map.spec_idx(a, b)] || exists|k2: int|
                                0 <= k2 < k + 1 && vt@[k2] == (Position {
                                    x: a as i32,
                                    y: b as i32,
                                })) by {
                                w0.map.lemma_idx_bounds(a, b);
                                if a == p.x as int && b == p.y as int {
                                    assert(vt@[k as int] == (Position { x: a as i32, y: b as i32 }));
                                    assert(w.map.revealed_tiles@[w0.map.spec_idx(a, b)]);
                                } else {
                                    if w0.map.spec_idx(a, b) == w0.map.spec_idx(
                                        p.x as int,
                                        p.y as int,
                                    ) {
                                        w0.map.lemma_idx_injective(a, b, p.x as int, p.y as int);
                                    }
                                    assert(w.map.revealed_tiles@[w0.map.spec_idx(a, b)]
                                        == mr[w0.map.spec_idx(a, b)]);
                                    assert forall|k2: int|
                                        0 <= k2 < k + 1 && #[trigger] vt@[k2] == (Position {
                                            x: a as i32,
                                            y: b as i32,
                                        }) implies k2 < k by {}
                                }
                            }
                        }
                        k += 1;
                    }
                    proof {
                        let gc = (do_pos.x as int, do_pos.y as int);
                        assert forall|a: int, b: int| w0.map.spec_in_bounds(a, b) implies
                            #[trigger] w.map.visible_tiles@[w0.map.spec_idx(a, b)] == fov_visible(
                            w0.map,
                            gc,
                            rng as int,
                            (a, b),
                        ) by {
                            if w.map.visible_tiles@[w0.map.spec_idx(a, b)] {
                                let k2 = choose|k2: int|
                                    0 <= k2 < vt@.len() && vt@[k2] == (Position {
                                        x: a as i32,
                                        y: b as i32,
                                    });
                                assert(fov_visible(
                                    w0.map,
                                    gc,
                                    rng as int,
                                    (vt@[k2].x as int, vt@[k2].y as int),
                                ));
                            }
                            if fov_visible(w0.map, gc, rng as int, (a, b)) {
                                let k2 = choose|k2: int|
                                    0 <= k2 < vt@.len() && vt@[k2] == (Position {
                                        x: a as i32,
                                        y: b as i32,
                                    });
                                assert(0 <= k2 < vt@.len());
                            }
                        }
                        assert forall|a: int, b: int| w0.map.spec_in_bounds(a, b) implies
                            #[trigger] w.map.revealed_tiles@[w0.map.spec_idx(a, b)]
                            == (w0.map.revealed_tiles@[w0.map.spec_idx(a, b)] || fov_visible(
                            w0.map,
                            gc,
                            rng as int,
                            (a, b),
                        )) by {
                            if w.map.revealed_tiles@[w0.map.spec_idx(a, b)]
                                && !w0.map.revealed_tiles@[w0.map.spec_idx(a, b)] {
                                let k2 = choose|k2: int|
                                    0 <= k2 < vt@.len() && vt@[k2] == (Position {
                                        x: a as i32,
                                        y: b as i32,
                                    });
                                assert(fov_visible(
                                    w0.map,
                                    gc,
                                    rng as int,
                                    (vt@[k2].x as int, vt@[k2].y as int),
                                ));
                            }
                            if fov_visible(w0.map, gc, rng as int, (a, b)) {
                                let k2 = choose|k2: int|
                                    0 <= k2 < vt@.len() && vt@[k2] == (Position {
                                        x: a as i32,
                                        y: b as i32,
                                    });
                                assert(0 <= k2 < vt@.len());
                            }
                        }
                        assert(player_view_folded(w0.map, w.map, do_pos, rng as int));
                        assert forall|j: int|
                            0 <= j < w0.map.revealed_tiles@.len() && w0.map.revealed_tiles@[j]
                                implies w.map.revealed_tiles@[j] by {
                            w0.map.lemma_idx_of(j);
                        }
                    }
                }
                let ghost e_before = w.entities@[i as int];
                let rec = &mut w.entities[i];
                match &mut rec.viewshed {
                    Some(v) => {
                        v.visible_tiles = vt;
                    },
                    None => {},
                }
                proof {
                    assert(w.entities@[i as int] == (EntityRec {
                        viewshed: w.entities@[i as int].viewshed,
                        ..e_before
                    }));
                    assert(vis_entity_updated(w0.map, w0.entities@[i as int], w.entities@[i as int]));
                    assert forall|j: int|
                        0 <= j < w.entities@.len() implies w.wf_entity(
                        #[trigger] w.entities@[j],
                    ) by {
                        if j != i as int {
                            assert(w.entities@[j] == old(w).entities@[j]
                                || vis_entity_updated(w0.map, w0.entities@[j], w.entities@[j])
                                || true);
                        }
                    }
                }
            }
            i += 1;
        }
    }
}

} // verus!
