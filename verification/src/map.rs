//! The tile grid: wall/floor classification, revealed/visible overlays,
//! blocking flags, and per-tile occupant lists.

use vstd::prelude::*;

verus! {

/// Classification of a single tile.
#[derive(Clone, Copy, PartialEq, Eq, Structural, Debug)]
pub enum TileType {
    Wall,
    Floor,
}

/// The dungeon map. Tiles are stored in a flat array indexed `y*width + x`.
///
/// `revealed_tiles` and `visible_tiles` are parallel overlays for the player
/// viewpoint; `blocked` is derived from walls plus blocking occupants by the
/// spatial indexer; `tile_content` lists the entities standing on each tile,
/// as weak index-based handles rebuilt once per tick — it is valid only
/// between an indexer pass and the next entity movement.
pub struct TileMap {
    pub tiles: Vec<TileType>,
    pub rooms: Vec<crate::rect::Rect>,
    pub width: i32,
    pub height: i32,
    pub revealed_tiles: Vec<bool>,
    pub visible_tiles: Vec<bool>,
    pub blocked: Vec<bool>,
    pub tile_content: Vec<Vec<usize>>,
}

impl TileMap {
    /// Well-formedness: positive bounded dimensions, all parallel arrays of
    /// length `width * height`, and the player overlays consistent (a tile
    /// currently visible is always already revealed).
    pub open spec fn inv(self) -> bool {
        &&& 0 < self.width <= 4096
        &&& 0 < self.height <= 4096
        &&& self.tiles@.len() == self.width * self.height
        &&& self.revealed_tiles@.len() == self.tiles@.len()
        &&& self.visible_tiles@.len() == self.tiles@.len()
        &&& self.blocked@.len() == self.tiles@.len()
        &&& self.tile_content@.len() == self.tiles@.len()
        &&& forall|i: int|
            0 <= i < self.tiles@.len() && self.visible_tiles@[i] ==> self.revealed_tiles@[i]
    }

    /// Whether `(x, y)` lies on the grid.
    pub open spec fn spec_in_bounds(self, x: int, y: int) -> bool {
        0 <= x < self.width && 0 <= y < self.height
    }

    /// The flat index of `(x, y)`.
    pub open spec fn spec_idx(self, x: int, y: int) -> int {
        y * self.width + x
    }

    /// An in-bounds coordinate maps to an index inside the tile array.
    pub proof fn lemma_idx_bounds(self, x: int, y: int)
        requires
            self.inv(),
            self.spec_in_bounds(x, y),
        ensures
            0 <= self.spec_idx(x, y) < self.tiles@.len(),
            self.spec_idx(x, y) < 4096 * 4096,
    {
        assert(0 <= y * self.width + x < self.width * self.height) by (nonlinear_arith)
            requires
                0 <= x < self.width,
                0 <= y < self.height,
                0 < self.width,
        ;
        assert(y * self.width + x < 4096 * 4096) by (nonlinear_arith)
            requires
                0 <= x < self.width <= 4096,
                0 <= y < self.height <= 4096,
        ;
    }

    /// Distinct in-bounds coordinates map to distinct flat indices.
    pub proof fn lemma_idx_injective(self, x1: int, y1: int, x2: int, y2: int)
        requires
            self.inv(),
            self.spec_in_bounds(x1, y1),
            self.spec_in_bounds(x2, y2),
            self.spec_idx(x1, y1) == self.spec_idx(x2, y2),
        ensures
            x1 == x2 && y1 == y2,
    {
        assert(x1 == x2 && y1 == y2) by (nonlinear_arith)
            requires
                0 <= x1 < self.width,
                0 <= y1 < self.height,
                0 <= x2 < self.width,
                0 <= y2 < self.height,
                y1 * self.width + x1 == y2 * self.width + x2,
        ;
    }

    /// Every flat index comes from exactly one in-bounds coordinate pair.
    pub proof fn lemma_idx_of(self, j: int)
        requires
            self.inv(),
            0 <= j < self.tiles@.len(),
        ensures
            self.spec_in_bounds(j % (self.width as int), j / (self.width as int)),
            self.spec_idx(j % (self.width as int), j / (self.width as int)) == j,
    {
        let w = self.width as int;
        let h = self.height as int;
        assert(0 <= j % w < w && 0 <= j / w < h && (j / w) * w + j % w == j) by (nonlinear_arith)
            requires
                0 < w,
                0 < h,
                0 <= j < w * h,
        ;
    }

    /// Converts grid coordinates to the flat tile-array index.
    pub fn xy_idx(&self, x: i32, y: i32) -> (idx: usize)
        requires
            self.inv(),
            self.spec_in_bounds(x as int, y as int),
        ensures
            idx == self.spec_idx(x as int, y as int),
            idx < self.tiles@.len(),
    {
        proof {
            self.lemma_idx_bounds(x as int, y as int);
        }
        (y as usize) * (self.width as usize) + (x as usize)
    }

    /// The map's dimensions, `(width, height)`.
    pub fn dimensions(&self) -> (d: (i32, i32))
        ensures
            d.0 == self.width && d.1 == self.height,
    {
        (self.width, self.height)
    }

    /// Opacity predicate consumed by the field-of-view engine: a tile
    /// blocks sight exactly when it is a wall.
    pub fn is_opaque(&self, idx: usize) -> (r: bool)
        requires
            self.inv(),
            idx < self.tiles@.len(),
        ensures
            r == (self.tiles@[idx as int] == TileType::Wall),
    {
        self.tiles[idx] == TileType::Wall
    }

    /// Recomputes `blocked` purely from the wall/floor classification.
    pub fn populate_blocked(&mut self)
        requires
            old(self).inv(),
        ensures
            final(self).inv(),
            final(self).blocked@.len() == old(self).blocked@.len(),
            forall|i: int|
                0 <= i < old(self).tiles@.len() ==> final(self).blocked@[i] == (old(
                    self,
                ).tiles@[i] == TileType::Wall),
            *final(self) == (TileMap { blocked: final(self).blocked, ..*old(self) }),
    {
        let n = self.tiles.len();
        let mut i: usize = 0;
        while i < n
            invariant
                n == self.tiles@.len(),
                self.blocked@.len() == n,
                i <= n,
                forall|j: int| 0 <= j < i ==> self.blocked@[j] == (self.tiles@[j] == TileType::Wall),
                *self == (TileMap { blocked: self.blocked, ..*old(self) }),
            decreases n - i,
        {
            let b = self.tiles[i] == TileType::Wall;
            self.blocked.set(i, b);
            i += 1;
        }
    }

    /// Empties every per-tile occupant list.
    pub fn clear_content_index(&mut self)
        requires
            old(self).inv(),
        ensures
            final(self).inv(),
            final(self).tile_content@.len() == old(self).tile_content@.len(),
            forall|i: int|
                0 <= i < old(self).tile_content@.len() ==> final(self).tile_content@[i]@
                    == Seq::<usize>::empty(),
            *final(self) == (TileMap { tile_content: final(self).tile_content, ..*old(self) }),
    {
        let n = self.tile_content.len();
        let mut i: usize = 0;
        while i < n
            invariant
                n == self.tile_content@.len(),
                i <= n,
                forall|j: int| 0 <= j < i ==> self.tile_content@[j]@ == Seq::<usize>::empty(),
                *self == (TileMap { tile_content: self.tile_content, ..*old(self) }),
            decreases n - i,
        {
            let slot = &mut self.tile_content[i];
            slot.clear();
            i += 1;
        }
    }

    /// The tile at `(x, y)`.
    pub open spec fn tile_at(self, x: int, y: int) -> TileType {
        self.tiles@[self.spec_idx(x, y)]
    }

    /// Carving changes the tile array alone; every other field is kept.
    pub open spec fn same_but_tiles(self, other: TileMap) -> bool {
        self == (TileMap { tiles: self.tiles, ..other })
    }

    /// Sets every tile of the row `y` with `lo <= x <= hi` to `Floor`;
    /// all other tiles and all other fields are unchanged.
    fn carve_row(&mut self, lo: i32, hi: i32, y: i32)
        requires
            old(self).inv(),
            0 <= lo,
            hi < old(self).width,
            0 <= y < old(self).height,
        ensures
            final(self).inv(),
            final(self).same_but_tiles(*old(self)),
            final(self).tiles@.len() == old(self).tiles@.len(),
            forall|a: int, b: int|
                old(self).spec_in_bounds(a, b) ==> final(self).tile_at(a, b) == (if b == y && lo
                    <= a <= hi {
                    TileType::Floor
                } else {
                    old(self).tile_at(a, b)
                }),
    {
        let mut x = lo;
        while x <= hi
            invariant
                self.inv(),
                self.same_but_tiles(*old(self)),
                self.tiles@.len() == old(self).tiles@.len(),
                self.width == old(self).width,
                self.height == old(self).height,
                0 <= lo <= x,
                hi < self.width,
                0 <= y < self.height,
                forall|a: int, b: int|
                    old(self).spec_in_bounds(a, b) ==> self.tile_at(a, b) == (if b == y && lo <= a
                        < x && a <= hi {
                        TileType::Floor
                    } else {
                        old(self).tile_at(a, b)
                    }),
            decreases hi + 1 - x,
        {
            let idx = self.xy_idx(x, y);
            let ghost prev = *self;
            self.tiles.set(idx, TileType::Floor);
            proof {
                assert forall|a: int, b: int|
                    old(self).spec_in_bounds(a, b) && !(b == y && lo <= a <= x) implies
                    self.tile_at(a, b) == prev.tile_at(a, b) by {
                    if prev.spec_idx(a, b) == prev.spec_idx(x as int, y as int) {
                        prev.lemma_idx_injective(a, b, x as int, y as int);
                    } else {
                        prev.lemma_idx_bounds(a, b);
                    }
                }
            }
            x += 1;
        }
    }

    /// Sets every tile of the column `x` with `lo <= y <= hi` to `Floor`;
    /// all other tiles and all other fields are unchanged.
    fn carve_column(&mut self, lo: i32, hi: i32, x: i32)
        requires
            old(self).inv(),
            0 <= lo,
            hi < old(self).height,
            0 <= x < old(self).width,
        ensures
            final(self).inv(),
            final(self).same_but_tiles(*old(self)),
            final(self).tiles@.len() == old(self).tiles@.len(),
            forall|a: int, b: int|
                old(self).spec_in_bounds(a, b) ==> final(self).tile_at(a, b) == (if a == x && lo
                    <= b <= hi {
                    TileType::Floor
                } else {
                    old(self).tile_at(a, b)
                }),
    {
        let mut y = lo;
        while y <= hi
            invariant
                self.inv(),
                self.same_but_tiles(*old(self)),
                self.tiles@.len() == old(self).tiles@.len(),
                self.width == old(self).width,
                self.height == old(self).height,
                0 <= lo <= y,
                hi < self.height,
                0 <= x < self.width,
                forall|a: int, b: int|
                    old(self).spec_in_bounds(a, b) ==> self.tile_at(a, b) == (if a == x && lo <= b
                        < y && b <= hi {
                        TileType::Floor
                    } else {
                        old(self).tile_at(a, b)
                    }),
            decreases hi + 1 - y,
        {
            let idx = self.xy_idx(x, y);
            let ghost prev = *self;
            self.tiles.set(idx, TileType::Floor);
            proof {
                assert forall|a: int, b: int|
                    old(self).spec_in_bounds(a, b) && !(a == x && lo <= b <= y) implies
                    self.tile_at(a, b) == prev.tile_at(a, b) by {
                    if prev.spec_idx(a, b) == prev.spec_idx(x as int, y as int) {
                        prev.lemma_idx_injective(a, b, x as int, y as int);
                    } else {
                        prev.lemma_idx_bounds(a, b);
                    }
                }
                assert forall|a: int, b: int| old(self).spec_in_bounds(a, b) implies self.tile_at(
                    a,
                    b,
                ) == (if a == x && lo <= b < y + 1 && b <= hi {
                    TileType::Floor
                } else {
                    old(self).tile_at(a, b)
                }) by {
                    if a == x && lo <= b < y + 1 && b <= hi {
                        prev.lemma_idx_bounds(a, b);
                        if b < y {
                            assert(prev.tile_at(a, b) == TileType::Floor);
                        }
                    }
                }
            }
            y += 1;
        }
    }

    /// Carves the interior of `room` to floor. The interior excludes the
    /// rectangle's own top and left edge, so neighbouring rooms keep a wall
    /// between them.
    pub fn apply_room_to_map(&mut self, room: &crate::rect::Rect)
        requires
            old(self).inv(),
            0 <= room.x1 <= room.x2,
            room.x2 < old(self).width,
            0 <= room.y1 <= room.y2,
            room.y2 < old(self).height,
        ensures
            final(self).inv(),
            final(self).same_but_tiles(*old(self)),
            final(self).tiles@.len() == old(self).tiles@.len(),
            forall|a: int, b: int|
                old(self).spec_in_bounds(a, b) ==> final(self).tile_at(a, b) == (if room.x1 < a
                    <= room.x2 && room.y1 < b <= room.y2 {
                    TileType::Floor
                } else {
                    old(self).tile_at(a, b)
                }),
    {
        let mut y = room.y1 + 1;
        while y <= room.y2
            invariant
                self.inv(),
                self.same_but_tiles(*old(self)),
                self.tiles@.len() == old(self).tiles@.len(),
                self.width == old(self).width,
                self.height == old(self).height,
                room.y1 + 1 <= y,
                0 <= room.x1 <= room.x2,
                room.x2 < self.width,
                0 <= room.y1 <= room.y2,
                room.y2 < self.height,
                forall|a: int, b: int|
                    old(self).spec_in_bounds(a, b) ==> self.tile_at(a, b) == (if room.x1 < a
                        <= room.x2 && room.y1 < b < y && b <= room.y2 {
                        TileType::Floor
                    } else {
                        old(self).tile_at(a, b)
                    }),
            decreases room.y2 + 1 - y,
        {
            let ghost before = *self;
            self.carve_row(room.x1 + 1, room.x2, y);
            proof {
                assert forall|a: int, b: int| old(self).spec_in_bounds(a, b) implies self.tile_at(
                    a,
                    b,
                ) == (if room.x1 < a <= room.x2 && room.y1 < b < y + 1 && b <= room.y2 {
                    TileType::Floor
                } else {
                    old(self).tile_at(a, b)
                }) by {
                    assert(self.tile_at(a, b) == (if b == y && room.x1 + 1 <= a <= room.x2 {
                        TileType::Floor
                    } else {
                        before.tile_at(a, b)
                    }));
                }
            }
            y += 1;
        }
    }

    /// Carves an east-west corridor at row `y` between columns `x1` and
    /// `x2` (either order).
    pub fn apply_horizontal_tunnel(&mut self, x1: i32, x2: i32, y: i32)
        requires
            old(self).inv(),
            0 <= x1 < old(self).width,
            0 <= x2 < old(self).width,
            0 <= y < old(self).height,
        ensures
            final(self).inv(),
            final(self).same_but_tiles(*old(self)),
            final(self).tiles@.len() == old(self).tiles@.len(),
            forall|a: int, b: int|
                old(self).spec_in_bounds(a, b) ==> final(self).tile_at(a, b) == (if b == y
                    && vstd::math::min(x1 as int, x2 as int) <= a <= vstd::math::max(
                    x1 as int,
                    x2 as int,
                ) {
                    TileType::Floor
                } else {
                    old(self).tile_at(a, b)
                }),
    {
        let lo = if x1 <= x2 {
            x1
        } else {
            x2
        };
        let hi = if x1 <= x2 {
            x2
        } else {
            x1
        };
        self.carve_row(lo, hi, y);
    }

    /// Carves a north-south corridor at column `x` between rows `y1` and
    /// `y2` (either order).
    pub fn apply_vertical_tunnel(&mut self, y1: i32, y2: i32, x: i32)
        requires
            old(self).inv(),
            0 <= y1 < old(self).height,
            0 <= y2 < old(self).height,
            0 <= x < old(self).width,
        ensures
            final(self).inv(),
            final(self).same_but_tiles(*old(self)),
            final(self).tiles@.len() == old(self).tiles@.len(),
            forall|a: int, b: int|
                old(self).spec_in_bounds(a, b) ==> final(self).tile_at(a, b) == (if a == x
                    && vstd::math::min(y1 as int, y2 as int) <= b <= vstd::math::max(
                    y1 as int,
                    y2 as int,
                ) {
                    TileType::Floor
                } else {
                    old(self).tile_at(a, b)
                }),
    {
        let lo = if y1 <= y2 {
            y1
        } else {
            y2
        };
        let hi = if y1 <= y2 {
            y2
        } else {
            y1
        };
        self.carve_column(lo, hi, x);
    }

    /// Whether `(x, y)` can be stepped onto: strictly inside the playable
    /// area and not blocked (by a wall or by a blocking occupant, as of the
    /// last indexer pass).
    pub open spec fn spec_exit_valid(self, x: int, y: int) -> bool {
        &&& 1 <= x <= self.width - 1
        &&& 1 <= y <= self.height - 1
        &&& !self.blocked@[self.spec_idx(x, y)]
    }

    fn is_exit_valid(&self, x: i32, y: i32) -> (r: bool)
        requires
            self.inv(),
        ensures
            r == self.spec_exit_valid(x as int, y as int),
    {
        if x < 1 || x > self.width - 1 || y < 1 || y > self.height - 1 {
            return false;
        }
        let idx = self.xy_idx(x, y);
        proof {
            assert(self.blocked@.len() == self.tiles@.len());
        }
        !self.blocked[idx]
    }

    /// The walkable neighbours of `(x, y)` with their movement cost, in a
    /// fixed order: the four cardinal steps (cost 100), then the four
    /// diagonal steps (cost 145). Costs are in hundredths of a tile.
    pub open spec fn spec_exits(self, x: int, y: int) -> Seq<(int, int, int)> {
        let cands = seq![
            (x - 1, y, 100int),
            (x + 1, y, 100int),
            (x, y - 1, 100int),
            (x, y + 1, 100int),
            (x - 1, y - 1, 145int),
            (x + 1, y - 1, 145int),
            (x - 1, y + 1, 145int),
            (x + 1, y + 1, 145int),
        ];
        cands.filter(|c: (int, int, int)| self.spec_exit_valid(c.0, c.1))
    }

    /// Lists the tiles an entity standing at `(x, y)` may step to, each with
    /// its cost: the pathing-cost query consumed by the movement step of the
    /// monster turn.
    pub fn get_available_exits(&self, x: i32, y: i32) -> (r: Vec<(i32, i32, u32)>)
        requires
            self.inv(),
            self.spec_in_bounds(x as int, y as int),
        ensures
            r@.map_values(|c: (i32, i32, u32)| (c.0 as int, c.1 as int, c.2 as int))
                == self.spec_exits(x as int, y as int),
            forall|k: int|
                0 <= k < r@.len() ==> self.spec_exit_valid(r@[k].0 as int, r@[k].1 as int),
    {
        let mut r: Vec<(i32, i32, u32)> = Vec::new();
        let cands: [(i32, i32, u32); 8] = [
            (x - 1, y, 100),
            (x + 1, y, 100),
            (x, y - 1, 100),
            (x, y + 1, 100),
            (x - 1, y - 1, 145),
            (x + 1, y - 1, 145),
            (x - 1, y + 1, 145),
            (x + 1, y + 1, 145),
        ];
        let ghost gcands = seq![
            (x - 1int, y as int, 100int),
            (x + 1int, y as int, 100int),
            (x as int, y - 1int, 100int),
            (x as int, y + 1int, 100int),
            (x - 1int, y - 1int, 145int),
            (x + 1int, y - 1int, 145int),
            (x - 1int, y + 1int, 145int),
            (x + 1int, y + 1int, 145int),
        ];
        let mut i: usize = 0;
        while i < 8
            invariant
                self.inv(),
                i <= 8,
                gcands.len() == 8,
                forall|k: int|
                    0 <= k < 8 ==> gcands[k] == (cands@[k].0 as int, cands@[k].1 as int, cands@[k].2 as int),
                r@.map_values(|c: (i32, i32, u32)| (c.0 as int, c.1 as int, c.2 as int))
                    == gcands.take(i as int).filter(
                    |c: (int, int, int)| self.spec_exit_valid(c.0, c.1),
                ),
                forall|k: int|
                    0 <= k < r@.len() ==> self.spec_exit_valid(r@[k].0 as int, r@[k].1 as int),
            decreases 8 - i,
        {
            let ghost prefix = gcands.take(i as int);
            let c = cands[i];
            if self.is_exit_valid(c.0, c.1) {
                r.push(c);
            }
            proof {
                assert(gcands.take(i + 1) == prefix.push(gcands[i as int]));
                reveal_with_fuel(Seq::filter, 2);
                assert(prefix.push(gcands[i as int]).drop_last() == prefix);
            }
            i += 1;
        }
        proof {
            assert(gcands.take(8) == self.spec_exits(x as int, y as int).subrange(
                0,
                0,
            ).add(gcands));
            assert(gcands.take(8) == gcands);
        }
        r
    }

    /// The squared Euclidean distance between two tiles, the integer
    /// measure used in place of a fractional pathing distance.
    pub fn pathing_distance_sq(&self, x1: i32, y1: i32, x2: i32, y2: i32) -> (d: u64)
        requires
            self.spec_in_bounds(x1 as int, y1 as int),
            self.spec_in_bounds(x2 as int, y2 as int),
            self.inv(),
        ensures
            d == (x1 - x2) * (x1 - x2) + (y1 - y2) * (y1 - y2),
    {
        let dx = (x1 as i64) - (x2 as i64);
        let dy = (y1 as i64) - (y2 as i64);
        proof {
            assert(dx * dx + dy * dy <= 4096 * 4096 + 4096 * 4096) by (nonlinear_arith)
                requires
                    -4096 <= dx <= 4096,
                    -4096 <= dy <= 4096,
            ;
            assert(dx * dx >= 0) by (nonlinear_arith);
            assert(dy * dy >= 0) by (nonlinear_arith);
        }
        (dx * dx + dy * dy) as u64
    }
}

} // verus!
