use rogue_core::map::{TileMap, TileType};
use rogue_core::rect::Rect;

fn bfs_reachable_floor(map: &TileMap, start: usize) -> Vec<bool> {
    let w = map.width as usize;
    let n = map.tiles.len();
    let mut seen = vec![false; n];
    let mut queue = std::collections::VecDeque::new();
    if map.tiles[start] == TileType::Floor {
        seen[start] = true;
        queue.push_back(start);
    }
    while let Some(idx) = queue.pop_front() {
        let x = idx % w;
        let y = idx / w;
        let mut neighbors = Vec::new();
        if x > 0 {
            neighbors.push(idx - 1);
        }
        if x + 1 < w {
            neighbors.push(idx + 1);
        }
        if y > 0 {
            neighbors.push(idx - w);
        }
        if idx + w < n {
            neighbors.push(idx + w);
        }
        for nb in neighbors {
            if !seen[nb] && map.tiles[nb] == TileType::Floor {
                seen[nb] = true;
                queue.push_back(nb);
            }
        }
    }
    seen
}

fn center(r: &Rect) -> (i32, i32) {
    ((r.x1 + r.x2) / 2, (r.y1 + r.y2) / 2)
}

#[test]
fn generated_map_has_at_least_one_room() {
    let map = TileMap::new_map_rooms_and_corridors();
    assert!(map.rooms.len() >= 1);
    assert!(map.rooms.len() <= 30);
    assert_eq!(map.width, 80);
    assert_eq!(map.height, 43);
    assert_eq!(map.tiles.len(), 80 * 43);
}

#[test]
fn generated_rooms_lie_within_interior_bounds() {
    let map = TileMap::new_map_rooms_and_corridors();
    for r in &map.rooms {
        assert!(r.x1 >= 0);
        assert!(r.y1 >= 0);
        assert!(r.x2 <= map.width - 2);
        assert!(r.y2 <= map.height - 2);
        assert!(r.x2 - r.x1 >= 6 && r.x2 - r.x1 <= 9);
        assert!(r.y2 - r.y1 >= 6 && r.y2 - r.y1 <= 9);
    }
}

#[test]
fn generated_rooms_do_not_overlap() {
    let map = TileMap::new_map_rooms_and_corridors();
    for i in 0..map.rooms.len() {
        for j in 0..map.rooms.len() {
            if i != j {
                assert!(!map.rooms[i].intersect(&map.rooms[j]));
            }
        }
    }
}

#[test]
fn generated_room_interiors_are_floor() {
    let map = TileMap::new_map_rooms_and_corridors();
    for r in &map.rooms {
        for y in r.y1 + 1..=r.y2 {
            for x in r.x1 + 1..=r.x2 {
                assert_eq!(map.tiles[map.xy_idx(x, y)], TileType::Floor);
            }
        }
    }
}

#[test]
fn generated_rooms_are_reachable_from_the_first() {
    let map = TileMap::new_map_rooms_and_corridors();
    let (cx, cy) = center(&map.rooms[0]);
    let start = map.xy_idx(cx, cy);
    let seen = bfs_reachable_floor(&map, start);
    for r in &map.rooms {
        for y in r.y1 + 1..=r.y2 {
            for x in r.x1 + 1..=r.x2 {
                assert!(seen[map.xy_idx(x, y)], "room tile unreachable");
            }
        }
    }
}

#[test]
fn generated_overlays_start_clear() {
    let map = TileMap::new_map_rooms_and_corridors();
    assert!(map.revealed_tiles.iter().all(|v| !v));
    assert!(map.visible_tiles.iter().all(|v| !v));
    assert!(map.blocked.iter().all(|v| !v));
    assert!(map.tile_content.iter().all(|c| c.is_empty()));
}

fn open_map(w: i32, h: i32) -> TileMap {
    let n = (w * h) as usize;
    let mut tiles = vec![TileType::Floor; n];
    for x in 0..w {
        tiles[x as usize] = TileType::Wall;
        tiles[((h - 1) * w + x) as usize] = TileType::Wall;
    }
    for y in 0..h {
        tiles[(y * w) as usize] = TileType::Wall;
        tiles[(y * w + w - 1) as usize] = TileType::Wall;
    }
    TileMap {
        tiles,
        rooms: Vec::new(),
        width: w,
        height: h,
        revealed_tiles: vec![false; n],
        visible_tiles: vec![false; n],
        blocked: vec![false; n],
        tile_content: vec![Vec::new(); n],
    }
}

#[test]
fn xy_idx_is_row_major() {
    let map = open_map(7, 5);
    assert_eq!(map.xy_idx(3, 2), 2 * 7 + 3);
    assert_eq!(map.xy_idx(0, 0), 0);
}

#[test]
fn is_opaque_reports_walls() {
    let map = open_map(7, 5);
    assert!(map.is_opaque(map.xy_idx(0, 0)));
    assert!(!map.is_opaque(map.xy_idx(3, 2)));
}

#[test]
fn dimensions_report_width_and_height() {
    let map = open_map(7, 5);
    assert_eq!(map.dimensions(), (7, 5));
}

#[test]
fn populate_blocked_marks_exactly_walls() {
    let mut map = open_map(7, 5);
    map.populate_blocked();
    for idx in 0..map.tiles.len() {
        assert_eq!(map.blocked[idx], map.tiles[idx] == TileType::Wall);
    }
}

#[test]
fn clear_content_index_empties_every_list() {
    let mut map = open_map(7, 5);
    map.tile_content[9].push(4);
    map.clear_content_index();
    assert!(map.tile_content.iter().all(|c| c.is_empty()));
}

#[test]
fn tunnels_carve_floor() {
    let mut map = open_map(9, 9);
    for i in 0..map.tiles.len() {
        map.tiles[i] = TileType::Wall;
    }
    map.apply_horizontal_tunnel(2, 6, 4);
    for x in 2..=6 {
        assert_eq!(map.tiles[map.xy_idx(x, 4)], TileType::Floor);
    }
    map.apply_vertical_tunnel(1, 7, 6);
    for y in 1..=7 {
        assert_eq!(map.tiles[map.xy_idx(6, y)], TileType::Floor);
    }
    assert_eq!(map.tiles[map.xy_idx(1, 4)], TileType::Wall);
}

#[test]
fn room_carve_covers_interior_only() {
    let mut map = open_map(12, 12);
    for i in 0..map.tiles.len() {
        map.tiles[i] = TileType::Wall;
    }
    let room = Rect::new(2, 3, 6, 6);
    map.apply_room_to_map(&room);
    for y in 4..=9 {
        for x in 3..=8 {
            assert_eq!(map.tiles[map.xy_idx(x, y)], TileType::Floor);
        }
    }
    assert_eq!(map.tiles[map.xy_idx(2, 4)], TileType::Wall);
    assert_eq!(map.tiles[map.xy_idx(3, 3)], TileType::Wall);
}

#[test]
fn rect_intersect_and_center() {
    let a = Rect::new(0, 0, 4, 4);
    let b = Rect::new(3, 3, 4, 4);
    let c = Rect::new(5, 5, 2, 2);
    assert!(a.intersect(&b));
    assert!(!a.intersect(&c));
    assert_eq!(a.center(), (2, 2));
}

#[test]
fn exits_list_walkable_neighbors_with_costs() {
    let mut map = open_map(7, 5);
    map.populate_blocked();
    let exits = map.get_available_exits(2, 2);
    assert_eq!(
        exits,
        vec![
            (1, 2, 100),
            (3, 2, 100),
            (2, 1, 100),
            (2, 3, 100),
            (1, 1, 145),
            (3, 1, 145),
            (1, 3, 145),
            (3, 3, 145),
        ]
    );
    let corner = map.get_available_exits(1, 1);
    assert_eq!(corner, vec![(2, 1, 100), (1, 2, 100), (2, 2, 145)]);
}

#[test]
fn pathing_distance_is_squared_euclidean() {
    let map = open_map(7, 5);
    assert_eq!(map.pathing_distance_sq(1, 1, 4, 3), 9 + 4);
    assert_eq!(map.pathing_distance_sq(2, 2, 2, 2), 0);
}

#[test]
fn generated_map_keeps_a_walled_border() {
    let map = TileMap::new_map_rooms_and_corridors();
    for x in 0..map.width {
        assert_eq!(map.tiles[map.xy_idx(x, 0)], TileType::Wall);
        assert_eq!(map.tiles[map.xy_idx(x, map.height - 1)], TileType::Wall);
    }
    for y in 0..map.height {
        assert_eq!(map.tiles[map.xy_idx(0, y)], TileType::Wall);
        assert_eq!(map.tiles[map.xy_idx(map.width - 1, y)], TileType::Wall);
    }
}
