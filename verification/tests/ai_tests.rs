use rogue_core::components::{CombatStats, Position, Viewshed};
use rogue_core::indexer::MapIndexingSystem;
use rogue_core::map::{TileMap, TileType};
use rogue_core::monster_ai::MonsterAI;
use rogue_core::world::{EntityRec, World};

fn open_map(w: i32, h: i32) -> TileMap {
    let n = (w * h) as usize;
    let mut tiles = vec![TileType::Floor; n];
    for x in 0..w {
        tiles[x as usize] = TileType::Wall;
        tiles[((h - 1) * w + x) as usize] = TileType::Wall;
    }
    for y in 0..h {
        tiles[(y * w) as usize] = TileType::Wall;
        tiles[(y * w + w - 1) as usize] = TileType::Wall;
    }
    TileMap {
        tiles,
        rooms: Vec::new(),
        width: w,
        height: h,
        revealed_tiles: vec![false; n],
        visible_tiles: vec![false; n],
        blocked: vec![false; n],
        tile_content: vec![Vec::new(); n],
    }
}

fn bare_entity() -> EntityRec {
    EntityRec {
        alive: true,
        player: false,
        monster: false,
        blocks_tile: false,
        position: None,
        viewshed: None,
        stats: None,
        renderable: None,
        pending_melee: None,
        pending_damage: Vec::new(),
    }
}

fn world_with_player_at(px: i32, py: i32) -> World {
    let map = open_map(11, 11);
    let mut w = World { map, entities: Vec::new(), player_pos: Position { x: px, y: py } };
    w.entities.push(EntityRec {
        player: true,
        position: Some(Position { x: px, y: py }),
        viewshed: Some(Viewshed { visible_tiles: Vec::new(), range: 8, dirty: false }),
        stats: Some(CombatStats { max_hp: 30, hp: 30, defense: 2, power: 5 }),
        ..bare_entity()
    });
    w
}

fn monster_at(x: i32, y: i32, sees_player: Vec<Position>) -> EntityRec {
    EntityRec {
        monster: true,
        blocks_tile: true,
        position: Some(Position { x, y }),
        viewshed: Some(Viewshed { visible_tiles: sees_player, range: 8, dirty: false }),
        stats: Some(CombatStats { max_hp: 16, hp: 16, defense: 2, power: 5 }),
        ..bare_entity()
    }
}

#[test]
fn adjacent_monster_that_sees_player_sets_melee_intent() {
    let mut w = world_with_player_at(5, 5);
    w.entities.push(monster_at(6, 5, vec![Position { x: 5, y: 5 }]));
    MapIndexingSystem::run(&mut w);
    MonsterAI::run(&mut w);
    assert_eq!(w.entities[1].pending_melee, Some(0));
    assert_eq!(w.entities[1].position, Some(Position { x: 6, y: 5 }));
}

#[test]
fn distant_monster_that_sees_player_steps_closer() {
    let mut w = world_with_player_at(5, 5);
    w.entities.push(monster_at(8, 5, vec![Position { x: 5, y: 5 }]));
    MapIndexingSystem::run(&mut w);
    MonsterAI::run(&mut w);
    let pos = w.entities[1].position.unwrap();
    assert_eq!(pos, Position { x: 7, y: 5 });
    assert!(w.entities[1].viewshed.as_ref().unwrap().dirty);
    assert_eq!(w.entities[1].pending_melee, None);
}

#[test]
fn monster_that_does_not_see_player_stays_put() {
    let mut w = world_with_player_at(5, 5);
    w.entities.push(monster_at(8, 5, Vec::new()));
    MapIndexingSystem::run(&mut w);
    MonsterAI::run(&mut w);
    assert_eq!(w.entities[1].position, Some(Position { x: 8, y: 5 }));
    assert!(!w.entities[1].viewshed.as_ref().unwrap().dirty);
    assert_eq!(w.entities[1].pending_melee, None);
}

#[test]
fn diagonal_monster_is_within_melee_reach() {
    let mut w = world_with_player_at(5, 5);
    w.entities.push(monster_at(6, 6, vec![Position { x: 5, y: 5 }]));
    MapIndexingSystem::run(&mut w);
    MonsterAI::run(&mut w);
    assert_eq!(w.entities[1].pending_melee, Some(0));
}
