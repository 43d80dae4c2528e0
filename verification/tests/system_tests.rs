use rogue_core::components::{CombatStats, LogEvent, Position, Viewshed};
use rogue_core::combat::MeleeCombatSystem;
use rogue_core::damage::{delete_the_dead, DamageSystem};
use rogue_core::indexer::MapIndexingSystem;
use rogue_core::map::{TileMap, TileType};
use rogue_core::player::try_move_player;
use rogue_core::scheduler::{player_input, Direction, RunState, State};
use rogue_core::visibility::{field_of_view, VisibilitySystem};
use rogue_core::world::{EntityRec, World};

fn open_map(w: i32, h: i32) -> TileMap {
    let n = (w * h) as usize;
    let mut tiles = vec![TileType::Floor; n];
    for x in 0..w {
        tiles[x as usize] = TileType::Wall;
        tiles[((h - 1) * w + x) as usize] = TileType::Wall;
    }
    for y in 0..h {
        tiles[(y * w) as usize] = TileType::Wall;
        tiles[(y * w + w - 1) as usize] = TileType::Wall;
    }
    TileMap {
        tiles,
        rooms: Vec::new(),
        width: w,
        height: h,
        revealed_tiles: vec![false; n],
        visible_tiles: vec![false; n],
        blocked: vec![false; n],
        tile_content: vec![Vec::new(); n],
    }
}

fn bare_entity() -> EntityRec {
    EntityRec {
        alive: true,
        player: false,
        monster: false,
        blocks_tile: false,
        position: None,
        viewshed: None,
        stats: None,
        renderable: None,
        pending_melee: None,
        pending_damage: Vec::new(),
    }
}

fn world_on(map: TileMap) -> World {
    World { map, entities: Vec::new(), player_pos: Position { x: 0, y: 0 } }
}

#[test]
fn fov_tiles_stay_within_range() {
    let map = open_map(11, 11);
    let vt = field_of_view(&map, 5, 5, 2);
    for p in &vt {
        let dx = (p.x - 5) as i64;
        let dy = (p.y - 5) as i64;
        assert!(dx * dx + dy * dy <= 4);
    }
    assert!(vt.contains(&Position { x: 5, y: 5 }));
    assert!(vt.contains(&Position { x: 5, y: 3 }));
    assert!(!vt.contains(&Position { x: 5, y: 2 }));
}

#[test]
fn fov_range_one_beside_wall_excludes_far_side() {
    // A wall at (4, 5); the viewer stands beside it at (5, 5) with range 1.
    let mut map = open_map(11, 11);
    let wall = map.xy_idx(4, 5);
    map.tiles[wall] = TileType::Wall;
    let vt = field_of_view(&map, 5, 5, 1);
    // The far side of that wall is out of the visible set entirely.
    assert!(!vt.contains(&Position { x: 3, y: 5 }));
    assert!(!vt.contains(&Position { x: 2, y: 5 }));
    // The wall itself is visible; so is the viewer's own tile.
    assert!(vt.contains(&Position { x: 4, y: 5 }));
    assert!(vt.contains(&Position { x: 5, y: 5 }));
}

#[test]
fn fov_wall_occludes_tiles_behind_it() {
    let mut map = open_map(13, 13);
    let wall = map.xy_idx(5, 6);
    map.tiles[wall] = TileType::Wall;
    let vt = field_of_view(&map, 6, 6, 4);
    assert!(vt.contains(&Position { x: 5, y: 6 }));
    assert!(!vt.contains(&Position { x: 4, y: 6 }));
    assert!(!vt.contains(&Position { x: 3, y: 6 }));
}

fn seeing_player_world() -> World {
    let map = open_map(11, 11);
    let mut w = world_on(map);
    w.entities.push(EntityRec {
        player: true,
        position: Some(Position { x: 5, y: 5 }),
        viewshed: Some(Viewshed { visible_tiles: Vec::new(), range: 3, dirty: true }),
        ..bare_entity()
    });
    w.player_pos = Position { x: 5, y: 5 };
    w
}

#[test]
fn visibility_marks_player_tiles_visible_and_revealed() {
    let mut w = seeing_player_world();
    VisibilitySystem::run(&mut w);
    let here = w.map.xy_idx(5, 5);
    assert!(w.map.visible_tiles[here]);
    assert!(w.map.revealed_tiles[here]);
    let vs = w.entities[0].viewshed.as_ref().unwrap();
    assert!(!vs.visible_tiles.is_empty());
    // Visible always implies revealed.
    for idx in 0..w.map.tiles.len() {
        assert!(!w.map.visible_tiles[idx] || w.map.revealed_tiles[idx]);
    }
    // The engine does not clear the dirty flag.
    assert!(vs.dirty);
}

#[test]
fn revealed_tiles_persist_once_visibility_moves_on() {
    let mut w = seeing_player_world();
    VisibilitySystem::run(&mut w);
    let here = w.map.xy_idx(5, 5);
    assert!(w.map.revealed_tiles[here]);
    // Move the player far away and recompute: the old tile is no longer
    // visible but stays revealed.
    if let Some(rec) = w.entities.get_mut(0) {
        rec.position = Some(Position { x: 1, y: 1 });
        if let Some(vs) = rec.viewshed.as_mut() {
            vs.dirty = true;
        }
    }
    w.player_pos = Position { x: 1, y: 1 };
    VisibilitySystem::run(&mut w);
    assert!(!w.map.visible_tiles[here]);
    assert!(w.map.revealed_tiles[here]);
}

#[test]
fn indexer_builds_blocked_and_occupants() {
    let map = open_map(9, 9);
    let mut w = world_on(map);
    w.entities.push(EntityRec {
        position: Some(Position { x: 3, y: 3 }),
        blocks_tile: true,
        ..bare_entity()
    });
    w.entities.push(EntityRec { position: Some(Position { x: 3, y: 3 }), ..bare_entity() });
    w.entities.push(EntityRec {
        position: Some(Position { x: 4, y: 4 }),
        alive: false,
        ..bare_entity()
    });
    MapIndexingSystem::run(&mut w);
    let idx = w.map.xy_idx(3, 3);
    assert!(w.map.blocked[idx]);
    assert_eq!(w.map.tile_content[idx], vec![0, 1]);
    let dead_idx = w.map.xy_idx(4, 4);
    assert!(w.map.tile_content[dead_idx].is_empty());
    assert!(!w.map.blocked[dead_idx]);
    assert!(w.map.blocked[w.map.xy_idx(0, 0)]);
}

#[test]
fn indexer_is_idempotent() {
    let map = open_map(9, 9);
    let mut w = world_on(map);
    w.entities.push(EntityRec {
        position: Some(Position { x: 3, y: 3 }),
        blocks_tile: true,
        ..bare_entity()
    });
    w.entities.push(EntityRec { position: Some(Position { x: 5, y: 2 }), ..bare_entity() });
    MapIndexingSystem::run(&mut w);
    let blocked_once = w.map.blocked.clone();
    let content_once = w.map.tile_content.clone();
    MapIndexingSystem::run(&mut w);
    assert_eq!(w.map.blocked, blocked_once);
    assert_eq!(w.map.tile_content, content_once);
}

fn movable_player_world() -> World {
    let map = open_map(9, 9);
    let mut w = world_on(map);
    w.entities.push(EntityRec {
        player: true,
        position: Some(Position { x: 4, y: 4 }),
        viewshed: Some(Viewshed { visible_tiles: Vec::new(), range: 3, dirty: false }),
        stats: Some(CombatStats { max_hp: 30, hp: 30, defense: 2, power: 5 }),
        ..bare_entity()
    });
    w.player_pos = Position { x: 4, y: 4 };
    MapIndexingSystem::run(&mut w);
    w
}

#[test]
fn moving_into_open_tile_updates_position_and_dirties_viewshed() {
    let mut w = movable_player_world();
    try_move_player(1, 0, &mut w);
    assert_eq!(w.entities[0].position, Some(Position { x: 5, y: 4 }));
    assert!(w.entities[0].viewshed.as_ref().unwrap().dirty);
    assert_eq!(w.player_pos, Position { x: 5, y: 4 });
}

#[test]
fn moving_into_blocked_tile_changes_nothing() {
    let mut w = movable_player_world();
    let idx = w.map.xy_idx(5, 4);
    w.map.blocked[idx] = true;
    try_move_player(1, 0, &mut w);
    assert_eq!(w.entities[0].position, Some(Position { x: 4, y: 4 }));
    assert!(!w.entities[0].viewshed.as_ref().unwrap().dirty);
    assert_eq!(w.player_pos, Position { x: 4, y: 4 });
}

#[test]
fn moving_out_of_bounds_changes_nothing() {
    let mut w = movable_player_world();
    try_move_player(10, 0, &mut w);
    assert_eq!(w.entities[0].position, Some(Position { x: 4, y: 4 }));
    assert!(!w.entities[0].viewshed.as_ref().unwrap().dirty);
}

#[test]
fn moving_into_occupied_tile_sets_melee_intent() {
    let mut w = movable_player_world();
    w.entities.push(EntityRec {
        monster: true,
        blocks_tile: true,
        position: Some(Position { x: 5, y: 4 }),
        stats: Some(CombatStats { max_hp: 16, hp: 16, defense: 2, power: 5 }),
        ..bare_entity()
    });
    MapIndexingSystem::run(&mut w);
    try_move_player(1, 0, &mut w);
    assert_eq!(w.entities[0].pending_melee, Some(1));
    // Blocked by the monster: position unchanged.
    assert_eq!(w.entities[0].position, Some(Position { x: 4, y: 4 }));
}

#[test]
fn combat_damage_is_power_minus_defense_never_negative() {
    let map = open_map(9, 9);
    let mut w = world_on(map);
    w.entities.push(EntityRec {
        stats: Some(CombatStats { max_hp: 10, hp: 10, defense: 0, power: 1 }),
        pending_melee: Some(1),
        ..bare_entity()
    });
    w.entities.push(EntityRec {
        stats: Some(CombatStats { max_hp: 10, hp: 10, defense: 5, power: 2 }),
        pending_melee: Some(0),
        ..bare_entity()
    });
    let events = MeleeCombatSystem::run(&mut w);
    // Weak attacker against high defense: amount clamps at zero.
    assert_eq!(w.entities[1].pending_damage, vec![0]);
    assert_eq!(w.entities[0].pending_damage, vec![2]);
    assert_eq!(w.entities[0].pending_melee, None);
    assert_eq!(w.entities[1].pending_melee, None);
    assert_eq!(events.len(), 2);
    assert_eq!(events[0], LogEvent::Damage { source: 0, target: 1, amount: 0 });
    assert_eq!(events[1], LogEvent::Damage { source: 1, target: 0, amount: 2 });
}

#[test]
fn combat_skips_targets_without_stats() {
    let map = open_map(9, 9);
    let mut w = world_on(map);
    w.entities.push(EntityRec {
        stats: Some(CombatStats { max_hp: 10, hp: 10, defense: 0, power: 4 }),
        pending_melee: Some(1),
        ..bare_entity()
    });
    w.entities.push(EntityRec { ..bare_entity() });
    let events = MeleeCombatSystem::run(&mut w);
    assert!(events.is_empty());
    assert!(w.entities[1].pending_damage.is_empty());
    assert_eq!(w.entities[0].pending_melee, None);
}

#[test]
fn two_attackers_reduce_target_hp_to_four() {
    // Two attackers, each power 5, one target with defense 2 and hp 10:
    // hp drops to 10 - 2 * max(0, 5 - 2) = 4 within one tick.
    let map = open_map(9, 9);
    let mut w = world_on(map);
    w.entities.push(EntityRec {
        stats: Some(CombatStats { max_hp: 10, hp: 10, defense: 2, power: 5 }),
        ..bare_entity()
    });
    w.entities.push(EntityRec {
        stats: Some(CombatStats { max_hp: 16, hp: 16, defense: 1, power: 5 }),
        pending_melee: Some(0),
        ..bare_entity()
    });
    w.entities.push(EntityRec {
        stats: Some(CombatStats { max_hp: 16, hp: 16, defense: 1, power: 5 }),
        pending_melee: Some(0),
        ..bare_entity()
    });
    MeleeCombatSystem::run(&mut w);
    assert_eq!(w.entities[0].pending_damage, vec![3, 3]);
    DamageSystem::run(&mut w);
    assert_eq!(w.entities[0].stats.unwrap().hp, 4);
    assert!(w.entities[0].pending_damage.is_empty());
}

#[test]
fn damage_may_push_hp_negative() {
    let map = open_map(9, 9);
    let mut w = world_on(map);
    w.entities.push(EntityRec {
        stats: Some(CombatStats { max_hp: 10, hp: 2, defense: 0, power: 0 }),
        pending_damage: vec![5],
        ..bare_entity()
    });
    DamageSystem::run(&mut w);
    assert_eq!(w.entities[0].stats.unwrap().hp, -3);
}

#[test]
fn death_sweep_removes_fallen_non_player_exactly_once() {
    let map = open_map(9, 9);
    let mut w = world_on(map);
    w.entities.push(EntityRec {
        monster: true,
        stats: Some(CombatStats { max_hp: 16, hp: 0, defense: 1, power: 4 }),
        ..bare_entity()
    });
    w.entities.push(EntityRec {
        monster: true,
        stats: Some(CombatStats { max_hp: 16, hp: 3, defense: 1, power: 4 }),
        ..bare_entity()
    });
    let events = delete_the_dead(&mut w);
    assert!(!w.entities[0].alive);
    assert!(w.entities[1].alive);
    assert_eq!(events, vec![LogEvent::Removed { target: 0 }]);
    // A second sweep finds nothing: the outcome happens exactly once.
    let events2 = delete_the_dead(&mut w);
    assert!(events2.is_empty());
}

#[test]
fn death_sweep_notifies_but_never_removes_the_player() {
    let map = open_map(9, 9);
    let mut w = world_on(map);
    w.entities.push(EntityRec {
        player: true,
        stats: Some(CombatStats { max_hp: 30, hp: -2, defense: 2, power: 5 }),
        ..bare_entity()
    });
    let events = delete_the_dead(&mut w);
    assert!(w.entities[0].alive);
    assert_eq!(events, vec![LogEvent::PlayerDefeated { target: 0 }]);
}

#[test]
fn direction_deltas_cover_all_eight_compass_points() {
    assert_eq!(Direction::North.delta(), (0, -1));
    assert_eq!(Direction::South.delta(), (0, 1));
    assert_eq!(Direction::East.delta(), (1, 0));
    assert_eq!(Direction::West.delta(), (-1, 0));
    assert_eq!(Direction::NorthEast.delta(), (1, -1));
    assert_eq!(Direction::NorthWest.delta(), (-1, -1));
    assert_eq!(Direction::SouthEast.delta(), (1, 1));
    assert_eq!(Direction::SouthWest.delta(), (-1, 1));
}

#[test]
fn prerun_transitions_to_awaiting_input_after_one_pipeline_run() {
    let mut gs = State::new();
    assert_eq!(gs.run_state, RunState::PreRun);
    gs.tick(None);
    assert_eq!(gs.run_state, RunState::AwaitingInput);
}

#[test]
fn awaiting_input_stays_put_without_a_command() {
    let mut gs = State::new();
    gs.tick(None);
    assert_eq!(gs.run_state, RunState::AwaitingInput);
    let pos_before = gs.ecs.entities.last().unwrap().position;
    let events = gs.tick(None);
    assert_eq!(gs.run_state, RunState::AwaitingInput);
    assert!(events.is_empty());
    assert_eq!(gs.ecs.entities.last().unwrap().position, pos_before);
}

#[test]
fn turn_cycle_advances_on_an_actionable_command() {
    let mut gs = State::new();
    gs.tick(None);
    gs.tick(Some(Direction::East));
    assert_eq!(gs.run_state, RunState::PlayerTurn);
    gs.tick(None);
    assert_eq!(gs.run_state, RunState::MonsterTurn);
    gs.tick(None);
    assert_eq!(gs.run_state, RunState::AwaitingInput);
}

#[test]
fn player_input_maps_commands_to_states() {
    let mut gs = State::new();
    assert_eq!(player_input(&mut gs, None), RunState::AwaitingInput);
    assert_eq!(player_input(&mut gs, Some(Direction::North)), RunState::PlayerTurn);
}

#[test]
fn initial_state_spawns_player_and_monsters() {
    let gs = State::new();
    assert_eq!(gs.ecs.entities.len(), gs.ecs.map.rooms.len());
    let center = |r: &rogue_core::rect::Rect| Position {
        x: (r.x1 + r.x2) / 2,
        y: (r.y1 + r.y2) / 2,
    };
    let player = gs.ecs.entities.last().unwrap();
    assert!(player.player && player.alive);
    assert_eq!(player.stats, Some(CombatStats { max_hp: 30, hp: 30, defense: 2, power: 5 }));
    assert_eq!(player.position, Some(center(&gs.ecs.map.rooms[0])));
    assert_eq!(gs.ecs.player_pos, center(&gs.ecs.map.rooms[0]));
    let pv = player.viewshed.as_ref().unwrap();
    assert!(pv.range == 8 && pv.dirty && pv.visible_tiles.is_empty());
    for (i, m) in gs.ecs.entities[..gs.ecs.entities.len() - 1].iter().enumerate() {
        assert!(m.monster && m.alive && m.blocks_tile);
        assert_eq!(m.stats, Some(CombatStats { max_hp: 16, hp: 16, defense: 2, power: 5 }));
        assert_eq!(m.position, Some(center(&gs.ecs.map.rooms[i + 1])));
        let glyph = m.renderable.as_ref().unwrap().glyph;
        assert!(glyph == 'g' || glyph == 'o');
        let v = m.viewshed.as_ref().unwrap();
        assert!(v.range == 8 && v.dirty && v.visible_tiles.is_empty());
        assert!(m.pending_melee.is_none() && m.pending_damage.is_empty());
    }
}

#[test]
fn visibility_of_a_non_player_leaves_map_overlays_alone() {
    let map = open_map(11, 11);
    let mut w = world_on(map);
    w.entities.push(EntityRec {
        monster: true,
        position: Some(Position { x: 5, y: 5 }),
        viewshed: Some(Viewshed { visible_tiles: Vec::new(), range: 3, dirty: true }),
        ..bare_entity()
    });
    VisibilitySystem::run(&mut w);
    assert!(w.map.visible_tiles.iter().all(|v| !v));
    assert!(w.map.revealed_tiles.iter().all(|v| !v));
    // The monster's own viewshed was still recomputed.
    assert!(!w.entities[0].viewshed.as_ref().unwrap().visible_tiles.is_empty());
}

#[test]
fn combat_clears_intent_even_when_the_target_died_this_tick() {
    let map = open_map(9, 9);
    let mut w = world_on(map);
    w.entities.push(EntityRec {
        stats: Some(CombatStats { max_hp: 10, hp: 10, defense: 0, power: 4 }),
        pending_melee: Some(1),
        ..bare_entity()
    });
    w.entities.push(EntityRec {
        alive: false,
        stats: Some(CombatStats { max_hp: 10, hp: 0, defense: 0, power: 4 }),
        ..bare_entity()
    });
    let events = MeleeCombatSystem::run(&mut w);
    assert!(events.is_empty());
    assert_eq!(w.entities[0].pending_melee, None);
    assert!(w.entities[1].pending_damage.is_empty());
}

#[test]
fn damage_leaves_untouched_entities_alone() {
    let map = open_map(9, 9);
    let mut w = world_on(map);
    w.entities.push(EntityRec {
        stats: Some(CombatStats { max_hp: 10, hp: 7, defense: 1, power: 2 }),
        ..bare_entity()
    });
    DamageSystem::run(&mut w);
    assert_eq!(w.entities[0].stats.unwrap().hp, 7);
}
