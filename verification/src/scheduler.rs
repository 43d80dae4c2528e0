//! The turn scheduler: a four-state machine sequencing every system per
//! tick and deciding when to await external input.

use crate::combat::{combat_rel, melee_events, MeleeCombatSystem};
use crate::components::{CombatStats, LogEvent, Position, Renderable, Rgb, Viewshed};
use crate::damage::{damage_rel, death_events, death_rel, delete_the_dead, DamageSystem};
use crate::indexer::{indexer_rel, MapIndexingSystem};
use crate::mapgen::{rng_new, roll_dice};
use crate::map::TileMap;
use crate::monster_ai::{ai_rel, MonsterAI};
use crate::player::{move_rel, try_move_player};
use crate::visibility::{visibility_rel, VisibilitySystem};
use crate::world::{EntityRec, World};
use vstd::prelude::*;

verus! {

/// The scheduler's states. The cycle repeats indefinitely; termination is
/// external to this core.
#[derive(Clone, Copy, PartialEq, Eq, Structural, Debug)]
pub enum RunState {
    AwaitingInput,
    PreRun,
    PlayerTurn,
    MonsterTurn,
}

/// One of the eight compass directions a movement command may carry.
#[derive(Clone, Copy, PartialEq, Eq, Structural, Debug)]
pub enum Direction {
    North,
    South,
    East,
    West,
    NorthEast,
    NorthWest,
    SouthEast,
    SouthWest,
}

impl Direction {
    /// The unit step of this direction on the grid (y grows southward).
    pub open spec fn spec_delta(self) -> (int, int) {
        match self {
            Direction::North => (0, -1),
            Direction::South => (0, 1),
            Direction::East => (1, 0),
            Direction::West => (-1, 0),
            Direction::NorthEast => (1, -1),
            Direction::NorthWest => (-1, -1),
            Direction::SouthEast => (1, 1),
            Direction::SouthWest => (-1, 1),
        }
    }

    pub fn delta(self) -> (d: (i32, i32))
        ensures
            (d.0 as int, d.1 as int) == self.spec_delta(),
    {
        match self {
            Direction::North => (0, -1),
            Direction::South => (0, 1),
            Direction::East => (1, 0),
            Direction::West => (-1, 0),
            Direction::NorthEast => (1, -1),
            Direction::NorthWest => (-1, -1),
            Direction::SouthEast => (1, 1),
            Direction::SouthWest => (-1, 1),
        }
    }
}

/// The role flags and liveness the pipeline preserves: no system changes
/// who is the player or a monster, and the player is never removed.
pub open spec fn roles_kept(eso: Seq<EntityRec>, esn: Seq<EntityRec>) -> bool {
    &&& esn.len() == eso.len()
    &&& forall|i: int|
        0 <= i < eso.len() ==> (#[trigger] esn[i]).player == eso[i].player && esn[i].monster
            == eso[i].monster && (eso[i].player ==> esn[i].alive == eso[i].alive)
}

/// One full pipeline run: `wn` and the emitted notices arise from `wo` by
/// the strict order spec demands — visibility, the monster turn, the
/// spatial indexer, combat resolution (reading the fresh index), damage
/// application, then the death sweep — witnessed by the intermediate
/// worlds, with the combat notices preceding the death notices.
pub open spec fn pipeline_rel(wo: World, wn: World, events: Seq<LogEvent>) -> bool {
    exists|w1: World, w2: World, w3: World, w4: World, w5: World|
        #![trigger visibility_rel(wo, w1), ai_rel(w1, w2), indexer_rel(w2, w3), damage_rel(w4, w5)]
        {
            &&& visibility_rel(wo, w1)
            &&& ai_rel(w1, w2)
            &&& indexer_rel(w2, w3)
            &&& combat_rel(w3, w4, melee_events(w3.entities@, w3.entities@.len() as int))
            &&& damage_rel(w4, w5)
            &&& death_rel(w5, wn, death_events(w5.entities@, w5.entities@.len() as int))
            &&& events == melee_events(w3.entities@, w3.entities@.len() as int) + death_events(
                w5.entities@,
                w5.entities@.len() as int,
            )
        }
}

/// A freshly spawned entity's view: range 8, dirty (so the first pipeline
/// run computes it), nothing seen yet.
pub open spec fn fresh_viewshed(v: Option<Viewshed>) -> bool {
    v matches Some(vs) && vs.range == 8 && vs.dirty && vs.visible_tiles@.len() == 0
}

/// The tick driver: the whole simulation context plus the scheduler state.
pub struct State {
    pub ecs: World,
    pub run_state: RunState,
}

impl State {
    /// Runs the full pipeline once, in the strict order the data demands:
    /// visibility, the monster turn, the spatial indexer (movement has
    /// finalized by now), combat resolution (which reads the fresh index),
    /// damage application, and the death sweep. Returns the event notices
    /// for the logging collaborator. Revealed tiles are never taken back,
    /// and the player is never removed.
    pub fn run_systems(&mut self) -> (events: Vec<LogEvent>)
        requires
            old(self).ecs.inv(),
        ensures
            final(self).ecs.inv(),
            final(self).run_state == old(self).run_state,
            final(self).ecs.entities@.len() == old(self).ecs.entities@.len(),
            final(self).ecs.map.tiles@ == old(self).ecs.map.tiles@,
            final(self).ecs.map.rooms@ == old(self).ecs.map.rooms@,
            final(self).ecs.map.width == old(self).ecs.map.width,
            final(self).ecs.map.height == old(self).ecs.map.height,
            forall|j: int|
                0 <= j < old(self).ecs.map.revealed_tiles@.len()
                    && old(self).ecs.map.revealed_tiles@[j]
                    ==> final(self).ecs.map.revealed_tiles@[j],
            roles_kept(old(self).ecs.entities@, final(self).ecs.entities@),
            pipeline_rel(old(self).ecs, final(self).ecs, events@),
    {
        let ghost es0 = self.ecs.entities@;
        VisibilitySystem::run(&mut self.ecs);
        let ghost g1 = self.ecs;
        proof {
            assert(roles_kept(es0, self.ecs.entities@)) by {
                assert forall|i: int|
                    0 <= i < es0.len() implies (#[trigger] self.ecs.entities@[i]).player
                    == es0[i].player && self.ecs.entities@[i].monster == es0[i].monster && (
                es0[i].player ==> self.ecs.entities@[i].alive == es0[i].alive) by {}
            }
        }
        let ghost es1 = self.ecs.entities@;
        MonsterAI::run(&mut self.ecs);
        let ghost g2 = self.ecs;
        proof {
            assert(roles_kept(es1, self.ecs.entities@)) by {
                assert forall|i: int|
                    0 <= i < es1.len() implies (#[trigger] self.ecs.entities@[i]).player
                    == es1[i].player && self.ecs.entities@[i].monster == es1[i].monster && (
                es1[i].player ==> self.ecs.entities@[i].alive == es1[i].alive) by {}
            }
        }
        MapIndexingSystem::run(&mut self.ecs);
        let ghost g3 = self.ecs;
        let ghost es3 = self.ecs.entities@;
        let mut events = MeleeCombatSystem::run(&mut self.ecs);
        let ghost g4 = self.ecs;
        proof {
            assert(roles_kept(es3, self.ecs.entities@)) by {
                assert forall|i: int|
                    0 <= i < es3.len() implies (#[trigger] self.ecs.entities@[i]).player
                    == es3[i].player && self.ecs.entities@[i].monster == es3[i].monster && (
                es3[i].player ==> self.ecs.entities@[i].alive == es3[i].alive) by {}
            }
        }
        let ghost es4 = self.ecs.entities@;
        DamageSystem::run(&mut self.ecs);
        let ghost g5 = self.ecs;
        proof {
            assert(roles_kept(es4, self.ecs.entities@)) by {
                assert forall|i: int|
                    0 <= i < es4.len() implies (#[trigger] self.ecs.entities@[i]).player
                    == es4[i].player && self.ecs.entities@[i].monster == es4[i].monster && (
                es4[i].player ==> self.ecs.entities@[i].alive == es4[i].alive) by {}
            }
        }
        let ghost es5 = self.ecs.entities@;
        let mut death_notes = delete_the_dead(&mut self.ecs);
        proof {
            assert(roles_kept(es5, self.ecs.entities@)) by {
                assert forall|i: int|
                    0 <= i < es5.len() implies (#[trigger] self.ecs.entities@[i]).player
                    == es5[i].player && self.ecs.entities@[i].monster == es5[i].monster && (
                es5[i].player ==> self.ecs.entities@[i].alive == es5[i].alive) by {}
            }
        }
        let ghost ev_c = events@;
        let ghost ev_d = death_notes@;
        events.append(&mut death_notes);
        proof {
            assert(visibility_rel(old(self).ecs, g1));
            assert(ai_rel(g1, g2));
            assert(indexer_rel(g2, g3));
            assert(combat_rel(g3, g4, ev_c));
            assert(damage_rel(g4, g5));
            assert(death_rel(g5, self.ecs, ev_d));
            assert(events@ == ev_c + ev_d);
            assert(pipeline_rel(old(self).ecs, self.ecs, events@));
        }
        events
    }
}

/// Handles one sampled input: no actionable command keeps the scheduler
/// awaiting input and changes nothing else; a directional command attempts
/// the player's move (movement, melee intent, or nothing, as the map and
/// index dictate) and hands the turn to the player pipeline.
pub fn player_input(gs: &mut State, cmd: Option<Direction>) -> (r: RunState)
    requires
        old(gs).ecs.inv(),
    ensures
        final(gs).ecs.inv(),
        final(gs).run_state == old(gs).run_state,
        match cmd {
            None => r == RunState::AwaitingInput && *final(gs) == *old(gs),
            Some(dir) => r == RunState::PlayerTurn && move_rel(
                dir.spec_delta().0,
                dir.spec_delta().1,
                old(gs).ecs,
                final(gs).ecs,
            ),
        },
        final(gs).ecs.map == old(gs).ecs.map,
        final(gs).ecs.entities@.len() == old(gs).ecs.entities@.len(),
        roles_kept(old(gs).ecs.entities@, final(gs).ecs.entities@),
{
    match cmd {
        None => RunState::AwaitingInput,
        Some(dir) => {
            let d = dir.delta();
            let ghost es0 = gs.ecs.entities@;
            try_move_player(d.0, d.1, &mut gs.ecs);
            proof {
                assert(roles_kept(es0, gs.ecs.entities@)) by {
                    assert forall|i: int|
                        0 <= i < es0.len() implies (#[trigger] gs.ecs.entities@[i]).player
                        == es0[i].player && gs.ecs.entities@[i].monster == es0[i].monster && (
                    es0[i].player ==> gs.ecs.entities@[i].alive == es0[i].alive) by {}
                }
            }
            RunState::PlayerTurn
        },
    }
}

impl State {
    /// One scheduler step. From `PreRun`, the pipeline runs exactly once
    /// and the machine awaits input. Awaiting input, it advances (to the
    /// player turn, via the movement entry point) only on an actionable
    /// command, and is otherwise left fully unchanged. The player turn and
    /// the monster turn each run the pipeline once and pass to the monster
    /// turn and back to awaiting input respectively.
    pub fn tick(&mut self, cmd: Option<Direction>) -> (events: Vec<LogEvent>)
        requires
            old(self).ecs.inv(),
        ensures
            final(self).ecs.inv(),
            match old(self).run_state {
                RunState::PreRun => final(self).run_state == RunState::AwaitingInput
                    && pipeline_rel(old(self).ecs, final(self).ecs, events@),
                RunState::AwaitingInput => match cmd {
                    None => final(self).run_state == RunState::AwaitingInput && *final(self)
                        == *old(self) && events@.len() == 0,
                    Some(dir) => final(self).run_state == RunState::PlayerTurn && move_rel(
                        dir.spec_delta().0,
                        dir.spec_delta().1,
                        old(self).ecs,
                        final(self).ecs,
                    ) && events@.len() == 0,
                },
                RunState::PlayerTurn => final(self).run_state == RunState::MonsterTurn
                    && pipeline_rel(old(self).ecs, final(self).ecs, events@),
                RunState::MonsterTurn => final(self).run_state == RunState::AwaitingInput
                    && pipeline_rel(old(self).ecs, final(self).ecs, events@),
            },
            forall|j: int|
                0 <= j < old(self).ecs.map.revealed_tiles@.len()
                    && old(self).ecs.map.revealed_tiles@[j]
                    ==> final(self).ecs.map.revealed_tiles@[j],
            roles_kept(old(self).ecs.entities@, final(self).ecs.entities@),
    {
        match self.run_state {
            RunState::PreRun => {
                let events = self.run_systems();
                self.run_state = RunState::AwaitingInput;
                events
            },
            RunState::AwaitingInput => {
                let new_state = player_input(self, cmd);
                self.run_state = new_state;
                Vec::new()
            },
            RunState::PlayerTurn => {
                let events = self.run_systems();
                self.run_state = RunState::MonsterTurn;
                events
            },
            RunState::MonsterTurn => {
                let events = self.run_systems();
                self.run_state = RunState::AwaitingInput;
                events
            },
        }
    }

    /// Builds the initial game: a generated dungeon, one monster at the
    /// center of every room but the first (a goblin or an ork, by a coin
    /// toss), and the player at the first room's center. The scheduler
    /// starts at `PreRun`.
    pub fn new() -> (gs: State)
        ensures
            gs.ecs.inv(),
            gs.run_state == RunState::PreRun,
            gs.ecs.map.rooms@.len() >= 1,
            gs.ecs.entities@.len() == gs.ecs.map.rooms@.len(),
            gs.ecs.entities@.last().player,
            gs.ecs.entities@.last().alive,
            gs.ecs.entities@.last().stats == Some(
                CombatStats { max_hp: 30, hp: 30, defense: 2, power: 5 },
            ),
            !gs.ecs.entities@.last().monster,
            !gs.ecs.entities@.last().blocks_tile,
            gs.ecs.entities@.last().position == Some(
                Position {
                    x: gs.ecs.map.rooms@[0].spec_center().0 as i32,
                    y: gs.ecs.map.rooms@[0].spec_center().1 as i32,
                },
            ),
            gs.ecs.player_pos == (Position {
                x: gs.ecs.map.rooms@[0].spec_center().0 as i32,
                y: gs.ecs.map.rooms@[0].spec_center().1 as i32,
            }),
            fresh_viewshed(gs.ecs.entities@.last().viewshed),
            gs.ecs.entities@.last().pending_melee is None,
            gs.ecs.entities@.last().pending_damage@.len() == 0,
            forall|i: int|
                0 <= i < gs.ecs.entities@.len() - 1 ==> (#[trigger] gs.ecs.entities@[i]).monster
                    && gs.ecs.entities@[i].alive && !gs.ecs.entities@[i].player
                    && gs.ecs.entities@[i].blocks_tile && gs.ecs.entities@[i].stats == Some(
                    CombatStats { max_hp: 16, hp: 16, defense: 2, power: 5 },
                ),
            forall|i: int|
                0 <= i < gs.ecs.entities@.len() - 1 ==> (#[trigger] gs.ecs.entities@[i]).position
                    == Some(
                    Position {
                        x: gs.ecs.map.rooms@[i + 1].spec_center().0 as i32,
                        y: gs.ecs.map.rooms@[i + 1].spec_center().1 as i32,
                    },
                ) && fresh_viewshed(gs.ecs.entities@[i].viewshed)
                    && gs.ecs.entities@[i].pending_melee is None
                    && gs.ecs.entities@[i].pending_damage@.len() == 0,
    {
        let map = TileMap::new_map_rooms_and_corridors();
        let mut world = World::new(map);
        let mut rng = rng_new();
        let nrooms = world.map.rooms.len();
        let mut i: usize = 1;
        while i < nrooms
            invariant
                world.inv(),
                nrooms == world.map.rooms@.len(),
                1 <= i <= nrooms,
                world.map.rooms@.len() >= 1,
                world.entities@.len() == i - 1,
                forall|k: int|
                    0 <= k < world.map.rooms@.len() ==> crate::mapgen::room_in_bounds(
                        world.map,
                        #[trigger] world.map.rooms@[k],
                    ),
                forall|j: int|
                    0 <= j < world.entities@.len() ==> (#[trigger] world.entities@[j]).monster
                        && world.entities@[j].alive && !world.entities@[j].player
                        && world.entities@[j].blocks_tile && world.entities@[j].stats == Some(
                        CombatStats { max_hp: 16, hp: 16, defense: 2, power: 5 },
                    ),
                forall|j: int|
                    0 <= j < world.entities@.len() ==> (#[trigger] world.entities@[j]).position
                        == Some(
                        Position {
                            x: world.map.rooms@[j + 1].spec_center().0 as i32,
                            y: world.map.rooms@[j + 1].spec_center().1 as i32,
                        },
                    ) && fresh_viewshed(world.entities@[j].viewshed)
                        && world.entities@[j].pending_melee is None
                        && world.entities@[j].pending_damage@.len() == 0,
            decreases nrooms - i,
        {
            let room = world.map.rooms[i];
            proof {
                crate::mapgen::lemma_center_in_bounds(world.map, world.map.rooms@[i as int]);
            }
            let c = room.center();
            let roll = roll_dice(&mut rng, 1, 2);
            let glyph: char = if roll == 1 {
                'g'
            } else {
                'o'
            };
            let rec = EntityRec {
                alive: true,
                player: false,
                monster: true,
                blocks_tile: true,
                position: Some(Position { x: c.0, y: c.1 }),
                viewshed: Some(Viewshed { visible_tiles: Vec::new(), range: 8, dirty: true }),
                stats: Some(CombatStats { max_hp: 16, hp: 16, defense: 2, power: 5 }),
                renderable: Some(
                    Renderable {
                        glyph,
                        fg: Rgb { r: 255, g: 0, b: 0 },
                        bg: Rgb { r: 0, g: 0, b: 0 },
                    },
                ),
                pending_melee: None,
                pending_damage: Vec::new(),
            };
            world.push_entity(rec);
            i += 1;
        }
        let first = world.map.rooms[0];
        proof {
            crate::mapgen::lemma_center_in_bounds(world.map, world.map.rooms@[0]);
        }
        let pc = first.center();
        let player_rec = EntityRec {
            alive: true,
            player: true,
            monster: false,
            blocks_tile: false,
            position: Some(Position { x: pc.0, y: pc.1 }),
            viewshed: Some(Viewshed { visible_tiles: Vec::new(), range: 8, dirty: true }),
            stats: Some(CombatStats { max_hp: 30, hp: 30, defense: 2, power: 5 }),
            renderable: Some(
                Renderable {
                    glyph: '@',
                    fg: Rgb { r: 255, g: 255, b: 0 },
                    bg: Rgb { r: 0, g: 0, b: 0 },
                },
            ),
            pending_melee: None,
            pending_damage: Vec::new(),
        };
        world.push_entity(player_rec);
        world.player_pos = Position { x: pc.0, y: pc.1 };
        State { ecs: world, run_state: RunState::PreRun }
    }
}

} // verus!
