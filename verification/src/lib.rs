//! Simulation core of a turn-based dungeon crawler: procedural dungeon
//! generation, per-entity field of view, spatial occupancy indexing, and
//! turn resolution (movement intent, melee combat, damage accumulation,
//! death sweep). Rendering and raw input handling live outside this crate.

pub mod rect;
pub mod map;
pub mod reach;
pub mod mapgen;
pub mod components;
pub mod world;
pub mod visibility;
pub mod indexer;
pub mod player;
pub mod combat;
pub mod damage;
pub mod monster_ai;
pub mod scheduler;
