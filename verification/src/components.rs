//! The components an entity may carry, and the event notices handed to the
//! logging collaborator.

use vstd::prelude::*;

verus! {

/// Integer grid coordinates.
#[derive(Clone, Copy, PartialEq, Eq, Structural, Debug)]
pub struct Position {
    pub x: i32,
    pub y: i32,
}

/// An entity's view: the tiles currently visible to it, the recomputation
/// radius, and a dirty flag requesting recomputation. The flag is set by
/// whatever moves the entity and consumed (but never cleared) by the
/// visibility engine; clearing it is the mover's responsibility.
#[derive(Clone, Debug)]
pub struct Viewshed {
    pub visible_tiles: Vec<Position>,
    pub range: i32,
    pub dirty: bool,
}

/// Combat statistics. `hp` is signed and may go negative; no clamping to
/// zero is ever applied.
#[derive(Clone, Copy, PartialEq, Eq, Structural, Debug)]
pub struct CombatStats {
    pub max_hp: i32,
    pub hp: i32,
    pub defense: i32,
    pub power: i32,
}

/// A color, stored for the renderer and never interpreted here.
#[derive(Clone, Copy, PartialEq, Eq, Structural, Debug)]
pub struct Rgb {
    pub r: u8,
    pub g: u8,
    pub b: u8,
}

/// Opaque display descriptor: glyph and colors for the rendering
/// collaborator.
#[derive(Clone, Copy, PartialEq, Eq, Structural, Debug)]
pub struct Renderable {
    pub glyph: char,
    pub fg: Rgb,
    pub bg: Rgb,
}

/// A discrete event notice for the logging collaborator.
#[derive(Clone, Copy, PartialEq, Eq, Structural, Debug)]
pub enum LogEvent {
    /// Melee damage was resolved: `source` struck `target` for `amount`.
    Damage { source: usize, target: usize, amount: i32 },
    /// A non-player entity at zero or negative health was removed.
    Removed { target: usize },
    /// The player fell to zero or negative health; it is notified, never
    /// removed.
    PlayerDefeated { target: usize },
}

} // verus!
