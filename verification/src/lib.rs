//! Rules engine for a turn-based, grid-positioned tabletop game session.
//!
//! The engine owns character, item, ability and effect definitions, token
//! placement on a rectangular grid, computation of legal movement and
//! targeting ranges, and a request lifecycle that turns a player's intent
//! into validated, ordered, executed state mutation.

use vstd::prelude::*;

pub mod data;
pub mod effects;
pub mod geometry;
pub mod grid;
pub mod keymap;
pub mod laws;
pub mod pipeline;
pub mod session;

verus! {

/// Typed failure returned by engine operations that fail closed.
#[derive(Clone, Copy, Debug, PartialEq, Eq, Structural)]
pub enum EngineError {
    /// A caster, target, or catalog key did not resolve.
    NotFound,
    /// A destination cell was occupied during a move or placement.
    InvalidPlacement,
    /// A coordinate lay outside the grid extent, or a grid shape was invalid.
    OutOfBounds,
}

} // verus!
