//! Plugins-in-miniature for a tile-based game: a frame-driven sprite animation
//! state machine with name-keyed animation and sound registries, and the
//! per-tick decision logic of an event-driven sound player (one-shot effects
//! and an at-most-one looping music track).
//!
//! The hosting game engine (scheduler, entity store, renderer, audio mixer,
//! window, asset loader) is an external collaborator: this crate computes, per
//! tick, what the engine driver must do, and proves that those decisions keep
//! the documented invariants.

pub mod gfx;
pub mod sound;
pub mod table;
