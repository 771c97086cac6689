//! A chess rules and game-state engine.
//!
//! The engine keeps the authoritative board occupancy (an 8x8 grid of
//! optional occupants), decides move legality per piece kind, resolves
//! captures, alternates the turn after every applied move, and detects the
//! single end-of-game condition: a captured king. Rendering, input devices
//! and other presentation concerns are left to a collaborator that feeds the
//! engine square selections and re-renders from the resulting state.

pub mod board;
pub mod game;
pub mod pieces;
