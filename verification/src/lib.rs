//! A small engine for a circuit-assembly puzzle: a rectangular grid holds
//! directional circuit components (cables, a lamp, a battery, and a two-piece
//! P/N junction). The engine validates tile moves and decides whether the
//! current arrangement forms a closed, correctly oriented circuit from the
//! battery through a lamp and back.

pub mod board;
pub mod circuit;
pub mod geometry;
pub mod model;
pub mod moves;
pub mod puzzle;
pub mod tile;
