//! The simulation core of a grid-based snake game: an ordered chain of body
//! segments advanced tick by tick over a toroidal play field, with growth on
//! fruit consumption and collision queries, each operation carrying a proved
//! contract over the chain's sequence model.

/// The body chain: segments, traversal, growth, movement and collisions.
pub mod body;
/// The play field's dimensions, passed explicitly into every operation.
pub mod field;
/// The fruit and its randomized placement.
pub mod fruit;
/// Directions, points and the cell-box overlap test.
pub mod geom;
/// Chain-wide laws: wraparound closure and exact one-tick follower lag.
pub mod laws;
