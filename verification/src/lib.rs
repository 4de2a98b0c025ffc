//! A verified core for a grid snake game: the deterministic game-state
//! machine and the fixed-interval movement simulation. Rendering, input
//! mapping and the window loop live outside the library.

pub mod cell;
pub mod game;
pub mod laws;
pub mod model;
pub mod random;
pub mod sim;
