//! A battleship match engine: two ten-by-ten grids, ship placement under the
//! no-touching rule, shot resolution, turn order and a small targeting
//! machine for the computer side.

pub mod dir;
pub mod field;
pub mod fleet;
pub mod game;
pub mod ai;
pub mod setup;
pub mod font;
pub mod laws;
