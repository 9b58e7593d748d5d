//! Tile protocol parsing, tile world bookkeeping and the heat-equation
//! dispatch plan of the Rio terminal's tile renderer.

pub mod text;
pub mod protocol;
pub mod world;
pub mod heat;
pub mod select;
