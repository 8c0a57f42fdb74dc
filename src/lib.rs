//! Decoding of the tile data held in a tile-map document: the layer `data`
//! tag, its encodings and compressions, and the grids of tile references.

pub mod text;
pub mod types;
pub mod grid;
pub mod csv;
pub mod codec;
pub mod cursor;
pub mod parse;
