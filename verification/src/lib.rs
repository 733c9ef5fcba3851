//! Tile-map assets for a 2D game: axis-aligned bounding boxes with a
//! corner-sampling collision heuristic, and a typed model of the TMX
//! tile-map format (layers, tilesets, object groups) extracted from a
//! generic XML tree.

pub mod tmx;
pub mod world;
