//! Reading the maps of the Tiled editor.
//!
//! A map document is XML. `parse` reads one from memory into a `TileMap`;
//! `parse_tileset` reads a tileset that is kept in a document of its own.
//! Real numbers are kept as they are written (see `Real`), and a tileset
//! that a map only refers to is asked for, not loaded: this library opens
//! no file.

pub mod codec;
pub mod data;
pub mod error;
pub mod image;
pub mod keyed;
pub mod layer;
pub mod map;
pub mod markup;
pub mod object;
pub mod parse;
pub mod properties;
pub mod scalar;
pub mod text;
pub mod tile;
pub mod tileset;
pub mod views;

pub use data::{Chunk, Chunks, LayerData};
pub use error::{ParseTileError, TiledError};
pub use image::Image;
pub use layer::{ImageLayer, Layer};
pub use map::{Progress, Reading, TileMap};
pub use markup::{read_events, Attribute, Event};
pub use object::{Object, ObjectGroup, ObjectShape};
pub use parse::{parse, parse_events, parse_tileset, start_map};
pub use properties::{Properties, Property, PropertyValue};
pub use scalar::{Colour, Orientation, Real};
pub use tile::LayerTile;
pub use tileset::{Frame, Tile, Tileset, TilesetEntry};
