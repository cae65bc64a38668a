//! The entries of the library: from a document in memory to a map or a
//! tileset.

use crate::error::{fault_text, Fault, TiledError};
use crate::map::{map_at, map_of, MapView, Reading, ReadingView, TileMap};
use crate::markup::{attributes_at, find_root, read_events, seek, xml_events, Event, Root, Start};
use crate::tileset::{document_tileset, Tileset};
use crate::views::viewed;
use vstd::prelude::*;

verus! {

/// The reading of the map of a document, at its start: what the first
/// `map` element describes.
pub open spec fn document_start(events: Seq<Event>) -> Result<ReadingView, Fault> {
    match seek(events, 0, "map"@) {
        Root::Found { at } => match map_of(attributes_at(events, at)) {
            Some(map) => Ok(ReadingView { map, layer_index: 0, at: at + 1 }),
            None => Err(
                Fault::MalformedAttributes(
                    "map must have a version, width and height with correct types"@,
                ),
            ),
        },
        Root::Ended => Err(Fault::PrematureEnd("Document ended before map was parsed"@)),
        Root::Broken { fault } => Err(Fault::Xml(fault_text(fault))),
    }
}

/// The map of a document, where nothing is known of the place of the
/// document: the first `map` element of it, read to its end.
pub open spec fn document_map(events: Seq<Event>) -> Result<MapView, Fault> {
    match seek(events, 0, "map"@) {
        Root::Found { at } => match map_at(events, at + 1, attributes_at(events, at)) {
            Ok((map, _)) => Ok(map),
            Err(e) => Err(e),
        },
        Root::Ended => Err(Fault::PrematureEnd("Document ended before map was parsed"@)),
        Root::Broken { fault } => Err(Fault::Xml(fault_text(fault))),
    }
}

/// Starts the reading of the map of a document. Who knows the place of the
/// document reads on with `Reading::advance`, and loads the tileset of
/// every reference that the reading stops at.
pub fn start_map(events: &Vec<Event>) -> (reading: Result<Reading, TiledError>)
    ensures
        viewed(reading) == document_start(events@),
        reading matches Ok(r) ==> r.at <= events.len(),
{
    match find_root(events, "map") {
        Start::Found { at, attributes } => Reading::begin(at + 1, attributes),
        Start::Ended => Err(TiledError::premature("Document ended before map was parsed")),
        Start::Broken { fault } => Err(TiledError::XmlDecodingError(fault.clone())),
    }
}

/// Reads the map of a document from its events, without the place of the
/// document.
pub fn parse_events(events: &Vec<Event>) -> (map: Result<TileMap, TiledError>)
    ensures
        viewed(map) == document_map(events@),
{
    match find_root(events, "map") {
        Start::Found { at, attributes } => match TileMap::new(events, at + 1, attributes) {
            Ok((map, _)) => Ok(map),
            Err(e) => Err(e),
        },
        Start::Ended => Err(TiledError::premature("Document ended before map was parsed")),
        Start::Broken { fault } => Err(TiledError::XmlDecodingError(fault.clone())),
    }
}

/// Parse a buffer hopefully containing the contents of a Tiled file and try
/// to parse it. Nothing is known of the place of the file, so a tileset in
/// a file of its own cannot be loaded.
pub fn parse(doc: &[u8]) -> (map: Result<TileMap, TiledError>)
    ensures
        viewed(map) == document_map(xml_events(doc@)),
{
    let events = read_events(doc);
    parse_events(&events)
}

/// Parse a buffer hopefully containing the contents of a Tiled tileset.
///
/// External tilesets do not have a firstgid attribute. That lives in the
/// map. You must pass in `first_gid`. If you do not need to use gids for
/// anything, passing in 1 will work fine.
pub fn parse_tileset(doc: &[u8], first_gid: u32) -> (tileset: Result<Tileset, TiledError>)
    ensures
        viewed(tileset) == document_tileset(xml_events(doc@), first_gid),
{
    let events = read_events(doc);
    Tileset::new_external(&events, first_gid)
}

} // verus!
