//! The map: what its element describes, and the reading of its children,
//! which stops at every tileset that is kept in a document of its own.

use crate::error::{fault_text, Fault, TiledError};
use crate::layer::{
    image_layer_at, layer_at, lemma_image_layer_at_advance, lemma_layer_at_advance, ImageLayer,
    ImageLayerView, Layer, LayerView,
};
use crate::markup::{
    attributes_at, ended_early, find, lemma_find_bounds, next_child, Attribute, Event, Found,
    Spot,
};
use crate::object::{group_at, group_of, lemma_group_advance, ObjectGroup, ObjectGroupView};
use crate::properties::{
    lemma_properties_advance, parse_properties, properties_at, Properties, PropertyView,
};
use crate::scalar::{
    colour_attribute, mark_attribute, or_default, orientation_attribute, read_colour, read_mark,
    read_orientation, read_text, read_u32, text_attribute, u32_attribute, Colour, Orientation,
};
use crate::tileset::{
    entry_at, lemma_entry_advance, Tileset, TilesetEntry, TilesetEntryView, TilesetView,
};
use crate::views::{built, lemma_views_empty, lemma_views_push, viewed, views};
use vstd::prelude::*;

verus! {

/// All Tiled files will be parsed into this. Holds all the layers and
/// tilesets.
#[derive(Debug, PartialEq, Clone)]
pub struct TileMap {
    pub version: String,
    pub orientation: Orientation,
    /// Width of the map, in tiles
    pub width: u32,
    /// Height of the map, in tiles
    pub height: u32,
    pub tile_width: u32,
    pub tile_height: u32,
    pub tilesets: Vec<Tileset>,
    pub layers: Vec<Layer>,
    pub image_layers: Vec<ImageLayer>,
    pub object_groups: Vec<ObjectGroup>,
    pub properties: Properties,
    pub background_colour: Option<Colour>,
    pub infinite: bool,
}

/// A `TileMap` as contracts see it.
pub struct MapView {
    pub version: Seq<char>,
    pub orientation: Orientation,
    pub width: u32,
    pub height: u32,
    pub tile_width: u32,
    pub tile_height: u32,
    pub tilesets: Seq<TilesetView>,
    pub layers: Seq<LayerView>,
    pub image_layers: Seq<ImageLayerView>,
    pub object_groups: Seq<ObjectGroupView>,
    pub properties: Map<Seq<char>, PropertyView>,
    pub background_colour: Option<Colour>,
    pub infinite: bool,
}

impl View for TileMap {
    type V = MapView;

    open spec fn view(&self) -> MapView {
        MapView {
            version: self.version@,
            orientation: self.orientation,
            width: self.width,
            height: self.height,
            tile_width: self.tile_width,
            tile_height: self.tile_height,
            tilesets: views(self.tilesets@),
            layers: views(self.layers@),
            image_layers: views(self.image_layers@),
            object_groups: views(self.object_groups@),
            properties: self.properties@,
            background_colour: self.background_colour,
            infinite: self.infinite,
        }
    }
}

/// The first gids of tilesets, in their order.
pub open spec fn first_gids(tilesets: Seq<Tileset>) -> Seq<u32> {
    Seq::new(tilesets.len(), |i: int| tilesets[i].first_gid)
}

/// The position of the tileset that a gid belongs to: the one with the
/// greatest first gid that is not above the gid, and of several such the
/// last; none where every first gid is above it.
pub open spec fn owner(first_gids: Seq<u32>, gid: u32) -> Option<int>
    decreases first_gids.len(),
{
    if first_gids.len() == 0 {
        None
    } else {
        let last = first_gids.last();
        match owner(first_gids.drop_last(), gid) {
            Some(k) => if first_gids[k] <= last && last <= gid {
                Some(first_gids.len() - 1)
            } else {
                Some(k)
            },
            None => if last <= gid {
                Some(first_gids.len() - 1)
            } else {
                None
            },
        }
    }
}

/// The owner of a gid has a first gid that is not above the gid; no tileset
/// with such a first gid has a greater one, and none behind the owner has
/// the same. A gid has no owner if and only if every first gid is above it.
pub proof fn lemma_owner(first_gids: Seq<u32>, gid: u32)
    ensures
        match owner(first_gids, gid) {
            Some(k) => {
                &&& 0 <= k < first_gids.len()
                &&& first_gids[k] <= gid
                &&& forall|i: int|
                    0 <= i < first_gids.len() && first_gids[i] <= gid ==> first_gids[i]
                        <= first_gids[k]
                &&& forall|i: int|
                    k < i < first_gids.len() && first_gids[i] <= gid ==> first_gids[i]
                        < first_gids[k]
            },
            None => forall|i: int| 0 <= i < first_gids.len() ==> first_gids[i] > gid,
        },
    decreases first_gids.len(),
{
    if first_gids.len() > 0 {
        let front = first_gids.drop_last();
        lemma_owner(front, gid);
        assert forall|i: int| 0 <= i < front.len() implies front[i] == first_gids[i] by {}
    }
}

/// In a map whose tilesets have the first gids 1, 50 and 100, in whatever
/// order, gid 0 belongs to none of them, the gids from 1 to 49 to the
/// first, those from 50 to 99 to the second, and all from 100 on to the
/// third.
pub proof fn lemma_owner_of_three(first_gids: Seq<u32>, gid: u32)
    requires
        first_gids.len() == 3,
        first_gids.contains(1),
        first_gids.contains(50),
        first_gids.contains(100),
    ensures
        gid == 0 ==> owner(first_gids, gid) is None,
        1 <= gid <= 49 ==> owner(first_gids, gid) is Some && first_gids[owner(
            first_gids,
            gid,
        ).unwrap()] == 1,
        50 <= gid <= 99 ==> owner(first_gids, gid) is Some && first_gids[owner(
            first_gids,
            gid,
        ).unwrap()] == 50,
        100 <= gid ==> owner(first_gids, gid) is Some && first_gids[owner(
            first_gids,
            gid,
        ).unwrap()] == 100,
{
    lemma_owner(first_gids, gid);
    let a = choose|i: int| 0 <= i < first_gids.len() && first_gids[i] == 1;
    let b = choose|i: int| 0 <= i < first_gids.len() && first_gids[i] == 50;
    let c = choose|i: int| 0 <= i < first_gids.len() && first_gids[i] == 100;
    assert(first_gids[a] == 1 && first_gids[b] == 50 && first_gids[c] == 100);
    assert forall|i: int| 0 <= i < 3 implies first_gids[i] == 1 || first_gids[i] == 50
        || first_gids[i] == 100 by {
        assert(i == a || i == b || i == c);
    }
}

/// The tags that a map looks for.
pub open spec fn map_tags() -> Seq<&'static str> {
    seq!["tileset", "layer", "imagelayer", "properties", "objectgroup"]
}

/// The map that the attributes of a `map` element describe, before any of
/// its children is read. Its version, orientation, width, height and tile
/// measures are required.
pub open spec fn map_of(attributes: Seq<Attribute>) -> Option<MapView> {
    match (
        text_attribute(attributes, "version"@),
        orientation_attribute(attributes, "orientation"@),
        u32_attribute(attributes, "width"@),
        u32_attribute(attributes, "height"@),
        u32_attribute(attributes, "tilewidth"@),
        u32_attribute(attributes, "tileheight"@),
    ) {
        (
            Some(version),
            Some(orientation),
            Some(width),
            Some(height),
            Some(tile_width),
            Some(tile_height),
        ) => Some(
            MapView {
                version,
                orientation,
                width,
                height,
                tile_width,
                tile_height,
                tilesets: Seq::empty(),
                layers: Seq::empty(),
                image_layers: Seq::empty(),
                object_groups: Seq::empty(),
                properties: Map::empty(),
                background_colour: colour_attribute(attributes, "backgroundcolor"@),
                infinite: or_default(mark_attribute(attributes, "infinite"@), false),
            },
        ),
        _ => None,
    }
}

/// A map that is being read: what it holds so far, the index that its next
/// layer gets, and the position at which the reading goes on.
#[derive(Debug, PartialEq, Clone)]
pub struct Reading {
    pub map: TileMap,
    pub layer_index: u32,
    pub at: usize,
}

/// A `Reading` as contracts see it.
pub struct ReadingView {
    pub map: MapView,
    pub layer_index: u32,
    pub at: int,
}

impl View for Reading {
    type V = ReadingView;

    open spec fn view(&self) -> ReadingView {
        ReadingView { map: self.map@, layer_index: self.layer_index, at: self.at as int }
    }
}

/// How far the reading of a map came.
#[derive(Debug, PartialEq, Clone)]
pub enum Progress {
    /// The `map` element is closed; `next` is the position behind it.
    Done { map: TileMap, next: usize },
    /// The map refers to a tileset in the document `source`, a path relative
    /// to the map. The reading goes on once it has the tileset.
    External { reading: Reading, first_gid: u32, source: String },
}

/// `Progress` as contracts see it.
pub enum ProgressView {
    Done { map: MapView, next: int },
    External { reading: ReadingView, first_gid: u32, source: Seq<char> },
}

impl View for Progress {
    type V = ProgressView;

    open spec fn view(&self) -> ProgressView {
        match *self {
            Progress::Done { map, next } => ProgressView::Done { map: map@, next: next as int },
            Progress::External { reading, first_gid, source } => ProgressView::External {
                reading: reading@,
                first_gid,
                source: source@,
            },
        }
    }
}

/// The message for a map with more layers than a layer index can count.
pub open spec fn too_many_layers() -> Seq<char> {
    "A map cannot hold more layers than a layer index can count"@
}

/// How far the reading of a map comes from `from` on, where `layer_index`
/// is the index of the next layer. Tilesets, layers, image layers and object
/// groups add up, each kind in a list of its own; of several bags of
/// properties the last one counts. Every layer, image layer and object
/// group gets the next index, whatever its kind. The reading stops at the
/// first reference to a tileset in a document of its own.
#[verifier::opaque]
pub open spec fn map_from(events: Seq<Event>, from: int, map: MapView, layer_index: u32) -> Result<
    ProgressView,
    Fault,
>
    decreases events.len() - from,
{
    if from < 0 {
        Err(Fault::PrematureEnd(ended_early()))
    } else {
        match find(events, from, "map"@, map_tags()) {
            Spot::Child { tag, at } => {
                proof {
                    lemma_find_bounds(events, from, "map"@, map_tags());
                }
                let attributes = attributes_at(events, at);
                if tag == 0 {
                    match entry_at(events, at + 1, attributes) {
                        Ok((TilesetEntryView::Embedded(tileset), next)) => {
                            proof {
                                lemma_entry_advance(events, at + 1, attributes);
                            }
                            map_from(
                                events,
                                next,
                                MapView { tilesets: map.tilesets.push(tileset), ..map },
                                layer_index,
                            )
                        },
                        Ok((TilesetEntryView::Reference { first_gid, source }, next)) => Ok(
                            ProgressView::External {
                                reading: ReadingView { map, layer_index, at: next },
                                first_gid,
                                source,
                            },
                        ),
                        Err(e) => Err(e),
                    }
                } else if tag == 3 {
                    match properties_at(events, at + 1) {
                        Ok((properties, next)) => {
                            proof {
                                lemma_properties_advance(events, at + 1, Map::empty());
                            }
                            map_from(events, next, MapView { properties, ..map }, layer_index)
                        },
                        Err(e) => Err(e),
                    }
                } else if layer_index == u32::MAX {
                    Err(Fault::Other(too_many_layers()))
                } else if tag == 1 {
                    match layer_at(
                        events,
                        at + 1,
                        attributes,
                        map.width,
                        layer_index,
                        map.infinite,
                    ) {
                        Ok((layer, next)) => {
                            proof {
                                lemma_layer_at_advance(
                                    events,
                                    at + 1,
                                    attributes,
                                    map.width,
                                    layer_index,
                                    map.infinite,
                                );
                            }
                            map_from(
                                events,
                                next,
                                MapView { layers: map.layers.push(layer), ..map },
                                (layer_index + 1) as u32,
                            )
                        },
                        Err(e) => Err(e),
                    }
                } else if tag == 2 {
                    match image_layer_at(events, at + 1, attributes, layer_index) {
                        Ok((layer, next)) => {
                            proof {
                                lemma_image_layer_at_advance(
                                    events,
                                    at + 1,
                                    attributes,
                                    layer_index,
                                );
                            }
                            map_from(
                                events,
                                next,
                                MapView { image_layers: map.image_layers.push(layer), ..map },
                                (layer_index + 1) as u32,
                            )
                        },
                        Err(e) => Err(e),
                    }
                } else {
                    match group_at(events, at + 1, attributes, Some(layer_index)) {
                        Ok((group, next)) => {
                            proof {
                                lemma_group_advance(
                                    events,
                                    at + 1,
                                    group_of(attributes, Some(layer_index)),
                                );
                            }
                            map_from(
                                events,
                                next,
                                MapView { object_groups: map.object_groups.push(group), ..map },
                                (layer_index + 1) as u32,
                            )
                        },
                        Err(e) => Err(e),
                    }
                }
            },
            Spot::Closed { next } => Ok(ProgressView::Done { map, next }),
            Spot::Ended => Err(Fault::PrematureEnd(ended_early())),
            Spot::Broken { fault } => Err(Fault::Xml(fault_text(fault))),
        }
    }
}

/// The message for a reference that cannot be followed.
pub open spec fn no_location() -> Seq<char> {
    "Maps with external tilesets must know their file location.  See parse_with_path(Path)."@
}

/// The map of a `map` element with the given attributes, whose content
/// starts at `from`, where nothing is known of the place of the document:
/// a reference to a tileset in a document of its own cannot be followed.
#[verifier::opaque]
pub open spec fn map_at(events: Seq<Event>, from: int, attributes: Seq<Attribute>) -> Result<
    (MapView, int),
    Fault,
> {
    match map_of(attributes) {
        Some(map) => match map_from(events, from, map, 0) {
            Ok(ProgressView::Done { map, next }) => Ok((map, next)),
            Ok(ProgressView::External { .. }) => Err(Fault::Other(no_location())),
            Err(e) => Err(e),
        },
        None => Err(
            Fault::MalformedAttributes(
                "map must have a version, width and height with correct types"@,
            ),
        ),
    }
}

/// A map that refers to a tileset in a document of its own cannot be read
/// without the place of the map: the reading fails where it meets the
/// reference.
pub proof fn lemma_reference_needs_location(
    events: Seq<Event>,
    from: int,
    attributes: Seq<Attribute>,
)
    requires
        map_of(attributes) is Some,
        map_from(events, from, map_of(attributes).unwrap(), 0) matches Ok(
            ProgressView::External { .. },
        ),
    ensures
        map_at(events, from, attributes) == Err::<(MapView, int), Fault>(
            Fault::Other(no_location()),
        ),
{
    reveal(map_at);
}

/// The reading of a map stops behind the place where it started.
pub proof fn lemma_map_advance(events: Seq<Event>, from: int, map: MapView, layer_index: u32)
    requires
        0 <= from,
    ensures
        match map_from(events, from, map, layer_index) {
            Ok(ProgressView::Done { next, .. }) => from < next <= events.len(),
            Ok(ProgressView::External { reading, .. }) => from < reading.at <= events.len(),
            Err(_) => true,
        },
    decreases events.len() - from,
{
    reveal(map_from);
    lemma_find_bounds(events, from, "map"@, map_tags());
    match find(events, from, "map"@, map_tags()) {
        Spot::Child { tag, at } => {
            let attributes = attributes_at(events, at);
            if tag == 0 {
                lemma_entry_advance(events, at + 1, attributes);
                match entry_at(events, at + 1, attributes) {
                    Ok((TilesetEntryView::Embedded(tileset), next)) => {
                        lemma_map_advance(
                            events,
                            next,
                            MapView { tilesets: map.tilesets.push(tileset), ..map },
                            layer_index,
                        );
                    },
                    _ => {},
                }
            } else if tag == 3 {
                lemma_properties_advance(events, at + 1, Map::empty());
                if let Ok((properties, next)) = properties_at(events, at + 1) {
                    lemma_map_advance(events, next, MapView { properties, ..map }, layer_index);
                }
            } else if layer_index == u32::MAX {
            } else if tag == 1 {
                lemma_layer_at_advance(
                    events,
                    at + 1,
                    attributes,
                    map.width,
                    layer_index,
                    map.infinite,
                );
                if let Ok((layer, next)) = layer_at(
                    events,
                    at + 1,
                    attributes,
                    map.width,
                    layer_index,
                    map.infinite,
                ) {
                    lemma_map_advance(
                        events,
                        next,
                        MapView { layers: map.layers.push(layer), ..map },
                        (layer_index + 1) as u32,
                    );
                }
            } else if tag == 2 {
                lemma_image_layer_at_advance(events, at + 1, attributes, layer_index);
                if let Ok((layer, next)) = image_layer_at(events, at + 1, attributes, layer_index) {
                    lemma_map_advance(
                        events,
                        next,
                        MapView { image_layers: map.image_layers.push(layer), ..map },
                        (layer_index + 1) as u32,
                    );
                }
            } else {
                lemma_group_advance(events, at + 1, group_of(attributes, Some(layer_index)));
                if let Ok((group, next)) = group_at(
                    events,
                    at + 1,
                    attributes,
                    Some(layer_index),
                ) {
                    lemma_map_advance(
                        events,
                        next,
                        MapView { object_groups: map.object_groups.push(group), ..map },
                        (layer_index + 1) as u32,
                    );
                }
            }
        },
        _ => {},
    }
}

impl Reading {
    /// Starts the reading of a `map` element with the given attributes,
    /// whose content starts at `from`.
    pub fn begin(from: usize, attributes: &Vec<Attribute>) -> (reading: Result<Reading, TiledError>)
        ensures
            match reading {
                Ok(r) => map_of(attributes@) == Some(r.map@) && r.layer_index == 0 && r.at == from,
                Err(e) => map_of(attributes@) is None && e@ == Fault::MalformedAttributes(
                    "map must have a version, width and height with correct types"@,
                ),
            },
    {
        let background_colour = read_colour(attributes, "backgroundcolor");
        let infinite = read_mark(attributes, "infinite");
        let version = read_text(attributes, "version");
        let orientation = read_orientation(attributes, "orientation");
        let width = read_u32(attributes, "width");
        let height = read_u32(attributes, "height");
        let tile_width = read_u32(attributes, "tilewidth");
        let tile_height = read_u32(attributes, "tileheight");
        proof {
            lemma_views_empty::<Tileset>();
            lemma_views_empty::<Layer>();
            lemma_views_empty::<ImageLayer>();
            lemma_views_empty::<ObjectGroup>();
        }
        match (version, orientation, width, height, tile_width, tile_height) {
            (
                Some(version),
                Some(orientation),
                Some(width),
                Some(height),
                Some(tile_width),
                Some(tile_height),
            ) => Ok(
                Reading {
                    map: TileMap {
                        version,
                        orientation,
                        width,
                        height,
                        tile_width,
                        tile_height,
                        tilesets: Vec::new(),
                        layers: Vec::new(),
                        image_layers: Vec::new(),
                        object_groups: Vec::new(),
                        properties: Properties::new(),
                        background_colour,
                        infinite: match infinite {
                            Some(v) => v,
                            None => false,
                        },
                    },
                    layer_index: 0,
                    at: from,
                },
            ),
            _ => Err(
                TiledError::malformed(
                    "map must have a version, width and height with correct types",
                ),
            ),
        }
    }

    /// Reads on, up to the end of the `map` element or to the next
    /// reference to a tileset in a document of its own.
    pub fn advance(self, events: &Vec<Event>) -> (outcome: Result<Progress, TiledError>)
        ensures
            viewed(outcome) == map_from(
                events@,
                self.at as int,
                self.map@,
                self.layer_index,
            ),
            match outcome {
                Ok(Progress::Done { next, .. }) => self.at < next <= events.len(),
                Ok(Progress::External { reading, .. }) => self.at < reading.at <= events.len(),
                Err(_) => true,
            },
    {
        let ghost start = self@;
        let mut map = self.map;
        let mut layer_index = self.layer_index;
        let mut at: usize = self.at;
        let tags: [&str; 5] = ["tileset", "layer", "imagelayer", "properties", "objectgroup"];
        assert(tags@ =~= map_tags());
        loop
            invariant
                start == self@,
                start.at <= at,
                tags@ == map_tags(),
                map_from(events@, start.at, start.map, start.layer_index) == map_from(
                    events@,
                    at as int,
                    map@,
                    layer_index,
                ),
            decreases events.len() - at,
        {
            proof {
                reveal(map_from);
                lemma_map_advance(events@, at as int, map@, layer_index);
            }
            match next_child(events, at, "map", &tags) {
                Found::Child { tag, at: child, attributes } => {
                    if tag == 0 {
                        proof {
                            lemma_entry_advance(events@, child + 1, attributes@);
                        }
                        match Tileset::new(events, child + 1, attributes) {
                            Ok((TilesetEntry::Embedded(tileset), next)) => {
                                proof {
                                    lemma_views_push(map.tilesets@, tileset);
                                }
                                map.tilesets.push(tileset);
                                at = next;
                            },
                            Ok((TilesetEntry::Reference { first_gid, source }, next)) => {
                                return Ok(
                                    Progress::External {
                                        reading: Reading { map, layer_index, at: next },
                                        first_gid,
                                        source,
                                    },
                                );
                            },
                            Err(e) => {
                                return Err(e);
                            },
                        }
                    } else if tag == 3 {
                        match parse_properties(events, child + 1) {
                            Ok((properties, next)) => {
                                map.properties = properties;
                                at = next;
                            },
                            Err(e) => {
                                return Err(e);
                            },
                        }
                    } else if layer_index == u32::MAX {
                        return Err(
                            TiledError::other(
                                "A map cannot hold more layers than a layer index can count",
                            ),
                        );
                    } else if tag == 1 {
                        match Layer::new(
                            events,
                            child + 1,
                            attributes,
                            map.width,
                            layer_index,
                            map.infinite,
                        ) {
                            Ok((layer, next)) => {
                                proof {
                                    lemma_views_push(map.layers@, layer);
                                }
                                map.layers.push(layer);
                                layer_index = layer_index + 1;
                                at = next;
                            },
                            Err(e) => {
                                return Err(e);
                            },
                        }
                    } else if tag == 2 {
                        match ImageLayer::new(events, child + 1, attributes, layer_index) {
                            Ok((layer, next)) => {
                                proof {
                                    lemma_views_push(map.image_layers@, layer);
                                }
                                map.image_layers.push(layer);
                                layer_index = layer_index + 1;
                                at = next;
                            },
                            Err(e) => {
                                return Err(e);
                            },
                        }
                    } else {
                        match ObjectGroup::new(events, child + 1, attributes, Some(layer_index)) {
                            Ok((group, next)) => {
                                proof {
                                    lemma_views_push(map.object_groups@, group);
                                }
                                map.object_groups.push(group);
                                layer_index = layer_index + 1;
                                at = next;
                            },
                            Err(e) => {
                                return Err(e);
                            },
                        }
                    }
                },
                Found::Closed { next } => {
                    return Ok(Progress::Done { map, next });
                },
                Found::Ended => {
                    return Err(TiledError::premature("Document ended before we expected."));
                },
                Found::Broken { fault } => {
                    return Err(TiledError::XmlDecodingError(fault.clone()));
                },
            }
        }
    }

    /// Hands the reading the tileset that the last reference stands for.
    pub fn supply(self, tileset: Tileset) -> (reading: Reading)
        ensures
            reading@ == (ReadingView {
                map: MapView { tilesets: self.map@.tilesets.push(tileset@), ..self.map@ },
                ..self@
            }),
    {
        let mut reading = self;
        proof {
            lemma_views_push(reading.map.tilesets@, tileset);
        }
        reading.map.tilesets.push(tileset);
        reading
    }
}

impl TileMap {
    /// Reads a `map` element with the given attributes, whose content starts
    /// at `from`, without the place of the document.
    pub fn new(events: &Vec<Event>, from: usize, attributes: &Vec<Attribute>) -> (outcome: Result<
        (TileMap, usize),
        TiledError,
    >)
        ensures
            built(outcome) == map_at(events@, from as int, attributes@),
            outcome matches Ok((_, next)) ==> from < next <= events.len(),
    {
        reveal(map_at);
        let reading = match Reading::begin(from, attributes) {
            Ok(r) => r,
            Err(e) => {
                return Err(e);
            },
        };
        match reading.advance(events) {
            Ok(Progress::Done { map, next }) => Ok((map, next)),
            Ok(Progress::External { .. }) => Err(
                TiledError::other(
                    "Maps with external tilesets must know their file location.  See parse_with_path(Path).",
                ),
            ),
            Err(e) => Err(e),
        }
    }

    /// This function will return the correct Tileset given a GID.
    pub fn get_tileset_by_gid(&self, gid: u32) -> (tileset: Option<&Tileset>)
        ensures
            match owner(first_gids(self.tilesets@), gid) {
                Some(k) => 0 <= k < self.tilesets@.len() && tileset == Some(&self.tilesets@[k]),
                None => tileset is None,
            },
            tileset matches Some(t) ==> t.first_gid <= gid && forall|i: int|
                0 <= i < self.tilesets@.len() && self.tilesets@[i].first_gid <= gid
                    ==> self.tilesets@[i].first_gid <= t.first_gid,
            tileset is None ==> forall|i: int|
                0 <= i < self.tilesets@.len() ==> self.tilesets@[i].first_gid > gid,
    {
        let mut gids: Vec<u32> = Vec::new();
        let mut i: usize = 0;
        while i < self.tilesets.len()
            invariant
                i <= self.tilesets@.len(),
                gids@ == first_gids(self.tilesets@).take(i as int),
            decreases self.tilesets.len() - i,
        {
            gids.push(self.tilesets[i].first_gid);
            assert(gids@ =~= first_gids(self.tilesets@).take(i + 1));
            i += 1;
        }
        assert(gids@ =~= first_gids(self.tilesets@));
        let found = owner_of(&gids, gid);
        assert forall|i: int| 0 <= i < self.tilesets@.len() implies gids@[i] == (
        #[trigger] self.tilesets@[i]).first_gid by {}
        match found {
            Some(k) => Some(&self.tilesets[k]),
            None => None,
        }
    }
}

/// Finds the tileset that a gid belongs to among tilesets with the given
/// first gids.
pub fn owner_of(first_gids: &Vec<u32>, gid: u32) -> (at: Option<usize>)
    ensures
        match owner(first_gids@, gid) {
            Some(k) => 0 <= k < first_gids@.len() && at == Some(k as usize),
            None => at is None,
        },
        match at {
            Some(k) => {
                &&& k < first_gids@.len()
                &&& first_gids@[k as int] <= gid
                &&& forall|i: int|
                    0 <= i < first_gids@.len() && first_gids@[i] <= gid ==> first_gids@[i]
                        <= first_gids@[k as int]
                &&& forall|i: int|
                    k < i < first_gids@.len() && first_gids@[i] <= gid ==> first_gids@[i]
                        < first_gids@[k as int]
            },
            None => forall|i: int| 0 <= i < first_gids@.len() ==> first_gids@[i] > gid,
        },
{
    proof {
        lemma_owner(first_gids@, gid);
    }
    let mut best: Option<usize> = None;
    let mut i: usize = 0;
    assert(first_gids@.take(0) =~= Seq::<u32>::empty());
    while i < first_gids.len()
        invariant
            i <= first_gids@.len(),
            match owner(first_gids@.take(i as int), gid) {
                Some(k) => best == Some(k as usize) && 0 <= k < i,
                None => best is None,
            },
        decreases first_gids.len() - i,
    {
        proof {
            assert(first_gids@.take(i + 1).drop_last() =~= first_gids@.take(i as int));
            assert(first_gids@.take(i + 1).last() == first_gids@[i as int]);
        }
        let first = first_gids[i];
        if first <= gid {
            let better = match best {
                Some(k) => first_gids[k] <= first,
                None => true,
            };
            if better {
                best = Some(i);
            }
        }
        i += 1;
    }
    assert(first_gids@.take(i as int) =~= first_gids@);
    best
}

/// The number of layers of all kinds that a map holds.
pub open spec fn layer_count(map: MapView) -> int {
    (map.layers.len() + map.image_layers.len() + map.object_groups.len()) as int
}

/// The layers, image layers and object groups of a map have the indices
/// from 0 up to `count`, each index once, and each kind in rising order.
pub open spec fn in_one_sequence(map: MapView, count: int) -> bool {
    &&& layer_count(map) == count
    &&& forall|i: int|
        0 <= i < map.layers.len() ==> 0 <= (#[trigger] map.layers[i]).layer_index < count
    &&& forall|i: int|
        0 <= i < map.image_layers.len() ==> 0 <= (#[trigger] map.image_layers[i]).layer_index
            < count
    &&& forall|i: int|
        0 <= i < map.object_groups.len() ==> (#[trigger] map.object_groups[i]).layer_index is Some
            && map.object_groups[i].layer_index.unwrap() < count
    &&& forall|i: int, j: int|
        0 <= i < j < map.layers.len() ==> (#[trigger] map.layers[i]).layer_index < (
        #[trigger] map.layers[j]).layer_index
    &&& forall|i: int, j: int|
        0 <= i < j < map.image_layers.len() ==> (#[trigger] map.image_layers[i]).layer_index < (
        #[trigger] map.image_layers[j]).layer_index
    &&& forall|i: int, j: int|
        0 <= i < j < map.object_groups.len() ==> (
        #[trigger] map.object_groups[i]).layer_index.unwrap() < (
        #[trigger] map.object_groups[j]).layer_index.unwrap()
    &&& forall|i: int, j: int|
        0 <= i < map.layers.len() && 0 <= j < map.image_layers.len() ==> (
        #[trigger] map.layers[i]).layer_index != (#[trigger] map.image_layers[j]).layer_index
    &&& forall|i: int, j: int|
        0 <= i < map.layers.len() && 0 <= j < map.object_groups.len() ==> Some(
            (#[trigger] map.layers[i]).layer_index,
        ) != (#[trigger] map.object_groups[j]).layer_index
    &&& forall|i: int, j: int|
        0 <= i < map.image_layers.len() && 0 <= j < map.object_groups.len() ==> Some(
            (#[trigger] map.image_layers[i]).layer_index,
        ) != (#[trigger] map.object_groups[j]).layer_index
}

/// However far the reading of a map comes, the layer indices that it has
/// given out so far are one sequence: whatever the kind of a layer, it has
/// the index that says how many layers of all kinds came before it.
pub proof fn lemma_layers_in_one_sequence(
    events: Seq<Event>,
    from: int,
    map: MapView,
    layer_index: u32,
)
    requires
        0 <= from,
        in_one_sequence(map, layer_index as int),
    ensures
        match map_from(events, from, map, layer_index) {
            Ok(ProgressView::Done { map: all, .. }) => in_one_sequence(all, layer_count(all)),
            Ok(ProgressView::External { reading, .. }) => in_one_sequence(
                reading.map,
                reading.layer_index as int,
            ),
            Err(_) => true,
        },
    decreases events.len() - from,
{
    reveal(map_from);
    lemma_find_bounds(events, from, "map"@, map_tags());
    match find(events, from, "map"@, map_tags()) {
        Spot::Child { tag, at } => {
            let attributes = attributes_at(events, at);
            if tag == 0 {
                lemma_entry_advance(events, at + 1, attributes);
                match entry_at(events, at + 1, attributes) {
                    Ok((TilesetEntryView::Embedded(tileset), next)) => {
                        lemma_layers_in_one_sequence(
                            events,
                            next,
                            MapView { tilesets: map.tilesets.push(tileset), ..map },
                            layer_index,
                        );
                    },
                    _ => {},
                }
            } else if tag == 3 {
                lemma_properties_advance(events, at + 1, Map::empty());
                if let Ok((properties, next)) = properties_at(events, at + 1) {
                    lemma_layers_in_one_sequence(
                        events,
                        next,
                        MapView { properties, ..map },
                        layer_index,
                    );
                }
            } else if layer_index == u32::MAX {
            } else if tag == 1 {
                lemma_layer_at_advance(
                    events,
                    at + 1,
                    attributes,
                    map.width,
                    layer_index,
                    map.infinite,
                );
                if let Ok((layer, next)) = layer_at(
                    events,
                    at + 1,
                    attributes,
                    map.width,
                    layer_index,
                    map.infinite,
                ) {
                    let more = MapView { layers: map.layers.push(layer), ..map };
                    assert(in_one_sequence(more, layer_index + 1));
                    lemma_layers_in_one_sequence(events, next, more, (layer_index + 1) as u32);
                }
            } else if tag == 2 {
                lemma_image_layer_at_advance(events, at + 1, attributes, layer_index);
                if let Ok((layer, next)) = image_layer_at(events, at + 1, attributes, layer_index) {
                    let more = MapView { image_layers: map.image_layers.push(layer), ..map };
                    assert(in_one_sequence(more, layer_index + 1));
                    lemma_layers_in_one_sequence(events, next, more, (layer_index + 1) as u32);
                }
            } else {
                lemma_group_advance(events, at + 1, group_of(attributes, Some(layer_index)));
                if let Ok((group, next)) = group_at(
                    events,
                    at + 1,
                    attributes,
                    Some(layer_index),
                ) {
                    let more = MapView { object_groups: map.object_groups.push(group), ..map };
                    assert(in_one_sequence(more, layer_index + 1));
                    lemma_layers_in_one_sequence(events, next, more, (layer_index + 1) as u32);
                }
            }
        },
        _ => {},
    }
}

/// In a map that was read to its end, the layer indices are one sequence.
pub proof fn lemma_map_in_one_sequence(events: Seq<Event>, from: int, attributes: Seq<Attribute>)
    requires
        0 <= from,
    ensures
        map_at(events, from, attributes) matches Ok((map, _)) ==> in_one_sequence(
            map,
            layer_count(map),
        ),
{
    reveal(map_at);
    if let Some(map) = map_of(attributes) {
        lemma_layers_in_one_sequence(events, from, map, 0);
    }
}

} // verus!
