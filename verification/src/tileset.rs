//! Tilesets, the tiles that they say more about, and animations.

use crate::error::{fault_text, Fault, TiledError};
use crate::image::{image_at, lemma_image_advance, Image, ImageView};
use crate::markup::{
    attributes_at, ended_early, find, find_root, lemma_find_bounds, next_child, seek, Attribute,
    Event, Found, Root, Spot, Start,
};
use crate::object::{group_at, group_of, lemma_group_advance, ObjectGroup, ObjectGroupView};
use crate::properties::{
    lemma_properties_advance, parse_properties, properties_at, Properties, PropertyView,
};
use crate::scalar::{
    or_default, read_real, read_text, read_u32, real_attribute, text_attribute, text_view,
    u32_attribute, Real,
};
use crate::views::{built, lemma_views_empty, lemma_views_push, view_of, viewed, views};
use vstd::prelude::*;

verus! {

/// One step of an animation: a tile of the tileset, shown for `duration`
/// milliseconds.
#[derive(Debug, PartialEq, Eq, Clone, Copy, Structural)]
pub struct Frame {
    pub tile_id: u32,
    pub duration: u32,
}

/// The frame that the attributes of a `frame` element describe. Both of its
/// attributes are required.
pub open spec fn frame_of(attributes: Seq<Attribute>) -> Result<Frame, Fault> {
    match (u32_attribute(attributes, "tileid"@), u32_attribute(attributes, "duration"@)) {
        (Some(tile_id), Some(duration)) => Ok(Frame { tile_id, duration }),
        _ => Err(Fault::MalformedAttributes("A frame must have tileid and duration"@)),
    }
}

impl Frame {
    /// Reads a `frame` element.
    pub fn new(attributes: &Vec<Attribute>) -> (frame: Result<Frame, TiledError>)
        ensures
            match frame {
                Ok(f) => frame_of(attributes@) == Ok::<Frame, Fault>(f),
                Err(e) => frame_of(attributes@) == Err::<Frame, Fault>(e@),
            },
    {
        let tile_id = read_u32(attributes, "tileid");
        let duration = read_u32(attributes, "duration");
        match (tile_id, duration) {
            (Some(tile_id), Some(duration)) => Ok(Frame { tile_id, duration }),
            _ => Err(TiledError::malformed("A frame must have tileid and duration")),
        }
    }
}

/// The tags that an animation looks for.
pub open spec fn animation_tags() -> Seq<&'static str> {
    seq!["frame"]
}

/// The frames that follow `frames` from `from` on, up to the end of the
/// `animation` element, with the position behind it.
#[verifier::opaque]
pub open spec fn animation_from(events: Seq<Event>, from: int, frames: Seq<Frame>) -> Result<
    (Seq<Frame>, int),
    Fault,
>
    decreases events.len() - from,
{
    if from < 0 {
        Err(Fault::PrematureEnd(ended_early()))
    } else {
        match find(events, from, "animation"@, animation_tags()) {
            Spot::Child { tag, at } => {
                proof {
                    lemma_find_bounds(events, from, "animation"@, animation_tags());
                }
                match frame_of(attributes_at(events, at)) {
                    Ok(frame) => animation_from(events, at + 1, frames.push(frame)),
                    Err(e) => Err(e),
                }
            },
            Spot::Closed { next } => Ok((frames, next)),
            Spot::Ended => Err(Fault::PrematureEnd(ended_early())),
            Spot::Broken { fault } => Err(Fault::Xml(fault_text(fault))),
        }
    }
}

/// The frames of an `animation` element whose content starts at `from`.
pub open spec fn animation_at(events: Seq<Event>, from: int) -> Result<(Seq<Frame>, int), Fault> {
    animation_from(events, from, Seq::empty())
}

/// An animation ends behind the place where its content starts.
pub proof fn lemma_animation_advance(events: Seq<Event>, from: int, frames: Seq<Frame>)
    requires
        0 <= from,
    ensures
        animation_from(events, from, frames) matches Ok((_, next)) ==> from < next <= events.len(),
    decreases events.len() - from,
{
    reveal(animation_from);
    lemma_find_bounds(events, from, "animation"@, animation_tags());
    match find(events, from, "animation"@, animation_tags()) {
        Spot::Child { tag, at } => {
            if let Ok(frame) = frame_of(attributes_at(events, at)) {
                lemma_animation_advance(events, at + 1, frames.push(frame));
            }
        },
        _ => {},
    }
}

/// Builds the frames of an `animation` element whose content starts at
/// `from`.
pub fn parse_animation(events: &Vec<Event>, from: usize) -> (outcome: Result<
    (Vec<Frame>, usize),
    TiledError,
>)
    ensures
        match outcome {
            Ok((frames, next)) => animation_at(events@, from as int) == Ok::<
                (Seq<Frame>, int),
                Fault,
            >((frames@, next as int)) && from < next <= events.len(),
            Err(e) => animation_at(events@, from as int) == Err::<(Seq<Frame>, int), Fault>(e@),
        },
{
    let mut frames: Vec<Frame> = Vec::new();
    let tags: [&str; 1] = ["frame"];
    assert(tags@ =~= animation_tags());
    let mut at: usize = from;
    loop
        invariant
            from <= at,
            tags@ == animation_tags(),
            animation_at(events@, from as int) == animation_from(events@, at as int, frames@),
        decreases events.len() - at,
    {
        proof {
            reveal(animation_from);
            lemma_animation_advance(events@, at as int, frames@);
        }
        match next_child(events, at, "animation", &tags) {
            Found::Child { tag, at: child, attributes } => {
                match Frame::new(attributes) {
                    Ok(frame) => {
                        frames.push(frame);
                        at = child + 1;
                    },
                    Err(e) => {
                        return Err(e);
                    },
                }
            },
            Found::Closed { next } => {
                return Ok((frames, next));
            },
            Found::Ended => {
                return Err(TiledError::premature("Document ended before we expected."));
            },
            Found::Broken { fault } => {
                return Err(TiledError::XmlDecodingError(fault.clone()));
            },
        }
    }
}

/// What a tileset says of one of its tiles.
#[derive(Debug, PartialEq, Clone)]
pub struct Tile {
    pub id: u32,
    pub images: Vec<Image>,
    pub properties: Properties,
    pub objectgroup: Option<ObjectGroup>,
    pub animation: Option<Vec<Frame>>,
    pub tile_type: Option<String>,
    pub probability: Real,
}

/// A `Tile` as contracts see it.
pub struct TileView {
    pub id: u32,
    pub images: Seq<ImageView>,
    pub properties: Map<Seq<char>, PropertyView>,
    pub objectgroup: Option<ObjectGroupView>,
    pub animation: Option<Seq<Frame>>,
    pub tile_type: Option<Seq<char>>,
    pub probability: Seq<char>,
}

/// An optional animation as contracts see it.
pub open spec fn frames_view(animation: Option<Vec<Frame>>) -> Option<Seq<Frame>> {
    match animation {
        Some(frames) => Some(frames@),
        None => None,
    }
}

impl View for Tile {
    type V = TileView;

    open spec fn view(&self) -> TileView {
        TileView {
            id: self.id,
            images: views(self.images@),
            properties: self.properties@,
            objectgroup: view_of(self.objectgroup),
            animation: frames_view(self.animation),
            tile_type: text_view(self.tile_type),
            probability: self.probability@,
        }
    }
}

/// The tags that a tile looks for.
pub open spec fn tile_tags() -> Seq<&'static str> {
    seq!["image", "properties", "objectgroup", "animation"]
}

/// The tile that the attributes of a `tile` element describe, before any of
/// its children is read. Its id is required.
pub open spec fn tile_of(attributes: Seq<Attribute>) -> Option<TileView> {
    match u32_attribute(attributes, "id"@) {
        Some(id) => Some(
            TileView {
                id,
                images: Seq::empty(),
                properties: Map::empty(),
                objectgroup: None,
                animation: None,
                tile_type: text_attribute(attributes, "type"@),
                probability: or_default(real_attribute(attributes, "probability"@), "1.0"@),
            },
        ),
        None => None,
    }
}

/// The tile that `tile` becomes by the children from `from` on, with the
/// position behind the `tile` element. Images add up; of properties, object
/// groups and animations the last one counts.
#[verifier::opaque]
pub open spec fn tile_from(events: Seq<Event>, from: int, tile: TileView) -> Result<
    (TileView, int),
    Fault,
>
    decreases events.len() - from,
{
    if from < 0 {
        Err(Fault::PrematureEnd(ended_early()))
    } else {
        match find(events, from, "tile"@, tile_tags()) {
            Spot::Child { tag, at } => {
                proof {
                    lemma_find_bounds(events, from, "tile"@, tile_tags());
                }
                let attributes = attributes_at(events, at);
                if tag == 0 {
                    match image_at(events, at + 1, attributes) {
                        Ok((image, next)) => {
                            proof {
                                lemma_image_advance(events, at + 1, attributes);
                            }
                            tile_from(
                                events,
                                next,
                                TileView { images: tile.images.push(image), ..tile },
                            )
                        },
                        Err(e) => Err(e),
                    }
                } else if tag == 1 {
                    match properties_at(events, at + 1) {
                        Ok((properties, next)) => {
                            proof {
                                lemma_properties_advance(events, at + 1, Map::empty());
                            }
                            tile_from(events, next, TileView { properties, ..tile })
                        },
                        Err(e) => Err(e),
                    }
                } else if tag == 2 {
                    match group_at(events, at + 1, attributes, None) {
                        Ok((group, next)) => {
                            proof {
                                lemma_group_advance(events, at + 1, group_of(attributes, None));
                            }
                            tile_from(events, next, TileView { objectgroup: Some(group), ..tile })
                        },
                        Err(e) => Err(e),
                    }
                } else {
                    match animation_at(events, at + 1) {
                        Ok((frames, next)) => {
                            proof {
                                lemma_animation_advance(events, at + 1, Seq::empty());
                            }
                            tile_from(events, next, TileView { animation: Some(frames), ..tile })
                        },
                        Err(e) => Err(e),
                    }
                }
            },
            Spot::Closed { next } => Ok((tile, next)),
            Spot::Ended => Err(Fault::PrematureEnd(ended_early())),
            Spot::Broken { fault } => Err(Fault::Xml(fault_text(fault))),
        }
    }
}

/// The tile of a `tile` element with the given attributes, whose content
/// starts at `from`.
#[verifier::opaque]
pub open spec fn tile_at(events: Seq<Event>, from: int, attributes: Seq<Attribute>) -> Result<
    (TileView, int),
    Fault,
> {
    match tile_of(attributes) {
        Some(tile) => tile_from(events, from, tile),
        None => Err(Fault::MalformedAttributes("tile must have an id with the correct type"@)),
    }
}

/// A tile ends behind the place where its content starts.
pub proof fn lemma_tile_advance(events: Seq<Event>, from: int, tile: TileView)
    requires
        0 <= from,
    ensures
        tile_from(events, from, tile) matches Ok((_, next)) ==> from < next <= events.len(),
    decreases events.len() - from,
{
    reveal(tile_from);
    lemma_find_bounds(events, from, "tile"@, tile_tags());
    match find(events, from, "tile"@, tile_tags()) {
        Spot::Child { tag, at } => {
            let attributes = attributes_at(events, at);
            if tag == 0 {
                lemma_image_advance(events, at + 1, attributes);
                if let Ok((image, next)) = image_at(events, at + 1, attributes) {
                    lemma_tile_advance(
                        events,
                        next,
                        TileView { images: tile.images.push(image), ..tile },
                    );
                }
            } else if tag == 1 {
                if let Ok((properties, next)) = properties_at(events, at + 1) {
                    lemma_properties_advance(events, at + 1, Map::empty());
                    lemma_tile_advance(events, next, TileView { properties, ..tile });
                }
            } else if tag == 2 {
                if let Ok((group, next)) = group_at(events, at + 1, attributes, None) {
                    lemma_group_advance(events, at + 1, group_of(attributes, None));
                    lemma_tile_advance(events, next, TileView { objectgroup: Some(group), ..tile });
                }
            } else {
                if let Ok((frames, next)) = animation_at(events, at + 1) {
                    lemma_animation_advance(events, at + 1, Seq::empty());
                    lemma_tile_advance(events, next, TileView { animation: Some(frames), ..tile });
                }
            }
        },
        _ => {},
    }
}

/// A tile ends behind the place where its content starts.
pub proof fn lemma_tile_at_advance(events: Seq<Event>, from: int, attributes: Seq<Attribute>)
    requires
        0 <= from,
    ensures
        tile_at(events, from, attributes) matches Ok((_, next)) ==> from < next <= events.len(),
{
    reveal(tile_at);
    if let Some(tile) = tile_of(attributes) {
        lemma_tile_advance(events, from, tile);
    }
}

impl Tile {
    /// Reads a `tile` element with the given attributes, whose content
    /// starts at `from`.
    pub fn new(events: &Vec<Event>, from: usize, attributes: &Vec<Attribute>) -> (outcome: Result<
        (Tile, usize),
        TiledError,
    >)
        ensures
            built(outcome) == tile_at(events@, from as int, attributes@),
            outcome matches Ok((_, next)) ==> from < next <= events.len(),
    {
        reveal(tile_at);
        let tile_type = read_text(attributes, "type");
        let probability = read_real(attributes, "probability");
        let id = match read_u32(attributes, "id") {
            Some(id) => id,
            None => {
                return Err(TiledError::malformed("tile must have an id with the correct type"));
            },
        };
        let mut tile = Tile {
            id,
            images: Vec::new(),
            properties: Properties::new(),
            objectgroup: None,
            animation: None,
            tile_type,
            probability: match probability {
                Some(p) => p,
                None => Real::one(),
            },
        };
        proof {
            lemma_views_empty::<Image>();
        }
        let tags: [&str; 4] = ["image", "properties", "objectgroup", "animation"];
        assert(tags@ =~= tile_tags());
        let mut at: usize = from;
        loop
            invariant
                from <= at,
                tags@ == tile_tags(),
                tile_at(events@, from as int, attributes@) == tile_from(events@, at as int, tile@),
            decreases events.len() - at,
        {
            proof {
                reveal(tile_from);
                lemma_tile_advance(events@, at as int, tile@);
            }
            match next_child(events, at, "tile", &tags) {
                Found::Child { tag, at: child, attributes: given } => {
                    if tag == 0 {
                        match Image::new(events, child + 1, given) {
                            Ok((image, next)) => {
                                proof {
                                    lemma_views_push(tile.images@, image);
                                }
                                tile.images.push(image);
                                at = next;
                            },
                            Err(e) => {
                                return Err(e);
                            },
                        }
                    } else if tag == 1 {
                        match parse_properties(events, child + 1) {
                            Ok((properties, next)) => {
                                tile.properties = properties;
                                at = next;
                            },
                            Err(e) => {
                                return Err(e);
                            },
                        }
                    } else if tag == 2 {
                        match ObjectGroup::new(events, child + 1, given, None) {
                            Ok((group, next)) => {
                                tile.objectgroup = Some(group);
                                at = next;
                            },
                            Err(e) => {
                                return Err(e);
                            },
                        }
                    } else {
                        match parse_animation(events, child + 1) {
                            Ok((frames, next)) => {
                                tile.animation = Some(frames);
                                at = next;
                            },
                            Err(e) => {
                                return Err(e);
                            },
                        }
                    }
                },
                Found::Closed { next } => {
                    return Ok((tile, next));
                },
                Found::Ended => {
                    return Err(TiledError::premature("Document ended before we expected."));
                },
                Found::Broken { fault } => {
                    return Err(TiledError::XmlDecodingError(fault.clone()));
                },
            }
        }
    }
}

/// A tileset, usually the tilesheet image.
#[derive(Debug, PartialEq, Clone)]
pub struct Tileset {
    /// The GID of the first tile stored
    pub first_gid: u32,
    pub name: String,
    pub tile_width: u32,
    pub tile_height: u32,
    pub spacing: u32,
    pub margin: u32,
    pub tilecount: Option<u32>,
    pub columns: u32,
    /// A tileset can have several images, so a `Vec` is used. Usually you
    /// will only use one.
    pub images: Vec<Image>,
    pub tiles: Vec<Tile>,
    pub properties: Properties,
}

/// A `Tileset` as contracts see it.
pub struct TilesetView {
    pub first_gid: u32,
    pub name: Seq<char>,
    pub tile_width: u32,
    pub tile_height: u32,
    pub spacing: u32,
    pub margin: u32,
    pub tilecount: Option<u32>,
    pub columns: u32,
    pub images: Seq<ImageView>,
    pub tiles: Seq<TileView>,
    pub properties: Map<Seq<char>, PropertyView>,
}

impl View for Tileset {
    type V = TilesetView;

    open spec fn view(&self) -> TilesetView {
        TilesetView {
            first_gid: self.first_gid,
            name: self.name@,
            tile_width: self.tile_width,
            tile_height: self.tile_height,
            spacing: self.spacing,
            margin: self.margin,
            tilecount: self.tilecount,
            columns: self.columns,
            images: views(self.images@),
            tiles: views(self.tiles@),
            properties: self.properties@,
        }
    }
}

/// The tags that a tileset looks for.
pub open spec fn tileset_tags() -> Seq<&'static str> {
    seq!["image", "properties", "tile"]
}

/// The tileset that the attributes of a `tileset` element in its own
/// document describe, before any of its children is read; the first gid
/// comes from the map that refers to the document. The name, both tile
/// measures and the number of columns are required.
pub open spec fn external_of(attributes: Seq<Attribute>, first_gid: u32) -> Option<TilesetView> {
    match (
        text_attribute(attributes, "name"@),
        u32_attribute(attributes, "tilewidth"@),
        u32_attribute(attributes, "tileheight"@),
        u32_attribute(attributes, "columns"@),
    ) {
        (Some(name), Some(tile_width), Some(tile_height), Some(columns)) => Some(
            TilesetView {
                first_gid,
                name,
                tile_width,
                tile_height,
                spacing: or_default(u32_attribute(attributes, "spacing"@), 0),
                margin: or_default(u32_attribute(attributes, "margin"@), 0),
                tilecount: u32_attribute(attributes, "tilecount"@),
                columns,
                images: Seq::empty(),
                tiles: Seq::empty(),
                properties: Map::empty(),
            },
        ),
        _ => None,
    }
}

/// The tileset that the attributes of a `tileset` element inside a map
/// describe, before any of its children is read: as in a document of its
/// own, with the first gid as one more required attribute.
pub open spec fn embedded_of(attributes: Seq<Attribute>) -> Option<TilesetView> {
    match u32_attribute(attributes, "firstgid"@) {
        Some(first_gid) => external_of(attributes, first_gid),
        None => None,
    }
}

/// The tileset that `tileset` becomes by the children from `from` on, with
/// the position behind the `tileset` element. Images and tiles add up; of
/// properties the last ones count.
#[verifier::opaque]
pub open spec fn tileset_from(events: Seq<Event>, from: int, tileset: TilesetView) -> Result<
    (TilesetView, int),
    Fault,
>
    decreases events.len() - from,
{
    if from < 0 {
        Err(Fault::PrematureEnd(ended_early()))
    } else {
        match find(events, from, "tileset"@, tileset_tags()) {
            Spot::Child { tag, at } => {
                proof {
                    lemma_find_bounds(events, from, "tileset"@, tileset_tags());
                }
                let attributes = attributes_at(events, at);
                if tag == 0 {
                    match image_at(events, at + 1, attributes) {
                        Ok((image, next)) => {
                            proof {
                                lemma_image_advance(events, at + 1, attributes);
                            }
                            tileset_from(
                                events,
                                next,
                                TilesetView { images: tileset.images.push(image), ..tileset },
                            )
                        },
                        Err(e) => Err(e),
                    }
                } else if tag == 1 {
                    match properties_at(events, at + 1) {
                        Ok((properties, next)) => {
                            proof {
                                lemma_properties_advance(events, at + 1, Map::empty());
                            }
                            tileset_from(events, next, TilesetView { properties, ..tileset })
                        },
                        Err(e) => Err(e),
                    }
                } else {
                    match tile_at(events, at + 1, attributes) {
                        Ok((tile, next)) => {
                            proof {
                                lemma_tile_at_advance(events, at + 1, attributes);
                            }
                            tileset_from(
                                events,
                                next,
                                TilesetView { tiles: tileset.tiles.push(tile), ..tileset },
                            )
                        },
                        Err(e) => Err(e),
                    }
                }
            },
            Spot::Closed { next } => Ok((tileset, next)),
            Spot::Ended => Err(Fault::PrematureEnd(ended_early())),
            Spot::Broken { fault } => Err(Fault::Xml(fault_text(fault))),
        }
    }
}

/// A tileset ends behind the place where its content starts.
pub proof fn lemma_tileset_advance(events: Seq<Event>, from: int, tileset: TilesetView)
    requires
        0 <= from,
    ensures
        tileset_from(events, from, tileset) matches Ok((_, next)) ==> from < next <= events.len(),
    decreases events.len() - from,
{
    reveal(tileset_from);
    lemma_find_bounds(events, from, "tileset"@, tileset_tags());
    match find(events, from, "tileset"@, tileset_tags()) {
        Spot::Child { tag, at } => {
            let attributes = attributes_at(events, at);
            if tag == 0 {
                lemma_image_advance(events, at + 1, attributes);
                if let Ok((image, next)) = image_at(events, at + 1, attributes) {
                    lemma_tileset_advance(
                        events,
                        next,
                        TilesetView { images: tileset.images.push(image), ..tileset },
                    );
                }
            } else if tag == 1 {
                if let Ok((properties, next)) = properties_at(events, at + 1) {
                    lemma_properties_advance(events, at + 1, Map::empty());
                    lemma_tileset_advance(events, next, TilesetView { properties, ..tileset });
                }
            } else {
                lemma_tile_at_advance(events, at + 1, attributes);
                if let Ok((tile, next)) = tile_at(events, at + 1, attributes) {
                    lemma_tileset_advance(
                        events,
                        next,
                        TilesetView { tiles: tileset.tiles.push(tile), ..tileset },
                    );
                }
            }
        },
        _ => {},
    }
}

/// What a `tileset` element inside a map stands for.
#[derive(Debug, PartialEq, Clone)]
pub enum TilesetEntry {
    /// The tileset is written out in the map.
    Embedded(Tileset),
    /// The tileset is in the document `source`, a path relative to the map.
    Reference { first_gid: u32, source: String },
}

/// A `TilesetEntry` as contracts see it.
pub enum TilesetEntryView {
    Embedded(TilesetView),
    Reference { first_gid: u32, source: Seq<char> },
}

impl View for TilesetEntry {
    type V = TilesetEntryView;

    open spec fn view(&self) -> TilesetEntryView {
        match *self {
            TilesetEntry::Embedded(tileset) => TilesetEntryView::Embedded(tileset@),
            TilesetEntry::Reference { first_gid, source } => TilesetEntryView::Reference {
                first_gid,
                source: source@,
            },
        }
    }
}

/// The message for a `tileset` element that is neither a tileset nor a
/// reference to one.
pub open spec fn no_tileset() -> Seq<char> {
    "tileset must have a firstgid, name, tilewidth, tileheight, and columns with correct types"@
}

/// What the `tileset` element with the given attributes stands for, whose
/// content starts at `from`. Where the attributes describe a tileset, it is
/// built from the element, and the position is the one behind the element.
/// Where they do not, they have to give a first gid and a source: the
/// element is then a reference, and the position stays where it is.
#[verifier::opaque]
pub open spec fn entry_at(events: Seq<Event>, from: int, attributes: Seq<Attribute>) -> Result<
    (TilesetEntryView, int),
    Fault,
> {
    match embedded_of(attributes) {
        Some(tileset) => match tileset_from(events, from, tileset) {
            Ok((built, next)) => Ok((TilesetEntryView::Embedded(built), next)),
            Err(e) => Err(e),
        },
        None => match reference_of(attributes) {
            Ok((first_gid, source)) => Ok(
                (TilesetEntryView::Reference { first_gid, source }, from),
            ),
            Err(e) => Err(e),
        },
    }
}

/// The tileset of a `tileset` element in a document of its own, with the
/// given attributes, whose content starts at `from`.
#[verifier::opaque]
pub open spec fn external_at(
    events: Seq<Event>,
    from: int,
    attributes: Seq<Attribute>,
    first_gid: u32,
) -> Result<(TilesetView, int), Fault> {
    match external_of(attributes, first_gid) {
        Some(tileset) => tileset_from(events, from, tileset),
        None => Err(Fault::MalformedAttributes(no_tileset())),
    }
}

/// The tileset of a document of its own: the first `tileset` element of it,
/// read to its end, with the first gid that the map gives it.
pub open spec fn document_tileset(events: Seq<Event>, first_gid: u32) -> Result<
    TilesetView,
    Fault,
> {
    match seek(events, 0, "tileset"@) {
        Root::Found { at } => match external_at(
            events,
            at + 1,
            attributes_at(events, at),
            first_gid,
        ) {
            Ok((tileset, _)) => Ok(tileset),
            Err(e) => Err(e),
        },
        Root::Ended => Err(Fault::PrematureEnd("Tileset Document ended before map was parsed"@)),
        Root::Broken { fault } => Err(Fault::Xml(fault_text(fault))),
    }
}

/// The first gid and the source that the attributes of a reference give;
/// both are required.
pub open spec fn reference_of(attributes: Seq<Attribute>) -> Result<(u32, Seq<char>), Fault> {
    match (u32_attribute(attributes, "firstgid"@), text_attribute(attributes, "source"@)) {
        (Some(first_gid), Some(source)) => Ok((first_gid, source)),
        _ => Err(Fault::MalformedAttributes(no_tileset())),
    }
}

/// An embedded tileset ends behind the place where it starts; a reference
/// leaves the position where it is.
pub proof fn lemma_entry_advance(events: Seq<Event>, from: int, attributes: Seq<Attribute>)
    requires
        0 <= from,
    ensures
        match entry_at(events, from, attributes) {
            Ok((TilesetEntryView::Embedded(_), next)) => from < next <= events.len(),
            Ok((TilesetEntryView::Reference { .. }, next)) => next == from,
            Err(_) => true,
        },
{
    reveal(entry_at);
    if let Some(tileset) = embedded_of(attributes) {
        lemma_tileset_advance(events, from, tileset);
    }
}

impl Tileset {
    /// The attributes that a tileset has wherever it is written.
    fn start(attributes: &Vec<Attribute>, first_gid: u32) -> (tileset: Option<Tileset>)
        ensures
            view_of(tileset) == external_of(attributes@, first_gid),
    {
        let spacing = read_u32(attributes, "spacing");
        let margin = read_u32(attributes, "margin");
        let tilecount = read_u32(attributes, "tilecount");
        let name = read_text(attributes, "name");
        let tile_width = read_u32(attributes, "tilewidth");
        let tile_height = read_u32(attributes, "tileheight");
        let columns = read_u32(attributes, "columns");
        proof {
            lemma_views_empty::<Image>();
            lemma_views_empty::<Tile>();
        }
        match (name, tile_width, tile_height, columns) {
            (Some(name), Some(tile_width), Some(tile_height), Some(columns)) => Some(
                Tileset {
                    first_gid,
                    name,
                    tile_width,
                    tile_height,
                    spacing: match spacing {
                        Some(v) => v,
                        None => 0,
                    },
                    margin: match margin {
                        Some(v) => v,
                        None => 0,
                    },
                    tilecount,
                    columns,
                    images: Vec::new(),
                    tiles: Vec::new(),
                    properties: Properties::new(),
                },
            ),
            _ => None,
        }
    }

    /// Reads the children of a `tileset` element into `tileset`.
    fn finish(events: &Vec<Event>, from: usize, start: Tileset) -> (outcome: Result<
        (Tileset, usize),
        TiledError,
    >)
        ensures
            built(outcome) == tileset_from(events@, from as int, start@),
            outcome matches Ok((_, next)) ==> from < next <= events.len(),
    {
        let ghost given = start@;
        let mut tileset = start;
        let tags: [&str; 3] = ["image", "properties", "tile"];
        assert(tags@ =~= tileset_tags());
        let mut at: usize = from;
        loop
            invariant
                from <= at,
                tags@ == tileset_tags(),
                given == start@,
                tileset_from(events@, from as int, given) == tileset_from(
                    events@,
                    at as int,
                    tileset@,
                ),
            decreases events.len() - at,
        {
            proof {
                reveal(tileset_from);
                lemma_tileset_advance(events@, at as int, tileset@);
            }
            match next_child(events, at, "tileset", &tags) {
                Found::Child { tag, at: child, attributes } => {
                    if tag == 0 {
                        match Image::new(events, child + 1, attributes) {
                            Ok((image, next)) => {
                                proof {
                                    lemma_views_push(tileset.images@, image);
                                }
                                tileset.images.push(image);
                                at = next;
                            },
                            Err(e) => {
                                return Err(e);
                            },
                        }
                    } else if tag == 1 {
                        match parse_properties(events, child + 1) {
                            Ok((properties, next)) => {
                                tileset.properties = properties;
                                at = next;
                            },
                            Err(e) => {
                                return Err(e);
                            },
                        }
                    } else {
                        match Tile::new(events, child + 1, attributes) {
                            Ok((tile, next)) => {
                                proof {
                                    lemma_views_push(tileset.tiles@, tile);
                                }
                                tileset.tiles.push(tile);
                                at = next;
                            },
                            Err(e) => {
                                return Err(e);
                            },
                        }
                    }
                },
                Found::Closed { next } => {
                    return Ok((tileset, next));
                },
                Found::Ended => {
                    return Err(TiledError::premature("Document ended before we expected."));
                },
                Found::Broken { fault } => {
                    return Err(TiledError::XmlDecodingError(fault.clone()));
                },
            }
        }
    }

    /// Reads a `tileset` element of a map: a tileset written out there, or
    /// a reference to the document that holds it.
    pub fn new(events: &Vec<Event>, from: usize, attributes: &Vec<Attribute>) -> (outcome: Result<
        (TilesetEntry, usize),
        TiledError,
    >)
        ensures
            built(outcome) == entry_at(events@, from as int, attributes@),
            outcome matches Ok((_, next)) ==> from <= next && (from <= events.len() ==> next
                <= events.len()),
    {
        reveal(entry_at);
        let first_gid = read_u32(attributes, "firstgid");
        let embedded = match first_gid {
            Some(gid) => Tileset::start(attributes, gid),
            None => None,
        };
        match embedded {
            Some(tileset) => match Tileset::finish(events, from, tileset) {
                Ok((tileset, next)) => Ok((TilesetEntry::Embedded(tileset), next)),
                Err(e) => Err(e),
            },
            None => match Tileset::new_reference(attributes) {
                Ok((first_gid, source)) => Ok(
                    (TilesetEntry::Reference { first_gid, source }, from),
                ),
                Err(e) => Err(e),
            },
        }
    }

    /// Reads what a reference to a tileset in a document of its own says:
    /// the first gid of the tileset, and where its document is, seen from
    /// the map.
    pub fn new_reference(attributes: &Vec<Attribute>) -> (reference: Result<
        (u32, String),
        TiledError,
    >)
        ensures
            match reference {
                Ok((first_gid, source)) => reference_of(attributes@) == Ok::<
                    (u32, Seq<char>),
                    Fault,
                >((first_gid, source@)),
                Err(e) => reference_of(attributes@) == Err::<(u32, Seq<char>), Fault>(e@),
            },
    {
        let first_gid = read_u32(attributes, "firstgid");
        let source = read_text(attributes, "source");
        match (first_gid, source) {
            (Some(first_gid), Some(source)) => Ok((first_gid, source)),
            _ => Err(
                TiledError::malformed(
                    "tileset must have a firstgid, name, tilewidth, tileheight, and columns with correct types",
                ),
            ),
        }
    }

    /// Reads a tileset from the events of a document of its own.
    pub fn new_external(events: &Vec<Event>, first_gid: u32) -> (tileset: Result<
        Tileset,
        TiledError,
    >)
        ensures
            viewed(tileset) == document_tileset(events@, first_gid),
    {
        match find_root(events, "tileset") {
            Start::Found { at, attributes } => match Tileset::parse_external_tileset(
                first_gid,
                events,
                at + 1,
                attributes,
            ) {
                Ok((tileset, _)) => Ok(tileset),
                Err(e) => Err(e),
            },
            Start::Ended => Err(
                TiledError::premature("Tileset Document ended before map was parsed"),
            ),
            Start::Broken { fault } => Err(TiledError::XmlDecodingError(fault.clone())),
        }
    }

    /// Reads the `tileset` element of a document of its own.
    pub fn parse_external_tileset(
        first_gid: u32,
        events: &Vec<Event>,
        from: usize,
        attributes: &Vec<Attribute>,
    ) -> (outcome: Result<(Tileset, usize), TiledError>)
        ensures
            built(outcome) == external_at(events@, from as int, attributes@, first_gid),
            outcome matches Ok((_, next)) ==> from < next <= events.len(),
    {
        reveal(external_at);
        match Tileset::start(attributes, first_gid) {
            Some(tileset) => Tileset::finish(events, from, tileset),
            None => Err(
                TiledError::malformed(
                    "tileset must have a firstgid, name, tilewidth, tileheight, and columns with correct types",
                ),
            ),
        }
    }
}

} // verus!
