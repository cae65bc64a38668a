//! Layers: tile layers and image layers.

use crate::data::{
    data_at, lemma_data_advance, parse_data, parse_infinite_data, LayerData, LayerDataView,
};
use crate::error::{fault_text, Fault, TiledError};
use crate::image::{image_at, lemma_image_advance, Image, ImageView};
use crate::markup::{
    attributes_at, ended_early, find, lemma_find_bounds, next_child, Attribute, Event, Found,
    Spot,
};
use crate::properties::{
    lemma_properties_advance, parse_properties, properties_at, Properties, PropertyView,
};
use crate::scalar::{
    flag_attribute, or_default, read_flag, read_real, read_text, real_attribute, text_attribute,
    Real,
};
use crate::tile::{rows_of, LayerTile};
use crate::views::{built, view_of};
use vstd::prelude::*;

verus! {

/// A layer of tiles.
#[derive(Debug, PartialEq, Clone)]
pub struct Layer {
    pub name: String,
    pub opacity: Real,
    pub visible: bool,
    pub offset_x: Real,
    pub offset_y: Real,
    /// The tiles are arranged in rows. Each tile is a number which can be
    /// used to find which tileset it belongs to and can then be rendered.
    pub tiles: LayerData,
    pub properties: Properties,
    pub layer_index: u32,
}

/// A `Layer` as contracts see it.
pub struct LayerView {
    pub name: Seq<char>,
    pub opacity: Seq<char>,
    pub visible: bool,
    pub offset_x: Seq<char>,
    pub offset_y: Seq<char>,
    pub tiles: LayerDataView,
    pub properties: Map<Seq<char>, PropertyView>,
    pub layer_index: u32,
}

impl View for Layer {
    type V = LayerView;

    open spec fn view(&self) -> LayerView {
        LayerView {
            name: self.name@,
            opacity: self.opacity@,
            visible: self.visible,
            offset_x: self.offset_x@,
            offset_y: self.offset_y@,
            tiles: self.tiles@,
            properties: self.properties@,
            layer_index: self.layer_index,
        }
    }
}

/// The tags that a tile layer looks for.
pub open spec fn layer_tags() -> Seq<&'static str> {
    seq!["data", "properties"]
}

/// The layer that the attributes of a `layer` element describe, before any
/// of its children is read: without tiles and without properties. Its name
/// is required.
pub open spec fn layer_of(attributes: Seq<Attribute>, layer_index: u32) -> Option<LayerView> {
    match text_attribute(attributes, "name"@) {
        Some(name) => Some(
            LayerView {
                name,
                opacity: or_default(real_attribute(attributes, "opacity"@), "1.0"@),
                visible: or_default(flag_attribute(attributes, "visible"@), true),
                offset_x: or_default(real_attribute(attributes, "offsetx"@), "0.0"@),
                offset_y: or_default(real_attribute(attributes, "offsety"@), "0.0"@),
                tiles: LayerDataView::Finite(Seq::empty()),
                properties: Map::empty(),
                layer_index,
            },
        ),
        None => None,
    }
}

/// The layer that `layer` becomes by the children from `from` on, with the
/// position behind the `layer` element. Of several `data` elements, and of
/// several bags of properties, the last one counts.
#[verifier::opaque]
pub open spec fn layer_from(
    events: Seq<Event>,
    from: int,
    layer: LayerView,
    width: u32,
    infinite: bool,
) -> Result<(LayerView, int), Fault>
    decreases events.len() - from,
{
    if from < 0 {
        Err(Fault::PrematureEnd(ended_early()))
    } else {
        match find(events, from, "layer"@, layer_tags()) {
            Spot::Child { tag, at } => {
                proof {
                    lemma_find_bounds(events, from, "layer"@, layer_tags());
                }
                let attributes = attributes_at(events, at);
                if tag == 0 {
                    match data_at(events, at + 1, attributes, width, infinite) {
                        Ok((tiles, next)) => {
                            proof {
                                lemma_data_advance(events, at + 1, attributes, width, infinite);
                            }
                            layer_from(events, next, LayerView { tiles, ..layer }, width, infinite)
                        },
                        Err(e) => Err(e),
                    }
                } else {
                    match properties_at(events, at + 1) {
                        Ok((properties, next)) => {
                            proof {
                                lemma_properties_advance(events, at + 1, Map::empty());
                            }
                            layer_from(
                                events,
                                next,
                                LayerView { properties, ..layer },
                                width,
                                infinite,
                            )
                        },
                        Err(e) => Err(e),
                    }
                }
            },
            Spot::Closed { next } => Ok((layer, next)),
            Spot::Ended => Err(Fault::PrematureEnd(ended_early())),
            Spot::Broken { fault } => Err(Fault::Xml(fault_text(fault))),
        }
    }
}

/// The layer of a `layer` element with the given attributes, whose content
/// starts at `from`, in a map `width` tiles wide.
#[verifier::opaque]
pub open spec fn layer_at(
    events: Seq<Event>,
    from: int,
    attributes: Seq<Attribute>,
    width: u32,
    layer_index: u32,
    infinite: bool,
) -> Result<(LayerView, int), Fault> {
    match layer_of(attributes, layer_index) {
        Some(layer) => layer_from(events, from, layer, width, infinite),
        None => Err(Fault::MalformedAttributes("layer must have a name"@)),
    }
}

/// A layer ends behind the place where its content starts, and keeps its
/// index.
pub proof fn lemma_layer_advance(
    events: Seq<Event>,
    from: int,
    layer: LayerView,
    width: u32,
    infinite: bool,
)
    requires
        0 <= from,
    ensures
        layer_from(events, from, layer, width, infinite) matches Ok((built, next)) ==> from < next
            <= events.len() && built.layer_index == layer.layer_index,
    decreases events.len() - from,
{
    reveal(layer_from);
    lemma_find_bounds(events, from, "layer"@, layer_tags());
    match find(events, from, "layer"@, layer_tags()) {
        Spot::Child { tag, at } => {
            let attributes = attributes_at(events, at);
            if tag == 0 {
                lemma_data_advance(events, at + 1, attributes, width, infinite);
                if let Ok((tiles, next)) = data_at(events, at + 1, attributes, width, infinite) {
                    lemma_layer_advance(events, next, LayerView { tiles, ..layer }, width, infinite);
                }
            } else {
                lemma_properties_advance(events, at + 1, Map::empty());
                if let Ok((properties, next)) = properties_at(events, at + 1) {
                    lemma_layer_advance(
                        events,
                        next,
                        LayerView { properties, ..layer },
                        width,
                        infinite,
                    );
                }
            }
        },
        _ => {},
    }
}

/// A layer ends behind the place where its content starts, and has the
/// index that it was given.
pub proof fn lemma_layer_at_advance(
    events: Seq<Event>,
    from: int,
    attributes: Seq<Attribute>,
    width: u32,
    layer_index: u32,
    infinite: bool,
)
    requires
        0 <= from,
    ensures
        layer_at(events, from, attributes, width, layer_index, infinite) matches Ok(
            (built, next),
        ) ==> from < next <= events.len() && built.layer_index == layer_index,
{
    reveal(layer_at);
    if let Some(layer) = layer_of(attributes, layer_index) {
        lemma_layer_advance(events, from, layer, width, infinite);
    }
}

impl Layer {
    /// Reads a `layer` element with the given attributes, whose content
    /// starts at `from`, in a map `width` tiles wide.
    pub fn new(
        events: &Vec<Event>,
        from: usize,
        attributes: &Vec<Attribute>,
        width: u32,
        layer_index: u32,
        infinite: bool,
    ) -> (outcome: Result<(Layer, usize), TiledError>)
        ensures
            built(outcome) == layer_at(
                events@,
                from as int,
                attributes@,
                width,
                layer_index,
                infinite,
            ),
            outcome matches Ok((layer, next)) ==> from < next <= events.len() && layer.layer_index
                == layer_index,
    {
        reveal(layer_at);
        let opacity = read_real(attributes, "opacity");
        let visible = read_flag(attributes, "visible");
        let offset_x = read_real(attributes, "offsetx");
        let offset_y = read_real(attributes, "offsety");
        let name = match read_text(attributes, "name") {
            Some(name) => name,
            None => {
                return Err(TiledError::malformed("layer must have a name"));
            },
        };
        let grid: Vec<Vec<LayerTile>> = Vec::new();
        assert(rows_of(grid@) =~= Seq::<Seq<LayerTile>>::empty());
        let mut layer = Layer {
            name,
            opacity: match opacity {
                Some(v) => v,
                None => Real::one(),
            },
            visible: match visible {
                Some(v) => v,
                None => true,
            },
            offset_x: match offset_x {
                Some(v) => v,
                None => Real::zero(),
            },
            offset_y: match offset_y {
                Some(v) => v,
                None => Real::zero(),
            },
            tiles: LayerData::Finite(grid),
            properties: Properties::new(),
            layer_index,
        };
        let tags: [&str; 2] = ["data", "properties"];
        let mut at: usize = from;
        loop
            invariant
                from <= at,
                tags@ == layer_tags(),
                layer.layer_index == layer_index,
                layer_at(events@, from as int, attributes@, width, layer_index, infinite)
                    == layer_from(events@, at as int, layer@, width, infinite),
            decreases events.len() - at,
        {
            proof {
                reveal(layer_from);
                lemma_layer_advance(events@, at as int, layer@, width, infinite);
            }
            match next_child(events, at, "layer", &tags) {
                Found::Child { tag, at: child, attributes: given } => {
                    if tag == 0 {
                        let data = if infinite {
                            proof {
                                reveal(data_at);
                            }
                            parse_infinite_data(events, child + 1, given)
                        } else {
                            parse_data(events, child + 1, given, width)
                        };
                        match data {
                            Ok((tiles, next)) => {
                                layer.tiles = tiles;
                                at = next;
                            },
                            Err(e) => {
                                return Err(e);
                            },
                        }
                    } else {
                        match parse_properties(events, child + 1) {
                            Ok((properties, next)) => {
                                layer.properties = properties;
                                at = next;
                            },
                            Err(e) => {
                                return Err(e);
                            },
                        }
                    }
                },
                Found::Closed { next } => {
                    return Ok((layer, next));
                },
                Found::Ended => {
                    return Err(TiledError::premature("Document ended before we expected."));
                },
                Found::Broken { fault } => {
                    return Err(TiledError::XmlDecodingError(fault.clone()));
                },
            }
        }
    }
}

/// A layer that shows one image.
#[derive(Debug, PartialEq, Clone)]
pub struct ImageLayer {
    pub name: String,
    pub opacity: Real,
    pub visible: bool,
    pub offset_x: Real,
    pub offset_y: Real,
    pub image: Option<Image>,
    pub properties: Properties,
    pub layer_index: u32,
}

/// An `ImageLayer` as contracts see it.
pub struct ImageLayerView {
    pub name: Seq<char>,
    pub opacity: Seq<char>,
    pub visible: bool,
    pub offset_x: Seq<char>,
    pub offset_y: Seq<char>,
    pub image: Option<ImageView>,
    pub properties: Map<Seq<char>, PropertyView>,
    pub layer_index: u32,
}

impl View for ImageLayer {
    type V = ImageLayerView;

    open spec fn view(&self) -> ImageLayerView {
        ImageLayerView {
            name: self.name@,
            opacity: self.opacity@,
            visible: self.visible,
            offset_x: self.offset_x@,
            offset_y: self.offset_y@,
            image: view_of(self.image),
            properties: self.properties@,
            layer_index: self.layer_index,
        }
    }
}

/// The tags that an image layer looks for.
pub open spec fn image_layer_tags() -> Seq<&'static str> {
    seq!["image", "properties"]
}

/// The layer that the attributes of an `imagelayer` element describe,
/// before any of its children is read. Its name is required.
pub open spec fn image_layer_of(attributes: Seq<Attribute>, layer_index: u32) -> Option<
    ImageLayerView,
> {
    match text_attribute(attributes, "name"@) {
        Some(name) => Some(
            ImageLayerView {
                name,
                opacity: or_default(real_attribute(attributes, "opacity"@), "1.0"@),
                visible: or_default(flag_attribute(attributes, "visible"@), true),
                offset_x: or_default(real_attribute(attributes, "offsetx"@), "0.0"@),
                offset_y: or_default(real_attribute(attributes, "offsety"@), "0.0"@),
                image: None,
                properties: Map::empty(),
                layer_index,
            },
        ),
        None => None,
    }
}

/// The layer that `layer` becomes by the children from `from` on, with the
/// position behind the `imagelayer` element. Of several images, and of
/// several bags of properties, the last one counts.
#[verifier::opaque]
pub open spec fn image_layer_from(events: Seq<Event>, from: int, layer: ImageLayerView) -> Result<
    (ImageLayerView, int),
    Fault,
>
    decreases events.len() - from,
{
    if from < 0 {
        Err(Fault::PrematureEnd(ended_early()))
    } else {
        match find(events, from, "imagelayer"@, image_layer_tags()) {
            Spot::Child { tag, at } => {
                proof {
                    lemma_find_bounds(events, from, "imagelayer"@, image_layer_tags());
                }
                let attributes = attributes_at(events, at);
                if tag == 0 {
                    match image_at(events, at + 1, attributes) {
                        Ok((image, next)) => {
                            proof {
                                lemma_image_advance(events, at + 1, attributes);
                            }
                            image_layer_from(
                                events,
                                next,
                                ImageLayerView { image: Some(image), ..layer },
                            )
                        },
                        Err(e) => Err(e),
                    }
                } else {
                    match properties_at(events, at + 1) {
                        Ok((properties, next)) => {
                            proof {
                                lemma_properties_advance(events, at + 1, Map::empty());
                            }
                            image_layer_from(events, next, ImageLayerView { properties, ..layer })
                        },
                        Err(e) => Err(e),
                    }
                }
            },
            Spot::Closed { next } => Ok((layer, next)),
            Spot::Ended => Err(Fault::PrematureEnd(ended_early())),
            Spot::Broken { fault } => Err(Fault::Xml(fault_text(fault))),
        }
    }
}

/// The layer of an `imagelayer` element with the given attributes, whose
/// content starts at `from`.
#[verifier::opaque]
pub open spec fn image_layer_at(
    events: Seq<Event>,
    from: int,
    attributes: Seq<Attribute>,
    layer_index: u32,
) -> Result<(ImageLayerView, int), Fault> {
    match image_layer_of(attributes, layer_index) {
        Some(layer) => image_layer_from(events, from, layer),
        None => Err(Fault::MalformedAttributes("layer must have a name"@)),
    }
}

/// An image layer ends behind the place where its content starts, and keeps
/// its index.
pub proof fn lemma_image_layer_advance(events: Seq<Event>, from: int, layer: ImageLayerView)
    requires
        0 <= from,
    ensures
        image_layer_from(events, from, layer) matches Ok((built, next)) ==> from < next
            <= events.len() && built.layer_index == layer.layer_index,
    decreases events.len() - from,
{
    reveal(image_layer_from);
    lemma_find_bounds(events, from, "imagelayer"@, image_layer_tags());
    match find(events, from, "imagelayer"@, image_layer_tags()) {
        Spot::Child { tag, at } => {
            let attributes = attributes_at(events, at);
            if tag == 0 {
                lemma_image_advance(events, at + 1, attributes);
                if let Ok((image, next)) = image_at(events, at + 1, attributes) {
                    lemma_image_layer_advance(
                        events,
                        next,
                        ImageLayerView { image: Some(image), ..layer },
                    );
                }
            } else {
                lemma_properties_advance(events, at + 1, Map::empty());
                if let Ok((properties, next)) = properties_at(events, at + 1) {
                    lemma_image_layer_advance(
                        events,
                        next,
                        ImageLayerView { properties, ..layer },
                    );
                }
            }
        },
        _ => {},
    }
}

/// An image layer ends behind the place where its content starts, and has
/// the index that it was given.
pub proof fn lemma_image_layer_at_advance(
    events: Seq<Event>,
    from: int,
    attributes: Seq<Attribute>,
    layer_index: u32,
)
    requires
        0 <= from,
    ensures
        image_layer_at(events, from, attributes, layer_index) matches Ok((built, next)) ==> from
            < next <= events.len() && built.layer_index == layer_index,
{
    reveal(image_layer_at);
    if let Some(layer) = image_layer_of(attributes, layer_index) {
        lemma_image_layer_advance(events, from, layer);
    }
}

impl ImageLayer {
    /// Reads an `imagelayer` element with the given attributes, whose
    /// content starts at `from`.
    pub fn new(
        events: &Vec<Event>,
        from: usize,
        attributes: &Vec<Attribute>,
        layer_index: u32,
    ) -> (outcome: Result<(ImageLayer, usize), TiledError>)
        ensures
            built(outcome) == image_layer_at(events@, from as int, attributes@, layer_index),
            outcome matches Ok((layer, next)) ==> from < next <= events.len() && layer.layer_index
                == layer_index,
    {
        reveal(image_layer_at);
        let opacity = read_real(attributes, "opacity");
        let visible = read_flag(attributes, "visible");
        let offset_x = read_real(attributes, "offsetx");
        let offset_y = read_real(attributes, "offsety");
        let name = match read_text(attributes, "name") {
            Some(name) => name,
            None => {
                return Err(TiledError::malformed("layer must have a name"));
            },
        };
        let mut layer = ImageLayer {
            name,
            opacity: match opacity {
                Some(v) => v,
                None => Real::one(),
            },
            visible: match visible {
                Some(v) => v,
                None => true,
            },
            offset_x: match offset_x {
                Some(v) => v,
                None => Real::zero(),
            },
            offset_y: match offset_y {
                Some(v) => v,
                None => Real::zero(),
            },
            image: None,
            properties: Properties::new(),
            layer_index,
        };
        let tags: [&str; 2] = ["image", "properties"];
        let mut at: usize = from;
        loop
            invariant
                from <= at,
                tags@ == image_layer_tags(),
                layer.layer_index == layer_index,
                image_layer_at(events@, from as int, attributes@, layer_index) == image_layer_from(
                    events@,
                    at as int,
                    layer@,
                ),
            decreases events.len() - at,
        {
            proof {
                reveal(image_layer_from);
                lemma_image_layer_advance(events@, at as int, layer@);
            }
            match next_child(events, at, "imagelayer", &tags) {
                Found::Child { tag, at: child, attributes: given } => {
                    if tag == 0 {
                        match Image::new(events, child + 1, given) {
                            Ok((image, next)) => {
                                layer.image = Some(image);
                                at = next;
                            },
                            Err(e) => {
                                return Err(e);
                            },
                        }
                    } else {
                        match parse_properties(events, child + 1) {
                            Ok((properties, next)) => {
                                layer.properties = properties;
                                at = next;
                            },
                            Err(e) => {
                                return Err(e);
                            },
                        }
                    }
                },
                Found::Closed { next } => {
                    return Ok((layer, next));
                },
                Found::Ended => {
                    return Err(TiledError::premature("Document ended before we expected."));
                },
                Found::Broken { fault } => {
                    return Err(TiledError::XmlDecodingError(fault.clone()));
                },
            }
        }
    }
}

} // verus!
