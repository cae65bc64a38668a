//! Images: the picture of a tileset, of a tile or of an image layer.

use crate::error::{Fault, TiledError};
use crate::markup::{closing, lemma_find_bounds, skip_to_close, Attribute, Event};
use crate::scalar::{
    colour_attribute, i32_attribute, read_colour, read_i32, read_text, text_attribute, Colour,
};
use crate::views::built;
use vstd::prelude::*;

verus! {

/// A picture: the file that holds it, and its measures in pixels.
#[derive(Debug, PartialEq, Eq, Clone)]
pub struct Image {
    /// The filepath of the image
    pub source: String,
    pub width: i32,
    pub height: i32,
    pub transparent_colour: Option<Colour>,
}

/// An `Image` as contracts see it.
pub struct ImageView {
    pub source: Seq<char>,
    pub width: i32,
    pub height: i32,
    pub transparent_colour: Option<Colour>,
}

impl View for Image {
    type V = ImageView;

    open spec fn view(&self) -> ImageView {
        ImageView {
            source: self.source@,
            width: self.width,
            height: self.height,
            transparent_colour: self.transparent_colour,
        }
    }
}

/// The image that the attributes of an `image` element describe. Its
/// source, width and height are required.
pub open spec fn image_of(attributes: Seq<Attribute>) -> Option<ImageView> {
    match (
        text_attribute(attributes, "source"@),
        i32_attribute(attributes, "width"@),
        i32_attribute(attributes, "height"@),
    ) {
        (Some(source), Some(width), Some(height)) => Some(
            ImageView {
                source,
                width,
                height,
                transparent_colour: colour_attribute(attributes, "trans"@),
            },
        ),
        _ => None,
    }
}

/// The image of an `image` element with the given attributes, whose content
/// starts at `from`.
#[verifier::opaque]
pub open spec fn image_at(events: Seq<Event>, from: int, attributes: Seq<Attribute>) -> Result<
    (ImageView, int),
    Fault,
> {
    match image_of(attributes) {
        None => Err(
            Fault::MalformedAttributes(
                "image must have a source, width and height with correct types"@,
            ),
        ),
        Some(image) => match closing(events, from, "image"@) {
            Ok(next) => Ok((image, next)),
            Err(e) => Err(e),
        },
    }
}

impl Image {
    /// Reads an `image` element with the given attributes, whose content
    /// starts at `from`.
    pub fn new(events: &Vec<Event>, from: usize, attributes: &Vec<Attribute>) -> (outcome: Result<
        (Image, usize),
        TiledError,
    >)
        ensures
            built(outcome) == image_at(events@, from as int, attributes@),
            outcome matches Ok((_, next)) ==> from < next <= events.len(),
    {
        reveal(image_at);
        let transparent_colour = read_colour(attributes, "trans");
        let source = read_text(attributes, "source");
        let width = read_i32(attributes, "width");
        let height = read_i32(attributes, "height");
        match (source, width, height) {
            (Some(source), Some(width), Some(height)) => {
                match skip_to_close(events, from, "image") {
                    Ok(next) => Ok((Image { source, width, height, transparent_colour }, next)),
                    Err(e) => Err(e),
                }
            },
            _ => Err(
                TiledError::malformed(
                    "image must have a source, width and height with correct types",
                ),
            ),
        }
    }
}

/// An image ends behind the place where its content starts.
pub proof fn lemma_image_advance(events: Seq<Event>, from: int, attributes: Seq<Attribute>)
    requires
        0 <= from,
    ensures
        image_at(events, from, attributes) matches Ok((_, next)) ==> from < next <= events.len(),
{
    reveal(image_at);
    lemma_find_bounds(events, from, "image"@, Seq::<&str>::empty());
}

} // verus!
