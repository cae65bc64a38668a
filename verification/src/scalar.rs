//! The scalar values of a map document other than integers, and the reading
//! of one attribute as a value of each kind.

use crate::error::ParseTileError;
use crate::markup::{attribute, attribute_value, Attribute};
use crate::text::{
    chars_of, digit_run, hex_u8_text, i32_text, is_number, is_real, parse_hex_u8, parse_i32,
    parse_u32, same_text, text_is_real, u32_text,
};
use vstd::prelude::*;
use vstd::slice::*;
use vstd::string::*;

verus! {

/// A real number, kept as the literal that the document wrote for it. This
/// library computes nothing with such a number; it only tells a literal
/// from other text.
#[derive(Debug, PartialEq, Eq)]
pub struct Real {
    text: String,
}

impl View for Real {
    type V = Seq<char>;

    closed spec fn view(&self) -> Seq<char> {
        self.text@
    }
}

impl Clone for Real {
    fn clone(&self) -> (copy: Real)
        ensures
            copy@ == self@,
    {
        proof {
            use_type_invariant(self);
        }
        Real { text: self.text.clone() }
    }
}

impl Real {
    #[verifier::type_invariant]
    spec fn holds_literal(self) -> bool {
        is_real(self.text@)
    }

    /// The number that `text` writes, if it writes one.
    pub fn parse(text: &str) -> (number: Option<Real>)
        ensures
            match number {
                Some(r) => is_real(text@) && r@ == text@,
                None => !is_real(text@),
            },
    {
        let chars = chars_of(text);
        if text_is_real(chars.as_slice()) {
            Some(Real { text: text.to_owned() })
        } else {
            None
        }
    }

    /// The literal of this number.
    pub fn text(&self) -> (text: &str)
        ensures
            text@ == self@,
            is_real(text@),
    {
        proof {
            use_type_invariant(self);
        }
        self.text.as_str()
    }

    /// The number 0, for an offset, a size or a rotation that is not given.
    pub fn zero() -> (number: Real)
        ensures
            number@ == "0.0"@,
    {
        proof {
            lemma_defaults();
        }
        Real { text: String::from_str("0.0") }
    }

    /// The number 1, for an opacity or a probability that is not given.
    pub fn one() -> (number: Real)
        ensures
            number@ == "1.0"@,
    {
        proof {
            lemma_defaults();
        }
        Real { text: String::from_str("1.0") }
    }
}

proof fn lemma_defaults()
    ensures
        is_real("0.0"@),
        is_real("1.0"@),
{
    reveal_strlit("0.0");
    reveal_strlit("1.0");
    reveal_with_fuel(digit_run, 3);
    assert(is_number("0.0"@));
    assert(is_number("1.0"@));
}

/// A colour: red, green and blue.
#[derive(Debug, PartialEq, Eq, Copy, Clone, Structural)]
pub struct Colour {
    pub red: u8,
    pub green: u8,
    pub blue: u8,
}

/// The colour that a text writes: an optional `#`, then six characters, two
/// hexadecimal digits for each of red, green and blue.
pub open spec fn colour_text(s: Seq<char>) -> Option<Colour> {
    let body = if s.len() > 0 && s[0] == '#' {
        s.skip(1)
    } else {
        s
    };
    if body.len() != 6 {
        None
    } else {
        match (
            hex_u8_text(body.subrange(0, 2)),
            hex_u8_text(body.subrange(2, 4)),
            hex_u8_text(body.subrange(4, 6)),
        ) {
            (Some(red), Some(green), Some(blue)) => Some(Colour { red, green, blue }),
            _ => None,
        }
    }
}

impl Colour {
    /// Reads a colour.
    pub fn from_str(s: &str) -> (colour: Result<Colour, ParseTileError>)
        ensures
            match colour {
                Ok(c) => colour_text(s@) == Some(c),
                Err(e) => colour_text(s@) is None && e == ParseTileError::ColourError,
            },
    {
        let chars = chars_of(s);
        let start: usize = if chars.len() > 0 && chars[0] == '#' {
            1
        } else {
            0
        };
        let body = slice_subrange(chars.as_slice(), start, chars.len());
        assert(body@ =~= if start == 1 {
            s@.skip(1)
        } else {
            s@
        });
        if body.len() != 6 {
            return Err(ParseTileError::ColourError);
        }
        let r = parse_hex_u8(slice_subrange(body, 0, 2));
        let g = parse_hex_u8(slice_subrange(body, 2, 4));
        let b = parse_hex_u8(slice_subrange(body, 4, 6));
        match (r, g, b) {
            (Some(red), Some(green), Some(blue)) => Ok(Colour { red, green, blue }),
            _ => Err(ParseTileError::ColourError),
        }
    }
}

impl core::str::FromStr for Colour {
    type Err = ParseTileError;

    /// Reads a colour, as `Colour::from_str` does.
    fn from_str(s: &str) -> (colour: Result<Colour, ParseTileError>)
        ensures
            match colour {
                Ok(c) => colour_text(s@) == Some(c),
                Err(e) => colour_text(s@) is None && e == ParseTileError::ColourError,
            },
    {
        Colour::from_str(s)
    }
}

/// How the tiles of a map are laid out.
#[derive(Debug, PartialEq, Eq, Copy, Clone, Structural)]
pub enum Orientation {
    Orthogonal,
    Isometric,
    Staggered,
    Hexagonal,
}

/// The orientation that a text names.
pub open spec fn orientation_text(s: Seq<char>) -> Option<Orientation> {
    if s == "orthogonal"@ {
        Some(Orientation::Orthogonal)
    } else if s == "isometric"@ {
        Some(Orientation::Isometric)
    } else if s == "staggered"@ {
        Some(Orientation::Staggered)
    } else if s == "hexagonal"@ {
        Some(Orientation::Hexagonal)
    } else {
        None
    }
}

impl Orientation {
    /// Reads an orientation.
    pub fn from_str(s: &str) -> (orientation: Result<Orientation, ParseTileError>)
        ensures
            match orientation {
                Ok(o) => orientation_text(s@) == Some(o),
                Err(e) => orientation_text(s@) is None && e == ParseTileError::OrientationError,
            },
    {
        if same_text(s, "orthogonal") {
            Ok(Orientation::Orthogonal)
        } else if same_text(s, "isometric") {
            Ok(Orientation::Isometric)
        } else if same_text(s, "staggered") {
            Ok(Orientation::Staggered)
        } else if same_text(s, "hexagonal") {
            Ok(Orientation::Hexagonal)
        } else {
            Err(ParseTileError::OrientationError)
        }
    }

    /// The name of this orientation, as a document writes it.
    pub fn name(&self) -> (name: &'static str)
        ensures
            orientation_text(name@) == Some(*self),
    {
        proof {
            reveal_strlit("orthogonal");
            reveal_strlit("isometric");
            reveal_strlit("staggered");
            reveal_strlit("hexagonal");
            assert("isometric"@[0] != "staggered"@[0]);
            assert("isometric"@[0] != "hexagonal"@[0]);
            assert("staggered"@[0] != "hexagonal"@[0]);
        }
        match self {
            Orientation::Orthogonal => "orthogonal",
            Orientation::Isometric => "isometric",
            Orientation::Staggered => "staggered",
            Orientation::Hexagonal => "hexagonal",
        }
    }
}

impl core::str::FromStr for Orientation {
    type Err = ParseTileError;

    /// Reads an orientation, as `Orientation::from_str` does.
    fn from_str(s: &str) -> (orientation: Result<Orientation, ParseTileError>)
        ensures
            match orientation {
                Ok(o) => orientation_text(s@) == Some(o),
                Err(e) => orientation_text(s@) is None && e == ParseTileError::OrientationError,
            },
    {
        Orientation::from_str(s)
    }
}

/// An attribute as text.
pub open spec fn text_attribute(attributes: Seq<Attribute>, name: Seq<char>) -> Option<Seq<char>> {
    attribute_value(attributes, name)
}

/// An attribute as an unsigned number.
pub open spec fn u32_attribute(attributes: Seq<Attribute>, name: Seq<char>) -> Option<u32> {
    match attribute_value(attributes, name) {
        Some(v) => u32_text(v),
        None => None,
    }
}

/// An attribute as a signed number.
pub open spec fn i32_attribute(attributes: Seq<Attribute>, name: Seq<char>) -> Option<i32> {
    match attribute_value(attributes, name) {
        Some(v) => i32_text(v),
        None => None,
    }
}

/// An attribute as a real number: its text, where that is a literal.
pub open spec fn real_attribute(attributes: Seq<Attribute>, name: Seq<char>) -> Option<Seq<char>> {
    match attribute_value(attributes, name) {
        Some(v) => if is_real(v) {
            Some(v)
        } else {
            None
        },
        None => None,
    }
}

/// An attribute as a colour.
pub open spec fn colour_attribute(attributes: Seq<Attribute>, name: Seq<char>) -> Option<Colour> {
    match attribute_value(attributes, name) {
        Some(v) => colour_text(v),
        None => None,
    }
}

/// An attribute as an orientation.
pub open spec fn orientation_attribute(attributes: Seq<Attribute>, name: Seq<char>) -> Option<
    Orientation,
> {
    match attribute_value(attributes, name) {
        Some(v) => orientation_text(v),
        None => None,
    }
}

/// An attribute that says yes with the number 1 and no with any other
/// number.
pub open spec fn flag_attribute(attributes: Seq<Attribute>, name: Seq<char>) -> Option<bool> {
    match i32_attribute(attributes, name) {
        Some(v) => Some(v == 1),
        None => None,
    }
}

/// An attribute that says yes with the text `1` and no with any other text.
pub open spec fn mark_attribute(attributes: Seq<Attribute>, name: Seq<char>) -> Option<bool> {
    match attribute_value(attributes, name) {
        Some(v) => Some(v == "1"@),
        None => None,
    }
}

/// The value, or `default` where there is none.
pub open spec fn or_default<T>(value: Option<T>, default: T) -> T {
    match value {
        Some(v) => v,
        None => default,
    }
}

/// What an optional text is to a contract.
pub open spec fn text_view(text: Option<String>) -> Option<Seq<char>> {
    match text {
        Some(t) => Some(t@),
        None => None,
    }
}

/// What an optional number is to a contract.
pub open spec fn real_view(number: Option<Real>) -> Option<Seq<char>> {
    match number {
        Some(r) => Some(r@),
        None => None,
    }
}

/// Reads an attribute as text.
pub fn read_text(attributes: &Vec<Attribute>, name: &str) -> (value: Option<String>)
    ensures
        text_view(value) == text_attribute(attributes@, name@),
{
    match attribute(attributes, name) {
        Some(v) => Some(v.clone()),
        None => None,
    }
}

/// Reads an attribute as an unsigned number.
pub fn read_u32(attributes: &Vec<Attribute>, name: &str) -> (value: Option<u32>)
    ensures
        value == u32_attribute(attributes@, name@),
{
    match attribute(attributes, name) {
        Some(v) => parse_u32(chars_of(v.as_str()).as_slice()),
        None => None,
    }
}

/// Reads an attribute as a signed number.
pub fn read_i32(attributes: &Vec<Attribute>, name: &str) -> (value: Option<i32>)
    ensures
        value == i32_attribute(attributes@, name@),
{
    match attribute(attributes, name) {
        Some(v) => parse_i32(chars_of(v.as_str()).as_slice()),
        None => None,
    }
}

/// Reads an attribute as a real number.
pub fn read_real(attributes: &Vec<Attribute>, name: &str) -> (value: Option<Real>)
    ensures
        real_view(value) == real_attribute(attributes@, name@),
{
    match attribute(attributes, name) {
        Some(v) => Real::parse(v.as_str()),
        None => None,
    }
}

/// Reads an attribute as a colour.
pub fn read_colour(attributes: &Vec<Attribute>, name: &str) -> (value: Option<Colour>)
    ensures
        value == colour_attribute(attributes@, name@),
{
    match attribute(attributes, name) {
        Some(v) => match Colour::from_str(v.as_str()) {
            Ok(c) => Some(c),
            Err(_) => None,
        },
        None => None,
    }
}

/// Reads an attribute as an orientation.
pub fn read_orientation(attributes: &Vec<Attribute>, name: &str) -> (value: Option<Orientation>)
    ensures
        value == orientation_attribute(attributes@, name@),
{
    match attribute(attributes, name) {
        Some(v) => match Orientation::from_str(v.as_str()) {
            Ok(o) => Some(o),
            Err(_) => None,
        },
        None => None,
    }
}

/// Reads an attribute that says yes with the number 1.
pub fn read_flag(attributes: &Vec<Attribute>, name: &str) -> (value: Option<bool>)
    ensures
        value == flag_attribute(attributes@, name@),
{
    match read_i32(attributes, name) {
        Some(v) => Some(v == 1),
        None => None,
    }
}

/// Reads an attribute that says yes with the text `1`.
pub fn read_mark(attributes: &Vec<Attribute>, name: &str) -> (value: Option<bool>)
    ensures
        value == mark_attribute(attributes@, name@),
{
    match attribute(attributes, name) {
        Some(v) => Some(same_text(v.as_str(), "1")),
        None => None,
    }
}

} // verus!
