//! Custom properties: typed values under unique names.

use crate::error::{fault_text, Fault, TiledError};
use crate::keyed::{distinct, listed, Entry, Keyed};
use crate::markup::{
    attribute, attribute_value, attributes_at, ended_early, find, lemma_find_bounds, next_child,
    Attribute, Event, Found, Spot,
};
use crate::scalar::Real;
use crate::views::{built, viewed};
use crate::text::{
    bool_text, chars_of, hex_u32_text, i32_text, int_fault_kind, is_real, parse_bool,
    parse_hex_u32, parse_i32, same_text, why_no_i32, IntFault,
};
use vstd::prelude::*;
use vstd::slice::*;
use vstd::string::*;

verus! {

/// The value of a custom property.
#[derive(Debug, PartialEq)]
pub enum PropertyValue {
    BoolValue(bool),
    FloatValue(Real),
    IntValue(i32),
    ColorValue(u32),
    StringValue(String),
    /// Holds the path relative to the map or tileset
    FileValue(String),
}

/// A `PropertyValue` as contracts see it.
pub enum PropertyView {
    Bool(bool),
    Float(Seq<char>),
    Int(i32),
    Color(u32),
    String(Seq<char>),
    File(Seq<char>),
}

impl View for PropertyValue {
    type V = PropertyView;

    open spec fn view(&self) -> PropertyView {
        match *self {
            PropertyValue::BoolValue(b) => PropertyView::Bool(b),
            PropertyValue::FloatValue(r) => PropertyView::Float(r@),
            PropertyValue::IntValue(i) => PropertyView::Int(i),
            PropertyValue::ColorValue(c) => PropertyView::Color(c),
            PropertyValue::StringValue(s) => PropertyView::String(s@),
            PropertyValue::FileValue(s) => PropertyView::File(s@),
        }
    }
}

impl Clone for PropertyValue {
    fn clone(&self) -> (copy: PropertyValue)
        ensures
            copy@ == self@,
    {
        match self {
            PropertyValue::BoolValue(b) => PropertyValue::BoolValue(*b),
            PropertyValue::FloatValue(r) => PropertyValue::FloatValue(r.clone()),
            PropertyValue::IntValue(i) => PropertyValue::IntValue(*i),
            PropertyValue::ColorValue(c) => PropertyValue::ColorValue(*c),
            PropertyValue::StringValue(s) => PropertyValue::StringValue(s.clone()),
            PropertyValue::FileValue(s) => PropertyValue::FileValue(s.clone()),
        }
    }
}

/// The message for a text that is neither `true` nor `false`.
pub open spec fn bool_fault() -> Seq<char> {
    "provided string was not `true` or `false`"@
}

/// The message for a text that is no signed decimal number of 32 bits.
pub open spec fn int_fault(text: Seq<char>) -> Seq<char> {
    match int_fault_kind(text) {
        IntFault::Empty => "cannot parse integer from empty string"@,
        IntFault::InvalidDigit => "invalid digit found in string"@,
        IntFault::PosOverflow => "number too large to fit in target type"@,
        IntFault::NegOverflow => "number too small to fit in target type"@,
    }
}

/// The message for a text that is no literal of a real number.
pub open spec fn real_fault(text: Seq<char>) -> Seq<char> {
    if text.len() == 0 {
        "cannot parse float from empty string"@
    } else {
        "invalid float literal"@
    }
}

/// The value of a property, from the type that it declares and the text of
/// its value.
pub open spec fn property_value(kind: Seq<char>, value: Seq<char>) -> Result<PropertyView, Fault> {
    if kind == "bool"@ {
        match bool_text(value) {
            Some(b) => Ok(PropertyView::Bool(b)),
            None => Err(Fault::Other(bool_fault())),
        }
    } else if kind == "float"@ {
        if is_real(value) {
            Ok(PropertyView::Float(value))
        } else {
            Err(Fault::Other(real_fault(value)))
        }
    } else if kind == "int"@ {
        match i32_text(value) {
            Some(i) => Ok(PropertyView::Int(i)),
            None => Err(Fault::Other(int_fault(value))),
        }
    } else if kind == "color"@ {
        if value.len() > 1 && hex_u32_text(value.skip(1)) is Some {
            Ok(PropertyView::Color(hex_u32_text(value.skip(1)).unwrap()))
        } else {
            Err(Fault::Other("Improperly formatted color property"@))
        }
    } else if kind == "string"@ {
        Ok(PropertyView::String(value))
    } else if kind == "file"@ {
        Ok(PropertyView::File(value))
    } else {
        Err(Fault::Other(unknown_type(kind)))
    }
}

/// The six types that a property can declare.
pub open spec fn known_type(kind: Seq<char>) -> bool {
    kind == "bool"@ || kind == "float"@ || kind == "int"@ || kind == "color"@ || kind == "string"@
        || kind == "file"@
}

/// The message for a property of a type that is none of the six.
pub open spec fn unknown_type(kind: Seq<char>) -> Seq<char> {
    "Unknown property type \""@ + kind + "\""@
}

/// A property fails with the message for an unknown type if and only if the
/// type that it declares is none of the six: no value of a known type fails
/// with that message.
pub proof fn lemma_unknown_property_type(kind: Seq<char>, value: Seq<char>)
    ensures
        property_value(kind, value) == Err::<PropertyView, Fault>(
            Fault::Other(unknown_type(kind)),
        ) <==> !known_type(kind),
{
    reveal_strlit("Unknown property type \"");
    reveal_strlit("provided string was not `true` or `false`");
    reveal_strlit("cannot parse float from empty string");
    reveal_strlit("invalid float literal");
    reveal_strlit("cannot parse integer from empty string");
    reveal_strlit("invalid digit found in string");
    reveal_strlit("number too large to fit in target type");
    reveal_strlit("number too small to fit in target type");
    reveal_strlit("Improperly formatted color property");
    let unknown = unknown_type(kind);
    assert(unknown[0] == 'U');
    if known_type(kind) {
        match property_value(kind, value) {
            Ok(_) => {},
            Err(Fault::Other(message)) => {
                assert(message[0] != 'U');
            },
            Err(_) => {},
        }
    }
}

impl PropertyValue {
    /// Reads the value of a property from the type that it declares and the
    /// text of its value.
    pub fn new(property_type: String, value: String) -> (property: Result<
        PropertyValue,
        TiledError,
    >)
        ensures
            viewed(property) == property_value(property_type@, value@),
    {
        let kind = property_type.as_str();
        if same_text(kind, "bool") {
            match parse_bool(value.as_str()) {
                Some(b) => Ok(PropertyValue::BoolValue(b)),
                None => Err(TiledError::other("provided string was not `true` or `false`")),
            }
        } else if same_text(kind, "float") {
            match Real::parse(value.as_str()) {
                Some(r) => Ok(PropertyValue::FloatValue(r)),
                None => {
                    if value.as_str().unicode_len() == 0 {
                        Err(TiledError::other("cannot parse float from empty string"))
                    } else {
                        Err(TiledError::other("invalid float literal"))
                    }
                },
            }
        } else if same_text(kind, "int") {
            let chars = chars_of(value.as_str());
            match parse_i32(chars.as_slice()) {
                Some(i) => Ok(PropertyValue::IntValue(i)),
                None => Err(
                    TiledError::other(
                        match why_no_i32(chars.as_slice()) {
                            IntFault::Empty => "cannot parse integer from empty string",
                            IntFault::InvalidDigit => "invalid digit found in string",
                            IntFault::PosOverflow => "number too large to fit in target type",
                            IntFault::NegOverflow => "number too small to fit in target type",
                        },
                    ),
                ),
            }
        } else if same_text(kind, "color") {
            let chars = chars_of(value.as_str());
            if chars.len() > 1 {
                let digits = slice_subrange(chars.as_slice(), 1, chars.len());
                match parse_hex_u32(digits) {
                    Some(c) => Ok(PropertyValue::ColorValue(c)),
                    None => Err(TiledError::other("Improperly formatted color property")),
                }
            } else {
                Err(TiledError::other("Improperly formatted color property"))
            }
        } else if same_text(kind, "string") {
            Ok(PropertyValue::StringValue(value))
        } else if same_text(kind, "file") {
            Ok(PropertyValue::FileValue(value))
        } else {
            let message = String::from_str("Unknown property type \"").concat(kind).concat("\"");
            Err(TiledError::Other(message))
        }
    }
}

/// One property: a value under its name.
#[derive(Debug, PartialEq)]
pub struct Property {
    pub name: String,
    pub value: PropertyValue,
}

impl Clone for Property {
    fn clone(&self) -> (copy: Property)
        ensures
            copy.name@ == self.name@,
            copy.value@ == self.value@,
    {
        Property { name: self.name.clone(), value: self.value.clone() }
    }
}

impl Entry for Property {
    type Id = Seq<char>;

    type Held = PropertyView;

    type Probe = str;

    open spec fn id(&self) -> Seq<char> {
        self.name@
    }

    open spec fn held(&self) -> PropertyView {
        self.value@
    }

    open spec fn sought(probe: &str) -> Seq<char> {
        probe@
    }

    fn has_key(&self, probe: &str) -> (yes: bool) {
        same_text(self.name.as_str(), probe)
    }

    fn same_key(&self, other: &Property) -> (yes: bool) {
        same_text(self.name.as_str(), other.name.as_str())
    }

    fn copy(&self) -> (copy: Property) {
        self.clone()
    }
}

/// The properties of an element. No two of them have one name.
#[derive(Debug, PartialEq)]
pub struct Properties {
    entries: Keyed<Property>,
}

impl View for Properties {
    type V = Map<Seq<char>, PropertyView>;

    closed spec fn view(&self) -> Map<Seq<char>, PropertyView> {
        self.entries@
    }
}

impl Clone for Properties {
    fn clone(&self) -> (copy: Properties)
        ensures
            copy@ == self@,
    {
        Properties { entries: self.entries.clone() }
    }
}

impl Properties {
    /// The properties in the order in which their names were last given a
    /// value.
    pub closed spec fn list(&self) -> Seq<Property> {
        self.entries.list()
    }

    /// No properties.
    pub fn new() -> (properties: Properties)
        ensures
            properties@ == Map::<Seq<char>, PropertyView>::empty(),
    {
        Properties { entries: Keyed::new() }
    }

    /// Puts a value under a name, in place of the value that the name had.
    pub fn insert(&mut self, name: String, value: PropertyValue)
        ensures
            final(self)@ == old(self)@.insert(name@, value@),
    {
        self.entries.insert(Property { name, value });
    }

    /// The value under a name.
    pub fn get(&self, name: &str) -> (value: Option<&PropertyValue>)
        ensures
            match value {
                Some(v) => self@.contains_key(name@) && self@[name@] == v@,
                None => !self@.contains_key(name@),
            },
    {
        match self.entries.get(name) {
            Some(property) => Some(&property.value),
            None => None,
        }
    }

    /// All the properties; no two of them have one name.
    pub fn entries(&self) -> (entries: &Vec<Property>)
        ensures
            entries@ == self.list(),
            listed(entries@) == self@,
            distinct(entries@),
    {
        self.entries.items()
    }
}

/// The tags that a bag of properties looks for.
pub open spec fn property_tags() -> Seq<&'static str> {
    seq!["property"]
}

/// What one `property` element adds: its name and its value.
pub open spec fn property_of(attributes: Seq<Attribute>) -> Result<
    (Seq<char>, PropertyView),
    Fault,
> {
    match (attribute_value(attributes, "name"@), attribute_value(attributes, "value"@)) {
        (Some(name), Some(value)) => {
            let kind = match attribute_value(attributes, "type"@) {
                Some(k) => k,
                None => "string"@,
            };
            match property_value(kind, value) {
                Ok(v) => Ok((name, v)),
                Err(e) => Err(e),
            }
        },
        _ => Err(Fault::MalformedAttributes("property must have a name and a value"@)),
    }
}

/// The properties that the `property` elements from `from` on add to `bag`,
/// up to the end of the `properties` element, with the position behind it.
#[verifier::opaque]
pub open spec fn properties_from(
    events: Seq<Event>,
    from: int,
    bag: Map<Seq<char>, PropertyView>,
) -> Result<(Map<Seq<char>, PropertyView>, int), Fault>
    decreases events.len() - from,
{
    if from < 0 {
        Err(Fault::PrematureEnd(ended_early()))
    } else {
        match find(events, from, "properties"@, property_tags()) {
            Spot::Child { tag, at } => {
                match property_of(attributes_at(events, at)) {
                    Ok((name, value)) => {
                        proof {
                            lemma_find_bounds(events, from, "properties"@, property_tags());
                        }
                        properties_from(events, at + 1, bag.insert(name, value))
                    },
                    Err(e) => Err(e),
                }
            },
            Spot::Closed { next } => Ok((bag, next)),
            Spot::Ended => Err(Fault::PrematureEnd(ended_early())),
            Spot::Broken { fault } => Err(Fault::Xml(fault_text(fault))),
        }
    }
}

/// The properties of a `properties` element whose content starts at `from`.
pub open spec fn properties_at(events: Seq<Event>, from: int) -> Result<
    (Map<Seq<char>, PropertyView>, int),
    Fault,
> {
    properties_from(events, from, Map::empty())
}

/// A bag of properties ends behind the place where its content starts.
pub proof fn lemma_properties_advance(
    events: Seq<Event>,
    from: int,
    bag: Map<Seq<char>, PropertyView>,
)
    requires
        0 <= from,
    ensures
        properties_from(events, from, bag) matches Ok((_, next)) ==> from < next <= events.len(),
    decreases events.len() - from,
{
    reveal(properties_from);
    lemma_find_bounds(events, from, "properties"@, property_tags());
    match find(events, from, "properties"@, property_tags()) {
        Spot::Child { tag, at } => {
            match property_of(attributes_at(events, at)) {
                Ok((name, value)) => {
                    lemma_properties_advance(events, at + 1, bag.insert(name, value));
                },
                Err(e) => {},
            }
        },
        _ => {},
    }
}

fn one_property(attributes: &Vec<Attribute>) -> (property: Result<(String, PropertyValue), TiledError>)
    ensures
        match property {
            Ok((name, value)) => property_of(attributes@) == Ok::<
                (Seq<char>, PropertyView),
                Fault,
            >((name@, value@)),
            Err(e) => property_of(attributes@) == Err::<(Seq<char>, PropertyView), Fault>(e@),
        },
{
    let kind = attribute(attributes, "type");
    let name = attribute(attributes, "name");
    let value = attribute(attributes, "value");
    match (name, value) {
        (Some(name), Some(value)) => {
            let kind = match kind {
                Some(k) => k.clone(),
                None => String::from_str("string"),
            };
            match PropertyValue::new(kind, value.clone()) {
                Ok(v) => Ok((name.clone(), v)),
                Err(e) => Err(e),
            }
        },
        _ => Err(TiledError::malformed("property must have a name and a value")),
    }
}

/// Builds the properties of a `properties` element whose content starts at
/// `from`.
pub fn parse_properties(events: &Vec<Event>, from: usize) -> (outcome: Result<
    (Properties, usize),
    TiledError,
>)
    ensures
        built(outcome) == properties_at(events@, from as int),
        outcome matches Ok((_, next)) ==> from < next <= events.len(),
{
    let mut properties = Properties::new();
    let mut at: usize = from;
    let tags: [&str; 1] = ["property"];
    loop
        invariant
            from <= at,
            tags@ == property_tags(),
            properties_at(events@, from as int) == properties_from(events@, at as int, properties@),
        decreases events.len() - at,
    {
        proof {
            reveal(properties_from);
            lemma_properties_advance(events@, at as int, properties@);
        }
        match next_child(events, at, "properties", &tags) {
            Found::Child { tag, at: child, attributes } => {
                match one_property(attributes) {
                    Ok((name, value)) => {
                        properties.insert(name, value);
                        at = child + 1;
                    },
                    Err(e) => {
                        return Err(e);
                    },
                }
            },
            Found::Closed { next } => {
                return Ok((properties, next));
            },
            Found::Ended => {
                return Err(TiledError::premature("Document ended before we expected."));
            },
            Found::Broken { fault } => {
                return Err(TiledError::XmlDecodingError(fault.clone()));
            },
        }
    }
}

} // verus!
