//! Objects, their shapes, and the groups that hold them.

use crate::error::{fault_text, Fault, TiledError};
use crate::markup::{
    attributes_at, ended_early, find, lemma_find_bounds, next_child, Attribute, Event, Found,
    Spot,
};
use crate::properties::{
    lemma_properties_advance, parse_properties, properties_at, Properties, PropertyView,
};
use crate::scalar::{
    colour_attribute, flag_attribute, or_default, read_colour, read_flag, read_real, read_text,
    read_u32, real_attribute, text_attribute, u32_attribute, Colour, Real,
};
use crate::text::{chars_of, is_real};
use crate::views::{built, lemma_views_push, viewed, views};
use vstd::prelude::*;
use vstd::string::*;

verus! {

/// The shape of an object.
#[derive(Debug, PartialEq, Clone)]
pub enum ObjectShape {
    Rect { width: Real, height: Real },
    Ellipse { width: Real, height: Real },
    Polyline { points: Vec<(Real, Real)> },
    Polygon { points: Vec<(Real, Real)> },
    Point(Real, Real),
}

/// An `ObjectShape` as contracts see it.
pub enum ShapeView {
    Rect { width: Seq<char>, height: Seq<char> },
    Ellipse { width: Seq<char>, height: Seq<char> },
    Polyline { points: Seq<(Seq<char>, Seq<char>)> },
    Polygon { points: Seq<(Seq<char>, Seq<char>)> },
    Point(Seq<char>, Seq<char>),
}

/// Points as contracts see them.
pub open spec fn pairs(points: Seq<(Real, Real)>) -> Seq<(Seq<char>, Seq<char>)> {
    Seq::new(points.len(), |i: int| (points[i].0@, points[i].1@))
}

impl View for ObjectShape {
    type V = ShapeView;

    open spec fn view(&self) -> ShapeView {
        match *self {
            ObjectShape::Rect { width, height } => ShapeView::Rect {
                width: width@,
                height: height@,
            },
            ObjectShape::Ellipse { width, height } => ShapeView::Ellipse {
                width: width@,
                height: height@,
            },
            ObjectShape::Polyline { points } => ShapeView::Polyline { points: pairs(points@) },
            ObjectShape::Polygon { points } => ShapeView::Polygon { points: pairs(points@) },
            ObjectShape::Point(x, y) => ShapeView::Point(x@, y@),
        }
    }
}

/// An object of an object group: a shape at a place, or a tile where it has
/// a gid.
#[derive(Debug, PartialEq, Clone)]
pub struct Object {
    pub id: u32,
    pub gid: u32,
    pub name: String,
    pub obj_type: String,
    pub width: Real,
    pub height: Real,
    pub x: Real,
    pub y: Real,
    pub rotation: Real,
    pub visible: bool,
    pub shape: ObjectShape,
    pub properties: Properties,
}

/// An `Object` as contracts see it.
pub struct ObjectView {
    pub id: u32,
    pub gid: u32,
    pub name: Seq<char>,
    pub obj_type: Seq<char>,
    pub width: Seq<char>,
    pub height: Seq<char>,
    pub x: Seq<char>,
    pub y: Seq<char>,
    pub rotation: Seq<char>,
    pub visible: bool,
    pub shape: ShapeView,
    pub properties: Map<Seq<char>, PropertyView>,
}

impl View for Object {
    type V = ObjectView;

    open spec fn view(&self) -> ObjectView {
        ObjectView {
            id: self.id,
            gid: self.gid,
            name: self.name@,
            obj_type: self.obj_type@,
            width: self.width@,
            height: self.height@,
            x: self.x@,
            y: self.y@,
            rotation: self.rotation@,
            visible: self.visible,
            shape: self.shape@,
            properties: self.properties@,
        }
    }
}

/// The first position from `from` on, and before `end`, that holds `c`;
/// `end` where there is none.
pub open spec fn stop_at(s: Seq<char>, from: int, end: int, c: char) -> int
    decreases end - from,
{
    if 0 <= from && from < end && from < s.len() && s[from] != c {
        stop_at(s, from + 1, end, c)
    } else if from < end {
        from
    } else {
        end
    }
}

/// Where `stop_at` stops lies between `from` and `end`.
pub proof fn lemma_stop_at(s: Seq<char>, from: int, end: int, c: char)
    requires
        0 <= from <= end <= s.len(),
    ensures
        from <= stop_at(s, from, end, c) <= end,
    decreases end - from,
{
    if from < end && s[from] != c {
        lemma_stop_at(s, from + 1, end, c);
    }
}

/// The message for a point that is no pair.
pub open spec fn no_pair() -> Seq<char> {
    "one of a polyline's points does not have an x and y coordinate"@
}

/// The message for a point whose coordinates are no numbers.
pub open spec fn no_numbers() -> Seq<char> {
    "one of polyline's points does not have i32eger coordinates"@
}

/// The point that the text from `from` to `end` writes: two real numbers
/// with one comma between them.
pub open spec fn point_in(s: Seq<char>, from: int, end: int) -> Result<
    (Seq<char>, Seq<char>),
    Fault,
> {
    let comma = stop_at(s, from, end, ',');
    if comma >= end || stop_at(s, comma + 1, end, ',') < end {
        Err(Fault::Other(no_pair()))
    } else {
        let x = s.subrange(from, comma);
        let y = s.subrange(comma + 1, end);
        if is_real(x) && is_real(y) {
            Ok((x, y))
        } else {
            Err(Fault::Other(no_numbers()))
        }
    }
}

/// The points that a text writes from `from` on, one space between every
/// two of them.
pub open spec fn points_from(s: Seq<char>, from: int) -> Result<
    Seq<(Seq<char>, Seq<char>)>,
    Fault,
>
    decreases s.len() - from,
{
    if from < 0 || from > s.len() {
        Ok(Seq::empty())
    } else {
        let end = stop_at(s, from, s.len() as int, ' ');
        match point_in(s, from, end) {
            Err(e) => Err(e),
            Ok(point) => if end < s.len() {
                proof {
                    lemma_stop_at(s, from, s.len() as int, ' ');
                }
                match points_from(s, end + 1) {
                    Ok(rest) => Ok(seq![point] + rest),
                    Err(e) => Err(e),
                }
            } else {
                Ok(seq![point])
            },
        }
    }
}

/// The points of a polyline or of a polygon.
pub open spec fn points_of(s: Seq<char>) -> Result<Seq<(Seq<char>, Seq<char>)>, Fault> {
    points_from(s, 0)
}

fn scan_to(chars: &Vec<char>, from: usize, end: usize, c: char) -> (at: usize)
    requires
        from <= end <= chars.len(),
    ensures
        at == stop_at(chars@, from as int, end as int, c),
        from <= at <= end,
{
    let mut at: usize = from;
    while at < end && chars[at] != c
        invariant
            from <= at <= end <= chars.len(),
            stop_at(chars@, from as int, end as int, c) == stop_at(chars@, at as int, end as int, c),
        decreases end - at,
    {
        at += 1;
    }
    at
}

/// Reads the points of a polyline or of a polygon.
pub fn parse_points(s: &str) -> (points: Result<Vec<(Real, Real)>, TiledError>)
    ensures
        match points {
            Ok(p) => points_of(s@) == Ok::<Seq<(Seq<char>, Seq<char>)>, Fault>(pairs(p@)),
            Err(e) => points_of(s@) == Err::<Seq<(Seq<char>, Seq<char>)>, Fault>(e@),
        },
{
    let chars = chars_of(s);
    let mut points: Vec<(Real, Real)> = Vec::new();
    let mut from: usize = 0;
    assert(pairs(points@) =~= Seq::empty());
    loop
        invariant
            chars@ == s@,
            from <= chars.len(),
            match points_from(s@, from as int) {
                Ok(rest) => points_of(s@) == Ok::<Seq<(Seq<char>, Seq<char>)>, Fault>(
                    pairs(points@) + rest,
                ),
                Err(e) => points_of(s@) == Err::<Seq<(Seq<char>, Seq<char>)>, Fault>(e),
            },
        decreases chars.len() - from,
    {
        let end = scan_to(&chars, from, chars.len(), ' ');
        let comma = scan_to(&chars, from, end, ',');
        if comma >= end {
            return Err(
                TiledError::other("one of a polyline's points does not have an x and y coordinate"),
            );
        }
        if scan_to(&chars, comma + 1, end, ',') < end {
            return Err(
                TiledError::other("one of a polyline's points does not have an x and y coordinate"),
            );
        }
        let x = Real::parse(s.substring_char(from, comma));
        let y = Real::parse(s.substring_char(comma + 1, end));
        match (x, y) {
            (Some(x), Some(y)) => {
                proof {
                    let point = (x@, y@);
                    let before = pairs(points@);
                    assert(pairs(points@.push((x, y))) =~= before.push(point));
                    if end < chars.len() {
                        if let Ok(rest) = points_from(s@, end + 1) {
                            assert(before.push(point) + rest =~= before + (seq![point] + rest));
                        }
                    } else {
                        assert(before.push(point) =~= before + seq![point]);
                    }
                }
                points.push((x, y));
            },
            _ => {
                return Err(
                    TiledError::other("one of polyline's points does not have i32eger coordinates"),
                );
            },
        }
        if end >= chars.len() {
            return Ok(points);
        }
        from = end + 1;
    }
}

/// The points that the attributes of a `polyline` or `polygon` element
/// give; `missing` is the message for an element without them.
pub open spec fn points_attribute(attributes: Seq<Attribute>, missing: Seq<char>) -> Result<
    Seq<(Seq<char>, Seq<char>)>,
    Fault,
> {
    match text_attribute(attributes, "points"@) {
        Some(s) => points_of(s),
        None => Err(Fault::MalformedAttributes(missing)),
    }
}

fn read_points(attributes: &Vec<Attribute>, missing: &str) -> (points: Result<
    Vec<(Real, Real)>,
    TiledError,
>)
    ensures
        match points {
            Ok(p) => points_attribute(attributes@, missing@) == Ok::<
                Seq<(Seq<char>, Seq<char>)>,
                Fault,
            >(pairs(p@)),
            Err(e) => points_attribute(attributes@, missing@) == Err::<
                Seq<(Seq<char>, Seq<char>)>,
                Fault,
            >(e@),
        },
{
    match crate::markup::attribute(attributes, "points") {
        Some(s) => parse_points(s.as_str()),
        None => Err(TiledError::malformed(missing)),
    }
}

/// The shape that a `polyline` element with the given attributes gives.
pub open spec fn polyline_of(attributes: Seq<Attribute>) -> Result<ShapeView, Fault> {
    match points_attribute(attributes, "A polyline must have points"@) {
        Ok(points) => Ok(ShapeView::Polyline { points }),
        Err(e) => Err(e),
    }
}

/// The shape that a `polygon` element with the given attributes gives.
pub open spec fn polygon_of(attributes: Seq<Attribute>) -> Result<ShapeView, Fault> {
    match points_attribute(attributes, "A polygon must have points"@) {
        Ok(points) => Ok(ShapeView::Polygon { points }),
        Err(e) => Err(e),
    }
}

/// The tags that an object looks for.
pub open spec fn object_tags() -> Seq<&'static str> {
    seq!["ellipse", "polyline", "polygon", "point", "properties"]
}

/// The object that the attributes of an `object` element describe, before
/// any of its children is read: a rectangle without properties. Its
/// position is required.
pub open spec fn object_of(attributes: Seq<Attribute>) -> Option<ObjectView> {
    match (real_attribute(attributes, "x"@), real_attribute(attributes, "y"@)) {
        (Some(x), Some(y)) => {
            let width = or_default(real_attribute(attributes, "width"@), "0.0"@);
            let height = or_default(real_attribute(attributes, "height"@), "0.0"@);
            Some(
                ObjectView {
                    id: or_default(u32_attribute(attributes, "id"@), 0),
                    gid: or_default(u32_attribute(attributes, "gid"@), 0),
                    name: or_default(text_attribute(attributes, "name"@), Seq::empty()),
                    obj_type: or_default(text_attribute(attributes, "type"@), Seq::empty()),
                    width,
                    height,
                    x,
                    y,
                    rotation: or_default(real_attribute(attributes, "rotation"@), "0.0"@),
                    visible: or_default(flag_attribute(attributes, "visible"@), true),
                    shape: ShapeView::Rect { width, height },
                    properties: Map::empty(),
                },
            )
        },
        _ => None,
    }
}

/// The object that `object` becomes by the children from `from` on, with the
/// position behind the `object` element. A child that gives a shape or
/// properties replaces what an earlier one gave.
#[verifier::opaque]
pub open spec fn object_from(events: Seq<Event>, from: int, object: ObjectView) -> Result<
    (ObjectView, int),
    Fault,
>
    decreases events.len() - from,
{
    if from < 0 {
        Err(Fault::PrematureEnd(ended_early()))
    } else {
        match find(events, from, "object"@, object_tags()) {
            Spot::Child { tag, at } => {
                proof {
                    lemma_find_bounds(events, from, "object"@, object_tags());
                }
                let attributes = attributes_at(events, at);
                if tag == 0 {
                    object_from(
                        events,
                        at + 1,
                        ObjectView {
                            shape: ShapeView::Ellipse {
                                width: object.width,
                                height: object.height,
                            },
                            ..object
                        },
                    )
                } else if tag == 1 {
                    match polyline_of(attributes) {
                        Ok(shape) => object_from(events, at + 1, ObjectView { shape, ..object }),
                        Err(e) => Err(e),
                    }
                } else if tag == 2 {
                    match polygon_of(attributes) {
                        Ok(shape) => object_from(events, at + 1, ObjectView { shape, ..object }),
                        Err(e) => Err(e),
                    }
                } else if tag == 3 {
                    object_from(
                        events,
                        at + 1,
                        ObjectView { shape: ShapeView::Point(object.x, object.y), ..object },
                    )
                } else {
                    match properties_at(events, at + 1) {
                        Ok((properties, next)) => {
                            proof {
                                lemma_properties_advance(events, at + 1, Map::empty());
                            }
                            object_from(events, next, ObjectView { properties, ..object })
                        },
                        Err(e) => Err(e),
                    }
                }
            },
            Spot::Closed { next } => Ok((object, next)),
            Spot::Ended => Err(Fault::PrematureEnd(ended_early())),
            Spot::Broken { fault } => Err(Fault::Xml(fault_text(fault))),
        }
    }
}

/// The object of an `object` element with the given attributes, whose
/// content starts at `from`.
#[verifier::opaque]
pub open spec fn object_at(events: Seq<Event>, from: int, attributes: Seq<Attribute>) -> Result<
    (ObjectView, int),
    Fault,
> {
    match object_of(attributes) {
        Some(object) => object_from(events, from, object),
        None => Err(Fault::MalformedAttributes("objects must have an x and a y number"@)),
    }
}

/// An object ends behind the place where its content starts.
pub proof fn lemma_object_advance(events: Seq<Event>, from: int, object: ObjectView)
    requires
        0 <= from,
    ensures
        object_from(events, from, object) matches Ok((_, next)) ==> from < next <= events.len(),
    decreases events.len() - from,
{
    reveal(object_from);
    lemma_find_bounds(events, from, "object"@, object_tags());
    match find(events, from, "object"@, object_tags()) {
        Spot::Child { tag, at } => {
            let attributes = attributes_at(events, at);
            if tag == 0 {
                lemma_object_advance(
                    events,
                    at + 1,
                    ObjectView {
                        shape: ShapeView::Ellipse { width: object.width, height: object.height },
                        ..object
                    },
                );
            } else if tag == 1 {
                if let Ok(shape) = polyline_of(attributes) {
                    lemma_object_advance(events, at + 1, ObjectView { shape, ..object });
                }
            } else if tag == 2 {
                if let Ok(shape) = polygon_of(attributes) {
                    lemma_object_advance(events, at + 1, ObjectView { shape, ..object });
                }
            } else if tag == 3 {
                lemma_object_advance(
                    events,
                    at + 1,
                    ObjectView { shape: ShapeView::Point(object.x, object.y), ..object },
                );
            } else {
                if let Ok((properties, next)) = properties_at(events, at + 1) {
                    lemma_properties_advance(events, at + 1, Map::empty());
                    lemma_object_advance(events, next, ObjectView { properties, ..object });
                }
            }
        },
        _ => {},
    }
}

impl Object {
    /// Reads the shape of a `polyline` element.
    pub fn new_polyline(attributes: &Vec<Attribute>) -> (shape: Result<ObjectShape, TiledError>)
        ensures
            viewed(shape) == polyline_of(attributes@),
    {
        match read_points(attributes, "A polyline must have points") {
            Ok(points) => Ok(ObjectShape::Polyline { points }),
            Err(e) => Err(e),
        }
    }

    /// Reads the shape of a `polygon` element.
    pub fn new_polygon(attributes: &Vec<Attribute>) -> (shape: Result<ObjectShape, TiledError>)
        ensures
            viewed(shape) == polygon_of(attributes@),
    {
        match read_points(attributes, "A polygon must have points") {
            Ok(points) => Ok(ObjectShape::Polygon { points }),
            Err(e) => Err(e),
        }
    }

    /// Reads an `object` element with the given attributes, whose content
    /// starts at `from`.
    pub fn new(events: &Vec<Event>, from: usize, attributes: &Vec<Attribute>) -> (outcome: Result<
        (Object, usize),
        TiledError,
    >)
        ensures
            built(outcome) == object_at(events@, from as int, attributes@),
            outcome matches Ok((_, next)) ==> from < next <= events.len(),
    {
        reveal(object_at);
        let id = read_u32(attributes, "id");
        let gid = read_u32(attributes, "gid");
        let name = read_text(attributes, "name");
        let obj_type = read_text(attributes, "type");
        let width = read_real(attributes, "width");
        let height = read_real(attributes, "height");
        let visible = read_flag(attributes, "visible");
        let rotation = read_real(attributes, "rotation");
        let x = read_real(attributes, "x");
        let y = read_real(attributes, "y");
        let (x, y) = match (x, y) {
            (Some(x), Some(y)) => (x, y),
            _ => {
                return Err(TiledError::malformed("objects must have an x and a y number"));
            },
        };
        let width = match width {
            Some(w) => w,
            None => Real::zero(),
        };
        let height = match height {
            Some(h) => h,
            None => Real::zero(),
        };
        let mut object = Object {
            id: match id {
                Some(v) => v,
                None => 0,
            },
            gid: match gid {
                Some(v) => v,
                None => 0,
            },
            name: match name {
                Some(v) => v,
                None => String::new(),
            },
            obj_type: match obj_type {
                Some(v) => v,
                None => String::new(),
            },
            shape: ObjectShape::Rect { width: width.clone(), height: height.clone() },
            width,
            height,
            x,
            y,
            rotation: match rotation {
                Some(v) => v,
                None => Real::zero(),
            },
            visible: match visible {
                Some(v) => v,
                None => true,
            },
            properties: Properties::new(),
        };
        let tags: [&str; 5] = ["ellipse", "polyline", "polygon", "point", "properties"];
        assert(tags@ =~= object_tags());
        let mut at: usize = from;
        loop
            invariant
                from <= at,
                tags@ == object_tags(),
                object_at(events@, from as int, attributes@) == object_from(
                    events@,
                    at as int,
                    object@,
                ),
            decreases events.len() - at,
        {
            proof {
                reveal(object_from);
                lemma_object_advance(events@, at as int, object@);
            }
            match next_child(events, at, "object", &tags) {
                Found::Child { tag, at: child, attributes: given } => {
                    if tag == 0 {
                        object.shape = ObjectShape::Ellipse {
                            width: object.width.clone(),
                            height: object.height.clone(),
                        };
                        at = child + 1;
                    } else if tag == 1 {
                        match Object::new_polyline(given) {
                            Ok(shape) => {
                                object.shape = shape;
                            },
                            Err(e) => {
                                return Err(e);
                            },
                        }
                        at = child + 1;
                    } else if tag == 2 {
                        match Object::new_polygon(given) {
                            Ok(shape) => {
                                object.shape = shape;
                            },
                            Err(e) => {
                                return Err(e);
                            },
                        }
                        at = child + 1;
                    } else if tag == 3 {
                        object.shape = ObjectShape::Point(object.x.clone(), object.y.clone());
                        at = child + 1;
                    } else {
                        match parse_properties(events, child + 1) {
                            Ok((properties, next)) => {
                                object.properties = properties;
                                at = next;
                            },
                            Err(e) => {
                                return Err(e);
                            },
                        }
                    }
                },
                Found::Closed { next } => {
                    return Ok((object, next));
                },
                Found::Ended => {
                    return Err(TiledError::premature("Document ended before we expected."));
                },
                Found::Broken { fault } => {
                    return Err(TiledError::XmlDecodingError(fault.clone()));
                },
            }
        }
    }
}

/// A group of objects: a layer of a map, or the collision shapes of a tile.
#[derive(Debug, PartialEq, Clone)]
pub struct ObjectGroup {
    pub name: String,
    pub opacity: Real,
    pub visible: bool,
    pub objects: Vec<Object>,
    pub colour: Option<Colour>,
    /// Layer index is not preset for tile collision boxes
    pub layer_index: Option<u32>,
    pub properties: Properties,
}

/// An `ObjectGroup` as contracts see it.
pub struct ObjectGroupView {
    pub name: Seq<char>,
    pub opacity: Seq<char>,
    pub visible: bool,
    pub objects: Seq<ObjectView>,
    pub colour: Option<Colour>,
    pub layer_index: Option<u32>,
    pub properties: Map<Seq<char>, PropertyView>,
}

impl View for ObjectGroup {
    type V = ObjectGroupView;

    open spec fn view(&self) -> ObjectGroupView {
        ObjectGroupView {
            name: self.name@,
            opacity: self.opacity@,
            visible: self.visible,
            objects: views(self.objects@),
            colour: self.colour,
            layer_index: self.layer_index,
            properties: self.properties@,
        }
    }
}

/// The tags that an object group looks for.
pub open spec fn group_tags() -> Seq<&'static str> {
    seq!["object", "properties"]
}

/// The group that the attributes of an `objectgroup` element describe,
/// before any of its children is read. No attribute is required.
pub open spec fn group_of(attributes: Seq<Attribute>, layer_index: Option<u32>) -> ObjectGroupView {
    ObjectGroupView {
        name: or_default(text_attribute(attributes, "name"@), Seq::empty()),
        opacity: or_default(real_attribute(attributes, "opacity"@), "1.0"@),
        visible: or_default(flag_attribute(attributes, "visible"@), true),
        objects: Seq::empty(),
        colour: colour_attribute(attributes, "color"@),
        layer_index,
        properties: Map::empty(),
    }
}

/// The group that `group` becomes by the children from `from` on, with the
/// position behind the `objectgroup` element.
#[verifier::opaque]
pub open spec fn group_from(events: Seq<Event>, from: int, group: ObjectGroupView) -> Result<
    (ObjectGroupView, int),
    Fault,
>
    decreases events.len() - from,
{
    if from < 0 {
        Err(Fault::PrematureEnd(ended_early()))
    } else {
        match find(events, from, "objectgroup"@, group_tags()) {
            Spot::Child { tag, at } => {
                proof {
                    lemma_find_bounds(events, from, "objectgroup"@, group_tags());
                }
                if tag == 0 {
                    match object_at(events, at + 1, attributes_at(events, at)) {
                        Ok((object, next)) => {
                            proof {
                                lemma_object_at_advance(events, at + 1, attributes_at(events, at));
                            }
                            group_from(
                                events,
                                next,
                                ObjectGroupView { objects: group.objects.push(object), ..group },
                            )
                        },
                        Err(e) => Err(e),
                    }
                } else {
                    match properties_at(events, at + 1) {
                        Ok((properties, next)) => {
                            proof {
                                lemma_properties_advance(events, at + 1, Map::empty());
                            }
                            group_from(events, next, ObjectGroupView { properties, ..group })
                        },
                        Err(e) => Err(e),
                    }
                }
            },
            Spot::Closed { next } => Ok((group, next)),
            Spot::Ended => Err(Fault::PrematureEnd(ended_early())),
            Spot::Broken { fault } => Err(Fault::Xml(fault_text(fault))),
        }
    }
}

/// The group of an `objectgroup` element with the given attributes, whose
/// content starts at `from`.
pub open spec fn group_at(
    events: Seq<Event>,
    from: int,
    attributes: Seq<Attribute>,
    layer_index: Option<u32>,
) -> Result<(ObjectGroupView, int), Fault> {
    group_from(events, from, group_of(attributes, layer_index))
}

/// An object ends behind the place where its content starts.
pub proof fn lemma_object_at_advance(events: Seq<Event>, from: int, attributes: Seq<Attribute>)
    requires
        0 <= from,
    ensures
        object_at(events, from, attributes) matches Ok((_, next)) ==> from < next <= events.len(),
{
    reveal(object_at);
    if let Some(object) = object_of(attributes) {
        lemma_object_advance(events, from, object);
    }
}

/// An object group ends behind the place where its content starts, and
/// keeps its index.
pub proof fn lemma_group_advance(events: Seq<Event>, from: int, group: ObjectGroupView)
    requires
        0 <= from,
    ensures
        group_from(events, from, group) matches Ok((built, next)) ==> from < next <= events.len()
            && built.layer_index == group.layer_index,
    decreases events.len() - from,
{
    reveal(group_from);
    lemma_find_bounds(events, from, "objectgroup"@, group_tags());
    match find(events, from, "objectgroup"@, group_tags()) {
        Spot::Child { tag, at } => {
            if tag == 0 {
                if let Ok((object, next)) = object_at(events, at + 1, attributes_at(events, at)) {
                    lemma_object_at_advance(events, at + 1, attributes_at(events, at));
                    lemma_group_advance(
                        events,
                        next,
                        ObjectGroupView { objects: group.objects.push(object), ..group },
                    );
                }
            } else {
                if let Ok((properties, next)) = properties_at(events, at + 1) {
                    lemma_properties_advance(events, at + 1, Map::empty());
                    lemma_group_advance(events, next, ObjectGroupView { properties, ..group });
                }
            }
        },
        _ => {},
    }
}

impl ObjectGroup {
    /// Reads an `objectgroup` element with the given attributes, whose
    /// content starts at `from`. A group that is a layer of the map has a
    /// layer index; the collision shapes of a tile have none.
    pub fn new(
        events: &Vec<Event>,
        from: usize,
        attributes: &Vec<Attribute>,
        layer_index: Option<u32>,
    ) -> (outcome: Result<(ObjectGroup, usize), TiledError>)
        ensures
            built(outcome) == group_at(events@, from as int, attributes@, layer_index),
            outcome matches Ok((_, next)) ==> from < next <= events.len(),
    {
        let opacity = read_real(attributes, "opacity");
        let visible = read_flag(attributes, "visible");
        let colour = read_colour(attributes, "color");
        let name = read_text(attributes, "name");
        let mut group = ObjectGroup {
            name: match name {
                Some(v) => v,
                None => String::new(),
            },
            opacity: match opacity {
                Some(v) => v,
                None => Real::one(),
            },
            visible: match visible {
                Some(v) => v,
                None => true,
            },
            objects: Vec::new(),
            colour,
            layer_index,
            properties: Properties::new(),
        };
        proof {
            crate::views::lemma_views_empty::<Object>();
        }
        let tags: [&str; 2] = ["object", "properties"];
        assert(tags@ =~= group_tags());
        let mut at: usize = from;
        loop
            invariant
                from <= at,
                tags@ == group_tags(),
                group_at(events@, from as int, attributes@, layer_index) == group_from(
                    events@,
                    at as int,
                    group@,
                ),
            decreases events.len() - at,
        {
            proof {
                reveal(group_from);
                lemma_group_advance(events@, at as int, group@);
            }
            match next_child(events, at, "objectgroup", &tags) {
                Found::Child { tag, at: child, attributes: given } => {
                    if tag == 0 {
                        match Object::new(events, child + 1, given) {
                            Ok((object, next)) => {
                                proof {
                                    lemma_views_push(group.objects@, object);
                                }
                                group.objects.push(object);
                                at = next;
                            },
                            Err(e) => {
                                return Err(e);
                            },
                        }
                    } else {
                        match parse_properties(events, child + 1) {
                            Ok((properties, next)) => {
                                group.properties = properties;
                                at = next;
                            },
                            Err(e) => {
                                return Err(e);
                            },
                        }
                    }
                },
                Found::Closed { next } => {
                    return Ok((group, next));
                },
                Found::Ended => {
                    return Err(TiledError::premature("Document ended before we expected."));
                },
                Found::Broken { fault } => {
                    return Err(TiledError::XmlDecodingError(fault.clone()));
                },
            }
        }
    }
}

} // verus!
