//! The document as a sequence of events, and the two tools that every
//! builder uses on it: looking an attribute up by name, and finding the next
//! child element that the builder has a handler for.

use crate::error::{fault_text, Fault, TiledError};
use crate::text::same_text;
use vstd::prelude::*;

verus! {

/// One attribute of an element: its local name and its value.
#[derive(Debug, Clone, PartialEq, Eq)]
pub struct Attribute {
    pub name: String,
    pub value: String,
}

/// What the XML reader reports, as far as a map document needs it. Names are
/// local names.
#[derive(Debug, Clone, PartialEq)]
pub enum Event {
    /// An element opens.
    Open { name: String, attributes: Vec<Attribute> },
    /// An element closes.
    Close { name: String },
    /// Character data that is not white space only.
    Text(String),
    /// The document is complete.
    End,
    /// The document is not well-formed at this place.
    Fault(xml::reader::Error),
    /// Anything else: comments, white space, processing instructions.
    Other,
}

/// An `xml::reader::EventReader` over a document held in memory. What it
/// will report is known to the verifier only as `pending`.
#[verifier::external_body]
pub struct EventSource<'a> {
    reader: xml::reader::EventReader<&'a [u8]>,
}

/// The events that an `EventReader` with its default configuration reports
/// for the document `doc`, up to and including the first `End` or `Fault`.
pub uninterp spec fn xml_events(doc: Seq<u8>) -> Seq<Event>;

/// The events that `source` has yet to report, up to and including the first
/// `End` or `Fault`.
pub uninterp spec fn pending(source: EventSource) -> Seq<Event>;

/// After these two events the reader reports nothing new.
pub open spec fn is_final(event: Event) -> bool {
    event is End || event is Fault
}

/// The sequence stops at its first final event.
pub open spec fn ends_once(events: Seq<Event>) -> bool {
    &&& events.len() > 0
    &&& is_final(events.last())
    &&& forall|i: int| 0 <= i < events.len() - 1 ==> !is_final(#[trigger] events[i])
}

/// `xml::reader::EventReader::new` on a byte slice. Taken on trust: what the
/// reader reports depends on the bytes alone; it reports finitely many
/// events before the first `EndDocument` or error, and from then on only
/// that one again.
#[verifier::external_body]
fn open_source<'a>(doc: &'a [u8]) -> (source: EventSource<'a>)
    ensures
        pending(source) == xml_events(doc@),
        ends_once(pending(source)),
{
    EventSource { reader: xml::reader::EventReader::new(doc) }
}

/// `xml::reader::EventReader::next`. Taken on trust: the call hands out the
/// first pending event and leaves the rest pending. The event is handed on
/// as this library's own: an opening element with its local name and its
/// attributes (local name and value) in their order, a closing element with
/// its local name, character data with its text, the end of the document,
/// an error as a `Fault`, and everything else as `Other`.
#[verifier::external_body]
fn pull(source: &mut EventSource) -> (event: Event)
    requires
        pending(*old(source)).len() > 0,
    ensures
        event == pending(*old(source))[0],
        pending(*final(source)) == pending(*old(source)).drop_first(),
{
    match source.reader.next() {
        Ok(xml::reader::XmlEvent::StartElement { name, attributes, .. }) => Event::Open {
            name: name.local_name,
            attributes: attributes.into_iter().map(
                |a| Attribute { name: a.name.local_name, value: a.value },
            ).collect(),
        },
        Ok(xml::reader::XmlEvent::EndElement { name }) => Event::Close { name: name.local_name },
        Ok(xml::reader::XmlEvent::Characters(text)) => Event::Text(text),
        Ok(xml::reader::XmlEvent::EndDocument) => Event::End,
        Ok(_) => Event::Other,
        Err(fault) => Event::Fault(fault),
    }
}

fn final_event(event: &Event) -> (yes: bool)
    ensures
        yes == is_final(*event),
{
    match event {
        Event::End => true,
        Event::Fault(_) => true,
        _ => false,
    }
}

/// Reads a whole document into its events.
pub fn read_events(doc: &[u8]) -> (events: Vec<Event>)
    ensures
        events@ == xml_events(doc@),
        ends_once(events@),
{
    let mut source = open_source(doc);
    let mut events: Vec<Event> = Vec::new();
    loop
        invariant_except_break
            pending(source).len() > 0,
            forall|i: int| 0 <= i < events@.len() ==> !is_final(#[trigger] events@[i]),
        invariant
            events@ + pending(source) == xml_events(doc@),
            ends_once(xml_events(doc@)),
        ensures
            events@ == xml_events(doc@),
            ends_once(events@),
        decreases pending(source).len(),
    {
        let ghost all = xml_events(doc@);
        let ghost before = pending(source);
        let ghost seen = events@;
        let event = pull(&mut source);
        let last = final_event(&event);
        events.push(event);
        proof {
            assert(seen + before == all);
            assert(all[seen.len() as int] == before[0]);
            assert(events@ + pending(source) =~= seen + before);
            if last {
                // The one final event of a document is its last event.
                assert(seen.len() == all.len() - 1);
                assert(before.len() == 1);
                assert(pending(source).len() == 0);
                assert(events@ =~= all);
            } else {
                assert(seen.len() < all.len() - 1);
                assert(before.len() > 1);
                assert forall|i: int| 0 <= i < events@.len() implies !is_final(
                    #[trigger] events@[i],
                ) by {
                    if i < seen.len() {
                        assert(events@[i] == seen[i]);
                    }
                }
            }
        }
        if last {
            break ;
        }
    }
    events
}

/// The value of the last attribute called `name`, if there is one.
pub open spec fn attribute_value(attributes: Seq<Attribute>, name: Seq<char>) -> Option<
    Seq<char>,
>
    decreases attributes.len(),
{
    if attributes.len() == 0 {
        None
    } else if attributes.last().name@ == name {
        Some(attributes.last().value@)
    } else {
        attribute_value(attributes.drop_last(), name)
    }
}

/// Looks an attribute up by its name; of several with one name the last
/// counts.
pub fn attribute<'a>(attributes: &'a Vec<Attribute>, name: &str) -> (value: Option<&'a String>)
    ensures
        match value {
            Some(v) => attribute_value(attributes@, name@) == Some(v@),
            None => attribute_value(attributes@, name@) is None,
        },
{
    let mut i: usize = attributes.len();
    assert(attributes@.take(i as int) =~= attributes@);
    while i > 0
        invariant
            i <= attributes.len(),
            attribute_value(attributes@, name@) == attribute_value(
                attributes@.take(i as int),
                name@,
            ),
        decreases i,
    {
        let ghost prefix = attributes@.take(i as int);
        assert(prefix.drop_last() =~= attributes@.take(i - 1));
        assert(prefix.last() == attributes@[i - 1]);
        i -= 1;
        if same_text(attributes[i].name.as_str(), name) {
            return Some(&attributes[i].value);
        }
    }
    None
}

/// The first position in `tags` that holds `name`.
pub open spec fn tag_index(tags: Seq<&str>, name: Seq<char>) -> Option<int>
    decreases tags.len(),
{
    if tags.len() == 0 {
        None
    } else {
        match tag_index(tags.drop_last(), name) {
            Some(k) => Some(k),
            None => if tags.last()@ == name {
                Some(tags.len() - 1)
            } else {
                None
            },
        }
    }
}

/// What a builder meets next among the events of its element.
pub enum Found<'a> {
    /// The element at `at` opens, and `tags[tag]` is its name.
    Child { tag: usize, at: usize, attributes: &'a Vec<Attribute> },
    /// The builder's own element closes; `next` is the position behind.
    Closed { next: usize },
    /// The document ends inside the element.
    Ended,
    /// The document is not well-formed.
    Broken { fault: &'a xml::reader::Error },
}

/// `Found`, as contracts see it.
pub enum Spot {
    Child { tag: int, at: int },
    Closed { next: int },
    Ended,
    Broken { fault: xml::reader::Error },
}

impl<'a> View for Found<'a> {
    type V = Spot;

    open spec fn view(&self) -> Spot {
        match *self {
            Found::Child { tag, at, .. } => Spot::Child { tag: tag as int, at: at as int },
            Found::Closed { next } => Spot::Closed { next: next as int },
            Found::Ended => Spot::Ended,
            Found::Broken { fault } => Spot::Broken { fault: *fault },
        }
    }
}

/// What the dispatcher finds from `from` on: the first event that opens an
/// element with a name in `tags`, closes an element called `close`, or ends
/// the document. All other events, elements with other names among them,
/// are passed over.
pub open spec fn find(events: Seq<Event>, from: int, close: Seq<char>, tags: Seq<&str>) -> Spot
    decreases events.len() - from,
{
    if from < 0 || from >= events.len() {
        Spot::Ended
    } else {
        match events[from] {
            Event::Open { name, .. } => match tag_index(tags, name@) {
                Some(k) => Spot::Child { tag: k, at: from },
                None => find(events, from + 1, close, tags),
            },
            Event::Close { name } => if name@ == close {
                Spot::Closed { next: from + 1 }
            } else {
                find(events, from + 1, close, tags)
            },
            Event::End => Spot::Ended,
            Event::Fault(fault) => Spot::Broken { fault },
            _ => find(events, from + 1, close, tags),
        }
    }
}

/// The attributes of the element that opens at `at`.
pub open spec fn attributes_at(events: Seq<Event>, at: int) -> Seq<Attribute> {
    events[at]->Open_attributes@
}

/// Where `find` points lies at or behind `from`, inside the sequence.
pub proof fn lemma_find_bounds(events: Seq<Event>, from: int, close: Seq<char>, tags: Seq<&str>)
    requires
        0 <= from,
    ensures
        match find(events, from, close, tags) {
            Spot::Child { tag, at } => from <= at < events.len() && 0 <= tag < tags.len()
                && events[at] is Open && tag_index(tags, events[at]->Open_name@) == Some(tag),
            Spot::Closed { next } => from < next <= events.len(),
            Spot::Ended => true,
            Spot::Broken { fault } => true,
        },
    decreases events.len() - from,
{
    if from < events.len() {
        match events[from] {
            Event::Open { name, .. } => {
                lemma_tag_index_bounds(tags, name@);
                if tag_index(tags, name@) is None {
                    lemma_find_bounds(events, from + 1, close, tags);
                }
            },
            Event::Close { name } => {
                if name@ != close {
                    lemma_find_bounds(events, from + 1, close, tags);
                }
            },
            Event::End => {},
            Event::Fault(_) => {},
            _ => {
                lemma_find_bounds(events, from + 1, close, tags);
            },
        }
    }
}

/// What `tag_index` finds is a position of `name` in `tags`; it finds none
/// only where `name` is not among them.
pub proof fn lemma_tag_index_bounds(tags: Seq<&str>, name: Seq<char>)
    ensures
        match tag_index(tags, name) {
            Some(k) => 0 <= k < tags.len() && tags[k]@ == name,
            None => forall|i: int| 0 <= i < tags.len() ==> (#[trigger] tags[i])@ != name,
        },
    decreases tags.len(),
{
    if tags.len() > 0 {
        lemma_tag_index_bounds(tags.drop_last(), name);
        if tag_index(tags.drop_last(), name) is None {
            assert forall|i: int| 0 <= i < tags.len() - 1 implies (#[trigger] tags[i])@ != name by {
                assert(tags.drop_last()[i] == tags[i]);
            }
        }
    }
}

fn index_of_tag(tags: &[&str], name: &str) -> (index: Option<usize>)
    ensures
        match index {
            Some(k) => tag_index(tags@, name@) == Some(k as int),
            None => tag_index(tags@, name@) is None,
        },
{
    let mut found: Option<usize> = None;
    let mut i: usize = 0;
    assert(tags@.take(0) =~= Seq::<&str>::empty());
    while i < tags.len()
        invariant
            i <= tags.len(),
            match found {
                Some(k) => tag_index(tags@.take(i as int), name@) == Some(k as int),
                None => tag_index(tags@.take(i as int), name@) is None,
            },
        decreases tags.len() - i,
    {
        let ghost longer = tags@.take(i + 1);
        assert(longer.drop_last() =~= tags@.take(i as int));
        assert(longer.last() == tags@[i as int]);
        if found.is_none() && same_text(tags[i], name) {
            found = Some(i);
        }
        i += 1;
    }
    assert(tags@.take(i as int) =~= tags@);
    found
}

/// The element dispatcher: passes over the events from `from` on that mean
/// nothing to the builder of the element `close`, and says what it stopped
/// at.
pub fn next_child<'a>(events: &'a Vec<Event>, from: usize, close: &str, tags: &[&str]) -> (found:
    Found<'a>)
    ensures
        found@ == find(events@, from as int, close@, tags@),
        match found {
            Found::Child { tag, at, attributes } => from <= at < events.len() && tag < tags@.len()
                && events@[at as int] is Open && attributes@ == attributes_at(
                events@,
                at as int,
            ),
            Found::Closed { next } => from < next <= events.len(),
            _ => true,
        },
{
    let mut at: usize = from;
    while at < events.len()
        invariant
            from <= at,
            find(events@, from as int, close@, tags@) == find(events@, at as int, close@, tags@),
        decreases events.len() - at,
    {
        match &events[at] {
            Event::Open { name, attributes } => {
                match index_of_tag(tags, name.as_str()) {
                    Some(k) => {
                        proof {
                            lemma_tag_index_bounds(tags@, name@);
                        }
                        return Found::Child { tag: k, at, attributes };
                    },
                    None => {},
                }
            },
            Event::Close { name } => {
                if same_text(name.as_str(), close) {
                    return Found::Closed { next: at + 1 };
                }
            },
            Event::End => {
                return Found::Ended;
            },
            Event::Fault(fault) => {
                return Found::Broken { fault };
            },
            _ => {},
        }
        at += 1;
    }
    Found::Ended
}

/// The message of the error for a document that ends inside an element.
pub open spec fn ended_early() -> Seq<char> {
    "Document ended before we expected."@
}

/// The position behind the event that closes the element `close`, where no
/// child of it is of interest.
pub open spec fn closing(events: Seq<Event>, from: int, close: Seq<char>) -> Result<int, Fault> {
    match find(events, from, close, Seq::<&str>::empty()) {
        Spot::Closed { next } => Ok(next),
        Spot::Broken { fault } => Err(Fault::Xml(fault_text(fault))),
        _ => Err(Fault::PrematureEnd(ended_early())),
    }
}

/// Passes over everything up to the event that closes the element `close`.
pub fn skip_to_close(events: &Vec<Event>, from: usize, close: &str) -> (next: Result<
    usize,
    TiledError,
>)
    ensures
        match next {
            Ok(n) => closing(events@, from as int, close@) == Ok::<int, Fault>(n as int) && from < n
                <= events.len(),
            Err(e) => closing(events@, from as int, close@) == Err::<int, Fault>(e@),
        },
{
    let none: [&str; 0] = [];
    assert(none@ =~= Seq::<&str>::empty());
    match next_child(events, from, close, &none) {
        Found::Closed { next } => Ok(next),
        Found::Broken { fault } => Err(TiledError::XmlDecodingError(fault.clone())),
        _ => Err(TiledError::premature("Document ended before we expected.")),
    }
}

/// Where the root of a document was looked for.
pub enum Root {
    /// The element at `at` is the first one with the name.
    Found { at: int },
    /// The document ends before.
    Ended,
    /// The document is not well-formed.
    Broken { fault: xml::reader::Error },
}

/// The first element called `tag` from `from` on.
pub open spec fn seek(events: Seq<Event>, from: int, tag: Seq<char>) -> Root
    decreases events.len() - from,
{
    if from < 0 || from >= events.len() {
        Root::Ended
    } else {
        match events[from] {
            Event::Open { name, .. } => if name@ == tag {
                Root::Found { at: from }
            } else {
                seek(events, from + 1, tag)
            },
            Event::End => Root::Ended,
            Event::Fault(fault) => Root::Broken { fault },
            _ => seek(events, from + 1, tag),
        }
    }
}

/// What `find_root` found.
pub enum Start<'a> {
    Found { at: usize, attributes: &'a Vec<Attribute> },
    Ended,
    Broken { fault: &'a xml::reader::Error },
}

impl<'a> View for Start<'a> {
    type V = Root;

    open spec fn view(&self) -> Root {
        match *self {
            Start::Found { at, .. } => Root::Found { at: at as int },
            Start::Ended => Root::Ended,
            Start::Broken { fault } => Root::Broken { fault: *fault },
        }
    }
}

/// Looks for the first element called `tag`.
pub fn find_root<'a>(events: &'a Vec<Event>, tag: &str) -> (start: Start<'a>)
    ensures
        start@ == seek(events@, 0, tag@),
        start matches Start::Found { at, attributes } ==> at < events.len()
            && events@[at as int] is Open && attributes@ == attributes_at(events@, at as int),
{
    let mut at: usize = 0;
    while at < events.len()
        invariant
            seek(events@, 0, tag@) == seek(events@, at as int, tag@),
        decreases events.len() - at,
    {
        match &events[at] {
            Event::Open { name, attributes } => {
                if same_text(name.as_str(), tag) {
                    return Start::Found { at, attributes };
                }
            },
            Event::End => {
                return Start::Ended;
            },
            Event::Fault(fault) => {
                return Start::Broken { fault };
            },
            _ => {},
        }
        at += 1;
    }
    Start::Ended
}

} // verus!
