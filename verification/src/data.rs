//! The tiles of a layer: how a `data` element writes them, and the grid or the
//! chunks that they make.

use crate::codec::{
    base64_bytes, decode_base64, decode_gzip, decode_zlib, decode_zstd, gzip_inflated,
    zlib_inflated, zstd_inflated,
};
use crate::error::{fault_text, Fault, TiledError};
use crate::keyed::{distinct, listed, Entry, Keyed};
use crate::markup::{
    attributes_at, ended_early, find, lemma_find_bounds, next_child, Attribute, Event, Found,
    Spot,
};
use crate::scalar::{
    i32_attribute, read_i32, read_text, read_u32, text_attribute, text_view, u32_attribute,
};
use crate::text::{char_is_space, chars_of, is_space, same_text};
use crate::tile::{
    convert_to_tile, copy_grid, csv_grid, csv_numbers, csv_rows, csv_values, rows_of, tile_grid,
    LayerTile,
};
use crate::views::built;
use vstd::prelude::*;
use vstd::string::*;

verus! {

/// How the bytes of a grid are packed before they are written as base64.
#[derive(Debug, PartialEq, Eq, Clone, Copy, Structural)]
pub enum Packing {
    Plain,
    Zlib,
    Gzip,
    Zstd,
}

/// How a `data` element writes its grid.
#[derive(Debug, PartialEq, Eq, Clone, Copy, Structural)]
pub enum Format {
    Base64(Packing),
    Csv,
}

/// The way of writing that an encoding and a compression name. An encoding
/// is required; `csv` goes without compression, and `base64` goes without,
/// or with one of `zlib`, `gzip` and `zstd`. The error for any other pair
/// names the encoding and the compression that were given.
pub open spec fn format_of(encoding: Option<Seq<char>>, compression: Option<Seq<char>>) -> Result<
    Format,
    Fault,
> {
    match (encoding, compression) {
        (None, None) => Err(Fault::Other("XML format is currently not supported"@)),
        (None, Some(c)) => Err(
            Fault::Other("Unknown combination of no encoding and "@ + c + " compression"@),
        ),
        (Some(e), None) => if e == "base64"@ {
            Ok(Format::Base64(Packing::Plain))
        } else if e == "csv"@ {
            Ok(Format::Csv)
        } else {
            Err(Fault::Other("Unknown encoding format "@ + e))
        },
        (Some(e), Some(c)) => if e == "base64"@ && c == "zlib"@ {
            Ok(Format::Base64(Packing::Zlib))
        } else if e == "base64"@ && c == "gzip"@ {
            Ok(Format::Base64(Packing::Gzip))
        } else if e == "base64"@ && c == "zstd"@ {
            Ok(Format::Base64(Packing::Zstd))
        } else {
            Err(
                Fault::Other(
                    "Unknown combination of "@ + e + " encoding and "@ + c + " compression"@,
                ),
            )
        },
    }
}

fn format(encoding: &Option<String>, compression: &Option<String>) -> (format: Result<
    Format,
    TiledError,
>)
    ensures
        match format {
            Ok(f) => format_of(text_view(*encoding), text_view(*compression)) == Ok::<
                Format,
                Fault,
            >(f),
            Err(e) => format_of(text_view(*encoding), text_view(*compression)) == Err::<
                Format,
                Fault,
            >(e@),
        },
{
    match (encoding, compression) {
        (None, None) => Err(TiledError::other("XML format is currently not supported")),
        (None, Some(c)) => Err(
            TiledError::Other(
                String::from_str("Unknown combination of no encoding and ").concat(
                    c.as_str(),
                ).concat(" compression"),
            ),
        ),
        (Some(e), None) => {
            if same_text(e.as_str(), "base64") {
                Ok(Format::Base64(Packing::Plain))
            } else if same_text(e.as_str(), "csv") {
                Ok(Format::Csv)
            } else {
                Err(
                    TiledError::Other(
                        String::from_str("Unknown encoding format ").concat(e.as_str()),
                    ),
                )
            }
        },
        (Some(e), Some(c)) => {
            let base64 = same_text(e.as_str(), "base64");
            if base64 && same_text(c.as_str(), "zlib") {
                Ok(Format::Base64(Packing::Zlib))
            } else if base64 && same_text(c.as_str(), "gzip") {
                Ok(Format::Base64(Packing::Gzip))
            } else if base64 && same_text(c.as_str(), "zstd") {
                Ok(Format::Base64(Packing::Zstd))
            } else {
                Err(
                    TiledError::Other(
                        String::from_str("Unknown combination of ").concat(e.as_str()).concat(
                            " encoding and ",
                        ).concat(c.as_str()).concat(" compression"),
                    ),
                )
            }
        },
    }
}

/// What a `data` or `chunk` element holds.
pub enum Content {
    /// Character data, with the position behind it.
    Text { text: Seq<char>, next: int },
    /// Nothing: the element closes first; `next` is the position behind.
    Closed { next: int },
    /// The document ends first.
    Ended,
    /// The document is not well-formed.
    Broken { fault: xml::reader::Error },
}

/// The first character data from `from` on, unless an element called
/// `close` closes before. Whatever else comes before is passed over.
pub open spec fn content(events: Seq<Event>, from: int, close: Seq<char>) -> Content
    decreases events.len() - from,
{
    if from < 0 || from >= events.len() {
        Content::Ended
    } else {
        match events[from] {
            Event::Text(text) => Content::Text { text: text@, next: from + 1 },
            Event::Close { name } => if name@ == close {
                Content::Closed { next: from + 1 }
            } else {
                content(events, from + 1, close)
            },
            Event::End => Content::Ended,
            Event::Fault(fault) => Content::Broken { fault },
            _ => content(events, from + 1, close),
        }
    }
}

/// What `content` finds lies behind `from`, inside the sequence.
pub proof fn lemma_content_bounds(events: Seq<Event>, from: int, close: Seq<char>)
    requires
        0 <= from,
    ensures
        match content(events, from, close) {
            Content::Text { next, .. } => from < next <= events.len(),
            Content::Closed { next } => from < next <= events.len(),
            _ => true,
        },
    decreases events.len() - from,
{
    if from < events.len() {
        match events[from] {
            Event::Text(_) => {},
            Event::Close { name } => {
                if name@ != close {
                    lemma_content_bounds(events, from + 1, close);
                }
            },
            Event::End => {},
            Event::Fault(_) => {},
            _ => {
                lemma_content_bounds(events, from + 1, close);
            },
        }
    }
}

/// Where the white space ends that starts at `from`.
pub open spec fn leading(s: Seq<char>, from: int) -> int
    decreases s.len() - from,
{
    if 0 <= from && from < s.len() && is_space(s[from]) {
        leading(s, from + 1)
    } else {
        from
    }
}

/// Where the white space starts that ends at `to`.
pub open spec fn trailing(s: Seq<char>, to: int) -> int
    decreases to,
{
    if 0 < to && to <= s.len() && is_space(s[to - 1]) {
        trailing(s, to - 1)
    } else {
        to
    }
}

/// A text without the white space at its start and at its end.
pub open spec fn trimmed(s: Seq<char>) -> Seq<char> {
    let start = leading(s, 0);
    let end = trailing(s, s.len() as int);
    if start < end {
        s.subrange(start, end)
    } else {
        Seq::empty()
    }
}

/// The bytes of a base64 text, white space around it left out.
pub open spec fn decoded(text: Seq<char>) -> Result<Seq<u8>, Fault> {
    base64_bytes(vstd::utf8::encode_utf8(trimmed(text)))
}

/// The bytes that packed bytes stand for.
pub open spec fn unpacked(bytes: Seq<u8>, packing: Packing) -> Result<Seq<u8>, Fault> {
    let inflated = match packing {
        Packing::Plain => Ok(bytes),
        Packing::Zlib => zlib_inflated(bytes),
        Packing::Gzip => gzip_inflated(bytes),
        Packing::Zstd => zstd_inflated(bytes),
    };
    match inflated {
        Ok(b) => Ok(b),
        Err(text) => Err(Fault::Decompressing(text)),
    }
}

/// The message for a list that holds something else than numbers.
pub open spec fn no_numbers() -> Seq<char> {
    "CSV tile data must be a list of unsigned 32-bit numbers"@
}

/// The grid that the text of a `data` or `chunk` element writes in the
/// given format; an element without text holds no byte and no number.
pub open spec fn grid_of(text: Option<Seq<char>>, format: Format, width: u32) -> Result<
    Seq<Seq<LayerTile>>,
    Fault,
> {
    match format {
        Format::Base64(packing) => {
            let bytes = match text {
                Some(t) => decoded(t),
                None => Ok(Seq::empty()),
            };
            match bytes {
                Ok(packed) => match unpacked(packed, packing) {
                    Ok(plain) => Ok(tile_grid(plain, width as nat)),
                    Err(e) => Err(e),
                },
                Err(e) => Err(e),
            }
        },
        Format::Csv => match text {
            Some(t) => match csv_values(t, 0) {
                Some(values) => Ok(csv_grid(values, width as nat)),
                None => Err(Fault::Other(no_numbers())),
            },
            None => Ok(Seq::empty()),
        },
    }
}

/// The grid of the element called `close`, a `data` or a `chunk`, whose
/// content starts at `from`, with the position behind its text, or behind
/// the end of the element where it has no text.
#[verifier::opaque]
pub open spec fn grid_at(
    events: Seq<Event>,
    from: int,
    encoding: Option<Seq<char>>,
    compression: Option<Seq<char>>,
    width: u32,
    close: Seq<char>,
) -> Result<(Seq<Seq<LayerTile>>, int), Fault> {
    match format_of(encoding, compression) {
        Err(e) => Err(e),
        Ok(format) => match content(events, from, close) {
            Content::Text { text, next } => match grid_of(Some(text), format, width) {
                Ok(grid) => Ok((grid, next)),
                Err(e) => Err(e),
            },
            Content::Closed { next } => match grid_of(None, format, width) {
                Ok(grid) => Ok((grid, next)),
                Err(e) => Err(e),
            },
            Content::Ended => Err(Fault::PrematureEnd(ended_early())),
            Content::Broken { fault } => Err(Fault::Xml(fault_text(fault))),
        },
    }
}

/// A grid ends behind the place where its content starts.
pub proof fn lemma_grid_advance(
    events: Seq<Event>,
    from: int,
    encoding: Option<Seq<char>>,
    compression: Option<Seq<char>>,
    width: u32,
    close: Seq<char>,
)
    requires
        0 <= from,
    ensures
        grid_at(events, from, encoding, compression, width, close) matches Ok((_, next)) ==> from
            < next <= events.len(),
{
    reveal(grid_at);
    lemma_content_bounds(events, from, close);
}

/// What `read_content` found.
pub enum Taken<'a> {
    Text { text: &'a String, next: usize },
    Closed { next: usize },
    Ended,
    Broken { fault: &'a xml::reader::Error },
}

impl<'a> View for Taken<'a> {
    type V = Content;

    open spec fn view(&self) -> Content {
        match *self {
            Taken::Text { text, next } => Content::Text { text: text@, next: next as int },
            Taken::Closed { next } => Content::Closed { next: next as int },
            Taken::Ended => Content::Ended,
            Taken::Broken { fault } => Content::Broken { fault: *fault },
        }
    }
}

/// Looks for the text of the element called `close`, a `data` or a `chunk`.
pub fn read_content<'a>(events: &'a Vec<Event>, from: usize, close: &str) -> (taken: Taken<'a>)
    ensures
        taken@ == content(events@, from as int, close@),
{
    let mut at: usize = from;
    while at < events.len()
        invariant
            from <= at,
            content(events@, from as int, close@) == content(events@, at as int, close@),
        decreases events.len() - at,
    {
        match &events[at] {
            Event::Text(text) => {
                return Taken::Text { text, next: at + 1 };
            },
            Event::Close { name } => {
                if same_text(name.as_str(), close) {
                    return Taken::Closed { next: at + 1 };
                }
            },
            Event::End => {
                return Taken::Ended;
            },
            Event::Fault(fault) => {
                return Taken::Broken { fault };
            },
            _ => {},
        }
        at += 1;
    }
    Taken::Ended
}

/// Reads the bytes of a base64 text.
pub fn parse_base64(text: &str) -> (bytes: Result<Vec<u8>, TiledError>)
    ensures
        match bytes {
            Ok(b) => decoded(text@) == Ok::<Seq<u8>, Fault>(b@),
            Err(e) => decoded(text@) == Err::<Seq<u8>, Fault>(e@),
        },
{
    let chars = chars_of(text);
    let mut start: usize = 0;
    while start < chars.len() && char_is_space(chars[start])
        invariant
            start <= chars.len(),
            leading(chars@, 0) == leading(chars@, start as int),
        decreases chars.len() - start,
    {
        start += 1;
    }
    let mut end: usize = chars.len();
    while end > 0 && char_is_space(chars[end - 1])
        invariant
            end <= chars.len(),
            trailing(chars@, chars@.len() as int) == trailing(chars@, end as int),
        decreases end,
    {
        end -= 1;
    }
    let kept = if start < end {
        text.substring_char(start, end)
    } else {
        text.substring_char(0, 0)
    };
    decode_base64(kept.as_bytes())
}

fn unpack(bytes: Vec<u8>, packing: Packing) -> (plain: Result<Vec<u8>, TiledError>)
    ensures
        match plain {
            Ok(b) => unpacked(bytes@, packing) == Ok::<Seq<u8>, Fault>(b@),
            Err(e) => unpacked(bytes@, packing) == Err::<Seq<u8>, Fault>(e@),
        },
{
    match packing {
        Packing::Plain => Ok(bytes),
        Packing::Zlib => decode_zlib(bytes),
        Packing::Gzip => decode_gzip(bytes),
        Packing::Zstd => decode_zstd(bytes),
    }
}

/// Reads a list of numbers into a grid `width` tiles wide.
pub fn decode_csv(width: u32, text: &str) -> (grid: Result<Vec<Vec<LayerTile>>, TiledError>)
    ensures
        match grid {
            Ok(g) => grid_of(Some(text@), Format::Csv, width) == Ok::<Seq<Seq<LayerTile>>, Fault>(
                rows_of(g@),
            ),
            Err(e) => grid_of(Some(text@), Format::Csv, width) == Err::<
                Seq<Seq<LayerTile>>,
                Fault,
            >(e@),
        },
{
    let chars = chars_of(text);
    match csv_numbers(chars.as_slice()) {
        Some(values) => Ok(csv_rows(&values, width)),
        None => Err(TiledError::other("CSV tile data must be a list of unsigned 32-bit numbers")),
    }
}

fn decode_grid(text: Option<&String>, format: Format, width: u32) -> (grid: Result<
    Vec<Vec<LayerTile>>,
    TiledError,
>)
    ensures
        match grid {
            Ok(g) => grid_of(
                match text {
                    Some(t) => Some(t@),
                    None => None,
                },
                format,
                width,
            ) == Ok::<Seq<Seq<LayerTile>>, Fault>(rows_of(g@)),
            Err(e) => grid_of(
                match text {
                    Some(t) => Some(t@),
                    None => None,
                },
                format,
                width,
            ) == Err::<Seq<Seq<LayerTile>>, Fault>(e@),
        },
{
    match format {
        Format::Base64(packing) => {
            let packed = match text {
                Some(t) => parse_base64(t.as_str()),
                None => Ok(Vec::new()),
            };
            match packed {
                Ok(packed) => match unpack(packed, packing) {
                    Ok(plain) => Ok(convert_to_tile(&plain, width)),
                    Err(e) => Err(e),
                },
                Err(e) => Err(e),
            }
        },
        Format::Csv => match text {
            Some(t) => decode_csv(width, t.as_str()),
            None => {
                let grid: Vec<Vec<LayerTile>> = Vec::new();
                assert(rows_of(grid@) =~= Seq::<Seq<LayerTile>>::empty());
                Ok(grid)
            },
        },
    }
}

/// Reads the grid of the element called `close`, a `data` or a `chunk`,
/// whose content starts at `from`.
pub fn parse_data_line(
    encoding: &Option<String>,
    compression: &Option<String>,
    events: &Vec<Event>,
    from: usize,
    width: u32,
    close: &str,
) -> (outcome: Result<(Vec<Vec<LayerTile>>, usize), TiledError>)
    ensures
        match outcome {
            Ok((grid, next)) => grid_at(
                events@,
                from as int,
                text_view(*encoding),
                text_view(*compression),
                width,
                close@,
            ) == Ok::<(Seq<Seq<LayerTile>>, int), Fault>((rows_of(grid@), next as int)) && from
                < next <= events.len(),
            Err(e) => grid_at(
                events@,
                from as int,
                text_view(*encoding),
                text_view(*compression),
                width,
                close@,
            ) == Err::<(Seq<Seq<LayerTile>>, int), Fault>(e@),
        },
{
    reveal(grid_at);
    proof {
        lemma_content_bounds(events@, from as int, close@);
    }
    let format = match format(encoding, compression) {
        Ok(f) => f,
        Err(e) => {
            return Err(e);
        },
    };
    match read_content(events, from, close) {
        Taken::Text { text, next } => match decode_grid(Some(text), format, width) {
            Ok(grid) => Ok((grid, next)),
            Err(e) => Err(e),
        },
        Taken::Closed { next } => match decode_grid(None, format, width) {
            Ok(grid) => Ok((grid, next)),
            Err(e) => Err(e),
        },
        Taken::Ended => Err(TiledError::premature("Document ended before we expected.")),
        Taken::Broken { fault } => Err(TiledError::XmlDecodingError(fault.clone())),
    }
}

/// One block of an infinite layer: a grid of its own at an origin.
#[derive(Debug, PartialEq)]
pub struct Chunk {
    pub x: i32,
    pub y: i32,
    pub width: u32,
    pub height: u32,
    pub tiles: Vec<Vec<LayerTile>>,
}

/// A `Chunk` as contracts see it.
pub struct ChunkView {
    pub x: i32,
    pub y: i32,
    pub width: u32,
    pub height: u32,
    pub tiles: Seq<Seq<LayerTile>>,
}

impl View for Chunk {
    type V = ChunkView;

    open spec fn view(&self) -> ChunkView {
        ChunkView {
            x: self.x,
            y: self.y,
            width: self.width,
            height: self.height,
            tiles: rows_of(self.tiles@),
        }
    }
}

impl Clone for Chunk {
    fn clone(&self) -> (copy: Chunk)
        ensures
            copy@ == self@,
    {
        Chunk {
            x: self.x,
            y: self.y,
            width: self.width,
            height: self.height,
            tiles: copy_grid(&self.tiles),
        }
    }
}

/// The origin, width and height that the attributes of a `chunk` element
/// give; all four are required.
pub open spec fn chunk_of(attributes: Seq<Attribute>) -> Option<(i32, i32, u32, u32)> {
    match (
        i32_attribute(attributes, "x"@),
        i32_attribute(attributes, "y"@),
        u32_attribute(attributes, "width"@),
        u32_attribute(attributes, "height"@),
    ) {
        (Some(x), Some(y), Some(width), Some(height)) => Some((x, y, width, height)),
        _ => None,
    }
}

/// The message for a `chunk` element without its origin or its size.
pub open spec fn no_chunk() -> Seq<char> {
    "chunk must have an x, y, width and height with correct types"@
}

/// The chunk of a `chunk` element with the given attributes, whose content
/// starts at `from`; its grid is as wide as the chunk. A chunk without text
/// has an empty grid, whatever the chunks behind it hold.
#[verifier::opaque]
pub open spec fn chunk_at(
    events: Seq<Event>,
    from: int,
    attributes: Seq<Attribute>,
    encoding: Option<Seq<char>>,
    compression: Option<Seq<char>>,
) -> Result<(ChunkView, int), Fault> {
    match chunk_of(attributes) {
        Some((x, y, width, height)) => match grid_at(
            events,
            from,
            encoding,
            compression,
            width,
            "chunk"@,
        ) {
            Ok((tiles, next)) => Ok((ChunkView { x, y, width, height, tiles }, next)),
            Err(e) => Err(e),
        },
        None => Err(Fault::MalformedAttributes(no_chunk())),
    }
}

/// A chunk ends behind the place where its content starts.
pub proof fn lemma_chunk_advance(
    events: Seq<Event>,
    from: int,
    attributes: Seq<Attribute>,
    encoding: Option<Seq<char>>,
    compression: Option<Seq<char>>,
)
    requires
        0 <= from,
    ensures
        chunk_at(events, from, attributes, encoding, compression) matches Ok((_, next)) ==> from
            < next <= events.len(),
{
    reveal(chunk_at);
    if let Some((x, y, width, height)) = chunk_of(attributes) {
        lemma_grid_advance(events, from, encoding, compression, width, "chunk"@);
    }
}

impl Chunk {
    /// Reads a `chunk` element with the given attributes, whose content
    /// starts at `from`, in the format that the `data` element names.
    pub fn new(
        events: &Vec<Event>,
        from: usize,
        attributes: &Vec<Attribute>,
        encoding: &Option<String>,
        compression: &Option<String>,
    ) -> (outcome: Result<(Chunk, usize), TiledError>)
        ensures
            built(outcome) == chunk_at(
                events@,
                from as int,
                attributes@,
                text_view(*encoding),
                text_view(*compression),
            ),
            outcome matches Ok((_, next)) ==> from < next <= events.len(),
    {
        reveal(chunk_at);
        let x = read_i32(attributes, "x");
        let y = read_i32(attributes, "y");
        let width = read_u32(attributes, "width");
        let height = read_u32(attributes, "height");
        match (x, y, width, height) {
            (Some(x), Some(y), Some(width), Some(height)) => {
                match parse_data_line(encoding, compression, events, from, width, "chunk") {
                    Ok((tiles, next)) => Ok((Chunk { x, y, width, height, tiles }, next)),
                    Err(e) => Err(e),
                }
            },
            _ => Err(
                TiledError::malformed(
                    "chunk must have an x, y, width and height with correct types",
                ),
            ),
        }
    }
}

impl Entry for Chunk {
    type Id = (i32, i32);

    type Held = ChunkView;

    type Probe = (i32, i32);

    open spec fn id(&self) -> (i32, i32) {
        (self.x, self.y)
    }

    open spec fn held(&self) -> ChunkView {
        self@
    }

    open spec fn sought(probe: &(i32, i32)) -> (i32, i32) {
        *probe
    }

    fn has_key(&self, probe: &(i32, i32)) -> (yes: bool) {
        self.x == probe.0 && self.y == probe.1
    }

    fn same_key(&self, other: &Chunk) -> (yes: bool) {
        self.x == other.x && self.y == other.y
    }

    fn copy(&self) -> (copy: Chunk) {
        self.clone()
    }
}

/// The chunks of an infinite layer. No two of them have one origin.
#[derive(Debug, PartialEq)]
pub struct Chunks {
    list: Keyed<Chunk>,
}

impl View for Chunks {
    type V = Map<(i32, i32), ChunkView>;

    closed spec fn view(&self) -> Map<(i32, i32), ChunkView> {
        self.list@
    }
}

impl Clone for Chunks {
    fn clone(&self) -> (copy: Chunks)
        ensures
            copy@ == self@,
    {
        Chunks { list: self.list.clone() }
    }
}

impl Chunks {
    /// The chunks in the order in which their origins were last taken.
    pub closed spec fn listing(&self) -> Seq<Chunk> {
        self.list.list()
    }

    /// No chunks.
    pub fn new() -> (chunks: Chunks)
        ensures
            chunks@ == Map::<(i32, i32), ChunkView>::empty(),
    {
        Chunks { list: Keyed::new() }
    }

    /// Puts a chunk at its origin, in place of the chunk that was there.
    pub fn insert(&mut self, chunk: Chunk)
        ensures
            final(self)@ == old(self)@.insert((chunk.x, chunk.y), chunk@),
    {
        self.list.insert(chunk);
    }

    /// The chunk at an origin.
    pub fn get(&self, x: i32, y: i32) -> (chunk: Option<&Chunk>)
        ensures
            match chunk {
                Some(c) => self@.contains_key((x, y)) && self@[(x, y)] == c@ && c.x == x && c.y == y,
                None => !self@.contains_key((x, y)),
            },
    {
        let origin = (x, y);
        self.list.get(&origin)
    }

    /// All the chunks; no two of them have one origin.
    pub fn list(&self) -> (list: &Vec<Chunk>)
        ensures
            list@ == self.listing(),
            listed(list@) == self@,
            distinct(list@),
    {
        self.list.items()
    }
}

/// The tiles of a layer: one grid, or chunks at their origins.
#[derive(Debug, PartialEq, Clone)]
pub enum LayerData {
    Finite(Vec<Vec<LayerTile>>),
    Infinite(Chunks),
}

/// `LayerData` as contracts see it.
pub enum LayerDataView {
    Finite(Seq<Seq<LayerTile>>),
    Infinite(Map<(i32, i32), ChunkView>),
}

impl View for LayerData {
    type V = LayerDataView;

    open spec fn view(&self) -> LayerDataView {
        match *self {
            LayerData::Finite(grid) => LayerDataView::Finite(rows_of(grid@)),
            LayerData::Infinite(chunks) => LayerDataView::Infinite(chunks@),
        }
    }
}

/// Every chunk is kept under its own origin.
pub open spec fn at_their_origins(chunks: Map<(i32, i32), ChunkView>) -> bool {
    forall|origin: (i32, i32)| #[trigger]
        chunks.contains_key(origin) ==> (chunks[origin].x, chunks[origin].y) == origin
}

/// The chunks of an infinite layer are kept under their own origins.
pub proof fn lemma_chunks_at_their_origins(
    events: Seq<Event>,
    from: int,
    encoding: Option<Seq<char>>,
    compression: Option<Seq<char>>,
    chunks: Map<(i32, i32), ChunkView>,
)
    requires
        0 <= from,
        at_their_origins(chunks),
    ensures
        chunks_from(events, from, encoding, compression, chunks) matches Ok((all, _))
            ==> at_their_origins(all),
    decreases events.len() - from,
{
    reveal(chunks_from);
    lemma_find_bounds(events, from, "data"@, data_tags());
    match find(events, from, "data"@, data_tags()) {
        Spot::Child { tag, at } => {
            let attributes = attributes_at(events, at);
            lemma_chunk_advance(events, at + 1, attributes, encoding, compression);
            if let Ok((chunk, next)) = chunk_at(events, at + 1, attributes, encoding, compression) {
                let more = chunks.insert((chunk.x, chunk.y), chunk);
                lemma_chunks_at_their_origins(events, next, encoding, compression, more);
            }
        },
        _ => {},
    }
}

/// The tags that the data of an infinite layer looks for.
pub open spec fn data_tags() -> Seq<&'static str> {
    seq!["chunk"]
}

/// The chunks that follow `chunks` from `from` on, up to the end of the
/// `data` element, with the position behind it.
#[verifier::opaque]
pub open spec fn chunks_from(
    events: Seq<Event>,
    from: int,
    encoding: Option<Seq<char>>,
    compression: Option<Seq<char>>,
    chunks: Map<(i32, i32), ChunkView>,
) -> Result<(Map<(i32, i32), ChunkView>, int), Fault>
    decreases events.len() - from,
{
    if from < 0 {
        Err(Fault::PrematureEnd(ended_early()))
    } else {
        match find(events, from, "data"@, data_tags()) {
            Spot::Child { tag, at } => {
                proof {
                    lemma_find_bounds(events, from, "data"@, data_tags());
                }
                match chunk_at(events, at + 1, attributes_at(events, at), encoding, compression) {
                    Ok((chunk, next)) => {
                        proof {
                            lemma_chunk_advance(
                                events,
                                at + 1,
                                attributes_at(events, at),
                                encoding,
                                compression,
                            );
                        }
                        chunks_from(
                            events,
                            next,
                            encoding,
                            compression,
                            chunks.insert((chunk.x, chunk.y), chunk),
                        )
                    },
                    Err(e) => Err(e),
                }
            },
            Spot::Closed { next } => Ok((chunks, next)),
            Spot::Ended => Err(Fault::PrematureEnd(ended_early())),
            Spot::Broken { fault } => Err(Fault::Xml(fault_text(fault))),
        }
    }
}

/// The chunks of a `data` element end behind the place where they start.
pub proof fn lemma_chunks_advance(
    events: Seq<Event>,
    from: int,
    encoding: Option<Seq<char>>,
    compression: Option<Seq<char>>,
    chunks: Map<(i32, i32), ChunkView>,
)
    requires
        0 <= from,
    ensures
        chunks_from(events, from, encoding, compression, chunks) matches Ok((_, next)) ==> from
            < next <= events.len(),
    decreases events.len() - from,
{
    reveal(chunks_from);
    lemma_find_bounds(events, from, "data"@, data_tags());
    match find(events, from, "data"@, data_tags()) {
        Spot::Child { tag, at } => {
            let attributes = attributes_at(events, at);
            lemma_chunk_advance(events, at + 1, attributes, encoding, compression);
            if let Ok((chunk, next)) = chunk_at(events, at + 1, attributes, encoding, compression) {
                lemma_chunks_advance(
                    events,
                    next,
                    encoding,
                    compression,
                    chunks.insert((chunk.x, chunk.y), chunk),
                );
            }
        },
        _ => {},
    }
}

/// The tiles of a `data` element with the given attributes, whose content
/// starts at `from`: chunks in an infinite map, one grid `width` tiles wide
/// in any other.
#[verifier::opaque]
pub open spec fn data_at(
    events: Seq<Event>,
    from: int,
    attributes: Seq<Attribute>,
    width: u32,
    infinite: bool,
) -> Result<(LayerDataView, int), Fault> {
    let encoding = text_attribute(attributes, "encoding"@);
    let compression = text_attribute(attributes, "compression"@);
    if infinite {
        match chunks_from(events, from, encoding, compression, Map::empty()) {
            Ok((chunks, next)) => Ok((LayerDataView::Infinite(chunks), next)),
            Err(e) => Err(e),
        }
    } else {
        match grid_at(events, from, encoding, compression, width, "data"@) {
            Ok((grid, next)) => Ok((LayerDataView::Finite(grid), next)),
            Err(e) => Err(e),
        }
    }
}

/// The tiles of a `data` element end behind the place where they start.
pub proof fn lemma_data_advance(
    events: Seq<Event>,
    from: int,
    attributes: Seq<Attribute>,
    width: u32,
    infinite: bool,
)
    requires
        0 <= from,
    ensures
        data_at(events, from, attributes, width, infinite) matches Ok((_, next)) ==> from < next
            <= events.len(),
{
    reveal(data_at);
    let encoding = text_attribute(attributes, "encoding"@);
    let compression = text_attribute(attributes, "compression"@);
    lemma_chunks_advance(events, from, encoding, compression, Map::empty());
    lemma_grid_advance(events, from, encoding, compression, width, "data"@);
}

/// Reads the chunks of the `data` element of an infinite layer.
pub fn parse_infinite_data(events: &Vec<Event>, from: usize, attributes: &Vec<Attribute>) -> (outcome:
    Result<(LayerData, usize), TiledError>)
    ensures
        built(outcome) == data_at(events@, from as int, attributes@, 0, true),
        outcome matches Ok((_, next)) ==> from < next <= events.len(),
{
    reveal(data_at);
    let encoding = read_text(attributes, "encoding");
    let compression = read_text(attributes, "compression");
    let mut chunks = Chunks::new();
    let tags: [&str; 1] = ["chunk"];
    let mut at: usize = from;
    loop
        invariant
            from <= at,
            tags@ == data_tags(),
            text_view(encoding) == text_attribute(attributes@, "encoding"@),
            text_view(compression) == text_attribute(attributes@, "compression"@),
            chunks_from(
                events@,
                from as int,
                text_view(encoding),
                text_view(compression),
                Map::empty(),
            ) == chunks_from(
                events@,
                at as int,
                text_view(encoding),
                text_view(compression),
                chunks@,
            ),
        decreases events.len() - at,
    {
        proof {
            reveal(data_at);
            reveal(chunks_from);
            lemma_chunks_advance(
                events@,
                at as int,
                text_view(encoding),
                text_view(compression),
                chunks@,
            );
        }
        match next_child(events, at, "data", &tags) {
            Found::Child { tag, at: child, attributes: given } => {
                match Chunk::new(events, child + 1, given, &encoding, &compression) {
                    Ok((chunk, next)) => {
                        chunks.insert(chunk);
                        at = next;
                    },
                    Err(e) => {
                        return Err(e);
                    },
                }
            },
            Found::Closed { next } => {
                return Ok((LayerData::Infinite(chunks), next));
            },
            Found::Ended => {
                return Err(TiledError::premature("Document ended before we expected."));
            },
            Found::Broken { fault } => {
                return Err(TiledError::XmlDecodingError(fault.clone()));
            },
        }
    }
}

/// Reads the grid of the `data` element of a layer `width` tiles wide.
pub fn parse_data(events: &Vec<Event>, from: usize, attributes: &Vec<Attribute>, width: u32) -> (outcome:
    Result<(LayerData, usize), TiledError>)
    ensures
        built(outcome) == data_at(events@, from as int, attributes@, width, false),
        outcome matches Ok((_, next)) ==> from < next <= events.len(),
{
    reveal(data_at);
    let encoding = read_text(attributes, "encoding");
    let compression = read_text(attributes, "compression");
    match parse_data_line(&encoding, &compression, events, from, width, "data") {
        Ok((grid, next)) => Ok((LayerData::Finite(grid), next)),
        Err(e) => Err(e),
    }
}

} // verus!
