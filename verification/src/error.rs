//! The errors of this library, and what each of them is to a contract.

use vstd::prelude::*;
use vstd::string::*;

verus! {

/// `base64::DecodeError`: why a text is no base64. Nothing inside it is read
/// here.
#[verifier::external_type_specification]
#[verifier::external_body]
pub struct ExDecodeError(base64::DecodeError);

/// `xml::reader::Error`: a position in the document and a reason. Nothing
/// inside it is read here.
#[verifier::external_type_specification]
#[verifier::external_body]
pub struct ExXmlError(xml::reader::Error);

/// `std::io::Error`, as the decompressors report it. Nothing inside it is
/// read here.
#[verifier::external_type_specification]
#[verifier::external_body]
pub struct ExIoError(std::io::Error);

/// Why a colour or an orientation could not be read.
#[derive(Debug, Copy, Clone, PartialEq, Eq, Structural)]
pub enum ParseTileError {
    ColourError,
    OrientationError,
}

/// Errors which occur when parsing a document.
#[derive(Debug)]
pub enum TiledError {
    /// An attribute was missing, had the wrong type or was not formatted
    /// correctly.
    MalformedAttributes(String),
    /// The tile data could not be decompressed.
    DecompressingError(std::io::Error),
    /// The tile data is no base64 text.
    Base64DecodingError(base64::DecodeError),
    /// The document is no well-formed XML.
    XmlDecodingError(xml::reader::Error),
    /// The document ended inside an element.
    PrematureEnd(String),
    Other(String),
}

/// What an `xml::reader::Error` displays: its position in the document,
/// then its reason.
pub uninterp spec fn fault_text(fault: xml::reader::Error) -> Seq<char>;

/// `Clone::clone` of `xml::reader::Error`. Taken on trust: the copy displays
/// what the error displays, the same position and the same reason. More is
/// not true of it: the copy of an error that wraps an `std::io::Error` wraps
/// a new one, made from the kind and the text of the old.
pub assume_specification[ <xml::reader::Error as Clone>::clone ](
    fault: &xml::reader::Error,
) -> (copy: xml::reader::Error)
    ensures
        fault_text(copy) == fault_text(*fault),
;

/// What an `std::io::Error` displays that a decompressor gave.
pub uninterp spec fn io_text(error: std::io::Error) -> Seq<char>;

/// A `TiledError` as contracts see it: the messages as sequences of
/// characters, and of an error of the XML reader or of a decompressor what
/// it displays.
pub enum Fault {
    MalformedAttributes(Seq<char>),
    Decompressing(Seq<char>),
    Base64(base64::DecodeError),
    Xml(Seq<char>),
    PrematureEnd(Seq<char>),
    Other(Seq<char>),
}

impl View for TiledError {
    type V = Fault;

    open spec fn view(&self) -> Fault {
        match *self {
            TiledError::MalformedAttributes(s) => Fault::MalformedAttributes(s@),
            TiledError::DecompressingError(e) => Fault::Decompressing(io_text(e)),
            TiledError::Base64DecodingError(e) => Fault::Base64(e),
            TiledError::XmlDecodingError(e) => Fault::Xml(fault_text(e)),
            TiledError::PrematureEnd(s) => Fault::PrematureEnd(s@),
            TiledError::Other(s) => Fault::Other(s@),
        }
    }
}

impl TiledError {
    /// The error for an element whose attributes are missing or malformed.
    pub fn malformed(message: &str) -> (error: TiledError)
        ensures
            error@ == Fault::MalformedAttributes(message@),
    {
        TiledError::MalformedAttributes(String::from_str(message))
    }

    /// The error for a document that ends too early.
    pub fn premature(message: &str) -> (error: TiledError)
        ensures
            error@ == Fault::PrematureEnd(message@),
    {
        TiledError::PrematureEnd(String::from_str(message))
    }

    /// An error of no other kind.
    pub fn other(message: &str) -> (error: TiledError)
        ensures
            error@ == Fault::Other(message@),
    {
        TiledError::Other(String::from_str(message))
    }
}

} // verus!
