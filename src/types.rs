//! The values that tile-data decoding produces, and its errors.

use vstd::prelude::*;

verus! {

/// One grid cell: a tile identifier with its high-bit transform flags, as
/// the four little-endian bytes of the layer data give it.
#[derive(Clone, Copy, Debug, PartialEq, Eq, Structural)]
pub struct LayerTile {
    pub gid: u32,
}

impl LayerTile {
    pub fn new(gid: u32) -> (r: LayerTile)
        ensures
            r.gid == gid,
    {
        LayerTile { gid }
    }
}

/// The identifiers of a grid, row by row.
pub open spec fn grid_view(g: Seq<Vec<LayerTile>>) -> Seq<Seq<u32>> {
    g.map_values(|row: Vec<LayerTile>| row@.map_values(|t: LayerTile| t.gid))
}

/// The characters of an optional string.
pub open spec fn opt_view(o: Option<String>) -> Option<Seq<char>> {
    match o {
        Some(s) => Some(s@),
        None => None,
    }
}

/// A rectangular part of an infinite layer, placed by its origin.
#[derive(Debug)]
pub struct Chunk {
    pub x: i32,
    pub y: i32,
    pub width: u32,
    pub height: u32,
    pub tiles: Vec<Vec<LayerTile>>,
}

/// The tiles of a layer: one grid, or chunks with pairwise distinct origins.
#[derive(Debug)]
pub enum LayerData {
    Finite(Vec<Vec<LayerTile>>),
    Infinite(Vec<Chunk>),
}

/// One frame of a tile animation.
#[derive(Clone, Copy, Debug, PartialEq, Eq, Structural)]
pub struct Frame {
    pub tile_id: u32,
    pub duration: u32,
}

/// A tag attribute: its local name and its value.
#[derive(Debug)]
pub struct Attribute {
    pub name: String,
    pub value: String,
}

/// One event of a document read as a stream of tags.
#[derive(Debug)]
pub enum Event {
    StartElement { name: String, attributes: Vec<Attribute> },
    EndElement { name: String },
    Characters(String),
    EndDocument,
    /// The reader met malformed input; its message.
    Malformed(String),
    /// Anything else (whitespace, comments, declarations).
    Other,
}

/// The kinds of failure, as contracts speak of them.
#[derive(Clone, Copy, Debug, PartialEq, Eq, Structural)]
pub enum ErrorKind {
    XmlDecoding,
    PrematureEnd,
    MalformedAttributes,
    Base64Decoding,
    Decompressing,
    Unrecognized,
}

/// Why reading tile data failed; each failure ends the whole parse.
#[derive(Debug)]
pub enum TiledError {
    /// The underlying document could not be read.
    XmlDecodingError(String),
    /// The document or a tag ended before what was expected of it.
    PrematureEnd(String),
    /// A required attribute is missing or does not convert.
    MalformedAttributes(String),
    Base64DecodingError(base64::DecodeError),
    DecompressingError(std::io::Error),
    /// An unknown or unsupported encoding, compression or tile value.
    Other(String),
}

impl TiledError {
    /// The kind of this failure.
    pub open spec fn kind(&self) -> ErrorKind {
        match self {
            TiledError::XmlDecodingError(_) => ErrorKind::XmlDecoding,
            TiledError::PrematureEnd(_) => ErrorKind::PrematureEnd,
            TiledError::MalformedAttributes(_) => ErrorKind::MalformedAttributes,
            TiledError::Base64DecodingError(_) => ErrorKind::Base64Decoding,
            TiledError::DecompressingError(_) => ErrorKind::Decompressing,
            TiledError::Other(_) => ErrorKind::Unrecognized,
        }
    }

    pub fn error_kind(&self) -> (r: ErrorKind)
        ensures
            r == self.kind(),
    {
        match self {
            TiledError::XmlDecodingError(_) => ErrorKind::XmlDecoding,
            TiledError::PrematureEnd(_) => ErrorKind::PrematureEnd,
            TiledError::MalformedAttributes(_) => ErrorKind::MalformedAttributes,
            TiledError::Base64DecodingError(_) => ErrorKind::Base64Decoding,
            TiledError::DecompressingError(_) => ErrorKind::Decompressing,
            TiledError::Other(_) => ErrorKind::Unrecognized,
        }
    }
}

/// Relies on the `base64` crate's error type, carried through unread.
#[verifier::external_type_specification]
#[verifier::external_body]
pub struct ExDecodeError(base64::DecodeError);

/// Relies on std's I/O error type, carried through unread.
#[verifier::external_type_specification]
#[verifier::external_body]
pub struct ExIoError(std::io::Error);

} // verus!
