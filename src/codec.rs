//! The byte-level decoders of tile data: base64 text, then zlib, gzip or
//! zstd decompression, and the pipeline that chains them into a grid.

use std::io::Read;
use vstd::prelude::*;
use crate::csv::{csv_grid, csv_values};
use crate::grid::{assemble_spec, lemma_assemble_packed, lemma_group_flatten, pack_tiles};
use crate::text::{trim, trimmed};
use crate::types::{ErrorKind, TiledError};

verus! {

/// The bytes that a base64 text (standard alphabet, with padding) encodes,
/// if it is valid.
pub uninterp spec fn base64_decoded(text: Seq<char>) -> Option<Seq<u8>>;

/// The bytes that a zlib stream inflates to, if it is valid.
pub uninterp spec fn zlib_inflated(data: Seq<u8>) -> Option<Seq<u8>>;

/// The bytes that a gzip stream inflates to, if it is valid.
pub uninterp spec fn gzip_inflated(data: Seq<u8>) -> Option<Seq<u8>>;

/// The bytes that a zstd frame decodes to, if it is valid.
pub uninterp spec fn zstd_decoded(data: Seq<u8>) -> Option<Seq<u8>>;

/// Relies on `base64::decode` (standard configuration): the bytes that the
/// text encodes, or an error for text that is not valid base64; either way a
/// function of the text alone.
#[verifier::external_body]
fn base64_decode(text: &str) -> (r: Result<Vec<u8>, base64::DecodeError>)
    ensures
        match r {
            Ok(v) => base64_decoded(text@) == Some(v@),
            Err(_) => base64_decoded(text@) is None,
        },
{
    base64::decode(text.as_bytes())
}

/// Relies on `libflate::zlib::Decoder` read to its end over an in-memory
/// buffer: the inflated bytes, or an error for a corrupt or truncated stream.
#[verifier::external_body]
fn zlib_inflate(data: &[u8]) -> (r: Result<Vec<u8>, std::io::Error>)
    ensures
        match r {
            Ok(v) => zlib_inflated(data@) == Some(v@),
            Err(_) => zlib_inflated(data@) is None,
        },
{
    let mut zd = libflate::zlib::Decoder::new(std::io::BufReader::new(data))?;
    let mut out = Vec::new();
    zd.read_to_end(&mut out)?;
    Ok(out)
}

/// Relies on `libflate::gzip::Decoder` read to its end over an in-memory
/// buffer: the inflated bytes, or an error for a corrupt or truncated stream.
#[verifier::external_body]
fn gzip_inflate(data: &[u8]) -> (r: Result<Vec<u8>, std::io::Error>)
    ensures
        match r {
            Ok(v) => gzip_inflated(data@) == Some(v@),
            Err(_) => gzip_inflated(data@) is None,
        },
{
    let mut zd = libflate::gzip::Decoder::new(std::io::BufReader::new(data))?;
    let mut out = Vec::new();
    zd.read_to_end(&mut out)?;
    Ok(out)
}

/// Relies on `zstd::stream::read::Decoder::with_buffer` read to its end over
/// an in-memory buffer: the decoded bytes, or an error for an invalid frame.
#[verifier::external_body]
fn zstd_decode(data: &[u8]) -> (r: Result<Vec<u8>, std::io::Error>)
    ensures
        match r {
            Ok(v) => zstd_decoded(data@) == Some(v@),
            Err(_) => zstd_decoded(data@) is None,
        },
{
    let mut zd = zstd::stream::read::Decoder::with_buffer(std::io::Cursor::new(data))?;
    let mut out = Vec::new();
    zd.read_to_end(&mut out)?;
    Ok(out)
}

/// Decodes the base64 text of a `data` tag, surrounding whitespace ignored.
pub fn decode_base64_text(text: &str) -> (r: Result<Vec<u8>, TiledError>)
    ensures
        match base64_decoded(trim(text@)) {
            Some(b) => r is Ok && r->Ok_0@ == b,
            None => r is Err && r->Err_0.kind() == ErrorKind::Base64Decoding,
        },
{
    match base64_decode(trimmed(text)) {
        Ok(v) => Ok(v),
        Err(e) => Err(TiledError::Base64DecodingError(e)),
    }
}

pub fn decode_zlib(data: Vec<u8>) -> (r: Result<Vec<u8>, TiledError>)
    ensures
        match zlib_inflated(data@) {
            Some(b) => r is Ok && r->Ok_0@ == b,
            None => r is Err && r->Err_0.kind() == ErrorKind::Decompressing,
        },
{
    match zlib_inflate(data.as_slice()) {
        Ok(v) => Ok(v),
        Err(e) => Err(TiledError::DecompressingError(e)),
    }
}

pub fn decode_gzip(data: Vec<u8>) -> (r: Result<Vec<u8>, TiledError>)
    ensures
        match gzip_inflated(data@) {
            Some(b) => r is Ok && r->Ok_0@ == b,
            None => r is Err && r->Err_0.kind() == ErrorKind::Decompressing,
        },
{
    match gzip_inflate(data.as_slice()) {
        Ok(v) => Ok(v),
        Err(e) => Err(TiledError::DecompressingError(e)),
    }
}

pub fn decode_zstd(data: Vec<u8>) -> (r: Result<Vec<u8>, TiledError>)
    ensures
        match zstd_decoded(data@) {
            Some(b) => r is Ok && r->Ok_0@ == b,
            None => r is Err && r->Err_0.kind() == ErrorKind::Decompressing,
        },
{
    match zstd_decode(data.as_slice()) {
        Ok(v) => Ok(v),
        Err(e) => Err(TiledError::DecompressingError(e)),
    }
}

/// The supported pairs of encoding and compression.
#[derive(Clone, Copy, Debug, PartialEq, Eq, Structural)]
pub enum Format {
    Csv,
    Base64,
    Base64Zlib,
    Base64Gzip,
    Base64Zstd,
}

/// What the decompression stage of `f` makes of the decoded bytes `b`.
pub open spec fn decompressed(f: Format, b: Seq<u8>) -> Option<Seq<u8>> {
    match f {
        Format::Base64Zlib => zlib_inflated(b),
        Format::Base64Gzip => gzip_inflated(b),
        Format::Base64Zstd => zstd_decoded(b),
        _ => Some(b),
    }
}

/// The grid, or the kind of failure, that decoding the character content of
/// a tag in format `f` gives, `w` tiles a row; `None` is a tag that closed
/// without content.
pub open spec fn decoded_grid(f: Format, content: Option<Seq<char>>, w: nat) -> Result<
    Seq<Seq<u32>>,
    ErrorKind,
> {
    match f {
        Format::Csv => match content {
            None => Ok(Seq::empty()),
            Some(s) => match csv_grid(s, w) {
                Some(g) => Ok(g),
                None => Err(ErrorKind::Unrecognized),
            },
        },
        _ => {
            let raw = match content {
                None => Some(Seq::<u8>::empty()),
                Some(s) => base64_decoded(trim(s)),
            };
            match raw {
                None => Err(ErrorKind::Base64Decoding),
                Some(b) => match decompressed(f, b) {
                    None => Err(ErrorKind::Decompressing),
                    Some(d) => Ok(assemble_spec(d, w)),
                },
            }
        },
    }
}

/// Applies the decompression stage of `format` to the decoded bytes.
pub fn decompress(format: Format, raw: Vec<u8>) -> (r: Result<Vec<u8>, TiledError>)
    ensures
        match decompressed(format, raw@) {
            Some(b) => r is Ok && r->Ok_0@ == b,
            None => r is Err && r->Err_0.kind() == ErrorKind::Decompressing,
        },
{
    match format {
        Format::Base64Zlib => decode_zlib(raw),
        Format::Base64Gzip => decode_gzip(raw),
        Format::Base64Zstd => decode_zstd(raw),
        _ => Ok(raw),
    }
}

} // verus!

verus! {

/// Round trip: a grid whose rows all hold `width` tiles, packed as
/// little-endian records, compressed as format `f` says and written as
/// base64 text, decodes to that same grid, row for row and tile for tile.
pub proof fn law_round_trip(grid: Seq<Seq<u32>>, width: nat, f: Format, text: Seq<char>)
    requires
        width > 0,
        f != Format::Csv,
        forall|i: int| 0 <= i < grid.len() ==> (#[trigger] grid[i]).len() == width,
        base64_decoded(trim(text)) is Some,
        decompressed(f, base64_decoded(trim(text))->Some_0) == Some(pack_tiles(grid.flatten())),
    ensures
        decoded_grid(f, Some(text), width) == Ok::<Seq<Seq<u32>>, ErrorKind>(grid),
{
    lemma_assemble_packed(grid.flatten(), width);
    lemma_group_flatten(grid, width);
}

/// Parity of encodings: comma-separated text and base64 data (compressed
/// or not) that carry the same tile values decode to the same grid.
pub proof fn law_csv_parity(csv: Seq<char>, text: Seq<char>, width: nat, f: Format)
    requires
        width > 0,
        f != Format::Csv,
        csv_values(csv) is Some,
        base64_decoded(trim(text)) is Some,
        decompressed(f, base64_decoded(trim(text))->Some_0) == Some(
            pack_tiles(csv_values(csv)->Some_0),
        ),
    ensures
        decoded_grid(Format::Csv, Some(csv), width) == decoded_grid(f, Some(text), width),
        decoded_grid(Format::Csv, Some(csv), width) is Ok,
{
    lemma_assemble_packed(csv_values(csv)->Some_0, width);
}

} // verus!
