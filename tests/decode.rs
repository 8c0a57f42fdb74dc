use std::io::Write;

use tiled::codec::{decode_base64_text, decode_gzip, decode_zlib, decode_zstd, Format};
use tiled::csv::{csv_tile_values, decode_csv_text};
use tiled::cursor::{get_attrs, EventCursor};
use tiled::grid::convert_to_tile;
use tiled::parse::{
    decode_csv, parse_animation, parse_base64, parse_data, parse_data_line, parse_impl,
    parse_infinite_data, select_format,
};
use tiled::text::{parse_i32, parse_u32, trimmed};
use tiled::types::{Attribute, Chunk, ErrorKind, Event, Frame, LayerData, LayerTile};

fn attr(name: &str, value: &str) -> Attribute {
    Attribute { name: name.to_string(), value: value.to_string() }
}

fn start(name: &str, attributes: Vec<Attribute>) -> Event {
    Event::StartElement { name: name.to_string(), attributes }
}

fn end(name: &str) -> Event {
    Event::EndElement { name: name.to_string() }
}

fn text(s: &str) -> Event {
    Event::Characters(s.to_string())
}

fn ids(grid: &Vec<Vec<LayerTile>>) -> Vec<Vec<u32>> {
    grid.iter().map(|row| row.iter().map(|t| t.gid).collect()).collect()
}

fn pack(grid: &Vec<Vec<u32>>) -> Vec<u8> {
    let mut out = Vec::new();
    for row in grid {
        for v in row {
            out.extend_from_slice(&v.to_le_bytes());
        }
    }
    out
}

fn zlib(data: &[u8]) -> Vec<u8> {
    let mut enc = libflate::zlib::Encoder::new(Vec::new()).unwrap();
    enc.write_all(data).unwrap();
    enc.finish().into_result().unwrap()
}

fn gzip(data: &[u8]) -> Vec<u8> {
    let mut enc = libflate::gzip::Encoder::new(Vec::new()).unwrap();
    enc.write_all(data).unwrap();
    enc.finish().into_result().unwrap()
}

fn sample_grid() -> Vec<Vec<u32>> {
    vec![vec![1, 2, 3], vec![4, 0x8000_0005, 6], vec![70000, 8, 4294967295]]
}

fn decode_finite(encoding: Option<&str>, compression: Option<&str>, content: &str, width: u32)
    -> Result<Vec<Vec<u32>>, ErrorKind> {
    let mut cursor = EventCursor::new(vec![text(content), end("data"), end("layer")]);
    let r = parse_data_line(
        encoding.map(|s| s.to_string()),
        compression.map(|s| s.to_string()),
        &mut cursor,
        width,
    );
    match r {
        Ok(g) => Ok(ids(&g)),
        Err(e) => Err(e.error_kind()),
    }
}

#[test]
fn round_trip_base64_zlib() {
    let grid = sample_grid();
    let payload = base64::encode(zlib(&pack(&grid)));
    let wrapped = format!("\n   {}\n  ", payload);
    assert_eq!(decode_finite(Some("base64"), Some("zlib"), &wrapped, 3), Ok(grid));
}

#[test]
fn round_trip_base64_gzip() {
    let grid = sample_grid();
    let payload = base64::encode(gzip(&pack(&grid)));
    assert_eq!(decode_finite(Some("base64"), Some("gzip"), &payload, 3), Ok(grid));
}

#[test]
fn round_trip_base64_zstd() {
    let grid = sample_grid();
    let payload = base64::encode(zstd::encode_all(&pack(&grid)[..], 3).unwrap());
    assert_eq!(decode_finite(Some("base64"), Some("zstd"), &payload, 3), Ok(grid));
}

#[test]
fn round_trip_base64_plain() {
    let grid = sample_grid();
    let payload = base64::encode(pack(&grid));
    assert_eq!(decode_finite(Some("base64"), None, &payload, 3), Ok(grid));
}

#[test]
fn csv_matches_base64() {
    let grid = sample_grid();
    let csv = "\n1,2,3,\n4,2147483653,6,\n70000,8,4294967295\n";
    let b64 = base64::encode(zlib(&pack(&grid)));
    let a = decode_finite(Some("csv"), None, csv, 3);
    let b = decode_finite(Some("base64"), Some("zlib"), &b64, 3);
    assert_eq!(a, b);
    assert_eq!(a, Ok(grid));
}

#[test]
fn assemble_full_rows() {
    let bytes: Vec<u8> = (0u8..48).collect();
    let rows = convert_to_tile(&bytes, 4);
    assert_eq!(rows.len(), 3);
    for row in &rows {
        assert_eq!(row.len(), 4);
    }
    assert_eq!(rows[0][0].gid, 0x03020100);
    assert_eq!(rows[2][3].gid, u32::from_le_bytes([44, 45, 46, 47]));
}

#[test]
fn assemble_partial_last_row() {
    let bytes: Vec<u8> = (0u8..44).collect();
    let rows = convert_to_tile(&bytes, 4);
    assert_eq!(rows.len(), 3);
    assert_eq!(rows[2].len(), 3);
    assert_eq!(rows[2][2].gid, u32::from_le_bytes([40, 41, 42, 43]));
}

#[test]
fn assemble_stray_bytes_truncate_tile() {
    let bytes: Vec<u8> = vec![1, 0, 0, 0, 2, 0, 0, 0, 9, 9];
    let rows = convert_to_tile(&bytes, 2);
    assert_eq!(ids(&rows), vec![vec![1, 2], vec![]]);
    let rows = convert_to_tile(&vec![5, 0, 0, 0, 7], 3);
    assert_eq!(ids(&rows), vec![vec![5]]);
    assert!(convert_to_tile(&Vec::new(), 3).is_empty());
}

#[test]
fn attribute_extraction() {
    let attrs = vec![attr("encoding", "base64"), attr("compression", "zlib")];
    let slots = get_attrs(&attrs, &vec!["encoding", "compression", "other"]);
    assert_eq!(slots, vec![Some("base64".to_string()), Some("zlib".to_string()), None]);
}

#[test]
fn attribute_extraction_last_wins() {
    let attrs = vec![attr("x", "1"), attr("y", "2"), attr("x", "3")];
    let slots = get_attrs(&attrs, &vec!["x", "y"]);
    assert_eq!(slots, vec![Some("3".to_string()), Some("2".to_string())]);
}

#[test]
fn missing_required_attribute() {
    let r = Frame::new(vec![attr("tileid", "4")]);
    assert_eq!(r.unwrap_err().error_kind(), ErrorKind::MalformedAttributes);
    let r = Frame::new(vec![attr("tileid", "4"), attr("duration", "fast")]);
    assert_eq!(r.unwrap_err().error_kind(), ErrorKind::MalformedAttributes);
    let f = Frame::new(vec![attr("duration", "100"), attr("tileid", "4")]).unwrap();
    assert_eq!(f, Frame { tile_id: 4, duration: 100 });
}

#[test]
fn unknown_combination() {
    let r = select_format(&Some("base64".to_string()), &Some("brotli".to_string()));
    assert_eq!(r.unwrap_err().error_kind(), ErrorKind::Unrecognized);
    assert_eq!(decode_finite(Some("base64"), Some("brotli"), "AAAA", 1), Err(ErrorKind::Unrecognized));
    assert_eq!(decode_finite(Some("csv"), Some("zlib"), "1", 1), Err(ErrorKind::Unrecognized));
}

#[test]
fn format_selection() {
    let s = |x: &str| Some(x.to_string());
    assert_eq!(select_format(&s("csv"), &None).unwrap(), Format::Csv);
    assert_eq!(select_format(&s("base64"), &None).unwrap(), Format::Base64);
    assert_eq!(select_format(&s("base64"), &s("zlib")).unwrap(), Format::Base64Zlib);
    assert_eq!(select_format(&s("base64"), &s("gzip")).unwrap(), Format::Base64Gzip);
    assert_eq!(select_format(&s("base64"), &s("zstd")).unwrap(), Format::Base64Zstd);
    assert_eq!(select_format(&s("hex"), &None).unwrap_err().error_kind(), ErrorKind::Unrecognized);
    assert_eq!(select_format(&None, &None).unwrap_err().error_kind(), ErrorKind::Unrecognized);
    assert_eq!(select_format(&None, &s("zlib")).unwrap_err().error_kind(), ErrorKind::Unrecognized);
}

#[test]
fn infinite_chunk_keys() {
    let chunk_attrs = |x: &str, y: &str| {
        vec![attr("x", x), attr("y", y), attr("width", "2"), attr("height", "1")]
    };
    let events = vec![
        start("chunk", chunk_attrs("0", "0")),
        text("1,2"),
        end("chunk"),
        start("chunk", chunk_attrs("16", "0")),
        text("3,4"),
        end("chunk"),
        end("data"),
        end("layer"),
    ];
    let mut cursor = EventCursor::new(events);
    let data = parse_infinite_data(&mut cursor, vec![attr("encoding", "csv")], 32).unwrap();
    let chunks: Vec<Chunk> = match data {
        LayerData::Infinite(c) => c,
        LayerData::Finite(_) => panic!("expected chunks"),
    };
    assert_eq!(chunks.len(), 2);
    let at = |x: i32, y: i32| chunks.iter().find(|c| c.x == x && c.y == y).unwrap();
    assert_eq!(ids(&at(0, 0).tiles), vec![vec![1, 2]]);
    assert_eq!(ids(&at(16, 0).tiles), vec![vec![3, 4]]);
    assert_eq!(at(16, 0).width, 2);
    assert_eq!(cursor.pos, 7);
}

#[test]
fn infinite_duplicate_origin_keeps_last() {
    let a = vec![attr("x", "-16"), attr("y", "0"), attr("width", "1"), attr("height", "1")];
    let b = vec![attr("x", "-16"), attr("y", "0"), attr("width", "1"), attr("height", "1")];
    let events = vec![
        start("chunk", a),
        text("7"),
        end("chunk"),
        start("chunk", b),
        text("9"),
        end("chunk"),
        end("data"),
    ];
    let mut cursor = EventCursor::new(events);
    match parse_infinite_data(&mut cursor, vec![attr("encoding", "csv")], 1).unwrap() {
        LayerData::Infinite(c) => {
            assert_eq!(c.len(), 1);
            assert_eq!(c[0].x, -16);
            assert_eq!(ids(&c[0].tiles), vec![vec![9]]);
        }
        LayerData::Finite(_) => panic!("expected chunks"),
    }
}

#[test]
fn chunk_without_width_is_malformed() {
    let events = vec![start("chunk", vec![attr("x", "0"), attr("y", "0")]), text("1"), end("data")];
    let mut cursor = EventCursor::new(events);
    let r = parse_infinite_data(&mut cursor, vec![attr("encoding", "csv")], 1);
    assert_eq!(r.unwrap_err().error_kind(), ErrorKind::MalformedAttributes);
}

#[test]
fn empty_csv_content() {
    let mut cursor = EventCursor::new(vec![end("data"), end("layer")]);
    let r = parse_data(&mut cursor, vec![attr("encoding", "csv")], 5).unwrap();
    match r {
        LayerData::Finite(g) => assert!(g.is_empty()),
        LayerData::Infinite(_) => panic!("expected a grid"),
    }
    assert_eq!(cursor.pos, 1);
}

#[test]
fn empty_base64_content() {
    let mut cursor = EventCursor::new(vec![end("data")]);
    assert!(parse_base64(&mut cursor).unwrap().is_empty());
}

#[test]
fn premature_end_in_data() {
    let mut cursor = EventCursor::new(vec![Event::Other]);
    let r = parse_data(&mut cursor, vec![attr("encoding", "csv")], 2);
    assert_eq!(r.unwrap_err().error_kind(), ErrorKind::PrematureEnd);
    let mut cursor = EventCursor::new(vec![Event::Other, Event::EndDocument]);
    let r = parse_data(&mut cursor, vec![attr("encoding", "base64")], 2);
    assert_eq!(r.unwrap_err().error_kind(), ErrorKind::PrematureEnd);
    let mut cursor = EventCursor::new(vec![start("chunk", vec![]), Event::EndDocument]);
    let r = parse_infinite_data(&mut cursor, vec![attr("encoding", "csv")], 2);
    assert_eq!(r.unwrap_err().error_kind(), ErrorKind::MalformedAttributes);
    let mut cursor = EventCursor::new(vec![end("chunk")]);
    let r = parse_infinite_data(&mut cursor, vec![attr("encoding", "csv")], 2);
    assert_eq!(r.unwrap_err().error_kind(), ErrorKind::PrematureEnd);
}

#[test]
fn malformed_stream() {
    let mut cursor = EventCursor::new(vec![Event::Malformed("bad".to_string())]);
    let r = decode_csv(2, &mut cursor);
    assert_eq!(r.unwrap_err().error_kind(), ErrorKind::XmlDecoding);
}

#[test]
fn bad_base64_and_bad_compression() {
    assert_eq!(decode_finite(Some("base64"), None, "@@@@", 1), Err(ErrorKind::Base64Decoding));
    let junk = base64::encode([1u8, 2, 3, 4, 5]);
    assert_eq!(decode_finite(Some("base64"), Some("zlib"), &junk, 1), Err(ErrorKind::Decompressing));
    assert_eq!(decode_finite(Some("base64"), Some("gzip"), &junk, 1), Err(ErrorKind::Decompressing));
    assert_eq!(decode_finite(Some("base64"), Some("zstd"), &junk, 1), Err(ErrorKind::Decompressing));
}

#[test]
fn csv_bad_token() {
    assert_eq!(decode_finite(Some("csv"), None, "1,x,3", 3), Err(ErrorKind::Unrecognized));
    assert_eq!(decode_finite(Some("csv"), None, "1, 2", 3), Err(ErrorKind::Unrecognized));
    assert_eq!(decode_finite(Some("csv"), None, "4294967296", 3), Err(ErrorKind::Unrecognized));
}

#[test]
fn csv_rows_and_blank_pieces() {
    let g = decode_csv_text("1,2,3,\r\n4,5,6,\r\n7,\n,,8", 3).unwrap();
    assert_eq!(ids(&g), vec![vec![1, 2, 3], vec![4, 5, 6], vec![7, 8]]);
    assert_eq!(csv_tile_values(" \n ,+9,\t").unwrap(), vec![9]);
    assert_eq!(csv_tile_values("").unwrap(), Vec::<u32>::new());
}

#[test]
fn decoders_transform_bytes() {
    let data = b"tile data tile data".to_vec();
    assert_eq!(decode_zlib(zlib(&data)).unwrap(), data);
    assert_eq!(decode_gzip(gzip(&data)).unwrap(), data);
    assert_eq!(decode_zstd(zstd::encode_all(&data[..], 1).unwrap()).unwrap(), data);
    assert_eq!(decode_base64_text("  dGlsZQ==\n").unwrap(), b"tile".to_vec());
}

#[test]
fn decimal_parsing() {
    let c = |s: &str| s.chars().collect::<Vec<char>>();
    assert_eq!(parse_u32(&c("4294967295")), Some(u32::MAX));
    assert_eq!(parse_u32(&c("+17")), Some(17));
    assert_eq!(parse_u32(&c("4294967296")), None);
    assert_eq!(parse_u32(&c("")), None);
    assert_eq!(parse_u32(&c("+")), None);
    assert_eq!(parse_u32(&c("-1")), None);
    assert_eq!(parse_i32(&c("-2147483648")), Some(i32::MIN));
    assert_eq!(parse_i32(&c("2147483648")), None);
    assert_eq!(parse_i32(&c("-32")), Some(-32));
    assert_eq!(parse_i32(&c("-")), None);
}

#[test]
fn trimming() {
    assert_eq!(trimmed("\u{a0} ab c\t\n"), "ab c");
    assert_eq!(trimmed("   "), "");
}

#[test]
fn animation_frames() {
    let events = vec![
        start("frame", vec![attr("tileid", "1"), attr("duration", "100")]),
        end("frame"),
        start("other", vec![]),
        end("other"),
        start("frame", vec![attr("tileid", "2"), attr("duration", "50")]),
        end("frame"),
        end("animation"),
        end("tile"),
    ];
    let mut cursor = EventCursor::new(events);
    let frames = parse_animation(&mut cursor).unwrap();
    assert_eq!(frames, vec![Frame { tile_id: 1, duration: 100 }, Frame { tile_id: 2, duration: 50 }]);
    assert_eq!(cursor.pos, 7);
}

#[test]
fn root_map_tag() {
    let events = vec![Event::Other, start("map", vec![attr("width", "10")]), end("map"), Event::EndDocument];
    let mut cursor = EventCursor::new(events);
    let attrs = parse_impl(&mut cursor).unwrap();
    assert_eq!(attrs.len(), 1);
    assert_eq!(attrs[0].value, "10");
    assert_eq!(cursor.pos, 2);
    let mut cursor = EventCursor::new(vec![Event::Other, Event::EndDocument]);
    assert_eq!(parse_impl(&mut cursor).unwrap_err().error_kind(), ErrorKind::PrematureEnd);
}

#[test]
fn layer_tile_keeps_identifier() {
    assert_eq!(LayerTile::new(0x8000_0001).gid, 0x8000_0001);
}
