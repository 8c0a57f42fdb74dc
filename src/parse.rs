//! The `data` tag dispatcher: the encoding and compression attributes pick a
//! decoder; finite layers give one grid, infinite ones a set of chunks. Also
//! animation frames and the search for the root `map` tag.

use vstd::prelude::*;
use crate::codec::{Format, base64_decoded, decode_base64_text, decompress, decoded_grid};
use crate::csv::{csv_grid, decode_csv_text};
use crate::grid::convert_to_tile;
use crate::cursor::{
    EventCursor, attrs_view, child_scan, content_scan, copy_attrs, copy_string, get_attrs,
    last_value, lemma_child_scan_advances, lemma_content_scan_advances, next_child, next_content,
    same_text, start_attrs, start_name,
};
use crate::text::{chars_of, parse_i32, parse_i32_spec, parse_u32, parse_u32_spec, trim};
use crate::types::{
    Attribute, Chunk, ErrorKind, Event, Frame, LayerData, LayerTile, TiledError, grid_view, opt_view,
};

verus! {

/// The decoder that an `encoding` and a `compression` attribute select, if
/// the pair is supported.
pub open spec fn format_of(enc: Option<Seq<char>>, comp: Option<Seq<char>>) -> Option<Format> {
    match enc {
        None => None,
        Some(e) => match comp {
            None => if e == "base64"@ {
                Some(Format::Base64)
            } else if e == "csv"@ {
                Some(Format::Csv)
            } else {
                None
            },
            Some(c) => if e == "base64"@ && c == "zlib"@ {
                Some(Format::Base64Zlib)
            } else if e == "base64"@ && c == "gzip"@ {
                Some(Format::Base64Gzip)
            } else if e == "base64"@ && c == "zstd"@ {
                Some(Format::Base64Zstd)
            } else {
                None
            },
        },
    }
}

/// Selects the decoder for an encoding and a compression; an unsupported
/// pair (no encoding at all included) fails as unrecognized.
pub fn select_format(encoding: &Option<String>, compression: &Option<String>) -> (r: Result<
    Format,
    TiledError,
>)
    ensures
        match format_of(opt_view(*encoding), opt_view(*compression)) {
            Some(f) => r is Ok && r->Ok_0 == f,
            None => r is Err && r->Err_0.kind() == ErrorKind::Unrecognized,
        },
{
    match encoding {
        None => match compression {
            None => Err(TiledError::Other(String::from_str("XML format is currently not supported"))),
            Some(_) => Err(TiledError::Other(String::from_str("Missing encoding format"))),
        },
        Some(e) => match compression {
            None => {
                if same_text(e.as_str(), "base64") {
                    Ok(Format::Base64)
                } else if same_text(e.as_str(), "csv") {
                    Ok(Format::Csv)
                } else {
                    let mut m = String::from_str("Unknown encoding format ");
                    m.append(e.as_str());
                    Err(TiledError::Other(m))
                }
            },
            Some(c) => {
                let b64 = same_text(e.as_str(), "base64");
                if b64 && same_text(c.as_str(), "zlib") {
                    Ok(Format::Base64Zlib)
                } else if b64 && same_text(c.as_str(), "gzip") {
                    Ok(Format::Base64Gzip)
                } else if b64 && same_text(c.as_str(), "zstd") {
                    Ok(Format::Base64Zstd)
                } else {
                    let mut m = String::from_str("Unknown combination of ");
                    m.append(e.as_str());
                    m.append(" encoding and ");
                    m.append(c.as_str());
                    m.append(" compression");
                    Err(TiledError::Other(m))
                }
            },
        },
    }
}

/// The grid that the tile data at `pos` decodes to, with the position after
/// the event that held it, or the kind of failure.
pub open spec fn data_line_result(
    enc: Option<Seq<char>>,
    comp: Option<Seq<char>>,
    ev: Seq<Event>,
    pos: int,
    w: nat,
) -> Result<(Seq<Seq<u32>>, int), ErrorKind> {
    match format_of(enc, comp) {
        None => Err(ErrorKind::Unrecognized),
        Some(f) => match content_scan(ev, pos) {
            Err(k) => Err(k),
            Ok((s, p)) => match decoded_grid(f, s, w) {
                Ok(g) => Ok((g, p)),
                Err(k) => Err(k),
            },
        },
    }
}

/// Reads and decodes the tile data of the tag under the cursor, `width`
/// tiles a row.
pub fn parse_data_line(
    encoding: Option<String>,
    compression: Option<String>,
    parser: &mut EventCursor,
    width: u32,
) -> (r: Result<Vec<Vec<LayerTile>>, TiledError>)
    requires
        old(parser).wf(),
        width > 0,
    ensures
        final(parser).events@ == old(parser).events@,
        final(parser).wf(),
        match data_line_result(
            opt_view(encoding),
            opt_view(compression),
            old(parser).events@,
            old(parser).pos as int,
            width as nat,
        ) {
            Ok((g, p)) => r is Ok && grid_view(r->Ok_0@) == g && final(parser).pos == p,
            Err(k) => r is Err && r->Err_0.kind() == k,
        },
{
    let format = select_format(&encoding, &compression)?;
    if format == Format::Csv {
        return decode_csv(width, parser);
    }
    let raw = parse_base64(parser)?;
    let bytes = decompress(format, raw)?;
    Ok(convert_to_tile(&bytes, width))
}

/// Reads the base64 content of a `data` tag and decodes it; a tag that
/// closes without content gives no bytes.
pub fn parse_base64(parser: &mut EventCursor) -> (r: Result<Vec<u8>, TiledError>)
    requires
        old(parser).wf(),
    ensures
        final(parser).events@ == old(parser).events@,
        final(parser).wf(),
        match content_scan(old(parser).events@, old(parser).pos as int) {
            Err(k) => r is Err && r->Err_0.kind() == k,
            Ok((None, p)) => r is Ok && r->Ok_0@ == Seq::<u8>::empty() && final(parser).pos == p,
            Ok((Some(s), p)) => match base64_decoded(trim(s)) {
                Some(b) => r is Ok && r->Ok_0@ == b && final(parser).pos == p,
                None => r is Err && r->Err_0.kind() == ErrorKind::Base64Decoding,
            },
        },
{
    match next_content(parser)? {
        Some(s) => decode_base64_text(s.as_str()),
        None => Ok(Vec::new()),
    }
}

/// Reads the comma-separated content of a `data` tag as rows of `width`
/// tiles; a tag that closes without content gives no rows.
pub fn decode_csv(width: u32, parser: &mut EventCursor) -> (r: Result<
    Vec<Vec<LayerTile>>,
    TiledError,
>)
    requires
        old(parser).wf(),
        width > 0,
    ensures
        final(parser).events@ == old(parser).events@,
        final(parser).wf(),
        match content_scan(old(parser).events@, old(parser).pos as int) {
            Err(k) => r is Err && r->Err_0.kind() == k,
            Ok((None, p)) => r is Ok && r->Ok_0@.len() == 0 && final(parser).pos == p,
            Ok((Some(s), p)) => match csv_grid(s, width as nat) {
                Some(g) => r is Ok && grid_view(r->Ok_0@) == g && final(parser).pos == p,
                None => r is Err && r->Err_0.kind() == ErrorKind::Unrecognized,
            },
        },
{
    match next_content(parser)? {
        Some(s) => decode_csv_text(s.as_str(), width),
        None => Ok(Vec::new()),
    }
}

/// A copy of the optional string.
pub fn copy_opt(o: &Option<String>) -> (r: Option<String>)
    ensures
        opt_view(r) == opt_view(*o),
{
    match o {
        Some(s) => Some(copy_string(s)),
        None => None,
    }
}

/// Reads the tile data of a finite layer's `data` tag with attributes
/// `attrs`, `width` tiles a row.
pub fn parse_data(parser: &mut EventCursor, attrs: Vec<Attribute>, width: u32) -> (r: Result<
    LayerData,
    TiledError,
>)
    requires
        old(parser).wf(),
        width > 0,
    ensures
        final(parser).events@ == old(parser).events@,
        final(parser).wf(),
        match data_line_result(
            last_value(attrs_view(attrs@), "encoding"@),
            last_value(attrs_view(attrs@), "compression"@),
            old(parser).events@,
            old(parser).pos as int,
            width as nat,
        ) {
            Ok((g, p)) => r is Ok && r->Ok_0 is Finite && grid_view(r->Ok_0->Finite_0@) == g
                && final(parser).pos == p,
            Err(k) => r is Err && r->Err_0.kind() == k,
        },
{
    let names: Vec<&str> = vec!["encoding", "compression"];
    let slots = get_attrs(&attrs, &names);
    let e = copy_opt(&slots[0]);
    let c = copy_opt(&slots[1]);
    let tiles = parse_data_line(e, c, parser, width)?;
    Ok(LayerData::Finite(tiles))
}

} // verus!

verus! {

/// The frame that the attributes `a` describe: `tileid` and `duration`, both
/// `u32` decimals, are required.
pub open spec fn frame_of(a: Seq<(Seq<char>, Seq<char>)>) -> Option<Frame> {
    match (last_value(a, "tileid"@), last_value(a, "duration"@)) {
        (Some(t), Some(d)) => match (parse_u32_spec(t), parse_u32_spec(d)) {
            (Some(x), Some(y)) => Some(Frame { tile_id: x, duration: y }),
            _ => None,
        },
        _ => None,
    }
}

/// Reads a `u32` decimal from an optional attribute value.
fn u32_value(o: &Option<String>) -> (r: Option<u32>)
    ensures
        r == match opt_view(*o) {
            Some(s) => parse_u32_spec(s),
            None => None,
        },
{
    match o {
        Some(s) => parse_u32(&chars_of(s.as_str())),
        None => None,
    }
}

/// Reads an `i32` decimal from an optional attribute value.
fn i32_value(o: &Option<String>) -> (r: Option<i32>)
    ensures
        r == match opt_view(*o) {
            Some(s) => parse_i32_spec(s),
            None => None,
        },
{
    match o {
        Some(s) => parse_i32(&chars_of(s.as_str())),
        None => None,
    }
}

impl Frame {
    /// The frame of a `frame` tag's attributes.
    pub fn new(attrs: Vec<Attribute>) -> (r: Result<Frame, TiledError>)
        ensures
            match frame_of(attrs_view(attrs@)) {
                Some(f) => r is Ok && r->Ok_0 == f,
                None => r is Err && r->Err_0.kind() == ErrorKind::MalformedAttributes,
            },
    {
        let names: Vec<&str> = vec!["tileid", "duration"];
        let slots = get_attrs(&attrs, &names);
        let t = u32_value(&slots[0]);
        let d = u32_value(&slots[1]);
        match (t, d) {
            (Some(tile_id), Some(duration)) => Ok(Frame { tile_id, duration }),
            _ => Err(
                TiledError::MalformedAttributes(
                    String::from_str("A frame must have tileid and duration"),
                ),
            ),
        }
    }
}

/// Prepends `pre` to a successful scan result.
pub open spec fn prefixed<T>(pre: Seq<T>, r: Result<(Seq<T>, int), ErrorKind>) -> Result<
    (Seq<T>, int),
    ErrorKind,
> {
    match r {
        Ok((s, p)) => Ok((pre + s, p)),
        Err(k) => Err(k),
    }
}

/// The frames of the `animation` tag whose children start at `pos`, with the
/// position after `</animation>`.
pub open spec fn frames_scan(ev: Seq<Event>, pos: int) -> Result<(Seq<Frame>, int), ErrorKind>
    decreases ev.len() - pos,
{
    match child_scan(ev, pos, "animation"@) {
        Err(k) => Err(k),
        Ok((None, p)) => Ok((Seq::empty(), p)),
        Ok((Some(i), p)) => if !(pos < p <= ev.len()) {
            Err(ErrorKind::PrematureEnd)
        } else if start_name(ev[i]) == "frame"@ {
            match frame_of(start_attrs(ev[i])) {
                None => Err(ErrorKind::MalformedAttributes),
                Some(f) => prefixed(seq![f], frames_scan(ev, p)),
            }
        } else {
            frames_scan(ev, p)
        },
    }
}

/// Reads the frames of an `animation` tag up to its end; other child tags
/// are passed over.
pub fn parse_animation(parser: &mut EventCursor) -> (r: Result<Vec<Frame>, TiledError>)
    requires
        old(parser).wf(),
    ensures
        final(parser).events@ == old(parser).events@,
        final(parser).wf(),
        match frames_scan(old(parser).events@, old(parser).pos as int) {
            Ok((s, p)) => r is Ok && r->Ok_0@ == s && final(parser).pos == p,
            Err(k) => r is Err && r->Err_0.kind() == k,
        },
{
    let ghost ev = parser.events@;
    let ghost start = parser.pos as int;
    let mut animation: Vec<Frame> = Vec::new();
    assert(prefixed(Seq::<Frame>::empty(), frames_scan(ev, start)) =~= frames_scan(ev, start)) by {
        match frames_scan(ev, start) {
            Ok((s, p)) => {
                assert(Seq::<Frame>::empty() + s =~= s);
            },
            Err(_) => {},
        }
    }
    loop
        invariant
            parser.events@ == ev,
            ev == old(parser).events@,
            start == old(parser).pos,
            parser.wf(),
            frames_scan(ev, start) == prefixed(animation@, frames_scan(ev, parser.pos as int)),
        decreases ev.len() - parser.pos,
    {
        let ghost pos = parser.pos as int;
        let child = next_child(parser, "animation")?;
        proof {
            lemma_child_scan_advances(ev, pos, "animation"@);
        }
        match child {
            None => {
                assert(animation@ + Seq::<Frame>::empty() =~= animation@);
                return Ok(animation);
            },
            Some((name, attrs)) => {
                if same_text(name.as_str(), "frame") {
                    let f = Frame::new(attrs)?;
                    let ghost before = animation@;
                    animation.push(f);
                    proof {
                        match frames_scan(ev, parser.pos as int) {
                            Ok((s, p)) => {
                                assert(before + (seq![f] + s) =~= animation@ + s);
                            },
                            Err(_) => {},
                        }
                    }
                }
            },
        }
    }
}

/// A chunk as contracts see it.
pub struct ChunkView {
    pub x: i32,
    pub y: i32,
    pub width: u32,
    pub height: u32,
    pub tiles: Seq<Seq<u32>>,
}

pub open spec fn chunk_view(c: Chunk) -> ChunkView {
    ChunkView { x: c.x, y: c.y, width: c.width, height: c.height, tiles: grid_view(c.tiles@) }
}

pub open spec fn chunk_views(s: Seq<Chunk>) -> Seq<ChunkView> {
    s.map_values(|c: Chunk| chunk_view(c))
}

/// The chunk of a `chunk` tag with attributes `a` whose tile data starts at
/// `pos`, and the position after that data. `x` and `y` are `i32`
/// decimals, `width` and `height` `u32` decimals, and `width` is positive.
pub open spec fn chunk_result(
    ev: Seq<Event>,
    pos: int,
    a: Seq<(Seq<char>, Seq<char>)>,
    enc: Option<Seq<char>>,
    comp: Option<Seq<char>>,
) -> Result<(ChunkView, int), ErrorKind> {
    let x = match last_value(a, "x"@) { Some(s) => parse_i32_spec(s), None => None };
    let y = match last_value(a, "y"@) { Some(s) => parse_i32_spec(s), None => None };
    let w = match last_value(a, "width"@) { Some(s) => parse_u32_spec(s), None => None };
    let h = match last_value(a, "height"@) { Some(s) => parse_u32_spec(s), None => None };
    if x is None || y is None || w is None || h is None || w->Some_0 == 0 {
        Err(ErrorKind::MalformedAttributes)
    } else {
        match data_line_result(enc, comp, ev, pos, w->Some_0 as nat) {
            Ok((g, p)) => Ok(
                (
                    ChunkView {
                        x: x->Some_0,
                        y: y->Some_0,
                        width: w->Some_0,
                        height: h->Some_0,
                        tiles: g,
                    },
                    p,
                ),
            ),
            Err(k) => Err(k),
        }
    }
}

impl Chunk {
    /// Reads a `chunk` tag with attributes `attrs` and its tile data, in the
    /// encoding and compression of the enclosing `data` tag. A chunk of width
    /// zero has no rows to cut its data into and is refused as malformed.
    pub fn new(
        parser: &mut EventCursor,
        attrs: Vec<Attribute>,
        encoding: Option<String>,
        compression: Option<String>,
    ) -> (r: Result<Chunk, TiledError>)
        requires
            old(parser).wf(),
        ensures
            final(parser).events@ == old(parser).events@,
            final(parser).wf(),
            match chunk_result(
                old(parser).events@,
                old(parser).pos as int,
                attrs_view(attrs@),
                opt_view(encoding),
                opt_view(compression),
            ) {
                Ok((c, p)) => r is Ok && chunk_view(r->Ok_0) == c && final(parser).pos == p,
                Err(k) => r is Err && r->Err_0.kind() == k,
            },
    {
        let names: Vec<&str> = vec!["x", "y", "width", "height"];
        let slots = get_attrs(&attrs, &names);
        let x = i32_value(&slots[0]);
        let y = i32_value(&slots[1]);
        let width = u32_value(&slots[2]);
        let height = u32_value(&slots[3]);
        match (x, y, width, height) {
            (Some(x), Some(y), Some(width), Some(height)) => {
                if width == 0 {
                    return Err(
                        TiledError::MalformedAttributes(
                            String::from_str("chunk must have x, y, a positive width and height"),
                        ),
                    );
                }
                let tiles = parse_data_line(encoding, compression, parser, width)?;
                Ok(Chunk { x, y, width, height, tiles })
            },
            _ => Err(
                TiledError::MalformedAttributes(
                    String::from_str("chunk must have x, y, a positive width and height"),
                ),
            ),
        }
    }
}

} // verus!

verus! {

/// The origins of the chunks are pairwise distinct.
pub open spec fn unique_origins(s: Seq<ChunkView>) -> bool {
    forall|i: int, j: int|
        0 <= i < s.len() && 0 <= j < s.len() && i != j ==> (#[trigger] s[i].x, s[i].y) != (
        #[trigger] s[j].x,
        s[j].y,
    )
}

/// The chunks keyed by origin, a later chunk replacing an earlier one of the
/// same origin.
pub open spec fn chunk_map(s: Seq<ChunkView>) -> Map<(i32, i32), ChunkView>
    decreases s.len(),
{
    if s.len() == 0 {
        Map::empty()
    } else {
        chunk_map(s.drop_last()).insert((s.last().x, s.last().y), s.last())
    }
}

proof fn lemma_chunk_map(s: Seq<ChunkView>)
    ensures
        forall|k: (i32, i32)|
            #[trigger] chunk_map(s).contains_key(k) <==> exists|i: int|
                0 <= i < s.len() && (s[i].x, s[i].y) == k,
        unique_origins(s) ==> forall|i: int|
            0 <= i < s.len() ==> chunk_map(s)[(#[trigger] s[i].x, s[i].y)] == s[i],
    decreases s.len(),
{
    if s.len() > 0 {
        let t = s.drop_last();
        lemma_chunk_map(t);
        assert forall|k: (i32, i32)| #[trigger] chunk_map(s).contains_key(k) <==> exists|i: int|
            0 <= i < s.len() && (s[i].x, s[i].y) == k by {
            assert(chunk_map(s) == chunk_map(t).insert((s.last().x, s.last().y), s.last()));
            if chunk_map(s).contains_key(k) && k != (s.last().x, s.last().y) {
                assert(chunk_map(t).contains_key(k));
                let i = choose|i: int| 0 <= i < t.len() && (t[i].x, t[i].y) == k;
                assert(s[i] == t[i]);
            }
            if exists|i: int| 0 <= i < s.len() && (s[i].x, s[i].y) == k {
                let i = choose|i: int| 0 <= i < s.len() && (s[i].x, s[i].y) == k;
                if i < t.len() {
                    assert(t[i] == s[i]);
                }
            }
        }
        if unique_origins(s) {
            assert(unique_origins(t)) by {
                assert forall|i: int, j: int|
                    0 <= i < t.len() && 0 <= j < t.len() && i != j implies (#[trigger] t[i].x, t[i].y)
                    != (#[trigger] t[j].x, t[j].y) by {
                    assert(t[i] == s[i] && t[j] == s[j]);
                }
            }
            assert forall|i: int| 0 <= i < s.len() implies chunk_map(s)[(#[trigger] s[i].x, s[i].y)]
                == s[i] by {
                if i < t.len() {
                    assert(t[i] == s[i]);
                    assert((s[i].x, s[i].y) != (s[s.len() - 1].x, s[s.len() - 1].y));
                }
            }
        }
    }
}

/// Adds `c` to `chunks`, replacing the chunk of the same origin if there is
/// one.
fn insert_chunk(chunks: &mut Vec<Chunk>, c: Chunk)
    requires
        unique_origins(chunk_views(old(chunks)@)),
    ensures
        unique_origins(chunk_views(final(chunks)@)),
        chunk_map(chunk_views(final(chunks)@)) == chunk_map(chunk_views(old(chunks)@)).insert(
            (c.x, c.y),
            chunk_view(c),
        ),
{
    let ghost s = chunk_views(chunks@);
    let ghost cv = chunk_view(c);
    let mut i: usize = 0;
    while i < chunks.len()
        invariant
            i <= chunks.len(),
            s == chunk_views(chunks@),
            s == chunk_views(old(chunks)@),
            cv == chunk_view(c),
            unique_origins(s),
            chunks@ == old(chunks)@,
            forall|j: int| 0 <= j < i ==> (#[trigger] s[j].x, s[j].y) != (c.x, c.y),
        decreases chunks.len() - i,
    {
        if chunks[i].x == c.x && chunks[i].y == c.y {
            let ghost before = chunks@;
            let ghost cg = c;
            chunks.set(i, c);
            proof {
                assert(chunks@ == before.update(i as int, cg));
                let n = chunk_views(chunks@);
                assert forall|j: int| 0 <= j < n.len() implies n[j] == s.update(i as int, cv)[j] by {
                    if j != i {
                        assert(chunks@[j] == before[j]);
                    }
                }
                assert(n =~= s.update(i as int, cv));
                assert(unique_origins(n)) by {
                    assert forall|a: int, b: int|
                        0 <= a < n.len() && 0 <= b < n.len() && a != b implies (#[trigger] n[a].x, n[a].y)
                        != (#[trigger] n[b].x, n[b].y) by {
                        assert((s[i as int].x, s[i as int].y) == (cv.x, cv.y));
                    }
                }
                lemma_chunk_map(s);
                lemma_chunk_map(n);
                let target = chunk_map(s).insert((c.x, c.y), cv);
                assert forall|k: (i32, i32)| #[trigger] chunk_map(n).contains_key(k)
                    <==> target.contains_key(k) by {
                    if chunk_map(n).contains_key(k) {
                        let j = choose|j: int| 0 <= j < n.len() && (n[j].x, n[j].y) == k;
                        if j != i {
                            assert(n[j] == s[j]);
                        }
                    }
                    if chunk_map(s).contains_key(k) {
                        let j = choose|j: int| 0 <= j < s.len() && (s[j].x, s[j].y) == k;
                        if j != i {
                            assert(n[j] == s[j]);
                        } else {
                            assert(n[i as int] == cv);
                        }
                    }
                    if k == (c.x, c.y) {
                        assert(n[i as int] == cv);
                    }
                }
                assert forall|k: (i32, i32)| #[trigger] chunk_map(n).contains_key(k) implies chunk_map(
                    n,
                )[k] == target[k] by {
                    let j = choose|j: int| 0 <= j < n.len() && (n[j].x, n[j].y) == k;
                    assert(chunk_map(n)[(n[j].x, n[j].y)] == n[j]);
                    assert(n[i as int] == cv);
                    if j != i {
                        assert(n[j] == s[j]);
                        assert((n[j].x, n[j].y) != (n[i as int].x, n[i as int].y));
                        assert(chunk_map(s)[(s[j].x, s[j].y)] == s[j]);
                    }
                }
                assert(chunk_map(n) =~= target);
            }
            return;
        }
        i = i + 1;
    }
    chunks.push(c);
    proof {
        let n = chunk_views(chunks@);
        assert(n =~= s.push(cv));
        assert(n.drop_last() =~= s);
        assert(unique_origins(n)) by {
            assert forall|a: int, b: int|
                0 <= a < n.len() && 0 <= b < n.len() && a != b implies (#[trigger] n[a].x, n[a].y) != (
                #[trigger] n[b].x,
                n[b].y,
            ) by {
                if a < s.len() {
                    assert(n[a] == s[a]);
                }
                if b < s.len() {
                    assert(n[b] == s[b]);
                }
            }
        }
    }
}

/// The chunks of the infinite `data` tag whose children start at `pos`, in
/// the order they come, with the position after `</data>`.
pub open spec fn chunks_scan(
    ev: Seq<Event>,
    pos: int,
    enc: Option<Seq<char>>,
    comp: Option<Seq<char>>,
) -> Result<(Seq<ChunkView>, int), ErrorKind>
    decreases ev.len() - pos,
{
    match child_scan(ev, pos, "data"@) {
        Err(k) => Err(k),
        Ok((None, p)) => Ok((Seq::empty(), p)),
        Ok((Some(i), p)) => if !(pos < p <= ev.len()) {
            Err(ErrorKind::PrematureEnd)
        } else if start_name(ev[i]) == "chunk"@ {
            match chunk_result(ev, p, start_attrs(ev[i]), enc, comp) {
                Err(k) => Err(k),
                Ok((c, q)) => if !(pos < q <= ev.len()) {
                    Err(ErrorKind::PrematureEnd)
                } else {
                    prefixed(seq![c], chunks_scan(ev, q, enc, comp))
                },
            }
        } else {
            chunks_scan(ev, p, enc, comp)
        },
    }
}

} // verus!

verus! {

/// Reads the chunks of an infinite layer's `data` tag with attributes
/// `attrs` up to `</data>`; each chunk is decoded in the tag's encoding and
/// compression with its own width, and a chunk replaces an earlier one of the
/// same origin.
pub fn parse_infinite_data(parser: &mut EventCursor, attrs: Vec<Attribute>, width: u32) -> (r:
    Result<LayerData, TiledError>)
    requires
        old(parser).wf(),
    ensures
        final(parser).events@ == old(parser).events@,
        final(parser).wf(),
        match chunks_scan(
            old(parser).events@,
            old(parser).pos as int,
            last_value(attrs_view(attrs@), "encoding"@),
            last_value(attrs_view(attrs@), "compression"@),
        ) {
            Ok((cs, p)) => r is Ok && r->Ok_0 is Infinite && unique_origins(
                chunk_views(r->Ok_0->Infinite_0@),
            ) && chunk_map(chunk_views(r->Ok_0->Infinite_0@)) == chunk_map(cs) && final(parser).pos
                == p,
            Err(k) => r is Err && r->Err_0.kind() == k,
        },
{
    let names: Vec<&str> = vec!["encoding", "compression"];
    let slots = get_attrs(&attrs, &names);
    let e = copy_opt(&slots[0]);
    let c = copy_opt(&slots[1]);
    let ghost enc = opt_view(e);
    let ghost comp = opt_view(c);
    let ghost ev = parser.events@;
    let ghost start = parser.pos as int;
    let ghost mut parsed: Seq<ChunkView> = Seq::empty();
    let mut chunks: Vec<Chunk> = Vec::new();
    assert(prefixed(parsed, chunks_scan(ev, start, enc, comp)) =~= chunks_scan(ev, start, enc, comp))
        by {
        match chunks_scan(ev, start, enc, comp) {
            Ok((s, p)) => {
                assert(parsed + s =~= s);
            },
            Err(_) => {},
        }
    }
    loop
        invariant
            parser.events@ == ev,
            ev == old(parser).events@,
            start == old(parser).pos,
            parser.wf(),
            enc == opt_view(e),
            comp == opt_view(c),
            enc == last_value(attrs_view(attrs@), "encoding"@),
            comp == last_value(attrs_view(attrs@), "compression"@),
            chunks_scan(ev, start, enc, comp) == prefixed(
                parsed,
                chunks_scan(ev, parser.pos as int, enc, comp),
            ),
            unique_origins(chunk_views(chunks@)),
            chunk_map(chunk_views(chunks@)) == chunk_map(parsed),
        decreases ev.len() - parser.pos,
    {
        let ghost pos = parser.pos as int;
        let child = next_child(parser, "data")?;
        proof {
            lemma_child_scan_advances(ev, pos, "data"@);
        }
        match child {
            None => {
                assert(parsed + Seq::<ChunkView>::empty() =~= parsed);
                return Ok(LayerData::Infinite(chunks));
            },
            Some((name, cattrs)) => {
                if same_text(name.as_str(), "chunk") {
                    let ghost p = parser.pos as int;
                    let chunk = Chunk::new(parser, cattrs, copy_opt(&e), copy_opt(&c))?;
                    proof {
                        lemma_content_scan_advances(ev, p);
                    }
                    let ghost cv = chunk_view(chunk);
                    let ghost before = parsed;
                    insert_chunk(&mut chunks, chunk);
                    proof {
                        parsed = parsed.push(cv);
                        assert(parsed.drop_last() =~= before);
                        match chunks_scan(ev, parser.pos as int, enc, comp) {
                            Ok((s, q)) => {
                                assert(before + (seq![cv] + s) =~= parsed + s);
                            },
                            Err(_) => {},
                        }
                    }
                }
            },
        }
    }
}

/// The index of the first `map` start tag at or after `pos`.
pub open spec fn map_scan(ev: Seq<Event>, pos: int) -> Result<int, ErrorKind>
    decreases ev.len() - pos,
{
    if pos < 0 || pos >= ev.len() {
        Err(ErrorKind::PrematureEnd)
    } else {
        match ev[pos] {
            Event::StartElement { name, .. } => if name@ == "map"@ {
                Ok(pos)
            } else {
                map_scan(ev, pos + 1)
            },
            Event::EndDocument => Err(ErrorKind::PrematureEnd),
            Event::Malformed(_) => Err(ErrorKind::XmlDecoding),
            _ => map_scan(ev, pos + 1),
        }
    }
}

/// Finds the root `map` tag: gives its attributes and leaves the cursor just
/// after it, where the map's contents start.
pub fn parse_impl(parser: &mut EventCursor) -> (r: Result<Vec<Attribute>, TiledError>)
    requires
        old(parser).wf(),
    ensures
        final(parser).events@ == old(parser).events@,
        final(parser).wf(),
        match map_scan(old(parser).events@, old(parser).pos as int) {
            Ok(i) => r is Ok && attrs_view(r->Ok_0@) == start_attrs(old(parser).events@[i])
                && final(parser).pos == i + 1,
            Err(k) => r is Err && r->Err_0.kind() == k,
        },
{
    let ghost ev = parser.events@;
    let ghost start = parser.pos as int;
    let mut found: Option<Result<Vec<Attribute>, TiledError>> = None;
    while parser.pos < parser.events.len()
        invariant_except_break
            map_scan(ev, start) == map_scan(ev, parser.pos as int),
            found is None,
        invariant
            parser.events@ == ev,
            start <= parser.pos <= ev.len(),
        ensures
            parser.events@ == ev,
            start <= parser.pos <= ev.len(),
            found is None ==> map_scan(ev, start) == map_scan(ev, parser.pos as int) && parser.pos
                == ev.len(),
            found is Some ==> match map_scan(ev, start) {
                Ok(i) => found->Some_0 is Ok && attrs_view(found->Some_0->Ok_0@) == start_attrs(
                    ev[i],
                ) && parser.pos == i + 1,
                Err(k) => found->Some_0 is Err && found->Some_0->Err_0.kind() == k,
            },
        decreases ev.len() - parser.pos,
    {
        let i = parser.pos;
        let step = map_step(&parser.events[i]);
        parser.pos = i + 1;
        if step.is_some() {
            found = step;
            break;
        }
    }
    match found {
        Some(r) => r,
        None => Err(TiledError::PrematureEnd(String::from_str("Document ended before map was parsed"))),
    }
}

/// One step of `parse_impl`: `None` to go on past the event.
fn map_step(e: &Event) -> (r: Option<Result<Vec<Attribute>, TiledError>>)
    ensures
        match *e {
            Event::StartElement { name, attributes } => if name@ == "map"@ {
                r is Some && r->Some_0 is Ok && attrs_view(r->Some_0->Ok_0@) == attrs_view(
                    attributes@,
                )
            } else {
                r is None
            },
            Event::EndDocument => r is Some && r->Some_0 is Err && r->Some_0->Err_0.kind()
                == ErrorKind::PrematureEnd,
            Event::Malformed(_) => r is Some && r->Some_0 is Err && r->Some_0->Err_0.kind()
                == ErrorKind::XmlDecoding,
            _ => r is None,
        },
{
    match e {
        Event::StartElement { name, attributes } => {
            if same_text(name.as_str(), "map") {
                Some(Ok(copy_attrs(attributes)))
            } else {
                None
            }
        },
        Event::EndDocument => Some(
            Err(TiledError::PrematureEnd(String::from_str("Document ended before map was parsed"))),
        ),
        Event::Malformed(m) => Some(Err(TiledError::XmlDecodingError(copy_string(m)))),
        _ => None,
    }
}

} // verus!
