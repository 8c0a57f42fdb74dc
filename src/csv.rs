//! Tile data written as decimal identifiers separated by commas and line
//! breaks.

use vstd::prelude::*;
use crate::grid::group_rows;
use crate::text::{blank_in, chars_of, is_blank, parse_u32_in, parse_u32_spec};
use crate::types::{LayerTile, TiledError, ErrorKind, grid_view};

verus! {

pub open spec fn is_sep(c: char) -> bool {
    c == '\n' || c == '\r' || c == ','
}

/// The pieces of `s` between separators, as `str::split` yields them: one
/// more than there are separators, empty ones included.
pub open spec fn split_pieces(s: Seq<char>) -> Seq<Seq<char>>
    decreases s.len(),
{
    if s.len() == 0 {
        seq![Seq::empty()]
    } else {
        let p = split_pieces(s.drop_last());
        if is_sep(s.last()) {
            p.push(Seq::empty())
        } else {
            p.update(p.len() - 1, p.last().push(s.last()))
        }
    }
}

/// The tile values of the pieces: blank pieces are skipped, every other one
/// must be a `u32` decimal, else there are none.
pub open spec fn piece_values(ps: Seq<Seq<char>>) -> Option<Seq<u32>>
    decreases ps.len(),
{
    if ps.len() == 0 {
        Some(Seq::empty())
    } else {
        match piece_values(ps.drop_last()) {
            None => None,
            Some(v) => if is_blank(ps.last()) {
                Some(v)
            } else {
                match parse_u32_spec(ps.last()) {
                    Some(n) => Some(v.push(n)),
                    None => None,
                }
            },
        }
    }
}

/// The tile values that the text `s` lists, if each entry is a valid one.
pub open spec fn csv_values(s: Seq<char>) -> Option<Seq<u32>> {
    piece_values(split_pieces(s))
}

/// The tile values listed in `text`, in order.
pub fn csv_tile_values(text: &str) -> (r: Option<Vec<u32>>)
    ensures
        match csv_values(text@) {
            Some(t) => r is Some && r->Some_0@ == t,
            None => r is None,
        },
{
    let cs = chars_of(text);
    let n = cs.len();
    let mut vals: Vec<u32> = Vec::new();
    let mut ok = true;
    let mut start: usize = 0;
    let mut i: usize = 0;
    let ghost mut done: Seq<Seq<char>> = Seq::empty();
    assert(cs@.take(0) =~= Seq::<char>::empty());
    assert(split_pieces(Seq::<char>::empty()) =~= done.push(cs@.subrange(0, 0)));
    while i < n
        invariant
            cs@ == text@,
            n == cs.len(),
            start <= i <= n,
            split_pieces(cs@.take(i as int)) == done.push(cs@.subrange(start as int, i as int)),
            ok ==> piece_values(done) == Some(vals@),
            !ok ==> piece_values(done) is None,
        decreases n - i,
    {
        let c = cs[i];
        let ghost cur = cs@.subrange(start as int, i as int);
        let ghost before = cs@.take(i as int);
        assert(cs@.take(i + 1).drop_last() =~= before);
        if c == '\n' || c == '\r' || c == ',' {
            if ok && !blank_in(&cs, start, i) {
                match parse_u32_in(&cs, start, i) {
                    Some(v) => {
                        vals.push(v);
                    },
                    None => {
                        ok = false;
                    },
                }
            }
            proof {
                assert(done.push(cur).drop_last() =~= done);
                done = done.push(cur);
            }
            start = i + 1;
            assert(cs@.subrange(start as int, start as int) =~= Seq::<char>::empty());
        } else {
            assert(cs@.subrange(start as int, i + 1) =~= cur.push(c));
            assert(done.push(cur).update(done.len() as int, cur.push(c)) =~= done.push(
                cur.push(c),
            ));
        }
        i = i + 1;
    }
    let ghost cur = cs@.subrange(start as int, n as int);
    assert(cs@.take(n as int) =~= cs@);
    assert(done.push(cur).drop_last() =~= done);
    if ok && !blank_in(&cs, start, n) {
        match parse_u32_in(&cs, start, n) {
            Some(v) => {
                vals.push(v);
            },
            None => {
                ok = false;
            },
        }
    }
    if ok {
        Some(vals)
    } else {
        None
    }
}

/// Cuts the tiles `t` into rows of `width`, the last row possibly shorter.
pub fn tiles_to_rows(t: &Vec<u32>, width: u32) -> (r: Vec<Vec<LayerTile>>)
    requires
        width > 0,
    ensures
        grid_view(r@) == group_rows(t@, width as nat),
{
    let n = t.len();
    let ghost w = width as nat;
    let mut rows: Vec<Vec<LayerTile>> = Vec::new();
    let mut i: usize = 0;
    assert(t@.skip(0) =~= t@);
    assert(grid_view(rows@) + group_rows(t@, w) =~= group_rows(t@, w));
    while i < n
        invariant
            n == t.len(),
            i <= n,
            w == width,
            width > 0,
            grid_view(rows@) + group_rows(t@.skip(i as int), w) == group_rows(t@, w),
        decreases n - i,
    {
        let ghost rest = t@.skip(i as int);
        let ghost i0 = i as int;
        let mut row: Vec<LayerTile> = Vec::new();
        let mut k: u32 = 0;
        while k < width && i < n
            invariant
                n == t.len(),
                i <= n,
                k <= width,
                i == i0 + k,
                0 <= i0 <= n,
                rest == t@.skip(i0),
                row.len() == k,
                forall|m: int| 0 <= m < k ==> (#[trigger] row@[m]).gid == rest[m],
            decreases width - k,
        {
            assert(rest[k as int] == t@[i as int]);
            row.push(LayerTile::new(t[i]));
            i = i + 1;
            k = k + 1;
        }
        let ghost c = if k == width {
            rest.take(w as int)
        } else {
            rest
        };
        assert(row@.map_values(|x: LayerTile| x.gid) =~= c);
        let ghost old_rows = rows@;
        rows.push(row);
        assert(grid_view(rows@) =~= grid_view(old_rows).push(c));
        if k == width {
            assert(t@.skip(i as int) =~= rest.skip(w as int));
        } else {
            assert(t@.skip(i as int) =~= Seq::<u32>::empty());
        }
        assert(grid_view(rows@) + group_rows(t@.skip(i as int), w) =~= grid_view(old_rows)
            + group_rows(rest, w));
    }
    assert(t@.skip(i as int) =~= Seq::<u32>::empty());
    assert(grid_view(rows@) + Seq::<Seq<u32>>::empty() =~= grid_view(rows@));
    rows
}

/// The grid that the comma-separated text lists, `width` tiles a row.
pub open spec fn csv_grid(s: Seq<char>, width: nat) -> Option<Seq<Seq<u32>>> {
    match csv_values(s) {
        Some(t) => Some(group_rows(t, width)),
        None => None,
    }
}

/// Decodes comma-separated tile data into rows of `width` tiles; an entry
/// that is not a `u32` decimal fails as unrecognized.
pub fn decode_csv_text(text: &str, width: u32) -> (r: Result<Vec<Vec<LayerTile>>, TiledError>)
    requires
        width > 0,
    ensures
        match csv_grid(text@, width as nat) {
            Some(g) => r is Ok && grid_view(r->Ok_0@) == g,
            None => r is Err && r->Err_0.kind() == ErrorKind::Unrecognized,
        },
{
    match csv_tile_values(text) {
        Some(t) => Ok(tiles_to_rows(&t, width)),
        None => Err(TiledError::Other(String::from_str("Invalid tile identifier in CSV data"))),
    }
}

} // verus!
