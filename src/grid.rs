//! Grids of tile references: rows cut from a flat run of tiles, and tiles
//! read as little-endian 32-bit records from a byte buffer.

use vstd::prelude::*;
use crate::types::{LayerTile, grid_view};

verus! {

/// The little-endian 32-bit value of the bytes `b[i..i + 4]`.
pub open spec fn le_u32(b: Seq<u8>, i: int) -> int {
    b[i] + 256 * b[i + 1] + 65536 * b[i + 2] + 16777216 * b[i + 3]
}

/// The whole 4-byte records of `c`, in order; a trailing remainder of fewer
/// than four bytes gives no tile.
pub open spec fn row_of(c: Seq<u8>) -> Seq<u32> {
    Seq::new(c.len() / 4, |k: int| le_u32(c, 4 * k) as u32)
}

/// The grid read from `b` with `w` tiles a row: consecutive groups of
/// `4 * w` bytes, one a row, the last group possibly shorter.
pub open spec fn assemble_spec(b: Seq<u8>, w: nat) -> Seq<Seq<u32>>
    decreases b.len(),
{
    if w == 0 || b.len() == 0 {
        Seq::empty()
    } else if b.len() >= 4 * w {
        seq![row_of(b.take(4 * w as int))] + assemble_spec(b.skip(4 * w as int), w)
    } else {
        seq![row_of(b)]
    }
}

/// The tiles `t` cut into rows of `w`, the last row possibly shorter.
pub open spec fn group_rows(t: Seq<u32>, w: nat) -> Seq<Seq<u32>>
    decreases t.len(),
{
    if w == 0 || t.len() == 0 {
        Seq::empty()
    } else if t.len() >= w {
        seq![t.take(w as int)] + group_rows(t.skip(w as int), w)
    } else {
        seq![t]
    }
}

/// Reads `all` as rows of `width` little-endian tile records.
pub fn convert_to_tile(all: &Vec<u8>, width: u32) -> (r: Vec<Vec<LayerTile>>)
    requires
        width > 0,
    ensures
        grid_view(r@) == assemble_spec(all@, width as nat),
{
    let n = all.len();
    let ghost w = width as nat;
    let mut data: Vec<Vec<LayerTile>> = Vec::new();
    let mut pos: usize = 0;
    assert(all@.skip(0) =~= all@);
    assert(grid_view(data@) + assemble_spec(all@, w) =~= assemble_spec(all@, w));
    while pos < n
        invariant
            n == all.len(),
            pos <= n,
            w == width,
            width > 0,
            grid_view(data@) + assemble_spec(all@.skip(pos as int), w) == assemble_spec(all@, w),
        decreases n - pos,
    {
        let ghost rest = all@.skip(pos as int);
        let mut row: Vec<LayerTile> = Vec::new();
        let mut k: u32 = 0;
        let mut p: usize = pos;
        while k < width && n - p >= 4
            invariant
                n == all.len(),
                pos < n,
                p <= n,
                k <= width,
                p == pos + 4 * k,
                row.len() == k,
                forall|m: int| 0 <= m < k ==> (#[trigger] row@[m]).gid == le_u32(all@, pos + 4 * m),
            decreases width - k,
        {
            let v = (all[p] as u32) + (all[p + 1] as u32) * 256 + (all[p + 2] as u32) * 65536
                + (all[p + 3] as u32) * 16777216;
            row.push(LayerTile::new(v));
            p = p + 4;
            k = k + 1;
        }
        let ghost c = if k == width {
            rest.take(4 * w as int)
        } else {
            rest
        };
        assert(c.len() / 4 == k) by {
            if k < width {
                assert(n - p < 4);
            }
        }
        assert(row@.map_values(|t: LayerTile| t.gid) =~= row_of(c)) by {
            assert forall|m: int| 0 <= m < k implies #[trigger] row_of(c)[m] == row@[m].gid by {
                assert(c[4 * m] == all@[pos + 4 * m]);
                assert(c[4 * m + 1] == all@[pos + 4 * m + 1]);
                assert(c[4 * m + 2] == all@[pos + 4 * m + 2]);
                assert(c[4 * m + 3] == all@[pos + 4 * m + 3]);
            }
        }
        let ghost old_data = data@;
        data.push(row);
        assert(grid_view(data@) =~= grid_view(old_data).push(row_of(c)));
        if k == width {
            assert(all@.skip(p as int) =~= rest.skip(4 * w as int));
            pos = p;
        } else {
            assert(all@.skip(n as int) =~= Seq::<u8>::empty());
            pos = n;
        }
        assert(grid_view(data@) + assemble_spec(all@.skip(pos as int), w) =~= grid_view(old_data)
            + assemble_spec(rest, w));
    }
    assert(all@.skip(pos as int) =~= Seq::<u8>::empty());
    assert(grid_view(data@) + Seq::<Seq<u32>>::empty() =~= grid_view(data@));
    data
}

} // verus!

verus! {

/// The four little-endian bytes of `x`.
pub open spec fn tile_bytes(x: u32) -> Seq<u8> {
    seq![
        (x % 256) as u8,
        ((x / 256) % 256) as u8,
        ((x / 65536) % 256) as u8,
        (x / 16777216) as u8,
    ]
}

/// The tiles `t` written as consecutive little-endian records.
pub open spec fn pack_tiles(t: Seq<u32>) -> Seq<u8>
    decreases t.len(),
{
    if t.len() == 0 {
        Seq::empty()
    } else {
        pack_tiles(t.drop_last()) + tile_bytes(t.last())
    }
}

proof fn lemma_tile_bytes(x: u32)
    ensures
        le_u32(tile_bytes(x), 0) == x,
{
    let b = tile_bytes(x);
    let a0 = x % 256;
    let q1 = x / 256;
    let a1 = q1 % 256;
    let q2 = q1 / 256;
    let a2 = q2 % 256;
    let q3 = q2 / 256;
    assert(x / 65536 == q2);
    assert(x / 16777216 == q3);
    assert(x == 256 * q1 + a0);
    assert(q1 == 256 * q2 + a1);
    assert(q2 == 256 * q3 + a2);
    assert(b[0] == a0 && b[1] == a1 && b[2] == a2 && b[3] == q3);
}

proof fn lemma_pack_index(t: Seq<u32>)
    ensures
        pack_tiles(t).len() == 4 * t.len(),
        forall|k: int, j: int|
            0 <= k < t.len() && 0 <= j < 4 ==> #[trigger] pack_tiles(t)[4 * k + j] == tile_bytes(
                t[k],
            )[j],
    decreases t.len(),
{
    if t.len() > 0 {
        let s = t.drop_last();
        lemma_pack_index(s);
        assert forall|k: int, j: int| 0 <= k < t.len() && 0 <= j < 4 implies #[trigger] pack_tiles(
            t,
        )[4 * k + j] == tile_bytes(t[k])[j] by {
            if k < s.len() {
                assert(pack_tiles(s)[4 * k + j] == tile_bytes(s[k])[j]);
            }
        }
    }
}

/// Reading whole records back gives the tiles that were packed.
proof fn lemma_row_of_pack(t: Seq<u32>)
    ensures
        row_of(pack_tiles(t)) == t,
{
    lemma_pack_index(t);
    let p = pack_tiles(t);
    assert forall|k: int| 0 <= k < t.len() implies #[trigger] row_of(p)[k] == t[k] by {
        lemma_tile_bytes(t[k]);
        assert(p[4 * k + 0] == tile_bytes(t[k])[0]);
        assert(p[4 * k + 1] == tile_bytes(t[k])[1]);
        assert(p[4 * k + 2] == tile_bytes(t[k])[2]);
        assert(p[4 * k + 3] == tile_bytes(t[k])[3]);
    }
    assert(row_of(p) =~= t);
}

proof fn lemma_pack_split(t: Seq<u32>, m: int)
    requires
        0 <= m <= t.len(),
    ensures
        pack_tiles(t).take(4 * m) == pack_tiles(t.take(m)),
        pack_tiles(t).skip(4 * m) == pack_tiles(t.skip(m)),
{
    lemma_pack_index(t);
    lemma_pack_index(t.take(m));
    lemma_pack_index(t.skip(m));
    let p = pack_tiles(t);
    let a = pack_tiles(t.take(m));
    let b = pack_tiles(t.skip(m));
    assert forall|i: int| 0 <= i < 4 * m implies #[trigger] p.take(4 * m)[i] == a[i] by {
        let k = i / 4;
        let j = i % 4;
        assert(i == 4 * k + j);
        assert(p[4 * k + j] == tile_bytes(t[k])[j]);
        assert(a[4 * k + j] == tile_bytes(t.take(m)[k])[j]);
    }
    assert(p.take(4 * m) =~= a);
    assert forall|i: int| 0 <= i < b.len() implies #[trigger] p.skip(4 * m)[i] == b[i] by {
        let k = i / 4;
        let j = i % 4;
        assert(i == 4 * k + j);
        assert(4 * m + i == 4 * (m + k) + j);
        assert(p[4 * (m + k) + j] == tile_bytes(t[m + k])[j]);
        assert(b[4 * k + j] == tile_bytes(t.skip(m)[k])[j]);
    }
    assert(p.skip(4 * m) =~= b);
}

/// Assembling packed tiles cuts them into rows exactly as grouping the tiles
/// themselves does.
pub proof fn lemma_assemble_packed(t: Seq<u32>, w: nat)
    ensures
        assemble_spec(pack_tiles(t), w) == group_rows(t, w),
    decreases t.len(),
{
    lemma_pack_index(t);
    if w > 0 && t.len() > 0 {
        if t.len() >= w {
            lemma_pack_split(t, w as int);
            lemma_row_of_pack(t.take(w as int));
            lemma_assemble_packed(t.skip(w as int), w);
        } else {
            lemma_row_of_pack(t);
        }
    }
}

/// Grouping the tiles of a grid whose rows all hold `w` tiles gives the grid.
pub proof fn lemma_group_flatten(g: Seq<Seq<u32>>, w: nat)
    requires
        w > 0,
        forall|i: int| 0 <= i < g.len() ==> (#[trigger] g[i]).len() == w,
    ensures
        group_rows(g.flatten(), w) == g,
    decreases g.len(),
{
    if g.len() > 0 {
        let rest = g.drop_first();
        assert forall|i: int| 0 <= i < rest.len() implies (#[trigger] rest[i]).len() == w by {
            assert(rest[i] == g[i + 1]);
        }
        lemma_group_flatten(rest, w);
        let f = g.flatten();
        assert(f == g[0] + rest.flatten());
        assert(f.take(w as int) =~= g[0]);
        assert(f.skip(w as int) =~= rest.flatten());
        assert(seq![g[0]] + rest =~= g);
    }
}

} // verus!
