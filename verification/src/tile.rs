//! Tile references: the packed 32-bit form, and the two ways in which a
//! layer writes its grid of them.

use crate::text::{is_blank, parse_u32, text_is_blank, u32_text};
use vstd::prelude::*;
use vstd::slice::*;

verus! {

pub const FLIPPED_HORIZONTALLY_FLAG: u32 = 0x8000_0000;

pub const FLIPPED_VERTICALLY_FLAG: u32 = 0x4000_0000;

pub const FLIPPED_DIAGONALLY_FLAG: u32 = 0x2000_0000;

pub const ALL_FLIP_FLAGS: u32 = 0xE000_0000;

/// Stores the proper tile gid, along with how it is flipped.
#[derive(Debug, Clone, Copy, PartialEq, Eq, Structural)]
pub struct LayerTile {
    pub gid: u32,
    pub flip_h: bool,
    pub flip_v: bool,
    pub flip_d: bool,
}

impl LayerTile {
    /// The tile that a packed identifier stands for: bit 31 flips it
    /// horizontally, bit 30 vertically, bit 29 along the diagonal, and the
    /// other bits are its gid.
    pub open spec fn of(id: u32) -> LayerTile {
        LayerTile {
            gid: id & !ALL_FLIP_FLAGS,
            flip_h: id & FLIPPED_HORIZONTALLY_FLAG == FLIPPED_HORIZONTALLY_FLAG,
            flip_v: id & FLIPPED_VERTICALLY_FLAG == FLIPPED_VERTICALLY_FLAG,
            flip_d: id & FLIPPED_DIAGONALLY_FLAG == FLIPPED_DIAGONALLY_FLAG,
        }
    }

    /// The packed identifier of a tile.
    pub open spec fn packed(self) -> u32 {
        self.gid | (if self.flip_h {
            FLIPPED_HORIZONTALLY_FLAG
        } else {
            0u32
        }) | (if self.flip_v {
            FLIPPED_VERTICALLY_FLAG
        } else {
            0u32
        }) | (if self.flip_d {
            FLIPPED_DIAGONALLY_FLAG
        } else {
            0u32
        })
    }

    /// Splits a packed identifier into the gid and the three flips.
    pub fn new(id: u32) -> (tile: LayerTile)
        ensures
            tile == LayerTile::of(id),
            tile.gid & ALL_FLIP_FLAGS == 0,
            tile.gid <= 0x1FFF_FFFF,
            tile.packed() == id,
    {
        let flags = id & ALL_FLIP_FLAGS;
        let gid = id & !ALL_FLIP_FLAGS;
        let flip_d = flags & FLIPPED_DIAGONALLY_FLAG == FLIPPED_DIAGONALLY_FLAG;
        let flip_h = flags & FLIPPED_HORIZONTALLY_FLAG == FLIPPED_HORIZONTALLY_FLAG;
        let flip_v = flags & FLIPPED_VERTICALLY_FLAG == FLIPPED_VERTICALLY_FLAG;
        proof {
            lemma_flags(id);
            assert((id & 0xE000_0000u32) & 0x2000_0000u32 == id & 0x2000_0000u32) by (bit_vector);
            assert((id & 0xE000_0000u32) & 0x4000_0000u32 == id & 0x4000_0000u32) by (bit_vector);
            assert((id & 0xE000_0000u32) & 0x8000_0000u32 == id & 0x8000_0000u32) by (bit_vector);
        }
        LayerTile { gid, flip_h, flip_v, flip_d }
    }
}

/// The gid of a tile holds none of the three flip bits, and the gid together
/// with the three flags, each put back at its bit, is the packed identifier
/// again.
pub proof fn lemma_flags(id: u32)
    ensures
        LayerTile::of(id).gid & ALL_FLIP_FLAGS == 0,
        LayerTile::of(id).gid <= 0x1FFF_FFFF,
        LayerTile::of(id).packed() == id,
{
    let h = if id & 0x8000_0000u32 == 0x8000_0000u32 {
        0x8000_0000u32
    } else {
        0u32
    };
    let v = if id & 0x4000_0000u32 == 0x4000_0000u32 {
        0x4000_0000u32
    } else {
        0u32
    };
    let d = if id & 0x2000_0000u32 == 0x2000_0000u32 {
        0x2000_0000u32
    } else {
        0u32
    };
    assert((id & !0xE000_0000u32) & 0xE000_0000u32 == 0) by (bit_vector);
    assert((id & !0xE000_0000u32) <= 0x1FFF_FFFFu32) by (bit_vector);
    assert(((id & !0xE000_0000u32) | h | v | d) == id) by (bit_vector)
        requires
            h == (if id & 0x8000_0000u32 == 0x8000_0000u32 {
                0x8000_0000u32
            } else {
                0u32
            }),
            v == (if id & 0x4000_0000u32 == 0x4000_0000u32 {
                0x4000_0000u32
            } else {
                0u32
            }),
            d == (if id & 0x2000_0000u32 == 0x2000_0000u32 {
                0x2000_0000u32
            } else {
                0u32
            }),
    ;
}

/// A grid as its rows.
pub open spec fn rows_of(grid: Seq<Vec<LayerTile>>) -> Seq<Seq<LayerTile>> {
    Seq::new(grid.len(), |r: int| grid[r]@)
}

/// A grid with the same rows.
pub fn copy_grid(grid: &Vec<Vec<LayerTile>>) -> (copy: Vec<Vec<LayerTile>>)
    ensures
        rows_of(copy@) == rows_of(grid@),
{
    let mut copy: Vec<Vec<LayerTile>> = Vec::new();
    let mut r: usize = 0;
    while r < grid.len()
        invariant
            r <= grid@.len(),
            copy@.len() == r,
            forall|i: int| 0 <= i < r ==> (#[trigger] copy@[i])@ == grid@[i]@,
        decreases grid.len() - r,
    {
        let row = &grid[r];
        let mut cells: Vec<LayerTile> = Vec::new();
        let mut c: usize = 0;
        while c < row.len()
            invariant
                c <= row@.len(),
                cells@.len() == c,
                forall|j: int| 0 <= j < c ==> cells@[j] == row@[j],
            decreases row.len() - c,
        {
            cells.push(row[c]);
            c += 1;
        }
        assert(cells@ =~= row@);
        copy.push(cells);
        r += 1;
    }
    assert(rows_of(copy@) =~= rows_of(grid@));
    copy
}

/// The 32-bit number that four bytes write, least significant byte first.
pub open spec fn word_at(bytes: Seq<u8>, at: int) -> u32 {
    (bytes[at] + bytes[at + 1] * 0x100 + bytes[at + 2] * 0x1_0000 + bytes[at + 3] * 0x100_0000) as u32
}

/// The number of full rows of `width` tiles that `len` bytes hold.
pub open spec fn full_rows(len: nat, width: nat) -> nat {
    if width == 0 {
        0
    } else {
        len / (4 * width)
    }
}

/// The grid that a buffer of packed identifiers holds: rows of exactly
/// `width` tiles, four bytes to a tile. Bytes behind the last full row are
/// left out, and with a width of 0 there is no row.
pub open spec fn tile_grid(bytes: Seq<u8>, width: nat) -> Seq<Seq<LayerTile>> {
    Seq::new(
        full_rows(bytes.len(), width),
        |r: int| Seq::new(width, |c: int| LayerTile::of(word_at(bytes, 4 * (r * width + c)))),
    )
}

/// No tile of a grid that was read from bytes has a flip bit in its gid.
pub proof fn lemma_grid_gids(bytes: Seq<u8>, width: nat)
    ensures
        forall|r: int, c: int|
            0 <= r < tile_grid(bytes, width).len() && 0 <= c < tile_grid(bytes, width)[r].len()
                ==> (#[trigger] tile_grid(bytes, width)[r][c]).gid & ALL_FLIP_FLAGS == 0,
{
    assert forall|r: int, c: int|
        0 <= r < tile_grid(bytes, width).len() && 0 <= c < tile_grid(
            bytes,
            width,
        )[r].len() implies (#[trigger] tile_grid(bytes, width)[r][c]).gid & ALL_FLIP_FLAGS == 0 by {
        lemma_flags(word_at(bytes, 4 * (r * width + c)));
    }
}

proof fn lemma_cell_in_bounds(len: nat, width: nat, r: int, c: int)
    requires
        0 <= r < full_rows(len, width),
        0 <= c < width,
    ensures
        0 <= 4 * (r * width + c),
        4 * (r * width + c) + 4 <= len,
        4 * (r * width + c) == r * (4 * width) + 4 * c,
{
    let row = 4 * width;
    let rows = len / (row as nat);
    assert(rows * row <= len) by (nonlinear_arith)
        requires
            row > 0,
            rows == len / (row as nat),
    ;
    assert((r + 1) * row <= rows * row) by (nonlinear_arith)
        requires
            r + 1 <= rows,
            row > 0,
    ;
    assert((r + 1) * row == r * row + row) by (nonlinear_arith);
    assert(r * row == 4 * (r * width)) by (nonlinear_arith)
        requires
            row == 4 * width,
    ;
    assert(r * width >= 0) by (nonlinear_arith)
        requires
            r >= 0,
            width >= 0,
    ;
}

/// Reads a buffer of packed identifiers into a grid `width` tiles wide.
pub fn convert_to_tile(all: &Vec<u8>, width: u32) -> (grid: Vec<Vec<LayerTile>>)
    ensures
        rows_of(grid@) == tile_grid(all@, width as nat),
{
    let mut grid: Vec<Vec<LayerTile>> = Vec::new();
    if width == 0 {
        assert(rows_of(grid@) =~~= tile_grid(all@, 0));
        return grid;
    }
    let row_bytes: u64 = 4 * (width as u64);
    let rows: u64 = (all.len() as u64) / row_bytes;
    let mut start: usize = 0;
    let mut r: u64 = 0;
    while r < rows
        invariant
            width > 0,
            row_bytes == 4 * width,
            rows == full_rows(all@.len(), width as nat),
            r <= rows,
            start == r * row_bytes,
            grid.len() == r,
            forall|i: int|
                0 <= i < r ==> (#[trigger] grid@[i])@ == tile_grid(all@, width as nat)[i],
        decreases rows - r,
    {
        let mut row: Vec<LayerTile> = Vec::new();
        let mut c: u32 = 0;
        while c < width
            invariant
                width > 0,
                row_bytes == 4 * width,
                rows == full_rows(all@.len(), width as nat),
                r < rows,
                c <= width,
                start == r * row_bytes + 4 * c,
                row.len() == c,
                forall|j: int|
                    0 <= j < c ==> #[trigger] row@[j] == LayerTile::of(
                        word_at(all@, 4 * (r * width + j)),
                    ),
            decreases width - c,
        {
            proof {
                lemma_cell_in_bounds(all@.len(), width as nat, r as int, c as int);
                assert(r * row_bytes == r * (4 * width)) by (nonlinear_arith)
                    requires
                        row_bytes == 4 * width,
                ;
                assert(start + 4 <= all.len());
            }
            let n: u32 = (all[start + 3] as u32) * 0x100_0000 + (all[start + 2] as u32) * 0x1_0000
                + (all[start + 1] as u32) * 0x100 + (all[start] as u32);
            row.push(LayerTile::new(n));
            start += 4;
            c += 1;
        }
        assert(row@ =~= tile_grid(all@, width as nat)[r as int]);
        grid.push(row);
        r += 1;
        assert(start == r * row_bytes) by (nonlinear_arith)
            requires
                start == (r - 1) * row_bytes + 4 * width,
                row_bytes == 4 * width,
        ;
    }
    assert(rows_of(grid@) =~~= tile_grid(all@, width as nat));
    grid
}

/// The characters that part the numbers of a list.
pub open spec fn is_separator(c: char) -> bool {
    c == '\n' || c == '\r' || c == ','
}

/// Where the field that starts at `from` ends: at the next separator, or at
/// the end of the text.
pub open spec fn field_end(s: Seq<char>, from: int) -> int
    decreases s.len() - from,
{
    if 0 <= from && from < s.len() && !is_separator(s[from]) {
        field_end(s, from + 1)
    } else {
        from
    }
}

/// A field ends at or behind the place where it starts, inside the text.
pub proof fn lemma_field_end(s: Seq<char>, from: int)
    requires
        0 <= from <= s.len(),
    ensures
        from <= field_end(s, from) <= s.len(),
    decreases s.len() - from,
{
    if from < s.len() && !is_separator(s[from]) {
        lemma_field_end(s, from + 1);
    }
}

/// One more number in front of those that follow; nothing where either is
/// missing.
pub open spec fn and_then_values(first: Option<u32>, rest: Option<Seq<u32>>) -> Option<Seq<u32>> {
    match (first, rest) {
        (Some(v), Some(r)) => Some(seq![v] + r),
        _ => None,
    }
}

/// The numbers of a list, read from `from` on. The list is split at every
/// line feed, carriage return and comma; blank fields count for nothing, and
/// every other field has to be an unsigned number that fits 32 bits.
pub open spec fn csv_values(s: Seq<char>, from: int) -> Option<Seq<u32>>
    decreases s.len() - from,
{
    if from < 0 || from > s.len() {
        Some(Seq::empty())
    } else {
        let end = field_end(s, from);
        let field = s.subrange(from, end);
        let rest = if end < s.len() {
            proof {
                lemma_field_end(s, from);
            }
            csv_values(s, end + 1)
        } else {
            Some(Seq::empty())
        };
        if is_blank(field) {
            rest
        } else {
            and_then_values(u32_text(field), rest)
        }
    }
}

/// The number of rows that `count` tiles fill, the last of them perhaps in
/// part.
pub open spec fn rows_needed(count: nat, width: nat) -> nat {
    if width == 0 {
        0
    } else {
        (count + width - 1) as nat / width
    }
}

/// The tiles of a list in rows of `width`; what is left over makes a last,
/// shorter row. With a width of 0 there is no row.
pub open spec fn csv_grid(values: Seq<u32>, width: nat) -> Seq<Seq<LayerTile>> {
    Seq::new(
        rows_needed(values.len(), width),
        |r: int|
            Seq::new(
                if (r + 1) * width <= values.len() {
                    width
                } else {
                    (values.len() - r * width) as nat
                },
                |c: int| LayerTile::of(values[r * width + c]),
            ),
    )
}

/// No tile of a grid that was read from a list has a flip bit in its gid.
pub proof fn lemma_csv_gids(values: Seq<u32>, width: nat)
    ensures
        forall|r: int, c: int|
            0 <= r < csv_grid(values, width).len() && 0 <= c < csv_grid(values, width)[r].len()
                ==> (#[trigger] csv_grid(values, width)[r][c]).gid & ALL_FLIP_FLAGS == 0,
{
    assert forall|r: int, c: int|
        0 <= r < csv_grid(values, width).len() && 0 <= c < csv_grid(
            values,
            width,
        )[r].len() implies (#[trigger] csv_grid(values, width)[r][c]).gid & ALL_FLIP_FLAGS == 0 by {
        lemma_flags(values[r * width + c]);
    }
}

/// Reads the numbers of a list.
pub fn csv_numbers(text: &[char]) -> (values: Option<Vec<u32>>)
    ensures
        match values {
            Some(v) => csv_values(text@, 0) == Some(v@),
            None => csv_values(text@, 0) is None,
        },
{
    let mut values: Vec<u32> = Vec::new();
    let mut from: usize = 0;
    loop
        invariant
            from <= text.len(),
            match csv_values(text@, from as int) {
                Some(rest) => csv_values(text@, 0) == Some(values@ + rest),
                None => csv_values(text@, 0) is None,
            },
        decreases text.len() - from,
    {
        let mut end: usize = from;
        while end < text.len() && !(text[end] == '\n' || text[end] == '\r' || text[end] == ',')
            invariant
                from <= end <= text.len(),
                field_end(text@, from as int) == field_end(text@, end as int),
            decreases text.len() - end,
        {
            end += 1;
        }
        let field = slice_subrange(text, from, end);
        let ghost rest = if end < text.len() {
            csv_values(text@, end + 1)
        } else {
            Some(Seq::<u32>::empty())
        };
        if !text_is_blank(field) {
            match parse_u32(field) {
                Some(v) => {
                    proof {
                        if rest is Some {
                            assert(values@.push(v) + rest.unwrap() =~= values@ + (seq![v]
                                + rest.unwrap()));
                        }
                    }
                    values.push(v);
                },
                None => {
                    return None;
                },
            }
        }
        if end >= text.len() {
            assert(values@ + Seq::<u32>::empty() =~= values@);
            return Some(values);
        }
        from = end + 1;
    }
}

proof fn lemma_rows_step(r: nat, c: nat, width: nat)
    requires
        width > 0,
        c < width,
    ensures
        rows_needed(r * width + c, width) == (if c == 0 {
            r
        } else {
            r + 1
        }),
        r * width >= 0,
        (r + 1) * width == r * width + width,
{
    assert((r + 1) * width == r * width + width) by (nonlinear_arith);
    assert(r * width >= 0) by (nonlinear_arith)
        requires
            r >= 0,
            width >= 0,
    ;
    if c == 0 {
        assert((r * width + width - 1) / (width as int) == r) by (nonlinear_arith)
            requires
                width > 0,
                r >= 0,
        ;
    } else {
        assert((r * width + c + width - 1) / (width as int) == r + 1) by (nonlinear_arith)
            requires
                width > 0,
                0 < c < width,
                r >= 0,
        ;
    }
}

/// Puts the tiles of a list into rows `width` wide.
pub fn csv_rows(values: &Vec<u32>, width: u32) -> (grid: Vec<Vec<LayerTile>>)
    ensures
        rows_of(grid@) == csv_grid(values@, width as nat),
{
    let mut grid: Vec<Vec<LayerTile>> = Vec::new();
    if width == 0 {
        assert(rows_of(grid@) =~~= csv_grid(values@, 0));
        return grid;
    }
    let ghost w = width as nat;
    let mut row: Vec<LayerTile> = Vec::new();
    let mut i: usize = 0;
    assert(grid.len() * w == 0) by (nonlinear_arith)
        requires
            grid.len() == 0,
    ;
    while i < values.len()
        invariant
            width > 0,
            w == width,
            i <= values.len(),
            row.len() < width,
            i == grid.len() * w + row.len(),
            forall|r: int|
                0 <= r < grid.len() ==> (#[trigger] grid@[r])@ == csv_grid(values@, w)[r],
            forall|c: int|
                0 <= c < row.len() ==> #[trigger] row@[c] == LayerTile::of(
                    values@[grid.len() * w + c],
                ),
        decreases values.len() - i,
    {
        row.push(LayerTile::new(values[i]));
        i += 1;
        if row.len() == width as usize {
            proof {
                let r = grid.len() as int;
                lemma_rows_step((r + 1) as nat, 0, w);
                lemma_rows_step(r as nat, 0, w);
                assert((r + 1) * w <= values.len());
                lemma_rows_step(values@.len() as nat / w, values@.len() as nat % w, w);
                assert(values@.len() == (values@.len() as nat / w) * w + values@.len() as nat % w)
                    by (nonlinear_arith)
                    requires
                        w > 0,
                ;
                assert(r < rows_needed(values@.len(), w)) by (nonlinear_arith)
                    requires
                        (r + 1) * w <= values@.len(),
                        w > 0,
                        r >= 0,
                        rows_needed(values@.len(), w) == (values@.len() + w - 1) / (w as int),
                ;
                assert(row@ =~= csv_grid(values@, w)[r]);
            }
            let ghost done = grid@;
            grid.push(row);
            row = Vec::new();
            proof {
                let r = done.len() as int;
                assert(i == grid.len() * w) by (nonlinear_arith)
                    requires
                        i == r * w + w,
                        grid.len() == r + 1,
                ;
            }
        }
    }
    let ghost full = grid.len() as nat;
    let ghost part = row.len() as nat;
    proof {
        lemma_rows_step(full, part, w);
    }
    if row.len() > 0 {
        proof {
            assert((full + 1) * w > values@.len()) by (nonlinear_arith)
                requires
                    values@.len() == full * w + part,
                    part < w,
            ;
            assert(row@ =~= csv_grid(values@, w)[full as int]);
        }
        grid.push(row);
    }
    assert(rows_of(grid@) =~~= csv_grid(values@, w));
    grid
}

} // verus!
