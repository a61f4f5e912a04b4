//! Glyph geometry: which pixels a fixed-width 5x7 bitmap glyph lights up.
//!
//! A glyph is five column bytes, the low seven bits of each holding one
//! column of the bitmap.  Columns and rows map to decreasing x and y from
//! the anchor point: the glyph is drawn above-left of its anchor.

use vstd::prelude::*;

verus! {

/// Whether bit `i` of a column byte is set.
pub open spec fn bit_set(bits: u8, i: int) -> bool {
    (bits >> (i as u8)) & 1 == 1
}

/// The lit points of one glyph column anchored at `(x, y)`, rows
/// `0 .. rows` in order: row `i` lies at `(x, y - i)` when bit `i` is set.
pub open spec fn glyph_col_points(bits: u8, x: int, y: int, rows: int) -> Seq<(int, int)>
    decreases rows,
{
    if rows <= 0 {
        Seq::empty()
    } else {
        glyph_col_points(bits, x, y, rows - 1) + (if bit_set(bits, rows - 1) {
            seq![(x, y - (rows - 1))]
        } else {
            Seq::empty()
        })
    }
}

/// The lit points of the first `cols` columns of a glyph anchored at
/// `(x, y)`, in plotting order: column `c` lies at `x - c`, seven rows
/// each.
pub open spec fn glyph_points(g: Seq<u8>, x: int, y: int, cols: int) -> Seq<(int, int)>
    decreases cols,
{
    if cols <= 0 {
        Seq::empty()
    } else {
        glyph_points(g, x, y, cols - 1) + glyph_col_points(g[cols - 1], x - (cols - 1), y, 7)
    }
}

} // verus!
