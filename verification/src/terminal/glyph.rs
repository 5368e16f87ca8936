//! How many columns a character takes on screen.

use vstd::prelude::*;

verus! {

/// Pixels of one character column.
pub const DEFAULT_CHAR_WIDTH: u32 = 8;

/// Pixels of one character row.
pub const DEFAULT_CHAR_HEIGHT: u32 = 16;

/// The width in pixels of the glyph that Unifont has for `c`, if it has one.
pub uninterp spec fn glyph_width(c: char) -> Option<usize>;

/// `unifont::get_glyph` followed by `Glyph::get_width`.
///
/// Claimed: the answer depends on the character alone, and a glyph is 8 or 16
/// pixels wide (the only two kinds of glyph that the font holds). Which
/// characters have a glyph is left to the font.
#[verifier::external_body]
fn unifont_width(c: char) -> (r: Option<usize>)
    ensures
        r == glyph_width(c),
        r matches Some(width) ==> width == 8 || width == 16,
{
    match unifont::get_glyph(c) {
        Some(glyph) => Some(glyph.get_width()),
        None => None,
    }
}

/// The columns that a glyph of this width covers; no glyph covers none.
pub open spec fn columns_of(width: Option<usize>) -> int {
    match width {
        Some(w) => (w + 7) / 8,
        None => 0,
    }
}

/// The columns that a glyph of this width covers: its pixels divided by the
/// column width, rounded up.
pub fn columns_of_width(width: Option<usize>) -> (r: u16)
    requires
        width matches Some(w) ==> w <= 8 * 65535,
    ensures
        r == columns_of(width),
{
    match width {
        Some(w) => {
            let pixels: u32 = w as u32;
            if pixels == 0 {
                return 0;
            }
            let extra: u32 = if pixels % DEFAULT_CHAR_WIDTH == 0 { 0 } else { 1 };
            (pixels / DEFAULT_CHAR_WIDTH + extra) as u16
        },
        None => 0,
    }
}

/// Number of columns a character takes: 0 for one that the font cannot render
/// (it is not printed), 1 for a narrow glyph, 2 for a wide one.
pub fn char_columns(c: char) -> (r: u16)
    ensures
        r == columns_of(glyph_width(c)),
        r <= 2,
{
    columns_of_width(unifont_width(c))
}

/// The columns of a glyph are the fewest that hold its pixels, and a character without a
/// glyph takes none.
pub proof fn law_columns_hold_glyph(width: Option<usize>)
    ensures
        width matches Some(w) ==> 8 * columns_of(width) >= w && 8 * (columns_of(width) - 1) < w,
        width is None ==> columns_of(width) == 0,
{
}

} // verus!
