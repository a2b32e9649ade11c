//! Signed distance field bitmaps of glyphs.

use vstd::prelude::*;

verus! {

/// A generated signed distance field.
#[derive(Debug, Clone)]
pub struct SdfBitmap {
    /// One byte per pixel.
    pub data: Vec<u8>,
    /// Width, including the buffer.
    pub width: u32,
    /// Height, including the buffer.
    pub height: u32,
    /// Horizontal offset of the glyph from the origin (buffer included).
    pub bearing_x: i32,
    /// Vertical offset of the glyph from the baseline (buffer included).
    pub bearing_y: i32,
}

} // verus!
