//! Lyrics display engine: the parts that are not rendering — CJK text
//! classification and the engine's plain settings types.

pub mod conversion;
pub mod hot_lines;
pub mod interlude;
pub mod line_animation;
pub mod physics;
pub mod sdf_cache;
pub mod sdf_generator;
pub mod text_shaper;
pub mod types;
pub mod word_splitter;

use vstd::prelude::*;

verus! {

/// Where the current lyric line is anchored in the view.
#[derive(Debug, Clone, Copy, PartialEq, Eq, Structural)]
pub enum AlignAnchor {
    Top,
    Center,
    Bottom,
}

impl Default for AlignAnchor {
    fn default() -> (r: Self)
        ensures
            r == AlignAnchor::Center,
    {
        AlignAnchor::Center
    }
}

} // verus!
