//! Distance-field bitmaps generated ahead of their upload.

use vstd::prelude::*;

use crate::engine::sdf_generator::SdfBitmap;

verus! {

/// A bitmap generated off the main thread, waiting to be uploaded.
#[derive(Clone)]
pub struct PreGeneratedSdf {
    pub bitmap: SdfBitmap,
}

} // verus!
