//! Scrolling states.

use vstd::prelude::*;

verus! {

/// Whether the view follows playback or waits after a manual scroll.
#[derive(Debug, Clone, Copy, PartialEq, Eq, Structural)]
pub enum ScrollState {
    /// Following playback.
    AutoPlay,
    /// Waiting to return to following playback.
    Idle,
}

} // verus!
