//! Line animation settings, and which lines are active and how much the
//! others are blurred.

use vstd::prelude::*;

verus! {

/// The point of a lyric line that is aligned with the view's anchor.
#[derive(Debug, Clone, Copy, PartialEq, Eq, Structural)]
pub enum AlignAnchor {
    /// The top of the line (no adjustment).
    Top,
    /// The center of the line (the default).
    Center,
    /// The bottom of the line.
    Bottom,
}

impl Default for AlignAnchor {
    fn default() -> (r: Self)
        ensures
            r == AlignAnchor::Center,
    {
        AlignAnchor::Center
    }
}

/// The most blur a line gets.
pub const MAX_BLUR_LEVEL: u32 = 5;

/// The highest buffered line, or `scroll_to` when none is buffered.
pub fn latest_line_index(buffered: &[usize], scroll_to: usize) -> (r: usize)
    ensures
        buffered@.len() == 0 ==> r == scroll_to,
        buffered@.len() > 0 ==> buffered@.contains(r) && forall|i: int| 0 <= i < buffered@.len() ==> buffered@[i] <= r,
{
    if buffered.len() == 0 {
        return scroll_to;
    }
    let mut best = buffered[0];
    let mut i: usize = 1;
    while i < buffered.len()
        invariant
            1 <= i <= buffered@.len(),
            exists|k: int| 0 <= k < i && buffered@[k] == best,
            forall|k: int| 0 <= k < i ==> buffered@[k] <= best,
        decreases buffered@.len() - i,
    {
        if buffered[i] > best {
            best = buffered[i];
        }
        i += 1;
    }
    best
}

/// A line is active when it is buffered, lies from the scroll target up to
/// (not including) the latest line, or is the scroll target while nothing is
/// buffered.
pub open spec fn line_active(idx: usize, buffered: Seq<usize>, scroll_to: usize, latest: usize) -> bool {
    buffered.contains(idx) || (scroll_to <= idx && idx < latest) || (buffered.len() == 0 && idx == scroll_to)
}

/// Whether line `idx` is active.
pub fn is_line_active(idx: usize, buffered: &[usize], scroll_to: usize, latest: usize) -> (r: bool)
    ensures
        r == line_active(idx, buffered@, scroll_to, latest),
{
    let mut found = false;
    let mut i: usize = 0;
    while i < buffered.len()
        invariant
            i <= buffered@.len(),
            found == exists|k: int| 0 <= k < i && buffered@[k] == idx,
        decreases buffered@.len() - i,
    {
        if buffered[i] == idx {
            found = true;
        }
        i += 1;
    }
    found || (scroll_to <= idx && idx < latest) || (buffered.len() == 0 && idx == scroll_to)
}

/// The blur of a line: none when blur is off or the line is active; else one
/// more than its distance from the current lines (a line above the scroll
/// target counts one step more), at most `MAX_BLUR_LEVEL`.
pub open spec fn blur_for(idx: usize, scroll_to: usize, latest: usize, active: bool, disabled: bool) -> nat {
    if disabled || active {
        0
    } else {
        let level: int = if idx < scroll_to {
            1 + (scroll_to - idx) + 1
        } else {
            let top: int = if latest >= scroll_to { latest as int } else { scroll_to as int };
            1 + (if idx >= top { idx - top } else { top - idx })
        };
        if level >= MAX_BLUR_LEVEL { MAX_BLUR_LEVEL as nat } else { level as nat }
    }
}

/// The blur level of line `idx`.
pub fn blur_level(idx: usize, scroll_to_index: usize, latest: usize, is_active: bool, disable_blur: bool) -> (r: u32)
    ensures
        r == blur_for(idx, scroll_to_index, latest, is_active, disable_blur),
{
    if disable_blur || is_active {
        return 0;
    }
    let distance: usize;
    let base: u32;
    if idx < scroll_to_index {
        distance = scroll_to_index - idx;
        base = 2;
    } else {
        let top = if latest >= scroll_to_index { latest } else { scroll_to_index };
        distance = if idx >= top { idx - top } else { top - idx };
        base = 1;
    }
    if distance >= 4 {
        MAX_BLUR_LEVEL
    } else {
        let level = base + distance as u32;
        if level >= MAX_BLUR_LEVEL { MAX_BLUR_LEVEL } else { level }
    }
}

} // verus!
