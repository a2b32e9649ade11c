//! Interludes: the gaps between lyric lines long enough to show the
//! waiting dots.

use vstd::prelude::*;

use crate::engine::conversion::{line_data_view, LineData, SpecLineData};

verus! {

/// The gap before line `k + 1` (`k == -1`: before the first line), if the
/// playback time `cur` is inside it and it lasts at least `min_dur`. The gap
/// starts when line `k` ends (at 0 before the first line) and ends a quarter
/// second before line `k + 1` starts (not before it starts).
pub open spec fn gap_at(ls: Seq<SpecLineData>, k: int, cur: u64, min_dur: u64) -> Option<(u64, u64, int)> {
    if k < -1 || k >= ls.len() - 1 {
        None
    } else {
        let gap_start: u64 = if k == -1 { 0 } else { ls[k].end_ms };
        let next_start = ls[k + 1].start_ms;
        let early: u64 = if next_start >= 250 { (next_start - 250) as u64 } else { 0 };
        let gap_end: u64 = if gap_start >= early { gap_start } else { early };
        if gap_end - gap_start < min_dur {
            None
        } else if gap_end > cur && gap_start < cur {
            Some((gap_start, gap_end, k))
        } else {
            None
        }
    }
}

/// The interlude at `time` around the line the view follows (`scroll`): the
/// first of the gaps before, around and after it that holds `time + 20`.
pub open spec fn interlude_at(ls: Seq<SpecLineData>, scroll: int, time: u64, min_dur: u64) -> Option<(u64, u64, int)> {
    let cur = (time + 20) as u64;
    match gap_at(ls, scroll - 1, cur, min_dur) {
        Some(g) => Some(g),
        None => match gap_at(ls, scroll, cur, min_dur) {
            Some(g) => Some(g),
            None => gap_at(ls, scroll + 1, cur, min_dur),
        },
    }
}

fn gap_exec(lines: &Vec<LineData>, k: i64, cur: u64, min_duration: u64) -> (r: Option<(u64, u64, i64)>)
    requires
        lines.len() <= i64::MAX,
    ensures
        match (r, gap_at(line_data_view(lines@), k as int, cur, min_duration)) {
            (Some(a), Some(b)) => a.0 == b.0 && a.1 == b.1 && a.2 == b.2,
            (None, None) => true,
            _ => false,
        },
{
    let n = lines.len() as i64;
    if k < -1 || k >= n - 1 {
        return None;
    }
    let gap_start: u64 = if k == -1 { 0 } else { lines[k as usize].end_ms };
    let next_start = lines[(k + 1) as usize].start_ms;
    let early = next_start.saturating_sub(250);
    let gap_end: u64 = if gap_start >= early { gap_start } else { early };
    if gap_end - gap_start < min_duration {
        None
    } else if gap_end > cur && gap_start < cur {
        Some((gap_start, gap_end, k))
    } else {
        None
    }
}

/// The interlude the view is in, if any, as its start and end times and the
/// index of the line before it (-1 before the first line); see
/// [`interlude_at`].
pub fn find_interlude_gap(lines: &Vec<LineData>, scroll_to_index: usize, time: u64, min_duration: u64) -> (r:
    Option<(u64, u64, i64)>)
    requires
        lines.len() <= i64::MAX,
        scroll_to_index < i64::MAX,
        time <= u64::MAX - 20,
    ensures
        match (r, interlude_at(line_data_view(lines@), scroll_to_index as int, time, min_duration)) {
            (Some(a), Some(b)) => a.0 == b.0 && a.1 == b.1 && a.2 == b.2,
            (None, None) => true,
            _ => false,
        },
{
    let cur = time + 20;
    let idx = scroll_to_index as i64;
    match gap_exec(lines, idx - 1, cur, min_duration) {
        Some(g) => Some(g),
        None => match gap_exec(lines, idx, cur, min_duration) {
            Some(g) => Some(g),
            None => gap_exec(lines, idx + 1, cur, min_duration),
        },
    }
}

} // verus!
