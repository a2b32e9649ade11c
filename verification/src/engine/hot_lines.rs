//! Which lyric lines are playing, and which the view follows.
//!
//! Hot lines are the lines whose time span holds the playback time (a main
//! line together with the background-vocal line after it). Buffered lines are
//! the lines the view shows as current: they follow the hot lines, but are
//! released late, so that a line stays current until all current lines are
//! done, and a new hot line joins them without moving the view.

use std::collections::HashSet;
use vstd::prelude::*;
use vstd::std_specs::iter::IteratorSpec;

use crate::engine::conversion::{line_data_view, LineData, SpecLineData};

verus! {

/// The tracker's state: the hot lines, the buffered lines, and the index of
/// the line the view scrolls to.
pub struct TrackState {
    pub hot: Set<usize>,
    pub buffered: Set<usize>,
    pub scroll: usize,
}

/// Whether main line `i` plays at `t`.
pub open spec fn active(ls: Seq<SpecLineData>, i: int, t: u64) -> bool {
    0 <= i < ls.len() && !ls[i].is_bg && ls[i].start_ms <= t && ls[i].end_ms > t
}

/// Whether a background-vocal line follows line `i`.
pub open spec fn has_bg_after(ls: Seq<SpecLineData>, i: int) -> bool {
    0 <= i && i + 1 < ls.len() && ls[i + 1].is_bg
}

/// Whether hot line `id` no longer plays at `t`. A line past the end has
/// gone; a background line goes with its main line. A main line with a
/// background line after it spans from the earlier start of the two to the
/// later end of the two, but not past the start of the next main line (unless
/// it ends later itself).
pub open spec fn expired(ls: Seq<SpecLineData>, id: int, t: u64) -> bool {
    if id < 0 || id >= ls.len() {
        true
    } else if ls[id].is_bg {
        false
    } else if has_bg_after(ls, id) {
        let l = ls[id];
        let b = ls[id + 1];
        let start: u64 = if l.start_ms <= b.start_ms { l.start_ms } else { b.start_ms };
        let next_main: u64 = if id + 2 < ls.len() { ls[id + 2].start_ms } else { u64::MAX };
        let a: u64 = if l.end_ms >= next_main { l.end_ms } else { next_main };
        let c: u64 = if l.end_ms >= b.end_ms { l.end_ms } else { b.end_ms };
        let end: u64 = if a <= c { a } else { c };
        start > t || end <= t
    } else {
        ls[id].start_ms > t || ls[id].end_ms <= t
    }
}

/// Whether hot line `x` leaves the hot lines at `t`: it has expired, or it is
/// the background line of a hot main line that has.
pub open spec fn dropped(ls: Seq<SpecLineData>, hot: Set<usize>, x: usize, t: u64) -> bool {
    ||| expired(ls, x as int, t)
    ||| (x >= 1 && hot.contains((x - 1) as usize) && !ls[x - 1].is_bg && has_bg_after(ls, x - 1) && expired(
        ls,
        x - 1,
        t,
    ))
}

/// The hot lines that still play.
pub open spec fn kept_hot(ls: Seq<SpecLineData>, hot: Set<usize>, t: u64) -> Set<usize> {
    hot.filter(|x: usize| !dropped(ls, hot, x, t))
}

/// The lines that become hot: main lines that play and are not hot yet,
/// each with the background line after it.
pub open spec fn newly_hot(ls: Seq<SpecLineData>, hot1: Set<usize>, t: u64) -> Set<usize> {
    Set::new(
        |y: usize|
            (active(ls, y as int, t) && !hot1.contains(y)) || (y >= 1 && active(ls, y - 1, t) && !hot1.contains(
                (y - 1) as usize,
            ) && has_bg_after(ls, y - 1)),
    )
}

/// Whether the set is empty.
pub open spec fn none_in(s: Set<usize>) -> bool {
    forall|x: usize| !s.contains(x)
}

/// The least element of a non-empty finite set.
pub open spec fn least(s: Set<usize>) -> usize {
    choose|m: usize| s.contains(m) && forall|x: usize| s.contains(x) ==> m <= x
}

/// The first line from `k` on that starts at or after `t`; 0 when none does.
pub open spec fn first_starting(ls: Seq<SpecLineData>, t: u64, k: int) -> usize
    decreases ls.len() - k,
{
    if k < 0 || k >= ls.len() {
        0
    } else if ls[k].start_ms >= t {
        k as usize
    } else {
        first_starting(ls, t, k + 1)
    }
}

/// The first main line from `k` on that starts after `t`.
pub open spec fn first_upcoming(ls: Seq<SpecLineData>, t: u64, k: int) -> Option<usize>
    decreases ls.len() - k,
{
    if k < 0 || k >= ls.len() {
        None
    } else if !ls[k].is_bg && ls[k].start_ms > t {
        Some(k as usize)
    } else {
        first_upcoming(ls, t, k + 1)
    }
}

/// The last main line before `k` that has ended by `t`.
pub open spec fn last_finished(ls: Seq<SpecLineData>, t: u64, k: int) -> Option<usize>
    decreases k,
{
    if k <= 0 || k > ls.len() {
        None
    } else if !ls[k - 1].is_bg && ls[k - 1].end_ms <= t {
        Some((k - 1) as usize)
    } else {
        last_finished(ls, t, k - 1)
    }
}

/// The line that comes next at `t`: the first main line that starts later,
/// else the last main line that has ended, else the first line.
pub open spec fn next_line(ls: Seq<SpecLineData>, t: u64) -> usize {
    match first_upcoming(ls, t, 0) {
        Some(i) => i,
        None => match last_finished(ls, t, ls.len() as int) {
            Some(i) => i,
            None => 0,
        },
    }
}

/// The state after the playback time moves to `t` (`seek` when it jumped).
///
/// The hot lines become those that still play plus those that start to play.
/// On a seek the buffered lines become the hot lines and the view goes to the
/// least buffered line before the seek (or to the first line that starts at
/// or after `t`). Otherwise, the buffered lines that are no longer hot are
/// released only all together, when no line becomes hot; lines that become
/// hot join the buffered lines, and the view goes to the least of them. With
/// no buffered and no hot lines the view goes to the next line.
pub open spec fn track_step(ls: Seq<SpecLineData>, st: TrackState, t: u64, seek: bool) -> TrackState {
    let hot1 = kept_hot(ls, st.hot, t);
    let add = newly_hot(ls, hot1, t);
    let hot2 = hot1.union(add);
    let removed = st.buffered.difference(hot2);
    let (buf, scroll) = if seek {
        (hot2, if !none_in(st.buffered) { least(st.buffered) } else { first_starting(ls, t, 0) })
    } else if none_in(removed) && !none_in(add) {
        (st.buffered.union(add), least(st.buffered.union(add)))
    } else if none_in(add) && !none_in(removed) {
        (if removed == st.buffered { st.buffered.intersect(hot2) } else { st.buffered }, st.scroll)
    } else if !none_in(add) && !none_in(removed) {
        let b = st.buffered.union(add).difference(removed);
        (b, if !none_in(b) { least(b) } else { st.scroll })
    } else {
        (st.buffered, st.scroll)
    };
    TrackState {
        hot: hot2,
        buffered: buf,
        scroll: if none_in(buf) && none_in(hot2) { next_line(ls, t) } else { scroll },
    }
}

/// A line that starts to play (with the background line after it) becomes
/// buffered at once: the view never misses a line that starts.
pub proof fn law_started_lines_are_buffered(ls: Seq<SpecLineData>, st: TrackState, t: u64, seek: bool, y: usize)
    requires
        newly_hot(ls, kept_hot(ls, st.hot, t), t).contains(y),
    ensures
        track_step(ls, st, t, seek).buffered.contains(y),
{
}

/// Without a seek, and with no line starting to play, the buffered lines are
/// either kept as they are or released all together.
pub proof fn law_buffered_lines_leave_together(ls: Seq<SpecLineData>, st: TrackState, t: u64)
    requires
        none_in(newly_hot(ls, kept_hot(ls, st.hot, t), t)),
    ensures
        track_step(ls, st, t, false).buffered == st.buffered || none_in(track_step(ls, st, t, false).buffered),
{
}

/// Tracks the hot and buffered lines as playback moves.
#[derive(Debug)]
pub struct LineTracker {
    hot_lines: HashSet<usize>,
    buffered_lines: HashSet<usize>,
    scroll_to_index: usize,
}

impl View for LineTracker {
    type V = TrackState;

    closed spec fn view(&self) -> TrackState {
        TrackState {
            hot: self.hot_lines@,
            buffered: self.buffered_lines@,
            scroll: self.scroll_to_index,
        }
    }
}

/// The indices of a set, once each, in the set's own order.
fn set_items(s: &HashSet<usize>) -> (r: Vec<usize>)
    ensures
        r@.to_set() == s@,
{
    broadcast use vstd::std_specs::hash::group_hash_axioms;

    let ghost keys = vstd::std_specs::hash::spec_hash_keys_iter(s).remaining().unref();
    assert(keys.to_set() == s@);
    let mut r: Vec<usize> = Vec::new();
    for x in it: s.iter()
        invariant
            it.seq().unref() == keys,
            r@ == keys.take(it.index()),
    {
        r.push(*x);
        assert(r@ =~= keys.take(it.index() + 1));
    }
    assert(r@ =~= keys);
    r
}

/// The set of the listed indices.
fn set_of(v: &Vec<usize>) -> (r: HashSet<usize>)
    ensures
        r@ == v@.to_set(),
{
    broadcast use vstd::std_specs::hash::group_hash_axioms;

    let mut r: HashSet<usize> = HashSet::new();
    let mut i: usize = 0;
    while i < v.len()
        invariant
            i <= v.len(),
            r@ == v@.take(i as int).to_set(),
        decreases v.len() - i,
    {
        r.insert(v[i]);
        assert(v@.take(i + 1) =~= v@.take(i as int).push(v@[i as int]));
        proof {
            v@.take(i as int).lemma_push_to_set_commute(v@[i as int]);
        }
        i += 1;
    }
    assert(v@.take(v.len() as int) =~= v@);
    r
}

fn vec_has(v: &Vec<usize>, x: usize) -> (r: bool)
    ensures
        r == v@.contains(x),
{
    let mut i: usize = 0;
    while i < v.len()
        invariant
            i <= v.len(),
            forall|k: int| 0 <= k < i ==> v@[k] != x,
        decreases v.len() - i,
    {
        if v[i] == x {
            return true;
        }
        i += 1;
    }
    false
}

fn vec_min(v: &Vec<usize>) -> (r: usize)
    requires
        v.len() > 0,
    ensures
        v@.contains(r),
        forall|x: usize| v@.contains(x) ==> r <= x,
        r == least(v@.to_set()),
{
    let mut m = v[0];
    let mut i: usize = 1;
    while i < v.len()
        invariant
            1 <= i <= v.len(),
            v@.contains(m),
            forall|k: int| 0 <= k < i ==> m <= v@[k],
        decreases v.len() - i,
    {
        if v[i] < m {
            m = v[i];
        }
        i += 1;
    }
    proof {
        lemma_least(v@.to_set(), m);
    }
    m
}

proof fn lemma_least(s: Set<usize>, m: usize)
    requires
        s.contains(m),
        forall|x: usize| s.contains(x) ==> m <= x,
    ensures
        least(s) == m,
{
    let c = least(s);
    assert(s.contains(c) && forall|x: usize| s.contains(x) ==> c <= x);
}

fn vec_is_empty(v: &Vec<usize>) -> (r: bool)
    ensures
        r == none_in(v@.to_set()),
{
    if v.len() == 0 {
        true
    } else {
        assert(v@.to_set().contains(v@[0]));
        false
    }
}

/// Whether two index lists hold the same indices.
fn same_indices(a: &Vec<usize>, b: &Vec<usize>) -> (r: bool)
    ensures
        r == (a@.to_set() == b@.to_set()),
{
    let mut i: usize = 0;
    while i < a.len()
        invariant
            i <= a.len(),
            forall|k: int| 0 <= k < i ==> b@.contains(#[trigger] a@[k]),
        decreases a.len() - i,
    {
        if !vec_has(b, a[i]) {
            assert(a@.to_set().contains(a@[i as int]) && !b@.to_set().contains(a@[i as int]));
            return false;
        }
        i += 1;
    }
    let mut j: usize = 0;
    while j < b.len()
        invariant
            j <= b.len(),
            forall|k: int| 0 <= k < a.len() ==> b@.contains(#[trigger] a@[k]),
            forall|k: int| 0 <= k < j ==> a@.contains(#[trigger] b@[k]),
        decreases b.len() - j,
    {
        if !vec_has(a, b[j]) {
            assert(b@.to_set().contains(b@[j as int]) && !a@.to_set().contains(b@[j as int]));
            return false;
        }
        j += 1;
    }
    assert(a@.to_set() =~= b@.to_set());
    true
}

fn active_exec(lines: &Vec<LineData>, i: usize, t: u64) -> (r: bool)
    ensures
        r == active(line_data_view(lines@), i as int, t),
{
    i < lines.len() && !lines[i].is_bg && lines[i].start_ms <= t && lines[i].end_ms > t
}

fn has_bg_after_exec(lines: &Vec<LineData>, i: usize) -> (r: bool)
    ensures
        r == has_bg_after(line_data_view(lines@), i as int),
{
    i < lines.len() && i + 1 < lines.len() && lines[i + 1].is_bg
}

fn expired_exec(lines: &Vec<LineData>, id: usize, t: u64) -> (r: bool)
    ensures
        r == expired(line_data_view(lines@), id as int, t),
{
    let n = lines.len();
    if id >= n {
        return true;
    }
    if lines[id].is_bg {
        return false;
    }
    if has_bg_after_exec(lines, id) {
        let l = &lines[id];
        let b = &lines[id + 1];
        let start: u64 = if l.start_ms <= b.start_ms { l.start_ms } else { b.start_ms };
        let next_main: u64 = if id + 2 < n { lines[id + 2].start_ms } else { u64::MAX };
        let a: u64 = if l.end_ms >= next_main { l.end_ms } else { next_main };
        let c: u64 = if l.end_ms >= b.end_ms { l.end_ms } else { b.end_ms };
        let end: u64 = if a <= c { a } else { c };
        start > t || end <= t
    } else {
        lines[id].start_ms > t || lines[id].end_ms <= t
    }
}


proof fn lemma_take_next(s: Seq<usize>, j: int, y: usize)
    requires
        0 <= j < s.len(),
    ensures
        s.take(j + 1).contains(y) <==> (s.take(j).contains(y) || y == s[j]),
{
    if y == s[j] {
        assert(s.take(j + 1)[j] == y);
    }
    if s.take(j).contains(y) {
        let k = choose|k: int| 0 <= k < j && s.take(j)[k] == y;
        assert(s.take(j + 1)[k] == y);
    }
    if s.take(j + 1).contains(y) && y != s[j] {
        let k = choose|k: int| 0 <= k < j + 1 && #[trigger] s.take(j + 1)[k] == y;
        assert(s.take(j)[k] == y);
    }
}

proof fn lemma_push_has(s: Seq<usize>, x: usize, y: usize)
    ensures
        s.push(x).contains(y) <==> (s.contains(y) || y == x),
{
    if y == x {
        assert(s.push(x)[s.len() as int] == y);
    }
    if s.contains(y) {
        let k = choose|k: int| 0 <= k < s.len() && s[k] == y;
        assert(s.push(x)[k] == y);
    }
    if s.push(x).contains(y) && y != x {
        let k = choose|k: int| 0 <= k < s.len() + 1 && #[trigger] s.push(x)[k] == y;
        assert(s[k] == y);
    }
}

/// The lines that start to play among the first `i` lines (and their
/// background lines).
pub open spec fn added_below(ls: Seq<SpecLineData>, hot1: Set<usize>, t: u64, i: int, y: usize) -> bool {
    (y < i && active(ls, y as int, t) && !hot1.contains(y)) || (1 <= y && y <= i && active(ls, y - 1, t)
        && !hot1.contains((y - 1) as usize) && has_bg_after(ls, y - 1))
}

proof fn lemma_added_step(
    ls: Seq<SpecLineData>,
    hot1: Set<usize>,
    t: u64,
    i: usize,
    av: Seq<usize>,
    an: Seq<usize>,
    starts: bool,
    follows: bool,
    y: usize,
)
    requires
        i < ls.len() <= usize::MAX,
        av.contains(y) <==> added_below(ls, hot1, t, i as int, y),
        starts == (active(ls, i as int, t) && !hot1.contains(i)),
        follows == (starts && has_bg_after(ls, i as int)),
        an == (if starts {
            if follows {
                av.push(i).push((i + 1) as usize)
            } else {
                av.push(i)
            }
        } else {
            av
        }),
    ensures
        an.contains(y) <==> added_below(ls, hot1, t, i + 1, y),
{
    lemma_push_has(av, i, y);
    lemma_push_has(av.push(i), (i + 1) as usize, y);
    if starts && follows {
        assert(an.contains(y) <==> (av.contains(y) || y == i || y == i + 1));
    } else if starts {
        assert(an.contains(y) <==> (av.contains(y) || y == i));
    } else {
        assert(an.contains(y) <==> av.contains(y));
    }
    if y == i + 1 {
        assert((y - 1) as usize == i);
        assert(!added_below(ls, hot1, t, i as int, y));
        assert(added_below(ls, hot1, t, i + 1, y) == follows);
    } else if y == i {
        assert(added_below(ls, hot1, t, i + 1, y) == (starts || added_below(ls, hot1, t, i as int, y)));
    } else {
        assert(added_below(ls, hot1, t, i + 1, y) == added_below(ls, hot1, t, i as int, y));
    }
}

fn copy_indices(v: &Vec<usize>) -> (r: Vec<usize>)
    ensures
        r@ == v@,
{
    let mut r: Vec<usize> = Vec::new();
    let mut i: usize = 0;
    while i < v.len()
        invariant
            i <= v.len(),
            r@ == v@.take(i as int),
        decreases v.len() - i,
    {
        r.push(v[i]);
        assert(r@ =~= v@.take(i + 1));
        i += 1;
    }
    assert(r@ =~= v@);
    r
}

/// The indices of `v` that are (`inside`) or are not in `w`.
fn select(v: &Vec<usize>, w: &Vec<usize>, inside: bool) -> (r: Vec<usize>)
    ensures
        forall|y: usize| r@.contains(y) <==> (v@.contains(y) && w@.contains(y) == inside),
{
    let mut r: Vec<usize> = Vec::new();
    let mut i: usize = 0;
    while i < v.len()
        invariant
            i <= v.len(),
            forall|y: usize| r@.contains(y) <==> (v@.take(i as int).contains(y) && w@.contains(y) == inside),
        decreases v.len() - i,
    {
        let ghost r0 = r@;
        let x = v[i];
        let keep = vec_has(w, x) == inside;
        if keep {
            r.push(x);
        }
        assert forall|y: usize| r@.contains(y) <==> (v@.take(i + 1).contains(y) && w@.contains(y) == inside) by {
            assert(r0.contains(y) <==> (v@.take(i as int).contains(y) && w@.contains(y) == inside));
            lemma_take_next(v@, i as int, y);
            lemma_push_has(r0, x, y);
        }
        i += 1;
    }
    assert(v@.take(v.len() as int) =~= v@);
    r
}

/// The indices of `v`, then those of `w` that `v` lacks.
fn union_of(v: &Vec<usize>, w: &Vec<usize>) -> (r: Vec<usize>)
    ensures
        forall|y: usize| r@.contains(y) <==> (v@.contains(y) || w@.contains(y)),
{
    let mut r = copy_indices(v);
    let mut i: usize = 0;
    while i < w.len()
        invariant
            i <= w.len(),
            forall|y: usize| r@.contains(y) <==> (v@.contains(y) || w@.take(i as int).contains(y)),
        decreases w.len() - i,
    {
        let ghost rv = r@;
        let x = w[i];
        let present = vec_has(&r, x);
        if !present {
            r.push(x);
        }
        assert forall|y: usize| r@.contains(y) <==> (v@.contains(y) || w@.take(i + 1).contains(y)) by {
            assert(rv.contains(y) <==> (v@.contains(y) || w@.take(i as int).contains(y)));
            lemma_take_next(w@, i as int, y);
            lemma_push_has(rv, x, y);
        }
        i += 1;
    }
    assert(w@.take(w.len() as int) =~= w@);
    r
}

fn first_starting_exec(lines: &Vec<LineData>, t: u64) -> (r: usize)
    ensures
        r == first_starting(line_data_view(lines@), t, 0),
{
    let ghost ls = line_data_view(lines@);
    let mut i: usize = 0;
    while i < lines.len()
        invariant
            i <= lines.len(),
            ls == line_data_view(lines@),
            first_starting(ls, t, 0) == first_starting(ls, t, i as int),
        decreases lines.len() - i,
    {
        if lines[i].start_ms >= t {
            return i;
        }
        i += 1;
    }
    0
}

impl LineTracker {
    /// No hot and no buffered lines; the view at the first line.
    pub fn new() -> (r: Self)
        ensures
            none_in(r@.hot),
            none_in(r@.buffered),
            r@.scroll == 0,
    {
        LineTracker { hot_lines: HashSet::new(), buffered_lines: HashSet::new(), scroll_to_index: 0 }
    }

    /// Forgets all lines (for new lyrics).
    pub fn reset_for_new_lyrics(&mut self)
        ensures
            none_in(final(self)@.hot),
            none_in(final(self)@.buffered),
            final(self)@.scroll == 0,
    {
        self.hot_lines = HashSet::new();
        self.buffered_lines = HashSet::new();
        self.scroll_to_index = 0;
    }

    /// The buffered lines, in no particular order.
    pub fn buffered_lines(&self) -> (r: Vec<usize>)
        ensures
            r@.to_set() == self@.buffered,
    {
        set_items(&self.buffered_lines)
    }

    /// The line that comes next at `time` (see [`next_line`]).
    pub fn find_next_line_index(&self, time: u64, lines: &Vec<LineData>) -> (r: usize)
        ensures
            r == next_line(line_data_view(lines@), time),
    {
        let ghost ls = line_data_view(lines@);
        let mut i: usize = 0;
        while i < lines.len()
            invariant
                i <= lines.len(),
                ls == line_data_view(lines@),
                first_upcoming(ls, time, 0) == first_upcoming(ls, time, i as int),
            decreases lines.len() - i,
        {
            if !lines[i].is_bg && lines[i].start_ms > time {
                return i;
            }
            i += 1;
        }
        let mut k: usize = lines.len();
        while k > 0
            invariant
                k <= lines.len(),
                ls == line_data_view(lines@),
                first_upcoming(ls, time, 0) == None::<usize>,
                last_finished(ls, time, ls.len() as int) == last_finished(ls, time, k as int),
            decreases k,
        {
            if !lines[k - 1].is_bg && lines[k - 1].end_ms <= time {
                return k - 1;
            }
            k -= 1;
        }
        0
    }

    /// Moves playback to `time` (`is_seek` when it jumped there) and updates
    /// the hot lines, the buffered lines and the line the view scrolls to
    /// (see [`track_step`]). Returns whether the buffered lines changed.
    pub fn update_hot_lines(&mut self, time: u64, lines: &Vec<LineData>, is_seek: bool) -> (changed: bool)
        ensures
            final(self)@ == track_step(line_data_view(lines@), old(self)@, time, is_seek),
            changed == (final(self)@.buffered != old(self)@.buffered),
    {
        let ghost ls = line_data_view(lines@);
        let ghost st = self@;
        let ghost hot0 = st.hot;
        let n = lines.len();
        let hot_list = set_items(&self.hot_lines);
        let buf_list = set_items(&self.buffered_lines);
        // The hot lines that still play.
        let mut hot: Vec<usize> = Vec::new();
        let mut j: usize = 0;
        while j < hot_list.len()
            invariant
                j <= hot_list.len(),
                ls == line_data_view(lines@),
                n == lines.len(),
                hot0 == hot_list@.to_set(),
                forall|y: usize|
                    hot@.contains(y) <==> (hot_list@.take(j as int).contains(y) && !dropped(ls, hot0, y, time)),
            decreases hot_list.len() - j,
        {
            let x = hot_list[j];
            let mut drop = expired_exec(lines, x, time);
            if !drop && x >= 1 && x - 1 < n && !lines[x - 1].is_bg && has_bg_after_exec(lines, x - 1) {
                if vec_has(&hot_list, x - 1) {
                    drop = expired_exec(lines, x - 1, time);
                }
            }
            assert(drop == dropped(ls, hot0, x, time));
            let ghost hv = hot@;
            if !drop {
                hot.push(x);
            }
            assert forall|y: usize|
                hot@.contains(y) <==> (hot_list@.take(j + 1).contains(y) && !dropped(ls, hot0, y, time)) by {
                assert(hv.contains(y) <==> (hot_list@.take(j as int).contains(y) && !dropped(ls, hot0, y, time)));
                lemma_take_next(hot_list@, j as int, y);
                lemma_push_has(hv, x, y);
            }
            j += 1;
        }
        assert(hot_list@.take(hot_list.len() as int) =~= hot_list@);
        let ghost hot1 = hot@.to_set();
        assert(hot1 =~= kept_hot(ls, hot0, time));
        // The lines that start to play.
        let mut added: Vec<usize> = Vec::new();
        let mut i: usize = 0;
        while i < n
            invariant
                i <= n,
                ls == line_data_view(lines@),
                n == lines.len(),
                hot1 == hot@.to_set(),
                forall|y: usize| added@.contains(y) <==> added_below(ls, hot1, time, i as int, y),
            decreases n - i,
        {
            let ghost av = added@;
            let starts = active_exec(lines, i, time) && !vec_has(&hot, i);
            let follows = starts && has_bg_after_exec(lines, i);
            if starts {
                added.push(i);
                if follows {
                    added.push(i + 1);
                }
            }
            assert forall|y: usize| added@.contains(y) <==> added_below(ls, hot1, time, i + 1, y) by {
                lemma_added_step(ls, hot1, time, i, av, added@, starts, follows, y);
            }
            i += 1;
        }
        let hot_now = union_of(&hot, &added);
        let ghost add = newly_hot(ls, hot1, time);
        let hot = hot_now;
        let ghost hot2 = hot@.to_set();
        assert(added@.to_set() =~= add);
        assert(hot2 =~= hot1.union(add));
        // The buffered lines that are no longer hot.
        let removed = select(&buf_list, &hot, false);
        assert(removed@.to_set() =~= st.buffered.difference(hot2));
        let has_removed = !vec_is_empty(&removed);
        let has_added = !vec_is_empty(&added);
        let mut scroll = self.scroll_to_index;
        let buf: Vec<usize>;
        if is_seek {
            if !vec_is_empty(&buf_list) {
                scroll = vec_min(&buf_list);
            } else {
                scroll = first_starting_exec(lines, time);
            }
            buf = copy_indices(&hot);
        } else if !has_removed && has_added {
            let u = union_of(&buf_list, &added);
            assert(u@.to_set() =~= st.buffered.union(add));
            assert(added@.contains(added@[0]));
            scroll = vec_min(&u);
            buf = u;
        } else if !has_added && has_removed {
            if same_indices(&removed, &buf_list) {
                buf = select(&buf_list, &hot, true);
                assert(buf@.to_set() =~= st.buffered.intersect(hot2));
            } else {
                buf = copy_indices(&buf_list);
            }
        } else if has_added && has_removed {
            let u = union_of(&buf_list, &added);
            let b = select(&u, &removed, false);
            assert(b@.to_set() =~= st.buffered.union(add).difference(st.buffered.difference(hot2)));
            if !vec_is_empty(&b) {
                scroll = vec_min(&b);
            }
            buf = b;
        } else {
            buf = copy_indices(&buf_list);
        }
        let changed = !same_indices(&buf, &buf_list);
        if vec_is_empty(&buf) && vec_is_empty(&hot) {
            scroll = self.find_next_line_index(time, lines);
        }
        self.hot_lines = set_of(&hot);
        self.buffered_lines = set_of(&buf);
        self.scroll_to_index = scroll;
        changed
    }

    /// The index of the line the view scrolls to.
    pub fn scroll_to_index(&self) -> (r: usize)
        ensures
            r == self@.scroll,
    {
        self.scroll_to_index
    }
}

} // verus!
