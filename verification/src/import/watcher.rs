//! Folder watching: which file-system notifications matter to the library,
//! and the debouncing of bursts of them.
//!
//! The notifications themselves, and what the file system says of a path
//! (file, directory, existing), come from the application.

use vstd::prelude::*;

use crate::import::{is_audio_file, is_audio_path};
use crate::text::{copy_string, string_eq_str};

verus! {

/// What the folder watcher reports.
#[derive(Debug, Clone, PartialEq)]
pub enum WatchEvent {
    /// An audio file was created.
    FileCreated(String),
    /// An audio file was modified.
    FileModified(String),
    /// An audio file was deleted.
    FileDeleted(String),
    /// A file was renamed (old path, new path).
    FileRenamed(String, String),
    /// The watcher failed.
    Error(String),
}

/// Mathematical model of a [`WatchEvent`].
pub enum SpecWatchEvent {
    FileCreated(Seq<char>),
    FileModified(Seq<char>),
    FileDeleted(Seq<char>),
    FileRenamed(Seq<char>, Seq<char>),
    Error(Seq<char>),
}

impl View for WatchEvent {
    type V = SpecWatchEvent;

    open spec fn view(&self) -> SpecWatchEvent {
        match self {
            WatchEvent::FileCreated(p) => SpecWatchEvent::FileCreated(p@),
            WatchEvent::FileModified(p) => SpecWatchEvent::FileModified(p@),
            WatchEvent::FileDeleted(p) => SpecWatchEvent::FileDeleted(p@),
            WatchEvent::FileRenamed(a, b) => SpecWatchEvent::FileRenamed(a@, b@),
            WatchEvent::Error(e) => SpecWatchEvent::Error(e@),
        }
    }
}

/// The kind of a file-system notification.
#[derive(Debug, Clone, Copy, PartialEq, Eq, Structural)]
pub enum NotifyKind {
    Create,
    /// A rename.
    ModifyName,
    /// Any other modification.
    ModifyOther,
    Remove,
    Access,
    Other,
    Any,
}

/// A path of a notification with what the file system says of it.
#[derive(Debug, Clone)]
pub struct PathFacts {
    pub path: String,
    pub is_dir: bool,
    pub is_file: bool,
    pub exists: bool,
}

pub struct SpecPathFacts {
    pub path: Seq<char>,
    pub is_dir: bool,
    pub is_file: bool,
    pub exists: bool,
}

impl View for PathFacts {
    type V = SpecPathFacts;

    open spec fn view(&self) -> SpecPathFacts {
        SpecPathFacts { path: self.path@, is_dir: self.is_dir, is_file: self.is_file, exists: self.exists }
    }
}

pub open spec fn facts_view(v: Seq<PathFacts>) -> Seq<SpecPathFacts> {
    v.map_values(|p: PathFacts| p@)
}

/// A path that concerns the library: an audio file, or a directory.
pub open spec fn relevant(p: SpecPathFacts) -> bool {
    is_audio_path(p.path) || p.is_dir
}

/// The first relevant path that is a file.
pub open spec fn first_relevant_file(ps: Seq<SpecPathFacts>) -> Option<Seq<char>>
    decreases ps.len(),
{
    if ps.len() == 0 {
        None
    } else if relevant(ps[0]) && ps[0].is_file {
        Some(ps[0].path)
    } else {
        first_relevant_file(ps.drop_first())
    }
}

/// The first relevant path.
pub open spec fn first_relevant(ps: Seq<SpecPathFacts>) -> Option<Seq<char>>
    decreases ps.len(),
{
    if ps.len() == 0 {
        None
    } else if relevant(ps[0]) {
        Some(ps[0].path)
    } else {
        first_relevant(ps.drop_first())
    }
}

/// What a notification means for the library: creations and modifications
/// of an audio file (the first relevant path that is a file), removals (the
/// first relevant path), and renames (both paths when either is an audio
/// file; a lone path is a creation if it exists and a deletion if not).
pub open spec fn watch_event_of(kind: NotifyKind, ps: Seq<SpecPathFacts>) -> Option<SpecWatchEvent> {
    match kind {
        NotifyKind::Create => match first_relevant_file(ps) {
            Some(p) => Some(SpecWatchEvent::FileCreated(p)),
            None => None,
        },
        NotifyKind::ModifyName => if ps.len() >= 2 {
            if is_audio_path(ps[0].path) || is_audio_path(ps[1].path) {
                Some(SpecWatchEvent::FileRenamed(ps[0].path, ps[1].path))
            } else {
                None
            }
        } else if ps.len() == 1 && is_audio_path(ps[0].path) {
            if ps[0].exists {
                Some(SpecWatchEvent::FileCreated(ps[0].path))
            } else {
                Some(SpecWatchEvent::FileDeleted(ps[0].path))
            }
        } else {
            None
        },
        NotifyKind::ModifyOther => match first_relevant_file(ps) {
            Some(p) => Some(SpecWatchEvent::FileModified(p)),
            None => None,
        },
        NotifyKind::Remove => match first_relevant(ps) {
            Some(p) => Some(SpecWatchEvent::FileDeleted(p)),
            None => None,
        },
        _ => None,
    }
}

pub open spec fn opt_event_view(o: Option<WatchEvent>) -> Option<SpecWatchEvent> {
    match o {
        Some(e) => Some(e@),
        None => None,
    }
}

fn first_relevant_exec(ps: &Vec<PathFacts>, need_file: bool) -> (r: Option<String>)
    ensures
        match r {
            Some(p) => Some(p@) == (if need_file {
                first_relevant_file(facts_view(ps@))
            } else {
                first_relevant(facts_view(ps@))
            }),
            None => (if need_file {
                first_relevant_file(facts_view(ps@))
            } else {
                first_relevant(facts_view(ps@))
            }) is None,
        },
{
    let ghost fv = facts_view(ps@);
    let mut i: usize = 0;
    assert(fv.skip(0) =~= fv);
    while i < ps.len()
        invariant
            i <= ps.len(),
            fv == facts_view(ps@),
            need_file ==> first_relevant_file(fv) == first_relevant_file(fv.skip(i as int)),
            !need_file ==> first_relevant(fv) == first_relevant(fv.skip(i as int)),
        decreases ps.len() - i,
    {
        assert(fv.skip(i as int)[0] == ps@[i as int]@);
        assert(fv.skip(i as int).drop_first() =~= fv.skip(i + 1));
        let p = &ps[i];
        if (is_audio_file(p.path.as_str()) || p.is_dir) && (!need_file || p.is_file) {
            return Some(copy_string(&p.path));
        }
        i += 1;
    }
    assert(fv.skip(i as int).len() == 0);
    None
}

/// What a file-system notification means for the library, if anything.
pub fn process_watch_event(kind: NotifyKind, paths: &Vec<PathFacts>) -> (r: Option<WatchEvent>)
    ensures
        opt_event_view(r) == watch_event_of(kind, facts_view(paths@)),
{
    let ghost fv = facts_view(paths@);
    match kind {
        NotifyKind::Create => match first_relevant_exec(paths, true) {
            Some(p) => Some(WatchEvent::FileCreated(p)),
            None => None,
        },
        NotifyKind::ModifyName => {
            if paths.len() >= 2 {
                assert(fv[0] == paths@[0]@ && fv[1] == paths@[1]@);
                if is_audio_file(paths[0].path.as_str()) || is_audio_file(paths[1].path.as_str()) {
                    return Some(WatchEvent::FileRenamed(copy_string(&paths[0].path), copy_string(&paths[1].path)));
                }
                None
            } else if paths.len() == 1 {
                assert(fv[0] == paths@[0]@);
                if is_audio_file(paths[0].path.as_str()) {
                    if paths[0].exists {
                        return Some(WatchEvent::FileCreated(copy_string(&paths[0].path)));
                    } else {
                        return Some(WatchEvent::FileDeleted(copy_string(&paths[0].path)));
                    }
                }
                None
            } else {
                None
            }
        },
        NotifyKind::ModifyOther => match first_relevant_exec(paths, true) {
            Some(p) => Some(WatchEvent::FileModified(p)),
            None => None,
        },
        NotifyKind::Remove => match first_relevant_exec(paths, false) {
            Some(p) => Some(WatchEvent::FileDeleted(p)),
            None => None,
        },
        _ => None,
    }
}

// ----------------------------------------------------------------------------
// Debouncing
// ----------------------------------------------------------------------------

/// The path an event is keyed by: its own, or the new one of a rename.
/// Errors have none.
pub open spec fn event_key(e: SpecWatchEvent) -> Option<Seq<char>> {
    match e {
        SpecWatchEvent::FileCreated(p) => Some(p),
        SpecWatchEvent::FileModified(p) => Some(p),
        SpecWatchEvent::FileDeleted(p) => Some(p),
        SpecWatchEvent::FileRenamed(_, n) => Some(n),
        SpecWatchEvent::Error(_) => None,
    }
}

/// A pending event: its key, the event, and when it arrived (ms).
pub type SpecPending = (Seq<char>, SpecWatchEvent, u64);

/// The pending events with the entry for `key` replaced (kept in its place),
/// or added at the end.
pub open spec fn pending_insert(p: Seq<SpecPending>, key: Seq<char>, e: SpecWatchEvent, t: u64) -> Seq<SpecPending>
    decreases p.len(),
{
    if p.len() == 0 {
        seq![(key, e, t)]
    } else if p[0].0 == key {
        p.update(0, (key, e, t))
    } else {
        seq![p[0]] + pending_insert(p.drop_first(), key, e, t)
    }
}

/// Whether an event that arrived at `t` has waited `debounce` ms at `now`
/// (a time before `t` counts as no wait).
pub open spec fn is_ready(t: u64, now: u64, debounce: u64) -> bool {
    now >= t && now - t >= debounce
}

pub open spec fn ready_events(p: Seq<SpecPending>, now: u64, debounce: u64) -> Seq<SpecWatchEvent>
    decreases p.len(),
{
    if p.len() == 0 {
        Seq::empty()
    } else {
        let rest = ready_events(p.drop_last(), now, debounce);
        if is_ready(p.last().2, now, debounce) {
            rest.push(p.last().1)
        } else {
            rest
        }
    }
}

pub open spec fn waiting(p: Seq<SpecPending>, now: u64, debounce: u64) -> Seq<SpecPending>
    decreases p.len(),
{
    if p.len() == 0 {
        Seq::empty()
    } else {
        let rest = waiting(p.drop_last(), now, debounce);
        if is_ready(p.last().2, now, debounce) {
            rest
        } else {
            rest.push(p.last())
        }
    }
}

/// A tick splits the pending events: each one is either handed out or kept,
/// none is lost, and every event kept has not yet waited long enough.
pub proof fn law_tick_splits_pending(p: Seq<SpecPending>, now: u64, debounce: u64)
    ensures
        ready_events(p, now, debounce).len() + waiting(p, now, debounce).len() == p.len(),
        forall|j: int|
            0 <= j < waiting(p, now, debounce).len() ==> !is_ready(#[trigger] waiting(p, now, debounce)[j].2, now, debounce),
    decreases p.len(),
{
    if p.len() > 0 {
        law_tick_splits_pending(p.drop_last(), now, debounce);
        let w = waiting(p.drop_last(), now, debounce);
        if !is_ready(p.last().2, now, debounce) {
            assert forall|j: int| 0 <= j < w.push(p.last()).len() implies !is_ready(#[trigger] w.push(p.last())[j].2, now, debounce) by {
                if j < w.len() {
                    assert(w.push(p.last())[j] == w[j]);
                }
            }
        }
    }
}

/// Holds watch events until no newer event for the same path came for a while.
pub struct Debouncer {
    pending: Vec<(String, WatchEvent, u64)>,
}

pub open spec fn pending_view(v: Seq<(String, WatchEvent, u64)>) -> Seq<SpecPending> {
    v.map_values(|x: (String, WatchEvent, u64)| (x.0@, x.1@, x.2))
}

impl Debouncer {
    pub closed spec fn pending(self) -> Seq<SpecPending> {
        pending_view(self.pending@)
    }

    /// A debouncer with nothing pending.
    pub fn new() -> (r: Self)
        ensures
            r.pending() == Seq::<SpecPending>::empty(),
    {
        let r = Debouncer { pending: Vec::new() };
        assert(r.pending() =~= Seq::<SpecPending>::empty());
        r
    }

    /// Takes an event that arrived at `now` (ms): an error is handed back at
    /// once; any other event replaces what was pending for its path.
    pub fn on_event(&mut self, event: WatchEvent, now: u64) -> (r: Option<WatchEvent>)
        ensures
            match event_key(event@) {
                None => opt_event_view(r) == Some(event@) && final(self).pending() == old(self).pending(),
                Some(k) => r is None && final(self).pending() == pending_insert(old(self).pending(), k, event@, now),
            },
    {
        let ghost ev = event@;
        let key = match &event {
            WatchEvent::FileCreated(p) => copy_string(p),
            WatchEvent::FileModified(p) => copy_string(p),
            WatchEvent::FileDeleted(p) => copy_string(p),
            WatchEvent::FileRenamed(_, n) => copy_string(n),
            WatchEvent::Error(_) => {
                return Some(event);
            },
        };
        let ghost pv = pending_view(self.pending@);
        let mut i: usize = 0;
        while i < self.pending.len()
            invariant
                i <= self.pending.len(),
                self.pending@ == old(self).pending@,
                pv == pending_view(self.pending@),
                ev == event@,
                event_key(ev) == Some(key@),
                forall|j: int| 0 <= j < i ==> #[trigger] pv[j].0 != key@,
            decreases self.pending.len() - i,
        {
            assert(pv[i as int].0 == self.pending@[i as int].0@);
            if self.pending[i].0 == key {
                self.pending[i] = (key, event, now);
                proof {
                    lemma_pending_insert_at(pv, key@, ev, now, i as int);
                }
                assert(pending_view(self.pending@) =~= pv.update(i as int, (key@, ev, now)));
                return None;
            }
            i += 1;
        }
        let ghost kv = key@;
        self.pending.push((key, event, now));
        proof {
            lemma_pending_insert_absent(pv, kv, ev, now);
        }
        assert(pending_view(self.pending@) =~= pv.push((kv, ev, now)));
        None
    }

    /// The events that have waited long enough at `now`, in the order they
    /// are pending; they stop being pending.
    pub fn on_tick(&mut self, now: u64, debounce: u64) -> (r: Vec<WatchEvent>)
        ensures
            r@.map_values(|e: WatchEvent| e@) == ready_events(old(self).pending(), now, debounce),
            final(self).pending() == waiting(old(self).pending(), now, debounce),
    {
        let ghost pv = pending_view(self.pending@);
        let mut ready: Vec<WatchEvent> = Vec::new();
        let mut kept: Vec<(String, WatchEvent, u64)> = Vec::new();
        let mut rest: Vec<(String, WatchEvent, u64)> = Vec::new();
        std::mem::swap(&mut rest, &mut self.pending);
        let ghost n = rest.len();
        let mut i: usize = 0;
        assert(pv.take(0) =~= Seq::<SpecPending>::empty());
        while rest.len() > 0
            invariant
                i + rest.len() == n,
                n == pv.len(),
                pending_view(rest@) == pv.skip(i as int),
                ready@.map_values(|e: WatchEvent| e@) == ready_events(pv.take(i as int), now, debounce),
                pending_view(kept@) == waiting(pv.take(i as int), now, debounce),
            decreases rest.len(),
        {
            let ghost before = rest@;
            let entry = rest.remove(0);
            assert(pv[i as int] == (entry.0@, entry.1@, entry.2)) by {
                assert(pending_view(before)[0] == pv.skip(i as int)[0]);
            }
            assert(pending_view(rest@) =~= pv.skip(i + 1)) by {
                assert(pending_view(rest@) =~= pending_view(before).drop_first());
            }
            assert(pv.take(i + 1).drop_last() =~= pv.take(i as int));
            assert(pv.take(i + 1).last() == pv[i as int]);
            let ghost rv = ready@;
            let ghost kv = kept@;
            if now >= entry.2 && now - entry.2 >= debounce {
                let e = entry.1;
                let ghost e_v = e@;
                ready.push(e);
                assert(ready@.map_values(|e: WatchEvent| e@) =~= rv.map_values(|e: WatchEvent| e@).push(e_v));
            } else {
                let ghost x = (entry.0@, entry.1@, entry.2);
                kept.push(entry);
                assert(pending_view(kept@) =~= pending_view(kv).push(x));
            }
            i += 1;
        }
        assert(pv.take(i as int) =~= pv);
        self.pending = kept;
        ready
    }
}

/// Replacing a pending entry found first at `i` keeps it in its place.
proof fn lemma_pending_insert_at(p: Seq<SpecPending>, key: Seq<char>, e: SpecWatchEvent, t: u64, i: int)
    requires
        0 <= i < p.len(),
        p[i].0 == key,
        forall|j: int| 0 <= j < i ==> #[trigger] p[j].0 != key,
    ensures
        pending_insert(p, key, e, t) == p.update(i, (key, e, t)),
    decreases p.len(),
{
    if i > 0 {
        assert forall|j: int| 0 <= j < i - 1 implies #[trigger] p.drop_first()[j].0 != key by {
            assert(p.drop_first()[j] == p[j + 1]);
        }
        lemma_pending_insert_at(p.drop_first(), key, e, t, i - 1);
        assert(seq![p[0]] + p.drop_first().update(i - 1, (key, e, t)) =~= p.update(i, (key, e, t)));
    }
}

/// Inserting a key that is not pending appends it.
proof fn lemma_pending_insert_absent(p: Seq<SpecPending>, key: Seq<char>, e: SpecWatchEvent, t: u64)
    requires
        forall|j: int| 0 <= j < p.len() ==> #[trigger] p[j].0 != key,
    ensures
        pending_insert(p, key, e, t) == p.push((key, e, t)),
    decreases p.len(),
{
    if p.len() > 0 {
        assert forall|j: int| 0 <= j < p.len() - 1 implies #[trigger] p.drop_first()[j].0 != key by {
            assert(p.drop_first()[j] == p[j + 1]);
        }
        lemma_pending_insert_absent(p.drop_first(), key, e, t);
        assert(seq![p[0]] + p.drop_first().push((key, e, t)) =~= p.push((key, e, t)));
    } else {
        assert(seq![(key, e, t)] =~= p.push((key, e, t)));
    }
}

} // verus!
