//! The decisions of a folder scan: what each step of a scan reports and how
//! it counts. The scan itself (walking the folder, reading files, storing
//! songs) is done by the caller, which hands each outcome to [`scan_step`]
//! and stops after a `Cancelled` or `Completed` report.

use vstd::prelude::*;

use crate::import::progress::{fresh_scan, scanned_list, ScanState, SkipReason};
use crate::text::{dec, push_dec, push_str};

verus! {

/// A scanned file that is ready to be stored.
#[derive(Debug, Clone)]
pub struct ImportInfo {
    pub path: String,
    pub file_name: String,
    pub title: String,
    pub artist: String,
    pub cover_path: Option<String>,
}

/// What happened since the last step.
#[derive(Debug)]
pub enum ScanEvent {
    /// The folder was walked: this many files will be scanned.
    Discovered { total: u64 },
    /// A batch of files is about to be scanned.
    BatchStarting,
    /// A file was scanned: what to store, or why it is skipped.
    FileScanned { file_name: String, outcome: Result<ImportInfo, SkipReason> },
    /// The batch's files are scanned; its songs are about to be stored.
    BatchReady,
    /// The database stored the batch's songs (the number of ids it gave back), or failed.
    BatchStored { stored: Result<usize, String> },
    /// All batches are done.
    Finished,
}

/// What the scan reports.
#[derive(Debug, Clone, PartialEq)]
pub enum ScanReport {
    Started { total_files: u64 },
    Processing { current: u64, total: u64, file_name: String },
    Imported { current: u64, total: u64, title: String, artist: String, cover_path: Option<String> },
    Skipped { current: u64, total: u64, file_name: String, reason: SkipReason },
    Completed { imported: u64, skipped: u64, errors: u64 },
    Cancelled,
}

/// The scan's own bookkeeping: how many files it scans, and the scanned
/// files of the current batch that wait to be stored.
#[derive(Debug, Clone)]
pub struct ScanRun {
    pub total: u64,
    pub pending: Vec<ImportInfo>,
}

impl ScanRun {
    /// A scan that has found nothing yet.
    pub fn new() -> (r: Self)
        ensures
            r.total == 0,
            r.pending@.len() == 0,
    {
        ScanRun { total: 0, pending: Vec::new() }
    }
}

/// `x + n`, wrapping at 2^64 as the counters do.
pub open spec fn wrap_add(x: u64, n: nat) -> u64 {
    ((x + n) % 0x1_0000_0000_0000_0000) as u64
}

/// The reports of stored files, in the batch's order.
pub open spec fn imported_reports(pending: Seq<ImportInfo>, current: u64, total: u64) -> Seq<ScanReport> {
    Seq::new(
        pending.len(),
        |i: int|
            ScanReport::Imported {
                current,
                total,
                title: pending[i].title,
                artist: pending[i].artist,
                cover_path: pending[i].cover_path,
            },
    )
}

/// The reports of files that the database did not store, in the batch's order.
pub open spec fn unstored_reports(pending: Seq<ImportInfo>, current: u64, total: u64, message: String) -> Seq<
    ScanReport,
> {
    Seq::new(
        pending.len(),
        |i: int|
            ScanReport::Skipped {
                current,
                total,
                file_name: pending[i].file_name,
                reason: SkipReason::DatabaseError(message),
            },
    )
}

/// The message when the database gave back another number of ids than songs.
pub open spec fn id_count_message(ids: nat, songs: nat) -> Seq<char> {
    "batch upsert returned "@ + dec(ids) + " ids for "@ + dec(songs) + " songs"@
}

/// Whether only the named counters and records of the state may differ.
pub open spec fn same_but(a: ScanState, b: ScanState, imported: bool, errors: bool, paths: bool) -> bool {
    &&& a.total == b.total
    &&& a.current == b.current
    &&& a.skipped == b.skipped
    &&& a.cancelled == b.cancelled
    &&& (!imported ==> a.imported == b.imported)
    &&& (!errors ==> a.errors == b.errors)
    &&& (!paths ==> a.scanned_paths == b.scanned_paths)
}

proof fn lemma_wrap_step(x: u64, n: nat)
    ensures
        wrap_add(x, n).wrapping_add(1) == wrap_add(x, n + 1),
{
    let m: int = 0x1_0000_0000_0000_0000;
    let a: int = (x + n) % m;
    assert(0 <= a < m) by (nonlinear_arith)
        requires
            m > 0,
            a == (x + n) % m,
    ;
    vstd::arithmetic::div_mod::lemma_add_mod_noop(x + n, 1, m);
    vstd::arithmetic::div_mod::lemma_small_mod(1, m as nat);
    if a + 1 < m {
        vstd::arithmetic::div_mod::lemma_small_mod((a + 1) as nat, m as nat);
    } else {
        vstd::arithmetic::div_mod::lemma_mod_self_0(m);
    }
}

/// Stores the batch: records and reports each file (counting it as imported).
fn store_batch(state: &mut ScanState, pending: Vec<ImportInfo>, total: u64) -> (r: Vec<ScanReport>)
    ensures
        r@ == imported_reports(pending@, old(state).current, total),
        final(state).imported == wrap_add(old(state).imported, pending@.len()),
        scanned_list(final(state).scanned_paths) == scanned_list(old(state).scanned_paths) + pending@.map_values(
            |p: ImportInfo| p.path,
        ),
        pending@.len() > 0 ==> final(state).scanned_paths is Some,
        pending@.len() == 0 ==> final(state).scanned_paths == old(state).scanned_paths,
        same_but(*final(state), *old(state), true, false, true),
{
    let ghost s0 = *state;
    let ghost p0 = pending@;
    let count = pending.len();
    assert(p0.len() == count);
    let mut rest = pending;
    let mut r: Vec<ScanReport> = Vec::new();
    let mut k: usize = 0;
    proof {
        vstd::arithmetic::div_mod::lemma_small_mod(s0.imported as nat, 0x1_0000_0000_0000_0000);
    }
    assert(p0.take(0).map_values(|p: ImportInfo| p.path) =~= Seq::<String>::empty());
    assert(imported_reports(p0.take(0), s0.current, total) =~= Seq::<ScanReport>::empty());
    assert(p0.skip(0) =~= p0);
    while rest.len() > 0
        invariant
            k <= p0.len() <= usize::MAX,
            rest@ == p0.skip(k as int),
            r@ == imported_reports(p0.take(k as int), s0.current, total),
            state.imported == wrap_add(s0.imported, k as nat),
            scanned_list(state.scanned_paths) == scanned_list(s0.scanned_paths) + p0.take(k as int).map_values(
                |p: ImportInfo| p.path,
            ),
            k > 0 ==> state.scanned_paths is Some,
            k == 0 ==> state.scanned_paths == s0.scanned_paths,
            same_but(*state, s0, true, false, true),
        decreases rest.len(),
    {
        let info = rest.remove(0);
        assert(info == p0[k as int]);
        assert(rest@ =~= p0.skip(k + 1));
        let ImportInfo { path, file_name, title, artist, cover_path } = info;
        proof {
            lemma_wrap_step(s0.imported, k as nat);
        }
        let ghost before = scanned_list(state.scanned_paths);
        state.increment_imported();
        state.push_scanned_path(path);
        let ghost rv = r@;
        r.push(ScanReport::Imported { current: state.current, total, title, artist, cover_path });
        assert(r@ =~= imported_reports(p0.take(k + 1), s0.current, total));
        assert(p0.take(k + 1).map_values(|p: ImportInfo| p.path) =~= p0.take(k as int).map_values(
            |p: ImportInfo| p.path,
        ).push(p0[k as int].path));
        k += 1;
    }
    assert(p0.take(k as int) =~= p0);
    r
}

/// The reports of a batch that the database did not store: each file is
/// counted as an error and reported as skipped with the database's message.
fn reject_batch(state: &mut ScanState, pending: Vec<ImportInfo>, total: u64, message: String) -> (r: Vec<
    ScanReport,
>)
    ensures
        r@ == unstored_reports(pending@, old(state).current, total, message),
        final(state).errors == wrap_add(old(state).errors, pending@.len()),
        same_but(*final(state), *old(state), false, true, false),
{
    let ghost s0 = *state;
    let ghost p0 = pending@;
    let count = pending.len();
    assert(p0.len() == count);
    let mut rest = pending;
    let mut r: Vec<ScanReport> = Vec::new();
    let mut k: usize = 0;
    proof {
        vstd::arithmetic::div_mod::lemma_small_mod(s0.errors as nat, 0x1_0000_0000_0000_0000);
    }
    assert(unstored_reports(p0.take(0), s0.current, total, message) =~= Seq::<ScanReport>::empty());
    assert(p0.skip(0) =~= p0);
    while rest.len() > 0
        invariant
            k <= p0.len() <= usize::MAX,
            rest@ == p0.skip(k as int),
            r@ == unstored_reports(p0.take(k as int), s0.current, total, message),
            state.errors == wrap_add(s0.errors, k as nat),
            same_but(*state, s0, false, true, false),
        decreases rest.len(),
    {
        let info = rest.remove(0);
        assert(info == p0[k as int]);
        assert(rest@ =~= p0.skip(k + 1));
        proof {
            lemma_wrap_step(s0.errors, k as nat);
        }
        state.increment_errors();
        r.push(
            ScanReport::Skipped {
                current: state.current,
                total,
                file_name: info.file_name,
                reason: SkipReason::DatabaseError(message.clone()),
            },
        );
        assert(r@ =~= unstored_reports(p0.take(k + 1), s0.current, total, message));
        k += 1;
    }
    assert(p0.take(k as int) =~= p0);
    r
}

/// What one step of a scan does (see [`scan_step`]): from state `s0` and run
/// `r0`, the event `ev` leads to state `s1` and run `r1` and the reports `out`.
pub open spec fn step_result(s0: ScanState, r0: ScanRun, ev: ScanEvent, s1: ScanState, r1: ScanRun, out: Seq<
    ScanReport,
>) -> bool {
    match ev {
        ScanEvent::Discovered { total } => {
            &&& s1.total == total
            &&& s1.scanned_paths is Some && s1.scanned_paths->0@.len() == 0
            &&& s1.current == s0.current && s1.imported == s0.imported
            &&& s1.skipped == s0.skipped && s1.errors == s0.errors
            &&& s1.cancelled == s0.cancelled
            &&& r1.total == total && r1.pending@ == r0.pending@
            &&& out =~= (if total == 0 {
                seq![
                    ScanReport::Started { total_files: total },
                    ScanReport::Completed { imported: 0, skipped: 0, errors: 0 },
                ]
            } else {
                seq![ScanReport::Started { total_files: total }]
            })
        },
        ScanEvent::BatchStarting => {
            &&& s1 == s0 && r1.total == r0.total
            &&& r1.pending@ == r0.pending@
            &&& out =~= (if s0.cancelled { seq![ScanReport::Cancelled] } else { Seq::empty() })
        },
        ScanEvent::FileScanned { file_name, outcome } => if s0.cancelled {
            &&& s1 == s0 && r1.total == r0.total
            &&& r1.pending@ == r0.pending@
            &&& out =~= seq![ScanReport::Cancelled]
        } else {
            let c = (s0.current + 1) as u64;
            let processing = ScanReport::Processing { current: c, total: r0.total, file_name };
            &&& r1.total == r0.total
            &&& match outcome {
                Ok(info) => {
                    &&& s1 == (ScanState { current: c, ..s0 })
                    &&& r1.pending@ == r0.pending@.push(info)
                    &&& out =~= seq![processing]
                },
                Err(reason) => {
                    &&& s1 == (ScanState {
                        current: c,
                        skipped: s0.skipped.wrapping_add(1),
                        ..s0
                    })
                    &&& r1.pending@ == r0.pending@
                    &&& out =~= seq![
                        processing,
                        ScanReport::Skipped { current: c, total: r0.total, file_name, reason },
                    ]
                },
            }
        },
        ScanEvent::BatchReady => {
            &&& s1 == s0 && r1.total == r0.total
            &&& r1.pending@ == r0.pending@
            &&& out =~= (if r0.pending@.len() > 0 && s0.cancelled {
                seq![ScanReport::Cancelled]
            } else {
                Seq::empty()
            })
        },
        ScanEvent::BatchStored { stored } => {
            let p = r0.pending@;
            &&& r1.total == r0.total
            &&& match stored {
                Ok(n) => if n == p.len() {
                    if s0.cancelled && p.len() > 0 {
                        &&& s1 == s0 && r1.pending@ == p
                        &&& out =~= seq![ScanReport::Cancelled]
                    } else {
                        &&& r1.pending@.len() == 0
                        &&& out =~= imported_reports(p, s0.current, r0.total)
                        &&& s1.imported == wrap_add(s0.imported, p.len())
                        &&& scanned_list(s1.scanned_paths) == scanned_list(s0.scanned_paths)
                            + p.map_values(|q: ImportInfo| q.path)
                        &&& (p.len() > 0 ==> s1.scanned_paths is Some)
                        &&& (p.len() == 0 ==> s1.scanned_paths == s0.scanned_paths)
                        &&& same_but(s1, s0, true, false, true)
                    }
                } else {
                    &&& r1.pending@.len() == 0
                    &&& exists|m: String|
                        m@ == id_count_message(n as nat, p.len()) && out =~= unstored_reports(
                            p,
                            s0.current,
                            r0.total,
                            m,
                        )
                    &&& s1.errors == wrap_add(s0.errors, p.len())
                    &&& same_but(s1, s0, false, true, false)
                },
                Err(e) => {
                    &&& r1.pending@.len() == 0
                    &&& out =~= unstored_reports(p, s0.current, r0.total, e)
                    &&& s1.errors == wrap_add(s0.errors, p.len())
                    &&& same_but(s1, s0, false, true, false)
                },
            }
        },
        ScanEvent::Finished => {
            &&& s1 == s0 && r1.total == r0.total
            &&& r1.pending@ == r0.pending@
            &&& out =~= seq![
                ScanReport::Completed {
                    imported: s0.imported,
                    skipped: s0.skipped,
                    errors: s0.errors,
                },
            ]
        },
    }
}

/// Takes one step of a scan and returns what it reports.
///
/// - `Discovered`: the total is recorded, the record of scanned paths starts
///   empty, and the scan reports `Started`; with no file at all it is
///   `Completed` at once (with nothing counted).
/// - `BatchStarting`: `Cancelled` if the scan was cancelled.
/// - `FileScanned`: `Cancelled` if the scan was cancelled; else the file is
///   counted as processed and reported as `Processing`; a file to store waits
///   in the batch, a skipped one is counted as skipped and reported `Skipped`.
/// - `BatchReady`: `Cancelled` if files wait and the scan was cancelled.
/// - `BatchStored`: when the database gave back one id per waiting file, each
///   file is counted as imported, recorded and reported `Imported` (unless the
///   scan was cancelled: then `Cancelled`); otherwise each is counted as an
///   error and reported `Skipped` with the database's error. The batch is
///   then empty.
/// - `Finished`: `Completed` with the counts.
pub fn scan_step(state: &mut ScanState, run: &mut ScanRun, ev: ScanEvent) -> (r: Vec<ScanReport>)
    requires
        ev is FileScanned ==> old(state).current < u64::MAX,
    ensures
        step_result(*old(state), *old(run), ev, *final(state), *final(run), r@),
{
    let mut r: Vec<ScanReport> = Vec::new();
    match ev {
        ScanEvent::Discovered { total } => {
            state.set_total(total);
            state.set_scanned_paths(Vec::new());
            run.total = total;
            r.push(ScanReport::Started { total_files: total });
            if total == 0 {
                r.push(ScanReport::Completed { imported: 0, skipped: 0, errors: 0 });
            }
        },
        ScanEvent::BatchStarting => {
            if state.is_cancelled() {
                r.push(ScanReport::Cancelled);
            }
        },
        ScanEvent::FileScanned { file_name, outcome } => {
            if state.is_cancelled() {
                r.push(ScanReport::Cancelled);
                return r;
            }
            let current = state.increment_current();
            let total = run.total;
            match outcome {
                Ok(info) => {
                    r.push(ScanReport::Processing { current, total, file_name });
                    run.pending.push(info);
                },
                Err(reason) => {
                    r.push(ScanReport::Processing { current, total, file_name: file_name.clone() });
                    state.increment_skipped();
                    r.push(ScanReport::Skipped { current, total, file_name, reason });
                },
            }
        },
        ScanEvent::BatchReady => {
            if run.pending.len() > 0 && state.is_cancelled() {
                r.push(ScanReport::Cancelled);
            }
        },
        ScanEvent::BatchStored { stored } => {
            let n = run.pending.len();
            let total = run.total;
            match stored {
                Ok(ids) => {
                    if ids == n {
                        if state.is_cancelled() && n > 0 {
                            r.push(ScanReport::Cancelled);
                            return r;
                        }
                        let mut pending: Vec<ImportInfo> = Vec::new();
                        std::mem::swap(&mut pending, &mut run.pending);
                        r = store_batch(state, pending, total);
                    } else {
                        let mut message = String::new();
                        push_str(&mut message, "batch upsert returned ");
                        push_dec(&mut message, ids as u64);
                        push_str(&mut message, " ids for ");
                        push_dec(&mut message, n as u64);
                        push_str(&mut message, " songs");
                        proof {
                            reveal_strlit("batch upsert returned ");
                            reveal_strlit(" ids for ");
                            reveal_strlit(" songs");
                        }
                        let ghost mv = message;
                        let mut pending: Vec<ImportInfo> = Vec::new();
                        std::mem::swap(&mut pending, &mut run.pending);
                        r = reject_batch(state, pending, total, message);
                        assert(mv@ == id_count_message(ids as nat, n as nat));
                    }
                },
                Err(e) => {
                    let mut pending: Vec<ImportInfo> = Vec::new();
                    std::mem::swap(&mut pending, &mut run.pending);
                    r = reject_batch(state, pending, total, e);
                },
            }
        },
        ScanEvent::Finished => {
            let (_, _, imported, skipped, errors) = state.get_stats();
            r.push(ScanReport::Completed { imported, skipped, errors });
        },
    }
    r
}

// ----------------------------------------------------------------------------
// A whole scan
// ----------------------------------------------------------------------------

/// The reports of several steps, one after the other.
pub open spec fn joined_reports(outs: Seq<Seq<ScanReport>>) -> Seq<ScanReport>
    decreases outs.len(),
{
    if outs.len() == 0 {
        Seq::empty()
    } else {
        joined_reports(outs.drop_last()) + outs.last()
    }
}

/// How many of the events are scanned files.
pub open spec fn scanned_count(events: Seq<ScanEvent>) -> nat
    decreases events.len(),
{
    if events.len() == 0 {
        0
    } else {
        scanned_count(events.drop_last()) + if events.last() is FileScanned { 1nat } else { 0nat }
    }
}

/// The counts of the `Processing` reports, in order.
pub open spec fn processed_counts(rs: Seq<ScanReport>) -> Seq<u64>
    decreases rs.len(),
{
    if rs.len() == 0 {
        Seq::empty()
    } else {
        let p = processed_counts(rs.drop_last());
        match rs.last() {
            ScanReport::Processing { current, .. } => p.push(current),
            _ => p,
        }
    }
}

/// `1, 2, ..., f`.
pub open spec fn one_to(f: nat) -> Seq<u64> {
    Seq::new(f, |j: int| (j + 1) as u64)
}

/// Whether the states, runs, events and reports are those of successive
/// calls of [`scan_step`]: each call's state and run are the previous call's
/// results.
pub open spec fn scan_trace(
    states: Seq<ScanState>,
    runs: Seq<ScanRun>,
    events: Seq<ScanEvent>,
    outs: Seq<Seq<ScanReport>>,
) -> bool {
    &&& states.len() == events.len() + 1
    &&& runs.len() == events.len() + 1
    &&& outs.len() == events.len()
    &&& forall|k: int|
        #![trigger events[k]]
        0 <= k < events.len() ==> (events[k] is FileScanned ==> states[k].current < u64::MAX) && step_result(
            states[k],
            runs[k],
            events[k],
            states[k + 1],
            runs[k + 1],
            outs[k],
        )
}

/// Whether a trace starts a new scan of `n` files: a fresh state and run, the
/// discovery of the files first and never again.
pub open spec fn starts_scan(states: Seq<ScanState>, runs: Seq<ScanRun>, events: Seq<ScanEvent>, n: u64) -> bool {
    &&& events.len() >= 1
    &&& states[0] == fresh_scan()
    &&& runs[0].pending@.len() == 0
    &&& events[0] == ScanEvent::Discovered { total: n }
    &&& forall|k: int| 1 <= k < events.len() ==> !(#[trigger] events[k] is Discovered)
}

proof fn lemma_processed_counts_add(a: Seq<ScanReport>, b: Seq<ScanReport>)
    ensures
        processed_counts(a + b) == processed_counts(a) + processed_counts(b),
    decreases b.len(),
{
    if b.len() == 0 {
        assert(a + b =~= a);
        assert(processed_counts(b) =~= Seq::<u64>::empty());
        assert(processed_counts(a) + processed_counts(b) =~= processed_counts(a));
    } else {
        lemma_processed_counts_add(a, b.drop_last());
        assert((a + b).drop_last() =~= a + b.drop_last());
        assert((a + b).last() == b.last());
        match b.last() {
            ScanReport::Processing { current, .. } => {
                assert(processed_counts(a) + processed_counts(b.drop_last()).push(current) =~= (processed_counts(a)
                    + processed_counts(b.drop_last())).push(current));
            },
            _ => {},
        }
    }
}

proof fn lemma_processed_counts_none(rs: Seq<ScanReport>)
    requires
        forall|j: int| 0 <= j < rs.len() ==> !(#[trigger] rs[j] is Processing),
    ensures
        processed_counts(rs) == Seq::<u64>::empty(),
    decreases rs.len(),
{
    if rs.len() > 0 {
        assert(!(rs[rs.len() - 1] is Processing));
        lemma_processed_counts_none(rs.drop_last());
    }
}

proof fn lemma_wrap_add_small(x: u64, n: nat)
    requires
        x + n <= u64::MAX,
    ensures
        wrap_add(x, n) == x + n,
{
    vstd::arithmetic::div_mod::lemma_small_mod((x + n) as nat, 0x1_0000_0000_0000_0000);
}

/// What holds after the first `k` steps of a new scan of `n` files that
/// nobody cancels.
pub open spec fn scan_prefix_facts(
    states: Seq<ScanState>,
    runs: Seq<ScanRun>,
    events: Seq<ScanEvent>,
    outs: Seq<Seq<ScanReport>>,
    n: u64,
    k: int,
) -> bool {
    let all = joined_reports(outs.take(k));
    let f = scanned_count(events.take(k));
    let s = states[k];
    let r = runs[k];
    &&& all.len() > 0 && all[0] == ScanReport::Started { total_files: n }
    &&& processed_counts(all) == one_to(f)
    &&& forall|j: int|
        0 <= j < all.len() ==> !(#[trigger] all[j] is Cancelled) && (all[j] matches ScanReport::Processing {
            total,
            ..
        } ==> total == n)
    &&& s.total == n && r.total == n && !s.cancelled && s.current == f
    &&& s.imported + s.skipped + s.errors + r.pending@.len() == f
    &&& (k == 1 && n == 0 ==> all == seq![
        ScanReport::Started { total_files: 0 },
        ScanReport::Completed { imported: 0, skipped: 0, errors: 0 },
    ])
    &&& (k >= 2 && events[k - 1] is Finished ==> all.last() == ScanReport::Completed {
        imported: s.imported,
        skipped: s.skipped,
        errors: s.errors,
    })
}

proof fn lemma_scan_prefix(
    states: Seq<ScanState>,
    runs: Seq<ScanRun>,
    events: Seq<ScanEvent>,
    outs: Seq<Seq<ScanReport>>,
    n: u64,
    k: int,
)
    requires
        scan_trace(states, runs, events, outs),
        starts_scan(states, runs, events, n),
        1 <= k <= events.len(),
    ensures
        scan_prefix_facts(states, runs, events, outs, n, k),
    decreases k,
{
    let ev = events[k - 1];
    assert(outs.take(k).drop_last() =~= outs.take(k - 1));
    assert(outs.take(k).last() == outs[k - 1]);
    assert(events.take(k).drop_last() =~= events.take(k - 1));
    assert(events.take(k).last() == ev);
    assert(step_result(states[k - 1], runs[k - 1], ev, states[k], runs[k], outs[k - 1]));
    let o = outs[k - 1];
    let s0 = states[k - 1];
    let r0 = runs[k - 1];
    let s1 = states[k];
    let r1 = runs[k];
    if k == 1 {
        assert(outs.take(0) =~= Seq::<Seq<ScanReport>>::empty());
        assert(events.take(0) =~= Seq::<ScanEvent>::empty());
        assert(joined_reports(outs.take(0)) == Seq::<ScanReport>::empty());
        assert(scanned_count(events.take(0)) == 0);
        let all = joined_reports(outs.take(1));
        assert(Seq::<ScanReport>::empty() + o =~= o);
        assert(all =~= o);
        assert forall|j: int| 0 <= j < o.len() implies !(#[trigger] o[j] is Processing) by {}
        lemma_processed_counts_none(o);
        assert(one_to(0) =~= Seq::<u64>::empty());
    } else {
        lemma_scan_prefix(states, runs, events, outs, n, k - 1);
        assert(!(ev is Discovered));
        let before = joined_reports(outs.take(k - 1));
        let f0 = scanned_count(events.take(k - 1));
        let all = before + o;
        assert(joined_reports(outs.take(k)) == all);
        lemma_processed_counts_add(before, o);
        assert(all[0] == before[0]);
        match ev {
            ScanEvent::FileScanned { file_name, outcome } => {
                let c = (s0.current + 1) as u64;
                assert(c == f0 + 1);
                let pr = ScanReport::Processing { current: c, total: r0.total, file_name };
                let q = seq![pr];
                assert(q.drop_last() =~= Seq::<ScanReport>::empty());
                assert(processed_counts(q.drop_last()) == Seq::<u64>::empty());
                assert(q.last() == pr);
                assert(processed_counts(q) == Seq::<u64>::empty().push(c));
                match outcome {
                    Ok(info) => {
                        assert(o =~= q);
                    },
                    Err(reason) => {
                        let sk = ScanReport::Skipped { current: c, total: r0.total, file_name, reason };
                        assert(o =~= q.push(sk));
                        assert(q.push(sk).drop_last() =~= q);
                        assert(processed_counts(q.push(sk)) == processed_counts(q));
                    },
                }
                assert(processed_counts(o) =~= seq![c]);
                assert(one_to(f0).push(c) =~= one_to(f0 + 1));
            },
            _ => {
                assert forall|j: int| 0 <= j < o.len() implies !(#[trigger] o[j] is Processing) by {}
                lemma_processed_counts_none(o);
                assert(processed_counts(all) =~= processed_counts(before));
                match ev {
                    ScanEvent::BatchStored { stored } => {
                        let p = r0.pending@;
                        match stored {
                            Ok(c) => {
                                if c == p.len() {
                                    lemma_wrap_add_small(s0.imported, p.len());
                                } else {
                                    lemma_wrap_add_small(s0.errors, p.len());
                                }
                            },
                            Err(e) => {
                                lemma_wrap_add_small(s0.errors, p.len());
                            },
                        }
                    },
                    _ => {},
                }
            },
        }
        assert forall|j: int| 0 <= j < all.len() implies !(#[trigger] all[j] is Cancelled) && (all[j] matches ScanReport::Processing {
            total,
            ..
        } ==> total == n) by {
            if j < before.len() {
                assert(all[j] == before[j]);
            } else {
                assert(all[j] == o[j - before.len()]);
            }
        }
    }
    let all = joined_reports(outs.take(k));
    let f = scanned_count(events.take(k));
    assert(all.len() > 0 && all[0] == ScanReport::Started { total_files: n });
    assert(processed_counts(all) == one_to(f));
    assert(s1.total == n && r1.total == n && !s1.cancelled && s1.current == f);
    assert(s1.imported + s1.skipped + s1.errors + r1.pending@.len() == f);
    assert(k == 1 && n == 0 ==> all == seq![
        ScanReport::Started { total_files: 0 },
        ScanReport::Completed { imported: 0, skipped: 0, errors: 0 },
    ]);
    assert(k >= 2 && events[k - 1] is Finished ==> all.last() == ScanReport::Completed {
        imported: s1.imported,
        skipped: s1.skipped,
        errors: s1.errors,
    });
}

/// A whole scan of `n` files that nobody cancels: the first report is
/// `Started` with `n`; the `Processing` reports count 1, 2, ... up to the
/// number of scanned files, each out of `n`; no report is `Cancelled`; the
/// state's totals are `n` and the number of scanned files. After `Finished`,
/// the last report is `Completed` with the state's counts, and these and the
/// files still waiting to be stored add up to the scanned files (so, when
/// every file was scanned and every batch stored, imported, skipped and failed
/// files add up to `n`). With no file at all, the first step reports `Started`
/// and `Completed` with nothing counted.
pub proof fn lemma_whole_scan(
    states: Seq<ScanState>,
    runs: Seq<ScanRun>,
    events: Seq<ScanEvent>,
    outs: Seq<Seq<ScanReport>>,
    n: u64,
)
    requires
        scan_trace(states, runs, events, outs),
        starts_scan(states, runs, events, n),
    ensures
        ({
            let all = joined_reports(outs);
            let f = scanned_count(events);
            let m = events.len() as int;
            let s = states[m];
            &&& all.len() > 0 && all[0] == ScanReport::Started { total_files: n }
            &&& processed_counts(all) == one_to(f)
            &&& forall|j: int|
                0 <= j < all.len() ==> !(#[trigger] all[j] is Cancelled) && (all[j] matches ScanReport::Processing {
                    total,
                    ..
                } ==> total == n)
            &&& s.total == n && s.current == f && !s.cancelled
            &&& (m == 1 && n == 0 ==> all == seq![
                ScanReport::Started { total_files: 0 },
                ScanReport::Completed { imported: 0, skipped: 0, errors: 0 },
            ])
            &&& (m >= 2 && events[m - 1] is Finished ==> {
                &&& all.last() == ScanReport::Completed { imported: s.imported, skipped: s.skipped, errors: s.errors }
                &&& s.imported + s.skipped + s.errors + runs[m].pending@.len() == f
            })
        }),
{
    lemma_scan_prefix(states, runs, events, outs, n, events.len() as int);
    assert(outs.take(events.len() as int) =~= outs);
    assert(events.take(events.len() as int) =~= events);
}

/// No step of a scan changes whether it is cancelled: once cancelled, it
/// stays cancelled.
pub proof fn lemma_cancel_is_kept(s0: ScanState, r0: ScanRun, ev: ScanEvent, s1: ScanState, r1: ScanRun, out: Seq<
    ScanReport,
>)
    requires
        step_result(s0, r0, ev, s1, r1, out),
    ensures
        s1.cancelled == s0.cancelled,
{
}

} // verus!
