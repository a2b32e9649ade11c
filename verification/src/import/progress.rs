//! Scan progress: the counters of a library scan and its cancellation flag.
//!
//! The state is a plain value here; sharing it between the scanning threads
//! and the interface (behind a lock) is the application's part.

use vstd::prelude::*;

use crate::text::copy_string;

verus! {

/// Why a file was skipped.
#[derive(Debug, Clone, PartialEq)]
pub enum SkipReason {
    /// Already in the library.
    AlreadyExists,
    /// Corrupted or unreadable.
    Corrupted,
    /// Not an audio file.
    NotAudioFile,
    /// Empty (0 bytes).
    EmptyFile,
    /// Its metadata could not be read.
    MetadataError(String),
    /// The library database did not store it.
    DatabaseError(String),
}

/// The progress of a scan.
#[derive(Debug)]
pub struct ScanState {
    /// Files to scan.
    pub total: u64,
    /// Files processed so far.
    pub current: u64,
    /// Files imported.
    pub imported: u64,
    /// Files skipped.
    pub skipped: u64,
    /// Files that failed.
    pub errors: u64,
    /// Whether the scan was cancelled.
    pub cancelled: bool,
    /// Every scanned file path (for playlist creation).
    pub scanned_paths: Option<Vec<String>>,
}

pub open spec fn paths_view(o: Option<Vec<String>>) -> Option<Seq<Seq<char>>> {
    match o {
        Some(v) => Some(v@.map_values(|s: String| s@)),
        None => None,
    }
}

/// The recorded paths (none when there is no record).
pub open spec fn scanned_list(o: Option<Vec<String>>) -> Seq<String> {
    match o {
        Some(v) => v@,
        None => Seq::empty(),
    }
}

/// The state of a scan that has not started.
pub open spec fn fresh_scan() -> ScanState {
    ScanState { total: 0, current: 0, imported: 0, skipped: 0, errors: 0, cancelled: false, scanned_paths: None }
}

/// The state after one more processed file.
pub open spec fn counted(s: ScanState) -> ScanState {
    ScanState { current: (s.current + 1) as u64, ..s }
}

/// The state after `n` more processed files.
pub open spec fn counted_times(s: ScanState, n: nat) -> ScanState
    decreases n,
{
    if n == 0 {
        s
    } else {
        counted(counted_times(s, (n - 1) as nat))
    }
}

/// Counting `n` processed files on a new scan: the `k`-th count gives `k`,
/// and afterwards only the processed count has changed, to `n`.
pub proof fn lemma_counting_from_new(n: nat)
    requires
        n <= u64::MAX,
    ensures
        forall|k: nat| 1 <= k <= n ==> #[trigger] counted_times(fresh_scan(), k).current == k,
        counted_times(fresh_scan(), n) == (ScanState { current: n as u64, ..fresh_scan() }),
    decreases n,
{
    if n > 0 {
        lemma_counting_from_new((n - 1) as nat);
    }
}

fn copy_paths(v: &Vec<String>) -> (r: Vec<String>)
    ensures
        r@.map_values(|s: String| s@) == v@.map_values(|s: String| s@),
{
    let mut r: Vec<String> = Vec::new();
    let mut i: usize = 0;
    while i < v.len()
        invariant
            i <= v.len(),
            r@.map_values(|s: String| s@) == v@.take(i as int).map_values(|s: String| s@),
        decreases v.len() - i,
    {
        let ghost prev = r@;
        let x = copy_string(&v[i]);
        let ghost xv = x@;
        r.push(x);
        assert(r@.map_values(|s: String| s@) =~= prev.map_values(|s: String| s@).push(xv));
        assert(v@.take(i + 1).map_values(|s: String| s@) =~= v@.take(i as int).map_values(|s: String| s@).push(v@[i as int]@));
        i += 1;
    }
    assert(v@.take(v.len() as int) =~= v@);
    r
}

impl ScanState {
    /// A scan that has not started.
    pub fn new() -> (r: Self)
        ensures
            r == fresh_scan(),
    {
        ScanState {
            total: 0,
            current: 0,
            imported: 0,
            skipped: 0,
            errors: 0,
            cancelled: false,
            scanned_paths: None,
        }
    }

    pub fn set_total(&mut self, total: u64)
        ensures
            *final(self) == (ScanState { total, ..*old(self) }),
    {
        self.total = total;
    }

    /// Counts one more processed file and returns the new count.
    pub fn increment_current(&mut self) -> (r: u64)
        requires
            old(self).current < u64::MAX,
        ensures
            r == old(self).current + 1,
            *final(self) == counted(*old(self)),
            r == final(self).current,
    {
        self.current = self.current + 1;
        self.current
    }

    /// Counts one more imported file (modulo 2^64).
    pub fn increment_imported(&mut self)
        ensures
            *final(self) == (ScanState { imported: old(self).imported.wrapping_add(1), ..*old(self) }),
    {
        self.imported = self.imported.wrapping_add(1);
    }

    /// Counts one more skipped file (modulo 2^64).
    pub fn increment_skipped(&mut self)
        ensures
            *final(self) == (ScanState { skipped: old(self).skipped.wrapping_add(1), ..*old(self) }),
    {
        self.skipped = self.skipped.wrapping_add(1);
    }

    /// Counts one more failed file (modulo 2^64).
    pub fn increment_errors(&mut self)
        ensures
            *final(self) == (ScanState { errors: old(self).errors.wrapping_add(1), ..*old(self) }),
    {
        self.errors = self.errors.wrapping_add(1);
    }

    pub fn cancel(&mut self)
        ensures
            *final(self) == (ScanState { cancelled: true, ..*old(self) }),
    {
        self.cancelled = true;
    }

    pub fn is_cancelled(&self) -> (r: bool)
        ensures
            r == self.cancelled,
    {
        self.cancelled
    }

    /// Total, current, imported, skipped and error counts.
    pub fn get_stats(&self) -> (r: (u64, u64, u64, u64, u64))
        ensures
            r == (self.total, self.current, self.imported, self.skipped, self.errors),
    {
        (self.total, self.current, self.imported, self.skipped, self.errors)
    }

    /// Records every scanned file path.
    pub fn set_scanned_paths(&mut self, paths: Vec<String>)
        ensures
            *final(self) == (ScanState { scanned_paths: Some(paths), ..*old(self) }),
    {
        self.scanned_paths = Some(paths);
    }

    /// Adds a scanned file path to the record (starting one if there is none).
    pub fn push_scanned_path(&mut self, path: String)
        ensures
            final(self).scanned_paths is Some,
            final(self).scanned_paths->0@ == scanned_list(old(self).scanned_paths).push(path),
            final(self).total == old(self).total,
            final(self).current == old(self).current,
            final(self).imported == old(self).imported,
            final(self).skipped == old(self).skipped,
            final(self).errors == old(self).errors,
            final(self).cancelled == old(self).cancelled,
    {
        let mut paths: Option<Vec<String>> = None;
        std::mem::swap(&mut paths, &mut self.scanned_paths);
        let mut v = match paths {
            Some(v) => v,
            None => Vec::new(),
        };
        v.push(path);
        self.scanned_paths = Some(v);
    }

    /// The scanned file paths, if recorded.
    pub fn get_scanned_paths(&self) -> (r: Option<Vec<String>>)
        ensures
            paths_view(r) == paths_view(self.scanned_paths),
    {
        match &self.scanned_paths {
            Some(v) => Some(copy_paths(v)),
            None => None,
        }
    }
}

impl Default for ScanState {
    fn default() -> (r: Self)
        ensures
            r.total == 0 && r.current == 0 && r.imported == 0 && r.skipped == 0 && r.errors == 0,
            !r.cancelled,
            r.scanned_paths is None,
    {
        ScanState::new()
    }
}

} // verus!
