//! The decisions of a catalog scan: progress counting and reports, whether a
//! file's duration is kept, carried over from a renamed file or probed, and
//! which catalog rows go stale.
use vstd::prelude::*;

use crate::models::{progress, texts, AppError, ScanProgress};
use crate::text::{decimal, push_decimal, push_str, string_of};

verus! {

/// Counters of a running scan: folders read, folders passed over unchanged,
/// files written.
#[derive(Clone, Copy, Debug, PartialEq, Eq, Structural)]
pub struct ScanTally {
    pub scanned: u64,
    pub skipped: u64,
    pub files: u64,
}

/// A report in the `scanning` phase.
pub open spec fn scanning_view(t: ScanTally, message: Seq<char>, folder: Seq<char>) -> (
    Seq<char>,
    Seq<char>,
    u64,
    u64,
    u64,
    Seq<char>,
) {
    ("scanning"@, message, t.scanned, t.skipped, t.files, folder)
}

/// The message while durations are filled into an unchanged folder.
pub open spec fn filling_message(filled: u64) -> Seq<char> {
    "Filling durations ("@ + decimal(filled as nat) + ")\u{2026}"@
}

impl ScanTally {
    /// Nothing counted yet.
    pub fn new() -> (t: ScanTally)
        ensures
            t == (ScanTally { scanned: 0, skipped: 0, files: 0 }),
    {
        ScanTally { scanned: 0, skipped: 0, files: 0 }
    }

    /// The report sent while in a folder (or, with an empty folder, at the
    /// start).
    pub fn report(&self, folder: &str) -> (p: ScanProgress)
        ensures
            p.view() == scanning_view(*self, "Scanning\u{2026}"@, folder@),
    {
        progress("scanning", "Scanning\u{2026}", self.scanned, self.skipped, self.files, folder)
    }

    /// A folder's listing was read.
    pub fn folder_read(&mut self)
        requires
            old(self).scanned < u64::MAX,
        ensures
            *final(self) == (ScanTally { scanned: (old(self).scanned + 1) as u64, ..*old(self) }),
    {
        self.scanned = self.scanned + 1;
    }

    /// A missing duration was filled into an unchanged folder's file.
    pub fn duration_filled(&mut self)
        requires
            old(self).files < u64::MAX,
        ensures
            *final(self) == (ScanTally { files: (old(self).files + 1) as u64, ..*old(self) }),
    {
        self.files = self.files + 1;
    }

    /// An unchanged folder is done, `filled` durations having been filled:
    /// with none it counts as skipped, else it is reported.
    pub fn unchanged_folder_done(&mut self, filled: u64, folder: &str) -> (r: Option<ScanProgress>)
        requires
            old(self).skipped < u64::MAX,
        ensures
            filled == 0 ==> r is None && *final(self) == (ScanTally {
                skipped: (old(self).skipped + 1) as u64,
                ..*old(self)
            }),
            filled != 0 ==> *final(self) == *old(self) && (r matches Some(p) && p.view()
                == scanning_view(*old(self), filling_message(filled), folder@)),
    {
        if filled == 0 {
            self.skipped = self.skipped + 1;
            None
        } else {
            let mut m: Vec<char> = Vec::new();
            push_str(&mut m, "Filling durations (");
            push_decimal(&mut m, filled);
            push_str(&mut m, ")\u{2026}");
            let msg = string_of(&m);
            Some(progress("scanning", msg.as_str(), self.scanned, self.skipped, self.files, folder))
        }
    }

    /// A file's catalog row was written; every 25th file is reported.
    pub fn file_written(&mut self, folder: &str) -> (r: Option<ScanProgress>)
        requires
            old(self).files < u64::MAX,
        ensures
            *final(self) == (ScanTally { files: (old(self).files + 1) as u64, ..*old(self) }),
            (final(self).files % 25 == 0) == (r is Some),
            r matches Some(p) ==> p.view() == scanning_view(
                *final(self),
                "Scanning\u{2026}"@,
                folder@,
            ),
    {
        self.files = self.files + 1;
        if self.files % 25 == 0 {
            Some(self.report(folder))
        } else {
            None
        }
    }

    /// The report when the scan is cancelled; `catalog` is the number of
    /// files the catalog holds.
    pub fn cancelled(&self, catalog: u64) -> (p: ScanProgress)
        ensures
            p.view() == ("idle"@, "Scan cancelled"@, self.scanned, self.skipped, catalog, ""@),
    {
        progress("idle", "Scan cancelled", self.scanned, self.skipped, catalog, "")
    }

    /// The report when the scan has completed.
    pub fn finished(&self, catalog: u64) -> (p: ScanProgress)
        ensures
            p.view() == ("done"@, "Scan complete"@, self.scanned, self.skipped, catalog, ""@),
    {
        progress("done", "Scan complete", self.scanned, self.skipped, catalog, "")
    }
}

/// The report when there is nothing to scan.
pub fn no_roots_progress(catalog: u64) -> (p: ScanProgress)
    ensures
        p.view() == ("error"@, "No roots configured"@, 0u64, 0u64, catalog, ""@),
{
    progress("error", "No roots configured", 0, 0, catalog, "")
}

/// The report of a scan that failed with `message`.
pub fn error_progress(message: &str) -> (p: ScanProgress)
    ensures
        p.view() == ("error"@, message@, 0u64, 0u64, 0u64, ""@),
{
    progress("error", message, 0, 0, 0, "")
}

/// The report before any scan.
pub fn idle_progress() -> (p: ScanProgress)
    ensures
        p.view() == ("idle"@, ""@, 0u64, 0u64, 0u64, ""@),
{
    progress("idle", "", 0, 0, 0, "")
}

// ---------------------------------------------------------------- durations

/// Where a scan's loop stands when it decides what to do next.
#[derive(Clone, Copy, Debug, PartialEq, Eq, Structural)]
pub enum ScanPoint {
    /// About to start, with this many roots configured.
    Start { roots: usize },
    /// Before one of the roots; whether it names a folder.
    Root { is_dir: bool },
    /// Before an entry of a root's walk; whether it is a folder.
    Entry { is_dir: bool },
    /// A folder's listing was tried; whether it could be read.
    Listed { readable: bool },
    /// Every root has been walked.
    Walked,
}

/// What a scan's loop does next.
#[derive(Clone, Copy, Debug, PartialEq, Eq, Structural)]
pub enum ScanMove {
    /// Report that no roots are configured and stop; nothing was begun.
    ReportNoRoots,
    /// Report that scanning starts and open the catalog transaction.
    Begin,
    /// Undo the transaction, report the cancellation and stop.
    RollBack,
    /// Pass over this root, entry or folder.
    Skip,
    /// Walk the folders under this root.
    WalkRoot,
    /// Read this folder's listing.
    ListFolder,
    /// Compare the folder with the catalog and record it.
    RecordFolder,
    /// Trim the catalog to the roots, commit, and report the end.
    TrimAndCommit,
}

/// The next move: no roots stop the scan before anything begins; a
/// cancellation is answered before the next root or walk entry by rolling
/// back; roots that are not folders, entries that are not folders and
/// folders that cannot be read are passed over.
pub open spec fn next_move(point: ScanPoint, cancel_requested: bool) -> ScanMove {
    match point {
        ScanPoint::Start { roots } => if roots == 0 {
            ScanMove::ReportNoRoots
        } else {
            ScanMove::Begin
        },
        ScanPoint::Root { is_dir } => if cancel_requested {
            ScanMove::RollBack
        } else if !is_dir {
            ScanMove::Skip
        } else {
            ScanMove::WalkRoot
        },
        ScanPoint::Entry { is_dir } => if cancel_requested {
            ScanMove::RollBack
        } else if !is_dir {
            ScanMove::Skip
        } else {
            ScanMove::ListFolder
        },
        ScanPoint::Listed { readable } => if readable {
            ScanMove::RecordFolder
        } else {
            ScanMove::Skip
        },
        ScanPoint::Walked => ScanMove::TrimAndCommit,
    }
}

/// Decides a scan's next move at `point`, given whether a cancellation has
/// been requested.
pub fn scan_move(point: ScanPoint, cancel_requested: bool) -> (m: ScanMove)
    ensures
        m == next_move(point, cancel_requested),
{
    match point {
        ScanPoint::Start { roots } => {
            if roots == 0 {
                ScanMove::ReportNoRoots
            } else {
                ScanMove::Begin
            }
        },
        ScanPoint::Root { is_dir } => {
            if cancel_requested {
                ScanMove::RollBack
            } else if !is_dir {
                ScanMove::Skip
            } else {
                ScanMove::WalkRoot
            }
        },
        ScanPoint::Entry { is_dir } => {
            if cancel_requested {
                ScanMove::RollBack
            } else if !is_dir {
                ScanMove::Skip
            } else {
                ScanMove::ListFolder
            }
        },
        ScanPoint::Listed { readable } => {
            if readable {
                ScanMove::RecordFolder
            } else {
                ScanMove::Skip
            }
        },
        ScanPoint::Walked => ScanMove::TrimAndCommit,
    }
}

/// Only a begun scan is rolled back or committed: the moves that touch the
/// transaction come after roots exist, and a scan with no roots begins
/// nothing.
pub proof fn only_begun_scans_touch_the_catalog(point: ScanPoint, cancel_requested: bool)
    ensures
        next_move(point, cancel_requested) == ScanMove::Begin ==> (point matches ScanPoint::Start {
            roots,
        } && roots > 0),
        (point matches ScanPoint::Start { roots } && roots == 0) ==> next_move(
            point,
            cancel_requested,
        ) == ScanMove::ReportNoRoots,
        (next_move(point, cancel_requested) == ScanMove::RollBack || next_move(
            point,
            cancel_requested,
        ) == ScanMove::TrimAndCommit) ==> !(point is Start),
{
}

/// What to do about a file's duration.
#[derive(Clone, Copy, Debug)]
pub enum DurationPlan<T> {
    /// Store this duration (which may be none).
    Use(Option<T>),
    /// Probe the file; if that finds nothing, store `fallback`.
    Probe { fallback: Option<T> },
}

/// A known duration of an unchanged file stays; else one carried over from a
/// file of the same size and time in this folder is taken; else the file is
/// probed, keeping the known duration if probing finds none.
pub open spec fn duration_plan<T>(content_changed: bool, existing: Option<T>, carried: Option<T>) -> DurationPlan<T> {
    if !content_changed && existing is Some {
        DurationPlan::Use(existing)
    } else if carried is Some {
        DurationPlan::Use(carried)
    } else if content_changed || existing is None {
        DurationPlan::Probe { fallback: existing }
    } else {
        DurationPlan::Use(existing)
    }
}

pub fn plan_duration<T: Copy>(content_changed: bool, existing: Option<T>, carried: Option<T>) -> (r: DurationPlan<T>)
    ensures
        r == duration_plan(content_changed, existing, carried),
{
    if !content_changed && existing.is_some() {
        DurationPlan::Use(existing)
    } else if carried.is_some() {
        DurationPlan::Use(carried)
    } else if content_changed || existing.is_none() {
        DurationPlan::Probe { fallback: existing }
    } else {
        DurationPlan::Use(existing)
    }
}

/// A file's duration is never dropped unprobed: the plan stores a duration
/// only when it is known — the catalog's own for unchanged content, or one
/// carried over from a renamed file — and otherwise probes the file, falling
/// back to the catalog's duration. A file new to the catalog, with nothing
/// to carry over, is probed with nothing to fall back on.
pub proof fn durations_are_never_dropped_unprobed<T>(
    content_changed: bool,
    existing: Option<T>,
    carried: Option<T>,
)
    ensures
        (duration_plan(content_changed, existing, carried) != DurationPlan::<T>::Use(None)),
        (duration_plan(content_changed, existing, carried) matches DurationPlan::Use(Some(d))
            ==> (!content_changed && existing == Some(d)) || carried == Some(d)),
        (duration_plan(content_changed, existing, carried) matches DurationPlan::Probe {
            fallback,
        } ==> fallback == existing && carried is None),
        (!content_changed && existing is Some ==> duration_plan(content_changed, existing, carried)
            == DurationPlan::Use(existing)),
        (existing is None && carried is None ==> duration_plan(content_changed, existing, carried)
            == (DurationPlan::<T>::Probe { fallback: None })),
{
}

/// Whether a scan that skips an unchanged folder probes one of its media
/// files: only when the catalog holds the file (`Some`) without a duration.
pub open spec fn fill_wanted<T>(stored_duration: Option<Option<T>>) -> bool {
    stored_duration matches Some(None)
}

/// Decides, for a file of an unchanged folder, whether to probe it for the
/// duration the catalog lacks.
pub fn wants_duration_fill<T>(stored_duration: &Option<Option<T>>) -> (r: bool)
    ensures
        r == fill_wanted(*stored_duration),
{
    match stored_duration {
        Some(None) => true,
        _ => false,
    }
}

/// A file the catalog held for a folder before it was rescanned: its size,
/// its modification time in whole milliseconds, its duration.
#[derive(Clone, Copy, Debug)]
pub struct PriorFile<T> {
    pub size_bytes: i64,
    pub mtime_ms: i64,
    pub duration: Option<T>,
}

/// The duration of the first prior file with this size and time, if any.
pub open spec fn carried_over<T>(prior: Seq<PriorFile<T>>, size_bytes: i64, mtime_ms: i64) -> Option<T>
    decreases prior.len(),
{
    if prior.len() == 0 {
        None
    } else if prior[0].size_bytes == size_bytes && prior[0].mtime_ms == mtime_ms {
        prior[0].duration
    } else {
        carried_over(prior.drop_first(), size_bytes, mtime_ms)
    }
}

/// The duration to carry over to a file of this size and time: a renamed
/// file keeps its duration without being probed again.
pub fn carried_duration<T: Copy>(prior: &Vec<PriorFile<T>>, size_bytes: i64, mtime_ms: i64) -> (r: Option<T>)
    ensures
        r == carried_over(prior@, size_bytes, mtime_ms),
{
    let mut i: usize = 0;
    assert(prior@.skip(0) == prior@);
    while i < prior.len()
        invariant
            i <= prior.len(),
            carried_over(prior@, size_bytes, mtime_ms) == carried_over(
                prior@.skip(i as int),
                size_bytes,
                mtime_ms,
            ),
        decreases prior.len() - i,
    {
        if prior[i].size_bytes == size_bytes && prior[i].mtime_ms == mtime_ms {
            return prior[i].duration;
        }
        assert(prior@.skip(i as int).drop_first() == prior@.skip(i + 1));
        i = i + 1;
    }
    None
}

/// Indices of the prior paths that the rescan did not see.
pub open spec fn stale_upto(prior: Seq<Seq<char>>, seen: Seq<Seq<char>>, n: int) -> Seq<usize>
    decreases n,
{
    if n <= 0 {
        seq![]
    } else {
        let rest = stale_upto(prior, seen, n - 1);
        if seen.contains(prior[n - 1]) {
            rest
        } else {
            rest.push((n - 1) as usize)
        }
    }
}

fn contains_string(list: &Vec<String>, t: &String) -> (b: bool)
    ensures
        b == texts(list@).contains(t@),
{
    let mut i: usize = 0;
    while i < list.len()
        invariant
            i <= list.len(),
            forall|k: int| 0 <= k < i ==> list@[k]@ != t@,
        decreases list.len() - i,
    {
        if list[i] == *t {
            assert(texts(list@)[i as int] == t@);
            return true;
        }
        i = i + 1;
    }
    assert(!texts(list@).contains(t@)) by {
        if texts(list@).contains(t@) {
            let k = choose|k: int| 0 <= k < texts(list@).len() && texts(list@)[k] == t@;
            assert(list@[k]@ == t@);
        }
    }
    false
}

/// The catalog rows of a folder that went away: renamed or removed files.
pub fn stale_paths(prior: &Vec<String>, seen: &Vec<String>) -> (r: Vec<usize>)
    ensures
        r@ == stale_upto(texts(prior@), texts(seen@), prior@.len() as int),
{
    let mut out: Vec<usize> = Vec::new();
    let mut i: usize = 0;
    while i < prior.len()
        invariant
            i <= prior.len(),
            out@ == stale_upto(texts(prior@), texts(seen@), i as int),
        decreases prior.len() - i,
    {
        if !contains_string(seen, &prior[i]) {
            out.push(i);
        }
        i = i + 1;
    }
    out
}

// ---------------------------------------------------------------- scan state

/// Whether a scan runs, whether it can be cancelled, and its last report.
#[derive(Debug)]
pub struct AppState {
    pub scanning: bool,
    pub cancel_armed: bool,
    pub last_progress: ScanProgress,
}

impl Default for AppState {
    /// No scan yet: idle.
    fn default() -> (s: AppState)
        ensures
            !s.scanning,
            !s.cancel_armed,
            s.last_progress.view() == ("idle"@, ""@, 0u64, 0u64, 0u64, ""@),
    {
        AppState { scanning: false, cancel_armed: false, last_progress: idle_progress() }
    }
}

impl AppState {
    /// Claims the scanner; a second claim while a scan runs is refused.
    pub fn try_begin(&mut self) -> (r: Result<(), AppError>)
        ensures
            old(self).scanning ==> (r matches Err(e) && e.is_message("Scan already running"@))
                && final(self).scanning && final(self).cancel_armed == old(self).cancel_armed
                && final(self).last_progress == old(self).last_progress,
            !old(self).scanning ==> r is Ok && final(self).scanning && final(self).cancel_armed
                == old(self).cancel_armed && final(self).last_progress == old(self).last_progress,
    {
        if self.scanning {
            return Err(AppError::Message(crate::text::owned("Scan already running")));
        }
        self.scanning = true;
        Ok(())
    }

    /// The scan starts running: it can be cancelled and reports from zero.
    pub fn started(&mut self)
        ensures
            final(self).scanning == old(self).scanning,
            final(self).cancel_armed,
            final(self).last_progress.view() == ("scanning"@, "Scanning\u{2026}"@, 0u64, 0u64, 0u64, ""@),
    {
        self.cancel_armed = true;
        self.last_progress = progress("scanning", "Scanning\u{2026}", 0, 0, 0, "");
    }

    /// The scan ended with a report, or failed with a message: the scanner
    /// is free again.
    pub fn finish(&mut self, outcome: Result<ScanProgress, String>)
        ensures
            !final(self).scanning,
            !final(self).cancel_armed,
            match outcome {
                Ok(p) => final(self).last_progress == p,
                Err(m) => final(self).last_progress.view() == ("error"@, m@, 0u64, 0u64, 0u64, ""@),
            },
    {
        self.last_progress = match outcome {
            Ok(p) => p,
            Err(m) => error_progress(m.as_str()),
        };
        self.scanning = false;
        self.cancel_armed = false;
    }

    /// Whether a cancel request reaches a running scan.
    pub fn cancel_reaches(&self) -> (b: bool)
        ensures
            b == self.cancel_armed,
    {
        self.cancel_armed
    }
}

} // verus!
